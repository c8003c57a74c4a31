use haloobot::hs::{extract_cartoon_url, first_source, HsCartoonExtractor};

#[test]
fn the_two_comics() {
    let fingerpori = HsCartoonExtractor::fingerpori();
    assert_eq!(fingerpori.name, "Fingerpori");
    assert_eq!(fingerpori.pages, 480);
    let fokit = HsCartoonExtractor::fokit();
    assert_eq!(fokit.name, "Fok_It");
    assert_eq!(fokit.pages, 499);
}

#[test]
fn the_latest_page_begins_at_zero() {
    assert_eq!(
        HsCartoonExtractor::fingerpori().get_latest_page_url(),
        "https://www.hs.fi/rest/laneitems/39221/moreItems?pageId=290&even=false&from=0"
    );
    assert_eq!(
        HsCartoonExtractor::fokit().get_latest_page_url(),
        "https://www.hs.fi/rest/laneitems/39221/moreItems?pageId=295&even=false&from=0"
    );
}

#[test]
fn a_page_begins_at_the_place_asked_for() {
    let comic = HsCartoonExtractor { name: "x", paged_url: "http://a/b?c=d", pages: 3 };
    assert_eq!(comic.page_url(0), "http://a/b?c=d&from=0");
    assert_eq!(comic.page_url(7), "http://a/b?c=d&from=7");
    assert_eq!(comic.page_url(120), "http://a/b?c=d&from=120");
    assert_eq!(comic.page_url(u32::MAX), "http://a/b?c=d&from=4294967295");
}

#[test]
fn a_random_page_lies_within_the_pages() {
    let comic = HsCartoonExtractor { name: "x", paged_url: "u", pages: 3 };
    let mut seen = [false; 4];
    for _ in 0..400 {
        let url = comic.get_random_page_url();
        let offset: usize = url.strip_prefix("u&from=").unwrap().parse().unwrap();
        assert!(offset <= 3);
        seen[offset] = true;
    }
    assert_eq!(seen, [true; 4]);
    let single = HsCartoonExtractor { name: "x", paged_url: "u", pages: 0 };
    assert_eq!(single.get_random_page_url(), "u&from=0");
}

#[test]
fn the_first_source_ends_at_the_first_space() {
    assert_eq!(first_source("//a.b/c.jpg 1x, //a.b/d.jpg 2x"), "//a.b/c.jpg");
    assert_eq!(first_source("nospace"), "nospace");
    assert_eq!(first_source(" leading"), "");
    assert_eq!(first_source(""), "");
}

#[test]
fn the_address_of_a_strip_gets_its_scheme() {
    assert_eq!(
        extract_cartoon_url("//hs.mediadelivery.fi/img/978/abc.jpg 978w"),
        "https://hs.mediadelivery.fi/img/978/abc.jpg"
    );
    assert_eq!(extract_cartoon_url(""), "https:");
}
