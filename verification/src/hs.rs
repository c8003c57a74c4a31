//! Where the strips of the comics are found.

use crate::chance::random_below;
use crate::text::{chars_of, decimal_text, write_decimal};
use vstd::prelude::*;
use vstd::string::StringExecFns;

verus! {

/// A comic whose strips are listed page by page.
#[derive(Copy, Clone, Debug)]
pub struct HsCartoonExtractor {
    /// The name of the comic.
    pub name: &'static str,
    /// The address of the list of strips, without the place to begin at.
    pub paged_url: &'static str,
    /// The last place in the list that a strip can be asked from.
    pub pages: u32,
}

/// The address of the list of strips from place `offset` on.
pub open spec fn page_url_text(paged_url: Seq<char>, offset: nat) -> Seq<char> {
    paged_url + "&from="@ + decimal_text(offset)
}

/// What stands in `text` before its first space: all of it where it holds none.
pub open spec fn first_piece(text: Seq<char>) -> Seq<char>
    decreases text.len(),
{
    if text.len() == 0 || text[0] == ' ' {
        Seq::empty()
    } else {
        seq![text[0]] + first_piece(text.skip(1))
    }
}

/// The address of a strip as the list gives it: the first of the sources
/// listed, with the scheme put before it.
pub open spec fn cartoon_url_text(srcset: Seq<char>) -> Seq<char> {
    "https:"@ + first_piece(srcset)
}

impl HsCartoonExtractor {
    /// The first of the two comics.
    pub fn fingerpori() -> (comic: Self)
        ensures
            comic.pages == 480,
            comic.name@ == "Fingerpori"@,
            comic.paged_url@
                == "https://www.hs.fi/rest/laneitems/39221/moreItems?pageId=290&even=false"@,
    {
        Self {
            name: "Fingerpori",
            paged_url: "https://www.hs.fi/rest/laneitems/39221/moreItems?pageId=290&even=false",
            pages: 480,
        }
    }

    /// The second of the two comics.
    pub fn fokit() -> (comic: Self)
        ensures
            comic.pages == 499,
            comic.name@ == "Fok_It"@,
            comic.paged_url@
                == "https://www.hs.fi/rest/laneitems/39221/moreItems?pageId=295&even=false"@,
    {
        Self {
            name: "Fok_It",
            paged_url: "https://www.hs.fi/rest/laneitems/39221/moreItems?pageId=295&even=false",
            pages: 499,
        }
    }

    /// The address of the list of strips from place `offset` on.
    pub fn page_url(&self, offset: u32) -> (url: String)
        ensures
            url@ == page_url_text(self.paged_url@, offset as nat),
    {
        let mut url = String::from_str(self.paged_url);
        url.append("&from=");
        let digits = write_decimal(offset as u64);
        url.append(digits.as_str());
        url
    }

    /// The address of the list that begins with the latest strip.
    pub fn get_latest_page_url(&self) -> (url: String)
        ensures
            url@ == page_url_text(self.paged_url@, 0),
    {
        self.page_url(0)
    }

    /// The address of the list that begins at a place chosen at random, any
    /// place up to the last being as likely as the other.
    pub fn get_random_page_url(&self) -> (url: String)
        ensures
            exists|offset: nat|
                offset <= self.pages && url@ == page_url_text(self.paged_url@, offset),
    {
        let offset = random_below(self.pages as u64 + 1) as u32;
        let url = self.page_url(offset);
        assert(offset as nat <= self.pages);
        assert(url@ == page_url_text(self.paged_url@, offset as nat));
        url
    }
}

/// What stands in `srcset` before its first space.
pub fn first_source(srcset: &str) -> (source: String)
    ensures
        source@ == first_piece(srcset@),
{
    let chars = chars_of(srcset);
    let mut source = String::new();
    let n = chars.len();
    let mut i: usize = 0;
    proof {
        assert(chars@.skip(0) == chars@);
        assert(source@ + first_piece(chars@) == first_piece(chars@));
    }
    while i < n && chars[i] != ' '
        invariant
            n == chars@.len(),
            i <= n,
            first_piece(chars@) == source@ + first_piece(chars@.skip(i as int)),
        decreases n - i,
    {
        proof {
            let rest = chars@.skip(i as int);
            assert(rest[0] == chars@[i as int]);
            assert(rest.skip(1) == chars@.skip(i as int + 1));
            assert(source@ + (seq![rest[0]] + first_piece(rest.skip(1))) == source@.push(rest[0])
                + first_piece(rest.skip(1)));
        }
        source.push(chars[i]);
        i += 1;
    }
    proof {
        let rest = chars@.skip(i as int);
        if i < n {
            assert(rest[0] == ' ');
        }
        assert(first_piece(rest) =~= Seq::empty());
        assert(source@ + Seq::<char>::empty() == source@);
    }
    source
}

/// The address of a strip as the list gives it.
pub fn extract_cartoon_url(srcset: &str) -> (url: String)
    ensures
        url@ == cartoon_url_text(srcset@),
{
    let mut url = String::from_str("https:");
    let source = first_source(srcset);
    url.append(source.as_str());
    url
}

/// The first piece holds no space, and it is the whole text where the text holds none.
pub proof fn lemma_first_piece(text: Seq<char>)
    ensures
        forall|i: int| 0 <= i < first_piece(text).len() ==> first_piece(text)[i] != ' ',
        first_piece(text).len() <= text.len(),
        (forall|i: int| 0 <= i < text.len() ==> text[i] != ' ') ==> first_piece(text) == text,
    decreases text.len(),
{
    if text.len() > 0 && text[0] != ' ' {
        let rest = text.skip(1);
        lemma_first_piece(rest);
        if forall|i: int| 0 <= i < text.len() ==> text[i] != ' ' {
            assert forall|i: int| 0 <= i < rest.len() implies rest[i] != ' ' by {
                assert(rest[i] == text[i + 1]);
            }
            assert(seq![text[0]] + rest == text);
        }
    }
}

} // verus!
