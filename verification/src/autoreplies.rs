//! Trigger rules of a chat and the matcher that finds the rules a message sets off.

use crate::groups::{groups_get, groups_insert, groups_new, groups_of, unique_texts};
use crate::matching::{
    distinct_names, distinct_patterns, expanded, grouping, holds_name,
    lemma_distinct_texts_contains, lemma_grouping, lemma_places_in_range, lemma_rules_at_places,
    matches_of, name_taken, patterns_of, places_with, rules_at, same_name,
};
use crate::pattern::{
    build_set, check_pattern, empty_set, error_message, pattern_compiles, pattern_matches,
    pattern_set_builds, set_matches, set_patterns, strictly_ascending,
};
use crate::text::texts_of;
use multimap::MultiMap;
use regex::RegexSet;
use vstd::prelude::*;

verus! {

/// What a rule answers with.
#[derive(Debug)]
pub enum AutoreplyResponse {
    /// A text, sent as it is.
    Literal(String),
    /// A sticker, given by the reference under which it can be sent.
    Sticker(String),
}

/// A response as a mathematical value.
pub enum ResponseView {
    Literal(Seq<char>),
    Sticker(Seq<char>),
}

impl View for AutoreplyResponse {
    type V = ResponseView;

    open spec fn view(&self) -> ResponseView {
        match self {
            AutoreplyResponse::Literal(text) => ResponseView::Literal(text@),
            AutoreplyResponse::Sticker(file_id) => ResponseView::Sticker(file_id@),
        }
    }
}

impl Clone for AutoreplyResponse {
    fn clone(&self) -> (copy: Self)
        ensures
            copy == *self,
    {
        match self {
            AutoreplyResponse::Literal(text) => AutoreplyResponse::Literal(text.clone()),
            AutoreplyResponse::Sticker(file_id) => AutoreplyResponse::Sticker(file_id.clone()),
        }
    }
}

/// Why a rule was not taken.
#[derive(Debug)]
pub enum RuleError {
    /// The pattern is no regular expression, or the patterns of the chat can
    /// no longer be compiled into one matcher. Holds the compiler's message.
    InvalidPattern(String),
    /// The chat already has a rule of that name.
    DuplicateName,
}

/// A trigger rule: a pattern and what to answer where it matches.
#[derive(Debug)]
pub struct Autoreply {
    chat_id: i64,
    name: String,
    pattern_regex: String,
    response: AutoreplyResponse,
}

/// A rule as a mathematical value.
pub struct AutoreplyView {
    pub chat_id: i64,
    pub name: Seq<char>,
    pub pattern: Seq<char>,
    pub response: ResponseView,
}

impl View for Autoreply {
    type V = AutoreplyView;

    closed spec fn view(&self) -> AutoreplyView {
        AutoreplyView {
            chat_id: self.chat_id,
            name: self.name@,
            pattern: self.pattern_regex@,
            response: self.response@,
        }
    }
}

impl Autoreply {
    #[verifier::type_invariant]
    spec fn compiled(self) -> bool {
        pattern_compiles(self.pattern_regex@)
    }

    /// A rule of chat `chat_id`. The pattern is compiled once to see that it
    /// is a regular expression: a rule exists only with a pattern that is one.
    pub fn new(chat_id: i64, name: String, pattern: &str, response: AutoreplyResponse) -> (outcome:
        Result<Autoreply, RuleError>)
        ensures
            outcome.is_ok() == pattern_compiles(pattern@),
            outcome matches Ok(rule) ==> rule@ == (AutoreplyView {
                chat_id,
                name: name@,
                pattern: pattern@,
                response: response@,
            }),
            outcome matches Err(error) ==> error is InvalidPattern,
    {
        match check_pattern(pattern) {
            Ok(()) => Ok(
                Autoreply { chat_id, name, pattern_regex: String::from_str(pattern), response },
            ),
            Err(error) => Err(RuleError::InvalidPattern(error_message(&error))),
        }
    }

    /// The chat the rule belongs to.
    pub fn chat_id(&self) -> (id: i64)
        ensures
            id == self@.chat_id,
    {
        self.chat_id
    }

    /// The name by which the chat knows the rule.
    pub fn name(&self) -> (name: &str)
        ensures
            name@ == self@.name,
    {
        self.name.as_str()
    }

    /// The text of the rule's pattern, which is a regular expression.
    pub fn pattern(&self) -> (pattern: &str)
        ensures
            pattern@ == self@.pattern,
            pattern_compiles(pattern@),
    {
        proof {
            use_type_invariant(self);
        }
        self.pattern_regex.as_str()
    }

    /// What the rule answers with.
    pub fn response(&self) -> (response: &AutoreplyResponse)
        ensures
            response@ == self@.response,
    {
        &self.response
    }
}

impl Clone for Autoreply {
    fn clone(&self) -> (copy: Self)
        ensures
            copy@ == self@,
    {
        proof {
            use_type_invariant(self);
        }
        Autoreply {
            chat_id: self.chat_id,
            name: self.name.clone(),
            pattern_regex: self.pattern_regex.clone(),
            response: self.response.clone(),
        }
    }
}

/// The views of a run of rules, in order.
pub open spec fn rule_views(rules: Seq<Autoreply>) -> Seq<AutoreplyView> {
    rules.map_values(|r: Autoreply| r@)
}

/// The views of a run of borrowed rules, in order.
pub open spec fn borrowed_rule_views(rules: Seq<&Autoreply>) -> Seq<AutoreplyView> {
    rules.map_values(|r: &Autoreply| r@)
}

/// Whether `rules` holds a rule of chat `chat_id` that is called `name`.
fn find_name(rules: &Vec<Autoreply>, chat_id: i64, name: &String) -> (found: bool)
    ensures
        found == holds_name(rule_views(rules@), chat_id, name@),
{
    let ghost views = rule_views(rules@);
    let n = rules.len();
    let mut i: usize = 0;
    while i < n
        invariant
            n == rules@.len(),
            views == rule_views(rules@),
            i <= n,
            forall|j: int|
                0 <= j < i ==> !((#[trigger] views[j]).chat_id == chat_id && views[j].name
                    == name@),
        decreases n - i,
    {
        if rules[i].chat_id == chat_id && rules[i].name == *name {
            assert(views[i as int].chat_id == chat_id && views[i as int].name == name@);
            return true;
        }
        i += 1;
    }
    false
}

/// A copy of a list of strings.
fn copy_texts(texts: &Vec<String>) -> (copy: Vec<String>)
    ensures
        copy@ == texts@,
{
    let mut copy: Vec<String> = Vec::new();
    let n = texts.len();
    let mut i: usize = 0;
    while i < n
        invariant
            n == texts@.len(),
            i <= n,
            copy@ == texts@.take(i as int),
        decreases n - i,
    {
        copy.push(texts[i].clone());
        assert(copy@ =~= texts@.take(i as int + 1));
        i += 1;
    }
    assert(texts@.take(n as int) == texts@);
    copy
}

/// The rules of one chat, with a matcher compiled from their patterns.
#[derive(Debug)]
pub struct AutoreplySet {
    autoreplies: Vec<Autoreply>,
    patterns: Vec<String>,
    autoreplies_by_regex: MultiMap<String, usize>,
    autoreply_set: RegexSet,
}

impl View for AutoreplySet {
    type V = Seq<AutoreplyView>;

    /// The rules, in the order of their registration.
    closed spec fn view(&self) -> Seq<AutoreplyView> {
        rule_views(self.autoreplies@)
    }
}

impl AutoreplySet {
    /// No two rules share a name; the matcher is compiled from exactly the
    /// distinct pattern texts of the rules; and under each pattern text the
    /// places of the rules that share it are held.
    #[verifier::type_invariant]
    spec fn well_formed(self) -> bool {
        let rules = rule_views(self.autoreplies@);
        &&& distinct_names(rules)
        &&& texts_of(self.patterns@) == distinct_patterns(rules)
        &&& set_patterns(self.autoreply_set) == texts_of(self.patterns@)
        &&& groups_of(self.autoreplies_by_regex) == grouping(rules)
    }

    /// A set without rules. Its matcher matches nothing.
    pub fn empty() -> (set: Self)
        ensures
            set@ == Seq::<AutoreplyView>::empty(),
    {
        let autoreplies: Vec<Autoreply> = Vec::new();
        let patterns: Vec<String> = Vec::new();
        proof {
            let rules = rule_views(autoreplies@);
            assert(rules =~= Seq::empty());
            assert(patterns_of(rules) =~= Seq::empty());
            assert(texts_of(patterns@) =~= Seq::empty());
        }
        Self {
            autoreplies,
            patterns,
            autoreplies_by_regex: groups_new(),
            autoreply_set: empty_set(),
        }
    }

    /// How many rules the set holds.
    pub fn len(&self) -> (n: usize)
        ensures
            n == self@.len(),
    {
        self.autoreplies.len()
    }

    /// Whether the set already holds a rule of that chat and name.
    pub fn has_name(&self, chat_id: i64, name: &str) -> (taken: bool)
        ensures
            taken == holds_name(self@, chat_id, name@),
    {
        let wanted = String::from_str(name);
        find_name(&self.autoreplies, chat_id, &wanted)
    }

    /// Takes `autoreply` as the newest rule of the set. A rule whose chat and
    /// name the set already holds is refused. Where the pattern text is new
    /// to the set, the matcher is compiled again from the pattern texts with
    /// the new one behind them; should the compiler refuse them, the rule is
    /// refused too. A refused rule leaves the set as it was.
    pub fn add_autoreply(&mut self, autoreply: Autoreply) -> (outcome: Result<(), RuleError>)
        ensures
            outcome.is_ok() ==> final(self)@ == old(self)@.push(autoreply@),
            outcome.is_err() ==> final(self)@ == old(self)@,
            outcome.is_ok() <==> !name_taken(old(self)@, autoreply@) && (patterns_of(
                old(self)@,
            ).contains(autoreply@.pattern) || pattern_set_builds(
                distinct_patterns(old(self)@.push(autoreply@)),
            )),
            outcome matches Err(error) ==> (error is DuplicateName <==> name_taken(
                old(self)@,
                autoreply@,
            )),
    {
        proof {
            use_type_invariant(&*self);
        }
        let ghost rules = self@;
        let ghost rule = autoreply@;
        let ghost grown = rules.push(rule);
        if find_name(&self.autoreplies, autoreply.chat_id, &autoreply.name) {
            return Err(RuleError::DuplicateName);
        }
        proof {
            lemma_grouping(rules, rule.pattern);
            lemma_distinct_texts_contains(patterns_of(rules), rule.pattern);
            assert(grown.drop_last() == rules);
            assert(patterns_of(grown).drop_last() == patterns_of(rules));
            assert(patterns_of(grown).last() == rule.pattern);
        }
        let known = groups_get(
            &self.autoreplies_by_regex,
            autoreply.pattern_regex.as_str(),
        ).is_some();
        let mut fresh: Option<(Vec<String>, RegexSet)> = None;
        if !known {
            let mut candidate = copy_texts(&self.patterns);
            candidate.push(autoreply.pattern_regex.clone());
            assert(texts_of(candidate@) =~= distinct_patterns(rules).push(rule.pattern));
            match build_set(&candidate) {
                Ok(compiled) => {
                    fresh = Some((candidate, compiled));
                },
                Err(error) => {
                    return Err(RuleError::InvalidPattern(error_message(&error)));
                },
            }
        }
        let mut taken = AutoreplySet::empty();
        std::mem::swap(self, &mut taken);
        proof {
            use_type_invariant(&taken);
        }
        let AutoreplySet { mut autoreplies, patterns, mut autoreplies_by_regex, autoreply_set } =
            taken;
        let place = autoreplies.len();
        groups_insert(&mut autoreplies_by_regex, autoreply.pattern_regex.clone(), place);
        autoreplies.push(autoreply);
        let (patterns, autoreply_set) = match fresh {
            Some((candidate, compiled)) => (candidate, compiled),
            None => (patterns, autoreply_set),
        };
        proof {
            assert(rule_views(autoreplies@) =~= grown);
            assert(distinct_names(grown)) by {
                assert forall|i: int, j: int| 0 <= i < j < grown.len() implies !same_name(
                    #[trigger] grown[i],
                    #[trigger] grown[j],
                ) by {
                    if j < rules.len() {
                        assert(!same_name(rules[i], rules[j]));
                    } else {
                        assert(!(rules[i].chat_id == rule.chat_id && rules[i].name == rule.name));
                    }
                }
            }
        }
        *self = AutoreplySet { autoreplies, patterns, autoreplies_by_regex, autoreply_set };
        Ok(())
    }

    /// The set of the given rules, registered in the order given. Rules that
    /// share chat and name are refused, and so are rules whose pattern
    /// texts the compiler does not take as one matcher.
    pub fn new(autoreplies: &[Autoreply]) -> (outcome: Result<Self, RuleError>)
        ensures
            outcome.is_ok() <==> distinct_names(rule_views(autoreplies@)) && pattern_set_builds(
                distinct_patterns(rule_views(autoreplies@)),
            ),
            outcome matches Ok(set) ==> set@ == rule_views(autoreplies@),
            outcome matches Err(error) ==> (error is DuplicateName <==> !distinct_names(
                rule_views(autoreplies@),
            )),
    {
        let ghost given = rule_views(autoreplies@);
        let mut rules: Vec<Autoreply> = Vec::new();
        let mut index = groups_new();
        let mut sources: Vec<String> = Vec::new();
        let total = autoreplies.len();
        let mut i: usize = 0;
        assert(rule_views(rules@) =~= given.take(0));
        assert(texts_of(sources@) =~= patterns_of(given.take(0)));
        while i < total
            invariant
                total == autoreplies@.len(),
                given == rule_views(autoreplies@),
                i <= total,
                rule_views(rules@) == given.take(i as int),
                distinct_names(given.take(i as int)),
                texts_of(sources@) == patterns_of(given.take(i as int)),
                groups_of(index) == grouping(given.take(i as int)),
            decreases total - i,
        {
            let rule = &autoreplies[i];
            let ghost seen = given.take(i as int);
            let ghost next = given.take(i as int + 1);
            proof {
                assert(rule@ == given[i as int]);
                assert(next.drop_last() == seen);
                assert(next.last() == rule@);
            }
            if find_name(&rules, rule.chat_id, &rule.name) {
                proof {
                    let j = choose|j: int|
                        0 <= j < seen.len() && (#[trigger] seen[j]).chat_id == rule@.chat_id
                            && seen[j].name == rule@.name;
                    assert(same_name(given[j], given[i as int]));
                }
                return Err(RuleError::DuplicateName);
            }
            let ghost listed = sources@;
            groups_insert(&mut index, rule.pattern_regex.clone(), i);
            sources.push(rule.pattern_regex.clone());
            rules.push(rule.clone());
            proof {
                assert(rule_views(rules@) =~= next);
                assert(texts_of(sources@) =~= texts_of(listed).push(rule@.pattern));
                assert(patterns_of(next) =~= patterns_of(seen).push(rule@.pattern));
                assert(distinct_names(next)) by {
                    assert forall|a: int, b: int| 0 <= a < b < next.len() implies !same_name(
                        #[trigger] next[a],
                        #[trigger] next[b],
                    ) by {
                        if b < seen.len() {
                            assert(!same_name(seen[a], seen[b]));
                        } else {
                            assert(!(seen[a].chat_id == rule@.chat_id && seen[a].name
                                == rule@.name));
                        }
                    }
                }
            }
            i += 1;
        }
        assert(given.take(total as int) == given);
        let patterns = unique_texts(sources);
        match build_set(&patterns) {
            Ok(compiled) => Ok(
                AutoreplySet {
                    autoreplies: rules,
                    patterns,
                    autoreplies_by_regex: index,
                    autoreply_set: compiled,
                },
            ),
            Err(error) => Err(RuleError::InvalidPattern(error_message(&error))),
        }
    }

    /// The rules that `message` sets off. The matcher is asked once; each
    /// pattern that matches brings all rules that share it. Patterns come in
    /// the order of their first registration, the rules of a pattern in the
    /// order of theirs.
    pub fn get_matches<'a>(&'a self, message: &str) -> (matching: Vec<&'a Autoreply>)
        ensures
            borrowed_rule_views(matching@) == matches_of(self@, message@),
    {
        proof {
            use_type_invariant(self);
        }
        let ghost rules = self@;
        let hits = set_matches(&self.autoreply_set, message);
        let mut matching: Vec<&'a Autoreply> = Vec::new();
        let count = self.patterns.len();
        let total = self.autoreplies.len();
        let mut cursor: usize = 0;
        let mut k: usize = 0;
        assert(borrowed_rule_views(matching@) =~= Seq::empty());
        assert(texts_of(self.patterns@).take(0) =~= Seq::empty());
        while k < count
            invariant
                rules == rule_views(self.autoreplies@),
                rules.len() == total,
                count == self.patterns@.len(),
                k <= count,
                cursor <= hits@.len(),
                texts_of(self.patterns@) == distinct_patterns(rules),
                set_patterns(self.autoreply_set) == texts_of(self.patterns@),
                groups_of(self.autoreplies_by_regex) == grouping(rules),
                strictly_ascending(hits@),
                forall|i: int|
                    0 <= i < count ==> (hits@.contains(i as usize) <==> pattern_matches(
                        #[trigger] texts_of(self.patterns@)[i],
                        message@,
                    )),
                forall|j: int| 0 <= j < cursor ==> (#[trigger] hits@[j]) < k,
                forall|j: int| cursor <= j < hits@.len() ==> (#[trigger] hits@[j]) >= k,
                borrowed_rule_views(matching@) == expanded(
                    texts_of(self.patterns@).take(k as int),
                    rules,
                    message@,
                ),
            decreases count - k,
        {
            let ghost sources = texts_of(self.patterns@);
            let ghost source = sources[k as int];
            let ghost before = borrowed_rule_views(matching@);
            proof {
                assert(sources.take(k as int + 1).drop_last() == sources.take(k as int));
                assert(sources.take(k as int + 1).last() == source);
                assert(self.patterns@[k as int]@ == source);
            }
            if cursor < hits.len() && hits[cursor] == k {
                assert(hits@.contains(k)) by {
                    assert(hits@[cursor as int] == k);
                }
                assert(pattern_matches(source, message@));
                proof {
                    lemma_grouping(rules, source);
                    lemma_distinct_texts_contains(patterns_of(rules), source);
                    assert(sources.contains(source)) by {
                        assert(sources[k as int] == source);
                    }
                    lemma_places_in_range(rules, source);
                    lemma_rules_at_places(rules, source);
                }
                match groups_get(&self.autoreplies_by_regex, self.patterns[k].as_str()) {
                    Some(places) => {
                        let ghost group = places_with(rules, source);
                        assert(places@ == group);
                        let mut n: usize = 0;
                        assert(group.take(0) =~= Seq::empty());
                        assert(rules_at(rules, group.take(0)) =~= Seq::empty());
                        assert(before + rules_at(rules, group.take(0)) =~= before);
                        while n < places.len()
                            invariant
                                n <= places@.len(),
                                places@ == group,
                                rules == rule_views(self.autoreplies@),
                                forall|j: int|
                                    0 <= j < group.len() ==> (#[trigger] group[j]) < rules.len(),
                                borrowed_rule_views(matching@) == before + rules_at(
                                    rules,
                                    group.take(n as int),
                                ),
                            decreases places@.len() - n,
                        {
                            let place = places[n];
                            assert(group[n as int] < rules.len());
                            let ghost held = matching@;
                            matching.push(&self.autoreplies[place]);
                            proof {
                                assert(group.take(n as int + 1) =~= group.take(n as int).push(
                                    place,
                                ));
                                assert(rules_at(rules, group.take(n as int + 1)) =~= rules_at(
                                    rules,
                                    group.take(n as int),
                                ).push(rules[place as int]));
                                assert(borrowed_rule_views(matching@) =~= borrowed_rule_views(
                                    held,
                                ).push(self.autoreplies@[place as int]@));
                            }
                            n += 1;
                        }
                        assert(group.take(n as int) == group);
                    },
                    None => {
                        assert(false);
                    },
                }
                cursor += 1;
            } else {
                assert(!hits@.contains(k)) by {
                    assert forall|j: int| 0 <= j < hits@.len() implies hits@[j] != k by {
                        if j < cursor {
                            assert(hits@[j] < k);
                        } else if j == cursor {
                            assert(hits@[j] >= k);
                        } else {
                            assert(hits@[cursor as int] >= k);
                            assert(hits@[cursor as int] < hits@[j]);
                        }
                    }
                }
                assert(!pattern_matches(source, message@));
            }
            proof {
                assert forall|j: int| cursor <= j < hits@.len() implies (#[trigger] hits@[j])
                    >= k + 1 by {
                    if cursor > 0 && hits@[cursor - 1] == k {
                        assert(hits@[cursor - 1] < hits@[j]);
                    } else {
                        assert(hits@[j] >= k);
                        assert(hits@.contains(hits@[j]));
                    }
                }
            }
            k += 1;
        }
        assert(texts_of(self.patterns@).take(count as int) == texts_of(self.patterns@));
        matching
    }
}

} // verus!
