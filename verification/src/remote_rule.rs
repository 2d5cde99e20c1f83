//! Domain rules fetched from a remote list: suffix rules kept in a
//! [`DomainSuffixTrie`], keyword rules searched with an Aho-Corasick
//! automaton, and the retry schedule of the fetch.

use vstd::prelude::*;
use aho_corasick::{AhoCorasick, MatchKind};
use crate::domain_trie::{
    domain_key, insert_keys, law_insert_then_matches, matches_keys, suffix_key, DomainSuffixTrie, Key,
};
use crate::text::{is_prefix_of, lemma_split_join, lemma_split_single};
use crate::text::{
    ascii_lower_chars, ascii_lower_seq, contains_seq, label_views, split_chars, split_seq,
    str_chars, string_from_chars, trim_ws, trim_ws_chars,
};

verus! {

/// `aho_corasick::AhoCorasick`, an automaton over a list of patterns;
/// opaque here.
#[verifier::external_type_specification]
#[verifier::external_body]
pub struct ExAhoCorasick(AhoCorasick);

/// The patterns an automaton was built from.
pub uninterp spec fn ac_patterns(ac: AhoCorasick) -> Seq<Seq<char>>;

/// Whether `aho_corasick` builds an automaton over these patterns (it
/// refuses when they exceed its internal limits).
pub uninterp spec fn ac_builds(patterns: Seq<Seq<char>>) -> bool;

/// `AhoCorasick::builder().match_kind(MatchKind::Standard).build(patterns)`;
/// whether it succeeds depends on the patterns alone (named `ac_builds`),
/// and a built automaton holds exactly the given patterns.
#[verifier::external_body]
fn ac_build(patterns: &Vec<String>) -> (r: Option<AhoCorasick>)
    ensures
        r is Some == ac_builds(label_views_str(patterns@)),
        r matches Some(a) ==> ac_patterns(a) == label_views_str(patterns@),
{
    AhoCorasick::builder().match_kind(MatchKind::Standard).build(patterns).ok()
}

/// `AhoCorasick::find(haystack).is_some()`: whether some pattern occurs in
/// the haystack (an unanchored search, the builder's default, never panics).
#[verifier::external_body]
fn ac_is_match(ac: &AhoCorasick, haystack: &str) -> (found: bool)
    ensures
        found == some_pattern_occurs(ac_patterns(*ac), haystack@),
{
    ac.find(haystack).is_some()
}

/// Whether one of `patterns` occurs in `hay`.
pub open spec fn some_pattern_occurs(patterns: Seq<Seq<char>>, hay: Seq<char>) -> bool {
    exists|i: int| 0 <= i < patterns.len() && contains_seq(hay, #[trigger] patterns[i])
}

pub open spec fn label_views_str(v: Seq<String>) -> Seq<Seq<char>> {
    Seq::new(v.len(), |i: int| v[i]@)
}

/// The kind of rules a remote list holds.
#[derive(Clone, Copy, Debug, PartialEq, Eq, Structural)]
pub enum RemoteRuleType {
    Suffix,
    Keyword,
}

/// Compiled rules: a suffix trie, or a keyword automaton (none for an empty
/// list, or when it could not be built).
pub enum CompiledRemoteRule {
    Suffix(DomainSuffixTrie),
    Keyword(Option<AhoCorasick>),
}

/// The rule lines of a list: every line trimmed, blank lines and `#`
/// comments dropped.
pub open spec fn rule_lines(lines: Seq<Seq<char>>) -> Seq<Seq<char>>
    decreases lines.len(),
{
    if lines.len() == 0 {
        Seq::empty()
    } else {
        let t = trim_ws(lines.last());
        let rest = rule_lines(lines.drop_last());
        if t.len() > 0 && t[0] != '#' {
            rest.push(t)
        } else {
            rest
        }
    }
}

/// The rule lines of a text.
pub open spec fn text_rules(text: Seq<char>) -> Seq<Seq<char>> {
    rule_lines(split_seq(text, '\n'))
}

proof fn lemma_rule_lines_concat(x: Seq<Seq<char>>, y: Seq<Seq<char>>)
    ensures
        rule_lines(x + y) == rule_lines(x) + rule_lines(y),
    decreases y.len(),
{
    if y.len() == 0 {
        assert(x + y =~= x);
        assert(rule_lines(x) + rule_lines(y) =~= rule_lines(x));
    } else {
        lemma_rule_lines_concat(x, y.drop_last());
        assert((x + y).drop_last() =~= x + y.drop_last());
        assert((x + y).last() == y.last());
        let t = trim_ws(y.last());
        if t.len() > 0 && t[0] != '#' {
            assert(rule_lines(x) + rule_lines(y.drop_last()).push(t) =~= (rule_lines(x) + rule_lines(
                y.drop_last(),
            )).push(t));
        }
    }
}

/// Law of rule lists: the rules of two texts joined by a line break are the
/// rules of the first followed by those of the second, and a single line is
/// a rule (trimmed) exactly when, trimmed, it is not blank and does not start
/// with '#'. So every such line counts, wherever it stands.
pub proof fn law_text_rules(a: Seq<char>, b: Seq<char>, line: Seq<char>)
    ensures
        text_rules(a + seq!['\n'] + b) == text_rules(a) + text_rules(b),
        (forall|i: int| 0 <= i < line.len() ==> line[i] != '\n') ==> text_rules(line) == if trim_ws(
            line,
        ).len() > 0 && trim_ws(line)[0] != '#' {
            seq![trim_ws(line)]
        } else {
            Seq::<Seq<char>>::empty()
        },
{
    lemma_split_join(a, '\n', b);
    lemma_rule_lines_concat(split_seq(a, '\n'), split_seq(b, '\n'));
    if forall|i: int| 0 <= i < line.len() ==> line[i] != '\n' {
        lemma_split_single(line, '\n');
        assert(seq![line].drop_last() =~= Seq::<Seq<char>>::empty());
        assert(seq![line].last() == line);
        assert(rule_lines(Seq::<Seq<char>>::empty()) == Seq::<Seq<char>>::empty());
        assert(text_rules(line) == rule_lines(seq![line]));
    }
}

/// The trie keys after inserting the rules in order.
pub open spec fn insert_all(rules: Seq<Seq<char>>) -> Set<Key>
    decreases rules.len(),
{
    if rules.len() == 0 {
        Set::empty()
    } else {
        insert_keys(insert_all(rules.drop_last()), suffix_key(rules.last()))
    }
}

/// The rule line `rule` lists a suffix that `d` (a domain key) equals or
/// lies below.
pub open spec fn rule_covers(rule: Seq<char>, d: Key) -> bool {
    suffix_key(rule) matches Some(l) && is_prefix_of(l, d)
}

/// Law of suffix lists: a domain matches the trie compiled from a list of
/// rules exactly when one of the rules lists a suffix that the domain equals
/// or lies below, whatever the order of the rules.
pub proof fn law_suffix_list_matches(rules: Seq<Seq<char>>, domain: Seq<char>)
    ensures
        matches_keys(insert_all(rules), domain_key(domain)) == exists|i: int|
            0 <= i < rules.len() && #[trigger] rule_covers(rules[i], domain_key(domain)),
    decreases rules.len(),
{
    let d = domain_key(domain);
    if rules.len() > 0 {
        let init = rules.drop_last();
        law_suffix_list_matches(init, domain);
        law_insert_then_matches(insert_all(init), rules.last(), domain);
        assert(rules[rules.len() - 1] == rules.last());
        assert(rule_covers(rules.last(), d) == (suffix_key(rules.last()) matches Some(l) && is_prefix_of(l, d)));
        assert(insert_all(rules) == insert_keys(insert_all(init), suffix_key(rules.last())));
        if exists|i: int| 0 <= i < init.len() && #[trigger] rule_covers(init[i], d) {
            let i = choose|i: int| 0 <= i < init.len() && #[trigger] rule_covers(init[i], d);
            assert(rules[i] == init[i]);
        }
        if exists|i: int| 0 <= i < rules.len() && #[trigger] rule_covers(rules[i], d) {
            let i = choose|i: int| 0 <= i < rules.len() && #[trigger] rule_covers(rules[i], d);
            if i < rules.len() - 1 {
                assert(init[i] == rules[i]);
            }
        }
    } else {
        assert(!matches_keys(insert_all(rules), d));
    }
}

/// What compiled rules say of a domain.
pub open spec fn compiled_matches(rule: CompiledRemoteRule, domain: Seq<char>) -> bool {
    match rule {
        CompiledRemoteRule::Suffix(t) => matches_keys(t.keys(), domain_key(domain)),
        CompiledRemoteRule::Keyword(Some(ac)) => some_pattern_occurs(
            ac_patterns(ac),
            ascii_lower_seq(trim_ws(domain)),
        ),
        CompiledRemoteRule::Keyword(None) => false,
    }
}

/// The lower-cased rule lines, the patterns of a keyword list.
pub open spec fn keyword_patterns(text: Seq<char>) -> Seq<Seq<char>> {
    Seq::new(text_rules(text).len(), |i: int| ascii_lower_seq(text_rules(text)[i]))
}

/// `rule` is a compilation of `text` as rules of type `ty`: for suffixes, a
/// trie holding the keys of all rule lines inserted in order; for keywords,
/// no automaton for an empty list, and otherwise an automaton over the
/// lower-cased rule lines whenever `aho_corasick` can build one.
pub open spec fn compiled_from(text: Seq<char>, ty: RemoteRuleType, rule: CompiledRemoteRule) -> bool {
    match ty {
        RemoteRuleType::Suffix => rule matches CompiledRemoteRule::Suffix(t) && t.keys() == insert_all(
            text_rules(text),
        ),
        RemoteRuleType::Keyword => rule matches CompiledRemoteRule::Keyword(a) && (text_rules(
            text,
        ).len() == 0 ==> a is None) && (text_rules(text).len() > 0 ==> (a is Some == ac_builds(
            keyword_patterns(text),
        ))) && (a matches Some(ac) ==> ac_patterns(ac) == keyword_patterns(text)),
    }
}

/// Appending the lower-cased line `ts` to the keywords of `prev` gives the
/// keywords of `prev.push(ts)`.
proof fn lemma_push_keyword(before: Seq<String>, after: Seq<String>, prev: Seq<Seq<char>>, ts: Seq<char>)
    requires
        label_views_str(before) == Seq::new(prev.len(), |j: int| ascii_lower_seq(prev[j])),
        after.len() == before.len() + 1,
        forall|j: int| 0 <= j < before.len() ==> after[j] == before[j],
        after.last()@ == ascii_lower_seq(ts),
    ensures
        label_views_str(after) == Seq::new(prev.push(ts).len(), |j: int| ascii_lower_seq(prev.push(ts)[j])),
{
    assert(before.len() == prev.len()) by {
        assert(label_views_str(before).len() == before.len());
    }
    assert forall|j: int| 0 <= j < prev.len() implies #[trigger] label_views_str(after)[j]
        == ascii_lower_seq(prev.push(ts)[j]) by {
        assert(after[j] == before[j]);
        assert(label_views_str(before)[j] == ascii_lower_seq(prev[j]));
        assert(prev.push(ts)[j] == prev[j]);
    }
    assert(label_views_str(after)[prev.len() as int] == after[before.len() as int]@);
    assert(prev.push(ts)[prev.len() as int] == ts);
    assert(label_views_str(after) =~= Seq::new(prev.push(ts).len(), |j: int| ascii_lower_seq(prev.push(ts)[j])));
}

/// Compiles the text of a rule list; returns the rules and how many rule
/// lines there were.
pub fn compile_rules(text: &str, rule_type: RemoteRuleType) -> (r: (CompiledRemoteRule, usize))
    ensures
        r.1 == text_rules(text@).len(),
        compiled_from(text@, rule_type, r.0),
{
    let cs = str_chars(text);
    let lines = split_chars(&cs, '\n');
    let ghost ls = label_views(lines@);
    let mut trie = DomainSuffixTrie::new();
    let mut keywords: Vec<String> = Vec::new();
    let mut count: usize = 0;
    let mut i: usize = 0;
    while i < lines.len()
        invariant
            i <= lines@.len(),
            ls == label_views(lines@),
            ls == split_seq(text@, '\n'),
            count == rule_lines(ls.take(i as int)).len(),
            count <= i,
            rule_type == RemoteRuleType::Suffix ==> trie.keys() == insert_all(rule_lines(ls.take(i as int))),
            rule_type == RemoteRuleType::Keyword ==> label_views_str(keywords@) == Seq::new(
                rule_lines(ls.take(i as int)).len(),
                |j: int| ascii_lower_seq(rule_lines(ls.take(i as int))[j]),
            ),
        decreases lines@.len() - i,
    {
        let ghost prev = rule_lines(ls.take(i as int));
        proof {
            assert(ls.take(i + 1).drop_last() == ls.take(i as int));
            assert(ls.take(i + 1).last() == lines@[i as int]@);
        }
        let t = trim_ws_chars(&lines[i]);
        if t.len() > 0 && t[0] != '#' {
            let ghost ts = t@;
            assert(rule_lines(ls.take(i + 1)) == prev.push(ts));
            match rule_type {
                RemoteRuleType::Suffix => {
                    let s = string_from_chars(t.as_slice());
                    trie.insert(s.as_str());
                    proof {
                        assert(prev.push(ts).drop_last() == prev);
                    }
                },
                RemoteRuleType::Keyword => {
                    let low = ascii_lower_chars(&t);
                    let ghost before = keywords@;
                    keywords.push(string_from_chars(low.as_slice()));
                    proof {
                        lemma_push_keyword(before, keywords@, prev, ts);
                    }
                },
            }
            count = count + 1;
        } else {
            assert(rule_lines(ls.take(i + 1)) == prev);
        }
        i = i + 1;
    }
    proof {
        assert(ls.take(lines@.len() as int) == ls);
    }
    match rule_type {
        RemoteRuleType::Suffix => (CompiledRemoteRule::Suffix(trie), count),
        RemoteRuleType::Keyword => {
            if keywords.len() == 0 {
                (CompiledRemoteRule::Keyword(None), count)
            } else {
                (CompiledRemoteRule::Keyword(ac_build(&keywords)), count)
            }
        },
    }
}

/// A remote rule list as it stands: its source, and the compiled rules once
/// a fetch has succeeded.
pub struct RemoteDomainMatcher {
    url: String,
    rule_type: RemoteRuleType,
    rules: Option<CompiledRemoteRule>,
}

impl RemoteDomainMatcher {
    pub closed spec fn source(&self) -> Seq<char> {
        self.url@
    }

    pub closed spec fn kind(&self) -> RemoteRuleType {
        self.rule_type
    }

    /// The address the list is fetched from.
    pub fn url(&self) -> (u: &String)
        ensures
            u@ == self.source(),
    {
        &self.url
    }

    /// The kind of rules the list holds.
    pub fn rule_type(&self) -> (t: RemoteRuleType)
        ensures
            t == self.kind(),
    {
        self.rule_type
    }

    /// The compiled rules, once loaded.
    pub closed spec fn loaded(&self) -> Option<CompiledRemoteRule> {
        self.rules
    }

    /// A matcher whose list has not been fetched yet.
    pub fn new(url: String, rule_type: RemoteRuleType) -> (m: Self)
        ensures
            m.source() == url@,
            m.kind() == rule_type,
            m.loaded() is None,
    {
        RemoteDomainMatcher { url, rule_type, rules: None }
    }

    /// Whether some fetch has succeeded.
    pub fn is_initialized(&self) -> (r: bool)
        ensures
            r == self.loaded() is Some,
    {
        self.rules.is_some()
    }

    /// Replaces the rules with those compiled from a freshly fetched text;
    /// returns the number of rule lines.
    pub fn update(&mut self, text: &str) -> (n: usize)
        ensures
            n == text_rules(text@).len(),
            final(self).source() == old(self).source(),
            final(self).kind() == old(self).kind(),
            final(self).loaded() matches Some(r) && compiled_from(text@, old(self).kind(), r),
    {
        let (compiled, count) = compile_rules(text, self.rule_type);
        self.rules = Some(compiled);
        count
    }

    /// The outcome of a refresh: a fetched text replaces the rules (and the
    /// number of rule lines is returned); a failed fetch keeps them.
    pub fn apply_fetch(&mut self, fetched: Result<String, String>) -> (n: Option<usize>)
        ensures
            final(self).source() == old(self).source(),
            final(self).kind() == old(self).kind(),
            match fetched {
                Ok(text) => n == Some(text_rules(text@).len() as usize) && (final(self).loaded() matches Some(
                    r,
                ) && compiled_from(text@, old(self).kind(), r)),
                Err(_) => n is None && final(self).loaded() == old(self).loaded(),
            },
    {
        match fetched {
            Ok(text) => Some(self.update(text.as_str())),
            Err(_) => None,
        }
    }

    /// Whether the destination's domain is listed; `None` (an IP
    /// destination) and a list not yet loaded never match.
    pub fn matches_domain(&self, domain: Option<&str>) -> (r: bool)
        ensures
            r == match (domain, self.loaded()) {
                (Some(d), Some(rule)) => compiled_matches(rule, d@),
                _ => false,
            },
    {
        let d = match domain {
            Some(d) => d,
            None => {
                return false;
            },
        };
        match &self.rules {
            None => false,
            Some(CompiledRemoteRule::Suffix(trie)) => trie.matches(d),
            Some(CompiledRemoteRule::Keyword(Some(ac))) => {
                let cs = str_chars(d);
                let t = trim_ws_chars(&cs);
                let low = ascii_lower_chars(&t);
                let s = string_from_chars(low.as_slice());
                ac_is_match(ac, s.as_str())
            },
            Some(CompiledRemoteRule::Keyword(None)) => false,
        }
    }
}

/// The delay before retry number `attempt` (1 to 3) of a fetch, in
/// nanoseconds: a base of an eighth of the refresh interval, kept between
/// 50 ms and 1 s, doubled for every earlier retry.
pub fn retry_delay_nanos(interval_nanos: u64, attempt: u32) -> (d: u64)
    requires
        1 <= attempt <= 3,
    ensures
        d == retry_base_nanos(interval_nanos) * pow2((attempt - 1) as nat),
{
    let eighth = interval_nanos / 8;
    let capped = if eighth < 1_000_000_000 {
        eighth
    } else {
        1_000_000_000
    };
    let base = if capped > 50_000_000 {
        capped
    } else {
        50_000_000
    };
    let factor: u64 = if attempt == 1 {
        1
    } else if attempt == 2 {
        2
    } else {
        4
    };
    assert(factor == pow2((attempt - 1) as nat)) by {
        assert(pow2(0) == 1);
        assert(pow2(1) == 2 * pow2(0));
        assert(pow2(2) == 2 * pow2(1));
    }
    base * factor
}

/// The base retry delay: an eighth of the interval, between 50 ms and 1 s.
pub open spec fn retry_base_nanos(interval_nanos: u64) -> int {
    let eighth = interval_nanos / 8;
    let capped = if eighth < 1_000_000_000 {
        eighth as int
    } else {
        1_000_000_000
    };
    if capped > 50_000_000 {
        capped
    } else {
        50_000_000
    }
}

pub open spec fn pow2(n: nat) -> int
    decreases n,
{
    if n == 0 {
        1
    } else {
        2 * pow2((n - 1) as nat)
    }
}

/// The number of retries after the first fetch of a refresh.
pub const MAX_RETRIES: u32 = 3;

/// What the fetch loop does after attempt `attempt` failed (0 is the first
/// fetch, 1 to 3 the retries).
#[derive(Clone, Copy, Debug, PartialEq, Eq, Structural)]
pub enum RetryStep {
    /// Wait this many nanoseconds, then fetch again.
    Retry(u64),
    /// Stop: the refresh fails with the error of this last attempt.
    GiveUp,
}

/// After a failed attempt: retry, after the delay of the next attempt,
/// until three retries have failed too.
pub fn after_failed_attempt(interval_nanos: u64, attempt: u32) -> (s: RetryStep)
    requires
        attempt <= MAX_RETRIES,
    ensures
        attempt < MAX_RETRIES ==> s == RetryStep::Retry(
            (retry_base_nanos(interval_nanos) * pow2(attempt as nat)) as u64,
        ),
        attempt == MAX_RETRIES ==> s == RetryStep::GiveUp,
{
    if attempt < MAX_RETRIES {
        RetryStep::Retry(retry_delay_nanos(interval_nanos, attempt + 1))
    } else {
        RetryStep::GiveUp
    }
}

} // verus!
