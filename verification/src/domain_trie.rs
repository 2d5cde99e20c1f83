//! A trie of domain suffixes, keyed by labels from the top-level domain down.
//!
//! A suffix such as `*.example.com` is stored as the key `["com", "example"]`;
//! a domain matches when some non-empty prefix of its own reversed label list
//! is a stored key, i.e. when the domain equals a stored suffix or lies below it.

use vstd::prelude::*;
use crate::text::{
    lemma_split_join, lemma_split_single, ascii_lower, is_white_space, trim_end_ws, trim_start_ws,
    ascii_lower_chars, ascii_lower_seq, chars_eq, is_prefix_of, lemma_split_nonempty, split_seq,
    str_chars, sub_chars, trim_end_dots, label_views, split_chars, lemma_trim_end_dots_last, trim_end_dots_chars, trim_ws, trim_ws_chars,
};

verus! {

/// Labels of a reversed domain name, top-level label first.
pub type Key = Seq<Seq<char>>;

/// The pieces of `s` (split at '.') in reverse order, empty pieces dropped.
pub open spec fn rev_nonempty(pieces: Seq<Seq<char>>) -> Key
    decreases pieces.len(),
{
    if pieces.len() == 0 {
        Seq::empty()
    } else {
        let last = pieces.last();
        let head: Key = if last.len() > 0 {
            seq![last]
        } else {
            Seq::empty()
        };
        head + rev_nonempty(pieces.drop_last())
    }
}

/// The labels of a dotted name, top-level first, empty labels dropped.
pub open spec fn name_key(s: Seq<char>) -> Key {
    rev_nonempty(split_seq(ascii_lower_seq(s), '.'))
}

/// `s` with a leading `*.` or, failing that, a leading `.` removed.
pub open spec fn strip_wildcard(s: Seq<char>) -> Seq<char> {
    if s.len() >= 2 && s[0] == '*' && s[1] == '.' {
        s.skip(2)
    } else if s.len() >= 1 && s[0] == '.' {
        s.skip(1)
    } else {
        s
    }
}

/// The key that inserting the rule line `s` stores, if any: blank lines and
/// `#` comments store nothing, nor does a rule that is only dots.
pub open spec fn suffix_key(s: Seq<char>) -> Option<Key> {
    let t = trim_ws(s);
    if t.len() == 0 || t[0] == '#' {
        None
    } else {
        let body = trim_end_dots(strip_wildcard(t));
        if body.len() == 0 {
            None
        } else {
            Some(name_key(body))
        }
    }
}

/// The key under which a domain is looked up.
pub open spec fn domain_key(d: Seq<char>) -> Key {
    name_key(trim_end_dots(trim_ws(d)))
}

/// Whether some non-empty prefix of `d` is a stored key.
pub open spec fn matches_keys(keys: Set<Key>, d: Key) -> bool {
    exists|k: int| 1 <= k <= d.len() && #[trigger] keys.contains(d.take(k))
}

/// Whether some non-empty proper prefix of `l` is a stored key.
pub open spec fn covered_by_shorter(keys: Set<Key>, l: Key) -> bool {
    exists|k: int| 1 <= k < l.len() && #[trigger] keys.contains(l.take(k))
}

/// The stored keys after inserting `l`: unchanged when a shorter suffix of it
/// is already stored; otherwise `l` is added and every longer key below `l`
/// (now redundant) is dropped.
pub open spec fn insert_keys(keys: Set<Key>, l: Option<Key>) -> Set<Key> {
    match l {
        None => keys,
        Some(l) => if covered_by_shorter(keys, l) {
            keys
        } else {
            keys.filter(|p: Key| !is_prefix_of(l, p)).insert(l)
        },
    }
}

struct TrieNode {
    label: Vec<char>,
    children: Vec<TrieNode>,
    is_terminal: bool,
}

/// Whether following the labels of `p` from `n` ends on a terminal node.
spec fn reaches(n: TrieNode, p: Key) -> bool
    decreases p.len(),
{
    if p.len() == 0 {
        n.is_terminal
    } else {
        exists|i: int|
            0 <= i < n.children@.len() && #[trigger] n.children@[i].label@ == p[0] && reaches(
                n.children@[i],
                p.drop_first(),
            )
    }
}

spec fn labels_distinct(c: Seq<TrieNode>) -> bool {
    forall|i: int, j: int|
        0 <= i < c.len() && 0 <= j < c.len() && i != j ==> #[trigger] c[i].label@ != #[trigger] c[j].label@
}

spec fn node_wf(n: TrieNode) -> bool
    decreases n,
{
    &&& labels_distinct(n.children@)
    &&& n.is_terminal ==> n.children@.len() == 0
    &&& forall|i: int| 0 <= i < n.children@.len() ==> node_wf(#[trigger] n.children@[i])
}

spec fn node_keys(n: TrieNode) -> Set<Key> {
    Set::new(|p: Key| reaches(n, p))
}

/// What inserting the remaining labels `r` below `n` leaves reachable.
spec fn node_insert(n: TrieNode, r: Key, p: Key) -> bool {
    if exists|k: int| 0 <= k < r.len() && #[trigger] reaches(n, r.take(k)) {
        reaches(n, p)
    } else {
        (reaches(n, p) && !is_prefix_of(r, p)) || p == r
    }
}

/// Reaching through the unique child labelled `p[0]`.
proof fn lemma_reaches_child(n: TrieNode, i: int, p: Key)
    requires
        labels_distinct(n.children@),
        0 <= i < n.children@.len(),
        p.len() > 0,
        n.children@[i].label@ == p[0],
    ensures
        reaches(n, p) == reaches(n.children@[i], p.drop_first()),
{
    if reaches(n, p) {
        let j = choose|j: int|
            0 <= j < n.children@.len() && #[trigger] n.children@[j].label@ == p[0] && reaches(
                n.children@[j],
                p.drop_first(),
            );
        assert(j == i);
    }
}

/// No child carries the label `p[0]`, so nothing below it is reachable.
proof fn lemma_reaches_no_child(n: TrieNode, p: Key)
    requires
        p.len() > 0,
        forall|i: int| 0 <= i < n.children@.len() ==> #[trigger] n.children@[i].label@ != p[0],
    ensures
        !reaches(n, p),
{
}

impl TrieNode {
    fn leaf(label: Vec<char>) -> (n: TrieNode)
        ensures
            n.label@ == label@,
            n.children@.len() == 0,
            !n.is_terminal,
            node_wf(n),
            forall|p: Key| !reaches(n, p),
    {
        let n = TrieNode { label, children: Vec::new(), is_terminal: false };
        assert forall|p: Key| !reaches(n, p) by {
            if p.len() > 0 {
                lemma_reaches_no_child(n, p);
            }
        }
        n
    }

    fn find_child(&self, label: &Vec<char>) -> (r: Option<usize>)
        ensures
            match r {
                Some(i) => i < self.children@.len() && self.children@[i as int].label@ == label@,
                None => forall|i: int|
                    0 <= i < self.children@.len() ==> #[trigger] self.children@[i].label@ != label@,
            },
    {
        let mut i: usize = 0;
        while i < self.children.len()
            invariant
                i <= self.children@.len(),
                forall|j: int| 0 <= j < i ==> #[trigger] self.children@[j].label@ != label@,
            decreases self.children@.len() - i,
        {
            if chars_eq(&self.children[i].label, label) {
                return Some(i);
            }
            i = i + 1;
        }
        None
    }

    /// Inserts the labels `labels[idx..]` below this node.
    fn insert_at(&mut self, labels: &Vec<Vec<char>>, idx: usize)
        requires
            node_wf(*old(self)),
            idx <= labels@.len(),
        ensures
            node_wf(*final(self)),
            final(self).label@ == old(self).label@,
            forall|p: Key|
                reaches(*final(self), p) == #[trigger] node_insert(
                    *old(self),
                    label_views(labels@).skip(idx as int),
                    p,
                ),
        decreases labels@.len() - idx,
    {
        let ghost old_node = *self;
        let ghost r = label_views(labels@).skip(idx as int);
        if idx == labels.len() {
            self.is_terminal = true;
            self.children = Vec::new();
            proof {
                assert(r.len() == 0);
                assert forall|p: Key| reaches(*self, p) == #[trigger] node_insert(old_node, r, p) by {
                    if p.len() > 0 {
                        lemma_reaches_no_child(*self, p);
                        assert(p.take(0) =~= r);
                        assert(is_prefix_of(r, p));
                    } else {
                        assert(p =~= r);
                    }
                }
            }
            return;
        }
        if self.is_terminal {
            proof {
                assert(r.take(0) == Seq::<Seq<char>>::empty());
                assert forall|p: Key| reaches(*self, p) == #[trigger] node_insert(old_node, r, p) by {
                    assert(reaches(old_node, r.take(0)));
                }
            }
            return;
        }
        let pos = self.find_child(&labels[idx]);
        let mut child = match pos {
            Some(i) => self.children.remove(i),
            None => TrieNode::leaf(crate::text::sub_chars(&labels[idx], 0, labels[idx].len())),
        };
        let ghost old_child = child;
        proof {
            assert(labels@[idx as int]@.subrange(0, labels@[idx as int]@.len() as int)
                == labels@[idx as int]@);
            if let Some(i) = pos {
                assert(old_child == old_node.children@[i as int]);
            }
        }
        child.insert_at(labels, idx + 1);
        let ghost new_child = child;
        let ghost at: int = match pos {
            Some(i) => i as int,
            None => old_node.children@.len() as int,
        };
        match pos {
            Some(i) => self.children.insert(i, child),
            None => self.children.push(child),
        }
        proof {
            let r0 = r[0];
            let rest = label_views(labels@).skip(idx + 1);
            assert(rest == r.drop_first());
            assert(r0 == labels@[idx as int]@);
            assert(new_child.label@ == r0);
            let c = self.children@;
            let oc = old_node.children@;
            // children other than the one at `at` are unchanged
            assert(c.len() == if pos is Some { oc.len() } else { oc.len() + 1 });
            assert(c[at] == new_child);
            assert forall|j: int| 0 <= j < oc.len() && j != at implies #[trigger] c[j] == oc[j] by {
            }
            assert(labels_distinct(c)) by {
                assert forall|a: int, b: int|
                    0 <= a < c.len() && 0 <= b < c.len() && a != b implies #[trigger] c[a].label@
                    != #[trigger] c[b].label@ by {
                    if a == at {
                        assert(c[b] == oc[b]);
                    } else if b == at {
                        assert(c[a] == oc[a]);
                    } else {
                        assert(c[a] == oc[a]);
                        assert(c[b] == oc[b]);
                    }
                }
            }
            assert forall|j: int| 0 <= j < c.len() implies node_wf(#[trigger] c[j]) by {
                if j != at {
                    assert(c[j] == oc[j]);
                }
            }
            assert(node_wf(*self));
            // the old child's reachability, whether it existed or was fresh
            assert forall|q: Key| reaches(old_node, seq![r0] + q) == reaches(old_child, q) by {
                let p = seq![r0] + q;
                assert(p.drop_first() == q);
                if let Some(i) = pos {
                    lemma_reaches_child(old_node, i as int, p);
                } else {
                    lemma_reaches_no_child(old_node, p);
                }
            }
            // the condition of `node_insert` agrees between this node and the child
            let cond_n = exists|k: int| 0 <= k < r.len() && #[trigger] reaches(old_node, r.take(k));
            let cond_c = exists|k: int|
                0 <= k < rest.len() && #[trigger] reaches(old_child, rest.take(k));
            assert(cond_n == cond_c) by {
                if cond_n {
                    let k = choose|k: int| 0 <= k < r.len() && #[trigger] reaches(old_node, r.take(k));
                    assert(k != 0) by {
                        assert(r.take(0).len() == 0);
                    }
                    assert(r.take(k) == seq![r0] + rest.take(k - 1));
                    assert(reaches(old_child, rest.take(k - 1)));
                }
                if cond_c {
                    let k = choose|k: int|
                        0 <= k < rest.len() && #[trigger] reaches(old_child, rest.take(k));
                    assert(r.take(k + 1) == seq![r0] + rest.take(k));
                    assert(reaches(old_node, r.take(k + 1)));
                }
            }
            assert forall|p: Key| reaches(*self, p) == #[trigger] node_insert(old_node, r, p) by {
                if p.len() == 0 {
                    assert(p != r);
                } else {
                    let q = p.drop_first();
                    assert(p == seq![p[0]] + q);
                    if p[0] == r0 {
                        lemma_reaches_child(*self, at, p);
                        assert(reaches(new_child, q) == node_insert(old_child, rest, q));
                        assert(is_prefix_of(r, p) == is_prefix_of(rest, q)) by {
                            if is_prefix_of(rest, q) {
                                assert(p.take(r.len() as int) == seq![r0] + q.take(rest.len() as int));
                                assert(r == seq![r0] + rest);
                            }
                            if is_prefix_of(r, p) {
                                assert(q.take(rest.len() as int) == p.take(r.len() as int).drop_first());
                                assert(r.drop_first() == rest);
                            }
                        }
                        assert((p == r) == (q == rest)) by {
                            if q == rest {
                                assert(r == seq![r0] + rest);
                            }
                        }
                    } else {
                        // a different first label: same child as before, or none
                        if exists|j: int| 0 <= j < c.len() && #[trigger] c[j].label@ == p[0] {
                            let j = choose|j: int| 0 <= j < c.len() && #[trigger] c[j].label@ == p[0];
                            assert(j != at);
                            assert(c[j] == oc[j]);
                            lemma_reaches_child(*self, j, p);
                            lemma_reaches_child(old_node, j, p);
                        } else {
                            lemma_reaches_no_child(*self, p);
                            assert forall|j: int| 0 <= j < oc.len() implies #[trigger] oc[j].label@
                                != p[0] by {
                                if j != at {
                                    assert(c[j] == oc[j]);
                                } else {
                                    assert(oc[j].label@ == r0);
                                }
                            }
                            lemma_reaches_no_child(old_node, p);
                        }
                        assert(!is_prefix_of(r, p)) by {
                            if is_prefix_of(r, p) {
                                assert(p.take(r.len() as int)[0] == p[0]);
                            }
                        }
                        assert(p != r);
                    }
                }
            }
        }
    }
}

/// A set of domain suffixes, answering whether a domain lies under one of them.
pub struct DomainSuffixTrie {
    root: TrieNode,
}

impl DomainSuffixTrie {
    #[verifier::type_invariant]
    spec fn inv(self) -> bool {
        node_wf(self.root) && !self.root.is_terminal
    }

    /// The stored keys: reversed label lists of the stored suffixes.
    pub closed spec fn keys(self) -> Set<Key> {
        node_keys(self.root)
    }

    /// An empty trie.
    pub fn new() -> (t: Self)
        ensures
            t.keys() == Set::<Key>::empty(),
    {
        let root = TrieNode::leaf(Vec::new());
        let t = DomainSuffixTrie { root };
        assert(t.keys() =~= Set::<Key>::empty());
        t
    }

    /// Adds the suffix rule `suffix`; see [`insert_keys`] and [`suffix_key`].
    pub fn insert(&mut self, suffix: &str)
        ensures
            final(self).keys() == insert_keys(old(self).keys(), suffix_key(suffix@)),
    {
        proof {
            use_type_invariant(&*self);
        }
        let labels = match suffix_labels(suffix) {
            Some(l) => l,
            None => {
                return;
            },
        };
        let ghost l = label_views(labels@);
        let mut root = TrieNode::leaf(Vec::new());
        std::mem::swap(&mut root, &mut self.root);
        let ghost old_root = root;
        root.insert_at(&labels, 0);
        proof {
            assert(label_views(labels@).skip(0) == l);
            assert(!reaches(old_root, l.take(0))) by {
                assert(l.take(0).len() == 0);
            }
            let ks = node_keys(old_root);
            assert((exists|k: int| 0 <= k < l.len() && #[trigger] reaches(old_root, l.take(k)))
                == covered_by_shorter(ks, l)) by {
                if exists|k: int| 0 <= k < l.len() && #[trigger] reaches(old_root, l.take(k)) {
                    let k = choose|k: int| 0 <= k < l.len() && #[trigger] reaches(old_root, l.take(k));
                    assert(k >= 1);
                    assert(ks.contains(l.take(k)));
                }
                if covered_by_shorter(ks, l) {
                    let k = choose|k: int| 1 <= k < l.len() && #[trigger] ks.contains(l.take(k));
                    assert(reaches(old_root, l.take(k)));
                }
            }
            assert(node_keys(root) =~= insert_keys(ks, Some(l))) by {
                assert forall|p: Key| node_keys(root).contains(p) == insert_keys(ks, Some(l)).contains(p) by {
                    assert(reaches(root, p) == node_insert(old_root, l, p));
                }
            }
            assert(l.len() > 0);
            assert(!reaches(root, Seq::<Seq<char>>::empty())) by {
                assert(node_insert(old_root, l, Seq::<Seq<char>>::empty()) == reaches(root, Seq::<Seq<char>>::empty()));
            }
        }
        self.root = root;
    }

    /// Whether `domain` equals, or lies below, a stored suffix.
    pub fn matches(&self, domain: &str) -> (r: bool)
        ensures
            r == matches_keys(self.keys(), domain_key(domain@)),
    {
        proof {
            use_type_invariant(self);
        }
        let labels = domain_labels(domain);
        let ghost d = label_views(labels@);
        let mut curr = &self.root;
        let mut j: usize = 0;
        while j < labels.len()
            invariant
                j <= labels@.len(),
                d == label_views(labels@),
                d == domain_key(domain@),
                node_wf(*curr),
                node_wf(self.root),
                !curr.is_terminal,
                forall|q: Key| #[trigger] reaches(*curr, q) == reaches(self.root, d.take(j as int) + q),
                forall|k: int| 1 <= k <= j ==> !#[trigger] reaches(self.root, d.take(k)),
            decreases labels@.len() - j,
        {
            let ghost prev = *curr;
            match curr.find_child(&labels[j]) {
                None => {
                    proof {
                        assert forall|k: int| 1 <= k <= d.len() implies !#[trigger] reaches(self.root, d.take(k)) by {
                            if k > j {
                                let q = d.subrange(j as int, k);
                                assert(d.take(j as int) + q == d.take(k));
                                assert(q[0] == labels@[j as int]@);
                                lemma_reaches_no_child(prev, q);
                            }
                        }
                        assert forall|k: int| 1 <= k <= d.len() implies !#[trigger] self.keys().contains(d.take(k)) by {
                            assert(!reaches(self.root, d.take(k)));
                        }
                        assert(!matches_keys(self.keys(), d));
                    }
                    return false;
                },
                Some(i) => {
                    let next = &curr.children[i];
                    proof {
                        assert(node_wf(*next));
                        assert forall|q: Key| #[trigger] reaches(*next, q) == reaches(
                            self.root,
                            d.take(j + 1) + q,
                        ) by {
                            let p = seq![d[j as int]] + q;
                            assert(p.drop_first() == q);
                            lemma_reaches_child(prev, i as int, p);
                            assert(d.take(j as int) + p == d.take(j + 1) + q);
                        }
                    }
                    if next.is_terminal {
                        proof {
                            assert(d.take(j + 1) + Seq::<Seq<char>>::empty() == d.take(j + 1));
                            assert(reaches(*next, Seq::<Seq<char>>::empty()));
                            assert(self.keys().contains(d.take(j + 1)));
                            assert(1 <= j + 1 <= d.len());
                            assert(matches_keys(self.keys(), d));
                        }
                        return true;
                    }
                    proof {
                        assert(d.take(j + 1) + Seq::<Seq<char>>::empty() == d.take(j + 1));
                        assert(!reaches(*next, Seq::<Seq<char>>::empty()));
                    }
                    curr = next;
                    j = j + 1;
                },
            }
        }
        proof {
            assert forall|k: int| 1 <= k <= d.len() implies !#[trigger] self.keys().contains(d.take(k)) by {
                assert(!reaches(self.root, d.take(k)));
            }
            assert(!matches_keys(self.keys(), d));
        }
        false
    }
}

/// A stored rule key is never empty.
pub proof fn lemma_suffix_key_nonempty(s: Seq<char>)
    ensures
        suffix_key(s) matches Some(l) ==> l.len() > 0,
{
    let t = trim_ws(s);
    if t.len() > 0 && t[0] != '#' {
        let body = trim_end_dots(strip_wildcard(t));
        lemma_trim_end_dots_last(strip_wildcard(t));
        if body.len() > 0 {
            lemma_name_key_nonempty(body);
        }
    }
}

/// Law of the trie: after inserting the rule `rule`, a domain matches exactly
/// when it matched before, or its labels start with the rule's labels (the
/// domain is the rule's suffix itself or lies below it).
pub proof fn law_insert_then_matches(keys: Set<Key>, rule: Seq<char>, domain: Seq<char>)
    ensures
        matches_keys(insert_keys(keys, suffix_key(rule)), domain_key(domain)) == (matches_keys(
            keys,
            domain_key(domain),
        ) || (suffix_key(rule) matches Some(l) && is_prefix_of(l, domain_key(domain)))),
{
    lemma_suffix_key_nonempty(rule);
    let d = domain_key(domain);
    match suffix_key(rule) {
        None => {},
        Some(l) => {
            let nk = insert_keys(keys, Some(l));
            if covered_by_shorter(keys, l) {
                if is_prefix_of(l, d) {
                    let k = choose|k: int| 1 <= k < l.len() && #[trigger] keys.contains(l.take(k));
                    assert(d.take(k) == l.take(k));
                    assert(matches_keys(keys, d));
                }
            } else {
                if matches_keys(nk, d) {
                    let k = choose|k: int| 1 <= k <= d.len() && #[trigger] nk.contains(d.take(k));
                    if d.take(k) == l {
                        assert(is_prefix_of(l, d));
                    } else {
                        assert(keys.contains(d.take(k)));
                        assert(matches_keys(keys, d));
                    }
                }
                if matches_keys(keys, d) && !is_prefix_of(l, d) {
                    let k = choose|k: int| 1 <= k <= d.len() && #[trigger] keys.contains(d.take(k));
                    assert(!is_prefix_of(l, d.take(k))) by {
                        if is_prefix_of(l, d.take(k)) {
                            assert(d.take(l.len() as int) == d.take(k).take(l.len() as int));
                        }
                    }
                    assert(nk.contains(d.take(k)));
                }
                if is_prefix_of(l, d) {
                    assert(nk.contains(d.take(l.len() as int)));
                }
            }
        },
    }
}

proof fn lemma_lower_trim_start(s: Seq<char>)
    ensures
        trim_start_ws(ascii_lower_seq(s)) == ascii_lower_seq(trim_start_ws(s)),
    decreases s.len(),
{
    let l = ascii_lower_seq(s);
    if s.len() > 0 {
        assert(is_white_space(l[0]) == is_white_space(s[0]));
        assert(l.drop_first() =~= ascii_lower_seq(s.drop_first()));
        lemma_lower_trim_start(s.drop_first());
    }
}

proof fn lemma_lower_trim_end(s: Seq<char>)
    ensures
        trim_end_ws(ascii_lower_seq(s)) == ascii_lower_seq(trim_end_ws(s)),
    decreases s.len(),
{
    let l = ascii_lower_seq(s);
    if s.len() > 0 {
        assert(is_white_space(l.last()) == is_white_space(s.last()));
        assert(l.drop_last() =~= ascii_lower_seq(s.drop_last()));
        lemma_lower_trim_end(s.drop_last());
    }
}

proof fn lemma_lower_trim_dots(s: Seq<char>)
    ensures
        trim_end_dots(ascii_lower_seq(s)) == ascii_lower_seq(trim_end_dots(s)),
    decreases s.len(),
{
    let l = ascii_lower_seq(s);
    if s.len() > 0 {
        assert((l.last() == '.') == (s.last() == '.'));
        assert(l.drop_last() =~= ascii_lower_seq(s.drop_last()));
        lemma_lower_trim_dots(s.drop_last());
    }
}

proof fn lemma_lower_twice(s: Seq<char>)
    ensures
        ascii_lower_seq(ascii_lower_seq(s)) == ascii_lower_seq(s),
{
    assert forall|i: int| 0 <= i < s.len() implies ascii_lower(ascii_lower(s[i])) == ascii_lower(s[i]) by {
        let c = s[i];
        if 'A' <= c && c <= 'Z' {
            assert(ascii_lower(c) as u32 == c as u32 + 32);
        }
    }
    assert(ascii_lower_seq(ascii_lower_seq(s)) =~= ascii_lower_seq(s));
}

proof fn lemma_lower_trim_ws(s: Seq<char>)
    ensures
        trim_ws(ascii_lower_seq(s)) == ascii_lower_seq(trim_ws(s)),
{
    lemma_lower_trim_start(s);
    lemma_lower_trim_end(trim_start_ws(s));
}

/// Law of rule spelling: ASCII case matters neither in a rule nor in a
/// domain.
pub proof fn law_case_insensitive(rule: Seq<char>, domain: Seq<char>)
    ensures
        suffix_key(ascii_lower_seq(rule)) == suffix_key(rule),
        domain_key(ascii_lower_seq(domain)) == domain_key(domain),
{
    lemma_lower_trim_ws(domain);
    let td = trim_ws(domain);
    lemma_lower_trim_dots(td);
    lemma_lower_twice(trim_end_dots(td));
    lemma_lower_trim_ws(rule);
    let t = trim_ws(rule);
    let lt = ascii_lower_seq(t);
    if t.len() > 0 {
        assert((lt[0] == '#') == (t[0] == '#'));
        let w = strip_wildcard(t);
        assert(strip_wildcard(lt) =~= ascii_lower_seq(w)) by {
            if t.len() >= 2 {
                assert((lt[0] == '*' && lt[1] == '.') == (t[0] == '*' && t[1] == '.'));
            }
            if t.len() >= 1 {
                assert((lt[0] == '.') == (t[0] == '.'));
            }
        }
        lemma_lower_trim_dots(w);
        lemma_lower_twice(trim_end_dots(w));
    }
}

proof fn lemma_rev_nonempty_concat(x: Seq<Seq<char>>, y: Seq<Seq<char>>)
    ensures
        rev_nonempty(x + y) == rev_nonempty(y) + rev_nonempty(x),
    decreases y.len(),
{
    if y.len() == 0 {
        assert(x + y =~= x);
        assert(rev_nonempty(y) + rev_nonempty(x) =~= rev_nonempty(x));
    } else {
        lemma_rev_nonempty_concat(x, y.drop_last());
        assert((x + y).drop_last() =~= x + y.drop_last());
        assert((x + y).last() == y.last());
        let last = y.last();
        let head: Key = if last.len() > 0 {
            seq![last]
        } else {
            Seq::empty()
        };
        assert(head + (rev_nonempty(y.drop_last()) + rev_nonempty(x)) =~= (head + rev_nonempty(
            y.drop_last(),
        )) + rev_nonempty(x));
    }
}

/// Law of names: a name's key lists its labels from the last to the first,
/// lower-cased, with empty labels left out: the key of `a.b` is the key of
/// `b` followed by the key of `a`, and a single label is its own key (none
/// when empty).
pub proof fn law_name_key(a: Seq<char>, b: Seq<char>, label: Seq<char>)
    ensures
        name_key(a + seq!['.'] + b) == name_key(b) + name_key(a),
        (forall|i: int| 0 <= i < label.len() ==> label[i] != '.') ==> name_key(label) == if label.len()
            > 0 {
            seq![ascii_lower_seq(label)]
        } else {
            Seq::<Seq<char>>::empty()
        },
{
    assert(ascii_lower_seq(a + seq!['.'] + b) =~= ascii_lower_seq(a) + seq!['.'] + ascii_lower_seq(b));
    lemma_split_join(ascii_lower_seq(a), '.', ascii_lower_seq(b));
    lemma_rev_nonempty_concat(split_seq(ascii_lower_seq(a), '.'), split_seq(ascii_lower_seq(b), '.'));
    if forall|i: int| 0 <= i < label.len() ==> label[i] != '.' {
        let l = ascii_lower_seq(label);
        assert forall|i: int| 0 <= i < l.len() implies l[i] != '.' by {
            assert(l[i] == ascii_lower(label[i]));
        }
        lemma_split_single(l, '.');
        let p = seq![l];
        assert(p.drop_last() =~= Seq::<Seq<char>>::empty());
        assert(p.last() == l);
        assert(rev_nonempty(Seq::<Seq<char>>::empty()) == Seq::<Seq<char>>::empty());
        if label.len() > 0 {
            assert(seq![l] + Seq::<Seq<char>>::empty() =~= seq![l]);
        } else {
            assert(l.len() == 0);
            assert(Seq::<Seq<char>>::empty() + Seq::<Seq<char>>::empty() =~= Seq::<Seq<char>>::empty());
        }
    }
}

/// Law of the trie: an empty trie matches no domain.
pub proof fn law_empty_matches_nothing(domain: Seq<char>)
    ensures
        !matches_keys(Set::<Key>::empty(), domain_key(domain)),
{
}

/// The key that inserting the rule line `suffix` stores, computed.
fn suffix_labels(suffix: &str) -> (r: Option<Vec<Vec<char>>>)
    ensures
        match r {
            None => suffix_key(suffix@) is None,
            Some(l) => suffix_key(suffix@) == Some(label_views(l@)) && label_views(l@).len() > 0,
        },
{
    let cs = str_chars(suffix);
    let t = trim_ws_chars(&cs);
    if t.len() == 0 || t[0] == '#' {
        return None;
    }
    let stripped = if t.len() >= 2 && t[0] == '*' && t[1] == '.' {
        sub_chars(&t, 2, t.len())
    } else if t.len() >= 1 && t[0] == '.' {
        sub_chars(&t, 1, t.len())
    } else {
        sub_chars(&t, 0, t.len())
    };
    proof {
        assert(t@.subrange(0, t@.len() as int) == t@);
        assert(t@.subrange(2, t@.len() as int) == t@.skip(2));
        assert(t@.subrange(1, t@.len() as int) == t@.skip(1));
        assert(stripped@ == strip_wildcard(t@));
    }
    let body = trim_end_dots_chars(&stripped);
    if body.len() == 0 {
        return None;
    }
    proof {
        lemma_trim_end_dots_last(stripped@);
    }
    let labels = name_labels(&body);
    proof {
        lemma_name_key_nonempty(body@);
    }
    Some(labels)
}

/// The lookup key of a domain, computed.
fn domain_labels(domain: &str) -> (r: Vec<Vec<char>>)
    ensures
        label_views(r@) == domain_key(domain@),
{
    let cs = str_chars(domain);
    let t = trim_ws_chars(&cs);
    let body = trim_end_dots_chars(&t);
    name_labels(&body)
}

/// A name that does not end in '.' and is not empty has a non-empty key.
proof fn lemma_name_key_nonempty(s: Seq<char>)
    requires
        s.len() > 0,
        s.last() != '.',
    ensures
        name_key(s).len() > 0,
{
    let low = ascii_lower_seq(s);
    assert(low.last() != '.');
    let pieces = split_seq(low, '.');
    lemma_split_last_nonempty(low, '.');
    lemma_split_nonempty(low, '.');
    assert(pieces.last().len() > 0);
}

proof fn lemma_split_last_nonempty(s: Seq<char>, sep: char)
    requires
        s.len() > 0,
        s.last() != sep,
    ensures
        split_seq(s, sep).last().len() > 0,
{
    lemma_split_nonempty(s.drop_last(), sep);
}

/// Splits at '.', reverses, and drops empty labels, after lower-casing.
fn name_labels(s: &Vec<char>) -> (r: Vec<Vec<char>>)
    ensures
        label_views(r@) == name_key(s@),
{
    let low = ascii_lower_chars(s);
    let pieces = split_chars(&low, '.');
    let ghost ps = label_views(pieces@);
    let mut r: Vec<Vec<char>> = Vec::new();
    let mut j: usize = pieces.len();
    proof {
        assert(ps.take(ps.len() as int) == ps);
    }
    while j > 0
        invariant
            j <= pieces@.len(),
            ps == label_views(pieces@),
            rev_nonempty(ps) == label_views(r@) + rev_nonempty(ps.take(j as int)),
        decreases j,
    {
        let ghost before = r@;
        let ghost tj = ps.take(j as int);
        assert(tj.drop_last() == ps.take(j - 1));
        assert(tj.last() == pieces@[j - 1]@);
        if pieces[j - 1].len() > 0 {
            r.push(sub_chars(&pieces[j - 1], 0, pieces[j - 1].len()));
            proof {
                assert(pieces@[j - 1]@.subrange(0, pieces@[j - 1]@.len() as int) == pieces@[j - 1]@);
                assert(label_views(r@) == label_views(before) + seq![pieces@[j - 1]@]);
            }
        } else {
            assert(label_views(r@) == label_views(before));
        }
        j = j - 1;
    }
    proof {
        assert(ps.take(0) == Seq::<Seq<char>>::empty());
        assert(label_views(r@) + rev_nonempty(Seq::<Seq<char>>::empty()) == label_views(r@));
    }
    r
}

} // verus!
