//! What the translated files of a crate require: pragmas and crates, each
//! collected in an ordered set of `indexmap`.

use crate::crates::{crate_rank, ExternCrate};
use indexmap::IndexSet;
use vstd::prelude::*;

verus! {

/// `indexmap::IndexSet`, a set that keeps its items in an order of its own.
#[verifier::external_type_specification]
#[verifier::external_body]
#[verifier::reject_recursive_types(T)]
#[verifier::reject_recursive_types(S)]
pub struct ExIndexSet<T, S>(IndexSet<T, S>);

/// Pragmas by key and value.
pub type PragmaSet = IndexSet<(String, String)>;

/// Crates by their rank.
pub type CrateSet = IndexSet<u64>;

/// The pragmas in a set, in its order.
pub uninterp spec fn pragma_items(set: PragmaSet) -> Seq<(Seq<char>, Seq<char>)>;

/// The ranks of the crates in a set, in its order.
pub uninterp spec fn crate_items(set: CrateSet) -> Seq<u64>;

/// A text comes before another or equals it: at the first difference it has
/// the smaller character, or it ends there.
pub open spec fn text_le(a: Seq<char>, b: Seq<char>) -> bool
    decreases a.len(),
{
    if a.len() == 0 {
        true
    } else if b.len() == 0 {
        false
    } else if a[0] != b[0] {
        a[0] < b[0]
    } else {
        text_le(a.skip(1), b.skip(1))
    }
}

/// A pair comes before another or equals it: the keys decide, then the values.
pub open spec fn pair_le(p: (Seq<char>, Seq<char>), q: (Seq<char>, Seq<char>)) -> bool {
    if p.0 != q.0 {
        text_le(p.0, q.0)
    } else {
        text_le(p.1, q.1)
    }
}

/// The pairs ascend.
pub open spec fn pairs_ascend(s: Seq<(Seq<char>, Seq<char>)>) -> bool {
    forall|i: int, j: int| 0 <= i < j < s.len() ==> pair_le(#[trigger] s[i], #[trigger] s[j])
}

/// The numbers ascend.
pub open spec fn ranks_ascend(s: Seq<u64>) -> bool {
    forall|i: int, j: int| 0 <= i < j < s.len() ==> #[trigger] s[i] <= #[trigger] s[j]
}

/// The sequence with one more item, unless it is there already.
pub open spec fn with_item<A>(s: Seq<A>, item: A) -> Seq<A> {
    if s.contains(item) {
        s
    } else {
        s.push(item)
    }
}

/// A pair of strings, viewed.
pub open spec fn pair_view(p: (String, String)) -> (Seq<char>, Seq<char>) {
    (p.0@, p.1@)
}

/// The views of a list of pairs.
pub open spec fn pair_views(v: Seq<(String, String)>) -> Seq<(Seq<char>, Seq<char>)> {
    Seq::new(v.len(), |i: int| pair_view(v[i]))
}

/// Calls `IndexSet::new`, which makes an empty set.
#[verifier::external_body]
fn new_pragma_set() -> (res: PragmaSet)
    ensures
        pragma_items(res) == Seq::<(Seq<char>, Seq<char>)>::empty(),
{
    IndexSet::new()
}

/// Calls `IndexSet::insert`: an item that is there already changes nothing, a
/// new one goes to the end.
#[verifier::external_body]
fn insert_pragma(set: &mut PragmaSet, pragma: (String, String))
    ensures
        pragma_items(*final(set)) == with_item(pragma_items(*old(set)), pair_view(pragma)),
{
    set.insert(pragma);
}

/// Calls `IndexSet::sort`, which puts the items in ascending order: tuples go by
/// their first item, then by their second, and strings by their characters.
#[verifier::external_body]
fn sort_pragmas(set: &mut PragmaSet)
    ensures
        pairs_ascend(pragma_items(*final(set))),
        pragma_items(*final(set)).to_multiset() == pragma_items(*old(set)).to_multiset(),
{
    set.sort();
}

/// Calls `IndexSet::iter`, which hands the items out in the order of the set.
#[verifier::external_body]
fn list_pragmas(set: &PragmaSet) -> (res: Vec<(String, String)>)
    ensures
        pair_views(res@) == pragma_items(*set),
{
    set.iter().cloned().collect()
}

/// Calls `IndexSet::new`, which makes an empty set.
#[verifier::external_body]
fn new_crate_set() -> (res: CrateSet)
    ensures
        crate_items(res) == Seq::<u64>::empty(),
{
    IndexSet::new()
}

/// Calls `IndexSet::insert`: an item that is there already changes nothing, a
/// new one goes to the end.
#[verifier::external_body]
fn insert_crate(set: &mut CrateSet, rank: u64)
    ensures
        crate_items(*final(set)) == with_item(crate_items(*old(set)), rank),
{
    set.insert(rank);
}

/// Calls `IndexSet::sort`, which puts the items in ascending order.
#[verifier::external_body]
fn sort_crates(set: &mut CrateSet)
    ensures
        ranks_ascend(crate_items(*final(set))),
        crate_items(*final(set)).to_multiset() == crate_items(*old(set)).to_multiset(),
{
    set.sort();
}

/// Calls `IndexSet::iter`, which hands the items out in the order of the set.
#[verifier::external_body]
fn list_crates(set: &CrateSet) -> (res: Vec<u64>)
    ensures
        res@ == crate_items(*set),
{
    set.iter().cloned().collect()
}

/// One more item keeps the items distinct and adds this item only.
pub proof fn lemma_with_item<A>(s: Seq<A>, item: A)
    requires
        s.no_duplicates(),
    ensures
        with_item(s, item).no_duplicates(),
        with_item(s, item).to_set() == s.to_set().insert(item),
{
    let t = with_item(s, item);
    if s.contains(item) {
        assert(s.to_set().insert(item) =~= s.to_set());
    } else {
        assert forall|i: int, j: int| 0 <= i < t.len() && 0 <= j < t.len() && i != j implies t[i]
            != t[j] by {
            if i == s.len() {
                assert(s.contains(s[j]));
            } else if j == s.len() {
                assert(s.contains(s[i]));
            }
        }
        assert forall|x: A| t.to_set().contains(x) == s.to_set().insert(item).contains(x) by {
            if s.contains(x) {
                let k = choose|k: int| 0 <= k < s.len() && s[k] == x;
                assert(t[k] == x);
            }
            if x == item {
                assert(t[s.len() as int] == x);
            }
            if t.contains(x) && x != item {
                let k = choose|k: int| 0 <= k < t.len() && t[k] == x;
                assert(s[k] == x);
            }
        }
        assert(t.to_set() =~= s.to_set().insert(item));
    }
}

proof fn lemma_reordered<A>(s: Seq<A>, t: Seq<A>)
    requires
        s.to_multiset() == t.to_multiset(),
        s.no_duplicates(),
    ensures
        t.no_duplicates(),
        t.to_set() == s.to_set(),
{
    broadcast use vstd::seq_lib::group_to_multiset_ensures;

    s.lemma_multiset_has_no_duplicates();
    t.lemma_multiset_has_no_duplicates_conv();
    assert forall|x: A| t.to_set().contains(x) == s.to_set().contains(x) by {
        assert(s.contains(x) <==> s.to_multiset().count(x) > 0);
        assert(t.contains(x) <==> t.to_multiset().count(x) > 0);
    }
    assert(t.to_set() =~= s.to_set());
}

/// The pragmas and crates that some translated files require.
#[derive(Debug)]
pub struct Requirements {
    pragmas: PragmaSet,
    crates: CrateSet,
}

/// What some [`Requirements`] hold.
#[verifier::ext_equal]
pub struct RequirementsView {
    pub pragmas: Set<(Seq<char>, Seq<char>)>,
    pub crates: Set<u64>,
}

impl View for Requirements {
    type V = RequirementsView;

    closed spec fn view(&self) -> RequirementsView {
        RequirementsView {
            pragmas: pragma_items(self.pragmas).to_set(),
            crates: crate_items(self.crates).to_set(),
        }
    }
}

/// All numbers in the set are ranks of crates.
pub open spec fn are_ranks(ranks: Set<u64>) -> bool {
    forall|r: u64| #[trigger] ranks.contains(r) ==> r <= 5
}

/// The ranks of a list of crates.
pub open spec fn ranks_of(crates: Seq<ExternCrate>) -> Seq<u64> {
    Seq::new(crates.len(), |i: int| crate_rank(crates[i]))
}

impl Requirements {
    /// No item is held twice.
    pub closed spec fn wf(self) -> bool {
        &&& pragma_items(self.pragmas).no_duplicates()
        &&& crate_items(self.crates).no_duplicates()
        &&& are_ranks(crate_items(self.crates).to_set())
    }

    /// Nothing required.
    pub fn new() -> (res: Self)
        ensures
            res.wf(),
            res@.pragmas == Set::<(Seq<char>, Seq<char>)>::empty(),
            res@.crates == Set::<u64>::empty(),
    {
        let res = Requirements { pragmas: new_pragma_set(), crates: new_crate_set() };
        assert(res@.pragmas =~= Set::<(Seq<char>, Seq<char>)>::empty());
        assert(res@.crates =~= Set::<u64>::empty());
        res
    }

    /// Adds a pragma.
    pub fn add_pragma(&mut self, key: &String, value: &String)
        requires
            old(self).wf(),
        ensures
            final(self).wf(),
            final(self)@.pragmas == old(self)@.pragmas.insert((key@, value@)),
            final(self)@.crates == old(self)@.crates,
    {
        proof {
            lemma_with_item(pragma_items(self.pragmas), (key@, value@));
        }
        insert_pragma(&mut self.pragmas, (key.clone(), value.clone()));
    }

    /// Adds a crate.
    pub fn add_crate(&mut self, c: ExternCrate)
        requires
            old(self).wf(),
        ensures
            final(self).wf(),
            final(self)@.crates == old(self)@.crates.insert(crate_rank(c)),
            final(self)@.pragmas == old(self)@.pragmas,
    {
        proof {
            lemma_with_item(crate_items(self.crates), crate_rank(c));
        }
        insert_crate(&mut self.crates, c.rank());
    }

    /// The pragmas and crates in ascending order, each once.
    pub fn into_sorted(self) -> (res: (Vec<(String, String)>, Vec<ExternCrate>))
        requires
            self.wf(),
        ensures
            pair_views(res.0@).no_duplicates(),
            pair_views(res.0@).to_set() == self@.pragmas,
            pairs_ascend(pair_views(res.0@)),
            ranks_of(res.1@).no_duplicates(),
            ranks_of(res.1@).to_set() == self@.crates,
            ranks_ascend(ranks_of(res.1@)),
    {
        let ghost pragmas_before = pragma_items(self.pragmas);
        let ghost crates_before = crate_items(self.crates);
        let mut pragmas = self.pragmas;
        let mut crates = self.crates;
        sort_pragmas(&mut pragmas);
        sort_crates(&mut crates);
        proof {
            lemma_reordered(pragmas_before, pragma_items(pragmas));
            lemma_reordered(crates_before, crate_items(crates));
        }
        let pragma_list = list_pragmas(&pragmas);
        let ranks = list_crates(&crates);
        let mut crate_list: Vec<ExternCrate> = Vec::new();
        let mut i: usize = 0;
        while i < ranks.len()
            invariant
                i <= ranks@.len(),
                crate_list@.len() == i,
                are_ranks(ranks@.to_set()),
                forall|k: int| 0 <= k < i ==> crate_rank(#[trigger] crate_list@[k]) == ranks@[k],
            decreases ranks@.len() - i,
        {
            assert(ranks@.to_set().contains(ranks@[i as int]));
            let c = ExternCrate::from_rank(ranks[i]).unwrap();
            crate_list.push(c);
            i += 1;
        }
        assert(ranks_of(crate_list@) =~= ranks@);
        (pragma_list, crate_list)
    }
}

proof fn lemma_text_le_both(a: Seq<char>, b: Seq<char>)
    requires
        text_le(a, b),
        text_le(b, a),
    ensures
        a == b,
    decreases a.len(),
{
    if a.len() == 0 || b.len() == 0 {
        assert(a =~= b);
    } else {
        lemma_text_le_both(a.skip(1), b.skip(1));
        assert(a =~= seq![a[0]] + a.skip(1));
        assert(b =~= seq![b[0]] + b.skip(1));
    }
}

/// There is one way only to list given pragmas in ascending order, each once.
pub proof fn law_sorted_pragmas_are_determined(
    s: Seq<(Seq<char>, Seq<char>)>,
    t: Seq<(Seq<char>, Seq<char>)>,
)
    requires
        s.to_set() == t.to_set(),
        s.no_duplicates(),
        t.no_duplicates(),
        pairs_ascend(s),
        pairs_ascend(t),
    ensures
        s == t,
    decreases s.len(),
{
    s.unique_seq_to_set();
    t.unique_seq_to_set();
    assert(s.len() == t.len());
    if s.len() > 0 {
        let n = s.len() - 1;
        let x = s[n];
        let y = t[n];
        assert(x == y) by {
            assert(s.to_set().contains(x));
            assert(t.to_set().contains(y));
            let i = choose|i: int| 0 <= i < t.len() && t[i] == x;
            let j = choose|j: int| 0 <= j < s.len() && s[j] == y;
            if i < n && j < n {
                assert(pair_le(t[i], t[n]));
                assert(pair_le(s[j], s[n]));
                if x.0 != y.0 {
                    lemma_text_le_both(x.0, y.0);
                } else {
                    lemma_text_le_both(x.1, y.1);
                }
            }
        }
        let s0 = s.drop_last();
        let t0 = t.drop_last();
        assert forall|z: (Seq<char>, Seq<char>)| s0.to_set().contains(z) == t0.to_set().contains(
            z,
        ) by {
            if s0.contains(z) {
                let k = choose|k: int| 0 <= k < s0.len() && s0[k] == z;
                assert(s[k] == z);
                assert(s.to_set().contains(z));
                let m = choose|m: int| 0 <= m < t.len() && t[m] == z;
                assert(m != n);
                assert(t0[m] == z);
            }
            if t0.contains(z) {
                let k = choose|k: int| 0 <= k < t0.len() && t0[k] == z;
                assert(t[k] == z);
                assert(t.to_set().contains(z));
                let m = choose|m: int| 0 <= m < s.len() && s[m] == z;
                assert(m != n);
                assert(s0[m] == z);
            }
        }
        assert(s0.to_set() =~= t0.to_set());
        law_sorted_pragmas_are_determined(s0, t0);
        assert(s =~= s0.push(x));
        assert(t =~= t0.push(y));
    } else {
        assert(s =~= t);
    }
}

/// Texts are compared where they first differ: the one with the smaller character
/// there comes first. A text comes before all that it is the beginning of.
pub proof fn law_texts_are_compared_where_they_differ(
    same: Seq<char>,
    x: char,
    y: char,
    a: Seq<char>,
    b: Seq<char>,
)
    ensures
        x < y ==> text_le(same.push(x) + a, same.push(y) + b) && !text_le(
            same.push(y) + b,
            same.push(x) + a,
        ),
        text_le(same, same + a),
        !text_le(same.push(x) + a, same),
    decreases same.len(),
{
    if same.len() > 0 {
        let rest = same.skip(1);
        law_texts_are_compared_where_they_differ(rest, x, y, a, b);
        assert((same.push(x) + a).skip(1) =~= rest.push(x) + a);
        assert((same.push(y) + b).skip(1) =~= rest.push(y) + b);
        assert((same + a).skip(1) =~= rest + a);
    }
}

/// Pairs are compared by their keys, and by their values where the keys are the
/// same.
pub proof fn law_pairs_are_compared_by_key_first(
    p: (Seq<char>, Seq<char>),
    q: (Seq<char>, Seq<char>),
)
    ensures
        p.0 != q.0 ==> pair_le(p, q) == text_le(p.0, q.0),
        p.0 == q.0 ==> pair_le(p, q) == text_le(p.1, q.1),
        pairs_ascend(seq![p, q]) <==> pair_le(p, q),
{
    let s = seq![p, q];
    assert(s[0] == p && s[1] == q);
    if pairs_ascend(s) {
        assert(pair_le(s[0], s[1]));
    }
}

} // verus!
