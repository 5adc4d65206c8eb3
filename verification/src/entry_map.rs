//! The vault's entries: a map from label to entry that keeps its labels
//! in `String` order, as the `BTreeMap<String, Entry>` it stands for.
use crate::label_order::{
    compare_labels, label_before, lemma_label_irreflexive, lemma_label_total,
    lemma_label_transitive, LabelOrder,
};
use crate::vault::{Entry, EntryView};
use vstd::prelude::*;

verus! {

/// Every label sorts strictly before the labels after it.
pub open spec fn strictly_sorted(labels: Seq<Seq<char>>) -> bool {
    forall|i: int, j: int| 0 <= i < j < labels.len() ==> label_before(labels[i], labels[j])
}

/// The labels of a map, in label order: the one strictly sorted sequence
/// that holds exactly its labels.
pub open spec fn sorted_labels<V>(m: Map<Seq<char>, V>) -> Seq<Seq<char>> {
    choose|s: Seq<Seq<char>>| strictly_sorted(s) && (forall|k: Seq<char>| m.contains_key(k) == s.contains(k))
}

/// Two strictly sorted sequences that hold the same labels are equal.
pub proof fn lemma_sorted_unique(a: Seq<Seq<char>>, b: Seq<Seq<char>>)
    requires
        strictly_sorted(a),
        strictly_sorted(b),
        forall|k: Seq<char>| a.contains(k) == b.contains(k),
    ensures
        a == b,
    decreases a.len(),
{
    if a.len() == 0 {
        if b.len() > 0 {
            assert(b.contains(b[0]));
        }
        assert(a =~= b);
    } else {
        assert(a.contains(a[0]));
        let j = choose|j: int| 0 <= j < b.len() && b[j] == a[0];
        assert(b.contains(b[0]));
        let i = choose|i: int| 0 <= i < a.len() && a[i] == b[0];
        if j > 0 {
            assert(label_before(b[0], b[j]));
            if i > 0 {
                assert(label_before(a[0], a[i]));
                lemma_label_total(a[0], b[0]);
            } else {
                lemma_label_irreflexive(a[0]);
            }
        }
        assert(b[0] == a[0]);
        let a1 = a.drop_first();
        let b1 = b.drop_first();
        assert forall|k: Seq<char>| a1.contains(k) == b1.contains(k) by {
            if a1.contains(k) {
                let x = choose|x: int| 0 <= x < a1.len() && a1[x] == k;
                assert(a[x + 1] == k);
                assert(label_before(a[0], a[x + 1]));
                lemma_label_irreflexive(k);
                assert(b.contains(k));
                let y = choose|y: int| 0 <= y < b.len() && b[y] == k;
                assert(y != 0);
                assert(b1[y - 1] == k);
            }
            if b1.contains(k) {
                let y = choose|y: int| 0 <= y < b1.len() && b1[y] == k;
                assert(b[y + 1] == k);
                assert(label_before(b[0], b[y + 1]));
                lemma_label_irreflexive(k);
                assert(a.contains(k));
                let x = choose|x: int| 0 <= x < a.len() && a[x] == k;
                assert(x != 0);
                assert(a1[x - 1] == k);
            }
        }
        lemma_sorted_unique(a1, b1);
        assert(a =~= seq![a[0]] + a1);
        assert(b =~= seq![b[0]] + b1);
    }
}

/// `s` with `x` put in its place in label order.
pub open spec fn insert_in_order(s: Seq<Seq<char>>, x: Seq<char>) -> Seq<Seq<char>>
    decreases s.len(),
{
    if s.len() == 0 {
        seq![x]
    } else if label_before(x, s[0]) {
        seq![x] + s
    } else {
        seq![s[0]] + insert_in_order(s.drop_first(), x)
    }
}

proof fn lemma_insert_in_order(s: Seq<Seq<char>>, x: Seq<char>)
    requires
        strictly_sorted(s),
        !s.contains(x),
    ensures
        strictly_sorted(insert_in_order(s, x)),
        forall|k: Seq<char>| insert_in_order(s, x).contains(k) == (s.contains(k) || k == x),
    decreases s.len(),
{
    let r = insert_in_order(s, x);
    if s.len() == 0 {
        assert(r[0] == x);
        assert(r.contains(x));
        assert forall|k: Seq<char>| r.contains(k) == (s.contains(k) || k == x) by {
            if r.contains(k) {
                let i = choose|i: int| 0 <= i < r.len() && r[i] == k;
            }
        }
    } else if label_before(x, s[0]) {
        assert forall|i: int, j: int| 0 <= i < j < r.len() implies label_before(r[i], r[j]) by {
            if i == 0 && j > 1 {
                lemma_label_transitive(x, s[0], s[j - 1]);
            }
        }
        assert forall|k: Seq<char>| r.contains(k) == (s.contains(k) || k == x) by {
            if r.contains(k) {
                let i = choose|i: int| 0 <= i < r.len() && r[i] == k;
                if i > 0 {
                    assert(s[i - 1] == k);
                }
            }
            if s.contains(k) {
                let i = choose|i: int| 0 <= i < s.len() && s[i] == k;
                assert(r[i + 1] == k);
            }
            if k == x {
                assert(r[0] == k);
            }
        }
    } else {
        let t = s.drop_first();
        assert(!t.contains(x)) by {
            if t.contains(x) {
                let i = choose|i: int| 0 <= i < t.len() && t[i] == x;
                assert(s[i + 1] == x);
            }
        }
        lemma_insert_in_order(t, x);
        let rt = insert_in_order(t, x);
        assert(s.contains(s[0]));
        lemma_label_total(x, s[0]);
        assert(label_before(s[0], x));
        assert forall|i: int, j: int| 0 <= i < j < r.len() implies label_before(r[i], r[j]) by {
            if i == 0 {
                assert(r[j] == rt[j - 1]);
                assert(rt.contains(rt[j - 1]));
                if rt[j - 1] != x {
                    assert(t.contains(rt[j - 1]));
                    let m = choose|m: int| 0 <= m < t.len() && t[m] == rt[j - 1];
                    assert(s[m + 1] == rt[j - 1]);
                }
            } else {
                assert(r[i] == rt[i - 1] && r[j] == rt[j - 1]);
            }
        }
        assert forall|k: Seq<char>| r.contains(k) == (s.contains(k) || k == x) by {
            if r.contains(k) {
                let i = choose|i: int| 0 <= i < r.len() && r[i] == k;
                if i > 0 {
                    assert(rt[i - 1] == k);
                    assert(rt.contains(k));
                    if k != x {
                        assert(t.contains(k));
                        let m = choose|m: int| 0 <= m < t.len() && t[m] == k;
                        assert(s[m + 1] == k);
                    }
                }
            }
            if s.contains(k) {
                let i = choose|i: int| 0 <= i < s.len() && s[i] == k;
                if i == 0 {
                    assert(r[0] == k);
                } else {
                    assert(t[i - 1] == k);
                    assert(t.contains(k));
                    assert(rt.contains(k));
                    let m = choose|m: int| 0 <= m < rt.len() && rt[m] == k;
                    assert(r[m + 1] == k);
                }
            }
            if k == x {
                assert(rt.contains(x));
                let m = choose|m: int| 0 <= m < rt.len() && rt[m] == x;
                assert(r[m + 1] == x);
            }
        }
    }
}

/// Every finite set of labels can be listed in strict label order.
pub proof fn lemma_sorted_listing(labels: Set<Seq<char>>) -> (listing: Seq<Seq<char>>)
    requires
        labels.finite(),
    ensures
        strictly_sorted(listing),
        forall|k: Seq<char>| labels.contains(k) == listing.contains(k),
    decreases labels.len(),
{
    if labels.len() == 0 {
        assert forall|k: Seq<char>| labels.contains(k) == Seq::<Seq<char>>::empty().contains(k) by {
            if labels.contains(k) {
                assert(labels.remove(k).len() < labels.len());
            }
        }
        Seq::empty()
    } else {
        let x = labels.choose();
        let rest = labels.remove(x);
        let listing = lemma_sorted_listing(rest);
        lemma_insert_in_order(listing, x);
        insert_in_order(listing, x)
    }
}

/// The labels of a map with finitely many labels are listed, in strict
/// label order, by `sorted_labels`.
pub proof fn lemma_sorted_labels<V>(m: Map<Seq<char>, V>)
    requires
        m.dom().finite(),
    ensures
        strictly_sorted(sorted_labels(m)),
        forall|k: Seq<char>| m.contains_key(k) == sorted_labels(m).contains(k),
{
    let listing = lemma_sorted_listing(m.dom());
    assert(strictly_sorted(listing) && (forall|k: Seq<char>| m.contains_key(k) == listing.contains(k)));
}

pub open spec fn string_views(strings: Seq<String>) -> Seq<Seq<char>> {
    strings.map_values(|s: String| s@)
}

spec fn labels_of(items: Seq<(String, Entry)>) -> Seq<Seq<char>> {
    Seq::new(items.len(), |i: int| items[i].0@)
}

/// Entries keyed by label, kept in label order.
pub struct EntryMap {
    items: Vec<(String, Entry)>,
}

impl EntryMap {
    /// The labels, in the order the map keeps them.
    pub closed spec fn key_seq(self) -> Seq<Seq<char>> {
        labels_of(self.items@)
    }

    #[verifier::type_invariant]
    closed spec fn sorted(self) -> bool {
        strictly_sorted(self.key_seq())
    }

    proof fn lemma_distinct(self)
        requires
            self.sorted(),
        ensures
            forall|i: int, j: int|
                0 <= i < self.key_seq().len() && 0 <= j < self.key_seq().len() && i != j
                    ==> #[trigger] self.key_seq()[i] != #[trigger] self.key_seq()[j],
    {
        assert forall|i: int, j: int|
            0 <= i < self.key_seq().len() && 0 <= j < self.key_seq().len() && i != j
            implies #[trigger] self.key_seq()[i] != #[trigger] self.key_seq()[j] by {
            if i < j {
                lemma_label_irreflexive(self.key_seq()[i]);
            } else {
                lemma_label_irreflexive(self.key_seq()[j]);
            }
        }
    }

    /// The entry stored at position `i` is what the map gives for its label.
    proof fn lemma_at(self, i: int)
        requires
            self.sorted(),
            0 <= i < self.items@.len(),
        ensures
            self@.contains_key(self.items@[i].0@),
            self@[self.items@[i].0@] == self.items@[i].1@,
    {
        self.lemma_distinct();
        let k = self.items@[i].0@;
        assert(self.key_seq()[i] == k);
        let j = self.key_seq().index_of(k);
        assert(self.key_seq()[j] == k);
    }
}

impl View for EntryMap {
    type V = Map<Seq<char>, EntryView>;

    closed spec fn view(&self) -> Map<Seq<char>, EntryView> {
        Map::new(
            |k: Seq<char>| self.key_seq().contains(k),
            |k: Seq<char>| self.items@[self.key_seq().index_of(k)].1@,
        )
    }
}


impl EntryMap {
    /// Where `label` is or would go: every label before position `p` sorts
    /// before it, and `found` tells whether position `p` holds it.
    fn position(&self, label: &str) -> (res: (usize, bool))
        ensures
            res.0 <= self.key_seq().len(),
            forall|i: int| 0 <= i < res.0 ==> label_before(#[trigger] self.key_seq()[i], label@),
            res.1 == (res.0 < self.key_seq().len() && self.key_seq()[res.0 as int] == label@),
            res.0 < self.key_seq().len() && !res.1 ==> label_before(label@, self.key_seq()[res.0 as int]),
    {
        let mut i: usize = 0;
        while i < self.items.len()
            invariant
                i <= self.items@.len(),
                forall|j: int| 0 <= j < i ==> label_before(#[trigger] self.key_seq()[j], label@),
            decreases self.items@.len() - i,
        {
            let order = compare_labels(self.items[i].0.as_str(), label);
            match order {
                LabelOrder::Before => {
                    i = i + 1;
                },
                LabelOrder::Same => {
                    return (i, true);
                },
                LabelOrder::After => {
                    proof {
                        lemma_label_total(label@, self.key_seq()[i as int]);
                    }
                    return (i, false);
                },
            }
        }
        (i, false)
    }

    /// A label that position `p` does not hold, with every label before `p`
    /// sorting before it and the label at `p` after it, is not in the map.
    proof fn lemma_absent(self, label: Seq<char>, p: int)
        requires
            self.sorted(),
            0 <= p <= self.key_seq().len(),
            forall|i: int| 0 <= i < p ==> label_before(#[trigger] self.key_seq()[i], label),
            p < self.key_seq().len() ==> label_before(label, self.key_seq()[p]),
        ensures
            !self.key_seq().contains(label),
            forall|j: int| p <= j < self.key_seq().len() ==> label_before(label, #[trigger] self.key_seq()[j]),
    {
        assert forall|j: int| p <= j < self.key_seq().len() implies label_before(label, #[trigger] self.key_seq()[j]) by {
            if j > p {
                lemma_label_transitive(label, self.key_seq()[p], self.key_seq()[j]);
            }
        }
        if self.key_seq().contains(label) {
            let j = choose|j: int| 0 <= j < self.key_seq().len() && self.key_seq()[j] == label;
            lemma_label_irreflexive(label);
        }
    }

    /// An empty map.
    pub fn new() -> (m: Self)
        ensures
            m@ == Map::<Seq<char>, EntryView>::empty(),
            m.key_seq() == Seq::<Seq<char>>::empty(),
    {
        let m = EntryMap { items: Vec::new() };
        assert(m@ =~= Map::<Seq<char>, EntryView>::empty());
        assert(m.key_seq() =~= Seq::<Seq<char>>::empty());
        m
    }

    /// Whether an entry is stored under `label`.
    pub fn contains_key(&self, label: &str) -> (found: bool)
        ensures
            found == self@.contains_key(label@),
    {
        proof {
            use_type_invariant(self);
        }
        let (p, found) = self.position(label);
        proof {
            if found {
                assert(self.key_seq()[p as int] == label@);
            } else {
                self.lemma_absent(label@, p as int);
            }
        }
        found
    }

    /// The entry stored under `label`, if any.
    pub fn get(&self, label: &str) -> (entry: Option<&Entry>)
        ensures
            match entry {
                Some(e) => self@.contains_key(label@) && self@[label@] == e@,
                None => !self@.contains_key(label@),
            },
    {
        proof {
            use_type_invariant(self);
        }
        let (p, found) = self.position(label);
        if found {
            proof {
                self.lemma_at(p as int);
            }
            Some(&self.items[p].1)
        } else {
            proof {
                self.lemma_absent(label@, p as int);
            }
            None
        }
    }
}

impl EntryMap {
    /// Stores `entry` under `label`, replacing and returning the entry that
    /// was there.
    pub fn insert(&mut self, label: String, entry: Entry) -> (previous: Option<Entry>)
        ensures
            final(self)@ == old(self)@.insert(label@, entry@),
            match previous {
                Some(e) => old(self)@.contains_key(label@) && e@ == old(self)@[label@],
                None => !old(self)@.contains_key(label@),
            },
    {
        proof {
            use_type_invariant(&*self);
        }
        let ghost before = *self;
        let ghost k0 = label@;
        let ghost v0 = entry@;
        let (p, found) = self.position(label.as_str());
        if found {
            proof {
                before.lemma_at(p as int);
            }
            let mut pair = (label, entry);
            let mut items: Vec<(String, Entry)> = Vec::new();
            std::mem::swap(&mut items, &mut self.items);
            items.set_and_swap(p, &mut pair);
            assert(labels_of(items@) =~= before.key_seq());
            self.items = items;
            proof {
                assert(self.key_seq() =~= before.key_seq());
                self.lemma_at(p as int);
                assert forall|k: Seq<char>| self@.contains_key(k) && k != k0 implies self@[k] == before@[k] by {
                    let j = self.key_seq().index_of(k);
                    assert(self.key_seq()[j] == k);
                }
                assert(self@ =~= before@.insert(k0, v0));
            }
            Some(pair.1)
        } else {
            proof {
                before.lemma_absent(k0, p as int);
            }
            let mut items: Vec<(String, Entry)> = Vec::new();
            std::mem::swap(&mut items, &mut self.items);
            items.insert(p, (label, entry));
            proof {
                let pi = p as int;
                let ks = labels_of(items@);
                assert(ks =~= before.key_seq().insert(pi, k0));
                assert forall|i: int, j: int| 0 <= i < j < ks.len()
                    implies label_before(ks[i], ks[j]) by {
                    if i < pi && j == pi {
                    } else if i < pi && j > pi {
                        assert(label_before(before.key_seq()[i], before.key_seq()[j - 1]));
                    } else if i == pi {
                        assert(label_before(k0, before.key_seq()[j - 1]));
                    } else if j < pi {
                    } else {
                        assert(label_before(before.key_seq()[i - 1], before.key_seq()[j - 1]));
                    }
                }
            }
            self.items = items;
            proof {
                let pi = p as int;
                assert(self.key_seq() =~= before.key_seq().insert(pi, k0));
                assert(self.sorted());
                assert forall|k: Seq<char>| #[trigger] self@.contains_key(k) == (before@.contains_key(k) || k == k0) by {
                    if before.key_seq().contains(k) {
                        let j = choose|j: int| 0 <= j < before.key_seq().len() && before.key_seq()[j] == k;
                        if j < pi {
                            assert(self.key_seq()[j] == k);
                        } else {
                            assert(self.key_seq()[j + 1] == k);
                        }
                    }
                    if k == k0 {
                        assert(self.key_seq()[pi] == k);
                    }
                    if self.key_seq().contains(k) {
                        let i = choose|i: int| 0 <= i < self.key_seq().len() && self.key_seq()[i] == k;
                        if i < pi {
                            assert(before.key_seq()[i] == k);
                        } else if i > pi {
                            assert(before.key_seq()[i - 1] == k);
                        }
                    }
                }
                assert forall|k: Seq<char>| self@.contains_key(k) implies self@[k] == before@.insert(k0, v0)[k] by {
                    let i = choose|i: int| 0 <= i < self.key_seq().len() && self.key_seq()[i] == k;
                    self.lemma_at(i);
                    if i < pi {
                        before.lemma_at(i);
                    } else if i > pi {
                        before.lemma_at(i - 1);
                    }
                }
                assert(self@ =~= before@.insert(k0, v0));
            }
            None
        }
    }

    /// Removes and returns the entry stored under `label`, if any.
    pub fn remove(&mut self, label: &str) -> (removed: Option<Entry>)
        ensures
            final(self)@ == old(self)@.remove(label@),
            match removed {
                Some(e) => old(self)@.contains_key(label@) && e@ == old(self)@[label@],
                None => !old(self)@.contains_key(label@),
            },
    {
        proof {
            use_type_invariant(&*self);
        }
        let ghost before = *self;
        let ghost k0 = label@;
        let (p, found) = self.position(label);
        if found {
            proof {
                before.lemma_at(p as int);
                before.lemma_distinct();
            }
            let mut items: Vec<(String, Entry)> = Vec::new();
            std::mem::swap(&mut items, &mut self.items);
            let pair = items.remove(p);
            proof {
                let pi = p as int;
                let ks = labels_of(items@);
                assert(ks =~= before.key_seq().remove(pi));
                assert forall|i: int, j: int| 0 <= i < j < ks.len()
                    implies label_before(ks[i], ks[j]) by {
                    if j < pi {
                    } else if i < pi {
                        assert(label_before(before.key_seq()[i], before.key_seq()[j + 1]));
                    } else {
                        assert(label_before(before.key_seq()[i + 1], before.key_seq()[j + 1]));
                    }
                }
            }
            self.items = items;
            proof {
                let pi = p as int;
                assert(self.key_seq() =~= before.key_seq().remove(pi));
                assert(self.sorted());
                assert forall|k: Seq<char>| #[trigger] self@.contains_key(k) == (before@.contains_key(k) && k != k0) by {
                    if before.key_seq().contains(k) && k != k0 {
                        let j = choose|j: int| 0 <= j < before.key_seq().len() && before.key_seq()[j] == k;
                        if j < pi {
                            assert(self.key_seq()[j] == k);
                        } else {
                            assert(j != pi);
                            assert(self.key_seq()[j - 1] == k);
                        }
                    }
                    if self.key_seq().contains(k) {
                        let i = choose|i: int| 0 <= i < self.key_seq().len() && self.key_seq()[i] == k;
                        if i < pi {
                            assert(before.key_seq()[i] == k);
                        } else {
                            assert(before.key_seq()[i + 1] == k);
                        }
                    }
                }
                assert forall|k: Seq<char>| self@.contains_key(k) implies self@[k] == before@[k] by {
                    let i = choose|i: int| 0 <= i < self.key_seq().len() && self.key_seq()[i] == k;
                    self.lemma_at(i);
                    if i < pi {
                        before.lemma_at(i);
                    } else {
                        before.lemma_at(i + 1);
                    }
                }
                assert(self@ =~= before@.remove(k0));
            }
            Some(pair.1)
        } else {
            proof {
                before.lemma_absent(k0, p as int);
                assert(self@ =~= before@.remove(k0));
            }
            None
        }
    }

    /// The labels, in label order.
    pub fn keys(&self) -> (labels: Vec<String>)
        ensures
            string_views(labels@) == sorted_labels(self@),
            self@.dom().finite(),
            self@.dom().len() <= usize::MAX,
    {
        proof {
            use_type_invariant(self);
            self.lemma_distinct();
            assert(self@.dom() =~= self.key_seq().to_set());
            self.key_seq().unique_seq_to_set();
            let ks = self.key_seq();
            assert forall|k: Seq<char>| self@.contains_key(k) == ks.contains(k) by {}
            let c = sorted_labels(self@);
            assert(strictly_sorted(c) && (forall|k: Seq<char>| self@.contains_key(k) == c.contains(k)));
            lemma_sorted_unique(ks, c);
        }
        let mut labels: Vec<String> = Vec::new();
        let mut i: usize = 0;
        while i < self.items.len()
            invariant
                i <= self.items@.len(),
                string_views(labels@) =~= self.key_seq().take(i as int),
            decreases self.items@.len() - i,
        {
            let label = self.items[i].0.clone();
            assert(label@ == self.key_seq()[i as int]);
            let ghost prior = labels@;
            labels.push(label);
            proof {
                assert(string_views(labels@) =~= string_views(prior).push(label@));
                assert(self.key_seq().take(i + 1) =~= self.key_seq().take(i as int).push(label@));
            }
            i = i + 1;
        }
        assert(self.key_seq().take(i as int) =~= self.key_seq());
        labels
    }

    /// The number of entries.
    pub fn len(&self) -> (n: usize)
        ensures
            self@.dom().finite(),
            n == self@.len(),
            n == self.key_seq().len(),
    {
        proof {
            use_type_invariant(self);
            self.lemma_distinct();
            assert(self@.dom() =~= self.key_seq().to_set());
            self.key_seq().unique_seq_to_set();
        }
        self.items.len()
    }

    /// Whether the map holds no entry.
    pub fn is_empty(&self) -> (empty: bool)
        ensures
            empty == (self@.len() == 0),
            empty == (self@ == Map::<Seq<char>, EntryView>::empty()),
    {
        let n = self.len();
        proof {
            if n == 0 {
                assert(self@ =~= Map::<Seq<char>, EntryView>::empty());
            } else {
                assert(self@.dom().len() > 0);
            }
        }
        n == 0
    }
}

} // verus!
