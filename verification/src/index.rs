//! The index of mock rules: rules grouped by the first segment of their path.

use vstd::prelude::*;
use vstd::hash_map::StringHashMap;
use crate::config::MockRule;
use crate::text::{first_segment, first_segment_of};

verus! {

/// The key under which a rule is indexed.
pub open spec fn rule_key(rule: MockRule) -> Seq<char> {
    first_segment(rule.request.path@)
}

/// The rules of `rules` indexed under `key`, in their order.
pub open spec fn bucket_of(rules: Seq<MockRule>, key: Seq<char>) -> Seq<MockRule>
    decreases rules.len(),
{
    if rules.len() == 0 {
        Seq::empty()
    } else if rule_key(rules.last()) == key {
        bucket_of(rules.drop_last(), key).push(rules.last())
    } else {
        bucket_of(rules.drop_last(), key)
    }
}

/// Whether some rule of `rules` is indexed under `key`.
pub open spec fn has_key(rules: Seq<MockRule>, key: Seq<char>) -> bool {
    exists|i: int| 0 <= i < rules.len() && rule_key(#[trigger] rules[i]) == key
}

/// The index of a list of rules: each key that a rule has, with its rules.
pub open spec fn index_of(rules: Seq<MockRule>) -> Map<Seq<char>, Seq<MockRule>> {
    Map::new(|key: Seq<char>| has_key(rules, key), |key: Seq<char>| bucket_of(rules, key))
}

/// The rules indexed under `key` in `m` (none if the key is absent).
pub open spec fn bucket(m: Map<Seq<char>, Seq<MockRule>>, key: Seq<char>) -> Seq<MockRule> {
    if m.contains_key(key) {
        m[key]
    } else {
        Seq::empty()
    }
}

/// A key with no rule of `rules` has an empty bucket.
pub proof fn lemma_bucket_of_absent(rules: Seq<MockRule>, key: Seq<char>)
    requires
        !has_key(rules, key),
    ensures
        bucket_of(rules, key) == Seq::<MockRule>::empty(),
    decreases rules.len(),
{
    if rules.len() > 0 {
        assert(rules[rules.len() - 1] == rules.last());
        assert forall|i: int| 0 <= i < rules.drop_last().len() implies rule_key(
            #[trigger] rules.drop_last()[i],
        ) != key by {
            assert(rules.drop_last()[i] == rules[i]);
        }
        lemma_bucket_of_absent(rules.drop_last(), key);
    }
}

/// Indexing one more rule adds it at the end of its key's bucket.
pub proof fn lemma_index_of_push(rules: Seq<MockRule>, rule: MockRule)
    ensures
        index_of(rules.push(rule)) == index_of(rules).insert(
            rule_key(rule),
            bucket(index_of(rules), rule_key(rule)).push(rule),
        ),
{
    let k = rule_key(rule);
    let ext = rules.push(rule);
    assert(ext.drop_last() =~= rules);
    assert(ext.last() == rule);
    if !has_key(rules, k) {
        lemma_bucket_of_absent(rules, k);
    }
    assert forall|key: Seq<char>| has_key(ext, key) <==> (has_key(rules, key) || key == k) by {
        if has_key(rules, key) {
            let i: int = choose|i: int| 0 <= i < rules.len() && rule_key(#[trigger] rules[i]) == key;
            assert(ext[i] == rules[i]);
        }
        if key == k {
            assert(ext[rules.len() as int] == rule);
        }
        if has_key(ext, key) {
            let i: int = choose|i: int| 0 <= i < ext.len() && rule_key(#[trigger] ext[i]) == key;
            if i < rules.len() {
                assert(ext[i] == rules[i]);
            }
        }
    }
    assert(index_of(ext) =~= index_of(rules).insert(k, bucket(index_of(rules), k).push(rule)));
}

/// Mock rules grouped by the first segment of their request path, each group
/// in the order its rules were added. Keys are kept in the order they first
/// appeared.
pub struct MockIndex {
    slots: StringHashMap<usize>,
    groups: Vec<(String, Vec<MockRule>)>,
}

impl MockIndex {
    /// Each key's slot holds a group with that key, and each group is found
    /// from its key.
    #[verifier::type_invariant]
    spec fn well_formed(self) -> bool {
        &&& forall|k: Seq<char>| #[trigger]
            self.slots@.contains_key(k) ==> self.slots@[k] < self.groups@.len()
                && self.groups@[self.slots@[k] as int].0@ == k
        &&& forall|i: int|
            0 <= i < self.groups@.len() ==> self.slots@.contains_key(#[trigger] self.groups@[i].0@)
                && self.slots@[self.groups@[i].0@] == i
    }

    /// The keys in the order they first appeared.
    pub closed spec fn key_order(&self) -> Seq<Seq<char>> {
        self.groups@.map_values(|g: (String, Vec<MockRule>)| g.0@)
    }
}

impl View for MockIndex {
    type V = Map<Seq<char>, Seq<MockRule>>;

    closed spec fn view(&self) -> Map<Seq<char>, Seq<MockRule>> {
        Map::new(
            |k: Seq<char>| self.slots@.contains_key(k),
            |k: Seq<char>| self.groups@[self.slots@[k] as int].1@,
        )
    }
}

impl MockIndex {
    /// An index with no rule.
    pub fn new() -> (r: MockIndex)
        ensures
            r@ == Map::<Seq<char>, Seq<MockRule>>::empty(),
            r.key_order() == Seq::<Seq<char>>::empty(),
    {
        let r = MockIndex { slots: StringHashMap::new(), groups: Vec::new() };
        assert(r@ =~= Map::<Seq<char>, Seq<MockRule>>::empty());
        assert(r.key_order() =~= Seq::<Seq<char>>::empty());
        r
    }

    /// Adds `rule` at the end of the group of its key.
    pub fn insert_rule(&mut self, rule: MockRule)
        ensures
            final(self)@ == old(self)@.insert(
                rule_key(rule),
                bucket(old(self)@, rule_key(rule)).push(rule),
            ),
            old(self)@.contains_key(rule_key(rule)) ==> final(self).key_order() == old(
                self,
            ).key_order(),
            !old(self)@.contains_key(rule_key(rule)) ==> final(self).key_order() == old(
                self,
            ).key_order().push(rule_key(rule)),
    {
        let key = first_segment_of(rule.request.path.as_str());
        self.insert_keyed(key, rule);
    }

    /// Adds `rule` at the end of the group of `key`, its key.
    pub(crate) fn insert_keyed(&mut self, key: String, rule: MockRule)
        requires
            key@ == rule_key(rule),
        ensures
            final(self)@ == old(self)@.insert(
                rule_key(rule),
                bucket(old(self)@, rule_key(rule)).push(rule),
            ),
            old(self)@.contains_key(rule_key(rule)) ==> final(self).key_order() == old(
                self,
            ).key_order(),
            !old(self)@.contains_key(rule_key(rule)) ==> final(self).key_order() == old(
                self,
            ).key_order().push(rule_key(rule)),
    {
        proof {
            use_type_invariant(&*self);
        }
        let mut taken = MockIndex::new();
        std::mem::swap(self, &mut taken);
        proof {
            use_type_invariant(&taken);
        }
        assert(taken == *old(self));
        let MockIndex { mut slots, mut groups } = taken;
        let ghost old_groups = groups@;
        let ghost old_slots = slots@;
        match slots.get(key.as_str()) {
            Some(slot) => {
                let i: usize = *slot;
                assert(key@ == rule_key(rule));
                assert(old_slots.contains_key(key@));
                groups[i].1.push(rule);
                assert(groups@[i as int].1@ == old_groups[i as int].1@.push(rule));
                assert(groups@[i as int].0 == old_groups[i as int].0);
                assert forall|j: int| 0 <= j < groups@.len() && j != i implies groups@[j]
                    == old_groups[j] by {}
                assert forall|k: Seq<char>| #[trigger] old_slots.contains_key(k) && k != key@ implies groups@[old_slots[k] as int] == old_groups[old_slots[k] as int] by {
                    assert(old_groups[old_slots[k] as int].0@ == k);
                    assert(old_groups[i as int].0@ == key@);
                }
            },
            None => {
                let i: usize = groups.len();
                let k2 = key.clone();
                groups.push((key, vec![rule]));
                slots.insert(k2, i);
                assert(groups@[i as int].1@ == seq![rule]);
                assert(!old_slots.contains_key(key@));
                assert(bucket(old(self)@, key@) == Seq::<MockRule>::empty());
                assert(seq![rule] =~= Seq::<MockRule>::empty().push(rule));
                assert forall|k: Seq<char>| #[trigger] old_slots.contains_key(k) implies groups@[old_slots[k] as int] == old_groups[old_slots[k] as int] by {}
            },
        }
        *self = MockIndex { slots, groups };
        assert(self@ =~= old(self)@.insert(rule_key(rule), bucket(old(self)@, rule_key(rule)).push(rule)));
        assert(old(self)@.contains_key(rule_key(rule)) ==> self.key_order() =~= old(self).key_order());
        assert(!old(self)@.contains_key(rule_key(rule)) ==> self.key_order() =~= old(self).key_order().push(rule_key(rule)));
    }

    /// Whether some rule is indexed under `key`.
    pub fn contains_key(&self, key: &str) -> (r: bool)
        ensures
            r == self@.contains_key(key@),
    {
        self.slots.contains_key(key)
    }

    /// The rules indexed under `key`, in the order they were added.
    pub fn get(&self, key: &str) -> (r: Option<&Vec<MockRule>>)
        ensures
            match r {
                Some(rules) => self@.contains_key(key@) && rules@ == self@[key@],
                None => !self@.contains_key(key@),
            },
    {
        proof {
            use_type_invariant(self);
        }
        match self.slots.get(key) {
            Some(slot) => Some(&self.groups[*slot].1),
            None => None,
        }
    }

    /// The number of keys.
    pub fn len(&self) -> (n: usize)
        ensures
            n == self@.len(),
            n == self.key_order().len(),
    {
        proof {
            use_type_invariant(self);
            self.lemma_domain();
        }
        self.groups.len()
    }

    /// The keys, each once, in the order they first appeared.
    pub fn keys(&self) -> (r: Vec<String>)
        ensures
            r@.map_values(|k: String| k@) == self.key_order(),
            self.key_order().no_duplicates(),
            forall|k: Seq<char>| self@.contains_key(k) <==> self.key_order().contains(k),
    {
        proof {
            use_type_invariant(self);
            self.lemma_domain();
        }
        let mut r: Vec<String> = Vec::new();
        let n: usize = self.groups.len();
        for i in 0..n
            invariant
                n == self.groups@.len(),
                r@.len() == i,
                r@.map_values(|k: String| k@) == self.key_order().take(i as int),
        {
            let k = self.groups[i].0.clone();
            assert(k@ == self.key_order()[i as int]);
            let ghost before = r@;
            r.push(k);
            assert(r@ == before.push(k));
            assert forall|j: int| 0 <= j < i implies #[trigger] r@[j]@ == self.key_order()[j] by {
                assert(r@[j] == before[j]);
                assert(before.map_values(|k: String| k@)[j] == self.key_order().take(i as int)[j]);
            }
            assert(r@.map_values(|k: String| k@) =~= self.key_order().take(i + 1));
        }
        assert(self.key_order().take(n as int) =~= self.key_order());
        r
    }

    /// The keys of the index are exactly those of its groups, each once.
    proof fn lemma_domain(&self)
        requires
            self.well_formed(),
        ensures
            self.key_order().no_duplicates(),
            forall|k: Seq<char>| self@.contains_key(k) <==> self.key_order().contains(k),
            self@.dom() =~= self.key_order().to_set(),
            self@.len() == self.key_order().len(),
    {
        assert forall|k: Seq<char>| self@.contains_key(k) implies self.key_order().contains(k) by {
            let i: int = self.slots@[k] as int;
            assert(self.key_order()[i] == k);
        }
        assert forall|k: Seq<char>| self.key_order().contains(k) implies self@.contains_key(k) by {
            let i: int = choose|i: int| 0 <= i < self.key_order().len() && self.key_order()[i] == k;
            assert(self.groups@[i].0@ == k);
        }
        assert forall|i: int, j: int|
            0 <= i < self.key_order().len() && 0 <= j < self.key_order().len() && i != j
            implies self.key_order()[i] != self.key_order()[j] by {
            assert(self.slots@[self.groups@[i].0@] == i);
            assert(self.slots@[self.groups@[j].0@] == j);
        }
        self.key_order().unique_seq_to_set();
        assert(self@.dom() =~= self.key_order().to_set());
    }

}

} // verus!
