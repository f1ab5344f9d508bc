//! An insertion-ordered map keyed by device identifier.
//!
//! The operating system hands device identifiers out as text. The map keeps
//! one value per identifier and remembers the order in which identifiers were
//! first inserted, so that everything derived from a map (event lists, sorted
//! listings) is a function of the map alone.

use vstd::prelude::*;

verus! {

/// The map that pairs `order[i]` with `items[i]`.
pub open spec fn assoc<T>(order: Seq<Seq<char>>, items: Seq<T>) -> Map<Seq<char>, T> {
    Map::new(|k: Seq<char>| order.contains(k), |k: Seq<char>| items[order.index_of(k)])
}

/// In a sequence without duplicates an element is found where it stands.
pub proof fn lemma_index_of(order: Seq<Seq<char>>, i: int)
    requires
        order.no_duplicates(),
        0 <= i < order.len(),
    ensures
        order.contains(order[i]),
        order.index_of(order[i]) == i,
{
}

/// `assoc` pairs each key with the item at the same position.
pub proof fn lemma_assoc_at<T>(order: Seq<Seq<char>>, items: Seq<T>, i: int)
    requires
        order.no_duplicates(),
        0 <= i < order.len(),
    ensures
        assoc(order, items).contains_key(order[i]),
        assoc(order, items)[order[i]] == items[i],
{
    lemma_index_of(order, i);
}

/// Appending a fresh key inserts it into the map.
pub proof fn lemma_assoc_push<T>(order: Seq<Seq<char>>, items: Seq<T>, key: Seq<char>, item: T)
    requires
        order.no_duplicates(),
        order.len() == items.len(),
        !order.contains(key),
    ensures
        order.push(key).no_duplicates(),
        assoc(order.push(key), items.push(item)) == assoc(order, items).insert(key, item),
{
    let o2 = order.push(key);
    let i2 = items.push(item);
    assert forall|i: int, j: int| 0 <= i < o2.len() && 0 <= j < o2.len() && i != j implies o2[i]
        != o2[j] by {
        if i < order.len() {
            assert(order.contains(o2[i]));
        }
        if j < order.len() {
            assert(order.contains(o2[j]));
        }
    }
    assert forall|k: Seq<char>| o2.contains(k) <==> (k == key || order.contains(k)) by {
        if o2.contains(k) {
            let i = o2.index_of(k);
            if i < order.len() {
                assert(order[i] == k);
            }
        }
        if k == key {
            assert(o2[order.len() as int] == key);
        }
        if order.contains(k) {
            let i = order.index_of(k);
            assert(o2[i] == k);
        }
    }
    assert forall|k: Seq<char>| o2.contains(k) implies #[trigger] assoc(o2, i2)[k] == assoc(
        order,
        items,
    ).insert(key, item)[k] by {
        let i = o2.index_of(k);
        lemma_index_of(o2, i);
        if i < order.len() {
            lemma_index_of(order, i);
        }
    }
    assert(assoc(o2, i2) =~= assoc(order, items).insert(key, item));
}

/// Replacing the item of a present key updates the map at that key.
pub proof fn lemma_assoc_update<T>(order: Seq<Seq<char>>, items: Seq<T>, i: int, item: T)
    requires
        order.no_duplicates(),
        order.len() == items.len(),
        0 <= i < order.len(),
    ensures
        assoc(order, items.update(i, item)) == assoc(order, items).insert(order[i], item),
{
    let i2 = items.update(i, item);
    lemma_index_of(order, i);
    assert forall|k: Seq<char>| order.contains(k) implies #[trigger] assoc(order, i2)[k] == assoc(
        order,
        items,
    ).insert(order[i], item)[k] by {
        let j = order.index_of(k);
        lemma_index_of(order, j);
    }
    assert(assoc(order, i2) =~= assoc(order, items).insert(order[i], item));
}

/// Dropping a position removes its key from the map and keeps the rest.
pub proof fn lemma_assoc_remove<T>(order: Seq<Seq<char>>, items: Seq<T>, i: int)
    requires
        order.no_duplicates(),
        order.len() == items.len(),
        0 <= i < order.len(),
    ensures
        order.remove(i).no_duplicates(),
        !order.remove(i).contains(order[i]),
        assoc(order.remove(i), items.remove(i)) == assoc(order, items).remove(order[i]),
{
    let o2 = order.remove(i);
    let i2 = items.remove(i);
    assert forall|a: int| 0 <= a < o2.len() implies o2[a] == order[if a < i {
        a
    } else {
        a + 1
    }] by {}
    assert forall|k: Seq<char>| o2.contains(k) <==> (k != order[i] && order.contains(k)) by {
        if o2.contains(k) {
            let a = o2.index_of(k);
            let b = if a < i {
                a
            } else {
                a + 1
            };
            assert(order[b] == k);
        }
        if k != order[i] && order.contains(k) {
            let b = order.index_of(k);
            let a = if b < i {
                b
            } else {
                b - 1
            };
            assert(o2[a] == k);
        }
    }
    assert forall|k: Seq<char>| o2.contains(k) implies #[trigger] assoc(o2, i2)[k] == assoc(
        order,
        items,
    ).remove(order[i])[k] by {
        let a = o2.index_of(k);
        let b = if a < i {
            a
        } else {
            a + 1
        };
        lemma_index_of(o2, a);
        lemma_index_of(order, b);
    }
    assert(assoc(o2, i2) =~= assoc(order, items).remove(order[i]));
}

/// `order` without `key`; the other identifiers keep their order.
pub open spec fn without_key(order: Seq<Seq<char>>, key: Seq<char>) -> Seq<Seq<char>> {
    if order.contains(key) {
        order.remove(order.index_of(key))
    } else {
        order
    }
}

/// `order` with `key` put at the end unless it is there already.
pub open spec fn with_key(order: Seq<Seq<char>>, key: Seq<char>) -> Seq<Seq<char>> {
    if order.contains(key) {
        order
    } else {
        order.push(key)
    }
}

/// Maps device identifiers to values and remembers the order in which the
/// identifiers were first inserted.
pub struct DeviceMap<V> {
    keys: Vec<String>,
    vals: Vec<V>,
}

impl<V> DeviceMap<V> {
    /// The identifiers in insertion order.
    pub closed spec fn order(&self) -> Seq<Seq<char>> {
        Seq::new(self.keys@.len(), |i: int| self.keys@[i]@)
    }

    /// The stored values, `slots()[i]` belonging to `order()[i]`.
    pub closed spec fn slots(&self) -> Seq<V> {
        self.vals@
    }

    /// Every identifier occurs once and has exactly one value.
    pub closed spec fn wf(&self) -> bool {
        &&& self.keys@.len() == self.vals@.len()
        &&& self.order().no_duplicates()
    }

    /// What well-formedness means over the public model.
    pub proof fn lemma_wf(&self)
        requires
            self.wf(),
        ensures
            self.order().len() == self.slots().len(),
            self.order().no_duplicates(),
    {
    }
}

impl<V: DeepView> DeviceMap<V> {
    /// The models of the stored values, `items()[i]` belonging to `order()[i]`.
    pub open spec fn items(&self) -> Seq<V::V> {
        Seq::new(self.slots().len(), |i: int| self.slots()[i].deep_view())
    }
}

impl<V: DeepView> View for DeviceMap<V> {
    type V = Map<Seq<char>, V::V>;

    open spec fn view(&self) -> Map<Seq<char>, V::V> {
        assoc(self.order(), self.items())
    }
}

impl<V: DeepView> DeviceMap<V> {
    /// An empty map.
    pub fn new() -> (m: Self)
        ensures
            m.wf(),
            m.order() == Seq::<Seq<char>>::empty(),
            m.items() == Seq::<V::V>::empty(),
            m@ == Map::<Seq<char>, V::V>::empty(),
    {
        let m = DeviceMap { keys: Vec::new(), vals: Vec::new() };
        assert(m.order() =~= Seq::<Seq<char>>::empty());
        assert(m.items() =~= Seq::<V::V>::empty());
        assert(m@ =~= Map::<Seq<char>, V::V>::empty());
        m
    }

    /// The number of identifiers.
    pub fn len(&self) -> (n: usize)
        requires
            self.wf(),
        ensures
            n == self.order().len(),
            n == self.items().len(),
    {
        self.keys.len()
    }

    /// Where `key` stands in the insertion order, if it is present.
    pub fn position(&self, key: &str) -> (r: Option<usize>)
        requires
            self.wf(),
        ensures
            match r {
                Some(i) => i < self.order().len() && self.order()[i as int] == key@
                    && self.order().index_of(key@) == i,
                None => !self.order().contains(key@),
            },
            r is Some == self@.contains_key(key@),
    {
        let wanted = key.to_owned();
        let mut i: usize = 0;
        while i < self.keys.len()
            invariant
                self.wf(),
                i <= self.keys.len(),
                wanted@ == key@,
                forall|j: int| 0 <= j < i ==> self.order()[j] != key@,
            decreases self.keys.len() - i,
        {
            if self.keys[i] == wanted {
                proof {
                    lemma_index_of(self.order(), i as int);
                }
                return Some(i);
            }
            i = i + 1;
        }
        None
    }

    /// Whether `key` is present.
    pub fn contains_key(&self, key: &str) -> (r: bool)
        requires
            self.wf(),
        ensures
            r == self@.contains_key(key@),
            r == self.order().contains(key@),
    {
        self.position(key).is_some()
    }

    /// The identifier at position `i`.
    pub fn key_at(&self, i: usize) -> (k: &String)
        requires
            self.wf(),
            i < self.order().len(),
        ensures
            k@ == self.order()[i as int],
    {
        &self.keys[i]
    }

    /// The value at position `i`.
    pub fn value_at(&self, i: usize) -> (v: &V)
        requires
            self.wf(),
            i < self.order().len(),
        ensures
            *v == self.slots()[i as int],
            v.deep_view() == self.items()[i as int],
            self@.contains_key(self.order()[i as int]),
            self@[self.order()[i as int]] == v.deep_view(),
    {
        proof {
            lemma_assoc_at(self.order(), self.items(), i as int);
        }
        &self.vals[i]
    }

    /// The value stored for `key`.
    pub fn get(&self, key: &str) -> (r: Option<&V>)
        requires
            self.wf(),
        ensures
            match r {
                Some(v) => self@.contains_key(key@) && self@[key@] == v.deep_view(),
                None => !self@.contains_key(key@),
            },
    {
        match self.position(key) {
            Some(i) => Some(self.value_at(i)),
            None => None,
        }
    }

    /// Stores `value` at position `i`, keeping the identifier.
    pub fn replace_at(&mut self, i: usize, value: V)
        requires
            old(self).wf(),
            i < old(self).order().len(),
        ensures
            final(self).wf(),
            final(self).order() == old(self).order(),
            final(self).slots() == old(self).slots().update(i as int, value),
            final(self).items() == old(self).items().update(i as int, value.deep_view()),
            final(self)@ == old(self)@.insert(old(self).order()[i as int], value.deep_view()),
    {
        let ghost before = *self;
        self.vals.set(i, value);
        proof {
            assert(self.order() =~= before.order());
            assert(self.items() =~= before.items().update(i as int, value.deep_view()));
            lemma_assoc_update(before.order(), before.items(), i as int, value.deep_view());
        }
    }

    /// Stores `value` for `key`: in place where the identifier is present,
    /// at the end of the order where it is new.
    pub fn insert(&mut self, key: String, value: V)
        requires
            old(self).wf(),
        ensures
            final(self).wf(),
            final(self)@ == old(self)@.insert(key@, value.deep_view()),
            final(self).order() == with_key(old(self).order(), key@),
            old(self).order().contains(key@) ==> final(self).order() == old(self).order()
                && final(self).items() == old(self).items().update(
                old(self).order().index_of(key@),
                value.deep_view(),
            ),
            !old(self).order().contains(key@) ==> final(self).order() == old(self).order().push(
                key@,
            ) && final(self).items() == old(self).items().push(value.deep_view()),
    {
        match self.position(key.as_str()) {
            Some(i) => {
                self.replace_at(i, value);
            },
            None => {
                let ghost before = *self;
                self.keys.push(key);
                self.vals.push(value);
                proof {
                    assert(self.order() =~= before.order().push(key@));
                    assert(self.items() =~= before.items().push(value.deep_view()));
                    lemma_assoc_push(before.order(), before.items(), key@, value.deep_view());
                }
            },
        }
    }

    /// Forgets `key`. The remaining identifiers keep their order.
    pub fn remove(&mut self, key: &str) -> (removed: bool)
        requires
            old(self).wf(),
        ensures
            final(self).wf(),
            removed == old(self)@.contains_key(key@),
            final(self)@ == old(self)@.remove(key@),
            final(self).order() == without_key(old(self).order(), key@),
            removed ==> final(self).order() == old(self).order().remove(
                old(self).order().index_of(key@),
            ) && final(self).items() == old(self).items().remove(old(self).order().index_of(key@)),
            !removed ==> final(self).order() == old(self).order() && final(self).items() == old(
                self,
            ).items(),
    {
        match self.position(key) {
            Some(i) => {
                let ghost before = *self;
                let _k = self.keys.remove(i);
                let _v = self.vals.remove(i);
                proof {
                    assert(self.order() =~= before.order().remove(i as int));
                    assert(self.items() =~= before.items().remove(i as int));
                    lemma_assoc_remove(before.order(), before.items(), i as int);
                }
                true
            },
            None => {
                assert(self@ =~= self@.remove(key@));
                false
            },
        }
    }
}

/// The elements of `s` whose flag is set, in their order.
pub open spec fn picked<T>(s: Seq<T>, flags: Seq<bool>) -> Seq<T>
    decreases s.len(),
{
    if s.len() == 0 {
        Seq::empty()
    } else if flags[0] {
        seq![s[0]] + picked(s.drop_first(), flags.drop_first())
    } else {
        picked(s.drop_first(), flags.drop_first())
    }
}

/// The part of `all` that is left after the entries from position `i` on have
/// been sifted by their flags.
pub open spec fn sifted_from<T>(all: Seq<T>, flags: Seq<bool>, i: int) -> Seq<T> {
    all.take(i) + picked(all.skip(i), flags.skip(i))
}

/// Sifting one more entry either keeps the sequence or removes that entry.
pub proof fn lemma_sift_step<T>(all: Seq<T>, flags: Seq<bool>, i: int)
    requires
        0 < i <= all.len(),
        all.len() == flags.len(),
    ensures
        flags[i - 1] ==> sifted_from(all, flags, i - 1) == sifted_from(all, flags, i),
        !flags[i - 1] ==> sifted_from(all, flags, i - 1) == sifted_from(all, flags, i).remove(
            i - 1,
        ),
        sifted_from(all, flags, i).len() >= i,
        sifted_from(all, flags, i).take(i) == all.take(i),
{
    assert(all.skip(i - 1).drop_first() == all.skip(i));
    assert(flags.skip(i - 1).drop_first() == flags.skip(i));
    assert(all.skip(i - 1)[0] == all[i - 1]);
    assert(flags.skip(i - 1)[0] == flags[i - 1]);
    let rest = picked(all.skip(i), flags.skip(i));
    assert(sifted_from(all, flags, i).take(i) =~= all.take(i));
    if flags[i - 1] {
        assert(all.take(i - 1) + (seq![all[i - 1]] + rest) =~= all.take(i) + rest);
    } else {
        assert((all.take(i) + rest).remove(i - 1) =~= all.take(i - 1) + rest);
    }
}

/// The identifiers that are left once the entries from position `i` on have
/// been sifted: those before `i`, and those behind whose flag is set.
pub open spec fn sift_domain(
    dom: Set<Seq<char>>,
    order: Seq<Seq<char>>,
    flags: Seq<bool>,
    i: int,
) -> bool {
    forall|k: Seq<char>|
        dom.contains(k) <==> (order.contains(k) && (order.index_of(k) < i
            || flags[order.index_of(k)]))
}

/// Records that can be copied with their model kept.
pub trait Duplicate: DeepView + Sized {
    /// A copy with the same model.
    fn duplicate(&self) -> (r: Self)
        ensures
            r.deep_view() == self.deep_view(),
    ;
}

impl<V: DeepView> DeviceMap<V> {
    /// The map that keeps the entries of `self` whose flag is set.
    pub open spec fn sifted(&self, flags: Seq<bool>) -> Map<Seq<char>, V::V> {
        Map::new(
            |k: Seq<char>| self.order().contains(k) && flags[self.order().index_of(k)],
            |k: Seq<char>| self@[k],
        )
    }

    /// Keeps the entries whose flag is set, `flags[i]` belonging to position
    /// `i`, and forgets the others. The kept entries keep their order.
    pub fn retain_flagged(&mut self, flags: &Vec<bool>)
        requires
            old(self).wf(),
            flags.len() == old(self).order().len(),
        ensures
            final(self).wf(),
            final(self).order() == picked(old(self).order(), flags@),
            final(self).items() == picked(old(self).items(), flags@),
            final(self)@ == old(self).sifted(flags@),
    {
        let ghost before = *self;
        let ghost order = self.order();
        let ghost items = self.items();
        let mut i: usize = flags.len();
        proof {
            assert(order.skip(i as int) =~= Seq::<Seq<char>>::empty());
            assert(items.skip(i as int) =~= Seq::<V::V>::empty());
            assert(self.order() =~= sifted_from(order, flags@, i as int));
            assert(self.items() =~= sifted_from(items, flags@, i as int));
            assert forall|k: Seq<char>| self@.dom().contains(k) <==> (order.contains(k) && (
            order.index_of(k) < i || flags@[order.index_of(k)])) by {
                if order.contains(k) {
                    let j = order.index_of(k);
                }
            }
        }
        while i > 0
            invariant
                before.wf(),
                order == before.order(),
                items == before.items(),
                order.len() == flags.len(),
                items.len() == flags.len(),
                i <= flags.len(),
                self.wf(),
                self.order() == sifted_from(order, flags@, i as int),
                self.items() == sifted_from(items, flags@, i as int),
                sift_domain(self@.dom(), order, flags@, i as int),
                forall|k: Seq<char>| self@.contains_key(k) ==> self@[k] == before@[k],
            decreases i,
        {
            proof {
                lemma_sift_step(order, flags@, i as int);
                lemma_sift_step(items, flags@, i as int);
                self.lemma_wf();
                assert(self.order()[i - 1] == order.take(i as int)[i - 1]);
                lemma_index_of(order, i - 1);
            }
            if !flags[i - 1] {
                let ghost mid = *self;
                let _k = self.keys.remove(i - 1);
                let _v = self.vals.remove(i - 1);
                proof {
                    assert(self.order() =~= mid.order().remove(i - 1));
                    assert(self.items() =~= mid.items().remove(i - 1));
                    lemma_assoc_remove(mid.order(), mid.items(), i - 1);
                    assert(self@ == mid@.remove(order[i - 1]));
                    assert forall|k: Seq<char>| self@.dom().contains(k) <==> (order.contains(k)
                        && (order.index_of(k) < i - 1 || flags@[order.index_of(k)])) by {
                        if order.contains(k) {
                            let j = order.index_of(k);
                            lemma_index_of(order, j);
                        }
                    }
                }
            } else {
                proof {
                    assert forall|k: Seq<char>| self@.dom().contains(k) <==> (order.contains(k)
                        && (order.index_of(k) < i - 1 || flags@[order.index_of(k)])) by {
                        if order.contains(k) {
                            let j = order.index_of(k);
                            lemma_index_of(order, j);
                        }
                    }
                }
            }
            assert(sift_domain(self@.dom(), order, flags@, i - 1));
            i = i - 1;
        }
        proof {
            assert(order.take(0) =~= Seq::<Seq<char>>::empty());
            assert(items.take(0) =~= Seq::<V::V>::empty());
            assert(order.skip(0) =~= order);
            assert(items.skip(0) =~= items);
            assert(flags@.skip(0) =~= flags@);
            assert(sifted_from(order, flags@, 0) =~= picked(order, flags@));
            assert(sifted_from(items, flags@, 0) =~= picked(items, flags@));
            assert(self@ =~= before.sifted(flags@));
        }
    }
}

impl<V: Duplicate> DeviceMap<V> {
    /// A copy of the map: the same identifiers in the same order, each with a
    /// copy of its value.
    pub fn duplicate(&self) -> (r: Self)
        requires
            self.wf(),
        ensures
            r.wf(),
            r.order() == self.order(),
            r.items() == self.items(),
            r@ == self@,
    {
        let mut keys: Vec<String> = Vec::new();
        let mut vals: Vec<V> = Vec::new();
        let mut i: usize = 0;
        while i < self.keys.len()
            invariant
                self.wf(),
                i <= self.keys.len(),
                keys.len() == i,
                vals.len() == i,
                forall|j: int| 0 <= j < i ==> (#[trigger] keys@[j])@ == self.keys@[j]@,
                forall|j: int|
                    0 <= j < i ==> (#[trigger] vals@[j]).deep_view() == self.vals@[j].deep_view(),
            decreases self.keys.len() - i,
        {
            keys.push(self.keys[i].clone());
            vals.push(self.vals[i].duplicate());
            i = i + 1;
        }
        let r = DeviceMap { keys, vals };
        proof {
            assert(r.order() =~= self.order());
            assert(r.items() =~= self.items());
        }
        r
    }
}

} // verus!
