//! Small sets and maps keyed by key names and modifiers, kept as vectors without repeats.
use vstd::prelude::*;

use crate::key::{Key, Modifier, ModifierView, modifier_views};

verus! {

/// A set of keys.
#[derive(Debug)]
pub struct KeySet {
    items: Vec<Key>,
}

/// The key names of a sequence of keys, as a set.
pub open spec fn key_set(v: Seq<Key>) -> Set<Seq<char>> {
    Set::new(|k: Seq<char>| exists|i: int| 0 <= i < v.len() && (#[trigger] v[i])@ == k)
}

/// The modifiers of a sequence, as a set of values.
pub open spec fn modifier_set(v: Seq<Modifier>) -> Set<ModifierView> {
    Set::new(|m: ModifierView| exists|i: int| 0 <= i < v.len() && (#[trigger] v[i])@ == m)
}

impl View for KeySet {
    type V = Set<Seq<char>>;

    closed spec fn view(&self) -> Set<Seq<char>> {
        key_set(self.items@)
    }
}

impl KeySet {
    #[verifier::type_invariant]
    closed spec fn wf(self) -> bool {
        forall|i: int, j: int|
            0 <= i < j < self.items@.len() ==> (#[trigger] self.items@[i])@ != (#[trigger] self.items@[j])@
    }

    pub fn new() -> (r: KeySet)
        ensures
            r@ == Set::<Seq<char>>::empty(),
    {
        let r = KeySet { items: Vec::new() };
        proof {
            assert(r@ =~= Set::<Seq<char>>::empty());
        }
        r
    }

    fn position(&self, key: &Key) -> (r: Option<usize>)
        ensures
            r matches Some(i) ==> i < self.items@.len() && self.items@[i as int]@ == key@,
            r is None ==> !self@.contains(key@),
    {
        let mut i: usize = 0;
        while i < self.items.len()
            invariant
                i <= self.items.len(),
                forall|k: int| 0 <= k < i ==> (#[trigger] self.items@[k])@ != key@,
            decreases self.items.len() - i,
        {
            if self.items[i].same(key) {
                return Some(i);
            }
            i = i + 1;
        }
        None
    }

    pub fn contains(&self, key: &Key) -> (r: bool)
        ensures
            r == self@.contains(key@),
    {
        self.position(key).is_some()
    }

    pub fn insert(&mut self, key: Key)
        ensures
            final(self)@ == old(self)@.insert(key@),
    {
        proof {
            use_type_invariant(&*self);
        }
        if self.position(&key).is_none() {
            let ghost before = self.items@;
            let ghost kv = key@;
            let mut items: Vec<Key> = Vec::new();
            std::mem::swap(&mut items, &mut self.items);
            items.push(key);
            self.items = items;
            proof {
                assert forall|k: Seq<char>| self@.contains(k) <==> key_set(before).insert(kv).contains(k) by {
                    if self@.contains(k) {
                        let j = choose|j: int| 0 <= j < self.items@.len() && (#[trigger] self.items@[j])@ == k;
                        if j < before.len() {
                            assert(before[j] == self.items@[j]);
                        }
                    }
                    if k == kv {
                        assert(self.items@[before.len() as int]@ == k);
                    } else if key_set(before).contains(k) {
                        let j = choose|j: int| 0 <= j < before.len() && (#[trigger] before[j])@ == k;
                        assert(self.items@[j] == before[j]);
                    }
                }
                assert(self@ =~= key_set(before).insert(kv));
            }
        } else {
            proof {
                assert(self@ =~= self@.insert(key@));
            }
        }
    }

    /// Removes a key, telling whether it was there.
    pub fn remove(&mut self, key: &Key) -> (r: bool)
        ensures
            r == old(self)@.contains(key@),
            final(self)@ == old(self)@.remove(key@),
    {
        proof {
            use_type_invariant(&*self);
        }
        match self.position(key) {
            Some(i) => {
                let ghost before = self.items@;
                let mut items: Vec<Key> = Vec::new();
                std::mem::swap(&mut items, &mut self.items);
                items.remove(i);
                self.items = items;
                proof {
                    assert forall|k: Seq<char>| self@.contains(k) <==> key_set(before).remove(key@).contains(k) by {
                        if self@.contains(k) {
                            let j = choose|j: int| 0 <= j < self.items@.len() && (#[trigger] self.items@[j])@ == k;
                            if j < i {
                                assert(before[j] == self.items@[j]);
                            } else {
                                assert(before[j + 1] == self.items@[j]);
                            }
                        }
                        if key_set(before).remove(key@).contains(k) {
                            let j = choose|j: int| 0 <= j < before.len() && (#[trigger] before[j])@ == k;
                            if j < i {
                                assert(self.items@[j] == before[j]);
                            } else {
                                assert(self.items@[j - 1] == before[j]);
                            }
                        }
                    }
                    assert(self@ =~= key_set(before).remove(key@));
                }
                true
            },
            None => {
                proof {
                    assert(self@ =~= self@.remove(key@));
                }
                false
            },
        }
    }

    pub fn is_empty(&self) -> (r: bool)
        ensures
            r == (self@ == Set::<Seq<char>>::empty()),
    {
        proof {
            if self.items@.len() > 0 {
                assert(self@.contains(self.items@[0]@));
            } else {
                assert(self@ =~= Set::<Seq<char>>::empty());
            }
        }
        self.items.len() == 0
    }

    pub fn clear(&mut self)
        ensures
            final(self)@ == Set::<Seq<char>>::empty(),
    {
        self.items = Vec::new();
        proof {
            assert(self@ =~= Set::<Seq<char>>::empty());
        }
    }
}

/// A set of modifiers.
#[derive(Debug)]
pub struct ModifierSet {
    items: Vec<Modifier>,
}

impl View for ModifierSet {
    type V = Set<ModifierView>;

    closed spec fn view(&self) -> Set<ModifierView> {
        modifier_set(self.items@)
    }
}

impl ModifierSet {
    #[verifier::type_invariant]
    closed spec fn wf(self) -> bool {
        forall|i: int, j: int|
            0 <= i < j < self.items@.len() ==> (#[trigger] self.items@[i])@ != (#[trigger] self.items@[j])@
    }

    pub fn new() -> (r: ModifierSet)
        ensures
            r@ == Set::<ModifierView>::empty(),
    {
        let r = ModifierSet { items: Vec::new() };
        proof {
            assert(r@ =~= Set::<ModifierView>::empty());
        }
        r
    }

    fn position(&self, m: &Modifier) -> (r: Option<usize>)
        ensures
            r matches Some(i) ==> i < self.items@.len() && self.items@[i as int]@ == m@,
            r is None ==> !self@.contains(m@),
    {
        let mut i: usize = 0;
        while i < self.items.len()
            invariant
                i <= self.items.len(),
                forall|k: int| 0 <= k < i ==> (#[trigger] self.items@[k])@ != m@,
            decreases self.items.len() - i,
        {
            if self.items[i].same(m) {
                return Some(i);
            }
            i = i + 1;
        }
        None
    }

    pub fn insert(&mut self, m: Modifier)
        ensures
            final(self)@ == old(self)@.insert(m@),
    {
        proof {
            use_type_invariant(&*self);
        }
        if self.position(&m).is_none() {
            let ghost before = self.items@;
            let ghost mv = m@;
            let mut items: Vec<Modifier> = Vec::new();
            std::mem::swap(&mut items, &mut self.items);
            items.push(m);
            self.items = items;
            proof {
                assert forall|k: ModifierView| self@.contains(k) <==> modifier_set(before).insert(mv).contains(k) by {
                    if self@.contains(k) {
                        let j = choose|j: int| 0 <= j < self.items@.len() && (#[trigger] self.items@[j])@ == k;
                        if j < before.len() {
                            assert(before[j] == self.items@[j]);
                        }
                    }
                    if k == mv {
                        assert(self.items@[before.len() as int]@ == k);
                    } else if modifier_set(before).contains(k) {
                        let j = choose|j: int| 0 <= j < before.len() && (#[trigger] before[j])@ == k;
                        assert(self.items@[j] == before[j]);
                    }
                }
                assert(self@ =~= modifier_set(before).insert(mv));
            }
        } else {
            proof {
                assert(self@ =~= self@.insert(m@));
            }
        }
    }

    pub fn remove(&mut self, m: &Modifier)
        ensures
            final(self)@ == old(self)@.remove(m@),
    {
        proof {
            use_type_invariant(&*self);
        }
        match self.position(m) {
            Some(i) => {
                let ghost before = self.items@;
                let mut items: Vec<Modifier> = Vec::new();
                std::mem::swap(&mut items, &mut self.items);
                items.remove(i);
                self.items = items;
                proof {
                    assert forall|k: ModifierView| self@.contains(k) <==> modifier_set(before).remove(m@).contains(k) by {
                        if self@.contains(k) {
                            let j = choose|j: int| 0 <= j < self.items@.len() && (#[trigger] self.items@[j])@ == k;
                            if j < i {
                                assert(before[j] == self.items@[j]);
                            } else {
                                assert(before[j + 1] == self.items@[j]);
                            }
                        }
                        if modifier_set(before).remove(m@).contains(k) {
                            let j = choose|j: int| 0 <= j < before.len() && (#[trigger] before[j])@ == k;
                            if j < i {
                                assert(self.items@[j] == before[j]);
                            } else {
                                assert(self.items@[j - 1] == before[j]);
                            }
                        }
                    }
                    assert(self@ =~= modifier_set(before).remove(m@));
                }
            },
            None => {
                proof {
                    assert(self@ =~= self@.remove(m@));
                }
            },
        }
    }

    pub fn is_empty(&self) -> (r: bool)
        ensures
            r == (self@ == Set::<ModifierView>::empty()),
    {
        proof {
            if self.items@.len() > 0 {
                assert(self@.contains(self.items@[0]@));
            } else {
                assert(self@ =~= Set::<ModifierView>::empty());
            }
        }
        self.items.len() == 0
    }

    /// A copy of the set.
    pub fn duplicate(&self) -> (r: ModifierSet)
        ensures
            r@ == self@,
    {
        proof {
            use_type_invariant(self);
        }
        let items = crate::key::clone_modifiers(self.items.as_slice());
        proof {
            assert(modifier_views(items@).len() == items@.len());
            assert(modifier_views(self.items@).len() == self.items@.len());
            assert forall|i: int| 0 <= i < items@.len() implies (#[trigger] items@[i])@ == self.items@[i]@ by {
                assert(modifier_views(items@)[i] == items@[i]@);
                assert(modifier_views(self.items@)[i] == self.items@[i]@);
            }
            assert forall|i: int, j: int| 0 <= i < j < items@.len() implies (#[trigger] items@[i])@ != (#[trigger] items@[j])@ by {
                assert(items@[i]@ == self.items@[i]@);
                assert(items@[j]@ == self.items@[j]@);
            }
            assert forall|k: ModifierView| modifier_set(items@).contains(k) <==> self@.contains(k) by {
                if modifier_set(items@).contains(k) {
                    let j = choose|j: int| 0 <= j < items@.len() && (#[trigger] items@[j])@ == k;
                    assert(self.items@[j]@ == k);
                }
                if self@.contains(k) {
                    let j = choose|j: int| 0 <= j < self.items@.len() && (#[trigger] self.items@[j])@ == k;
                    assert(items@[j]@ == k);
                }
            }
        }
        let r = ModifierSet { items };
        proof {
            assert(r@ =~= self@);
        }
        r
    }

    /// The modifiers, each once.
    pub fn to_vec(&self) -> (r: Vec<Modifier>)
        ensures
            modifier_set(r@) == self@,
    {
        let r = crate::key::clone_modifiers(self.items.as_slice());
        proof {
            assert forall|k: ModifierView| modifier_set(r@).contains(k) <==> self@.contains(k) by {
                assert(modifier_views(r@).len() == r@.len());
                assert(modifier_views(self.items@).len() == self.items@.len());
                if modifier_set(r@).contains(k) {
                    let j = choose|j: int| 0 <= j < r@.len() && (#[trigger] r@[j])@ == k;
                    assert(modifier_views(r@)[j] == r@[j]@);
                    assert(modifier_views(self.items@)[j] == self.items@[j]@);
                    assert(self.items@[j]@ == k);
                }
                if self@.contains(k) {
                    let j = choose|j: int| 0 <= j < self.items@.len() && (#[trigger] self.items@[j])@ == k;
                    assert(modifier_views(r@)[j] == r@[j]@);
                    assert(modifier_views(self.items@)[j] == self.items@[j]@);
                    assert(r@[j]@ == k);
                }
            }
            assert(modifier_set(r@) =~= self@);
        }
        r
    }
}

/// Keys held as dual-role keys: for each, whether another input arrived while it was down,
/// and the modifiers held when it went down.
#[derive(Debug)]
pub struct ActiveRoles {
    keys: Vec<Key>,
    used: Vec<bool>,
    taps: Vec<ModifierSet>,
}

pub type ActiveView = Map<Seq<char>, (bool, Set<ModifierView>)>;

/// Parallel sequences of keys, flags and modifier sets, as a map from key name.
pub open spec fn active_view(keys: Seq<Key>, used: Seq<bool>, taps: Seq<ModifierSet>) -> ActiveView {
    Map::new(
        |k: Seq<char>| exists|i: int| 0 <= i < keys.len() && (#[trigger] keys[i])@ == k,
        |k: Seq<char>|
            {
                let i = choose|i: int| 0 <= i < keys.len() && (#[trigger] keys[i])@ == k;
                (used[i], taps[i]@)
            },
    )
}

/// Equal lengths and no key twice.
pub open spec fn active_wf(keys: Seq<Key>, used: Seq<bool>, taps: Seq<ModifierSet>) -> bool {
    &&& used.len() == keys.len()
    &&& taps.len() == keys.len()
    &&& forall|i: int, j: int| 0 <= i < j < keys.len() ==> (#[trigger] keys[i])@ != (#[trigger] keys[j])@
}

proof fn lemma_active_at(keys: Seq<Key>, used: Seq<bool>, taps: Seq<ModifierSet>, i: int)
    requires
        active_wf(keys, used, taps),
        0 <= i < keys.len(),
    ensures
        active_view(keys, used, taps).dom().contains(keys[i]@),
        active_view(keys, used, taps)[keys[i]@] == (used[i], taps[i]@),
{
    let k = keys[i]@;
    assert(active_view(keys, used, taps).dom().contains(k));
    let j = choose|j: int| 0 <= j < keys.len() && (#[trigger] keys[j])@ == k;
    if j != i {
        if j < i {
            assert(keys[j]@ != keys[i]@);
        } else {
            assert(keys[i]@ != keys[j]@);
        }
    }
}

impl View for ActiveRoles {
    type V = ActiveView;

    closed spec fn view(&self) -> ActiveView {
        active_view(self.keys@, self.used@, self.taps@)
    }
}

impl ActiveRoles {
    #[verifier::type_invariant]
    closed spec fn wf(self) -> bool {
        active_wf(self.keys@, self.used@, self.taps@)
    }

    pub fn new() -> (r: ActiveRoles)
        ensures
            r@ == Map::<Seq<char>, (bool, Set<ModifierView>)>::empty(),
    {
        let r = ActiveRoles { keys: Vec::new(), used: Vec::new(), taps: Vec::new() };
        proof {
            assert(r@.dom() =~= Set::<Seq<char>>::empty());
            assert(r@ =~= Map::<Seq<char>, (bool, Set<ModifierView>)>::empty());
        }
        r
    }

    fn position(&self, key: &Key) -> (r: Option<usize>)
        ensures
            r matches Some(i) ==> i < self.keys@.len() && self.keys@[i as int]@ == key@,
            r is None ==> !self@.dom().contains(key@),
    {
        let mut i: usize = 0;
        while i < self.keys.len()
            invariant
                i <= self.keys.len(),
                forall|k: int| 0 <= k < i ==> (#[trigger] self.keys@[k])@ != key@,
            decreases self.keys.len() - i,
        {
            if self.keys[i].same(key) {
                return Some(i);
            }
            i = i + 1;
        }
        None
    }

    pub fn contains_key(&self, key: &Key) -> (r: bool)
        ensures
            r == self@.dom().contains(key@),
    {
        self.position(key).is_some()
    }

    pub fn is_empty(&self) -> (r: bool)
        ensures
            r == (self@.dom() == Set::<Seq<char>>::empty()),
    {
        proof {
            if self.keys@.len() > 0 {
                assert(self@.dom().contains(self.keys@[0]@));
            } else {
                assert(self@.dom() =~= Set::<Seq<char>>::empty());
            }
        }
        self.keys.len() == 0
    }

    /// The held dual-role keys.
    pub fn keys(&self) -> (r: Vec<Key>)
        ensures
            key_set(r@) == self@.dom(),
    {
        let mut out: Vec<Key> = Vec::new();
        let mut i: usize = 0;
        while i < self.keys.len()
            invariant
                i <= self.keys.len(),
                out@.len() == i,
                forall|k: int| 0 <= k < i ==> (#[trigger] out@[k])@ == self.keys@[k]@,
            decreases self.keys.len() - i,
        {
            out.push(self.keys[i].clone());
            i = i + 1;
        }
        proof {
            assert forall|k: Seq<char>| key_set(out@).contains(k) <==> self@.dom().contains(k) by {
                if key_set(out@).contains(k) {
                    let j = choose|j: int| 0 <= j < out@.len() && (#[trigger] out@[j])@ == k;
                    assert(self.keys@[j]@ == k);
                }
                if self@.dom().contains(k) {
                    let j = choose|j: int| 0 <= j < self.keys@.len() && (#[trigger] self.keys@[j])@ == k;
                    assert(out@[j]@ == k);
                }
            }
            assert(key_set(out@) =~= self@.dom());
        }
        out
    }

    /// Adds a key that is not held yet, unused.
    pub fn insert(&mut self, key: Key, taps: ModifierSet)
        requires
            !old(self)@.dom().contains(key@),
        ensures
            final(self)@ == old(self)@.insert(key@, (false, taps@)),
    {
        proof {
            use_type_invariant(&*self);
        }
        let ghost ok = self.keys@;
        let ghost ou = self.used@;
        let ghost ot = self.taps@;
        let ghost kv = key@;
        let ghost tv = taps@;
        let mut taken = ActiveRoles::new();
        std::mem::swap(&mut taken, self);
        let ActiveRoles { keys: mut keys, used: mut used, taps: mut tap_sets } = taken;
        keys.push(key);
        used.push(false);
        tap_sets.push(taps);
        let ghost n = ok.len() as int;
        proof {
            let old_view = active_view(ok, ou, ot);
            assert forall|i: int, j: int| 0 <= i < j < keys@.len() implies (#[trigger] keys@[i])@ != (#[trigger] keys@[j])@ by {
                if j == n {
                    assert(keys@[i] == ok[i]);
                    if keys@[i]@ == kv {
                        assert(old_view.dom().contains(kv));
                    }
                } else {
                    assert(keys@[i] == ok[i] && keys@[j] == ok[j]);
                }
            }
            let new_view = active_view(keys@, used@, tap_sets@);
            let want = old_view.insert(kv, (false, tv));
            assert forall|k: Seq<char>| new_view.dom().contains(k) <==> want.dom().contains(k) by {
                if new_view.dom().contains(k) && k != kv {
                    let j = choose|j: int| 0 <= j < keys@.len() && (#[trigger] keys@[j])@ == k;
                    assert(ok[j] == keys@[j]);
                }
                if k == kv {
                    lemma_active_at(keys@, used@, tap_sets@, n);
                } else if old_view.dom().contains(k) {
                    let j = choose|j: int| 0 <= j < ok.len() && (#[trigger] ok[j])@ == k;
                    assert(keys@[j] == ok[j]);
                }
            }
            assert(new_view.dom() =~= want.dom());
            assert forall|k: Seq<char>| #[trigger] new_view.dom().contains(k) implies new_view[k] == want[k] by {
                let j = choose|j: int| 0 <= j < keys@.len() && (#[trigger] keys@[j])@ == k;
                lemma_active_at(keys@, used@, tap_sets@, j);
                if j < n {
                    assert(ok[j] == keys@[j]);
                    lemma_active_at(ok, ou, ot, j);
                }
            }
            assert(new_view =~= want);
        }
        *self = ActiveRoles { keys, used, taps: tap_sets };
    }

    /// Removes a held key, giving back whether it was used and the modifiers held with it.
    pub fn remove(&mut self, key: &Key) -> (r: Option<(bool, ModifierSet)>)
        ensures
            r is Some <==> old(self)@.dom().contains(key@),
            r matches Some(e) ==> (e.0, e.1@) == old(self)@[key@],
            final(self)@ == old(self)@.remove(key@),
    {
        proof {
            use_type_invariant(&*self);
        }
        match self.position(key) {
            None => {
                proof {
                    assert(self@ =~= self@.remove(key@));
                }
                None
            },
            Some(i) => {
                let ghost ok = self.keys@;
                let ghost ou = self.used@;
                let ghost ot = self.taps@;
                proof {
                    lemma_active_at(ok, ou, ot, i as int);
                }
                let mut taken = ActiveRoles::new();
                std::mem::swap(&mut taken, self);
                let ActiveRoles { keys: mut keys, used: mut used, taps: mut tap_sets } = taken;
                keys.remove(i);
                let u = used.remove(i);
                let t = tap_sets.remove(i);
                proof {
                    let old_view = active_view(ok, ou, ot);
                    let want = old_view.remove(key@);
                    assert forall|a: int, b: int| 0 <= a < b < keys@.len() implies (#[trigger] keys@[a])@ != (#[trigger] keys@[b])@ by {
                        let a2 = if a < i { a } else { a + 1 };
                        let b2 = if b < i { b } else { b + 1 };
                        assert(keys@[a] == ok[a2] && keys@[b] == ok[b2]);
                    }
                    let new_view = active_view(keys@, used@, tap_sets@);
                    assert forall|k: Seq<char>| new_view.dom().contains(k) <==> want.dom().contains(k) by {
                        if new_view.dom().contains(k) {
                            let j = choose|j: int| 0 <= j < keys@.len() && (#[trigger] keys@[j])@ == k;
                            let j2 = if j < i { j } else { j + 1 };
                            assert(keys@[j] == ok[j2]);
                            assert(old_view.dom().contains(k));
                            if k == key@ {
                                assert(ok[i as int]@ == k);
                            }
                        }
                        if want.dom().contains(k) {
                            let j = choose|j: int| 0 <= j < ok.len() && (#[trigger] ok[j])@ == k;
                            assert(j != i);
                            let j2 = if j < i { j } else { j - 1 };
                            assert(keys@[j2] == ok[j]);
                        }
                    }
                    assert(new_view.dom() =~= want.dom());
                    assert forall|k: Seq<char>| #[trigger] new_view.dom().contains(k) implies new_view[k] == want[k] by {
                        let j = choose|j: int| 0 <= j < keys@.len() && (#[trigger] keys@[j])@ == k;
                        lemma_active_at(keys@, used@, tap_sets@, j);
                        let j2 = if j < i { j } else { j + 1 };
                        assert(keys@[j] == ok[j2]);
                        lemma_active_at(ok, ou, ot, j2);
                    }
                    assert(new_view =~= want);
                }
                *self = ActiveRoles { keys, used, taps: tap_sets };
                Some((u, t))
            },
        }
    }

    /// Marks every held key as used.
    pub fn mark_all_used(&mut self)
        ensures
            final(self)@.dom() == old(self)@.dom(),
            forall|k: Seq<char>| #[trigger] old(self)@.dom().contains(k) ==> final(self)@[k] == (
                true,
                old(self)@[k].1,
            ),
    {
        proof {
            use_type_invariant(&*self);
        }
        let ghost ok = self.keys@;
        let ghost ou = self.used@;
        let ghost ot = self.taps@;
        let mut used: Vec<bool> = Vec::new();
        let mut i: usize = 0;
        while i < self.keys.len()
            invariant
                i <= self.keys.len(),
                used@.len() == i,
                forall|k: int| 0 <= k < i ==> used@[k],
            decreases self.keys.len() - i,
        {
            used.push(true);
            i = i + 1;
        }
        proof {
            assert(active_wf(ok, used@, ot));
            let new_view = active_view(ok, used@, ot);
            let old_view = active_view(ok, ou, ot);
            assert(new_view.dom() =~= old_view.dom());
            assert forall|k: Seq<char>| #[trigger] old_view.dom().contains(k) implies new_view[k] == (true, old_view[k].1) by {
                let j = choose|j: int| 0 <= j < ok.len() && (#[trigger] ok[j])@ == k;
                lemma_active_at(ok, used@, ot, j);
                lemma_active_at(ok, ou, ot, j);
            }
        }
        let mut taken = ActiveRoles::new();
        std::mem::swap(&mut taken, self);
        let ActiveRoles { keys, used: _, taps } = taken;
        *self = ActiveRoles { keys, used, taps };
    }
}

} // verus!
