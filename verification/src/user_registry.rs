//! The store of user profiles, one under each identity that has opened one.

use vstd::prelude::*;

use crate::identity::Identity;
use crate::types::{UserProfile, UserProfileView};

verus! {

/// One profile with the identity it is kept under.
struct Slot {
    key: Identity,
    profile: UserProfile,
}

/// The store of user profiles.
pub struct UserRegistry {
    slots: Vec<Slot>,
}

/// Whether no identity has two slots.
spec fn distinct(slots: Seq<Slot>) -> bool {
    forall|i: int, j: int|
        0 <= i < slots.len() && 0 <= j < slots.len() && i != j ==> #[trigger] slots[i].key@
            != #[trigger] slots[j].key@
}

/// Whether some slot is kept under `k`.
spec fn holds(slots: Seq<Slot>, k: Seq<u8>) -> bool {
    exists|i: int| 0 <= i < slots.len() && #[trigger] slots[i].key@ == k
}

/// The place of a slot that is kept under `k`.
spec fn place(slots: Seq<Slot>, k: Seq<u8>) -> int {
    choose|i: int| 0 <= i < slots.len() && #[trigger] slots[i].key@ == k
}

/// The identities of the slots, in their order.
spec fn key_seq(slots: Seq<Slot>) -> Seq<Seq<u8>> {
    Seq::new(slots.len(), |i: int| slots[i].key@)
}

/// What a sequence of slots holds.
spec fn model(slots: Seq<Slot>) -> Map<Seq<u8>, UserProfileView> {
    Map::new(|k: Seq<u8>| holds(slots, k), |k: Seq<u8>| slots[place(slots, k)].profile@)
}

/// What distinct slots hold: each profile under its identity, and as many
/// profiles as there are slots.
proof fn lemma_model(slots: Seq<Slot>)
    requires
        distinct(slots),
    ensures
        forall|i: int|
            0 <= i < slots.len() ==> model(slots).contains_key(#[trigger] slots[i].key@) && model(
                slots,
            )[slots[i].key@] == slots[i].profile@,
        forall|k: Seq<u8>| #[trigger] model(slots).contains_key(k) == holds(slots, k),
        model(slots).dom().finite(),
        model(slots).dom().len() == slots.len(),
{
    assert forall|i: int| 0 <= i < slots.len() implies model(slots).contains_key(
        #[trigger] slots[i].key@,
    ) && model(slots)[slots[i].key@] == slots[i].profile@ by {
        let j = place(slots, slots[i].key@);
        assert(i == j);
    }
    let keys = key_seq(slots);
    assert(keys.no_duplicates()) by {
        assert forall|i: int, j: int|
            0 <= i < keys.len() && 0 <= j < keys.len() && i != j implies keys[i] != keys[j] by {
            assert(slots[i].key@ != slots[j].key@);
        }
    }
    assert(keys.to_set() =~= model(slots).dom()) by {
        assert forall|k: Seq<u8>| keys.to_set().contains(k) == model(slots).dom().contains(k) by {
            if keys.contains(k) {
                let i = choose|i: int| 0 <= i < keys.len() && keys[i] == k;
                assert(slots[i].key@ == k);
            }
            if holds(slots, k) {
                let i = place(slots, k);
                assert(keys[i] == k);
            }
        }
    }
    keys.unique_seq_to_set();
    vstd::seq_lib::seq_to_set_is_finite(keys);
}

impl View for UserRegistry {
    type V = Map<Seq<u8>, UserProfileView>;

    closed spec fn view(&self) -> Map<Seq<u8>, UserProfileView> {
        if distinct(self.slots@) {
            model(self.slots@)
        } else {
            Map::empty()
        }
    }
}

impl UserRegistry {
    #[verifier::type_invariant]
    spec fn well_formed(&self) -> bool {
        distinct(self.slots@)
    }

    /// A store holds finitely many profiles.
    pub proof fn lemma_finite(&self)
        ensures
            self@.dom().finite(),
    {
        if distinct(self.slots@) {
            lemma_model(self.slots@);
        }
    }

    /// The identities that have a profile, each once, in the order in which the
    /// store hands them out.
    pub closed spec fn order(&self) -> Seq<Seq<u8>> {
        if distinct(self.slots@) {
            key_seq(self.slots@)
        } else {
            Seq::empty()
        }
    }

    /// The store hands out every identity that has a profile, and each once.
    pub proof fn lemma_order(&self)
        ensures
            self.order().no_duplicates(),
            self.order().to_set() == self@.dom(),
            self.order().len() == self@.dom().len(),
    {
        if distinct(self.slots@) {
            let keys = key_seq(self.slots@);
            assert forall|i: int, j: int|
                0 <= i < keys.len() && 0 <= j < keys.len() && i != j implies keys[i] != keys[j] by {
                assert(self.slots@[i].key@ != self.slots@[j].key@);
            }
            lemma_model(self.slots@);
            assert(keys.to_set() =~= self@.dom()) by {
                assert forall|k: Seq<u8>| keys.to_set().contains(k) == self@.dom().contains(k) by {
                    if keys.contains(k) {
                        let i = choose|i: int| 0 <= i < keys.len() && keys[i] == k;
                        assert(self.slots@[i].key@ == k);
                    }
                    if holds(self.slots@, k) {
                        let i = place(self.slots@, k);
                        assert(keys[i] == k);
                    }
                }
            }
        } else {
            assert(self.order().to_set() =~= self@.dom());
        }
    }

    /// How many profiles there are, as an index.
    pub fn count(&self) -> (r: usize)
        ensures
            r == self.order().len(),
    {
        proof {
            use_type_invariant(self);
        }
        self.slots.len()
    }

    /// The identity at place `i` of the order in which the store hands them out.
    pub fn key_at(&self, i: usize) -> (r: &Identity)
        requires
            i < self.order().len(),
        ensures
            r@ == self.order()[i as int],
            self@.contains_key(r@),
    {
        proof {
            use_type_invariant(self);
            lemma_model(self.slots@);
        }
        &self.slots[i].key
    }

    /// The profile of the identity at place `i`.
    pub fn value_at(&self, i: usize) -> (r: &UserProfile)
        requires
            i < self.order().len(),
        ensures
            self@.contains_key(self.order()[i as int]),
            r@ == self@[self.order()[i as int]],
    {
        proof {
            use_type_invariant(self);
            lemma_model(self.slots@);
        }
        &self.slots[i].profile
    }

    /// A store without any profile.
    pub fn new() -> (r: UserRegistry)
        ensures
            r@ == Map::<Seq<u8>, UserProfileView>::empty(),
    {
        let r = UserRegistry { slots: Vec::new() };
        assert(r@ =~= Map::empty());
        r
    }

    /// How many profiles there are.
    pub fn len(&self) -> (r: u64)
        ensures
            self@.dom().finite(),
            r == self@.dom().len(),
    {
        proof {
            use_type_invariant(self);
            lemma_model(self.slots@);
        }
        self.slots.len() as u64
    }

    fn position(&self, key: &Identity) -> (r: Option<usize>)
        ensures
            match r {
                Some(i) => i < self.slots@.len() && self.slots@[i as int].key@ == key@,
                None => !holds(self.slots@, key@),
            },
    {
        let mut i: usize = 0;
        while i < self.slots.len()
            invariant
                i <= self.slots@.len(),
                forall|j: int| 0 <= j < i ==> self.slots@[j].key@ != key@,
            decreases self.slots@.len() - i,
        {
            if self.slots[i].key.same(key) {
                return Some(i);
            }
            i += 1;
        }
        None
    }

    /// Whether `key` has a profile.
    pub fn contains_key(&self, key: &Identity) -> (r: bool)
        ensures
            r == self@.contains_key(key@),
            self@.dom().finite(),
    {
        proof {
            use_type_invariant(self);
            lemma_model(self.slots@);
        }
        self.position(key).is_some()
    }

    /// The profile of `key`, if there is one.
    pub fn get(&self, key: &Identity) -> (r: Option<&UserProfile>)
        ensures
            self@.dom().finite(),
            r is Some == self@.contains_key(key@),
            r matches Some(p) ==> p@ == self@[key@],
    {
        proof {
            use_type_invariant(self);
            lemma_model(self.slots@);
        }
        match self.position(key) {
            Some(i) => Some(&self.slots[i].profile),
            None => None,
        }
    }

    /// Takes the profile of `key` away and hands it back, if there is one.
    pub fn remove(&mut self, key: &Identity) -> (r: Option<UserProfile>)
        ensures
            final(self)@ == old(self)@.remove(key@),
            final(self)@.dom().finite(),
            r is Some == old(self)@.contains_key(key@),
            r matches Some(p) ==> p@ == old(self)@[key@],
    {
        proof {
            use_type_invariant(&*self);
            lemma_model(self.slots@);
        }
        match self.position(key) {
            Some(at) => {
                let mut slots: Vec<Slot> = Vec::new();
                std::mem::swap(&mut self.slots, &mut slots);
                let ghost was = slots@;
                let slot = slots.remove(at);
                proof {
                    let now = slots@;
                    assert forall|i: int, j: int|
                        0 <= i < now.len() && 0 <= j < now.len() && i != j implies #[trigger] now[i].key@
                        != #[trigger] now[j].key@ by {
                        let a = if i < at {
                            i
                        } else {
                            i + 1
                        };
                        let b = if j < at {
                            j
                        } else {
                            j + 1
                        };
                        assert(now[i] == was[a] && now[j] == was[b]);
                        assert(was[a].key@ != was[b].key@);
                    }
                    lemma_model(now);
                    let want = model(was).remove(key@);
                    assert forall|k: Seq<u8>| model(now).contains_key(k) == want.contains_key(k) by {
                        if holds(now, k) {
                            let i = place(now, k);
                            let a = if i < at {
                                i
                            } else {
                                i + 1
                            };
                            assert(was[a].key@ == k);
                            assert(was[a].key@ != was[at as int].key@);
                        }
                        if holds(was, k) && k != key@ {
                            let a = place(was, k);
                            if a < at {
                                assert(now[a].key@ == k);
                            } else {
                                assert(now[a - 1].key@ == k);
                            }
                        }
                    }
                    assert forall|k: Seq<u8>| model(now).contains_key(k) implies model(now)[k]
                        == want[k] by {
                        let i = place(now, k);
                        let a = if i < at {
                            i
                        } else {
                            i + 1
                        };
                        assert(now[i] == was[a]);
                        assert(model(now)[now[i].key@] == now[i].profile@);
                        assert(model(was)[was[a].key@] == was[a].profile@);
                    }
                    assert(model(now) =~= want);
                }
                std::mem::swap(&mut self.slots, &mut slots);
                Some(slot.profile)
            },
            None => {
                assert(self@.remove(key@) =~= self@);
                None
            },
        }
    }

    /// Places `profile` under `key` and hands back what was there.
    pub fn insert(&mut self, key: Identity, profile: UserProfile) -> (r: Option<UserProfile>)
        ensures
            final(self)@ == old(self)@.insert(key@, profile@),
            final(self)@.dom().finite(),
            r is Some == old(self)@.contains_key(key@),
            r matches Some(p) ==> p@ == old(self)@[key@],
    {
        proof {
            use_type_invariant(&*self);
            lemma_model(self.slots@);
        }
        let found = self.position(&key);
        let mut slots: Vec<Slot> = Vec::new();
        std::mem::swap(&mut self.slots, &mut slots);
        let ghost was = slots@;
        let mut slot = Slot { key, profile };
        let ghost fresh = slot;
        let previous = match found {
            Some(i) => {
                std::mem::swap(&mut slots[i], &mut slot);
                assert(slots@ =~= was.update(i as int, fresh));
                Some(slot.profile)
            },
            None => {
                slots.push(slot);
                None
            },
        };
        proof {
            let now = slots@;
            assert(distinct(now)) by {
                assert forall|i: int, j: int|
                    0 <= i < now.len() && 0 <= j < now.len() && i != j implies #[trigger] now[i].key@
                    != #[trigger] now[j].key@ by {
                    if i < was.len() && j < was.len() {
                        assert(was[i].key@ != was[j].key@);
                    }
                }
            }
            lemma_model(now);
            let want = model(was).insert(key@, profile@);
            assert forall|k: Seq<u8>| model(now).contains_key(k) == want.contains_key(k) by {
                if holds(now, k) && k != key@ {
                    let i = place(now, k);
                    assert(was[i].key@ == k);
                }
                if holds(was, k) {
                    let i = place(was, k);
                    assert(now[i].key@ == k || k == key@);
                }
                if k == key@ {
                    if found is Some {
                        assert(now[found->0 as int].key@ == k);
                    } else {
                        assert(now[was.len() as int].key@ == k);
                    }
                }
            }
            assert forall|k: Seq<u8>| model(now).contains_key(k) implies model(now)[k] == want[k] by {
                let i = place(now, k);
                assert(model(now)[now[i].key@] == now[i].profile@);
                if k != key@ {
                    assert(model(was)[was[i].key@] == was[i].profile@);
                }
            }
            assert(model(now) =~= want);
        }
        std::mem::swap(&mut self.slots, &mut slots);
        previous
    }
}

} // verus!
