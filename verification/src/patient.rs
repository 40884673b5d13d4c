//! The patient side of the binding layer: the hashed patient key, the
//! owner-to-key map, and the key-to-records map.
//!
//! Ownership of records is always resolved in two hops: an externally
//! controlled identity is first resolved to its bound patient key (failing
//! closed if absent), and only that internal key indexes the record
//! bindings.  No operation trusts a caller-supplied internal key directly.

use vstd::prelude::*;
use vstd::string::*;

use crate::alist::{
    alist_keys_distinct, alist_map, elem_set, lemma_alist_distinct_push, lemma_alist_map_get,
    lemma_alist_map_not_contains, lemma_alist_map_push, lemma_alist_map_remove,
    lemma_alist_map_update, lemma_elem_set_contains, lemma_elem_set_push,
};
use crate::arena::{Arena, OutOfMemory};
use crate::types::{Id, Principal};

verus! {

/// The exact byte length of a patient binding key.
pub const KEY_LEN: usize = 32;

/// What the text rendering of a patient key must satisfy: its UTF-8
/// encoding is exactly [`KEY_LEN`] bytes long.  Only the length is checked;
/// the content is trusted.
pub open spec fn valid_nik_text(s: Seq<char>) -> bool {
    vstd::utf8::encode_utf8(s).len() == KEY_LEN
}

/// The hash of a patient's national identity number, used as the stable key
/// for record ownership.  Hash validity cannot be checked here, so only the
/// length is validated at construction; the content is trusted.  The key is
/// rendered as text on the wire in both directions.
#[derive(Debug, Clone, PartialEq, Eq, Hash)]
pub struct InternalBindingKey {
    key: String,
}

/// The patient binding key under its usual name.
pub type NIK = InternalBindingKey;

/// The externally-controlled identity that owns records through its bound key.
pub type Owner = Principal;

impl View for InternalBindingKey {
    type V = Seq<char>;

    closed spec fn view(&self) -> Seq<char> {
        self.key@
    }
}

impl InternalBindingKey {
    /// Every constructed key is exactly [`KEY_LEN`] bytes of text.
    pub open spec fn wf(&self) -> bool {
        valid_nik_text(self@)
    }

    /// Decode a key from its wire text, validating the exact byte length and
    /// nothing else: decoding to text has already rejected anything that is
    /// not UTF-8.
    pub fn from_text(text: String) -> (r: Result<InternalBindingKey, String>)
        ensures
            match r {
                Ok(k) => valid_nik_text(text@) && k@ == text@ && k.wf(),
                Err(e) => !valid_nik_text(text@) && e@ == "invalid nik hash length"@,
            },
    {
        let bytes = text.as_str().as_bytes_vec();
        proof {
            assert(bytes@ == vstd::utf8::encode_utf8(text@));
        }
        if bytes.len() != KEY_LEN {
            return Err(String::from_str("invalid nik hash length"));
        }
        Ok(InternalBindingKey { key: text })
    }

    /// The key's text.
    pub fn as_str(&self) -> (r: &str)
        ensures
            r@ == self@,
    {
        self.key.as_str()
    }

    /// An independent copy of the key with the same text.
    pub fn duplicate(&self) -> (r: InternalBindingKey)
        ensures
            r@ == self@,
    {
        InternalBindingKey { key: self.key.clone() }
    }

    /// Whether two keys are the same.
    pub fn same_as(&self, other: &InternalBindingKey) -> (r: bool)
        ensures
            r == (self@ == other@),
    {
        let r = self.key == other.key;
        r
    }
}

/// Owner-to-key map, enforcing a 1:1 relationship between an identity and a
/// patient key.  The identity that maps to a binding key effectively owns
/// all the records that key maps to; the indirection lets an identity be
/// rebound without invalidating ownership.
pub struct OwnerMap {
    entries: Vec<(Principal, InternalBindingKey)>,
}

impl View for OwnerMap {
    type V = Map<Seq<u8>, Seq<char>>;

    closed spec fn view(&self) -> Map<Seq<u8>, Seq<char>> {
        alist_map(self.kv())
    }
}

impl OwnerMap {
    /// The entry sequence under its specification-level reading.
    pub closed spec fn kv(&self) -> Seq<(Seq<u8>, Seq<char>)> {
        self.entries@.map_values(|p: (Principal, InternalBindingKey)| (p.0@, p.1@))
    }

    /// Each identity is bound at most once, and every stored key is well formed.
    pub closed spec fn wf(&self) -> bool {
        alist_keys_distinct(self.kv()) && forall|i: int|
            0 <= i < self.entries@.len() ==> (#[trigger] self.entries@[i].1).wf()
    }

    /// An empty map.
    pub fn new() -> (r: OwnerMap)
        ensures
            r.wf(),
            r@ == Map::<Seq<u8>, Seq<char>>::empty(),
    {
        OwnerMap { entries: Vec::new() }
    }

    /// The index at which `owner` is bound, if any.
    fn find_index(&self, owner: &Principal) -> (r: Option<usize>)
        ensures
            match r {
                Some(i) => i < self.kv().len() && self.kv()[i as int].0 == owner@,
                None => forall|j: int| 0 <= j < self.kv().len() ==> self.kv()[j].0 != owner@,
            },
    {
        let mut i: usize = 0;
        while i < self.entries.len()
            invariant
                i <= self.entries@.len(),
                self.kv().len() == self.entries@.len(),
                forall|j: int| 0 <= j < i ==> self.kv()[j].0 != owner@,
            decreases self.entries@.len() - i,
        {
            if self.entries[i].0.same_as(owner) {
                return Some(i);
            }
            i = i + 1;
        }
        None
    }

    /// The key bound to `owner`, if one is.
    pub fn get_nik<'a>(&'a self, owner: &Principal) -> (r: Option<&'a InternalBindingKey>)
        requires
            self.wf(),
        ensures
            match r {
                Some(k) => self@.contains_key(owner@) && k@ == self@[owner@] && k.wf(),
                None => !self@.contains_key(owner@),
            },
    {
        match self.find_index(owner) {
            Some(i) => {
                proof {
                    lemma_alist_map_get(self.kv(), i as int);
                }
                let entry = &self.entries[i];
                Some(&entry.1)
            },
            None => {
                proof {
                    lemma_alist_map_not_contains(self.kv(), owner@);
                }
                None
            },
        }
    }

    /// Whether `owner` currently has a bound key.
    pub fn is_valid_owner(&self, owner: &Principal) -> (r: bool)
        requires
            self.wf(),
        ensures
            r == self@.contains_key(owner@),
    {
        match self.find_index(owner) {
            Some(i) => {
                proof {
                    lemma_alist_map_get(self.kv(), i as int);
                }
                true
            },
            None => {
                proof {
                    lemma_alist_map_not_contains(self.kv(), owner@);
                }
                false
            },
        }
    }

    /// Bind `owner` to `nik`, inserting or replacing: first registration and
    /// rebinding are the same operation.  Takes one arena cell, or reports
    /// exhaustion and changes nothing.
    pub fn bind(&mut self, owner: Principal, nik: InternalBindingKey, arena: &mut Arena) -> (r:
        Result<(), OutOfMemory>)
        requires
            old(self).wf(),
            nik.wf(),
            old(arena).wf(),
        ensures
            final(self).wf(),
            final(arena).wf(),
            final(arena).capacity() == old(arena).capacity(),
            match r {
                Ok(()) => old(arena).can_alloc(1) && final(arena).used() == old(arena).used() + 1
                    && final(self)@ == old(self)@.insert(owner@, nik@),
                Err(_) => !old(arena).can_alloc(1) && *final(self) == *old(self) && *final(arena)
                    == *old(arena),
            },
    {
        arena.try_alloc(1)?;
        match self.find_index(&owner) {
            Some(i) => {
                let _old_entry = self.entries.remove(i);
                self.entries.insert(i, (owner, nik));
                proof {
                    let okv = old(self).kv();
                    assert(self.kv() =~= okv.update(i as int, (okv[i as int].0, nik@)));
                    lemma_alist_map_update(okv, i as int, nik@);
                    assert(self@ =~= old(self)@.insert(owner@, nik@));
                }
                Ok(())
            },
            None => {
                self.entries.push((owner, nik));
                proof {
                    let okv = old(self).kv();
                    assert(self.kv() =~= okv.push((owner@, nik@)));
                    lemma_alist_map_push(okv, owner@, nik@);
                    lemma_alist_distinct_push(okv, owner@, nik@);
                }
                Ok(())
            },
        }
    }

    /// Remove `owner`'s binding.  Afterwards `get_nik` returns none, so all
    /// ownership checks keyed off the missing patient key fail closed.
    pub fn revoke(&mut self, owner: &Principal)
        requires
            old(self).wf(),
        ensures
            final(self).wf(),
            final(self)@ == old(self)@.remove(owner@),
    {
        match self.find_index(owner) {
            Some(i) => {
                self.entries.remove(i);
                proof {
                    let okv = old(self).kv();
                    assert(self.kv() =~= okv.remove(i as int));
                    lemma_alist_map_remove(okv, i as int);
                    assert(self@ =~= old(self)@.remove(owner@));
                }
            },
            None => {
                proof {
                    lemma_alist_map_not_contains(self.kv(), owner@);
                    assert(self@ =~= old(self)@.remove(owner@));
                }
            },
        }
    }
}

impl Default for OwnerMap {
    /// An empty map.
    fn default() -> (r: OwnerMap)
        ensures
            r.wf(),
            r@ == Map::<Seq<u8>, Seq<char>>::empty(),
    {
        OwnerMap::new()
    }
}

/// The set of record ids issued to `nik` after one more issuance of `id`.
pub open spec fn issued_after(m: Map<Seq<char>, Set<Id>>, nik: Seq<char>, id: Id) -> Map<
    Seq<char>,
    Set<Id>,
> {
    let prev = if m.contains_key(nik) {
        m[nik]
    } else {
        Set::empty()
    };
    m.insert(nik, prev.insert(id))
}

/// Patient-key-to-records map: tracks the records issued for a patient by
/// holding their ids under the patient's hashed key.  Because the key is a
/// hash, the map doubles as a blind index for record search: iterating it
/// exposes no patient-identifying data.
pub struct EmrBindingMap {
    entries: Vec<(InternalBindingKey, Vec<Id>)>,
}

impl View for EmrBindingMap {
    type V = Map<Seq<char>, Set<Id>>;

    closed spec fn view(&self) -> Map<Seq<char>, Set<Id>> {
        alist_map(self.kv())
    }
}

impl EmrBindingMap {
    /// The entry sequence under its specification-level reading.
    pub closed spec fn kv(&self) -> Seq<(Seq<char>, Set<Id>)> {
        self.entries@.map_values(|p: (InternalBindingKey, Vec<Id>)| (p.0@, elem_set(p.1@)))
    }

    /// Each patient key holds at most one entry.
    pub closed spec fn wf(&self) -> bool {
        alist_keys_distinct(self.kv())
    }

    /// An empty map.
    pub fn new() -> (r: EmrBindingMap)
        ensures
            r.wf(),
            r@ == Map::<Seq<char>, Set<Id>>::empty(),
    {
        EmrBindingMap { entries: Vec::new() }
    }

    /// The index at which `nik` is bound, if any.
    fn find_index(&self, nik: &InternalBindingKey) -> (r: Option<usize>)
        ensures
            match r {
                Some(i) => i < self.kv().len() && self.kv()[i as int].0 == nik@,
                None => forall|j: int| 0 <= j < self.kv().len() ==> self.kv()[j].0 != nik@,
            },
    {
        let mut i: usize = 0;
        while i < self.entries.len()
            invariant
                i <= self.entries@.len(),
                self.kv().len() == self.entries@.len(),
                forall|j: int| 0 <= j < i ==> self.kv()[j].0 != nik@,
            decreases self.entries@.len() - i,
        {
            if self.entries[i].0.same_as(nik) {
                return Some(i);
            }
            i = i + 1;
        }
        None
    }

    /// Record that `emr_id` was issued for the patient keyed `nik`, creating
    /// the patient's id set if absent.  Takes one arena cell, or reports
    /// exhaustion and changes nothing.
    pub fn issue_for(&mut self, nik: &InternalBindingKey, emr_id: Id, arena: &mut Arena) -> (r:
        Result<(), OutOfMemory>)
        requires
            old(self).wf(),
            old(arena).wf(),
        ensures
            final(self).wf(),
            final(arena).wf(),
            final(arena).capacity() == old(arena).capacity(),
            match r {
                Ok(()) => old(arena).can_alloc(1) && final(arena).used() == old(arena).used() + 1
                    && final(self)@ == issued_after(old(self)@, nik@, emr_id),
                Err(_) => !old(arena).can_alloc(1) && *final(self) == *old(self) && *final(arena)
                    == *old(arena),
            },
    {
        arena.try_alloc(1)?;
        self.issue_prepaid(nik, emr_id);
        Ok(())
    }

    /// As [`EmrBindingMap::issue_for`], for callers that have already
    /// reserved the arena cell this issuance takes.
    pub(crate) fn issue_prepaid(&mut self, nik: &InternalBindingKey, emr_id: Id)
        requires
            old(self).wf(),
        ensures
            final(self).wf(),
            final(self)@ == issued_after(old(self)@, nik@, emr_id),
    {
        match self.find_index(nik) {
            Some(i) => {
                proof {
                    lemma_alist_map_get(old(self).kv(), i as int);
                }
                let entry = self.entries.remove(i);
                let mut ids = entry.1;
                ids.push(emr_id);
                self.entries.insert(i, (entry.0, ids));
                proof {
                    let okv = old(self).kv();
                    lemma_elem_set_push(old(self).entries@[i as int].1@, emr_id);
                    assert(self.kv() =~= okv.update(
                        i as int,
                        (okv[i as int].0, okv[i as int].1.insert(emr_id)),
                    ));
                    lemma_alist_map_update(okv, i as int, okv[i as int].1.insert(emr_id));
                    assert(self@ =~= issued_after(old(self)@, nik@, emr_id));
                }
            },
            None => {
                proof {
                    lemma_alist_map_not_contains(self.kv(), nik@);
                }
                let mut ids: Vec<Id> = Vec::new();
                ids.push(emr_id);
                self.entries.push((nik.duplicate(), ids));
                proof {
                    let okv = old(self).kv();
                    assert(ids@.drop_last() =~= Seq::<Id>::empty());
                    assert(elem_set(ids@) == elem_set(ids@.drop_last()).insert(ids@.last()));
                    assert(elem_set(ids@) =~= Set::empty().insert(emr_id));
                    assert(self.kv() =~= okv.push((nik@, elem_set(ids@))));
                    lemma_alist_map_push(okv, nik@, elem_set(ids@));
                    lemma_alist_distinct_push(okv, nik@, elem_set(ids@));
                    assert(self@ =~= issued_after(old(self)@, nik@, emr_id));
                }
            },
        }
    }

    /// Whether `emr_id` is among the records issued for the patient keyed
    /// `nik`: a set-membership check on the internal key.
    pub fn is_owner_of(&self, nik: &InternalBindingKey, emr_id: &Id) -> (r: bool)
        requires
            self.wf(),
        ensures
            r == (self@.contains_key(nik@) && self@[nik@].contains(*emr_id)),
    {
        match self.find_index(nik) {
            Some(i) => {
                proof {
                    lemma_alist_map_get(self.kv(), i as int);
                }
                let entry = &self.entries[i];
                let ids = &entry.1;
                proof {
                    assert(self@[nik@] == elem_set(ids@));
                    lemma_elem_set_contains(ids@, *emr_id);
                }
                let mut j: usize = 0;
                while j < ids.len()
                    invariant
                        self@.contains_key(nik@),
                        self@[nik@] == elem_set(ids@),
                        elem_set(ids@).contains(*emr_id) <==> exists|t: int|
                            0 <= t < ids@.len() && ids@[t] == *emr_id,
                        j <= ids@.len(),
                        forall|t: int| 0 <= t < j ==> ids@[t] != *emr_id,
                    decreases ids@.len() - j,
                {
                    if ids[j] == *emr_id {
                        proof {
                            assert(ids@[j as int] == *emr_id);
                        }
                        return true;
                    }
                    j = j + 1;
                }
                false
            },
            None => {
                proof {
                    lemma_alist_map_not_contains(self.kv(), nik@);
                }
                false
            },
        }
    }
}

impl Default for EmrBindingMap {
    /// An empty map.
    fn default() -> (r: EmrBindingMap)
        ensures
            r.wf(),
            r@ == Map::<Seq<char>, Set<Id>>::empty(),
    {
        EmrBindingMap::new()
    }
}

} // verus!
