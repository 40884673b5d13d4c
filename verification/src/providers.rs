//! The provider side of the registry: version-tagged provider profiles with
//! a lifecycle status, the identity-to-internal-id bindings, and the
//! provider-to-issued-records map.
//!
//! A provider's internal id is generated once and never reused; the
//! externally-controlled identity bound to it can change without touching
//! the records issued under the internal id.

use vstd::prelude::*;

use crate::alist::{
    alist_keys_distinct, alist_map, elem_set, lemma_alist_distinct_push, lemma_alist_map_get,
    lemma_alist_map_not_contains, lemma_alist_map_push, lemma_alist_map_update,
    lemma_elem_set_contains, lemma_elem_set_push,
};
use crate::arena::{Arena, OutOfMemory};
use crate::types::{Id, Principal, Timestamp};

verus! {

/// A provider's activation status: verified at creation, and may move to
/// suspended.  No re-verification transition is exposed.
#[derive(Debug, Clone, Copy, PartialEq, Eq, Structural)]
pub enum Status {
    Verified,
    Suspended,
}

impl Status {
    /// Whether the status is `Verified`.
    pub fn is_verified(&self) -> (r: bool)
        ensures
            r == (*self == Status::Verified),
    {
        match self {
            Status::Verified => true,
            Status::Suspended => false,
        }
    }

    /// Whether the status is `Suspended`.
    pub fn is_suspended(&self) -> (r: bool)
        ensures
            r == (*self == Status::Suspended),
    {
        match self {
            Status::Verified => false,
            Status::Suspended => true,
        }
    }
}

/// The stable identifier that decouples a provider from its authentication
/// identity.
pub type InternalProviderId = Id;

/// The externally-controlled authentication identity of a provider.
pub type ProviderPrincipal = Principal;

/// The specification-level content of a provider profile, version tag
/// aside.
pub struct ProviderView {
    pub internal_id: Id,
    pub activation_status: Status,
    pub display_name: Seq<char>,
    pub owner_principal: Seq<u8>,
    pub registered_at: Timestamp,
    pub updated_at: Timestamp,
}

/// The same profile with its status flipped to suspended and all else kept.
pub open spec fn suspended_view(p: ProviderView) -> ProviderView {
    ProviderView { activation_status: Status::Suspended, ..p }
}

/// Essential provider attributes: every member of the [`Provider`] sum must
/// expose its stable internal id uniformly, and equality and ordering of
/// providers delegate to it.
pub trait EssentialProviderAttributes {
    /// The internal id, at the specification level.
    spec fn spec_internal_id(&self) -> Id;

    /// The internal id, stable even if the provider's external identity
    /// changes.
    fn internal_id(&self) -> (r: &Id)
        ensures
            *r == self.spec_internal_id(),
    ;
}

/// The first schema version of a provider profile.
#[derive(Debug)]
pub struct ProviderV001 {
    /// Can either be verified or suspended.
    activation_status: Status,
    /// Encrypted display name, boxed in the arena.
    display_name: String,
    /// The stable internal identifier for this provider.
    internal_id: Id,
    /// The identity that issues records under this internal id.
    owner_principal: Principal,
    /// When this provider was registered, in nanoseconds.
    registered_at: Timestamp,
    /// When this provider was last updated, in nanoseconds.
    updated_at: Timestamp,
}

impl View for ProviderV001 {
    type V = ProviderView;

    closed spec fn view(&self) -> ProviderView {
        ProviderView {
            internal_id: self.internal_id,
            activation_status: self.activation_status,
            display_name: self.display_name@,
            owner_principal: self.owner_principal@,
            registered_at: self.registered_at,
            updated_at: self.updated_at,
        }
    }
}

impl ProviderV001 {
    /// A new verified provider under `internal_id`, holding the encrypted
    /// display name, bound to its initial identity, both timestamps stamped
    /// with `now`.  Boxing the display name takes one arena cell, or
    /// reports exhaustion and changes nothing.
    pub fn new(
        encrypted_display_name: String,
        initial_principal: Principal,
        internal_id: Id,
        now: Timestamp,
        arena: &mut Arena,
    ) -> (r: Result<ProviderV001, OutOfMemory>)
        requires
            old(arena).wf(),
        ensures
            final(arena).wf(),
            final(arena).capacity() == old(arena).capacity(),
            match r {
                Ok(p) => old(arena).can_alloc(1) && final(arena).used() == old(arena).used() + 1
                    && p@ == (ProviderView {
                    internal_id,
                    activation_status: Status::Verified,
                    display_name: encrypted_display_name@,
                    owner_principal: initial_principal@,
                    registered_at: now,
                    updated_at: now,
                }),
                Err(_) => !old(arena).can_alloc(1) && *final(arena) == *old(arena),
            },
    {
        arena.try_alloc(1)?;
        Ok(
            ProviderV001::from_parts_prepaid(
                encrypted_display_name,
                initial_principal,
                internal_id,
                now,
            ),
        )
    }

    /// As [`ProviderV001::new`], for callers that have already reserved the
    /// arena cell the display-name box takes.
    pub(crate) fn from_parts_prepaid(
        encrypted_display_name: String,
        initial_principal: Principal,
        internal_id: Id,
        now: Timestamp,
    ) -> (r: ProviderV001)
        ensures
            r@ == (ProviderView {
                internal_id,
                activation_status: Status::Verified,
                display_name: encrypted_display_name@,
                owner_principal: initial_principal@,
                registered_at: now,
                updated_at: now,
            }),
    {
        ProviderV001 {
            activation_status: Status::Verified,
            display_name: encrypted_display_name,
            internal_id,
            owner_principal: initial_principal,
            registered_at: now,
            updated_at: now,
        }
    }
}

impl EssentialProviderAttributes for ProviderV001 {
    open spec fn spec_internal_id(&self) -> Id {
        self@.internal_id
    }

    fn internal_id(&self) -> (r: &Id) {
        &self.internal_id
    }
}

/// Version-aware provider profile: a closed sum over schema versions, whose
/// internal id, equality and ordering are defined uniformly across
/// variants.
#[derive(Debug)]
pub enum Provider {
    V001(ProviderV001),
}

impl View for Provider {
    type V = ProviderView;

    closed spec fn view(&self) -> ProviderView {
        match self {
            Provider::V001(p) => p@,
        }
    }
}

impl EssentialProviderAttributes for Provider {
    open spec fn spec_internal_id(&self) -> Id {
        self@.internal_id
    }

    fn internal_id(&self) -> (r: &Id) {
        match self {
            Provider::V001(p) => p.internal_id(),
        }
    }
}

impl Provider {
    /// The provider's current activation status.
    pub fn activation_status(&self) -> (r: Status)
        ensures
            r == self@.activation_status,
    {
        match self {
            Provider::V001(p) => p.activation_status,
        }
    }

    /// The provider's encrypted display name, copied.
    pub fn display_name(&self) -> (r: String)
        ensures
            r@ == self@.display_name,
    {
        match self {
            Provider::V001(p) => p.display_name.clone(),
        }
    }

    /// Flip the status to suspended in place, keeping everything else.
    pub(crate) fn suspend(&mut self)
        ensures
            final(self)@ == suspended_view(old(self)@),
    {
        match self {
            Provider::V001(p) => {
                p.activation_status = Status::Suspended;
            },
        }
    }
}

impl PartialEq for Provider {
    /// Provider equality delegates to the internal id, uniformly across
    /// variants.
    fn eq(&self, other: &Provider) -> (r: bool) {
        *self.internal_id() == *other.internal_id()
    }
}

impl Eq for Provider {

}

impl vstd::std_specs::cmp::PartialEqSpecImpl for Provider {
    open spec fn obeys_eq_spec() -> bool {
        true
    }

    open spec fn eq_spec(&self, other: &Provider) -> bool {
        self@.internal_id == other@.internal_id
    }
}

impl From<ProviderV001> for Provider {
    fn from(provider: ProviderV001) -> (r: Provider) {
        Provider::V001(provider)
    }
}

impl vstd::std_specs::convert::FromSpecImpl<ProviderV001> for Provider {
    open spec fn obeys_from_spec() -> bool {
        true
    }

    open spec fn from_spec(provider: ProviderV001) -> Provider {
        Provider::V001(provider)
    }
}

/// Identity-to-internal-id bindings for providers: tracks each provider
/// by its authentication identity and resolves it to the stable internal
/// id, so the identity can change without a costly update of the records
/// issued under the internal id.
pub struct ProvidersBindings {
    entries: Vec<(Principal, Id)>,
}

impl View for ProvidersBindings {
    type V = Map<Seq<u8>, Id>;

    closed spec fn view(&self) -> Map<Seq<u8>, Id> {
        alist_map(self.kv())
    }
}

impl ProvidersBindings {
    /// The entry sequence under its specification-level reading.
    pub closed spec fn kv(&self) -> Seq<(Seq<u8>, Id)> {
        self.entries@.map_values(|p: (Principal, Id)| (p.0@, p.1))
    }

    /// Each identity is bound at most once.
    pub closed spec fn wf(&self) -> bool {
        alist_keys_distinct(self.kv())
    }

    /// An empty map.
    pub fn new() -> (r: ProvidersBindings)
        ensures
            r.wf(),
            r@ == Map::<Seq<u8>, Id>::empty(),
    {
        ProvidersBindings { entries: Vec::new() }
    }

    /// The index at which `principal` is bound, if any.
    fn find_index(&self, principal: &Principal) -> (r: Option<usize>)
        ensures
            match r {
                Some(i) => i < self.kv().len() && self.kv()[i as int].0 == principal@,
                None => forall|j: int| 0 <= j < self.kv().len() ==> self.kv()[j].0 != principal@,
            },
    {
        let mut i: usize = 0;
        while i < self.entries.len()
            invariant
                i <= self.entries@.len(),
                self.kv().len() == self.entries@.len(),
                forall|j: int| 0 <= j < i ==> self.kv()[j].0 != principal@,
            decreases self.entries@.len() - i,
        {
            if self.entries[i].0.same_as(principal) {
                return Some(i);
            }
            i = i + 1;
        }
        None
    }

    /// Bind `principal` to `internal_id`, inserting or replacing.  Takes
    /// one arena cell, or reports exhaustion and changes nothing.
    pub fn bind(&mut self, principal: Principal, internal_id: Id, arena: &mut Arena) -> (r: Result<
        (),
        OutOfMemory,
    >)
        requires
            old(self).wf(),
            old(arena).wf(),
        ensures
            final(self).wf(),
            final(arena).wf(),
            final(arena).capacity() == old(arena).capacity(),
            match r {
                Ok(()) => old(arena).can_alloc(1) && final(arena).used() == old(arena).used() + 1
                    && final(self)@ == old(self)@.insert(principal@, internal_id),
                Err(_) => !old(arena).can_alloc(1) && *final(self) == *old(self) && *final(arena)
                    == *old(arena),
            },
    {
        arena.try_alloc(1)?;
        self.bind_prepaid(principal, internal_id);
        Ok(())
    }

    /// As [`ProvidersBindings::bind`], for callers that have already
    /// reserved the arena cell this binding takes.
    pub(crate) fn bind_prepaid(&mut self, principal: Principal, internal_id: Id)
        requires
            old(self).wf(),
        ensures
            final(self).wf(),
            final(self)@ == old(self)@.insert(principal@, internal_id),
    {
        match self.find_index(&principal) {
            Some(i) => {
                let _old_entry = self.entries.remove(i);
                self.entries.insert(i, (principal, internal_id));
                proof {
                    let okv = old(self).kv();
                    assert(self.kv() =~= okv.update(i as int, (okv[i as int].0, internal_id)));
                    lemma_alist_map_update(okv, i as int, internal_id);
                    assert(self@ =~= old(self)@.insert(principal@, internal_id));
                }
            },
            None => {
                self.entries.push((principal, internal_id));
                proof {
                    let okv = old(self).kv();
                    assert(self.kv() =~= okv.push((principal@, internal_id)));
                    lemma_alist_map_push(okv, principal@, internal_id);
                    lemma_alist_distinct_push(okv, principal@, internal_id);
                }
            },
        }
    }

    /// The internal id bound to `principal`, if any.
    pub fn get_internal_id(&self, principal: &Principal) -> (r: Option<Id>)
        requires
            self.wf(),
        ensures
            match r {
                Some(id) => self@.contains_key(principal@) && id == self@[principal@],
                None => !self@.contains_key(principal@),
            },
    {
        match self.find_index(principal) {
            Some(i) => {
                proof {
                    lemma_alist_map_get(self.kv(), i as int);
                }
                let entry = &self.entries[i];
                Some(entry.1)
            },
            None => {
                proof {
                    lemma_alist_map_not_contains(self.kv(), principal@);
                }
                None
            },
        }
    }
}

impl Default for ProvidersBindings {
    /// An empty map.
    fn default() -> (r: ProvidersBindings)
        ensures
            r.wf(),
            r@ == Map::<Seq<u8>, Id>::empty(),
    {
        ProvidersBindings::new()
    }
}

/// The set of record ids issued by `provider` after one more issuance of
/// `id`.
pub open spec fn provider_issued_after(m: Map<Id, Set<Id>>, provider: Id, id: Id) -> Map<
    Id,
    Set<Id>,
> {
    let prev = if m.contains_key(provider) {
        m[provider]
    } else {
        Set::empty()
    };
    m.insert(provider, prev.insert(id))
}

/// Provider-to-records map: tracks the records issued by a provider by
/// holding their ids under the provider's internal id — the same shape as
/// the patient-side binding map, keyed by provider.
pub struct Issued {
    entries: Vec<(Id, Vec<Id>)>,
}

impl View for Issued {
    type V = Map<Id, Set<Id>>;

    closed spec fn view(&self) -> Map<Id, Set<Id>> {
        alist_map(self.kv())
    }
}

impl Issued {
    /// The entry sequence under its specification-level reading.
    pub closed spec fn kv(&self) -> Seq<(Id, Set<Id>)> {
        self.entries@.map_values(|p: (Id, Vec<Id>)| (p.0, elem_set(p.1@)))
    }

    /// Each provider id holds at most one entry.
    pub closed spec fn wf(&self) -> bool {
        alist_keys_distinct(self.kv())
    }

    /// An empty map.
    pub fn new() -> (r: Issued)
        ensures
            r.wf(),
            r@ == Map::<Id, Set<Id>>::empty(),
    {
        Issued { entries: Vec::new() }
    }

    /// The index at which `provider` is held, if any.
    fn find_index(&self, provider: &Id) -> (r: Option<usize>)
        ensures
            match r {
                Some(i) => i < self.kv().len() && self.kv()[i as int].0 == *provider,
                None => forall|j: int| 0 <= j < self.kv().len() ==> self.kv()[j].0 != *provider,
            },
    {
        let mut i: usize = 0;
        while i < self.entries.len()
            invariant
                i <= self.entries@.len(),
                self.kv().len() == self.entries@.len(),
                forall|j: int| 0 <= j < i ==> self.kv()[j].0 != *provider,
            decreases self.entries@.len() - i,
        {
            if self.entries[i].0 == *provider {
                return Some(i);
            }
            i = i + 1;
        }
        None
    }

    /// Record that `emr_id` was issued by `provider`, creating the
    /// provider's id set if absent.  Takes one arena cell, or reports
    /// exhaustion and changes nothing.
    pub fn issue_for(&mut self, provider: &Id, emr_id: Id, arena: &mut Arena) -> (r: Result<
        (),
        OutOfMemory,
    >)
        requires
            old(self).wf(),
            old(arena).wf(),
        ensures
            final(self).wf(),
            final(arena).wf(),
            final(arena).capacity() == old(arena).capacity(),
            match r {
                Ok(()) => old(arena).can_alloc(1) && final(arena).used() == old(arena).used() + 1
                    && final(self)@ == provider_issued_after(old(self)@, *provider, emr_id),
                Err(_) => !old(arena).can_alloc(1) && *final(self) == *old(self) && *final(arena)
                    == *old(arena),
            },
    {
        arena.try_alloc(1)?;
        match self.find_index(provider) {
            Some(i) => {
                proof {
                    lemma_alist_map_get(old(self).kv(), i as int);
                }
                let entry = self.entries.remove(i);
                let mut ids = entry.1;
                ids.push(emr_id);
                self.entries.insert(i, (entry.0, ids));
                proof {
                    let okv = old(self).kv();
                    lemma_elem_set_push(old(self).entries@[i as int].1@, emr_id);
                    assert(self.kv() =~= okv.update(
                        i as int,
                        (okv[i as int].0, okv[i as int].1.insert(emr_id)),
                    ));
                    lemma_alist_map_update(okv, i as int, okv[i as int].1.insert(emr_id));
                    assert(self@ =~= provider_issued_after(old(self)@, *provider, emr_id));
                }
            },
            None => {
                proof {
                    lemma_alist_map_not_contains(self.kv(), *provider);
                }
                let mut ids: Vec<Id> = Vec::new();
                ids.push(emr_id);
                self.entries.push((*provider, ids));
                proof {
                    let okv = old(self).kv();
                    assert(ids@.drop_last() =~= Seq::<Id>::empty());
                    assert(elem_set(ids@) == elem_set(ids@.drop_last()).insert(ids@.last()));
                    assert(elem_set(ids@) =~= Set::empty().insert(emr_id));
                    assert(self.kv() =~= okv.push((*provider, elem_set(ids@))));
                    lemma_alist_map_push(okv, *provider, elem_set(ids@));
                    lemma_alist_distinct_push(okv, *provider, elem_set(ids@));
                    assert(self@ =~= provider_issued_after(old(self)@, *provider, emr_id));
                }
            },
        }
        Ok(())
    }

    /// Whether `emr_id` is among the records issued by `provider`: a
    /// set-membership check on the internal id.
    pub fn is_issued_by(&self, provider: &Id, emr_id: &Id) -> (r: bool)
        requires
            self.wf(),
        ensures
            r == (self@.contains_key(*provider) && self@[*provider].contains(*emr_id)),
    {
        match self.find_index(provider) {
            Some(i) => {
                proof {
                    lemma_alist_map_get(self.kv(), i as int);
                }
                let entry = &self.entries[i];
                let ids = &entry.1;
                proof {
                    assert(self@[*provider] == elem_set(ids@));
                    lemma_elem_set_contains(ids@, *emr_id);
                }
                let mut j: usize = 0;
                while j < ids.len()
                    invariant
                        self@.contains_key(*provider),
                        self@[*provider] == elem_set(ids@),
                        elem_set(ids@).contains(*emr_id) <==> exists|t: int|
                            0 <= t < ids@.len() && ids@[t] == *emr_id,
                        j <= ids@.len(),
                        forall|t: int| 0 <= t < j ==> ids@[t] != *emr_id,
                    decreases ids@.len() - j,
                {
                    if ids[j] == *emr_id {
                        proof {
                            assert(ids@[j as int] == *emr_id);
                        }
                        return true;
                    }
                    j = j + 1;
                }
                false
            },
            None => {
                proof {
                    lemma_alist_map_not_contains(self.kv(), *provider);
                }
                false
            },
        }
    }
}

impl Default for Issued {
    /// An empty map.
    fn default() -> (r: Issued)
        ensures
            r.wf(),
            r@ == Map::<Id, Set<Id>>::empty(),
    {
        Issued::new()
    }
}

/// The provider store: internal id to version-tagged provider profile.
pub struct Providers {
    entries: Vec<(Id, Provider)>,
}

impl View for Providers {
    type V = Map<Id, ProviderView>;

    closed spec fn view(&self) -> Map<Id, ProviderView> {
        alist_map(self.kv())
    }
}

impl Providers {
    /// The entry sequence under its specification-level reading.
    pub closed spec fn kv(&self) -> Seq<(Id, ProviderView)> {
        self.entries@.map_values(|p: (Id, Provider)| (p.0, p.1@))
    }

    /// Ids are distinct and every provider is stored under its own id.
    pub closed spec fn wf(&self) -> bool {
        alist_keys_distinct(self.kv()) && forall|i: int|
            0 <= i < self.entries@.len() ==> (#[trigger] self.entries@[i]).0
                == self.entries@[i].1@.internal_id
    }

    /// An empty store.
    pub fn new() -> (r: Providers)
        ensures
            r.wf(),
            r@ == Map::<Id, ProviderView>::empty(),
    {
        Providers { entries: Vec::new() }
    }

    /// The index at which `internal_id` is stored, if any.
    fn find_index(&self, internal_id: &Id) -> (r: Option<usize>)
        ensures
            match r {
                Some(i) => i < self.kv().len() && self.kv()[i as int].0 == *internal_id,
                None => forall|j: int| 0 <= j < self.kv().len() ==> self.kv()[j].0 != *internal_id,
            },
    {
        let mut i: usize = 0;
        while i < self.entries.len()
            invariant
                i <= self.entries@.len(),
                self.kv().len() == self.entries@.len(),
                forall|j: int| 0 <= j < i ==> self.kv()[j].0 != *internal_id,
            decreases self.entries@.len() - i,
        {
            if self.entries[i].0 == *internal_id {
                return Some(i);
            }
            i = i + 1;
        }
        None
    }

    /// Insert a provider under its own internal id, replacing any profile
    /// already stored there.  Takes one arena cell, or reports exhaustion
    /// and changes nothing.
    pub fn add_provider(&mut self, provider: Provider, arena: &mut Arena) -> (r: Result<
        (),
        OutOfMemory,
    >)
        requires
            old(self).wf(),
            old(arena).wf(),
        ensures
            final(self).wf(),
            final(arena).wf(),
            final(arena).capacity() == old(arena).capacity(),
            match r {
                Ok(()) => old(arena).can_alloc(1) && final(arena).used() == old(arena).used() + 1
                    && final(self)@ == old(self)@.insert(provider@.internal_id, provider@),
                Err(_) => !old(arena).can_alloc(1) && *final(self) == *old(self) && *final(arena)
                    == *old(arena),
            },
    {
        arena.try_alloc(1)?;
        self.add_prepaid(provider);
        Ok(())
    }

    /// As [`Providers::add_provider`], for callers that have already
    /// reserved the arena cell this insertion takes.
    pub(crate) fn add_prepaid(&mut self, provider: Provider)
        requires
            old(self).wf(),
        ensures
            final(self).wf(),
            final(self)@ == old(self)@.insert(provider@.internal_id, provider@),
    {
        let id = *provider.internal_id();
        match self.find_index(&id) {
            Some(i) => {
                let _old_entry = self.entries.remove(i);
                self.entries.insert(i, (id, provider));
                proof {
                    let okv = old(self).kv();
                    assert(self.kv() =~= okv.update(i as int, (okv[i as int].0, provider@)));
                    lemma_alist_map_update(okv, i as int, provider@);
                    assert(self@ =~= old(self)@.insert(provider@.internal_id, provider@));
                }
            },
            None => {
                self.entries.push((id, provider));
                proof {
                    let okv = old(self).kv();
                    assert(self.kv() =~= okv.push((id, provider@)));
                    lemma_alist_map_push(okv, id, provider@);
                    lemma_alist_distinct_push(okv, id, provider@);
                }
            },
        }
    }

    /// A borrowed handle to the provider stored under `internal_id`.
    pub fn get_provider<'a>(&'a self, internal_id: &Id) -> (r: Option<&'a Provider>)
        requires
            self.wf(),
        ensures
            match r {
                Some(p) => self@.contains_key(*internal_id) && p@ == self@[*internal_id]
                    && p@.internal_id == *internal_id,
                None => !self@.contains_key(*internal_id),
            },
    {
        match self.find_index(internal_id) {
            Some(i) => {
                proof {
                    lemma_alist_map_get(self.kv(), i as int);
                    assert(self.entries@[i as int].0 == self.entries@[i as int].1@.internal_id);
                }
                let entry = &self.entries[i];
                Some(&entry.1)
            },
            None => {
                proof {
                    lemma_alist_map_not_contains(self.kv(), *internal_id);
                }
                None
            },
        }
    }

    /// Flip the stored provider's status to suspended in place, reporting
    /// whether a provider was stored under `internal_id` at all.
    pub(crate) fn suspend(&mut self, internal_id: &Id) -> (r: bool)
        requires
            old(self).wf(),
        ensures
            final(self).wf(),
            r == old(self)@.contains_key(*internal_id),
            r ==> final(self)@ == old(self)@.insert(
                *internal_id,
                suspended_view(old(self)@[*internal_id]),
            ),
            !r ==> *final(self) == *old(self),
    {
        match self.find_index(internal_id) {
            Some(i) => {
                proof {
                    lemma_alist_map_get(old(self).kv(), i as int);
                }
                let entry = self.entries.remove(i);
                let mut provider = entry.1;
                provider.suspend();
                self.entries.insert(i, (entry.0, provider));
                proof {
                    let okv = old(self).kv();
                    assert(self.kv() =~= okv.update(
                        i as int,
                        (okv[i as int].0, suspended_view(okv[i as int].1)),
                    ));
                    lemma_alist_map_update(okv, i as int, suspended_view(okv[i as int].1));
                    assert(self@ =~= old(self)@.insert(
                        *internal_id,
                        suspended_view(old(self)@[*internal_id]),
                    ));
                }
                true
            },
            None => {
                proof {
                    lemma_alist_map_not_contains(self.kv(), *internal_id);
                }
                false
            },
        }
    }
}

impl Default for Providers {
    /// An empty store.
    fn default() -> (r: Providers)
        ensures
            r.wf(),
            r@ == Map::<Id, ProviderView>::empty(),
    {
        Providers::new()
    }
}

/// The live two-hop issuance check: the identity resolves to a bound
/// internal id, and the record id is in that id's issued set.  It fails
/// closed whenever either hop misses.
pub open spec fn issued_check(
    bindings: Map<Seq<u8>, Id>,
    issued: Map<Id, Set<Id>>,
    provider: Seq<u8>,
    emr_id: Id,
) -> bool {
    bindings.contains_key(provider) && issued.contains_key(bindings[provider])
        && issued[bindings[provider]].contains(emr_id)
}

/// The provider-facing registry facade: the provider store, the
/// identity-to-internal-id bindings, and the issued-records map, composed
/// into the operations the system boundary calls.
pub struct ProviderRegistry {
    providers: Providers,
    providers_bindings: ProvidersBindings,
    issued: Issued,
}

impl ProviderRegistry {
    /// The provider store's content.
    pub closed spec fn providers_view(&self) -> Map<Id, ProviderView> {
        self.providers@
    }

    /// The identity-to-internal-id bindings' content.
    pub closed spec fn bindings_view(&self) -> Map<Seq<u8>, Id> {
        self.providers_bindings@
    }

    /// The issued-records map's content.
    pub closed spec fn issued_view(&self) -> Map<Id, Set<Id>> {
        self.issued@
    }

    /// All three components are well formed.
    pub closed spec fn wf(&self) -> bool {
        self.providers.wf() && self.providers_bindings.wf() && self.issued.wf()
    }

    /// An empty registry.
    pub fn new() -> (r: ProviderRegistry)
        ensures
            r.wf(),
            r.providers_view() == Map::<Id, ProviderView>::empty(),
            r.bindings_view() == Map::<Seq<u8>, Id>::empty(),
            r.issued_view() == Map::<Id, Set<Id>>::empty(),
    {
        ProviderRegistry {
            providers: Providers::new(),
            providers_bindings: ProvidersBindings::new(),
            issued: Issued::new(),
        }
    }

    /// The live two-hop issuance check, resolved at call time.
    pub fn is_issued_by(&self, provider: &Principal, emr_id: &Id) -> (r: bool)
        requires
            self.wf(),
        ensures
            r == issued_check(self.bindings_view(), self.issued_view(), provider@, *emr_id),
    {
        let internal_id = match self.providers_bindings.get_internal_id(provider) {
            Some(id) => id,
            None => {
                return false;
            },
        };
        self.issued.is_issued_by(&internal_id, emr_id)
    }

    /// Record that `emr_id` was issued by the provider whose identity is
    /// `provider`, resolving the identity to its internal id first.  Takes
    /// one arena cell on success; fails closed with a not-found error for
    /// an unbound identity, with nothing changed.
    pub fn issue_emr(&mut self, provider: &Principal, emr_id: Id, arena: &mut Arena) -> (r: Result<
        (),
        &'static str,
    >)
        requires
            old(self).wf(),
            old(arena).wf(),
        ensures
            final(self).wf(),
            final(arena).wf(),
            final(arena).capacity() == old(arena).capacity(),
            final(self).providers_view() == old(self).providers_view(),
            final(self).bindings_view() == old(self).bindings_view(),
            match r {
                Ok(()) => old(self).bindings_view().contains_key(provider@)
                    && old(arena).can_alloc(1) && final(arena).used() == old(arena).used() + 1
                    && final(self).issued_view() == provider_issued_after(
                    old(self).issued_view(),
                    old(self).bindings_view()[provider@],
                    emr_id,
                ),
                Err(m) => (!old(self).bindings_view().contains_key(provider@)
                    || !old(arena).can_alloc(1)) && *final(self) == *old(self)
                    && *final(arena) == *old(arena)
                    && (m@ == "provider not found"@ || m@ == "stable memory exhausted"@),
            },
    {
        let internal_id = match self.providers_bindings.get_internal_id(provider) {
            Some(id) => id,
            None => {
                return Err("provider not found");
            },
        };
        match self.issued.issue_for(&internal_id, emr_id, arena) {
            Ok(()) => Ok(()),
            Err(_) => Err("stable memory exhausted"),
        }
    }

    /// Register a new provider under a given internal id: construct the
    /// verified profile with the encrypted display name and `now` on both
    /// timestamps, bind the identity to the id, and insert the profile into
    /// the store, as one atomic step — the three arena cells the operation
    /// takes are reserved before anything is written, so a failure leaves
    /// no orphaned binding or profile.
    pub fn register_provider_with_id(
        &mut self,
        provider_principal: Principal,
        display_name: String,
        internal_id: Id,
        now: Timestamp,
        arena: &mut Arena,
    ) -> (r: Result<(), OutOfMemory>)
        requires
            old(self).wf(),
            old(arena).wf(),
        ensures
            final(self).wf(),
            final(arena).wf(),
            final(arena).capacity() == old(arena).capacity(),
            match r {
                Ok(()) => old(arena).can_alloc(3) && final(arena).used() == old(arena).used() + 3
                    && final(self).bindings_view() == old(self).bindings_view().insert(
                    provider_principal@,
                    internal_id,
                ) && final(self).providers_view() == old(self).providers_view().insert(
                    internal_id,
                    ProviderView {
                        internal_id,
                        activation_status: Status::Verified,
                        display_name: display_name@,
                        owner_principal: provider_principal@,
                        registered_at: now,
                        updated_at: now,
                    },
                ) && final(self).issued_view() == old(self).issued_view(),
                Err(_) => !old(arena).can_alloc(3) && *final(self) == *old(self) && *final(arena)
                    == *old(arena),
            },
    {
        arena.try_alloc(3)?;
        let provider = ProviderV001::from_parts_prepaid(
            display_name,
            provider_principal.duplicate(),
            internal_id,
            now,
        );
        self.providers_bindings.bind_prepaid(provider_principal, internal_id);
        self.providers.add_prepaid(Provider::V001(provider));
        Ok(())
    }

    /// Register a new provider: generate a fresh internal id, then proceed
    /// as [`ProviderRegistry::register_provider_with_id`].  The id is
    /// random, so the contract speaks of whatever id the identity ends up
    /// bound to.
    pub fn register_new_provider(
        &mut self,
        provider_principal: Principal,
        display_name: String,
        now: Timestamp,
        arena: &mut Arena,
    ) -> (r: Result<(), OutOfMemory>)
        requires
            old(self).wf(),
            old(arena).wf(),
        ensures
            final(self).wf(),
            final(arena).wf(),
            final(arena).capacity() == old(arena).capacity(),
            match r {
                Ok(()) => old(arena).can_alloc(3) && final(arena).used() == old(arena).used() + 3
                    && final(self).bindings_view().contains_key(provider_principal@) && ({
                    let pid = final(self).bindings_view()[provider_principal@];
                    final(self).bindings_view() == old(self).bindings_view().insert(
                        provider_principal@,
                        pid,
                    ) && final(self).providers_view() == old(self).providers_view().insert(
                        pid,
                        ProviderView {
                            internal_id: pid,
                            activation_status: Status::Verified,
                            display_name: display_name@,
                            owner_principal: provider_principal@,
                            registered_at: now,
                            updated_at: now,
                        },
                    ) && final(self).issued_view() == old(self).issued_view()
                }),
                Err(_) => !old(arena).can_alloc(3) && *final(self) == *old(self) && *final(arena)
                    == *old(arena),
            },
    {
        let internal_id = Id::new();
        self.register_provider_with_id(provider_principal, display_name, internal_id, now, arena)
    }

    /// Suspend the provider whose identity is `provider_principal`: resolve
    /// the identity to its internal id, then flip that profile's status to
    /// suspended in place.  Reports a not-found error, with nothing
    /// changed, if either resolution step fails; suspending an already
    /// suspended provider succeeds and leaves the status suspended.
    pub fn suspend_provider(&mut self, provider_principal: Principal) -> (r: Result<
        (),
        &'static str,
    >)
        requires
            old(self).wf(),
        ensures
            final(self).wf(),
            final(self).bindings_view() == old(self).bindings_view(),
            final(self).issued_view() == old(self).issued_view(),
            match r {
                Ok(()) => old(self).bindings_view().contains_key(provider_principal@) && ({
                    let pid = old(self).bindings_view()[provider_principal@];
                    old(self).providers_view().contains_key(pid) && final(self).providers_view()
                        == old(self).providers_view().insert(
                        pid,
                        suspended_view(old(self).providers_view()[pid]),
                    )
                }),
                Err(m) => (!old(self).bindings_view().contains_key(provider_principal@)
                    || !old(self).providers_view().contains_key(
                    old(self).bindings_view()[provider_principal@],
                )) && *final(self) == *old(self) && m@ == "provider not found"@,
            },
    {
        let internal_id = match self.providers_bindings.get_internal_id(&provider_principal) {
            Some(id) => id,
            None => {
                return Err("provider not found");
            },
        };
        if self.providers.suspend(&internal_id) {
            Ok(())
        } else {
            Err("provider not found")
        }
    }

    /// A borrowed handle to the profile of the provider whose identity is
    /// `provider_principal`, resolved through the bindings.
    pub fn get_provider<'a>(&'a self, provider_principal: &Principal) -> (r: Option<&'a Provider>)
        requires
            self.wf(),
        ensures
            match r {
                Some(p) => self.bindings_view().contains_key(provider_principal@) && self
                    .providers_view().contains_key(self.bindings_view()[provider_principal@]) && p@
                    == self.providers_view()[self.bindings_view()[provider_principal@]]
                    && p@.internal_id == self.bindings_view()[provider_principal@],
                None => !self.bindings_view().contains_key(provider_principal@) || !self
                    .providers_view().contains_key(self.bindings_view()[provider_principal@]),
            },
    {
        let internal_id = match self.providers_bindings.get_internal_id(provider_principal) {
            Some(id) => id,
            None => {
                return None;
            },
        };
        self.providers.get_provider(&internal_id)
    }
}

impl Default for ProviderRegistry {
    /// An empty registry.
    fn default() -> (r: ProviderRegistry)
        ensures
            r.wf(),
            r.providers_view() == Map::<Id, ProviderView>::empty(),
            r.bindings_view() == Map::<Seq<u8>, Id>::empty(),
            r.issued_view() == Map::<Id, Set<Id>>::empty(),
    {
        ProviderRegistry::new()
    }
}

} // verus!
