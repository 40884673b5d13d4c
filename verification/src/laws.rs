//! The registry's governing laws, stated over the same specification-level
//! maps and views that the operations' contracts use, and proved once and
//! for all.

use vstd::prelude::*;

use crate::emr::{lemma_mirrors_view, owner_check, Emr, EmrDisplay, EmrView, FromStableRef};
use crate::patient::issued_after;
use crate::providers::{suspended_view, ProviderView};
use crate::types::Id;

verus! {

/// Binding is overwrite, not accumulation: after `bind(owner, k1)` the
/// owner's bound key is exactly `k1`, and after a further `bind(owner, k2)`
/// with a different key it is exactly `k2`.
pub proof fn lemma_bind_overwrites(
    owners: Map<Seq<u8>, Seq<char>>,
    owner: Seq<u8>,
    k1: Seq<char>,
    k2: Seq<char>,
)
    ensures
        owners.insert(owner, k1).contains_key(owner),
        owners.insert(owner, k1)[owner] == k1,
        owners.insert(owner, k1).insert(owner, k2).contains_key(owner),
        owners.insert(owner, k1).insert(owner, k2)[owner] == k2,
{
}

/// Revocation fails closed: after `revoke(owner)` the owner has no bound
/// key, and owns no record, even if the previously bound key still holds
/// that record's id in the binding map.
pub proof fn lemma_revoke_fails_closed(
    owners: Map<Seq<u8>, Seq<char>>,
    bindings: Map<Seq<char>, Set<Id>>,
    owner: Seq<u8>,
    any_id: Id,
)
    ensures
        !owners.remove(owner).contains_key(owner),
        !owner_check(owners.remove(owner), bindings, owner, any_id),
{
}

/// Ownership is resolved live, not snapshotted at issuance: after a record
/// with a fresh id is issued under `key`, an owner owns it exactly when the
/// owner's currently bound key equals `key` at check time.
pub proof fn lemma_ownership_is_live(
    owners: Map<Seq<u8>, Seq<char>>,
    bindings: Map<Seq<char>, Set<Id>>,
    key: Seq<char>,
    emr_id: Id,
    owner: Seq<u8>,
)
    requires
        forall|k: Seq<char>| bindings.contains_key(k) ==> !(#[trigger] bindings[k]).contains(
            emr_id,
        ),
    ensures
        owner_check(owners, issued_after(bindings, key, emr_id), owner, emr_id) <==> (
        owners.contains_key(owner) && owners[owner] == key),
{
}

/// Round trip: mirroring a persistent record out and reconstructing from
/// the mirrored value yields a record with identical id, timestamps and
/// field-map contents; and the mirrored value always carries valid keys,
/// so reconstruction is owed success whenever the arena suffices.
pub proof fn lemma_mirror_round_trip(emr: Emr, display: EmrDisplay, rebuilt: Emr)
    requires
        emr.wf(),
        display.mirrors(&emr),
        rebuilt@ == display@,
    ensures
        rebuilt@ == emr@,
        display.keys_all_valid(),
{
    lemma_mirrors_view(&emr, &display);
}

/// Suspension is idempotent in effect: suspending an already suspended
/// provider leaves the store exactly as one suspension left it.
pub proof fn lemma_suspend_idempotent(providers: Map<Id, ProviderView>, pid: Id)
    requires
        providers.contains_key(pid),
    ensures
        suspended_view(suspended_view(providers[pid])) == suspended_view(providers[pid]),
        (providers.insert(pid, suspended_view(providers[pid]))).insert(
            pid,
            suspended_view(providers.insert(pid, suspended_view(providers[pid]))[pid]),
        ) == providers.insert(pid, suspended_view(providers[pid])),
{
    let once = providers.insert(pid, suspended_view(providers[pid]));
    let twice = once.insert(pid, suspended_view(once[pid]));
    assert(twice =~= once);
}

/// No two records can share one id: registering two records with distinct
/// ids leaves both in the store, each retrievable unchanged under its own
/// id.  Ids are generated before any shared-state mutation, and each call
/// runs to completion, so no interleaving can do otherwise.
pub proof fn lemma_distinct_ids_no_collision(emrs: Map<Id, EmrView>, e1: EmrView, e2: EmrView)
    requires
        e1.emr_id != e2.emr_id,
    ensures
        emrs.insert(e1.emr_id, e1).insert(e2.emr_id, e2)[e1.emr_id] == e1,
        emrs.insert(e1.emr_id, e1).insert(e2.emr_id, e2)[e2.emr_id] == e2,
{
}

} // verus!
