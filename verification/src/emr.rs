//! Versioned medical records, their field maps, and the stable-to-transient
//! mirroring protocol.
//!
//! Persistent values (records, field maps) live in the bounded arena and are
//! deliberately not duplicable: the only sanctioned way to obtain an
//! independent copy is mirror-out, which produces a brand-new transient
//! display value with no further reference into the arena.  The inverse,
//! reconstruction from untrusted transient input, is fallible on both
//! structural validation and arena exhaustion and commits nothing on
//! failure.

use vstd::prelude::*;
use vstd::string::*;

use crate::alist::{
    alist_keys_distinct, alist_map, lemma_alist_distinct_push, lemma_alist_map_get,
    lemma_alist_map_not_contains, lemma_alist_map_push, lemma_alist_map_update,
};
use crate::arena::{Arena, OutOfMemory};
use crate::patient::{issued_after, EmrBindingMap, InternalBindingKey, OwnerMap};
use crate::types::{valid_records_key, AsciiRecordsKey, Id, Principal, Timestamp};

verus! {

/// Conversion from a borrowed persistent value to a brand-new transient
/// value: the mirror-out direction of the mirroring protocol.  `src_ok` is
/// what the persistent source guarantees (its well-formedness), and
/// `mirrors` says what the produced value reflects of it.
pub trait FromStableRef: Sized {
    /// The persistent type this transient type mirrors.
    type From;

    /// What the persistent source is assumed to satisfy: the invariant the
    /// store maintains for every committed value.
    spec fn src_ok(src: &Self::From) -> bool;

    /// What the produced transient value reflects of the source.
    spec fn mirrors(&self, src: &Self::From) -> bool;

    /// Mirror the persistent value out into an independent transient value.
    fn from_stable_ref(src: &Self::From) -> (r: Self)
        requires
            Self::src_ok(src),
        ensures
            r.mirrors(src),
    ;
}

/// Marker for types that can be serialized as a response: independently
/// cloneable, and only constructible by mirroring a committed persistent
/// value, so every response necessarily reflects real stored data and
/// duplication cost is paid exactly once, in transient memory.
pub trait ResonpseMarker: Clone + FromStableRef {

}

/// Producing the response form of a persistent value.
pub trait ToResponse<T> where T: ResonpseMarker, T: FromStableRef<From = Self> {
    /// Mirror this persistent value into its response type.
    fn to_response(&self) -> (r: T)
        requires
            T::src_ok(self),
        ensures
            r.mirrors(self),
    ;
}

/// A record field value held in the persistent arena: a boxed string whose
/// allocation takes one arena cell and can fail.
#[derive(Debug)]
pub struct EmrRecordsValue {
    value: String,
}

impl View for EmrRecordsValue {
    type V = Seq<char>;

    closed spec fn view(&self) -> Seq<char> {
        self.value@
    }
}

impl EmrRecordsValue {
    /// Box a string value in the arena.  Takes one cell, or reports
    /// exhaustion and changes nothing.
    pub fn new(value: String, arena: &mut Arena) -> (r: Result<EmrRecordsValue, OutOfMemory>)
        requires
            old(arena).wf(),
        ensures
            final(arena).wf(),
            final(arena).capacity() == old(arena).capacity(),
            match r {
                Ok(v) => old(arena).can_alloc(1) && final(arena).used() == old(arena).used() + 1
                    && v@ == value@,
                Err(_) => !old(arena).can_alloc(1) && *final(arena) == *old(arena),
            },
    {
        arena.try_alloc(1)?;
        Ok(EmrRecordsValue { value })
    }

    /// As [`EmrRecordsValue::new`], for callers that have already reserved
    /// the arena cell this box takes.
    pub(crate) fn from_string_prepaid(value: String) -> (r: EmrRecordsValue)
        ensures
            r@ == value@,
    {
        EmrRecordsValue { value }
    }

    /// The value's text, copied out of the arena into transient memory.
    pub fn value_from_ref(&self) -> (r: String)
        ensures
            r@ == self@,
    {
        let r = self.value.clone();
        r
    }
}

/// The persistent field map of a record: bounded ASCII keys to boxed string
/// values, duplicate keys overwriting.  Deliberately not duplicable — the
/// type offers no clone operation; mirror-out through
/// [`RecrodsDisplay::from_stable_ref`] is the only way to an independent
/// copy.
#[derive(Debug)]
pub struct Records {
    entries: Vec<(AsciiRecordsKey, EmrRecordsValue)>,
}

impl View for Records {
    type V = Map<Seq<char>, Seq<char>>;

    closed spec fn view(&self) -> Map<Seq<char>, Seq<char>> {
        alist_map(self.kv())
    }
}

impl Records {
    /// The entry sequence under its specification-level reading.
    pub closed spec fn kv(&self) -> Seq<(Seq<char>, Seq<char>)> {
        self.entries@.map_values(|p: (AsciiRecordsKey, EmrRecordsValue)| (p.0@, p.1@))
    }

    /// Keys are distinct and every key satisfies the bounded-ASCII constraint.
    pub closed spec fn wf(&self) -> bool {
        alist_keys_distinct(self.kv()) && forall|i: int|
            0 <= i < self.entries@.len() ==> (#[trigger] self.entries@[i].0).wf()
    }

    /// An empty field map.
    pub fn new() -> (r: Records)
        ensures
            r.wf(),
            r@ == Map::<Seq<char>, Seq<char>>::empty(),
    {
        Records { entries: Vec::new() }
    }

    /// The index at which `key` is held, if any.
    fn find_index(&self, key: &AsciiRecordsKey) -> (r: Option<usize>)
        ensures
            match r {
                Some(i) => i < self.kv().len() && self.kv()[i as int].0 == key@,
                None => forall|j: int| 0 <= j < self.kv().len() ==> self.kv()[j].0 != key@,
            },
    {
        let mut i: usize = 0;
        while i < self.entries.len()
            invariant
                i <= self.entries@.len(),
                self.kv().len() == self.entries@.len(),
                forall|j: int| 0 <= j < i ==> self.kv()[j].0 != key@,
            decreases self.entries@.len() - i,
        {
            if self.entries[i].0.same_as(key) {
                return Some(i);
            }
            i = i + 1;
        }
        None
    }

    /// Insert a field, overwriting any previous value under the same key.
    /// Takes one arena cell, or reports exhaustion and changes nothing.
    pub fn insert(&mut self, key: AsciiRecordsKey, value: EmrRecordsValue, arena: &mut Arena) -> (r:
        Result<(), OutOfMemory>)
        requires
            old(self).wf(),
            key.wf(),
            old(arena).wf(),
        ensures
            final(self).wf(),
            final(arena).wf(),
            final(arena).capacity() == old(arena).capacity(),
            match r {
                Ok(()) => old(arena).can_alloc(1) && final(arena).used() == old(arena).used() + 1
                    && final(self)@ == old(self)@.insert(key@, value@),
                Err(_) => !old(arena).can_alloc(1) && *final(self) == *old(self) && *final(arena)
                    == *old(arena),
            },
    {
        arena.try_alloc(1)?;
        self.insert_prepaid(key, value);
        Ok(())
    }

    /// As [`Records::insert`], for callers that have already reserved the
    /// arena cell this insertion takes.
    pub(crate) fn insert_prepaid(&mut self, key: AsciiRecordsKey, value: EmrRecordsValue)
        requires
            old(self).wf(),
            key.wf(),
        ensures
            final(self).wf(),
            final(self)@ == old(self)@.insert(key@, value@),
    {
        match self.find_index(&key) {
            Some(i) => {
                let _old_entry = self.entries.remove(i);
                self.entries.insert(i, (key, value));
                proof {
                    let okv = old(self).kv();
                    assert(self.kv() =~= okv.update(i as int, (okv[i as int].0, value@)));
                    lemma_alist_map_update(okv, i as int, value@);
                    assert(self@ =~= old(self)@.insert(key@, value@));
                }
            },
            None => {
                self.entries.push((key, value));
                proof {
                    let okv = old(self).kv();
                    assert(self.kv() =~= okv.push((key@, value@)));
                    lemma_alist_map_push(okv, key@, value@);
                    lemma_alist_distinct_push(okv, key@, value@);
                }
            },
        }
    }

    /// The value stored under `key`, copied into transient memory.
    pub fn get_value(&self, key: &AsciiRecordsKey) -> (r: Option<String>)
        requires
            self.wf(),
        ensures
            match r {
                Some(v) => self@.contains_key(key@) && v@ == self@[key@],
                None => !self@.contains_key(key@),
            },
    {
        match self.find_index(key) {
            Some(i) => {
                proof {
                    lemma_alist_map_get(self.kv(), i as int);
                }
                let entry = &self.entries[i];
                Some(entry.1.value_from_ref())
            },
            None => {
                proof {
                    lemma_alist_map_not_contains(self.kv(), key@);
                }
                None
            },
        }
    }

    /// Mirror the whole field map out into the transient wire object: every
    /// entry is read and copied into an ordinary string-keyed container with
    /// no further reference into the arena.
    pub fn to_value(&self) -> (r: RecrodsDisplay)
        requires
            self.wf(),
        ensures
            r@ == self@,
            r.wf(),
            r.keys_all_valid(),
            r.spec_len() == self.kv().len(),
    {
        let mut entries: Vec<(String, String)> = Vec::new();
        let mut i: usize = 0;
        while i < self.entries.len()
            invariant
                self.wf(),
                i <= self.entries@.len(),
                self.kv().len() == self.entries@.len(),
                entries@.len() == i,
                forall|j: int| 0 <= j < i ==> (#[trigger] entries@[j].0)@ == self.kv()[j].0
                    && entries@[j].1@ == self.kv()[j].1,
            decreases self.entries@.len() - i,
        {
            let entry = &self.entries[i];
            entries.push((entry.0.as_string(), entry.1.value_from_ref()));
            i = i + 1;
        }
        let r = RecrodsDisplay { entries };
        proof {
            assert(r.entries_seq() =~= self.kv());
        }
        r
    }
}

impl Default for Records {
    /// An empty field map.
    fn default() -> (r: Records)
        ensures
            r.wf(),
            r@ == Map::<Seq<char>, Seq<char>>::empty(),
    {
        Records::new()
    }
}

/// The transient wire form of a record field map: a structured object whose
/// keys and values are plain text.  Cloneable at will; holds no reference
/// into the arena.
#[derive(Debug, Clone)]
pub struct RecrodsDisplay {
    entries: Vec<(String, String)>,
}

impl View for RecrodsDisplay {
    type V = Map<Seq<char>, Seq<char>>;

    closed spec fn view(&self) -> Map<Seq<char>, Seq<char>> {
        alist_map(self.entries_seq())
    }
}

impl RecrodsDisplay {
    /// The wire entries under their specification-level reading, in wire
    /// order, duplicates included.
    pub closed spec fn entries_seq(&self) -> Seq<(Seq<char>, Seq<char>)> {
        self.entries@.map_values(|p: (String, String)| (p.0@, p.1@))
    }

    /// How many entries the wire object carries.
    pub open spec fn spec_len(&self) -> nat {
        self.entries_seq().len()
    }

    /// Whether every wire key satisfies the bounded-ASCII key constraint.
    pub open spec fn keys_all_valid(&self) -> bool {
        forall|i: int| 0 <= i < self.entries_seq().len() ==> valid_records_key(
            #[trigger] self.entries_seq()[i].0,
        )
    }

    /// Whether the wire keys are pairwise distinct.
    pub open spec fn wf(&self) -> bool {
        alist_keys_distinct(self.entries_seq())
    }

    /// Wrap untrusted wire entries, as decoded at the system boundary.
    pub fn from_entries(entries: Vec<(String, String)>) -> (r: RecrodsDisplay)
        ensures
            r.entries_seq() == entries@.map_values(|p: (String, String)| (p.0@, p.1@)),
    {
        RecrodsDisplay { entries }
    }

    /// The wire entries, for the boundary layer to serialize.
    pub fn entries(&self) -> (r: &Vec<(String, String)>)
        ensures
            r@.map_values(|p: (String, String)| (p.0@, p.1@)) == self.entries_seq(),
    {
        &self.entries
    }
}

impl FromStableRef for RecrodsDisplay {
    type From = Records;

    open spec fn src_ok(src: &Records) -> bool {
        src.wf()
    }

    open spec fn mirrors(&self, src: &Records) -> bool {
        self@ == src@ && self.wf() && self.keys_all_valid()
    }

    fn from_stable_ref(src: &Records) -> (r: Self) {
        src.to_value()
    }
}

impl ResonpseMarker for RecrodsDisplay {

}

impl ToResponse<RecrodsDisplay> for Records {
    fn to_response(&self) -> (r: RecrodsDisplay) {
        self.to_value()
    }
}

impl Records {
    /// Reconstruct a persistent field map from an untrusted wire object.
    /// Every key is validated against the bounded-ASCII constraint and the
    /// whole conversion is paid for in the arena before anything is built,
    /// so the first violation — reported as a descriptive error — leaves no
    /// entry inserted and no arena cell consumed.  Duplicate wire keys
    /// overwrite, later entries winning.
    pub fn try_from_display(value: RecrodsDisplay, arena: &mut Arena) -> (r: Result<
        Records,
        String,
    >)
        requires
            old(arena).wf(),
        ensures
            final(arena).wf(),
            final(arena).capacity() == old(arena).capacity(),
            match r {
                Ok(rec) => value.keys_all_valid() && old(arena).used() + 2 * value.spec_len()
                    <= old(arena).capacity() && final(arena).used() == old(arena).used() + 2
                    * value.spec_len() && rec@ == value@ && rec.wf(),
                Err(e) => *final(arena) == *old(arena) && (!value.keys_all_valid() || old(
                    arena,
                ).used() + 2 * value.spec_len() > old(arena).capacity()) && (
                value.keys_all_valid() ==> e@ == "stable memory exhausted"@) && (
                !value.keys_all_valid() ==> e@ == "emr record key must be ascii"@ || e@
                    == "emr record key must not exceed 100 characters"@),
            },
    {
        let n = value.entries.len();
        let mut keys: Vec<AsciiRecordsKey> = Vec::new();
        let mut i: usize = 0;
        while i < n
            invariant
                old(arena).wf(),
                *arena == *old(arena),
                n == value.entries@.len(),
                i <= n,
                keys@.len() == i,
                forall|j: int| 0 <= j < i ==> (#[trigger] keys@[j]).wf() && keys@[j]@
                    == value.entries_seq()[j].0,
            decreases n - i,
        {
            let entry = &value.entries[i];
            match AsciiRecordsKey::new(entry.0.clone()) {
                Ok(k) => {
                    keys.push(k);
                },
                Err(e) => {
                    proof {
                        assert(value.entries_seq()[i as int].0 == entry.0@);
                        assert(!value.keys_all_valid());
                    }
                    return Err(e);
                },
            }
            i = i + 1;
        }
        proof {
            assert forall|j: int| 0 <= j < value.entries_seq().len() implies valid_records_key(
                #[trigger] value.entries_seq()[j].0,
            ) by {
                assert(keys@[j].wf());
                assert(keys@[j]@ == value.entries_seq()[j].0);
            }
            assert(value.keys_all_valid());
        }
        if (n as u64) > u64::MAX / 2 {
            proof {
                assert(2 * value.spec_len() > u64::MAX);
            }
            return Err(String::from_str("stable memory exhausted"));
        }
        let need: u64 = 2 * (n as u64);
        match arena.try_alloc(need) {
            Ok(()) => {
            },
            Err(oom) => {
                return Err(oom.message());
            },
        }
        let mut records = Records::new();
        let mut i: usize = 0;
        while i < n
            invariant
                old(arena).wf(),
                arena.wf(),
                arena.capacity() == old(arena).capacity(),
                arena.used() == old(arena).used() + 2 * value.spec_len(),
                old(arena).used() + 2 * value.spec_len() <= old(arena).capacity(),
                value.keys_all_valid(),
                n == value.entries@.len(),
                n == keys@.len(),
                i <= n,
                forall|j: int| 0 <= j < n ==> (#[trigger] keys@[j]).wf() && keys@[j]@
                    == value.entries_seq()[j].0,
                records.wf(),
                records@ == alist_map(value.entries_seq().take(i as int)),
            decreases n - i,
        {
            let entry = &value.entries[i];
            let v = EmrRecordsValue::from_string_prepaid(entry.1.clone());
            let k = keys[i].duplicate();
            records.insert_prepaid(k, v);
            proof {
                let s = value.entries_seq();
                assert(s.take(i + 1) =~= s.take(i as int).push(s[i as int]));
                lemma_alist_map_push(s.take(i as int), s[i as int].0, s[i as int].1);
            }
            i = i + 1;
        }
        proof {
            assert(value.entries_seq().take(n as int) =~= value.entries_seq());
        }
        Ok(records)
    }
}

/// The specification-level content of a record, version tag aside: its id,
/// its two timestamps, and its field map.
pub struct EmrView {
    pub emr_id: Id,
    pub created_at: Timestamp,
    pub updated_at: Timestamp,
    pub records: Map<Seq<char>, Seq<char>>,
}

/// The first schema version of a record: id, creation and update times, and
/// a field map.  The constructor stamps both timestamps with the time the
/// host hands in; field edits currently have no update path that bumps
/// `updated_at`.
#[derive(Debug)]
pub struct V001 {
    emr_id: Id,
    created_at: Timestamp,
    updated_at: Timestamp,
    records: Records,
}

impl View for V001 {
    type V = EmrView;

    closed spec fn view(&self) -> EmrView {
        EmrView {
            emr_id: self.emr_id,
            created_at: self.created_at,
            updated_at: self.updated_at,
            records: self.records@,
        }
    }
}

impl V001 {
    /// The record's field map is well formed.
    pub closed spec fn wf(&self) -> bool {
        self.records.wf()
    }

    /// A new record under `id` holding `records`, both timestamps stamped
    /// with `now`.
    pub fn new(id: Id, records: Records, now: Timestamp) -> (r: V001)
        requires
            records.wf(),
        ensures
            r.wf(),
            r@ == (EmrView { emr_id: id, created_at: now, updated_at: now, records: records@ }),
    {
        V001 { emr_id: id, created_at: now, updated_at: now, records }
    }
}

/// Version-aware record: a closed sum over schema versions.  The id, and
/// with it equality and ordering, is defined uniformly across variants;
/// decoding depends only on the tag, never on payload inspection.
#[derive(Debug)]
pub enum Emr {
    V001(V001),
}

impl View for Emr {
    type V = EmrView;

    closed spec fn view(&self) -> EmrView {
        match self {
            Emr::V001(v) => v@,
        }
    }
}

impl Emr {
    /// The payload is well formed, whatever the version.
    pub open spec fn wf(&self) -> bool {
        match self {
            Emr::V001(v) => v.wf(),
        }
    }

    /// The record's id, stable across the record's life.
    pub fn id(&self) -> (r: &Id)
        ensures
            *r == self@.emr_id,
    {
        match self {
            Emr::V001(v) => &v.emr_id,
        }
    }
}

impl PartialEq for Emr {
    /// Record equality delegates to the id, uniformly across variants.
    fn eq(&self, other: &Emr) -> (r: bool) {
        *self.id() == *other.id()
    }
}

impl Eq for Emr {

}

impl vstd::std_specs::cmp::PartialEqSpecImpl for Emr {
    open spec fn obeys_eq_spec() -> bool {
        true
    }

    open spec fn eq_spec(&self, other: &Emr) -> bool {
        self@.emr_id == other@.emr_id
    }
}

/// The transient wire form of a first-version record: its id, its
/// timestamps, and the field map rendered as the structured wire object.
#[derive(Debug, Clone)]
pub struct DisplayV001 {
    emr_id: Id,
    created_at: Timestamp,
    updated_at: Timestamp,
    records: RecrodsDisplay,
}

impl View for DisplayV001 {
    type V = EmrView;

    closed spec fn view(&self) -> EmrView {
        EmrView {
            emr_id: self.emr_id,
            created_at: self.created_at,
            updated_at: self.updated_at,
            records: self.records@,
        }
    }
}

impl DisplayV001 {
    /// The wire field map carries distinct keys.
    pub open spec fn wf(&self) -> bool {
        self.spec_records().wf()
    }

    /// Every wire field key satisfies the bounded-ASCII constraint.
    pub open spec fn keys_all_valid(&self) -> bool {
        self.spec_records().keys_all_valid()
    }

    /// The wire field map itself.
    pub closed spec fn spec_records(&self) -> RecrodsDisplay {
        self.records
    }

    /// Assemble a wire record from untrusted parts, as decoded at the
    /// system boundary.
    pub fn from_parts(
        emr_id: Id,
        created_at: Timestamp,
        updated_at: Timestamp,
        records: RecrodsDisplay,
    ) -> (r: DisplayV001)
        ensures
            r@ == (EmrView { emr_id, created_at, updated_at, records: records@ }),
            r.spec_records() == records,
    {
        DisplayV001 { emr_id, created_at, updated_at, records }
    }

    /// The record id this wire value carries.
    pub fn emr_id(&self) -> (r: &Id)
        ensures
            *r == self@.emr_id,
    {
        &self.emr_id
    }

    /// The creation time this wire value carries.
    pub fn created_at(&self) -> (r: Timestamp)
        ensures
            r == self@.created_at,
    {
        self.created_at
    }

    /// The update time this wire value carries.
    pub fn updated_at(&self) -> (r: Timestamp)
        ensures
            r == self@.updated_at,
    {
        self.updated_at
    }

    /// The wire field map, for the boundary layer to serialize.
    pub fn records(&self) -> (r: &RecrodsDisplay)
        ensures
            *r == self.spec_records(),
    {
        &self.records
    }
}

impl FromStableRef for DisplayV001 {
    type From = V001;

    open spec fn src_ok(src: &V001) -> bool {
        src.wf()
    }

    open spec fn mirrors(&self, src: &V001) -> bool {
        self@ == src@ && self.wf() && self.keys_all_valid()
    }

    fn from_stable_ref(src: &V001) -> (r: Self) {
        DisplayV001 {
            emr_id: src.emr_id,
            created_at: src.created_at,
            updated_at: src.updated_at,
            records: src.records.to_value(),
        }
    }
}

impl ResonpseMarker for DisplayV001 {

}

impl ToResponse<DisplayV001> for V001 {
    fn to_response(&self) -> (r: DisplayV001) {
        DisplayV001::from_stable_ref(self)
    }
}

/// The transient wire form of a record: one display variant per stored
/// schema version.
#[derive(Debug, Clone)]
pub enum EmrDisplay {
    V001(DisplayV001),
}

impl View for EmrDisplay {
    type V = EmrView;

    closed spec fn view(&self) -> EmrView {
        match self {
            EmrDisplay::V001(d) => d@,
        }
    }
}

impl EmrDisplay {
    /// The wire field map carries distinct keys, whatever the version.
    pub open spec fn wf(&self) -> bool {
        match self {
            EmrDisplay::V001(d) => d.wf(),
        }
    }

    /// Every wire field key is valid, whatever the version.
    pub open spec fn keys_all_valid(&self) -> bool {
        match self {
            EmrDisplay::V001(d) => d.keys_all_valid(),
        }
    }

    /// How many wire field entries the value carries.
    pub open spec fn records_len(&self) -> nat {
        match self {
            EmrDisplay::V001(d) => d.spec_records().spec_len(),
        }
    }
}

impl FromStableRef for EmrDisplay {
    type From = Emr;

    open spec fn src_ok(src: &Emr) -> bool {
        src.wf()
    }

    open spec fn mirrors(&self, src: &Emr) -> bool {
        match (self, src) {
            (EmrDisplay::V001(d), Emr::V001(v)) => d.mirrors(v),
        }
    }

    fn from_stable_ref(src: &Emr) -> (r: Self) {
        match src {
            Emr::V001(v) => EmrDisplay::V001(DisplayV001::from_stable_ref(v)),
        }
    }
}

impl ResonpseMarker for EmrDisplay {

}

impl ToResponse<EmrDisplay> for Emr {
    fn to_response(&self) -> (r: EmrDisplay) {
        EmrDisplay::from_stable_ref(self)
    }
}

impl V001 {
    /// Reconstruct a first-version persistent record from its untrusted
    /// wire form: the id and timestamps are taken as carried, and the field
    /// map is rebuilt through [`Records::try_from_display`], failing on the
    /// first invalid key or on arena exhaustion with nothing committed.
    pub fn try_from_display(value: DisplayV001, arena: &mut Arena) -> (r: Result<V001, String>)
        requires
            old(arena).wf(),
        ensures
            final(arena).wf(),
            final(arena).capacity() == old(arena).capacity(),
            match r {
                Ok(v) => value.keys_all_valid() && old(arena).used() + 2
                    * value.spec_records().spec_len() <= old(arena).capacity()
                    && final(arena).used() == old(arena).used() + 2
                    * value.spec_records().spec_len() && v@ == value@ && v.wf(),
                Err(e) => *final(arena) == *old(arena) && (!value.keys_all_valid() || old(
                    arena,
                ).used() + 2 * value.spec_records().spec_len() > old(arena).capacity()) && (
                value.keys_all_valid() ==> e@ == "stable memory exhausted"@) && (
                !value.keys_all_valid() ==> e@ == "emr record key must be ascii"@ || e@
                    == "emr record key must not exceed 100 characters"@),
            },
    {
        let records = match Records::try_from_display(value.records, arena) {
            Ok(r) => r,
            Err(e) => {
                return Err(e);
            },
        };
        Ok(V001 {
            emr_id: value.emr_id,
            created_at: value.created_at,
            updated_at: value.updated_at,
            records,
        })
    }
}

impl Emr {
    /// Reconstruct a persistent record from its untrusted wire form,
    /// producing the stored variant matching the wire variant's tag.
    pub fn try_from_display(value: EmrDisplay, arena: &mut Arena) -> (r: Result<Emr, String>)
        requires
            old(arena).wf(),
        ensures
            final(arena).wf(),
            final(arena).capacity() == old(arena).capacity(),
            match r {
                Ok(e) => value.keys_all_valid() && old(arena).used() + 2 * value.records_len()
                    <= old(arena).capacity() && final(arena).used() == old(arena).used() + 2
                    * value.records_len() && e@ == value@ && e.wf(),
                Err(e) => *final(arena) == *old(arena) && (!value.keys_all_valid() || old(
                    arena,
                ).used() + 2 * value.records_len() > old(arena).capacity()) && (
                value.keys_all_valid() ==> e@ == "stable memory exhausted"@) && (
                !value.keys_all_valid() ==> e@ == "emr record key must be ascii"@ || e@
                    == "emr record key must not exceed 100 characters"@),
            },
    {
        match value {
            EmrDisplay::V001(d) => match V001::try_from_display(d, arena) {
                Ok(v) => Ok(Emr::V001(v)),
                Err(e) => Err(e),
            },
        }
    }
}

/// The versioned record store: a single keyed collection from record id to
/// version-tagged record.  Each record is stored under its own id.
pub struct EmrCollection {
    entries: Vec<(Id, Emr)>,
}

impl View for EmrCollection {
    type V = Map<Id, EmrView>;

    closed spec fn view(&self) -> Map<Id, EmrView> {
        alist_map(self.kv())
    }
}

impl EmrCollection {
    /// The entry sequence under its specification-level reading.
    pub closed spec fn kv(&self) -> Seq<(Id, EmrView)> {
        self.entries@.map_values(|p: (Id, Emr)| (p.0, p.1@))
    }

    /// Ids are distinct, every record is stored under its own id, and every
    /// record is well formed.
    pub closed spec fn wf(&self) -> bool {
        alist_keys_distinct(self.kv()) && forall|i: int|
            0 <= i < self.entries@.len() ==> (#[trigger] self.entries@[i]).0
                == self.entries@[i].1@.emr_id && self.entries@[i].1.wf()
    }

    /// An empty store.
    pub fn new() -> (r: EmrCollection)
        ensures
            r.wf(),
            r@ == Map::<Id, EmrView>::empty(),
    {
        EmrCollection { entries: Vec::new() }
    }

    /// The index at which `emr_id` is stored, if any.
    fn find_index(&self, emr_id: &Id) -> (r: Option<usize>)
        ensures
            match r {
                Some(i) => i < self.kv().len() && self.kv()[i as int].0 == *emr_id,
                None => forall|j: int| 0 <= j < self.kv().len() ==> self.kv()[j].0 != *emr_id,
            },
    {
        let mut i: usize = 0;
        while i < self.entries.len()
            invariant
                i <= self.entries@.len(),
                self.kv().len() == self.entries@.len(),
                forall|j: int| 0 <= j < i ==> self.kv()[j].0 != *emr_id,
            decreases self.entries@.len() - i,
        {
            if self.entries[i].0 == *emr_id {
                return Some(i);
            }
            i = i + 1;
        }
        None
    }

    /// A borrowed handle to the record stored under `emr_id`.  Callers must
    /// not retain it past the lookup's scope; an independent copy goes
    /// through mirror-out.
    pub fn get_emr<'a>(&'a self, emr_id: &Id) -> (r: Option<&'a Emr>)
        requires
            self.wf(),
        ensures
            match r {
                Some(e) => self@.contains_key(*emr_id) && e@ == self@[*emr_id] && e@.emr_id
                    == *emr_id && e.wf(),
                None => !self@.contains_key(*emr_id),
            },
    {
        match self.find_index(emr_id) {
            Some(i) => {
                proof {
                    lemma_alist_map_get(self.kv(), i as int);
                    assert(self.entries@[i as int].0 == self.entries@[i as int].1@.emr_id);
                }
                let entry = &self.entries[i];
                Some(&entry.1)
            },
            None => {
                proof {
                    lemma_alist_map_not_contains(self.kv(), *emr_id);
                }
                None
            },
        }
    }

    /// Insert a record under its own id, replacing any record already
    /// stored there, and return the id.  Takes one arena cell, or reports
    /// exhaustion and changes nothing.
    pub fn new_emr(&mut self, emr: Emr, arena: &mut Arena) -> (r: Result<Id, OutOfMemory>)
        requires
            old(self).wf(),
            emr.wf(),
            old(arena).wf(),
        ensures
            final(self).wf(),
            final(arena).wf(),
            final(arena).capacity() == old(arena).capacity(),
            match r {
                Ok(id) => old(arena).can_alloc(1) && final(arena).used() == old(arena).used() + 1
                    && id == emr@.emr_id && final(self)@ == old(self)@.insert(emr@.emr_id, emr@),
                Err(_) => !old(arena).can_alloc(1) && *final(self) == *old(self) && *final(arena)
                    == *old(arena),
            },
    {
        arena.try_alloc(1)?;
        let id = self.insert_prepaid(emr);
        Ok(id)
    }

    /// As [`EmrCollection::new_emr`], for callers that have already
    /// reserved the arena cell this insertion takes.
    pub(crate) fn insert_prepaid(&mut self, emr: Emr) -> (id: Id)
        requires
            old(self).wf(),
            emr.wf(),
        ensures
            final(self).wf(),
            id == emr@.emr_id,
            final(self)@ == old(self)@.insert(emr@.emr_id, emr@),
    {
        let id = *emr.id();
        match self.find_index(&id) {
            Some(i) => {
                let _old_entry = self.entries.remove(i);
                self.entries.insert(i, (id, emr));
                proof {
                    let okv = old(self).kv();
                    assert(self.kv() =~= okv.update(i as int, (okv[i as int].0, emr@)));
                    lemma_alist_map_update(okv, i as int, emr@);
                    assert(self@ =~= old(self)@.insert(emr@.emr_id, emr@));
                }
                id
            },
            None => {
                self.entries.push((id, emr));
                proof {
                    let okv = old(self).kv();
                    assert(self.kv() =~= okv.push((id, emr@)));
                    lemma_alist_map_push(okv, id, emr@);
                    lemma_alist_distinct_push(okv, id, emr@);
                }
                id
            },
        }
    }
}

impl Default for EmrCollection {
    /// An empty store.
    fn default() -> (r: EmrCollection)
        ensures
            r.wf(),
            r@ == Map::<Id, EmrView>::empty(),
    {
        EmrCollection::new()
    }
}

/// What `mirrors` guarantees at the view level: a display value mirroring
/// a well-formed persistent record carries exactly the record's id,
/// timestamps and field-map contents, with distinct, valid wire keys.
pub proof fn lemma_mirrors_view(emr: &Emr, display: &EmrDisplay)
    requires
        display.mirrors(emr),
    ensures
        display@ == emr@,
        display.wf(),
        display.keys_all_valid(),
{
    match (display, emr) {
        (EmrDisplay::V001(d), Emr::V001(v)) => {
            assert(d@ == v@);
        },
    }
}

/// The live two-hop ownership check: the identity resolves to a bound
/// patient key, and the record id is in that key's issued set.  It fails
/// closed whenever either hop misses.
pub open spec fn owner_check(
    owners: Map<Seq<u8>, Seq<char>>,
    bindings: Map<Seq<char>, Set<Id>>,
    owner: Seq<u8>,
    emr_id: Id,
) -> bool {
    owners.contains_key(owner) && bindings.contains_key(owners[owner])
        && bindings[owners[owner]].contains(emr_id)
}

/// The patient-facing registry facade: the owner map, the patient-to-records
/// binding map, and the record store, composed into the operations the
/// system boundary calls.
pub struct EmrRegistry {
    owners: OwnerMap,
    owner_emrs: EmrBindingMap,
    core_emrs: EmrCollection,
}

impl EmrRegistry {
    /// The owner-to-key map's content.
    pub closed spec fn owners_view(&self) -> Map<Seq<u8>, Seq<char>> {
        self.owners@
    }

    /// The patient-to-records map's content.
    pub closed spec fn bindings_view(&self) -> Map<Seq<char>, Set<Id>> {
        self.owner_emrs@
    }

    /// The record store's content.
    pub closed spec fn emrs_view(&self) -> Map<Id, EmrView> {
        self.core_emrs@
    }

    /// All three components are well formed.
    pub closed spec fn wf(&self) -> bool {
        self.owners.wf() && self.owner_emrs.wf() && self.core_emrs.wf()
    }

    /// An empty registry.
    pub fn new() -> (r: EmrRegistry)
        ensures
            r.wf(),
            r.owners_view() == Map::<Seq<u8>, Seq<char>>::empty(),
            r.bindings_view() == Map::<Seq<char>, Set<Id>>::empty(),
            r.emrs_view() == Map::<Id, EmrView>::empty(),
    {
        EmrRegistry {
            owners: OwnerMap::new(),
            owner_emrs: EmrBindingMap::new(),
            core_emrs: EmrCollection::new(),
        }
    }

    /// Insert the record into the store under its own id and issue it to the
    /// patient keyed `user_id`, as one atomic step: the two arena cells the
    /// operation takes are reserved before anything is written, so either
    /// both the record and its binding commit or neither does, and a binding
    /// is never created for a record that failed to persist.
    pub fn register_emr(&mut self, emr: Emr, user_id: InternalBindingKey, arena: &mut Arena) -> (r:
        Result<(), OutOfMemory>)
        requires
            old(self).wf(),
            emr.wf(),
            old(arena).wf(),
        ensures
            final(self).wf(),
            final(arena).wf(),
            final(arena).capacity() == old(arena).capacity(),
            match r {
                Ok(()) => old(arena).can_alloc(2) && final(arena).used() == old(arena).used() + 2
                    && final(self).emrs_view() == old(self).emrs_view().insert(emr@.emr_id, emr@)
                    && final(self).bindings_view() == issued_after(
                    old(self).bindings_view(),
                    user_id@,
                    emr@.emr_id,
                ) && final(self).owners_view() == old(self).owners_view(),
                Err(_) => !old(arena).can_alloc(2) && *final(self) == *old(self) && *final(arena)
                    == *old(arena),
            },
    {
        arena.try_alloc(2)?;
        let emr_id = self.core_emrs.insert_prepaid(emr);
        self.owner_emrs.issue_prepaid(&user_id, emr_id);
        Ok(())
    }

    /// Register a new patient: bind the identity to its hashed key,
    /// inserting or replacing.
    pub fn register_patient(
        &mut self,
        owner: Principal,
        hashed_nik: InternalBindingKey,
        arena: &mut Arena,
    ) -> (r: Result<(), OutOfMemory>)
        requires
            old(self).wf(),
            hashed_nik.wf(),
            old(arena).wf(),
        ensures
            final(self).wf(),
            final(arena).wf(),
            final(arena).capacity() == old(arena).capacity(),
            match r {
                Ok(()) => old(arena).can_alloc(1) && final(arena).used() == old(arena).used() + 1
                    && final(self).owners_view() == old(self).owners_view().insert(
                    owner@,
                    hashed_nik@,
                ) && final(self).bindings_view() == old(self).bindings_view()
                    && final(self).emrs_view() == old(self).emrs_view(),
                Err(_) => !old(arena).can_alloc(1) && *final(self) == *old(self) && *final(arena)
                    == *old(arena),
            },
    {
        self.owners.bind(owner, hashed_nik, arena)
    }

    /// Rebind a patient to a new hashed key: behaviourally the same
    /// insert-or-replace as first registration.
    pub fn rebind_patient(
        &mut self,
        owner: Principal,
        hashed_nik: InternalBindingKey,
        arena: &mut Arena,
    ) -> (r: Result<(), OutOfMemory>)
        requires
            old(self).wf(),
            hashed_nik.wf(),
            old(arena).wf(),
        ensures
            final(self).wf(),
            final(arena).wf(),
            final(arena).capacity() == old(arena).capacity(),
            match r {
                Ok(()) => old(arena).can_alloc(1) && final(arena).used() == old(arena).used() + 1
                    && final(self).owners_view() == old(self).owners_view().insert(
                    owner@,
                    hashed_nik@,
                ) && final(self).bindings_view() == old(self).bindings_view()
                    && final(self).emrs_view() == old(self).emrs_view(),
                Err(_) => !old(arena).can_alloc(1) && *final(self) == *old(self) && *final(arena)
                    == *old(arena),
            },
    {
        self.owners.bind(owner, hashed_nik, arena)
    }

    /// Revoke a patient's access: remove the identity's key binding, so
    /// every later ownership check keyed off the missing key fails closed,
    /// even though the key may still own ids in the binding map.
    pub fn revoke_patient_access(&mut self, owner: &Principal)
        requires
            old(self).wf(),
        ensures
            final(self).wf(),
            final(self).owners_view() == old(self).owners_view().remove(owner@),
            final(self).bindings_view() == old(self).bindings_view(),
            final(self).emrs_view() == old(self).emrs_view(),
    {
        self.owners.revoke(owner)
    }

    /// The live two-hop ownership check, resolved at call time.
    pub fn is_owner_of_emr(&self, owner: &Principal, emr_id: &Id) -> (r: bool)
        requires
            self.wf(),
        ensures
            r == owner_check(self.owners_view(), self.bindings_view(), owner@, *emr_id),
    {
        let nik = match self.owners.get_nik(owner) {
            Some(nik) => nik,
            None => {
                return false;
            },
        };
        self.owner_emrs.is_owner_of(nik, emr_id)
    }

    /// Whether the identity currently has a bound patient key.
    pub fn is_valid_patient(&self, owner: &Principal) -> (r: bool)
        requires
            self.wf(),
        ensures
            r == self.owners_view().contains_key(owner@),
    {
        self.owners.is_valid_owner(owner)
    }

    /// A borrowed handle to the record stored under `emr_id`, if any.
    pub fn get_emr<'a>(&'a self, emr_id: &Id) -> (r: Option<&'a Emr>)
        requires
            self.wf(),
        ensures
            match r {
                Some(e) => self.emrs_view().contains_key(*emr_id)
                    && e@ == self.emrs_view()[*emr_id] && e@.emr_id == *emr_id && e.wf(),
                None => !self.emrs_view().contains_key(*emr_id),
            },
    {
        self.core_emrs.get_emr(emr_id)
    }
}

impl Default for EmrRegistry {
    /// An empty registry.
    fn default() -> (r: EmrRegistry)
        ensures
            r.wf(),
            r.owners_view() == Map::<Seq<u8>, Seq<char>>::empty(),
            r.bindings_view() == Map::<Seq<char>, Set<Id>>::empty(),
            r.emrs_view() == Map::<Id, EmrView>::empty(),
    {
        EmrRegistry::new()
    }
}

} // verus!
