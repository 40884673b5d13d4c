//! Identifier and timestamp primitives: fixed-size, totally-ordered value
//! types used as keys everywhere else, and the bounded ASCII key for record
//! field maps.

use vstd::prelude::*;
use vstd::string::*;

verus! {

/// A 128-bit identifier, totally ordered, globally unique (generated once
/// from fresh random bytes) and immutable for the life of what it names.
#[derive(Debug, Clone, Copy, PartialEq, Eq, PartialOrd, Ord, Hash, Structural)]
pub struct Id {
    pub hi: u64,
    pub lo: u64,
}

/// Relies on `uuid::Uuid::new_v4` and `Uuid::into_bytes`: a freshly generated
/// random identifier, returned as its 16 bytes.  The value is random, so
/// nothing is promised of it beyond its length.
#[verifier::external_body]
fn fresh_uuid_bytes() -> (r: Vec<u8>)
    ensures
        r@.len() == 16,
{
    uuid::Uuid::new_v4().into_bytes().to_vec()
}

impl Id {
    /// A fresh identifier from 16 random bytes.  Nothing is known of its
    /// value; callers that need determinism use [`Id::from_parts`].
    pub fn new() -> Id {
        let bytes = fresh_uuid_bytes();
        let mut hi: u64 = 0;
        let mut lo: u64 = 0;
        let mut i: usize = 0;
        while i < 8
            invariant
                bytes@.len() == 16,
                i <= 8,
            decreases 8 - i,
        {
            hi = (hi << 8) | (bytes[i] as u64);
            i = i + 1;
        }
        let mut j: usize = 8;
        while j < 16
            invariant
                bytes@.len() == 16,
                8 <= j <= 16,
            decreases 16 - j,
        {
            lo = (lo << 8) | (bytes[j] as u64);
            j = j + 1;
        }
        Id { hi, lo }
    }

    /// The identifier whose high and low 64-bit halves are as given.
    pub fn from_parts(hi: u64, lo: u64) -> (r: Id)
        ensures
            r == (Id { hi, lo }),
    {
        Id { hi, lo }
    }

    /// The total order on identifiers: by high half, then by low half.
    pub open spec fn spec_le(&self, other: &Id) -> bool {
        self.hi < other.hi || (self.hi == other.hi && self.lo <= other.lo)
    }

    /// Compare two identifiers under the total order.
    pub fn le(&self, other: &Id) -> (r: bool)
        ensures
            r == self.spec_le(other),
    {
        self.hi < other.hi || (self.hi == other.hi && self.lo <= other.lo)
    }
}

/// `spec_le` is a total order on identifiers: reflexive, antisymmetric,
/// transitive, and total.
pub proof fn lemma_id_total_order(a: Id, b: Id, c: Id)
    ensures
        a.spec_le(&a),
        a.spec_le(&b) && b.spec_le(&a) ==> a == b,
        a.spec_le(&b) && b.spec_le(&c) ==> a.spec_le(&c),
        a.spec_le(&b) || b.spec_le(&a),
{
}

/// A count of nanoseconds.  Set at creation of a record, updated on
/// mutation; the host environment supplies the current value.
#[derive(Debug, Clone, Copy, PartialEq, Eq, PartialOrd, Ord, Hash, Structural)]
pub struct Timestamp {
    pub nanos: u64,
}

impl Timestamp {
    /// The timestamp holding the given nanosecond count.
    pub fn from_nanos(nanos: u64) -> (r: Timestamp)
        ensures
            r == (Timestamp { nanos }),
    {
        Timestamp { nanos }
    }

    /// The nanosecond count this timestamp holds.
    pub fn as_nanos(&self) -> (r: u64)
        ensures
            r == self.nanos,
    {
        self.nanos
    }

    /// The total order on timestamps.
    pub open spec fn spec_le(&self, other: &Timestamp) -> bool {
        self.nanos <= other.nanos
    }

    /// Compare two timestamps.
    pub fn le(&self, other: &Timestamp) -> (r: bool)
        ensures
            r == self.spec_le(other),
    {
        self.nanos <= other.nanos
    }
}

/// An opaque, externally-controlled identity value: the authentication
/// identity of a caller, as the bytes the host hands over.  The registry
/// never inspects it; it only compares identities for equality.
#[derive(Debug, Clone, PartialEq, Eq, Hash)]
pub struct Principal {
    bytes: Vec<u8>,
}

impl View for Principal {
    type V = Seq<u8>;

    closed spec fn view(&self) -> Seq<u8> {
        self.bytes@
    }
}

impl Principal {
    /// The identity made of the given bytes.
    pub fn from_bytes(bytes: Vec<u8>) -> (r: Principal)
        ensures
            r@ == bytes@,
    {
        Principal { bytes }
    }

    /// An independent copy of the identity with the same bytes.
    pub fn duplicate(&self) -> (r: Principal)
        ensures
            r@ == self@,
    {
        let bytes = copy_bytes(&self.bytes);
        Principal { bytes }
    }

    /// Whether two identities are the same.
    pub fn same_as(&self, other: &Principal) -> (r: bool)
        ensures
            r == (self@ == other@),
    {
        let r = bytes_eq(&self.bytes, &other.bytes);
        r
    }
}

/// An element-for-element copy of a byte vector.
pub fn copy_bytes(a: &Vec<u8>) -> (r: Vec<u8>)
    ensures
        r@ == a@,
{
    let mut r: Vec<u8> = Vec::new();
    let mut i: usize = 0;
    while i < a.len()
        invariant
            i <= a@.len(),
            r@ == a@.take(i as int),
        decreases a@.len() - i,
    {
        r.push(a[i]);
        proof {
            assert(a@.take(i + 1) =~= a@.take(i as int).push(a@[i as int]));
        }
        i = i + 1;
    }
    proof {
        assert(a@.take(a@.len() as int) =~= a@);
    }
    r
}

/// Byte-for-byte equality of two byte vectors.
pub fn bytes_eq(a: &Vec<u8>, b: &Vec<u8>) -> (r: bool)
    ensures
        r == (a@ == b@),
{
    if a.len() != b.len() {
        return false;
    }
    let mut i: usize = 0;
    while i < a.len()
        invariant
            a@.len() == b@.len(),
            i <= a@.len(),
            forall|j: int| 0 <= j < i ==> a@[j] == b@[j],
        decreases a@.len() - i,
    {
        if a[i] != b[i] {
            return false;
        }
        i = i + 1;
    }
    proof {
        assert(a@ =~= b@);
    }
    true
}

/// The bound on record field-map keys.
pub const MAX_RECORDS_KEY_LEN: usize = 100;

/// What a record field-map key must satisfy: at most
/// [`MAX_RECORDS_KEY_LEN`] characters, all of them ASCII.
pub open spec fn valid_records_key(s: Seq<char>) -> bool {
    s.len() <= MAX_RECORDS_KEY_LEN && vstd::utf8::is_ascii_chars(s)
}

/// A record field-map key: syntactically restricted to bounded-length ASCII,
/// checked once at construction.
#[derive(Debug, Clone, PartialEq, Eq, Hash)]
pub struct AsciiRecordsKey {
    key: String,
}

impl View for AsciiRecordsKey {
    type V = Seq<char>;

    closed spec fn view(&self) -> Seq<char> {
        self.key@
    }
}

impl AsciiRecordsKey {
    /// Every constructed key satisfies the bounded-ASCII constraint.
    pub open spec fn wf(&self) -> bool {
        valid_records_key(self@)
    }

    /// Validate and wrap a key, or describe why it is rejected: first
    /// non-ASCII content, then excessive length.
    pub fn new(key: String) -> (r: Result<AsciiRecordsKey, String>)
        ensures
            match r {
                Ok(k) => valid_records_key(key@) && k@ == key@ && k.wf(),
                Err(e) => !valid_records_key(key@) && if !vstd::utf8::is_ascii_chars(key@) {
                    e@ == "emr record key must be ascii"@
                } else {
                    e@ == "emr record key must not exceed 100 characters"@
                },
            },
    {
        if !key.is_ascii() {
            return Err(String::from_str("emr record key must be ascii"));
        }
        if key.as_str().unicode_len() > MAX_RECORDS_KEY_LEN {
            return Err(String::from_str("emr record key must not exceed 100 characters"));
        }
        Ok(AsciiRecordsKey { key })
    }

    /// An independent copy of the key with the same text.
    pub fn duplicate(&self) -> (r: AsciiRecordsKey)
        ensures
            r@ == self@,
    {
        AsciiRecordsKey { key: self.key.clone() }
    }

    /// The key's text, copied.
    pub fn as_string(&self) -> (r: String)
        ensures
            r@ == self@,
    {
        let r = self.key.clone();
        r
    }

    /// Whether two keys are the same.
    pub fn same_as(&self, other: &AsciiRecordsKey) -> (r: bool)
        ensures
            r == (self@ == other@),
    {
        let r = self.key == other.key;
        r
    }
}

} // verus!
