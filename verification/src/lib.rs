//! Client-side encrypted storage engine with hierarchical capability
//! delegation.
//!
//! From a single root secret a user derives a tree of records that an
//! untrusted server stores indexed by opaque discover keys.  Capabilities
//! (discover, read, delete, child-discover, child-read) are delegated by
//! sharing subsets of the key material, and every record carries a
//! validation schema that constrains its children.

use vstd::prelude::*;

pub mod cache;
pub mod client;
pub mod codec;
pub mod crypto;
pub mod orange_name;
pub mod permissions;
pub mod records;
pub mod requests;
pub mod service;
pub mod storage;

verus! {

/// A 32-byte identifier: the hash of a canonical encoding, a random value,
/// or one of the two reserved sentinels (`Id::id_max` marks pointer
/// records).
#[derive(Debug)]
pub struct Id(pub Vec<u8>);

impl View for Id {
    type V = Seq<u8>;

    open spec fn view(&self) -> Seq<u8> {
        self.0@
    }
}

impl Clone for Id {
    fn clone(&self) -> (r: Self)
        ensures
            r@ == self@,
    {
        Id(self.0.clone())
    }
}

/// The all-ones identifier, reserved as the pointer-protocol sentinel.
pub open spec fn max_id() -> Seq<u8> {
    Seq::new(32, |i: int| 0xffu8)
}

/// The all-zeroes identifier, reserved.
pub open spec fn min_id() -> Seq<u8> {
    Seq::new(32, |i: int| 0x00u8)
}

impl Id {
    /// A well-formed identifier holds exactly 32 bytes.
    pub open spec fn wf(&self) -> bool {
        self@.len() == 32
    }

    /// The hash identifier of a canonical byte encoding.
    pub fn hash(data: &Vec<u8>) -> (r: Id)
        ensures
            r@ == crypto::hash_of(data@),
            r.wf(),
    {
        Id(crypto::hash_bytes(data))
    }

    /// A uniformly random identifier.
    pub fn random() -> (r: Id)
        ensures
            r.wf(),
    {
        Id(crypto::random_bytes32())
    }

    /// The reserved all-ones identifier.
    pub fn id_max() -> (r: Id)
        ensures
            r@ == max_id(),
            r.wf(),
    {
        let mut bytes: Vec<u8> = Vec::new();
        let mut i: usize = 0;
        while i < 32
            invariant
                i <= 32,
                bytes@.len() == i,
                forall|j: int| 0 <= j < i ==> bytes@[j] == 0xffu8,
            decreases 32 - i,
        {
            bytes.push(0xffu8);
            i = i + 1;
        }
        proof {
            assert(bytes@ =~= max_id());
        }
        Id(bytes)
    }

    /// The reserved all-zeroes identifier.
    pub fn id_min() -> (r: Id)
        ensures
            r@ == min_id(),
            r.wf(),
    {
        let mut bytes: Vec<u8> = Vec::new();
        let mut i: usize = 0;
        while i < 32
            invariant
                i <= 32,
                bytes@.len() == i,
                forall|j: int| 0 <= j < i ==> bytes@[j] == 0x00u8,
            decreases 32 - i,
        {
            bytes.push(0x00u8);
            i = i + 1;
        }
        proof {
            assert(bytes@ =~= min_id());
        }
        Id(bytes)
    }

    /// Byte-for-byte equality of identifiers.
    pub fn equals(&self, other: &Id) -> (r: bool)
        ensures
            r == (self@ == other@),
    {
        let r = self.0 == other.0;
        proof {
            if r {
                assert(self.0@ =~= other.0@);
            }
        }
        r
    }

    /// Whether this is the pointer sentinel.
    pub fn is_max(&self) -> (r: bool)
        ensures
            r == (self@ == max_id()),
    {
        if self.0.len() != 32 {
            return false;
        }
        let mut i: usize = 0;
        while i < 32
            invariant
                i <= 32,
                self.0@.len() == 32,
                forall|j: int| 0 <= j < i ==> self.0@[j] == 0xffu8,
            decreases 32 - i,
        {
            if self.0[i] != 0xffu8 {
                return false;
            }
            i = i + 1;
        }
        proof {
            assert(self@ =~= max_id());
        }
        true
    }

    /// The lowercase hexadecimal form of the identifier.
    pub fn to_hex(&self) -> (r: String)
        ensures
            r@ == crypto::hex_of(self@),
    {
        crypto::hex_encode(&self.0)
    }
}

} // verus!
