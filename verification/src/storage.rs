//! The storage layer's data types: stored rows, signed envelopes, and the
//! request and response grammar exchanged with the service.

use vstd::prelude::*;

use crate::Id;
use crate::codec;
use crate::crypto;
use crate::orange_name::{OrangeName, OrangeResolver, OrangeSecret, OrangeSignature, Signed};
use crate::records::WSecretKey;

verus! {

/// The model of an optional byte field.
pub open spec fn opt_bytes_view(o: Option<Vec<u8>>) -> Option<Seq<u8>> {
    match o {
        Some(v) => Some(v@),
        None => None,
    }
}

/// A private row as the server sees it: the discover public key it is
/// filed under, the public delete key that authorizes changes, and the
/// ciphertext.
#[derive(Debug)]
pub struct PrivateItem {
    pub discover: Vec<u8>,
    pub delete: Option<Vec<u8>>,
    pub payload: Vec<u8>,
}

impl Clone for PrivateItem {
    fn clone(&self) -> (r: Self)
        ensures
            r.discover@ == self.discover@,
            opt_bytes_view(r.delete) == opt_bytes_view(self.delete),
            r.payload@ == self.payload@,
    {
        PrivateItem {
            discover: self.discover.clone(),
            delete: match &self.delete {
                Some(d) => Some(d.clone()),
                None => None,
            },
            payload: self.payload.clone(),
        }
    }
}

/// The bytes a private item's signature covers.
pub open spec fn enc_private_item(p: PrivateItem) -> Seq<u8> {
    codec::enc_bytes(p.discover@) + (match p.delete {
        Some(d) => seq![1u8] + codec::enc_bytes(d@),
        None => seq![0u8],
    }) + codec::enc_bytes(p.payload@)
}

/// Append the signed form of a private item.
pub fn write_private_item(out: &mut Vec<u8>, p: &PrivateItem)
    ensures
        final(out)@ == old(out)@ + enc_private_item(*p),
{
    codec::write_bytes(out, p.discover.as_slice());
    match &p.delete {
        Some(d) => {
            out.push(1u8);
            codec::write_bytes(out, d.as_slice());
        },
        None => {
            out.push(0u8);
        },
    }
    codec::write_bytes(out, p.payload.as_slice());
    proof {
        assert(out@ =~= old(out)@ + enc_private_item(*p));
    }
}

/// A private item signed by its discover key.
#[derive(Debug)]
pub struct SignedPrivateItem {
    pub signer: Vec<u8>,
    pub signature: Vec<u8>,
    pub item: PrivateItem,
}

/// The bytes a [`SignedPrivateItem`]'s signature covers: the signer and
/// the item, the signature itself excluded.
pub open spec fn spi_msg(s: SignedPrivateItem) -> Seq<u8> {
    codec::enc_bytes(s.signer@) + enc_private_item(s.item)
}

/// Whether a [`SignedPrivateItem`] verifies for its own signer.
pub open spec fn spi_ok(s: SignedPrivateItem) -> bool {
    crypto::verify_of(s.signer@, s.signature@, spi_msg(s))
}

impl Clone for SignedPrivateItem {
    fn clone(&self) -> (r: Self)
        ensures
            r.signer@ == self.signer@,
            r.signature@ == self.signature@,
            r.item.discover@ == self.item.discover@,
            opt_bytes_view(r.item.delete) == opt_bytes_view(self.item.delete),
            r.item.payload@ == self.item.payload@,
            spi_msg(r) == spi_msg(*self),
            spi_ok(r) == spi_ok(*self),
    {
        let r = SignedPrivateItem {
            signer: self.signer.clone(),
            signature: self.signature.clone(),
            item: self.item.clone(),
        };
        proof {
            assert(enc_private_item(r.item) =~= enc_private_item(self.item));
            assert(spi_msg(r) =~= spi_msg(*self));
        }
        r
    }
}

impl SignedPrivateItem {
    /// Sign an item with a discover (or delete) secret.
    pub fn new(item: PrivateItem, key: &WSecretKey) -> (r: Result<
        SignedPrivateItem,
        crypto::CryptoError,
    >)
        requires
            key@.wf(),
        ensures
            r is Ok,
            r matches Ok(s) ==> {
                &&& spi_ok(s)
                &&& s.signer@ == key@.public
                &&& s.item.discover@ == item.discover@
                &&& opt_bytes_view(s.item.delete) == opt_bytes_view(item.delete)
                &&& s.item.payload@ == item.payload@
            },
    {
        let mut msg: Vec<u8> = Vec::new();
        codec::write_bytes(&mut msg, key.public.as_slice());
        write_private_item(&mut msg, &item);
        let signature = crypto::schnorr_sign(&key.secret, &msg)?;
        let s = SignedPrivateItem { signer: key.public.clone(), signature, item };
        proof {
            assert(msg@ =~= spi_msg(s));
        }
        Ok(s)
    }

    /// Check the signature against the claimed signer; `Ok` exactly when
    /// it verifies, returning the signer key.
    pub fn verify(&self) -> (r: Option<Vec<u8>>)
        ensures
            match r {
                Some(k) => spi_ok(*self) && k@ == self.signer@,
                None => !spi_ok(*self),
            },
    {
        let mut msg: Vec<u8> = Vec::new();
        codec::write_bytes(&mut msg, self.signer.as_slice());
        write_private_item(&mut msg, &self.item);
        proof {
            assert(msg@ =~= spi_msg(*self));
        }
        if crypto::schnorr_verify(&self.signer, &self.signature, &msg) {
            Some(self.signer.clone())
        } else {
            None
        }
    }
}

/// An update envelope: a discover-signed item, signed again by the delete
/// key that authorizes the change.
#[derive(Debug)]
pub struct SignedUpdate {
    pub signer: Vec<u8>,
    pub signature: Vec<u8>,
    pub inner: SignedPrivateItem,
}

/// The bytes a [`SignedUpdate`]'s outer signature covers: the outer signer
/// and the inner signed item, signatures excluded.
pub open spec fn su_msg(s: SignedUpdate) -> Seq<u8> {
    codec::enc_bytes(s.signer@) + spi_msg(s.inner)
}

/// Whether a [`SignedUpdate`]'s outer signature verifies.
pub open spec fn su_ok(s: SignedUpdate) -> bool {
    crypto::verify_of(s.signer@, s.signature@, su_msg(s))
}

impl SignedUpdate {
    /// Sign an already discover-signed item with the delete secret.
    pub fn new(inner: SignedPrivateItem, delete: &WSecretKey) -> (r: Result<
        SignedUpdate,
        crypto::CryptoError,
    >)
        requires
            delete@.wf(),
        ensures
            r is Ok,
            r matches Ok(s) ==> {
                &&& su_ok(s)
                &&& s.signer@ == delete@.public
                &&& spi_msg(s.inner) == spi_msg(inner)
                &&& spi_ok(s.inner) == spi_ok(inner)
                &&& s.inner.signer@ == inner.signer@
                &&& s.inner.item.discover@ == inner.item.discover@
                &&& opt_bytes_view(s.inner.item.delete) == opt_bytes_view(inner.item.delete)
                &&& s.inner.item.payload@ == inner.item.payload@
            },
    {
        let mut msg: Vec<u8> = Vec::new();
        codec::write_bytes(&mut msg, delete.public.as_slice());
        codec::write_bytes(&mut msg, inner.signer.as_slice());
        write_private_item(&mut msg, &inner.item);
        let signature = crypto::schnorr_sign(&delete.secret, &msg)?;
        let s = SignedUpdate { signer: delete.public.clone(), signature, inner };
        proof {
            assert(msg@ =~= su_msg(s));
        }
        Ok(s)
    }

    /// Check the outer signature; `Ok` exactly when it verifies, returning
    /// the outer signer key.
    pub fn verify(&self) -> (r: Option<Vec<u8>>)
        ensures
            match r {
                Some(k) => su_ok(*self) && k@ == self.signer@,
                None => !su_ok(*self),
            },
    {
        let mut msg: Vec<u8> = Vec::new();
        codec::write_bytes(&mut msg, self.signer.as_slice());
        codec::write_bytes(&mut msg, self.inner.signer.as_slice());
        write_private_item(&mut msg, &self.inner.item);
        proof {
            assert(msg@ =~= su_msg(*self));
        }
        if crypto::schnorr_verify(&self.signer, &self.signature, &msg) {
            Some(self.signer.clone())
        } else {
            None
        }
    }
}

/// A discover public key signed by the delete key, to authorize removal.
#[derive(Debug)]
pub struct SignedDelete {
    pub signer: Vec<u8>,
    pub signature: Vec<u8>,
    pub discover: Vec<u8>,
}

pub open spec fn sd_msg(s: SignedDelete) -> Seq<u8> {
    codec::enc_bytes(s.signer@) + codec::enc_bytes(s.discover@)
}

pub open spec fn sd_ok(s: SignedDelete) -> bool {
    crypto::verify_of(s.signer@, s.signature@, sd_msg(s))
}

impl SignedDelete {
    pub fn new(discover: Vec<u8>, delete: &WSecretKey) -> (r: Result<
        SignedDelete,
        crypto::CryptoError,
    >)
        requires
            delete@.wf(),
        ensures
            r is Ok,
            r matches Ok(s) ==> sd_ok(s) && s.signer@ == delete@.public && s.discover@
                == discover@,
    {
        let mut msg: Vec<u8> = Vec::new();
        codec::write_bytes(&mut msg, delete.public.as_slice());
        codec::write_bytes(&mut msg, discover.as_slice());
        let signature = crypto::schnorr_sign(&delete.secret, &msg)?;
        let s = SignedDelete { signer: delete.public.clone(), signature, discover };
        proof {
            assert(msg@ =~= sd_msg(s));
        }
        Ok(s)
    }

    pub fn verify(&self) -> (r: Option<Vec<u8>>)
        ensures
            match r {
                Some(k) => sd_ok(*self) && k@ == self.signer@,
                None => !sd_ok(*self),
            },
    {
        let mut msg: Vec<u8> = Vec::new();
        codec::write_bytes(&mut msg, self.signer.as_slice());
        codec::write_bytes(&mut msg, self.discover.as_slice());
        proof {
            assert(msg@ =~= sd_msg(*self));
        }
        if crypto::schnorr_verify(&self.signer, &self.signature, &msg) {
            Some(self.signer.clone())
        } else {
            None
        }
    }
}

/// A plain signed discover key, authorizing a read of the row it names.
#[derive(Debug)]
pub struct SignedRead {
    pub signer: Vec<u8>,
    pub signature: Vec<u8>,
}

pub open spec fn sr_msg(s: SignedRead) -> Seq<u8> {
    codec::enc_bytes(s.signer@)
}

pub open spec fn sr_ok(s: SignedRead) -> bool {
    crypto::verify_of(s.signer@, s.signature@, sr_msg(s))
}

impl SignedRead {
    pub fn new(discover: &WSecretKey) -> (r: Result<SignedRead, crypto::CryptoError>)
        requires
            discover@.wf(),
        ensures
            r is Ok,
            r matches Ok(s) ==> sr_ok(s) && s.signer@ == discover@.public,
    {
        let mut msg: Vec<u8> = Vec::new();
        codec::write_bytes(&mut msg, discover.public.as_slice());
        let signature = crypto::schnorr_sign(&discover.secret, &msg)?;
        let s = SignedRead { signer: discover.public.clone(), signature };
        proof {
            assert(msg@ =~= sr_msg(s));
        }
        Ok(s)
    }

    pub fn verify(&self) -> (r: Option<Vec<u8>>)
        ensures
            match r {
                Some(k) => sr_ok(*self) && k@ == self.signer@,
                None => !sr_ok(*self),
            },
    {
        let mut msg: Vec<u8> = Vec::new();
        codec::write_bytes(&mut msg, self.signer.as_slice());
        proof {
            assert(msg@ =~= sr_msg(*self));
        }
        if crypto::schnorr_verify(&self.signer, &self.signature, &msg) {
            Some(self.signer.clone())
        } else {
            None
        }
    }
}

/// A direct message row: recipient and opaque encrypted payload.
#[derive(Debug)]
pub struct DMItem(pub OrangeName, pub Vec<u8>);

/// A public row's content: protocol id, serialized header, payload.
#[derive(Debug)]
pub struct PublicItem {
    pub protocol: Id,
    pub header: Vec<u8>,
    pub payload: Vec<u8>,
}

impl Clone for PublicItem {
    fn clone(&self) -> (r: Self)
        ensures
            r.protocol@ == self.protocol@,
            r.header@ == self.header@,
            r.payload@ == self.payload@,
    {
        PublicItem {
            protocol: self.protocol.clone(),
            header: self.header.clone(),
            payload: self.payload.clone(),
        }
    }
}

/// The bytes a public item's signature covers.
pub open spec fn enc_public_item(p: PublicItem) -> Seq<u8> {
    codec::enc_bytes(p.protocol@) + codec::enc_bytes(p.header@) + codec::enc_bytes(p.payload@)
}

/// Append the signed form of a public item.
pub fn write_public_item(out: &mut Vec<u8>, p: &PublicItem)
    ensures
        final(out)@ == old(out)@ + enc_public_item(*p),
{
    codec::write_bytes(out, p.protocol.0.as_slice());
    codec::write_bytes(out, p.header.as_slice());
    codec::write_bytes(out, p.payload.as_slice());
    proof {
        assert(out@ =~= old(out)@ + enc_public_item(*p));
    }
}

/// A public item signed by its author's name.
#[derive(Debug)]
pub struct SignedPublicItem {
    pub signer: OrangeName,
    pub signature: OrangeSignature,
    pub item: PublicItem,
}

pub open spec fn spub_msg(s: SignedPublicItem) -> Seq<u8> {
    enc_public_item(s.item)
}

pub open spec fn spub_ok(s: SignedPublicItem) -> bool {
    crypto::verify_of(s.signer@, s.signature@, spub_msg(s))
}

impl Clone for SignedPublicItem {
    fn clone(&self) -> (r: Self)
        ensures
            r.signer@ == self.signer@,
            r.signature@ == self.signature@,
            r.item.protocol@ == self.item.protocol@,
            r.item.header@ == self.item.header@,
            r.item.payload@ == self.item.payload@,
            spub_ok(r) == spub_ok(*self),
    {
        let r = SignedPublicItem {
            signer: self.signer.clone(),
            signature: self.signature.clone(),
            item: self.item.clone(),
        };
        proof {
            assert(spub_msg(r) =~= spub_msg(*self));
        }
        r
    }
}

impl SignedPublicItem {
    pub fn new(resolver: &mut OrangeResolver, secret: &OrangeSecret, item: PublicItem) -> (r:
        Result<SignedPublicItem, crate::orange_name::Error>)
        requires
            crate::orange_name::secret_wf(*secret),
        ensures
            r is Ok,
            r matches Ok(s) ==> {
                &&& spub_ok(s)
                &&& s.signer@ == crate::orange_name::name_of(*secret)
                &&& s.item.protocol@ == item.protocol@
                &&& s.item.header@ == item.header@
                &&& s.item.payload@ == item.payload@
            },
    {
        let mut msg: Vec<u8> = Vec::new();
        write_public_item(&mut msg, &item);
        let signature = resolver.sign(secret, &msg)?;
        let s = SignedPublicItem { signer: secret.name(), signature, item };
        proof {
            assert(msg@ =~= spub_msg(s));
        }
        Ok(s)
    }

    /// Check the signature at a point in time; `Ok` exactly when it
    /// verifies.
    pub fn verify(&self, resolver: &mut OrangeResolver, when: Option<i64>) -> (r: Result<
        OrangeName,
        crate::orange_name::Error,
    >)
        ensures
            match r {
                Ok(n) => spub_ok(*self) && n@ == self.signer@,
                Err(_) => !spub_ok(*self),
            },
    {
        let mut msg: Vec<u8> = Vec::new();
        write_public_item(&mut msg, &self.item);
        proof {
            assert(msg@ =~= spub_msg(*self));
        }
        resolver.verify(&self.signer, &self.signature, &msg, when)?;
        Ok(self.signer.clone())
    }
}

/// A signed public update: an id and an inner signed item, signed again by
/// the author.
#[derive(Debug)]
pub struct SignedPublicUpdate {
    pub signer: OrangeName,
    pub signature: OrangeSignature,
    pub id: Id,
    pub inner: SignedPublicItem,
}

pub open spec fn supd_msg(s: SignedPublicUpdate) -> Seq<u8> {
    codec::enc_bytes(s.id@) + codec::enc_bytes(s.inner.signer@) + enc_public_item(s.inner.item)
}

pub open spec fn supd_ok(s: SignedPublicUpdate) -> bool {
    crypto::verify_of(s.signer@, s.signature@, supd_msg(s))
}

impl SignedPublicUpdate {
    pub fn new(
        resolver: &mut OrangeResolver,
        secret: &OrangeSecret,
        id: Id,
        inner: SignedPublicItem,
    ) -> (r: Result<SignedPublicUpdate, crate::orange_name::Error>)
        requires
            crate::orange_name::secret_wf(*secret),
        ensures
            r is Ok,
            r matches Ok(s) ==> {
                &&& supd_ok(s)
                &&& s.signer@ == crate::orange_name::name_of(*secret)
                &&& s.id@ == id@
                &&& s.inner.signer@ == inner.signer@
                &&& spub_ok(s.inner) == spub_ok(inner)
                &&& s.inner.item.protocol@ == inner.item.protocol@
                &&& s.inner.item.header@ == inner.item.header@
                &&& s.inner.item.payload@ == inner.item.payload@
            },
    {
        let mut msg: Vec<u8> = Vec::new();
        codec::write_bytes(&mut msg, id.0.as_slice());
        codec::write_bytes(&mut msg, inner.signer.0.as_slice());
        write_public_item(&mut msg, &inner.item);
        let signature = resolver.sign(secret, &msg)?;
        let s = SignedPublicUpdate { signer: secret.name(), signature, id, inner };
        proof {
            assert(msg@ =~= supd_msg(s));
            assert(spub_msg(s.inner) =~= spub_msg(inner));
        }
        Ok(s)
    }

    pub fn verify(&self, resolver: &mut OrangeResolver, when: Option<i64>) -> (r: Result<
        OrangeName,
        crate::orange_name::Error,
    >)
        ensures
            match r {
                Ok(n) => supd_ok(*self) && n@ == self.signer@,
                Err(_) => !supd_ok(*self),
            },
    {
        let mut msg: Vec<u8> = Vec::new();
        codec::write_bytes(&mut msg, self.id.0.as_slice());
        codec::write_bytes(&mut msg, self.inner.signer.0.as_slice());
        write_public_item(&mut msg, &self.inner.item);
        proof {
            assert(msg@ =~= supd_msg(*self));
        }
        resolver.verify(&self.signer, &self.signature, &msg, when)?;
        Ok(self.signer.clone())
    }
}

/// A signed row id, authorizing deletion of a public row.
#[derive(Debug)]
pub struct SignedId {
    pub signer: OrangeName,
    pub signature: OrangeSignature,
    pub id: Id,
}

pub open spec fn sid_msg(s: SignedId) -> Seq<u8> {
    codec::enc_bytes(s.id@)
}

pub open spec fn sid_ok(s: SignedId) -> bool {
    crypto::verify_of(s.signer@, s.signature@, sid_msg(s))
}

impl SignedId {
    pub fn new(resolver: &mut OrangeResolver, secret: &OrangeSecret, id: Id) -> (r: Result<
        SignedId,
        crate::orange_name::Error,
    >)
        requires
            crate::orange_name::secret_wf(*secret),
        ensures
            r is Ok,
            r matches Ok(s) ==> sid_ok(s) && s.signer@ == crate::orange_name::name_of(*secret)
                && s.id@ == id@,
    {
        let mut msg: Vec<u8> = Vec::new();
        codec::write_bytes(&mut msg, id.0.as_slice());
        let signature = resolver.sign(secret, &msg)?;
        let s = SignedId { signer: secret.name(), signature, id };
        proof {
            assert(msg@ =~= sid_msg(s));
        }
        Ok(s)
    }

    pub fn verify(&self, resolver: &mut OrangeResolver, when: Option<i64>) -> (r: Result<
        OrangeName,
        crate::orange_name::Error,
    >)
        ensures
            match r {
                Ok(n) => sid_ok(*self) && n@ == self.signer@,
                Err(_) => !sid_ok(*self),
            },
    {
        let mut msg: Vec<u8> = Vec::new();
        codec::write_bytes(&mut msg, self.id.0.as_slice());
        proof {
            assert(msg@ =~= sid_msg(*self));
        }
        resolver.verify(&self.signer, &self.signature, &msg, when)?;
        Ok(self.signer.clone())
    }
}

/// A signed freshness window for reading direct messages: the claimed
/// current time and the earliest timestamp wanted.
#[derive(Debug)]
pub struct SignedTimes {
    pub signer: OrangeName,
    pub signature: OrangeSignature,
    pub time: i64,
    pub since: i64,
}

pub open spec fn stimes_msg(s: SignedTimes) -> Seq<u8> {
    codec::enc_u64(s.time as u64) + codec::enc_u64(s.since as u64)
}

pub open spec fn stimes_ok(s: SignedTimes) -> bool {
    crypto::verify_of(s.signer@, s.signature@, stimes_msg(s))
}

impl SignedTimes {
    pub fn new(resolver: &mut OrangeResolver, secret: &OrangeSecret, time: i64, since: i64) -> (r:
        Result<SignedTimes, crate::orange_name::Error>)
        requires
            crate::orange_name::secret_wf(*secret),
        ensures
            r is Ok,
            r matches Ok(s) ==> stimes_ok(s) && s.signer@ == crate::orange_name::name_of(*secret)
                && s.time == time && s.since == since,
    {
        let mut msg: Vec<u8> = Vec::new();
        codec::write_u64(&mut msg, time as u64);
        codec::write_u64(&mut msg, since as u64);
        let signature = resolver.sign(secret, &msg)?;
        let s = SignedTimes { signer: secret.name(), signature, time, since };
        proof {
            assert(msg@ =~= stimes_msg(s));
        }
        Ok(s)
    }

    pub fn verify(&self, resolver: &mut OrangeResolver, when: Option<i64>) -> (r: Result<
        OrangeName,
        crate::orange_name::Error,
    >)
        ensures
            match r {
                Ok(n) => stimes_ok(*self) && n@ == self.signer@,
                Err(_) => !stimes_ok(*self),
            },
    {
        let mut msg: Vec<u8> = Vec::new();
        codec::write_u64(&mut msg, self.time as u64);
        codec::write_u64(&mut msg, self.since as u64);
        proof {
            assert(msg@ =~= stimes_msg(*self));
        }
        resolver.verify(&self.signer, &self.signature, &msg, when)?;
        Ok(self.signer.clone())
    }
}

/// A comparison operator for timestamp filters.
#[derive(Clone, Copy, Debug, PartialEq, Eq, Structural)]
pub enum Op {
    LS,
    LSE,
    E,
    GRE,
    GR,
}

/// A query over public rows; every `Some` field must match.
#[derive(Debug)]
pub struct Filter {
    pub id: Option<Id>,
    pub author: Option<OrangeName>,
    pub protocol: Option<Id>,
    pub datetime: Option<(Op, i64)>,
}

impl Clone for Filter {
    fn clone(&self) -> (r: Self)
        ensures
            filter_view(r) == filter_view(*self),
    {
        let r = Filter {
            id: match &self.id {
                Some(i) => Some(i.clone()),
                None => None,
            },
            author: match &self.author {
                Some(a) => Some(a.clone()),
                None => None,
            },
            protocol: match &self.protocol {
                Some(p) => Some(p.clone()),
                None => None,
            },
            datetime: self.datetime,
        };
        r
    }
}

/// The model of a filter: each constraint by value.
pub struct FilterV {
    pub id: Option<Seq<u8>>,
    pub author: Option<Seq<u8>>,
    pub protocol: Option<Seq<u8>>,
    pub datetime: Option<(Op, i64)>,
}

pub open spec fn filter_view(f: Filter) -> FilterV {
    FilterV {
        id: match f.id {
            Some(i) => Some(i@),
            None => None,
        },
        author: match f.author {
            Some(a) => Some(a@),
            None => None,
        },
        protocol: match f.protocol {
            Some(p) => Some(p@),
            None => None,
        },
        datetime: f.datetime,
    }
}

/// Whether a stored public row `(id, author, protocol, timestamp)` passes
/// a filter.
pub open spec fn filter_matches(
    f: FilterV,
    id: Seq<u8>,
    author: Seq<u8>,
    protocol: Seq<u8>,
    timestamp: i64,
) -> bool {
    &&& match f.id {
        Some(i) => i == id,
        None => true,
    }
    &&& match f.author {
        Some(a) => a == author,
        None => true,
    }
    &&& match f.protocol {
        Some(p) => p == protocol,
        None => true,
    }
    &&& match f.datetime {
        Some((op, d)) => match op {
            Op::LS => timestamp < d,
            Op::LSE => timestamp <= d,
            Op::E => timestamp == d,
            Op::GRE => timestamp >= d,
            Op::GR => timestamp > d,
        },
        None => true,
    }
}

impl Filter {
    /// Plain constructor.
    pub fn new(
        id: Option<Id>,
        author: Option<OrangeName>,
        protocol: Option<Id>,
        datetime: Option<(Op, i64)>,
    ) -> (r: Filter)
        ensures
            filter_view(r) == filter_view(Filter { id, author, protocol, datetime }),
    {
        Filter { id, author, protocol, datetime }
    }

    /// Apply the filter to one row; `Some` exactly on [`filter_matches`].
    pub fn filter(&self, item: (Id, OrangeName, PublicItem, i64)) -> (r: Option<
        (Id, OrangeName, PublicItem, i64),
    >)
        ensures
            match r {
                Some(it) => filter_matches(filter_view(*self), item.0@, item.1@, item.2.protocol@, item.3)
                    && it.0@ == item.0@ && it.1@ == item.1@ && it.2.protocol@ == item.2.protocol@
                    && it.2.header@ == item.2.header@ && it.2.payload@ == item.2.payload@ && it.3
                    == item.3,
                None => !filter_matches(
                    filter_view(*self),
                    item.0@,
                    item.1@,
                    item.2.protocol@,
                    item.3,
                ),
            },
    {
        if let Some(id) = &self.id {
            if !id.equals(&item.0) {
                return None;
            }
        }
        if let Some(author) = &self.author {
            if !author.equals(&item.1) {
                return None;
            }
        }
        if let Some(protocol) = &self.protocol {
            if !protocol.equals(&item.2.protocol) {
                return None;
            }
        }
        if let Some((op, d)) = &self.datetime {
            let ok = match op {
                Op::LS => item.3 < *d,
                Op::LSE => item.3 <= *d,
                Op::E => item.3 == *d,
                Op::GRE => item.3 >= *d,
                Op::GR => item.3 > *d,
            };
            if !ok {
                return None;
            }
        }
        Some(item)
    }
}

/// What the storage service offers; empty for now.
#[derive(Clone, Debug)]
pub struct Catalog {}

/// A request to the storage service.
#[derive(Debug)]
pub enum Request {
    CreatePrivate(SignedPrivateItem),
    ReadPrivate(SignedRead),
    UpdatePrivate(SignedUpdate),
    DeletePrivate(SignedDelete),
    CreatePublic(SignedPublicItem),
    ReadPublic(Filter),
    UpdatePublic(SignedPublicUpdate),
    DeletePublic(SignedId),
    CreateDM(OrangeName, Vec<u8>),
    ReadDM(SignedTimes),
}

/// A response from the storage service.
#[derive(Debug)]
pub enum Response {
    InvalidRequest(String),
    InvalidSignature(String),
    InvalidDelete(Option<Vec<u8>>),
    ReadPrivate(Option<(SignedPrivateItem, i64)>),
    PrivateConflict(SignedPrivateItem, i64),
    CreatedPublic(Id),
    ReadPublic(Vec<(Id, SignedPublicItem, i64)>),
    ReadDM(Vec<Vec<u8>>),
    Empty,
}

impl Request {
    /// Sign a fresh private item under its discover secret.
    pub fn create_private(sec_discover: &WSecretKey, delete: Option<Vec<u8>>, payload: Vec<u8>)
        -> (r: Result<Request, crypto::CryptoError>)
        requires
            sec_discover@.wf(),
        ensures
            r is Ok,
            r matches Ok(req) ==> req matches Request::CreatePrivate(s) && spi_ok(s) && s.signer@
                == sec_discover@.public && s.item.discover@ == sec_discover@.public
                && opt_bytes_view(s.item.delete) == opt_bytes_view(delete) && s.item.payload@
                == payload@,
    {
        let item = PrivateItem { discover: sec_discover.public.clone(), delete, payload };
        let signed = SignedPrivateItem::new(item, sec_discover)?;
        Ok(Request::CreatePrivate(signed))
    }

    /// Sign a read of the row under a discover secret.
    pub fn read_private(discover: &WSecretKey) -> (r: Result<Request, crypto::CryptoError>)
        requires
            discover@.wf(),
        ensures
            r is Ok,
            r matches Ok(req) ==> req matches Request::ReadPrivate(s) && sr_ok(s) && s.signer@
                == discover@.public,
    {
        Ok(Request::ReadPrivate(SignedRead::new(discover)?))
    }

    /// Sign a replacement row under its discover secret and the delete
    /// secret that authorizes it.
    pub fn update_private(discover: &WSecretKey, delete: &WSecretKey, payload: Vec<u8>) -> (r:
        Result<Request, crypto::CryptoError>)
        requires
            discover@.wf(),
            delete@.wf(),
        ensures
            r is Ok,
            r matches Ok(req) ==> req matches Request::UpdatePrivate(s) && su_ok(s) && spi_ok(
                s.inner,
            ) && s.signer@ == delete@.public && s.inner.signer@ == discover@.public
                && s.inner.item.discover@ == discover@.public && (
            s.inner.item.delete matches Some(d) && d@ == delete@.public) && s.inner.item.payload@
                == payload@,
    {
        let item = PrivateItem {
            discover: discover.public.clone(),
            delete: Some(delete.public.clone()),
            payload,
        };
        let inner = SignedPrivateItem::new(item, discover)?;
        let outer = SignedUpdate::new(inner, delete)?;
        Ok(Request::UpdatePrivate(outer))
    }

    /// Sign a removal of the row under the delete secret.
    pub fn delete_private(discover: Vec<u8>, delete: &WSecretKey) -> (r: Result<
        Request,
        crypto::CryptoError,
    >)
        requires
            delete@.wf(),
        ensures
            r is Ok,
            r matches Ok(req) ==> req matches Request::DeletePrivate(s) && sd_ok(s) && s.signer@
                == delete@.public && s.discover@ == discover@,
    {
        Ok(Request::DeletePrivate(SignedDelete::new(discover, delete)?))
    }

    /// Encrypt a payload to the recipient's communication key, signed by
    /// the sender: whoever holds the secret behind the recipient's name
    /// recovers the sender, a signature that verifies for the sender, and
    /// the payload.
    pub fn create_dm(
        resolver: &mut OrangeResolver,
        secret: &OrangeSecret,
        recipient: OrangeName,
        payload: Vec<u8>,
    ) -> (r: Result<Request, crate::orange_name::Error>)
        requires
            crate::orange_name::secret_wf(*secret),
        ensures
            r is Err ==> !(exists|sk: Seq<u8>| #[trigger] crypto::public_of(sk) == Some(
                recipient@,
            )),
            r matches Ok(req) ==> (req matches Request::CreateDM(n, ct) && n@ == recipient@ && (
            exists|sig: Seq<u8>|
                #[trigger] crypto::verify_of(
                    crate::orange_name::name_of(*secret),
                    sig,
                    crate::orange_name::signed_msg(payload@),
                ) && forall|sk: Seq<u8>|
                    crypto::public_of(sk) == Some(recipient@)
                        ==> #[trigger] crypto::decrypt_of(sk, ct@) == Some(
                        codec::enc_triple(
                            crate::orange_name::name_of(*secret),
                            sig,
                            payload@,
                        ),
                    ))),
    {
        let com = match resolver.key(&recipient, Some("easy_access_com"), None) {
            Ok(k) => k,
            Err(e) => {
                proof {
                    assert(false);
                }
                return Err(e);
            },
        };
        let signed = match Signed::new(resolver, secret, payload) {
            Ok(s) => s,
            Err(e) => {
                proof {
                    assert(false);
                }
                return Err(e);
            },
        };
        let ghost sig_view = signed.signature@;
        let mut blob: Vec<u8> = Vec::new();
        codec::write_bytes(&mut blob, signed.signer.0.as_slice());
        match &signed.signature {
            OrangeSignature::Temporary(s) => {
                codec::write_bytes(&mut blob, s.as_slice());
            },
        }
        codec::write_bytes(&mut blob, signed.payload.as_slice());
        proof {
            assert(blob@ =~= codec::enc_triple(
                crate::orange_name::name_of(*secret),
                sig_view,
                signed.payload@,
            ));
        }
        let ct = match crypto::ecies_encrypt(&com, blob) {
            Ok(ct) => ct,
            Err(_) => {
                return Err(
                    crate::orange_name::Error::Resolution(String::from_str("Encryption")),
                );
            },
        };
        Ok(Request::CreateDM(recipient, ct))
    }

    /// Sign a freshness window for reading direct messages.
    pub fn read_dm(resolver: &mut OrangeResolver, secret: &OrangeSecret, time: i64, since: i64)
        -> (r: Result<Request, crate::orange_name::Error>)
        requires
            crate::orange_name::secret_wf(*secret),
        ensures
            r is Ok,
            r matches Ok(req) ==> req matches Request::ReadDM(s) && stimes_ok(s) && s.signer@
                == crate::orange_name::name_of(*secret) && s.time == time && s.since == since,
    {
        Ok(Request::ReadDM(SignedTimes::new(resolver, secret, time, since)?))
    }

    /// Sign a fresh public item.
    pub fn create_public(resolver: &mut OrangeResolver, secret: &OrangeSecret, item: PublicItem)
        -> (r: Result<Request, crate::orange_name::Error>)
        requires
            crate::orange_name::secret_wf(*secret),
        ensures
            r is Ok,
            r matches Ok(req) ==> req matches Request::CreatePublic(s) && spub_ok(s) && s.signer@
                == crate::orange_name::name_of(*secret),
    {
        Ok(Request::CreatePublic(SignedPublicItem::new(resolver, secret, item)?))
    }

    /// A query over public rows.
    pub fn read_public(filter: Filter) -> (r: Request)
        ensures
            r matches Request::ReadPublic(f) && filter_view(f) == filter_view(filter),
    {
        Request::ReadPublic(filter)
    }

    /// Sign a replacement for a public row.
    pub fn update_public(
        resolver: &mut OrangeResolver,
        secret: &OrangeSecret,
        id: Id,
        item: PublicItem,
    ) -> (r: Result<Request, crate::orange_name::Error>)
        requires
            crate::orange_name::secret_wf(*secret),
        ensures
            r is Ok,
            r matches Ok(req) ==> req matches Request::UpdatePublic(s) && supd_ok(s) && spub_ok(
                s.inner,
            ) && s.signer@ == crate::orange_name::name_of(*secret) && s.inner.signer@
                == crate::orange_name::name_of(*secret) && s.id@ == id@,
    {
        let signed = SignedPublicItem::new(resolver, secret, item)?;
        Ok(Request::UpdatePublic(SignedPublicUpdate::new(resolver, secret, id, signed)?))
    }

    /// Sign a removal of a public row.
    pub fn delete_public(resolver: &mut OrangeResolver, secret: &OrangeSecret, id: Id) -> (r:
        Result<Request, crate::orange_name::Error>)
        requires
            crate::orange_name::secret_wf(*secret),
        ensures
            r is Ok,
            r matches Ok(req) ==> req matches Request::DeletePublic(s) && sid_ok(s) && s.signer@
                == crate::orange_name::name_of(*secret) && s.id@ == id@,
    {
        Ok(Request::DeletePublic(SignedId::new(resolver, secret, id)?))
    }
}

impl Clone for SignedRead {
    fn clone(&self) -> (r: Self)
        ensures
            r.signer@ == self.signer@,
            r.signature@ == self.signature@,
            sr_ok(r) == sr_ok(*self),
    {
        let r = SignedRead { signer: self.signer.clone(), signature: self.signature.clone() };
        proof {
            assert(sr_msg(r) =~= sr_msg(*self));
        }
        r
    }
}

impl Clone for SignedUpdate {
    fn clone(&self) -> (r: Self)
        ensures
            r.signer@ == self.signer@,
            r.signature@ == self.signature@,
            r.inner.signer@ == self.inner.signer@,
            r.inner.item.discover@ == self.inner.item.discover@,
            opt_bytes_view(r.inner.item.delete) == opt_bytes_view(self.inner.item.delete),
            r.inner.item.payload@ == self.inner.item.payload@,
            su_ok(r) == su_ok(*self),
            spi_ok(r.inner) == spi_ok(self.inner),
    {
        let r = SignedUpdate {
            signer: self.signer.clone(),
            signature: self.signature.clone(),
            inner: self.inner.clone(),
        };
        proof {
            assert(su_msg(r) =~= su_msg(*self));
        }
        r
    }
}

impl Clone for SignedDelete {
    fn clone(&self) -> (r: Self)
        ensures
            r.signer@ == self.signer@,
            r.signature@ == self.signature@,
            r.discover@ == self.discover@,
            sd_ok(r) == sd_ok(*self),
    {
        let r = SignedDelete {
            signer: self.signer.clone(),
            signature: self.signature.clone(),
            discover: self.discover.clone(),
        };
        proof {
            assert(sd_msg(r) =~= sd_msg(*self));
        }
        r
    }
}

impl Clone for SignedId {
    fn clone(&self) -> (r: Self)
        ensures
            r.signer@ == self.signer@,
            r.signature@ == self.signature@,
            r.id@ == self.id@,
            sid_ok(r) == sid_ok(*self),
    {
        let r = SignedId {
            signer: self.signer.clone(),
            signature: self.signature.clone(),
            id: self.id.clone(),
        };
        proof {
            assert(sid_msg(r) =~= sid_msg(*self));
        }
        r
    }
}

impl Clone for SignedTimes {
    fn clone(&self) -> (r: Self)
        ensures
            r.signer@ == self.signer@,
            r.signature@ == self.signature@,
            r.time == self.time,
            r.since == self.since,
            stimes_ok(r) == stimes_ok(*self),
    {
        SignedTimes {
            signer: self.signer.clone(),
            signature: self.signature.clone(),
            time: self.time,
            since: self.since,
        }
    }
}

impl Clone for SignedPublicUpdate {
    fn clone(&self) -> (r: Self)
        ensures
            r.signer@ == self.signer@,
            r.signature@ == self.signature@,
            r.id@ == self.id@,
            r.inner.signer@ == self.inner.signer@,
            r.inner.item.protocol@ == self.inner.item.protocol@,
            r.inner.item.header@ == self.inner.item.header@,
            r.inner.item.payload@ == self.inner.item.payload@,
            supd_ok(r) == supd_ok(*self),
            spub_ok(r.inner) == spub_ok(self.inner),
    {
        let r = SignedPublicUpdate {
            signer: self.signer.clone(),
            signature: self.signature.clone(),
            id: self.id.clone(),
            inner: self.inner.clone(),
        };
        proof {
            assert(supd_msg(r) =~= supd_msg(*self));
        }
        r
    }
}

impl Clone for Request {
    /// The clone answers every judgement the original does: each
    /// signature check and remembered field is preserved.
    fn clone(&self) -> (r: Self)
        ensures
            r is CreatePrivate <==> self is CreatePrivate,
            self matches Request::CreatePrivate(s) ==> (r matches Request::CreatePrivate(s2)
                && spi_ok(s2) == spi_ok(*s) && s2.signer@ == s.signer@ && s2.item.discover@
                == s.item.discover@ && opt_bytes_view(s2.item.delete) == opt_bytes_view(
                s.item.delete,
            ) && s2.item.payload@ == s.item.payload@),
            self matches Request::ReadPrivate(s) ==> (r matches Request::ReadPrivate(s2) && sr_ok(
                s2,
            ) == sr_ok(*s) && s2.signer@ == s.signer@),
            self matches Request::UpdatePrivate(s) ==> (r matches Request::UpdatePrivate(s2)
                && su_ok(s2) == su_ok(*s) && s2.signer@ == s.signer@ && s2.inner.signer@
                == s.inner.signer@ && s2.inner.item.discover@ == s.inner.item.discover@
                && opt_bytes_view(s2.inner.item.delete) == opt_bytes_view(s.inner.item.delete)
                && s2.inner.item.payload@ == s.inner.item.payload@),
            self matches Request::DeletePrivate(s) ==> (r matches Request::DeletePrivate(s2)
                && sd_ok(s2) == sd_ok(*s) && s2.signer@ == s.signer@ && s2.discover@
                == s.discover@),
            self matches Request::CreatePublic(s) ==> (r matches Request::CreatePublic(s2)
                && spub_ok(s2) == spub_ok(*s) && s2.signer@ == s.signer@ && s2.item.protocol@
                == s.item.protocol@ && s2.item.header@ == s.item.header@ && s2.item.payload@
                == s.item.payload@),
            self matches Request::ReadPublic(f) ==> (r matches Request::ReadPublic(f2)
                && filter_view(f2) == filter_view(*f)),
            self matches Request::UpdatePublic(s) ==> (r matches Request::UpdatePublic(s2)
                && supd_ok(s2) == supd_ok(*s) && s2.signer@ == s.signer@ && s2.id@ == s.id@
                && spub_ok(s2.inner) == spub_ok(s.inner) && s2.inner.signer@ == s.inner.signer@),
            self matches Request::DeletePublic(s) ==> (r matches Request::DeletePublic(s2)
                && sid_ok(s2) == sid_ok(*s) && s2.signer@ == s.signer@ && s2.id@ == s.id@),
            self matches Request::CreateDM(n, p) ==> (r matches Request::CreateDM(n2, p2) && n2@
                == n@ && p2@ == p@),
            self matches Request::ReadDM(s) ==> (r matches Request::ReadDM(s2) && stimes_ok(s2)
                == stimes_ok(*s) && s2.signer@ == s.signer@ && s2.time == s.time && s2.since
                == s.since),
    {
        match self {
            Request::CreatePrivate(s) => Request::CreatePrivate(s.clone()),
            Request::ReadPrivate(s) => Request::ReadPrivate(s.clone()),
            Request::UpdatePrivate(s) => Request::UpdatePrivate(s.clone()),
            Request::DeletePrivate(s) => Request::DeletePrivate(s.clone()),
            Request::CreatePublic(s) => Request::CreatePublic(s.clone()),
            Request::ReadPublic(f) => Request::ReadPublic(f.clone()),
            Request::UpdatePublic(s) => Request::UpdatePublic(s.clone()),
            Request::DeletePublic(s) => Request::DeletePublic(s.clone()),
            Request::CreateDM(n, p) => Request::CreateDM(n.clone(), p.clone()),
            Request::ReadDM(s) => Request::ReadDM(s.clone()),
        }
    }
}

} // verus!
