//! The records client: one high-level operation per instance, producing a
//! typed request and judging the response, with the cache updated only on
//! success.

use vstd::prelude::*;

use crate::Id;
use crate::cache::{Cache, Protocol, cache_get, entries_view, protocol_id};
use crate::codec;
use crate::crypto;
use crate::orange_name::{OrangeName, OrangeResolver, OrangeSecret};
use crate::records::{
    Error, Header, Permissions, Record, RecordPath, ValidationError, WSecretKey, from_item_spec,
    keyset_set, valid_child, validation_ok,
};
use crate::requests;
use crate::storage::{PrivateItem, Response};

verus! {

/// What the client keeps to judge the response of its operation.
#[derive(Debug)]
pub enum MidState {
    /// Read key if held, the parent header, the parent path, the index
    /// probed, and the protocols a found record may belong to.
    Discover(Option<WSecretKey>, Header, RecordPath, u32, Vec<Protocol>),
    /// The record sent and the path it will live at.
    Create(Record, RecordPath),
    /// The read key and the expected header identifier.
    Read(WSecretKey, Id),
    Update,
    Delete,
    Share,
    Receive,
}

/// The outcome of one operation.
#[derive(Debug)]
pub enum Processed {
    Discover(Option<(RecordPath, i64)>),
    Create(RecordPath, Option<(Result<Record, ValidationError>, i64)>),
    Read(Option<(Record, i64)>),
    Update(bool),
    Delete(bool),
    Share,
    Receive(Vec<(OrangeName, RecordPath)>),
}

/// What probing a child slot needs: a cached parent whose child-discover
/// key is held as a secret and derives at the index.
pub open spec fn discover_ready(ph_opt: Option<crate::records::HeaderV>, index: u32) -> bool {
    &&& ph_opt is Some
    &&& ph_opt->Some_0.keys.children matches Some((d, rc)) && d matches
        crate::records::KeyV::Secret(dw) && crypto::derive_of(dw.secret, seq![index]) is Some
}

/// What creating a record needs beyond a constructible header: the
/// downgrade to the chosen permissions must succeed and still satisfy the
/// schema.
pub open spec fn create_ready(
    full_opt: Option<crate::records::HeaderV>,
    perms: crate::records::PermissionsV,
) -> bool {
    &&& full_opt matches Some(full)
    &&& keyset_set(full_opt->Some_0.keys, perms) matches Some(ks2) && validation_ok(
        full_opt->Some_0.validation,
        ks2,
    )
}

/// The header [`Client::create`] derives for its inputs.
pub open spec fn create_header_spec(
    c: Cache,
    protocol: Protocol,
    parent: Seq<Seq<u8>>,
    index: u32,
) -> Option<crate::records::HeaderV> {
    crate::cache::header_spec(
        c.root.key@,
        c.root.path@,
        entries_view(c.entries@),
        protocol_id(protocol),
        crate::cache::protocol_validation(protocol),
        crate::cache::protocol_info(protocol),
        parent,
        index,
    )
}

/// What replacing a record needs: a cached header with a secret delete
/// key, computable signing keys, a downgrade that passes the schema, and
/// an encryptable read key.
pub open spec fn update_ready(
    h_opt: Option<crate::records::HeaderV>,
    perms: crate::records::PermissionsV,
) -> bool {
    &&& h_opt matches Some(h)
    &&& (h_opt->Some_0.keys.delete matches Some(dk) && dk is Secret && crypto::public_of(
        dk->Secret_0.secret,
    ) is Some)
    &&& crypto::public_of(h_opt->Some_0.keys.discover.secret) is Some
    &&& (keyset_set(h_opt->Some_0.keys, perms) matches Some(ks2) && validation_ok(
        h_opt->Some_0.validation,
        ks2,
    ))
}

/// The record an update sends: the cached header downgraded to the chosen
/// permissions, over the new payload.
pub open spec fn updated_record(
    h: crate::records::HeaderV,
    perms: crate::records::PermissionsV,
    payload: Seq<u8>,
) -> crate::records::RecordV {
    crate::records::RecordV {
        header: crate::records::HeaderV {
            keys: keyset_set(h.keys, perms)->Some_0,
            validation: h.validation,
            data: h.data,
            protocol: h.protocol,
        },
        payload: payload,
    }
}

/// The header a pointer record gets: derived over the cache as it stands
/// after the target was merged in, under the pointer sentinel protocol,
/// with the encoded target as data.
pub open spec fn pointer_header_spec(
    c: Cache,
    folded_entries: Seq<(Seq<Seq<u8>>, crate::records::HeaderV)>,
    target: crate::records::HeaderV,
    parent: Seq<Seq<u8>>,
    index: u32,
) -> Option<crate::records::HeaderV> {
    crate::cache::header_spec(
        c.root.key@,
        c.root.path@,
        folded_entries,
        crate::max_id(),
        crate::records::ValidationV {
            children: None,
            delete: None,
            key_states: Seq::empty(),
            allow_extra_keys: false,
        },
        crate::records::HeaderInfoV {
            delete: None,
            others: Seq::empty(),
            data: codec::enc_header(target),
        },
        parent,
        index,
    )
}

/// Which header a discover run accepts for a received record: a pointer
/// record yields exactly the header decoded from its data, admissible
/// under the parent and itself no pointer; any other record yields a
/// header with the received header's identifier (the regenerated copy or
/// the received header itself).
pub open spec fn discover_accepted_header(
    ph: crate::records::HeaderV,
    rec: crate::records::RecordV,
    ah: crate::records::HeaderV,
) -> bool {
    if rec.header.protocol == crate::max_id() {
        &&& codec::dec_header(rec.header.data) matches Some(p2) && ah == p2.0 && p2.1.len() == 0
        &&& valid_child(ph, ah)
        &&& ah.protocol != crate::max_id()
    } else {
        codec::header_id(ah) == codec::header_id(rec.header)
    }
}

/// Whether a pointer record resolves: its data decodes to exactly one
/// header, admissible under the parent and itself no pointer.
pub open spec fn pointer_target_ok(
    ph: crate::records::HeaderV,
    rec: crate::records::RecordV,
) -> bool {
    &&& codec::dec_header(rec.header.data) matches Some(p2) && p2.1.len() == 0
    &&& valid_child(ph, codec::dec_header(rec.header.data)->Some_0.0)
    &&& codec::dec_header(rec.header.data)->Some_0.0.protocol != crate::max_id()
}

/// Whether a judged reply of the request layer answers the operation this
/// client runs: the reply kind the inner layer produces must have an
/// outcome here.
pub open spec fn processed_matches_mid(
    mid: MidState,
    req: crate::storage::Request,
    resp: Response,
) -> bool {
    match mid {
        MidState::Discover(_, _, _, _, _) => req is CreatePrivate || req is ReadPrivate,
        MidState::Create(_, _) => req is CreatePrivate || req is ReadPrivate,
        MidState::Read(_, _) => req is CreatePrivate || req is ReadPrivate,
        MidState::Update | MidState::Delete => match resp {
            Response::Empty => req is UpdatePrivate || req is DeletePrivate || req is CreateDM
                || req is UpdatePublic || req is DeletePublic,
            Response::InvalidDelete(_) => req is UpdatePrivate || req is DeletePrivate,
            _ => false,
        },
        MidState::Share => resp is Empty && (req is UpdatePrivate || req is DeletePrivate
            || req is CreateDM || req is UpdatePublic || req is DeletePublic),
        MidState::Receive => req is ReadDM,
    }
}

/// Whether a reply carries a private item to open: a conflict, or a
/// non-empty read.
pub open spec fn private_reply_present(response: Response) -> bool {
    ||| response is PrivateConflict
    ||| (response matches Response::ReadPrivate(o) && o is Some)
}

/// A single-shot records client.
#[derive(Debug)]
pub struct Client {
    pub inner: requests::Client,
    pub mid: MidState,
}

impl Client {
    /// Probe the child slot at `index` under `parent`: ask for the
    /// private row under the derived child-discover key, and remember the
    /// derived read key so a returned row can be opened.
    pub fn discover(cache: &mut Cache, parent: &RecordPath, index: u32, protocols: Vec<Protocol>)
        -> (r: Result<Client, Error>)
        ensures
            final(cache).root.path@ == old(cache).root.path@,
            final(cache).root.key@ == old(cache).root.key@,
            entries_view(final(cache).entries@) == entries_view(old(cache).entries@),
            match r {
                Ok(c) => ({
                    let ph_opt = cache_get(entries_view(old(cache).entries@), parent@);
                    &&& discover_ready(ph_opt, index)
                    &&& (ph_opt->Some_0.keys.children matches Some((d, rc)) && (d matches
                        crate::records::KeyV::Secret(dw) && (
                    c.inner.request matches crate::storage::Request::ReadPrivate(s) && Some(
                        s.signer@,
                    ) == match crypto::derive_of(dw.secret, seq![index]) {
                        Some(k) => crypto::public_of(k),
                        None => None,
                    })))
                    &&& (c.inner.request matches crate::storage::Request::ReadPrivate(s2) && (
                    c.inner.mid matches requests::MidState::Key(k2) && k2@ == s2.signer@))
                    &&& (c.mid matches MidState::Discover(read, ph, p, ix, _) && ph@
                        == ph_opt->Some_0 && p@ == parent@ && ix == index && ({
                        let rck = ph_opt->Some_0.keys.children->Some_0.1;
                        match read {
                            Some(rw) => rck matches crate::records::KeyV::Secret(rws) && Some(
                                rw@.secret,
                            ) == crypto::derive_of(rws.secret, seq![index]) && rw@.wf(),
                            None => !(rck matches crate::records::KeyV::Secret(rws2)
                                && crypto::derive_of(rws2.secret, seq![index]) is Some),
                        }
                    }))
                }),
                Err(e) => (e is Validation || e is EasySecp256k1) && !discover_ready(
                    cache_get(entries_view(old(cache).entries@), parent@),
                    index,
                ) && (cache_get(entries_view(old(cache).entries@), parent@) is None <==> (
                e matches Error::Validation(v) && v is MissingRecord)) && (({
                    let ph_opt = cache_get(entries_view(old(cache).entries@), parent@);
                    ph_opt is Some && !(ph_opt->Some_0.keys.children matches Some((d, _)) && d is Secret)
                }) <==> (e matches Error::Validation(v2) && v2 is InvalidParent)),
            },
    {
        let header = match cache.get(parent) {
            Some(h) => h.clone(),
            None => {
                return Err(
                    Error::Validation(
                        ValidationError::MissingRecord(String::from_str("Parent")),
                    ),
                );
            },
        };
        let (dk, rk) = match &header.keys.children {
            Some((d, rc)) => (d, rc),
            None => {
                return Err(
                    Error::Validation(ValidationError::InvalidParent(String::from_str("Parent"))),
                );
            },
        };
        let dw = match dk.secret() {
            Some(w) => w,
            None => {
                return Err(
                    Error::Validation(ValidationError::InvalidParent(String::from_str("Parent"))),
                );
            },
        };
        let mut ix: Vec<u32> = Vec::new();
        ix.push(index);
        proof {
            assert(ix@ =~= seq![index]);
        }
        let discover_secret = match crypto::derive_key(&dw.secret, &ix) {
            Ok(k) => k,
            Err(_) => {
                return Err(Error::EasySecp256k1(crypto::CryptoError::InvalidKey));
            },
        };
        let discover = match WSecretKey::from_secret(discover_secret) {
            Ok(w) => w,
            Err(_) => {
                proof {
                    assert(false);
                }
                return Err(Error::EasySecp256k1(crypto::CryptoError::InvalidKey));
            },
        };
        let read: Option<WSecretKey> = match rk.secret() {
            Some(rw) => match crypto::derive_key(&rw.secret, &ix) {
                Ok(k) => match WSecretKey::from_secret(k) {
                    Ok(w) => Some(w),
                    Err(_) => {
                        proof {
                            assert(false);
                        }
                        None
                    },
                },
                Err(_) => None,
            },
            None => None,
        };
        let inner = match requests::Client::read_private(&discover) {
            Ok(c) => c,
            Err(e) => {
                proof {
                    assert(false);
                }
                return Err(Error::EasySecp256k1(e));
            },
        };
        Ok(
            Client {
                inner,
                mid: MidState::Discover(read, header, parent.clone(), index, protocols),
            },
        )
    }

    /// Create a record: build the full-authority header, cache it,
    /// downgrade a copy to `perms`, encrypt the record under the read
    /// key, and emit the create request under the discover key.
    pub fn create(
        cache: &mut Cache,
        parent: &RecordPath,
        protocol: &Protocol,
        index: u32,
        perms: &Permissions,
        payload: Vec<u8>,
    ) -> (r: Result<Client, Error>)
        requires
            index <= u32::MAX - 255,
        ensures
            final(cache).root.path@ == old(cache).root.path@,
            final(cache).root.key@ == old(cache).root.key@,
            match r {
                Ok(c) => ({
                    let full_opt = create_header_spec(*old(cache), *protocol, parent@, index);
                    &&& create_ready(full_opt, perms@)
                    &&& (c.mid matches MidState::Create(record, path) && ({
                        let full = full_opt->Some_0;
                        &&& keyset_set(full.keys, perms@) == Some(record.header@.keys)
                        &&& record.header@.validation == full.validation
                        &&& record.header@.data == full.data
                        &&& validation_ok(record.header@.validation, record.header@.keys)
                        &&& record.header@.protocol == protocol_id(*protocol)
                        &&& record.payload@ == payload@
                        &&& path@ == parent@.push(codec::header_id(record.header@))
                        &&& ({
                            // The full-authority header is merged into the
                            // cache under the parent joined with its id.
                            let hid = codec::header_id(full);
                            let m = crate::cache::cache_join(
                                entries_view(old(cache).entries@),
                                full,
                                hid,
                            );
                            entries_view(final(cache).entries@) == crate::cache::upsert(
                                crate::cache::cache_rewrite(
                                    entries_view(old(cache).entries@),
                                    m,
                                    hid,
                                ),
                                parent@.push(hid),
                                m,
                            )
                        })
                        &&& (c.inner.request matches crate::storage::Request::CreatePrivate(s) && ({
                            &&& s.signer@ == record.header@.keys.discover.public
                            &&& crate::storage::spi_ok(s)
                            &&& crypto::decrypt_of(record.header@.keys.read.secret, s.item.payload@)
                                == Some(codec::enc_record(record@))
                            &&& crate::storage::opt_bytes_view(s.item.delete) == (match record.header@.keys.delete {
                                Some(k) => Some(k.public()),
                                None => None,
                            })
                            // For honest, bounded key material the stored
                            // ciphertext opens back to exactly this record.
                            &&& ((record.header@.keys.honest() && record.header@.bounded()
                                && codec::bounded(record.payload@)) ==> from_item_spec(
                                s.item,
                                record.header@.keys.read,
                            ) == Some(record@))
                        }))
                    }))
                }),
                Err(e) => (e is Validation || e is EasySecp256k1) && !create_ready(
                    create_header_spec(*old(cache), *protocol, parent@, index),
                    perms@,
                ) && entries_view(final(cache).entries@) == entries_view(old(cache).entries@),
            },
    {
        let o_header = cache.header(parent, protocol, index)?;
        let ghost full = o_header@;
        let header = match o_header.clone().set(perms) {
            Ok(h) => h,
            Err(e) => {
                return Err(Error::Validation(e));
            },
        };
        proof {
            assert(keyset_set(full.keys, perms@) == Some(header@.keys));
        }
        cache.cache(parent.clone(), o_header);
        let record = Record { header, payload };
        let delete: Option<Vec<u8>> = match &record.header.keys.delete {
            Some(k) => Some(k.public()),
            None => None,
        };
        let encoded = codec::encode_record(&record);
        let ciphertext = match crypto::ecies_encrypt(&record.header.keys.read.public, encoded) {
            Ok(ct) => ct,
            Err(e) => {
                proof {
                    assert(crypto::public_of(record.header@.keys.read.secret) == Some(
                        record.header@.keys.read.public,
                    ));
                    assert(false);
                }
                return Err(Error::EasySecp256k1(e));
            },
        };
        let path = parent.join(record.header.id());
        let inner = match requests::Client::create_private(
            &record.header.keys.discover,
            delete,
            ciphertext,
        ) {
            Ok(c) => c,
            Err(e) => {
                proof {
                    assert(false);
                }
                return Err(Error::EasySecp256k1(e));
            },
        };
        proof {
            if record.header@.keys.honest() && record.header@.bounded() && codec::bounded(
                record.payload@,
            ) {
                codec::lemma_rt_record(record@, Seq::<u8>::empty());
                assert(codec::enc_record(record@) + Seq::<u8>::empty() =~= codec::enc_record(
                    record@,
                ));
            }
        }
        Ok(Client { inner, mid: MidState::Create(record, path) })
    }

    /// Read the record at a cached path: ask for the row under its
    /// discover key, and remember the read key and expected identifier.
    pub fn read(cache: &mut Cache, path: &RecordPath) -> (r: Result<Client, Error>)
        ensures
            final(cache).root.path@ == old(cache).root.path@,
            final(cache).root.key@ == old(cache).root.key@,
            entries_view(final(cache).entries@) == entries_view(old(cache).entries@),
            match r {
                Ok(c) => ({
                    let h_opt = cache_get(entries_view(old(cache).entries@), path@);
                    &&& h_opt is Some
                    &&& (c.mid matches MidState::Read(read, id) && read@ == h_opt->Some_0.keys.read
                        && id@ == codec::header_id(h_opt->Some_0))
                    &&& (c.inner.request matches crate::storage::Request::ReadPrivate(s) && Some(
                        s.signer@,
                    ) == crypto::public_of(h_opt->Some_0.keys.discover.secret))
                }),
                Err(e) => (e is Validation || e is EasySecp256k1) && ({
                    let h_opt = cache_get(entries_view(old(cache).entries@), path@);
                    h_opt is None || crypto::public_of(h_opt->Some_0.keys.discover.secret) is None
                }) && (cache_get(entries_view(old(cache).entries@), path@) is None <==> (
                e matches Error::Validation(v) && v is MissingRecord)),
            },
    {
        let header = match cache.get(path) {
            Some(h) => h,
            None => {
                return Err(
                    Error::Validation(ValidationError::MissingRecord(String::from_str("Path"))),
                );
            },
        };
        let read = header.keys.read.clone();
        let id = header.id();
        let discover = match WSecretKey::from_secret(header.keys.discover.secret.clone()) {
            Ok(w) => w,
            Err(e) => {
                return Err(Error::EasySecp256k1(e));
            },
        };
        let inner = match requests::Client::read_private(&discover) {
            Ok(c) => c,
            Err(e) => {
                proof {
                    assert(false);
                }
                return Err(Error::EasySecp256k1(e));
            },
        };
        Ok(Client { inner, mid: MidState::Read(read, id) })
    }

    /// Replace the record at a cached path: requires the delete secret,
    /// re-downgrades the header to `perms`, encrypts and emits the update
    /// request.
    pub fn update(cache: &mut Cache, path: &RecordPath, perms: &Permissions, payload: Vec<u8>)
        -> (r: Result<Client, Error>)
        ensures
            final(cache).root.path@ == old(cache).root.path@,
            final(cache).root.key@ == old(cache).root.key@,
            entries_view(final(cache).entries@) == entries_view(old(cache).entries@),
            match r {
                Ok(c) => ({
                    let h_opt = cache_get(entries_view(old(cache).entries@), path@);
                    &&& update_ready(h_opt, perms@)
                    &&& c.mid is Update
                    &&& (c.inner.request matches crate::storage::Request::UpdatePrivate(s) && ({
                        let h = h_opt->Some_0;
                        &&& Some(s.inner.signer@) == crypto::public_of(h.keys.discover.secret)
                        &&& Some(s.signer@) == crypto::public_of(
                            h.keys.delete->Some_0->Secret_0.secret,
                        )
                        &&& crate::storage::su_ok(s) && crate::storage::spi_ok(s.inner)
                        &&& (crypto::public_of(h.keys.read.secret) == Some(h.keys.read.public)
                            ==> crypto::decrypt_of(h.keys.read.secret, s.inner.item.payload@)
                            == Some(codec::enc_record(updated_record(h, perms@, payload@))))
                    }))
                }),
                Err(e) => (e is Validation || e is EasySecp256k1) && !(update_ready(
                    cache_get(entries_view(old(cache).entries@), path@),
                    perms@,
                ) && exists|sk: Seq<u8>|
                    #[trigger] crypto::public_of(sk) == Some(
                        cache_get(
                            entries_view(old(cache).entries@),
                            path@,
                        )->Some_0.keys.read.public,
                    )) && (cache_get(entries_view(old(cache).entries@), path@) is None <==> (
                e matches Error::Validation(v) && v is MissingRecord)) && (({
                    let h_opt = cache_get(entries_view(old(cache).entries@), path@);
                    h_opt is Some && !(h_opt->Some_0.keys.delete matches Some(dk) && dk is Secret)
                }) ==> (e matches Error::Validation(v2) && v2 is MissingPerms)),
            },
    {
        let header = match cache.get(path) {
            Some(h) => h.clone(),
            None => {
                return Err(
                    Error::Validation(ValidationError::MissingRecord(String::from_str("Path"))),
                );
            },
        };
        let delete = match &header.keys.delete {
            Some(k) => match k.secret() {
                Some(w) => w,
                None => {
                    return Err(
                        Error::Validation(
                            ValidationError::MissingPerms(String::from_str("Delete")),
                        ),
                    );
                },
            },
            None => {
                return Err(
                    Error::Validation(ValidationError::MissingPerms(String::from_str("Delete"))),
                );
            },
        };
        let discover = match WSecretKey::from_secret(header.keys.discover.secret.clone()) {
            Ok(w) => w,
            Err(e) => {
                return Err(Error::EasySecp256k1(e));
            },
        };
        let delete = match WSecretKey::from_secret(delete.secret) {
            Ok(w) => w,
            Err(e) => {
                return Err(Error::EasySecp256k1(e));
            },
        };
        let header2 = match header.set(perms) {
            Ok(h) => h,
            Err(e) => {
                return Err(Error::Validation(e));
            },
        };
        let record = Record { header: header2, payload };
        let encoded = codec::encode_record(&record);
        let ciphertext = match crypto::ecies_encrypt(&record.header.keys.read.public, encoded) {
            Ok(ct) => ct,
            Err(e) => {
                return Err(Error::EasySecp256k1(e));
            },
        };
        let inner = match requests::Client::update_private(&discover, &delete, ciphertext) {
            Ok(c) => c,
            Err(e) => {
                proof {
                    assert(false);
                }
                return Err(Error::EasySecp256k1(e));
            },
        };
        Ok(Client { inner, mid: MidState::Update })
    }

    /// Remove the record at a cached path; requires the delete secret.
    pub fn delete(cache: &mut Cache, path: &RecordPath) -> (r: Result<Client, Error>)
        ensures
            final(cache).root.path@ == old(cache).root.path@,
            final(cache).root.key@ == old(cache).root.key@,
            entries_view(final(cache).entries@) == entries_view(old(cache).entries@),
            match r {
                Ok(c) => ({
                    let h_opt = cache_get(entries_view(old(cache).entries@), path@);
                    &&& h_opt is Some
                    &&& (h_opt->Some_0.keys.delete matches Some(dk) && dk is Secret)
                    &&& c.mid is Delete
                    &&& (c.inner.request matches crate::storage::Request::DeletePrivate(s) && Some(
                        s.discover@,
                    ) == crypto::public_of(h_opt->Some_0.keys.discover.secret) && Some(s.signer@)
                        == crypto::public_of(
                        h_opt->Some_0.keys.delete->Some_0->Secret_0.secret,
                    ))
                }),
                Err(e) => (e is Validation || e is EasySecp256k1) && !({
                    let h_opt = cache_get(entries_view(old(cache).entries@), path@);
                    &&& h_opt is Some
                    &&& (h_opt->Some_0.keys.delete matches Some(dk) && dk is Secret
                        && crypto::public_of(dk->Secret_0.secret) is Some)
                    &&& crypto::public_of(h_opt->Some_0.keys.discover.secret) is Some
                }) && (cache_get(entries_view(old(cache).entries@), path@) is None <==> (
                e matches Error::Validation(v) && v is MissingRecord)) && (({
                    let h_opt = cache_get(entries_view(old(cache).entries@), path@);
                    h_opt is Some && !(h_opt->Some_0.keys.delete matches Some(dk) && dk is Secret)
                }) <==> (e matches Error::Validation(v2) && v2 is MissingPerms)),
            },
    {
        let header = match cache.get(path) {
            Some(h) => h,
            None => {
                return Err(
                    Error::Validation(ValidationError::MissingRecord(String::from_str("Path"))),
                );
            },
        };
        let delete = match &header.keys.delete {
            Some(k) => match k.secret() {
                Some(w) => w,
                None => {
                    return Err(
                        Error::Validation(
                            ValidationError::MissingPerms(String::from_str("Delete")),
                        ),
                    );
                },
            },
            None => {
                return Err(
                    Error::Validation(ValidationError::MissingPerms(String::from_str("Delete"))),
                );
            },
        };
        let delete = match WSecretKey::from_secret(delete.secret) {
            Ok(w) => w,
            Err(e) => {
                return Err(Error::EasySecp256k1(e));
            },
        };
        let discover = match crypto::public_key(&header.keys.discover.secret) {
            Ok(p) => p,
            Err(e) => {
                return Err(Error::EasySecp256k1(e));
            },
        };
        let inner = match requests::Client::delete_private(discover, &delete) {
            Ok(c) => c,
            Err(e) => {
                proof {
                    assert(false);
                }
                return Err(Error::EasySecp256k1(e));
            },
        };
        Ok(Client { inner, mid: MidState::Delete })
    }

    /// Share the header at a cached path, downgraded to `perms`, as a
    /// direct message to the recipient.
    pub fn share(
        cache: &mut Cache,
        resolver: &mut OrangeResolver,
        secret: &OrangeSecret,
        recipient: &OrangeName,
        perms: &Permissions,
        path: &RecordPath,
    ) -> (r: Result<Client, Error>)
        requires
            crate::orange_name::secret_wf(*secret),
        ensures
            final(cache).root.path@ == old(cache).root.path@,
            final(cache).root.key@ == old(cache).root.key@,
            entries_view(final(cache).entries@) == entries_view(old(cache).entries@),
            match r {
                Ok(c) => ({
                    let h_opt = cache_get(entries_view(old(cache).entries@), path@);
                    let shared = crate::records::HeaderV {
                        keys: keyset_set(h_opt->Some_0.keys, perms@)->Some_0,
                        validation: h_opt->Some_0.validation,
                        data: h_opt->Some_0.data,
                        protocol: h_opt->Some_0.protocol,
                    };
                    &&& h_opt is Some
                    &&& keyset_set(h_opt->Some_0.keys, perms@) is Some
                    &&& c.mid is Share
                    &&& (c.inner.request matches crate::storage::Request::CreateDM(n, ct) && n@
                        == recipient@ && (exists|sig: Seq<u8>|
                    #[trigger] crypto::verify_of(
                        crate::orange_name::name_of(*secret),
                        sig,
                        crate::orange_name::signed_msg(codec::enc_header(shared)),
                    ) && forall|sk: Seq<u8>|
                        crypto::public_of(sk) == Some(recipient@)
                            ==> #[trigger] crypto::decrypt_of(sk, ct@) == Some(
                            codec::enc_triple(
                                crate::orange_name::name_of(*secret),
                                sig,
                                codec::enc_header(shared),
                            ),
                        )))
                }),
                Err(e) => (e is Validation || e is ConnectionFailed) && !({
                    let h_opt = cache_get(entries_view(old(cache).entries@), path@);
                    &&& h_opt is Some
                    &&& (keyset_set(h_opt->Some_0.keys, perms@) matches Some(ks2) && validation_ok(
                        h_opt->Some_0.validation,
                        ks2,
                    ))
                    &&& exists|sk: Seq<u8>|
                        #[trigger] crypto::public_of(sk) == Some(recipient@)
                }) && (cache_get(entries_view(old(cache).entries@), path@) is None <==> (
                e matches Error::Validation(v) && v is MissingRecord)),
            },
    {
        let header = match cache.get(path) {
            Some(h) => h.clone(),
            None => {
                return Err(
                    Error::Validation(ValidationError::MissingRecord(String::from_str("Path"))),
                );
            },
        };
        let shared = match header.set(perms) {
            Ok(h) => h,
            Err(e) => {
                return Err(Error::Validation(e));
            },
        };
        let payload = codec::encode_header(&shared);
        let inner = match requests::Client::create_dm(
            resolver,
            secret,
            recipient.clone(),
            payload,
        ) {
            Ok(c) => c,
            Err(_) => {
                return Err(Error::ConnectionFailed(String::from_str("Resolution")));
            },
        };
        Ok(Client { inner, mid: MidState::Share })
    }

    /// Ask for headers shared with us since a timestamp.
    pub fn receive(
        resolver: &mut OrangeResolver,
        secret: &OrangeSecret,
        time: i64,
        since: i64,
    ) -> (r: Result<Client, Error>)
        requires
            crate::orange_name::secret_wf(*secret),
        ensures
            r is Ok,
            r matches Ok(c) ==> c.mid is Receive && (c.inner.request matches
            crate::storage::Request::ReadDM(s) && s.signer@ == crate::orange_name::name_of(
                *secret,
            ) && s.time == time && s.since == since) && (c.inner.mid matches
            requests::MidState::Secret(ms) && crate::orange_name::secret_of(ms)
                == crate::orange_name::secret_of(*secret)),
    {
        let inner = match requests::Client::read_dm(resolver, secret, time, since) {
            Ok(c) => c,
            Err(e) => {
                proof {
                    assert(false);
                }
                return Err(Error::ConnectionFailed(String::from_str("Resolution")));
            },
        };
        Ok(Client { inner, mid: MidState::Receive })
    }

    /// Re-parent the record at `record` under `parent`: cache the target
    /// header there and create a pointer record whose data embeds it.
    pub fn create_pointer(cache: &mut Cache, parent: &RecordPath, record: &RecordPath, index: u32)
        -> (r: Result<Client, Error>)
        requires
            index <= u32::MAX - 255,
        ensures
            final(cache).root.path@ == old(cache).root.path@,
            final(cache).root.key@ == old(cache).root.key@,
            match r {
                Ok(c) => ({
                    let t_opt = cache_get(entries_view(old(cache).entries@), record@);
                    &&& t_opt is Some
                    &&& ({
                        // The target is merged into the cache first.
                        let t = t_opt->Some_0;
                        let tid = codec::header_id(t);
                        let tm = crate::cache::cache_join(
                            entries_view(old(cache).entries@),
                            t,
                            tid,
                        );
                        let folded = crate::cache::upsert(
                            crate::cache::cache_rewrite(
                                entries_view(old(cache).entries@),
                                tm,
                                tid,
                            ),
                            parent@.push(tid),
                            tm,
                        );
                        &&& pointer_header_spec(*old(cache), folded, t, parent@, index) matches
                            Some(ph)
                        &&& (c.mid matches MidState::Create(rec, path) && rec.header@ == ph
                            && rec.header@.protocol == crate::max_id() && rec.header@.data
                            == codec::enc_header(t) && rec.payload@.len() == 0 && path@
                            == parent@.push(codec::header_id(rec.header@)))
                    })
                    &&& (c.inner.request matches crate::storage::Request::CreatePrivate(s) && (
                    c.mid matches MidState::Create(rec2, _) && s.signer@
                        == rec2.header@.keys.discover.public && crate::storage::spi_ok(s)
                        && crypto::decrypt_of(rec2.header@.keys.read.secret, s.item.payload@)
                        == Some(codec::enc_record(rec2@))))
                }),
                Err(e) => (e is Validation || e is EasySecp256k1) && !({
                    let t_opt = cache_get(entries_view(old(cache).entries@), record@);
                    &&& t_opt is Some
                    &&& ({
                        let t = t_opt->Some_0;
                        let tid = codec::header_id(t);
                        let tm = crate::cache::cache_join(
                            entries_view(old(cache).entries@),
                            t,
                            tid,
                        );
                        pointer_header_spec(
                            *old(cache),
                            crate::cache::upsert(
                                crate::cache::cache_rewrite(
                                    entries_view(old(cache).entries@),
                                    tm,
                                    tid,
                                ),
                                parent@.push(tid),
                                tm,
                            ),
                            t,
                            parent@,
                            index,
                        ) is Some
                    })
                }) && (cache_get(entries_view(old(cache).entries@), record@) is None ==> (
                e matches Error::Validation(v) && v is MissingRecord)) && ((
                e matches Error::Validation(v2) && v2 is MissingRecord) ==> ({
                    let t_opt = cache_get(entries_view(old(cache).entries@), record@);
                    t_opt is None || ({
                        let t = t_opt->Some_0;
                        let tid = codec::header_id(t);
                        let tm = crate::cache::cache_join(
                            entries_view(old(cache).entries@),
                            t,
                            tid,
                        );
                        cache_get(
                            crate::cache::upsert(
                                crate::cache::cache_rewrite(
                                    entries_view(old(cache).entries@),
                                    tm,
                                    tid,
                                ),
                                parent@.push(tid),
                                tm,
                            ),
                            parent@,
                        ) is None
                    })
                })),
            },
    {
        let record_header = match cache.get(record) {
            Some(h) => h.clone(),
            None => {
                return Err(
                    Error::Validation(ValidationError::MissingRecord(String::from_str("Record"))),
                );
            },
        };
        cache.cache(parent.clone(), record_header.clone());
        let protocol = Protocol::Pointer(record_header);
        let header = cache.header(parent, &protocol, index)?;
        let record_out = Record { header, payload: Vec::new() };
        let delete: Option<Vec<u8>> = match &record_out.header.keys.delete {
            Some(k) => Some(k.public()),
            None => None,
        };
        let encoded = codec::encode_record(&record_out);
        let ciphertext = match crypto::ecies_encrypt(
            &record_out.header.keys.read.public,
            encoded,
        ) {
            Ok(ct) => ct,
            Err(e) => {
                proof {
                    assert(crypto::public_of(record_out.header@.keys.read.secret) == Some(
                        record_out.header@.keys.read.public,
                    ));
                    assert(false);
                }
                return Err(Error::EasySecp256k1(e));
            },
        };
        let path = parent.join(record_out.header.id());
        let inner = match requests::Client::create_private(
            &record_out.header.keys.discover,
            delete,
            ciphertext,
        ) {
            Ok(c) => c,
            Err(e) => {
                proof {
                    assert(false);
                }
                return Err(Error::EasySecp256k1(e));
            },
        };
        Ok(Client { inner, mid: MidState::Create(record_out, path) })
    }

    /// Hand the typed request to the transport layer.
    pub fn build_request(&self) -> (r: &crate::storage::Request)
        ensures
            r == &self.inner.request,
    {
        self.inner.build_request()
    }
}

/// Byte-for-byte equality of two records' canonical encodings; for honest
/// bounded records this is equality of the records themselves.
fn record_eq(a: &Record, b: &Record) -> (r: bool)
    ensures
        r == (codec::enc_record(a@) == codec::enc_record(b@)),
{
    let ea = codec::encode_record(a);
    let eb = codec::encode_record(b);
    let r = ea == eb;
    proof {
        if r {
            assert(ea@ =~= eb@);
        }
    }
    r
}

impl Client {
    /// Judge the response for this operation and, on success, fold any
    /// learned header into the cache.  Failures inside a well-formed
    /// response (bad decryption, bad schema) surface as absent data; a
    /// response of the wrong shape is a malicious-response error.
    #[verifier::rlimit(100)]
    #[verifier::spinoff_prover]
    pub fn process_response(
        &self,
        cache: &mut Cache,
        resolver: &mut OrangeResolver,
        response: Response,
    ) -> (r: Result<Processed, Error>)
        ensures
            final(cache).root.path@ == old(cache).root.path@,
            final(cache).root.key@ == old(cache).root.key@,
            r is Ok <==> requests::response_accepted(self.inner.request, self.inner.mid, response)
                && processed_matches_mid(self.mid, self.inner.request, response),
            r is Err ==> entries_view(final(cache).entries@) == entries_view(old(cache).entries@),
            match r {
                Ok(p) => match p {
                    Processed::Discover(opt) => {
                        &&& self.mid is Discover
                        &&& match opt {
                            Some((path, date)) => (self.mid matches MidState::Discover(
                                read_opt,
                                ph,
                                parent,
                                _ix,
                                _,
                            ) && ({
                                &&& ({
                                    ||| (response matches Response::ReadPrivate(o) && o matches
                                    Some(p2) && p2.1 == date)
                                    ||| (response matches Response::PrivateConflict(_, t2) && t2
                                        == date)
                                })
                                &&& read_opt matches Some(read)
                                &&& from_item_spec(get_conflict_item(response), read@) matches
                                    Some(rec) && valid_child(ph@, rec.header) && (exists|
                                    ah: crate::records::HeaderV,
                                |
                                    #[trigger] discover_accepted_header(ph@, rec, ah) && path@
                                        == parent@.push(codec::header_id(ah)) && entries_view(
                                        final(cache).entries@,
                                    ) == crate::cache::upsert(
                                        crate::cache::cache_rewrite(
                                            entries_view(old(cache).entries@),
                                            crate::cache::cache_join(
                                                entries_view(old(cache).entries@),
                                                ah,
                                                codec::header_id(ah),
                                            ),
                                            codec::header_id(ah),
                                        ),
                                        parent@.push(codec::header_id(ah)),
                                        crate::cache::cache_join(
                                            entries_view(old(cache).entries@),
                                            ah,
                                            codec::header_id(ah),
                                        ),
                                    ))
                            })),
                            None => entries_view(final(cache).entries@) == entries_view(
                                old(cache).entries@,
                            ) && (self.mid matches MidState::Discover(read_opt, ph, _p, _i2, _)
                                && !({
                                &&& private_reply_present(response)
                                &&& read_opt matches Some(read)
                                &&& from_item_spec(get_conflict_item(response), read@) matches
                                    Some(rec)
                                &&& valid_child(ph@, rec.header)
                                &&& (rec.header.protocol == crate::max_id() ==> pointer_target_ok(
                                    ph@,
                                    rec,
                                ))
                            })),
                        }
                    },
                    Processed::Create(path, opt) => {
                        &&& self.mid matches MidState::Create(record, p2) && path@ == p2@ && ({
                            match opt {
                                Some((res, date)) => private_reply_present(response) && (match res {
                                    Ok(other) => from_item_spec(
                                        get_conflict_item(response),
                                        record.header@.keys.read,
                                    ) == Some(other@) && codec::enc_record(other@)
                                        != codec::enc_record(record@),
                                    Err(_) => from_item_spec(
                                        get_conflict_item(response),
                                        record.header@.keys.read,
                                    ) is None,
                                }),
                                None => !private_reply_present(response) || (from_item_spec(
                                    get_conflict_item(response),
                                    record.header@.keys.read,
                                ) matches Some(other2) && codec::enc_record(other2)
                                    == codec::enc_record(record@)),
                            }
                        })
                        &&& entries_view(final(cache).entries@) == entries_view(
                            old(cache).entries@,
                        )
                    },
                    Processed::Read(opt) => {
                        &&& self.mid matches MidState::Read(read, id) && (match opt {
                            Some((rec, date)) => private_reply_present(response)
                                && from_item_spec(get_conflict_item(response), read@) == Some(
                                rec@,
                            ) && codec::header_id(rec@.header) == id@,
                            None => !(private_reply_present(response) && (from_item_spec(
                                get_conflict_item(response),
                                read@,
                            ) matches Some(rec2) && codec::header_id(rec2.header) == id@)),
                        })
                        &&& entries_view(final(cache).entries@) == entries_view(
                            old(cache).entries@,
                        )
                    },
                    Processed::Update(ok) => self.mid is Update && (ok <==> response is Empty)
                        && entries_view(final(cache).entries@) == entries_view(
                        old(cache).entries@,
                    ),
                    Processed::Delete(ok) => self.mid is Delete && (ok <==> response is Empty)
                        && entries_view(final(cache).entries@) == entries_view(
                        old(cache).entries@,
                    ),
                    Processed::Share => self.mid is Share && response is Empty && entries_view(
                        final(cache).entries@,
                    ) == entries_view(old(cache).entries@),
                    Processed::Receive(results) => {
                        &&& self.mid is Receive
                        &&& self.inner.mid matches requests::MidState::Secret(ms)
                        &&& (response matches Response::ReadDM(blobs) && ({
                            let sel = receive_results(
                                requests::dm_results(
                                    crate::orange_name::secret_of(ms),
                                    requests::blobs_view(blobs@),
                                ),
                            );
                            results@.len() == sel.len() && forall|i: int|
                                0 <= i < sel.len() ==> (#[trigger] results@[i]).0@ == sel[i].0
                                    && results@[i].1@ == seq![crate::max_id()].push(
                                    codec::header_id(sel[i].1),
                                )
                        }))
                        // Each accepted header was filed under its synthetic
                        // path.
                        &&& forall|i: int|
                            0 <= i < results@.len() ==> crate::cache::has_path(
                                entries_view(final(cache).entries@),
                                (#[trigger] results@[i]).1@,
                            )
                    },
                },
                Err(e) => e is MaliciousResponse || e is CriticalOrange,
            },
    {
        let ghost resp0 = response;
        let processed = self.inner.process_response(resolver, response)?;
        match (&self.mid, processed) {
            (MidState::Discover(read_opt, ph, parent, ix, protocols), requests::Processed::PrivateItem(
                item_opt,
            )) => {
                let (item, date) = match item_opt {
                    Some(p) => p,
                    None => {
                        return Ok(Processed::Discover(None));
                    },
                };
                let read = match read_opt {
                    Some(w) => w,
                    None => {
                        return Ok(Processed::Discover(None));
                    },
                };
                proof {
                    match &self.inner.mid {
                        requests::MidState::Key(_) => {
                            assert(from_item_spec(get_conflict_item(resp0), read@)
                                == from_item_spec(item, read@));
                        },
                        _ => {},
                    }
                }
                match accept_discovered(cache, read, ph, parent, *ix, protocols, &item) {
                    Some(path) => Ok(Processed::Discover(Some((path, date)))),
                    None => Ok(Processed::Discover(None)),
                }
            },
            (MidState::Create(record, path), requests::Processed::PrivateItem(item_opt)) => {
                proof {
                    match item_opt {
                        Some((ref item, _)) => {
                            assert(from_item_spec(
                                get_conflict_item(resp0),
                                record.header@.keys.read,
                            ) == from_item_spec(*item, record.header@.keys.read));
                        },
                        None => {},
                    }
                }
                let out = match item_opt {
                    Some((item, date)) => match Record::from_item(&item, &record.header.keys.read) {
                        Ok(other) => {
                            if record_eq(record, &other) {
                                None
                            } else {
                                Some((Ok(other), date))
                            }
                        },
                        Err(e) => Some((Err(e), date)),
                    },
                    None => None,
                };
                proof {
                    assert(entries_view(final(cache).entries@) == entries_view(
                        old(cache).entries@,
                    ));
                }
                Ok(Processed::Create(path.clone(), out))
            },
            (MidState::Read(read, id), requests::Processed::PrivateItem(item_opt)) => {
                proof {
                    match item_opt {
                        Some((ref item, _)) => {
                            assert(from_item_spec(get_conflict_item(resp0), read@)
                                == from_item_spec(*item, read@));
                        },
                        None => {},
                    }
                }
                let out = match item_opt {
                    Some((item, date)) => match Record::from_item(&item, read) {
                        Ok(rec) => {
                            if rec.header.id().equals(id) {
                                Some((rec, date))
                            } else {
                                None
                            }
                        },
                        Err(_) => None,
                    },
                    None => None,
                };
                Ok(Processed::Read(out))
            },
            (MidState::Update, requests::Processed::Empty) => Ok(Processed::Update(true)),
            (MidState::Update, requests::Processed::DeleteKey(_)) => Ok(Processed::Update(false)),
            (MidState::Delete, requests::Processed::Empty) => Ok(Processed::Delete(true)),
            (MidState::Delete, requests::Processed::DeleteKey(_)) => Ok(Processed::Delete(false)),
            (MidState::Share, requests::Processed::Empty) => Ok(Processed::Share),
            (MidState::Receive, requests::Processed::ReadDM(sent)) => {
                proof {
                    assert(dm_pairs_view(sent@).skip(0) =~= dm_pairs_view(sent@));
                    match &self.inner.mid {
                        requests::MidState::Secret(ms) => match resp0 {
                            Response::ReadDM(blobs) => {
                                assert(dm_pairs_view(sent@) =~= requests::dm_results(
                                    crate::orange_name::secret_of(*ms),
                                    requests::blobs_view(blobs@),
                                ));
                            },
                            _ => {},
                        },
                        _ => {},
                    }
                }
                let results = receive_headers(cache, &sent, 0);
                Ok(Processed::Receive(results))
            },
            (_, _) => Err(Error::MaliciousResponse(String::from_str("Unexpected"))),
        }
    }
}

/// The conflicting private item a response carries, if any; what the
/// client-side checks speak about.
pub open spec fn get_conflict_item(response: Response) -> PrivateItem {
    match response {
        Response::PrivateConflict(s, _) => s.item,
        Response::ReadPrivate(o) => match o {
            Some((s, _)) => s.item,
            None => vstd::pervasive::arbitrary(),
        },
        _ => vstd::pervasive::arbitrary(),
    }
}

/// Open a discovered item and judge it: decrypt and decode the record,
/// hold it to the parent's schema, resolve a pointer to its embedded
/// target or a known protocol to its regenerated header, and cache the
/// accepted header; `Some` carries the path it was filed under.
fn accept_discovered(
    cache: &mut Cache,
    read: &WSecretKey,
    ph: &Header,
    parent: &RecordPath,
    ix: u32,
    protocols: &Vec<Protocol>,
    item: &PrivateItem,
) -> (r: Option<RecordPath>)
    ensures
        final(cache).root.path@ == old(cache).root.path@,
        final(cache).root.key@ == old(cache).root.key@,
        match r {
            Some(path) => from_item_spec(*item, read@) matches Some(rec) && valid_child(
                ph@,
                rec.header,
            ) && (exists|ah: crate::records::HeaderV|
                #[trigger] discover_accepted_header(ph@, rec, ah) && path@ == parent@.push(
                    codec::header_id(ah),
                ) && entries_view(final(cache).entries@) == crate::cache::upsert(
                    crate::cache::cache_rewrite(
                        entries_view(old(cache).entries@),
                        crate::cache::cache_join(
                            entries_view(old(cache).entries@),
                            ah,
                            codec::header_id(ah),
                        ),
                        codec::header_id(ah),
                    ),
                    parent@.push(codec::header_id(ah)),
                    crate::cache::cache_join(
                        entries_view(old(cache).entries@),
                        ah,
                        codec::header_id(ah),
                    ),
                )),
            None => entries_view(final(cache).entries@) == entries_view(old(cache).entries@)
                && !({
                &&& from_item_spec(*item, read@) matches Some(rec)
                &&& valid_child(ph@, rec.header)
                &&& (rec.header.protocol == crate::max_id() ==> pointer_target_ok(ph@, rec))
            }),
        },
{
    let rec = match Record::from_item(item, read) {
        Ok(rec) => rec,
        Err(_) => {
            return None;
        },
    };
    if ph.validate_child(&rec.header).is_err() {
        return None;
    }
    let accepted: Header = if rec.header.protocol.is_max() {
        let inner_h = match codec::decode_header(&rec.header.data) {
            Some(h) => h,
            None => {
                return None;
            },
        };
        if ph.validate_child(&inner_h).is_err() {
            return None;
        }
        if inner_h.protocol.is_max() {
            return None;
        }
        inner_h
    } else {
        let mut regenerated: Option<Header> = None;
        let mut i: usize = 0;
        while i < protocols.len()
            invariant
                i <= protocols@.len(),
                cache.root.path@ == old(cache).root.path@,
                cache.root.key@ == old(cache).root.key@,
                entries_view(cache.entries@) == entries_view(old(cache).entries@),
                regenerated matches Some(h) ==> codec::header_id(h@) == codec::header_id(
                    rec@.header,
                ),
            decreases protocols@.len() - i,
        {
            if protocols[i].id().equals(&rec.header.protocol) && ix <= u32::MAX - 255 {
                match cache.header(parent, &protocols[i], ix) {
                    Ok(my_header) => {
                        if my_header.id().equals(&rec.header.id()) {
                            regenerated = Some(my_header);
                        }
                    },
                    Err(_) => {},
                }
            }
            i = i + 1;
        }
        match regenerated {
            Some(h) => h,
            None => rec.header,
        }
    };
    let id = accepted.id();
    let ghost ahv = accepted@;
    proof {
        assert(discover_accepted_header(ph@, rec@, ahv));
    }
    cache.cache(parent.clone(), accepted);
    Some(parent.join(id))
}

/// What one received blob yields: a header that decodes with nothing
/// left over and passes its own schema.
pub open spec fn received_header(payload: Seq<u8>) -> Option<crate::records::HeaderV> {
    match codec::dec_header(payload) {
        Some((h, rest)) => if rest.len() == 0 && validation_ok(h.validation, h.keys) {
            Some(h)
        } else {
            None
        },
        None => None,
    }
}

/// The senders and headers of the accepted blobs, in order, over pairs
/// of sender name and decrypted payload.
pub open spec fn receive_results(sent: Seq<(Seq<u8>, Seq<u8>)>) -> Seq<
    (Seq<u8>, crate::records::HeaderV),
>
    decreases sent.len(),
{
    if sent.len() == 0 {
        Seq::empty()
    } else {
        let rest = receive_results(sent.drop_first());
        match received_header(sent[0].1) {
            Some(h) => seq![(sent[0].0, h)] + rest,
            None => rest,
        }
    }
}

/// The model of a list of sender and payload pairs.
pub open spec fn dm_pairs_view(v: Seq<(OrangeName, Vec<u8>)>) -> Seq<(Seq<u8>, Seq<u8>)> {
    v.map_values(|p: (OrangeName, Vec<u8>)| (p.0@, p.1@))
}

/// Decode, validate and cache each received header under the synthetic
/// pointer path, returning the sender and path of each accepted one; see
/// [`receive_results`].
fn receive_headers(cache: &mut Cache, sent: &Vec<(OrangeName, Vec<u8>)>, i: usize) -> (r: Vec<
    (OrangeName, RecordPath),
>)
    requires
        i <= sent@.len(),
    ensures
        final(cache).root.path@ == old(cache).root.path@,
        final(cache).root.key@ == old(cache).root.key@,
        ({
            let sel = receive_results(dm_pairs_view(sent@).skip(i as int));
            r@.len() == sel.len() && forall|j: int|
                0 <= j < sel.len() ==> (#[trigger] r@[j]).0@ == sel[j].0 && r@[j].1@ == seq![
                    crate::max_id(),
                ].push(codec::header_id(sel[j].1))
        }),
        forall|q: Seq<Seq<u8>>|
            crate::cache::has_path(entries_view(old(cache).entries@), q)
                ==> #[trigger] crate::cache::has_path(entries_view(final(cache).entries@), q),
        forall|j: int|
            0 <= j < r@.len() ==> crate::cache::has_path(
                entries_view(final(cache).entries@),
                (#[trigger] r@[j]).1@,
            ),
    decreases sent@.len() - i,
{
    if i == sent.len() {
        Vec::new()
    } else {
        proof {
            assert(dm_pairs_view(sent@).skip(i as int).drop_first() =~= dm_pairs_view(
                sent@,
            ).skip(i + 1));
            assert(dm_pairs_view(sent@).skip(i as int)[0] == dm_pairs_view(sent@)[i as int]);
        }
        let (name, payload) = &sent[i];
        let accepted: Option<(OrangeName, RecordPath)> = match codec::decode_header(payload) {
            Some(header) => {
                match header.validate() {
                    Ok(_) => {
                        let id = header.id();
                        let mut parent = RecordPath::root();
                        parent.0.push(Id::id_max());
                        proof {
                            assert(parent@ =~= seq![crate::max_id()]);
                        }
                        let path = parent.join(id);
                        let ghost es0 = entries_view(cache.entries@);
                        let ghost hv = header@;
                        let ghost parent_v = parent@;
                        cache.cache(parent, header);
                        proof {
                            assert forall|q: Seq<Seq<u8>>|
                                crate::cache::has_path(es0, q) implies #[trigger] crate::cache::has_path(
                                entries_view(cache.entries@),
                                q,
                            ) by {
                                crate::cache::lemma_cache_insert_has(
                                    es0,
                                    hv,
                                    codec::header_id(hv),
                                    parent_v,
                                    q,
                                );
                            }
                            crate::cache::lemma_cache_insert_has(
                                es0,
                                hv,
                                codec::header_id(hv),
                                parent_v,
                                parent_v,
                            );
                            assert(crate::cache::has_path(
                                entries_view(cache.entries@),
                                parent_v.push(codec::header_id(hv)),
                            ));
                        }
                        Some((name.clone(), path))
                    },
                    Err(_) => None,
                }
            },
            None => None,
        };
        let mut rest = receive_headers(cache, sent, i + 1);
        match accepted {
            Some(pair) => {
                let ghost e = pair;
                let ghost r0 = rest@;
                rest.insert(0, pair);
                proof {
                    codec::lemma_insert_front(r0, e, rest@);
                }
                rest
            },
            None => rest,
        }
    }
}

} // verus!
