//! The request-level client: one typed request paired with the state
//! needed to judge the response on its own, so a lying server is caught.

use vstd::prelude::*;

use crate::Id;
use crate::codec;
use crate::crypto;
use crate::orange_name::{OrangeName, OrangeResolver, OrangeSecret};
use crate::records::{Error, WSecretKey};
use crate::storage::{
    Filter, PrivateItem, PublicItem, Request, Response, filter_matches, filter_view,
    opt_bytes_view, spi_ok, spub_ok,
};

verus! {

/// What the client keeps beside the request to validate the response.
#[derive(Debug)]
pub enum MidState {
    Secret(OrangeSecret),
    Filter(Filter),
    Key(Vec<u8>),
    Empty,
}

/// A validated response, reduced to its meaning for the caller.
#[derive(Debug)]
pub enum Processed {
    CreatePublic(Id),
    PrivateItem(Option<(PrivateItem, i64)>),
    ReadPublic(Vec<(Id, OrangeName, PublicItem, i64)>),
    DeleteKey(Option<Vec<u8>>),
    ReadDM(Vec<(OrangeName, Vec<u8>)>),
    Empty,
}

/// What one direct-message blob yields for the holder of the
/// communication secret: decrypt, split into sender, signature and
/// payload, and keep it only when the signature verifies.
pub open spec fn dm_accept(sk: Seq<u8>, blob: Seq<u8>) -> Option<(Seq<u8>, Seq<u8>)> {
    match crypto::decrypt_of(sk, blob) {
        Some(bytes) => match codec::dec_triple(bytes) {
            Some((n, sg, p)) => if crypto::verify_of(
                n,
                sg,
                crate::orange_name::signed_msg(p),
            ) {
                Some((n, p))
            } else {
                None
            },
            None => None,
        },
        None => None,
    }
}

/// The accepted direct messages among a list of blobs, in order.
pub open spec fn dm_results(sk: Seq<u8>, blobs: Seq<Seq<u8>>) -> Seq<(Seq<u8>, Seq<u8>)>
    decreases blobs.len(),
{
    if blobs.len() == 0 {
        Seq::empty()
    } else {
        let rest = dm_results(sk, blobs.drop_first());
        match dm_accept(sk, blobs[0]) {
            Some(p) => seq![p] + rest,
            None => rest,
        }
    }
}

/// The model of a response's blob list.
pub open spec fn blobs_view(v: Seq<Vec<u8>>) -> Seq<Seq<u8>> {
    v.map_values(|b: Vec<u8>| b@)
}

/// A returned private item is consistent with the requested discover key:
/// it verifies, its signer and inner discover are that key, and the plain
/// item is the signed one.
pub open spec fn private_reply_ok(
    k: Seq<u8>,
    s: crate::storage::SignedPrivateItem,
    item: PrivateItem,
) -> bool {
    &&& spi_ok(s)
    &&& s.signer@ == k
    &&& s.item.discover@ == k
    &&& item.discover@ == s.item.discover@
    &&& opt_bytes_view(item.delete) == opt_bytes_view(s.item.delete)
    &&& item.payload@ == s.item.payload@
}

/// Every returned public row from `from` on verifies and matches the
/// filter.
pub open spec fn public_reply_ok(
    f: crate::storage::FilterV,
    items: Seq<(Id, crate::storage::SignedPublicItem, i64)>,
    from: int,
) -> bool {
    forall|j: int|
        from <= j < items.len() ==> spub_ok(#[trigger] items[j].1) && filter_matches(
            f,
            items[j].0@,
            items[j].1.signer@,
            items[j].1.item.protocol@,
            items[j].2,
        )
}

/// Whether a response answers the request and passes every client-side
/// check: a conflict or returned row must verify with the requested
/// discover key as both signer and inner discover, a delete refusal must
/// name a key other than our own, public rows must verify and match the
/// filter, and the reply shape must fit the request.
pub open spec fn response_accepted(req: Request, mid: MidState, resp: Response) -> bool {
    match (req, mid, resp) {
        (Request::CreatePrivate(_), MidState::Key(k), Response::PrivateConflict(s, _)) => s.signer@
            == k@ && spi_ok(s) && s.item.discover@ == k@,
        (Request::CreatePrivate(_), MidState::Key(_), Response::Empty) => true,
        (Request::ReadPrivate(_), MidState::Key(k), Response::ReadPrivate(o)) => match o {
            Some((s, _)) => s.signer@ == k@ && spi_ok(s) && s.item.discover@ == k@,
            None => true,
        },
        (Request::UpdatePrivate(_), MidState::Key(_), Response::Empty) => true,
        (Request::DeletePrivate(_), MidState::Key(_), Response::Empty) => true,
        (Request::UpdatePrivate(_), MidState::Key(mk), Response::InvalidDelete(k2)) => opt_bytes_view(
            k2,
        ) != Some(mk@),
        (Request::DeletePrivate(_), MidState::Key(mk), Response::InvalidDelete(k2)) => opt_bytes_view(
            k2,
        ) != Some(mk@),
        (Request::CreateDM(_, _), MidState::Empty, Response::Empty) => true,
        (Request::UpdatePublic(_), MidState::Empty, Response::Empty) => true,
        (Request::DeletePublic(_), MidState::Empty, Response::Empty) => true,
        (Request::CreatePublic(_), MidState::Empty, Response::CreatedPublic(_)) => true,
        (Request::ReadDM(_), MidState::Secret(_), Response::ReadDM(_)) => true,
        (Request::ReadPublic(_), MidState::Filter(f), Response::ReadPublic(items)) => public_reply_ok(
            filter_view(f),
            items@,
            0,
        ),
        _ => false,
    }
}

/// A single-shot client at the request level.
#[derive(Debug)]
pub struct Client {
    pub request: Request,
    pub mid: MidState,
}

impl Client {
    /// Create a private row; remember the discover key to check a
    /// conflict reply against.
    pub fn create_private(sec_discover: &WSecretKey, delete: Option<Vec<u8>>, payload: Vec<u8>)
        -> (r: Result<Client, crypto::CryptoError>)
        requires
            sec_discover@.wf(),
        ensures
            r is Ok,
            r matches Ok(c) ==> (c.request matches Request::CreatePrivate(s) && spi_ok(s)
                && s.signer@ == sec_discover@.public && s.item.discover@ == sec_discover@.public
                && opt_bytes_view(s.item.delete) == opt_bytes_view(delete) && s.item.payload@
                == payload@) && (c.mid matches MidState::Key(k) && k@ == sec_discover@.public),
    {
        let request = Request::create_private(sec_discover, delete, payload)?;
        Ok(Client { request, mid: MidState::Key(sec_discover.public.clone()) })
    }

    /// Read a private row; remember the discover key.
    pub fn read_private(sec_discover: &WSecretKey) -> (r: Result<Client, crypto::CryptoError>)
        requires
            sec_discover@.wf(),
        ensures
            r is Ok,
            r matches Ok(c) ==> (c.request matches Request::ReadPrivate(s) && crate::storage::sr_ok(
                s,
            ) && s.signer@ == sec_discover@.public) && (c.mid matches MidState::Key(k) && k@
                == sec_discover@.public),
    {
        let request = Request::read_private(sec_discover)?;
        Ok(Client { request, mid: MidState::Key(sec_discover.public.clone()) })
    }

    /// Replace a private row; remember the delete key an `InvalidDelete`
    /// refusal must differ from.
    pub fn update_private(discover: &WSecretKey, delete: &WSecretKey, payload: Vec<u8>) -> (r:
        Result<Client, crypto::CryptoError>)
        requires
            discover@.wf(),
            delete@.wf(),
        ensures
            r is Ok,
            r matches Ok(c) ==> (c.request matches Request::UpdatePrivate(s) && crate::storage::su_ok(
                s,
            ) && spi_ok(s.inner) && s.signer@ == delete@.public && s.inner.signer@
                == discover@.public && s.inner.item.discover@ == discover@.public && (
            s.inner.item.delete matches Some(d) && d@ == delete@.public) && s.inner.item.payload@
                == payload@) && (c.mid matches MidState::Key(k) && k@ == delete@.public),
    {
        let request = Request::update_private(discover, delete, payload)?;
        Ok(Client { request, mid: MidState::Key(delete.public.clone()) })
    }

    /// Remove a private row; remember the delete key.
    pub fn delete_private(discover: Vec<u8>, delete: &WSecretKey) -> (r: Result<
        Client,
        crypto::CryptoError,
    >)
        requires
            delete@.wf(),
        ensures
            r is Ok,
            r matches Ok(c) ==> (c.request matches Request::DeletePrivate(s)
                && crate::storage::sd_ok(s) && s.signer@ == delete@.public && s.discover@
                == discover@) && (c.mid matches MidState::Key(k) && k@ == delete@.public),
    {
        let request = Request::delete_private(discover, delete)?;
        Ok(Client { request, mid: MidState::Key(delete.public.clone()) })
    }

    /// Send a direct message; the holder of the secret behind the
    /// recipient's name recovers the sender, a verifying signature, and
    /// the payload.
    pub fn create_dm(
        resolver: &mut OrangeResolver,
        secret: &OrangeSecret,
        recipient: OrangeName,
        payload: Vec<u8>,
    ) -> (r: Result<Client, crate::orange_name::Error>)
        requires
            crate::orange_name::secret_wf(*secret),
        ensures
            r is Err ==> !(exists|sk: Seq<u8>| #[trigger] crypto::public_of(sk) == Some(
                recipient@,
            )),
            r matches Ok(c) ==> (c.request matches Request::CreateDM(n, ct) && n@ == recipient@
                && (exists|sig: Seq<u8>|
                #[trigger] crypto::verify_of(
                    crate::orange_name::name_of(*secret),
                    sig,
                    crate::orange_name::signed_msg(payload@),
                ) && forall|sk: Seq<u8>|
                    crypto::public_of(sk) == Some(recipient@)
                        ==> #[trigger] crypto::decrypt_of(sk, ct@) == Some(
                        codec::enc_triple(crate::orange_name::name_of(*secret), sig, payload@),
                    ))) && c.mid is Empty,
    {
        let request = Request::create_dm(resolver, secret, recipient, payload)?;
        Ok(Client { request, mid: MidState::Empty })
    }

    /// Ask for direct messages since a timestamp; remember the secret that
    /// decrypts them.
    pub fn read_dm(resolver: &mut OrangeResolver, secret: &OrangeSecret, time: i64, since: i64)
        -> (r: Result<Client, crate::orange_name::Error>)
        requires
            crate::orange_name::secret_wf(*secret),
        ensures
            r is Ok,
            r matches Ok(c) ==> (c.request matches Request::ReadDM(s) && crate::storage::stimes_ok(
                s,
            ) && s.signer@ == crate::orange_name::name_of(*secret) && s.time == time && s.since
                == since) && (c.mid matches MidState::Secret(ms) && crate::orange_name::secret_of(
                ms,
            ) == crate::orange_name::secret_of(*secret) && crate::orange_name::name_of(ms)
                == crate::orange_name::name_of(*secret)),
    {
        let request = Request::read_dm(resolver, secret, time, since)?;
        Ok(Client { request, mid: MidState::Secret(secret.clone()) })
    }

    /// Publish a public item.
    pub fn create_public(resolver: &mut OrangeResolver, secret: &OrangeSecret, item: PublicItem)
        -> (r: Result<Client, crate::orange_name::Error>)
        requires
            crate::orange_name::secret_wf(*secret),
        ensures
            r is Ok,
            r matches Ok(c) ==> (c.request matches Request::CreatePublic(s) && spub_ok(s)
                && s.signer@ == crate::orange_name::name_of(*secret)) && c.mid is Empty,
    {
        let request = Request::create_public(resolver, secret, item)?;
        Ok(Client { request, mid: MidState::Empty })
    }

    /// Query public rows; remember the filter to re-check the reply.
    pub fn read_public(filter: Filter) -> (r: Client)
        ensures
            r.request matches Request::ReadPublic(f) && filter_view(f) == filter_view(filter),
            r.mid matches MidState::Filter(f2) && filter_view(f2) == filter_view(filter),
    {
        let f2 = filter.clone();
        Client { request: Request::read_public(filter), mid: MidState::Filter(f2) }
    }

    /// Replace a public row.
    pub fn update_public(
        resolver: &mut OrangeResolver,
        secret: &OrangeSecret,
        id: Id,
        item: PublicItem,
    ) -> (r: Result<Client, crate::orange_name::Error>)
        requires
            crate::orange_name::secret_wf(*secret),
        ensures
            r is Ok,
            r matches Ok(c) ==> (c.request matches Request::UpdatePublic(s)
                && crate::storage::supd_ok(s) && spub_ok(s.inner) && s.signer@
                == crate::orange_name::name_of(*secret) && s.id@ == id@) && c.mid is Empty,
    {
        let request = Request::update_public(resolver, secret, id, item)?;
        Ok(Client { request, mid: MidState::Empty })
    }

    /// Remove a public row.
    pub fn delete_public(resolver: &mut OrangeResolver, secret: &OrangeSecret, id: Id) -> (r:
        Result<Client, crate::orange_name::Error>)
        requires
            crate::orange_name::secret_wf(*secret),
        ensures
            r is Ok,
            r matches Ok(c) ==> (c.request matches Request::DeletePublic(s)
                && crate::storage::sid_ok(s) && s.signer@ == crate::orange_name::name_of(*secret)
                && s.id@ == id@) && c.mid is Empty,
    {
        let request = Request::delete_public(resolver, secret, id)?;
        Ok(Client { request, mid: MidState::Empty })
    }

    /// Hand the typed request to the transport layer.
    pub fn build_request(&self) -> (r: &Request)
        ensures
            r == &self.request,
    {
        &self.request
    }

    /// Judge a response against the request and the remembered state.  A
    /// private item or conflict is accepted only when it verifies, its
    /// signer is the requested discover key and the inner discover
    /// matches; an `InvalidDelete` naming the caller's own delete key, and
    /// any shape that does not answer the request, is malicious.
    pub fn process_response(&self, resolver: &mut OrangeResolver, response: Response) -> (r:
        Result<Processed, Error>)
        ensures
            r is Ok <==> response_accepted(self.request, self.mid, response),
            match r {
                Ok(p) => match p {
                    Processed::PrivateItem(Some((item, t))) => {
                        &&& self.mid matches MidState::Key(k)
                        &&& ({
                            ||| (self.request is CreatePrivate && (response matches
                            Response::PrivateConflict(s, t2) && t == t2 && private_reply_ok(
                                k@,
                                s,
                                item,
                            )))
                            ||| (self.request is ReadPrivate && (response matches
                            Response::ReadPrivate(o) && o matches Some((s2, t3)) && t == t3
                                && private_reply_ok(k@, s2, item)))
                        })
                    },
                    Processed::PrivateItem(None) => (self.request is CreatePrivate
                        && response is Empty) || (self.request is ReadPrivate && (
                    response matches Response::ReadPrivate(o) && o is None)),
                    Processed::DeleteKey(k) => {
                        &&& (self.request is UpdatePrivate || self.request is DeletePrivate)
                        &&& self.mid matches MidState::Key(mk)
                        &&& (response matches Response::InvalidDelete(k2) && opt_bytes_view(k)
                            == opt_bytes_view(k2) && opt_bytes_view(k) != Some(mk@))
                    },
                    Processed::Empty => response is Empty && (self.request is CreateDM
                        || self.request is UpdatePublic || self.request is DeletePublic
                        || self.request is UpdatePrivate || self.request is DeletePrivate),
                    Processed::CreatePublic(id) => self.request is CreatePublic && (
                    response matches Response::CreatedPublic(id2) && id@ == id2@),
                    Processed::ReadDM(results) => {
                        &&& self.request is ReadDM
                        &&& self.mid matches MidState::Secret(ms)
                        &&& response matches Response::ReadDM(blobs) && ({
                            let sel = dm_results(
                                crate::orange_name::secret_of(ms),
                                blobs_view(blobs@),
                            );
                            results@.len() == sel.len() && forall|i: int|
                                0 <= i < sel.len() ==> (#[trigger] results@[i]).0@ == sel[i].0
                                    && results@[i].1@ == sel[i].1
                        })
                    },
                    Processed::ReadPublic(out) => {
                        &&& self.request is ReadPublic
                        &&& self.mid matches MidState::Filter(f)
                        &&& response matches Response::ReadPublic(items) && out@.len()
                            == items@.len() && forall|i: int|
                            0 <= i < items@.len() ==> spub_ok(#[trigger] items@[i].1)
                                && filter_matches(
                                filter_view(f),
                                items@[i].0@,
                                items@[i].1.signer@,
                                items@[i].1.item.protocol@,
                                items@[i].2,
                            ) && out@[i].0@ == items@[i].0@ && out@[i].1@ == items@[i].1.signer@
                                && out@[i].2.protocol@ == items@[i].1.item.protocol@
                                && out@[i].2.header@ == items@[i].1.item.header@
                                && out@[i].2.payload@ == items@[i].1.item.payload@ && out@[i].3
                                == items@[i].2
                    },
                },
                Err(e) => e is MaliciousResponse,
            },
    {
        match (&self.request, &self.mid, response) {
            (Request::CreatePrivate(_), MidState::Key(key), Response::PrivateConflict(s, t)) => {
                let signer_ok = s.signer == *key;
                proof {
                    if signer_ok {
                        assert(s.signer@ =~= key@);
                    }
                }
                let inner_ok = s.item.discover == *key;
                proof {
                    if inner_ok {
                        assert(s.item.discover@ =~= key@);
                    }
                }
                if signer_ok && s.verify().is_some() && inner_ok {
                    Ok(Processed::PrivateItem(Some((s.item, t))))
                } else {
                    Err(Error::MaliciousResponse(String::from_str("PrivateConflict")))
                }
            },
            (Request::ReadPrivate(_), MidState::Key(key), Response::ReadPrivate(Some((s, t)))) => {
                let signer_ok = s.signer == *key;
                proof {
                    if signer_ok {
                        assert(s.signer@ =~= key@);
                    }
                }
                let inner_ok = s.item.discover == *key;
                proof {
                    if inner_ok {
                        assert(s.item.discover@ =~= key@);
                    }
                }
                if signer_ok && s.verify().is_some() && inner_ok {
                    Ok(Processed::PrivateItem(Some((s.item, t))))
                } else {
                    Err(Error::MaliciousResponse(String::from_str("ReadPrivate")))
                }
            },
            (Request::CreatePrivate(_), MidState::Key(_), Response::Empty) => Ok(
                Processed::PrivateItem(None),
            ),
            (Request::ReadPrivate(_), MidState::Key(_), Response::ReadPrivate(None)) => Ok(
                Processed::PrivateItem(None),
            ),
            (Request::UpdatePrivate(_), MidState::Key(_), Response::Empty) => Ok(
                Processed::Empty,
            ),
            (Request::DeletePrivate(_), MidState::Key(_), Response::Empty) => Ok(
                Processed::Empty,
            ),
            (Request::UpdatePrivate(_), MidState::Key(mkey), Response::InvalidDelete(k)) => {
                let own = match &k {
                    Some(kk) => {
                        let eq = *kk == *mkey;
                        proof {
                            if eq {
                                assert(kk@ =~= mkey@);
                            }
                        }
                        eq
                    },
                    None => false,
                };
                if own {
                    Err(Error::MaliciousResponse(String::from_str("InvalidDelete")))
                } else {
                    Ok(Processed::DeleteKey(k))
                }
            },
            (Request::DeletePrivate(_), MidState::Key(mkey), Response::InvalidDelete(k)) => {
                let own = match &k {
                    Some(kk) => {
                        let eq = *kk == *mkey;
                        proof {
                            if eq {
                                assert(kk@ =~= mkey@);
                            }
                        }
                        eq
                    },
                    None => false,
                };
                if own {
                    Err(Error::MaliciousResponse(String::from_str("InvalidDelete")))
                } else {
                    Ok(Processed::DeleteKey(k))
                }
            },
            (Request::CreateDM(_, _), MidState::Empty, Response::Empty) => Ok(Processed::Empty),
            (Request::UpdatePublic(_), MidState::Empty, Response::Empty) => Ok(Processed::Empty),
            (Request::DeletePublic(_), MidState::Empty, Response::Empty) => Ok(Processed::Empty),
            (Request::CreatePublic(_), MidState::Empty, Response::CreatedPublic(id)) => Ok(
                Processed::CreatePublic(id),
            ),
            (Request::ReadDM(_), MidState::Secret(secret), Response::ReadDM(blobs)) => {
                let mut keys = match resolver.secret_keys(secret, Some("easy_access_com"), None) {
                    Ok(v) => v,
                    Err(_) => {
                        proof {
                            assert(false);
                        }
                        return Err(Error::MaliciousResponse(String::from_str("MissingComKey")));
                    },
                };
                if keys.len() == 0 {
                    proof {
                        assert(false);
                    }
                    return Err(Error::MaliciousResponse(String::from_str("MissingComKey")));
                }
                let (_, com) = keys.remove(0);
                proof {
                    assert(blobs_view(blobs@).skip(0) =~= blobs_view(blobs@));
                }
                let results = process_dms(resolver, &com, &blobs, 0);
                Ok(Processed::ReadDM(results))
            },
            (Request::ReadPublic(_), MidState::Filter(filter), Response::ReadPublic(items)) => {
                let out = process_public(resolver, filter, &items, 0)?;
                Ok(Processed::ReadPublic(out))
            },
            (_, _, resp) => Err(Error::MaliciousResponse(String::from_str("Unexpected"))),
        }
    }
}

/// Decrypt, parse and verify each blob from `i` on, dropping failures;
/// see [`dm_results`].
fn process_dms(
    resolver: &mut OrangeResolver,
    com: &WSecretKey,
    blobs: &Vec<Vec<u8>>,
    i: usize,
) -> (r: Vec<(OrangeName, Vec<u8>)>)
    requires
        i <= blobs@.len(),
    ensures
        ({
            let sel = dm_results(com@.secret, blobs_view(blobs@).skip(i as int));
            r@.len() == sel.len() && forall|j: int|
                0 <= j < sel.len() ==> (#[trigger] r@[j]).0@ == sel[j].0 && r@[j].1@ == sel[j].1
        }),
    decreases blobs@.len() - i,
{
    if i == blobs.len() {
        Vec::new()
    } else {
        proof {
            assert(blobs_view(blobs@).skip(i as int).drop_first() =~= blobs_view(blobs@).skip(
                i + 1,
            ));
            assert(blobs_view(blobs@).skip(i as int)[0] == blobs@[i as int]@);
        }
        let accepted: Option<(OrangeName, Vec<u8>)> = match crypto::ecies_decrypt(
            &com.secret,
            &blobs[i],
        ) {
            Ok(bytes) => match codec::decode_triple(&bytes) {
                Some((n, sg, p)) => {
                    let signed = crate::orange_name::Signed {
                        signer: OrangeName(n),
                        signature: crate::orange_name::OrangeSignature::Temporary(sg),
                        payload: p,
                    };
                    match signed.verify(resolver, None) {
                        Ok(name) => Some((name, signed.payload)),
                        Err(_) => None,
                    }
                },
                None => None,
            },
            Err(_) => None,
        };
        let mut rest = process_dms(resolver, com, blobs, i + 1);
        match accepted {
            Some(pair) => {
                let ghost e = pair;
                let ghost r0 = rest@;
                rest.insert(0, pair);
                proof {
                    codec::lemma_insert_front(r0, e, rest@);
                }
                rest
            },
            None => rest,
        }
    }
}

/// Verify and re-filter each returned public row from `i` on; any failure
/// makes the whole response malicious.
#[verifier::rlimit(60)]
#[verifier::spinoff_prover]
fn process_public(
    resolver: &mut OrangeResolver,
    filter: &Filter,
    items: &Vec<(Id, crate::storage::SignedPublicItem, i64)>,
    i: usize,
) -> (r: Result<Vec<(Id, OrangeName, PublicItem, i64)>, Error>)
    requires
        i <= items@.len(),
    ensures
        match r {
            Ok(out) => out@.len() == items@.len() - i && forall|j: int|
                i <= j < items@.len() ==> spub_ok(#[trigger] items@[j].1) && filter_matches(
                    filter_view(*filter),
                    items@[j].0@,
                    items@[j].1.signer@,
                    items@[j].1.item.protocol@,
                    items@[j].2,
                ) && out@[j - i].0@ == items@[j].0@ && out@[j - i].1@ == items@[j].1.signer@
                    && out@[j - i].2.protocol@ == items@[j].1.item.protocol@ && out@[j - i].2.header@
                    == items@[j].1.item.header@ && out@[j - i].2.payload@
                    == items@[j].1.item.payload@ && out@[j - i].3 == items@[j].2,
            Err(e) => e is MaliciousResponse && !public_reply_ok(
                filter_view(*filter),
                items@,
                i as int,
            ),
        },
    decreases items@.len() - i,
{
    if i == items.len() {
        Ok(Vec::new())
    } else {
        let (id, signed, date) = &items[i];
        let name = match signed.verify(resolver, Some(*date)) {
            Ok(n) => n,
            Err(_) => {
                proof {
                    assert(!spub_ok(items@[i as int].1));
                    assert(!public_reply_ok(filter_view(*filter), items@, i as int));
                }
                return Err(Error::MaliciousResponse(String::from_str("Signature")));
            },
        };
        let entry = match filter.filter((id.clone(), name, signed.item.clone(), *date)) {
            Some(e) => e,
            None => {
                proof {
                    assert(!filter_matches(
                        filter_view(*filter),
                        items@[i as int].0@,
                        items@[i as int].1.signer@,
                        items@[i as int].1.item.protocol@,
                        items@[i as int].2,
                    ));
                    assert(!public_reply_ok(filter_view(*filter), items@, i as int));
                }
                return Err(Error::MaliciousResponse(String::from_str("Filter")));
            },
        };
        let mut rest = match process_public(resolver, filter, items, i + 1) {
            Ok(v) => v,
            Err(e) => {
                proof {
                    assert(!public_reply_ok(filter_view(*filter), items@, i as int));
                }
                return Err(e);
            },
        };
        let ghost e = entry;
        let ghost r0 = rest@;
        rest.insert(0, entry);
        proof {
            codec::lemma_insert_front(r0, e, rest@);
        }
        Ok(rest)
    }
}

} // verus!
