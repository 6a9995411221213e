//! Public-key identities and the resolver that signs and verifies for
//! them.
//!
//! An [`OrangeName`] is a compressed public key; the built-in temporary
//! scheme holds the matching secret directly, so every resolver operation
//! is a plain computation on key material.

use vstd::prelude::*;

use crate::codec;
use crate::crypto;
use crate::records::WSecretKey;

verus! {

/// A resolver failure.
#[derive(Clone, Debug)]
pub enum Error {
    /// An unexpected invariant broke inside the resolver; the caller
    /// should abort and report.
    Critical(String),
    /// The name could not be resolved or the signature not verified; the
    /// caller may retry.
    Resolution(String),
}

impl Error {
    pub fn is_critical(&self) -> (r: bool)
        ensures
            r == (self is Critical),
    {
        matches!(self, Error::Critical(_))
    }
}

/// A public-key identity: the serialized compressed public key.
#[derive(Debug)]
pub struct OrangeName(pub Vec<u8>);

impl View for OrangeName {
    type V = Seq<u8>;

    open spec fn view(&self) -> Seq<u8> {
        self.0@
    }
}

impl Clone for OrangeName {
    fn clone(&self) -> (r: Self)
        ensures
            r@ == self@,
    {
        OrangeName(self.0.clone())
    }
}

impl OrangeName {
    /// Byte-for-byte equality of names.
    pub fn equals(&self, other: &OrangeName) -> (r: bool)
        ensures
            r == (self@ == other@),
    {
        let r = self.0 == other.0;
        proof {
            if r {
                assert(self.0@ =~= other.0@);
            }
        }
        r
    }

    /// The lowercase hexadecimal form of the name's key.
    pub fn to_hex(&self) -> (r: String)
        ensures
            r@ == crypto::hex_of(self@),
    {
        crypto::hex_encode(&self.0)
    }
}

/// A signature made for a name, by whatever scheme the name uses.
#[derive(Debug)]
pub enum OrangeSignature {
    Temporary(Vec<u8>),
}

impl View for OrangeSignature {
    type V = Seq<u8>;

    open spec fn view(&self) -> Seq<u8> {
        match self {
            OrangeSignature::Temporary(s) => s@,
        }
    }
}

impl Clone for OrangeSignature {
    fn clone(&self) -> (r: Self)
        ensures
            r@ == self@,
    {
        match self {
            OrangeSignature::Temporary(s) => OrangeSignature::Temporary(s.clone()),
        }
    }
}

/// The secret behind a name, under the temporary scheme: the keypair held
/// directly.
#[derive(Debug)]
pub enum OrangeSecret {
    Temporary(WSecretKey),
}

/// The name an [`OrangeSecret`] speaks for.
pub open spec fn name_of(s: OrangeSecret) -> Seq<u8> {
    match s {
        OrangeSecret::Temporary(w) => w@.public,
    }
}

/// The secret bytes of an [`OrangeSecret`].
pub open spec fn secret_of(s: OrangeSecret) -> Seq<u8> {
    match s {
        OrangeSecret::Temporary(w) => w@.secret,
    }
}

/// Whether the secret's cached public key is honest.
pub open spec fn secret_wf(s: OrangeSecret) -> bool {
    match s {
        OrangeSecret::Temporary(w) => w@.wf(),
    }
}

impl Clone for OrangeSecret {
    fn clone(&self) -> (r: Self)
        ensures
            name_of(r) == name_of(*self),
            secret_of(r) == secret_of(*self),
    {
        match self {
            OrangeSecret::Temporary(w) => OrangeSecret::Temporary(w.clone()),
        }
    }
}

impl OrangeSecret {
    /// A fresh identity.
    pub fn new() -> (r: OrangeSecret)
        ensures
            secret_wf(r),
    {
        let secret = crypto::gen_secret();
        match WSecretKey::from_secret(secret) {
            Ok(w) => OrangeSecret::Temporary(w),
            Err(_) => {
                proof {
                    assert(false);
                }
                vstd::pervasive::unreached()
            },
        }
    }

    /// The name this secret speaks for.
    pub fn name(&self) -> (r: OrangeName)
        ensures
            r@ == name_of(*self),
    {
        match self {
            OrangeSecret::Temporary(w) => OrangeName(w.public.clone()),
        }
    }
}

/// A name together with the address of a service that speaks for it.
#[derive(Debug)]
pub struct Endpoint(pub OrangeName, pub String);

impl Clone for Endpoint {
    fn clone(&self) -> (r: Self)
        ensures
            r.0@ == self.0@,
            r.1@ == self.1@,
    {
        Endpoint(self.0.clone(), self.1.clone())
    }
}

/// Resolves names to keys and endpoints, signs and verifies.  The
/// temporary scheme needs no lookups, so every operation is total over the
/// key material it is handed.
#[derive(Debug)]
pub struct OrangeResolver;

impl OrangeResolver {
    /// Sign a payload for the secret's name.
    pub fn sign(&mut self, secret: &OrangeSecret, payload: &Vec<u8>) -> (r: Result<
        OrangeSignature,
        Error,
    >)
        requires
            secret_wf(*secret),
        ensures
            r is Ok,
            r matches Ok(sig) ==> crypto::verify_of(name_of(*secret), sig@, payload@),
    {
        match secret {
            OrangeSecret::Temporary(w) => {
                match crypto::schnorr_sign(&w.secret, payload) {
                    Ok(sig) => Ok(OrangeSignature::Temporary(sig)),
                    Err(_) => {
                        proof {
                            assert(false);
                        }
                        Err(Error::Resolution(String::from_str("InvalidKey")))
                    },
                }
            },
        }
    }

    /// Verify a signature for a name; `Ok` exactly when it verifies.
    pub fn verify(
        &mut self,
        name: &OrangeName,
        sig: &OrangeSignature,
        payload: &Vec<u8>,
        when: Option<i64>,
    ) -> (r: Result<(), Error>)
        ensures
            r is Ok <==> crypto::verify_of(name@, sig@, payload@),
            r matches Err(e) ==> e is Resolution,
    {
        let OrangeSignature::Temporary(s) = sig;
        if crypto::schnorr_verify(&name.0, s, payload) {
            Ok(())
        } else {
            Err(Error::Resolution(String::from_str("InvalidSignature")))
        }
    }

    /// The tagged secret keys a holder of `secret` can use; the temporary
    /// scheme offers exactly the communication key.
    pub fn secret_keys(&mut self, secret: &OrangeSecret, tag: Option<&str>, when: Option<i64>) -> (
        r: Result<Vec<(String, WSecretKey)>, Error>)
        ensures
            match r {
                Ok(v) => {
                    if tag matches Some(t) && t@ != "easy_access_com"@ {
                        v@.len() == 0
                    } else {
                        v@.len() == 1 && v@[0].1@.secret == secret_of(*secret) && v@[0].1@.public
                            == name_of(*secret)
                    }
                },
                Err(_) => false,
            },
    {
        match tag {
            Some(t) if !(codec::cmp_names(t, "easy_access_com") == 0) => Ok(Vec::new()),
            _ => {
                let OrangeSecret::Temporary(w) = secret;
                let mut v: Vec<(String, WSecretKey)> = Vec::new();
                v.push((String::from_str("easy_access_com"), w.clone()));
                Ok(v)
            },
        }
    }

    /// The tagged public keys of a name; the temporary scheme offers the
    /// name's own key as the communication key.
    pub fn keys(&mut self, name: &OrangeName, tag: Option<&str>, when: Option<i64>) -> (r: Result<
        Vec<(String, Vec<u8>)>,
        Error,
    >)
        ensures
            match r {
                Ok(v) => {
                    if tag matches Some(t) && t@ != "easy_access_com"@ {
                        v@.len() == 0
                    } else {
                        v@.len() == 1 && v@[0].1@ == name@
                    }
                },
                Err(_) => false,
            },
    {
        match tag {
            Some(t) if !(codec::cmp_names(t, "easy_access_com") == 0) => Ok(Vec::new()),
            _ => {
                let mut v: Vec<(String, Vec<u8>)> = Vec::new();
                v.push((String::from_str("easy_access_com"), name.0.clone()));
                Ok(v)
            },
        }
    }

    /// The tagged endpoints of a name; the temporary scheme knows a single
    /// default directory endpoint.
    pub fn endpoints(&mut self, name: &OrangeName, tag: Option<&str>, when: Option<i64>) -> (r:
        Result<Vec<(String, Endpoint)>, Error>)
        ensures
            match r {
                Ok(v) => {
                    if tag matches Some(t) && t@ != "default"@ {
                        v@.len() == 0
                    } else {
                        v@.len() == 1
                    }
                },
                Err(_) => false,
            },
    {
        match tag {
            Some(t) if !(codec::cmp_names(t, "default") == 0) => Ok(Vec::new()),
            _ => {
                let mut v: Vec<(String, Endpoint)> = Vec::new();
                v.push(
                    (
                        String::from_str("default"),
                        Endpoint(name.clone(), String::from_str("localhost:5702")),
                    ),
                );
                Ok(v)
            },
        }
    }

    /// The first key under a tag, or a resolution error when none exists.
    pub fn key(&mut self, name: &OrangeName, tag: Option<&str>, when: Option<i64>) -> (r: Result<
        Vec<u8>,
        Error,
    >)
        ensures
            match r {
                Ok(k) => !(tag matches Some(t) && t@ != "easy_access_com"@) && k@ == name@,
                Err(e) => e is Resolution && (tag matches Some(t) && t@ != "easy_access_com"@),
            },
    {
        let mut v = self.keys(name, tag, when)?;
        if v.len() == 0 {
            return Err(Error::Resolution(String::from_str("Missing Key")));
        }
        let (_, k) = v.remove(0);
        Ok(k)
    }

    /// The first endpoint under a tag, or a resolution error when none
    /// exists.
    pub fn endpoint(&mut self, name: &OrangeName, tag: Option<&str>, when: Option<i64>) -> (r:
        Result<Endpoint, Error>)
        ensures
            match r {
                Ok(_) => !(tag matches Some(t) && t@ != "default"@),
                Err(e) => e is Resolution && (tag matches Some(t) && t@ != "default"@),
            },
    {
        let mut v = self.endpoints(name, tag, when)?;
        if v.len() == 0 {
            return Err(Error::Resolution(String::from_str("Missing Endpoint")));
        }
        let (_, e) = v.remove(0);
        Ok(e)
    }
}

/// A byte payload signed by a name: what direct messages carry.
#[derive(Debug)]
pub struct Signed {
    pub signer: OrangeName,
    pub signature: OrangeSignature,
    pub payload: Vec<u8>,
}

/// The bytes a [`Signed`]'s signature covers.
pub open spec fn signed_msg(payload: Seq<u8>) -> Seq<u8> {
    codec::enc_bytes(payload)
}

/// Whether a [`Signed`] verifies for its own signer.
pub open spec fn signed_ok(s: Signed) -> bool {
    crypto::verify_of(s.signer@, s.signature@, signed_msg(s.payload@))
}

impl Clone for Signed {
    fn clone(&self) -> (r: Self)
        ensures
            r.signer@ == self.signer@,
            r.signature@ == self.signature@,
            r.payload@ == self.payload@,
    {
        Signed {
            signer: self.signer.clone(),
            signature: self.signature.clone(),
            payload: self.payload.clone(),
        }
    }
}

impl Signed {
    /// Sign a payload; the result verifies for the secret's name.
    pub fn new(resolver: &mut OrangeResolver, secret: &OrangeSecret, payload: Vec<u8>) -> (r:
        Result<Signed, Error>)
        requires
            secret_wf(*secret),
        ensures
            r is Ok,
            r matches Ok(s) ==> signed_ok(s) && s.signer@ == name_of(*secret) && s.payload@
                == payload@,
    {
        let mut msg: Vec<u8> = Vec::new();
        codec::write_bytes(&mut msg, payload.as_slice());
        proof {
            assert(msg@ =~= signed_msg(payload@));
        }
        let signature = resolver.sign(secret, &msg)?;
        Ok(Signed { signer: secret.name(), signature, payload })
    }

    /// Give up the payload.
    pub fn into_inner(self) -> (r: Vec<u8>)
        ensures
            r@ == self.payload@,
    {
        self.payload
    }

    /// The claimed signer.
    pub fn signer(&self) -> (r: &OrangeName)
        ensures
            r@ == self.signer@,
    {
        &self.signer
    }

    /// Check the signature against the claimed signer; `Ok` exactly when
    /// it verifies.
    pub fn verify(&self, resolver: &mut OrangeResolver, when: Option<i64>) -> (r: Result<
        OrangeName,
        Error,
    >)
        ensures
            match r {
                Ok(n) => signed_ok(*self) && n@ == self.signer@,
                Err(_) => !signed_ok(*self),
            },
    {
        let mut msg: Vec<u8> = Vec::new();
        codec::write_bytes(&mut msg, self.payload.as_slice());
        proof {
            assert(msg@ =~= signed_msg(self.payload@));
        }
        resolver.verify(&self.signer, &self.signature, &msg, when)?;
        Ok(self.signer.clone())
    }
}

} // verus!
