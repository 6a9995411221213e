//! Capability keys, validation schemas, headers and records.
//!
//! A record's authority is carried by a [`KeySet`]: discover and read
//! secrets, optional child-derivation keys, an optional delete key and named
//! extra keys.  A [`Validation`] schema states which of those actions must
//! exist and with what secrecy; [`Header::validate`] holds a key set to its
//! schema.  `max` joins two copies of the same key material without losing
//! authority, and `set` downgrades a key set to the subset of capabilities
//! selected by a [`Permissions`] value.

use vstd::prelude::*;

use crate::Id;
use crate::codec::name_lt;
use crate::crypto;

verus! {

/// A schema or key-set check that failed.
#[derive(Clone, Debug)]
pub enum ValidationError {
    /// An action present in the schema is absent from the keys, or the
    /// other way round.
    ActionMismatch(String),
    /// An action requires a secret key and only a public one is held.
    MissingPerms(String),
    /// Two keys for the same action describe different keypairs.
    DifferentKeys(String),
    Deserialization(String),
    Decryption(String),
    MissingRecord(String),
    InvalidProtocol(Id),
    InvalidParent(String),
}

/// A discover or read secret: the secret scalar together with its
/// compressed public key.
#[derive(Debug)]
pub struct WSecretKey {
    pub secret: Vec<u8>,
    pub public: Vec<u8>,
}

/// Mathematical model of a [`WSecretKey`].
pub struct WSecretKeyV {
    pub secret: Seq<u8>,
    pub public: Seq<u8>,
}

impl View for WSecretKey {
    type V = WSecretKeyV;

    open spec fn view(&self) -> WSecretKeyV {
        WSecretKeyV { secret: self.secret@, public: self.public@ }
    }
}

impl WSecretKeyV {
    /// The cached public key really is the public key of the 32-byte
    /// secret.
    pub open spec fn wf(self) -> bool {
        crypto::public_of(self.secret) == Some(self.public) && self.secret.len() == 32
    }
}

impl Clone for WSecretKey {
    fn clone(&self) -> (r: Self)
        ensures
            r@ == self@,
    {
        WSecretKey { secret: self.secret.clone(), public: self.public.clone() }
    }
}

impl WSecretKey {
    /// Pair a secret with its public key, computed once.
    pub fn from_secret(secret: Vec<u8>) -> (r: Result<WSecretKey, crypto::CryptoError>)
        ensures
            match r {
                Ok(w) => w@.secret == secret@ && w@.wf(),
                Err(_) => crypto::public_of(secret@) is None,
            },
    {
        let public = crypto::public_key(&secret)?;
        Ok(WSecretKey { secret, public })
    }
}

/// A capability key: either the full keypair or only its public half.
#[derive(Debug)]
pub enum Key {
    Secret(WSecretKey),
    Public(Vec<u8>),
}

/// Mathematical model of a [`Key`].
pub enum KeyV {
    Secret(WSecretKeyV),
    Public(Seq<u8>),
}

impl View for Key {
    type V = KeyV;

    open spec fn view(&self) -> KeyV {
        match self {
            Key::Secret(s) => KeyV::Secret(s@),
            Key::Public(p) => KeyV::Public(p@),
        }
    }
}

impl KeyV {
    pub open spec fn wf(self) -> bool {
        match self {
            KeyV::Secret(s) => s.wf(),
            KeyV::Public(p) => crate::codec::bounded(p),
        }
    }

    /// The public projection; two keys are the same keypair when these
    /// agree.
    pub open spec fn public(self) -> Seq<u8> {
        match self {
            KeyV::Secret(s) => s.public,
            KeyV::Public(p) => p,
        }
    }

    pub open spec fn is_secret(self) -> bool {
        self is Secret
    }
}

/// Downgrading a key: keeping the secret requires holding it; dropping it
/// always succeeds.
pub open spec fn key_set(k: KeyV, secret: bool) -> Option<KeyV> {
    if secret {
        if k is Secret {
            Some(k)
        } else {
            None
        }
    } else {
        Some(KeyV::Public(k.public()))
    }
}

/// Joining two copies of one key: they must describe the same keypair, and
/// the secret side wins.
pub open spec fn key_max(a: KeyV, b: KeyV) -> Option<KeyV> {
    if a.public() != b.public() {
        None
    } else if a is Secret {
        Some(a)
    } else if b is Secret {
        Some(b)
    } else {
        Some(a)
    }
}

impl Clone for Key {
    fn clone(&self) -> (r: Self)
        ensures
            r@ == self@,
    {
        match self {
            Key::Secret(s) => Key::Secret(s.clone()),
            Key::Public(p) => Key::Public(p.clone()),
        }
    }
}

impl Key {
    /// The public half, whichever side is held.
    pub fn public(&self) -> (r: Vec<u8>)
        ensures
            r@ == self@.public(),
    {
        match self {
            Key::Secret(s) => s.public.clone(),
            Key::Public(p) => p.clone(),
        }
    }

    /// The secret half, if held.
    pub fn secret(&self) -> (r: Option<WSecretKey>)
        ensures
            match r {
                Some(w) => self@ is Secret && self@->Secret_0 == w@,
                None => self@ is Public,
            },
    {
        match self {
            Key::Secret(s) => Some(s.clone()),
            Key::Public(_) => None,
        }
    }

    /// Downgrade to the given secrecy; an error exactly when a secret is
    /// demanded that is not held.
    pub fn set(self, secret: bool) -> (r: Result<Key, ValidationError>)
        ensures
            match r {
                Ok(k) => key_set(self@, secret) == Some(k@),
                Err(e) => key_set(self@, secret) is None && e is MissingPerms,
            },
    {
        match (secret, self) {
            (true, Key::Secret(s)) => Ok(Key::Secret(s)),
            (true, Key::Public(_)) => Err(
                ValidationError::MissingPerms(String::from_str("Secret")),
            ),
            (false, k) => Ok(Key::Public(k.public())),
        }
    }

    /// Join with another copy of the same keypair, preferring the secret
    /// side; an error exactly when the public halves differ.
    pub fn max(self, other: Self) -> (r: Result<Key, ValidationError>)
        ensures
            match r {
                Ok(k) => key_max(self@, other@) == Some(k@),
                Err(e) => key_max(self@, other@) is None && e is DifferentKeys,
            },
    {
        let pa = self.public();
        let pb = other.public();
        if pa == pb {
            proof {
                assert(pa@ =~= pb@);
            }
            match (self, other) {
                (Key::Secret(s), _) => Ok(Key::Secret(s)),
                (Key::Public(_), Key::Secret(s)) => Ok(Key::Secret(s)),
                (Key::Public(p), Key::Public(_)) => Ok(Key::Public(p)),
            }
        } else {
            Err(ValidationError::DifferentKeys(String::from_str("?")))
        }
    }

    /// Forget the secret half.
    pub fn to_public(self) -> (r: Key)
        ensures
            r@ == KeyV::Public(self@.public()),
    {
        Key::Public(self.public())
    }
}

/// What capability to expose when sharing a header; `None` in an option
/// drops that action, which must agree with the target validation.
#[derive(Debug)]
pub struct Permissions {
    pub children: Option<(bool, bool)>,
    pub delete: Option<bool>,
    pub keys: Vec<(String, bool)>,
}

/// Mathematical model of a [`Permissions`].
pub struct PermissionsV {
    pub children: Option<(bool, bool)>,
    pub delete: Option<bool>,
    pub keys: Seq<(Seq<char>, bool)>,
}

impl View for Permissions {
    type V = PermissionsV;

    open spec fn view(&self) -> PermissionsV {
        PermissionsV {
            children: self.children,
            delete: self.delete,
            keys: self.keys@.map_values(|p: (String, bool)| (p.0@, p.1)),
        }
    }
}

impl Clone for Permissions {
    fn clone(&self) -> (r: Self)
        ensures
            r@ == self@,
    {
        let mut keys: Vec<(String, bool)> = Vec::new();
        let mut i: usize = 0;
        while i < self.keys.len()
            invariant
                i <= self.keys@.len(),
                keys@.len() == i,
                forall|j: int| 0 <= j < i ==> keys@[j].0@ == self.keys@[j].0@ && keys@[j].1
                    == self.keys@[j].1,
            decreases self.keys@.len() - i,
        {
            let (n, b) = &self.keys[i];
            keys.push((n.clone(), *b));
            i = i + 1;
        }
        let r = Permissions { children: self.children, delete: self.delete, keys };
        proof {
            assert(r@.keys =~= self@.keys);
        }
        r
    }
}

impl Permissions {
    /// Plain constructor.
    pub fn new(children: Option<(bool, bool)>, delete: Option<bool>, keys: Vec<(String, bool)>) -> (
        r: Permissions)
        ensures
            r@.children == children,
            r@.delete == delete,
            r@.keys == keys@.map_values(|p: (String, bool)| (p.0@, p.1)),
    {
        Permissions { children, delete, keys }
    }
}

/// First value bound to a name, if any.
pub open spec fn name_lookup<T>(s: Seq<(Seq<char>, T)>, n: Seq<char>) -> Option<T>
    decreases s.len(),
{
    if s.len() == 0 {
        None
    } else if s[0].0 == n {
        Some(s[0].1)
    } else {
        name_lookup(s.drop_first(), n)
    }
}

/// Names strictly increase in UTF-8 order, so each occurs once.
pub open spec fn names_sorted<T>(s: Seq<(Seq<char>, T)>) -> bool {
    forall|i: int, j: int| 0 <= i < j < s.len() ==> name_lt(#[trigger] s[i].0, #[trigger] s[j].0)
}

/// The model of a named key list.
pub open spec fn others_view(v: Seq<(String, Key)>) -> Seq<(Seq<char>, KeyV)> {
    v.map_values(|p: (String, Key)| (p.0@, p.1@))
}

/// The model of a named flag list.
pub open spec fn states_view(v: Seq<(String, bool)>) -> Seq<(Seq<char>, bool)> {
    v.map_values(|p: (String, bool)| (p.0@, p.1))
}

/// The key material of one record.
#[derive(Debug)]
pub struct KeySet {
    /// Always derived from the parent's child-discover key at this index.
    pub discover: WSecretKey,
    /// Always derived from the parent's child-read key at this index.
    pub read: WSecretKey,
    pub children: Option<(Key, Key)>,
    pub delete: Option<Key>,
    pub others: Vec<(String, Key)>,
}

/// Mathematical model of a [`KeySet`].
pub struct KeySetV {
    pub discover: WSecretKeyV,
    pub read: WSecretKeyV,
    pub children: Option<(KeyV, KeyV)>,
    pub delete: Option<KeyV>,
    pub others: Seq<(Seq<char>, KeyV)>,
}

impl View for KeySet {
    type V = KeySetV;

    open spec fn view(&self) -> KeySetV {
        KeySetV {
            discover: self.discover@,
            read: self.read@,
            children: match self.children {
                Some((ref a, ref b)) => Some((a@, b@)),
                None => None,
            },
            delete: match self.delete {
                Some(ref k) => Some(k@),
                None => None,
            },
            others: others_view(self.others@),
        }
    }
}

impl KeySetV {
    /// Every key is honest: cached public halves match their secrets.
    pub open spec fn honest(self) -> bool {
        &&& self.discover.wf()
        &&& self.read.wf()
        &&& match self.children {
            Some((a, b)) => a.wf() && b.wf(),
            None => true,
        }
        &&& match self.delete {
            Some(k) => k.wf(),
            None => true,
        }
        &&& forall|i: int| 0 <= i < self.others.len() ==> (#[trigger] self.others[i]).1.wf()
    }

    /// The named key list and its names are short enough to encode.
    pub open spec fn bounded(self) -> bool {
        &&& self.others.len() < 0x1_0000_0000_0000_0000
        &&& forall|i: int| 0 <= i < self.others.len() ==> crate::codec::bounded(
            vstd::utf8::encode_utf8((#[trigger] self.others[i]).0),
        )
    }

    /// Honest keys with strictly sorted names.
    pub open spec fn wf(self) -> bool {
        self.honest() && self.bounded() && names_sorted(self.others)
    }
}

/// Downgrading every named key to the secrecy its entry in `perms` asks
/// for; names absent from `perms` keep their key unchanged.
pub open spec fn others_set(
    os: Seq<(Seq<char>, KeyV)>,
    perms: Seq<(Seq<char>, bool)>,
) -> Option<Seq<(Seq<char>, KeyV)>>
    decreases os.len(),
{
    if os.len() == 0 {
        Some(os)
    } else {
        let k2 = match name_lookup(perms, os[0].0) {
            Some(s) => key_set(os[0].1, s),
            None => Some(os[0].1),
        };
        match (k2, others_set(os.drop_first(), perms)) {
            (Some(k), Some(rest)) => Some(seq![(os[0].0, k)] + rest),
            _ => None,
        }
    }
}

/// Downgrading a key set to the capabilities a [`Permissions`] selects.
/// The delete entry must be present on both sides or neither; a children
/// selection requires the child keys; child keys are dropped when not
/// selected.
pub open spec fn keyset_set(ks: KeySetV, p: PermissionsV) -> Option<KeySetV> {
    let delete = match (ks.delete, p.delete) {
        (Some(d), Some(s)) => match key_set(d, s) {
            Some(k) => Some(Some(k)),
            None => None,
        },
        (None, None) => Some(None),
        _ => None,
    };
    let children = match p.children {
        Some((cs, rs)) => match ks.children {
            Some((c, r)) => match (key_set(c, cs), key_set(r, rs)) {
                (Some(c2), Some(r2)) => Some(Some((c2, r2))),
                _ => None,
            },
            None => None,
        },
        None => Some(None),
    };
    match (delete, children, others_set(ks.others, p.keys)) {
        (Some(d), Some(c), Some(o)) => Some(
            KeySetV { discover: ks.discover, read: ks.read, children: c, delete: d, others: o },
        ),
        _ => None,
    }
}

/// Merging two sorted named key lists: a name in both joins its keys, a
/// name in one is kept as it is.
pub open spec fn others_merge(
    a: Seq<(Seq<char>, KeyV)>,
    b: Seq<(Seq<char>, KeyV)>,
) -> Option<Seq<(Seq<char>, KeyV)>>
    decreases a.len() + b.len(),
{
    if a.len() == 0 {
        Some(b)
    } else if b.len() == 0 {
        Some(a)
    } else if name_lt(a[0].0, b[0].0) {
        match others_merge(a.drop_first(), b) {
            Some(r) => Some(seq![a[0]] + r),
            None => None,
        }
    } else if name_lt(b[0].0, a[0].0) {
        match others_merge(a, b.drop_first()) {
            Some(r) => Some(seq![b[0]] + r),
            None => None,
        }
    } else {
        match key_max(b[0].1, a[0].1) {
            Some(k) => match others_merge(a.drop_first(), b.drop_first()) {
                Some(r) => Some(seq![(a[0].0, k)] + r),
                None => None,
            },
            None => None,
        }
    }
}

/// Joining two key sets describing the same record: discover and read come
/// from the left side, each optional action joins pairwise, and an action
/// held by only one side is kept.
pub open spec fn keyset_max(a: KeySetV, b: KeySetV) -> Option<KeySetV> {
    let delete = match (a.delete, b.delete) {
        (Some(x), Some(y)) => match key_max(x, y) {
            Some(k) => Some(Some(k)),
            None => None,
        },
        (Some(x), None) => Some(Some(x)),
        (None, y) => Some(y),
    };
    let children = match (a.children, b.children) {
        (Some((c1, r1)), Some((c2, r2))) => match (key_max(c1, c2), key_max(r1, r2)) {
            (Some(c), Some(r)) => Some(Some((c, r))),
            _ => None,
        },
        (Some(p), None) => Some(Some(p)),
        (None, q) => Some(q),
    };
    match (delete, children, others_merge(a.others, b.others)) {
        (Some(d), Some(c), Some(o)) => Some(
            KeySetV { discover: a.discover, read: a.read, children: c, delete: d, others: o },
        ),
        _ => None,
    }
}

/// Prepending a pair commutes with taking the model of a named key list.
pub proof fn lemma_others_view_cons(r0: Seq<(String, Key)>, e: (String, Key), r: Seq<(String, Key)>)
    requires
        r == r0.insert(0, e),
    ensures
        others_view(r) == seq![(e.0@, e.1@)] + others_view(r0),
{
    crate::codec::lemma_insert_front(r0, e, r);
    assert forall|l: int| 0 <= l < others_view(r).len() implies others_view(r)[l] == (seq![
        (e.0@, e.1@),
    ] + others_view(r0))[l] by {
        if l >= 1 {
            assert(others_view(r0)[l - 1] == (r0[l - 1].0@, r0[l - 1].1@));
        }
    }
    assert(others_view(r) =~= seq![(e.0@, e.1@)] + others_view(r0));
}

/// Clone the tail of a named key list starting at `i`.
fn clone_pairs_from(v: &Vec<(String, Key)>, i: usize) -> (r: Vec<(String, Key)>)
    requires
        i <= v@.len(),
    ensures
        others_view(r@) == others_view(v@).skip(i as int),
    decreases v@.len() - i,
{
    if i == v.len() {
        let r: Vec<(String, Key)> = Vec::new();
        proof {
            assert(others_view(r@) =~= others_view(v@).skip(i as int));
        }
        r
    } else {
        let (n, k) = &v[i];
        let mut rest = clone_pairs_from(v, i + 1);
        let pair = (n.clone(), k.clone());
        let ghost e = pair;
        let ghost r0 = rest@;
        rest.insert(0, pair);
        proof {
            lemma_others_view_cons(r0, e, rest@);
            assert(others_view(rest@) =~= others_view(v@).skip(i as int));
        }
        rest
    }
}

/// Clone a named key list.
pub fn clone_pairs(v: &Vec<(String, Key)>) -> (r: Vec<(String, Key)>)
    ensures
        others_view(r@) == others_view(v@),
{
    let r = clone_pairs_from(v, 0);
    proof {
        assert(others_view(v@).skip(0) =~= others_view(v@));
    }
    r
}

/// Look a name up in a flag list, first match wins.
fn lookup_state_from(perms: &Vec<(String, bool)>, i: usize, n: &String) -> (r: Option<bool>)
    requires
        i <= perms@.len(),
    ensures
        r == name_lookup(states_view(perms@).skip(i as int), n@),
    decreases perms@.len() - i,
{
    if i == perms.len() {
        None
    } else {
        proof {
            assert(states_view(perms@).skip(i as int).drop_first() =~= states_view(perms@).skip(
                i + 1,
            ));
        }
        let (pn, s) = &perms[i];
        if *pn == *n {
            Some(*s)
        } else {
            lookup_state_from(perms, i + 1, n)
        }
    }
}

/// Apply [`others_set`]: downgrade the named keys from `i` on.
fn set_others_from(os: &Vec<(String, Key)>, i: usize, perms: &Vec<(String, bool)>) -> (r: Result<
    Vec<(String, Key)>,
    ValidationError,
>)
    requires
        i <= os@.len(),
    ensures
        match r {
            Ok(v) => others_set(others_view(os@).skip(i as int), states_view(perms@)) == Some(
                others_view(v@),
            ),
            Err(e) => others_set(others_view(os@).skip(i as int), states_view(perms@)) is None
                && e is MissingPerms,
        },
    decreases os@.len() - i,
{
    proof {
        assert(states_view(perms@).skip(0) =~= states_view(perms@));
    }
    if i == os.len() {
        let r: Vec<(String, Key)> = Vec::new();
        proof {
            assert(others_view(os@).skip(i as int) =~= others_view(r@));
        }
        Ok(r)
    } else {
        proof {
            assert(others_view(os@).skip(i as int).drop_first() =~= others_view(os@).skip(i + 1));
        }
        let (n, k) = &os[i];
        let k2 = match lookup_state_from(perms, 0, n) {
            Some(s) => k.clone().set(s)?,
            None => k.clone(),
        };
        let mut rest = set_others_from(os, i + 1, perms)?;
        let pair = (n.clone(), k2);
        let ghost e = pair;
        let ghost r0 = rest@;
        rest.insert(0, pair);
        proof {
            lemma_others_view_cons(r0, e, rest@);
            assert(others_view(rest@) =~= others_set(
                others_view(os@).skip(i as int),
                states_view(perms@),
            )->Some_0);
        }
        Ok(rest)
    }
}

/// Apply [`others_merge`] to two sorted named key lists from `i` and `j`
/// on.
fn merge_others_from(a: &Vec<(String, Key)>, i: usize, b: &Vec<(String, Key)>, j: usize) -> (r:
    Result<Vec<(String, Key)>, ValidationError>)
    requires
        i <= a@.len(),
        j <= b@.len(),
    ensures
        match r {
            Ok(v) => others_merge(others_view(a@).skip(i as int), others_view(b@).skip(j as int))
                == Some(others_view(v@)),
            Err(e) => others_merge(
                others_view(a@).skip(i as int),
                others_view(b@).skip(j as int),
            ) is None && e is DifferentKeys,
        },
    decreases a@.len() - i + b@.len() - j,
{
    if i == a.len() {
        proof {
            assert(others_view(a@).skip(i as int).len() == 0);
        }
        Ok(clone_pairs_from(b, j))
    } else if j == b.len() {
        proof {
            assert(others_view(b@).skip(j as int).len() == 0);
        }
        Ok(clone_pairs_from(a, i))
    } else {
        proof {
            assert(others_view(a@).skip(i as int).drop_first() =~= others_view(a@).skip(i + 1));
            assert(others_view(b@).skip(j as int).drop_first() =~= others_view(b@).skip(j + 1));
        }
        let (an, ak) = &a[i];
        let (bn, bk) = &b[j];
        let c = crate::codec::cmp_names(an.as_str(), bn.as_str());
        if c == -1 {
            let mut rest = merge_others_from(a, i + 1, b, j)?;
            let pair = (an.clone(), ak.clone());
            let ghost e = pair;
            let ghost r0 = rest@;
            rest.insert(0, pair);
            proof {
                lemma_others_view_cons(r0, e, rest@);
                assert(others_view(rest@) =~= others_merge(
                    others_view(a@).skip(i as int),
                    others_view(b@).skip(j as int),
                )->Some_0);
            }
            Ok(rest)
        } else if c == 1 {
            let mut rest = merge_others_from(a, i, b, j + 1)?;
            let pair = (bn.clone(), bk.clone());
            let ghost e = pair;
            let ghost r0 = rest@;
            rest.insert(0, pair);
            proof {
                lemma_others_view_cons(r0, e, rest@);
                assert(others_view(rest@) =~= others_merge(
                    others_view(a@).skip(i as int),
                    others_view(b@).skip(j as int),
                )->Some_0);
            }
            Ok(rest)
        } else {
            let k = bk.clone().max(ak.clone())?;
            let mut rest = merge_others_from(a, i + 1, b, j + 1)?;
            let pair = (an.clone(), k);
            let ghost e = pair;
            let ghost r0 = rest@;
            rest.insert(0, pair);
            proof {
                lemma_others_view_cons(r0, e, rest@);
                assert(others_view(rest@) =~= others_merge(
                    others_view(a@).skip(i as int),
                    others_view(b@).skip(j as int),
                )->Some_0);
            }
            Ok(rest)
        }
    }
}

impl Clone for KeySet {
    fn clone(&self) -> (r: Self)
        ensures
            r@ == self@,
    {
        let children = match &self.children {
            Some((a, b)) => Some((a.clone(), b.clone())),
            None => None,
        };
        let delete = match &self.delete {
            Some(k) => Some(k.clone()),
            None => None,
        };
        let others = clone_pairs_from(&self.others, 0);
        let r = KeySet {
            discover: self.discover.clone(),
            read: self.read.clone(),
            children,
            delete,
            others,
        };
        proof {
            assert(others_view(self.others@).skip(0) =~= others_view(self.others@));
        }
        r
    }
}

impl KeySet {
    /// Join with another key set for the same record; see [`keyset_max`].
    pub fn max(self, other: Self) -> (r: Result<KeySet, ValidationError>)
        ensures
            match r {
                Ok(k) => keyset_max(self@, other@) == Some(k@),
                Err(e) => keyset_max(self@, other@) is None && (e is DifferentKeys),
            },
    {
        let delete = match (self.delete, other.delete) {
            (Some(x), Some(y)) => Some(x.max(y)?),
            (Some(x), None) => Some(x),
            (None, y) => y,
        };
        let children = match (self.children, other.children) {
            (Some((c1, r1)), Some((c2, r2))) => Some((c1.max(c2)?, r1.max(r2)?)),
            (Some(p), None) => Some(p),
            (None, q) => q,
        };
        proof {
            assert(others_view(self.others@).skip(0) =~= others_view(self.others@));
            assert(others_view(other.others@).skip(0) =~= others_view(other.others@));
        }
        let others = merge_others_from(&self.others, 0, &other.others, 0)?;
        Ok(KeySet { discover: self.discover, read: self.read, children, delete, others })
    }

    /// Downgrade to the capabilities `perms` selects; see [`keyset_set`].
    pub fn set(self, perms: &Permissions) -> (r: Result<KeySet, ValidationError>)
        ensures
            match r {
                Ok(k) => keyset_set(self@, perms@) == Some(k@),
                Err(e) => keyset_set(self@, perms@) is None && (e is MissingPerms
                    || e is ActionMismatch),
            },
    {
        let delete = match (self.delete, perms.delete) {
            (Some(d), Some(p)) => Some(d.set(p)?),
            (None, None) => None,
            _ => {
                return Err(ValidationError::ActionMismatch(String::from_str("Delete")));
            },
        };
        let children = match perms.children {
            Some((cs, rs)) => match self.children {
                Some((c, r)) => Some((c.set(cs)?, r.set(rs)?)),
                None => {
                    return Err(ValidationError::ActionMismatch(String::from_str("Children")));
                },
            },
            None => None,
        };
        proof {
            assert(others_view(self.others@).skip(0) =~= others_view(self.others@));
        }
        let others = set_others_from(&self.others, 0, &perms.keys)?;
        Ok(KeySet { discover: self.discover, read: self.read, children, delete, others })
    }
}

/// The names of a named list, in order.
pub open spec fn names_of<T>(s: Seq<(Seq<char>, T)>) -> Seq<Seq<char>> {
    s.map_values(|p: (Seq<char>, T)| p.0)
}

/// What children under a record may look like: an empty protocol list
/// admits any protocol, a non-empty one is a whitelist.
#[derive(Debug)]
pub struct ChildrenValidation {
    pub children: Vec<Id>,
    pub anyone_discover: bool,
    pub anyone_read: bool,
    pub allow_pointers: bool,
}

/// Mathematical model of a [`ChildrenValidation`].
pub struct ChildrenValidationV {
    pub children: Seq<Seq<u8>>,
    pub anyone_discover: bool,
    pub anyone_read: bool,
    pub allow_pointers: bool,
}

impl ChildrenValidationV {
    /// The id list and its entries are short enough to encode.
    pub open spec fn bounded(self) -> bool {
        &&& self.children.len() < 0x1_0000_0000_0000_0000
        &&& forall|i: int| 0 <= i < self.children.len() ==> crate::codec::bounded(
            #[trigger] self.children[i],
        )
    }
}

impl View for ChildrenValidation {
    type V = ChildrenValidationV;

    open spec fn view(&self) -> ChildrenValidationV {
        ChildrenValidationV {
            children: self.children@.map_values(|id: Id| id@),
            anyone_discover: self.anyone_discover,
            anyone_read: self.anyone_read,
            allow_pointers: self.allow_pointers,
        }
    }
}

impl Clone for ChildrenValidation {
    fn clone(&self) -> (r: Self)
        ensures
            r@ == self@,
    {
        let mut children: Vec<Id> = Vec::new();
        let mut i: usize = 0;
        while i < self.children.len()
            invariant
                i <= self.children@.len(),
                children@.len() == i,
                forall|j: int| 0 <= j < i ==> children@[j]@ == self.children@[j]@,
            decreases self.children@.len() - i,
        {
            children.push(self.children[i].clone());
            i = i + 1;
        }
        let r = ChildrenValidation {
            children,
            anyone_discover: self.anyone_discover,
            anyone_read: self.anyone_read,
            allow_pointers: self.allow_pointers,
        };
        proof {
            assert(r@.children =~= self@.children);
        }
        r
    }
}

impl ChildrenValidation {
    /// Plain constructor.
    pub fn new(children: Vec<Id>, anyone_discover: bool, anyone_read: bool, allow_pointers: bool)
        -> (r: ChildrenValidation)
        ensures
            r@.children == children@.map_values(|id: Id| id@),
            r@.anyone_discover == anyone_discover,
            r@.anyone_read == anyone_read,
            r@.allow_pointers == allow_pointers,
    {
        ChildrenValidation { children, anyone_discover, anyone_read, allow_pointers }
    }
}

/// The schema a header carries: which actions exist and with what secrecy.
#[derive(Debug)]
pub struct Validation {
    pub children: Option<ChildrenValidation>,
    pub delete: Option<bool>,
    pub key_states: Vec<(String, bool)>,
    pub allow_extra_keys: bool,
}

/// Mathematical model of a [`Validation`].
pub struct ValidationV {
    pub children: Option<ChildrenValidationV>,
    pub delete: Option<bool>,
    pub key_states: Seq<(Seq<char>, bool)>,
    pub allow_extra_keys: bool,
}

impl ValidationV {
    /// All lists and names are short enough to encode.
    pub open spec fn bounded(self) -> bool {
        &&& match self.children {
            Some(cv) => cv.bounded(),
            None => true,
        }
        &&& self.key_states.len() < 0x1_0000_0000_0000_0000
        &&& forall|i: int| 0 <= i < self.key_states.len() ==> crate::codec::bounded(
            vstd::utf8::encode_utf8((#[trigger] self.key_states[i]).0),
        )
    }
}

impl View for Validation {
    type V = ValidationV;

    open spec fn view(&self) -> ValidationV {
        ValidationV {
            children: match self.children {
                Some(ref cv) => Some(cv@),
                None => None,
            },
            delete: self.delete,
            key_states: states_view(self.key_states@),
            allow_extra_keys: self.allow_extra_keys,
        }
    }
}

impl Clone for Validation {
    fn clone(&self) -> (r: Self)
        ensures
            r@ == self@,
    {
        let children = match &self.children {
            Some(cv) => Some(cv.clone()),
            None => None,
        };
        let mut key_states: Vec<(String, bool)> = Vec::new();
        let mut i: usize = 0;
        while i < self.key_states.len()
            invariant
                i <= self.key_states@.len(),
                key_states@.len() == i,
                forall|j: int| 0 <= j < i ==> key_states@[j].0@ == self.key_states@[j].0@
                    && key_states@[j].1 == self.key_states@[j].1,
            decreases self.key_states@.len() - i,
        {
            let (n, b) = &self.key_states[i];
            key_states.push((n.clone(), *b));
            i = i + 1;
        }
        let r = Validation {
            children,
            delete: self.delete,
            key_states,
            allow_extra_keys: self.allow_extra_keys,
        };
        proof {
            assert(r@.key_states =~= self@.key_states);
        }
        r
    }
}

/// Whether a key set realizes every action its schema declares, with the
/// required secrecy, and carries no forbidden extras.
pub open spec fn validation_ok(v: ValidationV, ks: KeySetV) -> bool {
    &&& match v.children {
        Some(cv) => match ks.children {
            Some((d, r)) => (cv.anyone_discover ==> d is Secret) && (cv.anyone_read
                ==> r is Secret),
            None => false,
        },
        None => true,
    }
    &&& match v.delete {
        Some(d) => match ks.delete {
            Some(k) => d ==> k is Secret,
            None => false,
        },
        None => true,
    }
    &&& (!v.allow_extra_keys ==> names_of(ks.others) == names_of(v.key_states))
    &&& forall|i: int| 0 <= i < v.key_states.len() ==> match name_lookup(
        ks.others,
        (#[trigger] v.key_states[i]).0,
    ) {
        Some(k) => v.key_states[i].1 ==> k is Secret,
        None => false,
    }
}

/// Whether a protocol id is an admissible child under this schema.
pub open spec fn is_child_spec(v: ValidationV, id: Seq<u8>) -> bool {
    match v.children {
        Some(cv) => cv.children.contains(id) || cv.children.len() == 0,
        None => false,
    }
}

/// Whether pointer records are admitted under this schema.
pub open spec fn allows_pointers(v: ValidationV) -> bool {
    match v.children {
        Some(cv) => cv.allow_pointers,
        None => false,
    }
}

/// Look a name up in a named key list, first match wins.
fn lookup_key_from(os: &Vec<(String, Key)>, i: usize, n: &String) -> (r: Option<Key>)
    requires
        i <= os@.len(),
    ensures
        match r {
            Some(k) => name_lookup(others_view(os@).skip(i as int), n@) == Some(k@),
            None => name_lookup(others_view(os@).skip(i as int), n@) is None,
        },
    decreases os@.len() - i,
{
    if i == os.len() {
        None
    } else {
        proof {
            assert(others_view(os@).skip(i as int).drop_first() =~= others_view(os@).skip(i + 1));
        }
        let (on, k) = &os[i];
        if *on == *n {
            Some(k.clone())
        } else {
            lookup_key_from(os, i + 1, n)
        }
    }
}

impl Validation {
    /// Plain constructor.  For schema identifiers to agree across clients,
    /// hand the named key states in ascending UTF-8 order of their names.
    pub fn new(
        children: Option<ChildrenValidation>,
        delete: Option<bool>,
        key_states: Vec<(String, bool)>,
        allow_extra_keys: bool,
    ) -> (r: Validation)
        ensures
            r@.children == match children {
                Some(cv) => Some(cv@),
                None => None::<ChildrenValidationV>,
            },
            r@.delete == delete,
            r@.key_states == states_view(key_states@),
            r@.allow_extra_keys == allow_extra_keys,
    {
        Validation { children, delete, key_states, allow_extra_keys }
    }

    /// Hold a key set to this schema; `Ok` exactly on [`validation_ok`].
    #[verifier::loop_isolation(false)]
    pub fn validate(&self, keyset: &KeySet) -> (r: Result<(), ValidationError>)
        ensures
            r is Ok <==> validation_ok(self@, keyset@),
            r matches Err(e) ==> (e is ActionMismatch || e is MissingPerms),
    {
        if let Some(cv) = &self.children {
            match &keyset.children {
                Some((d, rd)) => {
                    if cv.anyone_discover && d.secret().is_none() {
                        return Err(ValidationError::ActionMismatch(
                            String::from_str("DiscoverChild"),
                        ));
                    }
                    if cv.anyone_read && rd.secret().is_none() {
                        return Err(ValidationError::ActionMismatch(String::from_str("ReadChild")));
                    }
                },
                None => {
                    return Err(ValidationError::ActionMismatch(String::from_str("Children")));
                },
            }
        }
        if let Some(d) = self.delete {
            match &keyset.delete {
                Some(k) => {
                    if d && k.secret().is_none() {
                        return Err(ValidationError::MissingPerms(String::from_str("Delete")));
                    }
                },
                None => {
                    return Err(ValidationError::ActionMismatch(String::from_str("Delete")));
                },
            }
        }
        if !self.allow_extra_keys {
            if keyset.others.len() != self.key_states.len() {
                proof {
                    assert(names_of(keyset@.others).len() != names_of(self@.key_states).len());
                }
                return Err(ValidationError::ActionMismatch(String::from_str("Extra Keys")));
            }
            let mut i: usize = 0;
            while i < self.key_states.len()
                invariant
                    i <= self.key_states@.len(),
                    keyset.others@.len() == self.key_states@.len(),
                    forall|j: int| 0 <= j < i ==> names_of(keyset@.others)[j] == names_of(
                        self@.key_states,
                    )[j],
                decreases self.key_states@.len() - i,
            {
                let (on, _) = &keyset.others[i];
                let (sn, _) = &self.key_states[i];
                if !(*on == *sn) {
                    proof {
                        assert(names_of(keyset@.others)[i as int] != names_of(
                            self@.key_states,
                        )[i as int]);
                        assert(names_of(keyset@.others) != names_of(self@.key_states));
                        assert(!validation_ok(self@, keyset@));
                    }
                    return Err(ValidationError::ActionMismatch(String::from_str("Extra Keys")));
                }
                i = i + 1;
            }
            proof {
                assert(names_of(keyset@.others) =~= names_of(self@.key_states));
            }
        }
        let mut i: usize = 0;
        while i < self.key_states.len()
            invariant
                i <= self.key_states@.len(),
                !self@.allow_extra_keys ==> names_of(keyset@.others) == names_of(self@.key_states),
                forall|j: int| 0 <= j < i ==> match name_lookup(
                    keyset@.others,
                    (#[trigger] self@.key_states[j]).0,
                ) {
                    Some(k) => self@.key_states[j].1 ==> k is Secret,
                    None => false,
                },
            decreases self.key_states@.len() - i,
        {
            let (n, secret) = &self.key_states[i];
            proof {
                assert(others_view(keyset.others@).skip(0) =~= others_view(keyset.others@));
            }
            match lookup_key_from(&keyset.others, 0, n) {
                Some(k) => {
                    if *secret && k.secret().is_none() {
                        proof {
                            assert(name_lookup(keyset@.others, self@.key_states[i as int].0)
                                == Some(k@));
                            assert(!validation_ok(self@, keyset@));
                        }
                        return Err(ValidationError::MissingPerms(n.clone()));
                    }
                    proof {
                        assert(name_lookup(keyset@.others, self@.key_states[i as int].0) == Some(
                            k@,
                        ));
                    }
                },
                None => {
                    proof {
                        assert(name_lookup(
                            keyset@.others,
                            self@.key_states[i as int].0,
                        ) is None);
                        assert(!validation_ok(self@, keyset@));
                    }
                    return Err(ValidationError::ActionMismatch(n.clone()));
                },
            }
            i = i + 1;
        }
        Ok(())
    }

    /// Whether the given protocol id may appear as a child.
    #[verifier::loop_isolation(false)]
    pub fn is_child(&self, id: &Id) -> (r: bool)
        ensures
            r == is_child_spec(self@, id@),
    {
        match &self.children {
            Some(cv) => {
                if cv.children.len() == 0 {
                    proof {
                        assert(cv@.children.len() == cv.children@.len());
                    }
                    return true;
                }
                let mut i: usize = 0;
                while i < cv.children.len()
                    invariant
                        i <= cv.children@.len(),
                        forall|j: int| 0 <= j < i ==> (#[trigger] cv.children@[j])@ != id@,
                    decreases cv.children@.len() - i,
                {
                    if cv.children[i].equals(id) {
                        proof {
                            assert(cv@.children[i as int] == id@);
                        }
                        return true;
                    }
                    i = i + 1;
                }
                proof {
                    assert forall|j: int| 0 <= j < cv@.children.len() implies cv@.children[j]
                        != id@ by {
                        assert(cv@.children[j] == cv.children@[j]@);
                    }
                }
                false
            },
            None => false,
        }
    }

    /// Whether pointer records are admitted.
    pub fn pointer(&self) -> (r: bool)
        ensures
            r == allows_pointers(self@),
    {
        match &self.children {
            Some(cv) => cv.allow_pointers,
            None => false,
        }
    }
}

/// A record's metadata block: key material, the schema its children must
/// meet, protocol data, and the protocol id.
#[derive(Debug)]
pub struct Header {
    pub keys: KeySet,
    pub validation: Validation,
    pub data: Vec<u8>,
    pub protocol: Id,
}

/// Mathematical model of a [`Header`].
pub struct HeaderV {
    pub keys: KeySetV,
    pub validation: ValidationV,
    pub data: Seq<u8>,
    pub protocol: Seq<u8>,
}

impl HeaderV {
    /// All parts are short enough to encode.
    pub open spec fn bounded(self) -> bool {
        &&& self.keys.bounded()
        &&& self.validation.bounded()
        &&& crate::codec::bounded(self.data)
        &&& crate::codec::bounded(self.protocol)
    }

    /// Honest, bounded, sorted: what every header the engine builds or
    /// accepts satisfies.
    pub open spec fn wf(self) -> bool {
        self.keys.wf() && self.bounded()
    }
}

impl View for Header {
    type V = HeaderV;

    open spec fn view(&self) -> HeaderV {
        HeaderV {
            keys: self.keys@,
            validation: self.validation@,
            data: self.data@,
            protocol: self.protocol@,
        }
    }
}

impl Clone for Header {
    fn clone(&self) -> (r: Self)
        ensures
            r@ == self@,
    {
        Header {
            keys: self.keys.clone(),
            validation: self.validation.clone(),
            data: self.data.clone(),
            protocol: self.protocol.clone(),
        }
    }
}

/// Whether `child` may stand under `parent`: its protocol must be admitted
/// by the parent's schema, or it is a pointer and the parent allows
/// pointers.
pub open spec fn valid_child(parent: HeaderV, child: HeaderV) -> bool {
    ||| (child.protocol != crate::max_id() && is_child_spec(parent.validation, child.protocol))
    ||| (allows_pointers(parent.validation) && child.protocol == crate::max_id())
}

impl Header {
    /// The key material.
    pub fn keys(&self) -> (r: &KeySet)
        ensures
            r@ == self@.keys,
    {
        &self.keys
    }

    /// The protocol id this record was created under.
    pub fn protocol_id(&self) -> (r: &Id)
        ensures
            r@ == self@.protocol,
    {
        &self.protocol
    }

    /// The protocol data carried by the header.
    pub fn data(&self) -> (r: &Vec<u8>)
        ensures
            r@ == self@.data,
    {
        &self.data
    }

    /// Hold the key set to the schema; `Ok` exactly on [`validation_ok`].
    pub fn validate(&self) -> (r: Result<(), ValidationError>)
        ensures
            r is Ok <==> validation_ok(self@.validation, self@.keys),
            r matches Err(e) ==> (e is ActionMismatch || e is MissingPerms),
    {
        self.validation.validate(&self.keys)
    }

    /// Whether `child` may stand under this record; see [`valid_child`].
    pub fn validate_child(&self, child: &Header) -> (r: Result<(), ValidationError>)
        ensures
            r is Ok <==> valid_child(self@, child@),
            r matches Err(e) ==> e is InvalidProtocol,
    {
        let is_max = child.protocol.is_max();
        if !is_max && self.validation.is_child(&child.protocol) {
            return Ok(());
        }
        if self.validation.pointer() && is_max {
            return Ok(());
        }
        Err(ValidationError::InvalidProtocol(self.protocol.clone()))
    }

    /// Join with another copy of this header, keeping schema and data and
    /// joining the keys; see [`keyset_max`].
    pub fn max(self, other: Self) -> (r: Result<Header, ValidationError>)
        ensures
            match r {
                Ok(h) => keyset_max(self@.keys, other@.keys) == Some(h@.keys) && h@.validation
                    == self@.validation && h@.data == self@.data && h@.protocol == self@.protocol,
                Err(_) => keyset_max(self@.keys, other@.keys) is None,
            },
    {
        Ok(
            Header {
                keys: self.keys.max(other.keys)?,
                validation: self.validation,
                data: self.data,
                protocol: self.protocol,
            },
        )
    }

    /// Downgrade the keys to `perms` and re-validate; see [`keyset_set`].
    pub fn set(self, perms: &Permissions) -> (r: Result<Header, ValidationError>)
        ensures
            match r {
                Ok(h) => keyset_set(self@.keys, perms@) == Some(h@.keys) && h@.validation
                    == self@.validation && h@.data == self@.data && h@.protocol == self@.protocol
                    && validation_ok(h@.validation, h@.keys),
                Err(e) => (match keyset_set(self@.keys, perms@) {
                    Some(ks) => !validation_ok(self@.validation, ks),
                    None => true,
                }) && (e is MissingPerms || e is ActionMismatch),
            },
    {
        let keys = self.keys.set(perms)?;
        let h = Header {
            keys,
            validation: self.validation,
            data: self.data,
            protocol: self.protocol,
        };
        h.validate()?;
        Ok(h)
    }
}

/// A header together with the payload it protects; serialized, encrypted
/// under the read key and stored as the private item's payload.
#[derive(Debug)]
pub struct Record {
    pub header: Header,
    pub payload: Vec<u8>,
}

/// Mathematical model of a [`Record`].
pub struct RecordV {
    pub header: HeaderV,
    pub payload: Seq<u8>,
}

impl View for Record {
    type V = RecordV;

    open spec fn view(&self) -> RecordV {
        RecordV { header: self.header@, payload: self.payload@ }
    }
}

impl Clone for Record {
    fn clone(&self) -> (r: Self)
        ensures
            r@ == self@,
    {
        Record { header: self.header.clone(), payload: self.payload.clone() }
    }
}

/// What a protocol contributes to a new header: its delete key, named
/// keys, and data.
#[derive(Debug)]
pub struct HeaderInfo {
    pub delete: Option<Key>,
    pub others: Vec<(String, Key)>,
    pub data: Vec<u8>,
}

/// Mathematical model of a [`HeaderInfo`].
pub struct HeaderInfoV {
    pub delete: Option<KeyV>,
    pub others: Seq<(Seq<char>, KeyV)>,
    pub data: Seq<u8>,
}

impl View for HeaderInfo {
    type V = HeaderInfoV;

    open spec fn view(&self) -> HeaderInfoV {
        HeaderInfoV {
            delete: match self.delete {
                Some(ref k) => Some(k@),
                None => None,
            },
            others: others_view(self.others@),
            data: self.data@,
        }
    }
}

impl HeaderInfo {
    /// Plain constructor.  For header identifiers to agree across clients,
    /// hand the named keys in ascending UTF-8 order of their names.
    pub fn new(delete: Option<Key>, others: Vec<(String, Key)>, data: Vec<u8>) -> (r: HeaderInfo)
        ensures
            r@.delete == match delete {
                Some(k) => Some(k@),
                None => None::<KeyV>,
            },
            r@.others == others_view(others@),
            r@.data == data@,
    {
        HeaderInfo { delete, others, data }
    }
}

impl Validation {
    /// The schema's identifier: the hash of its canonical encoding.  Equal
    /// schemas yield equal identifiers on every client.
    pub fn id(&self) -> (r: Id)
        ensures
            r@ == crate::codec::validation_id(self@),
            r.wf(),
    {
        Id::hash(&crate::codec::encode_validation(self))
    }
}

impl Header {
    /// The header's identifier: the hash of its canonical form, in which
    /// every key beyond discover and read appears only by its public half.
    pub fn id(&self) -> (r: Id)
        ensures
            r@ == crate::codec::header_id(self@),
            r.wf(),
    {
        Id::hash(&crate::codec::encode_header_hash(self))
    }

    /// The schema's identifier.
    pub fn validation_id(&self) -> (r: Id)
        ensures
            r@ == crate::codec::validation_id(self@.validation),
            r.wf(),
    {
        self.validation.id()
    }
}

/// What a stored private item yields for a holder of the read secret:
/// decrypt, decode, and accept only a record whose header names exactly the
/// keys the row is filed under and passes its own schema.
pub open spec fn from_item_spec(item: crate::storage::PrivateItem, read: WSecretKeyV) -> Option<
    RecordV,
> {
    match crypto::decrypt_of(read.secret, item.payload@) {
        Some(bytes) => match crate::codec::dec_record(bytes) {
            Some((rec, rest)) => {
                if rest.len() == 0 && rec.header.keys.discover.public == item.discover@
                    && rec.header.keys.read.secret == read.secret && (match (
                    rec.header.keys.delete,
                    item.delete,
                ) {
                    (Some(k), Some(d)) => k.public() == d@,
                    (None, None) => true,
                    _ => false,
                }) && validation_ok(rec.header.validation, rec.header.keys) {
                    Some(rec)
                } else {
                    None
                }
            },
            None => None,
        },
        None => None,
    }
}

impl Record {
    /// Decrypt and decode a stored private item; `Ok` exactly on
    /// [`from_item_spec`].
    pub fn from_item(item: &crate::storage::PrivateItem, read: &WSecretKey) -> (r: Result<
        Record,
        ValidationError,
    >)
        ensures
            match r {
                Ok(rec) => from_item_spec(*item, read@) == Some(rec@) && rec@.header.keys.honest(),
                Err(_) => from_item_spec(*item, read@) is None,
            },
    {
        let bytes = match crypto::ecies_decrypt(&read.secret, &item.payload) {
            Ok(b) => b,
            Err(_) => {
                return Err(ValidationError::Decryption(String::from_str("Decryption")));
            },
        };
        let rec = match crate::codec::decode_record(&bytes) {
            Some(rec) => rec,
            None => {
                return Err(ValidationError::Deserialization(String::from_str("Record")));
            },
        };
        if !(rec.header.keys.discover.public == item.discover) {
            proof {
                assert(!(rec@.header.keys.discover.public =~= item.discover@));
            }
            return Err(ValidationError::DifferentKeys(String::from_str("Discover")));
        }
        if !(rec.header.keys.read.secret == read.secret) {
            proof {
                assert(!(rec@.header.keys.read.secret =~= read@.secret));
            }
            return Err(ValidationError::DifferentKeys(String::from_str("Read")));
        }
        let delete_ok: bool = match (&rec.header.keys.delete, &item.delete) {
            (Some(k), Some(d)) => {
                let p = k.public();
                let eq = p == *d;
                proof {
                    if eq {
                        assert(p@ =~= d@);
                    } else {
                        assert(!(p@ =~= d@));
                    }
                }
                eq
            },
            (None, None) => true,
            _ => false,
        };
        if !delete_ok {
            return Err(ValidationError::DifferentKeys(String::from_str("ItemDelete")));
        }
        rec.header.validate()?;
        proof {
            assert(rec@.header.keys.discover.public =~= item.discover@);
            assert(rec@.header.keys.read.secret =~= read@.secret);
        }
        Ok(rec)
    }
}

/// The model of an id list: each identifier by its bytes.
pub open spec fn path_view(v: Seq<Id>) -> Seq<Seq<u8>> {
    v.map_values(|id: Id| id@)
}

/// An ordered list of record identifiers; the empty list is the root.
#[derive(Debug)]
pub struct RecordPath(pub Vec<Id>);

impl View for RecordPath {
    type V = Seq<Seq<u8>>;

    open spec fn view(&self) -> Seq<Seq<u8>> {
        path_view(self.0@)
    }
}

impl Clone for RecordPath {
    fn clone(&self) -> (r: Self)
        ensures
            r@ == self@,
    {
        let mut ids: Vec<Id> = Vec::new();
        let mut i: usize = 0;
        while i < self.0.len()
            invariant
                i <= self.0@.len(),
                ids@.len() == i,
                forall|j: int| 0 <= j < i ==> ids@[j]@ == self.0@[j]@,
            decreases self.0@.len() - i,
        {
            ids.push(self.0[i].clone());
            i = i + 1;
        }
        let r = RecordPath(ids);
        proof {
            assert(r@ =~= self@);
        }
        r
    }
}

impl RecordPath {
    /// The root path.
    pub fn root() -> (r: RecordPath)
        ensures
            r@.len() == 0,
    {
        RecordPath(Vec::new())
    }

    /// The path without its last segment, or nothing at the root.
    pub fn parent(&self) -> (r: Option<RecordPath>)
        ensures
            match r {
                Some(p) => self@.len() > 0 && p@ == self@.drop_last(),
                None => self@.len() == 0,
            },
    {
        if self.0.len() == 0 {
            return None;
        }
        let mut p = self.clone();
        p.0.pop();
        proof {
            assert(p@ =~= self@.drop_last());
        }
        Some(p)
    }

    /// The last segment, or the all-zeroes identifier at the root.
    pub fn last(&self) -> (r: Id)
        ensures
            self@.len() > 0 ==> r@ == self@.last(),
            self@.len() == 0 ==> r@ == crate::min_id(),
    {
        if self.0.len() == 0 {
            Id::id_min()
        } else {
            self.0[self.0.len() - 1].clone()
        }
    }

    /// Whether this is the root.
    pub fn is_root(&self) -> (r: bool)
        ensures
            r == (self@.len() == 0),
    {
        self.0.len() == 0
    }

    /// The path extended by one segment.
    pub fn join(&self, id: Id) -> (r: RecordPath)
        ensures
            r@ == self@.push(id@),
    {
        let mut r = self.clone();
        r.0.push(id);
        proof {
            assert(r@ =~= self@.push(r.0@.last()@));
        }
        r
    }

    /// Whether `self` is a prefix of `other`, segment by segment.
    pub fn is_prefix_of(&self, other: &RecordPath) -> (r: bool)
        ensures
            r == (self@.len() <= other@.len() && self@ == other@.take(self@.len() as int)),
    {
        if self.0.len() > other.0.len() {
            proof {
                if self@.len() <= other@.len() {
                    assert(false);
                }
            }
            return false;
        }
        let mut i: usize = 0;
        while i < self.0.len()
            invariant
                i <= self.0@.len() <= other.0@.len(),
                forall|j: int| 0 <= j < i ==> (#[trigger] self.0@[j])@ == other.0@[j]@,
            decreases self.0@.len() - i,
        {
            if !self.0[i].equals(&other.0[i]) {
                proof {
                    assert(self@[i as int] != other@.take(self@.len() as int)[i as int]);
                }
                return false;
            }
            i = i + 1;
        }
        proof {
            assert(self@ =~= other@.take(self@.len() as int));
        }
        true
    }

    /// The lowercase hexadecimal string form: `/` for the root, else one
    /// `/`-prefixed hex segment per identifier.
    pub fn string_form(&self) -> (r: String)
        ensures
            r@ == path_string(self@),
    {
        if self.0.len() == 0 {
            let r = String::from_str("/");
            proof {
                reveal_strlit("/");
                assert(path_string(self@) =~= "/"@);
            }
            return r;
        }
        let mut s = String::new();
        let mut i: usize = 0;
        while i < self.0.len()
            invariant
                i <= self.0@.len(),
                self.0@.len() > 0,
                s@ == path_segments(self@.take(i as int)),
            decreases self.0@.len() - i,
        {
            s.append("/");
            let hexed = self.0[i].to_hex();
            s.append(hexed.as_str());
            proof {
                reveal_strlit("/");
                lemma_path_segments_snoc(self@, i as int);
                assert(self@[i as int] == self.0@[i as int]@);
                assert(s@ =~= path_segments(self@.take(i + 1)));
            }
            i = i + 1;
        }
        proof {
            assert(self@.take(self@.len() as int) =~= self@);
        }
        s
    }
}

/// The string form of a path's segments: a `/`-prefixed hex form for
/// each identifier.
pub open spec fn path_segments(ids: Seq<Seq<u8>>) -> Seq<char>
    decreases ids.len(),
{
    if ids.len() == 0 {
        Seq::empty()
    } else {
        path_segments(ids.drop_last()) + seq!['/'] + crate::crypto::hex_of(ids.last())
    }
}

/// The string form of a whole path: `/` for the root, else its segments.
pub open spec fn path_string(ids: Seq<Seq<u8>>) -> Seq<char> {
    if ids.len() == 0 {
        seq!['/']
    } else {
        path_segments(ids)
    }
}

/// Extending the prefix by one identifier appends one segment.
proof fn lemma_path_segments_snoc(ids: Seq<Seq<u8>>, i: int)
    requires
        0 <= i < ids.len(),
    ensures
        path_segments(ids.take(i + 1)) == path_segments(ids.take(i)) + seq!['/']
            + crate::crypto::hex_of(ids[i]),
{
    assert(ids.take(i + 1).drop_last() =~= ids.take(i));
    assert(ids.take(i + 1).last() == ids[i]);
}

/// The non-hardened index a hexadecimal digit contributes to a
/// derivation: the UTF-8 code of its lowercase character.
pub open spec fn hex_code(n: u8) -> u32 {
    if n < 10 {
        (48 + n) as u32
    } else {
        (87 + n) as u32
    }
}

/// The derivation indices one identifier contributes: a separator, then
/// the codes of its hexadecimal digits, high nibble first.
pub open spec fn id_indices(id: Seq<u8>) -> Seq<u32>
    decreases id.len(),
{
    if id.len() == 0 {
        seq![]
    } else {
        seq![hex_code((id[0] / 16) as u8), hex_code((id[0] % 16) as u8)] + id_indices(
            id.drop_first(),
        )
    }
}

/// The derivation indices of a whole path suffix.
pub open spec fn path_indices(ids: Seq<Seq<u8>>) -> Seq<u32>
    decreases ids.len(),
{
    if ids.len() == 0 {
        seq![]
    } else {
        seq![47u32] + id_indices(ids[0]) + path_indices(ids.drop_first())
    }
}

/// Append the derivation indices of one identifier.
fn push_id_indices(out: &mut Vec<u32>, id: &Id)
    ensures
        final(out)@ == old(out)@ + id_indices(id@),
{
    let mut i: usize = 0;
    while i < id.0.len()
        invariant
            i <= id.0@.len(),
            out@ == old(out)@ + id_indices(id@.take(i as int)),
        decreases id.0@.len() - i,
    {
        let ghost prefix = id@.take(i as int);
        let b = id.0[i];
        let hi = b / 16;
        let lo = b % 16;
        if hi < 10 {
            out.push((48 + hi) as u32);
        } else {
            out.push((87 + hi) as u32);
        }
        if lo < 10 {
            out.push((48 + lo) as u32);
        } else {
            out.push((87 + lo) as u32);
        }
        proof {
            lemma_id_indices_snoc(id@, i as int);
            assert(out@ =~= old(out)@ + id_indices(id@.take(i + 1)));
        }
        i = i + 1;
    }
    proof {
        assert(id@.take(id.0@.len() as int) =~= id@);
    }
}

/// Extending the prefix by one byte appends that byte's two digit codes.
proof fn lemma_id_indices_snoc(id: Seq<u8>, i: int)
    requires
        0 <= i < id.len(),
    ensures
        id_indices(id.take(i + 1)) == id_indices(id.take(i)) + seq![
            hex_code((id[i] / 16) as u8),
            hex_code((id[i] % 16) as u8),
        ],
    decreases i,
{
    if i == 0 {
        assert(id.take(1).drop_first() =~= id.take(0));
        assert(id_indices(id.take(0)) =~= seq![]);
        assert(id_indices(id.take(1)) =~= seq![
            hex_code((id[0] / 16) as u8),
            hex_code((id[0] % 16) as u8),
        ]);
    } else {
        lemma_id_indices_snoc(id.drop_first(), i - 1);
        assert(id.take(i + 1).drop_first() =~= id.drop_first().take(i));
        assert(id.take(i).drop_first() =~= id.drop_first().take(i - 1));
        assert(id_indices(id.take(i + 1)) =~= id_indices(id.take(i)) + seq![
            hex_code((id[i] / 16) as u8),
            hex_code((id[i] % 16) as u8),
        ]);
    }
}

/// A path together with the secret the holder derived for it.
#[derive(Debug)]
pub struct PathedKey {
    pub path: RecordPath,
    pub key: Vec<u8>,
}

impl Clone for PathedKey {
    fn clone(&self) -> (r: Self)
        ensures
            r.path@ == self.path@,
            r.key@ == self.key@,
    {
        PathedKey { path: self.path.clone(), key: self.key.clone() }
    }
}

impl PathedKey {
    /// Pair a path with its secret.
    pub fn new(path: RecordPath, key: Vec<u8>) -> (r: PathedKey)
        ensures
            r.path@ == path@,
            r.key@ == key@,
    {
        PathedKey { path, key }
    }

    /// Derive the key for a descendant path, by the indices of the
    /// suffix's string form; a path outside this subtree is refused.
    pub fn derive(&self, path: &RecordPath) -> (r: Result<PathedKey, ValidationError>)
        ensures
            match r {
                Ok(pk) => {
                    &&& self.path@.len() <= path@.len()
                    &&& self.path@ == path@.take(self.path@.len() as int)
                    &&& crypto::derive_of(
                        self.key@,
                        path_indices(path@.skip(self.path@.len() as int)),
                    ) == Some(pk.key@)
                    &&& pk.path@ == path@
                    &&& pk.key@.len() == 32
                },
                Err(e) => {
                    ||| (e is MissingPerms && !(self.path@.len() <= path@.len() && self.path@
                        == path@.take(self.path@.len() as int)))
                    ||| (e is Deserialization && self.path@.len() <= path@.len() && self.path@
                        == path@.take(self.path@.len() as int) && crypto::derive_of(
                        self.key@,
                        path_indices(path@.skip(self.path@.len() as int)),
                    ) is None)
                },
            },
    {
        if !self.path.is_prefix_of(path) {
            return Err(ValidationError::MissingPerms(String::from_str("Path")));
        }
        let mut indices: Vec<u32> = Vec::new();
        let mut i: usize = self.path.0.len();
        proof {
            assert(path@.skip(self.path@.len() as int).skip(
                i - self.path@.len() as int,
            ) =~= path@.skip(i as int));
        }
        while i < path.0.len()
            invariant
                self.path@.len() <= i <= path@.len(),
                path@.len() == path.0@.len(),
                indices@ + path_indices(path@.skip(i as int)) == path_indices(
                    path@.skip(self.path@.len() as int),
                ),
            decreases path.0@.len() - i,
        {
            proof {
                assert(path@.skip(i as int).drop_first() =~= path@.skip(i + 1));
                assert(path@.skip(i as int)[0] == path@[i as int]);
            }
            let ghost before = indices@;
            indices.push(47u32);
            push_id_indices(&mut indices, &path.0[i]);
            proof {
                assert(before + seq![47u32] + id_indices(path@[i as int]) =~= indices@);
                assert(indices@ + path_indices(path@.skip(i + 1)) =~= before + path_indices(
                    path@.skip(i as int),
                ));
            }
            i = i + 1;
        }
        proof {
            assert(path@.skip(path@.len() as int).len() == 0);
            assert(indices@ + path_indices(path@.skip(path@.len() as int)) =~= indices@);
        }
        let key = match crypto::derive_key(&self.key, &indices) {
            Ok(k) => k,
            Err(_) => {
                return Err(ValidationError::Deserialization(String::from_str("Derive")));
            },
        };
        Ok(PathedKey { path: path.clone(), key })
    }

    /// The record-slot key at an index: one extra derivation with index
    /// `255 + index`, reserving smaller indices for path bytes.
    pub fn index(&self, index: u32) -> (r: Result<Vec<u8>, crypto::CryptoError>)
        requires
            index <= u32::MAX - 255,
        ensures
            match r {
                Ok(k) => crypto::derive_of(self.key@, seq![(255 + index) as u32]) == Some(k@)
                    && k@.len() == 32,
                Err(_) => crypto::derive_of(self.key@, seq![(255 + index) as u32]) is None,
            },
    {
        let mut path: Vec<u32> = Vec::new();
        path.push(255 + index);
        proof {
            assert(path@ =~= seq![(255 + index) as u32]);
        }
        crypto::derive_key(&self.key, &path)
    }
}

/// A failure of a client operation.
#[derive(Clone, Debug)]
pub enum Error {
    /// The server answered something no honest server would.
    MaliciousResponse(String),
    /// A local or transport problem; retrying may help.
    ConnectionFailed(String),
    Validation(ValidationError),
    EasySecp256k1(crypto::CryptoError),
    /// The resolver failed critically; abort.
    CriticalOrange(String),
}

/// Derivation determinism: the derived key for a path suffix and slot
/// index is a pure function of the root secret, the root path, the target
/// path and the index — no other state enters it.
pub proof fn lemma_derivation_deterministic(
    k1: PathedKey,
    k2: PathedKey,
    target: Seq<Seq<u8>>,
    index: u32,
)
    requires
        k1.key@ == k2.key@,
        k1.path@ == k2.path@,
    ensures
        crate::cache::derived_slot(k1.key@, k1.path@, target, index) == crate::cache::derived_slot(
            k2.key@,
            k2.path@,
            target,
            index,
        ),
{
}

/// Validation composability: a non-pointer child stands under a parent
/// exactly when the parent's schema admits its protocol, and a pointer
/// stands exactly when the schema allows pointers.
pub proof fn lemma_valid_child_composes(parent: HeaderV, child: HeaderV)
    ensures
        child.protocol != crate::max_id() ==> (valid_child(parent, child) <==> is_child_spec(
            parent.validation,
            child.protocol,
        )),
        child.protocol == crate::max_id() ==> (valid_child(parent, child) <==> allows_pointers(
            parent.validation,
        )),
{
}

/// Downgrading keys never changes identity: a key set downgraded by
/// `set` has the same canonical fingerprint, so the header's identifier
/// is unchanged by any permissible `set`.
pub proof fn lemma_set_preserves_id(h: HeaderV, ks2: KeySetV, perms: PermissionsV)
    requires
        keyset_set(h.keys, perms) == Some(ks2),
        h.keys.children is Some <==> ks2.children is Some,
    ensures
        crate::codec::header_id(
            HeaderV { keys: ks2, validation: h.validation, data: h.data, protocol: h.protocol },
        ) == crate::codec::header_id(h),
{
    let h2 = HeaderV { keys: ks2, validation: h.validation, data: h.data, protocol: h.protocol };
    lemma_others_set_fp(h.keys.others, perms.keys);
    assert(crate::codec::fp_others_items(ks2.others) == crate::codec::fp_others_items(
        h.keys.others,
    ));
    match (h.keys.delete, perms.delete) {
        (Some(d), Some(s)) => {
            assert(ks2.delete == Some(key_set(d, s)->Some_0));
            assert(key_set(d, s)->Some_0.public() == d.public());
        },
        _ => {},
    }
    match (h.keys.children, perms.children) {
        (Some((c, r)), Some((cs, rs))) => {
            assert(ks2.children == Some((key_set(c, cs)->Some_0, key_set(r, rs)->Some_0)));
            assert(key_set(c, cs)->Some_0.public() == c.public());
            assert(key_set(r, rs)->Some_0.public() == r.public());
        },
        _ => {},
    }
    assert(crate::codec::fp_opt_key(ks2.delete) =~= crate::codec::fp_opt_key(h.keys.delete));
    assert(crate::codec::fp_opt_children(ks2.children) =~= crate::codec::fp_opt_children(
        h.keys.children,
    ));
    assert(crate::codec::enc_keyset_hash(ks2) =~= crate::codec::enc_keyset_hash(h.keys));
    assert(crate::codec::enc_header_hash(h2) =~= crate::codec::enc_header_hash(h));
}

/// Downgrading named keys keeps their names and public halves, hence
/// their fingerprint.
proof fn lemma_others_set_fp(os: Seq<(Seq<char>, KeyV)>, perms: Seq<(Seq<char>, bool)>)
    requires
        others_set(os, perms) is Some,
    ensures
        crate::codec::fp_others_items(others_set(os, perms)->Some_0)
            == crate::codec::fp_others_items(os),
        others_set(os, perms)->Some_0.len() == os.len(),
    decreases os.len(),
{
    if os.len() > 0 {
        lemma_others_set_fp(os.drop_first(), perms);
        let os2 = others_set(os, perms)->Some_0;
        assert(os2.drop_first() =~= others_set(os.drop_first(), perms)->Some_0);
        assert(os2[0].0 == os[0].0 && os2[0].1.public() == os[0].1.public());
        assert(crate::codec::fp_others_items(os2) =~= crate::codec::enc_name(os2[0].0)
            + crate::codec::fp_key(os2[0].1) + crate::codec::fp_others_items(os2.drop_first()));
        assert(crate::codec::fp_others_items(os) =~= crate::codec::enc_name(os[0].0)
            + crate::codec::fp_key(os[0].1) + crate::codec::fp_others_items(os.drop_first()));
    }
}

/// Joining a key set with itself gives it back unchanged.
pub proof fn lemma_keyset_max_idempotent(a: KeySetV)
    ensures
        keyset_max(a, a) == Some(a),
{
    lemma_others_merge_self(a.others);
    assert(keyset_max(a, a) =~= Some(a)) by {
        match (a.delete) {
            Some(x) => {
                assert(key_max(x, x) == Some(x));
            },
            None => {},
        }
        match (a.children) {
            Some((c, r)) => {
                assert(key_max(c, c) == Some(c));
                assert(key_max(r, r) == Some(r));
            },
            None => {},
        }
    }
}

proof fn lemma_others_merge_self(os: Seq<(Seq<char>, KeyV)>)
    ensures
        others_merge(os, os) == Some(os),
    decreases os.len(),
{
    if os.len() > 0 {
        crate::codec::lemma_bytes_lt_trichotomy(
            vstd::utf8::encode_utf8(os[0].0),
            vstd::utf8::encode_utf8(os[0].0),
        );
        assert(!name_lt(os[0].0, os[0].0));
        assert(key_max(os[0].1, os[0].1) == Some(os[0].1));
        lemma_others_merge_self(os.drop_first());
        assert(seq![(os[0].0, os[0].1)] + os.drop_first() =~= os);
    }
}

/// Joining is symmetric up to hash-equality: both orders succeed
/// together, and the joined key sets have the same canonical fingerprint.
pub proof fn lemma_keyset_max_commutes(a: KeySetV, b: KeySetV)
    requires
        a.discover == b.discover,
        a.read == b.read,
        names_sorted(a.others),
        names_sorted(b.others),
    ensures
        keyset_max(a, b) is Some <==> keyset_max(b, a) is Some,
        keyset_max(a, b) matches Some(m1) ==> (keyset_max(b, a) matches Some(m2)
            ==> crate::codec::enc_keyset_hash(m1) == crate::codec::enc_keyset_hash(m2)),
{
    lemma_others_merge_comm(a.others, b.others);
    if keyset_max(a, b) is Some && keyset_max(b, a) is Some {
        let m1 = keyset_max(a, b)->Some_0;
        let m2 = keyset_max(b, a)->Some_0;
        assert(crate::codec::fp_opt_key(m1.delete) =~= crate::codec::fp_opt_key(m2.delete));
        assert(crate::codec::fp_opt_children(m1.children) =~= crate::codec::fp_opt_children(
            m2.children,
        ));
        assert(crate::codec::enc_keyset_hash(m1) =~= crate::codec::enc_keyset_hash(m2));
    }
}

/// Merging sorted named key lists is symmetric up to the public
/// projection of each key.
proof fn lemma_others_merge_comm(a: Seq<(Seq<char>, KeyV)>, b: Seq<(Seq<char>, KeyV)>)
    ensures
        others_merge(a, b) is Some <==> others_merge(b, a) is Some,
        others_merge(a, b) matches Some(m1) ==> (others_merge(b, a) matches Some(m2)
            ==> crate::codec::fp_others_items(m1) == crate::codec::fp_others_items(m2)
                && m1.len() == m2.len()),
    decreases a.len() + b.len(),
{
    if a.len() == 0 || b.len() == 0 {
    } else {
        crate::codec::lemma_bytes_lt_trichotomy(
            vstd::utf8::encode_utf8(a[0].0),
            vstd::utf8::encode_utf8(b[0].0),
        );
        if name_lt(a[0].0, b[0].0) {
            lemma_others_merge_comm(a.drop_first(), b);
            if others_merge(a, b) is Some && others_merge(b, a) is Some {
                let m1 = others_merge(a, b)->Some_0;
                let m2 = others_merge(b, a)->Some_0;
                assert(m1 =~= seq![a[0]] + others_merge(a.drop_first(), b)->Some_0);
                assert(m2 =~= seq![a[0]] + others_merge(b, a.drop_first())->Some_0);
                lemma_fp_items_cons(a[0], others_merge(a.drop_first(), b)->Some_0);
                lemma_fp_items_cons(a[0], others_merge(b, a.drop_first())->Some_0);
            }
        } else if name_lt(b[0].0, a[0].0) {
            lemma_others_merge_comm(a, b.drop_first());
            if others_merge(a, b) is Some && others_merge(b, a) is Some {
                lemma_fp_items_cons(b[0], others_merge(a, b.drop_first())->Some_0);
                lemma_fp_items_cons(b[0], others_merge(b.drop_first(), a)->Some_0);
            }
        } else {
            assert(a[0].0 == b[0].0) by {
                broadcast use vstd::utf8::encode_utf8_decode_utf8;

                assert(vstd::utf8::encode_utf8(a[0].0) == vstd::utf8::encode_utf8(b[0].0));
                assert(vstd::utf8::decode_utf8(vstd::utf8::encode_utf8(a[0].0))
                    == vstd::utf8::decode_utf8(vstd::utf8::encode_utf8(b[0].0)));
            }
            lemma_others_merge_comm(a.drop_first(), b.drop_first());
            if key_max(b[0].1, a[0].1) is Some {
                assert(b[0].1.public() == a[0].1.public());
                assert(key_max(a[0].1, b[0].1) is Some);
                let k1 = key_max(b[0].1, a[0].1)->Some_0;
                let k2 = key_max(a[0].1, b[0].1)->Some_0;
                assert(k1.public() == k2.public());
                if others_merge(a, b) is Some && others_merge(b, a) is Some {
                    lemma_fp_items_cons(
                        (a[0].0, k1),
                        others_merge(a.drop_first(), b.drop_first())->Some_0,
                    );
                    lemma_fp_items_cons(
                        (b[0].0, k2),
                        others_merge(b.drop_first(), a.drop_first())->Some_0,
                    );
                    assert(crate::codec::fp_key(k1) =~= crate::codec::fp_key(k2));
                }
            } else {
                assert(key_max(a[0].1, b[0].1) is None);
            }
        }
    }
}

/// The fingerprint of a cons is the entry's fingerprint before the rest's.
proof fn lemma_fp_items_cons(e: (Seq<char>, KeyV), rest: Seq<(Seq<char>, KeyV)>)
    ensures
        crate::codec::fp_others_items(seq![e] + rest) == crate::codec::enc_name(e.0)
            + crate::codec::fp_key(e.1) + crate::codec::fp_others_items(rest),
{
    let s = seq![e] + rest;
    assert(s[0] == e);
    assert(s.drop_first() =~= rest);
}

/// Joining never downgrades: a secret key for any action on either side
/// is still secret in the join.
pub proof fn lemma_keyset_max_no_downgrade(a: KeySetV, b: KeySetV, m: KeySetV)
    requires
        keyset_max(a, b) == Some(m),
        names_sorted(a.others),
        names_sorted(b.others),
    ensures
        a.delete matches Some(k) && k is Secret ==> (m.delete matches Some(k2) && k2 is Secret),
        b.delete matches Some(k) && k is Secret ==> (m.delete matches Some(k2) && k2 is Secret),
        a.children matches Some((c, r)) && c is Secret ==> (m.children matches Some((c2, r2))
            && c2 is Secret),
        b.children matches Some((c, r)) && c is Secret ==> (m.children matches Some((c2, r2))
            && c2 is Secret),
        forall|n: Seq<char>|
            (#[trigger] name_lookup(a.others, n)) matches Some(k) && k is Secret ==> (name_lookup(
                m.others,
                n,
            ) matches Some(k2) && k2 is Secret),
        forall|n: Seq<char>|
            (#[trigger] name_lookup(b.others, n)) matches Some(k) && k is Secret ==> (name_lookup(
                m.others,
                n,
            ) matches Some(k2) && k2 is Secret),
{
    assert forall|n: Seq<char>|
        (#[trigger] name_lookup(a.others, n)) matches Some(k)
            && k is Secret implies name_lookup(m.others, n) matches Some(k2)
        && k2 is Secret by {
        lemma_merge_lookup_secret(a.others, b.others, n);
    }
    assert forall|n: Seq<char>|
        (#[trigger] name_lookup(b.others, n)) matches Some(k)
            && k is Secret implies name_lookup(m.others, n) matches Some(k2)
        && k2 is Secret by {
        lemma_merge_lookup_secret_right(a.others, b.others, n);
    }
}

/// In a merge, a name bound to a secret key on the right stays bound to
/// a secret key.
proof fn lemma_merge_lookup_secret_right(
    a: Seq<(Seq<char>, KeyV)>,
    b: Seq<(Seq<char>, KeyV)>,
    n: Seq<char>,
)
    requires
        others_merge(a, b) is Some,
        names_sorted(a),
        names_sorted(b),
        name_lookup(b, n) matches Some(k) && k is Secret,
    ensures
        name_lookup(others_merge(a, b)->Some_0, n) matches Some(k2) && k2 is Secret,
    decreases a.len() + b.len(),
{
    let m = others_merge(a, b)->Some_0;
    if a.len() == 0 {
    } else if b.len() == 0 {
    } else {
        crate::codec::lemma_bytes_lt_trichotomy(
            vstd::utf8::encode_utf8(a[0].0),
            vstd::utf8::encode_utf8(b[0].0),
        );
        assert(names_sorted(a.drop_first()) && names_sorted(b.drop_first())) by {
            assert(forall|i: int, j: int|
                0 <= i < j < a.drop_first().len() ==> a.drop_first()[i] == a[i + 1]
                    && a.drop_first()[j] == a[j + 1]);
            assert(forall|i: int, j: int|
                0 <= i < j < b.drop_first().len() ==> b.drop_first()[i] == b[i + 1]
                    && b.drop_first()[j] == b[j + 1]);
        }
        if name_lt(a[0].0, b[0].0) {
            assert(m =~= seq![a[0]] + others_merge(a.drop_first(), b)->Some_0);
            assert(m.drop_first() =~= others_merge(a.drop_first(), b)->Some_0);
            lemma_lookup_ge(b, n);
            if a[0].0 == n {
                crate::codec::lemma_bytes_lt_trichotomy(
                    vstd::utf8::encode_utf8(a[0].0),
                    vstd::utf8::encode_utf8(b[0].0),
                );
                assert(false);
            } else {
                lemma_merge_lookup_secret_right(a.drop_first(), b, n);
            }
        } else if name_lt(b[0].0, a[0].0) {
            assert(m =~= seq![b[0]] + others_merge(a, b.drop_first())->Some_0);
            assert(m.drop_first() =~= others_merge(a, b.drop_first())->Some_0);
            if b[0].0 == n {
            } else {
                lemma_merge_lookup_secret_right(a, b.drop_first(), n);
            }
        } else {
            let k = key_max(b[0].1, a[0].1)->Some_0;
            assert(m =~= seq![(a[0].0, k)] + others_merge(a.drop_first(), b.drop_first())->Some_0);
            assert(m.drop_first() =~= others_merge(a.drop_first(), b.drop_first())->Some_0);
            assert(a[0].0 == b[0].0) by {
                broadcast use vstd::utf8::encode_utf8_decode_utf8;

                assert(vstd::utf8::encode_utf8(a[0].0) == vstd::utf8::encode_utf8(b[0].0));
                assert(vstd::utf8::decode_utf8(vstd::utf8::encode_utf8(a[0].0))
                    == vstd::utf8::decode_utf8(vstd::utf8::encode_utf8(b[0].0)));
            }
            if b[0].0 == n {
                assert(b[0].1 is Secret);
                assert(k is Secret);
            } else {
                lemma_merge_lookup_secret_right(a.drop_first(), b.drop_first(), n);
            }
        }
    }
}

/// In a sorted list, a bound name is the head or comes after it.
proof fn lemma_lookup_ge(a: Seq<(Seq<char>, KeyV)>, n: Seq<char>)
    requires
        names_sorted(a),
        name_lookup(a, n) is Some,
        a.len() > 0,
    ensures
        n == a[0].0 || name_lt(a[0].0, n),
    decreases a.len(),
{
    if a[0].0 == n {
    } else {
        assert(names_sorted(a.drop_first())) by {
            assert(forall|i: int, j: int|
                0 <= i < j < a.drop_first().len() ==> a.drop_first()[i] == a[i + 1]
                    && a.drop_first()[j] == a[j + 1]);
        }
        lemma_lookup_ge(a.drop_first(), n);
        assert(a.drop_first()[0] == a[1]);
        if name_lt(a[1].0, n) {
            crate::codec::lemma_bytes_lt_trans(
                vstd::utf8::encode_utf8(a[0].0),
                vstd::utf8::encode_utf8(a[1].0),
                vstd::utf8::encode_utf8(n),
            );
        }
    }
}

/// In a merge, a name bound to a secret key on the left stays bound to a
/// secret key.
proof fn lemma_merge_lookup_secret(
    a: Seq<(Seq<char>, KeyV)>,
    b: Seq<(Seq<char>, KeyV)>,
    n: Seq<char>,
)
    requires
        others_merge(a, b) is Some,
        names_sorted(a),
        names_sorted(b),
        name_lookup(a, n) matches Some(k) && k is Secret,
    ensures
        name_lookup(others_merge(a, b)->Some_0, n) matches Some(k2) && k2 is Secret,
    decreases a.len() + b.len(),
{
    let m = others_merge(a, b)->Some_0;
    if b.len() == 0 {
    } else if a.len() == 0 {
    } else {
        crate::codec::lemma_bytes_lt_trichotomy(
            vstd::utf8::encode_utf8(a[0].0),
            vstd::utf8::encode_utf8(b[0].0),
        );
        assert(names_sorted(a.drop_first()) && names_sorted(b.drop_first())) by {
            assert(forall|i: int, j: int|
                0 <= i < j < a.drop_first().len() ==> a.drop_first()[i] == a[i + 1]
                    && a.drop_first()[j] == a[j + 1]);
            assert(forall|i: int, j: int|
                0 <= i < j < b.drop_first().len() ==> b.drop_first()[i] == b[i + 1]
                    && b.drop_first()[j] == b[j + 1]);
        }
        if name_lt(a[0].0, b[0].0) {
            assert(m =~= seq![a[0]] + others_merge(a.drop_first(), b)->Some_0);
            assert(m.drop_first() =~= others_merge(a.drop_first(), b)->Some_0);
            if a[0].0 == n {
            } else {
                lemma_merge_lookup_secret(a.drop_first(), b, n);
            }
        } else if name_lt(b[0].0, a[0].0) {
            assert(m =~= seq![b[0]] + others_merge(a, b.drop_first())->Some_0);
            assert(m.drop_first() =~= others_merge(a, b.drop_first())->Some_0);
            lemma_lookup_ge(a, n);
            if b[0].0 == n {
                crate::codec::lemma_bytes_lt_trichotomy(
                    vstd::utf8::encode_utf8(b[0].0),
                    vstd::utf8::encode_utf8(a[0].0),
                );
                assert(false);
            } else {
                lemma_merge_lookup_secret(a, b.drop_first(), n);
            }
        } else {
            let k = key_max(b[0].1, a[0].1)->Some_0;
            assert(m =~= seq![(a[0].0, k)] + others_merge(a.drop_first(), b.drop_first())->Some_0);
            assert(m.drop_first() =~= others_merge(a.drop_first(), b.drop_first())->Some_0);
            if a[0].0 == n {
                assert(a[0].1 is Secret);
                assert(k is Secret);
            } else {
                lemma_merge_lookup_secret(a.drop_first(), b.drop_first(), n);
            }
        }
    }
}


} // verus!
