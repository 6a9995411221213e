//! The header cache: the session's map from record paths to known
//! headers, with monotonic key-joining on insertion, and the derivation of
//! fresh child headers from a parent and a protocol.

use vstd::prelude::*;

use crate::Id;
use crate::codec;
use crate::crypto;
use crate::records::{
    ChildrenValidation, Header, HeaderInfo, HeaderV, Key, KeySet, PathedKey, RecordPath,
    Validation, ValidationError, WSecretKey, keyset_max, path_indices, validation_ok,
};

verus! {

/// A protocol generates headers: the built-in pointer protocol embeds a
/// foreign header, and a plain protocol carries a fixed schema and header
/// contribution.
#[derive(Debug)]
pub enum Protocol {
    /// The sentinel protocol: a record whose data is another record's
    /// header.
    Pointer(Header),
    /// A protocol with a fixed validation schema and header info.
    Plain(Validation, HeaderInfo),
}

/// The protocol id a [`Protocol`] stamps on its headers.
pub open spec fn protocol_id(p: Protocol) -> Seq<u8> {
    match p {
        Protocol::Pointer(_) => crate::max_id(),
        Protocol::Plain(v, _) => codec::validation_id(v@),
    }
}

/// The validation schema a [`Protocol`] carries: pointers have the empty
/// schema.
pub open spec fn protocol_validation(p: Protocol) -> crate::records::ValidationV {
    match p {
        Protocol::Pointer(_) => crate::records::ValidationV {
            children: None,
            delete: None,
            key_states: Seq::empty(),
            allow_extra_keys: false,
        },
        Protocol::Plain(v, _) => v@,
    }
}

/// The header info a [`Protocol`] contributes: pointers contribute the
/// encoded target header as data.
pub open spec fn protocol_info(p: Protocol) -> crate::records::HeaderInfoV {
    match p {
        Protocol::Pointer(h) => crate::records::HeaderInfoV {
            delete: None,
            others: Seq::empty(),
            data: codec::enc_header(h@),
        },
        Protocol::Plain(_, i) => i@,
    }
}

impl Protocol {
    /// The schema; constant for a given protocol.
    pub fn validation(&self) -> (r: Validation)
        ensures
            r@ == protocol_validation(*self),
    {
        match self {
            Protocol::Pointer(_) => {
                let r = Validation::new(None, None, Vec::new(), false);
                proof {
                    assert(r@.key_states =~= Seq::<(Seq<char>, bool)>::empty());
                }
                r
            },
            Protocol::Plain(v, _) => v.clone(),
        }
    }

    /// What this protocol contributes to a new header.
    pub fn header_info(&self) -> (r: HeaderInfo)
        ensures
            r@ == protocol_info(*self),
    {
        match self {
            Protocol::Pointer(h) => {
                let data = codec::encode_header(h);
                let r = HeaderInfo::new(None, Vec::new(), data);
                proof {
                    assert(r@.others =~= Seq::<(Seq<char>, crate::records::KeyV)>::empty());
                }
                r
            },
            Protocol::Plain(_, i) => {
                let delete = match &i.delete {
                    Some(k) => Some(k.clone()),
                    None => None,
                };
                let others = crate::records::clone_pairs(&i.others);
                let r = HeaderInfo::new(delete, others, i.data.clone());
                r
            },
        }
    }

    /// The protocol id: the pointer sentinel, or the schema's hash.
    pub fn id(&self) -> (r: Id)
        ensures
            r@ == protocol_id(*self),
            r.wf(),
    {
        match self {
            Protocol::Pointer(_) => Id::id_max(),
            Protocol::Plain(v, _) => v.id(),
        }
    }
}

/// The model of the cache's entry list.
pub open spec fn entries_view(v: Seq<(RecordPath, Header)>) -> Seq<(Seq<Seq<u8>>, HeaderV)> {
    v.map_values(|e: (RecordPath, Header)| (e.0@, e.1@))
}

/// Whether a cached path ends with the given path's segments.
pub open spec fn is_path_suffix(p: Seq<Seq<u8>>, suffix: Seq<Seq<u8>>) -> bool {
    suffix.len() <= p.len() && p.skip(p.len() - suffix.len()) == suffix
}

/// The first cached header whose path ends with the given segments.
pub open spec fn cache_get(es: Seq<(Seq<Seq<u8>>, HeaderV)>, path: Seq<Seq<u8>>) -> Option<
    HeaderV,
>
    decreases es.len(),
{
    if es.len() == 0 {
        None
    } else if is_path_suffix(es[0].0, path) {
        Some(es[0].1)
    } else {
        cache_get(es.drop_first(), path)
    }
}

/// One merge step: join the keys of the incoming header with a cached
/// copy; on a key clash the incoming header stands unchanged.
pub open spec fn merge_step(h: HeaderV, e: HeaderV) -> HeaderV {
    match keyset_max(h.keys, e.keys) {
        Some(ks) => HeaderV { keys: ks, validation: h.validation, data: h.data, protocol: h.protocol },
        None => h,
    }
}

/// The join of the incoming header with every cached copy of its id, in
/// storage order; copies whose keys clash are skipped.
pub open spec fn cache_join(es: Seq<(Seq<Seq<u8>>, HeaderV)>, h: HeaderV, hid: Seq<u8>) -> HeaderV
    decreases es.len(),
{
    if es.len() == 0 {
        h
    } else if es[0].0.len() > 0 && es[0].0.last() == hid {
        cache_join(es.drop_first(), merge_step(h, es[0].1), hid)
    } else {
        cache_join(es.drop_first(), h, hid)
    }
}

/// Every entry whose path ends in the id rewritten to the one merged
/// header; all other entries unchanged.
pub open spec fn cache_rewrite(es: Seq<(Seq<Seq<u8>>, HeaderV)>, m: HeaderV, hid: Seq<u8>) -> Seq<
    (Seq<Seq<u8>>, HeaderV),
> {
    Seq::new(
        es.len(),
        |i: int|
            if es[i].0.len() > 0 && es[i].0.last() == hid {
                (es[i].0, m)
            } else {
                es[i]
            },
    )
}

/// Replace the first entry at exactly this path, or append one.
pub open spec fn upsert(es: Seq<(Seq<Seq<u8>>, HeaderV)>, p: Seq<Seq<u8>>, h: HeaderV) -> Seq<
    (Seq<Seq<u8>>, HeaderV),
>
    decreases es.len(),
{
    if es.len() == 0 {
        seq![(p, h)]
    } else if es[0].0 == p {
        seq![(p, h)] + es.drop_first()
    } else {
        seq![es[0]] + upsert(es.drop_first(), p, h)
    }
}

/// The session cache: the root pathed key and the known headers.
#[derive(Debug)]
pub struct Cache {
    pub root: PathedKey,
    pub entries: Vec<(RecordPath, Header)>,
}

/// Exact segment equality of two paths.
fn paths_equal(a: &RecordPath, b: &RecordPath) -> (r: bool)
    ensures
        r == (a@ == b@),
{
    if a.0.len() != b.0.len() {
        proof {
            if a@ == b@ {
                assert(false);
            }
        }
        return false;
    }
    let r = a.is_prefix_of(b);
    proof {
        if r {
            assert(b@.take(a@.len() as int) =~= b@);
        } else {
            if a@ == b@ {
                assert(a@ == b@.take(a@.len() as int));
            }
        }
    }
    r
}

/// Whether a cached path ends with the given path's segments.
fn path_ends_with(p: &RecordPath, suffix: &RecordPath) -> (r: bool)
    ensures
        r == is_path_suffix(p@, suffix@),
{
    if suffix.0.len() > p.0.len() {
        return false;
    }
    let start = p.0.len() - suffix.0.len();
    let mut i: usize = 0;
    while i < suffix.0.len()
        invariant
            suffix.0@.len() <= p.0@.len(),
            p.0@.len() <= usize::MAX,
            start == p.0@.len() - suffix.0@.len(),
            i <= suffix.0@.len(),
            forall|j: int| 0 <= j < i ==> (#[trigger] p.0@[start + j])@ == suffix.0@[j]@,
        decreases suffix.0@.len() - i,
    {
        if !p.0[start + i].equals(&suffix.0[i]) {
            proof {
                assert(p@.skip(p@.len() - suffix@.len())[i as int] == p@[start + i]);
                assert(p@[start + i] == p.0@[start + i]@);
                assert(suffix@[i as int] == suffix.0@[i as int]@);
            }
            return false;
        }
        i = i + 1;
    }
    proof {
        assert forall|j: int| 0 <= j < suffix@.len() implies p@.skip(
            p@.len() - suffix@.len(),
        )[j] == suffix@[j] by {
            assert(p@[start + j] == p.0@[start + j]@);
            assert(suffix@[j] == suffix.0@[j]@);
        }
        assert(p@.skip(p@.len() - suffix@.len()) =~= suffix@);
    }
    true
}

impl Cache {
    /// A fresh cache for a root key: the synthesized root header has
    /// random discover and read secrets, child keys derived at indices 0
    /// and 1 from the root secret, and a schema admitting any child.
    pub fn new(root: PathedKey) -> (r: Result<Cache, ValidationError>)
        ensures
            match r {
                Ok(c) => {
                    &&& c.root.path@ == root.path@
                    &&& c.root.key@ == root.key@
                    &&& c.entries@.len() == 1
                    &&& c.entries@[0].0@ == root.path@
                    &&& ({
                        let h = c.entries@[0].1@;
                        &&& h.keys.children matches Some((d, rc)) && (d matches
                            crate::records::KeyV::Secret(dw) && Some(dw.secret)
                            == crypto::derive_of(root.key@, seq![0u32])) && (rc matches
                            crate::records::KeyV::Secret(rw) && Some(rw.secret)
                            == crypto::derive_of(root.key@, seq![1u32]))
                        &&& h.keys.delete is None
                        &&& h.keys.others.len() == 0
                        &&& h.validation.children matches Some(cv) && cv.children.len() == 0
                            && cv.anyone_discover && cv.anyone_read && cv.allow_pointers
                        &&& h.validation.delete is None
                        &&& h.validation.key_states.len() == 0
                        &&& h.data.len() == 0
                        &&& h.protocol == codec::validation_id(h.validation)
                        &&& h.keys.wf()
                        &&& validation_ok(h.validation, h.keys)
                    })
                },
                Err(_) => crypto::derive_of(root.key@, seq![0u32]) is None || crypto::derive_of(
                    root.key@,
                    seq![1u32],
                ) is None,
            },
    {
        let validation = Validation::new(
            Some(ChildrenValidation::new(Vec::new(), true, true, true)),
            None,
            Vec::new(),
            false,
        );
        let validation_id = validation.id();
        let discover = match WSecretKey::from_secret(crypto::gen_secret()) {
            Ok(w) => w,
            Err(_) => {
                proof {
                    assert(false);
                }
                return Err(ValidationError::MissingPerms(String::from_str("Discover")));
            },
        };
        let read = match WSecretKey::from_secret(crypto::gen_secret()) {
            Ok(w) => w,
            Err(_) => {
                proof {
                    assert(false);
                }
                return Err(ValidationError::MissingPerms(String::from_str("Read")));
            },
        };
        let mut ix0: Vec<u32> = Vec::new();
        ix0.push(0u32);
        let mut ix1: Vec<u32> = Vec::new();
        ix1.push(1u32);
        proof {
            assert(ix0@ =~= seq![0u32]);
            assert(ix1@ =~= seq![1u32]);
        }
        let dc = match crypto::derive_key(&root.key, &ix0) {
            Ok(k) => k,
            Err(_) => {
                return Err(ValidationError::MissingPerms(String::from_str("DiscoverChild")));
            },
        };
        let rc = match crypto::derive_key(&root.key, &ix1) {
            Ok(k) => k,
            Err(_) => {
                return Err(ValidationError::MissingPerms(String::from_str("ReadChild")));
            },
        };
        let dcw = match WSecretKey::from_secret(dc) {
            Ok(w) => w,
            Err(_) => {
                proof {
                    assert(false);
                }
                return Err(ValidationError::MissingPerms(String::from_str("DiscoverChild")));
            },
        };
        let rcw = match WSecretKey::from_secret(rc) {
            Ok(w) => w,
            Err(_) => {
                proof {
                    assert(false);
                }
                return Err(ValidationError::MissingPerms(String::from_str("ReadChild")));
            },
        };
        let header = Header {
            keys: KeySet {
                discover,
                read,
                children: Some((Key::Secret(dcw), Key::Secret(rcw))),
                delete: None,
                others: Vec::new(),
            },
            validation,
            data: Vec::new(),
            protocol: validation_id,
        };
        let path = root.path.clone();
        let mut entries: Vec<(RecordPath, Header)> = Vec::new();
        entries.push((path, header));
        proof {
            assert(entries@[0].1@.keys.others =~= Seq::<(Seq<char>, crate::records::KeyV)>::empty());
            assert(entries@[0].1@.validation.key_states =~= Seq::<(Seq<char>, bool)>::empty());
            assert(entries@[0].1@.validation.children->Some_0.children =~= Seq::<Seq<u8>>::empty());
            assert(crate::records::names_of(entries@[0].1@.keys.others)
                =~= crate::records::names_of(entries@[0].1@.validation.key_states));
        }
        Ok(Cache { root, entries })
    }

    /// The first cached header whose path ends with the given segments.
    pub fn get(&self, path: &RecordPath) -> (r: Option<&Header>)
        ensures
            match r {
                Some(h) => cache_get(entries_view(self.entries@), path@) == Some(h@),
                None => cache_get(entries_view(self.entries@), path@) is None,
            },
    {
        proof {
            assert(entries_view(self.entries@).skip(0) =~= entries_view(self.entries@));
        }
        self.get_from(0, path)
    }

    fn get_from(&self, i: usize, path: &RecordPath) -> (r: Option<&Header>)
        requires
            i <= self.entries@.len(),
        ensures
            match r {
                Some(h) => cache_get(entries_view(self.entries@).skip(i as int), path@) == Some(
                    h@,
                ),
                None => cache_get(entries_view(self.entries@).skip(i as int), path@) is None,
            },
        decreases self.entries@.len() - i,
    {
        if i == self.entries.len() {
            None
        } else {
            proof {
                assert(entries_view(self.entries@).skip(i as int).drop_first() =~= entries_view(
                    self.entries@,
                ).skip(i + 1));
            }
            let (p, h) = &self.entries[i];
            if path_ends_with(p, path) {
                Some(h)
            } else {
                self.get_from(i + 1, path)
            }
        }
    }

    /// Remove the entry at exactly this path, returning its header.
    pub fn remove(&mut self, path: &RecordPath) -> (r: Option<Header>)
        ensures
            final(self).root.path@ == old(self).root.path@,
            final(self).root.key@ == old(self).root.key@,
            match r {
                Some(h) => exists|ix: int|
                    0 <= ix < entries_view(old(self).entries@).len() && (
                    #[trigger] entries_view(old(self).entries@)[ix]).0 == path@ && entries_view(
                        old(self).entries@,
                    )[ix].1 == h@ && entries_view(final(self).entries@) == entries_view(
                        old(self).entries@,
                    ).remove(ix),
                None => final(self).entries@ == old(self).entries@,
            },
    {
        let mut i: usize = 0;
        while i < self.entries.len()
            invariant
                i <= self.entries@.len(),
                forall|j: int| 0 <= j < i ==> (#[trigger] entries_view(self.entries@)[j]).0
                    != path@,
                self.entries@ == old(self).entries@,
                self.root.path@ == old(self).root.path@,
                self.root.key@ == old(self).root.key@,
            decreases self.entries@.len() - i,
        {
            let found = paths_equal(&self.entries[i].0, path);
            proof {
                assert(entries_view(self.entries@)[i as int] == (
                    self.entries@[i as int].0@,
                    self.entries@[i as int].1@,
                ));
            }
            if found {
                let ghost es0 = entries_view(self.entries@);
                let (_, h) = self.entries.remove(i);
                proof {
                    assert(entries_view(self.entries@) =~= es0.remove(i as int));
                    assert(es0[i as int].0 == path@ && es0[i as int].1 == h@);
                }
                return Some(h);
            }
            i = i + 1;
        }
        None
    }

    /// The join of `h` with every cached copy of `hid` from `i` on; the
    /// cache itself is untouched; see [`cache_join`].
    fn join_entries(&self, i: usize, h: Header, hid: &Id) -> (r: Header)
        requires
            i <= self.entries@.len(),
        ensures
            r@ == cache_join(entries_view(self.entries@).skip(i as int), h@, hid@),
        decreases self.entries@.len() - i,
    {
        if i == self.entries.len() {
            h
        } else {
            proof {
                assert(entries_view(self.entries@).skip(i as int).drop_first() =~= entries_view(
                    self.entries@,
                ).skip(i + 1));
                assert(entries_view(self.entries@)[i as int] == (
                    self.entries@[i as int].0@,
                    self.entries@[i as int].1@,
                ));
            }
            let matches_id: bool = {
                let p = &self.entries[i].0;
                if p.0.len() == 0 {
                    false
                } else {
                    let e = p.0[p.0.len() - 1].equals(hid);
                    proof {
                        assert(p@.last() == p.0@[p.0@.len() - 1]@);
                    }
                    e
                }
            };
            if matches_id {
                let h2 = match h.clone().max(self.entries[i].1.clone()) {
                    Ok(m) => m,
                    Err(_) => h,
                };
                self.join_entries(i + 1, h2, hid)
            } else {
                self.join_entries(i + 1, h, hid)
            }
        }
    }

    /// Write the one merged header into every entry whose path ends in
    /// `hid`, from `i` on; see [`cache_rewrite`].
    fn rewrite_entries(&mut self, i: usize, m: &Header, hid: &Id)
        requires
            i <= old(self).entries@.len(),
        ensures
            final(self).root.path@ == old(self).root.path@,
            final(self).root.key@ == old(self).root.key@,
            final(self).entries@.len() == old(self).entries@.len(),
            entries_view(final(self).entries@).take(i as int) == entries_view(
                old(self).entries@,
            ).take(i as int),
            entries_view(final(self).entries@).skip(i as int) == cache_rewrite(
                entries_view(old(self).entries@).skip(i as int),
                m@,
                hid@,
            ),
        decreases old(self).entries@.len() - i,
    {
        if i == self.entries.len() {
            proof {
                assert(entries_view(self.entries@).skip(i as int) =~= cache_rewrite(
                    entries_view(self.entries@).skip(i as int),
                    m@,
                    hid@,
                ));
            }
        } else {
            let ghost es0 = entries_view(self.entries@);
            proof {
                assert(es0[i as int] == (self.entries@[i as int].0@, self.entries@[i as int].1@));
            }
            let matches_id: bool = {
                let p = &self.entries[i].0;
                if p.0.len() == 0 {
                    false
                } else {
                    let e = p.0[p.0.len() - 1].equals(hid);
                    proof {
                        assert(p@.last() == p.0@[p.0@.len() - 1]@);
                    }
                    e
                }
            };
            if matches_id {
                let p = self.entries[i].0.clone();
                self.entries.set(i, (p, m.clone()));
                proof {
                    assert(entries_view(self.entries@) =~= es0.update(
                        i as int,
                        (es0[i as int].0, m@),
                    ));
                }
            }
            let ghost es1 = entries_view(self.entries@);
            self.rewrite_entries(i + 1, m, hid);
            proof {
                assert(es1.skip(i + 1) =~= es0.skip(i + 1));
                assert(entries_view(self.entries@).take(i as int) =~= es0.take(i as int)) by {
                    assert(forall|j: int|
                        0 <= j < i ==> #[trigger] entries_view(self.entries@).take(i + 1)[j]
                            == es1.take(i + 1)[j]);
                }
                assert(entries_view(self.entries@)[i as int] == es1[i as int]) by {
                    assert(entries_view(self.entries@).take(i + 1)[i as int] == es1.take(
                        i + 1,
                    )[i as int]);
                }
                assert forall|l: int|
                    0 <= l < entries_view(self.entries@).skip(i as int).len() implies entries_view(
                    self.entries@,
                ).skip(i as int)[l] == cache_rewrite(es0.skip(i as int), m@, hid@)[l] by {
                    if l > 0 {
                        assert(entries_view(self.entries@).skip(i + 1)[l - 1] == cache_rewrite(
                            es1.skip(i + 1),
                            m@,
                            hid@,
                        )[l - 1]);
                        assert(es0.skip(i + 1)[l - 1] == es0.skip(i as int)[l]);
                        assert(entries_view(self.entries@).skip(i as int)[l] == entries_view(
                            self.entries@,
                        ).skip(i + 1)[l - 1]);
                    }
                }
                assert(entries_view(self.entries@).skip(i as int) =~= cache_rewrite(
                    es0.skip(i as int),
                    m@,
                    hid@,
                ));
            }
        }
    }

    /// Merge-insert a header: compute the one join of the header with
    /// every cached copy under its id, write that merged header to each of
    /// those entries, then file it under `parent` joined with the id; see
    /// [`cache_join`], [`cache_rewrite`] and [`upsert`].
    #[verifier::loop_isolation(false)]
    pub fn cache(&mut self, parent: RecordPath, header: Header)
        ensures
            final(self).root.path@ == old(self).root.path@,
            final(self).root.key@ == old(self).root.key@,
            ({
                let hid = codec::header_id(header@);
                let m = cache_join(entries_view(old(self).entries@), header@, hid);
                entries_view(final(self).entries@) == upsert(
                    cache_rewrite(entries_view(old(self).entries@), m, hid),
                    parent@.push(hid),
                    m,
                )
            }),
    {
        let hid = header.id();
        proof {
            assert(entries_view(self.entries@).skip(0) =~= entries_view(self.entries@));
        }
        let merged = self.join_entries(0, header, &hid);
        self.rewrite_entries(0, &merged, &hid);
        let path = parent.join(hid);
        let ghost folded = entries_view(self.entries@);
        proof {
            assert(entries_view(old(self).entries@).skip(0) =~= entries_view(old(self).entries@));
            assert(folded == cache_rewrite(
                entries_view(old(self).entries@),
                merged@,
                hid@,
            ));
            assert(merged@ == cache_join(entries_view(old(self).entries@), header@, hid@));
        }
        let ghost p_view0 = path@;
        let ghost m_view0 = merged@;
        let mut i: usize = 0;
        while i < self.entries.len()
            invariant
                i <= self.entries@.len(),
                entries_view(self.entries@) == folded,
                path@ == p_view0,
                merged@ == m_view0,
                forall|j: int| 0 <= j < i ==> (#[trigger] folded[j]).0 != p_view0,
                self.root.path@ == old(self).root.path@,
                self.root.key@ == old(self).root.key@,
            decreases self.entries@.len() - i,
        {
            let found = paths_equal(&self.entries[i].0, &path);
            proof {
                assert(folded[i as int] == (self.entries@[i as int].0@, self.entries@[i as int].1@));
            }
            if found {
                self.entries.set(i, (path, merged));
                proof {
                    lemma_upsert_found(folded, p_view0, m_view0, i as int);
                    assert(entries_view(self.entries@) =~= folded.update(
                        i as int,
                        (p_view0, m_view0),
                    ));
                }
                return ;
            }
            i = i + 1;
        }
        let ghost p_view = path@;
        let ghost m_view = merged@;
        self.entries.push((path, merged));
        proof {
            lemma_upsert_append(folded, p_view, m_view);
            assert(entries_view(self.entries@) =~= upsert(folded, p_view, m_view));
        }
    }
}

/// When the first `ix` entries miss the path and entry `ix` hits it,
/// upsert replaces entry `ix`.
proof fn lemma_upsert_found(es: Seq<(Seq<Seq<u8>>, HeaderV)>, p: Seq<Seq<u8>>, h: HeaderV, ix: int)
    requires
        0 <= ix < es.len(),
        es[ix].0 == p,
        forall|j: int| 0 <= j < ix ==> (#[trigger] es[j]).0 != p,
    ensures
        upsert(es, p, h) == es.update(ix, (p, h)),
    decreases ix,
{
    if ix == 0 {
        assert(upsert(es, p, h) =~= es.update(0, (p, h)));
    } else {
        lemma_upsert_found(es.drop_first(), p, h, ix - 1);
        assert(es.drop_first().update(ix - 1, (p, h)) =~= es.update(ix, (p, h)).drop_first());
        assert(upsert(es, p, h) =~= es.update(ix, (p, h)));
    }
}

/// When no entry holds the path, upsert appends.
proof fn lemma_upsert_append(es: Seq<(Seq<Seq<u8>>, HeaderV)>, p: Seq<Seq<u8>>, h: HeaderV)
    requires
        forall|j: int| 0 <= j < es.len() ==> (#[trigger] es[j]).0 != p,
    ensures
        upsert(es, p, h) == es.push((p, h)),
    decreases es.len(),
{
    if es.len() == 0 {
        assert(upsert(es, p, h) =~= es.push((p, h)));
    } else {
        lemma_upsert_append(es.drop_first(), p, h);
        assert(es.drop_first().push((p, h)) =~= es.push((p, h)).drop_first());
        assert(upsert(es, p, h) =~= es.push((p, h)));
    }
}

/// The slot key for `(parent, index)`: the root secret derived along the
/// suffix of `parent` under the root path, then once more at `255 +
/// index`.
pub open spec fn derived_slot(
    root_key: Seq<u8>,
    root_path: Seq<Seq<u8>>,
    parent: Seq<Seq<u8>>,
    index: u32,
) -> Option<Seq<u8>> {
    if root_path.len() <= parent.len() && root_path == parent.take(root_path.len() as int) {
        match crypto::derive_of(root_key, path_indices(parent.skip(root_path.len() as int))) {
            Some(k) => crypto::derive_of(k, seq![(255 + index) as u32]),
            None => None,
        }
    } else {
        None
    }
}


/// A derived secret paired with its public half, when the derivation and
/// the public computation both succeed.
pub open spec fn secret_pair(s: Option<Seq<u8>>) -> Option<crate::records::WSecretKeyV> {
    match s {
        Some(k) => match crypto::public_of(k) {
            Some(p) => Some(crate::records::WSecretKeyV { secret: k, public: p }),
            None => None,
        },
        None => None,
    }
}

/// The child header [`Cache::header`] constructs, or `None` exactly when a
/// step fails: the slot key or one of its derivations is unavailable, the
/// parent is not cached, the protocol is not an admissible child, the
/// parent's child keys are absent or not secret, a record-level key cannot
/// be derived, or the assembled header fails its own schema.
pub open spec fn header_spec(
    root_key: Seq<u8>,
    root_path: Seq<Seq<u8>>,
    entries: Seq<(Seq<Seq<u8>>, HeaderV)>,
    pid: Seq<u8>,
    pval: crate::records::ValidationV,
    pinfo: crate::records::HeaderInfoV,
    parent: Seq<Seq<u8>>,
    index: u32,
) -> Option<HeaderV> {
    let mkey = derived_slot(root_key, root_path, parent, index);
    let dc = secret_pair(
        match mkey {
            Some(k) => crypto::derive_of(k, seq![0u32]),
            None => None,
        },
    );
    let rc = secret_pair(
        match mkey {
            Some(k) => crypto::derive_of(k, seq![1u32]),
            None => None,
        },
    );
    let ph_opt = cache_get(entries, parent);
    if mkey is None || dc is None || rc is None || ph_opt is None {
        None
    } else if !crate::records::is_child_spec(ph_opt->Some_0.validation, pid) {
        None
    } else {
        match ph_opt->Some_0.keys.children {
            Some((dck, rck)) => match (dck, rck) {
                (crate::records::KeyV::Secret(dw), crate::records::KeyV::Secret(rw)) => {
                    let discover = secret_pair(crypto::derive_of(dw.secret, seq![index]));
                    let read = secret_pair(crypto::derive_of(rw.secret, seq![index]));
                    match (discover, read) {
                        (Some(d), Some(rd)) => {
                            let h = HeaderV {
                                keys: crate::records::KeySetV {
                                    discover: d,
                                    read: rd,
                                    children: if pval.children is Some {
                                        Some(
                                            (
                                                crate::records::KeyV::Secret(dc->Some_0),
                                                crate::records::KeyV::Secret(rc->Some_0),
                                            ),
                                        )
                                    } else {
                                        None
                                    },
                                    delete: pinfo.delete,
                                    others: pinfo.others,
                                },
                                validation: pval,
                                data: pinfo.data,
                                protocol: pid,
                            };
                            if validation_ok(h.validation, h.keys) {
                                Some(h)
                            } else {
                                None
                            }
                        },
                        _ => None,
                    }
                },
                _ => None,
            },
            None => None,
        }
    }
}

impl Cache {
    /// Construct the child header for `protocol` at `index` under
    /// `parent`: record discover and read are derived from the parent's
    /// child keys at `index`, the child-derivation pair from the slot key
    /// at indices 0 and 1, and delete, named keys and data come from the
    /// protocol; the result must pass its own schema.
    pub fn header(&self, parent: &RecordPath, protocol: &Protocol, index: u32) -> (r: Result<
        Header,
        crate::records::Error,
    >)
        requires
            index <= u32::MAX - 255,
        ensures
            match r {
                Ok(h) => {
                    &&& header_spec(
                        self.root.key@,
                        self.root.path@,
                        entries_view(self.entries@),
                        protocol_id(*protocol),
                        protocol_validation(*protocol),
                        protocol_info(*protocol),
                        parent@,
                        index,
                    ) == Some(h@)
                    &&& h@.keys.discover.wf() && h@.keys.read.wf()
                    &&& (h@.keys.children matches Some((a, b)) ==> a.wf() && b.wf())
                },
                Err(e) => header_spec(
                    self.root.key@,
                    self.root.path@,
                    entries_view(self.entries@),
                    protocol_id(*protocol),
                    protocol_validation(*protocol),
                    protocol_info(*protocol),
                    parent@,
                    index,
                ) is None && (e is Validation || e is EasySecp256k1) && (
                e matches crate::records::Error::Validation(v) ==> ({
                    let ph_opt = cache_get(entries_view(self.entries@), parent@);
                    match v {
                        ValidationError::MissingRecord(_) => ph_opt is None,
                        ValidationError::InvalidProtocol(_) => ph_opt is Some
                            && !crate::records::is_child_spec(
                            ph_opt->Some_0.validation,
                            protocol_id(*protocol),
                        ),
                        ValidationError::InvalidParent(_) => ph_opt is Some
                            && ph_opt->Some_0.keys.children is None,
                        _ => true,
                    }
                })) && ({
                    // The converses, under the derivations the checks
                    // follow: each cause surfaces as its own error kind.
                    let ph_opt = cache_get(entries_view(self.entries@), parent@);
                    let deriv_ok = derived_slot(
                        self.root.key@,
                        self.root.path@,
                        parent@,
                        index,
                    ) matches Some(mk) && crypto::derive_of(mk, seq![0u32]) is Some
                        && crypto::derive_of(mk, seq![1u32]) is Some;
                    &&& ((deriv_ok && ph_opt is None) ==> (
                    e matches crate::records::Error::Validation(v2) && v2 is MissingRecord))
                    &&& ((deriv_ok && ph_opt is Some && !crate::records::is_child_spec(
                        ph_opt->Some_0.validation,
                        protocol_id(*protocol),
                    )) ==> (e matches crate::records::Error::Validation(v3)
                        && v3 is InvalidProtocol))
                    &&& ((deriv_ok && ph_opt is Some && crate::records::is_child_spec(
                        ph_opt->Some_0.validation,
                        protocol_id(*protocol),
                    ) && ph_opt->Some_0.keys.children is None) ==> (
                    e matches crate::records::Error::Validation(v4) && v4 is InvalidParent))
                    &&& ((deriv_ok && ph_opt is Some && crate::records::is_child_spec(
                        ph_opt->Some_0.validation,
                        protocol_id(*protocol),
                    ) && (ph_opt->Some_0.keys.children matches Some((dck, rck)) && (!(
                    dck is Secret) || !(rck is Secret)))) ==> (
                    e matches crate::records::Error::Validation(v5) && v5 is MissingPerms))
                }),
            },
    {
        let pathed = PathedKey { path: self.root.path.clone(), key: self.root.key.clone() };
        let derived = match pathed.derive(parent) {
            Ok(p) => p,
            Err(e) => {
                return Err(crate::records::Error::Validation(e));
            },
        };
        let mkey = match derived.index(index) {
            Ok(k) => k,
            Err(e) => {
                return Err(crate::records::Error::EasySecp256k1(e));
            },
        };
        let mkey_pathed = PathedKey { path: parent.clone(), key: mkey };
        let mut ix: Vec<u32> = Vec::new();
        ix.push(0u32);
        let discover_child = match crypto::derive_key(&mkey_pathed.key, &ix) {
            Ok(k) => k,
            Err(_) => {
                return Err(
                    crate::records::Error::EasySecp256k1(crypto::CryptoError::InvalidKey),
                );
            },
        };
        let mut ix1: Vec<u32> = Vec::new();
        ix1.push(1u32);
        let read_child = match crypto::derive_key(&mkey_pathed.key, &ix1) {
            Ok(k) => k,
            Err(_) => {
                return Err(
                    crate::records::Error::EasySecp256k1(crypto::CryptoError::InvalidKey),
                );
            },
        };
        proof {
            assert(ix@ =~= seq![0u32]);
            assert(ix1@ =~= seq![1u32]);
        }
        let header_info = protocol.header_info();
        let validation = protocol.validation();
        let protocol_id_val = protocol.id();
        let parent_h = match self.get(parent) {
            Some(h) => h,
            None => {
                return Err(
                    crate::records::Error::Validation(
                        ValidationError::MissingRecord(String::from_str("Parent")),
                    ),
                );
            },
        };
        if !parent_h.validation.is_child(&protocol_id_val) {
            return Err(
                crate::records::Error::Validation(
                    ValidationError::InvalidProtocol(protocol_id_val),
                ),
            );
        }
        let (dck, rck) = match &parent_h.keys.children {
            Some((a, b)) => (a, b),
            None => {
                return Err(
                    crate::records::Error::Validation(
                        ValidationError::InvalidParent(String::from_str("Parent")),
                    ),
                );
            },
        };
        let dcw = match dck.secret() {
            Some(w) => w,
            None => {
                return Err(
                    crate::records::Error::Validation(
                        ValidationError::MissingPerms(String::from_str("DiscoverChild")),
                    ),
                );
            },
        };
        let rcw = match rck.secret() {
            Some(w) => w,
            None => {
                return Err(
                    crate::records::Error::Validation(
                        ValidationError::MissingPerms(String::from_str("ReadChild")),
                    ),
                );
            },
        };
        let mut ixr: Vec<u32> = Vec::new();
        ixr.push(index);
        proof {
            assert(ixr@ =~= seq![index]);
        }
        let discover_secret = match crypto::derive_key(&dcw.secret, &ixr) {
            Ok(k) => k,
            Err(_) => {
                return Err(
                    crate::records::Error::EasySecp256k1(crypto::CryptoError::InvalidKey),
                );
            },
        };
        let read_secret = match crypto::derive_key(&rcw.secret, &ixr) {
            Ok(k) => k,
            Err(_) => {
                return Err(
                    crate::records::Error::EasySecp256k1(crypto::CryptoError::InvalidKey),
                );
            },
        };
        let discover = match WSecretKey::from_secret(discover_secret) {
            Ok(w) => w,
            Err(_) => {
                return Err(
                    crate::records::Error::EasySecp256k1(crypto::CryptoError::InvalidKey),
                );
            },
        };
        let read = match WSecretKey::from_secret(read_secret) {
            Ok(w) => w,
            Err(_) => {
                return Err(
                    crate::records::Error::EasySecp256k1(crypto::CryptoError::InvalidKey),
                );
            },
        };
        let children = match &validation.children {
            Some(_) => {
                let dw = match WSecretKey::from_secret(discover_child) {
                    Ok(w) => w,
                    Err(_) => {
                        return Err(
                            crate::records::Error::EasySecp256k1(crypto::CryptoError::InvalidKey),
                        );
                    },
                };
                let rw = match WSecretKey::from_secret(read_child) {
                    Ok(w) => w,
                    Err(_) => {
                        return Err(
                            crate::records::Error::EasySecp256k1(crypto::CryptoError::InvalidKey),
                        );
                    },
                };
                Some((Key::Secret(dw), Key::Secret(rw)))
            },
            None => None,
        };
        let header = Header {
            keys: KeySet {
                discover,
                read,
                children,
                delete: header_info.delete,
                others: header_info.others,
            },
            validation,
            data: header_info.data,
            protocol: protocol_id_val,
        };
        match header.validate() {
            Ok(_) => {},
            Err(e) => {
                return Err(crate::records::Error::Validation(e));
            },
        }
        Ok(header)
    }
}

/// Pointer opacity, the recoverable half: a pointer record's data is the
/// canonical encoding of its target header, and decoding it yields
/// exactly that header — no more and no less key material than the
/// pointer already carried.
pub proof fn lemma_pointer_target_recovered(target: HeaderV)
    requires
        target.keys.honest(),
        target.bounded(),
    ensures
        codec::dec_header(codec::enc_header(target)) matches Some((h, rest)) && h == target
            && rest.len() == 0,
{
    codec::lemma_rt_header(target, Seq::empty());
    assert(codec::enc_header(target) + Seq::<u8>::empty() =~= codec::enc_header(target));
}

/// Whether some entry is filed at exactly this path.
pub open spec fn has_path(es: Seq<(Seq<Seq<u8>>, HeaderV)>, p: Seq<Seq<u8>>) -> bool {
    exists|k: int| 0 <= k < es.len() && (#[trigger] es[k]).0 == p
}

/// Rewriting aliased entries changes headers only: every path stays where
/// it was.
pub proof fn lemma_cache_rewrite_paths(es: Seq<(Seq<Seq<u8>>, HeaderV)>, m: HeaderV, hid: Seq<u8>)
    ensures
        cache_rewrite(es, m, hid).len() == es.len(),
        forall|i: int| 0 <= i < es.len() ==> (#[trigger] cache_rewrite(es, m, hid)[i]).0
            == es[i].0,
{
}

/// An upsert makes its path present and keeps every present path.
pub proof fn lemma_upsert_has(
    es: Seq<(Seq<Seq<u8>>, HeaderV)>,
    p: Seq<Seq<u8>>,
    h: HeaderV,
    q: Seq<Seq<u8>>,
)
    ensures
        has_path(upsert(es, p, h), p),
        has_path(es, q) ==> has_path(upsert(es, p, h), q),
    decreases es.len(),
{
    let u = upsert(es, p, h);
    if es.len() == 0 {
        assert(u[0].0 == p);
    } else if es[0].0 == p {
        assert(u[0].0 == p);
        if has_path(es, q) {
            let k = choose|k: int| 0 <= k < es.len() && (#[trigger] es[k]).0 == q;
            if k == 0 {
                assert(u[0].0 == q);
            } else {
                assert(u[k].0 == es[k].0);
            }
        }
    } else {
        lemma_upsert_has(es.drop_first(), p, h, q);
        assert(u[0] == es[0]);
        assert(u.drop_first() =~= upsert(es.drop_first(), p, h));
        assert(has_path(u.drop_first(), p));
        let k = choose|k: int| 0 <= k < u.drop_first().len() && (#[trigger] u.drop_first()[k]).0
            == p;
        assert(u[k + 1].0 == p);
        if has_path(es, q) {
            let k0 = choose|k0: int| 0 <= k0 < es.len() && (#[trigger] es[k0]).0 == q;
            if k0 == 0 {
                assert(u[0].0 == q);
            } else {
                assert(has_path(es.drop_first(), q)) by {
                    assert(es.drop_first()[k0 - 1].0 == q);
                }
                let k1 = choose|k1: int|
                    0 <= k1 < u.drop_first().len() && (#[trigger] u.drop_first()[k1]).0 == q;
                assert(u[k1 + 1].0 == q);
            }
        }
    }
}

/// After a merge-insert, the new path is present and every present path
/// stays present.
pub proof fn lemma_cache_insert_has(
    es: Seq<(Seq<Seq<u8>>, HeaderV)>,
    h: HeaderV,
    hid: Seq<u8>,
    parent: Seq<Seq<u8>>,
    q: Seq<Seq<u8>>,
)
    ensures
        ({
            let m = cache_join(es, h, hid);
            has_path(upsert(cache_rewrite(es, m, hid), parent.push(hid), m), parent.push(hid))
                && (has_path(es, q) ==> has_path(
                upsert(cache_rewrite(es, m, hid), parent.push(hid), m),
                q,
            ))
        }),
{
    let m = cache_join(es, h, hid);
    let rw = cache_rewrite(es, m, hid);
    lemma_cache_rewrite_paths(es, m, hid);
    lemma_upsert_has(rw, parent.push(hid), m, q);
    if has_path(es, q) {
        let k = choose|k: int| 0 <= k < es.len() && (#[trigger] es[k]).0 == q;
        assert(rw[k].0 == q);
        assert(has_path(rw, q));
    }
}

/// Whether every merge along the join chain succeeds: the incoming header
/// is key-compatible with each cached copy of its id.
pub open spec fn cache_join_ok(es: Seq<(Seq<Seq<u8>>, HeaderV)>, h: HeaderV, hid: Seq<u8>) -> bool
    decreases es.len(),
{
    if es.len() == 0 {
        true
    } else if es[0].0.len() > 0 && es[0].0.last() == hid {
        keyset_max(h.keys, es[0].1.keys) is Some && cache_join_ok(
            es.drop_first(),
            merge_step(h, es[0].1),
            hid,
        )
    } else {
        cache_join_ok(es.drop_first(), h, hid)
    }
}

/// The join never loses the incoming header's authority: a secret delete
/// key or secret child pair of the header itself survives every merge
/// step, whether or not the steps succeed.
pub proof fn lemma_cache_join_keeps_incoming(es: Seq<(Seq<Seq<u8>>, HeaderV)>, h: HeaderV, hid: Seq<u8>)
    ensures
        h.keys.delete matches Some(d) && d is Secret ==> (
        cache_join(es, h, hid).keys.delete matches Some(d2) && d2 is Secret),
        h.keys.children matches Some((c, r)) && c is Secret && r is Secret ==> (
        cache_join(es, h, hid).keys.children matches Some((c2, r2)) && c2 is Secret
            && r2 is Secret),
    decreases es.len(),
{
    if es.len() > 0 {
        if es[0].0.len() > 0 && es[0].0.last() == hid {
            lemma_cache_join_keeps_incoming(es.drop_first(), merge_step(h, es[0].1), hid);
        } else {
            lemma_cache_join_keeps_incoming(es.drop_first(), h, hid);
        }
    }
}

/// When every merge succeeds, the join never loses a cached copy's
/// authority either: a secret delete key or secret child pair held by any
/// copy of the id is secret in the one merged header.
pub proof fn lemma_cache_join_monotone(
    es: Seq<(Seq<Seq<u8>>, HeaderV)>,
    h: HeaderV,
    hid: Seq<u8>,
    k: int,
)
    requires
        cache_join_ok(es, h, hid),
        0 <= k < es.len(),
        es[k].0.len() > 0 && es[k].0.last() == hid,
    ensures
        es[k].1.keys.delete matches Some(d) && d is Secret ==> (
        cache_join(es, h, hid).keys.delete matches Some(d2) && d2 is Secret),
        es[k].1.keys.children matches Some((c, r)) && c is Secret && r is Secret ==> (
        cache_join(es, h, hid).keys.children matches Some((c2, r2)) && c2 is Secret
            && r2 is Secret),
    decreases es.len(),
{
    if es[0].0.len() > 0 && es[0].0.last() == hid {
        if k == 0 {
            lemma_cache_join_keeps_incoming(es.drop_first(), merge_step(h, es[0].1), hid);
        } else {
            lemma_cache_join_monotone(es.drop_first(), merge_step(h, es[0].1), hid, k - 1);
        }
    } else {
        lemma_cache_join_monotone(es.drop_first(), h, hid, k - 1);
    }
}

} // verus!
