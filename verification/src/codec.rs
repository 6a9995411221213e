//! Canonical byte encodings.
//!
//! Every value the engine hashes, signs, encrypts or stores is first put
//! through the canonical encoding of this module: a length-delimited binary
//! form with a little-endian 8-byte length in front of each variable-sized
//! field.  The spec functions define the encoding mathematically; the exec
//! functions produce and consume it, and the lemmas show that decoding
//! inverts encoding.

use vstd::bytes::{spec_u64_to_le_bytes, spec_u64_from_le_bytes, lemma_auto_spec_u64_to_from_le_bytes};
use vstd::prelude::*;
use vstd::string::StringSliceAdditionalSpecFns;

use crate::records::{
    ChildrenValidationV, HeaderV, KeyV, KeySetV, RecordV, ValidationV, WSecretKeyV,
};

verus! {

/// Strict lexicographic order on byte strings.
pub open spec fn bytes_lt(a: Seq<u8>, b: Seq<u8>) -> bool
    decreases a.len(),
{
    if b.len() == 0 {
        false
    } else if a.len() == 0 {
        true
    } else if a[0] < b[0] {
        true
    } else if a[0] > b[0] {
        false
    } else {
        bytes_lt(a.drop_first(), b.drop_first())
    }
}

/// The lexicographic order is a strict total order: exactly one of
/// `a < b`, `a == b`, `b < a` holds.
pub proof fn lemma_bytes_lt_trichotomy(a: Seq<u8>, b: Seq<u8>)
    ensures
        bytes_lt(a, b) || bytes_lt(b, a) || a == b,
        bytes_lt(a, b) ==> !bytes_lt(b, a) && a != b,
        bytes_lt(b, a) ==> !bytes_lt(a, b) && a != b,
    decreases a.len(),
{
    if a.len() == 0 && b.len() == 0 {
        assert(a =~= b);
    } else if a.len() > 0 && b.len() > 0 && a[0] == b[0] {
        lemma_bytes_lt_trichotomy(a.drop_first(), b.drop_first());
        if a.drop_first() == b.drop_first() {
            assert forall|i: int| 0 <= i < a.len() implies a[i] == b[i] by {
                if i > 0 {
                    assert(a[i] == a.drop_first()[i - 1]);
                    assert(b[i] == b.drop_first()[i - 1]);
                }
            }
            assert(a =~= b);
        }
    }
}

/// Three-way comparison of byte slices in lexicographic order:
/// `-1` when `a` is smaller, `0` when equal, `1` when `b` is smaller.
pub fn cmp_bytes(a: &[u8], b: &[u8]) -> (r: i8)
    ensures
        r == -1 <==> bytes_lt(a@, b@),
        r == 0 <==> a@ == b@,
        r == 1 <==> bytes_lt(b@, a@),
        r == -1 || r == 0 || r == 1,
{
    let a_len = a.len();
    let b_len = b.len();
    let mut i: usize = 0;
    proof {
        assert(a@.skip(0) =~= a@);
        assert(b@.skip(0) =~= b@);
    }
    loop
        invariant
            i <= a_len,
            i <= b_len,
            a_len == a@.len(),
            b_len == b@.len(),
            forall|j: int| 0 <= j < i ==> a@[j] == b@[j],
            bytes_lt(a@, b@) <==> bytes_lt(a@.skip(i as int), b@.skip(i as int)),
            bytes_lt(b@, a@) <==> bytes_lt(b@.skip(i as int), a@.skip(i as int)),
            (a@ == b@) <==> (a@.skip(i as int) == b@.skip(i as int) && a@.len() == b@.len()),
        decreases a_len - i,
    {
        proof {
            lemma_bytes_lt_trichotomy(a@, b@);
        }
        if i == a_len || i == b_len {
            if a_len == b_len {
                proof {
                    assert(a@.skip(i as int) =~= b@.skip(i as int));
                }
                return 0;
            } else if a_len < b_len {
                proof {
                    assert(a@.skip(i as int).len() == 0);
                    assert(b@.skip(i as int).len() > 0);
                }
                return -1;
            } else {
                proof {
                    assert(b@.skip(i as int).len() == 0);
                    assert(a@.skip(i as int).len() > 0);
                }
                return 1;
            }
        }
        let x = a[i];
        let y = b[i];
        proof {
            assert(a@.skip(i as int)[0] == a@[i as int]);
            assert(b@.skip(i as int)[0] == b@[i as int]);
        }
        if x < y {
            return -1;
        } else if x > y {
            return 1;
        }
        proof {
            assert(a@.skip(i as int).drop_first() =~= a@.skip(i + 1));
            assert(b@.skip(i as int).drop_first() =~= b@.skip(i + 1));
            if a@.skip(i + 1) == b@.skip(i + 1) && a@.len() == b@.len() {
                assert(a@.skip(i as int) =~= b@.skip(i as int));
            }
        }
        i = i + 1;
    }
}

/// Strict lexicographic order on the UTF-8 encodings of two names.
pub open spec fn name_lt(a: Seq<char>, b: Seq<char>) -> bool {
    bytes_lt(vstd::utf8::encode_utf8(a), vstd::utf8::encode_utf8(b))
}

/// Three-way comparison of names by their UTF-8 encodings.
pub fn cmp_names(a: &str, b: &str) -> (r: i8)
    ensures
        r == -1 <==> name_lt(a@, b@),
        r == 0 <==> a@ == b@,
        r == 1 <==> name_lt(b@, a@),
        r == -1 || r == 0 || r == 1,
{
    let r = cmp_bytes(a.as_bytes(), b.as_bytes());
    proof {
        broadcast use vstd::utf8::encode_utf8_decode_utf8;

        if a.spec_bytes() == b.spec_bytes() {
            assert(vstd::utf8::decode_utf8(vstd::utf8::encode_utf8(a@)) == vstd::utf8::decode_utf8(
                vstd::utf8::encode_utf8(b@),
            ));
            assert(a@ == b@);
        }
    }
    r
}


/// Sequence concatenation reassociates.
pub proof fn lemma_add_assoc<T>(a: Seq<T>, b: Seq<T>, c: Seq<T>)
    ensures
        (a + b) + c == a + (b + c),
{
    assert((a + b) + c =~= a + (b + c));
}

/// Pointwise description of prepending one element to a sequence.
pub proof fn lemma_insert_front<T>(r0: Seq<T>, e: T, r: Seq<T>)
    requires
        r == r0.insert(0, e),
    ensures
        r.len() == r0.len() + 1,
        r[0] == e,
        forall|l: int| 1 <= l < r.len() ==> r[l] == r0[l - 1],
{
    r0.insert_ensures(0, e);
    assert forall|l: int| 1 <= l < r.len() implies r[l] == r0[l - 1] by {
        assert(r0.insert(0, e)[(l - 1) + 1] == r0[l - 1]);
    }
}

/// A byte string short enough for a length prefix.
pub open spec fn bounded(b: Seq<u8>) -> bool {
    b.len() < 0x1_0000_0000_0000_0000
}

/// An 8-byte little-endian length or count.
pub open spec fn enc_u64(n: u64) -> Seq<u8> {
    spec_u64_to_le_bytes(n)
}

/// A length-prefixed byte string.
pub open spec fn enc_bytes(b: Seq<u8>) -> Seq<u8> {
    enc_u64(b.len() as u64) + b
}

/// One byte, `1` for true.
pub open spec fn enc_bool(b: bool) -> Seq<u8> {
    if b {
        seq![1u8]
    } else {
        seq![0u8]
    }
}

/// A name as its length-prefixed UTF-8 encoding.
pub open spec fn enc_name(n: Seq<char>) -> Seq<u8> {
    enc_bytes(vstd::utf8::encode_utf8(n))
}

/// Append an 8-byte little-endian value.
pub fn write_u64(out: &mut Vec<u8>, n: u64)
    ensures
        final(out)@ == old(out)@ + enc_u64(n),
{
    let mut bytes = vstd::bytes::u64_to_le_bytes(n);
    out.append(&mut bytes);
}

/// Append a length-prefixed byte string.
pub fn write_bytes(out: &mut Vec<u8>, b: &[u8])
    ensures
        final(out)@ == old(out)@ + enc_bytes(b@),
{
    write_u64(out, b.len() as u64);
    let mut tail = vstd::slice::slice_to_vec(b);
    out.append(&mut tail);
    proof {
        assert(out@ =~= old(out)@ + enc_bytes(b@));
    }
}

/// Append one boolean byte.
pub fn write_bool(out: &mut Vec<u8>, b: bool)
    ensures
        final(out)@ == old(out)@ + enc_bool(b),
{
    if b {
        out.push(1u8);
    } else {
        out.push(0u8);
    }
    proof {
        assert(out@ =~= old(out)@ + enc_bool(b));
    }
}

/// Append a name as its length-prefixed UTF-8 bytes.
pub fn write_name(out: &mut Vec<u8>, n: &str)
    ensures
        final(out)@ == old(out)@ + enc_name(n@),
{
    write_bytes(out, n.as_bytes());
}

/// A discover or read secret on the wire: the secret scalar alone; the
/// public half is recomputed on decode.
pub open spec fn enc_wsecret(w: crate::records::WSecretKeyV) -> Seq<u8> {
    enc_bytes(w.secret)
}

/// A capability key on the wire: a tag byte, then the secret scalar or the
/// public key.
pub open spec fn enc_key(k: crate::records::KeyV) -> Seq<u8> {
    match k {
        crate::records::KeyV::Secret(s) => seq![1u8] + enc_bytes(s.secret),
        crate::records::KeyV::Public(p) => seq![0u8] + enc_bytes(p),
    }
}

pub open spec fn enc_opt_key(k: Option<crate::records::KeyV>) -> Seq<u8> {
    match k {
        Some(k) => seq![1u8] + enc_key(k),
        None => seq![0u8],
    }
}

pub open spec fn enc_opt_children(c: Option<(crate::records::KeyV, crate::records::KeyV)>) -> Seq<
    u8,
> {
    match c {
        Some((a, b)) => seq![1u8] + enc_key(a) + enc_key(b),
        None => seq![0u8],
    }
}

pub open spec fn enc_others_items(os: Seq<(Seq<char>, crate::records::KeyV)>) -> Seq<u8>
    decreases os.len(),
{
    if os.len() == 0 {
        Seq::empty()
    } else {
        enc_name(os[0].0) + enc_key(os[0].1) + enc_others_items(os.drop_first())
    }
}

pub open spec fn enc_others(os: Seq<(Seq<char>, crate::records::KeyV)>) -> Seq<u8> {
    enc_u64(os.len() as u64) + enc_others_items(os)
}

pub open spec fn enc_keyset(ks: crate::records::KeySetV) -> Seq<u8> {
    enc_wsecret(ks.discover) + enc_wsecret(ks.read) + enc_opt_children(ks.children) + enc_opt_key(
        ks.delete,
    ) + enc_others(ks.others)
}

pub open spec fn enc_ids_items(ids: Seq<Seq<u8>>) -> Seq<u8>
    decreases ids.len(),
{
    if ids.len() == 0 {
        Seq::empty()
    } else {
        enc_bytes(ids[0]) + enc_ids_items(ids.drop_first())
    }
}

pub open spec fn enc_ids(ids: Seq<Seq<u8>>) -> Seq<u8> {
    enc_u64(ids.len() as u64) + enc_ids_items(ids)
}

pub open spec fn enc_cv(cv: crate::records::ChildrenValidationV) -> Seq<u8> {
    enc_ids(cv.children) + enc_bool(cv.anyone_discover) + enc_bool(cv.anyone_read) + enc_bool(
        cv.allow_pointers,
    )
}

pub open spec fn enc_opt_cv(c: Option<crate::records::ChildrenValidationV>) -> Seq<u8> {
    match c {
        Some(cv) => seq![1u8] + enc_cv(cv),
        None => seq![0u8],
    }
}

pub open spec fn enc_opt_bool(b: Option<bool>) -> Seq<u8> {
    match b {
        Some(b) => seq![1u8] + enc_bool(b),
        None => seq![0u8],
    }
}

pub open spec fn enc_states_items(ss: Seq<(Seq<char>, bool)>) -> Seq<u8>
    decreases ss.len(),
{
    if ss.len() == 0 {
        Seq::empty()
    } else {
        enc_name(ss[0].0) + enc_bool(ss[0].1) + enc_states_items(ss.drop_first())
    }
}

pub open spec fn enc_states(ss: Seq<(Seq<char>, bool)>) -> Seq<u8> {
    enc_u64(ss.len() as u64) + enc_states_items(ss)
}

/// The canonical encoding of a validation schema; its hash is the schema's
/// identifier.
pub open spec fn enc_validation(v: crate::records::ValidationV) -> Seq<u8> {
    enc_opt_cv(v.children) + enc_opt_bool(v.delete) + enc_states(v.key_states) + enc_bool(
        v.allow_extra_keys,
    )
}

/// The wire encoding of a header.
pub open spec fn enc_header(h: crate::records::HeaderV) -> Seq<u8> {
    enc_keyset(h.keys) + enc_validation(h.validation) + enc_bytes(h.data) + enc_bytes(h.protocol)
}

/// The wire encoding of a record.
pub open spec fn enc_record(r: crate::records::RecordV) -> Seq<u8> {
    enc_header(r.header) + enc_bytes(r.payload)
}

/// A key's contribution to an identifier: its public projection alone, so
/// downgrading a key never changes a header's identity.
pub open spec fn fp_key(k: crate::records::KeyV) -> Seq<u8> {
    enc_bytes(k.public())
}

pub open spec fn fp_opt_key(k: Option<crate::records::KeyV>) -> Seq<u8> {
    match k {
        Some(k) => seq![1u8] + fp_key(k),
        None => seq![0u8],
    }
}

pub open spec fn fp_opt_children(c: Option<(crate::records::KeyV, crate::records::KeyV)>) -> Seq<
    u8,
> {
    match c {
        Some((a, b)) => seq![1u8] + fp_key(a) + fp_key(b),
        None => seq![0u8],
    }
}

pub open spec fn fp_others_items(os: Seq<(Seq<char>, crate::records::KeyV)>) -> Seq<u8>
    decreases os.len(),
{
    if os.len() == 0 {
        Seq::empty()
    } else {
        enc_name(os[0].0) + fp_key(os[0].1) + fp_others_items(os.drop_first())
    }
}

pub open spec fn fp_others(os: Seq<(Seq<char>, crate::records::KeyV)>) -> Seq<u8> {
    enc_u64(os.len() as u64) + fp_others_items(os)
}

/// A key set's contribution to an identifier: discover and read secrets,
/// all other keys by public projection.
pub open spec fn enc_keyset_hash(ks: crate::records::KeySetV) -> Seq<u8> {
    enc_bytes(ks.discover.secret) + enc_bytes(ks.read.secret) + fp_opt_children(ks.children)
        + fp_opt_key(ks.delete) + fp_others(ks.others)
}

/// The bytes whose hash is a header's identifier.
pub open spec fn enc_header_hash(h: crate::records::HeaderV) -> Seq<u8> {
    enc_keyset_hash(h.keys) + enc_validation(h.validation) + enc_bytes(h.data) + enc_bytes(
        h.protocol,
    )
}

/// A header's identifier.
pub open spec fn header_id(h: crate::records::HeaderV) -> Seq<u8> {
    crate::crypto::hash_of(enc_header_hash(h))
}

/// A validation schema's identifier, which is also its protocol id.
pub open spec fn validation_id(v: crate::records::ValidationV) -> Seq<u8> {
    crate::crypto::hash_of(enc_validation(v))
}

pub fn write_wsecret(out: &mut Vec<u8>, w: &crate::records::WSecretKey)
    ensures
        final(out)@ == old(out)@ + enc_wsecret(w@),
{
    write_bytes(out, w.secret.as_slice());
}

pub fn write_key(out: &mut Vec<u8>, k: &crate::records::Key)
    ensures
        final(out)@ == old(out)@ + enc_key(k@),
{
    match k {
        crate::records::Key::Secret(s) => {
            out.push(1u8);
            write_bytes(out, s.secret.as_slice());
        },
        crate::records::Key::Public(p) => {
            out.push(0u8);
            write_bytes(out, p.as_slice());
        },
    }
    proof {
        assert(out@ =~= old(out)@ + enc_key(k@));
    }
}

pub fn write_opt_key(out: &mut Vec<u8>, k: &Option<crate::records::Key>)
    ensures
        final(out)@ == old(out)@ + enc_opt_key(match k {
            Some(k) => Some(k@),
            None => None,
        }),
{
    match k {
        Some(k) => {
            out.push(1u8);
            write_key(out, k);
        },
        None => {
            out.push(0u8);
        },
    }
    proof {
        assert(out@ =~= old(out)@ + enc_opt_key(match k {
            Some(k) => Some(k@),
            None => None,
        }));
    }
}

pub fn write_opt_children(
    out: &mut Vec<u8>,
    c: &Option<(crate::records::Key, crate::records::Key)>,
)
    ensures
        final(out)@ == old(out)@ + enc_opt_children(match c {
            Some((a, b)) => Some((a@, b@)),
            None => None,
        }),
{
    match c {
        Some((a, b)) => {
            out.push(1u8);
            write_key(out, a);
            write_key(out, b);
        },
        None => {
            out.push(0u8);
        },
    }
    proof {
        assert(out@ =~= old(out)@ + enc_opt_children(match c {
            Some((a, b)) => Some((a@, b@)),
            None => None,
        }));
    }
}

fn write_others_from(out: &mut Vec<u8>, os: &Vec<(String, crate::records::Key)>, i: usize)
    requires
        i <= os@.len(),
    ensures
        final(out)@ == old(out)@ + enc_others_items(
            crate::records::others_view(os@).skip(i as int),
        ),
    decreases os@.len() - i,
{
    if i == os.len() {
        proof {
            assert(out@ =~= old(out)@ + enc_others_items(
                crate::records::others_view(os@).skip(i as int),
            ));
        }
    } else {
        proof {
            assert(crate::records::others_view(os@).skip(i as int).drop_first()
                =~= crate::records::others_view(os@).skip(i + 1));
        }
        let (n, k) = &os[i];
        write_name(out, n.as_str());
        write_key(out, k);
        write_others_from(out, os, i + 1);
        proof {
            assert(out@ =~= old(out)@ + enc_others_items(
                crate::records::others_view(os@).skip(i as int),
            ));
        }
    }
}

pub fn write_others(out: &mut Vec<u8>, os: &Vec<(String, crate::records::Key)>)
    ensures
        final(out)@ == old(out)@ + enc_others(crate::records::others_view(os@)),
{
    write_u64(out, os.len() as u64);
    write_others_from(out, os, 0);
    proof {
        assert(crate::records::others_view(os@).skip(0) =~= crate::records::others_view(os@));
        assert(out@ =~= old(out)@ + enc_others(crate::records::others_view(os@)));
    }
}

pub fn write_keyset(out: &mut Vec<u8>, ks: &crate::records::KeySet)
    ensures
        final(out)@ == old(out)@ + enc_keyset(ks@),
{
    write_wsecret(out, &ks.discover);
    write_wsecret(out, &ks.read);
    write_opt_children(out, &ks.children);
    write_opt_key(out, &ks.delete);
    write_others(out, &ks.others);
    proof {
        assert(out@ =~= old(out)@ + enc_keyset(ks@));
    }
}

fn write_ids_from(out: &mut Vec<u8>, ids: &Vec<crate::Id>, i: usize)
    requires
        i <= ids@.len(),
    ensures
        final(out)@ == old(out)@ + enc_ids_items(
            ids@.map_values(|id: crate::Id| id@).skip(i as int),
        ),
    decreases ids@.len() - i,
{
    if i == ids.len() {
        proof {
            assert(out@ =~= old(out)@ + enc_ids_items(
                ids@.map_values(|id: crate::Id| id@).skip(i as int),
            ));
        }
    } else {
        proof {
            assert(ids@.map_values(|id: crate::Id| id@).skip(i as int).drop_first()
                =~= ids@.map_values(|id: crate::Id| id@).skip(i + 1));
        }
        write_bytes(out, ids[i].0.as_slice());
        write_ids_from(out, ids, i + 1);
        proof {
            assert(out@ =~= old(out)@ + enc_ids_items(
                ids@.map_values(|id: crate::Id| id@).skip(i as int),
            ));
        }
    }
}

pub fn write_cv(out: &mut Vec<u8>, cv: &crate::records::ChildrenValidation)
    ensures
        final(out)@ == old(out)@ + enc_cv(cv@),
{
    write_u64(out, cv.children.len() as u64);
    write_ids_from(out, &cv.children, 0);
    write_bool(out, cv.anyone_discover);
    write_bool(out, cv.anyone_read);
    write_bool(out, cv.allow_pointers);
    proof {
        assert(ids_view(cv.children@).skip(0) =~= ids_view(cv.children@));
        assert(out@ =~= old(out)@ + enc_cv(cv@));
    }
}

/// The model of an id list.
pub open spec fn ids_view(v: Seq<crate::Id>) -> Seq<Seq<u8>> {
    v.map_values(|id: crate::Id| id@)
}

pub fn write_opt_cv(out: &mut Vec<u8>, c: &Option<crate::records::ChildrenValidation>)
    ensures
        final(out)@ == old(out)@ + enc_opt_cv(match c {
            Some(cv) => Some(cv@),
            None => None,
        }),
{
    match c {
        Some(cv) => {
            out.push(1u8);
            write_cv(out, cv);
        },
        None => {
            out.push(0u8);
        },
    }
    proof {
        assert(out@ =~= old(out)@ + enc_opt_cv(match c {
            Some(cv) => Some(cv@),
            None => None,
        }));
    }
}

pub fn write_opt_bool(out: &mut Vec<u8>, b: &Option<bool>)
    ensures
        final(out)@ == old(out)@ + enc_opt_bool(*b),
{
    match b {
        Some(b) => {
            out.push(1u8);
            write_bool(out, *b);
        },
        None => {
            out.push(0u8);
        },
    }
    proof {
        assert(out@ =~= old(out)@ + enc_opt_bool(*b));
    }
}

fn write_states_from(out: &mut Vec<u8>, ss: &Vec<(String, bool)>, i: usize)
    requires
        i <= ss@.len(),
    ensures
        final(out)@ == old(out)@ + enc_states_items(
            crate::records::states_view(ss@).skip(i as int),
        ),
    decreases ss@.len() - i,
{
    if i == ss.len() {
        proof {
            assert(out@ =~= old(out)@ + enc_states_items(
                crate::records::states_view(ss@).skip(i as int),
            ));
        }
    } else {
        proof {
            assert(crate::records::states_view(ss@).skip(i as int).drop_first()
                =~= crate::records::states_view(ss@).skip(i + 1));
        }
        let (n, b) = &ss[i];
        write_name(out, n.as_str());
        write_bool(out, *b);
        write_states_from(out, ss, i + 1);
        proof {
            assert(out@ =~= old(out)@ + enc_states_items(
                crate::records::states_view(ss@).skip(i as int),
            ));
        }
    }
}

pub fn write_validation(out: &mut Vec<u8>, v: &crate::records::Validation)
    ensures
        final(out)@ == old(out)@ + enc_validation(v@),
{
    write_opt_cv(out, &v.children);
    write_opt_bool(out, &v.delete);
    write_u64(out, v.key_states.len() as u64);
    write_states_from(out, &v.key_states, 0);
    write_bool(out, v.allow_extra_keys);
    proof {
        assert(crate::records::states_view(v.key_states@).skip(0) =~= crate::records::states_view(
            v.key_states@,
        ));
        assert(out@ =~= old(out)@ + enc_validation(v@));
    }
}

pub fn write_header(out: &mut Vec<u8>, h: &crate::records::Header)
    ensures
        final(out)@ == old(out)@ + enc_header(h@),
{
    write_keyset(out, &h.keys);
    write_validation(out, &h.validation);
    write_bytes(out, h.data.as_slice());
    write_bytes(out, h.protocol.0.as_slice());
    proof {
        assert(out@ =~= old(out)@ + enc_header(h@));
    }
}

/// The wire encoding of a header, as fresh bytes.
pub fn encode_header(h: &crate::records::Header) -> (r: Vec<u8>)
    ensures
        r@ == enc_header(h@),
{
    let mut out: Vec<u8> = Vec::new();
    write_header(&mut out, h);
    proof {
        assert(out@ =~= enc_header(h@));
    }
    out
}

/// The wire encoding of a record, as fresh bytes.
pub fn encode_record(r: &crate::records::Record) -> (out: Vec<u8>)
    ensures
        out@ == enc_record(r@),
{
    let mut out: Vec<u8> = Vec::new();
    write_header(&mut out, &r.header);
    write_bytes(&mut out, r.payload.as_slice());
    proof {
        assert(out@ =~= enc_record(r@));
    }
    out
}

pub fn write_fp_key(out: &mut Vec<u8>, k: &crate::records::Key)
    ensures
        final(out)@ == old(out)@ + fp_key(k@),
{
    let p = k.public();
    write_bytes(out, p.as_slice());
}

pub fn write_fp_opt_key(out: &mut Vec<u8>, k: &Option<crate::records::Key>)
    ensures
        final(out)@ == old(out)@ + fp_opt_key(match k {
            Some(k) => Some(k@),
            None => None,
        }),
{
    match k {
        Some(k) => {
            out.push(1u8);
            write_fp_key(out, k);
        },
        None => {
            out.push(0u8);
        },
    }
    proof {
        assert(out@ =~= old(out)@ + fp_opt_key(match k {
            Some(k) => Some(k@),
            None => None,
        }));
    }
}

pub fn write_fp_opt_children(
    out: &mut Vec<u8>,
    c: &Option<(crate::records::Key, crate::records::Key)>,
)
    ensures
        final(out)@ == old(out)@ + fp_opt_children(match c {
            Some((a, b)) => Some((a@, b@)),
            None => None,
        }),
{
    match c {
        Some((a, b)) => {
            out.push(1u8);
            write_fp_key(out, a);
            write_fp_key(out, b);
        },
        None => {
            out.push(0u8);
        },
    }
    proof {
        assert(out@ =~= old(out)@ + fp_opt_children(match c {
            Some((a, b)) => Some((a@, b@)),
            None => None,
        }));
    }
}

fn write_fp_others_from(out: &mut Vec<u8>, os: &Vec<(String, crate::records::Key)>, i: usize)
    requires
        i <= os@.len(),
    ensures
        final(out)@ == old(out)@ + fp_others_items(
            crate::records::others_view(os@).skip(i as int),
        ),
    decreases os@.len() - i,
{
    if i == os.len() {
        proof {
            assert(out@ =~= old(out)@ + fp_others_items(
                crate::records::others_view(os@).skip(i as int),
            ));
        }
    } else {
        proof {
            assert(crate::records::others_view(os@).skip(i as int).drop_first()
                =~= crate::records::others_view(os@).skip(i + 1));
        }
        let (n, k) = &os[i];
        write_name(out, n.as_str());
        write_fp_key(out, k);
        write_fp_others_from(out, os, i + 1);
        proof {
            assert(out@ =~= old(out)@ + fp_others_items(
                crate::records::others_view(os@).skip(i as int),
            ));
        }
    }
}

pub fn write_keyset_hash(out: &mut Vec<u8>, ks: &crate::records::KeySet)
    ensures
        final(out)@ == old(out)@ + enc_keyset_hash(ks@),
{
    write_bytes(out, ks.discover.secret.as_slice());
    write_bytes(out, ks.read.secret.as_slice());
    write_fp_opt_children(out, &ks.children);
    write_fp_opt_key(out, &ks.delete);
    write_u64(out, ks.others.len() as u64);
    write_fp_others_from(out, &ks.others, 0);
    proof {
        assert(crate::records::others_view(ks.others@).skip(0) =~= crate::records::others_view(
            ks.others@,
        ));
        assert(out@ =~= old(out)@ + enc_keyset_hash(ks@));
    }
}

/// The bytes whose hash identifies a header, as fresh bytes.
pub fn encode_header_hash(h: &crate::records::Header) -> (r: Vec<u8>)
    ensures
        r@ == enc_header_hash(h@),
{
    let mut out: Vec<u8> = Vec::new();
    write_keyset_hash(&mut out, &h.keys);
    write_validation(&mut out, &h.validation);
    write_bytes(&mut out, h.data.as_slice());
    write_bytes(&mut out, h.protocol.0.as_slice());
    proof {
        assert(out@ =~= enc_header_hash(h@));
    }
    out
}

/// The canonical encoding of a validation schema, as fresh bytes.
pub fn encode_validation(v: &crate::records::Validation) -> (r: Vec<u8>)
    ensures
        r@ == enc_validation(v@),
{
    let mut out: Vec<u8> = Vec::new();
    write_validation(&mut out, v);
    proof {
        assert(out@ =~= enc_validation(v@));
    }
    out
}

/// An 8-byte little-endian value off the front.
pub open spec fn dec_u64(s: Seq<u8>) -> Option<(u64, Seq<u8>)> {
    if s.len() < 8 {
        None
    } else {
        Some((spec_u64_from_le_bytes(s.take(8)), s.skip(8)))
    }
}

/// A length-prefixed byte string off the front.
pub open spec fn dec_bytes(s: Seq<u8>) -> Option<(Seq<u8>, Seq<u8>)> {
    match dec_u64(s) {
        Some((n, r)) => if r.len() < n {
            None
        } else {
            Some((r.take(n as int), r.skip(n as int)))
        },
        None => None,
    }
}

/// One boolean byte off the front; anything but `0` or `1` is rejected.
pub open spec fn dec_bool(s: Seq<u8>) -> Option<(bool, Seq<u8>)> {
    if s.len() == 0 {
        None
    } else if s[0] == 1u8 {
        Some((true, s.skip(1)))
    } else if s[0] == 0u8 {
        Some((false, s.skip(1)))
    } else {
        None
    }
}

/// A name off the front; its bytes must be valid UTF-8.
pub open spec fn dec_name(s: Seq<u8>) -> Option<(Seq<char>, Seq<u8>)> {
    match dec_bytes(s) {
        Some((b, r)) => if vstd::utf8::valid_utf8(b) {
            Some((vstd::utf8::decode_utf8(b), r))
        } else {
            None
        },
        None => None,
    }
}

/// A discover or read secret off the front; the public half is the one the
/// secret determines, and bytes that are no valid secret key are rejected.
pub open spec fn dec_wsecret(s: Seq<u8>) -> Option<(WSecretKeyV, Seq<u8>)> {
    match dec_bytes(s) {
        Some((sec, r)) => match crate::crypto::public_of(sec) {
            Some(p) => Some((WSecretKeyV { secret: sec, public: p }, r)),
            None => None,
        },
        None => None,
    }
}

/// A capability key off the front.
pub open spec fn dec_key(s: Seq<u8>) -> Option<(KeyV, Seq<u8>)> {
    if s.len() == 0 {
        None
    } else if s[0] == 1u8 {
        match dec_wsecret(s.skip(1)) {
            Some((w, r)) => Some((KeyV::Secret(w), r)),
            None => None,
        }
    } else if s[0] == 0u8 {
        match dec_bytes(s.skip(1)) {
            Some((p, r)) => Some((KeyV::Public(p), r)),
            None => None,
        }
    } else {
        None
    }
}

pub open spec fn dec_opt_key(s: Seq<u8>) -> Option<(Option<KeyV>, Seq<u8>)> {
    if s.len() == 0 {
        None
    } else if s[0] == 1u8 {
        match dec_key(s.skip(1)) {
            Some((k, r)) => Some((Some(k), r)),
            None => None,
        }
    } else if s[0] == 0u8 {
        Some((None, s.skip(1)))
    } else {
        None
    }
}

pub open spec fn dec_opt_children(s: Seq<u8>) -> Option<(Option<(KeyV, KeyV)>, Seq<u8>)> {
    if s.len() == 0 {
        None
    } else if s[0] == 1u8 {
        match dec_key(s.skip(1)) {
            Some((a, r)) => match dec_key(r) {
                Some((b, r2)) => Some((Some((a, b)), r2)),
                None => None,
            },
            None => None,
        }
    } else if s[0] == 0u8 {
        Some((None, s.skip(1)))
    } else {
        None
    }
}

pub open spec fn dec_others_items(s: Seq<u8>, n: nat) -> Option<
    (Seq<(Seq<char>, KeyV)>, Seq<u8>),
>
    decreases n,
{
    if n == 0 {
        Some((Seq::empty(), s))
    } else {
        match dec_name(s) {
            Some((nm, r)) => match dec_key(r) {
                Some((k, r2)) => match dec_others_items(r2, (n - 1) as nat) {
                    Some((items, r3)) => Some((seq![(nm, k)] + items, r3)),
                    None => None,
                },
                None => None,
            },
            None => None,
        }
    }
}

pub open spec fn dec_others(s: Seq<u8>) -> Option<(Seq<(Seq<char>, KeyV)>, Seq<u8>)> {
    match dec_u64(s) {
        Some((n, r)) => dec_others_items(r, n as nat),
        None => None,
    }
}

pub open spec fn dec_keyset(s: Seq<u8>) -> Option<(KeySetV, Seq<u8>)> {
    match dec_wsecret(s) {
        Some((discover, r)) => match dec_wsecret(r) {
            Some((read, r2)) => match dec_opt_children(r2) {
                Some((children, r3)) => match dec_opt_key(r3) {
                    Some((delete, r4)) => match dec_others(r4) {
                        Some((others, r5)) => Some(
                            (KeySetV { discover, read, children, delete, others }, r5),
                        ),
                        None => None,
                    },
                    None => None,
                },
                None => None,
            },
            None => None,
        },
        None => None,
    }
}

pub open spec fn dec_ids_items(s: Seq<u8>, n: nat) -> Option<(Seq<Seq<u8>>, Seq<u8>)>
    decreases n,
{
    if n == 0 {
        Some((Seq::empty(), s))
    } else {
        match dec_bytes(s) {
            Some((id, r)) => match dec_ids_items(r, (n - 1) as nat) {
                Some((ids, r2)) => Some((seq![id] + ids, r2)),
                None => None,
            },
            None => None,
        }
    }
}

pub open spec fn dec_cv(s: Seq<u8>) -> Option<(ChildrenValidationV, Seq<u8>)> {
    match dec_u64(s) {
        Some((n, r)) => match dec_ids_items(r, n as nat) {
            Some((children, r2)) => match dec_bool(r2) {
                Some((ad, r3)) => match dec_bool(r3) {
                    Some((ar, r4)) => match dec_bool(r4) {
                        Some((ap, r5)) => Some(
                            (
                                ChildrenValidationV {
                                    children,
                                    anyone_discover: ad,
                                    anyone_read: ar,
                                    allow_pointers: ap,
                                },
                                r5,
                            ),
                        ),
                        None => None,
                    },
                    None => None,
                },
                None => None,
            },
            None => None,
        },
        None => None,
    }
}

pub open spec fn dec_opt_cv(s: Seq<u8>) -> Option<(Option<ChildrenValidationV>, Seq<u8>)> {
    if s.len() == 0 {
        None
    } else if s[0] == 1u8 {
        match dec_cv(s.skip(1)) {
            Some((cv, r)) => Some((Some(cv), r)),
            None => None,
        }
    } else if s[0] == 0u8 {
        Some((None, s.skip(1)))
    } else {
        None
    }
}

pub open spec fn dec_opt_bool(s: Seq<u8>) -> Option<(Option<bool>, Seq<u8>)> {
    if s.len() == 0 {
        None
    } else if s[0] == 1u8 {
        match dec_bool(s.skip(1)) {
            Some((b, r)) => Some((Some(b), r)),
            None => None,
        }
    } else if s[0] == 0u8 {
        Some((None, s.skip(1)))
    } else {
        None
    }
}

pub open spec fn dec_states_items(s: Seq<u8>, n: nat) -> Option<(Seq<(Seq<char>, bool)>, Seq<u8>)>
    decreases n,
{
    if n == 0 {
        Some((Seq::empty(), s))
    } else {
        match dec_name(s) {
            Some((nm, r)) => match dec_bool(r) {
                Some((b, r2)) => match dec_states_items(r2, (n - 1) as nat) {
                    Some((items, r3)) => Some((seq![(nm, b)] + items, r3)),
                    None => None,
                },
                None => None,
            },
            None => None,
        }
    }
}

pub open spec fn dec_validation(s: Seq<u8>) -> Option<(ValidationV, Seq<u8>)> {
    match dec_opt_cv(s) {
        Some((children, r)) => match dec_opt_bool(r) {
            Some((delete, r2)) => match dec_u64(r2) {
                Some((n, r3)) => match dec_states_items(r3, n as nat) {
                    Some((key_states, r4)) => match dec_bool(r4) {
                        Some((allow_extra_keys, r5)) => Some(
                            (ValidationV { children, delete, key_states, allow_extra_keys }, r5),
                        ),
                        None => None,
                    },
                    None => None,
                },
                None => None,
            },
            None => None,
        },
        None => None,
    }
}

pub open spec fn dec_header(s: Seq<u8>) -> Option<(HeaderV, Seq<u8>)> {
    match dec_keyset(s) {
        Some((keys, r)) => match dec_validation(r) {
            Some((validation, r2)) => match dec_bytes(r2) {
                Some((data, r3)) => match dec_bytes(r3) {
                    Some((protocol, r4)) => Some(
                        (HeaderV { keys, validation, data, protocol }, r4),
                    ),
                    None => None,
                },
                None => None,
            },
            None => None,
        },
        None => None,
    }
}

pub open spec fn dec_record(s: Seq<u8>) -> Option<(RecordV, Seq<u8>)> {
    match dec_header(s) {
        Some((header, r)) => match dec_bytes(r) {
            Some((payload, r2)) => Some((RecordV { header, payload }, r2)),
            None => None,
        },
        None => None,
    }
}

pub proof fn lemma_rt_u64(x: u64, rest: Seq<u8>)
    ensures
        dec_u64(enc_u64(x) + rest) == Some((x, rest)),
{
    lemma_auto_spec_u64_to_from_le_bytes();
    assert((enc_u64(x) + rest).take(8) =~= enc_u64(x));
    assert((enc_u64(x) + rest).skip(8) =~= rest);
}

pub proof fn lemma_rt_bytes(b: Seq<u8>, rest: Seq<u8>)
    requires
        bounded(b),
    ensures
        dec_bytes(enc_bytes(b) + rest) == Some((b, rest)),
{
    lemma_rt_u64(b.len() as u64, b + rest);
    assert(enc_bytes(b) + rest =~= enc_u64(b.len() as u64) + (b + rest));
    assert((b + rest).take(b.len() as int) =~= b);
    assert((b + rest).skip(b.len() as int) =~= rest);
}

pub proof fn lemma_rt_bool(b: bool, rest: Seq<u8>)
    ensures
        dec_bool(enc_bool(b) + rest) == Some((b, rest)),
{
    assert((enc_bool(b) + rest)[0] == (if b { 1u8 } else { 0u8 }));
    assert((enc_bool(b) + rest).skip(1) =~= rest);
}

pub proof fn lemma_rt_name(n: Seq<char>, rest: Seq<u8>)
    requires
        bounded(vstd::utf8::encode_utf8(n)),
    ensures
        dec_name(enc_name(n) + rest) == Some((n, rest)),
{
    broadcast use vstd::utf8::encode_utf8_valid_utf8;
    broadcast use vstd::utf8::encode_utf8_decode_utf8;

    lemma_rt_bytes(vstd::utf8::encode_utf8(n), rest);
}

pub proof fn lemma_rt_wsecret(w: WSecretKeyV, rest: Seq<u8>)
    requires
        w.wf(),
    ensures
        dec_wsecret(enc_wsecret(w) + rest) == Some((w, rest)),
{
    lemma_rt_bytes(w.secret, rest);
}

pub proof fn lemma_rt_key(k: KeyV, rest: Seq<u8>)
    requires
        k.wf(),
    ensures
        dec_key(enc_key(k) + rest) == Some((k, rest)),
{
    match k {
        KeyV::Secret(s) => {
            assert((enc_key(k) + rest)[0] == 1u8);
            assert((enc_key(k) + rest).skip(1) =~= enc_wsecret(s) + rest);
            lemma_rt_wsecret(s, rest);
        },
        KeyV::Public(p) => {
            assert((enc_key(k) + rest)[0] == 0u8);
            assert((enc_key(k) + rest).skip(1) =~= enc_bytes(p) + rest);
            lemma_rt_bytes(p, rest);
        },
    }
}

pub proof fn lemma_rt_opt_key(k: Option<KeyV>, rest: Seq<u8>)
    requires
        match k {
            Some(k) => k.wf(),
            None => true,
        },
    ensures
        dec_opt_key(enc_opt_key(k) + rest) == Some((k, rest)),
{
    match k {
        Some(k0) => {
            assert((enc_opt_key(k) + rest)[0] == 1u8);
            assert((enc_opt_key(k) + rest).skip(1) =~= enc_key(k0) + rest);
            lemma_rt_key(k0, rest);
        },
        None => {
            assert((enc_opt_key(k) + rest)[0] == 0u8);
            assert((enc_opt_key(k) + rest).skip(1) =~= rest);
        },
    }
}

pub proof fn lemma_rt_opt_children(c: Option<(KeyV, KeyV)>, rest: Seq<u8>)
    requires
        match c {
            Some((a, b)) => a.wf() && b.wf(),
            None => true,
        },
    ensures
        dec_opt_children(enc_opt_children(c) + rest) == Some((c, rest)),
{
    match c {
        Some((a, b)) => {
            assert((enc_opt_children(c) + rest)[0] == 1u8);
            assert((enc_opt_children(c) + rest).skip(1) =~= enc_key(a) + (enc_key(b) + rest));
            lemma_rt_key(a, enc_key(b) + rest);
            lemma_rt_key(b, rest);
        },
        None => {
            assert((enc_opt_children(c) + rest)[0] == 0u8);
            assert((enc_opt_children(c) + rest).skip(1) =~= rest);
        },
    }
}

pub proof fn lemma_rt_others_items(os: Seq<(Seq<char>, KeyV)>, rest: Seq<u8>)
    requires
        forall|i: int| 0 <= i < os.len() ==> (#[trigger] os[i]).1.wf() && bounded(
            vstd::utf8::encode_utf8(os[i].0),
        ),
    ensures
        dec_others_items(enc_others_items(os) + rest, os.len()) == Some((os, rest)),
    decreases os.len(),
{
    if os.len() == 0 {
        assert(enc_others_items(os) + rest =~= rest);
        assert(Some((Seq::<(Seq<char>, KeyV)>::empty(), rest)) == Some((os, rest))) by {
            assert(os =~= Seq::<(Seq<char>, KeyV)>::empty());
        }
    } else {
        let tail = os.drop_first();
        assert(enc_others_items(os) + rest =~= enc_name(os[0].0) + (enc_key(os[0].1)
            + (enc_others_items(tail) + rest)));
        lemma_rt_name(os[0].0, enc_key(os[0].1) + (enc_others_items(tail) + rest));
        lemma_rt_key(os[0].1, enc_others_items(tail) + rest);
        lemma_rt_others_items(tail, rest);
        assert(seq![(os[0].0, os[0].1)] + tail =~= os);
    }
}

#[verifier::rlimit(100)]
#[verifier::spinoff_prover]
pub proof fn lemma_rt_keyset(ks: KeySetV, rest: Seq<u8>)
    requires
        ks.honest(),
        ks.bounded(),
    ensures
        dec_keyset(enc_keyset(ks) + rest) == Some((ks, rest)),
{
    let e1 = enc_wsecret(ks.discover);
    let e2 = enc_wsecret(ks.read);
    let e3 = enc_opt_children(ks.children);
    let e4 = enc_opt_key(ks.delete);
    let e5 = enc_others(ks.others);
    let t5 = e5 + rest;
    let t4 = e4 + t5;
    let t3 = e3 + t4;
    let t2 = e2 + t3;
    lemma_add_assoc(e1 + e2 + e3 + e4, e5, rest);
    lemma_add_assoc(e1 + e2 + e3, e4, t5);
    lemma_add_assoc(e1 + e2, e3, t4);
    lemma_add_assoc(e1, e2, t3);
    assert(enc_keyset(ks) + rest == e1 + t2);
    lemma_rt_wsecret(ks.discover, t2);
    lemma_rt_wsecret(ks.read, t3);
    lemma_rt_opt_children(ks.children, t4);
    lemma_rt_opt_key(ks.delete, t5);
    let items = enc_others_items(ks.others);
    lemma_add_assoc(enc_u64(ks.others.len() as u64), items, rest);
    lemma_rt_u64(ks.others.len() as u64, items + rest);
    lemma_rt_others_items(ks.others, rest);
}

pub proof fn lemma_rt_ids_items(ids: Seq<Seq<u8>>, rest: Seq<u8>)
    requires
        forall|i: int| 0 <= i < ids.len() ==> bounded(#[trigger] ids[i]),
    ensures
        dec_ids_items(enc_ids_items(ids) + rest, ids.len()) == Some((ids, rest)),
    decreases ids.len(),
{
    if ids.len() == 0 {
        assert(enc_ids_items(ids) + rest =~= rest);
        assert(ids =~= Seq::<Seq<u8>>::empty());
    } else {
        let tail = ids.drop_first();
        assert(enc_ids_items(ids) + rest =~= enc_bytes(ids[0]) + (enc_ids_items(tail) + rest));
        lemma_rt_bytes(ids[0], enc_ids_items(tail) + rest);
        lemma_rt_ids_items(tail, rest);
        assert(seq![ids[0]] + tail =~= ids);
    }
}

pub proof fn lemma_rt_cv(cv: ChildrenValidationV, rest: Seq<u8>)
    requires
        cv.bounded(),
    ensures
        dec_cv(enc_cv(cv) + rest) == Some((cv, rest)),
{
    let s3 = enc_bool(cv.anyone_discover) + (enc_bool(cv.anyone_read) + (enc_bool(
        cv.allow_pointers,
    ) + rest));
    assert(enc_cv(cv) + rest =~= enc_u64(cv.children.len() as u64) + (enc_ids_items(cv.children)
        + s3));
    lemma_rt_u64(cv.children.len() as u64, enc_ids_items(cv.children) + s3);
    lemma_rt_ids_items(cv.children, s3);
    lemma_rt_bool(cv.anyone_discover, enc_bool(cv.anyone_read) + (enc_bool(cv.allow_pointers)
        + rest));
    lemma_rt_bool(cv.anyone_read, enc_bool(cv.allow_pointers) + rest);
    lemma_rt_bool(cv.allow_pointers, rest);
}

pub proof fn lemma_rt_opt_cv(c: Option<ChildrenValidationV>, rest: Seq<u8>)
    requires
        match c {
            Some(cv) => cv.bounded(),
            None => true,
        },
    ensures
        dec_opt_cv(enc_opt_cv(c) + rest) == Some((c, rest)),
{
    match c {
        Some(cv) => {
            assert((enc_opt_cv(c) + rest)[0] == 1u8);
            assert((enc_opt_cv(c) + rest).skip(1) =~= enc_cv(cv) + rest);
            lemma_rt_cv(cv, rest);
        },
        None => {
            assert((enc_opt_cv(c) + rest)[0] == 0u8);
            assert((enc_opt_cv(c) + rest).skip(1) =~= rest);
        },
    }
}

pub proof fn lemma_rt_opt_bool(b: Option<bool>, rest: Seq<u8>)
    ensures
        dec_opt_bool(enc_opt_bool(b) + rest) == Some((b, rest)),
{
    match b {
        Some(b0) => {
            assert((enc_opt_bool(b) + rest)[0] == 1u8);
            assert((enc_opt_bool(b) + rest).skip(1) =~= enc_bool(b0) + rest);
            lemma_rt_bool(b0, rest);
        },
        None => {
            assert((enc_opt_bool(b) + rest)[0] == 0u8);
            assert((enc_opt_bool(b) + rest).skip(1) =~= rest);
        },
    }
}

pub proof fn lemma_rt_states_items(ss: Seq<(Seq<char>, bool)>, rest: Seq<u8>)
    requires
        forall|i: int| 0 <= i < ss.len() ==> bounded(
            vstd::utf8::encode_utf8((#[trigger] ss[i]).0),
        ),
    ensures
        dec_states_items(enc_states_items(ss) + rest, ss.len()) == Some((ss, rest)),
    decreases ss.len(),
{
    if ss.len() == 0 {
        assert(enc_states_items(ss) + rest =~= rest);
        assert(ss =~= Seq::<(Seq<char>, bool)>::empty());
    } else {
        let tail = ss.drop_first();
        assert(enc_states_items(ss) + rest =~= enc_name(ss[0].0) + (enc_bool(ss[0].1)
            + (enc_states_items(tail) + rest)));
        lemma_rt_name(ss[0].0, enc_bool(ss[0].1) + (enc_states_items(tail) + rest));
        lemma_rt_bool(ss[0].1, enc_states_items(tail) + rest);
        lemma_rt_states_items(tail, rest);
        assert(seq![(ss[0].0, ss[0].1)] + tail =~= ss);
    }
}

#[verifier::rlimit(60)]
#[verifier::spinoff_prover]
pub proof fn lemma_rt_validation(v: ValidationV, rest: Seq<u8>)
    requires
        v.bounded(),
    ensures
        dec_validation(enc_validation(v) + rest) == Some((v, rest)),
{
    let s_states = enc_u64(v.key_states.len() as u64) + (enc_states_items(v.key_states)
        + (enc_bool(v.allow_extra_keys) + rest));
    assert(enc_validation(v) + rest =~= enc_opt_cv(v.children) + (enc_opt_bool(v.delete)
        + s_states));
    lemma_rt_opt_cv(v.children, enc_opt_bool(v.delete) + s_states);
    lemma_rt_opt_bool(v.delete, s_states);
    lemma_rt_u64(v.key_states.len() as u64, enc_states_items(v.key_states) + (enc_bool(
        v.allow_extra_keys,
    ) + rest));
    lemma_rt_states_items(v.key_states, enc_bool(v.allow_extra_keys) + rest);
    lemma_rt_bool(v.allow_extra_keys, rest);
}

/// Decoding inverts encoding: a header whose keys are honest and whose
/// parts are length-bounded comes back from its wire form unchanged.
pub proof fn lemma_rt_header(h: HeaderV, rest: Seq<u8>)
    requires
        h.keys.honest(),
        h.bounded(),
    ensures
        dec_header(enc_header(h) + rest) == Some((h, rest)),
{
    let s_tail = enc_validation(h.validation) + (enc_bytes(h.data) + (enc_bytes(h.protocol)
        + rest));
    assert(enc_header(h) + rest =~= enc_keyset(h.keys) + s_tail);
    lemma_rt_keyset(h.keys, s_tail);
    lemma_rt_validation(h.validation, enc_bytes(h.data) + (enc_bytes(h.protocol) + rest));
    lemma_rt_bytes(h.data, enc_bytes(h.protocol) + rest);
    lemma_rt_bytes(h.protocol, rest);
}

/// Decoding inverts encoding for whole records.
pub proof fn lemma_rt_record(r: RecordV, rest: Seq<u8>)
    requires
        r.header.keys.honest(),
        r.header.bounded(),
        bounded(r.payload),
    ensures
        dec_record(enc_record(r) + rest) == Some((r, rest)),
{
    assert(enc_record(r) + rest =~= enc_header(r.header) + (enc_bytes(r.payload) + rest));
    lemma_rt_header(r.header, enc_bytes(r.payload) + rest);
    lemma_rt_bytes(r.payload, rest);
}

/// Relies on String::from_utf8: it succeeds exactly on valid UTF-8 and
/// returns the string made of those bytes.
#[verifier::external_body]
pub fn string_from_utf8(v: Vec<u8>) -> (r: Option<String>)
    ensures
        match r {
            Some(s) => vstd::utf8::valid_utf8(v@) && vstd::utf8::encode_utf8(s@) == v@,
            None => !vstd::utf8::valid_utf8(v@),
        },
{
    String::from_utf8(v).ok()
}

pub fn read_u64(input: &[u8], pos: usize) -> (r: Option<(u64, usize)>)
    requires
        pos <= input@.len(),
    ensures
        match r {
            Some(v) => v.1 <= input@.len() && dec_u64(input@.skip(pos as int)) == Some(
                (v.0, input@.skip(v.1 as int)),
            ),
            None => dec_u64(input@.skip(pos as int)) is None,
        },
{
    if input.len() - pos < 8 {
        return None;
    }
    let sub = vstd::slice::slice_subrange(input, pos, pos + 8);
    let v = vstd::bytes::u64_from_le_bytes(sub);
    proof {
        assert(input@.skip(pos as int).take(8) =~= input@.subrange(pos as int, pos + 8));
        assert(input@.skip(pos as int).skip(8) =~= input@.skip(pos + 8));
    }
    Some((v, pos + 8))
}

pub fn read_bytes(input: &[u8], pos: usize) -> (r: Option<(Vec<u8>, usize)>)
    requires
        pos <= input@.len(),
    ensures
        match r {
            Some(v) => v.1 <= input@.len() && dec_bytes(input@.skip(pos as int)) == Some(
                (v.0@, input@.skip(v.1 as int)),
            ),
            None => dec_bytes(input@.skip(pos as int)) is None,
        },
{
    let (n, p) = match read_u64(input, pos) {
        Some(v) => v,
        None => {
            return None;
        },
    };
    if n > (input.len() - p) as u64 {
        return None;
    }
    let n_us = n as usize;
    let sub = vstd::slice::slice_subrange(input, p, p + n_us);
    let v = vstd::slice::slice_to_vec(sub);
    proof {
        assert(input@.skip(p as int).take(n as int) =~= input@.subrange(p as int, p + n));
        assert(input@.skip(p as int).skip(n as int) =~= input@.skip(p + n));
    }
    Some((v, p + n_us))
}

pub fn read_bool(input: &[u8], pos: usize) -> (r: Option<(bool, usize)>)
    requires
        pos <= input@.len(),
    ensures
        match r {
            Some(v) => v.1 <= input@.len() && dec_bool(input@.skip(pos as int)) == Some(
                (v.0, input@.skip(v.1 as int)),
            ),
            None => dec_bool(input@.skip(pos as int)) is None,
        },
{
    if pos == input.len() {
        return None;
    }
    let b = input[pos];
    proof {
        assert(input@.skip(pos as int)[0] == input@[pos as int]);
        assert(input@.skip(pos as int).skip(1) =~= input@.skip(pos + 1));
    }
    if b == 1u8 {
        Some((true, pos + 1))
    } else if b == 0u8 {
        Some((false, pos + 1))
    } else {
        None
    }
}

pub fn read_name(input: &[u8], pos: usize) -> (r: Option<(String, usize)>)
    requires
        pos <= input@.len(),
    ensures
        match r {
            Some(v) => v.1 <= input@.len() && dec_name(input@.skip(pos as int)) == Some(
                (v.0@, input@.skip(v.1 as int)),
            ),
            None => dec_name(input@.skip(pos as int)) is None,
        },
{
    let (b, p) = match read_bytes(input, pos) {
        Some(v) => v,
        None => {
            return None;
        },
    };
    let s = match string_from_utf8(b) {
        Some(s) => s,
        None => {
            return None;
        },
    };
    proof {
        broadcast use vstd::utf8::encode_utf8_decode_utf8;

    }
    Some((s, p))
}

pub fn read_wsecret(input: &[u8], pos: usize) -> (r: Option<(crate::records::WSecretKey, usize)>)
    requires
        pos <= input@.len(),
    ensures
        match r {
            Some(v) => v.1 <= input@.len() && dec_wsecret(input@.skip(pos as int)) == Some(
                (v.0@, input@.skip(v.1 as int)),
            ) && v.0@.wf(),
            None => dec_wsecret(input@.skip(pos as int)) is None,
        },
{
    let (sec, p) = match read_bytes(input, pos) {
        Some(v) => v,
        None => {
            return None;
        },
    };
    let public = match crate::crypto::public_key(&sec) {
        Ok(p) => p,
        Err(_) => {
            return None;
        },
    };
    Some((crate::records::WSecretKey { secret: sec, public }, p))
}

pub fn read_key(input: &[u8], pos: usize) -> (r: Option<(crate::records::Key, usize)>)
    requires
        pos <= input@.len(),
    ensures
        match r {
            Some(v) => v.1 <= input@.len() && dec_key(input@.skip(pos as int)) == Some(
                (v.0@, input@.skip(v.1 as int)),
            ) && v.0@.wf(),
            None => dec_key(input@.skip(pos as int)) is None,
        },
{
    if pos == input.len() {
        return None;
    }
    let tag = input[pos];
    proof {
        assert(input@.skip(pos as int)[0] == input@[pos as int]);
        assert(input@.skip(pos as int).skip(1) =~= input@.skip(pos + 1));
    }
    if tag == 1u8 {
        match read_wsecret(input, pos + 1) {
            Some((w, p)) => Some((crate::records::Key::Secret(w), p)),
            None => None,
        }
    } else if tag == 0u8 {
        match read_bytes(input, pos + 1) {
            Some((b, p)) => {
                proof {
                    assert(crate::codec::bounded(b@));
                }
                Some((crate::records::Key::Public(b), p))
            },
            None => None,
        }
    } else {
        None
    }
}

pub fn read_opt_key(input: &[u8], pos: usize) -> (r: Option<
    (Option<crate::records::Key>, usize),
>)
    requires
        pos <= input@.len(),
    ensures
        match r {
            Some(v) => v.1 <= input@.len() && dec_opt_key(input@.skip(pos as int)) == Some(
                (
                    match v.0 {
                        Some(ref k) => Some(k@),
                        None => None,
                    },
                    input@.skip(v.1 as int),
                ),
            ) && (match v.0 {
                Some(ref k) => k@.wf(),
                None => true,
            }),
            None => dec_opt_key(input@.skip(pos as int)) is None,
        },
{
    if pos == input.len() {
        return None;
    }
    let tag = input[pos];
    proof {
        assert(input@.skip(pos as int)[0] == input@[pos as int]);
        assert(input@.skip(pos as int).skip(1) =~= input@.skip(pos + 1));
    }
    if tag == 1u8 {
        match read_key(input, pos + 1) {
            Some((k, p)) => Some((Some(k), p)),
            None => None,
        }
    } else if tag == 0u8 {
        Some((None, pos + 1))
    } else {
        None
    }
}

pub fn read_opt_children(input: &[u8], pos: usize) -> (r: Option<
    (Option<(crate::records::Key, crate::records::Key)>, usize),
>)
    requires
        pos <= input@.len(),
    ensures
        match r {
            Some(v) => v.1 <= input@.len() && dec_opt_children(input@.skip(pos as int)) == Some(
                (
                    match v.0 {
                        Some((ref a, ref b)) => Some((a@, b@)),
                        None => None,
                    },
                    input@.skip(v.1 as int),
                ),
            ) && (match v.0 {
                Some((ref a, ref b)) => a@.wf() && b@.wf(),
                None => true,
            }),
            None => dec_opt_children(input@.skip(pos as int)) is None,
        },
{
    if pos == input.len() {
        return None;
    }
    let tag = input[pos];
    proof {
        assert(input@.skip(pos as int)[0] == input@[pos as int]);
        assert(input@.skip(pos as int).skip(1) =~= input@.skip(pos + 1));
    }
    if tag == 1u8 {
        match read_key(input, pos + 1) {
            Some((a, p)) => match read_key(input, p) {
                Some((b, p2)) => Some((Some((a, b)), p2)),
                None => None,
            },
            None => None,
        }
    } else if tag == 0u8 {
        Some((None, pos + 1))
    } else {
        None
    }
}

fn read_others_items(input: &[u8], pos: usize, n: u64) -> (r: Option<
    (Vec<(String, crate::records::Key)>, usize),
>)
    requires
        pos <= input@.len(),
    ensures
        match r {
            Some(v) => v.1 <= input@.len() && dec_others_items(input@.skip(pos as int), n as nat)
                == Some((crate::records::others_view(v.0@), input@.skip(v.1 as int))) && (forall|
                i: int,
            |
                0 <= i < v.0@.len() ==> (#[trigger] crate::records::others_view(v.0@)[i]).1.wf()),
            None => dec_others_items(input@.skip(pos as int), n as nat) is None,
        },
    decreases n,
{
    if n == 0 {
        let v: Vec<(String, crate::records::Key)> = Vec::new();
        proof {
            assert(crate::records::others_view(v@) =~= Seq::<(Seq<char>, KeyV)>::empty());
        }
        Some((v, pos))
    } else {
        let (nm, p) = match read_name(input, pos) {
            Some(v) => v,
            None => {
                return None;
            },
        };
        let (k, p2) = match read_key(input, p) {
            Some(v) => v,
            None => {
                return None;
            },
        };
        let (mut items, p3) = match read_others_items(input, p2, n - 1) {
            Some(v) => v,
            None => {
                return None;
            },
        };
        let pair = (nm, k);
        let ghost e = pair;
        let ghost r0 = items@;
        items.insert(0, pair);
        proof {
            crate::records::lemma_others_view_cons(r0, e, items@);
            assert(crate::records::others_view(items@) =~= seq![(e.0@, e.1@)]
                + crate::records::others_view(r0));
        }
        Some((items, p3))
    }
}

pub fn read_others(input: &[u8], pos: usize) -> (r: Option<
    (Vec<(String, crate::records::Key)>, usize),
>)
    requires
        pos <= input@.len(),
    ensures
        match r {
            Some(v) => v.1 <= input@.len() && dec_others(input@.skip(pos as int)) == Some(
                (crate::records::others_view(v.0@), input@.skip(v.1 as int)),
            ) && (forall|i: int|
                0 <= i < v.0@.len() ==> (#[trigger] crate::records::others_view(v.0@)[i]).1.wf()),
            None => dec_others(input@.skip(pos as int)) is None,
        },
{
    let (n, p) = match read_u64(input, pos) {
        Some(v) => v,
        None => {
            return None;
        },
    };
    read_others_items(input, p, n)
}

pub fn read_keyset(input: &[u8], pos: usize) -> (r: Option<(crate::records::KeySet, usize)>)
    requires
        pos <= input@.len(),
    ensures
        match r {
            Some(v) => v.1 <= input@.len() && dec_keyset(input@.skip(pos as int)) == Some(
                (v.0@, input@.skip(v.1 as int)),
            ) && v.0@.honest(),
            None => dec_keyset(input@.skip(pos as int)) is None,
        },
{
    let (discover, p) = match read_wsecret(input, pos) {
        Some(v) => v,
        None => {
            return None;
        },
    };
    let (read, p2) = match read_wsecret(input, p) {
        Some(v) => v,
        None => {
            return None;
        },
    };
    let (children, p3) = match read_opt_children(input, p2) {
        Some(v) => v,
        None => {
            return None;
        },
    };
    let (delete, p4) = match read_opt_key(input, p3) {
        Some(v) => v,
        None => {
            return None;
        },
    };
    let (others, p5) = match read_others(input, p4) {
        Some(v) => v,
        None => {
            return None;
        },
    };
    Some((crate::records::KeySet { discover, read, children, delete, others }, p5))
}

fn read_ids_items(input: &[u8], pos: usize, n: u64) -> (r: Option<(Vec<crate::Id>, usize)>)
    requires
        pos <= input@.len(),
    ensures
        match r {
            Some(v) => v.1 <= input@.len() && dec_ids_items(input@.skip(pos as int), n as nat)
                == Some((ids_view(v.0@), input@.skip(v.1 as int))),
            None => dec_ids_items(input@.skip(pos as int), n as nat) is None,
        },
    decreases n,
{
    if n == 0 {
        let v: Vec<crate::Id> = Vec::new();
        proof {
            assert(ids_view(v@) =~= Seq::<Seq<u8>>::empty());
        }
        Some((v, pos))
    } else {
        let (b, p) = match read_bytes(input, pos) {
            Some(v) => v,
            None => {
                return None;
            },
        };
        let (mut ids, p2) = match read_ids_items(input, p, n - 1) {
            Some(v) => v,
            None => {
                return None;
            },
        };
        let id = crate::Id(b);
        let ghost e = id;
        let ghost r0 = ids@;
        ids.insert(0, id);
        proof {
            lemma_insert_front(r0, e, ids@);
            assert(ids_view(ids@) =~= seq![e@] + ids_view(r0));
        }
        Some((ids, p2))
    }
}

pub fn read_cv(input: &[u8], pos: usize) -> (r: Option<
    (crate::records::ChildrenValidation, usize),
>)
    requires
        pos <= input@.len(),
    ensures
        match r {
            Some(v) => v.1 <= input@.len() && dec_cv(input@.skip(pos as int)) == Some(
                (v.0@, input@.skip(v.1 as int)),
            ),
            None => dec_cv(input@.skip(pos as int)) is None,
        },
{
    let (n, p) = match read_u64(input, pos) {
        Some(v) => v,
        None => {
            return None;
        },
    };
    let (children, p2) = match read_ids_items(input, p, n) {
        Some(v) => v,
        None => {
            return None;
        },
    };
    let (ad, p3) = match read_bool(input, p2) {
        Some(v) => v,
        None => {
            return None;
        },
    };
    let (ar, p4) = match read_bool(input, p3) {
        Some(v) => v,
        None => {
            return None;
        },
    };
    let (ap, p5) = match read_bool(input, p4) {
        Some(v) => v,
        None => {
            return None;
        },
    };
    Some(
        (
            crate::records::ChildrenValidation {
                children,
                anyone_discover: ad,
                anyone_read: ar,
                allow_pointers: ap,
            },
            p5,
        ),
    )
}

pub fn read_opt_cv(input: &[u8], pos: usize) -> (r: Option<
    (Option<crate::records::ChildrenValidation>, usize),
>)
    requires
        pos <= input@.len(),
    ensures
        match r {
            Some(v) => v.1 <= input@.len() && dec_opt_cv(input@.skip(pos as int)) == Some(
                (
                    match v.0 {
                        Some(ref cv) => Some(cv@),
                        None => None,
                    },
                    input@.skip(v.1 as int),
                ),
            ),
            None => dec_opt_cv(input@.skip(pos as int)) is None,
        },
{
    if pos == input.len() {
        return None;
    }
    let tag = input[pos];
    proof {
        assert(input@.skip(pos as int)[0] == input@[pos as int]);
        assert(input@.skip(pos as int).skip(1) =~= input@.skip(pos + 1));
    }
    if tag == 1u8 {
        match read_cv(input, pos + 1) {
            Some((cv, p)) => Some((Some(cv), p)),
            None => None,
        }
    } else if tag == 0u8 {
        Some((None, pos + 1))
    } else {
        None
    }
}

pub fn read_opt_bool(input: &[u8], pos: usize) -> (r: Option<(Option<bool>, usize)>)
    requires
        pos <= input@.len(),
    ensures
        match r {
            Some(v) => v.1 <= input@.len() && dec_opt_bool(input@.skip(pos as int)) == Some(
                (v.0, input@.skip(v.1 as int)),
            ),
            None => dec_opt_bool(input@.skip(pos as int)) is None,
        },
{
    if pos == input.len() {
        return None;
    }
    let tag = input[pos];
    proof {
        assert(input@.skip(pos as int)[0] == input@[pos as int]);
        assert(input@.skip(pos as int).skip(1) =~= input@.skip(pos + 1));
    }
    if tag == 1u8 {
        match read_bool(input, pos + 1) {
            Some((b, p)) => Some((Some(b), p)),
            None => None,
        }
    } else if tag == 0u8 {
        Some((None, pos + 1))
    } else {
        None
    }
}

fn read_states_items(input: &[u8], pos: usize, n: u64) -> (r: Option<
    (Vec<(String, bool)>, usize),
>)
    requires
        pos <= input@.len(),
    ensures
        match r {
            Some(v) => v.1 <= input@.len() && dec_states_items(input@.skip(pos as int), n as nat)
                == Some((crate::records::states_view(v.0@), input@.skip(v.1 as int))),
            None => dec_states_items(input@.skip(pos as int), n as nat) is None,
        },
    decreases n,
{
    if n == 0 {
        let v: Vec<(String, bool)> = Vec::new();
        proof {
            assert(crate::records::states_view(v@) =~= Seq::<(Seq<char>, bool)>::empty());
        }
        Some((v, pos))
    } else {
        let (nm, p) = match read_name(input, pos) {
            Some(v) => v,
            None => {
                return None;
            },
        };
        let (b, p2) = match read_bool(input, p) {
            Some(v) => v,
            None => {
                return None;
            },
        };
        let (mut items, p3) = match read_states_items(input, p2, n - 1) {
            Some(v) => v,
            None => {
                return None;
            },
        };
        let pair = (nm, b);
        let ghost e = pair;
        let ghost r0 = items@;
        items.insert(0, pair);
        proof {
            lemma_insert_front(r0, e, items@);
            assert(crate::records::states_view(items@) =~= seq![(e.0@, e.1)]
                + crate::records::states_view(r0));
        }
        Some((items, p3))
    }
}

pub fn read_validation(input: &[u8], pos: usize) -> (r: Option<
    (crate::records::Validation, usize),
>)
    requires
        pos <= input@.len(),
    ensures
        match r {
            Some(v) => v.1 <= input@.len() && dec_validation(input@.skip(pos as int)) == Some(
                (v.0@, input@.skip(v.1 as int)),
            ),
            None => dec_validation(input@.skip(pos as int)) is None,
        },
{
    let (children, p) = match read_opt_cv(input, pos) {
        Some(v) => v,
        None => {
            return None;
        },
    };
    let (delete, p2) = match read_opt_bool(input, p) {
        Some(v) => v,
        None => {
            return None;
        },
    };
    let (n, p3) = match read_u64(input, p2) {
        Some(v) => v,
        None => {
            return None;
        },
    };
    let (key_states, p4) = match read_states_items(input, p3, n) {
        Some(v) => v,
        None => {
            return None;
        },
    };
    let (allow_extra_keys, p5) = match read_bool(input, p4) {
        Some(v) => v,
        None => {
            return None;
        },
    };
    Some((crate::records::Validation { children, delete, key_states, allow_extra_keys }, p5))
}

/// Parse a header off the front of `input` starting at `pos`.
pub fn read_header(input: &[u8], pos: usize) -> (r: Option<(crate::records::Header, usize)>)
    requires
        pos <= input@.len(),
    ensures
        match r {
            Some(v) => v.1 <= input@.len() && dec_header(input@.skip(pos as int)) == Some(
                (v.0@, input@.skip(v.1 as int)),
            ) && v.0@.keys.honest(),
            None => dec_header(input@.skip(pos as int)) is None,
        },
{
    let (keys, p) = match read_keyset(input, pos) {
        Some(v) => v,
        None => {
            return None;
        },
    };
    let (validation, p2) = match read_validation(input, p) {
        Some(v) => v,
        None => {
            return None;
        },
    };
    let (data, p3) = match read_bytes(input, p2) {
        Some(v) => v,
        None => {
            return None;
        },
    };
    let (protocol, p4) = match read_bytes(input, p3) {
        Some(v) => v,
        None => {
            return None;
        },
    };
    Some(
        (
            crate::records::Header { keys, validation, data, protocol: crate::Id(protocol) },
            p4,
        ),
    )
}

/// Parse a whole byte string as one header; trailing bytes are rejected.
pub fn decode_header(input: &Vec<u8>) -> (r: Option<crate::records::Header>)
    ensures
        match r {
            Some(h) => dec_header(input@) == Some((h@, input@.skip(input@.len() as int)))
                && h@.keys.honest(),
            None => dec_header(input@) is None || (dec_header(input@) matches Some((h, rest))
                && rest.len() != 0),
        },
{
    proof {
        assert(input@.skip(0) =~= input@);
    }
    match read_header(input.as_slice(), 0) {
        Some((h, p)) => {
            if p == input.len() {
                Some(h)
            } else {
                proof {
                    assert(input@.skip(p as int).len() != 0);
                }
                None
            }
        },
        None => None,
    }
}

/// Parse a whole byte string as one record; trailing bytes are rejected.
pub fn decode_record(input: &Vec<u8>) -> (r: Option<crate::records::Record>)
    ensures
        match r {
            Some(rec) => dec_record(input@) == Some((rec@, input@.skip(input@.len() as int)))
                && rec@.header.keys.honest(),
            None => dec_record(input@) is None || (dec_record(input@) matches Some((rec, rest))
                && rest.len() != 0),
        },
{
    proof {
        assert(input@.skip(0) =~= input@);
    }
    let (header, p) = match read_header(input.as_slice(), 0) {
        Some(v) => v,
        None => {
            return None;
        },
    };
    let (payload, p2) = match read_bytes(input.as_slice(), p) {
        Some(v) => v,
        None => {
            return None;
        },
    };
    if p2 == input.len() {
        Some(crate::records::Record { header, payload })
    } else {
        proof {
            assert(input@.skip(p2 as int).len() != 0);
        }
        None
    }
}

/// Three length-prefixed byte strings, as direct-message blobs carry:
/// sender name, signature, payload.
pub open spec fn enc_triple(a: Seq<u8>, b: Seq<u8>, c: Seq<u8>) -> Seq<u8> {
    enc_bytes(a) + enc_bytes(b) + enc_bytes(c)
}

pub open spec fn dec_triple(s: Seq<u8>) -> Option<(Seq<u8>, Seq<u8>, Seq<u8>)> {
    match dec_bytes(s) {
        Some((a, r)) => match dec_bytes(r) {
            Some((b, r2)) => match dec_bytes(r2) {
                Some((c, r3)) => if r3.len() == 0 {
                    Some((a, b, c))
                } else {
                    None
                },
                None => None,
            },
            None => None,
        },
        None => None,
    }
}

pub proof fn lemma_rt_triple(a: Seq<u8>, b: Seq<u8>, c: Seq<u8>)
    requires
        bounded(a),
        bounded(b),
        bounded(c),
    ensures
        dec_triple(enc_triple(a, b, c)) == Some((a, b, c)),
{
    let empty = Seq::<u8>::empty();
    assert(enc_triple(a, b, c) =~= enc_bytes(a) + (enc_bytes(b) + (enc_bytes(c) + empty)));
    lemma_rt_bytes(a, enc_bytes(b) + (enc_bytes(c) + empty));
    lemma_rt_bytes(b, enc_bytes(c) + empty);
    lemma_rt_bytes(c, empty);
}

/// Parse a whole byte string as three length-prefixed byte strings.
#[verifier::rlimit(60)]
pub fn decode_triple(input: &Vec<u8>) -> (r: Option<(Vec<u8>, Vec<u8>, Vec<u8>)>)
    ensures
        match r {
            Some(t) => dec_triple(input@) == Some((t.0@, t.1@, t.2@)),
            None => dec_triple(input@) is None,
        },
{
    proof {
        assert(input@.skip(0) =~= input@);
    }
    let (a, p) = match read_bytes(input.as_slice(), 0) {
        Some(v) => v,
        None => {
            return None;
        },
    };
    let (b, p2) = match read_bytes(input.as_slice(), p) {
        Some(v) => v,
        None => {
            return None;
        },
    };
    let (c, p3) = match read_bytes(input.as_slice(), p2) {
        Some(v) => v,
        None => {
            return None;
        },
    };
    if p3 == input.len() {
        proof {
            assert(input@.skip(p3 as int).len() == 0);
        }
        Some((a, b, c))
    } else {
        proof {
            assert(input@.skip(p3 as int).len() != 0);
        }
        None
    }
}

/// The lexicographic order is transitive.
pub proof fn lemma_bytes_lt_trans(a: Seq<u8>, b: Seq<u8>, c: Seq<u8>)
    requires
        bytes_lt(a, b),
        bytes_lt(b, c),
    ensures
        bytes_lt(a, c),
    decreases a.len() + b.len() + c.len(),
{
    if a.len() == 0 {
    } else {
        if a[0] == b[0] && b[0] == c[0] {
            lemma_bytes_lt_trans(a.drop_first(), b.drop_first(), c.drop_first());
        }
    }
}

} // verus!
