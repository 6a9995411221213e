//! The storage service: verifies every signature, keeps the three row
//! stores, and enforces the conflict, delete-authority and freshness
//! rules.

use vstd::prelude::*;

use crate::Id;
use crate::orange_name::{OrangeName, OrangeResolver};
use crate::storage::{
    Filter, PublicItem, Request, Response, SignedDelete, SignedPrivateItem, SignedPublicItem,
    SignedPublicUpdate, SignedRead, SignedTimes, SignedUpdate, SignedId, filter_matches,
    filter_view, opt_bytes_view, sd_ok, sid_ok, spi_ok, spub_ok, sr_ok, stimes_ok, su_ok, supd_ok,
};

verus! {

/// A stored private row.
#[derive(Debug)]
pub struct PrivateRow {
    pub discover: Vec<u8>,
    pub delete: Option<Vec<u8>>,
    pub signed: SignedPrivateItem,
    pub timestamp: i64,
}

/// A stored public row.
#[derive(Debug)]
pub struct PublicRow {
    pub id: Id,
    pub signer: OrangeName,
    pub protocol: Id,
    pub timestamp: i64,
    pub signed: SignedPublicItem,
}

/// A stored direct message.
#[derive(Debug)]
pub struct DmRow {
    pub recipient: OrangeName,
    pub payload: Vec<u8>,
    pub timestamp: i64,
}

/// A private row is stored only with a verified signature whose signer is
/// the discover key it is filed under, and its delete column mirrors the
/// signed item.
pub open spec fn private_row_wf(r: PrivateRow) -> bool {
    &&& spi_ok(r.signed)
    &&& r.signed.signer@ == r.discover@
    &&& r.signed.item.discover@ == r.discover@
    &&& opt_bytes_view(r.delete) == opt_bytes_view(r.signed.item.delete)
}

/// A public row is stored only with a verified signature whose signer and
/// protocol the indexed columns mirror.
pub open spec fn public_row_wf(r: PublicRow) -> bool {
    &&& spub_ok(r.signed)
    &&& r.signed.signer@ == r.signer@
    &&& r.signed.item.protocol@ == r.protocol@
}

/// The first private row filed under a discover key.
pub open spec fn find_private(rows: Seq<PrivateRow>, d: Seq<u8>) -> Option<PrivateRow>
    decreases rows.len(),
{
    if rows.len() == 0 {
        None
    } else if rows[0].discover@ == d {
        Some(rows[0])
    } else {
        find_private(rows.drop_first(), d)
    }
}

/// The first public row filed under an id.
pub open spec fn find_public(rows: Seq<PublicRow>, id: Seq<u8>) -> Option<PublicRow>
    decreases rows.len(),
{
    if rows.len() == 0 {
        None
    } else if rows[0].id@ == id {
        Some(rows[0])
    } else {
        find_public(rows.drop_first(), id)
    }
}

/// The server-side verifier and row store.
#[derive(Debug)]
pub struct Service {
    pub private: Vec<PrivateRow>,
    pub public: Vec<PublicRow>,
    pub dms: Vec<DmRow>,
}

/// Every stored row is well-formed and the unique-key columns are unique.
pub open spec fn service_wf(s: Service) -> bool {
    &&& forall|i: int| 0 <= i < s.private@.len() ==> private_row_wf(#[trigger] s.private@[i])
    &&& forall|i: int, j: int|
        0 <= i < j < s.private@.len() ==> (#[trigger] s.private@[i]).discover@ != (
        #[trigger] s.private@[j]).discover@
    &&& forall|i: int| 0 <= i < s.public@.len() ==> public_row_wf(#[trigger] s.public@[i])
    &&& forall|i: int, j: int|
        0 <= i < j < s.public@.len() ==> (#[trigger] s.public@[i]).id@ != (
        #[trigger] s.public@[j]).id@
}

/// Find the index of the private row under a discover key.
fn lookup_private_from(rows: &Vec<PrivateRow>, i: usize, d: &Vec<u8>) -> (r: Option<usize>)
    requires
        i <= rows@.len(),
    ensures
        match r {
            Some(ix) => i <= ix < rows@.len() && rows@[ix as int].discover@ == d@ && find_private(
                rows@.skip(i as int),
                d@,
            ) == Some(rows@[ix as int]),
            None => find_private(rows@.skip(i as int), d@) is None,
        },
    decreases rows@.len() - i,
{
    if i == rows.len() {
        None
    } else {
        proof {
            assert(rows@.skip(i as int).drop_first() =~= rows@.skip(i + 1));
        }
        let eq = rows[i].discover == *d;
        proof {
            if eq {
                assert(rows@[i as int].discover@ =~= d@);
            }
        }
        if eq {
            Some(i)
        } else {
            lookup_private_from(rows, i + 1, d)
        }
    }
}

/// Find the index of the public row under an id.
fn lookup_public_from(rows: &Vec<PublicRow>, i: usize, id: &Id) -> (r: Option<usize>)
    requires
        i <= rows@.len(),
    ensures
        match r {
            Some(ix) => i <= ix < rows@.len() && rows@[ix as int].id@ == id@ && find_public(
                rows@.skip(i as int),
                id@,
            ) == Some(rows@[ix as int]),
            None => find_public(rows@.skip(i as int), id@) is None,
        },
    decreases rows@.len() - i,
{
    if i == rows.len() {
        None
    } else {
        proof {
            assert(rows@.skip(i as int).drop_first() =~= rows@.skip(i + 1));
        }
        if rows[i].id.equals(id) {
            Some(i)
        } else {
            lookup_public_from(rows, i + 1, id)
        }
    }
}

/// Removing one row keeps the others well-formed and their keys distinct.
proof fn lemma_private_remove_wf(rows: Seq<PrivateRow>, ix: int)
    requires
        0 <= ix < rows.len(),
        forall|i: int| 0 <= i < rows.len() ==> private_row_wf(#[trigger] rows[i]),
        forall|i: int, j: int|
            0 <= i < j < rows.len() ==> (#[trigger] rows[i]).discover@ != (
            #[trigger] rows[j]).discover@,
    ensures
        forall|i: int| 0 <= i < rows.remove(ix).len() ==> private_row_wf(
            #[trigger] rows.remove(ix)[i],
        ),
        forall|i: int, j: int|
            0 <= i < j < rows.remove(ix).len() ==> (#[trigger] rows.remove(ix)[i]).discover@ != (
            #[trigger] rows.remove(ix)[j]).discover@,
{
    let rr = rows.remove(ix);
    assert forall|i: int| 0 <= i < rr.len() implies private_row_wf(#[trigger] rr[i]) by {
        if i < ix {
            assert(rr[i] == rows[i]);
        } else {
            assert(rr[i] == rows[i + 1]);
        }
    }
    assert forall|i: int, j: int| 0 <= i < j < rr.len() implies (#[trigger] rr[i]).discover@ != (
    #[trigger] rr[j]).discover@ by {
        let i0 = if i < ix {
            i
        } else {
            i + 1
        };
        let j0 = if j < ix {
            j
        } else {
            j + 1
        };
        assert(rr[i] == rows[i0]);
        assert(rr[j] == rows[j0]);
    }
}

/// Removing one public row keeps the rest well-formed and distinct.
proof fn lemma_public_remove_wf(rows: Seq<PublicRow>, ix: int)
    requires
        0 <= ix < rows.len(),
        forall|i: int| 0 <= i < rows.len() ==> public_row_wf(#[trigger] rows[i]),
        forall|i: int, j: int|
            0 <= i < j < rows.len() ==> (#[trigger] rows[i]).id@ != (#[trigger] rows[j]).id@,
    ensures
        forall|i: int| 0 <= i < rows.remove(ix).len() ==> public_row_wf(
            #[trigger] rows.remove(ix)[i],
        ),
        forall|i: int, j: int|
            0 <= i < j < rows.remove(ix).len() ==> (#[trigger] rows.remove(ix)[i]).id@ != (
            #[trigger] rows.remove(ix)[j]).id@,
{
    let rr = rows.remove(ix);
    assert forall|i: int| 0 <= i < rr.len() implies public_row_wf(#[trigger] rr[i]) by {
        if i < ix {
            assert(rr[i] == rows[i]);
        } else {
            assert(rr[i] == rows[i + 1]);
        }
    }
    assert forall|i: int, j: int| 0 <= i < j < rr.len() implies (#[trigger] rr[i]).id@ != (
    #[trigger] rr[j]).id@ by {
        let i0 = if i < ix {
            i
        } else {
            i + 1
        };
        let j0 = if j < ix {
            j
        } else {
            j + 1
        };
        assert(rr[i] == rows[i0]);
        assert(rr[j] == rows[j0]);
    }
}


/// Appending a row under another key leaves a lookup unchanged.
proof fn lemma_find_private_push_other(rows: Seq<PrivateRow>, row: PrivateRow, d: Seq<u8>)
    requires
        row.discover@ != d,
    ensures
        find_private(rows.push(row), d) == find_private(rows, d),
    decreases rows.len(),
{
    if rows.len() == 0 {
        assert(rows.push(row).drop_first() =~= rows);
    } else {
        assert(rows.push(row).drop_first() =~= rows.drop_first().push(row));
        lemma_find_private_push_other(rows.drop_first(), row, d);
    }
}

/// Appending a row under a free key makes it the one found.
proof fn lemma_find_private_push_self(rows: Seq<PrivateRow>, row: PrivateRow)
    requires
        find_private(rows, row.discover@) is None,
    ensures
        find_private(rows.push(row), row.discover@) == Some(row),
    decreases rows.len(),
{
    if rows.len() == 0 {
        assert(rows.push(row).drop_first() =~= rows);
    } else {
        assert(rows.push(row).drop_first() =~= rows.drop_first().push(row));
        lemma_find_private_push_self(rows.drop_first(), row);
    }
}

/// Removing a row under another key leaves a lookup unchanged.
proof fn lemma_find_private_remove_other(rows: Seq<PrivateRow>, ix: int, d: Seq<u8>)
    requires
        0 <= ix < rows.len(),
        rows[ix].discover@ != d,
    ensures
        find_private(rows.remove(ix), d) == find_private(rows, d),
    decreases rows.len(),
{
    if ix == 0 {
        assert(rows.remove(0) =~= rows.drop_first());
    } else {
        assert(rows.remove(ix)[0] == rows[0]);
        assert(rows.remove(ix).drop_first() =~= rows.drop_first().remove(ix - 1));
        if rows[0].discover@ != d {
            lemma_find_private_remove_other(rows.drop_first(), ix - 1, d);
        }
    }
}

/// Appending a row under another id leaves a lookup unchanged.
proof fn lemma_find_public_push_other(rows: Seq<PublicRow>, row: PublicRow, id: Seq<u8>)
    requires
        row.id@ != id,
    ensures
        find_public(rows.push(row), id) == find_public(rows, id),
    decreases rows.len(),
{
    if rows.len() == 0 {
        assert(rows.push(row).drop_first() =~= rows);
    } else {
        assert(rows.push(row).drop_first() =~= rows.drop_first().push(row));
        lemma_find_public_push_other(rows.drop_first(), row, id);
    }
}

/// Appending a row under a free id makes it the one found.
proof fn lemma_find_public_push_self(rows: Seq<PublicRow>, row: PublicRow)
    requires
        find_public(rows, row.id@) is None,
    ensures
        find_public(rows.push(row), row.id@) == Some(row),
    decreases rows.len(),
{
    if rows.len() == 0 {
        assert(rows.push(row).drop_first() =~= rows);
    } else {
        assert(rows.push(row).drop_first() =~= rows.drop_first().push(row));
        lemma_find_public_push_self(rows.drop_first(), row);
    }
}

/// Removing a row under another id leaves a lookup unchanged.
proof fn lemma_find_public_remove_other(rows: Seq<PublicRow>, ix: int, id: Seq<u8>)
    requires
        0 <= ix < rows.len(),
        rows[ix].id@ != id,
    ensures
        find_public(rows.remove(ix), id) == find_public(rows, id),
    decreases rows.len(),
{
    if ix == 0 {
        assert(rows.remove(0) =~= rows.drop_first());
    } else {
        assert(rows.remove(ix)[0] == rows[0]);
        assert(rows.remove(ix).drop_first() =~= rows.drop_first().remove(ix - 1));
        if rows[0].id@ != id {
            lemma_find_public_remove_other(rows.drop_first(), ix - 1, id);
        }
    }
}

/// What creating a private row guarantees: replies and state changes, by
/// reply shape, with rows under every other discover key untouched.
pub open spec fn create_private_post(
    pre: Service,
    post: Service,
    signed: SignedPrivateItem,
    now: i64,
    r: Response,
) -> bool {
    &&& post.public@ == pre.public@
    &&& post.dms@ == pre.dms@
    &&& match r {
        Response::InvalidSignature(_) => !spi_ok(signed) && post.private@ == pre.private@,
        Response::InvalidRequest(_) => spi_ok(signed) && signed.item.discover@ != signed.signer@
            && post.private@ == pre.private@,
        Response::PrivateConflict(s, t) => {
            &&& spi_ok(signed)
            &&& signed.item.discover@ == signed.signer@
            &&& find_private(pre.private@, signed.signer@) matches Some(row) && s.signer@
                == row.signed.signer@ && s.signature@ == row.signed.signature@ && s.item.discover@
                == row.signed.item.discover@ && opt_bytes_view(s.item.delete) == opt_bytes_view(
                row.signed.item.delete,
            ) && s.item.payload@ == row.signed.item.payload@ && t == row.timestamp
            &&& spi_ok(s) && s.signer@ == signed.signer@ && s.item.discover@ == signed.signer@
            &&& post.private@ == pre.private@
        },
        Response::Empty => {
            &&& spi_ok(signed)
            &&& signed.item.discover@ == signed.signer@
            &&& find_private(pre.private@, signed.signer@) is None
            &&& find_private(post.private@, signed.signer@) matches Some(row) && row.signed
                == signed && row.timestamp == now && row.discover@ == signed.signer@
            &&& post.private@.len() == pre.private@.len() + 1
            &&& post.private@.take(pre.private@.len() as int) == pre.private@
            &&& forall|d: Seq<u8>|
                d != signed.signer@ ==> #[trigger] find_private(post.private@, d) == find_private(
                    pre.private@,
                    d,
                )
        },
        _ => false,
    }
}

/// What reading a private row guarantees: no state change, and the row
/// under the verified signer comes back exactly.
pub open spec fn read_private_post(
    pre: Service,
    post: Service,
    signed: SignedRead,
    now: i64,
    r: Response,
) -> bool {
    &&& post == pre
    &&& match r {
        Response::InvalidSignature(_) => !sr_ok(signed),
        Response::ReadPrivate(opt) => {
            &&& sr_ok(signed)
            &&& match opt {
                Some((s, t)) => find_private(pre.private@, signed.signer@) matches Some(row)
                    && s.signer@ == row.signed.signer@ && s.signature@ == row.signed.signature@
                    && s.item.discover@ == row.signed.item.discover@ && opt_bytes_view(
                    s.item.delete,
                ) == opt_bytes_view(row.signed.item.delete) && s.item.payload@
                    == row.signed.item.payload@ && t == row.timestamp && spi_ok(s) && s.signer@
                    == signed.signer@,
                None => find_private(pre.private@, signed.signer@) is None,
            }
        },
        _ => false,
    }
}

/// What replacing a private row guarantees: the new row stands under the
/// inner signer only when the old row named the outer signer as its
/// delete key, and every other row is untouched.
pub open spec fn update_private_post(
    pre: Service,
    post: Service,
    signed: SignedUpdate,
    now: i64,
    r: Response,
) -> bool {
    &&& post.public@ == pre.public@
    &&& post.dms@ == pre.dms@
    &&& match r {
        Response::InvalidSignature(_) => (!su_ok(signed) || !spi_ok(signed.inner)) && post.private@
            == pre.private@,
        Response::InvalidRequest(_) => su_ok(signed) && spi_ok(signed.inner)
            && signed.inner.item.discover@ != signed.inner.signer@ && post.private@
            == pre.private@,
        Response::InvalidDelete(k) => {
            &&& su_ok(signed) && spi_ok(signed.inner)
            &&& signed.inner.item.discover@ == signed.inner.signer@
            &&& find_private(pre.private@, signed.inner.signer@) matches Some(row)
                && opt_bytes_view(row.delete) != Some(signed.signer@) && opt_bytes_view(k)
                == opt_bytes_view(row.delete)
            &&& post.private@ == pre.private@
        },
        Response::Empty => {
            &&& su_ok(signed) && spi_ok(signed.inner)
            &&& signed.inner.item.discover@ == signed.inner.signer@
            &&& (find_private(pre.private@, signed.inner.signer@) matches Some(row) ==>
                opt_bytes_view(row.delete) == Some(signed.signer@))
            &&& find_private(post.private@, signed.inner.signer@) matches Some(row2)
                && row2.signed == signed.inner && row2.timestamp == now
            &&& forall|d: Seq<u8>|
                d != signed.inner.signer@ ==> #[trigger] find_private(post.private@, d)
                    == find_private(pre.private@, d)
        },
        _ => false,
    }
}

/// What removing a private row guarantees: the row goes only under its
/// delete key, and every other row is untouched.
pub open spec fn delete_private_post(
    pre: Service,
    post: Service,
    signed: SignedDelete,
    now: i64,
    r: Response,
) -> bool {
    &&& post.public@ == pre.public@
    &&& post.dms@ == pre.dms@
    &&& match r {
        Response::InvalidSignature(_) => !sd_ok(signed) && post.private@ == pre.private@,
        Response::InvalidDelete(k) => {
            &&& sd_ok(signed)
            &&& find_private(pre.private@, signed.discover@) matches Some(row) && opt_bytes_view(
                row.delete,
            ) != Some(signed.signer@) && opt_bytes_view(k) == opt_bytes_view(row.delete)
            &&& post.private@ == pre.private@
        },
        Response::Empty => {
            &&& sd_ok(signed)
            &&& (find_private(pre.private@, signed.discover@) matches Some(row) ==>
                opt_bytes_view(row.delete) == Some(signed.signer@))
            &&& find_private(post.private@, signed.discover@) is None
            &&& forall|d: Seq<u8>|
                d != signed.discover@ ==> #[trigger] find_private(post.private@, d)
                    == find_private(pre.private@, d)
        },
        _ => false,
    }
}

/// What creating a public row guarantees: a fresh row under the returned
/// id, every other row untouched.
pub open spec fn create_public_post(
    pre: Service,
    post: Service,
    signed: SignedPublicItem,
    now: i64,
    r: Response,
) -> bool {
    &&& post.private@ == pre.private@
    &&& post.dms@ == pre.dms@
    &&& match r {
        Response::InvalidSignature(_) => !spub_ok(signed) && post.public@ == pre.public@,
        Response::InvalidRequest(_) => spub_ok(signed) && pre.public@.len() > 0 && post.public@
            == pre.public@,
        Response::CreatedPublic(id) => {
            &&& spub_ok(signed)
            &&& find_public(post.public@, id@) matches Some(row) && row.signed == signed
                && row.signer@ == signed.signer@ && row.protocol@ == signed.item.protocol@
                && row.timestamp == now
            &&& post.public@.len() == pre.public@.len() + 1
            &&& post.public@.take(pre.public@.len() as int) == pre.public@
            &&& forall|id2: Seq<u8>|
                id2 != id@ ==> #[trigger] find_public(post.public@, id2) == find_public(
                    pre.public@,
                    id2,
                )
        },
        _ => false,
    }
}

/// What querying public rows guarantees: no state change, and exactly the
/// filtered rows in storage order.
pub open spec fn read_public_post(
    pre: Service,
    post: Service,
    filter: Filter,
    now: i64,
    r: Response,
) -> bool {
    &&& post == pre
    &&& r matches Response::ReadPublic(items) && {
        let rows = filtered_public(pre.public@, filter_view(filter));
        &&& items@.len() == rows.len()
        &&& forall|i: int|
            0 <= i < rows.len() ==> (#[trigger] items@[i]).0@ == rows[i].id@ && items@[i].1.signer@
                == rows[i].signed.signer@ && items@[i].1.signature@ == rows[i].signed.signature@
                && items@[i].1.item.protocol@ == rows[i].signed.item.protocol@
                && items@[i].1.item.header@ == rows[i].signed.item.header@
                && items@[i].1.item.payload@ == rows[i].signed.item.payload@ && items@[i].2
                == rows[i].timestamp
    }
}

/// What replacing a public row guarantees: the new row stands only for
/// its verified author, and every other row is untouched.
pub open spec fn update_public_post(
    pre: Service,
    post: Service,
    signed: SignedPublicUpdate,
    now: i64,
    r: Response,
) -> bool {
    &&& post.private@ == pre.private@
    &&& post.dms@ == pre.dms@
    &&& match r {
        Response::InvalidSignature(_) => (!supd_ok(signed) || !spub_ok(signed.inner)
            || signed.signer@ != signed.inner.signer@ || (find_public(
            pre.public@,
            signed.id@,
        ) matches Some(row) && row.signer@ != signed.signer@)) && post.public@ == pre.public@,
        Response::Empty => {
            &&& supd_ok(signed) && spub_ok(signed.inner) && signed.signer@ == signed.inner.signer@
            &&& (find_public(pre.public@, signed.id@) matches Some(row) ==> row.signer@
                == signed.signer@)
            &&& find_public(post.public@, signed.id@) matches Some(row2) && row2.signed
                == signed.inner && row2.signer@ == signed.signer@ && row2.timestamp == now
            &&& forall|id2: Seq<u8>|
                id2 != signed.id@ ==> #[trigger] find_public(post.public@, id2) == find_public(
                    pre.public@,
                    id2,
                )
        },
        _ => false,
    }
}

/// What removing a public row guarantees: the row goes only for its
/// author, anything else is a kept-row no-op, and every other row is
/// untouched.
pub open spec fn delete_public_post(
    pre: Service,
    post: Service,
    signed: SignedId,
    now: i64,
    r: Response,
) -> bool {
    &&& post.private@ == pre.private@
    &&& post.dms@ == pre.dms@
    &&& match r {
        Response::InvalidSignature(_) => !sid_ok(signed) && post.public@ == pre.public@,
        Response::Empty => {
            &&& sid_ok(signed)
            &&& (match find_public(pre.public@, signed.id@) {
                Some(row) => if row.signer@ == signed.signer@ {
                    find_public(post.public@, signed.id@) is None
                } else {
                    post.public@ == pre.public@
                },
                None => post.public@ == pre.public@,
            })
            &&& forall|id2: Seq<u8>|
                id2 != signed.id@ ==> #[trigger] find_public(post.public@, id2) == find_public(
                    pre.public@,
                    id2,
                )
        },
        _ => false,
    }
}

/// What storing a direct message guarantees: one appended row, nothing
/// else touched.
pub open spec fn create_dm_post(
    pre: Service,
    post: Service,
    recipient: OrangeName,
    payload: Seq<u8>,
    now: i64,
    r: Response,
) -> bool {
    &&& post.private@ == pre.private@
    &&& post.public@ == pre.public@
    &&& r is Empty
    &&& post.dms@.len() == pre.dms@.len() + 1
    &&& post.dms@.last().recipient@ == recipient@
    &&& post.dms@.last().payload@ == payload
    &&& post.dms@.last().timestamp == now
    &&& post.dms@.take(pre.dms@.len() as int) == pre.dms@
}

/// What reading direct messages guarantees: no state change, rejection
/// exactly outside the freshness window, and otherwise exactly the
/// recipient's messages since the bound.
pub open spec fn read_dm_post(
    pre: Service,
    post: Service,
    signed: SignedTimes,
    now: i64,
    r: Response,
) -> bool {
    &&& post == pre
    &&& match r {
        Response::InvalidSignature(_) => !stimes_ok(signed) || signed.time < now - 10000
            || signed.time > now || signed.since > signed.time,
        Response::ReadDM(items) => {
            &&& stimes_ok(signed)
            &&& now - 10000 <= signed.time <= now
            &&& signed.since <= signed.time
            &&& {
                let rows = dms_for(pre.dms@, signed.signer@, signed.since);
                items@.len() == rows.len() && forall|i: int|
                    0 <= i < rows.len() ==> (#[trigger] items@[i])@ == rows[i].payload@
            }
        },
        _ => false,
    }
}

/// The public rows that pass a filter, in storage order.
pub open spec fn filtered_public(rows: Seq<PublicRow>, f: crate::storage::FilterV) -> Seq<
    PublicRow,
>
    decreases rows.len(),
{
    if rows.len() == 0 {
        Seq::empty()
    } else {
        let rest = filtered_public(rows.drop_first(), f);
        if filter_matches(f, rows[0].id@, rows[0].signer@, rows[0].protocol@, rows[0].timestamp) {
            seq![rows[0]] + rest
        } else {
            rest
        }
    }
}

impl Service {
    /// A fresh, empty store.
    pub fn new() -> (r: Service)
        ensures
            service_wf(r),
            r.private@.len() == 0,
            r.public@.len() == 0,
            r.dms@.len() == 0,
    {
        Service { private: Vec::new(), public: Vec::new(), dms: Vec::new() }
    }

    /// Create a private row: the signature must verify, its signer must be
    /// the discover key inside the item, and the key must be free;
    /// otherwise the existing row comes back as a conflict.
    pub fn create_private(&mut self, signed: SignedPrivateItem, now: i64) -> (r: Response)
        requires
            service_wf(*old(self)),
        ensures
            service_wf(*final(self)),
            create_private_post(*old(self), *final(self), signed, now, r),
    {
        let discover = match signed.verify() {
            Some(k) => k,
            None => {
                return Response::InvalidSignature(String::from_str("InvalidSignature"));
            },
        };
        let eq = discover == signed.item.discover;
        proof {
            if eq {
                assert(discover@ =~= signed.item.discover@);
            }
        }
        if !eq {
            return Response::InvalidRequest(
                String::from_str("Discover key mismatch between Signature and Payload"),
            );
        }
        proof {
            assert(self.private@.skip(0) =~= self.private@);
        }
        match lookup_private_from(&self.private, 0, &discover) {
            Some(ix) => {
                let row = &self.private[ix];
                Response::PrivateConflict(row.signed.clone(), row.timestamp)
            },
            None => {
                let delete = match &signed.item.delete {
                    Some(d) => Some(d.clone()),
                    None => None,
                };
                let row = PrivateRow { discover, delete, signed, timestamp: now };
                let ghost rows0 = self.private@;
                let ghost row_v = row;
                self.private.push(row);
                proof {
                    assert(final(self).private@.take(rows0.len() as int) =~= rows0);
                    assert forall|i: int, j: int|
                        0 <= i < j < self.private@.len() implies (
                    #[trigger] self.private@[i]).discover@ != (
                    #[trigger] self.private@[j]).discover@ by {
                        if j == self.private@.len() - 1 {
                            lemma_find_private_none(rows0, self.private@[j].discover@, i);
                        }
                    }
                    lemma_find_private_push_self(rows0, row_v);
                    assert forall|d: Seq<u8>| d != row_v.discover@ implies #[trigger] find_private(
                        self.private@,
                        d,
                    ) == find_private(rows0, d) by {
                        lemma_find_private_push_other(rows0, row_v, d);
                    }
                }
                Response::Empty
            },
        }
    }

    /// Read a private row: the signature over the discover key must
    /// verify; the row comes back if it exists.
    pub fn read_private(&mut self, signed: SignedRead, now: i64) -> (r: Response)
        requires
            service_wf(*old(self)),
        ensures
            service_wf(*final(self)),
            read_private_post(*old(self), *final(self), signed, now, r),
    {
        let discover = match signed.verify() {
            Some(k) => k,
            None => {
                return Response::InvalidSignature(String::from_str("InvalidSignature"));
            },
        };
        proof {
            assert(self.private@.skip(0) =~= self.private@);
        }
        match lookup_private_from(&self.private, 0, &discover) {
            Some(ix) => {
                let row = &self.private[ix];
                Response::ReadPrivate(Some((row.signed.clone(), row.timestamp)))
            },
            None => Response::ReadPrivate(None),
        }
    }

    /// Replace a private row: both signatures must verify, and when a row
    /// already exists its stored delete key must be the outer signer;
    /// otherwise the stored delete key is named in the refusal.
    pub fn update_private(&mut self, signed: SignedUpdate, now: i64) -> (r: Response)
        requires
            service_wf(*old(self)),
        ensures
            service_wf(*final(self)),
            update_private_post(*old(self), *final(self), signed, now, r),
    {
        let delete_key = match signed.verify() {
            Some(k) => k,
            None => {
                return Response::InvalidSignature(String::from_str("InvalidSignature"));
            },
        };
        let discover = match signed.inner.verify() {
            Some(k) => k,
            None => {
                return Response::InvalidSignature(String::from_str("InvalidSignature"));
            },
        };
        let eq_discover = discover == signed.inner.item.discover;
        proof {
            if eq_discover {
                assert(discover@ =~= signed.inner.item.discover@);
            }
        }
        if !eq_discover {
            return Response::InvalidRequest(
                String::from_str("Discover key mismatch between Signature and Payload"),
            );
        }
        proof {
            assert(self.private@.skip(0) =~= self.private@);
        }
        match lookup_private_from(&self.private, 0, &discover) {
            Some(ix) => {
                let matches_delete: bool = match &self.private[ix].delete {
                    Some(d) => {
                        let eq = *d == delete_key;
                        proof {
                            if eq {
                                assert(d@ =~= delete_key@);
                            }
                        }
                        eq
                    },
                    None => false,
                };
                if !matches_delete {
                    let old_delete = match &self.private[ix].delete {
                        Some(d) => Some(d.clone()),
                        None => None,
                    };
                    return Response::InvalidDelete(old_delete);
                }
                let ghost rows0 = self.private@;
                self.private.remove(ix);
                proof {
                    lemma_private_remove_wf(rows0, ix as int);
                    lemma_find_private_remove(rows0, ix as int, signed.inner.signer@);
                    assert forall|d: Seq<u8>| d != signed.inner.signer@ implies #[trigger] find_private(
                        self.private@,
                        d,
                    ) == find_private(rows0, d) by {
                        lemma_find_private_remove_other(rows0, ix as int, d);
                    }
                }
                self.insert_private(signed.inner, now);
                Response::Empty
            },
            None => {
                self.insert_private(signed.inner, now);
                Response::Empty
            },
        }
    }

    /// Remove a private row: the delete signature must verify and match
    /// the stored delete key; a missing row is no error.
    pub fn delete_private(&mut self, signed: SignedDelete, now: i64) -> (r: Response)
        requires
            service_wf(*old(self)),
        ensures
            service_wf(*final(self)),
            delete_private_post(*old(self), *final(self), signed, now, r),
    {
        let delete_key = match signed.verify() {
            Some(k) => k,
            None => {
                return Response::InvalidSignature(String::from_str("InvalidSignature"));
            },
        };
        proof {
            assert(self.private@.skip(0) =~= self.private@);
        }
        match lookup_private_from(&self.private, 0, &signed.discover) {
            Some(ix) => {
                let matches_delete: bool = match &self.private[ix].delete {
                    Some(d) => {
                        let eq = *d == delete_key;
                        proof {
                            if eq {
                                assert(d@ =~= delete_key@);
                            }
                        }
                        eq
                    },
                    None => false,
                };
                if !matches_delete {
                    let old_delete = match &self.private[ix].delete {
                        Some(d) => Some(d.clone()),
                        None => None,
                    };
                    return Response::InvalidDelete(old_delete);
                }
                let ghost rows0 = self.private@;
                self.private.remove(ix);
                proof {
                    lemma_private_remove_wf(rows0, ix as int);
                    lemma_find_private_remove(rows0, ix as int, signed.discover@);
                    assert forall|d: Seq<u8>| d != signed.discover@ implies #[trigger] find_private(
                        self.private@,
                        d,
                    ) == find_private(rows0, d) by {
                        lemma_find_private_remove_other(rows0, ix as int, d);
                    }
                }
                Response::Empty
            },
            None => Response::Empty,
        }
    }

    /// Append a verified row, private to the update path.
    fn insert_private(&mut self, signed: SignedPrivateItem, now: i64)
        requires
            service_wf(*old(self)),
            spi_ok(signed),
            signed.signer@ == signed.item.discover@,
            find_private(old(self).private@, signed.signer@) is None,
        ensures
            service_wf(*final(self)),
            final(self).public@ == old(self).public@,
            final(self).dms@ == old(self).dms@,
            final(self).private@.len() == old(self).private@.len() + 1,
            final(self).private@.take(old(self).private@.len() as int) == old(self).private@,
            find_private(final(self).private@, signed.signer@) matches Some(row) && row.signed
                == signed && row.timestamp == now && row.discover@ == signed.signer@,
            forall|d: Seq<u8>|
                d != signed.signer@ ==> #[trigger] find_private(final(self).private@, d)
                    == find_private(old(self).private@, d),
    {
        let discover = signed.signer.clone();
        let delete = match &signed.item.delete {
            Some(d) => Some(d.clone()),
            None => None,
        };
        let row = PrivateRow { discover, delete, signed, timestamp: now };
        let ghost rows0 = self.private@;
        let ghost row_v = row;
        self.private.push(row);
        proof {
            assert(final(self).private@.take(rows0.len() as int) =~= rows0);
            assert forall|i: int, j: int| 0 <= i < j < self.private@.len() implies (
            #[trigger] self.private@[i]).discover@ != (#[trigger] self.private@[j]).discover@ by {
                if j == self.private@.len() - 1 {
                    lemma_find_private_none(rows0, self.private@[j].discover@, i);
                }
            }
            lemma_find_private_push_self(rows0, row_v);
            assert forall|d: Seq<u8>| d != row_v.discover@ implies #[trigger] find_private(
                self.private@,
                d,
            ) == find_private(rows0, d) by {
                lemma_find_private_push_other(rows0, row_v, d);
            }
        }
    }
}

impl Service {
    /// Create a public row under a fresh random id: the author's
    /// signature must verify.
    pub fn create_public(
        &mut self,
        resolver: &mut OrangeResolver,
        signed: SignedPublicItem,
        now: i64,
    ) -> (r: Response)
        requires
            service_wf(*old(self)),
        ensures
            service_wf(*final(self)),
            create_public_post(*old(self), *final(self), signed, now, r),
    {
        let signer = match signed.verify(resolver, None) {
            Ok(n) => n,
            Err(_) => {
                return Response::InvalidSignature(String::from_str("InvalidSignature"));
            },
        };
        let id = Id::random();
        let ghost rows0 = self.public@;
        let row = PublicRow {
            id: id.clone(),
            signer,
            protocol: signed.item.protocol.clone(),
            timestamp: now,
            signed,
        };
        if self.public_id_taken(&id) {
            // A random 32-byte collision: refuse rather than corrupt the
            // unique index.
            return Response::InvalidRequest(String::from_str("IdCollision"));
        }
        let ghost row_v = row;
        proof {
            lemma_find_public_all_distinct(rows0, row_v.id@);
        }
        self.public.push(row);
        proof {
            assert(final(self).public@.take(rows0.len() as int) =~= rows0);
            assert forall|i: int, j: int| 0 <= i < j < self.public@.len() implies (
            #[trigger] self.public@[i]).id@ != (#[trigger] self.public@[j]).id@ by {}
            lemma_find_public_push_self(rows0, row_v);
            assert forall|id2: Seq<u8>| id2 != row_v.id@ implies #[trigger] find_public(
                self.public@,
                id2,
            ) == find_public(rows0, id2) by {
                lemma_find_public_push_other(rows0, row_v, id2);
            }
        }
        Response::CreatedPublic(id)
    }

    /// Whether some public row already uses an id.
    fn public_id_taken(&self, id: &Id) -> (r: bool)
        ensures
            r == !(forall|i: int| 0 <= i < self.public@.len() ==> (#[trigger] self.public@[i]).id@
                != id@),
    {
        proof {
            assert(self.public@.skip(0) =~= self.public@);
        }
        match lookup_public_from(&self.public, 0, id) {
            Some(_) => true,
            None => {
                proof {
                    assert forall|i: int| 0 <= i < self.public@.len() implies (
                    #[trigger] self.public@[i]).id@ != id@ by {
                        lemma_find_public_none(self.public@, id@, i);
                    }
                }
                false
            },
        }
    }

    /// Return every public row that passes the filter, in storage order.
    pub fn read_public(&mut self, filter: Filter, now: i64) -> (r: Response)
        requires
            service_wf(*old(self)),
        ensures
            service_wf(*final(self)),
            read_public_post(*old(self), *final(self), filter, now, r),
    {
        let items = read_public_from(&self.public, 0, &filter);
        proof {
            assert(self.public@.skip(0) =~= self.public@);
        }
        Response::ReadPublic(items)
    }

    /// Replace or insert a public row: both signatures must verify and
    /// agree, and an existing row may only be replaced by its author.
    pub fn update_public(
        &mut self,
        resolver: &mut OrangeResolver,
        signed: SignedPublicUpdate,
        now: i64,
    ) -> (r: Response)
        requires
            service_wf(*old(self)),
        ensures
            service_wf(*final(self)),
            update_public_post(*old(self), *final(self), signed, now, r),
    {
        let author = match signed.verify(resolver, None) {
            Ok(n) => n,
            Err(_) => {
                return Response::InvalidSignature(String::from_str("InvalidSignature"));
            },
        };
        let author2 = match signed.inner.verify(resolver, None) {
            Ok(n) => n,
            Err(_) => {
                return Response::InvalidSignature(String::from_str("InvalidSignature"));
            },
        };
        if !author.equals(&author2) {
            return Response::InvalidSignature(String::from_str("Signers do not match"));
        }
        proof {
            assert(self.public@.skip(0) =~= self.public@);
        }
        match lookup_public_from(&self.public, 0, &signed.id) {
            Some(ix) => {
                if !self.public[ix].signer.equals(&author2) {
                    return Response::InvalidSignature(
                        String::from_str("Signer dose not match current author"),
                    );
                }
                let ghost rows0 = self.public@;
                self.public.remove(ix);
                proof {
                    lemma_public_remove_wf(rows0, ix as int);
                    lemma_find_public_remove(rows0, ix as int, signed.id@);
                    assert forall|id2: Seq<u8>| id2 != signed.id@ implies #[trigger] find_public(
                        self.public@,
                        id2,
                    ) == find_public(rows0, id2) by {
                        lemma_find_public_remove_other(rows0, ix as int, id2);
                    }
                }
                self.insert_public(signed.id, signed.signer, signed.inner, now);
                Response::Empty
            },
            None => {
                self.insert_public(signed.id, signed.signer, signed.inner, now);
                Response::Empty
            },
        }
    }

    /// Remove a public row: the row goes only when the verified signer is
    /// its author; a missing row or another author's row is a no-op.
    pub fn delete_public(
        &mut self,
        resolver: &mut OrangeResolver,
        signed: SignedId,
        now: i64,
    ) -> (r: Response)
        requires
            service_wf(*old(self)),
        ensures
            service_wf(*final(self)),
            delete_public_post(*old(self), *final(self), signed, now, r),
    {
        let author = match signed.verify(resolver, None) {
            Ok(n) => n,
            Err(_) => {
                return Response::InvalidSignature(String::from_str("InvalidSignature"));
            },
        };
        proof {
            assert(self.public@.skip(0) =~= self.public@);
        }
        match lookup_public_from(&self.public, 0, &signed.id) {
            Some(ix) => {
                if !self.public[ix].signer.equals(&author) {
                    return Response::Empty;
                }
                let ghost rows0 = self.public@;
                self.public.remove(ix);
                proof {
                    lemma_public_remove_wf(rows0, ix as int);
                    lemma_find_public_remove(rows0, ix as int, signed.id@);
                    assert forall|id2: Seq<u8>| id2 != signed.id@ implies #[trigger] find_public(
                        self.public@,
                        id2,
                    ) == find_public(rows0, id2) by {
                        lemma_find_public_remove_other(rows0, ix as int, id2);
                    }
                }
                Response::Empty
            },
            None => Response::Empty,
        }
    }

    /// Append a verified public row, private to the update path.
    fn insert_public(&mut self, id: Id, signer: OrangeName, signed: SignedPublicItem, now: i64)
        requires
            service_wf(*old(self)),
            spub_ok(signed),
            signer@ == signed.signer@,
            find_public(old(self).public@, id@) is None,
        ensures
            service_wf(*final(self)),
            final(self).private@ == old(self).private@,
            final(self).dms@ == old(self).dms@,
            final(self).public@.len() == old(self).public@.len() + 1,
            final(self).public@.take(old(self).public@.len() as int) == old(self).public@,
            find_public(final(self).public@, id@) matches Some(row) && row.signed == signed
                && row.signer@ == signer@ && row.timestamp == now,
            forall|id2: Seq<u8>|
                id2 != id@ ==> #[trigger] find_public(final(self).public@, id2) == find_public(
                    old(self).public@,
                    id2,
                ),
    {
        let protocol = signed.item.protocol.clone();
        let row = PublicRow { id, signer, protocol, timestamp: now, signed };
        let ghost rows0 = self.public@;
        let ghost row_v = row;
        self.public.push(row);
        proof {
            assert(final(self).public@.take(rows0.len() as int) =~= rows0);
            assert forall|i: int, j: int| 0 <= i < j < self.public@.len() implies (
            #[trigger] self.public@[i]).id@ != (#[trigger] self.public@[j]).id@ by {
                if j == self.public@.len() - 1 {
                    lemma_find_public_none(rows0, self.public@[j].id@, i);
                }
            }
            lemma_find_public_push_self(rows0, row_v);
            assert forall|id2: Seq<u8>| id2 != row_v.id@ implies #[trigger] find_public(
                self.public@,
                id2,
            ) == find_public(rows0, id2) by {
                lemma_find_public_push_other(rows0, row_v, id2);
            }
        }
    }

    /// Store a direct message for its recipient.
    pub fn create_dm(&mut self, recipient: OrangeName, payload: Vec<u8>, now: i64) -> (r: Response)
        requires
            service_wf(*old(self)),
        ensures
            service_wf(*final(self)),
            create_dm_post(*old(self), *final(self), recipient, payload@, now, r),
    {
        let ghost rows0 = self.dms@;
        self.dms.push(DmRow { recipient, payload, timestamp: now });
        proof {
            assert(final(self).dms@.take(rows0.len() as int) =~= rows0);
        }
        Response::Empty
    }

    /// Stream a recipient's messages since a timestamp.  The signed window
    /// must verify and be fresh: the claimed time lies within the last
    /// 10000 seconds, not in the future, and not before `since`;
    /// otherwise the request is rejected as expired.
    pub fn read_dm(&mut self, resolver: &mut OrangeResolver, signed: SignedTimes, now: i64) -> (r:
        Response)
        requires
            service_wf(*old(self)),
            0 <= now,
        ensures
            service_wf(*final(self)),
            read_dm_post(*old(self), *final(self), signed, now, r),
    {
        match signed.verify(resolver, None) {
            Ok(_) => {},
            Err(_) => {
                return Response::InvalidSignature(String::from_str("InvalidSignature"));
            },
        }
        if !(signed.time <= now && signed.time >= now - 10000 && signed.since <= signed.time) {
            return Response::InvalidSignature(String::from_str("Expired"));
        }
        proof {
            assert(self.dms@.skip(0) =~= self.dms@);
        }
        let items = dms_payloads_from(&self.dms, 0, &signed.signer, signed.since);
        Response::ReadDM(items)
    }

    /// Handle one request at the given current time.
    pub fn process(&mut self, resolver: &mut OrangeResolver, request: Request, now: i64) -> (r:
        Response)
        requires
            service_wf(*old(self)),
            0 <= now,
        ensures
            service_wf(*final(self)),
            // Each request is answered exactly as its operation's
            // postcondition says.
            match request {
                Request::CreatePrivate(q) => create_private_post(
                    *old(self),
                    *final(self),
                    q,
                    now,
                    r,
                ),
                Request::ReadPrivate(q) => read_private_post(*old(self), *final(self), q, now, r),
                Request::UpdatePrivate(q) => update_private_post(
                    *old(self),
                    *final(self),
                    q,
                    now,
                    r,
                ),
                Request::DeletePrivate(q) => delete_private_post(
                    *old(self),
                    *final(self),
                    q,
                    now,
                    r,
                ),
                Request::CreatePublic(q) => create_public_post(*old(self), *final(self), q, now, r),
                Request::ReadPublic(f) => read_public_post(*old(self), *final(self), f, now, r),
                Request::UpdatePublic(q) => update_public_post(*old(self), *final(self), q, now, r),
                Request::DeletePublic(q) => delete_public_post(*old(self), *final(self), q, now, r),
                Request::CreateDM(n, p) => create_dm_post(*old(self), *final(self), n, p@, now, r),
                Request::ReadDM(q) => read_dm_post(*old(self), *final(self), q, now, r),
            },
            // Conflict replies carry only verified rows filed under the
            // requested discover key.
            r matches Response::PrivateConflict(s, t) ==> spi_ok(s) && (
            request matches Request::CreatePrivate(q) ==> s.signer@ == q.signer@
                && s.item.discover@ == q.signer@),
            // A read-DM window outside the freshness bounds is rejected.
            request matches Request::ReadDM(q) ==> ((q.time < now - 10000 || q.time > now
                || q.since > q.time) ==> r is InvalidSignature),
            // A successful update stored the new row, and the row it
            // replaced named the update's outer signer as its delete key.
            request matches Request::UpdatePrivate(q) ==> (r is Empty ==> (find_private(
                old(self).private@,
                q.inner.signer@,
            ) matches Some(row) ==> opt_bytes_view(row.delete) == Some(q.signer@))),
    {
        match request {
            Request::CreatePrivate(signed) => self.create_private(signed, now),
            Request::ReadPrivate(signed) => self.read_private(signed, now),
            Request::UpdatePrivate(signed) => self.update_private(signed, now),
            Request::DeletePrivate(signed) => self.delete_private(signed, now),
            Request::CreatePublic(signed) => self.create_public(resolver, signed, now),
            Request::ReadPublic(filter) => self.read_public(filter, now),
            Request::UpdatePublic(signed) => self.update_public(resolver, signed, now),
            Request::DeletePublic(signed) => self.delete_public(resolver, signed, now),
            Request::CreateDM(recipient, payload) => self.create_dm(recipient, payload, now),
            Request::ReadDM(signed) => self.read_dm(resolver, signed, now),
        }
    }
}

/// The stored messages for a recipient since a timestamp, in storage
/// order.
pub open spec fn dms_for(rows: Seq<DmRow>, recipient: Seq<u8>, since: i64) -> Seq<DmRow>
    decreases rows.len(),
{
    if rows.len() == 0 {
        Seq::empty()
    } else {
        let rest = dms_for(rows.drop_first(), recipient, since);
        if rows[0].recipient@ == recipient && rows[0].timestamp >= since {
            seq![rows[0]] + rest
        } else {
            rest
        }
    }
}

/// Collect the payloads [`dms_for`] selects, from index `i` on.
fn dms_payloads_from(rows: &Vec<DmRow>, i: usize, recipient: &OrangeName, since: i64) -> (r: Vec<
    Vec<u8>,
>)
    requires
        i <= rows@.len(),
    ensures
        ({
            let sel = dms_for(rows@.skip(i as int), recipient@, since);
            r@.len() == sel.len() && forall|j: int|
                0 <= j < sel.len() ==> (#[trigger] r@[j])@ == sel[j].payload@
        }),
    decreases rows@.len() - i,
{
    if i == rows.len() {
        Vec::new()
    } else {
        proof {
            assert(rows@.skip(i as int).drop_first() =~= rows@.skip(i + 1));
        }
        let row = &rows[i];
        let keep = row.recipient.equals(recipient) && row.timestamp >= since;
        let mut rest = dms_payloads_from(rows, i + 1, recipient, since);
        if keep {
            let ghost r0 = rest@;
            rest.insert(0, row.payload.clone());
            proof {
                crate::codec::lemma_insert_front(r0, rest@[0], rest@);
            }
        }
        rest
    }
}

/// Collect `(id, signed, timestamp)` for the rows [`filtered_public`]
/// selects, from index `i` on.
fn read_public_from(rows: &Vec<PublicRow>, i: usize, filter: &Filter) -> (r: Vec<
    (Id, SignedPublicItem, i64),
>)
    requires
        i <= rows@.len(),
    ensures
        ({
            let sel = filtered_public(rows@.skip(i as int), filter_view(*filter));
            r@.len() == sel.len() && forall|j: int|
                0 <= j < sel.len() ==> (#[trigger] r@[j]).0@ == sel[j].id@ && r@[j].1.signer@
                    == sel[j].signed.signer@ && r@[j].1.signature@ == sel[j].signed.signature@
                    && r@[j].1.item.protocol@ == sel[j].signed.item.protocol@
                    && r@[j].1.item.header@ == sel[j].signed.item.header@ && r@[j].1.item.payload@
                    == sel[j].signed.item.payload@ && r@[j].2 == sel[j].timestamp
        }),
    decreases rows@.len() - i,
{
    if i == rows.len() {
        Vec::new()
    } else {
        proof {
            assert(rows@.skip(i as int).drop_first() =~= rows@.skip(i + 1));
        }
        let row = &rows[i];
        let item = PublicItem {
            protocol: row.protocol.clone(),
            header: row.signed.item.header.clone(),
            payload: row.signed.item.payload.clone(),
        };
        let keep = filter.filter(
            (row.id.clone(), row.signer.clone(), item, row.timestamp),
        ).is_some();
        let mut rest = read_public_from(rows, i + 1, filter);
        if keep {
            let entry = (row.id.clone(), row.signed.clone(), row.timestamp);
            let ghost e = entry;
            let ghost r0 = rest@;
            rest.insert(0, entry);
            proof {
                crate::codec::lemma_insert_front(r0, e, rest@);
            }
        }
        rest
    }
}

/// When no public row is filed under an id, no index holds it.
proof fn lemma_find_public_none(rows: Seq<PublicRow>, id: Seq<u8>, i: int)
    requires
        find_public(rows, id) is None,
        0 <= i < rows.len(),
    ensures
        rows[i].id@ != id,
    decreases rows.len(),
{
    if i > 0 {
        lemma_find_public_none(rows.drop_first(), id, i - 1);
    }
}

/// Removing the row under an id leaves no row under it, given distinct
/// ids.
proof fn lemma_find_public_remove(rows: Seq<PublicRow>, ix: int, id: Seq<u8>)
    requires
        0 <= ix < rows.len(),
        rows[ix].id@ == id,
        forall|i: int, j: int|
            0 <= i < j < rows.len() ==> (#[trigger] rows[i]).id@ != (#[trigger] rows[j]).id@,
    ensures
        find_public(rows.remove(ix), id) is None,
{
    let rr = rows.remove(ix);
    assert forall|i: int| 0 <= i < rr.len() implies (#[trigger] rr[i]).id@ != id by {
        if i < ix {
            assert(rr[i] == rows[i]);
        } else {
            assert(rr[i] == rows[i + 1]);
        }
    }
    lemma_find_public_all_distinct(rr, id);
}

/// When no index holds an id, the search finds nothing.
proof fn lemma_find_public_all_distinct(rows: Seq<PublicRow>, id: Seq<u8>)
    requires
        forall|i: int| 0 <= i < rows.len() ==> (#[trigger] rows[i]).id@ != id,
    ensures
        find_public(rows, id) is None,
    decreases rows.len(),
{
    if rows.len() > 0 {
        lemma_find_public_all_distinct(rows.drop_first(), id);
    }
}

/// When no row is filed under a key, no index holds that key.
proof fn lemma_find_private_none(rows: Seq<PrivateRow>, d: Seq<u8>, i: int)
    requires
        find_private(rows, d) is None,
        0 <= i < rows.len(),
    ensures
        rows[i].discover@ != d,
    decreases rows.len(),
{
    if i > 0 {
        lemma_find_private_none(rows.drop_first(), d, i - 1);
    }
}

/// Removing the row under a key leaves no row under that key, given the
/// keys are distinct.
proof fn lemma_find_private_remove(rows: Seq<PrivateRow>, ix: int, d: Seq<u8>)
    requires
        0 <= ix < rows.len(),
        rows[ix].discover@ == d,
        forall|i: int, j: int|
            0 <= i < j < rows.len() ==> (#[trigger] rows[i]).discover@ != (
            #[trigger] rows[j]).discover@,
    ensures
        find_private(rows.remove(ix), d) is None,
{
    let rr = rows.remove(ix);
    assert forall|i: int| 0 <= i < rr.len() implies (#[trigger] rr[i]).discover@ != d by {
        if i < ix {
            assert(rr[i] == rows[i]);
        } else {
            assert(rr[i] == rows[i + 1]);
        }
    }
    lemma_find_private_all_distinct(rr, d);
}

/// When no index holds a key, the search finds nothing.
proof fn lemma_find_private_all_distinct(rows: Seq<PrivateRow>, d: Seq<u8>)
    requires
        forall|i: int| 0 <= i < rows.len() ==> (#[trigger] rows[i]).discover@ != d,
    ensures
        find_private(rows, d) is None,
    decreases rows.len(),
{
    if rows.len() > 0 {
        assert(rows[0].discover@ != d);
        lemma_find_private_all_distinct(rows.drop_first(), d);
    }
}

} // verus!
