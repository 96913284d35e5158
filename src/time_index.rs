//! Time-ordered indexes of identities, read newest first in windows.
use vstd::prelude::*;
use crate::bytes::{bytes_eq, copy_bytes, ADDRESS_LEN};
use crate::error::RecordError;
use crate::identity::{calculate_identity_address, ensure_identity, identity_address, with_identity};
use crate::indexes::{byte_seqs, keys_result};
use crate::store::{time_order, with_time, Store, StoreView};

verus! {

/// The store after `append_to_time_index`.
pub open spec fn after_append(s: StoreView, index: Seq<u8>, ty: Seq<u8>, key: Seq<u8>, at: i64) -> StoreView {
    if key.len() != ADDRESS_LEN {
        s
    } else {
        let s1 = with_identity(s, ty, key);
        StoreView { times: with_time(s1.times, index, identity_address(ty, key), at), ..s1 }
    }
}

/// Position of the first `c` in `l` at or after `i`, or `l.len()`.
pub open spec fn first_pos_from(l: Seq<Seq<u8>>, c: Seq<u8>, i: int) -> int
    decreases l.len() - i,
{
    if i < 0 || i >= l.len() {
        l.len() as int
    } else if l[i] == c {
        i
    } else {
        first_pos_from(l, c, i + 1)
    }
}

/// Up to `limit` items of `l` from position `start`.
pub open spec fn window(l: Seq<Seq<u8>>, start: int, limit: nat) -> Seq<Seq<u8>> {
    if start + limit < l.len() {
        l.subrange(start, start + limit)
    } else {
        l.subrange(start, l.len() as int)
    }
}

/// What `query_time_index` returns: up to `limit` addresses of time index
/// `index`, newest first, starting just after `cursor` where one is given.
pub open spec fn query_time_spec(s: StoreView, index: Seq<u8>, cursor: Option<Seq<u8>>, limit: nat) -> Result<Seq<Seq<u8>>, RecordError> {
    let l = time_order(s.times, index);
    match cursor {
        None => Ok(window(l, 0, limit)),
        Some(c) => {
            let p = first_pos_from(l, c, 0);
            if p >= l.len() {
                Err(RecordError::BadTimeIndexError)
            } else {
                Ok(window(l, p + 1, limit))
            }
        },
    }
}

/// Records `key` (of type `ty`) in time index `index` at time `at`, making
/// sure its placeholder exists first. Recording the same thing twice is the
/// same as recording it once.
pub fn append_to_time_index(store: &mut Store, index: &[u8], ty: &[u8], key: &[u8], at: i64) -> (r: Result<(), RecordError>)
    requires
        old(store).wf(),
    ensures
        final(store).wf(),
        r is Ok <==> key@.len() == ADDRESS_LEN,
        r is Err ==> r == Err::<(), RecordError>(RecordError::DecodeError),
        final(store)@ == after_append(old(store)@, index@, ty@, key@, at),
{
    let _id = calculate_identity_address(ty, key)?;
    let address = ensure_identity(store, ty, key);
    store.append_time(index, address.as_slice(), at);
    Ok(())
}

/// Up to `limit` addresses of time index `index`, newest first; with a
/// `cursor`, those just older than its first occurrence. A cursor that is not
/// in the index fails with `BadTimeIndexError`.
pub fn query_time_index(store: &Store, index: &[u8], cursor: Option<&[u8]>, limit: usize) -> (r: Result<Vec<Vec<u8>>, RecordError>)
    requires
        store.wf(),
    ensures
        keys_result(r) == query_time_spec(store@, index@, match cursor {
            Some(c) => Some(c@),
            None => None,
        }, limit as nat),
{
    let all = store.time_order(index);
    let ghost l = byte_seqs(all@);
    let start: usize = match cursor {
        None => 0,
        Some(c) => {
            let mut i: usize = 0;
            while i < all.len() && !bytes_eq(all[i].as_slice(), c)
                invariant
                    0 <= i <= all@.len(),
                    l == byte_seqs(all@),
                    first_pos_from(l, c@, i as int) == first_pos_from(l, c@, 0),
                decreases all@.len() - i,
            {
                i = i + 1;
            }
            if i >= all.len() {
                return Err(RecordError::BadTimeIndexError);
            }
            i + 1
        },
    };
    let end: usize = if limit < all.len() - start { start + limit } else { all.len() };
    let mut out: Vec<Vec<u8>> = Vec::new();
    let mut j: usize = start;
    while j < end
        invariant
            start <= j <= end <= all@.len(),
            l == byte_seqs(all@),
            byte_seqs(out@) == l.subrange(start as int, j as int),
        decreases end - j,
    {
        let ghost before = out@;
        out.push(copy_bytes(all[j].as_slice()));
        assert(byte_seqs(out@) =~= byte_seqs(before).push(l[j as int]));
        assert(l.subrange(start as int, j + 1) =~= l.subrange(start as int, j as int).push(l[j as int]));
        j = j + 1;
    }
    assert(byte_seqs(out@) =~= window(l, start as int, limit as nat));
    Ok(out)
}

} // verus!
