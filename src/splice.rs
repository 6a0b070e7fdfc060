use vstd::prelude::*;
use crate::error::permission_denied;

verus! {

/// The permission bits a file needs before bytes are inserted into it: owner read and
/// write (0o600).
pub const OWNER_READ_WRITE: u32 = 384;

/// The content after inserting `data` at byte `offset`. An offset past the end behaves as
/// a write past the end of a file: the gap is filled with zero bytes.
pub open spec fn spliced(content: Seq<u8>, data: Seq<u8>, offset: int) -> Seq<u8> {
    if offset <= content.len() {
        content.take(offset) + data + content.skip(offset)
    } else {
        content + Seq::new((offset - content.len()) as nat, |i: int| 0u8) + data
    }
}

/// Appends `src[from..]` to `dst`.
pub(crate) fn append_tail(dst: &mut Vec<u8>, src: &[u8], from: usize)
    requires
        from <= src@.len(),
    ensures
        final(dst)@ == old(dst)@ + src@.skip(from as int),
{
    let mut i: usize = from;
    while i < src.len()
        invariant
            from <= i <= src@.len(),
            dst@ == old(dst)@ + src@.subrange(from as int, i as int),
        decreases src@.len() - i,
    {
        dst.push(src[i]);
        i = i + 1;
        assert(src@.subrange(from as int, i as int) =~= src@.subrange(from as int, i - 1).push(
            src@[i - 1],
        ));
    }
    assert(src@.subrange(from as int, i as int) =~= src@.skip(from as int));
}

/// Inserts `data` into `content` at byte `offset`, shifting the bytes at and after `offset`
/// later by `data.len()`.
///
/// The steps are those of an insertion into a file: take a snapshot of the whole content,
/// write `data` at `offset`, then write the snapshot's bytes from `offset` on after it.
pub fn splice(content: &mut Vec<u8>, data: &[u8], offset: u64)
    requires
        old(content)@.len() + data@.len() <= usize::MAX,
        offset + data@.len() <= usize::MAX,
    ensures
        final(content)@ == spliced(old(content)@, data@, offset as int),
        offset <= old(content)@.len() ==> final(content)@.len() == old(content)@.len()
            + data@.len(),
{
    let snapshot: Vec<u8> = content.clone();
    assert(snapshot@ == old(content)@);
    let len = content.len();
    if offset as usize <= len {
        let at = offset as usize;
        content.truncate(at);
        assert(content@ == old(content)@.take(at as int));
        append_tail(content, data, 0);
        assert(data@.skip(0) =~= data@);
        append_tail(content, snapshot.as_slice(), at);
    } else {
        let at = offset as usize;
        while content.len() < at
            invariant
                len <= content@.len() <= at,
                at == offset,
                content@ == old(content)@ + Seq::new(
                    (content@.len() - len) as nat,
                    |i: int| 0u8,
                ),
            decreases at - content@.len(),
        {
            content.push(0u8);
            assert(content@ =~= old(content)@ + Seq::new(
                (content@.len() - len) as nat,
                |i: int| 0u8,
            ));
        }
        append_tail(content, data, 0);
        assert(data@.skip(0) =~= data@);
    }
    assert(final(content)@ =~= spliced(old(content)@, data@, offset as int));
}

/// Inserts `data` at byte `offset` of a file's content, given the file's permission mode.
///
/// A mode below owner read-write is refused with a `PermissionDenied` error before any byte
/// changes; otherwise the content becomes `spliced(content, data, offset)`.
pub fn insert_at(f: &mut Vec<u8>, mode: u32, data: &[u8], offset: u64) -> (r: Result<
    (),
    std::io::Error,
>)
    requires
        old(f)@.len() + data@.len() <= usize::MAX,
        offset + data@.len() <= usize::MAX,
    ensures
        r.is_err() == (mode < OWNER_READ_WRITE),
        r.is_err() ==> final(f)@ == old(f)@,
        r.is_ok() ==> final(f)@ == spliced(old(f)@, data@, offset as int),
        r.is_ok() && offset <= old(f)@.len() ==> final(f)@ == old(f)@.take(offset as int) + data@
            + old(f)@.skip(offset as int) && final(f)@.len() == old(f)@.len() + data@.len(),
{
    if mode < OWNER_READ_WRITE {
        return Err(permission_denied());
    }
    splice(f, data, offset);
    Ok(())
}

/// Prepends `data` to a file's content, given the file's permission mode.
pub fn insert(f: &mut Vec<u8>, mode: u32, data: &[u8]) -> (r: Result<(), std::io::Error>)
    requires
        old(f)@.len() + data@.len() <= usize::MAX,
    ensures
        r.is_err() == (mode < OWNER_READ_WRITE),
        r.is_err() ==> final(f)@ == old(f)@,
        r.is_ok() ==> final(f)@ == data@ + old(f)@,
{
    let r = insert_at(f, mode, data, 0);
    assert(old(f)@.take(0) + data@ + old(f)@.skip(0) =~= data@ + old(f)@);
    r
}

} // verus!
