//! Small operations on byte strings that several modules share.

use vstd::prelude::*;

verus! {

/// Whether two byte strings hold the same bytes.
pub fn bytes_equal(a: &[u8], b: &[u8]) -> (same: bool)
    ensures
        same == (a@ == b@),
{
    if a.len() != b.len() {
        return false;
    }
    let mut i: usize = 0;
    while i < a.len()
        invariant
            i <= a.len(),
            a.len() == b.len(),
            a@.take(i as int) == b@.take(i as int),
        decreases a.len() - i,
    {
        if a[i] != b[i] {
            return false;
        }
        assert(a@.take(i + 1) =~= a@.take(i as int).push(a@[i as int]));
        assert(b@.take(i + 1) =~= b@.take(i as int).push(b@[i as int]));
        i += 1;
    }
    assert(a@ =~= a@.take(a.len() as int));
    assert(b@ =~= b@.take(b.len() as int));
    true
}

/// Whether `text` begins with `prefix`.
pub fn has_prefix(text: &[u8], prefix: &[u8]) -> (found: bool)
    ensures
        found == prefix@.is_prefix_of(text@),
{
    if prefix.len() > text.len() {
        return false;
    }
    let mut i: usize = 0;
    while i < prefix.len()
        invariant
            i <= prefix.len(),
            prefix.len() <= text.len(),
            forall|j: int| 0 <= j < i ==> text@[j] == prefix@[j],
        decreases prefix.len() - i,
    {
        if text[i] != prefix[i] {
            assert(text@.subrange(0, prefix@.len() as int)[i as int] != prefix@[i as int]);
            return false;
        }
        i += 1;
    }
    assert(prefix@ =~= text@.subrange(0, prefix@.len() as int));
    true
}

/// A fresh vector with the bytes of `source`.
pub fn copy_bytes(source: &[u8]) -> (copy: Vec<u8>)
    ensures
        copy@ == source@,
{
    let mut copy: Vec<u8> = Vec::new();
    copy.extend_from_slice(source);
    assert(copy@ =~= source@);
    copy
}

/// Appends `bytes` to `out`.
pub fn append_bytes(out: &mut Vec<u8>, bytes: &[u8])
    ensures
        final(out)@ == old(out)@ + bytes@,
{
    out.extend_from_slice(bytes);
    assert(out@ =~= old(out)@ + bytes@);
}

} // verus!
