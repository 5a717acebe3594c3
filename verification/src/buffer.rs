//! Writing a run of bytes into a buffer, as a sequence operation.

use vstd::prelude::*;

verus! {

/// A buffer that held `before` after `enc` was written at `offset`: the
/// bytes of `enc` in place, everything else unchanged.
pub open spec fn spliced(before: Seq<u8>, offset: int, enc: Seq<u8>) -> Seq<u8> {
    before.take(offset) + enc + before.skip(offset + enc.len())
}

/// Two writes side by side are one write of both.
pub proof fn lemma_spliced_twice(b: Seq<u8>, o: int, x: Seq<u8>, y: Seq<u8>)
    requires
        0 <= o,
        o + x.len() + y.len() <= b.len(),
    ensures
        spliced(spliced(b, o, x), o + x.len(), y) == spliced(b, o, x + y),
        spliced(b, o, x).len() == b.len(),
{
    assert(spliced(spliced(b, o, x), o + x.len(), y) =~= spliced(b, o, x + y));
}

/// What stands before the end of a write.
pub proof fn lemma_spliced_take(b: Seq<u8>, o: int, x: Seq<u8>)
    requires
        0 <= o,
        o + x.len() <= b.len(),
    ensures
        spliced(b, o, x).take(o + x.len()) == b.take(o) + x,
        spliced(b, o, x).take(o) == b.take(o),
{
    assert(spliced(b, o, x).take(o + x.len()) =~= b.take(o) + x);
    assert(spliced(b, o, x).take(o) =~= b.take(o));
}

} // verus!
