//! Writers that compose headers in place in a caller's buffer.

pub mod ethernet;
pub mod ipv4;
pub mod ipv6;

use vstd::prelude::*;

verus! {

/// `b` with `v` written over it from position `at` on.
pub open spec fn overwrite(b: Seq<u8>, at: int, v: Seq<u8>) -> Seq<u8> {
    b.subrange(0, at) + v + b.subrange(at + v.len(), b.len() as int)
}

/// Writes `v` into `buf` from position `at` on.
pub fn write_bytes(buf: &mut [u8], at: usize, v: &[u8])
    requires
        at + v@.len() <= old(buf)@.len(),
    ensures
        final(buf)@ == overwrite(old(buf)@, at as int, v@),
{
    let n = v.len();
    let len = buf.len();
    let mut i: usize = 0;
    while i < n
        invariant
            n == v@.len(),
            at + n <= buf@.len(),
            buf@.len() == old(buf)@.len(),
            len == buf@.len(),
            i <= n,
            forall|k: int| 0 <= k < i ==> buf@[at + k] == v@[k],
            forall|k: int| 0 <= k < at ==> buf@[k] == old(buf)@[k],
            forall|k: int| at + n <= k < buf@.len() ==> buf@[k] == old(buf)@[k],
        decreases n - i,
    {
        buf[at + i] = v[i];
        i = i + 1;
    }
    assert(buf@ =~= overwrite(old(buf)@, at as int, v@));
}

} // verus!
