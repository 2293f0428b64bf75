use vstd::prelude::*;

verus! {

/// Prepares the file-system layer. The global FAT volume is opened lazily by
/// its owner, so there is nothing to set up here.
pub fn init() {
}

/// One turn of reading a file to its end: the outcome of reading into `chunk` decides
/// whether reading goes on. `Ok(n)` with `n > 0` appends the first `n` bytes of `chunk` to
/// `acc` and asks for more; `Ok(0)` (end of file) and an error stop and leave `acc` as it is.
pub fn absorb_read(acc: &mut Vec<u8>, chunk: &[u8], result: Result<usize, ()>) -> (more: bool)
    requires
        result is Ok ==> result->Ok_0 <= chunk@.len(),
    ensures
        more == (result is Ok && result->Ok_0 > 0),
        more ==> final(acc)@ == old(acc)@ + chunk@.subrange(0, result->Ok_0 as int),
        !more ==> final(acc)@ == old(acc)@,
{
    match result {
        Ok(0) => false,
        Ok(n) => {
            let mut i: usize = 0;
            while i < n
                invariant
                    0 <= i <= n,
                    n <= chunk@.len(),
                    acc@ == old(acc)@ + chunk@.subrange(0, i as int),
                decreases n - i,
            {
                acc.push(chunk[i]);
                proof {
                    assert(chunk@.subrange(0, i + 1) =~= chunk@.subrange(0, i as int).push(chunk@[i as int]));
                }
                i = i + 1;
            }
            true
        },
        Err(_) => false,
    }
}

} // verus!
