use vstd::prelude::*;

verus! {

/// Bytes in one block, which is one disk sector.
pub const BLOCK_SIZE: usize = 512;

/// Block-level access to the ATA disk: whole blocks are read and written at the sector
/// that holds a byte address.
#[derive(Clone, Copy, Debug)]
pub struct BlockDeviceATA();

/// The sectors that `number_of_blocks` blocks at byte `address` occupy, in order.
pub open spec fn block_lbas(address: usize, number_of_blocks: usize) -> Seq<u64> {
    Seq::new(number_of_blocks as nat, |k: int| (address / 512 + k) as u64)
}

/// The sector writes that a block write asks for: each sector in `lbas` receives `data`.
pub struct SectorWrites {
    pub lbas: Vec<u64>,
    pub data: Vec<u8>,
}

impl BlockDeviceATA {
    pub fn new() -> (d: BlockDeviceATA) {
        BlockDeviceATA()
    }

    /// The sectors, in order, that a transfer of `number_of_blocks` blocks at byte `address`
    /// reads or writes.
    pub fn blocks(address: usize, number_of_blocks: usize) -> (r: Vec<u64>)
        requires
            address / 512 + number_of_blocks <= usize::MAX,
        ensures
            r@ == block_lbas(address, number_of_blocks),
    {
        let first = address / BLOCK_SIZE;
        let mut lbas: Vec<u64> = Vec::new();
        let mut i: usize = first;
        while i < first + number_of_blocks
            invariant
                first == address / 512,
                first + number_of_blocks <= usize::MAX,
                first <= i <= first + number_of_blocks,
                lbas@ =~= block_lbas(address, (i - first) as usize),
            decreases first + number_of_blocks - i,
        {
            lbas.push(i as u64);
            i = i + 1;
        }
        lbas
    }

    /// Whether a read of `number_of_blocks` blocks into a buffer of `buf_len` bytes reports
    /// that its buffer is shorter than a block; a read of no blocks reports nothing.
    pub fn reports_short_buffer(buf_len: usize, number_of_blocks: usize) -> (r: bool)
        ensures
            r == (number_of_blocks != 0 && buf_len < BLOCK_SIZE),
    {
        number_of_blocks != 0 && buf_len < BLOCK_SIZE
    }

    /// Fills `buf` from the blocks that `read` was asked for. `sectors` holds the contents of
    /// the sectors that `blocks(address, number_of_blocks)` names, in order; no sector is
    /// read, and `buf` is left alone, when no block is asked for.
    pub fn read(
        &self,
        buf: &mut [u8],
        address: usize,
        number_of_blocks: usize,
        sectors: &[u8],
    ) -> (r: Result<(), usize>)
        requires
            sectors@.len() == BLOCK_SIZE * number_of_blocks,
            number_of_blocks == 0 || old(buf)@.len() <= BLOCK_SIZE * number_of_blocks,
        ensures
            r == Ok::<(), usize>(()),
            number_of_blocks == 0 ==> final(buf)@ == old(buf)@,
            number_of_blocks > 0 ==> final(buf)@ == sectors@.subrange(0, old(buf)@.len() as int),
    {
        if number_of_blocks == 0 {
            return Ok(());
        }
        let n = buf.len();
        let mut i: usize = 0;
        while i < n
            invariant
                0 <= i <= n,
                n == buf@.len(),
                n <= sectors@.len(),
                forall|j: int| 0 <= j < i ==> #[trigger] buf@[j] == sectors@[j],
            decreases n - i,
        {
            buf[i] = sectors[i];
            i = i + 1;
        }
        proof {
            assert(buf@ =~= sectors@.subrange(0, n as int));
        }
        Ok(())
    }

    /// The sector writes of a block write: every one of the blocks receives the first 512
    /// bytes of `buf`.
    pub fn write(&self, buf: &[u8], address: usize, number_of_blocks: usize) -> (r: Result<
        SectorWrites,
        usize,
    >)
        requires
            buf@.len() >= 5,
            number_of_blocks > 0 ==> buf@.len() >= BLOCK_SIZE,
            address / 512 + number_of_blocks <= usize::MAX,
        ensures
            r is Ok,
            r->Ok_0.lbas@ == block_lbas(address, number_of_blocks),
            number_of_blocks > 0 ==> r->Ok_0.data@ == buf@.subrange(0, BLOCK_SIZE as int),
            number_of_blocks == 0 ==> r->Ok_0.data@.len() == 0,
    {
        let lbas = Self::blocks(address, number_of_blocks);
        let mut data: Vec<u8> = Vec::new();
        if number_of_blocks > 0 {
            let mut i: usize = 0;
            while i < BLOCK_SIZE
                invariant
                    0 <= i <= BLOCK_SIZE,
                    buf@.len() >= BLOCK_SIZE,
                    data@ =~= buf@.subrange(0, i as int),
                decreases BLOCK_SIZE - i,
            {
                data.push(buf[i]);
                i = i + 1;
            }
        }
        Ok(SectorWrites { lbas, data })
    }
}

} // verus!
