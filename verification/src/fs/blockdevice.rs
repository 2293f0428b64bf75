use vstd::prelude::*;
use vstd::arithmetic::div_mod::lemma_fundamental_div_mod;

verus! {

/// Bytes in one disk sector.
pub const SECTOR_BYTES: u64 = 512;

/// Where a seek is measured from.
#[derive(Debug, Clone, Copy, PartialEq, Eq, Structural)]
pub enum SeekFrom {
    Start(u64),
    End(i64),
    Current(i64),
}

/// A byte-addressed view of the disk with a current position, as the FAT layer uses it.
/// Sector contents come from and go to the disk driver: `read` takes the sectors that the
/// read spans, `write` takes those the write spans and gives back their new contents.
pub struct BlockDevice {
    position: u64,
}

impl View for BlockDevice {
    type V = u64;

    closed spec fn view(&self) -> u64 {
        self.position
    }
}

/// Number of sectors that `len` bytes starting at byte `position` touch.
pub open spec fn sector_span(position: u64, len: nat) -> nat {
    if len == 0 {
        0
    } else {
        (((position % SECTOR_BYTES) + len + 511) / 512) as nat
    }
}

/// How many bytes a transfer with `remaining` bytes to go moves in the sector of `position`:
/// up to the end of that sector.
pub open spec fn chunk_len(position: u64, remaining: nat) -> nat {
    let room = (512 - position % SECTOR_BYTES) as nat;
    if remaining < room {
        remaining
    } else {
        room
    }
}

/// One sector's share of a transfer.
#[derive(Debug, Clone, Copy, PartialEq, Eq, Structural)]
pub struct SectorChunk {
    /// The sector.
    pub sector: u64,
    /// Where in the sector the share starts.
    pub offset: usize,
    /// How many bytes the share has.
    pub len: usize,
    /// The share is only part of the sector, so a write needs its old contents.
    pub partial: bool,
}

/// The `len` bytes of `sectors` from index `at` on.
pub open spec fn read_bytes(sectors: Seq<u8>, at: int, len: nat) -> Seq<u8> {
    Seq::new(len, |i: int| sectors[at + i])
}

/// `existing` with `data` written over it from index `at` on.
pub open spec fn splice(existing: Seq<u8>, at: int, data: Seq<u8>) -> Seq<u8> {
    Seq::new(
        existing.len(),
        |i: int|
            if at <= i < at + data.len() {
                data[i - at]
            } else {
                existing[i]
            },
    )
}

/// The position that a seek from `position` moves to. A seek relative to the current
/// position saturates at both ends of the `u64` range.
pub open spec fn seek_target(position: u64, pos: SeekFrom) -> u64 {
    match pos {
        SeekFrom::Start(offset) => offset,
        SeekFrom::Current(offset) => {
            let target = position + offset;
            if target < 0 {
                0
            } else if target > u64::MAX {
                u64::MAX
            } else {
                target as u64
            }
        },
        SeekFrom::End(_) => position,
    }
}

impl BlockDevice {
    /// A device positioned at the start of the disk.
    pub fn new() -> (d: BlockDevice)
        ensures
            d@ == 0,
    {
        BlockDevice { position: 0 }
    }

    /// The current byte position.
    pub fn position(&self) -> (r: u64)
        ensures
            r == self@,
    {
        self.position
    }

    /// The sector that holds the current position.
    pub fn current_sector(&self) -> (r: u64)
        ensures
            r == self@ / SECTOR_BYTES,
    {
        self.position / SECTOR_BYTES
    }

    /// The offset of the current position inside its sector.
    pub fn sector_offset(&self) -> (r: usize)
        ensures
            r == self@ % SECTOR_BYTES,
            r < 512,
    {
        (self.position % SECTOR_BYTES) as usize
    }

    /// How many sectors, from `current_sector` on, a read or write of `len` bytes touches.
    pub fn sectors_spanned(&self, len: usize) -> (r: u64)
        ensures
            r == sector_span(self@, len as nat),
    {
        if len == 0 {
            0
        } else {
            let offset = (self.position % SECTOR_BYTES) as u128;
            ((offset + len as u128 + 511) / 512) as u64
        }
    }

    /// The share of the current sector in a transfer that still has `remaining` bytes to go:
    /// which sector, where in it the transfer starts, how many bytes it moves there, and
    /// whether that is only part of the sector.
    pub fn next_chunk(&self, remaining: usize) -> (c: SectorChunk)
        requires
            remaining > 0,
        ensures
            c.sector == self@ / SECTOR_BYTES,
            c.offset == self@ % SECTOR_BYTES,
            c.len == chunk_len(self@, remaining as nat),
            0 < c.len <= 512,
            c.offset + c.len <= 512,
            c.partial == (c.offset != 0 || c.len != 512),
    {
        let sector = self.current_sector();
        let offset = self.sector_offset();
        let remaining_in_sector = 512 - offset;
        let len = if remaining < remaining_in_sector {
            remaining
        } else {
            remaining_in_sector
        };
        SectorChunk { sector, offset, len, partial: offset != 0 || len != 512 }
    }

    /// One sector's step of a read: copies this sector's share of the transfer from
    /// `sector_buffer`, which holds the current sector, into `buf` from `total_read` on, moves
    /// past it and returns how much of `buf` is now filled.
    pub fn read_chunk(&mut self, buf: &mut [u8], total_read: usize, sector_buffer: &[u8]) -> (r:
        usize)
        requires
            total_read < old(buf)@.len(),
            sector_buffer@.len() == 512,
            old(self)@ + (old(buf)@.len() - total_read) <= u64::MAX,
        ensures
            ({
                let offset = (old(self)@ % SECTOR_BYTES) as int;
                let n = chunk_len(old(self)@, (old(buf)@.len() - total_read) as nat);
                &&& r == total_read + n
                &&& final(self)@ == old(self)@ + n
                &&& final(buf)@ == splice(
                    old(buf)@,
                    total_read as int,
                    sector_buffer@.subrange(offset, offset + n),
                )
            }),
    {
        let buf_len = buf.len();
        let chunk = self.next_chunk(buf_len - total_read);
        let offset = chunk.offset;
        let to_read = chunk.len;
        let ghost before = buf@;
        let mut j: usize = 0;
        while j < to_read
            invariant
                0 <= j <= to_read,
                offset + to_read <= 512,
                total_read + to_read <= buf_len,
                buf_len == buf@.len(),
                sector_buffer@.len() == 512,
                buf@.len() == before.len(),
                forall|i: int|
                    0 <= i < buf@.len() ==> #[trigger] buf@[i] == if total_read <= i < total_read + j {
                        sector_buffer@[offset + i - total_read]
                    } else {
                        before[i]
                    },
            decreases to_read - j,
        {
            buf[total_read + j] = sector_buffer[offset + j];
            j = j + 1;
        }
        proof {
            assert(buf@ =~= splice(
                before,
                total_read as int,
                sector_buffer@.subrange(offset as int, offset + to_read),
            ));
        }
        self.position = self.position + to_read as u64;
        total_read + to_read
    }

    /// One sector's step of a write: puts this sector's share of `buf`, from
    /// `total_written` on, into `sector_buffer`, which holds the sector as it is to be written
    /// back (its old contents where the share is `partial`), moves past it and returns how
    /// much of `buf` is now written.
    pub fn write_chunk(&mut self, buf: &[u8], total_written: usize, sector_buffer: &mut Vec<u8>) -> (r:
        usize)
        requires
            total_written < buf@.len(),
            old(sector_buffer)@.len() == 512,
            old(self)@ + (buf@.len() - total_written) <= u64::MAX,
        ensures
            ({
                let offset = (old(self)@ % SECTOR_BYTES) as int;
                let n = chunk_len(old(self)@, (buf@.len() - total_written) as nat);
                &&& r == total_written + n
                &&& final(self)@ == old(self)@ + n
                &&& final(sector_buffer)@ == splice(
                    old(sector_buffer)@,
                    offset,
                    buf@.subrange(total_written as int, total_written + n),
                )
            }),
    {
        let buf_len = buf.len();
        let chunk = self.next_chunk(buf_len - total_written);
        let offset = chunk.offset;
        let to_write = chunk.len;
        let ghost before = sector_buffer@;
        let mut j: usize = 0;
        while j < to_write
            invariant
                0 <= j <= to_write,
                offset + to_write <= 512,
                total_written + to_write <= buf_len,
                buf_len == buf@.len(),
                sector_buffer@.len() == 512,
                before.len() == 512,
                forall|i: int|
                    0 <= i < 512 ==> #[trigger] sector_buffer@[i] == if offset <= i < offset + j {
                        buf@[total_written + i - offset]
                    } else {
                        before[i]
                    },
            decreases to_write - j,
        {
            sector_buffer.set(offset + j, buf[total_written + j]);
            j = j + 1;
        }
        proof {
            assert(sector_buffer@ =~= splice(
                before,
                offset as int,
                buf@.subrange(total_written as int, total_written + to_write),
            ));
        }
        self.position = self.position + to_write as u64;
        total_written + to_write
    }

    /// Reads `buf.len()` bytes from the current position and moves past them, one sector
    /// at a time. `sectors` holds the contents of the sectors that the read spans, from
    /// `current_sector` on.
    pub fn read(&mut self, buf: &mut [u8], sectors: &[u8]) -> (r: Result<usize, ()>)
        requires
            old(self)@ + old(buf)@.len() <= u64::MAX,
            sectors@.len() == SECTOR_BYTES * sector_span(old(self)@, old(buf)@.len()),
        ensures
            r == Ok::<usize, ()>(old(buf)@.len() as usize),
            final(self)@ == old(self)@ + old(buf)@.len(),
            final(buf)@ == read_bytes(sectors@, (old(self)@ % SECTOR_BYTES) as int, old(buf)@.len()),
    {
        let ghost p0 = self.position as int;
        let ghost off0 = p0 % 512;
        let len = buf.len();
        let first = self.current_sector();
        let mut total_read: usize = 0;
        while total_read < len
            invariant
                0 <= total_read <= len,
                len == buf@.len(),
                p0 == old(self)@,
                off0 == p0 % 512,
                first == p0 / 512,
                p0 + len <= u64::MAX,
                sectors@.len() == SECTOR_BYTES * sector_span(p0 as u64, len as nat),
                self.position == p0 + total_read,
                forall|j: int| 0 <= j < total_read ==> #[trigger] buf@[j] == sectors@[off0 + j],
            decreases len - total_read,
        {
            let chunk = self.next_chunk(len - total_read);
            proof {
                lemma_fundamental_div_mod(p0 + total_read, 512);
                lemma_fundamental_div_mod(p0, 512);
                lemma_span_bounds(p0 as u64, len as nat);
                lemma_sector_aligned_end(p0 as u64, len as nat, (chunk.sector - first) as int);
            }
            let relative: u64 = (chunk.sector - first) * 512;
            assert(relative + chunk.offset == off0 + total_read);
            let sectors_len = sectors.len();
            assert(off0 + len <= sectors_len);
            assert(relative + 512 <= sectors_len);
            let start = relative as usize;
            let sector_buffer = &sectors[start..start + 512];
            let ghost before = buf@;
            let next = self.read_chunk(buf, total_read, sector_buffer);
            proof {
                assert forall|j: int| 0 <= j < next implies #[trigger] buf@[j] == sectors@[off0 + j] by {
                    if j >= total_read {
                        assert(buf@[j] == sector_buffer@[chunk.offset + j - total_read]);
                    } else {
                        assert(buf@[j] == before[j]);
                    }
                }
            }
            total_read = next;
        }
        proof {
            assert(buf@ =~= read_bytes(sectors@, off0, len as nat));
        }
        Ok(total_read)
    }

    /// Writes `buf` at the current position and moves past it, one sector at a time.
    /// `sectors` holds the contents of the sectors that the write spans, from
    /// `current_sector` on, and receives their new contents; a sector's old contents are
    /// used only where the write covers it in part.
    pub fn write(&mut self, buf: &[u8], sectors: &mut Vec<u8>) -> (r: Result<usize, ()>)
        requires
            old(self)@ + buf@.len() <= u64::MAX,
            old(sectors)@.len() == SECTOR_BYTES * sector_span(old(self)@, buf@.len()),
        ensures
            r == Ok::<usize, ()>(buf@.len() as usize),
            final(self)@ == old(self)@ + buf@.len(),
            final(sectors)@ == splice(old(sectors)@, (old(self)@ % SECTOR_BYTES) as int, buf@),
    {
        let ghost p0 = self.position as int;
        let ghost off0 = p0 % 512;
        let ghost existing = sectors@;
        let len = buf.len();
        let first = self.current_sector();
        let mut total_written: usize = 0;
        while total_written < len
            invariant
                0 <= total_written <= len,
                len == buf@.len(),
                p0 == old(self)@,
                off0 == p0 % 512,
                first == p0 / 512,
                p0 + len <= u64::MAX,
                existing == old(sectors)@,
                sectors@.len() == existing.len(),
                existing.len() == SECTOR_BYTES * sector_span(p0 as u64, len as nat),
                self.position == p0 + total_written,
                sectors@ == splice(existing, off0, buf@.subrange(0, total_written as int)),
            decreases len - total_written,
        {
            let chunk = self.next_chunk(len - total_written);
            proof {
                lemma_fundamental_div_mod(p0 + total_written, 512);
                lemma_fundamental_div_mod(p0, 512);
                lemma_span_bounds(p0 as u64, len as nat);
                lemma_sector_aligned_end(p0 as u64, len as nat, (chunk.sector - first) as int);
            }
            let relative: u64 = (chunk.sector - first) * 512;
            assert(relative + chunk.offset == off0 + total_written);
            let sectors_len = sectors.len();
            assert(off0 + len <= sectors_len);
            assert(relative + 512 <= sectors_len);
            let start = relative as usize;
            let ghost before = sectors@;
            let mut sector_buffer: Vec<u8> = vec![0u8; 512];
            if chunk.partial {
                let mut k: usize = 0;
                while k < 512
                    invariant
                        0 <= k <= 512,
                        sector_buffer@.len() == 512,
                        sectors_len == sectors@.len(),
                        start + 512 <= sectors_len,
                        forall|i: int| 0 <= i < k ==> #[trigger] sector_buffer@[i] == sectors@[start + i],
                    decreases 512 - k,
                {
                    sector_buffer.set(k, sectors[start + k]);
                    k = k + 1;
                }
            }
            let ghost loaded = sector_buffer@;
            assert(forall|i: int|
                0 <= i < 512 ==> #[trigger] loaded[i] == (if chunk.partial {
                    before[start + i]
                } else {
                    0u8
                }));
            let next = self.write_chunk(buf, total_written, &mut sector_buffer);
            let mut k: usize = 0;
            while k < 512
                invariant
                    0 <= k <= 512,
                    sector_buffer@.len() == 512,
                    sectors_len == sectors@.len(),
                    start + 512 <= sectors_len,
                    sectors@.len() == before.len(),
                    forall|i: int|
                        0 <= i < sectors@.len() ==> #[trigger] sectors@[i] == if start <= i < start + k {
                            sector_buffer@[i - start]
                        } else {
                            before[i]
                        },
                decreases 512 - k,
            {
                sectors.set(start + k, sector_buffer[k]);
                k = k + 1;
            }
            proof {
                let offset = chunk.offset as int;
                let to_write = chunk.len as int;
                let done = buf@.subrange(0, next as int);
                let prev = buf@.subrange(0, total_written as int);
                assert forall|i: int| 0 <= i < sectors@.len() implies #[trigger] sectors@[i] == splice(
                    existing,
                    off0,
                    done,
                )[i] by {
                    assert(before[i] == splice(existing, off0, prev)[i]);
                    if start <= i < start + 512 {
                        let d = i - start;
                        assert(sectors@[i] == sector_buffer@[d]);
                        if offset <= d < offset + to_write {
                        } else {
                            assert(chunk.partial);
                            assert(sector_buffer@[d] == loaded[d]);
                        }
                    } else {
                        assert(sectors@[i] == before[i]);
                    }
                }
                assert(sectors@ =~= splice(existing, off0, done));
            }
            total_written = next;
        }
        proof {
            assert(buf@.subrange(0, len as int) =~= buf@);
        }
        Ok(total_written)
    }

    /// Nothing is buffered, so flushing does nothing.
    pub fn flush(&mut self) -> (r: Result<(), ()>)
        ensures
            r == Ok::<(), ()>(()),
            final(self)@ == old(self)@,
    {
        Ok(())
    }

    /// Moves the position as `pos` says and returns the new position. Seeking from the end
    /// is not supported.
    pub fn seek(&mut self, pos: SeekFrom) -> (r: Result<u64, ()>)
        requires
            !(pos is End),
        ensures
            final(self)@ == seek_target(old(self)@, pos),
            r == Ok::<u64, ()>(final(self)@),
    {
        match pos {
            SeekFrom::Start(offset) => {
                self.position = offset;
            },
            SeekFrom::End(_) => {},
            SeekFrom::Current(offset) => {
                if offset < 0 {
                    let magnitude: u64 = (-(offset + 1)) as u64 + 1;
                    self.position = self.position.saturating_sub(magnitude);
                } else {
                    self.position = self.position.saturating_add(offset as u64);
                }
            },
        }
        Ok(self.position)
    }
}

/// The sectors that `len` bytes from `position` span hold them, with less than a sector
/// to spare.
pub proof fn lemma_span_bounds(position: u64, len: nat)
    ensures
        len > 0 ==> (position % 512) + len <= 512 * sector_span(position, len),
        len > 0 ==> 512 * sector_span(position, len) <= (position % 512) + len + 511,
        len == 0 ==> sector_span(position, len) == 0,
{
    if len > 0 {
        let x = (position % 512) + len + 511;
        lemma_fundamental_div_mod(x as int, 512);
    }
}

/// Every sector that starts before the end of a write lies inside the sectors it spans.
proof fn lemma_sector_aligned_end(position: u64, len: nat, index: int)
    requires
        0 <= index,
        index * 512 < (position % 512) + len,
        len > 0,
    ensures
        index * 512 + 512 <= 512 * sector_span(position, len),
{
    lemma_span_bounds(position, len);
    let span = sector_span(position, len) as int;
    assert(index < span) by (nonlinear_arith)
        requires
            index * 512 < 512 * span,
    ;
}

/// Reading back the bytes just written at a position gives the bytes that were written.
pub proof fn lemma_read_after_write(existing: Seq<u8>, position: u64, data: Seq<u8>)
    requires
        existing.len() == SECTOR_BYTES * sector_span(position, data.len()),
    ensures
        ({
            let offset = (position % SECTOR_BYTES) as int;
            read_bytes(splice(existing, offset, data), offset, data.len()) == data
        }),
{
    let offset = (position % SECTOR_BYTES) as int;
    lemma_span_bounds(position, data.len());
    assert(read_bytes(splice(existing, offset, data), offset, data.len()) =~= data);
}

/// A sector that a write covers completely gets the same new contents whatever it held
/// before, which is why such sectors need not be read first.
pub proof fn lemma_covered_sector_ignores_old_contents(
    a: Seq<u8>,
    b: Seq<u8>,
    position: u64,
    data: Seq<u8>,
    index: int,
)
    requires
        a.len() == b.len(),
        a.len() == SECTOR_BYTES * sector_span(position, data.len()),
        0 <= index,
        position % SECTOR_BYTES <= index * 512,
        index * 512 + 512 <= position % SECTOR_BYTES + data.len(),
    ensures
        ({
            let offset = (position % SECTOR_BYTES) as int;
            splice(a, offset, data).subrange(index * 512, index * 512 + 512) == splice(
                b,
                offset,
                data,
            ).subrange(index * 512, index * 512 + 512)
        }),
{
    let offset = (position % SECTOR_BYTES) as int;
    assert(index * 512 + 512 <= a.len());
    assert(splice(a, offset, data).subrange(index * 512, index * 512 + 512) =~= splice(
        b,
        offset,
        data,
    ).subrange(index * 512, index * 512 + 512));
}

/// A seek back by the distance just moved returns to where it started, as long as the
/// first move did not saturate.
pub proof fn lemma_seek_current_round_trip(position: u64, offset: i64)
    requires
        offset != i64::MIN,
        0 <= position + offset <= u64::MAX,
    ensures
        seek_target(seek_target(position, SeekFrom::Current(offset)), SeekFrom::Current((-offset) as i64))
            == position,
{
}

/// The current sector and the offset in it together give the position.
pub proof fn lemma_sector_and_offset(position: u64)
    ensures
        (position / SECTOR_BYTES) * SECTOR_BYTES + position % SECTOR_BYTES == position,
        position % SECTOR_BYTES < SECTOR_BYTES,
{
}

/// The disk image with the bytes from sector `first` on replaced by `sectors`.
pub open spec fn with_sectors(disk: Seq<u8>, first: int, sectors: Seq<u8>) -> Seq<u8> {
    Seq::new(
        disk.len(),
        |i: int|
            if first * 512 <= i < first * 512 + sectors.len() {
                sectors[i - first * 512]
            } else {
                disk[i]
            },
    )
}

/// When a transfer has more to go than its share of the current sector, the share runs to
/// the end of that sector, so the next share starts the following sector: a transfer
/// visits each of its sectors once, in ascending order.
pub proof fn lemma_chunks_visit_sectors_in_order(position: u64, remaining: nat)
    requires
        chunk_len(position, remaining) < remaining,
    ensures
        (position + chunk_len(position, remaining)) / 512 == position / 512 + 1,
        (position + chunk_len(position, remaining)) % 512 == 0,
{
    lemma_fundamental_div_mod(position as int, 512);
    let next = position + chunk_len(position, remaining);
    assert(next == (position / 512 + 1) * 512);
    lemma_fundamental_div_mod(next as int, 512);
}

/// Writing at a position through the sectors the write spans changes the whole disk
/// exactly as writing the bytes over it at that position would.
pub proof fn lemma_sector_write_is_disk_write(disk: Seq<u8>, position: u64, data: Seq<u8>)
    requires
        (position / 512) * 512 + 512 * sector_span(position, data.len()) <= disk.len(),
    ensures
        ({
            let first = (position / 512) as int;
            let count = sector_span(position, data.len()) as int;
            let spanned = disk.subrange(first * 512, first * 512 + count * 512);
            with_sectors(disk, first, splice(spanned, (position % SECTOR_BYTES) as int, data))
                == splice(disk, position as int, data)
        }),
{
    let first = (position / 512) as int;
    let count = sector_span(position, data.len()) as int;
    let spanned = disk.subrange(first * 512, first * 512 + count * 512);
    let off = (position % SECTOR_BYTES) as int;
    lemma_span_bounds(position, data.len());
    lemma_fundamental_div_mod(position as int, 512);
    assert(first * 512 + off == position);
    assert(with_sectors(disk, first, splice(spanned, off, data)) =~= splice(
        disk,
        position as int,
        data,
    ));
}

/// Writing `a` and then `b` right after it leaves the disk as writing `a` followed by `b`
/// in one go.
pub proof fn lemma_write_concat(disk: Seq<u8>, position: int, a: Seq<u8>, b: Seq<u8>)
    requires
        0 <= position,
        position + a.len() + b.len() <= disk.len(),
    ensures
        splice(splice(disk, position, a), position + a.len(), b) == splice(disk, position, a + b),
{
    assert(splice(splice(disk, position, a), position + a.len(), b) =~= splice(
        disk,
        position,
        a + b,
    ));
}

/// A write puts byte j of the data at index `at + j` and leaves every other index as it was.
pub proof fn lemma_write_places_data(existing: Seq<u8>, at: int, data: Seq<u8>)
    requires
        0 <= at,
        at + data.len() <= existing.len(),
    ensures
        splice(existing, at, data).len() == existing.len(),
        forall|j: int| 0 <= j < data.len() ==> #[trigger] splice(existing, at, data)[at + j] == data[j],
        forall|i: int|
            0 <= i < existing.len() && !(at <= i < at + data.len()) ==> #[trigger] splice(
                existing,
                at,
                data,
            )[i] == existing[i],
{
}

/// A read hands back, as its byte j, the byte at index `at + j`.
pub proof fn lemma_read_takes_bytes(sectors: Seq<u8>, at: int, len: nat)
    ensures
        read_bytes(sectors, at, len).len() == len,
        forall|j: int| 0 <= j < len ==> #[trigger] read_bytes(sectors, at, len)[j] == sectors[at + j],
{
}

/// A sector's share of a transfer is as much as remains, but no more than fits up to the end
/// of the sector; it is empty only when nothing remains.
pub proof fn lemma_chunk_len_fits(position: u64, remaining: nat)
    ensures
        chunk_len(position, remaining) <= remaining,
        position % 512 + chunk_len(position, remaining) <= 512,
        chunk_len(position, remaining) == remaining || position % 512 + chunk_len(position, remaining)
            == 512,
        remaining > 0 ==> chunk_len(position, remaining) > 0,
{
}

/// A seek relative to the current position that stays inside the `u64` range moves by
/// exactly the offset; a seek from the start goes to the offset.
pub proof fn lemma_seek_moves_by_offset(position: u64, offset: i64, target: u64)
    ensures
        0 <= position + offset <= u64::MAX ==> seek_target(position, SeekFrom::Current(offset))
            == position + offset,
        position + offset < 0 ==> seek_target(position, SeekFrom::Current(offset)) == 0,
        position + offset > u64::MAX ==> seek_target(position, SeekFrom::Current(offset))
            == u64::MAX,
        seek_target(position, SeekFrom::Start(target)) == target,
{
}

} // verus!
