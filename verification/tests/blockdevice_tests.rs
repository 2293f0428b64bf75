use fhos::fs::blockdevice::{BlockDevice, SeekFrom};
use fhos::fs::filesystem::absorb_read;

fn pattern(len: usize) -> Vec<u8> {
    (0..len).map(|i| (i % 253) as u8).collect()
}

#[test]
fn new_device_starts_at_zero() {
    let d = BlockDevice::new();
    assert_eq!(d.position(), 0);
    assert_eq!(d.current_sector(), 0);
    assert_eq!(d.sector_offset(), 0);
}

#[test]
fn seek_from_start_sets_position() {
    let mut d = BlockDevice::new();
    assert_eq!(d.seek(SeekFrom::Start(1000)), Ok(1000));
    assert_eq!(d.current_sector(), 1);
    assert_eq!(d.sector_offset(), 488);
}

#[test]
fn seek_from_current_moves_both_ways() {
    let mut d = BlockDevice::new();
    d.seek(SeekFrom::Start(100)).unwrap();
    assert_eq!(d.seek(SeekFrom::Current(412)), Ok(512));
    assert_eq!(d.seek(SeekFrom::Current(-12)), Ok(500));
    assert_eq!(d.seek(SeekFrom::Current(0)), Ok(500));
}

#[test]
fn seek_from_current_saturates() {
    let mut d = BlockDevice::new();
    d.seek(SeekFrom::Start(10)).unwrap();
    assert_eq!(d.seek(SeekFrom::Current(-2000)), Ok(0));
    assert_eq!(d.seek(SeekFrom::Current(i64::MIN)), Ok(0));
    d.seek(SeekFrom::Start(u64::MAX - 5)).unwrap();
    assert_eq!(d.seek(SeekFrom::Current(10)), Ok(u64::MAX));
    assert_eq!(d.seek(SeekFrom::Current(i64::MIN)), Ok(u64::MAX - (1u64 << 63)));
}

#[test]
fn seek_there_and_back() {
    let mut d = BlockDevice::new();
    d.seek(SeekFrom::Start(7777)).unwrap();
    d.seek(SeekFrom::Current(-1234)).unwrap();
    assert_eq!(d.seek(SeekFrom::Current(1234)), Ok(7777));
}

#[test]
fn sectors_spanned_counts_touched_sectors() {
    let mut d = BlockDevice::new();
    assert_eq!(d.sectors_spanned(0), 0);
    assert_eq!(d.sectors_spanned(1), 1);
    assert_eq!(d.sectors_spanned(512), 1);
    assert_eq!(d.sectors_spanned(513), 2);
    d.seek(SeekFrom::Start(500)).unwrap();
    assert_eq!(d.sectors_spanned(12), 1);
    assert_eq!(d.sectors_spanned(13), 2);
    assert_eq!(d.sectors_spanned(1036), 3);
    assert_eq!(d.sectors_spanned(usize::MAX), ((500u128 + usize::MAX as u128 + 511) / 512) as u64);
}

#[test]
fn read_within_one_sector() {
    let mut d = BlockDevice::new();
    d.seek(SeekFrom::Start(5 * 512 + 10)).unwrap();
    let sectors = pattern(512);
    let mut buf = vec![0u8; 20];
    assert_eq!(d.read(&mut buf, &sectors), Ok(20));
    assert_eq!(buf, sectors[10..30].to_vec());
    assert_eq!(d.position(), 5 * 512 + 30);
}

#[test]
fn read_across_sector_boundaries() {
    let mut d = BlockDevice::new();
    d.seek(SeekFrom::Start(500)).unwrap();
    let n = d.sectors_spanned(1100) as usize;
    assert_eq!(n, 4);
    let sectors = pattern(512 * n);
    let mut buf = vec![0u8; 1100];
    assert_eq!(d.read(&mut buf, &sectors), Ok(1100));
    assert_eq!(buf, sectors[500..1600].to_vec());
    assert_eq!(d.position(), 1600);
    assert_eq!(d.current_sector(), 3);
    assert_eq!(d.sector_offset(), 64);
}

#[test]
fn empty_read_moves_nothing() {
    let mut d = BlockDevice::new();
    d.seek(SeekFrom::Start(77)).unwrap();
    let mut buf: Vec<u8> = Vec::new();
    assert_eq!(d.read(&mut buf, &[]), Ok(0));
    assert_eq!(d.position(), 77);
}

#[test]
fn partial_write_keeps_the_rest_of_the_sectors() {
    let mut d = BlockDevice::new();
    d.seek(SeekFrom::Start(510)).unwrap();
    let data = [1u8, 2, 3, 4];
    assert_eq!(d.sectors_spanned(4), 2);
    let c = d.next_chunk(4);
    assert_eq!((c.sector, c.offset, c.len, c.partial), (0, 510, 2, true));
    let existing = pattern(1024);
    let mut sectors = existing.clone();
    assert_eq!(d.write(&data, &mut sectors), Ok(4));
    let mut expected = existing.clone();
    expected[510..514].copy_from_slice(&data);
    assert_eq!(sectors, expected);
    assert_eq!(d.position(), 514);
}

#[test]
fn whole_sectors_need_no_read() {
    let mut d = BlockDevice::new();
    d.seek(SeekFrom::Start(1024)).unwrap();
    let c = d.next_chunk(1024);
    assert_eq!((c.sector, c.offset, c.len, c.partial), (2, 0, 512, false));
    let c = d.next_chunk(100);
    assert_eq!((c.sector, c.offset, c.len, c.partial), (2, 0, 100, true));
    let data = pattern(1024);
    let mut sectors = vec![0xEEu8; 1024];
    assert_eq!(d.write(&data, &mut sectors), Ok(1024));
    assert_eq!(sectors, data);
    assert_eq!(d.current_sector(), 4);
}

#[test]
fn unaligned_write_spanning_three_sectors() {
    let mut d = BlockDevice::new();
    assert_eq!(d.sectors_spanned(1000), 2);
    d.seek(SeekFrom::Start(100)).unwrap();
    assert_eq!(d.sectors_spanned(1000), 3);
    d.seek(SeekFrom::Start(300)).unwrap();
    assert_eq!(d.sectors_spanned(1000), 3);
    let c = d.next_chunk(1000);
    assert_eq!((c.sector, c.offset, c.len, c.partial), (0, 300, 212, true));
    let existing = vec![0x55u8; 1536];
    let mut sectors = existing.clone();
    let data = vec![0x11u8; 1000];
    assert_eq!(d.write(&data, &mut sectors), Ok(1000));
    assert_eq!(&sectors[..300], &existing[..300]);
    assert_eq!(&sectors[300..1300], &data[..]);
    assert_eq!(&sectors[1300..], &existing[1300..]);
}

#[test]
fn read_after_write_gives_back_the_data() {
    let mut w = BlockDevice::new();
    w.seek(SeekFrom::Start(3 * 512 + 77)).unwrap();
    let data: Vec<u8> = (0..900).map(|i| (i * 3 % 256) as u8).collect();
    let n = w.sectors_spanned(data.len()) as usize;
    let mut sectors = pattern(512 * n);
    w.write(&data, &mut sectors).unwrap();

    let mut r = BlockDevice::new();
    r.seek(SeekFrom::Start(3 * 512 + 77)).unwrap();
    let mut back = vec![0u8; 900];
    r.read(&mut back, &sectors).unwrap();
    assert_eq!(back, data);
    assert_eq!(r.position(), w.position());
}

#[test]
fn flush_does_nothing() {
    let mut d = BlockDevice::new();
    d.seek(SeekFrom::Start(42)).unwrap();
    assert_eq!(d.flush(), Ok(()));
    assert_eq!(d.position(), 42);
}

/// A disk of whole sectors that records the order of its sector reads and writes.
struct ModelDisk {
    bytes: Vec<u8>,
    log: Vec<(char, u64)>,
}

impl ModelDisk {
    fn read_sector(&mut self, lba: u64, out: &mut [u8]) {
        self.log.push(('r', lba));
        let s = lba as usize * 512;
        out[..512].copy_from_slice(&self.bytes[s..s + 512]);
    }

    fn write_sector(&mut self, lba: u64, data: &[u8]) {
        self.log.push(('w', lba));
        let s = lba as usize * 512;
        self.bytes[s..s + 512].copy_from_slice(&data[..512]);
    }

    fn write(&mut self, d: &mut BlockDevice, buf: &[u8]) -> usize {
        let mut total = 0;
        while total < buf.len() {
            let chunk = d.next_chunk(buf.len() - total);
            let mut sector = vec![0u8; 512];
            if chunk.partial {
                self.read_sector(chunk.sector, &mut sector);
            }
            total = d.write_chunk(buf, total, &mut sector);
            self.write_sector(chunk.sector, &sector);
        }
        total
    }

    fn read(&mut self, d: &mut BlockDevice, buf: &mut [u8]) -> usize {
        let mut total = 0;
        while total < buf.len() {
            let chunk = d.next_chunk(buf.len() - total);
            let mut sector = vec![0u8; 512];
            self.read_sector(chunk.sector, &mut sector);
            total = d.read_chunk(buf, total, &sector);
        }
        total
    }
}

#[test]
fn chunked_write_reads_each_partial_sector_just_before_writing_it() {
    let mut bytes = vec![0xAAu8; 512];
    bytes.extend_from_slice(&[0xBBu8; 512]);
    let mut disk = ModelDisk { bytes, log: Vec::new() };
    let mut d = BlockDevice::new();
    d.seek(SeekFrom::Start(510)).unwrap();
    assert_eq!(disk.write(&mut d, &[1, 2, 3, 4]), 4);
    assert_eq!(disk.log, vec![('r', 0), ('w', 0), ('r', 1), ('w', 1)]);
    assert_eq!(&disk.bytes[508..516], &[0xAA, 0xAA, 1, 2, 3, 4, 0xBB, 0xBB]);
    assert_eq!(d.position(), 514);
}

#[test]
fn chunked_write_skips_reading_covered_sectors() {
    let mut disk = ModelDisk { bytes: vec![0u8; 2048], log: Vec::new() };
    let mut d = BlockDevice::new();
    d.seek(SeekFrom::Start(256)).unwrap();
    disk.write(&mut d, &vec![7u8; 1024]);
    assert_eq!(disk.log, vec![('r', 0), ('w', 0), ('w', 1), ('r', 2), ('w', 2)]);
}

#[test]
fn chunk_steps_match_the_whole_transfer() {
    let image = pattern(4096);
    let mut disk = ModelDisk { bytes: image.clone(), log: Vec::new() };
    let mut d = BlockDevice::new();
    d.seek(SeekFrom::Start(700)).unwrap();
    let mut buf = vec![0u8; 1500];
    assert_eq!(disk.read(&mut d, &mut buf), 1500);
    assert_eq!(buf, image[700..2200].to_vec());
    assert_eq!(disk.log, vec![('r', 1), ('r', 2), ('r', 3), ('r', 4)]);
}

#[test]
fn write_in_two_parts_equals_write_in_one() {
    let a: Vec<u8> = (0..300).map(|i| (i % 200) as u8).collect();
    let b: Vec<u8> = (0..700).map(|i| (i % 50 + 100) as u8).collect();
    let mut one = ModelDisk { bytes: pattern(2048), log: Vec::new() };
    let mut two = ModelDisk { bytes: pattern(2048), log: Vec::new() };
    let mut d1 = BlockDevice::new();
    let mut d2 = BlockDevice::new();
    d1.seek(SeekFrom::Start(400)).unwrap();
    d2.seek(SeekFrom::Start(400)).unwrap();
    let mut ab = a.clone();
    ab.extend_from_slice(&b);
    one.write(&mut d1, &ab);
    two.write(&mut d2, &a);
    two.write(&mut d2, &b);
    assert_eq!(one.bytes, two.bytes);
    assert_eq!(d1.position(), 1400);
    assert_eq!(d2.position(), 1400);
}

#[test]
fn absorb_read_appends_until_end_or_error() {
    let mut acc = vec![1u8];
    let chunk = [9u8, 8, 7, 6];
    assert!(absorb_read(&mut acc, &chunk, Ok(3)));
    assert_eq!(acc, vec![1, 9, 8, 7]);
    assert!(!absorb_read(&mut acc, &chunk, Ok(0)));
    assert!(!absorb_read(&mut acc, &chunk, Err(())));
    assert_eq!(acc, vec![1, 9, 8, 7]);
    assert!(absorb_read(&mut acc, &chunk, Ok(4)));
    assert_eq!(acc, vec![1, 9, 8, 7, 9, 8, 7, 6]);
}
