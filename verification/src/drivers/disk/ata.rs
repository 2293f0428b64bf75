use vstd::prelude::*;
use vstd::arithmetic::power2::{pow2, lemma2_to64};
use vstd::utf8::{valid_utf8, decode_utf8};
use bit_field::BitField;

verus! {

/// Bytes in one disk sector.
pub const SECTOR_SIZE: usize = 512;

/// 16-bit words in one disk sector.
pub const SECTOR_WORDS: usize = 256;

/// The busy bit of the status register.
pub const STATUS_BUSY: u8 = 0x80;

/// READ SECTORS command.
pub const COMMAND_READ_SECTORS: u8 = 0x20;

/// WRITE SECTORS command.
pub const COMMAND_WRITE_SECTORS: u8 = 0x30;

/// IDENTIFY DEVICE command.
pub const COMMAND_IDENTIFY: u8 = 0xEC;

/// Drive-select value used before IDENTIFY DEVICE (master drive, CHS bits clear).
pub const IDENTIFY_DRIVE_SELECT: u8 = 0xA0;

/// I/O base of the disk that `init` registers.
pub const DISK_BASE_PORT: u16 = 0x170;

/// What IDENTIFY DEVICE reports of a drive.
#[derive(Debug)]
pub struct AtaDeviceInfo {
    pub name: String,
    pub serial_number: String,
    pub size: u64,
}

/// The I/O ports of an ATA drive, by number.
#[derive(Debug, Clone, Copy, PartialEq, Eq, Structural)]
pub struct AtaDevice {
    pub data_port: u16,
    pub error_port: u16,
    pub features_port: u16,
    pub sector_count_port: u16,
    pub lba_low_port: u16,
    pub lba_mid_port: u16,
    pub lba_high_port: u16,
    pub device_port: u16,
    pub status_port: u16,
    pub command_port: u16,
    pub control_port: u16,
    pub alt_status_port: u16,
}

/// One step of port I/O that a driver operation asks for.
#[derive(Debug, Clone, Copy, PartialEq, Eq, Structural)]
pub enum PortCommand {
    /// Read the status register at `status_port` until its busy bit is clear.
    WaitWhileBusy { status_port: u16 },
    /// Write `value` to the 8-bit register at `port`.
    WriteByte { port: u16, value: u8 },
    /// Read `count` 16-bit words from `port`.
    ReadWords { port: u16, count: usize },
    /// Write the program's `words` to `port`, `count` of them.
    WriteWords { port: u16, count: usize },
}

/// A sequence of port operations and the data words that its writes send.
pub struct PortProgram {
    pub commands: Vec<PortCommand>,
    pub words: Vec<u16>,
}

/// The ports of a drive whose command block starts at `base`; the control block is
/// at `base + 0xC`.
pub open spec fn ata_ports(base: u16) -> AtaDevice {
    AtaDevice {
        data_port: base,
        error_port: (base + 1) as u16,
        features_port: (base + 1) as u16,
        sector_count_port: (base + 2) as u16,
        lba_low_port: (base + 3) as u16,
        lba_mid_port: (base + 4) as u16,
        lba_high_port: (base + 5) as u16,
        device_port: (base + 6) as u16,
        status_port: (base + 7) as u16,
        command_port: (base + 7) as u16,
        control_port: (base + 0xC) as u16,
        alt_status_port: (base + 0xC) as u16,
    }
}

/// Drive/head register for an LBA28 access: LBA mode on the master drive, with bits 24..28
/// of the address in the low nibble.
pub open spec fn lba_drive_select(lba: u64) -> u8 {
    (0xE0 + (lba / 0x100_0000) % 16) as u8
}

/// Bits 0..8 of the address.
pub open spec fn lba_low(lba: u64) -> u8 {
    (lba % 0x100) as u8
}

/// Bits 8..16 of the address.
pub open spec fn lba_mid(lba: u64) -> u8 {
    ((lba / 0x100) % 0x100) as u8
}

/// Bits 16..24 of the address.
pub open spec fn lba_high(lba: u64) -> u8 {
    ((lba / 0x1_0000) % 0x100) as u8
}

/// The register writes that issue `command` for the one sector at `lba`.
pub open spec fn command_writes(d: AtaDevice, lba: u64, command: u8) -> Seq<PortCommand> {
    seq![
        PortCommand::WriteByte { port: d.device_port, value: lba_drive_select(lba) },
        PortCommand::WriteByte { port: d.sector_count_port, value: 1 },
        PortCommand::WriteByte { port: d.lba_low_port, value: lba_low(lba) },
        PortCommand::WriteByte { port: d.lba_mid_port, value: lba_mid(lba) },
        PortCommand::WriteByte { port: d.lba_high_port, value: lba_high(lba) },
        PortCommand::WriteByte { port: d.command_port, value: command },
    ]
}

/// A one-sector transfer: wait until the drive is idle, issue the command, wait again,
/// then move the sector's data.
pub open spec fn sector_program(d: AtaDevice, lba: u64, command: u8, data: PortCommand) -> Seq<
    PortCommand,
> {
    seq![PortCommand::WaitWhileBusy { status_port: d.status_port }] + command_writes(d, lba, command)
        + seq![PortCommand::WaitWhileBusy { status_port: d.status_port }, data]
}

/// IDENTIFY DEVICE: wait, select the master drive, send the command, wait, read 256 words.
pub open spec fn identify_program(d: AtaDevice) -> Seq<PortCommand> {
    seq![
        PortCommand::WaitWhileBusy { status_port: d.status_port },
        PortCommand::WriteByte { port: d.device_port, value: IDENTIFY_DRIVE_SELECT },
        PortCommand::WriteByte { port: d.command_port, value: COMMAND_IDENTIFY },
        PortCommand::WaitWhileBusy { status_port: d.status_port },
        PortCommand::ReadWords { port: d.data_port, count: SECTOR_WORDS },
    ]
}

/// The 256 data words that carry the first 512 bytes of `bytes`: each word holds a byte
/// pair, the first byte in its low half.
pub open spec fn sector_words(bytes: Seq<u8>) -> Seq<u16> {
    Seq::new(
        SECTOR_WORDS as nat,
        |i: int| (bytes[2 * i] + 0x100 * bytes[2 * i + 1]) as u16,
    )
}

/// The 512 bytes carried by 256 data words, low half of each word first.
pub open spec fn sector_bytes(words: Seq<u16>) -> Seq<u8> {
    Seq::new(
        SECTOR_SIZE as nat,
        |i: int|
            if i % 2 == 0 {
                (words[i / 2] % 0x100) as u8
            } else {
                (words[i / 2] / 0x100) as u8
            },
    )
}

/// The 512 bytes of an IDENTIFY response, high half of each word first.
pub open spec fn identify_bytes(words: Seq<u16>) -> Seq<u8> {
    Seq::new(
        SECTOR_SIZE as nat,
        |i: int|
            if i % 2 == 0 {
                (words[i / 2] / 0x100) as u8
            } else {
                (words[i / 2] % 0x100) as u8
            },
    )
}

/// Number of LBA28-addressable sectors that IDENTIFY reports: words 60 (low half) and 61
/// (high half).
pub open spec fn identify_sector_count(words: Seq<u16>) -> nat {
    (words[61] as nat) * 0x1_0000 + words[60] as nat
}

/// Names what `String::from_utf8_lossy` makes of a byte sequence.
pub uninterp spec fn utf8_lossy(bytes: Seq<u8>) -> Seq<char>;

/// Calls `String::from_utf8_lossy` and takes the result as an owned `String`.
/// Trusted: its result is the one `utf8_lossy` names for the bytes, and, as the standard
/// library documents, bytes that are valid UTF-8 come back as the string they encode.
#[verifier::external_body]
fn string_from_utf8_lossy(bytes: &[u8]) -> (s: String)
    ensures
        s@ == utf8_lossy(bytes@),
        valid_utf8(bytes@) ==> s@ == decode_utf8(bytes@),
{
    String::from_utf8_lossy(bytes).into_owned()
}

/// Calls `BitField::set_bits` of the `bit_field` crate on a `u16` with the range
/// `start..end`. Trusted: the bits of `word` below `start` and from `end` up stay as they
/// are and the bits in between become `value`, as the crate's source computes with its
/// mask; the crate panics unless the range is inside the word and `value` fits into it,
/// which `requires` rules out.
#[verifier::external_body]
fn set_bits_u16(word: u16, start: usize, end: usize, value: u16) -> (r: u16)
    requires
        start < end,
        end <= 16,
        (value as nat) < pow2((end - start) as nat),
    ensures
        r as nat == (word as nat / pow2(end as nat)) * pow2(end as nat) + (value as nat) * pow2(
            start as nat,
        ) + (word as nat) % pow2(start as nat),
{
    let mut w = word;
    w.set_bits(start..end, value);
    w
}

/// Packs the byte pair `low`, `high` into one data word, low byte first, with
/// `BitField::set_bits`.
fn pack_word(low: u8, high: u8) -> (w: u16)
    ensures
        w == low + 0x100 * high,
{
    proof {
        lemma2_to64();
    }
    let w = set_bits_u16(0, 0, 8, low as u16);
    assert(w == low);
    let w2 = set_bits_u16(w, 8, 16, high as u16);
    assert(w2 == low + 0x100 * high) by {
        assert((w as nat) / 0x1_0000 == 0);
        assert((w as nat) % 0x100 == w);
    }
    w2
}

impl AtaDevice {
    /// The drive whose command block starts at I/O port `base`.
    pub fn new(base: u16) -> (d: AtaDevice)
        requires
            base <= 0xFFF3,
        ensures
            d == ata_ports(base),
    {
        AtaDevice {
            data_port: base,
            error_port: base + 1,
            features_port: base + 1,
            sector_count_port: base + 2,
            lba_low_port: base + 3,
            lba_mid_port: base + 4,
            lba_high_port: base + 5,
            device_port: base + 6,
            status_port: base + 7,
            command_port: base + 7,
            control_port: base + 0xC,
            alt_status_port: base + 0xC,
        }
    }

    /// Whether a status register value says that the drive is busy.
    pub fn is_busy(status: u8) -> (r: bool)
        ensures
            r == (status >= 0x80),
    {
        assert((status & 0x80u8 != 0) == (status >= 0x80)) by (bit_vector);
        status & STATUS_BUSY != 0
    }

    /// The register writes that issue `command` for the sector at `lba`.
    fn command_block(&self, lba: u64, command: u8, commands: &mut Vec<PortCommand>)
        ensures
            final(commands)@ == old(commands)@ + command_writes(*self, lba, command),
    {
        let drive = 0xE0u8 | ((lba >> 24u64) as u8 & 0x0Fu8);
        let low = lba as u8;
        let mid = (lba >> 8u64) as u8;
        let high = (lba >> 16u64) as u8;
        assert(drive == lba_drive_select(lba)) by (bit_vector)
            requires
                drive == 0xE0u8 | ((lba >> 24u64) as u8 & 0x0Fu8),
        ;
        assert(low == lba_low(lba)) by (bit_vector)
            requires
                low == lba as u8,
        ;
        assert(mid == lba_mid(lba)) by (bit_vector)
            requires
                mid == (lba >> 8u64) as u8,
        ;
        assert(high == lba_high(lba)) by (bit_vector)
            requires
                high == (lba >> 16u64) as u8,
        ;
        commands.push(PortCommand::WriteByte { port: self.device_port, value: drive });
        commands.push(PortCommand::WriteByte { port: self.sector_count_port, value: 1 });
        commands.push(PortCommand::WriteByte { port: self.lba_low_port, value: low });
        commands.push(PortCommand::WriteByte { port: self.lba_mid_port, value: mid });
        commands.push(PortCommand::WriteByte { port: self.lba_high_port, value: high });
        commands.push(PortCommand::WriteByte { port: self.command_port, value: command });
        proof {
            assert(final(commands)@ =~= old(commands)@ + command_writes(*self, lba, command));
        }
    }

    /// The port program of a one-sector transfer for `command`, ending in `data`.
    fn sector_transfer(&self, lba: u64, command: u8, data: PortCommand) -> (c: Vec<PortCommand>)
        ensures
            c@ == sector_program(*self, lba, command, data),
    {
        let mut commands: Vec<PortCommand> = Vec::new();
        commands.push(PortCommand::WaitWhileBusy { status_port: self.status_port });
        self.command_block(lba, command, &mut commands);
        commands.push(PortCommand::WaitWhileBusy { status_port: self.status_port });
        commands.push(data);
        proof {
            assert(commands@ =~= sector_program(*self, lba, command, data));
        }
        commands
    }

    /// IDENTIFY DEVICE: the port program; its 256 words go to `AtaDeviceInfo::from_identify`.
    pub fn identify_device(&self) -> (p: PortProgram)
        ensures
            p.commands@ == identify_program(*self),
            p.words@ == Seq::<u16>::empty(),
    {
        let mut commands: Vec<PortCommand> = Vec::new();
        commands.push(PortCommand::WaitWhileBusy { status_port: self.status_port });
        commands.push(PortCommand::WriteByte { port: self.device_port, value: IDENTIFY_DRIVE_SELECT });
        commands.push(PortCommand::WriteByte { port: self.command_port, value: COMMAND_IDENTIFY });
        commands.push(PortCommand::WaitWhileBusy { status_port: self.status_port });
        commands.push(PortCommand::ReadWords { port: self.data_port, count: SECTOR_WORDS });
        proof {
            assert(commands@ =~= identify_program(*self));
        }
        PortProgram { commands, words: Vec::new() }
    }

    /// Reading the sector at `lba`: the port program; its 256 words go to `decode_sector`.
    pub fn read_sector(&self, lba: u64) -> (p: PortProgram)
        ensures
            p.commands@ == sector_program(
                *self,
                lba,
                COMMAND_READ_SECTORS,
                PortCommand::ReadWords { port: self.data_port, count: SECTOR_WORDS },
            ),
            p.words@ == Seq::<u16>::empty(),
    {
        let commands = self.sector_transfer(
            lba,
            COMMAND_READ_SECTORS,
            PortCommand::ReadWords { port: self.data_port, count: SECTOR_WORDS },
        );
        PortProgram { commands, words: Vec::new() }
    }

    /// Writing the first 512 bytes of `buf` to the sector at `lba`: the port program and
    /// the 256 words it sends.
    pub fn write_sector(&self, lba: u64, buf: &[u8]) -> (p: PortProgram)
        requires
            buf@.len() >= SECTOR_SIZE,
        ensures
            p.commands@ == sector_program(
                *self,
                lba,
                COMMAND_WRITE_SECTORS,
                PortCommand::WriteWords { port: self.data_port, count: SECTOR_WORDS },
            ),
            p.words@ == sector_words(buf@),
    {
        let commands = self.sector_transfer(
            lba,
            COMMAND_WRITE_SECTORS,
            PortCommand::WriteWords { port: self.data_port, count: SECTOR_WORDS },
        );
        let words = encode_sector(buf);
        PortProgram { commands, words }
    }
}

/// The 256 data words that send the first 512 bytes of `buf`.
pub fn encode_sector(buf: &[u8]) -> (words: Vec<u16>)
    requires
        buf@.len() >= SECTOR_SIZE,
    ensures
        words@ == sector_words(buf@),
{
    let mut words: Vec<u16> = Vec::new();
    let mut i: usize = 0;
    while i < SECTOR_WORDS
        invariant
            0 <= i <= SECTOR_WORDS,
            buf@.len() >= SECTOR_SIZE,
            words@.len() == i,
            forall|j: int| 0 <= j < i ==> #[trigger] words@[j] == sector_words(buf@)[j],
        decreases SECTOR_WORDS - i,
    {
        let w = pack_word(buf[i * 2], buf[i * 2 + 1]);
        words.push(w);
        i = i + 1;
    }
    proof {
        assert(words@ =~= sector_words(buf@));
    }
    words
}

/// Stores the 256 words read from the data port into the first 512 bytes of `buf`, low
/// byte of each word first; the rest of `buf` stays as it is.
pub fn decode_sector(words: &[u16], buf: &mut [u8])
    requires
        words@.len() == SECTOR_WORDS,
        old(buf)@.len() >= SECTOR_SIZE,
    ensures
        final(buf)@ == sector_bytes(words@) + old(buf)@.subrange(
            SECTOR_SIZE as int,
            old(buf)@.len() as int,
        ),
{
    let ghost original = buf@;
    let mut i: usize = 0;
    while i < SECTOR_WORDS
        invariant
            0 <= i <= SECTOR_WORDS,
            words@.len() == SECTOR_WORDS,
            buf@.len() == original.len(),
            original.len() >= SECTOR_SIZE,
            forall|j: int| 0 <= j < 2 * i ==> #[trigger] buf@[j] == sector_bytes(words@)[j],
            forall|j: int| 2 * i <= j < buf@.len() ==> #[trigger] buf@[j] == original[j],
        decreases SECTOR_WORDS - i,
    {
        let data = words[i];
        let low = data as u8;
        let high = (data >> 8u16) as u8;
        assert(low == data % 0x100 && high == data / 0x100) by (bit_vector)
            requires
                low == data as u8,
                high == (data >> 8u16) as u8,
        ;
        buf[i * 2] = low;
        buf[i * 2 + 1] = high;
        i = i + 1;
    }
    proof {
        assert(buf@ =~= sector_bytes(words@) + original.subrange(
            SECTOR_SIZE as int,
            original.len() as int,
        ));
    }
}

/// The big-endian byte image of an IDENTIFY response.
fn identify_image(words: &[u16]) -> (buf: Vec<u8>)
    requires
        words@.len() == SECTOR_WORDS,
    ensures
        buf@ == identify_bytes(words@),
{
    let mut buf: Vec<u8> = Vec::new();
    let mut i: usize = 0;
    while i < SECTOR_WORDS
        invariant
            0 <= i <= SECTOR_WORDS,
            words@.len() == SECTOR_WORDS,
            buf@.len() == 2 * i,
            forall|j: int| 0 <= j < 2 * i ==> #[trigger] buf@[j] == identify_bytes(words@)[j],
        decreases SECTOR_WORDS - i,
    {
        let short = words[i];
        let first = (short >> 8u16) as u8;
        let second = short as u8;
        assert(first == short / 0x100 && second == short % 0x100) by (bit_vector)
            requires
                first == (short >> 8u16) as u8,
                second == short as u8,
        ;
        buf.push(first);
        buf.push(second);
        i = i + 1;
    }
    proof {
        assert(buf@ =~= identify_bytes(words@));
    }
    buf
}

impl AtaDeviceInfo {
    /// What the 256 words of an IDENTIFY DEVICE response say of the drive: model name
    /// (bytes 54..94), serial number (bytes 20..40) and size in bytes; a drive that
    /// reports no sectors is "No Device". Text fields that are valid UTF-8 come back as the
    /// text they encode; other bytes are decoded lossily.
    pub fn from_identify(words: &[u16]) -> (info: AtaDeviceInfo)
        requires
            words@.len() == SECTOR_WORDS,
        ensures
            ({
                let sectors = identify_sector_count(words@);
                let bytes = identify_bytes(words@);
                if sectors == 0 {
                    &&& info.name@ == "No Device"@
                    &&& info.serial_number@ == Seq::<char>::empty()
                    &&& info.size == 0
                } else {
                    &&& info.name@ == utf8_lossy(bytes.subrange(54, 94))
                    &&& info.serial_number@ == utf8_lossy(bytes.subrange(20, 40))
                    &&& valid_utf8(bytes.subrange(54, 94)) ==> info.name@ == decode_utf8(
                        bytes.subrange(54, 94),
                    )
                    &&& valid_utf8(bytes.subrange(20, 40)) ==> info.serial_number@ == decode_utf8(
                        bytes.subrange(20, 40),
                    )
                    &&& info.size == sectors * SECTOR_SIZE
                }
            }),
    {
        let buf = identify_image(words);
        let name = string_from_utf8_lossy(&buf.as_slice()[54..94]);
        let serial_number = string_from_utf8_lossy(&buf.as_slice()[20..40]);
        let b0 = buf[120];
        let b1 = buf[121];
        let b2 = buf[122];
        let b3 = buf[123];
        let big_endian: u32 = (b0 as u32) << 24u32 | (b1 as u32) << 16u32 | (b2 as u32) << 8u32
            | (b3 as u32);
        let sectors: u32 = big_endian << 16u32 | big_endian >> 16u32;
        proof {
            let w60 = words@[60];
            let w61 = words@[61];
            assert(b0 == w60 / 0x100 && b1 == w60 % 0x100 && b2 == w61 / 0x100 && b3 == w61
                % 0x100);
            assert(sectors == w61 * 0x1_0000 + w60) by (bit_vector)
                requires
                    b0 == w60 / 0x100,
                    b1 == w60 % 0x100,
                    b2 == w61 / 0x100,
                    b3 == w61 % 0x100,
                    big_endian == (b0 as u32) << 24u32 | (b1 as u32) << 16u32 | (b2 as u32)
                        << 8u32 | (b3 as u32),
                    sectors == big_endian << 16u32 | big_endian >> 16u32,
            ;
        }
        if sectors == 0 {
            return AtaDeviceInfo {
                name: "No Device".to_owned(),
                serial_number: String::new(),
                size: 0,
            };
        }
        AtaDeviceInfo { name, serial_number, size: (sectors as u64) * 512 }
    }
}

/// Registers the disk at `DISK_BASE_PORT` after the disks already known.
pub fn init(disks: &mut Vec<AtaDevice>)
    ensures
        final(disks)@ == old(disks)@.push(ata_ports(DISK_BASE_PORT)),
{
    disks.push(AtaDevice::new(DISK_BASE_PORT));
}

/// Reading the sector at `lba` from the first registered disk.
pub fn read_sector(disks: &Vec<AtaDevice>, lba: u64) -> (p: PortProgram)
    requires
        disks@.len() > 0,
    ensures
        p.commands@ == sector_program(
            disks@[0],
            lba,
            COMMAND_READ_SECTORS,
            PortCommand::ReadWords { port: disks@[0].data_port, count: SECTOR_WORDS },
        ),
        p.words@ == Seq::<u16>::empty(),
{
    disks[0].read_sector(lba)
}

/// Writing the first 512 bytes of `buf` to the sector at `lba` of the first registered disk.
pub fn write_sector(disks: &Vec<AtaDevice>, lba: u64, buf: &[u8]) -> (p: PortProgram)
    requires
        disks@.len() > 0,
        buf@.len() >= SECTOR_SIZE,
    ensures
        p.commands@ == sector_program(
            disks@[0],
            lba,
            COMMAND_WRITE_SECTORS,
            PortCommand::WriteWords { port: disks@[0].data_port, count: SECTOR_WORDS },
        ),
        p.words@ == sector_words(buf@),
{
    disks[0].write_sector(lba, buf)
}

/// The drive/head and address registers of a command carry the low 28 bits of the sector
/// address, with LBA mode selected on the master drive.
pub proof fn lemma_lba_registers_carry_address(lba: u64)
    ensures
        lba_low(lba) + 0x100 * lba_mid(lba) + 0x1_0000 * lba_high(lba) + 0x100_0000 * (
        lba_drive_select(lba) % 16) == lba % 0x1000_0000,
        lba_drive_select(lba) / 16 == 0xE,
{
    assert(((lba % 0x100) as u8) + 0x100 * (((lba / 0x100) % 0x100) as u8) + 0x1_0000 * (((lba
        / 0x1_0000) % 0x100) as u8) + 0x100_0000 * (((0xE0 + (lba / 0x100_0000) % 16) as u8) % 16)
        == lba % 0x1000_0000) by (bit_vector);
    assert(((0xE0 + (lba / 0x100_0000) % 16) as u8) / 16 == 0xE) by (bit_vector);
}

/// The words that write a sector read back as the sector's bytes.
pub proof fn lemma_sector_words_round_trip(bytes: Seq<u8>)
    requires
        bytes.len() >= SECTOR_SIZE,
    ensures
        sector_bytes(sector_words(bytes)) == bytes.subrange(0, SECTOR_SIZE as int),
{
    let w = sector_words(bytes);
    assert forall|i: int| 0 <= i < SECTOR_SIZE implies #[trigger] sector_bytes(w)[i] == bytes[i] by {
        let k = i / 2;
        let a = bytes[2 * k];
        let b = bytes[2 * k + 1];
        assert(((a + 0x100 * b) as u16) % 0x100 == a && ((a + 0x100 * b) as u16) / 0x100 == b)
            by (bit_vector);
    }
    assert(sector_bytes(w) =~= bytes.subrange(0, SECTOR_SIZE as int));
}

/// The bytes read from a sector, written back, send the same words.
pub proof fn lemma_sector_bytes_round_trip(words: Seq<u16>)
    requires
        words.len() == SECTOR_WORDS,
    ensures
        sector_words(sector_bytes(words)) == words,
{
    let b = sector_bytes(words);
    assert forall|i: int| 0 <= i < SECTOR_WORDS implies #[trigger] sector_words(b)[i] == words[i] by {
        let w = words[i];
        assert(b[2 * i] == (w % 0x100) as u8);
        assert(b[2 * i + 1] == (w / 0x100) as u8);
        assert((((w % 0x100) as u8) + 0x100 * ((w / 0x100) as u8)) as u16 == w) by (bit_vector);
    }
    assert(sector_words(b) =~= words);
}

/// A one-sector command has nine steps: wait until the drive is idle; select LBA mode on the
/// master drive (high nibble 0xE) with bits 24..28 of the address in the low nibble; ask for
/// one sector; write bits 0..8, 8..16 and 16..24 of the address; send the command; wait; move
/// the data. Only the command byte and the data step depend on which command it is.
pub proof fn lemma_sector_program_steps(d: AtaDevice, lba: u64, command: u8, data: PortCommand)
    ensures
        ({
            let p = sector_program(d, lba, command, data);
            &&& p.len() == 9
            &&& p[0] == (PortCommand::WaitWhileBusy { status_port: d.status_port })
            &&& p[1] is WriteByte
            &&& p[1]->WriteByte_port == d.device_port
            &&& p[1]->WriteByte_value / 16 == 0xE
            &&& p[1]->WriteByte_value % 16 == (lba / 0x100_0000) % 16
            &&& p[2] == (PortCommand::WriteByte { port: d.sector_count_port, value: 1 })
            &&& p[3] is WriteByte
            &&& p[3]->WriteByte_port == d.lba_low_port
            &&& p[3]->WriteByte_value == lba % 0x100
            &&& p[4] is WriteByte
            &&& p[4]->WriteByte_port == d.lba_mid_port
            &&& p[4]->WriteByte_value == (lba / 0x100) % 0x100
            &&& p[5] is WriteByte
            &&& p[5]->WriteByte_port == d.lba_high_port
            &&& p[5]->WriteByte_value == (lba / 0x1_0000) % 0x100
            &&& p[6] == (PortCommand::WriteByte { port: d.command_port, value: command })
            &&& p[7] == (PortCommand::WaitWhileBusy { status_port: d.status_port })
            &&& p[8] == data
        }),
{
    let p = sector_program(d, lba, command, data);
    assert(((0xE0 + (lba / 0x100_0000) % 16) as u8) / 16 == 0xE) by (bit_vector);
    assert(((0xE0 + (lba / 0x100_0000) % 16) as u8) % 16 == (lba / 0x100_0000) % 16) by (bit_vector);
    assert(p[1] == command_writes(d, lba, command)[0]);
    assert(p[3] == command_writes(d, lba, command)[2]);
    assert(p[4] == command_writes(d, lba, command)[3]);
    assert(p[5] == command_writes(d, lba, command)[4]);
}

/// Reading and writing the same sector issue the same register writes, apart from the
/// command byte, and the same waits.
pub proof fn lemma_read_and_write_select_alike(
    d: AtaDevice,
    lba: u64,
    c1: u8,
    c2: u8,
    data1: PortCommand,
    data2: PortCommand,
)
    ensures
        forall|i: int|
            0 <= i < 8 && i != 6 ==> #[trigger] sector_program(d, lba, c1, data1)[i] == sector_program(
                d,
                lba,
                c2,
                data2,
            )[i],
{
    lemma_sector_program_steps(d, lba, c1, data1);
    lemma_sector_program_steps(d, lba, c2, data2);
    let p1 = sector_program(d, lba, c1, data1);
    let p2 = sector_program(d, lba, c2, data2);
    assert(p1[1] == p2[1]);
    assert(p1[3] == p2[3]);
    assert(p1[4] == p2[4]);
    assert(p1[5] == p2[5]);
}

/// The data words of a sector put each byte pair in one word, the earlier byte in the low
/// half: word i is byte 2i plus 256 times byte 2i+1, for every word of the sector.
pub proof fn lemma_sector_words_layout(bytes: Seq<u8>)
    requires
        bytes.len() >= SECTOR_SIZE,
    ensures
        sector_words(bytes).len() == 256,
        forall|i: int|
            0 <= i < 256 ==> #[trigger] sector_words(bytes)[i] as int == bytes[2 * i] as int + 256
                * bytes[2 * i + 1] as int,
{
    assert forall|i: int| 0 <= i < 256 implies #[trigger] sector_words(bytes)[i] as int == bytes[2
        * i] as int + 256 * bytes[2 * i + 1] as int by {
        let a = bytes[2 * i];
        let b = bytes[2 * i + 1];
        assert(((a + 0x100 * b) as u16) as int == a as int + 256 * b as int) by (bit_vector);
    }
}

/// The bytes of a sector read as data words come low half first: byte 2i is word i modulo
/// 256 and byte 2i+1 is word i divided by 256, for every word of the sector.
pub proof fn lemma_sector_bytes_layout(words: Seq<u16>)
    requires
        words.len() == SECTOR_WORDS,
    ensures
        sector_bytes(words).len() == 512,
        forall|i: int|
            0 <= i < 256 ==> #[trigger] sector_bytes(words)[2 * i] == words[i] % 256 && sector_bytes(
                words,
            )[2 * i + 1] == words[i] / 256,
{
    assert forall|i: int| 0 <= i < 256 implies #[trigger] sector_bytes(words)[2 * i] == words[i] % 256
        && sector_bytes(words)[2 * i + 1] == words[i] / 256 by {
        assert((2 * i) % 2 == 0 && (2 * i) / 2 == i);
        assert((2 * i + 1) % 2 == 1 && (2 * i + 1) / 2 == i);
    }
}

/// The bytes of an IDENTIFY response come high half first: byte 2i is word i divided by 256
/// and byte 2i+1 is word i modulo 256.
pub proof fn lemma_identify_bytes_layout(words: Seq<u16>)
    requires
        words.len() == SECTOR_WORDS,
    ensures
        identify_bytes(words).len() == 512,
        forall|i: int|
            0 <= i < 256 ==> #[trigger] identify_bytes(words)[2 * i] == words[i] / 256
                && identify_bytes(words)[2 * i + 1] == words[i] % 256,
{
    assert forall|i: int| 0 <= i < 256 implies #[trigger] identify_bytes(words)[2 * i] == words[i]
        / 256 && identify_bytes(words)[2 * i + 1] == words[i] % 256 by {
        assert((2 * i) % 2 == 0 && (2 * i) / 2 == i);
        assert((2 * i + 1) % 2 == 1 && (2 * i + 1) / 2 == i);
    }
}

/// The ports of a drive lie at fixed offsets from its base: data at +0, error and features
/// at +1, sector count at +2, the address at +3..+5, drive/head at +6, status and command at
/// +7, and control and alternate status at +0xC.
pub proof fn lemma_ata_port_layout(base: u16)
    requires
        base <= 0xFFF3,
    ensures
        ata_ports(base).data_port == base,
        ata_ports(base).error_port == base + 1,
        ata_ports(base).features_port == base + 1,
        ata_ports(base).sector_count_port == base + 2,
        ata_ports(base).lba_low_port == base + 3,
        ata_ports(base).lba_mid_port == base + 4,
        ata_ports(base).lba_high_port == base + 5,
        ata_ports(base).device_port == base + 6,
        ata_ports(base).status_port == base + 7,
        ata_ports(base).command_port == base + 7,
        ata_ports(base).control_port == base + 12,
        ata_ports(base).alt_status_port == base + 12,
{
}

/// The ATA command codes: READ SECTORS is 0x20, WRITE SECTORS 0x30, IDENTIFY DEVICE 0xEC,
/// and the busy bit of the status register is bit 7.
pub proof fn lemma_ata_command_codes()
    ensures
        COMMAND_READ_SECTORS == 0x20,
        COMMAND_WRITE_SECTORS == 0x30,
        COMMAND_IDENTIFY == 0xEC,
        IDENTIFY_DRIVE_SELECT == 0xA0,
        STATUS_BUSY == 0x80,
        DISK_BASE_PORT == 0x170,
{
}

/// IDENTIFY DEVICE waits, selects the master drive with 0xA0, sends 0xEC, waits, and reads
/// 256 words from the data port.
pub proof fn lemma_identify_program_steps(d: AtaDevice)
    ensures
        ({
            let p = identify_program(d);
            &&& p.len() == 5
            &&& p[0] == (PortCommand::WaitWhileBusy { status_port: d.status_port })
            &&& p[1] == (PortCommand::WriteByte { port: d.device_port, value: 0xA0 })
            &&& p[2] == (PortCommand::WriteByte { port: d.command_port, value: 0xEC })
            &&& p[3] == (PortCommand::WaitWhileBusy { status_port: d.status_port })
            &&& p[4] == (PortCommand::ReadWords { port: d.data_port, count: 256 })
        }),
{
}

/// The sector count of an IDENTIFY response, read from its bytes 120..124: bytes 122 and 123
/// are the high half and bytes 120 and 121 the low half, each pair high byte first.
pub proof fn lemma_identify_sector_count_bytes(words: Seq<u16>)
    requires
        words.len() == SECTOR_WORDS,
    ensures
        ({
            let b = identify_bytes(words);
            identify_sector_count(words) == b[122] * 0x100_0000 + b[123] * 0x1_0000 + b[120] * 0x100
                + b[121]
        }),
{
    lemma_identify_bytes_layout(words);
    let b = identify_bytes(words);
    assert(b[120] == words[60] / 256 && b[121] == words[60] % 256);
    assert(b[122] == words[61] / 256 && b[123] == words[61] % 256);
    let w60 = words[60];
    let w61 = words[61];
    assert((w61 / 256) * 0x100_0000 + (w61 % 256) * 0x1_0000 + (w60 / 256) * 0x100 + w60 % 256
        == w61 * 0x1_0000 + w60) by (bit_vector);
}

} // verus!
