use fhos::drivers::disk::ata::{
    self, decode_sector, encode_sector, AtaDevice, AtaDeviceInfo, PortCommand, SECTOR_WORDS,
};

fn disk() -> AtaDevice {
    AtaDevice::new(0x170)
}

#[test]
fn new_lays_out_the_ports_from_the_base() {
    let d = AtaDevice::new(0x1F0);
    assert_eq!(d.data_port, 0x1F0);
    assert_eq!(d.error_port, 0x1F1);
    assert_eq!(d.features_port, 0x1F1);
    assert_eq!(d.sector_count_port, 0x1F2);
    assert_eq!(d.lba_low_port, 0x1F3);
    assert_eq!(d.lba_mid_port, 0x1F4);
    assert_eq!(d.lba_high_port, 0x1F5);
    assert_eq!(d.device_port, 0x1F6);
    assert_eq!(d.status_port, 0x1F7);
    assert_eq!(d.command_port, 0x1F7);
    assert_eq!(d.control_port, 0x1FC);
    assert_eq!(d.alt_status_port, 0x1FC);
}

#[test]
fn new_at_highest_base() {
    let d = AtaDevice::new(0xFFF3);
    assert_eq!(d.control_port, 0xFFFF);
}

#[test]
fn busy_bit_is_the_top_bit() {
    assert!(AtaDevice::is_busy(0x80));
    assert!(AtaDevice::is_busy(0xD0));
    assert!(AtaDevice::is_busy(0xFF));
    assert!(!AtaDevice::is_busy(0x7F));
    assert!(!AtaDevice::is_busy(0x58));
    assert!(!AtaDevice::is_busy(0x00));
}

#[test]
fn read_sector_program_issues_lba28_read() {
    let d = disk();
    let p = d.read_sector(0x0123_4567);
    assert_eq!(
        p.commands,
        vec![
            PortCommand::WaitWhileBusy { status_port: 0x177 },
            PortCommand::WriteByte { port: 0x176, value: 0xE1 },
            PortCommand::WriteByte { port: 0x172, value: 1 },
            PortCommand::WriteByte { port: 0x173, value: 0x67 },
            PortCommand::WriteByte { port: 0x174, value: 0x45 },
            PortCommand::WriteByte { port: 0x175, value: 0x23 },
            PortCommand::WriteByte { port: 0x177, value: 0x20 },
            PortCommand::WaitWhileBusy { status_port: 0x177 },
            PortCommand::ReadWords { port: 0x170, count: 256 },
        ]
    );
    assert!(p.words.is_empty());
}

#[test]
fn drive_select_keeps_only_four_address_bits() {
    let d = disk();
    let p = d.read_sector(0xFFFF_FFFF_FFFF_FFFF);
    assert_eq!(p.commands[1], PortCommand::WriteByte { port: 0x176, value: 0xEF });
    let p = d.read_sector(0x1000_0000);
    assert_eq!(p.commands[1], PortCommand::WriteByte { port: 0x176, value: 0xE0 });
    assert_eq!(p.commands[3], PortCommand::WriteByte { port: 0x173, value: 0 });
}

#[test]
fn lba_registers_carry_the_address() {
    let d = disk();
    let lba: u64 = 0x0ABC_DEF1;
    let p = d.read_sector(lba);
    let value = |i: usize| match p.commands[i] {
        PortCommand::WriteByte { value, .. } => value as u64,
        _ => panic!("not a register write"),
    };
    let rebuilt = value(3) | value(4) << 8 | value(5) << 16 | (value(1) & 0x0F) << 24;
    assert_eq!(rebuilt, lba);
    assert_eq!(value(1) >> 4, 0xE);
}

#[test]
fn write_sector_program_sends_the_sector() {
    let d = disk();
    let mut buf = vec![0u8; 600];
    for i in 0..600 {
        buf[i] = (i % 251) as u8;
    }
    let p = d.write_sector(7, &buf);
    assert_eq!(p.commands.len(), 9);
    assert_eq!(p.commands[6], PortCommand::WriteByte { port: 0x177, value: 0x30 });
    assert_eq!(p.commands[8], PortCommand::WriteWords { port: 0x170, count: 256 });
    assert_eq!(p.commands[3], PortCommand::WriteByte { port: 0x173, value: 7 });
    assert_eq!(p.words.len(), SECTOR_WORDS);
    assert_eq!(p.words[0], 0x0100);
    assert_eq!(p.words[1], 0x0302);
    assert_eq!(p.words[255], ((511 % 251) as u16) << 8 | (510 % 251) as u16);
}

#[test]
fn encode_packs_low_byte_first() {
    let mut buf = vec![0u8; 512];
    buf[0] = 0x34;
    buf[1] = 0x12;
    buf[510] = 0xFF;
    buf[511] = 0x80;
    let words = encode_sector(&buf);
    assert_eq!(words.len(), 256);
    assert_eq!(words[0], 0x1234);
    assert_eq!(words[1], 0);
    assert_eq!(words[255], 0x80FF);
}

#[test]
fn decode_stores_low_byte_first_and_keeps_the_rest() {
    let mut words = vec![0u16; 256];
    words[0] = 0xBEEF;
    words[255] = 0x0102;
    let mut buf = vec![0xAAu8; 520];
    decode_sector(&words, &mut buf);
    assert_eq!(buf[0], 0xEF);
    assert_eq!(buf[1], 0xBE);
    assert_eq!(buf[2], 0);
    assert_eq!(buf[510], 0x02);
    assert_eq!(buf[511], 0x01);
    assert_eq!(&buf[512..], &[0xAAu8; 8]);
}

#[test]
fn sector_written_then_read_gives_back_the_bytes() {
    let mut buf = vec![0u8; 512];
    for i in 0..512 {
        buf[i] = (i * 7 % 256) as u8;
    }
    let words = encode_sector(&buf);
    let mut back = vec![0u8; 512];
    decode_sector(&words, &mut back);
    assert_eq!(back, buf);
}

#[test]
fn identify_program_selects_master_and_identifies() {
    let d = disk();
    let p = d.identify_device();
    assert_eq!(
        p.commands,
        vec![
            PortCommand::WaitWhileBusy { status_port: 0x177 },
            PortCommand::WriteByte { port: 0x176, value: 0xA0 },
            PortCommand::WriteByte { port: 0x177, value: 0xEC },
            PortCommand::WaitWhileBusy { status_port: 0x177 },
            PortCommand::ReadWords { port: 0x170, count: 256 },
        ]
    );
}

fn put_string(words: &mut [u16], first_word: usize, text: &[u8]) {
    for (k, pair) in text.chunks(2).enumerate() {
        let hi = pair[0] as u16;
        let lo = if pair.len() > 1 { pair[1] as u16 } else { 0x20 };
        words[first_word + k] = hi << 8 | lo;
    }
}

#[test]
fn identify_reads_name_serial_and_size() {
    let mut words = vec![0x2020u16; 256];
    put_string(&mut words, 27, b"QEMU HARDDISK                           ");
    put_string(&mut words, 10, b"QM00001             ");
    words[60] = 0x0800;
    words[61] = 0x0001;
    let info: AtaDeviceInfo = AtaDeviceInfo::from_identify(&words);
    assert_eq!(info.name, "QEMU HARDDISK                           ");
    assert_eq!(info.serial_number, "QM00001             ");
    assert_eq!(info.size, 0x0001_0800u64 * 512);
}

#[test]
fn identify_without_sectors_is_no_device() {
    let mut words = vec![0x4142u16; 256];
    words[60] = 0;
    words[61] = 0;
    let info = AtaDeviceInfo::from_identify(&words);
    assert_eq!(info.name, "No Device");
    assert_eq!(info.serial_number, "");
    assert_eq!(info.size, 0);
}

#[test]
fn identify_largest_lba28_count() {
    let mut words = vec![0u16; 256];
    words[60] = 0xFFFF;
    words[61] = 0xFFFF;
    let info = AtaDeviceInfo::from_identify(&words);
    assert_eq!(info.size, 0xFFFF_FFFFu64 * 512);
}

#[test]
fn identify_replaces_invalid_utf8() {
    let mut words = vec![0x2020u16; 256];
    words[27] = 0xFF41;
    words[61] = 1;
    let info = AtaDeviceInfo::from_identify(&words);
    assert!(info.name.starts_with("\u{FFFD}A"));
    assert_eq!(info.name.chars().count(), 40);
}

#[test]
fn init_registers_the_disk_at_0x170() {
    let mut disks = Vec::new();
    ata::init(&mut disks);
    assert_eq!(disks, vec![AtaDevice::new(0x170)]);
    ata::init(&mut disks);
    assert_eq!(disks.len(), 2);
}

#[test]
fn sector_access_goes_to_the_first_disk() {
    let mut disks = vec![AtaDevice::new(0x1F0)];
    ata::init(&mut disks);
    let p = ata::read_sector(&disks, 3);
    assert_eq!(p.commands, disks[0].read_sector(3).commands);
    assert_eq!(p.commands[8], PortCommand::ReadWords { port: 0x1F0, count: 256 });
    let buf = vec![9u8; 512];
    let w = ata::write_sector(&disks, 3, &buf);
    assert_eq!(w.commands, disks[0].write_sector(3, &buf).commands);
    assert_eq!(w.words, vec![0x0909u16; 256]);
}
