# fhos

The verified core of a small x86_64 hobby kernel: the ATA disk driver, the byte- and
block-level views of the disk that the FAT layer uses, and the VGA text-mode writer.

- `src/drivers/disk/ata.rs` builds the port programs for IDENTIFY DEVICE and one-sector
  reads and writes, packs and unpacks sector data words, and parses IDENTIFY responses.
- `src/fs/blockdevice.rs` is the positioned, byte-addressed disk: seeking, and reading and
  writing across sector boundaries given the sectors a transfer spans.
- `src/fs/block_device.rs` is whole-block access to the disk.
- `src/vga.rs` is the text-mode writer: cursor, wrapping, scrolling and colours.
- `app/` performs the port I/O, mirrors the screen into video memory, opens the FAT
  volume and runs the WebAssembly test program.
