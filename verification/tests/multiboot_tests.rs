use multiboot::MemoryArea;
use multiboot::MemoryAreaType;
use multiboot::Multiboot;
use multiboot::reader::ByteReader;

fn push_u32(buf: &mut Vec<u8>, v: u32) {
    buf.push((v & 0xff) as u8);
    buf.push(((v >> 8) & 0xff) as u8);
    buf.push(((v >> 16) & 0xff) as u8);
    buf.push(((v >> 24) & 0xff) as u8);
}

fn push_u64(buf: &mut Vec<u8>, v: u64) {
    push_u32(buf, (v & 0xffff_ffff) as u32);
    push_u32(buf, (v >> 32) as u32);
}

/// Appends one tag (type, declared length, body), padding to the next
/// 8-byte boundary.
fn push_tag(buf: &mut Vec<u8>, kind: u32, body: &[u8]) {
    let size = 8 + body.len() as u32;
    push_u32(buf, kind);
    push_u32(buf, size);
    buf.extend_from_slice(body);
    while buf.len() % 8 != 0 {
        buf.push(0);
    }
}

/// The body of a memory-map tag: entry size, version 0, then each entry's
/// four fields padded out to the declared entry size.
fn mmap_body(entry_size: u32, entries: &[(u64, u64, u32, u32)]) -> Vec<u8> {
    let mut body = Vec::new();
    push_u32(&mut body, entry_size);
    push_u32(&mut body, 0);
    for &(base, length, kind, reserved) in entries {
        let start = body.len();
        push_u64(&mut body, base);
        push_u64(&mut body, length);
        push_u32(&mut body, kind);
        push_u32(&mut body, reserved);
        while body.len() - start < entry_size as usize {
            body.push(0);
        }
    }
    body
}

/// A whole structure: the 8-byte header (with the real total size), the
/// given tags, and the terminator tag.
fn structure(tags: &[(u32, Vec<u8>)]) -> Vec<u8> {
    let mut buf = Vec::new();
    push_u32(&mut buf, 0); // total size, patched below
    push_u32(&mut buf, 0); // reserved
    for (kind, body) in tags {
        push_tag(&mut buf, *kind, body);
    }
    push_tag(&mut buf, 0, &[]);
    let total = buf.len() as u32;
    buf[0] = (total & 0xff) as u8;
    buf[1] = ((total >> 8) & 0xff) as u8;
    buf[2] = ((total >> 16) & 0xff) as u8;
    buf[3] = ((total >> 24) & 0xff) as u8;
    buf
}

#[test]
fn reader_reads_little_endian() {
    let buf: Vec<u8> = vec![0x78, 0x56, 0x34, 0x12, 0xef, 0xcd, 0xab, 0x89, 0x01, 0x00, 0x00, 0x00];
    let mut r = ByteReader::new(&buf);
    assert_eq!(r.position(), 0);
    assert_eq!(r.read_u32(), 0x12345678);
    assert_eq!(r.position(), 4);
    assert_eq!(r.read_u32(), 0x89abcdef);
    assert_eq!(r.read_u8(), 0x01);
    assert_eq!(r.position(), 9);
}

#[test]
fn reader_reads_u64() {
    let buf: Vec<u8> = vec![0x11, 0x22, 0x33, 0x44, 0x55, 0x66, 0x77, 0x88];
    let mut r = ByteReader::new(&buf);
    assert_eq!(r.read_u64(), 0x8877665544332211);
    assert_eq!(r.position(), 8);
}

#[test]
fn reader_skip_and_align() {
    let buf: Vec<u8> = vec![0; 32];
    let mut r = ByteReader::new(&buf);
    r.skip(3);
    assert_eq!(r.position(), 3);
    r.align(8);
    assert_eq!(r.position(), 8);
    r.align(8);
    assert_eq!(r.position(), 8);
    r.skip(1);
    r.align(4);
    assert_eq!(r.position(), 12);
    r.align(16);
    assert_eq!(r.position(), 16);
}

#[test]
fn scan_finds_memory_map() {
    let buf = structure(&[(6, mmap_body(24, &[(0x1000, 0x2000, 1, 0)]))]);
    let info = Multiboot::new(&buf);
    assert!(info.has_memory_map());
}

#[test]
fn absent_memory_map_yields_empty() {
    let buf = structure(&[(4, vec![0; 16])]);
    let info = Multiboot::new(&buf);
    assert!(!info.has_memory_map());
    let mut areas = info.memory_areas();
    assert!(areas.next().is_none());
    assert!(areas.next().is_none());
    assert!(info.memory_area_vec().is_empty());
}

#[test]
fn terminator_only_structure() {
    let buf = structure(&[]);
    assert_eq!(buf.len(), 16);
    let info = Multiboot::new(&buf);
    assert!(!info.has_memory_map());
    assert!(info.memory_area_vec().is_empty());
}

#[test]
fn single_entry_example() {
    let buf = structure(&[(6, mmap_body(24, &[(0x100000, 0x1000, 1, 0)]))]);
    let info = Multiboot::new(&buf);
    let mut areas = info.memory_areas();
    let area = areas.next().expect("one record");
    assert_eq!(area.base(), 0x100000);
    assert_eq!(area.size(), 0x1000);
    assert_eq!(area.kind(), MemoryAreaType::Usable);
    assert!(areas.next().is_none());
}

#[test]
fn round_trip_three_entries() {
    let entries = [
        (0x0000_0000_0000_0000u64, 0x0009_fc00u64, 1u32, 0u32),
        (0x0000_0000_000f_0000u64, 0x0001_0000u64, 2u32, 7u32),
        (0x0000_0001_0000_0000u64, 0x8000_0000u64, 1u32, 0u32),
    ];
    let buf = structure(&[(6, mmap_body(24, &entries))]);
    let info = Multiboot::new(&buf);
    let v = info.memory_area_vec();
    assert_eq!(v.len(), 3);
    for (area, &(base, length, kind, reserved)) in v.iter().zip(entries.iter()) {
        assert_eq!(area.base(), base);
        assert_eq!(area.size(), length);
        assert_eq!(area.base_addr, base);
        assert_eq!(area.length, length);
        assert_eq!(area.kind, kind);
        assert_eq!(area.reserved, reserved);
    }
}

#[test]
fn entry_count_with_larger_stride() {
    // A stride above the four decoded fields simulates a newer format
    // whose trailing bytes must be skipped, not read.
    let entries = [(0x1000u64, 0x2000u64, 1u32, 0u32), (0x8000u64, 0x4000u64, 3u32, 0u32)];
    let buf = structure(&[(6, mmap_body(40, &entries))]);
    let info = Multiboot::new(&buf);
    let v = info.memory_area_vec();
    assert_eq!(v.len(), 2);
    assert_eq!(v[0].base(), 0x1000);
    assert_eq!(v[1].base(), 0x8000);
    assert_eq!(v[1].size(), 0x4000);
    assert_eq!(v[1].kind(), MemoryAreaType::Unusable);
}

#[test]
fn classification_codes() {
    let entries = [
        (0u64, 1u64, 0u32, 0u32),
        (1u64, 1u64, 1u32, 0u32),
        (2u64, 1u64, 2u32, 0u32),
        (3u64, 1u64, 3u32, 0u32),
    ];
    let buf = structure(&[(6, mmap_body(24, &entries))]);
    let info = Multiboot::new(&buf);
    let v = info.memory_area_vec();
    assert_eq!(v.len(), 4);
    assert_eq!(v[0].kind(), MemoryAreaType::Unusable);
    assert_eq!(v[1].kind(), MemoryAreaType::Usable);
    assert_eq!(v[2].kind(), MemoryAreaType::Unusable);
    assert_eq!(v[3].kind(), MemoryAreaType::Unusable);
}

#[test]
fn classification_of_handcrafted_records() {
    let usable = MemoryArea { base_addr: 0, length: 4096, kind: 1, reserved: 0 };
    assert_eq!(usable.kind(), MemoryAreaType::Usable);
    for code in [0u32, 2, 3, 0xffff_ffff] {
        let area = MemoryArea { base_addr: 0, length: 4096, kind: code, reserved: 0 };
        assert_eq!(area.kind(), MemoryAreaType::Unusable);
    }
}

#[test]
fn unknown_tags_are_skipped() {
    // Tags of unrecognized types, one with a length that needs padding,
    // stand before and after the memory map.
    let buf = structure(&[
        (4, vec![0xaa; 5]),
        (9, vec![0xbb; 12]),
        (6, mmap_body(24, &[(0x7000, 0x100, 1, 9)])),
        (11, vec![0xcc; 3]),
    ]);
    let info = Multiboot::new(&buf);
    let v = info.memory_area_vec();
    assert_eq!(v.len(), 1);
    assert_eq!(v[0].base(), 0x7000);
    assert_eq!(v[0].size(), 0x100);
    assert_eq!(v[0].reserved, 9);
}

#[test]
fn last_memory_map_tag_wins() {
    let buf = structure(&[
        (6, mmap_body(24, &[(0x1000, 0x100, 1, 0)])),
        (6, mmap_body(24, &[(0x2000, 0x200, 2, 0), (0x3000, 0x300, 1, 0)])),
    ]);
    let info = Multiboot::new(&buf);
    let v = info.memory_area_vec();
    assert_eq!(v.len(), 2);
    assert_eq!(v[0].base(), 0x2000);
    assert_eq!(v[1].base(), 0x3000);
}

#[test]
fn iterator_is_restartable_per_call() {
    let buf = structure(&[(6, mmap_body(24, &[(0x5000, 0x800, 1, 0)]))]);
    let info = Multiboot::new(&buf);
    let mut first = info.memory_areas();
    assert!(first.next().is_some());
    assert!(first.next().is_none());
    let mut second = info.memory_areas();
    let area = second.next().expect("a fresh iterator starts over");
    assert_eq!(area.base(), 0x5000);
}
