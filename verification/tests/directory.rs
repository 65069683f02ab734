use psp_scan::parsers::{parse_directories, parse_directory};
use psp_scan::structs::{Generation, PspError, Version};
use psp_scan::utils::resolve_location;

fn ver(major: u8, minor: u8, micro: u8, build: u8) -> Version {
    Version { build, micro, minor, major }
}

fn put_simple_dir(data: &mut [u8], at: usize, entries: &[(u8, u64)]) {
    data[at..at + 4].copy_from_slice(b"$PSP");
    data[at + 8..at + 12].copy_from_slice(&(entries.len() as u32).to_le_bytes());
    for (i, (kind, location)) in entries.iter().enumerate() {
        let p = at + 0x10 + i * 0x10;
        data[p] = *kind;
        data[p + 8..p + 16].copy_from_slice(&location.to_le_bytes());
    }
}

fn put_combo_dir(data: &mut [u8], at: usize, entries: &[(u32, u64)]) {
    data[at..at + 4].copy_from_slice(b"2PSP");
    data[at + 8..at + 12].copy_from_slice(&(entries.len() as u32).to_le_bytes());
    for (i, (id, location)) in entries.iter().enumerate() {
        let p = at + 0x20 + i * 0x10;
        data[p + 4..p + 8].copy_from_slice(&id.to_le_bytes());
        data[p + 8..p + 16].copy_from_slice(&location.to_le_bytes());
    }
}

fn put_leaf(data: &mut [u8], at: usize, version: Version, packed_size: u32) {
    data[at + 0x60] = version.build;
    data[at + 0x61] = version.micro;
    data[at + 0x62] = version.minor;
    data[at + 0x63] = version.major;
    data[at + 0x6C..at + 0x70].copy_from_slice(&packed_size.to_le_bytes());
}

#[test]
fn resolve_masks_high_byte_and_adds_offset() {
    assert_eq!(
        resolve_location(0x02AB_CDEF, 0x1000),
        (0x02AB_CDEF & 0x00FF_FFFF) + 0x1000
    );
    assert_eq!(resolve_location(0x02AB_CDEF, 0x1000), 0x00AB_DDEF);
    assert_eq!(resolve_location(0xFF12_3456, 0), 0x0012_3456);
    assert_eq!(resolve_location(0, 0), 0);
    assert_eq!(resolve_location(0x0100_0000, 7), 7);
}

#[test]
fn oversized_entry_count_is_truncated_data() {
    let mut data = vec![0u8; 0x100];
    data[0..4].copy_from_slice(b"$PSP");
    data[8..12].copy_from_slice(&0xFFFF_FFFFu32.to_le_bytes());
    let r = parse_directory(&data, 0, 0, None);
    assert_eq!(r.len(), 1);
    assert_eq!(r[0].0, 0);
    assert_eq!(r[0].1, Err(PspError::TruncatedData));
}

#[test]
fn oversized_combo_entry_count_is_truncated_data() {
    let mut data = vec![0u8; 0x100];
    data[0..4].copy_from_slice(b"2BHD");
    data[8..12].copy_from_slice(&0x0010_0000u32.to_le_bytes());
    let r = parse_directories(&data, 0, 0);
    assert_eq!(r.len(), 1);
    assert_eq!(r[0].1, Err(PspError::TruncatedData));
}

#[test]
fn unknown_signature_is_reported_with_its_bytes() {
    let mut data = vec![0u8; 0x40];
    data[0..4].copy_from_slice(b"WHAT");
    let r = parse_directory(&data, 0, 0, None);
    assert_eq!(r.len(), 1);
    assert_eq!(r[0].1, Err(PspError::UnknownSignature(b'W', b'H', b'A', b'T')));
}

#[test]
fn directory_past_buffer_end_is_truncated_data() {
    let data = vec![0u8; 0x10];
    let r = parse_directory(&data, 0x20, 0, None);
    assert_eq!(r.len(), 1);
    assert_eq!(r[0].0, 0x20);
    assert_eq!(r[0].1, Err(PspError::TruncatedData));
}

#[test]
fn self_referential_directory_is_a_cycle() {
    let mut data = vec![0u8; 0x100];
    // a directory whose one nested-directory entry points back at itself
    put_simple_dir(&mut data, 0, &[(0x40, 0)]);
    let r = parse_directory(&data, 0, 0, None);
    assert_eq!(r.len(), 1);
    assert_eq!(r[0].0, 0);
    assert_eq!(r[0].1, Err(PspError::CycleDetected));
}

#[test]
fn leaf_out_of_bounds_is_local_truncated_data() {
    let mut data = vec![0u8; 0x200];
    put_simple_dir(&mut data, 0, &[(0x08, 0x1F0)]);
    let r = parse_directory(&data, 0, 0, None);
    assert_eq!(r.len(), 1);
    assert_eq!(r[0].0, 0x1F0);
    assert_eq!(r[0].1, Err(PspError::TruncatedData));
}

#[test]
fn unrecognized_entry_kinds_produce_nothing() {
    let mut data = vec![0u8; 0x400];
    put_simple_dir(&mut data, 0, &[(0x01, 0x100), (0x08, 0x200), (0x5A, 0x100)]);
    put_leaf(&mut data, 0x200, ver(1, 0, 0, 0), 0x10);
    let r = parse_directories(&data, 0, 0);
    assert_eq!(r.len(), 1);
    assert_eq!(r[0].0, 0x200);
    assert!(matches!(r[0].1, Ok(_)));
}

#[test]
fn same_leaf_through_two_combo_entries_yields_one_entry() {
    let mut data = vec![0u8; 0x1000];
    // two distinct combo entries select two directories; both list the same leaf
    put_combo_dir(&mut data, 0, &[(1, 0x100), (2, 0x200)]);
    put_simple_dir(&mut data, 0x100, &[(0x08, 0x800)]);
    put_simple_dir(&mut data, 0x200, &[(0x12, 0x800)]);
    put_leaf(&mut data, 0x800, ver(1, 2, 3, 4), 0x40);
    let r = parse_directories(&data, 0, 0);
    assert_eq!(r.len(), 1);
    assert_eq!(r[0].0, 0x800);
    let h = r[0].1.as_ref().unwrap();
    assert_eq!(h.get_version(), ver(1, 2, 3, 4));
    // the first discovery wins, and it carries the first combo entry's tag
    assert_eq!(r[0].2, Some(Generation { id: 1 }));
}

#[test]
fn reconciled_order_is_version_then_failures_by_location() {
    let mut data = vec![0u8; 0x1000];
    // discovery order: 2.0.0.0, then a failure, then 1.0.0.0
    put_simple_dir(
        &mut data,
        0,
        &[(0x08, 0x400), (0x08, 0xF80), (0x12, 0x600)],
    );
    put_leaf(&mut data, 0x400, ver(2, 0, 0, 0), 0x10);
    put_leaf(&mut data, 0x600, ver(1, 0, 0, 0), 0x10);
    let r = parse_directories(&data, 0, 0);
    assert_eq!(r.len(), 3);
    assert_eq!(r[0].0, 0x600);
    assert_eq!(r[0].1.as_ref().unwrap().get_version(), ver(1, 0, 0, 0));
    assert_eq!(r[1].0, 0x400);
    assert_eq!(r[1].1.as_ref().unwrap().get_version(), ver(2, 0, 0, 0));
    assert_eq!(r[2].0, 0xF80);
    assert_eq!(r[2].1, Err(PspError::TruncatedData));
}

#[test]
fn equal_versions_order_by_location() {
    let mut data = vec![0u8; 0x1000];
    put_simple_dir(&mut data, 0, &[(0x08, 0x600), (0x08, 0x400)]);
    put_leaf(&mut data, 0x400, ver(1, 0, 0, 0), 0x10);
    put_leaf(&mut data, 0x600, ver(1, 0, 0, 0), 0x20);
    let r = parse_directories(&data, 0, 0);
    assert_eq!(r.len(), 2);
    assert_eq!(r[0].0, 0x400);
    assert_eq!(r[1].0, 0x600);
}

#[test]
fn empty_directory_yields_nothing() {
    let mut data = vec![0u8; 0x40];
    put_simple_dir(&mut data, 0, &[]);
    let r = parse_directories(&data, 0, 0);
    assert_eq!(r.len(), 0);
}

#[test]
fn base_offset_applies_to_every_level() {
    let mut data = vec![0u8; 0x1000];
    let offset = 0x100;
    // raw locations are relative: resolved = raw + offset
    put_simple_dir(&mut data, 0x300, &[(0x08, 0x500)]);
    put_leaf(&mut data, 0x600, ver(1, 1, 1, 1), 0);
    let r = parse_directories(&data, 0x200, offset);
    assert_eq!(r.len(), 1);
    assert_eq!(r[0].0, 0x600);
    assert!(r[0].1.is_ok());
}

#[test]
fn cycle_through_a_nested_directory_is_detected() {
    let mut data = vec![0u8; 0x400];
    // the root points at a nested directory that points back at the root
    put_simple_dir(&mut data, 0x100, &[(0x40, 0x200), (0x08, 0x300)]);
    put_simple_dir(&mut data, 0x200, &[(0x70, 0x100)]);
    put_leaf(&mut data, 0x300, ver(1, 0, 0, 0), 0);
    let r = parse_directory(&data, 0x100, 0, None);
    assert_eq!(r.len(), 2);
    assert_eq!(r[0].0, 0x100);
    assert_eq!(r[0].1, Err(PspError::CycleDetected));
    assert_eq!(r[1].0, 0x300);
    assert!(r[1].1.is_ok());
}
