use psp_scan::structs::{PspEntryHeader, PspError, Version, PSP_ENTRY_HEADER_SIZE};

fn ver(major: u8, minor: u8, micro: u8, build: u8) -> Version {
    Version { build, micro, minor, major }
}

#[test]
fn version_order_is_lexicographic_major_first() {
    assert!(ver(4, 0, 0, 18) > ver(3, 0, 0, 99));
    assert!(ver(3, 0, 0, 99) < ver(4, 0, 0, 18));
    assert!(ver(1, 2, 0, 0) < ver(1, 3, 0, 0));
    assert!(ver(1, 2, 3, 4) < ver(1, 2, 3, 5));
    assert!(ver(1, 2, 3, 4) < ver(1, 2, 4, 0));
    assert!(!(ver(1, 2, 3, 4) < ver(1, 2, 3, 4)));
    assert!(ver(1, 2, 3, 4) == ver(1, 2, 3, 4));
}

#[test]
fn version_is_zero_only_for_all_zero() {
    assert!(ver(0, 0, 0, 0).is_zero());
    assert!(!ver(0, 0, 0, 1).is_zero());
    assert!(!ver(1, 0, 0, 0).is_zero());
}

#[test]
fn zero_version_substitutes_fallback_bytes() {
    let h = PspEntryHeader {
        fallback_version: ver(9, 8, 7, 6),
        signature: [0; 4],
        version: ver(0, 0, 0, 0),
        packed_size: 0,
    };
    assert_eq!(h.get_version(), ver(9, 8, 7, 6));
}

#[test]
fn nonzero_version_never_substitutes() {
    let h = PspEntryHeader {
        fallback_version: ver(9, 8, 7, 6),
        signature: [0; 4],
        version: ver(0, 0, 0, 1),
        packed_size: 0,
    };
    assert_eq!(h.get_version(), ver(0, 0, 0, 1));
}

#[test]
fn leaf_header_decodes_fixed_offsets() {
    let mut data = vec![0u8; PSP_ENTRY_HEADER_SIZE];
    // legacy fallback bytes: build, micro, minor, major
    data[0] = 5;
    data[1] = 6;
    data[2] = 7;
    data[3] = 8;
    data[0x10..0x14].copy_from_slice(b"$PS1");
    // packed version at 0x60: build, micro, minor, major
    data[0x60] = 1;
    data[0x61] = 2;
    data[0x62] = 3;
    data[0x63] = 4;
    data[0x6C..0x70].copy_from_slice(&0xDEAD_BEEFu32.to_le_bytes());
    let h = PspEntryHeader::new(&data).unwrap();
    assert_eq!(h.fallback_version, ver(8, 7, 6, 5));
    assert_eq!(h.signature, *b"$PS1");
    assert_eq!(h.version, ver(4, 3, 2, 1));
    assert_eq!(h.packed_size, 0xDEAD_BEEF);
    assert_eq!(h.get_version(), ver(4, 3, 2, 1));
}

#[test]
fn leaf_header_rejects_short_window() {
    let data = vec![0u8; PSP_ENTRY_HEADER_SIZE - 1];
    assert_eq!(PspEntryHeader::new(&data), Err(PspError::TruncatedData));
}

#[test]
fn processor_arch_is_known_for_known_pairs() {
    let mk = |major: u8, minor: u8| PspEntryHeader {
        fallback_version: ver(0, 0, 0, 0),
        signature: [0; 4],
        version: Version { build: 0, micro: 0, minor, major },
        packed_size: 0,
    };
    assert_eq!(mk(0x00, 0x38).try_get_processor_arch(), Some("Vermeer"));
    assert_eq!(mk(0x00, 0x2E).try_get_processor_arch(), Some("Matisse"));
    assert_eq!(mk(0x04, 0x24).try_get_processor_arch(), Some("Castle Peak"));
    assert_eq!(mk(0x00, 0x2D).try_get_processor_arch(), Some("Milan"));
    assert_eq!(mk(0x7F, 0x7F).try_get_processor_arch(), None);
}

#[test]
fn processor_arch_uses_fallback_version() {
    // packed version is the zero sentinel, so the fallback bytes decide
    let h = PspEntryHeader {
        fallback_version: ver(0x00, 0x2E, 0, 0),
        signature: [0; 4],
        version: ver(0, 0, 0, 0),
        packed_size: 0,
    };
    assert_eq!(h.try_get_processor_arch(), Some("Matisse"));
}
