use psp_scan::parsers::{parse_directories, parse_directory};
use psp_scan::structs::{
    EfiGuidDefinedSection, FirmwareEntryTable, PspError, Version, EFI_GUID_SECTION_SIZE,
};

#[test]
fn anchor_record_decodes_signature_and_root_pointer() {
    let mut data = vec![0u8; 0x18];
    data[0..4].copy_from_slice(&[0xAA, 0x55, 0xAA, 0x55]);
    data[0x14..0x18].copy_from_slice(&0x0012_3456u32.to_le_bytes());
    let fet = FirmwareEntryTable::new(&data).unwrap();
    assert_eq!(fet.signature, [0xAA, 0x55, 0xAA, 0x55]);
    assert_eq!(fet.psp, 0x0012_3456);
}

#[test]
fn anchor_record_rejects_short_window() {
    let data = vec![0u8; 0x17];
    assert!(matches!(
        FirmwareEntryTable::new(&data),
        Err(PspError::TruncatedData)
    ));
}

#[test]
fn guid_section_sizes_come_from_three_little_endian_bytes() {
    let mut data = vec![0u8; EFI_GUID_SECTION_SIZE];
    data[0] = 0x34;
    data[1] = 0x12;
    data[2] = 0x01;
    let h = EfiGuidDefinedSection::new(&data).unwrap();
    assert_eq!(h.get_full_size(), 0x011234);
    assert_eq!(h.get_body_size(), 0x011234 - EFI_GUID_SECTION_SIZE);
}

#[test]
fn guid_section_rejects_short_window() {
    let data = vec![0u8; EFI_GUID_SECTION_SIZE - 1];
    assert!(matches!(
        EfiGuidDefinedSection::new(&data),
        Err(PspError::TruncatedData)
    ));
}

#[test]
fn bhd_combo_signature_dispatches_like_psp_combo() {
    let mut data = vec![0u8; 0x400];
    data[0..4].copy_from_slice(b"2BHD");
    data[8..12].copy_from_slice(&1u32.to_le_bytes());
    // the one combo entry points at a simple directory with one leaf
    data[0x24..0x28].copy_from_slice(&7u32.to_le_bytes());
    data[0x28..0x30].copy_from_slice(&0x100u64.to_le_bytes());
    data[0x100..0x104].copy_from_slice(b"$PL2");
    data[0x108..0x10C].copy_from_slice(&1u32.to_le_bytes());
    data[0x110] = 0x08;
    data[0x118..0x120].copy_from_slice(&0x200u64.to_le_bytes());
    data[0x260] = 9;
    let r = parse_directories(&data, 0, 0);
    assert_eq!(r.len(), 1);
    assert_eq!(r[0].0, 0x200);
    assert_eq!(
        r[0].1.as_ref().unwrap().get_version(),
        Version { build: 9, micro: 0, minor: 0, major: 0 }
    );
}

#[test]
fn raw_locations_keep_only_their_low_bits() {
    let mut data = vec![0u8; 0x400];
    data[0..4].copy_from_slice(b"$PSP");
    data[8..12].copy_from_slice(&1u32.to_le_bytes());
    data[0x10] = 0x08;
    // high bits of the raw location are flash-mapping noise
    data[0x18..0x20].copy_from_slice(&0xFFFF_FFFF_FF00_0200u64.to_le_bytes());
    data[0x260] = 3;
    let r = parse_directory(&data, 0, 0, None);
    assert_eq!(r.len(), 1);
    assert_eq!(r[0].0, 0x200);
    assert!(r[0].1.is_ok());
}
