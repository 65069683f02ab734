use psp_scan::parsers::analyze_image;
use psp_scan::structs::{PspError, Version};

fn ver(major: u8, minor: u8, micro: u8, build: u8) -> Version {
    Version { build, micro, minor, major }
}

fn put_simple_dir(data: &mut [u8], at: usize, sig: &[u8; 4], entries: &[(u8, u64)]) {
    data[at..at + 4].copy_from_slice(sig);
    data[at + 8..at + 12].copy_from_slice(&(entries.len() as u32).to_le_bytes());
    for (i, (kind, location)) in entries.iter().enumerate() {
        let p = at + 0x10 + i * 0x10;
        data[p] = *kind;
        data[p + 8..p + 16].copy_from_slice(&location.to_le_bytes());
    }
}

fn put_leaf(data: &mut [u8], at: usize, version: Version, packed_size: u32) {
    data[at + 0x60] = version.build;
    data[at + 0x61] = version.micro;
    data[at + 0x62] = version.minor;
    data[at + 0x63] = version.major;
    data[at + 0x6C..at + 0x70].copy_from_slice(&packed_size.to_le_bytes());
}

fn put_anchor(data: &mut [u8], at: usize, psp: u32) {
    for b in &mut data[at - 16..at] {
        *b = 0xFF;
    }
    data[at..at + 4].copy_from_slice(&[0xAA, 0x55, 0xAA, 0x55]);
    data[at + 0x14..at + 0x18].copy_from_slice(&psp.to_le_bytes());
    for b in &mut data[at + 80..at + 96] {
        *b = 0xFF;
    }
}

#[test]
fn one_anchor_three_leaves_ordered_by_version() {
    let mut data = vec![0u8; 0x26000];
    // the anchor sits at 0x20000, so the walk's base offset is zero
    put_anchor(&mut data, 0x20000, 0x21000);
    put_simple_dir(
        &mut data,
        0x21000,
        b"$PSP",
        &[(0x08, 0x22000), (0x08, 0x23000), (0x40, 0x24000)],
    );
    put_leaf(&mut data, 0x22000, ver(2, 0, 0, 0), 0x100);
    put_leaf(&mut data, 0x23000, ver(1, 0, 0, 0), 0x200);
    put_simple_dir(&mut data, 0x24000, b"$PL2", &[(0x12, 0x25000)]);
    put_leaf(&mut data, 0x25000, ver(3, 0, 0, 0), 0x300);

    let reports = analyze_image(&data).unwrap();
    assert_eq!(reports.len(), 1);
    assert_eq!(reports[0].address, 0x20000);
    let entries = &reports[0].entries;
    assert_eq!(entries.len(), 3);
    assert_eq!(entries[0].0, 0x23000);
    assert_eq!(entries[0].1.as_ref().unwrap().get_version(), ver(1, 0, 0, 0));
    assert_eq!(entries[1].0, 0x22000);
    assert_eq!(entries[1].1.as_ref().unwrap().get_version(), ver(2, 0, 0, 0));
    assert_eq!(entries[2].0, 0x25000);
    assert_eq!(entries[2].1.as_ref().unwrap().get_version(), ver(3, 0, 0, 0));
}

#[test]
fn no_anchor_is_the_fatal_error() {
    let data = vec![0u8; 0x1000];
    match analyze_image(&data) {
        Err(PspError::NoAnchorFound) => {}
        other => panic!("expected NoAnchorFound, got {:?}", other),
    }
}

#[test]
fn two_anchors_each_get_their_own_report() {
    let mut data = vec![0u8; 0x46000];
    put_anchor(&mut data, 0x20000, 0x21000);
    put_simple_dir(&mut data, 0x21000, b"$PSP", &[(0x08, 0x22000)]);
    put_leaf(&mut data, 0x22000, ver(1, 0, 0, 0), 0x10);
    // second anchor at 0x40000: its walk resolves with base offset 0x20000
    put_anchor(&mut data, 0x40000, 0x23000);
    put_simple_dir(&mut data, 0x43000, b"$PSP", &[(0x08, 0x24000)]);
    put_leaf(&mut data, 0x44000, ver(2, 0, 0, 0), 0x10);

    let reports = analyze_image(&data).unwrap();
    assert_eq!(reports.len(), 2);
    assert_eq!(reports[0].address, 0x20000);
    assert_eq!(reports[0].entries.len(), 1);
    assert_eq!(reports[0].entries[0].0, 0x22000);
    assert_eq!(reports[1].address, 0x40000);
    assert_eq!(reports[1].entries.len(), 1);
    assert_eq!(reports[1].entries[0].0, 0x44000);
}
