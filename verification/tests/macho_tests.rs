use redbreadcrumb::{BinaryFormat, BinaryPatcher, PatchError, PatchStrategy};

/// A minimal thin 64-bit Mach-O: the header and one `__DATA` segment load
/// command covering the whole file, then the payload bytes.
fn minimal_macho64(payload: &[u8]) -> Vec<u8> {
    let mut d = vec![0u8; 32 + 72];
    d[0..4].copy_from_slice(&0xfeedfacfu32.to_le_bytes()); // magic 64
    d[4..8].copy_from_slice(&0x01000007u32.to_le_bytes()); // x86-64
    d[8..12].copy_from_slice(&3u32.to_le_bytes()); // cpusubtype
    d[12..16].copy_from_slice(&2u32.to_le_bytes()); // MH_EXECUTE
    d[16..20].copy_from_slice(&1u32.to_le_bytes()); // ncmds
    d[20..24].copy_from_slice(&72u32.to_le_bytes()); // sizeofcmds
    let filesz = (32 + 72 + payload.len()) as u64;
    let c = 32;
    d[c..c + 4].copy_from_slice(&0x19u32.to_le_bytes()); // LC_SEGMENT_64
    d[c + 4..c + 8].copy_from_slice(&72u32.to_le_bytes()); // cmdsize
    d[c + 8..c + 14].copy_from_slice(b"__DATA");
    d[c + 24..c + 32].copy_from_slice(&0x1000u64.to_le_bytes()); // vmaddr
    d[c + 32..c + 40].copy_from_slice(&0x2000u64.to_le_bytes()); // vmsize
    d[c + 40..c + 48].copy_from_slice(&0u64.to_le_bytes()); // fileoff
    d[c + 48..c + 56].copy_from_slice(&filesz.to_le_bytes()); // filesize
    d[c + 56..c + 60].copy_from_slice(&7u32.to_le_bytes()); // maxprot
    d[c + 60..c + 64].copy_from_slice(&3u32.to_le_bytes()); // initprot
    d.extend_from_slice(payload);
    d
}

/// A minimal fat/universal container: the big-endian fat header with one
/// architecture entry pointing at nothing usable.
fn minimal_fat() -> Vec<u8> {
    let mut d = Vec::new();
    d.extend_from_slice(&0xcafebabeu32.to_be_bytes());
    d.extend_from_slice(&0u32.to_be_bytes()); // no architectures
    d.extend_from_slice(&[0u8; 24]);
    d
}

#[test]
fn test_detect_macho64() {
    let data = minimal_macho64(&[0x90; 16]);
    let format = BinaryPatcher::detect_format(&data).unwrap();
    assert_eq!(format, BinaryFormat::MachO64);
}

#[test]
fn test_detect_fat() {
    let data = minimal_fat();
    let format = BinaryPatcher::detect_format(&data).unwrap();
    assert_eq!(format, BinaryFormat::MachOFat);
}

#[test]
fn test_fat_patch_rejected() {
    let data = minimal_fat();
    for strategy in [PatchStrategy::Cave, PatchStrategy::Overlay] {
        let err = BinaryPatcher::patch_buffer(&data, "TRACK", strategy).unwrap_err();
        assert!(matches!(err, PatchError::PatchFailed(_)));
    }
}

#[test]
fn test_overlay_roundtrip_macho() {
    let data = minimal_macho64(&[0x90; 16]);
    let (out, res) = BinaryPatcher::patch_buffer(&data, "TRACK", PatchStrategy::Overlay).unwrap();
    assert_eq!(out.len(), data.len() + 6);
    assert_eq!(&out[data.len()..], b"TRACK\0");
    assert!(BinaryPatcher::verify_patch(&out, "TRACK"));
    assert_eq!(res.format, BinaryFormat::MachO64);
    assert_eq!(res.virtual_address, None);
}

#[test]
fn test_cave_patch_macho() {
    let mut payload = vec![0x90u8; 4];
    payload.extend_from_slice(&[0u8; 40]);
    payload.extend_from_slice(&[0x90u8; 4]);
    let data = minimal_macho64(&payload);
    let (out, res) = BinaryPatcher::patch_buffer(&data, "TRACKER", PatchStrategy::Cave).unwrap();
    assert_eq!(out.len(), data.len());
    assert!(BinaryPatcher::verify_patch(&out, "TRACKER"));
    let off = res.file_offset.unwrap() as usize;
    assert_eq!(&out[off..off + 7], b"TRACKER");
    assert_eq!(out[off + 7], 0);
    assert!(data[off..off + 8].iter().all(|&b| b == 0));
    // the fallback scan found the run inside the __DATA segment, so the
    // address resolves as segment base + offset within the segment
    assert_eq!(res.virtual_address, Some(0x1000 + off as u64));
}

#[test]
fn test_extend_macho_grows_data_segment() {
    let data = minimal_macho64(&[0x90; 16]);
    let (out, res) = BinaryPatcher::patch_buffer(&data, "TRACK", PatchStrategy::Extend).unwrap();
    // grown by exactly the string and terminator past the segment's extent
    assert_eq!(out.len(), data.len() + 6);
    let off = res.file_offset.unwrap() as usize;
    assert_eq!(off, data.len());
    assert_eq!(&out[off..off + 5], b"TRACK");
    assert_eq!(out[off + 5], 0);
    // the segment's memory end
    assert_eq!(res.virtual_address, Some(0x1000 + 0x2000));
    assert!(res.strategy_used.starts_with("extend (__DATA"));
    assert!(BinaryPatcher::verify_patch(&out, "TRACK"));
}

#[test]
fn test_section_macho_appends_past_linkedit() {
    // no __LINKEDIT segment: the section strategy reports a failure
    let data = minimal_macho64(&[0x90; 16]);
    let err = BinaryPatcher::patch_buffer(&data, "TRACK", PatchStrategy::Section).unwrap_err();
    assert!(matches!(err, PatchError::PatchFailed(_)));
}
