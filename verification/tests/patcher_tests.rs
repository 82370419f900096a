use redbreadcrumb::{BinaryFormat, BinaryPatcher, PatchError, PatchStrategy};

/// A minimal ELF64 executable: header, one PT_LOAD program header covering
/// the whole file, then the payload bytes.
fn minimal_elf64(payload: &[u8]) -> Vec<u8> {
    let mut d = vec![0u8; 64 + 56];
    d[0..4].copy_from_slice(&[0x7f, b'E', b'L', b'F']);
    d[4] = 2; // 64-bit
    d[5] = 1; // little endian
    d[6] = 1; // version
    d[16..18].copy_from_slice(&2u16.to_le_bytes()); // ET_EXEC
    d[18..20].copy_from_slice(&0x3eu16.to_le_bytes()); // x86-64
    d[20..24].copy_from_slice(&1u32.to_le_bytes());
    d[24..32].copy_from_slice(&0x400000u64.to_le_bytes()); // entry
    d[32..40].copy_from_slice(&64u64.to_le_bytes()); // e_phoff
    d[52..54].copy_from_slice(&64u16.to_le_bytes()); // e_ehsize
    d[54..56].copy_from_slice(&56u16.to_le_bytes()); // e_phentsize
    d[56..58].copy_from_slice(&1u16.to_le_bytes()); // e_phnum
    d[58..60].copy_from_slice(&64u16.to_le_bytes()); // e_shentsize
    let filesz = (64 + 56 + payload.len()) as u64;
    d[64..68].copy_from_slice(&1u32.to_le_bytes()); // PT_LOAD
    d[68..72].copy_from_slice(&5u32.to_le_bytes()); // flags
    d[72..80].copy_from_slice(&0u64.to_le_bytes()); // p_offset
    d[80..88].copy_from_slice(&0x400000u64.to_le_bytes()); // p_vaddr
    d[88..96].copy_from_slice(&0x400000u64.to_le_bytes()); // p_paddr
    d[96..104].copy_from_slice(&filesz.to_le_bytes()); // p_filesz
    d[104..112].copy_from_slice(&filesz.to_le_bytes()); // p_memsz
    d[112..120].copy_from_slice(&0x1000u64.to_le_bytes()); // p_align
    d.extend_from_slice(payload);
    d
}

/// A minimal PE32+ image: DOS header, COFF and optional headers, one
/// `.data` section whose raw bytes are zeros.
fn minimal_pe64() -> Vec<u8> {
    let mut d = vec![0u8; 0x400];
    d[0] = b'M';
    d[1] = b'Z';
    d[0x3c..0x40].copy_from_slice(&0x40u32.to_le_bytes()); // e_lfanew
    d[0x40..0x44].copy_from_slice(b"PE\0\0");
    let coff = 0x44;
    d[coff..coff + 2].copy_from_slice(&0x8664u16.to_le_bytes()); // machine
    d[coff + 2..coff + 4].copy_from_slice(&1u16.to_le_bytes()); // sections
    d[coff + 16..coff + 18].copy_from_slice(&240u16.to_le_bytes()); // opt hdr size
    d[coff + 18..coff + 20].copy_from_slice(&0x22u16.to_le_bytes()); // characteristics
    let opt = coff + 20; // 0x58
    d[opt..opt + 2].copy_from_slice(&0x20bu16.to_le_bytes()); // PE32+ magic
    d[opt + 16..opt + 20].copy_from_slice(&0x1000u32.to_le_bytes()); // entry rva
    d[opt + 24..opt + 32].copy_from_slice(&0x140000000u64.to_le_bytes()); // image base
    d[opt + 32..opt + 36].copy_from_slice(&0x1000u32.to_le_bytes()); // section align
    d[opt + 36..opt + 40].copy_from_slice(&0x200u32.to_le_bytes()); // file align
    d[opt + 40..opt + 42].copy_from_slice(&6u16.to_le_bytes()); // os major
    d[opt + 48..opt + 52].copy_from_slice(&6u32.to_le_bytes()); // subsystem version? keep
    d[opt + 56..opt + 60].copy_from_slice(&0x2000u32.to_le_bytes()); // size of image
    d[opt + 60..opt + 64].copy_from_slice(&0x200u32.to_le_bytes()); // size of headers
    d[opt + 68..opt + 70].copy_from_slice(&3u16.to_le_bytes()); // subsystem: console
    d[opt + 108..opt + 112].copy_from_slice(&16u32.to_le_bytes()); // rva/size count
    // 16 zeroed data directories follow (opt + 112 .. opt + 240)
    let sect = opt + 240; // 0x148
    d[sect..sect + 6].copy_from_slice(b".data\0");
    d[sect + 8..sect + 12].copy_from_slice(&0x200u32.to_le_bytes()); // virtual size
    d[sect + 12..sect + 16].copy_from_slice(&0x1000u32.to_le_bytes()); // virtual address
    d[sect + 16..sect + 20].copy_from_slice(&0x200u32.to_le_bytes()); // raw size
    d[sect + 20..sect + 24].copy_from_slice(&0x200u32.to_le_bytes()); // raw pointer
    d[sect + 36..sect + 40].copy_from_slice(&0xC0000040u32.to_le_bytes()); // characteristics
    // section data: 0x200..0x400 stays zero, a large cave
    d
}

#[test]
fn test_detect_elf64() {
    let data = minimal_elf64(&[0x90; 16]);
    let format = BinaryPatcher::detect_format(&data).unwrap();
    assert_eq!(format, BinaryFormat::ELF64);
}

#[test]
fn test_detect_pe64() {
    let data = minimal_pe64();
    let format = BinaryPatcher::detect_format(&data).unwrap();
    assert_eq!(format, BinaryFormat::PE64);
}

#[test]
fn test_detect_unknown_for_text() {
    let data = b"just some plain text, nothing executable here".to_vec();
    let format = BinaryPatcher::detect_format(&data).unwrap();
    assert_eq!(format, BinaryFormat::Unknown);
}

#[test]
fn test_detect_is_deterministic() {
    let data = minimal_elf64(&[0x90; 16]);
    let f1 = BinaryPatcher::detect_format(&data).unwrap();
    let f2 = BinaryPatcher::detect_format(&data).unwrap();
    assert_eq!(f1, f2);
}

#[test]
fn test_detect_malformed_elf_is_parse_error() {
    let mut data = vec![0x7f, b'E', b'L', b'F'];
    data.extend_from_slice(&[9u8; 12]);
    let err = BinaryPatcher::detect_format(&data).unwrap_err();
    assert!(matches!(err, PatchError::ParseError(_)));
}

#[test]
fn test_patch_unknown_format_rejected() {
    let data = b"just some plain text, nothing executable here".to_vec();
    for strategy in [
        PatchStrategy::Cave,
        PatchStrategy::Section,
        PatchStrategy::Extend,
        PatchStrategy::Overlay,
    ] {
        let err = BinaryPatcher::patch_buffer(&data, "TRACK", strategy).unwrap_err();
        assert!(matches!(err, PatchError::UnsupportedFormat));
    }
}

#[test]
fn test_overlay_roundtrip_elf() {
    let data = minimal_elf64(&[0x90; 16]);
    let (out, res) = BinaryPatcher::patch_buffer(&data, "TRACK", PatchStrategy::Overlay).unwrap();
    assert_eq!(out.len(), data.len() + "TRACK".len() + 1);
    assert_eq!(&out[..data.len()], &data[..]);
    assert_eq!(&out[data.len()..], b"TRACK\0");
    assert!(BinaryPatcher::verify_patch(&out, "TRACK"));
    assert_eq!(res.format, BinaryFormat::ELF64);
    assert_eq!(res.strategy_used, "overlay");
    assert_eq!(res.virtual_address, None);
    assert_eq!(res.file_offset, Some(data.len() as u64));
}

#[test]
fn test_overlay_roundtrip_pe() {
    let data = minimal_pe64();
    let (out, res) = BinaryPatcher::patch_buffer(&data, "TRACK", PatchStrategy::Overlay).unwrap();
    assert!(BinaryPatcher::verify_patch(&out, "TRACK"));
    assert_eq!(res.format, BinaryFormat::PE64);
    assert_eq!(res.virtual_address, None);
    assert_eq!(out.len(), data.len() + 6);
}

#[test]
fn test_cave_patch_elf() {
    let mut payload = vec![0x90u8; 8];
    payload.extend_from_slice(&[0u8; 64]);
    payload.extend_from_slice(&[0x90u8; 8]);
    let data = minimal_elf64(&payload);
    let (out, res) = BinaryPatcher::patch_buffer(&data, "TRACKER", PatchStrategy::Cave).unwrap();
    assert_eq!(out.len(), data.len());
    assert!(BinaryPatcher::verify_patch(&out, "TRACKER"));
    let off = res.file_offset.unwrap() as usize;
    assert_eq!(&out[off..off + 7], b"TRACKER");
    assert_eq!(out[off + 7], 0);
    // the cave was a zero run in the input
    assert!(data[off..off + 8].iter().all(|&b| b == 0));
    assert_eq!(res.format, BinaryFormat::ELF64);
}

#[test]
fn test_cave_patch_pe_resolves_address() {
    let data = minimal_pe64();
    let (out, res) = BinaryPatcher::patch_buffer(&data, "TRACKER", PatchStrategy::Cave).unwrap();
    assert_eq!(out.len(), data.len());
    assert!(BinaryPatcher::verify_patch(&out, "TRACKER"));
    let off = res.file_offset.unwrap() as usize;
    // the .data section's zero bytes start at 0x200
    assert_eq!(off, 0x200);
    assert!(res.strategy_used.starts_with("cave (.data"));
    // image base + section rva + offset within the section
    assert_eq!(res.virtual_address, Some(0x140000000 + 0x1000));
}

#[test]
fn test_cave_exhaustion_reports_largest() {
    // headers hold only short zero runs; a long string cannot fit
    let data = minimal_elf64(&[0x90u8; 32]);
    let long = "X".repeat(64);
    let err = BinaryPatcher::patch_buffer(&data, &long, PatchStrategy::Cave).unwrap_err();
    match err {
        PatchError::NoCaveFound { needed, found } => {
            assert_eq!(needed, 65);
            assert!(found < 65);
        },
        other => panic!("expected NoCaveFound, got {:?}", other),
    }
}

#[test]
fn test_extend_elf_appends() {
    let data = minimal_elf64(&[0x90; 16]);
    let (out, res) = BinaryPatcher::patch_buffer(&data, "TRACK", PatchStrategy::Extend).unwrap();
    assert_eq!(out.len(), data.len() + 6);
    assert_eq!(&out[..data.len()], &data[..]);
    assert_eq!(&out[data.len()..], b"TRACK\0");
    assert_eq!(res.strategy_used, "extend (file append)");
    // segment memory end: vaddr + memsz, with the write right at the file end
    assert_eq!(res.virtual_address, Some(0x400000 + data.len() as u64));
    assert!(BinaryPatcher::verify_patch(&out, "TRACK"));
}

#[test]
fn test_section_elf_grows_segment() {
    let data = minimal_elf64(&[0x90; 16]);
    let old_filesz = data.len() as u64;
    let (out, res) = BinaryPatcher::patch_buffer(&data, "TRACK", PatchStrategy::Section).unwrap();
    // grown by the 16-byte-aligned size of string + terminator
    assert_eq!(out.len(), data.len() + 16);
    assert!(out.len() >= data.len() + 6);
    let off = res.file_offset.unwrap() as usize;
    assert_eq!(off, data.len());
    assert_eq!(&out[off..off + 5], b"TRACK");
    assert_eq!(out[off + 5], 0);
    // the PT_LOAD entry's file size (offset 96) and memory size (104) grew
    let new_filesz = u64::from_le_bytes(out[96..104].try_into().unwrap());
    let new_memsz = u64::from_le_bytes(out[104..112].try_into().unwrap());
    assert_eq!(new_filesz, old_filesz + 16);
    assert_eq!(new_memsz, old_filesz + 16);
    assert!(BinaryPatcher::verify_patch(&out, "TRACK"));
}

#[test]
fn test_pe_extend_updates_section_header() {
    let data = minimal_pe64();
    let (out, res) = BinaryPatcher::patch_buffer(&data, "TRACK", PatchStrategy::Extend).unwrap();
    // grown to the file-aligned new raw size: 0x200 + align_up(6, 0x200)
    assert_eq!(out.len(), 0x200 + 0x200 + 0x200);
    let off = res.file_offset.unwrap() as usize;
    assert_eq!(off, 0x400);
    assert_eq!(&out[off..off + 5], b"TRACK");
    assert_eq!(out[off + 5], 0);
    // raw size field of the last section header (0x148 + 16)
    let raw = u32::from_le_bytes(out[0x158..0x15c].try_into().unwrap());
    assert_eq!(raw, 0x400);
    assert!(BinaryPatcher::verify_patch(&out, "TRACK"));
    assert!(res.strategy_used.starts_with("extend (.data"));
}

#[test]
fn test_pe_section_adds_header_entry() {
    let data = minimal_pe64();
    let (out, res) = BinaryPatcher::patch_buffer(&data, "TRACK", PatchStrategy::Section).unwrap();
    assert!(out.len() >= data.len() + 6);
    let off = res.file_offset.unwrap() as usize;
    assert_eq!(off, 0x400);
    assert_eq!(&out[off..off + 5], b"TRACK");
    // the new header entry sits after the existing one (0x148 + 40)
    assert_eq!(&out[0x170..0x176], b".rtstr");
    // the section count was incremented (pe_pointer + 6)
    let count = u16::from_le_bytes(out[0x46..0x48].try_into().unwrap());
    assert_eq!(count, 2);
    assert!(BinaryPatcher::verify_patch(&out, "TRACK"));
    assert_eq!(res.strategy_used, "section (.rtstr)");
}

#[test]
fn test_verify_patch_matches_substring() {
    let data = b"xxTRACKyy".to_vec();
    assert!(BinaryPatcher::verify_patch(&data, "TRACK"));
    assert!(!BinaryPatcher::verify_patch(&data, "TRACKER"));
    assert!(BinaryPatcher::verify_patch(&data, ""));
}

#[test]
fn test_patch_is_deterministic() {
    let data = minimal_pe64();
    let (o1, r1) = BinaryPatcher::patch_buffer(&data, "TRACKER", PatchStrategy::Cave).unwrap();
    let (o2, r2) = BinaryPatcher::patch_buffer(&data, "TRACKER", PatchStrategy::Cave).unwrap();
    assert_eq!(o1, o2);
    assert_eq!(r1.file_offset, r2.file_offset);
    assert_eq!(r1.virtual_address, r2.virtual_address);
    assert_eq!(r1.strategy_used, r2.strategy_used);
}
