use negativa_ml::elf::ELF64;
use negativa_ml::tracer::{Tracer, TracerError};

struct Section {
    name: &'static str,
    sh_type: u32,
    offset: Option<usize>,
    data: Vec<u8>,
    link: u32,
    entsize: u64,
}

fn sec(name: &'static str, sh_type: u32, data: Vec<u8>) -> Section {
    Section { name, sh_type, offset: None, data, link: 0, entsize: 0 }
}

fn u16le(b: &mut Vec<u8>, v: u16) {
    b.extend_from_slice(&v.to_le_bytes());
}
fn u32le(b: &mut Vec<u8>, v: u32) {
    b.extend_from_slice(&v.to_le_bytes());
}
fn u64le(b: &mut Vec<u8>, v: u64) {
    b.extend_from_slice(&v.to_le_bytes());
}

/// A string table holding `names`, and the offset of each name in it.
fn strtab(names: &[&str]) -> (Vec<u8>, Vec<u32>) {
    let mut t = vec![0u8];
    let mut offs = vec![];
    for n in names {
        offs.push(t.len() as u32);
        t.extend_from_slice(n.as_bytes());
        t.push(0);
    }
    (t, offs)
}

/// A symbol table of `(name offset, value)` entries after the null symbol.
fn symtab(entries: &[(u32, u64)]) -> Vec<u8> {
    let mut t = vec![0u8; 24];
    for (name, value) in entries {
        u32le(&mut t, *name);
        t.push(0x12);
        t.push(0);
        u16le(&mut t, 1);
        u64le(&mut t, *value);
        u64le(&mut t, 16);
    }
    t
}

/// A 64-bit little-endian ELF file with the given load segments
/// `(p_flags, p_vaddr, p_offset)` and sections.
fn build_elf(segments: &[(u32, u64, u64)], sections: Vec<Section>) -> Vec<u8> {
    let mut names: Vec<&str> = sections.iter().map(|s| s.name).collect();
    names.push(".shstrtab");
    let (shstr, name_offs) = strtab(&names);
    let phoff = 64usize;
    let mut out = vec![0u8; phoff + 56 * segments.len()];
    let mut placed = vec![];
    for s in sections.iter() {
        if let Some(o) = s.offset {
            assert!(o >= out.len());
            out.resize(o, 0);
        }
        placed.push((out.len() as u64, s.data.len() as u64));
        out.extend_from_slice(&s.data);
    }
    let shstr_off = out.len() as u64;
    out.extend_from_slice(&shstr);
    while out.len() % 8 != 0 {
        out.push(0);
    }
    let shoff = out.len() as u64;
    let shnum = sections.len() + 2;
    let mut sh = vec![0u8; 64];
    for (i, s) in sections.iter().enumerate() {
        u32le(&mut sh, name_offs[i]);
        u32le(&mut sh, s.sh_type);
        u64le(&mut sh, 0);
        u64le(&mut sh, 0);
        u64le(&mut sh, placed[i].0);
        u64le(&mut sh, placed[i].1);
        u32le(&mut sh, s.link);
        u32le(&mut sh, 0);
        u64le(&mut sh, 1);
        u64le(&mut sh, s.entsize);
    }
    u32le(&mut sh, name_offs[sections.len()]);
    u32le(&mut sh, 3);
    u64le(&mut sh, 0);
    u64le(&mut sh, 0);
    u64le(&mut sh, shstr_off);
    u64le(&mut sh, shstr.len() as u64);
    u32le(&mut sh, 0);
    u32le(&mut sh, 0);
    u64le(&mut sh, 1);
    u64le(&mut sh, 0);
    out.extend_from_slice(&sh);
    let len = out.len() as u64;

    let mut h = vec![0x7f, b'E', b'L', b'F', 2, 1, 1, 0];
    h.resize(16, 0);
    u16le(&mut h, 3);
    u16le(&mut h, 0x3e);
    u32le(&mut h, 1);
    u64le(&mut h, 0);
    u64le(&mut h, phoff as u64);
    u64le(&mut h, shoff);
    u32le(&mut h, 0);
    u16le(&mut h, 64);
    u16le(&mut h, 56);
    u16le(&mut h, segments.len() as u16);
    u16le(&mut h, 64);
    u16le(&mut h, shnum as u16);
    u16le(&mut h, (shnum - 1) as u16);
    for (flags, vaddr, offset) in segments {
        u32le(&mut h, 1);
        u32le(&mut h, *flags);
        u64le(&mut h, *offset);
        u64le(&mut h, *vaddr);
        u64le(&mut h, *vaddr);
        u64le(&mut h, len);
        u64le(&mut h, len);
        u64le(&mut h, 0x1000);
    }
    out[..h.len()].copy_from_slice(&h);
    out
}

/// Sections of a demo library: `.text`, `.nv_fatbin`, and symbol tables in
/// which `symbol` has the value `value`.
fn demo_sections(symbol: &'static str, value: u64) -> Vec<Section> {
    let (strtab_data, offs) = strtab(&["_Z5otherv", symbol]);
    let (dynstr_data, doffs) = strtab(&["_Z7dynonlyv"]);
    let mut text = sec(".text", 1, vec![0x90u8; 0x7a132]);
    text.offset = Some(0xa9f0);
    let mut fatbin = sec(".nv_fatbin", 1, vec![0u8; 0x63e0]);
    fatbin.offset = Some(0x948d0);
    let mut syms = sec(".symtab", 2, symtab(&[(offs[0], 0x1234), (offs[1], value)]));
    syms.link = 5;
    syms.entsize = 24;
    let mut dynsyms = sec(".dynsym", 11, symtab(&[(doffs[0], 0x2222)]));
    dynsyms.link = 6;
    dynsyms.entsize = 24;
    vec![
        sec("", 0, vec![]),
        text,
        fatbin,
        syms,
        dynsyms,
        sec(".strtab", 3, strtab_data),
        sec(".dynstr", 3, dynstr_data),
    ]
}

fn demo_elf() -> Vec<u8> {
    build_elf(&[(6, 0, 0), (5, 0, 0)], demo_sections("_Z6matMulPiS_S_iii", 0xabed))
}

#[test]
fn test_get_symbol_offset() {
    let data = demo_elf();
    let elf64 = ELF64::new(&data).unwrap();
    let offset = elf64.get_symbol_offset(b"_Z6matMulPiS_S_iii").unwrap();
    assert_eq!(offset, 0xabed);
}

#[test]
fn test_get_symbol_addr() {
    let data = demo_elf();
    let elf64 = ELF64::new(&data).unwrap();
    let addr = elf64.get_symbol_addr(b"_Z6matMulPiS_S_iii").unwrap();
    assert_eq!(addr, 0xabed);
}

#[test]
fn test_get_section_offset_size() {
    let data = demo_elf();
    let elf64 = ELF64::new(&data).unwrap();
    assert_eq!(elf64.get_section_offset(".text").unwrap(), 0xa9f0);
    assert_eq!(elf64.get_section_size(".text").unwrap(), 0x7a132);
}

#[test]
fn test_has_gpu_code() {
    let data = demo_elf();
    let elf64 = ELF64::new(&data).unwrap();
    assert!(elf64.has_gpu_code());
}

#[test]
fn test_get_gpu_code_offset_size() {
    let data = demo_elf();
    let elf64 = ELF64::new(&data).unwrap();
    assert_eq!(elf64.get_gpu_code_offset().unwrap(), 0x948d0);
    assert_eq!(elf64.get_gpu_code_size().unwrap(), 0x63e0);
}

#[test]
fn symbol_offset_subtracts_the_load_delta() {
    let data = build_elf(&[(5, 0x20_0000, 0x1000)], demo_sections("_Z6matMulPiS_S_iii", 0x20_abed));
    let elf64 = ELF64::new(&data).unwrap();
    let offset = elf64.get_symbol_offset(b"_Z6matMulPiS_S_iii").unwrap();
    assert_eq!(offset, 0x20_abed - 0x20_0000 + 0x1000);
    assert_eq!(elf64.get_symbol_addr(b"_Z6matMulPiS_S_iii").unwrap(), 0x20_abed);
}

#[test]
fn dynamic_symbols_are_searched_second() {
    let data = demo_elf();
    let elf64 = ELF64::new(&data).unwrap();
    assert_eq!(elf64.get_symbol_offset(b"_Z7dynonlyv"), Some(0x2222));
    assert_eq!(elf64.get_symbol_offset(b"_Z5otherv"), Some(0x1234));
}

#[test]
fn missing_symbol_and_section_are_none() {
    let data = demo_elf();
    let elf64 = ELF64::new(&data).unwrap();
    assert_eq!(elf64.get_symbol_offset(b"_Z6matMul"), None);
    assert_eq!(elf64.get_symbol_addr(b"nope"), None);
    assert_eq!(elf64.get_section_offset(".nothere"), None);
    assert_eq!(elf64.get_section_size(".nothere"), None);
}

#[test]
fn file_without_gpu_code() {
    let data = build_elf(&[(5, 0, 0)], vec![sec("", 0, vec![]), sec(".text", 1, vec![0; 16])]);
    let elf64 = ELF64::new(&data).unwrap();
    assert!(!elf64.has_gpu_code());
    assert_eq!(elf64.get_gpu_code_offset(), None);
    assert_eq!(elf64.get_gpu_code_size(), None);
}

#[test]
fn no_executable_segment_or_no_elf() {
    let data = build_elf(&[(6, 0, 0)], vec![sec("", 0, vec![])]);
    assert!(ELF64::new(&data).is_none());
    assert!(ELF64::new(b"not an elf file at all, not at all......................").is_none());
}

fn loader_elf() -> Vec<u8> {
    loader_with(&[("_dl_debug_state", 0x1010), ("_r_debug", 0x3000)])
}

fn loader_with(symbols: &[(&'static str, u64)]) -> Vec<u8> {
    let names: Vec<&str> = symbols.iter().map(|s| s.0).collect();
    let (strtab_data, offs) = strtab(&names);
    let mut text = sec(".text", 1, vec![0x90u8; 0x40]);
    text.offset = Some(0x1000);
    text.data[0x10] = 0xf3;
    let entries: Vec<(u32, u64)> = offs.iter().zip(symbols.iter()).map(|(o, s)| (*o, s.1)).collect();
    let mut syms = sec(".symtab", 2, symtab(&entries));
    syms.link = 3;
    syms.entsize = 24;
    build_elf(&[(5, 0, 0)], vec![sec("", 0, vec![]), text, syms, sec(".strtab", 3, strtab_data)])
}

#[test]
fn tracer_reads_hook_and_descriptor() {
    let data = loader_elf();
    let tracer = Tracer::new(b"/lib/ld.so".to_vec(), &data).unwrap();
    assert_eq!(tracer.dl_debug_state_addr, 0x1010);
    assert_eq!(tracer.r_debug_addr, 0x3000);
    assert_eq!(tracer.dl_debug_state_first_byte, 0xf3);
    assert_eq!(tracer.loader_path, b"/lib/ld.so".to_vec());
}

#[test]
fn tracer_needs_the_loader_symbols() {
    let data = demo_elf();
    assert_eq!(Tracer::new(b"/lib/ld.so".to_vec(), &data).err(), Some(TracerError::MissingDebugState));
    assert_eq!(Tracer::new(b"x".to_vec(), b"junk").err(), Some(TracerError::NotElf));
}

#[test]
fn tracer_needs_the_descriptor() {
    let data = loader_with(&[("_dl_debug_state", 0x1010)]);
    assert_eq!(Tracer::new(b"ld".to_vec(), &data).err(), Some(TracerError::MissingRDebug));
}

#[test]
fn tracer_needs_the_hook_inside_the_file() {
    let data = loader_with(&[("_dl_debug_state", 0x10_0000), ("_r_debug", 0x3000)]);
    assert_eq!(Tracer::new(b"ld".to_vec(), &data).err(), Some(TracerError::HookOutsideFile));
}
