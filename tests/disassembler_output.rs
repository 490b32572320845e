use negativa_ml::cubin::{cubin_file_names, cubin_kernels};

const DUMP: &str = "\
Fatbin elf code:
================
arch = sm_70

Sections:
Index Offset   Size ES Align Type   Flags Link     Info Name
    1     40    2b9  0  1 STRTAB       0    0        0 .shstrtab
    2    2f9    3ae  0  1 STRTAB       0    0        0 .strtab
   10    a00    180  0 80 PROGBITS     6    3 18000009 .text._Z12matrixMulGPUPiS_S_iii
   11    b80    100  0 80 PROGBITS     6    3 18000009 .text._Z16setScalarItemGPUiPiii
   12    c80    100  0 80 PROGBITS     6    3 18000009 .text._Z12matrixMulGPUPiS_S_iii

.section .symtab
 Index Value Size Type Bind Name
    0     0     0 NOTYPE LOCAL 0 _Z5first
malformed
";

fn as_strings(v: Vec<Vec<u8>>) -> Vec<String> {
    let mut s: Vec<String> = v.into_iter().map(|b| String::from_utf8(b).unwrap()).collect();
    s.sort();
    s
}

#[test]
fn kernels_come_from_text_sections() {
    let kernels = as_strings(cubin_kernels(DUMP.as_bytes()));
    assert_eq!(
        kernels,
        vec!["_Z12matrixMulGPUPiS_S_iii".to_string(), "_Z16setScalarItemGPUiPiii".to_string()]
    );
}

#[test]
fn cublas_constants_in_symbol_table_are_a_kernel() {
    let dump = "Sections:\r\nIndex Offset Size ES Align Type Flags Link Info Name\r\n  1 40 10 0 1 PROGBITS 6 3 0 .nv.constant0\r\n\r\n  .section .symtab  \r\n Index Value Size Type Bind Name\r\n 3 0 40 OBJECT GLOBAL 7 _ZN6cublas8internal15deviceConstantsE\r\n";
    let kernels = as_strings(cubin_kernels(dump.as_bytes()));
    assert_eq!(kernels, vec!["_ZN6cublas8internal15deviceConstantsE".to_string()]);
}

#[test]
fn section_header_row_is_skipped() {
    let dump = "Sections:\nIndex Offset Size ES Align Type Flags Link Info .text._Zheader\n";
    assert_eq!(cubin_kernels(dump.as_bytes()).len(), 0);
}

#[test]
fn dump_without_blocks_has_no_kernel() {
    assert_eq!(cubin_kernels(b"").len(), 0);
    assert_eq!(cubin_kernels(b"nothing here\n\n").len(), 0);
}

#[test]
fn listing_gives_file_names_in_order() {
    let listing = "Extracting ELF file    1: libdemo.1.sm_70.cubin\nExtracting ELF file    2: libdemo.2.sm_75.cubin\nno colon here\nExtracting ELF file    3:   libdemo.3.sm_70.cubin  \n";
    let files = cubin_file_names(listing.as_bytes());
    let files: Vec<String> = files.into_iter().map(|b| String::from_utf8(b).unwrap()).collect();
    assert_eq!(
        files,
        vec![
            "libdemo.1.sm_70.cubin".to_string(),
            "libdemo.2.sm_75.cubin".to_string(),
            "libdemo.3.sm_70.cubin".to_string()
        ]
    );
}

#[test]
fn listing_name_stops_at_second_colon() {
    let files = cubin_file_names(b"Extracting ELF file 1: a.cubin: extra");
    assert_eq!(files, vec![b"a.cubin".to_vec()]);
}
