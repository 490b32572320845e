//! Reader of 64-bit ELF shared objects: symbol file offsets and load
//! addresses, and section locations. Parsing is done by the `elf` crate.
use vstd::prelude::*;
use vstd::wrapping::u64_specs::{wrapping_add, wrapping_sub};
use elf::endian::AnyEndian;
use elf::ElfBytes;

verus! {

/// Program-header type of a loadable segment.
pub const PT_LOAD: u32 = 1;

/// Segment flags of a readable and executable, not writable, segment.
pub const PF_R_X: u32 = 5;

/// Program headers as `(p_type, p_flags, p_vaddr, p_offset)`, or `None` when
/// the file does not parse or has no program header table.
pub uninterp spec fn elf_segments(data: Seq<u8>) -> Option<Seq<(u32, u32, u64, u64)>>;

/// `(sh_offset, sh_size)` of the section called `name`, or `None` when the file
/// does not parse or has no such section.
pub uninterp spec fn elf_section_header(data: Seq<u8>, name: Seq<char>) -> Option<(u64, u64)>;

/// Contents of the section called `name`, or `None` when there is none.
pub uninterp spec fn elf_section_data(data: Seq<u8>, name: Seq<char>) -> Option<Seq<u8>>;

/// `.symtab` entries as `(st_name, st_value)`, or `None` when there is none.
pub uninterp spec fn elf_symbols(data: Seq<u8>) -> Option<Seq<(u32, u64)>>;

/// `.dynsym` entries as `(st_name, st_value)`, or `None` when there is none.
pub uninterp spec fn elf_dynamic_symbols(data: Seq<u8>) -> Option<Seq<(u32, u64)>>;

/// Relies on `elf::ElfBytes::minimal_parse` and `ElfBytes::segments`: the
/// program headers of the file, in table order.
#[verifier::external_body]
fn read_segments(data: &[u8]) -> (r: Option<Vec<(u32, u32, u64, u64)>>)
    ensures
        r is None <==> elf_segments(data@) is None,
        r matches Some(v) ==> elf_segments(data@) == Some(v@),
{
    let file = ElfBytes::<AnyEndian>::minimal_parse(data).ok()?;
    let table = file.segments()?;
    Some(table.iter().map(|p| (p.p_type, p.p_flags, p.p_vaddr, p.p_offset)).collect())
}

/// Relies on `elf::ElfBytes::minimal_parse` and
/// `ElfBytes::section_header_by_name`: the header of the section called `name`.
#[verifier::external_body]
fn read_section_header(data: &[u8], name: &str) -> (r: Option<(u64, u64)>)
    ensures
        r == elf_section_header(data@, name@),
{
    let file = ElfBytes::<AnyEndian>::minimal_parse(data).ok()?;
    let header = file.section_header_by_name(name).ok()??;
    Some((header.sh_offset, header.sh_size))
}

/// Relies on `elf::ElfBytes::minimal_parse`, `ElfBytes::section_header_by_name`
/// and `ElfBytes::section_data`: the bytes of the section called `name`.
#[verifier::external_body]
fn read_section_data(data: &[u8], name: &str) -> (r: Option<Vec<u8>>)
    ensures
        r is None <==> elf_section_data(data@, name@) is None,
        r matches Some(v) ==> elf_section_data(data@, name@) == Some(v@),
{
    let file = ElfBytes::<AnyEndian>::minimal_parse(data).ok()?;
    let header = file.section_header_by_name(name).ok()??;
    Some(file.section_data(&header).ok()?.0.to_vec())
}

/// Relies on `elf::ElfBytes::minimal_parse` and `ElfBytes::symbol_table`: the
/// entries of the static symbol table.
#[verifier::external_body]
fn read_symbols(data: &[u8]) -> (r: Option<Vec<(u32, u64)>>)
    ensures
        r is None <==> elf_symbols(data@) is None,
        r matches Some(v) ==> elf_symbols(data@) == Some(v@),
{
    let file = ElfBytes::<AnyEndian>::minimal_parse(data).ok()?;
    let (table, _) = file.symbol_table().ok()??;
    Some(table.iter().map(|s| (s.st_name, s.st_value)).collect())
}

/// Relies on `elf::ElfBytes::minimal_parse` and
/// `ElfBytes::dynamic_symbol_table`: the entries of the dynamic symbol table.
#[verifier::external_body]
fn read_dynamic_symbols(data: &[u8]) -> (r: Option<Vec<(u32, u64)>>)
    ensures
        r is None <==> elf_dynamic_symbols(data@) is None,
        r matches Some(v) ==> elf_dynamic_symbols(data@) == Some(v@),
{
    let file = ElfBytes::<AnyEndian>::minimal_parse(data).ok()?;
    let (table, _) = file.dynamic_symbol_table().ok()??;
    Some(table.iter().map(|s| (s.st_name, s.st_value)).collect())
}

/// Whether a program header is a loadable read-and-execute segment.
pub open spec fn is_rx_load(p: (u32, u32, u64, u64)) -> bool {
    p.0 == PT_LOAD && p.1 == PF_R_X
}

/// Index of the first loadable read-and-execute segment.
pub open spec fn first_rx_load(segs: Seq<(u32, u32, u64, u64)>, k: int) -> Option<int>
    decreases segs.len() - k,
{
    if k < 0 || k >= segs.len() {
        None
    } else if is_rx_load(segs[k]) {
        Some(k)
    } else {
        first_rx_load(segs, k + 1)
    }
}

/// End (exclusive) of the NUL-terminated string at `off` in `tab`: the first
/// NUL at or after `off`, or the end of the table.
pub open spec fn cstr_end(tab: Seq<u8>, off: int) -> int
    decreases tab.len() - off,
{
    if off >= tab.len() {
        tab.len() as int
    } else if tab[off] == 0 {
        off
    } else {
        cstr_end(tab, off + 1)
    }
}

/// The string at `off` in a string table, without its NUL.
pub open spec fn cstr_at(tab: Seq<u8>, off: int) -> Seq<u8> {
    if 0 <= off < tab.len() {
        tab.subrange(off, cstr_end(tab, off))
    } else {
        Seq::empty()
    }
}

/// `st_value` of the first symbol in `syms` whose name in `tab` is `name`.
pub open spec fn find_symbol(syms: Seq<(u32, u64)>, tab: Seq<u8>, name: Seq<u8>) -> Option<u64>
    decreases syms.len(),
{
    if syms.len() == 0 {
        None
    } else if cstr_at(tab, syms[0].0 as int) == name {
        Some(syms[0].1)
    } else {
        find_symbol(syms.drop_first(), tab, name)
    }
}

/// `st_value` of the symbol `name` in the static symbol table of `data` (with
/// names in `.strtab`), or failing that in the dynamic one (names in `.dynstr`).
pub open spec fn symbol_value(data: Seq<u8>, name: Seq<u8>) -> Option<u64> {
    let in_static = match (elf_symbols(data), elf_section_data(data, ".strtab"@)) {
        (Some(syms), Some(tab)) => find_symbol(syms, tab, name),
        _ => None,
    };
    if in_static is Some {
        in_static
    } else {
        match (elf_dynamic_symbols(data), elf_section_data(data, ".dynstr"@)) {
            (Some(syms), Some(tab)) => find_symbol(syms, tab, name),
            _ => None,
        }
    }
}

/// Whether the NUL-terminated string at `off` in `tab` is `name`.
fn name_matches(tab: &[u8], off: usize, name: &[u8]) -> (r: bool)
    ensures
        r == (cstr_at(tab@, off as int) == name@),
{
    if off >= tab.len() {
        assert(name@.len() == 0 ==> name@ =~= Seq::<u8>::empty());
        return name.len() == 0;
    }
    let mut k: usize = 0;
    while k < name.len()
        invariant
            off < tab@.len(),
            tab@.len() == tab.len(),
            k <= name@.len(),
            off + k <= tab@.len(),
            forall|x: int|
                #![trigger name@[x]]
                0 <= x < k ==> tab@[off + x] == name@[x],
            cstr_end(tab@, off as int) == cstr_end(tab@, off + k),
        decreases name@.len() - k,
    {
        if off + k >= tab.len() || tab[off + k] == 0 || tab[off + k] != name[k] {
            proof {
                lemma_cstr_end_bounds(tab@, off as int);
                if off + k < tab@.len() && tab@[off + k] == 0 {
                    assert(cstr_end(tab@, off + k) == off + k);
                    assert(cstr_at(tab@, off as int).len() == k);
                } else if off + k < tab@.len() {
                    if cstr_at(tab@, off as int) == name@ {
                        lemma_cstr_end_bounds(tab@, off + k + 1);
                        assert(cstr_end(tab@, off + k) == cstr_end(tab@, off + k + 1));
                        assert(cstr_at(tab@, off as int)[k as int] == tab@[off + k]);
                    }
                } else {
                    assert(cstr_at(tab@, off as int).len() == k);
                }
            }
            return false;
        }
        assert(tab@[off + k] == name@[k as int]);
        k = k + 1;
        proof {
            assert(cstr_end(tab@, off + k - 1) == cstr_end(tab@, off + k));
        }
    }
    proof {
        lemma_cstr_end_bounds(tab@, off as int);
    }
    let r = off + k == tab.len() || tab[off + k] == 0;
    proof {
        if r {
            assert(cstr_end(tab@, off + k) == off + k);
            assert(cstr_at(tab@, off as int) =~= name@);
        } else {
            lemma_cstr_end_bounds(tab@, off + k + 1);
            assert(cstr_end(tab@, off + k) == cstr_end(tab@, off + k + 1));
            assert(cstr_at(tab@, off as int).len() > k);
        }
    }
    r
}

proof fn lemma_cstr_end_bounds(tab: Seq<u8>, off: int)
    requires
        0 <= off,
    ensures
        off <= tab.len() ==> off <= cstr_end(tab, off) <= tab.len(),
        forall|x: int| off <= x < cstr_end(tab, off) ==> tab[x] != 0,
    decreases tab.len() - off,
{
    if off < tab.len() && tab[off] != 0 {
        lemma_cstr_end_bounds(tab, off + 1);
    }
}

/// `st_value` of the first of `syms` whose name in `tab` is `name`.
fn find_symbol_exec(syms: &Vec<(u32, u64)>, tab: &[u8], name: &[u8]) -> (r: Option<u64>)
    ensures
        r == find_symbol(syms@, tab@, name@),
{
    let mut i: usize = 0;
    assert(syms@.subrange(0, syms@.len() as int) =~= syms@);
    while i < syms.len()
        invariant
            i <= syms@.len(),
            find_symbol(syms@, tab@, name@) == find_symbol(
                syms@.subrange(i as int, syms@.len() as int),
                tab@,
                name@,
            ),
        decreases syms@.len() - i,
    {
        let ghost rest = syms@.subrange(i as int, syms@.len() as int);
        assert(rest[0] == syms@[i as int]);
        assert(rest.drop_first() =~= syms@.subrange(i + 1, syms@.len() as int));
        let (st_name, st_value) = syms[i];
        if name_matches(tab, st_name as usize, name) {
            return Some(st_value);
        }
        i = i + 1;
    }
    assert(syms@.subrange(i as int, syms@.len() as int).len() == 0);
    None
}

/// A 64-bit ELF file and the loadable read-and-execute segment that relates
/// its file offsets to loaded addresses.
pub struct ELF64<'data> {
    data: &'data [u8],
    /// `p_vaddr` of the executable load segment.
    load_vaddr: u64,
    /// `p_offset` of the executable load segment.
    load_offset: u64,
}

/// File offset of the loaded address `a`: `a - Δ`, modulo 2^64, where
/// `Δ = vaddr - offset` of the executable load segment.
pub open spec fn offset_of_addr(a: u64, vaddr: u64, offset: u64) -> u64 {
    wrapping_add(wrapping_sub(a, vaddr), offset)
}

/// Loaded address of the file offset `o`: `o + Δ`, modulo 2^64.
pub open spec fn addr_of_offset(o: u64, vaddr: u64, offset: u64) -> u64 {
    wrapping_add(wrapping_sub(o, offset), vaddr)
}

impl<'data> ELF64<'data> {
    /// The bytes of the file.
    pub closed spec fn bytes(&self) -> Seq<u8> {
        self.data@
    }

    /// `p_vaddr` of the executable load segment.
    pub closed spec fn vaddr(&self) -> u64 {
        self.load_vaddr
    }

    /// `p_offset` of the executable load segment.
    pub closed spec fn file_offset(&self) -> u64 {
        self.load_offset
    }

    /// `Δ = vaddr - offset` of the executable load segment.
    pub open spec fn delta(&self) -> int {
        self.vaddr() - self.file_offset()
    }

    /// Reads `data` as an ELF file whose first loadable read-and-execute
    /// segment gives `Δ`; `None` when it does not parse or has no such segment.
    pub fn new(data: &'data [u8]) -> (r: Option<ELF64<'data>>)
        ensures
            r is None <==> (elf_segments(data@) is None || first_rx_load(
                elf_segments(data@).unwrap(),
                0,
            ) is None),
            r matches Some(e) ==> {
                let segs = elf_segments(data@).unwrap();
                let k = first_rx_load(segs, 0).unwrap();
                &&& e.bytes() == data@
                &&& e.vaddr() == segs[k].2
                &&& e.file_offset() == segs[k].3
            },
    {
        let segs = match read_segments(data) {
            Some(s) => s,
            None => {
                return None;
            },
        };
        let mut k: usize = 0;
        while k < segs.len()
            invariant
                elf_segments(data@) == Some(segs@),
                k <= segs@.len(),
                first_rx_load(segs@, 0) == first_rx_load(segs@, k as int),
            decreases segs@.len() - k,
        {
            let (p_type, p_flags, p_vaddr, p_offset) = segs[k];
            if p_type == PT_LOAD && p_flags == PF_R_X {
                return Some(ELF64 { data, load_vaddr: p_vaddr, load_offset: p_offset });
            }
            k = k + 1;
        }
        None
    }

    /// File offset of the symbol whose name is `symbol_bytes`, looked up in the
    /// static symbol table first, then in the dynamic one: `st_value - Δ`.
    pub fn get_symbol_offset(&self, symbol_bytes: &[u8]) -> (r: Option<u64>)
        ensures
            r is None <==> symbol_value(self.bytes(), symbol_bytes@) is None,
            r matches Some(o) ==> o == offset_of_addr(
                symbol_value(self.bytes(), symbol_bytes@).unwrap(),
                self.vaddr(),
                self.file_offset(),
            ),
    {
        let mut found: Option<u64> = None;
        match (read_symbols(self.data), read_section_data(self.data, ".strtab")) {
            (Some(syms), Some(tab)) => {
                found = find_symbol_exec(&syms, tab.as_slice(), symbol_bytes);
            },
            _ => {},
        }
        if found.is_none() {
            match (read_dynamic_symbols(self.data), read_section_data(self.data, ".dynstr")) {
                (Some(syms), Some(tab)) => {
                    found = find_symbol_exec(&syms, tab.as_slice(), symbol_bytes);
                },
                _ => {},
            }
        }
        match found {
            Some(v) => Some(v.wrapping_sub(self.load_vaddr).wrapping_add(self.load_offset)),
            None => None,
        }
    }

    /// Loaded address of the symbol whose name is `symbol_bytes`: its file
    /// offset plus `Δ`, which is its `st_value`.
    pub fn get_symbol_addr(&self, symbol_bytes: &[u8]) -> (r: Option<u64>)
        ensures
            r is None <==> symbol_value(self.bytes(), symbol_bytes@) is None,
            r matches Some(a) ==> {
                &&& a == addr_of_offset(
                    offset_of_addr(
                        symbol_value(self.bytes(), symbol_bytes@).unwrap(),
                        self.vaddr(),
                        self.file_offset(),
                    ),
                    self.vaddr(),
                    self.file_offset(),
                )
                &&& a == symbol_value(self.bytes(), symbol_bytes@).unwrap()
            },
    {
        match self.get_symbol_offset(symbol_bytes) {
            Some(off) => {
                let a = off.wrapping_sub(self.load_offset).wrapping_add(self.load_vaddr);
                proof {
                    lemma_offset_addr_round_trip(
                        symbol_value(self.bytes(), symbol_bytes@).unwrap(),
                        self.vaddr(),
                        self.file_offset(),
                    );
                }
                Some(a)
            },
            None => None,
        }
    }

    /// File offset of the section called `section_name`.
    pub fn get_section_offset(&self, section_name: &str) -> (r: Option<u64>)
        ensures
            r is None <==> elf_section_header(self.bytes(), section_name@) is None,
            r matches Some(o) ==> o == elf_section_header(self.bytes(), section_name@).unwrap().0,
    {
        match read_section_header(self.data, section_name) {
            Some((offset, _)) => Some(offset),
            None => None,
        }
    }

    /// Size of the section called `section_name`.
    pub fn get_section_size(&self, section_name: &str) -> (r: Option<u64>)
        ensures
            r is None <==> elf_section_header(self.bytes(), section_name@) is None,
            r matches Some(s) ==> s == elf_section_header(self.bytes(), section_name@).unwrap().1,
    {
        match read_section_header(self.data, section_name) {
            Some((_, size)) => Some(size),
            None => None,
        }
    }

    /// Whether the file has a GPU code section (`.nv_fatbin`).
    pub fn has_gpu_code(&self) -> (r: bool)
        ensures
            r == elf_section_header(self.bytes(), ".nv_fatbin"@) is Some,
    {
        read_section_header(self.data, ".nv_fatbin").is_some()
    }

    /// File offset of the GPU code section.
    pub fn get_gpu_code_offset(&self) -> (r: Option<u64>)
        ensures
            r is None <==> elf_section_header(self.bytes(), ".nv_fatbin"@) is None,
            r matches Some(o) ==> o == elf_section_header(self.bytes(), ".nv_fatbin"@).unwrap().0,
    {
        self.get_section_offset(".nv_fatbin")
    }

    /// Size of the GPU code section.
    pub fn get_gpu_code_size(&self) -> (r: Option<u64>)
        ensures
            r is None <==> elf_section_header(self.bytes(), ".nv_fatbin"@) is None,
            r matches Some(s) ==> s == elf_section_header(self.bytes(), ".nv_fatbin"@).unwrap().1,
    {
        self.get_section_size(".nv_fatbin")
    }
}

/// Adding `Δ` back to a file offset computed as `a - Δ` gives `a`, modulo 2^64.
pub proof fn lemma_offset_addr_round_trip(a: u64, vaddr: u64, offset: u64)
    ensures
        addr_of_offset(offset_of_addr(a, vaddr, offset), vaddr, offset) == a,
{
}

} // verus!
