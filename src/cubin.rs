//! Parsers of the disassembler's output: the listing of extracted cubin files
//! and the ELF dump of one cubin, from which its kernel names are taken.
use vstd::prelude::*;
use vstd::slice::{slice_subrange, slice_to_vec};
use crate::locator::cublas_sentinel;
use crate::names::{bytes_eq, insert_name, names_view};
use crate::text::{fields, lines, split_fields, split_lines, trim, trim_bytes};

verus! {

/// The bytes of `Sections:`.
pub open spec fn sections_marker() -> Seq<u8> {
    seq![0x53, 0x65, 0x63, 0x74, 0x69, 0x6f, 0x6e, 0x73, 0x3a]
}

/// The bytes of `.section .symtab`.
pub open spec fn symtab_marker() -> Seq<u8> {
    seq![0x2e, 0x73, 0x65, 0x63, 0x74, 0x69, 0x6f, 0x6e, 0x20, 0x2e, 0x73, 0x79, 0x6d, 0x74, 0x61, 0x62]
}

/// The bytes of `.text.`.
pub open spec fn text_prefix() -> Seq<u8> {
    seq![0x2e, 0x74, 0x65, 0x78, 0x74, 0x2e]
}

/// What scanning a dump is in: before or between blocks, the section header
/// block, the symbol table block, or past the symbol table.
pub open spec fn dump_blocks(
    ls: Seq<Seq<u8>>,
    i: int,
    mode: int,
    sec: Seq<Seq<u8>>,
    sym: Seq<Seq<u8>>,
) -> (Seq<Seq<u8>>, Seq<Seq<u8>>)
    decreases ls.len() - i,
{
    if i < 0 || i >= ls.len() {
        (sec, sym)
    } else {
        let l = ls[i];
        let t = trim(l);
        if mode == 1 {
            if t.len() == 0 {
                dump_blocks(ls, i + 1, 0, sec, sym)
            } else {
                dump_blocks(ls, i + 1, 1, sec.push(l), sym)
            }
        } else if mode == 2 {
            if t.len() == 0 {
                (sec, sym)
            } else {
                dump_blocks(ls, i + 1, 2, sec, sym.push(l))
            }
        } else if t == sections_marker() {
            dump_blocks(ls, i + 1, 1, sec, sym)
        } else if t == symtab_marker() {
            dump_blocks(ls, i + 1, 2, sec, sym)
        } else {
            dump_blocks(ls, i + 1, 0, sec, sym)
        }
    }
}

/// The lines of the section header block and of the symbol table block of a
/// dump, each block running from its marker line to the next blank line.
pub open spec fn blocks(dump: Seq<u8>) -> (Seq<Seq<u8>>, Seq<Seq<u8>>) {
    dump_blocks(lines(dump), 0, 0, Seq::empty(), Seq::empty())
}

/// The kernel a section header line names: its tenth field without the
/// `.text.` prefix.
pub open spec fn text_kernel(line: Seq<u8>) -> Option<Seq<u8>> {
    let f = fields(line);
    if f.len() >= 10 && f[9].len() >= 6 && f[9].subrange(0, 6) == text_prefix() {
        Some(f[9].subrange(6, f[9].len() as int))
    } else {
        None
    }
}

/// Whether a symbol table line names the cuBLAS internal constants in its
/// seventh field.
pub open spec fn names_sentinel(line: Seq<u8>) -> bool {
    let f = fields(line);
    f.len() >= 7 && f[6] == cublas_sentinel()
}

/// Whether `k` is a kernel of the cubin whose dump is `dump`: named by a
/// section header (past the block's first, heading line), or the cuBLAS
/// internal constants when a symbol table entry (past its heading) names them.
pub open spec fn is_dump_kernel(dump: Seq<u8>, k: Seq<u8>) -> bool {
    let sec = blocks(dump).0;
    let sym = blocks(dump).1;
    (exists|i: int| 1 <= i < sec.len() && text_kernel(sec[i]) == Some(k)) || (k == cublas_sentinel()
        && exists|i: int| 1 <= i < sym.len() && names_sentinel(sym[i]))
}

fn marker_bytes(which: u8) -> (r: Vec<u8>)
    ensures
        which == 0 ==> r@ == sections_marker(),
        which == 1 ==> r@ == symtab_marker(),
        which == 2 ==> r@ == text_prefix(),
        which == 3 ==> r@ == cublas_sentinel(),
{
    if which == 0 {
        let r = vec![0x53, 0x65, 0x63, 0x74, 0x69, 0x6f, 0x6e, 0x73, 0x3a];
        assert(r@ =~= sections_marker());
        r
    } else if which == 1 {
        let r = vec![
            0x2e, 0x73, 0x65, 0x63, 0x74, 0x69, 0x6f, 0x6e, 0x20, 0x2e, 0x73, 0x79, 0x6d, 0x74,
            0x61, 0x62,
        ];
        assert(r@ =~= symtab_marker());
        r
    } else if which == 2 {
        let r = vec![0x2e, 0x74, 0x65, 0x78, 0x74, 0x2e];
        assert(r@ =~= text_prefix());
        r
    } else {
        crate::locator::cublas_sentinel_bytes()
    }
}

/// Splits a dump into its section header block and its symbol table block.
fn dump_block_lines(dump: &[u8]) -> (r: (Vec<Vec<u8>>, Vec<Vec<u8>>))
    ensures
        (names_view(r.0@), names_view(r.1@)) == blocks(dump@),
{
    let ls = split_lines(dump);
    let ghost lv = names_view(ls@);
    assert(lv == lines(dump@));
    let sections = marker_bytes(0);
    let symtab = marker_bytes(1);
    let mut sec: Vec<Vec<u8>> = Vec::new();
    let mut sym: Vec<Vec<u8>> = Vec::new();
    let mut mode: u8 = 0;
    let mut i: usize = 0;
    assert(names_view(sec@) =~= Seq::<Seq<u8>>::empty());
    assert(names_view(sym@) =~= Seq::<Seq<u8>>::empty());
    while i < ls.len()
        invariant
            lv == names_view(ls@),
            lv == lines(dump@),
            sections@ == sections_marker(),
            symtab@ == symtab_marker(),
            i <= ls@.len(),
            mode <= 3,
            blocks(dump@) == if mode == 3 {
                (names_view(sec@), names_view(sym@))
            } else {
                dump_blocks(lv, i as int, mode as int, names_view(sec@), names_view(sym@))
            },
        decreases ls@.len() - i,
    {
        let line = ls[i].as_slice();
        assert(line@ == lv[i as int]);
        let t = trim_bytes(line);
        let ghost s0 = names_view(sec@);
        let ghost y0 = names_view(sym@);
        if mode == 1 {
            if t.len() == 0 {
                mode = 0;
            } else {
                sec.push(slice_to_vec(line));
                assert(names_view(sec@) =~= s0.push(lv[i as int]));
            }
        } else if mode == 2 {
            if t.len() == 0 {
                mode = 3;
            } else {
                sym.push(slice_to_vec(line));
                assert(names_view(sym@) =~= y0.push(lv[i as int]));
            }
        } else if mode == 0 {
            if bytes_eq(t.as_slice(), sections.as_slice()) {
                mode = 1;
            } else if bytes_eq(t.as_slice(), symtab.as_slice()) {
                mode = 2;
            }
        }
        i = i + 1;
    }
    (sec, sym)
}

/// The kernel names of a cubin, from the disassembler's ELF dump of it: the
/// names of its `.text.` sections, and the cuBLAS internal constants when its
/// symbol table holds them. Each name once.
pub fn cubin_kernels(dump: &[u8]) -> (r: Vec<Vec<u8>>)
    ensures
        names_view(r@).no_duplicates(),
        forall|k: Seq<u8>| names_view(r@).contains(k) <==> is_dump_kernel(dump@, k),
{
    let (sec, sym) = dump_block_lines(dump);
    let ghost sv = names_view(sec@);
    let ghost yv = names_view(sym@);
    let prefix = marker_bytes(2);
    let sentinel = marker_bytes(3);
    let mut names: Vec<Vec<u8>> = Vec::new();
    assert(names_view(names@) =~= Seq::<Seq<u8>>::empty());
    let mut i: usize = 1;
    while i < sec.len()
        invariant
            sv == names_view(sec@),
            prefix@ == text_prefix(),
            1 <= i,
            i <= sec@.len() || sec@.len() == 0,
            names_view(names@).no_duplicates(),
            forall|k: Seq<u8>|
                names_view(names@).contains(k) <==> exists|x: int|
                    1 <= x < i && x < sv.len() && text_kernel(sv[x]) == Some(k),
        decreases sec@.len() - i,
    {
        let line = sec[i].as_slice();
        assert(line@ == sv[i as int]);
        let f = split_fields(line);
        assert(names_view(f@) == fields(line@));
        let ghost before = names_view(names@);
        if f.len() >= 10 && f[9].len() >= 6 && bytes_eq(
            slice_subrange(f[9].as_slice(), 0, 6),
            prefix.as_slice(),
        ) {
            let name = slice_to_vec(slice_subrange(f[9].as_slice(), 6, f[9].len()));
            let ghost nv = name@;
            assert(text_kernel(sv[i as int]) == Some(nv));
            insert_name(&mut names, name);
            assert forall|k: Seq<u8>| names_view(names@).contains(k) <==> exists|x: int|
                1 <= x < i + 1 && x < sv.len() && text_kernel(sv[x]) == Some(k) by {
                if k == nv {
                    assert(text_kernel(sv[i as int]) == Some(k));
                }
            }
        } else {
            assert(text_kernel(sv[i as int]) is None);
            assert forall|k: Seq<u8>| names_view(names@).contains(k) <==> exists|x: int|
                1 <= x < i + 1 && x < sv.len() && text_kernel(sv[x]) == Some(k) by {
                if exists|x: int| 1 <= x < i + 1 && x < sv.len() && text_kernel(sv[x]) == Some(k) {
                    let x = choose|x: int|
                        1 <= x < i + 1 && x < sv.len() && text_kernel(sv[x]) == Some(k);
                    assert(x != i);
                }
            }
        }
        i = i + 1;
    }
    let mut found = false;
    let mut j: usize = 1;
    while j < sym.len() && !found
        invariant
            yv == names_view(sym@),
            sentinel@ == cublas_sentinel(),
            1 <= j,
            found == exists|x: int| 1 <= x < j && x < yv.len() && names_sentinel(yv[x]),
        decreases sym@.len() - j,
    {
        let line = sym[j].as_slice();
        assert(line@ == yv[j as int]);
        let f = split_fields(line);
        assert(names_view(f@) == fields(line@));
        if f.len() >= 7 && bytes_eq(f[6].as_slice(), sentinel.as_slice()) {
            found = true;
            assert(names_sentinel(yv[j as int]));
        } else {
            assert(!names_sentinel(yv[j as int]));
        }
        j = j + 1;
    }
    assert(found == exists|x: int| 1 <= x < yv.len() && names_sentinel(yv[x]));
    let ghost before = names_view(names@);
    if found {
        insert_name(&mut names, sentinel);
    }
    assert((sv, yv) == blocks(dump@));
    assert forall|k: Seq<u8>| names_view(names@).contains(k) <==> is_dump_kernel(dump@, k) by {
        let in_sections = exists|x: int| 1 <= x < sv.len() && text_kernel(sv[x]) == Some(k);
        assert(before.contains(k) <==> in_sections) by {
            if in_sections {
                let x = choose|x: int| 1 <= x < sv.len() && text_kernel(sv[x]) == Some(k);
                assert(1 <= x < i && x < sv.len() && text_kernel(sv[x]) == Some(k));
            }
        }
        assert(blocks(dump@).0 == sv);
        assert(blocks(dump@).1 == yv);
        let in_symbols = exists|x: int| 1 <= x < yv.len() && names_sentinel(yv[x]);
        assert(found == in_symbols);
        assert(is_dump_kernel(dump@, k) == (in_sections || (k == cublas_sentinel() && in_symbols)));
    }
    names
}

/// Index of the first `:` in `l` at or after `i`, or `l.len()`.
pub open spec fn colon_index(l: Seq<u8>, i: int) -> int
    decreases l.len() - i,
{
    if i < 0 || i >= l.len() {
        l.len() as int
    } else if l[i] == 0x3a {
        i
    } else {
        colon_index(l, i + 1)
    }
}

/// The text between the first `:` of a line and the next `:` (or the line's
/// end), trimmed; `None` when the line has no `:`.
pub open spec fn colon_field(l: Seq<u8>) -> Option<Seq<u8>> {
    let c = colon_index(l, 0);
    if c >= l.len() {
        None
    } else {
        Some(trim(l.subrange(c + 1, colon_index(l, c + 1))))
    }
}

/// The file names that a listing of extracted cubins gives, one per line of
/// the form `Extracting ELF file N: <name>`, in listing order.
pub open spec fn listed_cubins(ls: Seq<Seq<u8>>) -> Seq<Seq<u8>>
    decreases ls.len(),
{
    if ls.len() == 0 {
        Seq::empty()
    } else {
        listed_cubins(ls.drop_last()) + match colon_field(ls.last()) {
            Some(name) => seq![name],
            None => Seq::empty(),
        }
    }
}

/// Index of the first `:` in `l` at or after `from`, or `l.len()`.
fn find_colon(l: &[u8], from: usize) -> (r: usize)
    requires
        from <= l@.len(),
    ensures
        r == colon_index(l@, from as int),
        from <= r <= l@.len(),
{
    let mut k: usize = from;
    while k < l.len() && l[k] != 0x3a
        invariant
            from <= k <= l@.len(),
            colon_index(l@, from as int) == colon_index(l@, k as int),
        decreases l@.len() - k,
    {
        k = k + 1;
    }
    k
}

/// The file names in the disassembler's listing of the cubins it extracted,
/// in the order it extracted them.
pub fn cubin_file_names(listing: &[u8]) -> (r: Vec<Vec<u8>>)
    ensures
        names_view(r@) == listed_cubins(lines(listing@)),
{
    let ls = split_lines(listing);
    let ghost lv = names_view(ls@);
    let mut out: Vec<Vec<u8>> = Vec::new();
    let mut i: usize = 0;
    while i < ls.len()
        invariant
            lv == names_view(ls@),
            lv == lines(listing@),
            i <= ls@.len(),
            names_view(out@) == listed_cubins(lv.subrange(0, i as int)),
        decreases ls@.len() - i,
    {
        let line = ls[i].as_slice();
        assert(lv.subrange(0, i + 1).drop_last() =~= lv.subrange(0, i as int));
        assert(lv.subrange(0, i + 1).last() == line@);
        let c = find_colon(line, 0);
        let ghost before = names_view(out@);
        if c < line.len() {
            let e = find_colon(line, c + 1);
            let name = trim_bytes(slice_subrange(line, c + 1, e));
            assert(colon_field(line@) == Some(name@));
            out.push(name);
            assert(names_view(out@) =~= before + seq![colon_field(line@).unwrap()]);
        } else {
            assert(colon_field(line@) is None);
            assert(names_view(out@) =~= before + Seq::empty());
        }
        i = i + 1;
    }
    assert(lv.subrange(0, i as int) =~= lv);
    out
}

} // verus!
