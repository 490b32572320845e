//! Maps fat-binary elements to file spans and selects the spans that a traced
//! workload leaves unused.
use vstd::prelude::*;
use crate::gpu_code::{
    advance, best_fit, elements_from, parse_gpu_code, region_at, regions_from, region_header_at,
    Element, Region, RegionHeader, GPUCode, CUBIN_FILE_TYPE, REGION_HEADER_SIZE,
};
use crate::names::{has_name, names_view, shares_name, shares_name_exec};

verus! {

/// A half-open byte range `[start, end)` of the shared object file.
#[derive(Clone, Copy, Debug)]
pub struct ElementSpan {
    pub start: u64,
    pub end: u64,
}

/// Sum of the advances of the first `j` elements of a region.
pub open spec fn inner_offset(els: Seq<Element>, j: int) -> int
    decreases j,
{
    if j <= 0 {
        0
    } else {
        inner_offset(els, j - 1) + advance(els[j - 1].header)
    }
}

/// Offset of region `i` from the start of the GPU code section.
pub open spec fn region_base(rs: Seq<(RegionHeader, Seq<Element>)>, i: int) -> int
    decreases i,
{
    if i <= 0 {
        0
    } else {
        region_base(rs, i - 1) + REGION_HEADER_SIZE + rs[i - 1].0.fat_size
    }
}

/// File offset where the payload of element `j` of region `i` starts, for a GPU
/// code section at file offset `gpu_off`.
pub open spec fn span_start(rs: Seq<(RegionHeader, Seq<Element>)>, gpu_off: int, i: int, j: int) -> int {
    gpu_off + region_base(rs, i) + rs[i].0.header_size + rs[i].1[j].header.offset + inner_offset(
        rs[i].1,
        j,
    )
}

/// File offset where the payload of element `j` of region `i` ends (exclusive).
pub open spec fn span_end(rs: Seq<(RegionHeader, Seq<Element>)>, gpu_off: int, i: int, j: int) -> int {
    span_start(rs, gpu_off, i, j) + rs[i].1[j].header.size
}

proof fn lemma_inner_offset_cons(x: Element, s: Seq<Element>, j: int)
    requires
        0 <= j <= s.len(),
    ensures
        inner_offset(seq![x] + s, j + 1) == advance(x.header) + inner_offset(s, j),
    decreases j,
{
    let t = seq![x] + s;
    assert(t[0] == x);
    assert(inner_offset(t, j + 1) == inner_offset(t, j) + advance(t[j].header));
    if j > 0 {
        lemma_inner_offset_cons(x, s, j - 1);
        assert(t[j] == s[j - 1]);
        assert(inner_offset(s, j) == inner_offset(s, j - 1) + advance(s[j - 1].header));
    } else {
        assert(inner_offset(t, 0) == 0);
    }
}

proof fn lemma_inner_offset_monotonic(els: Seq<Element>, j: int, k: int)
    requires
        0 <= j <= k,
    ensures
        inner_offset(els, j) <= inner_offset(els, k),
    decreases k,
{
    if j < k {
        lemma_inner_offset_monotonic(els, j, k - 1);
    }
}

proof fn lemma_elements_within(d: Seq<u8>, base: int, rsize: int, fat: int, e0: int)
    requires
        0 <= e0 <= rsize,
        elements_from(d, base, rsize, fat, e0) is Some,
    ensures
        forall|j: int|
            0 <= j <= elements_from(d, base, rsize, fat, e0).unwrap().len() ==> e0 + inner_offset(
                elements_from(d, base, rsize, fat, e0).unwrap(),
                j,
            ) <= rsize,
    decreases rsize - e0,
{
    let es = elements_from(d, base, rsize, fat, e0).unwrap();
    if e0 < fat {
        let h = crate::gpu_code::element_header_at(d, base + e0);
        let next = e0 + advance(h);
        let rest = elements_from(d, base, rsize, fat, next).unwrap();
        lemma_elements_within(d, base, rsize, fat, next);
        assert(es == seq![Element { header: h }] + rest);
        assert forall|j: int| 0 <= j <= es.len() implies e0 + inner_offset(es, j) <= rsize by {
            if j > 0 {
                lemma_inner_offset_cons(Element { header: h }, rest, j - 1);
            }
        }
    }
}

proof fn lemma_region_base_cons(r: (RegionHeader, Seq<Element>), s: Seq<(RegionHeader, Seq<Element>)>, i: int)
    requires
        0 <= i <= s.len(),
    ensures
        region_base(seq![r] + s, i + 1) == REGION_HEADER_SIZE + r.0.fat_size + region_base(s, i),
    decreases i,
{
    let t = seq![r] + s;
    assert(t[0] == r);
    assert(region_base(t, i + 1) == region_base(t, i) + REGION_HEADER_SIZE + t[i].0.fat_size);
    if i > 0 {
        lemma_region_base_cons(r, s, i - 1);
        assert(t[i] == s[i - 1]);
        assert(region_base(s, i) == region_base(s, i - 1) + REGION_HEADER_SIZE + s[i
            - 1].0.fat_size);
    } else {
        assert(region_base(t, 0) == 0);
    }
}

proof fn lemma_regions_within(d: Seq<u8>, off: int)
    requires
        0 <= off <= d.len(),
        regions_from(d, off) is Some,
    ensures
        forall|i: int|
            0 <= i < regions_from(d, off).unwrap().len() ==> region_at(
                d,
                off + region_base(regions_from(d, off).unwrap(), i),
            ) == Some(regions_from(d, off).unwrap()[i]) && off + region_base(
                regions_from(d, off).unwrap(),
                i,
            ) + REGION_HEADER_SIZE + regions_from(d, off).unwrap()[i].0.fat_size <= d.len(),
    decreases d.len() - off,
{
    let rs = regions_from(d, off).unwrap();
    if off < d.len() {
        let next = off + region_header_at(d, off).fat_size + REGION_HEADER_SIZE;
        let r = region_at(d, off).unwrap();
        let rest = regions_from(d, next).unwrap();
        lemma_regions_within(d, next);
        assert(rs == seq![r] + rest);
        assert forall|i: int| 0 <= i < rs.len() implies region_at(d, off + region_base(rs, i))
            == Some(rs[i]) && off + region_base(rs, i) + REGION_HEADER_SIZE + rs[i].0.fat_size
            <= d.len() by {
            if i > 0 {
                lemma_region_base_cons(r, rest, i - 1);
                assert(rs[i] == rest[i - 1]);
            }
        }
    }
}

/// Where element `j` of region `i` lies inside its region: the payload ends
/// at most `16 + fat_size` bytes after the region's start.
proof fn lemma_element_in_region(d: Seq<u8>, i: int, j: int)
    requires
        parse_gpu_code(d) is Some,
        0 <= i < parse_gpu_code(d).unwrap().len(),
        0 <= j < parse_gpu_code(d).unwrap()[i].1.len(),
    ensures
        ({
            let rs = parse_gpu_code(d).unwrap();
            &&& region_base(rs, i) + REGION_HEADER_SIZE + rs[i].0.fat_size <= d.len()
            &&& REGION_HEADER_SIZE + inner_offset(rs[i].1, j + 1) <= REGION_HEADER_SIZE
                + rs[i].0.fat_size
        }),
{
    let rs = parse_gpu_code(d).unwrap();
    lemma_regions_within(d, 0);
    let b = region_base(rs, i);
    assert(region_at(d, 0 + b) == Some(rs[i]));
    let h = region_header_at(d, b);
    lemma_elements_within(d, b, h.fat_size + REGION_HEADER_SIZE, h.fat_size as int, 16);
}

/// Every element span of a parsed GPU code section lies inside its region's
/// bytes `[base, base + 16 + fat_size)` when the region header declares at most
/// the standard 16 bytes, and the spans of two elements of one region do not
/// overlap.
pub proof fn lemma_spans_in_region_disjoint(d: Seq<u8>, gpu_off: int, i: int, j: int, k: int)
    requires
        parse_gpu_code(d) is Some,
        0 <= i < parse_gpu_code(d).unwrap().len(),
        0 <= j < k < parse_gpu_code(d).unwrap()[i].1.len(),
    ensures
        ({
            let rs = parse_gpu_code(d).unwrap();
            let base = gpu_off + region_base(rs, i);
            &&& span_start(rs, gpu_off, i, j) <= span_end(rs, gpu_off, i, j)
            &&& span_end(rs, gpu_off, i, j) <= span_start(rs, gpu_off, i, k)
            &&& rs[i].0.header_size <= REGION_HEADER_SIZE ==> {
                &&& base <= span_start(rs, gpu_off, i, j)
                &&& span_end(rs, gpu_off, i, k) <= base + REGION_HEADER_SIZE + rs[i].0.fat_size
            }
        }),
{
    let rs = parse_gpu_code(d).unwrap();
    let els = rs[i].1;
    lemma_element_in_region(d, i, k);
    lemma_inner_offset_monotonic(els, j + 1, k);
    lemma_inner_offset_monotonic(els, 0, j);
    assert(inner_offset(els, 0) == 0);
    assert(inner_offset(els, j + 1) == inner_offset(els, j) + advance(els[j].header));
    assert(inner_offset(els, k + 1) == inner_offset(els, k) + advance(els[k].header));
}

/// Whether element `e` holds a cubin.
pub open spec fn is_cubin(e: Element) -> bool {
    e.header.file_type == CUBIN_FILE_TYPE
}

/// Number of cubin elements among the first `j` elements.
pub open spec fn cubin_count(els: Seq<Element>, j: int) -> int
    decreases j,
{
    if j <= 0 {
        0
    } else {
        cubin_count(els, j - 1) + if is_cubin(els[j - 1]) {
            1int
        } else {
            0int
        }
    }
}

/// Number of cubin elements in the first `i` regions.
pub open spec fn cubins_before_region(rs: Seq<(RegionHeader, Seq<Element>)>, i: int) -> int
    decreases i,
{
    if i <= 0 {
        0
    } else {
        cubins_before_region(rs, i - 1) + cubin_count(rs[i - 1].1, rs[i - 1].1.len() as int)
    }
}

/// Position of element `j` of region `i` in the list of extracted cubins.
pub open spec fn cubin_index(rs: Seq<(RegionHeader, Seq<Element>)>, i: int, j: int) -> int {
    cubins_before_region(rs, i) + cubin_count(rs[i].1, j)
}

/// Number of cubin elements in all regions.
pub open spec fn cubin_total(rs: Seq<(RegionHeader, Seq<Element>)>) -> int {
    cubins_before_region(rs, rs.len() as int)
}

proof fn lemma_cubin_count_monotonic(els: Seq<Element>, j: int, k: int)
    requires
        0 <= j <= k,
    ensures
        0 <= cubin_count(els, j) <= cubin_count(els, k),
    decreases k,
{
    if j < k {
        lemma_cubin_count_monotonic(els, j, k - 1);
    } else if j > 0 {
        lemma_cubin_count_monotonic(els, j - 1, j - 1);
    }
}

proof fn lemma_cubins_before_region_monotonic(rs: Seq<(RegionHeader, Seq<Element>)>, i: int, n: int)
    requires
        0 <= i <= n <= rs.len(),
    ensures
        cubins_before_region(rs, i) <= cubins_before_region(rs, n),
    decreases n,
{
    if i < n {
        lemma_cubins_before_region_monotonic(rs, i, n - 1);
        lemma_cubin_count_monotonic(rs[n - 1].1, 0, rs[n - 1].1.len() as int);
    }
}

/// The GPU code section: `size` bytes of the file from `off` on.
pub open spec fn section_bytes(so: Seq<u8>, off: int, size: int) -> Seq<u8> {
    so.subrange(off, off + size)
}

/// Whether the section lies within the file, with room for the span
/// arithmetic in 64 bits.
pub open spec fn section_fits(so_len: int, off: int, size: int) -> bool {
    off + size <= so_len && off + size + 0x1_0000 <= u64::MAX
}

/// Name of the cuBLAS internal constants that cuBLAS cubins keep in any case:
/// the ASCII bytes of `_ZN6cublas8internal15deviceConstantsE`.
pub open spec fn cublas_sentinel() -> Seq<u8> {
    seq![
        0x5f, 0x5a, 0x4e, 0x36, 0x63, 0x75, 0x62, 0x6c, 0x61, 0x73, 0x38, 0x69,
        0x6e, 0x74, 0x65, 0x72, 0x6e, 0x61, 0x6c, 0x31, 0x35, 0x64, 0x65, 0x76,
        0x69, 0x63, 0x65, 0x43, 0x6f, 0x6e, 0x73, 0x74, 0x61, 0x6e, 0x74, 0x73,
        0x45,
    ]
}

pub fn cublas_sentinel_bytes() -> (r: Vec<u8>)
    ensures
        r@ == cublas_sentinel(),
{
    let r = vec![
        0x5f, 0x5a, 0x4e, 0x36, 0x63, 0x75, 0x62, 0x6c, 0x61, 0x73, 0x38, 0x69,
        0x6e, 0x74, 0x65, 0x72, 0x6e, 0x61, 0x6c, 0x31, 0x35, 0x64, 0x65, 0x76,
        0x69, 0x63, 0x65, 0x43, 0x6f, 0x6e, 0x73, 0x74, 0x61, 0x6e, 0x74, 0x73,
        0x45,
    ];
    assert(r@ =~= cublas_sentinel());
    r
}

/// Whether `pat` occurs in `s` as a contiguous run of characters.
pub open spec fn contains_chars(s: Seq<char>, pat: Seq<char>) -> bool {
    exists|i: int| 0 <= i <= s.len() - pat.len() && #[trigger] s.subrange(i, i + pat.len()) == pat
}

/// Relies on `str::contains` with a `&str` pattern: true exactly when the
/// pattern occurs in the string.
#[verifier::external_body]
pub(crate) fn str_contains(s: &str, pat: &str) -> (r: bool)
    ensures
        r == contains_chars(s@, pat@),
{
    s.contains(pat)
}

/// Whether the path names a cuBLAS library.
pub open spec fn is_cublas_path(p: Seq<char>) -> bool {
    contains_chars(p, "libcublas"@)
}

/// Why a locator could not be built.
#[derive(Clone, Copy, Debug, PartialEq, Eq)]
pub enum LocateError {
    /// The GPU code section does not lie within the file.
    SectionOutOfFile,
    /// A region or element of the GPU code section is malformed.
    MalformedGpuCode,
    /// The number of cubins differs from the number of cubin elements.
    CubinCountMismatch,
}

/// Locates deletable file spans in a shared object from its fat-binary
/// elements, their kernel sets and a target compute capability.
pub struct KernelLocator {
    so_path: String,
    gpu_code_offset: u64,
    gpu_code: GPUCode,
    /// `element_span[i][j]`: the span of element `j` of region `i`.
    element_span: Vec<Vec<ElementSpan>>,
    /// `element_kernels[i][j]`: the kernel names of element `j` of region `i`.
    element_kernels: Vec<Vec<Vec<Vec<u8>>>>,
}

/// The items of `v` in reverse order.
fn reversed<T>(v: Vec<T>) -> (r: Vec<T>)
    ensures
        r@.len() == v@.len(),
        forall|t: int| 0 <= t < v@.len() ==> r@[t] == v@[v@.len() - 1 - t],
{
    let ghost orig = v@;
    let n = v.len();
    let mut src = v;
    let mut out: Vec<T> = Vec::new();
    while src.len() > 0
        invariant
            n == orig.len(),
            src@ == orig.subrange(0, src@.len() as int),
            out@.len() + src@.len() == n,
            forall|t: int| 0 <= t < out@.len() ==> out@[t] == orig[n - 1 - t],
        decreases src@.len(),
    {
        match src.pop() {
            Some(k) => {
                out.push(k);
            },
            None => {},
        }
    }
    out
}

/// `spans` and `kernels` are those of the elements of region `i`: the spans
/// the layout gives, no kernel for a non-cubin, and for a cubin the kernel set
/// at its position among the extracted cubins.
pub open spec fn region_built(
    rs: Seq<(RegionHeader, Seq<Element>)>,
    gpu_off: int,
    cubins: Seq<Vec<Vec<u8>>>,
    i: int,
    spans: Seq<ElementSpan>,
    kernels: Seq<Vec<Vec<u8>>>,
) -> bool {
    &&& spans.len() == rs[i].1.len()
    &&& kernels.len() == rs[i].1.len()
    &&& forall|b: int|
        #![trigger spans[b]]
        #![trigger kernels[b]]
        0 <= b < rs[i].1.len() ==> {
            &&& spans[b].start == span_start(rs, gpu_off, i, b)
            &&& spans[b].end == span_end(rs, gpu_off, i, b)
            &&& !is_cubin(rs[i].1[b]) ==> kernels[b]@.len() == 0
            &&& is_cubin(rs[i].1[b]) ==> kernels[b] == cubins[cubin_index(rs, i, b)]
        }
}

/// Spans and kernel sets of the elements of region `i`, taking the kernel sets
/// of its cubins from the end of `pending`; `None` when `pending` runs out.
fn build_region(
    region: &Region,
    d: Ghost<Seq<u8>>,
    rs: Ghost<Seq<(RegionHeader, Seq<Element>)>>,
    i: usize,
    base: u64,
    gpu_off: u64,
    gpu_size: u64,
    pending: &mut Vec<Vec<Vec<u8>>>,
    orig: Ghost<Seq<Vec<Vec<u8>>>>,
) -> (r: Option<(Vec<ElementSpan>, Vec<Vec<Vec<u8>>>)>)
    requires
        parse_gpu_code(d@) == Some(rs@),
        0 <= i < rs@.len(),
        region@ == rs@[i as int],
        d@.len() == gpu_size,
        gpu_off + gpu_size + 0x1_0000 <= u64::MAX,
        base == gpu_off + region_base(rs@, i as int),
        old(pending)@.len() + cubins_before_region(rs@, i as int) == orig@.len(),
        forall|t: int|
            0 <= t < old(pending)@.len() ==> old(pending)@[t] == orig@[orig@.len() - 1 - t],
    ensures
        r is None ==> cubin_total(rs@) > orig@.len(),
        r matches Some(b) ==> {
            &&& region_built(rs@, gpu_off as int, orig@, i as int, b.0@, b.1@)
            &&& final(pending)@.len() + cubins_before_region(rs@, i + 1) == orig@.len()
            &&& forall|t: int|
                0 <= t < final(pending)@.len() ==> final(pending)@[t] == orig@[orig@.len() - 1 - t]
        },
{
    let ghost els = rs@[i as int].1;
    let ghost n = orig@.len();
    let mut spans: Vec<ElementSpan> = Vec::new();
    let mut kernels: Vec<Vec<Vec<u8>>> = Vec::new();
    let mut inner: u64 = 0;
    let mut j: usize = 0;
    while j < region.elements.len()
        invariant
            parse_gpu_code(d@) == Some(rs@),
            region@ == rs@[i as int],
            els == rs@[i as int].1,
            0 <= i < rs@.len(),
            d@.len() == gpu_size,
            gpu_off + gpu_size + 0x1_0000 <= u64::MAX,
            base == gpu_off + region_base(rs@, i as int),
            j <= els.len(),
            inner == inner_offset(els, j as int),
            spans@.len() == j,
            kernels@.len() == j,
            n == orig@.len(),
            pending@.len() + cubin_index(rs@, i as int, j as int) == n,
            forall|t: int| 0 <= t < pending@.len() ==> pending@[t] == orig@[n - 1 - t],
            forall|b: int|
                #![trigger spans@[b]]
                #![trigger kernels@[b]]
                0 <= b < j ==> {
                    &&& spans@[b].start == span_start(rs@, gpu_off as int, i as int, b)
                    &&& spans@[b].end == span_end(rs@, gpu_off as int, i as int, b)
                    &&& !is_cubin(els[b]) ==> kernels@[b]@.len() == 0
                    &&& is_cubin(els[b]) ==> kernels@[b] == orig@[cubin_index(rs@, i as int, b)]
                },
        decreases els.len() - j,
    {
        let h = region.elements[j].header;
        assert(h == els[j as int].header);
        assert(region.header == rs@[i as int].0);
        proof {
            lemma_element_in_region(d@, i as int, j as int);
            lemma_inner_offset_monotonic(els, j as int, j as int + 1);
            assert(inner_offset(els, j + 1) == inner_offset(els, j as int) + advance(
                els[j as int].header,
            ));
        }
        let start = base + region.header.header_size as u64 + h.offset as u64 + inner;
        let end = start + h.size;
        let ghost old_spans = spans@;
        let ghost old_kernels = kernels@;
        let ghost old_pending = pending@;
        spans.push(ElementSpan { start, end });
        assert(spans@[j as int].start == span_start(rs@, gpu_off as int, i as int, j as int));
        inner = inner + h.offset as u64 + h.size;
        let ghost idx = cubin_index(rs@, i as int, j as int);
        assert(spans@[j as int].end == span_end(rs@, gpu_off as int, i as int, j as int));
        if h.file_type != CUBIN_FILE_TYPE {
            kernels.push(Vec::new());
            assert(kernels@[j as int]@.len() == 0);
            assert(cubin_count(els, j + 1) == cubin_count(els, j as int));
        } else {
            proof {
                lemma_cubin_count_monotonic(els, j + 1, els.len() as int);
                lemma_cubins_before_region_monotonic(rs@, i + 1, rs@.len() as int);
                assert(cubin_count(els, j + 1) == cubin_count(els, j as int) + 1);
            }
            match pending.pop() {
                Some(k) => {
                    kernels.push(k);
                },
                None => {
                    return None;
                },
            }
            assert(kernels@[j as int] == orig@[idx]);
        }
        assert forall|b: int| 0 <= b < j implies spans@[b] == old_spans[b] && kernels@[b]
            == old_kernels[b] by {}
        assert forall|t: int| 0 <= t < pending@.len() implies pending@[t] == old_pending[t] by {}
        j = j + 1;
    }
    Some((spans, kernels))
}

/// Spans and kernel sets of all regions of `gpu_code`, the GPU code section
/// `d` at file offset `gpu_off`, taking the cubins' kernel sets from the end
/// of `pending`; `None` when `pending` runs out.
fn build_regions(
    gpu_code: &GPUCode,
    d: Ghost<Seq<u8>>,
    gpu_off: u64,
    gpu_size: u64,
    pending: &mut Vec<Vec<Vec<u8>>>,
    orig: Ghost<Seq<Vec<Vec<u8>>>>,
) -> (r: Option<(Vec<Vec<ElementSpan>>, Vec<Vec<Vec<Vec<u8>>>>)>)
    requires
        parse_gpu_code(d@) == Some(gpu_code@),
        d@.len() == gpu_size,
        gpu_off + gpu_size + 0x1_0000 <= u64::MAX,
        old(pending)@.len() == orig@.len(),
        forall|t: int|
            0 <= t < old(pending)@.len() ==> old(pending)@[t] == orig@[orig@.len() - 1 - t],
    ensures
        r is None ==> cubin_total(gpu_code@) > orig@.len(),
        r matches Some(b) ==> {
            &&& b.0@.len() == gpu_code@.len()
            &&& b.1@.len() == gpu_code@.len()
            &&& final(pending)@.len() + cubin_total(gpu_code@) == orig@.len()
            &&& forall|a: int|
                0 <= a < gpu_code@.len() ==> region_built(
                    gpu_code@,
                    gpu_off as int,
                    orig@,
                    a,
                    #[trigger] b.0@[a]@,
                    b.1@[a]@,
                )
        },
{
    let ghost rs = gpu_code@;
    let ghost n = orig@.len();
    proof {
        lemma_regions_within(d@, 0);
    }
    let mut element_span: Vec<Vec<ElementSpan>> = Vec::new();
    let mut element_kernels: Vec<Vec<Vec<Vec<u8>>>> = Vec::new();
    let mut base: u64 = gpu_off;
    let mut i: usize = 0;
    while i < gpu_code.regions.len()
        invariant
            parse_gpu_code(d@) == Some(rs),
            rs == gpu_code@,
            d@.len() == gpu_size,
            gpu_off + gpu_size + 0x1_0000 <= u64::MAX,
            forall|i: int|
                0 <= i < rs.len() ==> 0 + region_base(rs, i) + REGION_HEADER_SIZE
                    + rs[i].0.fat_size <= d@.len(),
            gpu_code.regions@.len() == rs.len(),
            i <= rs.len(),
            base == gpu_off + region_base(rs, i as int),
            element_span@.len() == i,
            element_kernels@.len() == i,
            n == orig@.len(),
            pending@.len() + cubins_before_region(rs, i as int) == n,
            forall|t: int| 0 <= t < pending@.len() ==> pending@[t] == orig@[n - 1 - t],
            forall|a: int|
                0 <= a < i ==> region_built(
                    rs,
                    gpu_off as int,
                    orig@,
                    a,
                    #[trigger] element_span@[a]@,
                    element_kernels@[a]@,
                ),
        decreases rs.len() - i,
    {
        let region = &gpu_code.regions[i];
        assert(region@ == rs[i as int]);
        let built = build_region(
            region,
            Ghost(d@),
            Ghost(rs),
            i,
            base,
            gpu_off,
            gpu_size,
            pending,
            Ghost(orig@),
        );
        let (spans, kernels) = match built {
            Some(b) => b,
            None => {
                return None;
            },
        };
        let ghost old_span = element_span@;
        let ghost old_kernels = element_kernels@;
        element_span.push(spans);
        element_kernels.push(kernels);
        assert forall|a: int| 0 <= a <= i implies region_built(
            rs,
            gpu_off as int,
            orig@,
            a,
            #[trigger] element_span@[a]@,
            element_kernels@[a]@,
        ) by {
            if a < i {
                assert(element_span@[a] == old_span[a]);
                assert(element_kernels@[a] == old_kernels[a]);
            }
        }
        base = base + region.header.fat_size + REGION_HEADER_SIZE;
        i = i + 1;
    }
    Some((element_span, element_kernels))
}

impl KernelLocator {
    /// Path of the shared object.
    pub closed spec fn path(&self) -> Seq<char> {
        self.so_path@
    }

    /// File offset of the GPU code section.
    pub closed spec fn section_offset(&self) -> int {
        self.gpu_code_offset as int
    }

    /// The regions of the GPU code section.
    pub closed spec fn regions(&self) -> Seq<(RegionHeader, Seq<Element>)> {
        self.gpu_code@
    }

    /// The span recorded for element `j` of region `i`.
    pub closed spec fn span(&self, i: int, j: int) -> ElementSpan {
        self.element_span@[i]@[j]
    }

    /// The kernel names recorded for element `j` of region `i`.
    pub closed spec fn kernels(&self, i: int, j: int) -> Seq<Seq<u8>> {
        names_view(self.element_kernels@[i]@[j]@)
    }

    /// Spans and kernel sets have the shape of the regions, every span is the
    /// one the layout gives, and non-cubin elements carry no kernel.
    pub closed spec fn wf(&self) -> bool {
        let rs = self.regions();
        &&& self.element_span@.len() == rs.len()
        &&& self.element_kernels@.len() == rs.len()
        &&& forall|i: int|
            #![trigger self.element_span@[i]]
            #![trigger self.element_kernels@[i]]
            0 <= i < rs.len() ==> {
                &&& self.element_span@[i]@.len() == rs[i].1.len()
                &&& self.element_kernels@[i]@.len() == rs[i].1.len()
                &&& forall|j: int|
                    #![trigger self.element_span@[i]@[j]]
                    #![trigger self.element_kernels@[i]@[j]]
                    0 <= j < rs[i].1.len() ==> {
                        &&& self.span(i, j).start == span_start(rs, self.section_offset(), i, j)
                        &&& self.span(i, j).end == span_end(rs, self.section_offset(), i, j)
                        &&& !is_cubin(rs[i].1[j]) ==> self.kernels(i, j).len() == 0
                    }
            }
    }

    /// Builds a locator for the shared object at `so_path`, whose bytes are
    /// `so_data`, from its GPU code section (`gpu_code_size` bytes at file
    /// offset `gpu_code_start_offset`) and the kernel names of its cubins in the
    /// order in which they were extracted, which is the order of the cubin
    /// elements in the section.
    #[verifier::rlimit(60)]
    pub fn new(
        so_path: String,
        so_data: &[u8],
        gpu_code_start_offset: u64,
        gpu_code_size: u64,
        cubin_kernels: Vec<Vec<Vec<u8>>>,
    ) -> (r: Result<KernelLocator, LocateError>)
        ensures
            r == Err::<KernelLocator, LocateError>(LocateError::SectionOutOfFile) <==> !section_fits(
                so_data@.len() as int,
                gpu_code_start_offset as int,
                gpu_code_size as int,
            ),
            r == Err::<KernelLocator, LocateError>(LocateError::MalformedGpuCode) <==> section_fits(
                so_data@.len() as int,
                gpu_code_start_offset as int,
                gpu_code_size as int,
            ) && parse_gpu_code(
                section_bytes(so_data@, gpu_code_start_offset as int, gpu_code_size as int),
            ) is None,
            r == Err::<KernelLocator, LocateError>(LocateError::CubinCountMismatch) <==> section_fits(
                so_data@.len() as int,
                gpu_code_start_offset as int,
                gpu_code_size as int,
            ) && parse_gpu_code(
                section_bytes(so_data@, gpu_code_start_offset as int, gpu_code_size as int),
            ) is Some && cubin_total(
                parse_gpu_code(
                    section_bytes(so_data@, gpu_code_start_offset as int, gpu_code_size as int),
                ).unwrap(),
            ) != cubin_kernels@.len(),
            r matches Ok(l) ==> {
                &&& l.wf()
                &&& l.path() == so_path@
                &&& l.section_offset() == gpu_code_start_offset
                &&& parse_gpu_code(
                    section_bytes(so_data@, gpu_code_start_offset as int, gpu_code_size as int),
                ) == Some(l.regions())
                &&& forall|i: int, j: int|
                    0 <= i < l.regions().len() && 0 <= j < l.regions()[i].1.len() && is_cubin(
                        l.regions()[i].1[j],
                    ) ==> #[trigger] l.kernels(i, j) == names_view(
                        cubin_kernels@[cubin_index(l.regions(), i, j)]@,
                    )
            },
    {
        let len = so_data.len() as u64;
        if gpu_code_size > len || gpu_code_start_offset > len - gpu_code_size {
            return Err(LocateError::SectionOutOfFile);
        }
        let end = gpu_code_start_offset + gpu_code_size;
        if end > u64::MAX - 0x1_0000 {
            return Err(LocateError::SectionOutOfFile);
        }
        let section = vstd::slice::slice_subrange(
            so_data,
            gpu_code_start_offset as usize,
            end as usize,
        );
        let ghost d = section@;
        assert(d == section_bytes(so_data@, gpu_code_start_offset as int, gpu_code_size as int));
        let gpu_code = match GPUCode::new(section) {
            None => {
                return Err(LocateError::MalformedGpuCode);
            },
            Some(g) => g,
        };
        let ghost rs = gpu_code@;
        let ghost orig = cubin_kernels@;
        let n = cubin_kernels.len();
        // The cubins' kernel sets, last first, so that `pop` yields them in order.
        let mut pending = reversed(cubin_kernels);
        let (element_span, element_kernels) = match build_regions(
            &gpu_code,
            Ghost(d),
            gpu_code_start_offset,
            gpu_code_size,
            &mut pending,
            Ghost(orig),
        ) {
            Some(b) => b,
            None => {
                return Err(LocateError::CubinCountMismatch);
            },
        };
        if pending.len() != 0 {
            return Err(LocateError::CubinCountMismatch);
        }
        let l = KernelLocator {
            so_path,
            gpu_code_offset: gpu_code_start_offset,
            gpu_code,
            element_span,
            element_kernels,
        };
        assert(l.regions() == rs);
        assert forall|a: int, b: int|
            0 <= a < rs.len() && 0 <= b < rs[a].1.len() implies #[trigger] l.span(a, b).start
            == span_start(rs, gpu_code_start_offset as int, a, b) by {
            assert(region_built(rs, gpu_code_start_offset as int, orig, a, l.element_span@[a]@, l.element_kernels@[a]@));
        }
        assert forall|a: int, b: int|
            0 <= a < rs.len() && 0 <= b < rs[a].1.len() implies #[trigger] l.span(a, b).end
            == span_end(rs, gpu_code_start_offset as int, a, b) by {
            assert(region_built(rs, gpu_code_start_offset as int, orig, a, l.element_span@[a]@, l.element_kernels@[a]@));
        }
        assert forall|a: int, b: int|
            0 <= a < rs.len() && 0 <= b < rs[a].1.len() implies (!is_cubin(rs[a].1[b])
            ==> #[trigger] l.kernels(a, b).len() == 0) && (is_cubin(rs[a].1[b]) ==> l.kernels(a, b)
            == names_view(orig[cubin_index(rs, a, b)]@)) by {
            assert(region_built(rs, gpu_code_start_offset as int, orig, a, l.element_span@[a]@, l.element_kernels@[a]@));
        }
        Ok(l)
    }

    /// The span of element `element_index` of region `region_index`.
    pub fn get_element_span(&self, region_index: usize, element_index: usize) -> (r: ElementSpan)
        requires
            self.wf(),
            region_index < self.regions().len(),
            element_index < self.regions()[region_index as int].1.len(),
        ensures
            r == self.span(region_index as int, element_index as int),
            r.start == span_start(
                self.regions(),
                self.section_offset(),
                region_index as int,
                element_index as int,
            ),
            r.end == span_end(
                self.regions(),
                self.section_offset(),
                region_index as int,
                element_index as int,
            ),
    {
        self.element_span[region_index][element_index]
    }

    /// The kernel names of element `element_index` of region `region_index`.
    pub fn get_element_kernels(&self, region_index: usize, element_index: usize) -> (r: &Vec<
        Vec<u8>,
    >)
        requires
            self.wf(),
            region_index < self.regions().len(),
            element_index < self.regions()[region_index as int].1.len(),
        ensures
            names_view(r@) == self.kernels(region_index as int, element_index as int),
    {
        &self.element_kernels[region_index][element_index]
    }

    /// The spans of the elements that the workload leaves unused, in file
    /// order: per region, every element whose capability is not the region's
    /// best fit for `compute_capability`, and every cubin of that capability
    /// that has none of `detected_kernels` (but for the cuBLAS internal
    /// constants of a cuBLAS library).
    pub fn locate_deletable_file_spans(
        &self,
        detected_kernels: &Vec<Vec<u8>>,
        compute_capability: u32,
    ) -> (r: Vec<ElementSpan>)
        requires
            self.wf(),
        ensures
            r@ == self.deletable_spans(
                names_view(detected_kernels@),
                compute_capability,
                self.regions().len() as int,
            ),
    {
        let ghost used = names_view(detected_kernels@);
        let cublas = str_contains(self.so_path.as_str(), "libcublas");
        assert(cublas == is_cublas_path(self.path()));
        let sentinel = cublas_sentinel_bytes();
        let mut out: Vec<ElementSpan> = Vec::new();
        let mut i: usize = 0;
        while i < self.gpu_code.regions.len()
            invariant
                self.wf(),
                cublas == is_cublas_path(self.path()),
                sentinel@ == cublas_sentinel(),
                used == names_view(detected_kernels@),
                i <= self.regions().len(),
                self.gpu_code.regions@.len() == self.regions().len(),
                out@ == self.deletable_spans(used, compute_capability, i as int),
            decreases self.regions().len() - i,
        {
            let region = &self.gpu_code.regions[i];
            assert(region@ == self.regions()[i as int]);
            let best = region.find_most_fit_capability(compute_capability);
            let mut j: usize = 0;
            while j < region.elements.len()
                invariant
                    self.wf(),
                    cublas == is_cublas_path(self.path()),
                    sentinel@ == cublas_sentinel(),
                    used == names_view(detected_kernels@),
                    i < self.regions().len(),
                    region@ == self.regions()[i as int],
                    best == best_fit(region.elements@, compute_capability),
                    j <= region.elements@.len(),
                    out@ == self.deletable_spans(used, compute_capability, i as int) + self.deletable_in_region(
                        used,
                        compute_capability,
                        i as int,
                        j as int,
                    ),
                decreases region.elements@.len() - j,
            {
                let e = region.elements[j].header;
                assert(e == self.regions()[i as int].1[j as int].header);
                let keep = if e.capability != best {
                    false
                } else if e.file_type != CUBIN_FILE_TYPE {
                    true
                } else {
                    let ks = &self.element_kernels[i][j];
                    assert(names_view(ks@) == self.kernels(i as int, j as int));
                    if shares_name_exec(detected_kernels, ks) {
                        true
                    } else {
                        cublas && has_name(ks, sentinel.as_slice())
                    }
                };
                assert(keep == self.keeps(used, compute_capability, i as int, j as int));
                let ghost before = out@;
                if !keep {
                    out.push(self.element_span[i][j]);
                }
                assert(out@ =~= self.deletable_spans(used, compute_capability, i as int) + self.deletable_in_region(
                    used,
                    compute_capability,
                    i as int,
                    j + 1,
                ));
                j = j + 1;
            }
            i = i + 1;
        }
        out
    }

    /// Whether element `j` of region `i` stays: it has the fitting capability
    /// and is not a cubin, or is a cubin with a used kernel, or is a cuBLAS cubin
    /// holding the internal constants.
    pub open spec fn keeps(&self, used: Seq<Seq<u8>>, t: u32, i: int, j: int) -> bool {
        let els = self.regions()[i].1;
        let e = els[j];
        &&& e.header.capability == best_fit(els, t)
        &&& (!is_cubin(e) || shares_name(used, self.kernels(i, j)) || (is_cublas_path(self.path())
            && self.kernels(i, j).contains(cublas_sentinel())))
    }

    /// Spans of the deletable elements among the first `n` elements of region `i`.
    pub open spec fn deletable_in_region(&self, used: Seq<Seq<u8>>, t: u32, i: int, n: int) -> Seq<
        ElementSpan,
    >
        decreases n,
    {
        if n <= 0 {
            Seq::empty()
        } else {
            self.deletable_in_region(used, t, i, n - 1) + if self.keeps(used, t, i, n - 1) {
                Seq::empty()
            } else {
                seq![self.span(i, n - 1)]
            }
        }
    }

    /// Spans of the deletable elements of the first `m` regions, in file order.
    pub open spec fn deletable_spans(&self, used: Seq<Seq<u8>>, t: u32, m: int) -> Seq<ElementSpan>
        decreases m,
    {
        if m <= 0 {
            Seq::empty()
        } else {
            self.deletable_spans(used, t, m - 1) + self.deletable_in_region(
                used,
                t,
                m - 1,
                self.regions()[m - 1].1.len() as int,
            )
        }
    }
}

/// Which elements stay: with no detected kernels in common a cubin of the
/// fitting capability is deleted unless it is a cuBLAS cubin holding the
/// internal constants, an element of another capability is always deleted, and
/// a cubin of the fitting capability with a detected kernel stays. Every
/// deleted element's span is in the result of the query.
pub proof fn lemma_deletable_selection(
    l: &KernelLocator,
    used: Seq<Seq<u8>>,
    t: u32,
    i: int,
    j: int,
)
    requires
        l.wf(),
        0 <= i < l.regions().len(),
        0 <= j < l.regions()[i].1.len(),
    ensures
        ({
            let els = l.regions()[i].1;
            let e = els[j];
            &&& !(e.header.capability == best_fit(els, t) && !is_cubin(e)) ==> (l.keeps(used, t, i, j)
                <==> (e.header.capability == best_fit(els, t) && is_cubin(e) && (shares_name(
                used,
                l.kernels(i, j),
            ) || (is_cublas_path(l.path()) && l.kernels(i, j).contains(cublas_sentinel())))))
            &&& !l.keeps(used, t, i, j) ==> l.deletable_spans(
                used,
                t,
                l.regions().len() as int,
            ).contains(l.span(i, j))
        }),
{
    if !l.keeps(used, t, i, j) {
        lemma_deleted_in_region(l, used, t, i, j, l.regions()[i].1.len() as int);
        lemma_region_in_spans(l, used, t, i, l.regions().len() as int, l.span(i, j));
    }
}

/// With no detected kernel, an element stays exactly when it has the fitting
/// capability and is either not a cubin or a cuBLAS cubin holding the internal
/// constants.
pub proof fn lemma_nothing_used(l: &KernelLocator, t: u32, i: int, j: int)
    requires
        l.wf(),
        0 <= i < l.regions().len(),
        0 <= j < l.regions()[i].1.len(),
    ensures
        ({
            let els = l.regions()[i].1;
            l.keeps(Seq::empty(), t, i, j) <==> (els[j].header.capability == best_fit(els, t) && (
            !is_cubin(els[j]) || (is_cublas_path(l.path()) && l.kernels(i, j).contains(
                cublas_sentinel(),
            ))))
        }),
{
}

proof fn lemma_deleted_in_region(l: &KernelLocator, used: Seq<Seq<u8>>, t: u32, i: int, j: int, n: int)
    requires
        0 <= j < n,
        !l.keeps(used, t, i, j),
    ensures
        l.deletable_in_region(used, t, i, n).contains(l.span(i, j)),
    decreases n,
{
    let prev = l.deletable_in_region(used, t, i, n - 1);
    let cur = l.deletable_in_region(used, t, i, n);
    if j == n - 1 {
        assert(cur == prev + seq![l.span(i, j)]);
        assert(cur[prev.len() as int] == l.span(i, j));
    } else {
        lemma_deleted_in_region(l, used, t, i, j, n - 1);
        let k = choose|k: int| 0 <= k < prev.len() && prev[k] == l.span(i, j);
        assert(cur[k] == prev[k]);
    }
}

proof fn lemma_region_in_spans(
    l: &KernelLocator,
    used: Seq<Seq<u8>>,
    t: u32,
    i: int,
    m: int,
    x: ElementSpan,
)
    requires
        0 <= i < m,
        l.deletable_in_region(used, t, i, l.regions()[i].1.len() as int).contains(x),
    ensures
        l.deletable_spans(used, t, m).contains(x),
    decreases m,
{
    let prev = l.deletable_spans(used, t, m - 1);
    let cur = l.deletable_spans(used, t, m);
    if i == m - 1 {
        let r = l.deletable_in_region(used, t, i, l.regions()[i].1.len() as int);
        let k = choose|k: int| 0 <= k < r.len() && r[k] == x;
        assert(cur[prev.len() + k] == x);
    } else {
        lemma_region_in_spans(l, used, t, i, m - 1, x);
        let k = choose|k: int| 0 <= k < prev.len() && prev[k] == x;
        assert(cur[k] == prev[k]);
    }
}

} // verus!
