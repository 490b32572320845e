//! Parser of the GPU code section: a concatenation of self-delimiting
//! regions, each a 16-byte header followed by capability-tagged elements.
use vstd::prelude::*;

verus! {

/// Size in bytes of a region header.
pub const REGION_HEADER_SIZE: u64 = 16;

/// Size in bytes of an element header.
pub const ELEMENT_HEADER_SIZE: u64 = 32;

/// Element file type that designates a cubin payload.
pub const CUBIN_FILE_TYPE: u16 = 2;

/// Little-endian value of the two bytes at `i`.
pub open spec fn le_u16(d: Seq<u8>, i: int) -> int {
    d[i] as int + 0x100 * d[i + 1] as int
}

/// Little-endian value of the four bytes at `i`.
pub open spec fn le_u32(d: Seq<u8>, i: int) -> int {
    le_u16(d, i) + 0x1_0000 * le_u16(d, i + 2)
}

/// Little-endian value of the eight bytes at `i`.
pub open spec fn le_u64(d: Seq<u8>, i: int) -> int {
    le_u32(d, i) + 0x1_0000_0000 * le_u32(d, i + 4)
}

fn read_u16(d: &[u8], i: usize) -> (r: u16)
    requires
        i + 2 <= d.len(),
    ensures
        r == le_u16(d@, i as int),
{
    d[i] as u16 + 0x100 * (d[i + 1] as u16)
}

fn read_u32(d: &[u8], i: usize) -> (r: u32)
    requires
        i + 4 <= d.len(),
    ensures
        r == le_u32(d@, i as int),
{
    read_u16(d, i) as u32 + 0x1_0000 * (read_u16(d, i + 2) as u32)
}

fn read_u64(d: &[u8], i: usize) -> (r: u64)
    requires
        i + 8 <= d.len(),
    ensures
        r == le_u64(d@, i as int),
{
    read_u32(d, i) as u64 + 0x1_0000_0000 * (read_u32(d, i + 4) as u64)
}


/// Header of a region.
#[derive(Clone, Copy, Debug)]
pub struct RegionHeader {
    pub header_size: u16,
    pub fat_size: u64,
}

impl RegionHeader {
    /// Size in bytes of a region header.
    pub fn size() -> (r: u32)
        ensures
            r == REGION_HEADER_SIZE,
    {
        16
    }
}

/// Header of an element.
#[derive(Clone, Copy, Debug)]
pub struct ElementHeader {
    pub file_type: u16,
    /// Bytes from the start of this header to the payload.
    pub offset: u32,
    /// Payload length in bytes.
    pub size: u64,
    /// Packed compute capability (`70` is sm_70).
    pub capability: u32,
}

/// One device-code payload of a region.
#[derive(Clone, Copy, Debug)]
pub struct Element {
    pub header: ElementHeader,
}

/// A region: its header and its elements in file order.
pub struct Region {
    pub header: RegionHeader,
    pub elements: Vec<Element>,
}

/// The parsed GPU code section: its regions in file order.
pub struct GPUCode {
    pub regions: Vec<Region>,
}

impl View for Region {
    type V = (RegionHeader, Seq<Element>);

    open spec fn view(&self) -> Self::V {
        (self.header, self.elements@)
    }
}

impl View for GPUCode {
    type V = Seq<(RegionHeader, Seq<Element>)>;

    open spec fn view(&self) -> Self::V {
        self.regions@.map_values(|r: Region| r@)
    }
}

/// The region header that starts at `i`.
pub open spec fn region_header_at(d: Seq<u8>, i: int) -> RegionHeader {
    RegionHeader { header_size: le_u16(d, i + 6) as u16, fat_size: le_u64(d, i + 8) as u64 }
}

/// The element header that starts at `i`.
pub open spec fn element_header_at(d: Seq<u8>, i: int) -> ElementHeader {
    ElementHeader {
        file_type: le_u16(d, i) as u16,
        offset: le_u32(d, i + 4) as u32,
        size: le_u64(d, i + 8) as u64,
        capability: le_u32(d, i + 28) as u32,
    }
}

/// Bytes from one element header to the next one.
pub open spec fn advance(h: ElementHeader) -> int {
    h.offset + h.size
}

/// The elements of the region at `base`, `rsize` bytes long with a payload of
/// `fat` bytes, read from the cursor `e` (relative to `base`) on. `None` when an
/// element header or payload leaves the region, or an element does not advance.
pub open spec fn elements_from(d: Seq<u8>, base: int, rsize: int, fat: int, e: int) -> Option<
    Seq<Element>,
>
    decreases rsize - e,
{
    if e >= fat {
        Some(Seq::empty())
    } else if e < 0 || e + ELEMENT_HEADER_SIZE > rsize {
        None
    } else {
        let h = element_header_at(d, base + e);
        let next = e + advance(h);
        if next <= e || next > rsize {
            None
        } else {
            match elements_from(d, base, rsize, fat, next) {
                Some(rest) => Some(seq![Element { header: h }] + rest),
                None => None,
            }
        }
    }
}

/// The region that starts at `start`, or `None` when it is malformed or does not
/// fit in `d`.
pub open spec fn region_at(d: Seq<u8>, start: int) -> Option<(RegionHeader, Seq<Element>)> {
    if start < 0 || start + REGION_HEADER_SIZE > d.len() {
        None
    } else {
        let h = region_header_at(d, start);
        if start + h.fat_size + REGION_HEADER_SIZE > d.len() {
            None
        } else {
            match elements_from(d, start, h.fat_size + REGION_HEADER_SIZE, h.fat_size as int, 16) {
                Some(es) => Some((h, es)),
                None => None,
            }
        }
    }
}

/// The regions of `d` from `off` on, each `fat_size + 16` bytes long.
pub open spec fn regions_from(d: Seq<u8>, off: int) -> Option<Seq<(RegionHeader, Seq<Element>)>>
    decreases d.len() - off,
{
    if off >= d.len() {
        Some(Seq::empty())
    } else if off < 0 || off + REGION_HEADER_SIZE > d.len() || off
        + region_header_at(d, off).fat_size + REGION_HEADER_SIZE > d.len() {
        None
    } else {
        match region_at(d, off) {
            Some(r) => match regions_from(d, off + region_header_at(d, off).fat_size + REGION_HEADER_SIZE) {
                Some(rest) => Some(seq![r] + rest),
                None => None,
            },
            None => None,
        }
    }
}

/// The parse of a whole GPU code section.
pub open spec fn parse_gpu_code(d: Seq<u8>) -> Option<Seq<(RegionHeader, Seq<Element>)>> {
    regions_from(d, 0)
}

/// The best capability not above `t` among `els`, or `0` if there is none.
pub open spec fn best_fit(els: Seq<Element>, t: u32) -> u32
    decreases els.len(),
{
    if els.len() == 0 {
        0
    } else {
        let m = best_fit(els.drop_last(), t);
        let c = els.last().header.capability;
        if c <= t && c > m {
            c
        } else {
            m
        }
    }
}

impl GPUCode {
    /// Parses a GPU code section; `None` when a region or element is malformed.
    pub fn new(gpu_code_data: &[u8]) -> (r: Option<GPUCode>)
        ensures
            r is None <==> parse_gpu_code(gpu_code_data@) is None,
            r matches Some(g) ==> parse_gpu_code(gpu_code_data@) == Some(g@),
    {
        let len = gpu_code_data.len() as u64;
        let mut offset: u64 = 0;
        let mut regions: Vec<Region> = Vec::new();
        while offset < len
            invariant
                len == gpu_code_data@.len(),
                offset <= len,
                regions_from(gpu_code_data@, 0) == match regions_from(gpu_code_data@, offset as int) {
                    Some(rest) => Some(regions@.map_values(|r: Region| r@) + rest),
                    None => None,
                },
            decreases len - offset,
        {
            match Region::new(gpu_code_data, offset) {
                None => {
                    return None;
                },
                Some(region) => {
                    let ghost old_regions = regions@;
                    let size = region.header.fat_size + 16;
                    offset = offset + size;
                    regions.push(region);
                    assert(regions@.map_values(|r: Region| r@) =~= old_regions.map_values(
                        |r: Region| r@,
                    ).push(region@));
                    proof {
                        let rest = regions_from(gpu_code_data@, offset as int);
                        if rest is Some {
                            assert(old_regions.map_values(|r: Region| r@) + (seq![region@]
                                + rest.unwrap()) =~= regions@.map_values(|r: Region| r@)
                                + rest.unwrap());
                        }
                    }
                },
            }
        }
        assert(regions@.map_values(|r: Region| r@) + Seq::empty() =~= regions@.map_values(
            |r: Region| r@,
        ));
        let g = GPUCode { regions };
        assert(g@ =~= regions@.map_values(|r: Region| r@));
        Some(g)
    }
}

impl Region {
    /// Parses the region that starts at `start_offset`; `None` when it is
    /// malformed or does not fit in the data.
    pub fn new(gpu_code_data: &[u8], start_offset: u64) -> (r: Option<Region>)
        ensures
            r is None <==> region_at(gpu_code_data@, start_offset as int) is None,
            r matches Some(reg) ==> region_at(gpu_code_data@, start_offset as int) == Some(reg@),
    {
        let ghost d = gpu_code_data@;
        let len = gpu_code_data.len() as u64;
        if start_offset > len || len - start_offset < REGION_HEADER_SIZE {
            return None;
        }
        let s = start_offset as usize;
        let header = RegionHeader {
            header_size: read_u16(gpu_code_data, s + 6),
            fat_size: read_u64(gpu_code_data, s + 8),
        };
        if header.fat_size > len - start_offset - REGION_HEADER_SIZE {
            return None;
        }
        let rsize = header.fat_size + REGION_HEADER_SIZE;
        let ghost fat = header.fat_size as int;
        let mut e: u64 = 16;
        let mut elements: Vec<Element> = Vec::new();
        while e < header.fat_size
            invariant
                len == d.len(),
                d == gpu_code_data@,
                d.len() == gpu_code_data.len(),
                header == region_header_at(d, s as int),
                s == start_offset,
                rsize == header.fat_size + REGION_HEADER_SIZE,
                start_offset + rsize <= len,
                fat == header.fat_size,
                16 <= e <= rsize,
                elements_from(d, s as int, rsize as int, fat, 16) == match elements_from(
                    d,
                    s as int,
                    rsize as int,
                    fat,
                    e as int,
                ) {
                    Some(rest) => Some(elements@ + rest),
                    None => None,
                },
            decreases rsize - e,
        {
            if rsize - e < ELEMENT_HEADER_SIZE {
                return None;
            }
            let at = (start_offset + e) as usize;
            let h = ElementHeader {
                file_type: read_u16(gpu_code_data, at),
                offset: read_u32(gpu_code_data, at + 4),
                size: read_u64(gpu_code_data, at + 8),
                capability: read_u32(gpu_code_data, at + 28),
            };
            assert(h == element_header_at(d, s + e));
            if h.size > rsize - e || h.offset as u64 > rsize - e - h.size {
                return None;
            }
            let next = e + h.offset as u64 + h.size;
            if next == e {
                return None;
            }
            let ghost old_elements = elements@;
            elements.push(Element { header: h });
            e = next;
            proof {
                let rest = elements_from(d, s as int, rsize as int, fat, e as int);
                if rest is Some {
                    assert(old_elements + (seq![Element { header: h }] + rest.unwrap())
                        =~= elements@ + rest.unwrap());
                }
            }
        }
        assert(elements@ + Seq::empty() =~= elements@);
        Some(Region { header, elements })
    }

    /// Total size of the region: its header and its payload.
    pub fn size(&self) -> (r: u64)
        requires
            self.header.fat_size + REGION_HEADER_SIZE <= u64::MAX,
        ensures
            r == self.header.fat_size + REGION_HEADER_SIZE,
    {
        self.header.fat_size + RegionHeader::size() as u64
    }

    /// The largest element capability not above `target_cap`, or `0` if there
    /// is none.
    pub fn find_most_fit_capability(&self, target_cap: u32) -> (r: u32)
        ensures
            r == best_fit(self.elements@, target_cap),
            r <= target_cap,
            r == 0 || exists|i: int|
                0 <= i < self.elements@.len() && self.elements@[i].header.capability == r,
            forall|i: int|
                0 <= i < self.elements@.len() && self.elements@[i].header.capability <= target_cap
                    ==> self.elements@[i].header.capability <= r,
    {
        let mut most_fit_cap: u32 = 0;
        let mut i: usize = 0;
        while i < self.elements.len()
            invariant
                i <= self.elements@.len(),
                most_fit_cap == best_fit(self.elements@.subrange(0, i as int), target_cap),
            decreases self.elements@.len() - i,
        {
            let c = self.elements[i].header.capability;
            assert(self.elements@.subrange(0, i + 1).drop_last() =~= self.elements@.subrange(
                0,
                i as int,
            ));
            if c <= target_cap && c > most_fit_cap {
                most_fit_cap = c;
            }
            i = i + 1;
        }
        assert(self.elements@.subrange(0, i as int) =~= self.elements@);
        proof {
            lemma_best_fit_is_max(self.elements@, target_cap);
        }
        most_fit_cap
    }
}

/// The fitting capability of a region is the maximum of the capabilities not
/// above the target, or `0` when none is.
pub proof fn lemma_best_fit_is_max(els: Seq<Element>, t: u32)
    ensures
        best_fit(els, t) <= t,
        best_fit(els, t) == 0 || exists|i: int|
            0 <= i < els.len() && els[i].header.capability == best_fit(els, t),
        forall|i: int|
            0 <= i < els.len() && els[i].header.capability <= t ==> els[i].header.capability
                <= best_fit(els, t),
    decreases els.len(),
{
    if els.len() > 0 {
        let pre = els.drop_last();
        lemma_best_fit_is_max(pre, t);
        let m = best_fit(pre, t);
        if m != 0 && best_fit(els, t) == m {
            let i = choose|i: int| 0 <= i < pre.len() && pre[i].header.capability == m;
            assert(els[i] == pre[i]);
        }
        assert forall|i: int|
            0 <= i < els.len() && els[i].header.capability <= t implies els[i].header.capability
                <= best_fit(els, t) by {
            if i < els.len() - 1 {
                assert(els[i] == pre[i]);
            }
        }
        if best_fit(els, t) != m {
            assert(els[els.len() - 1].header.capability == best_fit(els, t));
        }
    }
}

/// Sum of the on-disk sizes (`16 + fat_size`) of regions.
pub open spec fn disk_total(rs: Seq<(RegionHeader, Seq<Element>)>) -> int
    decreases rs.len(),
{
    if rs.len() == 0 {
        0
    } else {
        REGION_HEADER_SIZE + rs[0].0.fat_size + disk_total(rs.drop_first())
    }
}

/// Sum of `header_size + fat_size` over regions.
pub open spec fn declared_total(rs: Seq<(RegionHeader, Seq<Element>)>) -> int
    decreases rs.len(),
{
    if rs.len() == 0 {
        0
    } else {
        rs[0].0.header_size + rs[0].0.fat_size + declared_total(rs.drop_first())
    }
}

proof fn lemma_regions_from_tile(d: Seq<u8>, off: int)
    requires
        0 <= off <= d.len(),
        regions_from(d, off) is Some,
    ensures
        disk_total(regions_from(d, off).unwrap()) == d.len() - off,
        (forall|i: int|
            0 <= i < regions_from(d, off).unwrap().len() ==> #[trigger] regions_from(
                d,
                off,
            ).unwrap()[i].0.header_size == REGION_HEADER_SIZE) ==> declared_total(
            regions_from(d, off).unwrap(),
        ) == d.len() - off,
    decreases d.len() - off,
{
    if off < d.len() {
        let next = off + region_header_at(d, off).fat_size + REGION_HEADER_SIZE;
        let r = region_at(d, off).unwrap();
        let rest = regions_from(d, next).unwrap();
        let rs = regions_from(d, off).unwrap();
        lemma_regions_from_tile(d, next);
        assert(rs.drop_first() =~= rest);
        if forall|i: int| 0 <= i < rs.len() ==> #[trigger] rs[i].0.header_size == REGION_HEADER_SIZE {
            assert forall|i: int| 0 <= i < rest.len() implies #[trigger] rest[i].0.header_size
                == REGION_HEADER_SIZE by {
                assert(rest[i] == rs[i + 1]);
            }
            assert(rs[0].0.header_size == REGION_HEADER_SIZE);
        }
    }
}

/// The regions of a parsed GPU code section cover it exactly: their on-disk
/// sizes add up to its length, and so do `header_size + fat_size` when every
/// header declares the standard 16-byte size.
pub proof fn lemma_regions_cover_blob(d: Seq<u8>)
    requires
        parse_gpu_code(d) is Some,
    ensures
        disk_total(parse_gpu_code(d).unwrap()) == d.len(),
        (forall|i: int|
            0 <= i < parse_gpu_code(d).unwrap().len() ==> #[trigger] parse_gpu_code(
                d,
            ).unwrap()[i].0.header_size == REGION_HEADER_SIZE) ==> declared_total(
            parse_gpu_code(d).unwrap(),
        ) == d.len(),
{
    lemma_regions_from_tile(d, 0);
}

} // verus!
