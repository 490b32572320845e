use negativa_ml::gpu_code::{GPUCode, Region, RegionHeader};
use negativa_ml::locator::{ElementSpan, KernelLocator, LocateError};

const GPU_CODE_OFFSET: u64 = 0x948d0;
const GPU_CODE_SIZE: u64 = 0x63e0;

fn element(file_type: u16, offset: u32, size: u64, capability: u32) -> Vec<u8> {
    let mut e = vec![0u8; (offset as usize + size as usize).max(32)];
    e[0..2].copy_from_slice(&file_type.to_le_bytes());
    e[4..8].copy_from_slice(&offset.to_le_bytes());
    e[8..16].copy_from_slice(&size.to_le_bytes());
    e[28..32].copy_from_slice(&capability.to_le_bytes());
    e
}

fn region(header_size: u16, fat_size: u64, elements: Vec<Vec<u8>>) -> Vec<u8> {
    let mut r = vec![0u8; 16];
    r[6..8].copy_from_slice(&header_size.to_le_bytes());
    r[8..16].copy_from_slice(&fat_size.to_le_bytes());
    for e in elements {
        r.extend_from_slice(&e);
    }
    r.resize(16 + fat_size as usize, 0);
    r
}

/// Two regions of two cubins each, capabilities 70 and 75, laid out as in the
/// demo library.
fn demo_gpu_code() -> Vec<u8> {
    let mut g = region(
        16,
        0x760,
        vec![element(2, 72, 0x368, 70), element(2, 72, 0x368, 75)],
    );
    g.extend(region(
        16,
        0x5c60,
        vec![element(2, 72, 0x2ee8, 70), element(2, 72, 0x2ce8, 75)],
    ));
    g
}

fn demo_so() -> Vec<u8> {
    let mut so = vec![0u8; GPU_CODE_OFFSET as usize];
    so.extend(demo_gpu_code());
    so
}

fn names(v: &[&str]) -> Vec<Vec<u8>> {
    v.iter().map(|s| s.as_bytes().to_vec()).collect()
}

fn demo_kernels() -> Vec<Vec<Vec<u8>>> {
    let both = names(&["_Z12matrixMulGPUPiS_S_iii", "_Z16setScalarItemGPUiPiii"]);
    vec![vec![], vec![], both.clone(), both]
}

fn demo_locator(path: &str) -> KernelLocator {
    let so = demo_so();
    KernelLocator::new(
        path.to_string(),
        &so,
        GPU_CODE_OFFSET,
        GPU_CODE_SIZE,
        demo_kernels(),
    )
    .unwrap()
}

fn pairs(spans: &[ElementSpan]) -> Vec<(u64, u64)> {
    spans.iter().map(|s| (s.start, s.end)).collect()
}

#[test]
fn test_new_gpu_code() {
    let so = demo_so();
    let gpu_code_data = &so[0x948d0..0x9acb0];
    let gpu_code = GPUCode::new(gpu_code_data).unwrap();
    let mut element_count = 0;
    let mut element_capabilities = vec![];
    let mut file_types = vec![];
    for region in gpu_code.regions.iter() {
        for element in region.elements.iter() {
            element_count += 1;
            element_capabilities.push(element.header.capability);
            file_types.push(element.header.file_type);
        }
    }
    assert_eq!(gpu_code.regions.len(), 2);
    assert_eq!(element_count, 4);
    assert_eq!(file_types, vec![2, 2, 2, 2]);
    assert_eq!(element_capabilities, vec![70, 75, 70, 75]);
}

#[test]
fn test_find_most_fit_capability() {
    let so = demo_so();
    let gpu_code = GPUCode::new(&so[0x948d0..0x9acb0]).unwrap();
    let region = &gpu_code.regions[0];
    assert_eq!(region.find_most_fit_capability(72), 70);
    assert_eq!(region.find_most_fit_capability(75), 75);
    assert_eq!(region.find_most_fit_capability(80), 75);
}

#[test]
fn fit_capability_is_zero_below_every_element() {
    let gpu_code = GPUCode::new(&demo_gpu_code()).unwrap();
    assert_eq!(gpu_code.regions[0].find_most_fit_capability(69), 0);
    assert_eq!(gpu_code.regions[1].find_most_fit_capability(0), 0);
}

#[test]
fn region_sizes_cover_the_blob() {
    let blob = demo_gpu_code();
    let gpu_code = GPUCode::new(&blob).unwrap();
    let total: u64 = gpu_code
        .regions
        .iter()
        .map(|r| r.header.header_size as u64 + r.header.fat_size)
        .sum();
    assert_eq!(total, blob.len() as u64);
    assert_eq!(gpu_code.regions[0].size(), 0x770);
    assert_eq!(gpu_code.regions[1].size(), 0x5c70);
    assert_eq!(RegionHeader::size(), 16);
}

#[test]
fn region_header_fields_are_read_little_endian() {
    let blob = demo_gpu_code();
    let region = Region::new(&blob, 0x770).unwrap();
    assert_eq!(region.header.header_size, 16);
    assert_eq!(region.header.fat_size, 0x5c60);
    assert_eq!(region.elements.len(), 2);
    assert_eq!(region.elements[0].header.offset, 72);
    assert_eq!(region.elements[0].header.size, 0x2ee8);
    assert_eq!(region.elements[1].header.size, 0x2ce8);
}

#[test]
fn empty_gpu_code_has_no_region() {
    let gpu_code = GPUCode::new(&[]).unwrap();
    assert_eq!(gpu_code.regions.len(), 0);
}

#[test]
fn truncated_region_is_rejected() {
    let blob = demo_gpu_code();
    assert!(GPUCode::new(&blob[..blob.len() - 1]).is_none());
    assert!(GPUCode::new(&blob[..10]).is_none());
    assert!(Region::new(&blob, blob.len() as u64 + 1).is_none());
}

#[test]
fn element_that_does_not_advance_is_rejected() {
    let blob = region(16, 64, vec![element(2, 0, 0, 70)]);
    assert!(GPUCode::new(&blob).is_none());
}

#[test]
fn element_leaving_its_region_is_rejected() {
    let blob = region(16, 64, vec![element(2, 32, 100, 70)]);
    assert!(GPUCode::new(&blob[..80]).is_none());
}

#[test]
fn non_cubin_element_is_parsed() {
    let blob = region(16, 0x80, vec![element(1, 32, 0x20, 70), element(2, 32, 0x20, 80)]);
    let gpu_code = GPUCode::new(&blob).unwrap();
    assert_eq!(gpu_code.regions[0].elements[0].header.file_type, 1);
    assert_eq!(gpu_code.regions[0].elements[1].header.capability, 80);
}

#[test]
fn test_get_element_span() {
    let locator = demo_locator("/tmp/libdemo.so");
    let span = locator.get_element_span(0, 0);
    assert_eq!((span.start, span.end), (0x94928, 0x94c90));
    let span = locator.get_element_span(0, 1);
    assert_eq!((span.start, span.end), (0x94cd8, 0x95040));
    let span = locator.get_element_span(1, 0);
    assert_eq!((span.start, span.end), (0x95098, 0x97f80));
    let span = locator.get_element_span(1, 1);
    assert_eq!((span.start, span.end), (0x97fc8, 0x9acb0));
}

#[test]
fn get_element_kernels() {
    let locator = demo_locator("/tmp/libdemo.so");
    assert_eq!(locator.get_element_kernels(0, 0).len(), 0);
    assert_eq!(locator.get_element_kernels(0, 1).len(), 0);
    let kernels = locator.get_element_kernels(1, 0);
    assert_eq!(kernels.len(), 2);
    assert!(kernels.contains(&b"_Z12matrixMulGPUPiS_S_iii".to_vec()));
    assert!(kernels.contains(&b"_Z16setScalarItemGPUiPiii".to_vec()));
    let kernels = locator.get_element_kernels(1, 1);
    assert_eq!(kernels.len(), 2);
    assert!(kernels.contains(&b"_Z12matrixMulGPUPiS_S_iii".to_vec()));
    assert!(kernels.contains(&b"_Z16setScalarItemGPUiPiii".to_vec()));
}

#[test]
fn test_get_deletable_file_spans() {
    let locator = demo_locator("/tmp/libdemo.so");
    let detected = names(&["_Z12matrixMulGPUPiS_S_iii"]);
    let spans = locator.locate_deletable_file_spans(&detected, 75);
    assert_eq!(
        pairs(&spans),
        vec![(0x94928, 0x94c90), (0x94cd8, 0x95040), (0x95098, 0x97f80)]
    );
    let spans = locator.locate_deletable_file_spans(&detected, 70);
    assert_eq!(
        pairs(&spans),
        vec![(0x94928, 0x94c90), (0x94cd8, 0x95040), (0x97fc8, 0x9acb0)]
    );
}

#[test]
fn nothing_used_deletes_every_cubin() {
    let locator = demo_locator("/tmp/libdemo.so");
    let spans = locator.locate_deletable_file_spans(&vec![], 90);
    assert_eq!(spans.len(), 4);
}

#[test]
fn no_fitting_capability_deletes_everything() {
    let locator = demo_locator("/tmp/libdemo.so");
    let detected = names(&["_Z12matrixMulGPUPiS_S_iii"]);
    let spans = locator.locate_deletable_file_spans(&detected, 60);
    assert_eq!(spans.len(), 4);
}

#[test]
fn fitting_non_cubin_element_is_kept() {
    let mut so = vec![0u8; 8];
    so.extend(region(16, 0x80, vec![element(1, 32, 0x20, 70), element(2, 32, 0x20, 70)]));
    let locator = KernelLocator::new("/x/libfoo.so".to_string(), &so, 8, 0x90, vec![vec![]]).unwrap();
    let spans = locator.locate_deletable_file_spans(&vec![], 70);
    assert_eq!(pairs(&spans), vec![(8 + 16 + 64 + 32, 8 + 16 + 64 + 64)]);
}

#[test]
fn cublas_internal_constants_are_kept() {
    let sentinel = names(&["_ZN6cublas8internal15deviceConstantsE"]);
    let mut so = vec![0u8; 8];
    so.extend(region(16, 0x40, vec![element(2, 32, 0x20, 70)]));
    let kernels = vec![sentinel.clone()];
    let cublas =
        KernelLocator::new("/lib/libcublasLt.so.11".to_string(), &so, 8, 0x50, kernels.clone())
            .unwrap();
    assert_eq!(cublas.locate_deletable_file_spans(&vec![], 70).len(), 0);
    let other = KernelLocator::new("/lib/libother.so".to_string(), &so, 8, 0x50, kernels).unwrap();
    assert_eq!(
        pairs(&other.locate_deletable_file_spans(&vec![], 70)),
        vec![(8 + 16 + 32, 8 + 16 + 64)]
    );
}

#[test]
fn section_outside_file_is_an_error() {
    let so = demo_so();
    let r = KernelLocator::new("a".to_string(), &so, GPU_CODE_OFFSET, GPU_CODE_SIZE + 1, demo_kernels());
    assert_eq!(r.err(), Some(LocateError::SectionOutOfFile));
    let r = KernelLocator::new("a".to_string(), &so, u64::MAX, 2, demo_kernels());
    assert_eq!(r.err(), Some(LocateError::SectionOutOfFile));
}

#[test]
fn malformed_section_is_an_error() {
    let so = demo_so();
    let r = KernelLocator::new("a".to_string(), &so, GPU_CODE_OFFSET, GPU_CODE_SIZE - 1, demo_kernels());
    assert_eq!(r.err(), Some(LocateError::MalformedGpuCode));
}

#[test]
fn cubin_count_mismatch_is_an_error() {
    let so = demo_so();
    let mut too_few = demo_kernels();
    too_few.pop();
    let r = KernelLocator::new("a".to_string(), &so, GPU_CODE_OFFSET, GPU_CODE_SIZE, too_few);
    assert_eq!(r.err(), Some(LocateError::CubinCountMismatch));
    let mut too_many = demo_kernels();
    too_many.push(vec![]);
    let r = KernelLocator::new("a".to_string(), &so, GPU_CODE_OFFSET, GPU_CODE_SIZE, too_many);
    assert_eq!(r.err(), Some(LocateError::CubinCountMismatch));
}

#[test]
fn spans_stay_inside_their_regions() {
    let locator = demo_locator("/tmp/libdemo.so");
    let bases = [(0x948d0u64, 0x770u64), (0x95040, 0x5c70)];
    for (i, (base, size)) in bases.iter().enumerate() {
        let a = locator.get_element_span(i, 0);
        let b = locator.get_element_span(i, 1);
        assert!(*base <= a.start && a.start <= a.end && a.end <= b.start);
        assert!(b.start <= b.end && b.end <= base + size);
    }
}
