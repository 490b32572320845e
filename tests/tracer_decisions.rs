use negativa_ml::reconstructor::Reconstructor;
use negativa_ml::locator::ElementSpan;
use negativa_ml::tracer::{
    c_string, classify_so_path, join_cwd, patch_first_byte, LinkMap, MapEntry, PidState, RDebug,
    SoPathAction, SupervisorAction, TraceReport, Tracer, WaitEvent,
};
use negativa_ml::utils::get_compute_capabilities;

fn state() -> PidState {
    PidState { dl_debug_state_abs: 0x7f00_1010, r_debug_abs: 0x7f00_3000 }
}

#[test]
fn trap_at_hook_walks_link_map() {
    let a = state().next_action(WaitEvent::Trap { rip: 0x7f00_1011 });
    assert_eq!(a, SupervisorAction::WalkLinkMap { r_debug_abs: 0x7f00_3000 });
}

#[test]
fn other_trap_resumes_without_signal() {
    assert_eq!(
        state().next_action(WaitEvent::Trap { rip: 0x7f00_1010 }),
        SupervisorAction::Continue { signal: None }
    );
    assert_eq!(
        state().next_action(WaitEvent::Trap { rip: 0 }),
        SupervisorAction::Continue { signal: None }
    );
}

#[test]
fn process_tree_events() {
    let s = state();
    assert_eq!(
        s.next_action(WaitEvent::ChildCreated { child: 42 }),
        SupervisorAction::FollowChild { child: 42 }
    );
    assert_eq!(s.next_action(WaitEvent::Exec), SupervisorAction::Relocate);
    assert_eq!(
        s.next_action(WaitEvent::Stopped { signal: 11 }),
        SupervisorAction::Continue { signal: Some(11) }
    );
    assert_eq!(s.next_action(WaitEvent::Exited), SupervisorAction::Stop);
    assert_eq!(
        s.next_action(WaitEvent::Killed { signal: 9, core_dumped: false }),
        SupervisorAction::Stop
    );
    assert_eq!(
        s.next_action(WaitEvent::Killed { signal: 15, core_dumped: false }),
        SupervisorAction::Stop
    );
    assert_eq!(
        s.next_action(WaitEvent::Killed { signal: 6, core_dumped: true }),
        SupervisorAction::Continue { signal: None }
    );
    assert_eq!(s.next_action(WaitEvent::Other), SupervisorAction::Continue { signal: None });
}

#[test]
fn breakpoint_replaces_low_byte() {
    assert_eq!(patch_first_byte(0x1122_3344_5566_7788, 0xcc), 0x1122_3344_5566_77cc);
    assert_eq!(patch_first_byte(0, 0xcc), 0xcc);
}

#[test]
fn records_decode_from_words() {
    let r = RDebug::from_words(&vec![1, 0x5000, 0x7f00_1010, 0xffff_ffff_0000_0000, 0x7f00_0000]);
    assert_eq!(r.r_version, 1);
    assert_eq!(r.r_map, 0x5000);
    assert_eq!(r.r_brk, 0x7f00_1010);
    assert_eq!(r.r_state, 0);
    assert!(r.is_consistent());
    let r = RDebug::from_words(&vec![1, 0, 0, 1, 0]);
    assert!(!r.is_consistent());
    let l = LinkMap::from_words(&vec![0, 0x6000, 0x7000, 0x8000, 0x9000]);
    assert_eq!((l.l_name, l.l_next, l.l_prev), (0x6000, 0x8000, 0x9000));
}

#[test]
fn c_string_stops_at_nul() {
    assert_eq!(c_string(b"/lib/libc.so.6\0\0\0junk"), b"/lib/libc.so.6".to_vec());
    assert_eq!(c_string(b"no nul"), b"no nul".to_vec());
    assert_eq!(c_string(b""), Vec::<u8>::new());
}

#[test]
fn so_paths_are_classified() {
    assert_eq!(classify_so_path(b"", true), SoPathAction::Skip);
    assert_eq!(classify_so_path(b"/lib/libc.so.6", false), SoPathAction::Skip);
    assert_eq!(
        classify_so_path(b"/home/u/.negativa_ml/lib/libkerneldetector.so", true),
        SoPathAction::Skip
    );
    assert_eq!(classify_so_path(b"/lib/libc.so.6", true), SoPathAction::Canonicalize);
    assert_eq!(classify_so_path(b"build/libdemo.so", true), SoPathAction::JoinCwd);
    assert_eq!(join_cwd(b"/work", b"build/libdemo.so"), b"/work/build/libdemo.so".to_vec());
}

#[test]
fn loader_base_and_absolute_addresses() {
    let tracer = Tracer {
        dl_debug_state_addr: 0x1010,
        dl_debug_state_first_byte: 0xf3,
        r_debug_addr: 0x3000,
        loader_path: b"/lib/ld.so".to_vec(),
    };
    let maps = vec![
        MapEntry { start: 0x400000, filename: Some(b"/bin/app".to_vec()) },
        MapEntry { start: 0x500000, filename: None },
        MapEntry { start: 0x7f00_0000, filename: Some(b"/lib/ld.so".to_vec()) },
        MapEntry { start: 0x7f10_0000, filename: Some(b"/lib/ld.so".to_vec()) },
    ];
    let base = tracer.loader_base(&maps).unwrap();
    assert_eq!(base, 0x7f00_0000);
    let s = tracer.locate_in(base).unwrap();
    assert_eq!((s.dl_debug_state_abs, s.r_debug_abs), (0x7f00_1010, 0x7f00_3000));
    assert!(tracer.locate_in(u64::MAX).is_none());
    assert!(tracer.loader_base(&maps[..2].to_vec()).is_none());
}

#[test]
fn report_lists_each_path_and_kernel_once() {
    let sos = vec![b"/lib/a.so".to_vec(), b"/lib/b.so".to_vec(), b"/lib/a.so".to_vec()];
    let log = b"  _Z3fooPi \n\n_Z3barv\r\n_Z3fooPi\n   \n";
    let report = TraceReport::assemble(sos, log);
    let mut so_list = report.loaded_sos.clone();
    so_list.sort();
    assert_eq!(so_list, vec![b"/lib/a.so".to_vec(), b"/lib/b.so".to_vec()]);
    let mut kernels = report.detected_kernels.clone();
    kernels.sort();
    assert_eq!(kernels, vec![b"_Z3barv".to_vec(), b"_Z3fooPi".to_vec()]);
}

#[test]
fn rewrite_fills_spans() {
    let r = Reconstructor::new("/tmp/out.so".to_string());
    let mut data = vec![0xaau8; 16];
    let spans = [ElementSpan { start: 2, end: 5 }, ElementSpan { start: 4, end: 7 }, ElementSpan { start: 10, end: 10 }];
    r.rewrite(&mut data, &spans);
    let expected = vec![0xaa, 0xaa, 1, 1, 1, 1, 1, 0xaa, 0xaa, 0xaa, 0xaa, 0xaa, 0xaa, 0xaa, 0xaa, 0xaa];
    assert_eq!(data, expected);
    assert_eq!(r.dst_so_path, "/tmp/out.so");
}

#[test]
fn capabilities_are_packed() {
    assert_eq!(get_compute_capabilities(&vec![(7, 0), (8, 6)]), vec![70, 86]);
    assert_eq!(get_compute_capabilities(&vec![]), Vec::<u32>::new());
}
