//! Decisions of the loader-hook tracer: where the loader's debug hook and
//! descriptor sit in a tracee, what to do on each stop of a tracee, how the
//! loader's `r_debug` and `link_map` records decode from memory words, which
//! loaded paths to report, and the assembled trace report. The ptrace calls,
//! memory reads and threads that carry these out live outside the library.
use vstd::prelude::*;
use crate::elf::{cstr_at, elf_segments, first_rx_load, offset_of_addr, symbol_value, ELF64};
use crate::names::{insert_name, names_view};
use crate::text::{lines, split_lines, trim, trim_bytes};

verus! {

/// Opcode of the x86 software breakpoint.
pub const BREAKPOINT: u8 = 0xcc;

/// `r_state` of a loader whose link map is consistent.
pub const RT_CONSISTENT: i32 = 0;

/// Number of machine words in an `r_debug` or a `link_map` record.
pub const RECORD_WORDS: usize = 5;

/// Signal number of `SIGKILL`.
pub const SIGKILL: i32 = 9;

/// Signal number of `SIGTERM`.
pub const SIGTERM: i32 = 15;

/// The bytes of `_dl_debug_state`, the loader's debug hook.
pub open spec fn debug_state_name() -> Seq<u8> {
    seq![0x5f, 0x64, 0x6c, 0x5f, 0x64, 0x65, 0x62, 0x75, 0x67, 0x5f, 0x73, 0x74, 0x61, 0x74, 0x65]
}

/// The bytes of `_r_debug`, the loader's debug descriptor.
pub open spec fn r_debug_name() -> Seq<u8> {
    seq![0x5f, 0x72, 0x5f, 0x64, 0x65, 0x62, 0x75, 0x67]
}

/// The executable load segment of an ELF file, as
/// `(p_type, p_flags, p_vaddr, p_offset)`: its first loadable read-and-execute
/// segment.
pub open spec fn exec_segment(data: Seq<u8>) -> Option<(u32, u32, u64, u64)> {
    match elf_segments(data) {
        Some(segs) => match first_rx_load(segs, 0) {
            Some(k) => Some(segs[k]),
            None => None,
        },
        None => None,
    }
}

/// File offset of the loader's debug hook.
pub open spec fn hook_file_offset(data: Seq<u8>) -> u64 {
    offset_of_addr(
        symbol_value(data, debug_state_name()).unwrap(),
        exec_segment(data).unwrap().2,
        exec_segment(data).unwrap().3,
    )
}

/// Why a tracer could not be set up from a loader file.
#[derive(Clone, Copy, Debug, PartialEq, Eq)]
pub enum TracerError {
    /// The loader is not an ELF file with an executable load segment.
    NotElf,
    /// The loader has no `_dl_debug_state` symbol.
    MissingDebugState,
    /// The loader has no `_r_debug` symbol.
    MissingRDebug,
    /// The debug hook's file offset lies outside the loader file.
    HookOutsideFile,
}

/// The loader-relative addresses of the debug hook and descriptor, and the
/// hook's first byte as the loader file holds it.
#[derive(Clone, Debug)]
pub struct Tracer {
    pub dl_debug_state_addr: u64,
    pub dl_debug_state_first_byte: u8,
    pub r_debug_addr: u64,
    pub loader_path: Vec<u8>,
}

impl Tracer {
    /// Reads the hook's and descriptor's addresses, and the hook's first byte,
    /// from the loader file at `loader_path`, whose bytes are `loader_data`.
    pub fn new(loader_path: Vec<u8>, loader_data: &[u8]) -> (r: Result<Tracer, TracerError>)
        ensures
            r == Err::<Tracer, TracerError>(TracerError::NotElf) <==> exec_segment(loader_data@) is None,
            r == Err::<Tracer, TracerError>(TracerError::MissingDebugState) <==> exec_segment(
                loader_data@,
            ) is Some && symbol_value(loader_data@, debug_state_name()) is None,
            r == Err::<Tracer, TracerError>(TracerError::MissingRDebug) <==> exec_segment(
                loader_data@,
            ) is Some && symbol_value(loader_data@, debug_state_name()) is Some && symbol_value(
                loader_data@,
                r_debug_name(),
            ) is None,
            r == Err::<Tracer, TracerError>(TracerError::HookOutsideFile) <==> exec_segment(
                loader_data@,
            ) is Some && symbol_value(loader_data@, debug_state_name()) is Some && symbol_value(
                loader_data@,
                r_debug_name(),
            ) is Some && hook_file_offset(loader_data@) >= loader_data@.len(),
            r matches Ok(t) ==> {
                &&& t.loader_path@ == loader_path@
                &&& t.dl_debug_state_addr == symbol_value(loader_data@, debug_state_name()).unwrap()
                &&& t.r_debug_addr == symbol_value(loader_data@, r_debug_name()).unwrap()
                &&& t.dl_debug_state_first_byte == loader_data@[hook_file_offset(loader_data@) as int]
            },
    {
        let elf = match ELF64::new(loader_data) {
            Some(e) => e,
            None => {
                return Err(TracerError::NotElf);
            },
        };
        let hook_name = name_bytes(0);
        let desc_name = name_bytes(1);
        let dl_debug_state_addr = match elf.get_symbol_addr(hook_name.as_slice()) {
            Some(a) => a,
            None => {
                return Err(TracerError::MissingDebugState);
            },
        };
        let r_debug_addr = match elf.get_symbol_addr(desc_name.as_slice()) {
            Some(a) => a,
            None => {
                return Err(TracerError::MissingRDebug);
            },
        };
        let offset = match elf.get_symbol_offset(hook_name.as_slice()) {
            Some(o) => o,
            None => {
                return Err(TracerError::MissingDebugState);
            },
        };
        if offset >= loader_data.len() as u64 {
            return Err(TracerError::HookOutsideFile);
        }
        let first = loader_data[offset as usize];
        Ok(Tracer {
            dl_debug_state_addr,
            dl_debug_state_first_byte: first,
            r_debug_addr,
            loader_path,
        })
    }

    /// Absolute addresses of the hook and descriptor in a tracee whose loader
    /// is mapped at `loader_base`; `None` when they do not fit in 64 bits.
    pub fn locate_in(&self, loader_base: u64) -> (r: Option<PidState>)
        ensures
            r is None <==> (self.dl_debug_state_addr + loader_base > u64::MAX || self.r_debug_addr
                + loader_base > u64::MAX),
            r matches Some(s) ==> {
                &&& s.dl_debug_state_abs == self.dl_debug_state_addr + loader_base
                &&& s.r_debug_abs == self.r_debug_addr + loader_base
            },
    {
        if self.dl_debug_state_addr > u64::MAX - loader_base || self.r_debug_addr > u64::MAX
            - loader_base {
            return None;
        }
        Some(
            PidState {
                dl_debug_state_abs: self.dl_debug_state_addr + loader_base,
                r_debug_abs: self.r_debug_addr + loader_base,
            },
        )
    }

    /// Start of the first mapping of the loader file among a tracee's
    /// memory mappings; `None` when the loader is not mapped.
    pub fn loader_base(&self, maps: &Vec<MapEntry>) -> (r: Option<u64>)
        ensures
            r is None <==> forall|i: int|
                0 <= i < maps@.len() ==> !maps_loader(maps@[i], self.loader_path@),
            r matches Some(b) ==> exists|i: int|
                0 <= i < maps@.len() && maps_loader(maps@[i], self.loader_path@) && maps@[i].start
                    == b && forall|j: int| 0 <= j < i ==> !maps_loader(maps@[j], self.loader_path@),
    {
        let mut i: usize = 0;
        while i < maps.len()
            invariant
                i <= maps@.len(),
                forall|j: int| 0 <= j < i ==> !maps_loader(maps@[j], self.loader_path@),
            decreases maps@.len() - i,
        {
            let m = &maps[i];
            match &m.filename {
                Some(f) => {
                    if crate::names::bytes_eq(f.as_slice(), self.loader_path.as_slice()) {
                        return Some(m.start);
                    }
                },
                None => {},
            }
            i = i + 1;
        }
        None
    }
}

fn name_bytes(which: u8) -> (r: Vec<u8>)
    ensures
        which == 0 ==> r@ == debug_state_name(),
        which != 0 ==> r@ == r_debug_name(),
{
    if which == 0 {
        let r = vec![
            0x5f, 0x64, 0x6c, 0x5f, 0x64, 0x65, 0x62, 0x75, 0x67, 0x5f, 0x73, 0x74, 0x61, 0x74,
            0x65,
        ];
        assert(r@ =~= debug_state_name());
        r
    } else {
        let r = vec![0x5f, 0x72, 0x5f, 0x64, 0x65, 0x62, 0x75, 0x67];
        assert(r@ =~= r_debug_name());
        r
    }
}

/// One memory mapping of a tracee: its start address and the file it maps.
#[derive(Clone, Debug)]
pub struct MapEntry {
    pub start: u64,
    pub filename: Option<Vec<u8>>,
}

/// Whether the mapping maps the file at `path`.
pub open spec fn maps_loader(m: MapEntry, path: Seq<u8>) -> bool {
    match m.filename {
        Some(f) => f@ == path,
        None => false,
    }
}

/// Where the debug hook and descriptor sit in one tracee.
#[derive(Clone, Copy, Debug)]
pub struct PidState {
    pub dl_debug_state_abs: u64,
    pub r_debug_abs: u64,
}

/// What a tracee's stop reports.
#[derive(Clone, Copy, Debug)]
pub enum WaitEvent {
    /// Stopped by `SIGTRAP`, with the instruction pointer after the trap.
    Trap { rip: u64 },
    /// A fork, vfork or clone created the traced child `child`.
    ChildCreated { child: i32 },
    /// The tracee called exec.
    Exec,
    /// Stopped by another signal.
    Stopped { signal: i32 },
    /// The tracee exited.
    Exited,
    /// The tracee was killed by a signal.
    Killed { signal: i32, core_dumped: bool },
    /// Any other stop.
    Other,
}

/// What the supervisor of a tracee does next.
#[derive(Clone, Copy, Debug, PartialEq, Eq)]
pub enum SupervisorAction {
    /// Resume the tracee, delivering `signal` if any.
    Continue { signal: Option<i32> },
    /// The tracee hit the debug hook: read `r_debug` at `r_debug_abs`, walk
    /// the link map if it is consistent, then resume without a signal.
    WalkLinkMap { r_debug_abs: u64 },
    /// Start a supervisor for `child`, then resume without a signal.
    FollowChild { child: i32 },
    /// The address space was replaced: find the loader again, re-arm the
    /// breakpoint, then resume without a signal.
    Relocate,
    /// The tracee is gone: end its supervisor.
    Stop,
}

/// Whether a trap with instruction pointer `rip` is the debug hook's
/// breakpoint.
pub open spec fn hit_hook(state: PidState, rip: u64) -> bool {
    rip >= 1 && rip - 1 == state.dl_debug_state_abs
}

/// The supervisor's response to a stop: walk the link map on a trap at the
/// debug hook, follow a new child, relocate after exec, pass other signals
/// on, end on exit or on a kill by `SIGKILL` or `SIGTERM`, and otherwise
/// resume.
pub open spec fn action_for(state: PidState, ev: WaitEvent) -> SupervisorAction {
    match ev {
        WaitEvent::Trap { rip } => if hit_hook(state, rip) {
            SupervisorAction::WalkLinkMap { r_debug_abs: state.r_debug_abs }
        } else {
            SupervisorAction::Continue { signal: None }
        },
        WaitEvent::ChildCreated { child } => SupervisorAction::FollowChild { child },
        WaitEvent::Exec => SupervisorAction::Relocate,
        WaitEvent::Stopped { signal } => SupervisorAction::Continue { signal: Some(signal) },
        WaitEvent::Exited => SupervisorAction::Stop,
        WaitEvent::Killed { signal, core_dumped } => if !core_dumped && (signal == SIGKILL
            || signal == SIGTERM) {
            SupervisorAction::Stop
        } else {
            SupervisorAction::Continue { signal: None }
        },
        WaitEvent::Other => SupervisorAction::Continue { signal: None },
    }
}

impl PidState {
    /// The supervisor's response to the stop `ev` of its tracee.
    pub fn next_action(&self, ev: WaitEvent) -> (r: SupervisorAction)
        ensures
            r == action_for(*self, ev),
    {
        match ev {
            WaitEvent::Trap { rip } => {
                if rip >= 1 && rip - 1 == self.dl_debug_state_abs {
                    SupervisorAction::WalkLinkMap { r_debug_abs: self.r_debug_abs }
                } else {
                    SupervisorAction::Continue { signal: None }
                }
            },
            WaitEvent::ChildCreated { child } => SupervisorAction::FollowChild { child },
            WaitEvent::Exec => SupervisorAction::Relocate,
            WaitEvent::Stopped { signal } => SupervisorAction::Continue { signal: Some(signal) },
            WaitEvent::Exited => SupervisorAction::Stop,
            WaitEvent::Killed { signal, core_dumped } => {
                if !core_dumped && (signal == SIGKILL || signal == SIGTERM) {
                    SupervisorAction::Stop
                } else {
                    SupervisorAction::Continue { signal: None }
                }
            },
            WaitEvent::Other => SupervisorAction::Continue { signal: None },
        }
    }
}

/// The memory word `word` with its lowest-addressed byte replaced by `byte`
/// (little-endian words).
pub fn patch_first_byte(word: u64, byte: u8) -> (r: u64)
    ensures
        r % 256 == byte as int,
        r / 256 == word / 256,
{
    let r = (word & !0xffu64) | (byte as u64);
    assert(r % 256 == byte as u64 && r / 256 == word / 256) by (bit_vector)
        requires
            r == (word & !0xffu64) | (byte as u64),
            byte as u64 <= 0xff,
    ;
    r
}

/// The loader's `r_debug` descriptor (C layout, 64-bit words).
#[derive(Clone, Copy, Debug)]
pub struct RDebug {
    pub r_version: i32,
    pub r_map: u64,
    pub r_brk: u64,
    pub r_state: i32,
    pub r_ldbase: u64,
}

/// One record of the loader's link map (C layout, 64-bit words).
#[derive(Clone, Copy, Debug)]
pub struct LinkMap {
    pub l_addr: u64,
    pub l_name: u64,
    pub l_ld: u64,
    pub l_next: u64,
    pub l_prev: u64,
}

impl RDebug {
    /// Decodes the descriptor from the five words read at its address: an
    /// `int` sits in the low half of its word.
    pub fn from_words(words: &Vec<u64>) -> (r: RDebug)
        requires
            words@.len() == RECORD_WORDS,
        ensures
            r.r_version == words@[0] as u32 as i32,
            r.r_map == words@[1],
            r.r_brk == words@[2],
            r.r_state == words@[3] as u32 as i32,
            r.r_ldbase == words@[4],
    {
        RDebug {
            r_version: words[0] as u32 as i32,
            r_map: words[1],
            r_brk: words[2],
            r_state: words[3] as u32 as i32,
            r_ldbase: words[4],
        }
    }

    /// Whether the link map is in a consistent state.
    pub fn is_consistent(&self) -> (r: bool)
        ensures
            r == (self.r_state == RT_CONSISTENT),
    {
        self.r_state == RT_CONSISTENT
    }
}

impl LinkMap {
    /// Decodes a link-map record from the five words read at its address.
    pub fn from_words(words: &Vec<u64>) -> (r: LinkMap)
        requires
            words@.len() == RECORD_WORDS,
        ensures
            r.l_addr == words@[0],
            r.l_name == words@[1],
            r.l_ld == words@[2],
            r.l_next == words@[3],
            r.l_prev == words@[4],
    {
        LinkMap {
            l_addr: words[0],
            l_name: words[1],
            l_ld: words[2],
            l_next: words[3],
            l_prev: words[4],
        }
    }
}

/// The string read byte by byte from tracee memory: the bytes before the
/// first NUL.
pub fn c_string(bytes: &[u8]) -> (r: Vec<u8>)
    ensures
        r@ == cstr_at(bytes@, 0),
{
    let mut out: Vec<u8> = Vec::new();
    let mut i: usize = 0;
    while i < bytes.len() && bytes[i] != 0
        invariant
            i <= bytes@.len(),
            out@ == bytes@.subrange(0, i as int),
            cstr_at(bytes@, 0) == if bytes@.len() == 0 {
                Seq::empty()
            } else {
                bytes@.subrange(0, crate::elf::cstr_end(bytes@, i as int))
            },
            forall|k: int| 0 <= k < i ==> bytes@[k] != 0,
        decreases bytes@.len() - i,
    {
        out.push(bytes[i]);
        assert(out@ =~= bytes@.subrange(0, i + 1));
        i = i + 1;
    }
    if bytes.len() == 0 {
        assert(out@ =~= Seq::<u8>::empty());
    }
    out
}

/// What to do with a path read from the link map.
#[derive(Clone, Copy, Debug, PartialEq, Eq)]
pub enum SoPathAction {
    /// Leave it out of the report.
    Skip,
    /// Report it canonicalized.
    Canonicalize,
    /// Report it joined to the working directory.
    JoinCwd,
}

/// The bytes of `libkerneldetector.so`, the injected kernel-logging library.
pub open spec fn detector_name() -> Seq<u8> {
    seq![
        0x6c, 0x69, 0x62, 0x6b, 0x65, 0x72, 0x6e, 0x65, 0x6c, 0x64, 0x65, 0x74, 0x65, 0x63, 0x74,
        0x6f, 0x72, 0x2e, 0x73, 0x6f,
    ]
}

/// Whether `pat` occurs in `s` as a contiguous run.
pub open spec fn contains_bytes(s: Seq<u8>, pat: Seq<u8>) -> bool {
    exists|i: int| 0 <= i <= s.len() - pat.len() && #[trigger] s.subrange(i, i + pat.len()) == pat
}

/// Whether `pat` occurs in `s` as a contiguous run.
fn contains_bytes_exec(s: &[u8], pat: &[u8]) -> (r: bool)
    ensures
        r == contains_bytes(s@, pat@),
{
    if pat.len() > s.len() {
        return false;
    }
    let mut i: usize = 0;
    while i <= s.len() - pat.len()
        invariant
            pat@.len() <= s@.len(),
            i <= s@.len() - pat@.len() + 1,
            forall|j: int| 0 <= j < i ==> #[trigger] s@.subrange(j, j + pat@.len()) != pat@,
        decreases s@.len() - pat@.len() + 1 - i,
    {
        let mut k: usize = 0;
        let mut same = true;
        while k < pat.len() && same
            invariant
                i + pat@.len() <= s@.len(),
                s@.len() == s.len(),
                k <= pat@.len(),
                same == forall|x: int| 0 <= x < k ==> s@[i + x] == pat@[x],
            decreases pat@.len() - k,
        {
            if s[i + k] != pat[k] {
                same = false;
            }
            k = k + 1;
        }
        if same {
            assert(s@.subrange(i as int, i + pat@.len()) =~= pat@);
            return true;
        } else {
            assert(s@.subrange(i as int, i + pat@.len()) != pat@) by {
                let x = choose|x: int| 0 <= x < k && s@[i + x] != pat@[x];
                assert(s@.subrange(i as int, i + pat@.len())[x] == s@[i + x]);
            }
        }
        i = i + 1;
    }
    false
}

/// The decision for a path from the link map, which is `on_disk` or not:
/// empty or missing paths and the kernel-logging library are skipped, absolute
/// paths canonicalized, and relative ones joined to the working directory.
pub fn classify_so_path(path: &[u8], on_disk: bool) -> (r: SoPathAction)
    ensures
        r == if path@.len() == 0 || !on_disk || contains_bytes(path@, detector_name()) {
            SoPathAction::Skip
        } else if path@[0] == 0x2f {
            SoPathAction::Canonicalize
        } else {
            SoPathAction::JoinCwd
        },
{
    if path.len() == 0 || !on_disk {
        return SoPathAction::Skip;
    }
    let detector = vec![
        0x6c, 0x69, 0x62, 0x6b, 0x65, 0x72, 0x6e, 0x65, 0x6c, 0x64, 0x65, 0x74, 0x65, 0x63, 0x74,
        0x6f, 0x72, 0x2e, 0x73, 0x6f,
    ];
    assert(detector@ =~= detector_name());
    if contains_bytes_exec(path, detector.as_slice()) {
        SoPathAction::Skip
    } else if path[0] == 0x2f {
        SoPathAction::Canonicalize
    } else {
        SoPathAction::JoinCwd
    }
}

/// `path` relative to the working directory `cwd`: `cwd/path`.
pub fn join_cwd(cwd: &[u8], path: &[u8]) -> (r: Vec<u8>)
    ensures
        r@ == cwd@ + seq![0x2fu8] + path@,
{
    let mut out = vstd::slice::slice_to_vec(cwd);
    out.push(0x2f);
    let mut i: usize = 0;
    while i < path.len()
        invariant
            i <= path@.len(),
            out@ == cwd@ + seq![0x2fu8] + path@.subrange(0, i as int),
        decreases path@.len() - i,
    {
        out.push(path[i]);
        assert(out@ =~= cwd@ + seq![0x2fu8] + path@.subrange(0, i + 1));
        i = i + 1;
    }
    assert(path@.subrange(0, i as int) =~= path@);
    out
}

/// Whether `k` is a kernel the log names: a non-empty trimmed line of it.
pub open spec fn is_logged_kernel(log: Seq<u8>, k: Seq<u8>) -> bool {
    k.len() > 0 && exists|i: int| 0 <= i < lines(log).len() && trim(lines(log)[i]) == k
}

/// The shared objects loaded and the kernels launched during a trace, each
/// listed once.
pub struct TraceReport {
    pub detected_kernels: Vec<Vec<u8>>,
    pub loaded_sos: Vec<Vec<u8>>,
}

impl TraceReport {
    /// The report of the resolved paths `loaded_sos` and the kernel log
    /// `kernel_log` (one kernel name per line).
    pub fn assemble(loaded_sos: Vec<Vec<u8>>, kernel_log: &[u8]) -> (r: TraceReport)
        ensures
            names_view(r.loaded_sos@).no_duplicates(),
            names_view(r.detected_kernels@).no_duplicates(),
            forall|p: Seq<u8>|
                names_view(r.loaded_sos@).contains(p) <==> names_view(loaded_sos@).contains(p),
            forall|k: Seq<u8>|
                names_view(r.detected_kernels@).contains(k) <==> is_logged_kernel(kernel_log@, k),
    {
        let ghost given = names_view(loaded_sos@);
        let mut sos: Vec<Vec<u8>> = Vec::new();
        assert(names_view(sos@) =~= Seq::<Seq<u8>>::empty());
        let mut rest = loaded_sos;
        let ghost mut taken: Seq<Seq<u8>> = Seq::empty();
        while rest.len() > 0
            invariant
                given == names_view(rest@) + taken,
                names_view(sos@).no_duplicates(),
                forall|p: Seq<u8>| names_view(sos@).contains(p) <==> taken.contains(p),
            decreases rest@.len(),
        {
            let ghost before_rest = names_view(rest@);
            let ghost before_taken = taken;
            match rest.pop() {
                Some(p) => {
                    proof {
                        taken = seq![p@] + taken;
                        assert(before_rest =~= names_view(rest@).push(p@));
                        assert(given =~= names_view(rest@) + taken);
                        assert forall|q: Seq<u8>| taken.contains(q) <==> (before_taken.contains(q)
                            || q == p@) by {
                            if before_taken.contains(q) {
                                let i = choose|i: int| 0 <= i < before_taken.len() && before_taken[i] == q;
                                assert(taken[i + 1] == q);
                            }
                            if q == p@ {
                                assert(taken[0] == q);
                            }
                            if taken.contains(q) && q != p@ {
                                let i = choose|i: int| 0 <= i < taken.len() && taken[i] == q;
                                assert(before_taken[i - 1] == q);
                            }
                        }
                    }
                    insert_name(&mut sos, p);
                },
                None => {},
            }
        }
        assert(given =~= taken);
        let ls = split_lines(kernel_log);
        let ghost lv = names_view(ls@);
        let mut kernels: Vec<Vec<u8>> = Vec::new();
        assert(names_view(kernels@) =~= Seq::<Seq<u8>>::empty());
        let mut i: usize = 0;
        while i < ls.len()
            invariant
                lv == names_view(ls@),
                lv == lines(kernel_log@),
                i <= lv.len(),
                names_view(kernels@).no_duplicates(),
                forall|k: Seq<u8>|
                    names_view(kernels@).contains(k) <==> (k.len() > 0 && exists|x: int|
                        0 <= x < i && trim(lv[x]) == k),
            decreases lv.len() - i,
        {
            let t = trim_bytes(ls[i].as_slice());
            assert(ls@[i as int]@ == lv[i as int]);
            let ghost tv = t@;
            let ghost before = names_view(kernels@);
            if t.len() > 0 {
                insert_name(&mut kernels, t);
            }
            assert forall|k: Seq<u8>| names_view(kernels@).contains(k) <==> (k.len() > 0
                && exists|x: int| 0 <= x < i + 1 && trim(lv[x]) == k) by {
                if k.len() > 0 && exists|x: int| 0 <= x < i + 1 && trim(lv[x]) == k {
                    let x = choose|x: int| 0 <= x < i + 1 && trim(lv[x]) == k;
                    if x < i {
                        assert(before.contains(k));
                    }
                }
                if k == tv && tv.len() > 0 {
                    assert(trim(lv[i as int]) == k);
                }
            }
            i = i + 1;
        }
        TraceReport { detected_kernels: kernels, loaded_sos: sos }
    }
}

} // verus!
