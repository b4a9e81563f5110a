//! The traversal state machine.
//!
//! One resolution walks a chain of indirections: it follows symlinks,
//! classifies content, asks the wrapper heuristics for a redirect target,
//! and appends one hop per step, failing on a revisited path. The machine
//! itself performs no I/O: it emits a `ProbeRequest` naming the one
//! filesystem question it needs answered, and the caller feeds the answer
//! back through `step`. The whole behaviour is pinned by the mathematical
//! transition function `step_m` over the model state `MState`.

use vstd::prelude::*;
use vstd::utf8::{decode_utf8, valid_utf8};
use crate::chain::{FileKind, LinkType, ScriptType, SymlinkChain, WrapperKind};
use crate::classify;
use crate::classify::FileType;
use crate::detect;
use crate::detect::NixBinaryWrapperDetector;
use crate::error::SymseekError;
use crate::extract;
use crate::paths;

verus! {

/// The content-read ceiling: a file larger than this is never read by the
/// wrapper heuristics, which then simply report no match.
pub const MAX_DETECT_FILE_SIZE: u64 = 1048576;

/// The one filesystem question the machine needs answered next.
#[derive(Debug, Clone)]
pub enum ProbeRequest {
    /// Read the path as a symlink.
    ReadLink(String),
    /// Whether the path's own metadata says it is a symlink.
    CheckSymlink(String),
    /// Read a fixed-size prefix of the file's content.
    ReadPrefix(String),
    /// The file's size in bytes.
    FileSize(String),
    /// Read the whole file.
    ReadAll(String),
    /// Whether the path exists as a regular file.
    CheckExists(String),
}

/// The answer to a probe.
#[derive(Debug, Clone)]
pub enum ProbeReply {
    /// The link's target, as stored.
    LinkTarget(String),
    /// The path is not a symlink.
    NotSymlink,
    /// Reading the link failed for another reason.
    LinkReadError(String),
    /// Whether the metadata marks a symlink.
    SymlinkStatus(bool),
    /// The content prefix that was read.
    PrefixBytes(Vec<u8>),
    /// The file's size.
    SizeIs(u64),
    /// The whole content.
    ContentBytes(Vec<u8>),
    /// Whether the asked path exists as a regular file.
    ExistsStatus(bool),
    /// The probe failed with this message.
    IoFailure(String),
}

/// Where the machine stands between two probes.
#[derive(Debug, Clone, Copy)]
pub enum Phase {
    AwaitReadLink,
    AwaitSymlinkCheck { was_symlink: bool },
    AwaitPrefix { was_symlink: bool },
    AwaitSize { was_symlink: bool, is_elf: bool },
    AwaitContent { was_symlink: bool, is_elf: bool },
    AwaitExists { was_symlink: bool, is_elf: bool },
    AwaitFinalSymlinkCheck,
    AwaitFinalPrefix,
    Finished,
}

/// What one step decides: the next probe to run, success, or failure.
#[derive(Debug)]
pub enum StepOutcome {
    Probe(ProbeRequest),
    Done,
    Failed(SymseekError),
}

/// One resolution in progress. On `Done` the finished chain stands in
/// `chain`.
#[derive(Debug)]
pub struct Resolution {
    pub chain: SymlinkChain,
    pub current: String,
    pub visited: Vec<String>,
    pub pending: Vec<String>,
    pub pending_idx: usize,
    pub phase: Phase,
}

// ---------------------------------------------------------------------
// The mathematical model.
// ---------------------------------------------------------------------

/// The model of one hop.
#[verifier::ext_equal]
pub struct MHop {
    pub target: Seq<char>,
    pub is_final: bool,
    pub link_type: LinkType,
}

/// The model of the machine's phase.
#[verifier::ext_equal]
pub enum MPhase {
    ReadLinkWait,
    SymlinkCheckWait { was_symlink: bool },
    PrefixWait { was_symlink: bool },
    SizeWait { was_symlink: bool, is_elf: bool },
    ContentWait { was_symlink: bool, is_elf: bool },
    ExistsWait { was_symlink: bool, is_elf: bool },
    FinalSymlinkCheckWait,
    FinalPrefixWait,
    Halted,
}

/// The model of the machine's state.
#[verifier::ext_equal]
pub struct MState {
    pub origin: Seq<char>,
    pub current: Seq<char>,
    pub visited: Seq<Seq<char>>,
    pub hops: Seq<MHop>,
    pub pending: Seq<Seq<char>>,
    pub pending_idx: int,
    pub phase: MPhase,
}

/// The model of a probe request.
#[verifier::ext_equal]
pub enum MRequest {
    ReadLink(Seq<char>),
    CheckSymlink(Seq<char>),
    ReadPrefix(Seq<char>),
    FileSize(Seq<char>),
    ReadAll(Seq<char>),
    CheckExists(Seq<char>),
}

/// The model of a probe reply.
#[verifier::ext_equal]
pub enum MReply {
    LinkTarget(Seq<char>),
    NotSymlink,
    LinkReadError(Seq<char>),
    SymlinkStatus(bool),
    PrefixBytes(Seq<u8>),
    SizeIs(u64),
    ContentBytes(Seq<u8>),
    ExistsStatus(bool),
    IoFailure(Seq<char>),
}

/// The model of an error.
#[verifier::ext_equal]
pub enum MError {
    NotFound(Seq<char>, Seq<Seq<char>>),
    Io(Seq<char>, Seq<char>),
    InvalidInput(Seq<char>),
    SymlinkResolution(Seq<char>, Seq<char>),
    PathEncoding(Seq<char>),
    CycleDetected(Seq<char>),
    WrapperParsing(Seq<char>, Seq<char>),
    JsonSerialization(Seq<char>),
}

/// The model of a step's outcome.
#[verifier::ext_equal]
pub enum MOutcome {
    Probe(MRequest),
    Done,
    Failed(MError),
}

/// The model of a machine state.
pub open spec fn abs_state(r: Resolution) -> MState {
    MState {
        origin: r.chain.origin@,
        current: r.current@,
        visited: r.visited.deep_view(),
        hops: abs_hops(r.chain.links@),
        pending: r.pending.deep_view(),
        pending_idx: r.pending_idx as int,
        phase: abs_phase(r.phase),
    }
}

/// The model of the hops recorded so far.
pub open spec fn abs_hops(links: Seq<crate::chain::SymlinkNode>) -> Seq<MHop> {
    links.map_values(
        |n: crate::chain::SymlinkNode|
            MHop { target: n.target@, is_final: n.is_final, link_type: n.link_type },
    )
}

/// The model of a phase.
pub open spec fn abs_phase(p: Phase) -> MPhase {
    match p {
        Phase::AwaitReadLink => MPhase::ReadLinkWait,
        Phase::AwaitSymlinkCheck { was_symlink } => MPhase::SymlinkCheckWait { was_symlink },
        Phase::AwaitPrefix { was_symlink } => MPhase::PrefixWait { was_symlink },
        Phase::AwaitSize { was_symlink, is_elf } => MPhase::SizeWait { was_symlink, is_elf },
        Phase::AwaitContent { was_symlink, is_elf } => MPhase::ContentWait { was_symlink, is_elf },
        Phase::AwaitExists { was_symlink, is_elf } => MPhase::ExistsWait { was_symlink, is_elf },
        Phase::AwaitFinalSymlinkCheck => MPhase::FinalSymlinkCheckWait,
        Phase::AwaitFinalPrefix => MPhase::FinalPrefixWait,
        Phase::Finished => MPhase::Halted,
    }
}

/// The model of a probe reply.
pub open spec fn abs_reply(p: ProbeReply) -> MReply {
    match p {
        ProbeReply::LinkTarget(t) => MReply::LinkTarget(t@),
        ProbeReply::NotSymlink => MReply::NotSymlink,
        ProbeReply::LinkReadError(m) => MReply::LinkReadError(m@),
        ProbeReply::SymlinkStatus(b) => MReply::SymlinkStatus(b),
        ProbeReply::PrefixBytes(b) => MReply::PrefixBytes(b@),
        ProbeReply::SizeIs(n) => MReply::SizeIs(n),
        ProbeReply::ContentBytes(b) => MReply::ContentBytes(b@),
        ProbeReply::ExistsStatus(b) => MReply::ExistsStatus(b),
        ProbeReply::IoFailure(m) => MReply::IoFailure(m@),
    }
}

/// The model of a probe request.
pub open spec fn abs_request(p: ProbeRequest) -> MRequest {
    match p {
        ProbeRequest::ReadLink(t) => MRequest::ReadLink(t@),
        ProbeRequest::CheckSymlink(t) => MRequest::CheckSymlink(t@),
        ProbeRequest::ReadPrefix(t) => MRequest::ReadPrefix(t@),
        ProbeRequest::FileSize(t) => MRequest::FileSize(t@),
        ProbeRequest::ReadAll(t) => MRequest::ReadAll(t@),
        ProbeRequest::CheckExists(t) => MRequest::CheckExists(t@),
    }
}

/// The model of an error.
pub open spec fn abs_error(e: SymseekError) -> MError {
    match e {
        SymseekError::NotFound { name, searched_locations } => MError::NotFound(
            name@,
            searched_locations.deep_view(),
        ),
        SymseekError::Io { context, message } => MError::Io(context@, message@),
        SymseekError::InvalidInput { message } => MError::InvalidInput(message@),
        SymseekError::SymlinkResolution { path, reason } => MError::SymlinkResolution(
            path@,
            reason@,
        ),
        SymseekError::PathEncoding { path } => MError::PathEncoding(path@),
        SymseekError::CycleDetected { path } => MError::CycleDetected(path@),
        SymseekError::WrapperParsing { path, reason } => MError::WrapperParsing(path@, reason@),
        SymseekError::JsonSerialization { message } => MError::JsonSerialization(message@),
    }
}

/// The model of a step's outcome.
pub open spec fn abs_outcome(o: StepOutcome) -> MOutcome {
    match o {
        StepOutcome::Probe(r) => MOutcome::Probe(abs_request(r)),
        StepOutcome::Done => MOutcome::Done,
        StepOutcome::Failed(e) => MOutcome::Failed(abs_error(e)),
    }
}

/// The textual view of a content: its UTF-8 decoding when it is valid
/// UTF-8, else the printable strings extracted from it.
pub open spec fn content_text(bytes: Seq<u8>) -> Seq<char> {
    if valid_utf8(bytes) {
        decode_utf8(bytes)
    } else {
        extract::extracted_strings(bytes)
    }
}

/// The terminal verdict for a classified file: binary for ELF and other
/// binary content, text for everything else.
pub open spec fn terminal_kind(ft: FileType) -> FileKind {
    if ft is ElfBinary || ft is OtherBinary {
        FileKind::Binary
    } else {
        FileKind::Text
    }
}

/// The wrapper hop label: a binary wrapper for ELF content, a shell-script
/// wrapper otherwise.
pub open spec fn wrapper_link_type(is_elf: bool) -> LinkType {
    if is_elf {
        LinkType::Wrapper(WrapperKind::Binary)
    } else {
        LinkType::Wrapper(WrapperKind::Text(ScriptType::Shell))
    }
}

/// Begin one iteration over the current path: fail on a revisited path,
/// else record the path as visited and ask to read it as a link.
pub open spec fn begin_iteration_m(m: MState) -> (MState, MOutcome) {
    if m.visited.contains(m.current) {
        (
            MState { phase: MPhase::Halted, ..m },
            MOutcome::Failed(MError::CycleDetected(m.current)),
        )
    } else {
        (
            MState { visited: m.visited.push(m.current), phase: MPhase::ReadLinkWait, ..m },
            MOutcome::Probe(MRequest::ReadLink(m.current)),
        )
    }
}

/// Record a wrapper hop at the current path and continue the traversal at
/// its target.
pub open spec fn wrapper_hop_m(m: MState, target: Seq<char>, is_elf: bool) -> (MState, MOutcome) {
    let hopped = MState {
        hops: m.hops.push(
            MHop { target: m.current, is_final: false, link_type: wrapper_link_type(is_elf) },
        ),
        current: target,
        ..m
    };
    begin_iteration_m(hopped)
}

/// No wrapper was found: a path reached through a symlink gets a symlink
/// hop and the traversal continues; anything else is terminal and gets a
/// fresh classification round.
pub open spec fn no_wrapper_m(m: MState, was_symlink: bool) -> (MState, MOutcome) {
    if was_symlink {
        let hopped = MState {
            hops: m.hops.push(
                MHop { target: m.current, is_final: false, link_type: LinkType::Symlink },
            ),
            ..m
        };
        begin_iteration_m(hopped)
    } else {
        (
            MState { phase: MPhase::FinalSymlinkCheckWait, ..m },
            MOutcome::Probe(MRequest::CheckSymlink(m.current)),
        )
    }
}

/// Fail the resolution with a read error in the given context.
pub open spec fn io_fail_m(m: MState, prefix: Seq<char>, msg: Seq<char>) -> (MState, MOutcome) {
    (
        MState { phase: MPhase::Halted, ..m },
        MOutcome::Failed(MError::Io(prefix + m.current, msg)),
    )
}

/// A reply that does not answer the outstanding probe.
pub open spec fn protocol_error_m(m: MState) -> (MState, MOutcome) {
    (
        MState { phase: MPhase::Halted, ..m },
        MOutcome::Failed(MError::InvalidInput("unexpected probe reply"@)),
    )
}

/// Append the final, terminal hop and finish.
pub open spec fn finish_m(m: MState, kind: FileKind) -> (MState, MOutcome) {
    (
        MState {
            hops: m.hops.push(
                MHop { target: m.current, is_final: true, link_type: LinkType::Terminal(kind) },
            ),
            phase: MPhase::Halted,
            ..m
        },
        MOutcome::Done,
    )
}

/// The transition function of the machine: what one reply does to the
/// state, and what comes out.
pub open spec fn step_m(m: MState, ev: MReply) -> (MState, MOutcome) {
    match m.phase {
        MPhase::ReadLinkWait => match ev {
            MReply::LinkTarget(t) => {
                let c = paths::resolve_target_spec(m.current, t);
                (
                    MState {
                        current: c,
                        phase: MPhase::SymlinkCheckWait { was_symlink: true },
                        ..m
                    },
                    MOutcome::Probe(MRequest::CheckSymlink(c)),
                )
            },
            MReply::NotSymlink => (
                MState { phase: MPhase::SymlinkCheckWait { was_symlink: false }, ..m },
                MOutcome::Probe(MRequest::CheckSymlink(m.current)),
            ),
            MReply::LinkReadError(reason) => (
                MState { phase: MPhase::Halted, ..m },
                MOutcome::Failed(MError::SymlinkResolution(m.current, reason)),
            ),
            _ => protocol_error_m(m),
        },
        MPhase::SymlinkCheckWait { was_symlink } => match ev {
            MReply::SymlinkStatus(true) => no_wrapper_m(m, was_symlink),
            MReply::SymlinkStatus(false) => (
                MState { phase: MPhase::PrefixWait { was_symlink }, ..m },
                MOutcome::Probe(MRequest::ReadPrefix(m.current)),
            ),
            MReply::IoFailure(msg) => io_fail_m(m, "Failed to read metadata for "@, msg),
            _ => protocol_error_m(m),
        },
        MPhase::PrefixWait { was_symlink } => match ev {
            MReply::PrefixBytes(b) => {
                let ft = classify::classify_spec(b);
                if ft is ShellScript {
                    (
                        MState { phase: MPhase::SizeWait { was_symlink, is_elf: false }, ..m },
                        MOutcome::Probe(MRequest::FileSize(m.current)),
                    )
                } else if ft is ElfBinary {
                    (
                        MState { phase: MPhase::SizeWait { was_symlink, is_elf: true }, ..m },
                        MOutcome::Probe(MRequest::FileSize(m.current)),
                    )
                } else {
                    no_wrapper_m(m, was_symlink)
                }
            },
            MReply::IoFailure(msg) => io_fail_m(m, "Failed to read "@, msg),
            _ => protocol_error_m(m),
        },
        MPhase::SizeWait { was_symlink, is_elf } => match ev {
            MReply::SizeIs(n) => {
                if n > MAX_DETECT_FILE_SIZE {
                    no_wrapper_m(m, was_symlink)
                } else {
                    (
                        MState { phase: MPhase::ContentWait { was_symlink, is_elf }, ..m },
                        MOutcome::Probe(MRequest::ReadAll(m.current)),
                    )
                }
            },
            MReply::IoFailure(msg) => io_fail_m(m, "Failed to read metadata for "@, msg),
            _ => protocol_error_m(m),
        },
        MPhase::ContentWait { was_symlink, is_elf } => match ev {
            MReply::ContentBytes(b) => {
                let txt = content_text(b);
                match detect::marker_target_spec(m.current, txt) {
                    Some(t) => wrapper_hop_m(m, t, is_elf),
                    None => {
                        let cands = detect::store_candidates_spec(m.current, txt);
                        if cands.len() == 0 {
                            no_wrapper_m(m, was_symlink)
                        } else {
                            (
                                MState {
                                    pending: cands,
                                    pending_idx: 0,
                                    phase: MPhase::ExistsWait { was_symlink, is_elf },
                                    ..m
                                },
                                MOutcome::Probe(MRequest::CheckExists(cands[0])),
                            )
                        }
                    },
                }
            },
            MReply::IoFailure(msg) => io_fail_m(m, "Failed to read file "@, msg),
            _ => protocol_error_m(m),
        },
        MPhase::ExistsWait { was_symlink, is_elf } => match ev {
            MReply::ExistsStatus(sts) => {
                if !(0 <= m.pending_idx < m.pending.len()) {
                    protocol_error_m(m)
                } else if sts {
                    wrapper_hop_m(m, m.pending[m.pending_idx], is_elf)
                } else if m.pending_idx + 1 < m.pending.len() {
                    (
                        MState { pending_idx: m.pending_idx + 1, ..m },
                        MOutcome::Probe(MRequest::CheckExists(m.pending[m.pending_idx + 1])),
                    )
                } else {
                    no_wrapper_m(m, was_symlink)
                }
            },
            _ => protocol_error_m(m),
        },
        MPhase::FinalSymlinkCheckWait => match ev {
            MReply::SymlinkStatus(true) => finish_m(m, FileKind::Text),
            MReply::SymlinkStatus(false) => (
                MState { phase: MPhase::FinalPrefixWait, ..m },
                MOutcome::Probe(MRequest::ReadPrefix(m.current)),
            ),
            MReply::IoFailure(msg) => io_fail_m(m, "Failed to read metadata for "@, msg),
            _ => protocol_error_m(m),
        },
        MPhase::FinalPrefixWait => match ev {
            MReply::PrefixBytes(b) => finish_m(m, terminal_kind(classify::classify_spec(b))),
            MReply::IoFailure(msg) => io_fail_m(m, "Failed to read "@, msg),
            _ => protocol_error_m(m),
        },
        MPhase::Halted => protocol_error_m(m),
    }
}

/// A fresh model state for an origin: nothing visited, no hops, halted
/// until the first iteration begins.
pub open spec fn init_m(origin: Seq<char>) -> MState {
    MState {
        origin: origin,
        current: origin,
        visited: Seq::empty(),
        hops: Seq::empty(),
        pending: Seq::empty(),
        pending_idx: 0,
        phase: MPhase::Halted,
    }
}

/// Where a fresh resolution of `origin` begins: a relative origin fails at
/// once, before any probe; an absolute one enters the first iteration.
pub open spec fn start_m(origin: Seq<char>) -> (MState, MOutcome) {
    if !paths::is_absolute_spec(origin) {
        (init_m(origin), MOutcome::Failed(MError::InvalidInput("Path must be absolute"@)))
    } else {
        begin_iteration_m(init_m(origin))
    }
}

/// What the machine maintains while it runs: the origin and every path it
/// handles are absolute, every recorded hop is an intermediate one, and a
/// candidate list under probe is absolute too, with the probe index inside
/// it.
pub open spec fn resolution_inv(r: Resolution) -> bool {
    &&& paths::is_absolute_spec(r.chain.origin@)
    &&& paths::is_absolute_spec(r.current@)
    &&& forall|i: int|
        0 <= i < r.chain.links@.len() ==> !(#[trigger] r.chain.links@[i]).is_final
            && paths::is_absolute_spec(r.chain.links@[i].target@)
    &&& forall|i: int|
        0 <= i < r.pending@.len() ==> paths::is_absolute_spec(
            (#[trigger] r.pending@[i])@,
        )
    &&& (r.phase matches Phase::AwaitExists { .. } ==> r.pending_idx < r.pending@.len())
}

fn contains_string(v: &Vec<String>, s: &String) -> (r: bool)
    ensures
        r == v.deep_view().contains(s@),
{
    let n = v.len();
    let mut i: usize = 0;
    while i < n
        invariant
            n == v@.len(),
            i <= n,
            forall|k: int| 0 <= k < i ==> v@[k]@ != s@,
        decreases n - i,
    {
        if v[i].eq(s) {
            proof {
                assert(v.deep_view()[i as int] == s@);
            }
            return true;
        }
        i = i + 1;
    }
    proof {
        assert forall|k: int| 0 <= k < v.deep_view().len() implies v.deep_view()[k] != s@ by {
            assert(v.deep_view()[k] == v@[k]@);
        }
    }
    false
}

impl Resolution {
    /// Begin a resolution of the given origin path. A relative origin
    /// fails at once, before any probe is issued; an absolute one yields
    /// the machine together with its first probe.
    pub fn start(origin: &str) -> (r: (Resolution, StepOutcome))
        ensures
            ({
                let (m2, o2) = start_m(origin@);
                abs_state(r.0) == m2 && abs_outcome(r.1) == o2
            }),
            resolution_inv(r.0) || !paths::is_absolute_spec(origin@),
            r.0.chain.origin@ == origin@,
            r.0.chain.links@.len() == 0,
    {
        let mut res = Resolution {
            chain: SymlinkChain::new(origin.to_owned()),
            current: origin.to_owned(),
            visited: Vec::new(),
            pending: Vec::new(),
            pending_idx: 0,
            phase: Phase::Finished,
        };
        proof {
            assert(abs_hops(res.chain.links@) =~= Seq::<MHop>::empty());
            assert(res.visited.deep_view() =~= Seq::<Seq<char>>::empty());
            assert(res.pending.deep_view() =~= Seq::<Seq<char>>::empty());
            assert(abs_state(res) =~~= init_m(origin@));
        }
        if !paths::is_absolute(origin) {
            let out = StepOutcome::Failed(
                SymseekError::InvalidInput { message: String::from_str("Path must be absolute") },
            );
            (res, out)
        } else {
            proof {
                assert(resolution_inv(res));
            }
            let out = res.begin_iteration();
            (res, out)
        }
    }

    fn begin_iteration(&mut self) -> (out: StepOutcome)
        ensures
            ({
                let (m2, o2) = begin_iteration_m(abs_state(*old(self)));
                abs_state(*final(self)) == m2 && abs_outcome(out) == o2
            }),
            resolution_inv(*old(self)) ==> resolution_inv(*final(self)),
            !(out is Done),
            final(self).chain == old(self).chain,
    {
        if contains_string(&self.visited, &self.current) {
            self.phase = Phase::Finished;
            let out = StepOutcome::Failed(
                SymseekError::CycleDetected { path: self.current.clone() },
            );
            proof {
                assert(abs_state(*self) =~~= begin_iteration_m(abs_state(*old(self))).0);
            }
            out
        } else {
            let c = self.current.clone();
            self.visited.push(c);
            self.phase = Phase::AwaitReadLink;
            proof {
                assert(self.visited.deep_view() =~~= old(self).visited.deep_view().push(
                    old(self).current@,
                ));
                assert(abs_state(*self) =~~= begin_iteration_m(abs_state(*old(self))).0);
            }
            StepOutcome::Probe(ProbeRequest::ReadLink(self.current.clone()))
        }
    }

    fn continue_no_wrapper(&mut self, was_symlink: bool) -> (out: StepOutcome)
        ensures
            ({
                let (m2, o2) = no_wrapper_m(abs_state(*old(self)), was_symlink);
                abs_state(*final(self)) == m2 && abs_outcome(out) == o2
            }),
            resolution_inv(*old(self)) ==> resolution_inv(*final(self)),
            !(out is Done),
    {
        if was_symlink {
            let ghost prev = *self;
            self.chain.add_link(self.current.clone(), false, LinkType::Symlink);
            proof {
                lemma_links_extended(prev.chain.links@, self.chain.links@);
                assert(abs_hops(self.chain.links@) =~~= abs_hops(prev.chain.links@).push(
                    MHop {
                        target: prev.current@,
                        is_final: false,
                        link_type: LinkType::Symlink,
                    },
                ));
                assert(abs_state(*self) =~~= MState {
                    hops: abs_state(prev).hops.push(
                        MHop {
                            target: prev.current@,
                            is_final: false,
                            link_type: LinkType::Symlink,
                        },
                    ),
                    ..abs_state(prev)
                });
                if resolution_inv(prev) {
                    assert forall|i: int| 0 <= i < self.chain.links@.len() implies !(
                    #[trigger] self.chain.links@[i]).is_final && paths::is_absolute_spec(
                        self.chain.links@[i].target@,
                    ) by {
                        if i < prev.chain.links@.len() {
                            assert(self.chain.links@[i] == prev.chain.links@[i]);
                        }
                    }
                    assert(resolution_inv(*self));
                }
            }
            self.begin_iteration()
        } else {
            self.phase = Phase::AwaitFinalSymlinkCheck;
            proof {
                assert(abs_state(*self) =~~= no_wrapper_m(abs_state(*old(self)), false).0);
            }
            StepOutcome::Probe(ProbeRequest::CheckSymlink(self.current.clone()))
        }
    }

    fn take_wrapper_hop(&mut self, target: String, is_elf: bool) -> (out: StepOutcome)
        ensures
            ({
                let (m2, o2) = wrapper_hop_m(abs_state(*old(self)), target@, is_elf);
                abs_state(*final(self)) == m2 && abs_outcome(out) == o2
            }),
            resolution_inv(*old(self)) && paths::is_absolute_spec(target@) ==> resolution_inv(
                *final(self),
            ),
            !(out is Done),
    {
        let ghost prev = *self;
        let lt = if is_elf {
            LinkType::Wrapper(WrapperKind::Binary)
        } else {
            LinkType::Wrapper(WrapperKind::Text(ScriptType::Shell))
        };
        self.chain.add_link(self.current.clone(), false, lt);
        self.current = target;
        proof {
            lemma_links_extended(prev.chain.links@, self.chain.links@);
            assert(abs_hops(self.chain.links@) =~~= abs_hops(prev.chain.links@).push(
                MHop { target: prev.current@, is_final: false, link_type: wrapper_link_type(is_elf) },
            ));
            assert(abs_state(*self) =~~= MState {
                hops: abs_state(prev).hops.push(
                    MHop {
                        target: prev.current@,
                        is_final: false,
                        link_type: wrapper_link_type(is_elf),
                    },
                ),
                current: target@,
                ..abs_state(prev)
            });
            if resolution_inv(prev) && paths::is_absolute_spec(target@) {
                assert forall|i: int| 0 <= i < self.chain.links@.len() implies !(
                #[trigger] self.chain.links@[i]).is_final && paths::is_absolute_spec(
                    self.chain.links@[i].target@,
                ) by {
                    if i < prev.chain.links@.len() {
                        assert(self.chain.links@[i] == prev.chain.links@[i]);
                    }
                }
                assert(resolution_inv(*self));
            }
        }
        self.begin_iteration()
    }

    fn io_fail(&mut self, prefix: &str, msg: String) -> (out: StepOutcome)
        ensures
            ({
                let (m2, o2) = io_fail_m(abs_state(*old(self)), prefix@, msg@);
                abs_state(*final(self)) == m2 && abs_outcome(out) == o2
            }),
            resolution_inv(*old(self)) ==> resolution_inv(*final(self)),
            !(out is Done),
    {
        let mut context = prefix.to_owned();
        context.append(self.current.as_str());
        self.phase = Phase::Finished;
        proof {
            assert(abs_state(*self) =~~= io_fail_m(abs_state(*old(self)), prefix@, msg@).0);
        }
        StepOutcome::Failed(SymseekError::Io { context, message: msg })
    }

    fn protocol_error(&mut self) -> (out: StepOutcome)
        ensures
            ({
                let (m2, o2) = protocol_error_m(abs_state(*old(self)));
                abs_state(*final(self)) == m2 && abs_outcome(out) == o2
            }),
            resolution_inv(*old(self)) ==> resolution_inv(*final(self)),
            !(out is Done),
    {
        self.phase = Phase::Finished;
        proof {
            assert(abs_state(*self) =~~= protocol_error_m(abs_state(*old(self))).0);
        }
        StepOutcome::Failed(
            SymseekError::InvalidInput { message: String::from_str("unexpected probe reply") },
        )
    }

    fn finish_with(&mut self, kind: FileKind) -> (out: StepOutcome)
        ensures
            ({
                let (m2, o2) = finish_m(abs_state(*old(self)), kind);
                abs_state(*final(self)) == m2 && abs_outcome(out) == o2
            }),
            resolution_inv(*old(self)) ==> crate::chain::chain_complete(final(self).chain)
                && crate::chain::chain_paths_absolute(final(self).chain),
            out is Done,
    {
        let ghost prev = *self;
        self.chain.add_link(self.current.clone(), true, LinkType::Terminal(kind));
        self.phase = Phase::Finished;
        proof {
            lemma_links_extended(prev.chain.links@, self.chain.links@);
            assert(abs_hops(self.chain.links@) =~~= abs_hops(prev.chain.links@).push(
                MHop { target: prev.current@, is_final: true, link_type: LinkType::Terminal(kind) },
            ));
            assert(abs_state(*self) =~~= finish_m(abs_state(prev), kind).0);
            if resolution_inv(prev) {
                let n = self.chain.links@.len();
                assert forall|i: int| 0 <= i < n implies ((#[trigger] self.chain.links@[i]).is_final
                    <==> i == n - 1) && paths::is_absolute_spec(self.chain.links@[i].target@) by {
                    if i < prev.chain.links@.len() {
                        assert(self.chain.links@[i] == prev.chain.links@[i]);
                    }
                }
                assert(crate::chain::chain_complete(self.chain));
                assert(crate::chain::chain_paths_absolute(self.chain));
            }
        }
        StepOutcome::Done
    }

    /// Feed the machine the answer to its outstanding probe. The step
    /// behaves exactly as the transition function `step_m` of the model
    /// says; the machine's invariant is kept, and when the step reports
    /// `Done` the finished chain stands in `chain`, complete.
    pub fn step(&mut self, reply: ProbeReply) -> (out: StepOutcome)
        ensures
            ({
                let (m2, o2) = step_m(abs_state(*old(self)), abs_reply(reply));
                abs_state(*final(self)) == m2 && abs_outcome(out) == o2
            }),
            resolution_inv(*old(self)) && !(out is Done) ==> resolution_inv(*final(self)),
            resolution_inv(*old(self)) && out is Done ==> crate::chain::chain_complete(
                final(self).chain,
            ) && crate::chain::chain_paths_absolute(final(self).chain),
            final(self).chain.origin@ == old(self).chain.origin@,
    {
        match self.phase {
            Phase::AwaitReadLink => match reply {
                ProbeReply::LinkTarget(t) => {
                    let c = paths::resolve_target(self.current.as_str(), t.as_str());
                    self.current = c;
                    self.phase = Phase::AwaitSymlinkCheck { was_symlink: true };
                    proof {
                        assert(abs_state(*self) =~~= step_m(
                            abs_state(*old(self)),
                            abs_reply(reply),
                        ).0);
                        if resolution_inv(*old(self)) {
                            assert(resolution_inv(*self));
                        }
                    }
                    StepOutcome::Probe(ProbeRequest::CheckSymlink(self.current.clone()))
                },
                ProbeReply::NotSymlink => {
                    self.phase = Phase::AwaitSymlinkCheck { was_symlink: false };
                    proof {
                        assert(abs_state(*self) =~~= step_m(
                            abs_state(*old(self)),
                            abs_reply(reply),
                        ).0);
                        if resolution_inv(*old(self)) {
                            assert(resolution_inv(*self));
                        }
                    }
                    StepOutcome::Probe(ProbeRequest::CheckSymlink(self.current.clone()))
                },
                ProbeReply::LinkReadError(reason) => {
                    self.phase = Phase::Finished;
                    proof {
                        assert(abs_state(*self) =~~= step_m(
                            abs_state(*old(self)),
                            abs_reply(reply),
                        ).0);
                        if resolution_inv(*old(self)) {
                            assert(resolution_inv(*self));
                        }
                    }
                    StepOutcome::Failed(
                        SymseekError::SymlinkResolution { path: self.current.clone(), reason },
                    )
                },
                _ => self.protocol_error(),
            },
            Phase::AwaitSymlinkCheck { was_symlink } => match reply {
                ProbeReply::SymlinkStatus(sts) => {
                    if sts {
                        self.continue_no_wrapper(was_symlink)
                    } else {
                        self.phase = Phase::AwaitPrefix { was_symlink };
                        proof {
                            assert(abs_state(*self) =~~= step_m(
                                abs_state(*old(self)),
                                abs_reply(reply),
                            ).0);
                            if resolution_inv(*old(self)) {
                                assert(resolution_inv(*self));
                            }
                        }
                        StepOutcome::Probe(ProbeRequest::ReadPrefix(self.current.clone()))
                    }
                },
                ProbeReply::IoFailure(msg) => self.io_fail("Failed to read metadata for ", msg),
                _ => self.protocol_error(),
            },
            Phase::AwaitPrefix { was_symlink } => match reply {
                ProbeReply::PrefixBytes(b) => {
                    let ft = classify::classify_buffer(b.as_slice());
                    if ft == FileType::ShellScript {
                        self.phase = Phase::AwaitSize { was_symlink, is_elf: false };
                        proof {
                            assert(abs_state(*self) =~~= step_m(
                                abs_state(*old(self)),
                                abs_reply(reply),
                            ).0);
                            if resolution_inv(*old(self)) {
                                assert(resolution_inv(*self));
                            }
                        }
                        StepOutcome::Probe(ProbeRequest::FileSize(self.current.clone()))
                    } else if ft == FileType::ElfBinary {
                        self.phase = Phase::AwaitSize { was_symlink, is_elf: true };
                        proof {
                            assert(abs_state(*self) =~~= step_m(
                                abs_state(*old(self)),
                                abs_reply(reply),
                            ).0);
                            if resolution_inv(*old(self)) {
                                assert(resolution_inv(*self));
                            }
                        }
                        StepOutcome::Probe(ProbeRequest::FileSize(self.current.clone()))
                    } else {
                        self.continue_no_wrapper(was_symlink)
                    }
                },
                ProbeReply::IoFailure(msg) => self.io_fail("Failed to read ", msg),
                _ => self.protocol_error(),
            },
            Phase::AwaitSize { was_symlink, is_elf } => match reply {
                ProbeReply::SizeIs(n) => {
                    if n > MAX_DETECT_FILE_SIZE {
                        self.continue_no_wrapper(was_symlink)
                    } else {
                        self.phase = Phase::AwaitContent { was_symlink, is_elf };
                        proof {
                            assert(abs_state(*self) =~~= step_m(
                                abs_state(*old(self)),
                                abs_reply(reply),
                            ).0);
                            if resolution_inv(*old(self)) {
                                assert(resolution_inv(*self));
                            }
                        }
                        StepOutcome::Probe(ProbeRequest::ReadAll(self.current.clone()))
                    }
                },
                ProbeReply::IoFailure(msg) => self.io_fail("Failed to read metadata for ", msg),
                _ => self.protocol_error(),
            },
            Phase::AwaitContent { was_symlink, is_elf } => match reply {
                ProbeReply::ContentBytes(bytes) => {
                    let text_view: String = match classify::utf8_to_string(bytes.as_slice()) {
                        Some(s) => s,
                        None => extract::extract_strings_from_binary(bytes.as_slice()),
                    };
                    proof {
                        assert(text_view@ == content_text(bytes@));
                    }
                    let detector = NixBinaryWrapperDetector;
                    match detector.detect(self.current.as_str(), text_view.as_str()) {
                        Some(t) => {
                            proof {
                                detect::lemma_marker_target_absolute(
                                    old(self).current@,
                                    content_text(bytes@),
                                );
                            }
                            self.take_wrapper_hop(t, is_elf)
                        },
                        None => {
                            let cands = detect::store_path_candidates(
                                self.current.as_str(),
                                text_view.as_str(),
                            );
                            if cands.len() == 0 {
                                self.continue_no_wrapper(was_symlink)
                            } else {
                                self.pending = cands;
                                self.pending_idx = 0;
                                self.phase = Phase::AwaitExists { was_symlink, is_elf };
                                proof {
                                    assert(abs_state(*self) =~~= step_m(
                                        abs_state(*old(self)),
                                        abs_reply(reply),
                                    ).0);
                                    lemma_pending_absolute(*old(self), *self, bytes@);
                                    if resolution_inv(*old(self)) {
                                        assert(resolution_inv(*self));
                                    }
                                }
                                StepOutcome::Probe(
                                    ProbeRequest::CheckExists(self.pending[0].clone()),
                                )
                            }
                        },
                    }
                },
                ProbeReply::IoFailure(msg) => self.io_fail("Failed to read file ", msg),
                _ => self.protocol_error(),
            },
            Phase::AwaitExists { was_symlink, is_elf } => match reply {
                ProbeReply::ExistsStatus(sts) => {
                    if !(self.pending_idx < self.pending.len()) {
                        self.protocol_error()
                    } else if sts {
                        let t = self.pending[self.pending_idx].clone();
                        self.take_wrapper_hop(t, is_elf)
                    } else if self.pending_idx + 1 < self.pending.len() {
                        self.pending_idx = self.pending_idx + 1;
                        proof {
                            assert(abs_state(*self) =~~= step_m(
                                abs_state(*old(self)),
                                abs_reply(reply),
                            ).0);
                            if resolution_inv(*old(self)) {
                                assert(resolution_inv(*self));
                            }
                        }
                        StepOutcome::Probe(
                            ProbeRequest::CheckExists(self.pending[self.pending_idx].clone()),
                        )
                    } else {
                        self.continue_no_wrapper(was_symlink)
                    }
                },
                _ => self.protocol_error(),
            },
            Phase::AwaitFinalSymlinkCheck => match reply {
                ProbeReply::SymlinkStatus(sts) => {
                    if sts {
                        self.finish_with(FileKind::Text)
                    } else {
                        self.phase = Phase::AwaitFinalPrefix;
                        proof {
                            assert(abs_state(*self) =~~= step_m(
                                abs_state(*old(self)),
                                abs_reply(reply),
                            ).0);
                            if resolution_inv(*old(self)) {
                                assert(resolution_inv(*self));
                            }
                        }
                        StepOutcome::Probe(ProbeRequest::ReadPrefix(self.current.clone()))
                    }
                },
                ProbeReply::IoFailure(msg) => self.io_fail("Failed to read metadata for ", msg),
                _ => self.protocol_error(),
            },
            Phase::AwaitFinalPrefix => match reply {
                ProbeReply::PrefixBytes(b) => {
                    let ft = classify::classify_buffer(b.as_slice());
                    let kind = if ft == FileType::ElfBinary || ft == FileType::OtherBinary {
                        FileKind::Binary
                    } else {
                        FileKind::Text
                    };
                    self.finish_with(kind)
                },
                ProbeReply::IoFailure(msg) => self.io_fail("Failed to read ", msg),
                _ => self.protocol_error(),
            },
            Phase::Finished => self.protocol_error(),
        }
    }
}

// ---------------------------------------------------------------------
// Whole traversals of the model.
// ---------------------------------------------------------------------

/// The model state after a sequence of replies, with the outcome of the
/// last step.
pub open spec fn run_m(m: MState, evs: Seq<MReply>) -> (MState, MOutcome)
    decreases evs.len(),
{
    if evs.len() == 0 {
        (m, MOutcome::Done)
    } else if evs.len() == 1 {
        step_m(m, evs[0])
    } else {
        run_m(step_m(m, evs[0]).0, evs.drop_first())
    }
}

proof fn lemma_run_append(m: MState, a: Seq<MReply>, b: Seq<MReply>)
    requires
        a.len() >= 1,
        b.len() >= 1,
    ensures
        run_m(m, a + b) == run_m(run_m(m, a).0, b),
    decreases a.len(),
{
    let ab = a + b;
    assert(ab[0] == a[0]);
    assert(ab.len() == a.len() + b.len());
    if a.len() == 1 {
        assert(ab.drop_first() =~= b);
    } else {
        assert(ab.drop_first() =~= a.drop_first() + b);
        lemma_run_append(step_m(m, a[0]).0, a.drop_first(), b);
    }
}

/// The replies a plain symlink chain gives, from node `j` on: each link
/// reads as a symlink to the next node, and the plain file at the end
/// reads as an empty text file.
pub open spec fn chain_events(p: Seq<Seq<char>>, j: int) -> Seq<MReply>
    decreases p.len() - j,
{
    if j >= p.len() - 1 {
        seq![
            MReply::NotSymlink,
            MReply::SymlinkStatus(false),
            MReply::PrefixBytes(Seq::empty()),
            MReply::SymlinkStatus(false),
            MReply::PrefixBytes(Seq::empty()),
        ]
    } else if j == p.len() - 2 {
        seq![
            MReply::LinkTarget(p[j + 1]),
            MReply::SymlinkStatus(false),
            MReply::PrefixBytes(Seq::empty()),
        ] + chain_events(p, j + 1)
    } else {
        seq![MReply::LinkTarget(p[j + 1]), MReply::SymlinkStatus(true)] + chain_events(p, j + 1)
    }
}

/// The hops such a traversal records from node `j` on: one intermediate
/// symlink hop per node after `j`, and one final text hop at the end.
pub open spec fn chain_hops(p: Seq<Seq<char>>, j: int) -> Seq<MHop>
    decreases p.len() - j,
{
    if j >= p.len() - 1 {
        seq![
            MHop {
                target: p[p.len() - 1],
                is_final: true,
                link_type: LinkType::Terminal(FileKind::Text),
            },
        ]
    } else {
        seq![MHop { target: p[j + 1], is_final: false, link_type: LinkType::Symlink }]
            + chain_hops(p, j + 1)
    }
}

proof fn lemma_chain_hops_props(p: Seq<Seq<char>>, j: int)
    requires
        0 <= j < p.len(),
    ensures
        chain_hops(p, j).len() == p.len() - j,
        forall|i: int|
            0 <= i < chain_hops(p, j).len() ==> ((#[trigger] chain_hops(p, j)[i]).is_final <==> i
                == chain_hops(p, j).len() - 1),
        forall|i: int|
            0 <= i < chain_hops(p, j).len() - 1 ==> (#[trigger] chain_hops(p, j)[i]).link_type
                == LinkType::Symlink && chain_hops(p, j)[i].target == p[j + 1 + i],
        chain_hops(p, j).last() == (MHop {
            target: p[p.len() - 1],
            is_final: true,
            link_type: LinkType::Terminal(FileKind::Text),
        }),
    decreases p.len() - j,
{
    if j < p.len() - 1 {
        lemma_chain_hops_props(p, j + 1);
        let whole = chain_hops(p, j);
        let rest = chain_hops(p, j + 1);
        assert forall|i: int| 0 <= i < whole.len() implies ((#[trigger] whole[i]).is_final <==> i
            == whole.len() - 1) by {
            if i > 0 {
                assert(whole[i] == rest[i - 1]);
            }
        }
        assert forall|i: int| 0 <= i < whole.len() - 1 implies (#[trigger] whole[i]).link_type
            == LinkType::Symlink && whole[i].target == p[j + 1 + i] by {
            if i > 0 {
                assert(whole[i] == rest[i - 1]);
            }
        }
        assert(whole.last() == rest.last());
    }
}

proof fn lemma_empty_prefix_classifies_text()
    ensures
        classify::classify_spec(Seq::<u8>::empty()) == FileType::OtherText,
{
    assert(vstd::utf8::valid_utf8(Seq::<u8>::empty()));
}

proof fn lemma_visited_push_contains(v: Seq<Seq<char>>, x: Seq<char>, y: Seq<char>)
    requires
        !v.contains(y),
        y != x,
    ensures
        !v.push(x).contains(y),
{
    if v.push(x).contains(y) {
        let i = choose|i: int| 0 <= i < v.push(x).len() && v.push(x)[i] == y;
        if i < v.len() {
            assert(v[i] == y);
        }
    }
}

/// Running the chain replies from node `j` drives the machine to `Done`,
/// appending exactly the chain hops from `j` on.
proof fn lemma_chain_run(p: Seq<Seq<char>>, j: int, m: MState)
    requires
        0 <= j < p.len(),
        forall|a: int, b: int| 0 <= a < b < p.len() ==> p[a] != p[b],
        forall|a: int| 0 <= a < p.len() ==> paths::is_absolute_spec(#[trigger] p[a]),
        m.phase == MPhase::ReadLinkWait,
        m.current == p[j],
        forall|k: int| j < k < p.len() ==> !m.visited.contains(#[trigger] p[k]),
    ensures
        run_m(m, chain_events(p, j)).1 == MOutcome::Done,
        run_m(m, chain_events(p, j)).0.hops == m.hops + chain_hops(p, j),
        run_m(m, chain_events(p, j)).0.origin == m.origin,
    decreases p.len() - j,
{
    lemma_empty_prefix_classifies_text();
    let e = chain_events(p, j);
    if j >= p.len() - 1 {
        // the plain file at the end of the chain
        let m1 = step_m(m, e[0]).0;
        let m2 = step_m(m1, e[1]).0;
        let m3 = step_m(m2, e[2]).0;
        let m4 = step_m(m3, e[3]).0;
        let last = step_m(m4, e[4]);
        assert(e.drop_first()[0] == e[1]);
        assert(e.drop_first().drop_first() =~= e.skip(2));
        assert(e.skip(2)[0] == e[2]);
        assert(e.skip(2).drop_first() =~= e.skip(3));
        assert(e.skip(3)[0] == e[3]);
        assert(e.skip(3).drop_first() =~= e.skip(4));
        assert(e.skip(4)[0] == e[4]);
        assert(run_m(m, e) == run_m(m1, e.drop_first()));
        assert(run_m(m1, e.drop_first()) == run_m(m2, e.skip(2)));
        assert(run_m(m2, e.skip(2)) == run_m(m3, e.skip(3)));
        assert(run_m(m3, e.skip(3)) == run_m(m4, e.skip(4)));
        assert(run_m(m4, e.skip(4)) == last);
        assert(last.1 == MOutcome::Done);
        assert(last.0.hops =~= m.hops + chain_hops(p, j));
    } else {
        let target = p[j + 1];
        let hop = MHop { target: target, is_final: false, link_type: LinkType::Symlink };
        // the machine follows the link and enters the next iteration
        let m1 = step_m(m, MReply::LinkTarget(target)).0;
        assert(paths::resolve_target_spec(m.current, target) == target);
        assert(m1.current == target);
        if j == p.len() - 2 {
            let head = seq![
                MReply::LinkTarget(target),
                MReply::SymlinkStatus(false),
                MReply::PrefixBytes(Seq::<u8>::empty()),
            ];
            assert(e =~= head + chain_events(p, j + 1));
            let m2 = step_m(m1, head[1]).0;
            let m3s = step_m(m2, head[2]);
            // the target is the plain file: it gets its symlink hop and a
            // fresh iteration begins at it
            lemma_visited_push_contains(m.visited, p[j], p[j + 1]);
            assert(!m2.visited.contains(p[j + 1]));
            assert(head.drop_first()[0] == head[1]);
            assert(head.drop_first().drop_first() =~= seq![head[2]]);
            assert(run_m(m, head) == run_m(m1, head.drop_first()));
            assert(run_m(m1, head.drop_first()) == run_m(m2, seq![head[2]]));
            assert(run_m(m2, seq![head[2]]) == m3s);
            let m3 = m3s.0;
            assert(m3.phase == MPhase::ReadLinkWait);
            assert(m3.current == p[j + 1]);
            assert(m3.hops =~= m.hops + seq![hop]);
            assert forall|k: int| j + 1 < k < p.len() implies !m3.visited.contains(
                #[trigger] p[k],
            ) by {
                lemma_visited_push_contains(m.visited, p[j + 1], p[k]);
            }
            lemma_chain_run(p, j + 1, m3);
            lemma_run_append(m, head, chain_events(p, j + 1));
            assert(run_m(m, e).0.hops =~= m.hops + chain_hops(p, j));
        } else {
            let head = seq![MReply::LinkTarget(target), MReply::SymlinkStatus(true)];
            assert(e =~= head + chain_events(p, j + 1));
            // the target is itself a symlink: it gets its symlink hop and a
            // fresh iteration begins at it
            assert(!m1.visited.contains(p[j + 1]));
            let m2s = step_m(m1, head[1]);
            assert(head.drop_first() =~= seq![head[1]]);
            assert(run_m(m, head) == run_m(m1, head.drop_first()));
            assert(run_m(m1, head.drop_first()) == m2s);
            let m2 = m2s.0;
            assert(m2.phase == MPhase::ReadLinkWait);
            assert(m2.current == p[j + 1]);
            assert(m2.hops =~= m.hops + seq![hop]);
            assert forall|k: int| j + 1 < k < p.len() implies !m2.visited.contains(
                #[trigger] p[k],
            ) by {
                lemma_visited_push_contains(m.visited, p[j + 1], p[k]);
            }
            lemma_chain_run(p, j + 1, m2);
            lemma_run_append(m, head, chain_events(p, j + 1));
            assert(run_m(m, e).0.hops =~= m.hops + chain_hops(p, j));
        }
    }
}

/// For a simple symlink chain of distinct absolute paths ending in a plain
/// file, a resolution of its head succeeds with exactly one hop per node
/// of the chain: `is_final` holds on the last hop alone, every earlier hop
/// is a symlink hop naming the next node, and the last hop is the terminal
/// text file.
pub proof fn lemma_simple_chain_resolves(p: Seq<Seq<char>>)
    requires
        p.len() >= 1,
        forall|a: int, b: int| 0 <= a < b < p.len() ==> p[a] != p[b],
        forall|a: int| 0 <= a < p.len() ==> paths::is_absolute_spec(#[trigger] p[a]),
    ensures
        ({
            let (m0, o0) = start_m(p[0]);
            let (mf, of) = run_m(m0, chain_events(p, 0));
            &&& o0 == MOutcome::Probe(MRequest::ReadLink(p[0]))
            &&& of == MOutcome::Done
            &&& mf.origin == p[0]
            &&& mf.hops.len() == p.len()
            &&& forall|i: int|
                0 <= i < mf.hops.len() ==> ((#[trigger] mf.hops[i]).is_final <==> i == mf.hops.len()
                    - 1)
            &&& forall|i: int|
                0 <= i < mf.hops.len() - 1 ==> (#[trigger] mf.hops[i]).link_type
                    == LinkType::Symlink && mf.hops[i].target == p[i + 1]
            &&& mf.hops.last() == (MHop {
                target: p[p.len() - 1],
                is_final: true,
                link_type: LinkType::Terminal(FileKind::Text),
            })
        }),
{
    let (m0, o0) = start_m(p[0]);
    assert(!Seq::<Seq<char>>::empty().contains(p[0]));
    assert(m0.phase == MPhase::ReadLinkWait);
    assert(m0.current == p[0]);
    assert forall|k: int| 0 < k < p.len() implies !m0.visited.contains(#[trigger] p[k]) by {
        lemma_visited_push_contains(Seq::<Seq<char>>::empty(), p[0], p[k]);
    }
    lemma_chain_run(p, 0, m0);
    lemma_chain_hops_props(p, 0);
    let (mf, of) = run_m(m0, chain_events(p, 0));
    assert(mf.hops =~= chain_hops(p, 0));
}

/// An ELF file within the size ceiling whose content yields no marker
/// target and exactly one name-matching store candidate, which exists as a
/// regular file, gets a binary wrapper hop at its own path, and the
/// traversal continues at the candidate. The marker-based heuristic has
/// precedence, so the premise that it finds nothing is what lets the
/// name-matching candidate decide.
pub proof fn lemma_elf_name_match_takes_wrapper_hop(
    m: MState,
    prefix: Seq<u8>,
    size: u64,
    content: Seq<u8>,
    t: Seq<char>,
)
    requires
        m.phase == MPhase::ReadLinkWait,
        classify::classify_spec(prefix) == FileType::ElfBinary,
        size <= MAX_DETECT_FILE_SIZE,
        detect::marker_target_spec(m.current, content_text(content)) is None,
        detect::store_candidates_spec(m.current, content_text(content)) == seq![t],
        !m.visited.contains(t),
    ensures
        ({
            let evs = seq![
                MReply::NotSymlink,
                MReply::SymlinkStatus(false),
                MReply::PrefixBytes(prefix),
                MReply::SizeIs(size),
                MReply::ContentBytes(content),
                MReply::ExistsStatus(true),
            ];
            let (mf, of) = run_m(m, evs);
            &&& of == MOutcome::Probe(MRequest::ReadLink(t))
            &&& mf.current == t
            &&& mf.hops == m.hops.push(
                MHop {
                    target: m.current,
                    is_final: false,
                    link_type: LinkType::Wrapper(WrapperKind::Binary),
                },
            )
            &&& mf.origin == m.origin
        }),
{
    let evs = seq![
        MReply::NotSymlink,
        MReply::SymlinkStatus(false),
        MReply::PrefixBytes(prefix),
        MReply::SizeIs(size),
        MReply::ContentBytes(content),
        MReply::ExistsStatus(true),
    ];
    let m1 = step_m(m, evs[0]).0;
    let m2 = step_m(m1, evs[1]).0;
    let m3 = step_m(m2, evs[2]).0;
    let m4 = step_m(m3, evs[3]).0;
    let m5 = step_m(m4, evs[4]).0;
    let last = step_m(m5, evs[5]);
    assert(evs.drop_first()[0] == evs[1]);
    assert(evs.drop_first().drop_first() =~= evs.skip(2));
    assert(evs.skip(2)[0] == evs[2]);
    assert(evs.skip(2).drop_first() =~= evs.skip(3));
    assert(evs.skip(3)[0] == evs[3]);
    assert(evs.skip(3).drop_first() =~= evs.skip(4));
    assert(evs.skip(4)[0] == evs[4]);
    assert(evs.skip(4).drop_first() =~= evs.skip(5));
    assert(evs.skip(5)[0] == evs[5]);
    assert(run_m(m, evs) == run_m(m1, evs.drop_first()));
    assert(run_m(m1, evs.drop_first()) == run_m(m2, evs.skip(2)));
    assert(run_m(m2, evs.skip(2)) == run_m(m3, evs.skip(3)));
    assert(run_m(m3, evs.skip(3)) == run_m(m4, evs.skip(4)));
    assert(run_m(m4, evs.skip(4)) == run_m(m5, evs.skip(5)));
    assert(run_m(m5, evs.skip(5)) == last);
    assert(m5.pending == seq![t]);
    assert(m5.pending[0] == t);
    assert(last.1 == MOutcome::Probe(MRequest::ReadLink(t)));
    assert(last.0.hops =~= m.hops.push(
        MHop {
            target: m.current,
            is_final: false,
            link_type: LinkType::Wrapper(WrapperKind::Binary),
        },
    ));
}

/// A shell script within the size ceiling whose content carries a
/// marker-based invocation of a store path gets a shell-script wrapper hop
/// at its own path, and the traversal continues at the quoted target.
pub proof fn lemma_shell_marker_takes_wrapper_hop(
    m: MState,
    prefix: Seq<u8>,
    size: u64,
    content: Seq<u8>,
    t: Seq<char>,
)
    requires
        m.phase == MPhase::ReadLinkWait,
        classify::classify_spec(prefix) == FileType::ShellScript,
        size <= MAX_DETECT_FILE_SIZE,
        detect::marker_target_spec(m.current, content_text(content)) == Some(t),
        !m.visited.contains(t),
    ensures
        ({
            let evs = seq![
                MReply::NotSymlink,
                MReply::SymlinkStatus(false),
                MReply::PrefixBytes(prefix),
                MReply::SizeIs(size),
                MReply::ContentBytes(content),
            ];
            let (mf, of) = run_m(m, evs);
            &&& of == MOutcome::Probe(MRequest::ReadLink(t))
            &&& mf.current == t
            &&& mf.hops == m.hops.push(
                MHop {
                    target: m.current,
                    is_final: false,
                    link_type: LinkType::Wrapper(WrapperKind::Text(ScriptType::Shell)),
                },
            )
            &&& mf.origin == m.origin
        }),
{
    let evs = seq![
        MReply::NotSymlink,
        MReply::SymlinkStatus(false),
        MReply::PrefixBytes(prefix),
        MReply::SizeIs(size),
        MReply::ContentBytes(content),
    ];
    let m1 = step_m(m, evs[0]).0;
    let m2 = step_m(m1, evs[1]).0;
    let m3 = step_m(m2, evs[2]).0;
    let m4 = step_m(m3, evs[3]).0;
    let last = step_m(m4, evs[4]);
    assert(evs.drop_first()[0] == evs[1]);
    assert(evs.drop_first().drop_first() =~= evs.skip(2));
    assert(evs.skip(2)[0] == evs[2]);
    assert(evs.skip(2).drop_first() =~= evs.skip(3));
    assert(evs.skip(3)[0] == evs[3]);
    assert(evs.skip(3).drop_first() =~= evs.skip(4));
    assert(evs.skip(4)[0] == evs[4]);
    assert(run_m(m, evs) == run_m(m1, evs.drop_first()));
    assert(run_m(m1, evs.drop_first()) == run_m(m2, evs.skip(2)));
    assert(run_m(m2, evs.skip(2)) == run_m(m3, evs.skip(3)));
    assert(run_m(m3, evs.skip(3)) == run_m(m4, evs.skip(4)));
    assert(run_m(m4, evs.skip(4)) == last);
    assert(last.1 == MOutcome::Probe(MRequest::ReadLink(t)));
    assert(last.0.hops =~= m.hops.push(
        MHop {
            target: m.current,
            is_final: false,
            link_type: LinkType::Wrapper(WrapperKind::Text(ScriptType::Shell)),
        },
    ));
}

/// An ELF file within the size ceiling whose content yields no marker
/// target and no acceptable name-matching candidate is terminal: the
/// resolution ends with one binary hop at the file itself.
pub proof fn lemma_elf_without_candidates_is_terminal(
    m: MState,
    prefix: Seq<u8>,
    size: u64,
    content: Seq<u8>,
    terminal_prefix: Seq<u8>,
)
    requires
        m.phase == MPhase::ReadLinkWait,
        classify::classify_spec(prefix) == FileType::ElfBinary,
        size <= MAX_DETECT_FILE_SIZE,
        detect::marker_target_spec(m.current, content_text(content)) is None,
        detect::store_candidates_spec(m.current, content_text(content)) == Seq::<Seq<char>>::empty(),
        terminal_kind(classify::classify_spec(terminal_prefix)) == FileKind::Binary,
    ensures
        ({
            let evs = seq![
                MReply::NotSymlink,
                MReply::SymlinkStatus(false),
                MReply::PrefixBytes(prefix),
                MReply::SizeIs(size),
                MReply::ContentBytes(content),
                MReply::SymlinkStatus(false),
                MReply::PrefixBytes(terminal_prefix),
            ];
            let (mf, of) = run_m(m, evs);
            &&& of == MOutcome::Done
            &&& mf.hops == m.hops.push(
                MHop {
                    target: m.current,
                    is_final: true,
                    link_type: LinkType::Terminal(FileKind::Binary),
                },
            )
            &&& mf.origin == m.origin
        }),
{
    let evs = seq![
        MReply::NotSymlink,
        MReply::SymlinkStatus(false),
        MReply::PrefixBytes(prefix),
        MReply::SizeIs(size),
        MReply::ContentBytes(content),
        MReply::SymlinkStatus(false),
        MReply::PrefixBytes(terminal_prefix),
    ];
    let m1 = step_m(m, evs[0]).0;
    let m2 = step_m(m1, evs[1]).0;
    let m3 = step_m(m2, evs[2]).0;
    let m4 = step_m(m3, evs[3]).0;
    let m5 = step_m(m4, evs[4]).0;
    let m6 = step_m(m5, evs[5]).0;
    let last = step_m(m6, evs[6]);
    assert(evs.drop_first()[0] == evs[1]);
    assert(evs.drop_first().drop_first() =~= evs.skip(2));
    assert(evs.skip(2)[0] == evs[2]);
    assert(evs.skip(2).drop_first() =~= evs.skip(3));
    assert(evs.skip(3)[0] == evs[3]);
    assert(evs.skip(3).drop_first() =~= evs.skip(4));
    assert(evs.skip(4)[0] == evs[4]);
    assert(evs.skip(4).drop_first() =~= evs.skip(5));
    assert(evs.skip(5)[0] == evs[5]);
    assert(evs.skip(5).drop_first() =~= evs.skip(6));
    assert(evs.skip(6)[0] == evs[6]);
    assert(run_m(m, evs) == run_m(m1, evs.drop_first()));
    assert(run_m(m1, evs.drop_first()) == run_m(m2, evs.skip(2)));
    assert(run_m(m2, evs.skip(2)) == run_m(m3, evs.skip(3)));
    assert(run_m(m3, evs.skip(3)) == run_m(m4, evs.skip(4)));
    assert(run_m(m4, evs.skip(4)) == run_m(m5, evs.skip(5)));
    assert(run_m(m5, evs.skip(5)) == run_m(m6, evs.skip(6)));
    assert(run_m(m6, evs.skip(6)) == last);
    assert(last.1 == MOutcome::Done);
    assert(last.0.hops =~= m.hops.push(
        MHop {
            target: m.current,
            is_final: true,
            link_type: LinkType::Terminal(FileKind::Binary),
        },
    ));
}

/// After one hop is appended the earlier links are untouched.
proof fn lemma_links_extended(
    old_links: Seq<crate::chain::SymlinkNode>,
    new_links: Seq<crate::chain::SymlinkNode>,
)
    requires
        new_links.len() == old_links.len() + 1,
        new_links.subrange(0, old_links.len() as int) == old_links,
    ensures
        forall|i: int| 0 <= i < old_links.len() ==> new_links[i] == #[trigger] old_links[i],
{
    assert forall|i: int|
        0 <= i < old_links.len() implies new_links[i] == #[trigger] old_links[i] by {
        assert(new_links.subrange(0, old_links.len() as int)[i] == new_links[i]);
    }
}

/// The candidate list just installed holds absolute paths only.
proof fn lemma_pending_absolute(prev: Resolution, cur: Resolution, bytes: Seq<u8>)
    requires
        cur.pending.deep_view() == detect::store_candidates_spec(
            prev.current@,
            content_text(bytes),
        ),
    ensures
        forall|i: int|
            0 <= i < cur.pending@.len() ==> paths::is_absolute_spec((#[trigger] cur.pending@[i])@),
{
    let cands = detect::store_candidates_spec(prev.current@, content_text(bytes));
    detect::lemma_candidates_acceptable(
        prev.current@,
        detect::regex_find_all_spec(
            "/nix/store/[a-z0-9]+-[^/\\s]+(?:/[^/\\s]+)*"@,
            content_text(bytes),
        ),
    );
    assert forall|i: int|
        0 <= i < cur.pending@.len() implies paths::is_absolute_spec(
        (#[trigger] cur.pending@[i])@,
    ) by {
        assert(cur.pending.deep_view()[i] == cur.pending@[i]@);
        assert(detect::acceptable_candidate(prev.current@, cands[i]));
        detect::lemma_store_prefixed_absolute(cands[i]);
    }
}

} // verus!
