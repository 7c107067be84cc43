//! The orchestrator: a state machine that decides, step by step, which
//! version-control command to issue next. The caller executes each
//! command and feeds its outcome back in; the machine itself never
//! touches the repository, so every decision it makes is verified.
//!
//! Per branch the machine applies the eligibility rules in order (the
//! mainline target itself, branches tracking an upstream, branches
//! checked out in a worktree, and branches unchanged since a conflicting
//! attempt are skipped), then tries to rebase onto each candidate commit
//! of the mainline, newest first, falling back on conflict. If every
//! candidate conflicts, the branch's current commit is recorded in the
//! conflict memo, which is persisted immediately.

use vstd::prelude::*;
use crate::catalog::AbsBranch;
use crate::catalog::BranchInfo;
use crate::catalog::branch_views;
use crate::catalog::catalog_spec;
use crate::catalog::parse_branch_records;
use crate::memo::Memo;
use crate::memo::insert_key;
use crate::memo::lookup;
use crate::memo::remove_key;
use crate::memo::serialize_spec;
use crate::text::bytes_eq;
use crate::text::clone_bytes;
use crate::text::lines_of;
use crate::text::split_lines;
use crate::text::trim;
use crate::text::trim_spec;

verus! {

/// Why a branch is passed over.
#[derive(Clone, Copy, Debug, PartialEq, Eq, Structural)]
pub enum SkipReason {
    /// The branch is the mainline target itself.
    IsTarget,
    /// The branch tracks an upstream and is managed by ordinary pulls.
    TracksUpstream,
    /// The branch is checked out in some worktree and in active use.
    CheckedOut,
    /// The branch still points at the commit recorded after its last
    /// conflicting attempt.
    UnchangedSinceConflict,
}

/// Why a run stops early; every one of these aborts the whole run.
#[derive(Clone, Copy, Debug, PartialEq, Eq, Structural)]
pub enum ErrorKind {
    /// The branch listing did not parse.
    CatalogParse,
    /// The branch listing command itself failed.
    ListBranchesFailed,
    /// Checking the mainline out in the scratch worktree failed.
    RefreshCheckoutFailed,
    /// The fast-forward pull of the mainline failed.
    PullFailed,
    /// Detaching the scratch worktree failed.
    DetachFailed,
    /// Resolving a branch to its commit failed.
    ResolveCommitFailed,
    /// Writing the conflict memo failed.
    SaveMemoFailed,
    /// The merge-base computation failed: disjoint histories.
    MergeBaseFailed,
    /// Enumerating the candidate commits failed.
    ListCommitsFailed,
    /// Checking the branch out in the scratch worktree failed.
    CheckoutFailed,
    /// Aborting an in-progress rebase failed.
    AbortFailed,
}

/// The outcome of the previously issued command, fed back in.
#[derive(Debug, PartialEq, Eq)]
pub enum Event {
    /// Nothing has been issued yet; the first call uses this.
    Start,
    /// The command succeeded.
    Succeeded,
    /// The command failed.
    Failed,
    /// The command succeeded and printed these bytes.
    Output(Vec<u8>),
    /// Whether a rebase is in progress in the scratch worktree.
    InProgress(bool),
}

pub enum AbsEvent {
    Start,
    Succeeded,
    Failed,
    Output(Seq<u8>),
    InProgress(bool),
}

impl View for Event {
    type V = AbsEvent;

    open spec fn view(&self) -> AbsEvent {
        match self {
            Event::Start => AbsEvent::Start,
            Event::Succeeded => AbsEvent::Succeeded,
            Event::Failed => AbsEvent::Failed,
            Event::Output(o) => AbsEvent::Output(o@),
            Event::InProgress(b) => AbsEvent::InProgress(*b),
        }
    }
}

/// The next command to run, or the end of the run.
#[derive(Debug, PartialEq, Eq)]
pub enum Action {
    /// List the local branches with upstream and worktree attributes.
    ListBranches,
    /// The mainline is not in the catalog; log and continue.
    WarnOntoMissing,
    /// The mainline is checked out somewhere; log and continue.
    WarnOntoCheckedOut,
    /// Check the mainline out in the scratch worktree.
    CheckoutOnto,
    /// Fast-forward the mainline from its upstream.
    PullFastForward,
    /// Detach the scratch worktree.
    Detach,
    /// This branch is passed over; log and continue.
    SkipBranch(Vec<u8>, SkipReason),
    /// Resolve the branch to its current commit.
    ResolveCommit(Vec<u8>),
    /// Overwrite the memo file with this document.
    SaveMemo(Vec<u8>),
    /// Compute the merge-base of the branch and the mainline.
    ComputeMergeBase(Vec<u8>, Vec<u8>),
    /// List the commits from the merge-base (exclusive) to the mainline
    /// tip, newest first.
    ListCommits(Vec<u8>, Vec<u8>),
    /// Check the branch out in the scratch worktree.
    CheckoutBranch(Vec<u8>),
    /// Rebase the checked-out branch onto this commit.
    Rebase(Vec<u8>),
    /// Ask whether a rebase is in progress in the scratch worktree.
    CheckRebaseInProgress,
    /// Abort the in-progress rebase in the scratch worktree.
    AbortRebase,
    /// The run is complete.
    Finished,
    /// The run has failed; nothing more will be issued.
    Fatal(ErrorKind),
}

pub enum AbsAction {
    ListBranches,
    WarnOntoMissing,
    WarnOntoCheckedOut,
    CheckoutOnto,
    PullFastForward,
    Detach,
    SkipBranch(Seq<u8>, SkipReason),
    ResolveCommit(Seq<u8>),
    SaveMemo(Seq<u8>),
    ComputeMergeBase(Seq<u8>, Seq<u8>),
    ListCommits(Seq<u8>, Seq<u8>),
    CheckoutBranch(Seq<u8>),
    Rebase(Seq<u8>),
    CheckRebaseInProgress,
    AbortRebase,
    Finished,
    Fatal(ErrorKind),
}

impl View for Action {
    type V = AbsAction;

    open spec fn view(&self) -> AbsAction {
        match self {
            Action::ListBranches => AbsAction::ListBranches,
            Action::WarnOntoMissing => AbsAction::WarnOntoMissing,
            Action::WarnOntoCheckedOut => AbsAction::WarnOntoCheckedOut,
            Action::CheckoutOnto => AbsAction::CheckoutOnto,
            Action::PullFastForward => AbsAction::PullFastForward,
            Action::Detach => AbsAction::Detach,
            Action::SkipBranch(n, r) => AbsAction::SkipBranch(n@, *r),
            Action::ResolveCommit(n) => AbsAction::ResolveCommit(n@),
            Action::SaveMemo(d) => AbsAction::SaveMemo(d@),
            Action::ComputeMergeBase(n, o) => AbsAction::ComputeMergeBase(n@, o@),
            Action::ListCommits(b, o) => AbsAction::ListCommits(b@, o@),
            Action::CheckoutBranch(n) => AbsAction::CheckoutBranch(n@),
            Action::Rebase(t) => AbsAction::Rebase(t@),
            Action::CheckRebaseInProgress => AbsAction::CheckRebaseInProgress,
            Action::AbortRebase => AbsAction::AbortRebase,
            Action::Finished => AbsAction::Finished,
            Action::Fatal(k) => AbsAction::Fatal(*k),
        }
    }
}

/// Where the machine stands: which command is outstanding.
#[derive(Clone, Copy, Debug, PartialEq, Eq, Structural)]
pub enum Phase {
    Init,
    Branches,
    Warned,
    RefreshCheckout,
    RefreshPull,
    RefreshDetach,
    Skipped,
    BranchCommit,
    ForgetSave,
    MergeBase,
    CommitList,
    Checkout,
    Rebasing,
    RebaseCheck,
    Aborting,
    BranchDetach,
    FinalCommit,
    RememberSave,
    Done,
    Failed(ErrorKind),
}

/// The mathematical shadow of the machine's state.
pub struct AbsState {
    pub onto: Seq<u8>,
    pub branches: Seq<AbsBranch>,
    pub memo: Seq<(Seq<u8>, Seq<u8>)>,
    pub phase: Phase,
    pub idx: int,
    pub cands: Seq<Seq<u8>>,
    pub cand: int,
    pub conflicted: bool,
}

/// The orchestrating state machine.
pub struct Orchestrator {
    pub onto: Vec<u8>,
    pub branches: Vec<BranchInfo>,
    pub memo: Memo,
    pub phase: Phase,
    pub idx: usize,
    pub cands: Vec<Vec<u8>>,
    pub cand: usize,
    pub conflicted: bool,
}

impl View for Orchestrator {
    type V = AbsState;

    open spec fn view(&self) -> AbsState {
        AbsState {
            onto: self.onto@,
            branches: branch_views(self.branches@),
            memo: self.memo@,
            phase: self.phase,
            idx: self.idx as int,
            cands: self.cands.deep_view(),
            cand: self.cand as int,
            conflicted: self.conflicted,
        }
    }
}

/// The eligibility rules that need no commit lookup, in priority order.
pub open spec fn static_skip(b: AbsBranch, onto: Seq<u8>) -> Option<SkipReason> {
    if b.name == onto {
        Some(SkipReason::IsTarget)
    } else if b.upstream is Some {
        Some(SkipReason::TracksUpstream)
    } else if b.worktree is Some {
        Some(SkipReason::CheckedOut)
    } else {
        None
    }
}

/// Whether a branch is processed or passed over.
#[derive(Clone, Copy, Debug, PartialEq, Eq, Structural)]
pub enum Decision {
    Proceed,
    Skip(SkipReason),
}

/// The full, ordered eligibility rule: first match wins. `commit` is the
/// branch's current commit.
pub open spec fn decide_spec(
    b: AbsBranch,
    onto: Seq<u8>,
    memo: Seq<(Seq<u8>, Seq<u8>)>,
    commit: Seq<u8>,
) -> Decision {
    match static_skip(b, onto) {
        Some(r) => Decision::Skip(r),
        None => {
            if lookup(memo, b.name) == Some(commit) {
                Decision::Skip(SkipReason::UnchangedSinceConflict)
            } else {
                Decision::Proceed
            }
        },
    }
}

/// Index of the first branch named `name`, or `bs.len()`.
pub open spec fn find_branch_idx(bs: Seq<AbsBranch>, name: Seq<u8>, i: int) -> int
    decreases bs.len() - i,
{
    if i < 0 || i >= bs.len() {
        bs.len() as int
    } else if bs[i].name == name {
        i
    } else {
        find_branch_idx(bs, name, i + 1)
    }
}

pub open spec fn fail_spec(s: AbsState, k: ErrorKind) -> (AbsState, AbsAction) {
    (AbsState { phase: Phase::Failed(k), ..s }, AbsAction::Fatal(k))
}

/// Look at the branch at `idx`: pass it over, start processing it, or
/// finish the run.
pub open spec fn eval_spec(s: AbsState) -> (AbsState, AbsAction) {
    if !(0 <= s.idx < s.branches.len()) {
        (AbsState { phase: Phase::Done, ..s }, AbsAction::Finished)
    } else {
        let b = s.branches[s.idx];
        match static_skip(b, s.onto) {
            Some(r) => (AbsState { phase: Phase::Skipped, ..s }, AbsAction::SkipBranch(b.name, r)),
            None => (
                AbsState { phase: Phase::BranchCommit, ..s },
                AbsAction::ResolveCommit(b.name),
            ),
        }
    }
}

/// Try the candidate at `cand`, or detach when the list is exhausted;
/// an exhausted, nonempty list means the branch ends in conflict.
pub open spec fn try_cand_spec(s: AbsState) -> (AbsState, AbsAction) {
    if !(0 <= s.cand < s.cands.len()) {
        (
            AbsState { phase: Phase::BranchDetach, conflicted: s.cands.len() > 0, ..s },
            AbsAction::Detach,
        )
    } else {
        (AbsState { phase: Phase::Rebasing, ..s }, AbsAction::Rebase(s.cands[s.cand]))
    }
}

pub open spec fn bump_idx(s: AbsState) -> AbsState {
    AbsState {
        idx: if 0 <= s.idx < s.branches.len() {
            s.idx + 1
        } else {
            s.idx
        },
        ..s
    }
}

pub open spec fn bump_cand(s: AbsState) -> AbsState {
    AbsState {
        cand: if 0 <= s.cand < s.cands.len() {
            s.cand + 1
        } else {
            s.cand
        },
        ..s
    }
}

/// The transition relation: what the machine does with the outcome of
/// the outstanding command, and which command it issues next.
pub open spec fn next_spec(s: AbsState, e: AbsEvent) -> (AbsState, AbsAction) {
    match s.phase {
        Phase::Init => (AbsState { phase: Phase::Branches, ..s }, AbsAction::ListBranches),
        Phase::Branches => match e {
            AbsEvent::Output(o) => match catalog_spec(o) {
                None => fail_spec(s, ErrorKind::CatalogParse),
                Some(bs) => {
                    let s2 = AbsState { branches: bs, ..s };
                    let f = find_branch_idx(bs, s.onto, 0);
                    if !(0 <= f < bs.len()) {
                        (AbsState { phase: Phase::Warned, ..s2 }, AbsAction::WarnOntoMissing)
                    } else if bs[f].worktree is Some {
                        (AbsState { phase: Phase::Warned, ..s2 }, AbsAction::WarnOntoCheckedOut)
                    } else {
                        (AbsState { phase: Phase::RefreshCheckout, ..s2 }, AbsAction::CheckoutOnto)
                    }
                },
            },
            _ => fail_spec(s, ErrorKind::ListBranchesFailed),
        },
        Phase::Warned => eval_spec(s),
        Phase::RefreshCheckout => match e {
            AbsEvent::Failed => fail_spec(s, ErrorKind::RefreshCheckoutFailed),
            _ => (AbsState { phase: Phase::RefreshPull, ..s }, AbsAction::PullFastForward),
        },
        Phase::RefreshPull => match e {
            AbsEvent::Failed => fail_spec(s, ErrorKind::PullFailed),
            _ => (AbsState { phase: Phase::RefreshDetach, ..s }, AbsAction::Detach),
        },
        Phase::RefreshDetach => match e {
            AbsEvent::Failed => fail_spec(s, ErrorKind::DetachFailed),
            _ => eval_spec(s),
        },
        Phase::Skipped => eval_spec(bump_idx(s)),
        Phase::BranchCommit => {
            if !(0 <= s.idx < s.branches.len()) {
                (AbsState { phase: Phase::Done, ..s }, AbsAction::Finished)
            } else {
                let name = s.branches[s.idx].name;
                match e {
                    AbsEvent::Output(o) => {
                        let c = trim_spec(o);
                        if lookup(s.memo, name) == Some(c) {
                            (
                                AbsState { phase: Phase::Skipped, ..s },
                                AbsAction::SkipBranch(name, SkipReason::UnchangedSinceConflict),
                            )
                        } else {
                            let m2 = remove_key(s.memo, name);
                            (
                                AbsState { memo: m2, phase: Phase::ForgetSave, ..s },
                                AbsAction::SaveMemo(serialize_spec(m2)),
                            )
                        }
                    },
                    _ => fail_spec(s, ErrorKind::ResolveCommitFailed),
                }
            }
        },
        Phase::ForgetSave => {
            if !(0 <= s.idx < s.branches.len()) {
                (AbsState { phase: Phase::Done, ..s }, AbsAction::Finished)
            } else {
                match e {
                    AbsEvent::Failed => fail_spec(s, ErrorKind::SaveMemoFailed),
                    _ => (
                        AbsState { phase: Phase::MergeBase, ..s },
                        AbsAction::ComputeMergeBase(s.branches[s.idx].name, s.onto),
                    ),
                }
            }
        },
        Phase::MergeBase => match e {
            AbsEvent::Output(o) => (
                AbsState { phase: Phase::CommitList, ..s },
                AbsAction::ListCommits(trim_spec(o), s.onto),
            ),
            _ => fail_spec(s, ErrorKind::MergeBaseFailed),
        },
        Phase::CommitList => {
            if !(0 <= s.idx < s.branches.len()) {
                (AbsState { phase: Phase::Done, ..s }, AbsAction::Finished)
            } else {
                match e {
                    AbsEvent::Output(o) => (
                        AbsState {
                            cands: lines_of(o),
                            cand: 0,
                            conflicted: false,
                            phase: Phase::Checkout,
                            ..s
                        },
                        AbsAction::CheckoutBranch(s.branches[s.idx].name),
                    ),
                    _ => fail_spec(s, ErrorKind::ListCommitsFailed),
                }
            }
        },
        Phase::Checkout => match e {
            AbsEvent::Failed => fail_spec(s, ErrorKind::CheckoutFailed),
            _ => try_cand_spec(s),
        },
        Phase::Rebasing => match e {
            AbsEvent::Failed => (
                AbsState { phase: Phase::RebaseCheck, ..s },
                AbsAction::CheckRebaseInProgress,
            ),
            _ => (
                AbsState { phase: Phase::BranchDetach, conflicted: false, ..s },
                AbsAction::Detach,
            ),
        },
        Phase::RebaseCheck => match e {
            AbsEvent::InProgress(true) => (
                AbsState { phase: Phase::Aborting, ..s },
                AbsAction::AbortRebase,
            ),
            _ => try_cand_spec(bump_cand(s)),
        },
        Phase::Aborting => match e {
            AbsEvent::Failed => fail_spec(s, ErrorKind::AbortFailed),
            _ => try_cand_spec(bump_cand(s)),
        },
        Phase::BranchDetach => match e {
            AbsEvent::Failed => fail_spec(s, ErrorKind::DetachFailed),
            _ => {
                if s.conflicted {
                    if !(0 <= s.idx < s.branches.len()) {
                        (AbsState { phase: Phase::Done, ..s }, AbsAction::Finished)
                    } else {
                        (
                            AbsState { phase: Phase::FinalCommit, ..s },
                            AbsAction::ResolveCommit(s.branches[s.idx].name),
                        )
                    }
                } else {
                    eval_spec(bump_idx(s))
                }
            },
        },
        Phase::FinalCommit => {
            if !(0 <= s.idx < s.branches.len()) {
                (AbsState { phase: Phase::Done, ..s }, AbsAction::Finished)
            } else {
                match e {
                    AbsEvent::Output(o) => {
                        let m2 = insert_key(s.memo, s.branches[s.idx].name, trim_spec(o));
                        (
                            AbsState { memo: m2, phase: Phase::RememberSave, ..s },
                            AbsAction::SaveMemo(serialize_spec(m2)),
                        )
                    },
                    _ => fail_spec(s, ErrorKind::ResolveCommitFailed),
                }
            }
        },
        Phase::RememberSave => match e {
            AbsEvent::Failed => fail_spec(s, ErrorKind::SaveMemoFailed),
            _ => eval_spec(bump_idx(s)),
        },
        Phase::Done => (s, AbsAction::Finished),
        Phase::Failed(k) => (s, AbsAction::Fatal(k)),
    }
}

/// The machine's state before anything has been issued.
pub open spec fn init_spec(onto: Seq<u8>, memo: Seq<(Seq<u8>, Seq<u8>)>) -> AbsState {
    AbsState {
        onto: onto,
        branches: Seq::empty(),
        memo: memo,
        phase: Phase::Init,
        idx: 0,
        cands: Seq::empty(),
        cand: 0,
        conflicted: false,
    }
}

/// The full, ordered eligibility rule, executable: first match wins.
pub fn decide(b: &BranchInfo, onto: &Vec<u8>, memo: &Memo, commit: &Vec<u8>) -> (r: Decision)
    ensures
        r == decide_spec(b@, onto@, memo@, commit@),
{
    if bytes_eq(&b.name, onto) {
        return Decision::Skip(SkipReason::IsTarget);
    }
    if b.upstream.is_some() {
        return Decision::Skip(SkipReason::TracksUpstream);
    }
    if b.worktree.is_some() {
        return Decision::Skip(SkipReason::CheckedOut);
    }
    match memo.get(&b.name) {
        Some(c) => {
            if bytes_eq(&c, commit) {
                Decision::Skip(SkipReason::UnchangedSinceConflict)
            } else {
                Decision::Proceed
            }
        },
        None => Decision::Proceed,
    }
}

impl Orchestrator {
    /// A machine for one run: rebase every eligible branch onto
    /// `onto`, starting from the memo the last run left behind.
    pub fn new(onto: Vec<u8>, memo: Memo) -> (r: Orchestrator)
        ensures
            r@ == init_spec(onto@, memo@),
    {
        let r = Orchestrator {
            onto,
            branches: Vec::new(),
            memo,
            phase: Phase::Init,
            idx: 0,
            cands: Vec::new(),
            cand: 0,
            conflicted: false,
        };
        proof {
            assert(branch_views(r.branches@) =~= Seq::<AbsBranch>::empty());
            assert(r.cands.deep_view() =~~= Seq::<Seq<u8>>::empty());
        }
        r
    }

    fn fail(&mut self, k: ErrorKind) -> (a: Action)
        ensures
            ({
                let (s2, aa) = fail_spec(old(self)@, k);
                final(self)@ == s2 && a@ == aa
            }),
    {
        self.phase = Phase::Failed(k);
        Action::Fatal(k)
    }

    /// The name of the branch under consideration.
    fn current_name(&self) -> (r: Vec<u8>)
        requires
            self.idx < self.branches@.len(),
        ensures
            r@ == self@.branches[self.idx as int].name,
    {
        proof {
            assert(self@.branches[self.idx as int] == self.branches@[self.idx as int]@);
        }
        clone_bytes(&self.branches[self.idx].name)
    }

    fn eval_step(&mut self) -> (a: Action)
        ensures
            ({
                let (s2, aa) = eval_spec(old(self)@);
                final(self)@ == s2 && a@ == aa
            }),
    {
        if self.idx >= self.branches.len() {
            self.phase = Phase::Done;
            return Action::Finished;
        }
        proof {
            assert(self@.branches[self.idx as int] == self.branches@[self.idx as int]@);
        }
        let name = clone_bytes(&self.branches[self.idx].name);
        if bytes_eq(&name, &self.onto) {
            self.phase = Phase::Skipped;
            Action::SkipBranch(name, SkipReason::IsTarget)
        } else if self.branches[self.idx].upstream.is_some() {
            self.phase = Phase::Skipped;
            Action::SkipBranch(name, SkipReason::TracksUpstream)
        } else if self.branches[self.idx].worktree.is_some() {
            self.phase = Phase::Skipped;
            Action::SkipBranch(name, SkipReason::CheckedOut)
        } else {
            self.phase = Phase::BranchCommit;
            Action::ResolveCommit(name)
        }
    }

    fn try_candidate(&mut self) -> (a: Action)
        ensures
            ({
                let (s2, aa) = try_cand_spec(old(self)@);
                final(self)@ == s2 && a@ == aa
            }),
    {
        proof {
            assert(self.cands.deep_view().len() == self.cands@.len());
        }
        if self.cand >= self.cands.len() {
            self.conflicted = self.cands.len() > 0;
            self.phase = Phase::BranchDetach;
            Action::Detach
        } else {
            proof {
                assert(self@.cands[self.cand as int] =~= self.cands@[self.cand as int]@);
            }
            let t = clone_bytes(&self.cands[self.cand]);
            self.phase = Phase::Rebasing;
            Action::Rebase(t)
        }
    }

    /// Index of the mainline in the catalog, or the catalog's length.
    fn find_onto(&self) -> (r: usize)
        ensures
            r as int == find_branch_idx(self@.branches, self.onto@, 0),
            r <= self.branches@.len(),
    {
        let ghost bs = self@.branches;
        let mut i: usize = 0;
        while i < self.branches.len()
            invariant
                i <= bs.len(),
                bs == self@.branches,
                bs.len() == self.branches@.len(),
                find_branch_idx(bs, self.onto@, 0) == find_branch_idx(bs, self.onto@, i as int),
            decreases bs.len() - i,
        {
            proof {
                assert(bs[i as int] == self.branches@[i as int]@);
            }
            if bytes_eq(&self.branches[i].name, &self.onto) {
                return i;
            }
            i = i + 1;
        }
        i
    }

    /// Digest the outcome of the previous command and issue the next
    /// one: one step of the transition relation.
    pub fn next(&mut self, ev: Event) -> (a: Action)
        ensures
            ({
                let (s2, aa) = next_spec(old(self)@, ev@);
                final(self)@ == s2 && a@ == aa
            }),
    {
        match self.phase {
            Phase::Init => {
                self.phase = Phase::Branches;
                Action::ListBranches
            },
            Phase::Branches => {
                match ev {
                    Event::Output(o) => {
                        match parse_branch_records(&o) {
                            None => self.fail(ErrorKind::CatalogParse),
                            Some(bs) => {
                                self.branches = bs;
                                let f = self.find_onto();
                                if f >= self.branches.len() {
                                    self.phase = Phase::Warned;
                                    Action::WarnOntoMissing
                                } else {
                                    proof {
                                        assert(self@.branches[f as int] == self.branches@[
                                            f as int]@);
                                    }
                                    if self.branches[f].worktree.is_some() {
                                        self.phase = Phase::Warned;
                                        Action::WarnOntoCheckedOut
                                    } else {
                                        self.phase = Phase::RefreshCheckout;
                                        Action::CheckoutOnto
                                    }
                                }
                            },
                        }
                    },
                    _ => self.fail(ErrorKind::ListBranchesFailed),
                }
            },
            Phase::Warned => self.eval_step(),
            Phase::RefreshCheckout => {
                match ev {
                    Event::Failed => self.fail(ErrorKind::RefreshCheckoutFailed),
                    _ => {
                        self.phase = Phase::RefreshPull;
                        Action::PullFastForward
                    },
                }
            },
            Phase::RefreshPull => {
                match ev {
                    Event::Failed => self.fail(ErrorKind::PullFailed),
                    _ => {
                        self.phase = Phase::RefreshDetach;
                        Action::Detach
                    },
                }
            },
            Phase::RefreshDetach => {
                match ev {
                    Event::Failed => self.fail(ErrorKind::DetachFailed),
                    _ => self.eval_step(),
                }
            },
            Phase::Skipped => {
                if self.idx < self.branches.len() {
                    self.idx = self.idx + 1;
                }
                self.eval_step()
            },
            Phase::BranchCommit => {
                if self.idx >= self.branches.len() {
                    self.phase = Phase::Done;
                    return Action::Finished;
                }
                match ev {
                    Event::Output(o) => {
                        let c = trim(&o);
                        let name = self.current_name();
                        let stored = self.memo.get(&name);
                        let unchanged = match &stored {
                            Some(v) => bytes_eq(v, &c),
                            None => false,
                        };
                        if unchanged {
                            self.phase = Phase::Skipped;
                            Action::SkipBranch(name, SkipReason::UnchangedSinceConflict)
                        } else {
                            self.memo.forget(&name);
                            let doc = self.memo.serialize();
                            self.phase = Phase::ForgetSave;
                            Action::SaveMemo(doc)
                        }
                    },
                    _ => self.fail(ErrorKind::ResolveCommitFailed),
                }
            },
            Phase::ForgetSave => {
                if self.idx >= self.branches.len() {
                    self.phase = Phase::Done;
                    return Action::Finished;
                }
                match ev {
                    Event::Failed => self.fail(ErrorKind::SaveMemoFailed),
                    _ => {
                        let name = self.current_name();
                        let onto = clone_bytes(&self.onto);
                        self.phase = Phase::MergeBase;
                        Action::ComputeMergeBase(name, onto)
                    },
                }
            },
            Phase::MergeBase => {
                match ev {
                    Event::Output(o) => {
                        let base = trim(&o);
                        let onto = clone_bytes(&self.onto);
                        self.phase = Phase::CommitList;
                        Action::ListCommits(base, onto)
                    },
                    _ => self.fail(ErrorKind::MergeBaseFailed),
                }
            },
            Phase::CommitList => {
                if self.idx >= self.branches.len() {
                    self.phase = Phase::Done;
                    return Action::Finished;
                }
                match ev {
                    Event::Output(o) => {
                        let name = self.current_name();
                        self.cands = split_lines(&o);
                        self.cand = 0;
                        self.conflicted = false;
                        self.phase = Phase::Checkout;
                        Action::CheckoutBranch(name)
                    },
                    _ => self.fail(ErrorKind::ListCommitsFailed),
                }
            },
            Phase::Checkout => {
                match ev {
                    Event::Failed => self.fail(ErrorKind::CheckoutFailed),
                    _ => self.try_candidate(),
                }
            },
            Phase::Rebasing => {
                match ev {
                    Event::Failed => {
                        self.phase = Phase::RebaseCheck;
                        Action::CheckRebaseInProgress
                    },
                    _ => {
                        self.conflicted = false;
                        self.phase = Phase::BranchDetach;
                        Action::Detach
                    },
                }
            },
            Phase::RebaseCheck => {
                match ev {
                    Event::InProgress(true) => {
                        self.phase = Phase::Aborting;
                        Action::AbortRebase
                    },
                    _ => {
                        if self.cand < self.cands.len() {
                            self.cand = self.cand + 1;
                        }
                        self.try_candidate()
                    },
                }
            },
            Phase::Aborting => {
                match ev {
                    Event::Failed => self.fail(ErrorKind::AbortFailed),
                    _ => {
                        if self.cand < self.cands.len() {
                            self.cand = self.cand + 1;
                        }
                        self.try_candidate()
                    },
                }
            },
            Phase::BranchDetach => {
                match ev {
                    Event::Failed => self.fail(ErrorKind::DetachFailed),
                    _ => {
                        if self.conflicted {
                            if self.idx >= self.branches.len() {
                                self.phase = Phase::Done;
                                return Action::Finished;
                            }
                            let name = self.current_name();
                            self.phase = Phase::FinalCommit;
                            Action::ResolveCommit(name)
                        } else {
                            if self.idx < self.branches.len() {
                                self.idx = self.idx + 1;
                            }
                            self.eval_step()
                        }
                    },
                }
            },
            Phase::FinalCommit => {
                if self.idx >= self.branches.len() {
                    self.phase = Phase::Done;
                    return Action::Finished;
                }
                match ev {
                    Event::Output(o) => {
                        let c = trim(&o);
                        let name = self.current_name();
                        self.memo.remember(&name, &c);
                        let doc = self.memo.serialize();
                        self.phase = Phase::RememberSave;
                        Action::SaveMemo(doc)
                    },
                    _ => self.fail(ErrorKind::ResolveCommitFailed),
                }
            },
            Phase::RememberSave => {
                match ev {
                    Event::Failed => self.fail(ErrorKind::SaveMemoFailed),
                    _ => {
                        if self.idx < self.branches.len() {
                            self.idx = self.idx + 1;
                        }
                        self.eval_step()
                    },
                }
            },
            Phase::Done => Action::Finished,
            Phase::Failed(k) => Action::Fatal(k),
        }
    }
}

// ---------------------------------------------------------------------
// Laws of the machine.
// ---------------------------------------------------------------------

/// Phases in which a branch is being processed: from the commit lookup
/// to the final memo write.
pub open spec fn processing(p: Phase) -> bool {
    p == Phase::BranchCommit || p == Phase::ForgetSave || p == Phase::MergeBase || p
        == Phase::CommitList || p == Phase::Checkout || p == Phase::Rebasing || p
        == Phase::RebaseCheck || p == Phase::Aborting || p == Phase::BranchDetach || p
        == Phase::FinalCommit || p == Phase::RememberSave
}

/// The machine's invariant: whenever a branch is being processed, it is
/// a real branch of the catalog and it passed every static eligibility
/// rule — it is not the mainline target, tracks no upstream, and is
/// checked out in no worktree.
pub open spec fn inv(s: AbsState) -> bool {
    &&& (processing(s.phase) ==> 0 <= s.idx < s.branches.len() && static_skip(
        s.branches[s.idx],
        s.onto,
    ) is None)
    &&& (s.phase == Phase::Skipped ==> 0 <= s.idx < s.branches.len())
}

/// A fresh machine satisfies the invariant.
pub proof fn lemma_init_inv(onto: Seq<u8>, memo: Seq<(Seq<u8>, Seq<u8>)>)
    ensures
        inv(init_spec(onto, memo)),
{
}

/// Every step of the machine preserves the invariant.
pub proof fn lemma_inv_preserved(s: AbsState, e: AbsEvent)
    requires
        inv(s),
    ensures
        inv(next_spec(s, e).0),
{
}

/// No two branches share a name.
pub open spec fn distinct_names(bs: Seq<AbsBranch>) -> bool {
    forall|i: int, j: int| 0 <= i < j < bs.len() ==> bs[i].name != bs[j].name
}

/// Law: a branch that tracks an upstream, or is checked out in some
/// worktree, or is the mainline target itself, is left untouched by a
/// run. The machine never checks such a branch out for rewriting, and
/// every rebase it issues rewrites a branch that passed all the static
/// eligibility rules — so never that branch.
pub proof fn lemma_untouchable_branch_unchanged(s: AbsState, e: AbsEvent, t: int)
    requires
        inv(s),
        distinct_names(s.branches),
        0 <= t < s.branches.len(),
        static_skip(s.branches[t], s.onto) is Some,
    ensures
        ({
            let (s2, a) = next_spec(s, e);
            &&& (a matches AbsAction::CheckoutBranch(n) ==> n != s.branches[t].name)
            &&& (a is Rebase ==> s.branches[s.idx].name != s.branches[t].name)
        }),
{
    let (s2, a) = next_spec(s, e);
    if a is CheckoutBranch {
        assert(s.phase == Phase::CommitList);
        assert(s.idx != t);
    }
    if a is Rebase {
        assert(processing(s.phase));
        assert(s.idx != t);
    }
}

/// The machine's per-branch decisions follow the single ordered
/// eligibility rule `decide_spec`, first match winning: the evaluation
/// step skips exactly for the static reasons, and once the branch's
/// commit is known, the memo rule skips or the branch proceeds, as
/// `decide_spec` says for that commit.
pub proof fn lemma_machine_follows_decide(s: AbsState, o: Seq<u8>)
    requires
        0 <= s.idx < s.branches.len(),
    ensures
        ({
            let b = s.branches[s.idx];
            let d = decide_spec(b, s.onto, s.memo, trim_spec(o));
            &&& (eval_spec(s).1 matches AbsAction::SkipBranch(n, r) ==> n == b.name && d
                == Decision::Skip(r))
            &&& (eval_spec(s).1 is ResolveCommit ==> static_skip(b, s.onto) is None)
            &&& ((s.phase == Phase::BranchCommit && static_skip(b, s.onto) is None) ==> {
                let a = next_spec(s, AbsEvent::Output(o)).1;
                &&& (d == Decision::Skip(SkipReason::UnchangedSinceConflict) ==> a
                    == AbsAction::SkipBranch(b.name, SkipReason::UnchangedSinceConflict))
                &&& (d == Decision::Proceed ==> a is SaveMemo)
            })
        }),
{
}

/// Law: a branch whose memo entry still names its current commit is
/// skipped as unchanged-since-conflict; no rebase is attempted and the
/// memo is left as it is. With the round trip of the memo document,
/// this is what makes an immediate second run leave the repository as
/// the first left it.
pub proof fn lemma_unchanged_branch_skipped(s: AbsState, o: Seq<u8>)
    requires
        s.phase == Phase::BranchCommit,
        0 <= s.idx < s.branches.len(),
        lookup(s.memo, s.branches[s.idx].name) == Some(trim_spec(o)),
    ensures
        ({
            let (s2, a) = next_spec(s, AbsEvent::Output(o));
            &&& a == AbsAction::SkipBranch(
                s.branches[s.idx].name,
                SkipReason::UnchangedSinceConflict,
            )
            &&& s2.memo == s.memo
            &&& s2.phase == Phase::Skipped
            &&& s2.idx == s.idx
        }),
{
}

/// Law: on a conflict the machine falls back to the next, older
/// candidate: a failed rebase, with no rebase left in progress, is
/// followed by a rebase onto the candidate after the current one.
pub proof fn lemma_conflict_falls_back(s: AbsState)
    requires
        s.phase == Phase::Rebasing,
        0 <= s.cand,
        s.cand + 1 < s.cands.len(),
    ensures
        ({
            let (s1, a1) = next_spec(s, AbsEvent::Failed);
            let (s2, a2) = next_spec(s1, AbsEvent::InProgress(false));
            &&& a1 == AbsAction::CheckRebaseInProgress
            &&& a2 == AbsAction::Rebase(s.cands[s.cand + 1])
            &&& s2.memo == s.memo
        }),
{
}

/// Law: the first success ends the fallback, preferring currency over
/// reach: the branch stays on the newest candidate that rebased
/// cleanly, no memo entry is written for it, and the worktree is
/// detached.
pub proof fn lemma_success_stops(s: AbsState, e: AbsEvent)
    requires
        s.phase == Phase::Rebasing,
        !(e is Failed),
    ensures
        ({
            let (s1, a1) = next_spec(s, e);
            &&& a1 == AbsAction::Detach
            &&& s1.conflicted == false
            &&& s1.memo == s.memo
        }),
{
}

/// One conflicted attempt, start to finish: the rebase fails and, with
/// no rebase left in progress, the machine moves past the candidate.
pub open spec fn conflict_round_state(s: AbsState) -> AbsState {
    next_spec(next_spec(s, AbsEvent::Failed).0, AbsEvent::InProgress(false)).0
}

/// The machine after `n` conflicted attempts in a row.
pub open spec fn after_conflict_rounds(s: AbsState, n: nat) -> AbsState
    decreases n,
{
    if n == 0 {
        s
    } else {
        after_conflict_rounds(conflict_round_state(s), (n - 1) as nat)
    }
}

/// Law: when every remaining candidate's rebase attempt ends in
/// conflict, the fallback walks the whole list and the branch ends
/// conflicted-final: the worktree is detached with the conflict flag
/// set and the memo still untouched.
pub proof fn lemma_all_candidates_conflict(s: AbsState)
    requires
        s.phase == Phase::Rebasing,
        0 <= s.cand < s.cands.len(),
    ensures
        ({
            let sd = after_conflict_rounds(s, (s.cands.len() - s.cand) as nat);
            &&& sd.phase == Phase::BranchDetach
            &&& sd.conflicted
            &&& sd.memo == s.memo
            &&& sd.idx == s.idx
            &&& sd.branches == s.branches
            &&& sd.onto == s.onto
        }),
    decreases s.cands.len() - s.cand,
{
    let s1 = conflict_round_state(s);
    if s.cand + 1 < s.cands.len() {
        // the next, older candidate is tried and conflicts in turn
        lemma_all_candidates_conflict(s1);
        assert(after_conflict_rounds(s, (s.cands.len() - s.cand) as nat) == after_conflict_rounds(
            s1,
            (s.cands.len() - s.cand - 1) as nat,
        ));
    } else {
        // exhausted: a nonempty list with no success
        assert(after_conflict_rounds(s1, 0) == s1);
    }
}

/// Law: the conflict scenario end to end. After every candidate has
/// conflicted, a successful detach is followed by re-reading the
/// branch's commit — the current, possibly amended one — and the memo
/// document mapping the branch to that trimmed commit is written out
/// at once.
pub proof fn lemma_conflict_exhaustion_records_memo(s: AbsState, e: AbsEvent, o: Seq<u8>)
    requires
        s.phase == Phase::Rebasing,
        0 <= s.cand < s.cands.len(),
        0 <= s.idx < s.branches.len(),
        !(e is Failed),
    ensures
        ({
            let sd = after_conflict_rounds(s, (s.cands.len() - s.cand) as nat);
            let (sf, af) = next_spec(sd, e);
            let (sm, am) = next_spec(sf, AbsEvent::Output(o));
            let name = s.branches[s.idx].name;
            let m2 = insert_key(s.memo, name, trim_spec(o));
            &&& af == AbsAction::ResolveCommit(name)
            &&& am == AbsAction::SaveMemo(serialize_spec(m2))
            &&& sm.memo == m2
        }),
{
    lemma_all_candidates_conflict(s);
}

/// Law: an empty target-candidate list leaves the branch's commit and
/// the memo untouched. The branch is only checked out and detached
/// again: across those three steps no rebase is issued and no memo
/// document is written, and the machine moves on to the next branch.
pub proof fn lemma_empty_candidates(s: AbsState, o: Seq<u8>, e1: AbsEvent, e2: AbsEvent)
    requires
        s.phase == Phase::CommitList,
        0 <= s.idx < s.branches.len(),
        lines_of(o).len() == 0,
        !(e1 is Failed),
        !(e2 is Failed),
    ensures
        ({
            let (s1, a1) = next_spec(s, AbsEvent::Output(o));
            let (s2, a2) = next_spec(s1, e1);
            let (s3, a3) = next_spec(s2, e2);
            &&& a1 == AbsAction::CheckoutBranch(s.branches[s.idx].name)
            &&& a2 == AbsAction::Detach
            &&& !(a3 is Rebase)
            &&& !(a3 is SaveMemo)
            &&& s1.memo == s.memo && s2.memo == s.memo && s3.memo == s.memo
            &&& s3.idx == s.idx + 1
        }),
{
}

} // verus!
