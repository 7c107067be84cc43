use autorebase::catalog::BranchInfo;
use autorebase::engine::Action;
use autorebase::engine::Decision;
use autorebase::engine::ErrorKind;
use autorebase::engine::Event;
use autorebase::engine::Orchestrator;
use autorebase::engine::SkipReason;
use autorebase::engine::decide;
use autorebase::memo::Memo;

fn b(s: &str) -> Vec<u8> {
    s.as_bytes().to_vec()
}

const FIRST: &str = "d3591307bd5590f14ae24d03ab41121ab94e2a90";
const SECOND: &str = "a6de41485a5af44adc18b599a63840c367043e39";
const WIP1_OLD: &str = "540f822d14ae077991e2a722996825e4e7f9d667";
const WIP2_OLD: &str = "634e0a6b255cfff4cb9ba33a052da2f7e85a7bb9";

/// The catalog of a repository whose mainline is checked out in the main
/// working copy, with the given topic branches.
fn catalog(master_checked_out: bool, topics: &[&str]) -> Vec<u8> {
    let mut s = String::new();
    if master_checked_out {
        s.push_str("master\u{0}\u{0}/home/user/repo\n");
    } else {
        s.push_str("master\u{0}origin/master\u{0}\n");
    }
    for t in topics {
        s.push_str(t);
        s.push_str("\u{0}\u{0}\n");
    }
    s.into_bytes()
}

/// Two topic branches off the old mainline tip; both rebase cleanly onto
/// the new tip, and the mainline itself is only skipped, never rewritten.
#[test]
fn multiple_branches() {
    let mut m = Orchestrator::new(b("master"), Memo::new());
    assert_eq!(m.next(Event::Start), Action::ListBranches);
    assert_eq!(
        m.next(Event::Output(catalog(true, &["wip1", "wip2"]))),
        Action::WarnOntoCheckedOut
    );
    assert_eq!(
        m.next(Event::Succeeded),
        Action::SkipBranch(b("master"), SkipReason::IsTarget)
    );
    for (wip, old) in [("wip1", WIP1_OLD), ("wip2", WIP2_OLD)] {
        assert_eq!(m.next(Event::Succeeded), Action::ResolveCommit(b(wip)));
        assert_eq!(
            m.next(Event::Output(b(&format!("{}\n", old)))),
            Action::SaveMemo(b("[branches]\n"))
        );
        assert_eq!(
            m.next(Event::Succeeded),
            Action::ComputeMergeBase(b(wip), b("master"))
        );
        assert_eq!(
            m.next(Event::Output(b(&format!("{}\n", FIRST)))),
            Action::ListCommits(b(FIRST), b("master"))
        );
        assert_eq!(
            m.next(Event::Output(b(&format!("{}\n", SECOND)))),
            Action::CheckoutBranch(b(wip))
        );
        // the newest candidate is the mainline tip; it succeeds at once
        assert_eq!(m.next(Event::Succeeded), Action::Rebase(b(SECOND)));
        assert_eq!(m.next(Event::Succeeded), Action::Detach);
    }
    assert_eq!(m.next(Event::Succeeded), Action::Finished);
}

/// A topic branch whose commit conflicts with every candidate: the run
/// falls back through the whole list, aborts each conflicted rebase,
/// records the amended commit in the memo, and a second run skips the
/// branch without attempting anything.
#[test]
fn conflict_records_memo_and_second_run_skips() {
    let mut m = Orchestrator::new(b("master"), Memo::new());
    assert_eq!(m.next(Event::Start), Action::ListBranches);
    assert_eq!(
        m.next(Event::Output(catalog(true, &["wip"]))),
        Action::WarnOntoCheckedOut
    );
    assert_eq!(
        m.next(Event::Succeeded),
        Action::SkipBranch(b("master"), SkipReason::IsTarget)
    );
    assert_eq!(m.next(Event::Succeeded), Action::ResolveCommit(b("wip")));
    assert_eq!(
        m.next(Event::Output(b("1111111111111111111111111111111111111111\n"))),
        Action::SaveMemo(b("[branches]\n"))
    );
    assert_eq!(
        m.next(Event::Succeeded),
        Action::ComputeMergeBase(b("wip"), b("master"))
    );
    assert_eq!(
        m.next(Event::Output(b(&format!("{}\n", FIRST)))),
        Action::ListCommits(b(FIRST), b("master"))
    );
    assert_eq!(
        m.next(Event::Output(b(&format!("{}\n{}\n", SECOND, FIRST)))),
        Action::CheckoutBranch(b("wip"))
    );
    // newest candidate conflicts, leaving a rebase in progress
    assert_eq!(m.next(Event::Succeeded), Action::Rebase(b(SECOND)));
    assert_eq!(m.next(Event::Failed), Action::CheckRebaseInProgress);
    assert_eq!(m.next(Event::InProgress(true)), Action::AbortRebase);
    // the older candidate conflicts too, already aborted
    assert_eq!(m.next(Event::Succeeded), Action::Rebase(b(FIRST)));
    assert_eq!(m.next(Event::Failed), Action::CheckRebaseInProgress);
    assert_eq!(m.next(Event::InProgress(false)), Action::Detach);
    // exhausted: the branch's possibly amended commit goes to the memo
    assert_eq!(m.next(Event::Succeeded), Action::ResolveCommit(b("wip")));
    let amended = "2222222222222222222222222222222222222222";
    let saved = match m.next(Event::Output(b(&format!("{}\n", amended)))) {
        Action::SaveMemo(doc) => doc,
        other => panic!("expected a memo write, got {:?}", other),
    };
    assert_eq!(
        saved,
        b("[branches]\n\"wip\" = \"2222222222222222222222222222222222222222\"\n")
    );
    assert_eq!(m.next(Event::Succeeded), Action::Finished);

    // the second run, loading the memo the first one saved
    let memo = Memo::parse(&saved).expect("memo parses");
    let mut m2 = Orchestrator::new(b("master"), memo);
    assert_eq!(m2.next(Event::Start), Action::ListBranches);
    assert_eq!(
        m2.next(Event::Output(catalog(true, &["wip"]))),
        Action::WarnOntoCheckedOut
    );
    assert_eq!(
        m2.next(Event::Succeeded),
        Action::SkipBranch(b("master"), SkipReason::IsTarget)
    );
    assert_eq!(m2.next(Event::Succeeded), Action::ResolveCommit(b("wip")));
    assert_eq!(
        m2.next(Event::Output(b(&format!("{}\n", amended)))),
        Action::SkipBranch(b("wip"), SkipReason::UnchangedSinceConflict)
    );
    assert_eq!(m2.next(Event::Succeeded), Action::Finished);
}

/// An empty candidate list: the branch already contains the mainline
/// tip. It is checked out and detached again, with no rebase and no
/// memo write.
#[test]
fn empty_candidate_list_touches_nothing() {
    let mut m = Orchestrator::new(b("master"), Memo::new());
    assert_eq!(m.next(Event::Start), Action::ListBranches);
    assert_eq!(
        m.next(Event::Output(catalog(true, &["wip"]))),
        Action::WarnOntoCheckedOut
    );
    assert_eq!(
        m.next(Event::Succeeded),
        Action::SkipBranch(b("master"), SkipReason::IsTarget)
    );
    assert_eq!(m.next(Event::Succeeded), Action::ResolveCommit(b("wip")));
    assert_eq!(
        m.next(Event::Output(b(&format!("{}\n", WIP1_OLD)))),
        Action::SaveMemo(b("[branches]\n"))
    );
    assert_eq!(
        m.next(Event::Succeeded),
        Action::ComputeMergeBase(b("wip"), b("master"))
    );
    assert_eq!(
        m.next(Event::Output(b(&format!("{}\n", SECOND)))),
        Action::ListCommits(b(SECOND), b("master"))
    );
    assert_eq!(m.next(Event::Output(b(""))), Action::CheckoutBranch(b("wip")));
    assert_eq!(m.next(Event::Succeeded), Action::Detach);
    assert_eq!(m.next(Event::Succeeded), Action::Finished);
}

/// Branches tracking an upstream or checked out in a worktree are only
/// ever skipped, in priority order.
#[test]
fn upstream_and_checked_out_branches_are_skipped() {
    let cat = b("master\u{0}\u{0}/home/user/repo\n\
                 tracked\u{0}origin/tracked\u{0}\n\
                 busy\u{0}\u{0}/home/user/elsewhere\n");
    let mut m = Orchestrator::new(b("master"), Memo::new());
    assert_eq!(m.next(Event::Start), Action::ListBranches);
    assert_eq!(m.next(Event::Output(cat)), Action::WarnOntoCheckedOut);
    assert_eq!(
        m.next(Event::Succeeded),
        Action::SkipBranch(b("master"), SkipReason::IsTarget)
    );
    assert_eq!(
        m.next(Event::Succeeded),
        Action::SkipBranch(b("tracked"), SkipReason::TracksUpstream)
    );
    assert_eq!(
        m.next(Event::Succeeded),
        Action::SkipBranch(b("busy"), SkipReason::CheckedOut)
    );
    assert_eq!(m.next(Event::Succeeded), Action::Finished);
}

/// When the mainline is in the catalog and checked out nowhere, it is
/// refreshed with a fast-forward pull before the branch loop.
#[test]
fn mainline_refresh_runs_when_not_checked_out() {
    let mut m = Orchestrator::new(b("master"), Memo::new());
    assert_eq!(m.next(Event::Start), Action::ListBranches);
    assert_eq!(m.next(Event::Output(catalog(false, &[]))), Action::CheckoutOnto);
    assert_eq!(m.next(Event::Succeeded), Action::PullFastForward);
    assert_eq!(m.next(Event::Succeeded), Action::Detach);
    assert_eq!(
        m.next(Event::Succeeded),
        Action::SkipBranch(b("master"), SkipReason::IsTarget)
    );
    assert_eq!(m.next(Event::Succeeded), Action::Finished);
}

/// A mainline absent from the catalog only produces a warning.
#[test]
fn missing_mainline_warns_and_continues() {
    let mut m = Orchestrator::new(b("trunk"), Memo::new());
    assert_eq!(m.next(Event::Start), Action::ListBranches);
    assert_eq!(
        m.next(Event::Output(b("wip\u{0}origin/wip\u{0}\n"))),
        Action::WarnOntoMissing
    );
    assert_eq!(
        m.next(Event::Succeeded),
        Action::SkipBranch(b("wip"), SkipReason::TracksUpstream)
    );
    assert_eq!(m.next(Event::Succeeded), Action::Finished);
}

/// A malformed branch listing is fatal.
#[test]
fn malformed_catalog_is_fatal() {
    let mut m = Orchestrator::new(b("master"), Memo::new());
    assert_eq!(m.next(Event::Start), Action::ListBranches);
    assert_eq!(
        m.next(Event::Output(b("master\u{0}only-two-fields\n"))),
        Action::Fatal(ErrorKind::CatalogParse)
    );
    // the machine stays failed
    assert_eq!(m.next(Event::Succeeded), Action::Fatal(ErrorKind::CatalogParse));

    // a field that is not valid text is a parse error too, before any
    // branch is processed
    let mut m = Orchestrator::new(b("master"), Memo::new());
    assert_eq!(m.next(Event::Start), Action::ListBranches);
    let mut bad = b("wip\u{0}\u{0}");
    bad.push(0xff);
    bad.push(b'\n');
    assert_eq!(m.next(Event::Output(bad)), Action::Fatal(ErrorKind::CatalogParse));
}

/// A failed merge-base means disjoint histories: the whole run aborts.
#[test]
fn merge_base_failure_is_fatal() {
    let mut m = Orchestrator::new(b("master"), Memo::new());
    assert_eq!(m.next(Event::Start), Action::ListBranches);
    assert_eq!(
        m.next(Event::Output(catalog(true, &["wip"]))),
        Action::WarnOntoCheckedOut
    );
    assert_eq!(
        m.next(Event::Succeeded),
        Action::SkipBranch(b("master"), SkipReason::IsTarget)
    );
    assert_eq!(m.next(Event::Succeeded), Action::ResolveCommit(b("wip")));
    assert_eq!(
        m.next(Event::Output(b("1111111111111111111111111111111111111111\n"))),
        Action::SaveMemo(b("[branches]\n"))
    );
    assert_eq!(
        m.next(Event::Succeeded),
        Action::ComputeMergeBase(b("wip"), b("master"))
    );
    assert_eq!(m.next(Event::Failed), Action::Fatal(ErrorKind::MergeBaseFailed));
}

/// A failed memo write is fatal.
#[test]
fn save_failure_is_fatal() {
    let mut m = Orchestrator::new(b("master"), Memo::new());
    assert_eq!(m.next(Event::Start), Action::ListBranches);
    assert_eq!(
        m.next(Event::Output(catalog(true, &["wip"]))),
        Action::WarnOntoCheckedOut
    );
    assert_eq!(
        m.next(Event::Succeeded),
        Action::SkipBranch(b("master"), SkipReason::IsTarget)
    );
    assert_eq!(m.next(Event::Succeeded), Action::ResolveCommit(b("wip")));
    assert_eq!(
        m.next(Event::Output(b("1111111111111111111111111111111111111111\n"))),
        Action::SaveMemo(b("[branches]\n"))
    );
    assert_eq!(m.next(Event::Failed), Action::Fatal(ErrorKind::SaveMemoFailed));
}

/// Drive a fresh machine up to the processing of topic branch `wip`,
/// returning it with the given action just issued.
fn machine_at(stop_at: &Action) -> Orchestrator {
    let mut m = Orchestrator::new(b("master"), Memo::new());
    let mut a = m.next(Event::Start);
    loop {
        if a == *stop_at {
            return m;
        }
        let ev = match &a {
            Action::ListBranches => Event::Output(catalog(true, &["wip"])),
            Action::ResolveCommit(_) => {
                Event::Output(b("1111111111111111111111111111111111111111\n"))
            }
            Action::ComputeMergeBase(_, _) => Event::Output(b(&format!("{}\n", FIRST))),
            Action::ListCommits(_, _) => Event::Output(b(&format!("{}\n", SECOND))),
            Action::Rebase(_) => Event::Failed,
            Action::CheckRebaseInProgress => Event::InProgress(true),
            Action::Finished | Action::Fatal(_) => panic!("never reached {:?}", stop_at),
            _ => Event::Succeeded,
        };
        a = m.next(ev);
    }
}

/// Every command failure aborts the run with its own error.
#[test]
fn each_command_failure_has_its_error() {
    let mut m = Orchestrator::new(b("master"), Memo::new());
    assert_eq!(m.next(Event::Start), Action::ListBranches);
    assert_eq!(m.next(Event::Failed), Action::Fatal(ErrorKind::ListBranchesFailed));

    let mut m = Orchestrator::new(b("master"), Memo::new());
    assert_eq!(m.next(Event::Start), Action::ListBranches);
    assert_eq!(m.next(Event::Output(catalog(false, &[]))), Action::CheckoutOnto);
    assert_eq!(m.next(Event::Failed), Action::Fatal(ErrorKind::RefreshCheckoutFailed));

    let mut m = Orchestrator::new(b("master"), Memo::new());
    assert_eq!(m.next(Event::Start), Action::ListBranches);
    assert_eq!(m.next(Event::Output(catalog(false, &[]))), Action::CheckoutOnto);
    assert_eq!(m.next(Event::Succeeded), Action::PullFastForward);
    assert_eq!(m.next(Event::Failed), Action::Fatal(ErrorKind::PullFailed));

    let mut m = Orchestrator::new(b("master"), Memo::new());
    assert_eq!(m.next(Event::Start), Action::ListBranches);
    assert_eq!(m.next(Event::Output(catalog(false, &[]))), Action::CheckoutOnto);
    assert_eq!(m.next(Event::Succeeded), Action::PullFastForward);
    assert_eq!(m.next(Event::Succeeded), Action::Detach);
    assert_eq!(m.next(Event::Failed), Action::Fatal(ErrorKind::DetachFailed));

    let mut m = machine_at(&Action::ResolveCommit(b("wip")));
    assert_eq!(m.next(Event::Failed), Action::Fatal(ErrorKind::ResolveCommitFailed));

    let mut m = machine_at(&Action::ListCommits(b(FIRST), b("master")));
    assert_eq!(m.next(Event::Failed), Action::Fatal(ErrorKind::ListCommitsFailed));

    let mut m = machine_at(&Action::CheckoutBranch(b("wip")));
    assert_eq!(m.next(Event::Failed), Action::Fatal(ErrorKind::CheckoutFailed));

    let mut m = machine_at(&Action::AbortRebase);
    assert_eq!(m.next(Event::Failed), Action::Fatal(ErrorKind::AbortFailed));
}

/// The ordered eligibility rule, on its own.
#[test]
fn decide_applies_rules_in_priority_order() {
    let both = BranchInfo {
        name: b("master"),
        upstream: Some(b("origin/master")),
        worktree: Some(b("/home/user/repo")),
    };
    let memo = Memo::new();
    let commit = b("1234");
    // being the target wins over everything
    assert_eq!(
        decide(&both, &b("master"), &memo, &commit),
        Decision::Skip(SkipReason::IsTarget)
    );
    // then the upstream rule
    assert_eq!(
        decide(&both, &b("other"), &memo, &commit),
        Decision::Skip(SkipReason::TracksUpstream)
    );
    // then the worktree rule
    let busy = BranchInfo { name: b("wip"), upstream: None, worktree: Some(b("/w")) };
    assert_eq!(
        decide(&busy, &b("master"), &memo, &commit),
        Decision::Skip(SkipReason::CheckedOut)
    );
    // then the memo, only at the branch's recorded commit
    let plain = BranchInfo { name: b("wip"), upstream: None, worktree: None };
    let mut remembered = Memo::new();
    remembered.remember(&b("wip"), &b("1234"));
    assert_eq!(
        decide(&plain, &b("master"), &remembered, &b("1234")),
        Decision::Skip(SkipReason::UnchangedSinceConflict)
    );
    assert_eq!(
        decide(&plain, &b("master"), &remembered, &b("5678")),
        Decision::Proceed
    );
    assert_eq!(decide(&plain, &b("master"), &memo, &commit), Decision::Proceed);
}

/// After a clean run every branch either contains the mainline tip (an
/// empty candidate list, nothing issued) or was rebased onto it; running
/// again with the rebased state issues no rebase at all.
#[test]
fn second_run_after_success_issues_no_rebase() {
    let mut m = Orchestrator::new(b("master"), Memo::new());
    assert_eq!(m.next(Event::Start), Action::ListBranches);
    assert_eq!(
        m.next(Event::Output(catalog(true, &["wip1"]))),
        Action::WarnOntoCheckedOut
    );
    assert_eq!(
        m.next(Event::Succeeded),
        Action::SkipBranch(b("master"), SkipReason::IsTarget)
    );
    assert_eq!(m.next(Event::Succeeded), Action::ResolveCommit(b("wip1")));
    assert_eq!(
        m.next(Event::Output(b(&format!("{}\n", WIP1_OLD)))),
        Action::SaveMemo(b("[branches]\n"))
    );
    assert_eq!(
        m.next(Event::Succeeded),
        Action::ComputeMergeBase(b("wip1"), b("master"))
    );
    // the branch now sits on the tip: the merge-base is the tip itself
    assert_eq!(
        m.next(Event::Output(b(&format!("{}\n", SECOND)))),
        Action::ListCommits(b(SECOND), b("master"))
    );
    assert_eq!(m.next(Event::Output(b(""))), Action::CheckoutBranch(b("wip1")));
    assert_eq!(m.next(Event::Succeeded), Action::Detach);
    assert_eq!(m.next(Event::Succeeded), Action::Finished);
}
