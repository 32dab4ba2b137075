//! Decisions of the runtime that applies patches and conditional writes:
//! approval, the keys approvals are cached under, and what a run reports.
use vstd::prelude::*;
use crate::file_ops::TrackedChange;
use crate::text::{chars_of, push_str_chars, string_from_chars};

verus! {

/// When the user is asked to approve.
#[derive(Clone, Copy, Debug, PartialEq, Eq, Structural)]
pub enum AskForApproval {
    UnlessTrusted,
    OnRequest,
    /// Per-kind settings; `allows_sandbox_approval` tells whether a run
    /// outside the sandbox may be approved.
    Granular { allows_sandbox_approval: bool },
    Never,
}

/// Whether a run outside the sandbox may be offered for approval.
pub fn wants_no_sandbox_approval(policy: AskForApproval) -> (r: bool)
    ensures
        r == match policy {
            AskForApproval::Never => false,
            AskForApproval::Granular { allows_sandbox_approval } => allows_sandbox_approval,
            AskForApproval::OnRequest | AskForApproval::UnlessTrusted => true,
        },
{
    match policy {
        AskForApproval::Never => false,
        AskForApproval::Granular { allows_sandbox_approval } => allows_sandbox_approval,
        AskForApproval::OnRequest | AskForApproval::UnlessTrusted => true,
    }
}

/// An approval is cached per environment and file.
#[derive(Debug)]
pub struct ApprovalKey {
    pub environment_id: String,
    pub path: String,
}

pub open spec fn keys_view(keys: Seq<ApprovalKey>) -> Seq<(Seq<char>, Seq<char>)> {
    keys.map_values(|k: ApprovalKey| (k.environment_id@, k.path@))
}

/// The approval keys of a patch: one per file, all in its environment.
pub fn approval_keys(environment_id: &str, file_paths: &Vec<String>) -> (r: Vec<ApprovalKey>)
    ensures
        keys_view(r@) == file_paths@.map_values(|p: String| (environment_id@, p@)),
{
    let ghost want = file_paths@.map_values(|p: String| (environment_id@, p@));
    let mut keys: Vec<ApprovalKey> = Vec::new();
    let mut i: usize = 0;
    while i < file_paths.len()
        invariant
            i <= file_paths@.len(),
            want == file_paths@.map_values(|p: String| (environment_id@, p@)),
            keys_view(keys@) == want.take(i as int),
        decreases file_paths.len() - i,
    {
        let k = ApprovalKey { environment_id: environment_id.to_string(), path: file_paths[i].clone() };
        let ghost prev = keys@;
        keys.push(k);
        proof {
            assert(keys_view(prev.push(k)) =~= keys_view(prev).push((k.environment_id@, k.path@)));
            assert(want.take(i + 1) =~= want.take(i as int).push(want[i as int]));
        }
        i += 1;
    }
    assert(want.take(file_paths.len() as int) == want);
    keys
}

/// How an approval is obtained.
#[derive(Debug)]
pub enum ApprovalStep {
    /// Already granted; nothing to ask.
    Approved,
    /// Ask again, telling the user why.
    AskWithReason { reason: String },
    /// Ask, unless an approval cached under the keys covers it.
    AskCached,
}

/// A patch whose permissions were granted before needs no approval unless
/// it is retried; a retry asks with its reason; otherwise an approval may
/// come from the cache.
pub fn patch_approval_step(permissions_preapproved: bool, retry_reason: Option<String>) -> (r:
    ApprovalStep)
    ensures
        match retry_reason {
            Some(reason) => r matches ApprovalStep::AskWithReason { reason: got } && got@ == reason@,
            None => if permissions_preapproved {
                r is Approved
            } else {
                r is AskCached
            },
        },
{
    match retry_reason {
        Some(reason) => ApprovalStep::AskWithReason { reason },
        None => if permissions_preapproved {
            ApprovalStep::Approved
        } else {
            ApprovalStep::AskCached
        },
    }
}

/// What a run reports.
#[derive(Debug)]
pub struct RunReport {
    pub exit_code: i32,
    pub stdout: String,
    pub stderr: String,
    pub aggregated_output: String,
}

/// The report of a patch run: exit code 1 when the patch failed, and the
/// output streams, aggregated as stdout then stderr.
pub fn patch_run_report(failed: bool, stdout: &str, stderr: &str) -> (r: RunReport)
    ensures
        r.exit_code == (if failed { 1i32 } else { 0i32 }),
        r.stdout@ == stdout@,
        r.stderr@ == stderr@,
        r.aggregated_output@ == stdout@ + stderr@,
{
    let mut m = chars_of(stdout);
    push_str_chars(&mut m, stderr);
    RunReport {
        exit_code: if failed {
            1
        } else {
            0
        },
        stdout: stdout.to_string(),
        stderr: stderr.to_string(),
        aggregated_output: string_from_chars(m.as_slice()),
    }
}

pub open spec fn write_error_text(conflict: bool, error: Seq<char>) -> Seq<char> {
    if conflict {
        "conditional write conflict: "@ + error
    } else {
        error
    }
}

/// The report of a conditional write: success, or failure with the error,
/// which names a conflict when the file changed or appeared meanwhile
/// (`conflict`).
pub fn conditional_write_report(write_error: Option<(bool, String)>) -> (r: RunReport)
    ensures
        match write_error {
            None => r.exit_code == 0 && r.stderr@.len() == 0 && r.aggregated_output@.len() == 0,
            Some((conflict, error)) => {
                &&& r.exit_code == 1
                &&& r.stderr@ == write_error_text(conflict, error@)
                &&& r.aggregated_output@ == r.stderr@
            },
        },
        r.stdout@.len() == 0,
{
    match write_error {
        None => RunReport {
            exit_code: 0,
            stdout: String::new(),
            stderr: String::new(),
            aggregated_output: String::new(),
        },
        Some((conflict, error)) => {
            let message = if conflict {
                let mut m = chars_of("conditional write conflict: ");
                push_str_chars(&mut m, error.as_str());
                string_from_chars(m.as_slice())
            } else {
                error
            };
            RunReport {
                exit_code: 1,
                stdout: String::new(),
                stderr: message.clone(),
                aggregated_output: message,
            }
        },
    }
}


/// A file change a run committed.
#[derive(Debug)]
pub struct AppliedChange {
    pub path: String,
    pub change: TrackedChange,
}

/// A plain view of a committed change.
pub enum ChangeView {
    Update { old_content: Seq<char>, new_content: Seq<char> },
    Add { content: Seq<char> },
}

pub open spec fn change_view(c: AppliedChange) -> (Seq<char>, ChangeView) {
    (
        c.path@,
        match c.change {
            TrackedChange::Update { old_content, new_content } => ChangeView::Update {
                old_content: old_content@,
                new_content: new_content@,
            },
            TrackedChange::Add { content } => ChangeView::Add { content: content@ },
        },
    )
}

pub open spec fn delta_view(d: Seq<AppliedChange>) -> Seq<(Seq<char>, ChangeView)> {
    d.map_values(|c: AppliedChange| change_view(c))
}

fn copy_change(c: &AppliedChange) -> (r: AppliedChange)
    ensures
        change_view(r) == change_view(*c),
{
    AppliedChange {
        path: c.path.clone(),
        change: match &c.change {
            TrackedChange::Update { old_content, new_content } => TrackedChange::Update {
                old_content: old_content.clone(),
                new_content: new_content.clone(),
            },
            TrackedChange::Add { content } => TrackedChange::Add { content: content.clone() },
        },
    }
}

fn copy_delta(d: &Vec<AppliedChange>) -> (r: Vec<AppliedChange>)
    ensures
        delta_view(r@) == delta_view(d@),
{
    let mut out: Vec<AppliedChange> = Vec::new();
    let mut i: usize = 0;
    while i < d.len()
        invariant
            i <= d@.len(),
            delta_view(out@) == delta_view(d@).take(i as int),
        decreases d.len() - i,
    {
        let c = copy_change(&d[i]);
        let ghost prev = out@;
        out.push(c);
        proof {
            assert(delta_view(prev.push(c)) =~= delta_view(prev).push(change_view(c)));
            assert(delta_view(d@).take(i + 1) =~= delta_view(d@).take(i as int).push(
                change_view(d@[i as int]),
            ));
        }
        i += 1;
    }
    assert(delta_view(d@).take(d.len() as int) == delta_view(d@));
    out
}

/// A patch to apply in an environment.
#[derive(Debug)]
pub struct ApplyPatchRequest {
    pub environment_id: String,
    pub cwd: String,
    pub patch: String,
    pub file_paths: Vec<String>,
    pub permissions_preapproved: bool,
    pub approval_cache_namespace: String,
}

/// A whole-file write that only lands if the file is still as it was read.
#[derive(Debug)]
pub struct ConditionalWriteRequest {
    pub environment_id: String,
    pub path: String,
    pub canonical_path: String,
    pub contents: Vec<u8>,
    pub patch: String,
    pub delta: Vec<AppliedChange>,
}

/// The approval key of a conditional write: its file's canonical path.
pub fn conditional_write_approval_keys(req: &ConditionalWriteRequest) -> (r: Vec<ApprovalKey>)
    ensures
        keys_view(r@) == seq![(req.environment_id@, req.canonical_path@)],
{
    let mut keys: Vec<ApprovalKey> = Vec::new();
    let k = ApprovalKey { environment_id: req.environment_id.clone(), path: req.canonical_path.clone() };
    keys.push(k);
    assert(keys_view(keys@) =~= seq![(k.environment_id@, k.path@)]);
    keys
}

/// What a run of the patch runtime returns: its report and the changes it
/// stands for.
#[derive(Debug)]
pub struct ApplyPatchRuntimeOutput {
    pub exec_output: RunReport,
    pub delta: Vec<AppliedChange>,
}

/// Applies patches and conditional writes, keeping every change it
/// committed.
#[derive(Debug)]
pub struct ApplyPatchRuntime {
    committed: Vec<AppliedChange>,
}

impl ApplyPatchRuntime {
    /// The changes committed so far, in order.
    pub closed spec fn committed_view(&self) -> Seq<(Seq<char>, ChangeView)> {
        delta_view(self.committed@)
    }

    /// A runtime that committed nothing yet.
    pub fn new() -> (r: Self)
        ensures
            r.committed_view() == Seq::<(Seq<char>, ChangeView)>::empty(),
    {
        let r = ApplyPatchRuntime { committed: Vec::new() };
        assert(r.committed_view() =~= Seq::<(Seq<char>, ChangeView)>::empty());
        r
    }

    /// The changes committed so far.
    pub fn committed_delta(&self) -> (r: &Vec<AppliedChange>)
        ensures
            delta_view(r@) == self.committed_view(),
    {
        &self.committed
    }

    fn append_delta(&mut self, delta: &Vec<AppliedChange>)
        ensures
            final(self).committed_view() == old(self).committed_view() + delta_view(delta@),
    {
        let ghost start = delta_view(self.committed@);
        let mut i: usize = 0;
        while i < delta.len()
            invariant
                i <= delta@.len(),
                delta_view(self.committed@) == start + delta_view(delta@).take(i as int),
            decreases delta.len() - i,
        {
            let c = copy_change(&delta[i]);
            let ghost prev = self.committed@;
            self.committed.push(c);
            proof {
                assert(delta_view(prev.push(c)) =~= delta_view(prev).push(change_view(c)));
                assert(delta_view(delta@).take(i + 1) =~= delta_view(delta@).take(i as int).push(
                    change_view(delta@[i as int]),
                ));
            }
            i += 1;
        }
        assert(delta_view(delta@).take(delta.len() as int) == delta_view(delta@));
    }

    /// Records a patch run: its changes (all of them, or those made before
    /// it failed) are committed, and the output carries everything the
    /// runtime committed so far.
    pub fn finish_patch(&mut self, failed: bool, stdout: &str, stderr: &str, delta: &Vec<AppliedChange>) -> (r:
        ApplyPatchRuntimeOutput)
        ensures
            final(self).committed_view() == old(self).committed_view() + delta_view(delta@),
            delta_view(r.delta@) == final(self).committed_view(),
            r.exec_output.exit_code == (if failed { 1i32 } else { 0i32 }),
            r.exec_output.aggregated_output@ == stdout@ + stderr@,
    {
        self.append_delta(delta);
        let report = patch_run_report(failed, stdout, stderr);
        ApplyPatchRuntimeOutput { exec_output: report, delta: copy_delta(&self.committed) }
    }

    /// Records a conditional write: on success its change is committed and
    /// reported; on failure nothing is.
    pub fn finish_conditional_write(&mut self, req: &ConditionalWriteRequest, write_error: Option<(bool, String)>) -> (r:
        ApplyPatchRuntimeOutput)
        ensures
            write_error is None ==> final(self).committed_view() == old(self).committed_view()
                + delta_view(req.delta@) && delta_view(r.delta@) == delta_view(req.delta@)
                && r.exec_output.exit_code == 0,
            write_error is Some ==> final(self).committed_view() == old(self).committed_view()
                && r.delta@.len() == 0 && r.exec_output.exit_code == 1,
    {
        let ok = write_error.is_none();
        let report = conditional_write_report(write_error);
        if ok {
            self.append_delta(&req.delta);
            ApplyPatchRuntimeOutput { exec_output: report, delta: copy_delta(&req.delta) }
        } else {
            ApplyPatchRuntimeOutput { exec_output: report, delta: Vec::new() }
        }
    }
}

} // verus!
