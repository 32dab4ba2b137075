//! Decisions around running a shell command for the model: whether extra
//! permissions may be asked for, when escalation is refused, and which file
//! changes are reported afterwards.
use vstd::prelude::*;
use crate::errors::FunctionCallError;
use crate::shell_file_changes::{
    diff_shell_snapshots, entries_map, keys_distinct, snapshot_diff, ShellFileChange,
    ShellFileSnapshot,
};
use crate::text::{chars_of, push_str_chars, string_from_chars};

verus! {

/// Extra permissions may be requested when exec permission approvals are
/// on, or when the permissions tool is on and the permissions were already
/// granted.
pub fn additional_permissions_allowed(
    exec_permission_approvals_enabled: bool,
    request_permissions_tool_enabled: bool,
    permissions_preapproved: bool,
) -> (r: bool)
    ensures
        r == (exec_permission_approvals_enabled || (request_permissions_tool_enabled
            && permissions_preapproved)),
{
    exec_permission_approvals_enabled || (request_permissions_tool_enabled && permissions_preapproved)
}

pub open spec fn msg_escalation_refused(policy: Seq<char>) -> Seq<char> {
    "approval policy is "@ + policy
        + "; reject command \u{2014} you should not ask for escalated permissions if the approval policy is "@
        + policy
}

/// A command that asks to leave the sandbox without a prior grant is
/// refused unless the approval policy asks the user on request; `policy`
/// names the policy in the message.
pub fn check_escalation(
    requests_sandbox_override: bool,
    permissions_preapproved: bool,
    policy_is_on_request: bool,
    policy: &str,
) -> (r: Result<(), FunctionCallError>)
    ensures
        (requests_sandbox_override && !permissions_preapproved && !policy_is_on_request) ==> (r matches Err(
            e,
        ) && e.message_view() == msg_escalation_refused(policy@)),
        !(requests_sandbox_override && !permissions_preapproved && !policy_is_on_request) ==> r is Ok,
{
    if requests_sandbox_override && !permissions_preapproved && !policy_is_on_request {
        let mut m = chars_of("approval policy is ");
        push_str_chars(&mut m, policy);
        push_str_chars(
            &mut m,
            "; reject command \u{2014} you should not ask for escalated permissions if the approval policy is ",
        );
        push_str_chars(&mut m, policy);
        return Err(FunctionCallError::RespondToModel(string_from_chars(m.as_slice())));
    }
    Ok(())
}

/// The working tree is snapshotted around every command not known to be
/// safe.
pub fn should_snapshot_shell_files(is_known_safe_command: bool) -> (r: bool)
    ensures
        r == !is_known_safe_command,
{
    !is_known_safe_command
}

/// The id of the file-change event that follows shell call `shell_call_id`.
pub fn file_change_call_id(shell_call_id: &str) -> (r: String)
    ensures
        r@ == shell_call_id@ + "-file-change"@,
{
    let mut m = chars_of(shell_call_id);
    push_str_chars(&mut m, "-file-change");
    string_from_chars(m.as_slice())
}

/// The file changes a command reports: none unless both snapshots were
/// taken and they differ.
pub fn shell_file_changes_to_report(
    before: Option<&ShellFileSnapshot>,
    after: Option<&ShellFileSnapshot>,
) -> (r: Option<Vec<(String, ShellFileChange)>>)
    ensures
        match (before, after) {
            (Some(b), Some(a)) => if snapshot_diff(b@, a@).dom().len() == 0 {
                r is None
            } else {
                r matches Some(c) && keys_distinct(c@) && entries_map(c@) == snapshot_diff(b@, a@)
            },
            _ => r is None,
        },
{
    match (before, after) {
        (Some(b), Some(a)) => {
            let changes = diff_shell_snapshots(b, a);
            proof {
                crate::shell_file_changes::lemma_entries_map(changes@);
            }
            if changes.len() == 0 {
                assert(changes@ =~= Seq::<(String, ShellFileChange)>::empty());
                assert(snapshot_diff(b@, a@) =~= Map::<Seq<char>, ShellFileChange>::empty());
                None
            } else {
                Some(changes)
            }
        },
        _ => None,
    }
}

} // verus!
