//! How full the model's context window is, and when auto-compaction is due.
use vstd::prelude::*;

verus! {

/// `x` clamped to the range of `i64`.
pub open spec fn clamp_i64(x: int) -> i64 {
    if x > i64::MAX {
        i64::MAX
    } else if x < i64::MIN {
        i64::MIN
    } else {
        x as i64
    }
}

/// `a - b`, saturated.
pub fn sat_sub_i64(a: i64, b: i64) -> (r: i64)
    ensures
        r == clamp_i64(a - b),
{
    match a.checked_sub(b) {
        Some(x) => x,
        None => if b < 0 {
            i64::MAX
        } else {
            i64::MIN
        },
    }
}

/// `a + b`, saturated.
pub fn sat_add_i64(a: i64, b: i64) -> (r: i64)
    ensures
        r == clamp_i64(a + b),
{
    match a.checked_add(b) {
        Some(x) => x,
        None => if b > 0 {
            i64::MAX
        } else {
            i64::MIN
        },
    }
}

/// Tokens left under `limit` after `used`, never negative.
pub open spec fn remaining_spec(limit: Option<i64>, used: i64) -> Option<i64> {
    match limit {
        Some(l) => Some(
            if clamp_i64(l - used) < 0 {
                0i64
            } else {
                clamp_i64(l - used)
            },
        ),
        None => None,
    }
}

/// Tokens left under `limit` after `used`, never negative.
pub fn tokens_remaining(limit: Option<i64>, used: i64) -> (r: Option<i64>)
    ensures
        r == remaining_spec(limit, used),
{
    match limit {
        Some(l) => {
            let left = sat_sub_i64(l, used);
            Some(
                if left < 0 {
                    0
                } else {
                    left
                },
            )
        },
        None => None,
    }
}

/// The tokens the conversation's context counts: total usage, or total
/// usage without the context tokens when a Responses session's figure is
/// only a local estimate; never negative.
pub fn recorded_context_tokens(
    responses_wire_api: bool,
    usage_is_local_estimate: bool,
    total_tokens: i64,
    total_without_context_tokens: i64,
) -> (r: i64)
    ensures
        r == if responses_wire_api && usage_is_local_estimate {
            if total_without_context_tokens < 0 {
                0
            } else {
                total_without_context_tokens
            }
        } else if total_tokens < 0 {
            0
        } else {
            total_tokens
        },
{
    let t = if responses_wire_api && usage_is_local_estimate {
        total_without_context_tokens
    } else {
        total_tokens
    };
    if t < 0 {
        0
    } else {
        t
    }
}

/// Which tokens count against the auto-compaction limit.
pub enum AutoCompactTokenLimitScope {
    /// The whole active context.
    Total,
    /// Only what was added after the window's prefilled prefix.
    BodyAfterPrefix,
}

/// What the token status is computed from.
pub struct ContextWindowInputs {
    /// Tokens in the active context.
    pub active_context_tokens: i64,
    /// The model's context window, when known.
    pub resolved_context_window: Option<i64>,
    /// The auto-compaction limit set in the configuration.
    pub configured_auto_compact_token_limit: Option<i64>,
    /// Compaction runs remotely, so the configured limit is taken as it is.
    pub uses_remote_compact: bool,
    /// The model's own auto-compaction limit.
    pub model_auto_compact_token_limit: Option<i64>,
    /// The token budget feature is on.
    pub token_budget_enabled: bool,
    /// Which tokens count against the limit.
    pub scope: AutoCompactTokenLimitScope,
    /// Input tokens of the window's prefilled prefix, when recorded.
    pub prefill_input_tokens: Option<i64>,
    /// The model's full context window.
    pub full_context_window_limit: Option<i64>,
    /// Tokens reserved for a fallback prompt (0 without a token budget).
    pub fallback_buffer_tokens: i64,
}

/// The context window's fill and whether compaction is due.
pub struct ContextWindowTokenStatus {
    pub active_context_tokens: i64,
    pub auto_compact_scope_tokens: i64,
    pub auto_compact_scope_limit: Option<i64>,
    pub full_context_window_limit: Option<i64>,
    pub base_window_tokens_remaining: Option<i64>,
    pub auto_compact_window_prefill_tokens: Option<i64>,
    pub full_context_window_limit_reached: bool,
    pub token_limit_reached: bool,
}

/// `x / 10` rounded toward zero, as integer division does.
pub open spec fn div10_toward_zero(x: int) -> int {
    if x >= 0 {
        x / 10
    } else {
        -((-x) / 10)
    }
}

/// Nine tenths of the model's context window.
pub open spec fn auto_compact_context_limit(i: ContextWindowInputs) -> Option<i64> {
    match i.resolved_context_window {
        Some(w) => Some(div10_toward_zero(w * 9) as i64),
        None => None,
    }
}

/// The configured limit, held to nine tenths of the window unless
/// compaction runs remotely.
pub open spec fn explicit_limit(i: ContextWindowInputs) -> Option<i64> {
    match i.configured_auto_compact_token_limit {
        Some(l) => if i.uses_remote_compact {
            Some(l)
        } else {
            match auto_compact_context_limit(i) {
                Some(c) => Some(if l < c { l } else { c }),
                None => Some(l),
            }
        },
        None => None,
    }
}

/// The first of `a`, `b` that is present.
pub open spec fn or_spec(a: Option<i64>, b: Option<i64>) -> Option<i64> {
    match a {
        Some(x) => Some(x),
        None => b,
    }
}

/// The tokens counted against the limit, the limit, and the prefill
/// recorded for the window.
pub open spec fn scope_spec(i: ContextWindowInputs) -> (i64, Option<i64>, Option<i64>) {
    match i.scope {
        AutoCompactTokenLimitScope::Total => (
            i.active_context_tokens,
            or_spec(
                or_spec(explicit_limit(i), i.model_auto_compact_token_limit),
                if i.token_budget_enabled {
                    auto_compact_context_limit(i)
                } else {
                    None
                },
            ),
            None,
        ),
        AutoCompactTokenLimitScope::BodyAfterPrefix => {
            let baseline = match i.prefill_input_tokens {
                Some(p) => p,
                None => i.active_context_tokens,
            };
            (
                clamp_i64(i.active_context_tokens - baseline),
                or_spec(explicit_limit(i), i.model_auto_compact_token_limit),
                i.prefill_input_tokens,
            )
        },
    }
}

/// The smaller of the present values.
pub open spec fn min_present(a: Option<i64>, b: Option<i64>) -> Option<i64> {
    match (a, b) {
        (Some(x), Some(y)) => Some(if x <= y { x } else { y }),
        (Some(x), None) => Some(x),
        (None, y) => y,
    }
}

/// The status for inputs `i`.
pub open spec fn status_spec(i: ContextWindowInputs) -> ContextWindowTokenStatus {
    let (scope_tokens, scope_limit, prefill) = scope_spec(i);
    let full_reached = match i.full_context_window_limit {
        Some(l) => i.active_context_tokens >= l,
        None => false,
    };
    let buffered_reached = match scope_limit {
        Some(l) => scope_tokens >= clamp_i64(l + i.fallback_buffer_tokens),
        None => false,
    };
    ContextWindowTokenStatus {
        active_context_tokens: i.active_context_tokens,
        auto_compact_scope_tokens: scope_tokens,
        auto_compact_scope_limit: scope_limit,
        full_context_window_limit: i.full_context_window_limit,
        base_window_tokens_remaining: min_present(
            remaining_spec(scope_limit, scope_tokens),
            remaining_spec(i.full_context_window_limit, i.active_context_tokens),
        ),
        auto_compact_window_prefill_tokens: prefill,
        full_context_window_limit_reached: full_reached,
        token_limit_reached: buffered_reached || full_reached,
    }
}

fn or_exec(a: Option<i64>, b: Option<i64>) -> (r: Option<i64>)
    ensures
        r == or_spec(a, b),
{
    match a {
        Some(x) => Some(x),
        None => b,
    }
}

/// How full the context window is: the tokens and limit that auto-compaction
/// goes by in its scope, the room left in the window, and whether the
/// buffered limit or the full window has been reached.
pub fn context_window_token_status(i: &ContextWindowInputs) -> (r: ContextWindowTokenStatus)
    requires
        match i.resolved_context_window {
            Some(w) => i64::MIN <= w * 9 <= i64::MAX,
            None => true,
        },
    ensures
        r == status_spec(*i),
{
    let context_limit: Option<i64> = match i.resolved_context_window {
        Some(w) => {
            let nine = w * 9;
            let tenth = if nine >= 0 {
                nine / 10
            } else {
                -((-nine) / 10)
            };
            Some(tenth)
        },
        None => None,
    };
    assert(context_limit == auto_compact_context_limit(*i));
    let explicit: Option<i64> = match i.configured_auto_compact_token_limit {
        Some(l) => if i.uses_remote_compact {
            Some(l)
        } else {
            match context_limit {
                Some(c) => Some(if l < c { l } else { c }),
                None => Some(l),
            }
        },
        None => None,
    };
    assert(explicit == explicit_limit(*i));
    let budget_limit = if i.token_budget_enabled {
        context_limit
    } else {
        None
    };
    let (scope_tokens, scope_limit, prefill): (i64, Option<i64>, Option<i64>) = match i.scope {
        AutoCompactTokenLimitScope::Total => (
            i.active_context_tokens,
            or_exec(or_exec(explicit, i.model_auto_compact_token_limit), budget_limit),
            None,
        ),
        AutoCompactTokenLimitScope::BodyAfterPrefix => {
            let baseline = match i.prefill_input_tokens {
                Some(p) => p,
                None => i.active_context_tokens,
            };
            (
                sat_sub_i64(i.active_context_tokens, baseline),
                or_exec(explicit, i.model_auto_compact_token_limit),
                i.prefill_input_tokens,
            )
        },
    };
    assert((scope_tokens, scope_limit, prefill) == scope_spec(*i));
    let remaining = match (
        tokens_remaining(scope_limit, scope_tokens),
        tokens_remaining(i.full_context_window_limit, i.active_context_tokens),
    ) {
        (Some(x), Some(y)) => Some(if x <= y { x } else { y }),
        (Some(x), None) => Some(x),
        (None, y) => y,
    };
    let full_reached = match i.full_context_window_limit {
        Some(l) => i.active_context_tokens >= l,
        None => false,
    };
    let buffered_reached = match scope_limit {
        Some(l) => scope_tokens >= sat_add_i64(l, i.fallback_buffer_tokens),
        None => false,
    };
    ContextWindowTokenStatus {
        active_context_tokens: i.active_context_tokens,
        auto_compact_scope_tokens: scope_tokens,
        auto_compact_scope_limit: scope_limit,
        full_context_window_limit: i.full_context_window_limit,
        base_window_tokens_remaining: remaining,
        auto_compact_window_prefill_tokens: prefill,
        full_context_window_limit_reached: full_reached,
        token_limit_reached: buffered_reached || full_reached,
    }
}

/// The room left in the window is never negative.
pub proof fn law_remaining_never_negative(i: ContextWindowInputs)
    ensures
        status_spec(i).base_window_tokens_remaining matches Some(x) ==> x >= 0,
{
}

/// Reaching the model's full context window always makes compaction due,
/// whatever the scope and limits.
pub proof fn law_full_window_forces_compaction(i: ContextWindowInputs)
    ensures
        status_spec(i).full_context_window_limit_reached ==> status_spec(i).token_limit_reached,
        (i.full_context_window_limit matches Some(l) && i.active_context_tokens >= l)
            ==> status_spec(i).token_limit_reached,
{
}

/// Without remote compaction the configured auto-compaction limit is held
/// to nine tenths of the window: the limit in force is the configured one or
/// nine tenths of the window, whichever is smaller, so it never exceeds
/// either. With the total context in scope and no fallback buffer,
/// compaction is due exactly when the context reaches the configured limit
/// or nine tenths of the window (short of a full window limit).
pub proof fn law_local_limit_is_the_smaller(i: ContextWindowInputs)
    requires
        !i.uses_remote_compact,
        i.configured_auto_compact_token_limit is Some,
    ensures
        explicit_limit(i) matches Some(x) && {
            let l = i.configured_auto_compact_token_limit->0;
            let wo = i.resolved_context_window;
            &&& x <= l
            &&& (wo is Some && wo->0 >= 0 ==> x <= wo->0 * 9 / 10 && (x == l || x == wo->0 * 9 / 10))
            &&& (wo is None ==> x == l)
        },
        i.scope is Total && i.fallback_buffer_tokens == 0 ==> status_spec(i).auto_compact_scope_limit
            == explicit_limit(i),
        (i.scope is Total && i.fallback_buffer_tokens == 0 && i.active_context_tokens
            >= i.configured_auto_compact_token_limit->0) ==> status_spec(i).token_limit_reached,
        ({
            let l = i.configured_auto_compact_token_limit->0;
            let wo = i.resolved_context_window;
            (i.scope is Total && i.fallback_buffer_tokens == 0 && i.full_context_window_limit is None
                && wo is Some && wo->0 >= 0) ==> (status_spec(i).token_limit_reached <==> (
            i.active_context_tokens >= l || i.active_context_tokens >= wo->0 * 9 / 10))
        }),
{
}

} // verus!
