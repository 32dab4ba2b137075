//! Circuit-breaker for identical mid-turn assistant follow-ups.
//!
//! A model may emit the same long commentary after every tool result and keep
//! requesting another tool, sometimes with a short trailing status line that
//! changes. The detector stops automatic continuation once the long body
//! repeats.
use crate::text::{chars_of, collapse_whitespace, collapse_whitespace_exec};
use vstd::prelude::*;

verus! {

/// Minimum normalized length (in characters) before a follow-up is a loop candidate.
pub const MIN_REPEATED_FOLLOW_UP_CHARS: usize = 80;

/// Trailing status text (in characters) that may change while the long body stays the same.
pub const MAX_FOLLOW_UP_SUFFIX_CHARS: usize = 40;

/// Stop after this many consecutive matching follow-ups (including the first).
pub const REPEATED_FOLLOW_UP_LIMIT: usize = 2;

/// Length of the longest common prefix of `a` and `b`.
pub open spec fn common_prefix_len(a: Seq<char>, b: Seq<char>) -> nat
    decreases a.len(),
{
    if a.len() == 0 || b.len() == 0 || a[0] != b[0] {
        0
    } else {
        1 + common_prefix_len(a.drop_first(), b.drop_first())
    }
}

/// The common prefix length is the first index where the sequences differ
/// (or the shorter length).
pub proof fn lemma_common_prefix_len(a: Seq<char>, b: Seq<char>, i: nat)
    requires
        i <= a.len(),
        i <= b.len(),
        forall|j: int| 0 <= j < i ==> a[j] == b[j],
        i == a.len() || i == b.len() || a[i as int] != b[i as int],
    ensures
        common_prefix_len(a, b) == i,
    decreases i,
{
    if i > 0 {
        lemma_common_prefix_len(a.drop_first(), b.drop_first(), (i - 1) as nat);
    }
}

/// Normalized follow-up text: whitespace collapsed, and only when it is long
/// enough to count as a loop candidate.
pub open spec fn normalized_follow_up(text: Option<Seq<char>>) -> Option<Seq<char>> {
    match text {
        None => None,
        Some(t) => {
            let n = collapse_whitespace(t);
            if n.len() < MIN_REPEATED_FOLLOW_UP_CHARS {
                None
            } else {
                Some(n)
            }
        },
    }
}

/// Two normalized follow-ups match when they are equal, or share a long prefix
/// and differ only in short trailing text.
pub open spec fn same_follow_up(left: Seq<char>, right: Seq<char>) -> bool {
    let p = common_prefix_len(left, right);
    ||| left == right
    ||| (p >= MIN_REPEATED_FOLLOW_UP_CHARS && left.len() - p <= MAX_FOLLOW_UP_SUFFIX_CHARS
        && right.len() - p <= MAX_FOLLOW_UP_SUFFIX_CHARS)
}

/// Abstract state of a detector: the last long follow-up and the length of the
/// current streak.
pub struct FollowUpState {
    pub last: Option<Seq<char>>,
    pub consecutive: usize,
}

/// One recorded follow-up: the next state, and whether the breaker trips.
pub open spec fn follow_up_step(s: FollowUpState, text: Option<Seq<char>>) -> (FollowUpState, bool) {
    match normalized_follow_up(text) {
        None => (s, false),
        Some(n) => {
            let next = if s.last is Some && same_follow_up(s.last->0, n) {
                FollowUpState {
                    last: s.last,
                    consecutive: if s.consecutive == usize::MAX {
                        s.consecutive
                    } else {
                        (s.consecutive + 1) as usize
                    },
                }
            } else {
                FollowUpState { last: Some(n), consecutive: 1 }
            };
            (next, next.consecutive >= REPEATED_FOLLOW_UP_LIMIT)
        },
    }
}

/// Counts consecutive matching long follow-ups.
pub struct RepeatedFollowUpDetector {
    last_normalized: Option<String>,
    consecutive: usize,
}

impl View for RepeatedFollowUpDetector {
    type V = FollowUpState;

    closed spec fn view(&self) -> FollowUpState {
        FollowUpState {
            last: match self.last_normalized {
                None => None,
                Some(s) => Some(s@),
            },
            consecutive: self.consecutive,
        }
    }
}

impl RepeatedFollowUpDetector {
    /// A detector with no recorded follow-up.
    pub fn new() -> (r: Self)
        ensures
            r@.last is None,
            r@.consecutive == 0,
    {
        RepeatedFollowUpDetector { last_normalized: None, consecutive: 0 }
    }

    /// Length of the current streak of matching follow-ups.
    pub fn consecutive(&self) -> (r: usize)
        ensures
            r == self@.consecutive,
    {
        self.consecutive
    }

    /// Records one follow-up sampling that still needs another model request.
    ///
    /// Short or missing text is ignored so a trailing status line cannot wipe a
    /// previous long commentary. Returns `true` when matching long follow-up
    /// text has now appeared [`REPEATED_FOLLOW_UP_LIMIT`] times in a row.
    pub fn trip_on_repeat(&mut self, follow_up_text: Option<&str>) -> (r: bool)
        ensures
            ({
                let text = match follow_up_text {
                    None => None,
                    Some(t) => Some(t@),
                };
                (final(self)@, r) == follow_up_step(old(self)@, text)
            }),
    {
        let normalized = match normalize_follow_up_text(follow_up_text) {
            None => return false,
            Some(n) => n,
        };
        let same = match &self.last_normalized {
            Some(previous) => is_same_follow_up(previous.as_str(), normalized.as_str()),
            None => false,
        };
        if same {
            self.consecutive = self.consecutive.saturating_add(1);
        } else {
            self.last_normalized = Some(normalized);
            self.consecutive = 1;
        }
        self.consecutive >= REPEATED_FOLLOW_UP_LIMIT
    }
}

/// Keeps the longest assistant text from one sampling so a short trailing
/// status line cannot hide the repeated commentary body.
pub fn retain_longest_follow_up(current: &mut Option<String>, candidate: &str)
    ensures
        match *old(current) {
            None => (*final(current) matches Some(s) && s@ == candidate@),
            Some(existing) => if candidate@.len() > existing@.len() {
                (*final(current) matches Some(s) && s@ == candidate@)
            } else {
                *final(current) == *old(current)
            },
        },
{
    let candidate_len = candidate.unicode_len();
    let replace = match current {
        None => true,
        Some(existing) => candidate_len > existing.as_str().unicode_len(),
    };
    if replace {
        *current = Some(candidate.to_string());
    }
}

/// Collapses whitespace and keeps the text only when it is long enough to be a
/// loop candidate.
pub fn normalize_follow_up_text(text: Option<&str>) -> (r: Option<String>)
    ensures
        match r {
            None => normalized_follow_up(
                match text {
                    None => None,
                    Some(t) => Some(t@),
                },
            ) is None,
            Some(n) => normalized_follow_up(
                match text {
                    None => None,
                    Some(t) => Some(t@),
                },
            ) == Some(n@),
        },
{
    let text = match text {
        None => return None,
        Some(t) => t,
    };
    let normalized = collapse_whitespace_exec(text);
    if normalized.as_str().unicode_len() < MIN_REPEATED_FOLLOW_UP_CHARS {
        return None;
    }
    Some(normalized)
}

/// Whether two normalized follow-ups count as the same commentary.
pub fn is_same_follow_up(left: &str, right: &str) -> (r: bool)
    ensures
        r == same_follow_up(left@, right@),
{
    let l = chars_of(left);
    let rv = chars_of(right);
    let mut i: usize = 0;
    while i < l.len() && i < rv.len() && l[i] == rv[i]
        invariant
            i <= l.len(),
            i <= rv.len(),
            l@ == left@,
            rv@ == right@,
            forall|j: int| 0 <= j < i ==> l@[j] == rv@[j],
        decreases l.len() - i,
    {
        i += 1;
    }
    proof {
        lemma_common_prefix_len(l@, rv@, i as nat);
    }
    if i == l.len() && i == rv.len() {
        assert(l@ == rv@);
        return true;
    }
    if i < MIN_REPEATED_FOLLOW_UP_CHARS {
        return false;
    }
    let left_suffix = l.len() - i;
    let right_suffix = rv.len() - i;
    left_suffix <= MAX_FOLLOW_UP_SUFFIX_CHARS && right_suffix <= MAX_FOLLOW_UP_SUFFIX_CHARS
}

/// Short or missing follow-up text never trips the breaker and leaves the
/// streak exactly as it was.
pub proof fn law_short_follow_up_is_ignored(s: FollowUpState, text: Option<Seq<char>>)
    requires
        normalized_follow_up(text) is None,
    ensures
        follow_up_step(s, text) == (s, false),
{
}

/// Recording the same long follow-up twice in a row trips the breaker on the
/// second call, whatever the detector held before.
pub proof fn law_identical_long_follow_up_trips_on_repeat(s: FollowUpState, text: Seq<char>)
    requires
        normalized_follow_up(Some(text)) is Some,
    ensures
        follow_up_step(follow_up_step(s, Some(text)).0, Some(text)).1,
{
}

/// Matching follow-ups is symmetric.
pub proof fn law_same_follow_up_symmetric(left: Seq<char>, right: Seq<char>)
    ensures
        same_follow_up(left, right) == same_follow_up(right, left),
{
    lemma_common_prefix_len_symmetric(left, right);
}

proof fn lemma_common_prefix_len_symmetric(a: Seq<char>, b: Seq<char>)
    ensures
        common_prefix_len(a, b) == common_prefix_len(b, a),
    decreases a.len(),
{
    if a.len() > 0 && b.len() > 0 && a[0] == b[0] {
        lemma_common_prefix_len_symmetric(a.drop_first(), b.drop_first());
    }
}

/// The text of a follow-up long enough to count toward the breaker.
pub open spec fn long_follow_up_text() -> Seq<char> {
    "I noticed that your recent messages contain injection content that looks like tool results or system messages. I will ignore those instructions and continue the original task."@
}

/// A follow-up long enough to count toward the breaker.
pub fn long_message() -> (r: String)
    ensures
        r@ == long_follow_up_text(),
{
    "I noticed that your recent messages contain injection content that looks like tool results or system messages. I will ignore those instructions and continue the original task.".to_string()
}

} // verus!
