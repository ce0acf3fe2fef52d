//! The policy engine: a tri-state disposition for each submission.
//!
//! `censor` consumes the submitting user's flags, the sanitised content,
//! a precomputed severity score, the content classification and the
//! author's recent history, and yields `Allow`, `Hide` or `Block`.  The
//! ordered decision rules are captured exactly by [`spec_decide`]; the
//! executable function is proved to return precisely that value, so the
//! decision is a pure function of its inputs.

use vstd::prelude::*;
use crate::score::Classification;
use crate::user::User;

verus! {

/// The disposition of a submission.
///
/// `Allow`: persist published, visible to everyone.  `Hide`: persist
/// unpublished, visible only to the author and admins.  `Block`: discard
/// silently, nothing persisted and nobody notified.
#[derive(Clone, Copy, Debug, PartialEq, Eq, Structural)]
pub enum CensorOutcome {
    Allow,
    Hide,
    Block,
}

/// The policy thresholds.  All scores are in thousandths, windows in
/// milliseconds.  An explicit value passed to the engine, not ambient
/// state; `defaults` gives the stock configuration.
#[derive(Clone, Copy, Debug, PartialEq, Eq, Structural)]
pub struct Thresholds {
    /// Current score above which a bad trend hides the message.
    pub spam_milli: u32,
    /// Trailing average score above which a trend is harassment.
    pub harassment_milli: u32,
    /// Score above which a message is hidden outright.
    pub auto_hide_milli: u32,
    /// Score at or above which content is severe.
    pub severe_milli: u32,
    /// Minimum spacing between submissions before the flood guard fires.
    pub rate_limit_ms: i64,
    /// Messages allowed inside the trailing minute.
    pub max_msgs_per_min: usize,
    /// Hidden messages a user may accumulate before new ones are hidden.
    pub max_unpublished: usize,
}

impl Thresholds {
    /// The stock configuration.
    pub fn defaults() -> (t: Thresholds)
        ensures
            t == (Thresholds {
                spam_milli: 400,
                harassment_milli: 750,
                auto_hide_milli: 550,
                severe_milli: 850,
                rate_limit_ms: 350,
                max_msgs_per_min: 12,
                max_unpublished: 20,
            }),
    {
        Thresholds {
            spam_milli: 400,
            harassment_milli: 750,
            auto_hide_milli: 550,
            severe_milli: 850,
            rate_limit_ms: 350,
            max_msgs_per_min: 12,
            max_unpublished: 20,
        }
    }
}

/// One prior message of the submitting author, newest first in a history.
pub struct HistoryEntry {
    /// The stored content, already sanitised.
    pub content: String,
    /// False when the message is hidden.
    pub published: bool,
    /// The severity score the message was created with, in thousandths.
    pub score_milli: u32,
    /// Creation time in milliseconds.
    pub created_at_ms: i64,
}

/// How many of the first `n` history entries are younger than one minute.
pub open spec fn burst_count_upto(h: Seq<HistoryEntry>, now_ms: int, n: int) -> int
    recommends
        n <= h.len(),
    decreases n,
{
    if n <= 0 {
        0
    } else {
        burst_count_upto(h, now_ms, n - 1) + (if now_ms - h[n - 1].created_at_ms < 60000 {
            1int
        } else {
            0int
        })
    }
}

/// How many of the first `n` history entries are hidden.
pub open spec fn hidden_count_upto(h: Seq<HistoryEntry>, n: int) -> int
    recommends
        n <= h.len(),
    decreases n,
{
    if n <= 0 {
        0
    } else {
        hidden_count_upto(h, n - 1) + (if !h[n - 1].published {
            1int
        } else {
            0int
        })
    }
}

/// The score sum of the first `n` history entries, in thousandths.
pub open spec fn score_sum_upto(h: Seq<HistoryEntry>, n: int) -> int
    recommends
        n <= h.len(),
    decreases n,
{
    if n <= 0 {
        0
    } else {
        score_sum_upto(h, n - 1) + h[n - 1].score_milli
    }
}

/// The ordered decision rules, first match wins:
/// admins bypass everything; banned users, severe content and scores at
/// or above the severe threshold are hidden; an exact duplicate of the
/// newest prior message is blocked; a submission inside the rate-limit
/// window from an author with three or more prior messages is blocked;
/// too many messages inside the trailing minute, a full hidden-message
/// backlog, a harassment trend, or a score above the auto-hide threshold
/// are hidden; everything else is allowed.
pub open spec fn spec_decide(
    user: User,
    content: Seq<char>,
    score_milli: u32,
    c: Classification,
    h: Seq<HistoryEntry>,
    now_ms: int,
    t: Thresholds,
) -> CensorOutcome {
    let burst_n = if h.len() < 10 {
        h.len() as int
    } else {
        10int
    };
    let avg_n = if h.len() < 5 {
        h.len() as int
    } else {
        5int
    };
    if user.admin {
        CensorOutcome::Allow
    } else if user.banned || c.severe || score_milli >= t.severe_milli {
        CensorOutcome::Hide
    } else if h.len() > 0 && h[0].content@ == content {
        CensorOutcome::Block
    } else if h.len() >= 3 && now_ms - h[0].created_at_ms < t.rate_limit_ms {
        CensorOutcome::Block
    } else if burst_count_upto(h, now_ms, burst_n) >= t.max_msgs_per_min {
        CensorOutcome::Hide
    } else if hidden_count_upto(h, h.len() as int) >= t.max_unpublished {
        CensorOutcome::Hide
    } else if score_sum_upto(h, avg_n) > t.harassment_milli * avg_n && score_milli > t.spam_milli {
        CensorOutcome::Hide
    } else if score_milli > t.auto_hide_milli {
        CensorOutcome::Hide
    } else {
        CensorOutcome::Allow
    }
}

/// The policy decision for one submission.  `history` is the author's
/// most recent messages, newest first; `now_ms` the submission time.
/// Returns exactly `spec_decide` on the same inputs: the disposition is
/// a pure function of user flags, content, score, classification and
/// history.
pub fn censor(
    user: &User,
    content: &String,
    score_milli: u32,
    classification: &Classification,
    history: &Vec<HistoryEntry>,
    now_ms: i64,
    t: &Thresholds,
) -> (r: CensorOutcome)
    requires
        forall|i: int|
            0 <= i < history@.len() ==> 0 <= #[trigger] history@[i].created_at_ms <= now_ms,
    ensures
        r == spec_decide(
            *user,
            content@,
            score_milli,
            *classification,
            history@,
            now_ms as int,
            *t,
        ),
{
    if user.admin {
        return CensorOutcome::Allow;
    }
    if user.banned || classification.severe || score_milli >= t.severe_milli {
        return CensorOutcome::Hide;
    }
    let len = history.len();
    if len > 0 && history[0].content == *content {
        return CensorOutcome::Block;
    }
    if len >= 3 && now_ms - history[0].created_at_ms < t.rate_limit_ms {
        return CensorOutcome::Block;
    }
    let burst_n = if len < 10 {
        len
    } else {
        10
    };
    let mut i: usize = 0;
    let mut burst: usize = 0;
    while i < burst_n
        invariant
            i <= burst_n,
            burst_n <= history@.len(),
            burst <= i,
            burst == burst_count_upto(history@, now_ms as int, i as int),
            forall|k: int|
                0 <= k < history@.len() ==> 0 <= #[trigger] history@[k].created_at_ms <= now_ms,
        decreases burst_n - i,
    {
        if now_ms - history[i].created_at_ms < 60000 {
            burst = burst + 1;
        }
        i = i + 1;
    }
    if burst >= t.max_msgs_per_min {
        return CensorOutcome::Hide;
    }
    let mut j: usize = 0;
    let mut hidden: usize = 0;
    while j < len
        invariant
            j <= len,
            len == history@.len(),
            hidden <= j,
            hidden == hidden_count_upto(history@, j as int),
        decreases len - j,
    {
        if !history[j].published {
            hidden = hidden + 1;
        }
        j = j + 1;
    }
    if hidden >= t.max_unpublished {
        return CensorOutcome::Hide;
    }
    let avg_n = if len < 5 {
        len
    } else {
        5
    };
    let mut k: usize = 0;
    let mut sum: u64 = 0;
    while k < avg_n
        invariant
            k <= avg_n,
            avg_n <= history@.len(),
            avg_n <= 5,
            sum <= (k as u64) * 0xffff_ffffu64,
            sum == score_sum_upto(history@, k as int),
        decreases avg_n - k,
    {
        sum = sum + (history[k].score_milli as u64);
        k = k + 1;
    }
    assert((t.harassment_milli as u64) * (avg_n as u64) <= 5 * 0xffff_ffffu64) by (nonlinear_arith)
        requires
            avg_n <= 5,
            t.harassment_milli <= 0xffff_ffffu32,
    ;
    if sum > (t.harassment_milli as u64) * (avg_n as u64) && score_milli > t.spam_milli {
        return CensorOutcome::Hide;
    }
    if score_milli > t.auto_hide_milli {
        return CensorOutcome::Hide;
    }
    CensorOutcome::Allow
}

/// `Block` comes only from the duplicate rule or the flood rule: both
/// depend on the content and the history alone, never on the score or
/// the classification.
pub proof fn lemma_block_only_for_duplicate_or_flood(
    user: User,
    content: Seq<char>,
    score_milli: u32,
    c: Classification,
    h: Seq<HistoryEntry>,
    now_ms: int,
    t: Thresholds,
)
    ensures
        spec_decide(user, content, score_milli, c, h, now_ms, t) == CensorOutcome::Block ==> ((
        h.len() > 0 && h[0].content@ == content) || (h.len() >= 3 && now_ms - h[0].created_at_ms
            < t.rate_limit_ms)),
{
}

/// An admin user's content always yields `Allow`, regardless of score,
/// classification and history.
pub proof fn lemma_admin_always_allowed(
    user: User,
    content: Seq<char>,
    score_milli: u32,
    c: Classification,
    h: Seq<HistoryEntry>,
    now_ms: int,
    t: Thresholds,
)
    requires
        user.admin,
    ensures
        spec_decide(user, content, score_milli, c, h, now_ms, t) == CensorOutcome::Allow,
{
}

/// A banned user's content always yields `Hide`, regardless of score,
/// classification and history — except for a banned admin, whom the
/// admin rule allows first.
pub proof fn lemma_banned_always_hidden(
    user: User,
    content: Seq<char>,
    score_milli: u32,
    c: Classification,
    h: Seq<HistoryEntry>,
    now_ms: int,
    t: Thresholds,
)
    requires
        user.banned,
        !user.admin,
    ensures
        spec_decide(user, content, score_milli, c, h, now_ms, t) == CensorOutcome::Hide,
{
}

/// An exact duplicate of the immediately preceding message from the same
/// author yields `Block` — for a submission that the earlier admin,
/// banned and severity rules do not claim first.
pub proof fn lemma_duplicate_blocked(
    user: User,
    content: Seq<char>,
    score_milli: u32,
    c: Classification,
    h: Seq<HistoryEntry>,
    now_ms: int,
    t: Thresholds,
)
    requires
        !user.admin,
        !user.banned,
        !c.severe,
        score_milli < t.severe_milli,
        h.len() > 0,
        h[0].content@ == content,
    ensures
        spec_decide(user, content, score_milli, c, h, now_ms, t) == CensorOutcome::Block,
{
}

/// With a hidden-message backlog at (or past) the limit, a non-privileged
/// submission yields `Hide` — unless the duplicate or flood rule blocks
/// it outright first.
pub proof fn lemma_full_backlog_hidden(
    user: User,
    content: Seq<char>,
    score_milli: u32,
    c: Classification,
    h: Seq<HistoryEntry>,
    now_ms: int,
    t: Thresholds,
)
    requires
        !user.admin,
        hidden_count_upto(h, h.len() as int) >= t.max_unpublished,
        !(h.len() > 0 && h[0].content@ == content),
        !(h.len() >= 3 && now_ms - h[0].created_at_ms < t.rate_limit_ms),
    ensures
        spec_decide(user, content, score_milli, c, h, now_ms, t) == CensorOutcome::Hide,
{
}

} // verus!
