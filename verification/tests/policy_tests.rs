//! The scoring function and the policy engine on concrete inputs.

use message_board::policy::{censor, CensorOutcome, HistoryEntry, Thresholds};
use message_board::score::{score_content, Classification};
use message_board::user::User;

fn plain_user(id: u128) -> User {
    User { id, code: String::from("code"), admin: false, banned: false }
}

fn entry(content: &str, published: bool, score_milli: u32, created_at_ms: i64) -> HistoryEntry {
    HistoryEntry { content: String::from(content), published, score_milli, created_at_ms }
}

#[test]
fn empty_classification_scores_zero() {
    assert_eq!(score_content(&Classification::none()), 0);
}

#[test]
fn single_category_scores() {
    let mut c = Classification::none();
    c.offensive = true;
    assert_eq!(score_content(&c), 210);
    let mut c = Classification::none();
    c.severe = true;
    assert_eq!(score_content(&c), 789);
    let mut c = Classification::none();
    c.mean = true;
    assert_eq!(score_content(&c), 131);
}

#[test]
fn negative_weights_clamp_to_zero() {
    let mut c = Classification::none();
    c.profane = true;
    c.mild = true;
    assert_eq!(score_content(&c), 0);
}

#[test]
fn all_categories_saturate_at_one() {
    let c = Classification {
        profane: true,
        offensive: true,
        sexual: true,
        mean: true,
        evasive: true,
        spam: true,
        mild: true,
        moderate: true,
        severe: true,
    };
    assert_eq!(score_content(&c), 1000);
}

#[test]
fn decide_is_deterministic() {
    let user = plain_user(7);
    let content = String::from("hello");
    let history = vec![entry("earlier", true, 100, 500)];
    let t = Thresholds::defaults();
    let c = Classification::none();
    let a = censor(&user, &content, 200, &c, &history, 1_000_000, &t);
    let b = censor(&user, &content, 200, &c, &history, 1_000_000, &t);
    assert_eq!(a, b);
}

#[test]
fn admin_always_allowed() {
    let mut user = plain_user(1);
    user.admin = true;
    user.banned = true;
    let mut c = Classification::none();
    c.severe = true;
    let history = vec![entry("x", false, 1000, 900), entry("x", false, 1000, 800)];
    let t = Thresholds::defaults();
    let r = censor(&user, &String::from("x"), 1000, &c, &history, 1000, &t);
    assert_eq!(r, CensorOutcome::Allow);
}

#[test]
fn banned_always_hidden() {
    let mut user = plain_user(2);
    user.banned = true;
    let t = Thresholds::defaults();
    let r = censor(&user, &String::from("kind words"), 0, &Classification::none(), &vec![], 0, &t);
    assert_eq!(r, CensorOutcome::Hide);
}

#[test]
fn severe_classification_hidden() {
    let user = plain_user(3);
    let mut c = Classification::none();
    c.severe = true;
    let t = Thresholds::defaults();
    let r = censor(&user, &String::from("w"), 0, &c, &vec![], 0, &t);
    assert_eq!(r, CensorOutcome::Hide);
}

#[test]
fn severe_score_hidden() {
    let user = plain_user(3);
    let t = Thresholds::defaults();
    let r = censor(&user, &String::from("w"), 850, &Classification::none(), &vec![], 0, &t);
    assert_eq!(r, CensorOutcome::Hide);
}

#[test]
fn exact_duplicate_blocked() {
    let user = plain_user(4);
    let t = Thresholds::defaults();
    let history = vec![entry("hello", true, 0, 100_000)];
    let r = censor(&user, &String::from("hello"), 0, &Classification::none(), &history, 200_000, &t);
    assert_eq!(r, CensorOutcome::Block);
}

#[test]
fn rate_limit_blocks_with_three_priors() {
    let user = plain_user(5);
    let t = Thresholds::defaults();
    // Newest prior message 100 ms ago, three prior messages in all.
    let history = vec![
        entry("a", true, 0, 999_900),
        entry("b", true, 0, 900_000),
        entry("c", true, 0, 800_000),
    ];
    let r = censor(&user, &String::from("d"), 0, &Classification::none(), &history, 1_000_000, &t);
    assert_eq!(r, CensorOutcome::Block);
}

#[test]
fn rate_limit_needs_three_priors() {
    let user = plain_user(5);
    let t = Thresholds::defaults();
    let history = vec![entry("a", true, 0, 999_900)];
    let r = censor(&user, &String::from("d"), 0, &Classification::none(), &history, 1_000_000, &t);
    assert_eq!(r, CensorOutcome::Allow);
}

#[test]
fn burst_in_trailing_minute_hidden() {
    let user = plain_user(6);
    // Only the first ten history entries are examined, so the stock
    // limit of twelve per minute cannot be reached there; a tighter
    // configured limit makes the guard observable.
    let mut t = Thresholds::defaults();
    t.max_msgs_per_min = 8;
    let now: i64 = 10_000_000;
    let mut history = Vec::new();
    // Ten messages inside the trailing minute, none inside the
    // rate-limit window, all distinct from the submission.
    for i in 0..10i64 {
        history.push(entry("m", true, 0, now - 1000 - i * 100));
    }
    let r = censor(&user, &String::from("new"), 0, &Classification::none(), &history, now, &t);
    assert_eq!(r, CensorOutcome::Hide);
}

#[test]
fn full_backlog_hidden() {
    let user = plain_user(7);
    let t = Thresholds::defaults();
    let now: i64 = 100_000_000;
    let mut history = Vec::new();
    // Twenty hidden messages, all old enough to dodge the burst rule.
    for i in 0..20i64 {
        history.push(entry("m", false, 0, now - 7_000_000 - i * 1000));
    }
    let r = censor(&user, &String::from("new"), 0, &Classification::none(), &history, now, &t);
    assert_eq!(r, CensorOutcome::Hide);
}

#[test]
fn harassment_trend_hidden() {
    let user = plain_user(8);
    let t = Thresholds::defaults();
    let now: i64 = 100_000_000;
    // Recent average score 800 over five messages, current score 450:
    // above the spam threshold but below auto-hide.
    let mut history = Vec::new();
    for i in 0..5i64 {
        history.push(entry("m", true, 800, now - 7_000_000 - i * 1000));
    }
    let r = censor(&user, &String::from("new"), 450, &Classification::none(), &history, now, &t);
    assert_eq!(r, CensorOutcome::Hide);
}

#[test]
fn trend_needs_current_score_too() {
    let user = plain_user(8);
    let t = Thresholds::defaults();
    let now: i64 = 100_000_000;
    let mut history = Vec::new();
    for i in 0..5i64 {
        history.push(entry("m", true, 800, now - 7_000_000 - i * 1000));
    }
    let r = censor(&user, &String::from("new"), 400, &Classification::none(), &history, now, &t);
    assert_eq!(r, CensorOutcome::Allow);
}

#[test]
fn auto_hide_threshold() {
    let user = plain_user(9);
    let t = Thresholds::defaults();
    let r = censor(&user, &String::from("w"), 551, &Classification::none(), &vec![], 0, &t);
    assert_eq!(r, CensorOutcome::Hide);
    let r = censor(&user, &String::from("w"), 550, &Classification::none(), &vec![], 0, &t);
    assert_eq!(r, CensorOutcome::Allow);
}

#[test]
fn hello_twice_within_hundred_millis() {
    // First submission with empty history is allowed; the second —
    // 100 ms later, same content — is blocked by the duplicate rule
    // (the flood rule needs three priors and cannot fire yet).
    let user = plain_user(10);
    let t = Thresholds::defaults();
    let c = Classification::none();
    let first = censor(&user, &String::from("hello"), 0, &c, &vec![], 1_000_000, &t);
    assert_eq!(first, CensorOutcome::Allow);
    let history = vec![entry("hello", true, 0, 1_000_000)];
    let second = censor(&user, &String::from("hello"), 0, &c, &history, 1_000_100, &t);
    assert_eq!(second, CensorOutcome::Block);
}
