use chatbot::manager::DEFAULT_DAILY_MESSAGE_LIMIT;
use chatbot::session::{Role, Session};

const NOON: i64 = 1000;

fn exchange(s: &mut Session, text: &str, now: i64, completion: Option<String>) -> String {
    match s.handle_short_circuits(text, DEFAULT_DAILY_MESSAGE_LIMIT, now) {
        Some(reply) => reply,
        None => {
            s.push_user_message(text);
            s.record_reply(completion)
        }
    }
}

#[test]
fn first_exchange_seeds_and_appends() {
    let mut s = Session::fresh("+1555".to_string(), NOON);
    let reply = exchange(&mut s, "hello", NOON, Some("model reply".to_string()));
    assert_eq!(reply, "model reply");
    assert_eq!(s.total_received, 1);
    assert_eq!(s.total_sent, 1);
    assert_eq!(s.received_today, 1);
    assert_eq!(s.history.len(), 3);
    assert!(matches!(s.history[0].role, Role::System));
    assert_eq!(
        s.history[0].content,
        "You are a helpful assistant. Please keep your responses concise."
    );
    assert!(matches!(s.history[1].role, Role::User));
    assert_eq!(s.history[1].content, "hello");
    assert!(matches!(s.history[2].role, Role::System));
    assert_eq!(s.history[2].content, "model reply");
}

#[test]
fn stats_counts_include_the_stats_message() {
    let mut s = Session::fresh("+1555".to_string(), NOON);
    exchange(&mut s, "hello", NOON, Some("model reply".to_string()));
    let before = s.history.len();
    let reply = exchange(&mut s, "!stats", NOON, None);
    assert_eq!(
        reply,
        "Total messages received: 2, Total messages sent: 2, Messages received today: 2"
    );
    assert_eq!(s.history.len(), before);
    assert_eq!(s.total_received, 2);
    assert_eq!(s.total_sent, 2);
    assert_eq!(s.received_today, 2);
}

#[test]
fn help_reply_is_fixed_and_pure() {
    let mut s = Session::fresh("+1555".to_string(), NOON);
    let before = s.history.len();
    let reply = exchange(&mut s, "!help", NOON, None);
    assert_eq!(reply, "Commands: !help, !stats");
    assert_eq!(s.history.len(), before);
    assert_eq!(s.total_received, 1);
    assert_eq!(s.total_sent, 1);
}

#[test]
fn commands_match_trimmed_text() {
    let mut s = Session::fresh("+1555".to_string(), NOON);
    let reply = exchange(&mut s, "  !help \n", NOON, None);
    assert_eq!(reply, "Commands: !help, !stats");
    assert_eq!(s.history.len(), 1);
}

#[test]
fn unknown_bang_token_is_no_command() {
    let mut s = Session::fresh("+1555".to_string(), NOON);
    let r = s.handle_short_circuits("!helpme", DEFAULT_DAILY_MESSAGE_LIMIT, NOON);
    assert!(r.is_none());
}

#[test]
fn tenth_message_hits_the_quota() {
    let mut s = Session::fresh("+1555".to_string(), NOON);
    for k in 0..9 {
        let reply = exchange(&mut s, "hi", NOON + k, Some("ok".to_string()));
        assert_eq!(reply, "ok");
    }
    assert_eq!(s.received_today, 9);
    let reply = exchange(&mut s, "hi", NOON + 9, Some("ok".to_string()));
    assert_eq!(
        reply,
        "You have reached the daily message limit of 10. Your quota will reset at 87400"
    );
    assert_eq!(s.received_today, 10);
    assert_eq!(s.last_reset, NOON);
    // the blocked message left no trace in the history
    assert_eq!(s.history.len(), 1 + 2 * 9);
}

#[test]
fn quota_takes_precedence_over_commands() {
    let mut s = Session::fresh("+1555".to_string(), NOON);
    for _ in 0..9 {
        exchange(&mut s, "hi", NOON, Some("ok".to_string()));
    }
    let reply = exchange(&mut s, "!help", NOON, None);
    assert_eq!(
        reply,
        "You have reached the daily message limit of 10. Your quota will reset at 87400"
    );
}

#[test]
fn window_rollover_unblocks_the_sender() {
    let mut s = Session::fresh("+1555".to_string(), NOON);
    for _ in 0..10 {
        exchange(&mut s, "hi", NOON, Some("ok".to_string()));
    }
    assert_eq!(s.received_today, 10);
    let later = NOON + 86400 + 1;
    let reply = exchange(&mut s, "hi again", later, Some("welcome back".to_string()));
    assert_eq!(reply, "welcome back");
    assert_eq!(s.received_today, 1);
    assert_eq!(s.last_reset, later);
}

#[test]
fn same_window_keeps_the_anchor() {
    let mut s = Session::fresh("+1555".to_string(), NOON);
    exchange(&mut s, "hi", NOON + 86399, Some("ok".to_string()));
    assert_eq!(s.last_reset, NOON);
    assert_eq!(s.received_today, 1);
    exchange(&mut s, "hi", NOON + 86399, Some("ok".to_string()));
    assert_eq!(s.last_reset, NOON);
    assert_eq!(s.received_today, 2);
}

#[test]
fn failed_completion_records_the_fallback() {
    let mut s = Session::fresh("+1555".to_string(), NOON);
    let reply = exchange(&mut s, "hello", NOON, None);
    assert_eq!(reply, "Failed to get response.");
    assert_eq!(s.history.len(), 3);
    assert!(matches!(s.history[2].role, Role::System));
    assert_eq!(s.history[2].content, "Failed to get response.");
    assert_eq!(s.total_sent, 1);
}

#[test]
fn model_reply_is_trimmed() {
    let mut s = Session::fresh("+1555".to_string(), NOON);
    let reply = exchange(&mut s, "hello", NOON, Some("  spaced out \n".to_string()));
    assert_eq!(reply, "spaced out");
    assert_eq!(s.history[2].content, "spaced out");
}
