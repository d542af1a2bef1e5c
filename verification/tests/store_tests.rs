use chatbot::manager::DEFAULT_DAILY_MESSAGE_LIMIT;
use chatbot::session::{Role, Session};

fn roles_eq(a: &Role, b: &Role) -> bool {
    matches!(
        (a, b),
        (Role::User, Role::User) | (Role::System, Role::System)
    )
}

fn sessions_eq(a: &Session, b: &Session) -> bool {
    a.sender_id == b.sender_id
        && a.total_received == b.total_received
        && a.total_sent == b.total_sent
        && a.received_today == b.received_today
        && a.last_reset == b.last_reset
        && a.history.len() == b.history.len()
        && a.history
            .iter()
            .zip(b.history.iter())
            .all(|(x, y)| roles_eq(&x.role, &y.role) && x.content == y.content)
}

#[test]
fn persisted_session_loads_back_identical() {
    let mut s = Session::fresh("+1555".to_string(), 42);
    s.handle_short_circuits("hello there", DEFAULT_DAILY_MESSAGE_LIMIT, 50);
    s.push_user_message("hello there");
    s.record_reply(Some("hi! how can I help?".to_string()));
    let rec = s.to_record();
    assert_eq!(rec.sender_id, "+1555");
    let loaded = Session::load_at("+1555".to_string(), Some(&rec), 999_999);
    assert!(sessions_eq(&s, &loaded));
}

#[test]
fn awkward_content_round_trips() {
    let mut s = Session::fresh("+1555".to_string(), 0);
    s.push_user_message("colons :: digits 1234 U5:S0: and\nnewlines\t");
    s.push_user_message("");
    s.record_reply(None);
    let rec = s.to_record();
    let loaded = Session::load_at("+1555".to_string(), Some(&rec), 7);
    assert!(sessions_eq(&s, &loaded));
}

#[test]
fn missing_row_gives_a_fresh_seeded_session() {
    let s = Session::load_at("+1777".to_string(), None, 123);
    assert_eq!(s.sender_id, "+1777");
    assert_eq!(s.total_received, 0);
    assert_eq!(s.total_sent, 0);
    assert_eq!(s.received_today, 0);
    assert_eq!(s.last_reset, 123);
    assert_eq!(s.history.len(), 1);
    assert!(matches!(s.history[0].role, Role::System));
    assert_eq!(
        s.history[0].content,
        "You are a helpful assistant. Please keep your responses concise."
    );
}

#[test]
fn unreadable_history_is_reseeded() {
    let mut s = Session::fresh("+1555".to_string(), 10);
    s.push_user_message("hello");
    let mut rec = s.to_record();
    rec.history = "garbage that is no record".to_string();
    let loaded = Session::load_at("+1555".to_string(), Some(&rec), 99);
    assert_eq!(loaded.history.len(), 1);
    assert!(matches!(loaded.history[0].role, Role::System));
    assert_eq!(
        loaded.history[0].content,
        "You are a helpful assistant. Please keep your responses concise."
    );
    // counters and the anchor still come from the row
    assert_eq!(loaded.last_reset, 10);
}

#[test]
fn empty_history_is_reseeded() {
    let mut s = Session::fresh("+1555".to_string(), 10);
    s.push_user_message("x");
    let mut rec = s.to_record();
    rec.history = String::new();
    let loaded = Session::load_at("+1555".to_string(), Some(&rec), 99);
    assert_eq!(loaded.history.len(), 1);
    assert!(matches!(loaded.history[0].role, Role::System));
}

#[test]
fn clock_based_load_keeps_a_row_as_it_is() {
    let mut s = Session::fresh("+1888".to_string(), 77);
    s.push_user_message("kept");
    let rec = s.to_record();
    let loaded = Session::load("+1888".to_string(), Some(&rec));
    assert!(sessions_eq(&s, &loaded));
}
