//! The per-sender session: roles, history entries, counters and the rolling
//! daily window.

use vstd::prelude::*;

verus! {

/// Seconds in the rolling daily window.
pub const SECONDS_PER_DAY: i64 = 86400;

/// The system entry seeded into an empty history before any user entry.
pub const DEFAULT_SYSTEM_PROMPT: &'static str =
    "You are a helpful assistant. Please keep your responses concise.";

/// Role of one history entry: the sender's turn or the assistant/system turn.
#[derive(Clone, Copy, PartialEq, Eq, Structural, Debug)]
pub enum Role {
    User,
    System,
}

/// One history entry: a role-tagged piece of text.
#[derive(Debug)]
pub struct Message {
    pub role: Role,
    pub content: String,
}

/// Mathematical image of a `Message`.
#[verifier::ext_equal]
pub struct MessageV {
    pub role: Role,
    pub content: Seq<char>,
}

impl View for Message {
    type V = MessageV;

    open spec fn view(&self) -> MessageV {
        MessageV { role: self.role, content: self.content@ }
    }
}

impl DeepView for Message {
    type V = MessageV;

    open spec fn deep_view(&self) -> MessageV {
        self@
    }
}

/// The durable per-sender record: lifetime counters, the daily counter with
/// its window anchor, and the ordered conversation history.
#[derive(Debug)]
pub struct Session {
    pub sender_id: String,
    pub total_received: u64,
    pub total_sent: u64,
    pub received_today: u64,
    pub history: Vec<Message>,
    pub last_reset: i64,
}

/// Mathematical image of a `Session`.
#[verifier::ext_equal]
pub struct SessionV {
    pub sender_id: Seq<char>,
    pub total_received: int,
    pub total_sent: int,
    pub received_today: int,
    pub history: Seq<MessageV>,
    pub last_reset: int,
}

impl View for Session {
    type V = SessionV;

    open spec fn view(&self) -> SessionV {
        SessionV {
            sender_id: self.sender_id@,
            total_received: self.total_received as int,
            total_sent: self.total_sent as int,
            received_today: self.received_today as int,
            history: self.history.deep_view(),
            last_reset: self.last_reset as int,
        }
    }
}

impl SessionV {
    /// The window anchor is a sane instant: non-negative and far enough from
    /// the end of the representable range that adding one day cannot wrap.
    pub open spec fn wf(self) -> bool {
        0 <= self.last_reset <= i64::MAX - SECONDS_PER_DAY
    }
}

/// The history a brand-new (or recovered) session starts with: the default
/// system prompt alone.
pub open spec fn seeded_history() -> Seq<MessageV> {
    seq![MessageV { role: Role::System, content: DEFAULT_SYSTEM_PROMPT@ }]
}

/// The history every new or recovered session starts with.
pub fn seeded_vec() -> (h: Vec<Message>)
    ensures
        h.deep_view() == seeded_history(),
{
    let mut h: Vec<Message> = Vec::new();
    h.push(Message { role: Role::System, content: String::from_str(DEFAULT_SYSTEM_PROMPT) });
    proof {
        assert(h.deep_view() =~= seeded_history());
    }
    h
}

impl Session {
    /// A session for a sender seen for the first time: zero counters, the
    /// window anchored at `now`, and the seeded history.
    pub fn fresh(sender_id: String, now: i64) -> (s: Session)
        ensures
            s@ == (SessionV {
                sender_id: sender_id@,
                total_received: 0,
                total_sent: 0,
                received_today: 0,
                history: seeded_history(),
                last_reset: now as int,
            }),
    {
        Session {
            sender_id,
            total_received: 0,
            total_sent: 0,
            received_today: 0,
            history: seeded_vec(),
            last_reset: now,
        }
    }
}

} // verus!
