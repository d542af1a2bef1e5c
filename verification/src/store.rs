//! The persisted shape of a session and the load/save conversions.
//!
//! A `SessionRecord` carries exactly what one row of the store holds: plain
//! counters, the window anchor in epoch seconds, and the history in the
//! textual record format of `crate::codec`. Loading re-seeds an empty or
//! unreadable history with the default system prompt; everything else is a
//! field-for-field copy, and `lemma_store_roundtrip` shows a persisted
//! session loads back identical.

use vstd::prelude::*;

use crate::codec::{decode_history, decode_spec, encode_history, hist_enc, lemma_decode_encode};
use crate::session::{seeded_history, seeded_vec, Session, SessionV};

verus! {

/// One row of the store, keyed by `sender_id`.
#[derive(Debug)]
pub struct SessionRecord {
    pub sender_id: String,
    pub total_received: u64,
    pub total_sent: u64,
    pub received_today: u64,
    pub history: String,
    pub last_reset: i64,
}

/// Mathematical image of a `SessionRecord`.
#[verifier::ext_equal]
pub struct SessionRecordV {
    pub sender_id: Seq<char>,
    pub total_received: int,
    pub total_sent: int,
    pub received_today: int,
    pub history: Seq<char>,
    pub last_reset: int,
}

impl View for SessionRecord {
    type V = SessionRecordV;

    open spec fn view(&self) -> SessionRecordV {
        SessionRecordV {
            sender_id: self.sender_id@,
            total_received: self.total_received as int,
            total_sent: self.total_sent as int,
            received_today: self.received_today as int,
            history: self.history@,
            last_reset: self.last_reset as int,
        }
    }
}

impl DeepView for SessionRecord {
    type V = SessionRecordV;

    open spec fn deep_view(&self) -> SessionRecordV {
        self@
    }
}

/// The row a session is persisted as.
pub open spec fn record_of(s: SessionV) -> SessionRecordV {
    SessionRecordV {
        sender_id: s.sender_id,
        total_received: s.total_received,
        total_sent: s.total_sent,
        received_today: s.received_today,
        history: hist_enc(s.history),
        last_reset: s.last_reset,
    }
}

/// What loading means. A missing row gives a fresh session anchored at
/// `now`; a row gives its counters and anchor back, with the history
/// decoded — re-seeded with the default prompt when it is empty or does not
/// decode.
pub open spec fn load_spec(sender_id: Seq<char>, rec: Option<SessionRecordV>, now: int) -> SessionV {
    match rec {
        None => SessionV {
            sender_id,
            total_received: 0,
            total_sent: 0,
            received_today: 0,
            history: seeded_history(),
            last_reset: now,
        },
        Some(r) => SessionV {
            sender_id,
            total_received: r.total_received,
            total_sent: r.total_sent,
            received_today: r.received_today,
            history: (match decode_spec(r.history) {
                Some(h) => if h.len() == 0 {
                    seeded_history()
                } else {
                    h
                },
                None => seeded_history(),
            }),
            last_reset: r.last_reset,
        },
    }
}

/// Relies on `chrono::Utc::now` and `chrono::DateTime::timestamp`: the
/// current clock reading in whole seconds since the Unix epoch. Nothing is
/// assumed of the value.
#[verifier::external_body]
fn now_epoch_seconds() -> i64 {
    chrono::Utc::now().timestamp()
}

impl Session {
    /// The row this session is persisted as.
    pub fn to_record(&self) -> (r: SessionRecord)
        ensures
            r@ == record_of(self@),
    {
        SessionRecord {
            sender_id: self.sender_id.clone(),
            total_received: self.total_received,
            total_sent: self.total_sent,
            received_today: self.received_today,
            history: encode_history(&self.history),
            last_reset: self.last_reset,
        }
    }

    /// Turns a looked-up row (or its absence) into the session for
    /// `sender_id`, anchoring a fresh session's window at `now`.
    pub fn load_at(sender_id: String, rec: Option<&SessionRecord>, now: i64) -> (s: Session)
        ensures
            s@ == load_spec(sender_id@, rec.deep_view(), now as int),
    {
        match rec {
            Option::None => Session::fresh(sender_id, now),
            Option::Some(r) => {
                let history = match decode_history(r.history.as_str()) {
                    Option::Some(h) => {
                        if h.len() == 0 {
                            seeded_vec()
                        } else {
                            h
                        }
                    },
                    Option::None => seeded_vec(),
                };
                Session {
                    sender_id,
                    total_received: r.total_received,
                    total_sent: r.total_sent,
                    received_today: r.received_today,
                    history,
                    last_reset: r.last_reset,
                }
            },
        }
    }

    /// Loads as `load_at`, anchoring a fresh session at the current time;
    /// a looked-up row keeps its own anchor.
    pub fn load(sender_id: String, rec: Option<&SessionRecord>) -> (s: Session)
        ensures
            s@ == load_spec(sender_id@, rec.deep_view(), s@.last_reset),
            (match rec.deep_view() {
                Some(r) => s@.last_reset == r.last_reset,
                None => true,
            }),
    {
        let now = now_epoch_seconds();
        Session::load_at(sender_id, rec, now)
    }
}

/// Round trip: persisting a session and loading the row back under the same
/// key yields the identical session, whatever instant the load happens at.
/// (A session whose history is empty is the one exception in principle —
/// loading seeds the default prompt — but the manager never persists one:
/// every session starts from the seeded history.)
pub proof fn lemma_store_roundtrip(s: SessionV, now: int)
    requires
        s.history.len() > 0,
    ensures
        load_spec(s.sender_id, Some(record_of(s)), now) == s,
{
    lemma_decode_encode(s.history);
    assert(load_spec(s.sender_id, Some(record_of(s)), now) =~= s);
}

} // verus!
