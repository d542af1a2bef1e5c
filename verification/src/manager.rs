//! The session manager proper: the per-message transition.
//!
//! A `handle` exchange runs in two verified steps around the one external
//! call. `Session::handle_short_circuits` performs the daily-window reset,
//! counts the inbound message, and answers quota overruns and commands
//! directly. When it yields no reply, the caller appends the user turn with
//! `Session::push_user_message`, asks the completion provider for a reply to
//! the whole history, and records the outcome — reply or fixed fallback —
//! with `Session::record_reply`. The spec functions here pin every field of
//! the session after each step, and the lemmas state the laws the manager
//! obeys.

use vstd::prelude::*;

use crate::session::{Message, MessageV, Role, Session, SessionV, SECONDS_PER_DAY};
use crate::text::{dec_str, push_dec, str_eq, trim, trim_spec};

verus! {

/// Daily inbound-message limit used when no other is configured.
pub const DEFAULT_DAILY_MESSAGE_LIMIT: u64 = 10;

pub const HELP_COMMAND: &'static str = "!help";

pub const STATS_COMMAND: &'static str = "!stats";

pub const HELP_REPLY: &'static str = "Commands: !help, !stats";

/// The reply recorded when the completion provider fails.
pub const FALLBACK_REPLY: &'static str = "Failed to get response.";

/// The daily-window reset: whenever a full day has passed since the anchor,
/// the day counter restarts and the window is re-anchored at `now`.
pub open spec fn reset_applied(s: SessionV, now: int) -> SessionV {
    if now >= s.last_reset + SECONDS_PER_DAY {
        SessionV { received_today: 0, last_reset: now, ..s }
    } else {
        s
    }
}

/// Counting one inbound message; this happens for every message, even those
/// answered by the quota gate or a command.
pub open spec fn counted(s: SessionV) -> SessionV {
    SessionV {
        received_today: s.received_today + 1,
        total_received: s.total_received + 1,
        ..s
    }
}

/// Counting one outbound reply.
pub open spec fn replied(s: SessionV) -> SessionV {
    SessionV { total_sent: s.total_sent + 1, ..s }
}

/// The quota-gate reply: the limit and the instant (epoch seconds) the
/// window rolls over.
pub open spec fn quota_reply(limit: u64, reset_at: int) -> Seq<char> {
    "You have reached the daily message limit of "@ + dec_str(limit as nat)
        + ". Your quota will reset at "@ + dec_str(reset_at as nat)
}

/// The `!stats` reply, built from the counters after this message and its
/// reply are themselves counted.
pub open spec fn stats_reply(tr: int, ts: int, rt: int) -> Seq<char> {
    "Total messages received: "@ + dec_str(tr as nat) + ", Total messages sent: "@ + dec_str(
        ts as nat,
    ) + ", Messages received today: "@ + dec_str(rt as nat)
}

/// Steps that precede any external call: reset, count, quota gate, command
/// dispatch. Yields the session afterwards and the short-circuit reply, if
/// any. The quota gate takes precedence over commands; commands match the
/// trimmed text exactly and leave the history untouched.
pub open spec fn short_circuit_spec(s: SessionV, msg: Seq<char>, limit: u64, now: int) -> (
    SessionV,
    Option<Seq<char>>,
) {
    let s1 = counted(reset_applied(s, now));
    if s1.received_today >= limit {
        (replied(s1), Some(quota_reply(limit, s1.last_reset + SECONDS_PER_DAY)))
    } else if trim_spec(msg) == HELP_COMMAND@ {
        (replied(s1), Some(HELP_REPLY@))
    } else if trim_spec(msg) == STATS_COMMAND@ {
        let s2 = replied(s1);
        (s2, Some(stats_reply(s2.total_received, s2.total_sent, s2.received_today)))
    } else {
        (s1, None)
    }
}

/// What is replied once the completion provider has answered: its reply
/// trimmed, or the fixed fallback when it failed.
pub open spec fn reply_of(completion: Option<Seq<char>>) -> Seq<char> {
    match completion {
        Some(c) => trim_spec(c),
        None => FALLBACK_REPLY@,
    }
}

pub open spec fn user_appended(s: SessionV, text: Seq<char>) -> SessionV {
    SessionV {
        history: s.history.push(MessageV { role: Role::User, content: text }),
        ..s
    }
}

pub open spec fn reply_recorded(s: SessionV, reply: Seq<char>) -> SessionV {
    SessionV {
        history: s.history.push(MessageV { role: Role::System, content: reply }),
        total_sent: s.total_sent + 1,
        ..s
    }
}

/// One whole exchange, given what the completion provider returned (`None`
/// for any failure). Yields the session afterwards and the reply text.
pub open spec fn handle_spec(
    s: SessionV,
    msg: Seq<char>,
    limit: u64,
    now: int,
    completion: Option<Seq<char>>,
) -> (SessionV, Seq<char>) {
    let step = short_circuit_spec(s, msg, limit, now);
    match step.1 {
        Some(reply) => (step.0, reply),
        None => {
            let reply = reply_of(completion);
            (reply_recorded(user_appended(step.0, msg), reply), reply)
        },
    }
}

impl Session {
    /// The verified first half of an exchange: daily reset, counting, quota
    /// gate and command dispatch. `Some` is the final reply (no external
    /// call must be made); `None` means the message goes to the completion
    /// provider.
    pub fn handle_short_circuits(&mut self, msg: &str, limit: u64, now: i64) -> (r: Option<
        String,
    >)
        requires
            old(self)@.wf(),
            0 <= now <= i64::MAX - SECONDS_PER_DAY,
            old(self).total_received < u64::MAX,
            old(self).received_today < u64::MAX,
            old(self).total_sent < u64::MAX,
        ensures
            final(self)@ == short_circuit_spec(old(self)@, msg@, limit, now as int).0,
            r.deep_view() == short_circuit_spec(old(self)@, msg@, limit, now as int).1,
            final(self)@.wf(),
    {
        if now >= self.last_reset + SECONDS_PER_DAY {
            self.received_today = 0;
            self.last_reset = now;
        }
        self.received_today = self.received_today + 1;
        self.total_received = self.total_received + 1;
        if self.received_today >= limit {
            self.total_sent = self.total_sent + 1;
            let mut reply = String::from_str("You have reached the daily message limit of ");
            push_dec(&mut reply, limit);
            reply.append(". Your quota will reset at ");
            let reset_at = self.last_reset + SECONDS_PER_DAY;
            push_dec(&mut reply, reset_at as u64);
            proof {
                assert(reply@ =~= quota_reply(limit, reset_at as int));
            }
            return Some(reply);
        }
        let trimmed = trim(msg);
        if str_eq(trimmed, HELP_COMMAND) {
            self.total_sent = self.total_sent + 1;
            return Some(String::from_str(HELP_REPLY));
        }
        if str_eq(trimmed, STATS_COMMAND) {
            self.total_sent = self.total_sent + 1;
            let mut reply = String::from_str("Total messages received: ");
            push_dec(&mut reply, self.total_received);
            reply.append(", Total messages sent: ");
            push_dec(&mut reply, self.total_sent);
            reply.append(", Messages received today: ");
            push_dec(&mut reply, self.received_today);
            proof {
                assert(reply@ =~= stats_reply(
                    self.total_received as int,
                    self.total_sent as int,
                    self.received_today as int,
                ));
            }
            return Some(reply);
        }
        None
    }

    /// Appends the sender's turn, exactly as received, to the history.
    pub fn push_user_message(&mut self, text: &str)
        ensures
            final(self)@ == user_appended(old(self)@, text@),
    {
        self.history.push(Message { role: Role::User, content: String::from_str(text) });
        proof {
            assert(self.history.deep_view() =~= old(self).history.deep_view().push(
                MessageV { role: Role::User, content: text@ },
            ));
        }
    }

    /// Records the completion provider's answer (`None` for any failure):
    /// the reply — trimmed answer or fixed fallback — joins the history as
    /// the system turn, and the outbound counter advances.
    pub fn record_reply(&mut self, completion: Option<String>) -> (r: String)
        requires
            old(self).total_sent < u64::MAX,
        ensures
            r@ == reply_of(completion.deep_view()),
            final(self)@ == reply_recorded(old(self)@, reply_of(completion.deep_view())),
    {
        let reply: String = match completion {
            Option::Some(c) => {
                let t = trim(c.as_str());
                String::from_str(t)
            },
            Option::None => String::from_str(FALLBACK_REPLY),
        };
        self.history.push(Message { role: Role::System, content: reply.clone() });
        self.total_sent = self.total_sent + 1;
        proof {
            assert(self.history.deep_view() =~= old(self).history.deep_view().push(
                MessageV { role: Role::System, content: reply@ },
            ));
        }
        reply
    }
}

/// Reset idempotence: before a full day has passed, the reset step is the
/// identity — neither the anchor nor the day counter moves.
pub proof fn lemma_reset_idempotent(s: SessionV, now: int)
    requires
        now < s.last_reset + SECONDS_PER_DAY,
    ensures
        reset_applied(s, now) == s,
{
}

/// Within the window, an exchange keeps the anchor where it was and counts
/// exactly one more message for the day, whatever the message or the
/// provider did.
pub proof fn lemma_window_kept(
    s: SessionV,
    msg: Seq<char>,
    limit: u64,
    now: int,
    completion: Option<Seq<char>>,
)
    requires
        now < s.last_reset + SECONDS_PER_DAY,
    ensures
        handle_spec(s, msg, limit, now, completion).0.last_reset == s.last_reset,
        handle_spec(s, msg, limit, now, completion).0.received_today == s.received_today + 1,
{
}

/// Command purity: a message whose trimmed text is a command leaves the
/// history untouched, and the exchange does not depend on the completion
/// provider at all.
pub proof fn lemma_command_purity(
    s: SessionV,
    msg: Seq<char>,
    limit: u64,
    now: int,
    c1: Option<Seq<char>>,
    c2: Option<Seq<char>>,
)
    requires
        trim_spec(msg) == HELP_COMMAND@ || trim_spec(msg) == STATS_COMMAND@,
    ensures
        handle_spec(s, msg, limit, now, c1) == handle_spec(s, msg, limit, now, c2),
        handle_spec(s, msg, limit, now, c1).0.history == s.history,
        short_circuit_spec(s, msg, limit, now).1 is Some,
{
}

/// History growth: a short-circuited exchange leaves the history untouched;
/// any other grows it by exactly the user turn and the system turn —
/// whether the provider answered or the fallback was recorded.
pub proof fn lemma_history_growth(
    s: SessionV,
    msg: Seq<char>,
    limit: u64,
    now: int,
    completion: Option<Seq<char>>,
)
    ensures
        short_circuit_spec(s, msg, limit, now).1 is Some ==> handle_spec(
            s,
            msg,
            limit,
            now,
            completion,
        ).0.history == s.history,
        short_circuit_spec(s, msg, limit, now).1 is None ==> handle_spec(
            s,
            msg,
            limit,
            now,
            completion,
        ).0.history == s.history.push(MessageV { role: Role::User, content: msg }).push(
            MessageV { role: Role::System, content: reply_of(completion) },
        ),
{
}

/// Counter consistency: every exchange counts exactly one message in and
/// one reply out.
pub proof fn lemma_counter_consistency(
    s: SessionV,
    msg: Seq<char>,
    limit: u64,
    now: int,
    completion: Option<Seq<char>>,
)
    ensures
        handle_spec(s, msg, limit, now, completion).0.total_received == s.total_received + 1,
        handle_spec(s, msg, limit, now, completion).0.total_sent == s.total_sent + 1,
{
}

/// The quota gate: once the day's count reaches the limit, the exchange is
/// answered by the quota reply naming the roll-over instant, and the
/// history stays untouched.
pub proof fn lemma_quota_exceeded(
    s: SessionV,
    msg: Seq<char>,
    limit: u64,
    now: int,
    completion: Option<Seq<char>>,
)
    requires
        now < s.last_reset + SECONDS_PER_DAY,
        s.received_today + 1 >= limit,
    ensures
        handle_spec(s, msg, limit, now, completion).1 == quota_reply(
            limit,
            s.last_reset + SECONDS_PER_DAY,
        ),
        handle_spec(s, msg, limit, now, completion).0.history == s.history,
{
}

/// A run of exchanges: each call folds one `handle_spec` step.
pub open spec fn run_spec(
    s: SessionV,
    calls: Seq<(Seq<char>, int, Option<Seq<char>>)>,
    limit: u64,
) -> SessionV
    decreases calls.len(),
{
    if calls.len() == 0 {
        s
    } else {
        run_spec(
            handle_spec(s, calls[0].0, limit, calls[0].1, calls[0].2).0,
            calls.drop_first(),
            limit,
        )
    }
}

/// Quota monotonicity, counting part: as long as every call falls inside
/// the session's current window, the anchor never moves and the day counter
/// counts exactly the calls.
pub proof fn lemma_run_within_window(
    s: SessionV,
    calls: Seq<(Seq<char>, int, Option<Seq<char>>)>,
    limit: u64,
)
    requires
        forall|q: int| 0 <= q < calls.len() ==> #[trigger] calls[q].1 < s.last_reset
            + SECONDS_PER_DAY,
    ensures
        run_spec(s, calls, limit).last_reset == s.last_reset,
        run_spec(s, calls, limit).received_today == s.received_today + calls.len(),
    decreases calls.len(),
{
    if calls.len() > 0 {
        let s1 = handle_spec(s, calls[0].0, limit, calls[0].1, calls[0].2).0;
        lemma_window_kept(s, calls[0].0, limit, calls[0].1, calls[0].2);
        assert forall|q: int| 0 <= q < calls.drop_first().len() implies #[trigger] calls.drop_first()[q].1
            < s1.last_reset + SECONDS_PER_DAY by {
            assert(calls.drop_first()[q] == calls[q + 1]);
        }
        lemma_run_within_window(s1, calls.drop_first(), limit);
    }
}

/// Quota monotonicity: starting a window with a clean day counter, after at
/// least `limit` messages inside it, the next message inside the window is
/// answered by the quota reply for that same window; the day counter equals
/// the number of messages counted, so it stays within the limit as long as
/// the sequence does.
pub proof fn lemma_quota_monotonicity(
    s: SessionV,
    calls: Seq<(Seq<char>, int, Option<Seq<char>>)>,
    limit: u64,
    msg: Seq<char>,
    now: int,
    completion: Option<Seq<char>>,
)
    requires
        s.received_today == 0,
        forall|q: int| 0 <= q < calls.len() ==> #[trigger] calls[q].1 < s.last_reset
            + SECONDS_PER_DAY,
        now < s.last_reset + SECONDS_PER_DAY,
        calls.len() >= limit,
    ensures
        run_spec(s, calls, limit).received_today == calls.len(),
        handle_spec(run_spec(s, calls, limit), msg, limit, now, completion).1 == quota_reply(
            limit,
            s.last_reset + SECONDS_PER_DAY,
        ),
        handle_spec(run_spec(s, calls, limit), msg, limit, now, completion).0.history == run_spec(
            s,
            calls,
            limit,
        ).history,
{
    lemma_run_within_window(s, calls, limit);
    lemma_quota_exceeded(run_spec(s, calls, limit), msg, limit, now, completion);
}

} // verus!
