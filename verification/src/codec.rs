//! The textual record format for a conversation history.
//!
//! Each entry is written as a role letter (`U` or `S`), the decimal length
//! of the content in characters, a colon, and the content itself; entries
//! are simply concatenated. Lengths make the format self-delimiting, so any
//! content round-trips. `decode_history` accepts exactly the strings that
//! `decode_spec` accepts and returns `None` on anything malformed.

use vstd::prelude::*;

use crate::session::{Message, MessageV, Role};
use crate::text::{
    dec_str, dec_val, digit_val, is_digit_c, lemma_dec_str_digits, lemma_dec_val_of_dec_str,
    push_char, push_dec,
};

verus! {

pub open spec fn role_char(r: Role) -> char {
    match r {
        Role::User => 'U',
        Role::System => 'S',
    }
}

pub open spec fn char_role(c: char) -> Option<Role> {
    if c == 'U' {
        Some(Role::User)
    } else if c == 'S' {
        Some(Role::System)
    } else {
        None
    }
}

/// The encoding of one history entry.
pub open spec fn msg_enc(m: MessageV) -> Seq<char> {
    seq![role_char(m.role)] + dec_str(m.content.len()) + seq![':'] + m.content
}

/// The encoding of a whole history: entries concatenated in order.
pub open spec fn hist_enc(h: Seq<MessageV>) -> Seq<char>
    decreases h.len(),
{
    if h.len() == 0 {
        Seq::empty()
    } else {
        msg_enc(h[0]) + hist_enc(h.drop_first())
    }
}

/// Length of the maximal prefix of decimal digit characters.
pub open spec fn digits_prefix(s: Seq<char>) -> nat
    decreases s.len(),
{
    if s.len() == 0 || !is_digit_c(s[0]) {
        0
    } else {
        (1 + digits_prefix(s.drop_first())) as nat
    }
}

/// What decoding means: the unique parse of the record format, or `None`.
pub open spec fn decode_spec(s: Seq<char>) -> Option<Seq<MessageV>>
    decreases s.len(),
{
    if s.len() == 0 {
        Some(Seq::empty())
    } else {
        match char_role(s[0]) {
            Option::None => Option::None,
            Option::Some(role) => {
                let t = s.drop_first();
                let k = digits_prefix(t) as int;
                if k == 0 || k >= t.len() || t[k] != ':' {
                    None
                } else {
                    let len = dec_val(t.subrange(0, k)) as int;
                    if len > t.len() - k - 1 {
                        None
                    } else {
                        let content = t.subrange(k + 1, k + 1 + len);
                        let rest = t.subrange(k + 1 + len, t.len() as int);
                        match decode_spec(rest) {
                            Option::None => Option::None,
                            Option::Some(ms) => Option::Some(seq![MessageV { role, content }] + ms),
                        }
                    }
                }
            },
        }
    }
}

proof fn lemma_digits_prefix_le(s: Seq<char>)
    ensures
        digits_prefix(s) <= s.len(),
    decreases s.len(),
{
    if s.len() > 0 && is_digit_c(s[0]) {
        lemma_digits_prefix_le(s.drop_first());
    }
}

/// Every character inside the digit prefix is a digit.
proof fn lemma_digits_prefix_digits(s: Seq<char>)
    ensures
        forall|p: int| 0 <= p < digits_prefix(s) ==> is_digit_c(s[p]),
    decreases s.len(),
{
    if s.len() > 0 && is_digit_c(s[0]) {
        lemma_digits_prefix_digits(s.drop_first());
        lemma_digits_prefix_le(s.drop_first());
        assert forall|p: int| 0 <= p < digits_prefix(s) implies is_digit_c(s[p]) by {
            if p > 0 {
                assert(s.drop_first()[p - 1] == s[p]);
            }
        }
    }
}

/// If the first `m` characters are digits, the digit prefix reaches `m`.
proof fn lemma_digits_prefix_lb(s: Seq<char>, m: int)
    requires
        0 <= m <= s.len(),
        forall|p: int| 0 <= p < m ==> is_digit_c(s[p]),
    ensures
        digits_prefix(s) >= m,
    decreases m,
{
    if m > 0 {
        assert(is_digit_c(s[0]));
        assert forall|p: int| 0 <= p < m - 1 implies is_digit_c(s.drop_first()[p]) by {
            assert(s.drop_first()[p] == s[p + 1]);
        }
        lemma_digits_prefix_lb(s.drop_first(), m - 1);
    }
}

/// If the first `k` characters are digits and the next one (if any) is not,
/// the digit prefix is exactly `k`.
proof fn lemma_digits_prefix_is(s: Seq<char>, k: int)
    requires
        0 <= k <= s.len(),
        forall|p: int| 0 <= p < k ==> is_digit_c(s[p]),
        k == s.len() || !is_digit_c(s[k]),
    ensures
        digits_prefix(s) == k,
    decreases k,
{
    if k == 0 {
        if s.len() > 0 {
            assert(!is_digit_c(s[0]));
        }
    } else {
        assert(is_digit_c(s[0]));
        let t = s.drop_first();
        assert forall|p: int| 0 <= p < k - 1 implies is_digit_c(t[p]) by {
            assert(t[p] == s[p + 1]);
        }
        if k < s.len() {
            assert(t[k - 1] == s[k]);
        }
        lemma_digits_prefix_is(t, k - 1);
    }
}

/// Reading one more digit multiplies the value by ten and adds the digit.
proof fn lemma_dec_val_step(s: Seq<char>, i: int)
    requires
        0 <= i < s.len(),
    ensures
        dec_val(s.subrange(0, i + 1)) == dec_val(s.subrange(0, i)) * 10 + digit_val(s[i]),
{
    let t = s.subrange(0, i + 1);
    assert(t.last() == s[i]);
    assert(t.drop_last() =~= s.subrange(0, i));
}

/// A digit prefix is worth no more than any extension of it.
proof fn lemma_dec_val_mono(s: Seq<char>, a: int, b: int)
    requires
        0 <= a <= b <= s.len(),
    ensures
        dec_val(s.subrange(0, a)) <= dec_val(s.subrange(0, b)),
    decreases b - a,
{
    if a < b {
        lemma_dec_val_mono(s, a, b - 1);
        lemma_dec_val_step(s, b - 1);
        assert(dec_val(s.subrange(0, b - 1)) * 10 >= dec_val(s.subrange(0, b - 1)));
    }
}

/// Appending one entry to a history appends its encoding to the record.
proof fn lemma_hist_enc_push(h: Seq<MessageV>, m: MessageV)
    ensures
        hist_enc(h.push(m)) == hist_enc(h) + msg_enc(m),
    decreases h.len(),
{
    if h.len() == 0 {
        let single = h.push(m);
        assert(single[0] == m);
        assert(single.drop_first() =~= Seq::<MessageV>::empty());
        assert(hist_enc(single) == msg_enc(m) + hist_enc(single.drop_first()));
        assert(hist_enc(single.drop_first()) == Seq::<char>::empty());
        assert(hist_enc(h) == Seq::<char>::empty());
        assert(msg_enc(m) + Seq::<char>::empty() =~= Seq::<char>::empty() + msg_enc(m));
    } else {
        assert(h.push(m)[0] == h[0]);
        assert(h.push(m).drop_first() =~= h.drop_first().push(m));
        lemma_hist_enc_push(h.drop_first(), m);
        assert(hist_enc(h.push(m)) == msg_enc(h[0]) + (hist_enc(h.drop_first()) + msg_enc(m)));
        assert(msg_enc(h[0]) + (hist_enc(h.drop_first()) + msg_enc(m)) =~= (msg_enc(h[0])
            + hist_enc(h.drop_first())) + msg_enc(m));
    }
}

/// Decoding inverts encoding: every history round-trips through the record
/// format.
pub proof fn lemma_decode_encode(h: Seq<MessageV>)
    ensures
        decode_spec(hist_enc(h)) == Some(h),
    decreases h.len(),
{
    if h.len() == 0 {
        assert(decode_spec(hist_enc(h)) == Some(Seq::<MessageV>::empty()));
        assert(h =~= Seq::<MessageV>::empty());
    } else {
        let m = h[0];
        let hrest = h.drop_first();
        let l = m.content.len();
        let ds = dec_str(l);
        let s = hist_enc(h);
        lemma_dec_str_digits(l);
        lemma_dec_val_of_dec_str(l);
        assert(s == msg_enc(m) + hist_enc(hrest));
        assert(s.len() == 1 + ds.len() + 1 + l + hist_enc(hrest).len());
        assert(s[0] == role_char(m.role));
        assert(char_role(role_char(m.role)) == Some(m.role));
        let t = s.drop_first();
        assert(t =~= ds + seq![':'] + m.content + hist_enc(hrest));
        let k = ds.len() as int;
        assert forall|p: int| 0 <= p < k implies is_digit_c(t[p]) by {
            assert(t[p] == ds[p]);
        }
        assert(t[k] == ':');
        assert(!is_digit_c(':'));
        lemma_digits_prefix_is(t, k);
        assert(t.subrange(0, k) =~= ds);
        assert(dec_val(t.subrange(0, k)) == l);
        assert(t.len() - k - 1 == l + hist_enc(hrest).len());
        let content = t.subrange(k + 1, k + 1 + l);
        assert(content =~= m.content);
        let rest = t.subrange(k + 1 + l, t.len() as int);
        assert(rest =~= hist_enc(hrest));
        lemma_decode_encode(hrest);
        assert(decode_spec(rest) == Some(hrest));
        assert(MessageV { role: m.role, content } == m);
        assert(decode_spec(s) == Some(seq![m] + hrest));
        assert(seq![m] + hrest =~= h);
    }
}

/// Writes the record form of `h`.
pub fn encode_history(h: &Vec<Message>) -> (out: String)
    ensures
        out@ == hist_enc(h.deep_view()),
{
    let mut out = String::new();
    let mut idx: usize = 0;
    while idx < h.len()
        invariant
            idx <= h.len(),
            out@ == hist_enc(h.deep_view().take(idx as int)),
        decreases h.len() - idx,
    {
        let ghost prev = out@;
        let ghost hv = h.deep_view();
        let m = &h[idx];
        match m.role {
            Role::User => push_char(&mut out, 'U'),
            Role::System => push_char(&mut out, 'S'),
        }
        let l = m.content.as_str().unicode_len();
        push_dec(&mut out, l as u64);
        push_char(&mut out, ':');
        out.append(m.content.as_str());
        proof {
            assert(hv[idx as int] == m@);
            assert(out@ =~= prev + msg_enc(hv[idx as int]));
            lemma_hist_enc_push(hv.take(idx as int), hv[idx as int]);
            assert(hv.take(idx as int).push(hv[idx as int]) =~= hv.take(idx + 1));
        }
        idx += 1;
    }
    proof {
        assert(h.deep_view().take(h.len() as int) =~= h.deep_view());
    }
    out
}

/// The digit value of a character, if it is one.
fn digit_of(c: char) -> (r: Option<u64>)
    ensures
        (match r {
            Option::Some(d) => is_digit_c(c) && d < 10 && d as nat == digit_val(c),
            Option::None => !is_digit_c(c),
        }),
{
    if c == '0' {
        Some(0)
    } else if c == '1' {
        Some(1)
    } else if c == '2' {
        Some(2)
    } else if c == '3' {
        Some(3)
    } else if c == '4' {
        Some(4)
    } else if c == '5' {
        Some(5)
    } else if c == '6' {
        Some(6)
    } else if c == '7' {
        Some(7)
    } else if c == '8' {
        Some(8)
    } else if c == '9' {
        Some(9)
    } else {
        None
    }
}

/// Shows that the suffix beginning at the role character at `i` cannot
/// decode once the digits that follow it are worth more than any possible
/// remaining length.
proof fn lemma_decode_none_when_oversized(s: Seq<char>, i: int, m: int)
    requires
        0 <= i < s.len(),
        s.len() <= u64::MAX,
        char_role(s[i]) is Some,
        i + 1 < m <= s.len(),
        forall|p: int| i + 1 <= p < m ==> is_digit_c(s[p]),
        dec_val(s.subrange(i + 1, m)) > u64::MAX,
    ensures
        decode_spec(s.subrange(i, s.len() as int)) is None,
{
    let suffix = s.subrange(i, s.len() as int);
    let t = suffix.drop_first();
    assert(t =~= s.subrange(i + 1, s.len() as int));
    assert forall|p: int| 0 <= p < m - i - 1 implies is_digit_c(t[p]) by {
        assert(t[p] == s[i + 1 + p]);
    }
    lemma_digits_prefix_lb(t, m - i - 1);
    lemma_digits_prefix_le(t);
    let k = digits_prefix(t) as int;
    lemma_digits_prefix_digits(t);
    lemma_dec_val_mono(t, m - i - 1, k);
    assert(t.subrange(0, m - i - 1) =~= s.subrange(i + 1, m));
    assert(dec_val(t.subrange(0, k)) > u64::MAX);
    assert(suffix[0] == s[i]);
    if k != 0 && k < t.len() && t[k] == ':' {
        assert(dec_val(t.subrange(0, k)) > t.len() - k - 1);
    }
    assert(decode_spec(suffix) is None);
}

/// Scans the digit run that starts at `start` (already read up to `j`, worth
/// `val`): returns where it ended and its value, or `None` as soon as the
/// value can no longer be held.
fn scan_digits(s: &str, j: usize, n: usize, val: u64, Ghost(start): Ghost<int>) -> (r: (
    usize,
    Option<u64>,
))
    requires
        0 <= start <= j <= n,
        n == s@.len(),
        forall|p: int| start <= p < j ==> is_digit_c(s@[p]),
        val as nat == dec_val(s@.subrange(start, j as int)),
    ensures
        j <= r.0 <= n,
        forall|p: int| start <= p < r.0 ==> is_digit_c(s@[p]),
        (match r.1 {
            Option::Some(v) => v as nat == dec_val(s@.subrange(start, r.0 as int)) && (r.0 == n
                || !is_digit_c(s@[r.0 as int])),
            Option::None => dec_val(s@.subrange(start, r.0 as int)) > u64::MAX && r.0 > start,
        }),
    decreases n - j,
{
    if j == n {
        return (j, Some(val));
    }
    let c = s.get_char(j);
    match digit_of(c) {
        Option::None => (j, Some(val)),
        Option::Some(d) => {
            proof {
                lemma_dec_val_step(s@.subrange(start, n as int), j - start);
                assert(s@.subrange(start, n as int).subrange(0, j - start) =~= s@.subrange(
                    start,
                    j as int,
                ));
                assert(s@.subrange(start, n as int).subrange(0, j - start + 1) =~= s@.subrange(
                    start,
                    j + 1,
                ));
                assert(s@.subrange(start, n as int)[j - start] == s@[j as int]);
                assert(dec_val(s@.subrange(start, j + 1)) == (val as nat) * 10 + digit_val(
                    s@[j as int],
                ));
            }
            if val > (u64::MAX - d) / 10 {
                proof {
                    assert((val as nat) * 10 + (d as nat) > u64::MAX) by {
                        vstd::arithmetic::div_mod::lemma_fundamental_div_mod(
                            (u64::MAX - d) as int,
                            10,
                        );
                    }
                }
                (j + 1, None)
            } else {
                proof {
                    assert((val as nat) * 10 + (d as nat) <= u64::MAX) by {
                        vstd::arithmetic::div_mod::lemma_fundamental_div_mod(
                            (u64::MAX - d) as int,
                            10,
                        );
                    }
                }
                scan_digits(s, j + 1, n, val * 10 + d, Ghost(start))
            }
        },
    }
}

/// Reads a record back into a history; `None` on any malformed record.
#[verifier::loop_isolation(false)]
#[verifier::rlimit(60)]
pub fn decode_history(s: &str) -> (r: Option<Vec<Message>>)
    ensures
        (match r {
            Option::Some(v) => decode_spec(s@) == Some(v.deep_view()),
            Option::None => decode_spec(s@) is None,
        }),
{
    let n = s.unicode_len();
    let mut acc: Vec<Message> = Vec::new();
    let mut i: usize = 0;
    proof {
        assert(s@.subrange(0, n as int) =~= s@);
        assert(acc.deep_view() =~= Seq::<MessageV>::empty());
        if decode_spec(s@) is Some {
            assert(Seq::<MessageV>::empty() + decode_spec(s@)->Some_0 =~= decode_spec(
                s@,
            )->Some_0);
        }
    }
    while i < n
        invariant
            i <= n,
            n == s@.len(),
            decode_spec(s@) == (match decode_spec(s@.subrange(i as int, n as int)) {
                Option::None => Option::<Seq<MessageV>>::None,
                Option::Some(ms) => Option::Some(acc.deep_view() + ms),
            }),
        decreases n - i,
    {
        let ghost suffix = s@.subrange(i as int, n as int);
        let ghost t = suffix.drop_first();
        proof {
            assert(t =~= s@.subrange(i + 1, n as int));
            assert(suffix[0] == s@[i as int]);
        }
        let c0 = s.get_char(i);
        let role = if c0 == 'U' {
            Role::User
        } else if c0 == 'S' {
            Role::System
        } else {
            proof {
                assert(char_role(suffix[0]) is None);
                assert(decode_spec(suffix) is None);
            }
            return None;
        };
        // scan the decimal length
        proof {
            assert(s@.subrange(i + 1, i + 1) =~= Seq::<char>::empty());
        }
        let (j, scanned) = scan_digits(s, i + 1, n, 0, Ghost((i + 1) as int));
        let val = match scanned {
            Option::Some(v) => v,
            Option::None => {
                proof {
                    assert(n <= u64::MAX);
                    lemma_decode_none_when_oversized(s@, i as int, j as int);
                    assert(decode_spec(suffix) is None);
                }
                return None;
            },
        };
        let ghost k = (j - i - 1) as int;
        proof {
            assert forall|p: int| 0 <= p < k implies is_digit_c(t[p]) by {
                assert(t[p] == s@[i + 1 + p]);
            }
            if j < n {
                assert(t[k] == s@[j as int]);
            }
            lemma_digits_prefix_is(t, k);
            assert(t.subrange(0, k) =~= s@.subrange(i + 1, j as int));
            assert(dec_val(t.subrange(0, k)) == val as nat);
        }
        if j == i + 1 {
            proof {
                assert(digits_prefix(t) == 0);
                assert(decode_spec(suffix) is None);
            }
            return None;
        }
        if j >= n {
            proof {
                assert(k >= t.len());
                assert(decode_spec(suffix) is None);
            }
            return None;
        }
        let cj = s.get_char(j);
        if cj != ':' {
            proof {
                assert(t[k] != ':');
                assert(decode_spec(suffix) is None);
            }
            return None;
        }
        let rem = n - j - 1;
        if val > rem as u64 {
            proof {
                assert(t.len() - k - 1 == n - j - 1);
                assert(decode_spec(suffix) is None);
            }
            return None;
        }
        let lcontent = val as usize;
        let content_s = s.substring_char(j + 1, j + 1 + lcontent);
        let msg = Message { role, content: String::from_str(content_s) };
        let ghost contentv = t.subrange(k + 1, k + 1 + val as int);
        let ghost rest = t.subrange(k + 1 + val as int, t.len() as int);
        let ghost mv = MessageV { role, content: contentv };
        proof {
            assert(t[k] == ':');
            assert(t.len() - k - 1 == n - j - 1);
            assert(contentv =~= s@.subrange(j + 1, j + 1 + val as int));
            assert(content_s@ == contentv);
            assert(msg@ == mv);
            assert(rest =~= s@.subrange(j + 1 + val as int, n as int));
            assert(decode_spec(suffix) == (match decode_spec(rest) {
                Option::None => Option::<Seq<MessageV>>::None,
                Option::Some(ms) => Option::Some(seq![mv] + ms),
            }));
        }
        let ghost old_accd = acc.deep_view();
        acc.push(msg);
        proof {
            assert(acc.deep_view() =~= old_accd.push(mv));
            if decode_spec(rest) is Some {
                let ms = decode_spec(rest)->Some_0;
                assert(old_accd + (seq![mv] + ms) =~= old_accd.push(mv) + ms);
            }
        }
        i = j + 1 + lcontent;
    }
    proof {
        assert(s@.subrange(i as int, n as int) =~= Seq::<char>::empty());
        assert(acc.deep_view() + Seq::<MessageV>::empty() =~= acc.deep_view());
    }
    Some(acc)
}

} // verus!
