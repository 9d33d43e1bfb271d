//! Forwarding decisions: how a peer identifier is resolved, how forward
//! errors are reported, flood-wait parsing and the retry policy.

use vstd::prelude::*;
use crate::text::{
    chars_between, chars_of, contains_chars, contains_seq, decimal_of_int, digit_run_end,
    digits_of, digits_only, find_chars, find_digit_run_end, find_from, find_seq, is_digit,
    decimal_of_nat, lemma_decimal_of_nat, lemma_decimal_round_trip, lemma_find_from, occurs_at, parse_i32_chars,
    parse_i64,
    parsed_i32, parsed_i64,
};

verus! {

/// How a peer identifier is looked up: a numeric identifier is a channel id,
/// anything else a username.
#[derive(Debug, Clone)]
pub enum PeerLookup {
    ById(i64),
    ByUsername(String),
}

/// Decides how `identifier` is resolved: by id when it reads as an `i64`,
/// by username otherwise.
pub fn peer_lookup(identifier: &str) -> (r: PeerLookup)
    ensures
        match parsed_i64(identifier@) {
            Some(id) => r == PeerLookup::ById(id),
            None => r matches PeerLookup::ByUsername(name) && name@ == identifier@,
        },
{
    match parse_i64(identifier) {
        Some(id) => PeerLookup::ById(id),
        None => PeerLookup::ByUsername(String::from_str(identifier)),
    }
}

/// `FLOOD_WAIT_`
pub open spec fn flood_wait_prefix() -> Seq<char> {
    seq!['F', 'L', 'O', 'O', 'D', '_', 'W', 'A', 'I', 'T', '_']
}

/// `FLOOD_WAIT`
pub open spec fn flood_wait_marker() -> Seq<char> {
    seq!['F', 'L', 'O', 'O', 'D', '_', 'W', 'A', 'I', 'T']
}

/// `c` is a sign that may open a number.
pub open spec fn is_sign(c: char) -> bool {
    c == '+' || c == '-'
}

/// Where the number that starts at `i` ends: after an optional sign, the
/// end of the run of digits that follows.
pub open spec fn numeral_end(s: Seq<char>, i: int) -> int {
    if 0 <= i < s.len() && is_sign(s[i]) {
        digit_run_end(s, i + 1)
    } else {
        digit_run_end(s, i)
    }
}

/// The characters a flood-wait error gives as its wait. After the first
/// `FLOOD_WAIT_`: the number written right there (an optional sign, then its
/// digits), so that text which follows it does not spoil it. When the text
/// says `FLOOD_WAIT` without the underscore: all the digits of the text, in
/// order, which is how such an error is read. `None` when the text says
/// neither.
pub open spec fn flood_wait_digits(error: Seq<char>) -> Option<Seq<char>> {
    match find_seq(error, flood_wait_prefix()) {
        Some(pos) => Some(error.subrange(pos + 11, numeral_end(error, pos + 11))),
        None => if contains_seq(error, flood_wait_marker()) {
            Some(digits_only(error))
        } else {
            None
        },
    }
}

/// The number of seconds a flood-wait error asks to wait: the number that
/// `flood_wait_digits` spells; `None` when the text is no flood-wait error,
/// gives no number there, or the number does not fit in an `i32`.
pub open spec fn flood_wait_seconds(error: Seq<char>) -> Option<i32> {
    match flood_wait_digits(error) {
        Some(d) => parsed_i32(d),
        None => None,
    }
}

/// Reads the wait that a flood-wait error asks for.
pub fn parse_flood_wait(error: &str) -> (r: Option<i32>)
    ensures
        r == flood_wait_seconds(error@),
{
    let e = chars_of(error);
    let prefix = chars_of("FLOOD_WAIT_");
    let marker = chars_of("FLOOD_WAIT");
    proof {
        reveal_strlit("FLOOD_WAIT_");
        reveal_strlit("FLOOD_WAIT");
        assert(prefix@ =~= flood_wait_prefix());
        assert(marker@ =~= flood_wait_marker());
    }
    match find_chars(&e, &prefix) {
        Some(pos) => {
            proof {
                lemma_find_from(e@, prefix@, 0);
                assert(occurs_at(e@, prefix@, pos as int));
                assert(prefix@.len() == 11);
            }
            let start = pos + 11;
            let signed = start < e.len() && (e[start] == '+' || e[start] == '-');
            let end = if signed {
                find_digit_run_end(&e, start + 1)
            } else {
                find_digit_run_end(&e, start)
            };
            let digits = chars_between(&e, start, end);
            parse_i32_chars(&digits)
        },
        None => {
            if contains_chars(&e, &marker) {
                let digits = digits_of(&e);
                parse_i32_chars(&digits)
            } else {
                None
            }
        },
    }
}

/// `CHAT_ADMIN_REQUIRED`
pub open spec fn admin_required_code() -> Seq<char> {
    seq!['C', 'H', 'A', 'T', '_', 'A', 'D', 'M', 'I', 'N', '_', 'R', 'E', 'Q', 'U', 'I', 'R', 'E', 'D']
}

/// The report of a forward refused for want of admin rights on the target.
pub open spec fn admin_required_report() -> Seq<char> {
    seq!['目', '标', '频', '道', '缺', '少', '管', '理', '员', '权', '限', '，', '无', '法', '转', '发', '消', '息']
}

/// The part of the admin report by which a task recognises it must stop.
pub open spec fn admin_required_marker() -> Seq<char> {
    seq!['目', '标', '频', '道', '缺', '少', '管', '理', '员', '权', '限']
}

/// `Failed to forward message: `
pub open spec fn forward_failed_prefix() -> Seq<char> {
    seq![
        'F', 'a', 'i', 'l', 'e', 'd', ' ', 't', 'o', ' ', 'f', 'o', 'r', 'w', 'a', 'r', 'd', ' ',
        'm', 'e', 's', 's', 'a', 'g', 'e', ':', ' '
    ]
}

/// The report of a failed forward: the admin report when the error names
/// `CHAT_ADMIN_REQUIRED`, otherwise `Failed to forward message: ` and the
/// error's debug form.
pub open spec fn forward_failure_report(display: Seq<char>, debug: Seq<char>) -> Seq<char> {
    if contains_seq(display, admin_required_code()) {
        admin_required_report()
    } else {
        forward_failed_prefix() + debug
    }
}

/// Reports a failed forward, given the error's display and debug forms.
pub fn forward_failure_text(display: &str, debug: &str) -> (r: String)
    ensures
        r@ == forward_failure_report(display@, debug@),
{
    let d = chars_of(display);
    let code = chars_of("CHAT_ADMIN_REQUIRED");
    proof {
        reveal_strlit("CHAT_ADMIN_REQUIRED");
        assert(code@ =~= admin_required_code());
    }
    if contains_chars(&d, &code) {
        let r = String::from_str("目标频道缺少管理员权限，无法转发消息");
        proof {
            reveal_strlit("目标频道缺少管理员权限，无法转发消息");
            assert(r@ =~= admin_required_report());
        }
        r
    } else {
        let mut r = String::from_str("Failed to forward message: ");
        proof {
            reveal_strlit("Failed to forward message: ");
            assert(r@ =~= forward_failed_prefix());
        }
        r.append(debug);
        r
    }
}

/// Whether an error report says the target lacks admin rights, which ends
/// the task instead of being retried.
pub fn is_admin_required(report: &str) -> (r: bool)
    ensures
        r == contains_seq(report@, admin_required_marker()),
{
    let v = chars_of(report);
    let marker = chars_of("目标频道缺少管理员权限");
    proof {
        reveal_strlit("目标频道缺少管理员权限");
        assert(marker@ =~= admin_required_marker());
    }
    contains_chars(&v, &marker)
}

/// A reading of the system clock (`std::time::SystemTime`), carried
/// opaquely from one clock call to the next.
#[verifier::external_type_specification]
#[verifier::external_body]
pub struct ExSystemTime(std::time::SystemTime);

/// `SystemTime::now`: the current reading of the system clock. It depends on
/// the clock, so nothing is stated of it.
#[verifier::external_body]
fn system_time_now() -> std::time::SystemTime {
    std::time::SystemTime::now()
}

/// `SystemTime::duration_since(UNIX_EPOCH)`: how long after the Unix epoch
/// `t` lies; `None` (std's error) when `t` lies before it. Nothing is stated
/// of which case comes, since that depends on the clock reading.
#[verifier::external_body]
fn since_unix_epoch(t: &std::time::SystemTime) -> Option<std::time::Duration> {
    t.duration_since(std::time::UNIX_EPOCH).ok()
}

/// `Duration::as_nanos`: the whole length of `d` in nanoseconds. A
/// `Duration` is opaque here, so nothing is stated of the number.
#[verifier::external_body]
fn duration_as_nanos(d: &std::time::Duration) -> u128 {
    d.as_nanos()
}

/// The pseudo-random number drawn from a clock reading: the nanoseconds
/// modulo `i64::MAX`.
pub fn rand_id_from(nanos: u128) -> (r: i64)
    ensures
        r as int == nanos as int % (i64::MAX as int),
        0 <= r < i64::MAX,
{
    (nanos % (i64::MAX as u128)) as i64
}

/// A pseudo-random number from the clock, below `i64::MAX`; `None` when the
/// clock reads before 1970.
pub fn rand_id() -> (r: Option<i64>)
    ensures
        r matches Some(v) ==> 0 <= v < i64::MAX,
{
    let now = system_time_now();
    match since_unix_epoch(&now) {
        Some(d) => Some(rand_id_from(duration_as_nanos(&d))),
        None => None,
    }
}

/// What to do after a failed forward attempt.
#[derive(Debug, Clone, Copy, PartialEq, Eq, Structural)]
pub enum RetryDecision {
    /// The target lacks admin rights: stop the task with the error.
    Abort,
    /// Every retry is spent: report the message as not forwarded.
    GiveUp,
    /// Telegram asked to wait: sleep `seconds + 1` seconds, then retry with
    /// the backoff reset.
    FloodWait { seconds: i32 },
    /// Sleep `2^doublings` seconds plus a random fraction of a second, then retry.
    Backoff { doublings: u32 },
}

/// The progress of forwarding one message with retries.
#[derive(Debug, Clone, Copy)]
pub struct RetryState {
    /// Failed attempts so far (admin failures excluded).
    pub attempt: u32,
    /// How many times the backoff delay has doubled since it was last reset.
    pub doublings: u32,
    pub max_retries: u32,
}

/// The decision after a failure reported as `report`, from `state`, and the
/// state it leaves.
pub open spec fn retry_step(state: RetryState, report: Seq<char>) -> (RetryDecision, RetryState) {
    if contains_seq(report, admin_required_marker()) {
        (RetryDecision::Abort, state)
    } else {
        let attempt = (state.attempt + 1) as u32;
        if attempt > state.max_retries {
            (RetryDecision::GiveUp, RetryState { attempt, ..state })
        } else {
            match flood_wait_seconds(report) {
                Some(w) => (
                    RetryDecision::FloodWait { seconds: w },
                    RetryState { attempt, doublings: 0, ..state },
                ),
                None => (
                    RetryDecision::Backoff { doublings: (state.doublings + 1) as u32 },
                    RetryState { attempt, doublings: (state.doublings + 1) as u32, ..state },
                ),
            }
        }
    }
}

impl RetryState {
    /// Backoff doublings never outnumber failed attempts, and no retry is
    /// pending once they exceed the budget.
    pub open spec fn wf(&self) -> bool {
        self.doublings <= self.attempt <= self.max_retries
    }

    /// The state before the first attempt.
    pub fn new(max_retries: u32) -> (r: Self)
        ensures
            r.attempt == 0,
            r.doublings == 0,
            r.max_retries == max_retries,
            r.wf(),
    {
        RetryState { attempt: 0, doublings: 0, max_retries }
    }

    /// Decides what follows a failed attempt whose error reads `report`.
    /// The caller stops on `Abort` and `GiveUp` and retries otherwise.
    pub fn on_failure(&mut self, report: &str) -> (d: RetryDecision)
        requires
            old(self).wf(),
            old(self).attempt < u32::MAX || contains_seq(report@, admin_required_marker()),
        ensures
            (d, *final(self)) == retry_step(*old(self), report@),
            d is FloodWait || d is Backoff ==> final(self).wf(),
    {
        if is_admin_required(report) {
            return RetryDecision::Abort;
        }
        self.attempt = self.attempt + 1;
        if self.attempt > self.max_retries {
            return RetryDecision::GiveUp;
        }
        match parse_flood_wait(report) {
            Some(w) => {
                self.doublings = 0;
                RetryDecision::FloodWait { seconds: w }
            },
            None => {
                self.doublings = self.doublings + 1;
                RetryDecision::Backoff { doublings: self.doublings }
            },
        }
    }
}

/// A message is tried at most `max_retries + 1` times: once the budget is
/// spent, the next failure that is no admin refusal gives up.
pub proof fn lemma_retry_budget(state: RetryState, report: Seq<char>)
    requires
        state.wf(),
        state.attempt == state.max_retries,
        state.attempt < u32::MAX,
        !contains_seq(report, admin_required_marker()),
    ensures
        retry_step(state, report).0 == RetryDecision::GiveUp,
{
}

/// A refusal for want of admin rights is never retried, whatever the budget.
pub proof fn lemma_admin_refusal_aborts(state: RetryState, report: Seq<char>)
    requires
        contains_seq(report, admin_required_marker()),
    ensures
        retry_step(state, report).0 == RetryDecision::Abort,
        retry_step(state, report).1 == state,
{
}

/// A flood wait resets the backoff, and a plain failure doubles it.
pub proof fn lemma_backoff_reset(state: RetryState, report: Seq<char>)
    requires
        state.wf(),
        !contains_seq(report, admin_required_marker()),
        state.attempt < state.max_retries,
    ensures
        flood_wait_seconds(report) is Some ==> retry_step(state, report).1.doublings == 0,
        flood_wait_seconds(report) is None ==> retry_step(state, report).1.doublings
            == state.doublings + 1,
        retry_step(state, report).1.attempt == state.attempt + 1,
{
}

/// A flood-wait error reads back as the wait it was written with: when the
/// first `FLOOD_WAIT_` of the text is followed by the numeral of `n` and then
/// by no further digit, the wait is `n`, whatever text stands around it.
pub proof fn lemma_flood_wait_code(before: Seq<char>, n: i32, after: Seq<char>)
    requires
        forall|k: int|
            0 <= k < before.len() ==> !occurs_at(
                before + flood_wait_prefix() + decimal_of_int(n as int) + after,
                flood_wait_prefix(),
                k,
            ),
        after.len() > 0 ==> !is_digit(after[0]),
    ensures
        flood_wait_seconds(before + flood_wait_prefix() + decimal_of_int(n as int) + after)
            == Some(n),
{
    let d = decimal_of_int(n as int);
    let e = before + flood_wait_prefix() + d + after;
    let p = before.len() as int;
    let m = if n < 0 { -n } else { n as int };
    let digits = decimal_of_nat(m as nat);
    let q = p + 11 + (d.len() - digits.len());
    lemma_decimal_of_nat(m as nat);
    assert(find_seq(e, flood_wait_prefix()) == Some(p)) by {
        assert(flood_wait_prefix().len() == 11);
        assert(e.subrange(p, p + 11) =~= flood_wait_prefix());
        assert(occurs_at(e, flood_wait_prefix(), p));
        lemma_find_from(e, flood_wait_prefix(), 0);
        match find_from(e, flood_wait_prefix(), 0) {
            Some(j) => {
                if j < p {
                    assert(!occurs_at(e, flood_wait_prefix(), j));
                }
            },
            None => {},
        }
    }
    assert(d == if n < 0 { seq!['-'] + digits } else { digits });
    assert(e.len() == p + 11 + d.len() + after.len());
    assert forall|k: int| p + 11 <= k < p + 11 + d.len() implies e[k] == d[k - p - 11] by {}
    assert(digit_run_end(e, q) == q + digits.len()) by {
        assert forall|k: int| q <= k < q + digits.len() implies is_digit(#[trigger] e[k]) by {
            assert(e[k] == d[k - p - 11]);
            assert(d[k - p - 11] == digits[k - q]);
        }
        if q + digits.len() < e.len() {
            assert(e[q + digits.len()] == after[0]);
        }
        lemma_run_of_digits(e, q, digits.len() as int);
    }
    assert(numeral_end(e, p + 11) == q + digits.len()) by {
        assert(digits.len() > 0);
        if n < 0 {
            assert(d.len() == digits.len() + 1);
            assert(e[p + 11] == d[0]);
            assert(is_sign(e[p + 11]));
        } else {
            assert(e[p + 11] == d[0]);
            assert(is_digit(digits[0]));
            assert(!is_sign(e[p + 11]));
        }
    }
    assert(e.subrange(p + 11, q + digits.len()) =~= d);
    lemma_decimal_round_trip(n as int);
}

/// A run of `len` digits from `i`, not followed by a digit, ends at `i + len`.
proof fn lemma_run_of_digits(s: Seq<char>, i: int, len: int)
    requires
        0 <= i,
        0 <= len,
        i + len <= s.len(),
        forall|k: int| i <= k < i + len ==> is_digit(#[trigger] s[k]),
        i + len < s.len() ==> !is_digit(s[i + len]),
    ensures
        digit_run_end(s, i) == i + len,
    decreases len,
{
    if len > 0 {
        assert(is_digit(s[i]));
        lemma_run_of_digits(s, i + 1, len - 1);
    }
}

} // verus!
