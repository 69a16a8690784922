//! The provider side of a room: the owner's credentials, the sliding
//! window rate limiter that guards every provider call, and the adaptive
//! cadence that schedules the next playback poll.
//!
//! The HTTP calls themselves live outside the library; everything here is
//! the arithmetic they are driven by, stated over plain timestamps.

use vstd::prelude::*;

verus! {

/// Length of one rate-limit window, in seconds.
pub const RATE_LIMIT_REQUEST_WINDOW: u64 = 30;

/// Calls admitted per window; the call that reaches this count is refused.
pub const REQUEST_COUNT_PER_WINDOW: u8 = 10;

/// Poll cadence when nothing is playing, in milliseconds.
pub const DEFAULT_DATA_INTERVAL_MS: u64 = 5000;

/// Slack added after the expected end of the playing track, in
/// milliseconds.
pub const FETCH_OFFSET_MS: u64 = 500;

/// Remaining play time above which the next poll lands halfway instead of
/// at the end of the track, in milliseconds.
pub const HALVING_THRESHOLD_MS: u64 = 120000;

/// True of ASCII decimal digits.
pub open spec fn is_digit(c: char) -> bool {
    '0' <= c && c <= '9'
}

pub open spec fn digit_val(c: char) -> int {
    c as int - '0' as int
}

pub open spec fn all_digits(s: Seq<char>) -> bool {
    forall|i: int| 0 <= i < s.len() ==> is_digit(#[trigger] s[i])
}

/// Value of a string of decimal digits.
pub open spec fn dec_value(s: Seq<char>) -> int
    decreases s.len(),
{
    if s.len() == 0 {
        0
    } else {
        dec_value(s.drop_last()) * 10 + digit_val(s.last())
    }
}

/// A digit string's value is nonnegative and grows with every digit.
proof fn lemma_dec_value_grows(s: Seq<char>, i: int, j: int)
    requires
        all_digits(s),
        0 <= i <= j <= s.len(),
    ensures
        0 <= dec_value(s.take(i)) <= dec_value(s.take(j)),
    decreases j - i,
{
    if i == j {
        lemma_dec_value_nonneg(s.take(i));
    } else {
        lemma_dec_value_grows(s, i, j - 1);
        assert(s.take(j).drop_last() =~= s.take(j - 1));
        assert(is_digit(s.take(j).last()));
    }
}

proof fn lemma_dec_value_nonneg(s: Seq<char>)
    requires
        all_digits(s),
    ensures
        dec_value(s) >= 0,
    decreases s.len(),
{
    if s.len() > 0 {
        assert(all_digits(s.drop_last()));
        lemma_dec_value_nonneg(s.drop_last());
        assert(is_digit(s.last()));
    }
}

/// A provider timestamp carried as a decimal string, as the wire hands
/// it over.
#[derive(Debug)]
pub struct Timestamp(String);

impl View for Timestamp {
    type V = Seq<char>;

    closed spec fn view(&self) -> Seq<char> {
        self.0@
    }
}

impl Clone for Timestamp {
    fn clone(&self) -> (r: Self)
        ensures
            r == *self,
    {
        Timestamp(self.0.clone())
    }
}

impl Timestamp {
    pub fn new(t: String) -> (r: Self)
        ensures
            r@ == t@,
    {
        Timestamp(t)
    }

    /// The seconds this timestamp denotes: `Some` exactly on nonempty
    /// digit strings whose value fits in a `u64`.
    pub fn to_secs(&self) -> (r: Option<u64>)
        ensures
            match r {
                Some(v) => self@.len() > 0 && all_digits(self@) && v as int == dec_value(self@),
                None => !(self@.len() > 0 && all_digits(self@) && dec_value(self@)
                    <= u64::MAX as int),
            },
    {
        let s = self.0.as_str();
        let n = s.unicode_len();
        if n == 0 {
            return None;
        }
        let mut value: u64 = 0;
        let mut i: usize = 0;
        while i < n
            invariant
                i <= n,
                n as nat == self@.len(),
                s@ == self@,
                all_digits(self@.take(i as int)),
                value as int == dec_value(self@.take(i as int)),
            decreases n - i,
        {
            let c = s.get_char(i);
            proof {
                assert(self@.take(i + 1 as int).drop_last() =~= self@.take(i as int));
                assert(self@.take(i + 1 as int).last() == self@[i as int]);
            }
            if !('0' <= c && c <= '9') {
                return None;
            }
            let d: u64 = (c as u32 as u64) - 48;
            if value > (u64::MAX - d) / 10 {
                proof {
                    if all_digits(self@) {
                        lemma_dec_value_grows(self@, i + 1, self@.len() as int);
                        assert(self@.take(self@.len() as int) =~= self@);
                        assert(dec_value(self@.take(i + 1 as int)) > u64::MAX as int) by {
                            assert(value as int * 10 + digit_val(self@[i as int]) > u64::MAX as int);
                        }
                    }
                }
                return None;
            }
            value = value * 10 + d;
            i = i + 1;
        }
        proof {
            assert(self@.take(n as int) =~= self@);
        }
        Some(value)
    }
}

/// Provider errors: everything the provider refuses is `Generic`; the
/// library's own limiter answers `RateLimited` with the seconds left in
/// the window.
#[derive(Debug)]
pub enum SpotifyError {
    Generic(String),
    RateLimited(u64),
}

impl Clone for SpotifyError {
    fn clone(&self) -> (r: Self)
        ensures
            r == *self,
    {
        match self {
            SpotifyError::Generic(s) => SpotifyError::Generic(s.clone()),
            SpotifyError::RateLimited(t) => SpotifyError::RateLimited(*t),
        }
    }
}

/// Sliding-window rate limiter: the start of the current window and how
/// many calls it has admitted, both in plain seconds.
#[derive(Clone, Copy, Debug)]
pub struct RateLimiter {
    pub current_window: u64,
    pub request_count_on_window: u8,
}

/// What one `increment` at time `now` does: outside the window it opens a
/// fresh one and admits the call; inside, it counts the call and refuses
/// it once the counter reaches the cap.
pub open spec fn spec_increment(l: RateLimiter, now: u64) -> (RateLimiter, Result<
    (),
    SpotifyError,
>) {
    if now - l.current_window > RATE_LIMIT_REQUEST_WINDOW {
        (RateLimiter { current_window: now, request_count_on_window: 1 }, Ok(()))
    } else {
        let c: u8 = if l.request_count_on_window == 255 {
            255
        } else {
            (l.request_count_on_window + 1) as u8
        };
        let l2 = RateLimiter { current_window: l.current_window, request_count_on_window: c };
        if c >= REQUEST_COUNT_PER_WINDOW {
            (
                l2,
                Err(
                    SpotifyError::RateLimited(
                        (RATE_LIMIT_REQUEST_WINDOW - (now - l.current_window)) as u64,
                    ),
                ),
            )
        } else {
            (l2, Ok(()))
        }
    }
}

impl RateLimiter {
    /// A limiter whose window opens now; the opening call is counted.
    pub fn new(now: u64) -> (r: Self)
        ensures
            r.current_window == now,
            r.request_count_on_window == 1,
    {
        RateLimiter { current_window: now, request_count_on_window: 1 }
    }

    /// Counts one provider call at time `now` against the window.
    pub fn increment(&mut self, now: u64) -> (res: Result<(), SpotifyError>)
        requires
            old(self).current_window <= now,
        ensures
            (*final(self), res) == spec_increment(*old(self), now),
            res matches Err(e) ==> e matches SpotifyError::RateLimited(r) && r
                <= RATE_LIMIT_REQUEST_WINDOW,
    {
        let elapsed = now - self.current_window;
        if elapsed > RATE_LIMIT_REQUEST_WINDOW {
            self.current_window = now;
            self.request_count_on_window = 1;
            return Ok(());
        }
        if self.request_count_on_window < 255 {
            self.request_count_on_window = self.request_count_on_window + 1;
        }
        if self.request_count_on_window >= REQUEST_COUNT_PER_WINDOW {
            return Err(SpotifyError::RateLimited(RATE_LIMIT_REQUEST_WINDOW - elapsed));
        }
        Ok(())
    }
}

/// Runs a sequence of in-window calls and counts how many were admitted.
pub open spec fn run_limiter(l: RateLimiter, times: Seq<u64>) -> (RateLimiter, int)
    decreases times.len(),
{
    if times.len() == 0 {
        (l, 0)
    } else {
        let (l1, res) = spec_increment(l, times[0]);
        let (l2, oks) = run_limiter(l1, times.drop_first());
        (l2, oks + (if res is Ok { 1int } else { 0int }))
    }
}

/// Law of the limiter, first half: after the call that opens a window
/// (itself admitted, counter at one), at most eight further calls inside
/// that window are admitted — nine per window in all.
pub proof fn lemma_rate_limiter_at_most_nine(l: RateLimiter, times: Seq<u64>)
    requires
        1 <= l.request_count_on_window,
        forall|i: int|
            0 <= i < times.len() ==> l.current_window <= #[trigger] times[i]
                <= l.current_window + RATE_LIMIT_REQUEST_WINDOW,
    ensures
        run_limiter(l, times).1 <= if l.request_count_on_window < REQUEST_COUNT_PER_WINDOW {
            REQUEST_COUNT_PER_WINDOW - 1 - l.request_count_on_window
        } else {
            0
        },
    decreases times.len(),
{
    if times.len() > 0 {
        let (l1, res) = spec_increment(l, times[0]);
        assert(forall|i: int|
            0 <= i < times.drop_first().len() ==> l1.current_window <= #[trigger] times.drop_first()[i]
                <= l1.current_window + RATE_LIMIT_REQUEST_WINDOW);
        lemma_rate_limiter_at_most_nine(l1, times.drop_first());
    }
}

/// Law of the limiter, second half: once nine calls of a window were
/// admitted, the next in-window call is refused, with at most the window
/// length left to wait.
pub proof fn lemma_rate_limiter_tenth_refused(l: RateLimiter, now: u64)
    requires
        l.request_count_on_window == REQUEST_COUNT_PER_WINDOW - 1,
        l.current_window <= now <= l.current_window + RATE_LIMIT_REQUEST_WINDOW,
    ensures
        spec_increment(l, now).1 matches Err(e) && e matches SpotifyError::RateLimited(r) && 0 <= r
            <= RATE_LIMIT_REQUEST_WINDOW,
{
}

/// The rate-limit signal of a fetch round, broadcast room-wide so every
/// client can adjust: the seconds left according to the last rate-limited
/// sub-fetch, in the order the results are inspected.
pub fn rate_limited_seconds(first: Option<u64>, second: Option<u64>, third: Option<u64>) -> (r:
    Option<u64>)
    ensures
        r == if third is Some {
            third
        } else if second is Some {
            second
        } else {
            first
        },
{
    match third {
        Some(t) => Some(t),
        None => match second {
            Some(t) => Some(t),
            None => first,
        },
    }
}

/// How many recent tracks a fetch asks for: five by default, and only
/// one to fifty are accepted.
pub fn validate_recent_tracks_count(number: Option<u16>) -> (r: Result<u16, SpotifyError>)
    ensures
        match r {
            Ok(n) => (number is None && n == 5) || number == Some(n) && 1 <= n <= 50,
            Err(e) => (number matches Some(n) && !(1 <= n <= 50)) && (e matches
            SpotifyError::Generic(m) && m@ == "You must get 1 to 50 recent tracks"@),
        },
{
    let n = match number {
        None => 5,
        Some(n) => n,
    };
    if !(1 <= n && n <= 50) {
        return Err(SpotifyError::Generic("You must get 1 to 50 recent tracks".to_owned()));
    }
    Ok(n)
}

/// The owner's provider credentials.
#[derive(Debug)]
pub struct SpotifyTokens {
    pub access_token: String,
    pub refresh_token: String,
    pub expires_in: u32,
    pub created_at: Timestamp,
}

impl Clone for SpotifyTokens {
    fn clone(&self) -> (r: Self)
        ensures
            r == *self,
    {
        SpotifyTokens {
            access_token: self.access_token.clone(),
            refresh_token: self.refresh_token.clone(),
            expires_in: self.expires_in,
            created_at: self.created_at.clone(),
        }
    }
}

/// Whether credentials created at `created_at` and living `expires_in`
/// seconds are stale at time `now`.
pub fn token_expired(created_at: u64, expires_in: u32, now: u64) -> (b: bool)
    requires
        created_at + expires_in <= u64::MAX,
    ensures
        b == (now > created_at + expires_in),
{
    now > created_at + expires_in as u64
}

/// When the next playback poll is due, in milliseconds from now: the rest
/// of the playing track plus a small slack, halved when more than the
/// threshold is left so outside changes are noticed; the default cadence
/// when nothing is playing.
pub open spec fn spec_next_poll_delay_ms(
    is_playing: bool,
    progress_ms: Option<u64>,
    duration_ms: u64,
) -> int {
    match progress_ms {
        Some(p) => {
            if is_playing {
                let rest = duration_ms - p;
                let scaled = if rest > HALVING_THRESHOLD_MS { rest / 2 } else { rest };
                scaled + FETCH_OFFSET_MS
            } else {
                DEFAULT_DATA_INTERVAL_MS as int
            }
        },
        None => DEFAULT_DATA_INTERVAL_MS as int,
    }
}

/// Schedules the next playback poll from the last playback snapshot.
pub fn next_poll_delay_ms(is_playing: bool, progress_ms: Option<u64>, duration_ms: u64) -> (d: u64)
    requires
        duration_ms <= u64::MAX - FETCH_OFFSET_MS,
        progress_ms matches Some(p) ==> p <= duration_ms,
    ensures
        d as int == spec_next_poll_delay_ms(is_playing, progress_ms, duration_ms),
{
    match progress_ms {
        Some(p) => {
            if is_playing {
                let mut rest = duration_ms - p;
                if rest > HALVING_THRESHOLD_MS {
                    rest = rest / 2;
                }
                rest + FETCH_OFFSET_MS
            } else {
                DEFAULT_DATA_INTERVAL_MS
            }
        },
        None => DEFAULT_DATA_INTERVAL_MS,
    }
}

} // verus!
