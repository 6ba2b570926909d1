//! When a git invocation is run again.
//!
//! A crash of git itself is retried a few times, with a jittered delay; every
//! other exit is final.

use vstd::prelude::*;

verus! {

/// How a process ended.
#[derive(Debug, Clone, Copy, PartialEq, Eq, Structural)]
pub struct ExitInfo {
    /// Whether it exited with code zero.
    pub success: bool,
    /// The exit code, unless a signal ended it.
    pub code: Option<i32>,
    /// The signal that ended it, where there was one.
    pub signal: Option<i32>,
}

impl ExitInfo {
    /// SIGSEGV or SIGBUS, or the 139 or 135 that a shell turns them into.
    pub open spec fn is_segfault(self) -> bool {
        ||| self.signal == Some(11i32)
        ||| self.signal == Some(7i32)
        ||| self.code == Some(139i32)
        ||| self.code == Some(135i32)
    }

    /// The exit code, or -1 where there is none.
    pub open spec fn code_or_minus_one(self) -> int {
        match self.code {
            Some(c) => c as int,
            None => -1,
        }
    }

    pub fn exit_code(&self) -> (r: i64)
        ensures
            r == self.code_or_minus_one(),
    {
        match self.code {
            Some(c) => c as i64,
            None => -1,
        }
    }
}

/// Whether a status looks like a crash of git: SIGSEGV or SIGBUS, or the code
/// that a shell wrapper turns them into.
pub fn is_segfault_status(status: ExitInfo) -> (r: bool)
    ensures
        r == status.is_segfault(),
{
    let by_signal = match status.signal {
        Some(s) => s == 11 || s == 7,
        None => false,
    };
    let by_code = match status.code {
        Some(c) => c == 139 || c == 135,
        None => false,
    };
    by_signal || by_code
}

/// The base delay, in milliseconds, before the retry that follows an attempt,
/// counted from zero. After the last attempt there is none.
pub open spec fn backoff_of(attempt: int) -> Option<u64> {
    if attempt == 0 {
        Some(100)
    } else if attempt == 1 {
        Some(400)
    } else if attempt == 2 {
        Some(1600)
    } else {
        None
    }
}

pub fn segfault_backoff_ms(attempt: usize) -> (r: Option<u64>)
    ensures
        r == backoff_of(attempt as int),
{
    if attempt == 0 {
        Some(100)
    } else if attempt == 1 {
        Some(400)
    } else if attempt == 2 {
        Some(1600)
    } else {
        None
    }
}

/// The width of the jitter: half the base.
pub open spec fn jitter_span(base_ms: int) -> int {
    base_ms / 2
}

/// The least delay: the base less half the jitter.
pub open spec fn jitter_low(base_ms: int) -> int {
    base_ms - jitter_span(base_ms) / 2
}

pub open spec fn at_least_one(n: int) -> int {
    if n < 1 {
        1
    } else {
        n
    }
}

/// The delay, in milliseconds, before a retry: the base, with a jitter taken
/// from the nanoseconds of the clock.
pub fn segfault_retry_delay(base_ms: u64, subsec_nanos: u64) -> (r: u64)
    requires
        jitter_low(base_ms as int) + at_least_one(jitter_span(base_ms as int)) - 1 <= u64::MAX,
    ensures
        r == jitter_low(base_ms as int) + (subsec_nanos as int) % at_least_one(
            jitter_span(base_ms as int),
        ),
        jitter_low(base_ms as int) <= r < jitter_low(base_ms as int) + at_least_one(
            jitter_span(base_ms as int),
        ),
{
    let span: u64 = base_ms / 2;
    let low: u64 = base_ms - span / 2;
    let modulus: u64 = if span < 1 {
        1
    } else {
        span
    };
    let offset: u64 = subsec_nanos % modulus;
    low + offset
}

/// What to do after an attempt to run git.
#[derive(Debug, Clone, Copy, PartialEq, Eq, Structural)]
pub enum AfterAttempt {
    /// Take the output as it is.
    Accept,
    /// Wait, by the jittered delay of this base, and run it again.
    RetryAfter { base_ms: u64 },
}

pub open spec fn next_after(attempt: int, crashed: bool) -> AfterAttempt {
    match backoff_of(attempt) {
        Some(base_ms) if crashed => AfterAttempt::RetryAfter { base_ms },
        _ => AfterAttempt::Accept,
    }
}

/// Decides after an attempt, counted from zero, that ended with `status`. Only
/// a crash is retried, and the last output is taken whatever it is.
pub fn guard_run_git_with_retry(attempt: usize, status: ExitInfo) -> (r: AfterAttempt)
    ensures
        r == next_after(attempt as int, status.is_segfault()),
{
    match segfault_backoff_ms(attempt) {
        Some(base_ms) => if is_segfault_status(status) {
            AfterAttempt::RetryAfter { base_ms }
        } else {
            AfterAttempt::Accept
        },
        None => AfterAttempt::Accept,
    }
}

/// Where a deadline-bound run of git stands.
pub enum UntilStep {
    /// Start the command.
    Start,
    /// The deadline passed: there is no output.
    OutOfTime,
    /// Hand the output on.
    Accept,
    /// Wait, by the jittered delay of this base, and start again.
    RetryAfter { base_ms: u64 },
}

/// Before an attempt: the deadline decides.
pub fn run_git_until_start(past_deadline: bool) -> (r: UntilStep)
    ensures
        past_deadline ==> r is OutOfTime,
        !past_deadline ==> r is Start,
{
    if past_deadline {
        UntilStep::OutOfTime
    } else {
        UntilStep::Start
    }
}

/// After an attempt: `None` stands for a command that was killed at the
/// deadline. A crash is retried while attempts are left.
pub fn run_git_until(attempt: usize, status: Option<ExitInfo>) -> (r: UntilStep)
    ensures
        status is None ==> r is OutOfTime,
        status matches Some(s) ==> (match next_after(attempt as int, s.is_segfault()) {
            AfterAttempt::Accept => r is Accept,
            AfterAttempt::RetryAfter { base_ms } => r matches UntilStep::RetryAfter { base_ms: b }
                && b == base_ms,
        }),
{
    match status {
        None => UntilStep::OutOfTime,
        Some(s) => match guard_run_git_with_retry(attempt, s) {
            AfterAttempt::Accept => UntilStep::Accept,
            AfterAttempt::RetryAfter { base_ms } => UntilStep::RetryAfter { base_ms },
        },
    }
}

/// Retrying ends: whatever the exits, the fourth attempt is taken, and a run
/// that did not crash is taken at once.
pub proof fn law_retries_end(attempt: int, crashed: bool)
    ensures
        attempt >= 3 ==> next_after(attempt, crashed) is Accept,
        !crashed ==> next_after(attempt, crashed) is Accept,
        0 <= attempt < 3 && crashed ==> next_after(attempt, crashed) is RetryAfter,
{
}

/// The delay of every retry lies within a quarter of its base.
pub proof fn law_delay_is_near_the_base(base_ms: int, delay: int)
    requires
        base_ms >= 0,
        jitter_low(base_ms) <= delay < jitter_low(base_ms) + at_least_one(jitter_span(base_ms)),
    ensures
        3 * base_ms <= 4 * delay <= 5 * base_ms,
{
}

/// Only a crash of git is retried: a segmentation fault or a bus error, by its
/// signal or by the code that a shell makes of it. The waits before the three
/// retries grow fourfold, from a tenth of a second.
pub proof fn law_only_crashes_are_retried(
    attempt: usize,
    status: ExitInfo,
    crashed: bool,
    r: AfterAttempt,
)
    requires
        call_ensures(is_segfault_status, (status,), crashed),
        call_ensures(guard_run_git_with_retry, (attempt, status), r),
    ensures
        crashed <==> status.signal == Some(11i32) || status.signal == Some(7i32) || status.code
            == Some(139i32) || status.code == Some(135i32),
        r is RetryAfter <==> crashed && attempt < 3,
        crashed && attempt == 0 ==> r == (AfterAttempt::RetryAfter { base_ms: 100 }),
        crashed && attempt == 1 ==> r == (AfterAttempt::RetryAfter { base_ms: 400 }),
        crashed && attempt == 2 ==> r == (AfterAttempt::RetryAfter { base_ms: 1600 }),
{
}

/// With a deadline the same runs are retried, after the same waits, and none
/// that the deadline ended; past the deadline nothing is started.
pub proof fn law_the_deadline_comes_first(
    attempt: usize,
    status: ExitInfo,
    after: AfterAttempt,
    ended: UntilStep,
    killed: UntilStep,
    late: UntilStep,
    early: UntilStep,
)
    requires
        call_ensures(guard_run_git_with_retry, (attempt, status), after),
        call_ensures(run_git_until, (attempt, Some(status)), ended),
        call_ensures(run_git_until, (attempt, None), killed),
        call_ensures(run_git_until_start, (true,), late),
        call_ensures(run_git_until_start, (false,), early),
    ensures
        killed is OutOfTime,
        late is OutOfTime,
        early is Start,
        after is Accept <==> ended is Accept,
        after matches AfterAttempt::RetryAfter { base_ms } ==> (ended matches
            UntilStep::RetryAfter { base_ms: b } && b == base_ms),
{
}

/// The wait before a retry is the base, give or take a quarter, and the clock
/// picks it: each nanosecond more makes it a millisecond longer, until it
/// starts over.
pub proof fn law_the_clock_picks_the_wait(base_ms: u64, nanos: u64, now: u64, next: u64)
    requires
        4 <= base_ms <= 0x1000_0000_0000_0000,
        nanos < u64::MAX,
        call_ensures(segfault_retry_delay, (base_ms, nanos), now),
        call_ensures(segfault_retry_delay, (base_ms, (nanos + 1) as u64), next),
    ensures
        3 * base_ms <= 4 * now <= 5 * base_ms,
        next == now + 1 || next == base_ms - base_ms / 2 / 2,
        (nanos + 1) % (base_ms as int / 2) != 0 ==> next == now + 1,
{
    let span = base_ms as int / 2;
    let a = nanos as int % span;
    let b = (nanos + 1) % span;
    assert(b == (if a + 1 == span {
        0
    } else {
        a + 1
    })) by {
        vstd::arithmetic::div_mod::lemma_fundamental_div_mod(nanos as int, span);
        let q = nanos as int / span;
        if a + 1 == span {
            assert(nanos + 1 == (q + 1) * span) by (nonlinear_arith)
                requires
                    nanos as int == span * q + a,
                    a + 1 == span,
            ;
            vstd::arithmetic::div_mod::lemma_fundamental_div_mod_converse(
                nanos + 1,
                span,
                q + 1,
                0,
            );
        } else {
            assert(nanos + 1 == q * span + (a + 1)) by (nonlinear_arith)
                requires
                    nanos as int == span * q + a,
            ;
            vstd::arithmetic::div_mod::lemma_fundamental_div_mod_converse(
                nanos + 1,
                span,
                q,
                a + 1,
            );
        }
    }
}

/// The code of a process that a signal ended is given as -1.
pub proof fn law_a_missing_code_is_minus_one(status: ExitInfo, r: i64)
    requires
        call_ensures(ExitInfo::exit_code, (&status,), r),
    ensures
        status.code is Some ==> r == status.code->0,
        status.code is None ==> r == -1,
{
}

/// The waits grow fourfold, from a tenth of a second, and there are three.
pub proof fn law_waits_grow_fourfold(attempt: usize, wait: Option<u64>, next: Option<u64>)
    requires
        attempt < usize::MAX,
        call_ensures(segfault_backoff_ms, (attempt,), wait),
        call_ensures(segfault_backoff_ms, ((attempt + 1) as usize,), next),
    ensures
        wait is Some <==> attempt < 3,
        attempt == 0 ==> wait == Some(100u64),
        wait is Some && next is Some ==> next->0 == 4 * wait->0,
{
}

} // verus!
