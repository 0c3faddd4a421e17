//! The retry policy of one request: which answers end it, which are tried
//! again, and how long to wait in between.

use vstd::prelude::*;

verus! {

/// The wait before the second attempt, in seconds.
pub const BASE_DELAY_SECS: u64 = 2;

/// The longest wait of the doubling schedule, in seconds.
pub const MAX_DELAY_SECS: u64 = 60;

/// The wait after the source asked for fewer requests, in seconds.
pub const RATE_LIMIT_WAIT_SECS: u64 = 5;

/// What a status code means to the policy.
#[derive(Clone, Copy, Debug, PartialEq, Eq, Structural)]
pub enum StatusClass {
    /// 2xx: the body is the answer.
    Success,
    /// 429: try again after the fixed wait.
    RateLimited,
    /// 5xx: try again on the doubling schedule.
    ServerError,
    /// Anything else: the request has failed for good.
    Fatal,
}

/// How one attempt ended.
#[derive(Clone, Debug, PartialEq, Eq)]
pub enum Attempt {
    /// The source answered with this status code.
    Status(u16),
    /// No answer came: connection, timeout or transport failure, described.
    Network(String),
}

/// Why a request failed for good.
#[derive(Clone, Debug, PartialEq, Eq)]
pub enum FetchError {
    /// Still rate limited at the last attempt of the budget.
    RateLimited { attempts: usize },
    /// Still a server error at the last attempt of the budget.
    ServerError { status: u16, attempts: usize },
    /// A status that is never tried again.
    Http { status: u16 },
    /// Still no answer at the last attempt of the budget; the last failure's
    /// description is kept.
    Network { attempts: usize, description: String },
}

/// What to do after an attempt.
#[derive(Clone, Debug, PartialEq, Eq)]
pub enum Verdict {
    /// The answer's body is the result.
    Deliver,
    /// Wait this long, then try again.
    Retry { wait_secs: u64 },
    /// Give up.
    Fail(FetchError),
}

/// Where a request stands: the number of the attempt under way, counted from
/// one, and the current wait of the doubling schedule.
#[derive(Clone, Copy, Debug, PartialEq, Eq, Structural)]
pub struct RetryState {
    pub attempt: usize,
    pub delay_secs: u64,
}

pub open spec fn spec_classify(status: u16) -> StatusClass {
    if 200 <= status <= 299 {
        StatusClass::Success
    } else if status == 429 {
        StatusClass::RateLimited
    } else if 500 <= status <= 599 {
        StatusClass::ServerError
    } else {
        StatusClass::Fatal
    }
}

/// Twice the wait, but never more than the cap.
pub open spec fn next_delay(delay_secs: u64) -> u64 {
    if 2 * delay_secs >= MAX_DELAY_SECS {
        MAX_DELAY_SECS
    } else {
        (2 * delay_secs) as u64
    }
}

/// The state of a request before its first attempt.
pub open spec fn initial_state() -> RetryState {
    RetryState { attempt: 1, delay_secs: BASE_DELAY_SECS }
}

/// The state after one more failed attempt that is tried again.
pub open spec fn advanced(state: RetryState) -> RetryState {
    RetryState { attempt: (state.attempt + 1) as usize, delay_secs: next_delay(state.delay_secs) }
}

/// The policy: what follows from `attempt`, made in `state`, under a budget
/// of `max_retries` attempts.
pub open spec fn spec_decide(state: RetryState, max_retries: usize, attempt: Attempt) -> Verdict {
    let spent = state.attempt >= max_retries;
    match attempt {
        Attempt::Status(status) => match spec_classify(status) {
            StatusClass::Success => Verdict::Deliver,
            StatusClass::RateLimited => if spent {
                Verdict::Fail(FetchError::RateLimited { attempts: max_retries })
            } else {
                Verdict::Retry { wait_secs: RATE_LIMIT_WAIT_SECS }
            },
            StatusClass::ServerError => if spent {
                Verdict::Fail(FetchError::ServerError { status, attempts: max_retries })
            } else {
                Verdict::Retry { wait_secs: state.delay_secs }
            },
            StatusClass::Fatal => Verdict::Fail(FetchError::Http { status }),
        },
        Attempt::Network(description) => if spent {
            Verdict::Fail(FetchError::Network { attempts: max_retries, description })
        } else {
            Verdict::Retry { wait_secs: state.delay_secs }
        },
    }
}

/// The verdict that ends a request whose attempts end as `attempts` say, one
/// after the other, from `state` on; `None` while every one of them is tried
/// again.
pub open spec fn settle(state: RetryState, max_retries: usize, attempts: Seq<Attempt>) -> Option<
    Verdict,
>
    decreases attempts.len(),
{
    if attempts.len() == 0 {
        None
    } else {
        let verdict = spec_decide(state, max_retries, attempts[0]);
        if verdict is Retry {
            settle(advanced(state), max_retries, attempts.drop_first())
        } else {
            Some(verdict)
        }
    }
}

/// Sorts a status code into its class.
pub fn classify(status: u16) -> (class: StatusClass)
    ensures
        class == spec_classify(status),
{
    if 200 <= status && status <= 299 {
        StatusClass::Success
    } else if status == 429 {
        StatusClass::RateLimited
    } else if 500 <= status && status <= 599 {
        StatusClass::ServerError
    } else {
        StatusClass::Fatal
    }
}

impl RetryState {
    /// The state of a request before its first attempt.
    pub fn new() -> (state: RetryState)
        ensures
            state == initial_state(),
    {
        RetryState { attempt: 1, delay_secs: BASE_DELAY_SECS }
    }

    /// Judges the attempt that just ended. Where the verdict is to try again,
    /// the state moves on to the next attempt and the next wait of the
    /// schedule; any other verdict leaves it as it was.
    pub fn decide(&mut self, max_retries: usize, attempt: &Attempt) -> (verdict: Verdict)
        ensures
            verdict == spec_decide(*old(self), max_retries, *attempt),
            *final(self) == (if verdict is Retry {
                advanced(*old(self))
            } else {
                *old(self)
            }),
    {
        let spent = self.attempt >= max_retries;
        let verdict = match attempt {
            Attempt::Status(status) => match classify(*status) {
                StatusClass::Success => Verdict::Deliver,
                StatusClass::RateLimited => if spent {
                    Verdict::Fail(FetchError::RateLimited { attempts: max_retries })
                } else {
                    Verdict::Retry { wait_secs: RATE_LIMIT_WAIT_SECS }
                },
                StatusClass::ServerError => if spent {
                    Verdict::Fail(FetchError::ServerError { status: *status, attempts: max_retries })
                } else {
                    Verdict::Retry { wait_secs: self.delay_secs }
                },
                StatusClass::Fatal => Verdict::Fail(FetchError::Http { status: *status }),
            },
            Attempt::Network(description) => if spent {
                Verdict::Fail(
                    FetchError::Network { attempts: max_retries, description: description.clone() },
                )
            } else {
                Verdict::Retry { wait_secs: self.delay_secs }
            },
        };
        if !spent {
            match verdict {
                Verdict::Retry { .. } => {
                    self.attempt = self.attempt + 1;
                    self.delay_secs = if self.delay_secs >= MAX_DELAY_SECS / 2 {
                        MAX_DELAY_SECS
                    } else {
                        self.delay_secs * 2
                    };
                },
                _ => {},
            }
        }
        verdict
    }
}

/// A source that is rate limited once and then answers: the policy waits the
/// fixed rate-limit wait, not a wait of the doubling schedule, and delivers
/// at the second attempt, inside any budget of two attempts or more.
pub proof fn lemma_rate_limit_then_success(max_retries: usize, status: u16)
    requires
        max_retries >= 2,
        200 <= status <= 299,
    ensures
        spec_decide(initial_state(), max_retries, Attempt::Status(429)) == (Verdict::Retry {
            wait_secs: RATE_LIMIT_WAIT_SECS,
        }),
        advanced(initial_state()).attempt == 2,
        advanced(initial_state()).attempt <= max_retries,
        spec_decide(advanced(initial_state()), max_retries, Attempt::Status(status))
            == Verdict::Deliver,
        settle(initial_state(), max_retries, seq![Attempt::Status(429), Attempt::Status(status)])
            == Some(Verdict::Deliver),
{
    let attempts = seq![Attempt::Status(429), Attempt::Status(status)];
    assert(attempts.drop_first() =~= seq![Attempt::Status(status)]);
    assert(attempts[0] == Attempt::Status(429));
    assert(attempts.drop_first()[0] == Attempt::Status(status));
    reveal_with_fuel(settle, 3);
}

/// Whether every attempt of `attempts` ended in a server error.
pub open spec fn all_server_errors(attempts: Seq<Attempt>) -> bool {
    forall|i: int|
        0 <= i < attempts.len() ==> (#[trigger] attempts[i]) is Status && spec_classify(
            attempts[i]->Status_0,
        ) == StatusClass::ServerError
}

/// A source that answers every attempt with a server error: the request is
/// tried again until the budget is spent, and fails at the attempt that
/// spends it, with the status of that attempt.
pub proof fn lemma_server_errors_exhaust_budget(
    state: RetryState,
    max_retries: usize,
    attempts: Seq<Attempt>,
)
    requires
        1 <= state.attempt <= max_retries,
        attempts.len() == max_retries - state.attempt + 1,
        all_server_errors(attempts),
    ensures
        settle(state, max_retries, attempts) == Some(
            Verdict::Fail(
                FetchError::ServerError {
                    status: attempts.last()->Status_0,
                    attempts: max_retries,
                },
            ),
        ),
        forall|k: int|
            0 < k < attempts.len() ==> settle(state, max_retries, attempts.subrange(0, k)).is_none(),
    decreases attempts.len(),
{
    assert(attempts[0] is Status);
    if state.attempt < max_retries {
        let rest = attempts.drop_first();
        assert(all_server_errors(rest)) by {
            assert forall|i: int| 0 <= i < rest.len() implies (#[trigger] rest[i]) is Status
                && spec_classify(rest[i]->Status_0) == StatusClass::ServerError by {
                assert(rest[i] == attempts[i + 1]);
            }
        }
        lemma_server_errors_exhaust_budget(advanced(state), max_retries, rest);
        assert(rest.last() == attempts.last());
        assert forall|k: int| 0 < k < attempts.len() implies settle(
            state,
            max_retries,
            attempts.subrange(0, k),
        ).is_none() by {
            let head = attempts.subrange(0, k);
            assert(head[0] == attempts[0]);
            assert(head.drop_first() =~= rest.subrange(0, k - 1));
            if k - 1 == 0 {
                assert(head.drop_first().len() == 0);
            }
        }
    }
}

} // verus!
