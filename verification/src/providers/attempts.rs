//! How often a request is sent, and how long it waits before it is sent again.

use vstd::arithmetic::power2::{lemma_pow2_unfold, pow2};
use vstd::prelude::*;
use vstd::string::*;

use crate::providers::anthropic;
use crate::providers::anthropic::{AdapterView, NextView, Outcome};
use crate::providers::config::RetryConfig;
use crate::providers::error::ProviderErrorView;
use crate::text;

verus! {

/// An attempt that came to nothing, but may do better another time: it got no
/// response, or one that says that the upstream is busy or broken.
pub open spec fn worth_another_try(outcome: Outcome) -> bool {
    match outcome {
        Outcome::NoResponse { .. } => true,
        Outcome::Response { status, .. } => status == 429 || status == 500 || status == 502
            || status == 503 || status == 529,
    }
}

/// While retries are left, a request that got no response, timed out or not,
/// is sent again, with nothing known of how long to wait; the cause says which
/// provider failed it, and how.
pub proof fn law_no_response_is_retried(
    a: AdapterView,
    attempt: u32,
    timed_out: bool,
    message: Seq<char>,
)
    ensures
        attempt < a.retry.max_retries ==> (anthropic::next_after(
            a,
            attempt,
            Outcome::NoResponse { timed_out, message },
        ) matches NextView::Retry { attempt: again, retry_after, cause } && again == attempt + 1
            && retry_after is None && no_response(a, timed_out, cause)),
        attempt >= a.retry.max_retries ==> (anthropic::next_after(
            a,
            attempt,
            Outcome::NoResponse { timed_out, message },
        ) matches NextView::Fail(cause) && no_response(a, timed_out, cause)),
{
}

/// The error of an attempt that got no response: a timeout with the time that
/// was waited, or else a failure of the transport.
pub open spec fn no_response(a: AdapterView, timed_out: bool, cause: ProviderErrorView) -> bool {
    match cause {
        ProviderErrorView::Timeout { provider, timeout_ms } => timed_out && provider
            == a.provider_id && timeout_ms == a.read_timeout_ms,
        ProviderErrorView::Transport { provider, .. } => !timed_out && provider == a.provider_id,
        _ => false,
    }
}

/// While retries are left, a request that was answered with one of the
/// statuses of a busy or broken upstream is sent again; without retries, the
/// answer is the error.
pub proof fn law_busy_upstream_is_retried(a: AdapterView, attempt: u32, outcome: Outcome)
    requires
        outcome is Response,
        worth_another_try(outcome),
    ensures
        attempt < a.retry.max_retries ==> (anthropic::next_after(
            a,
            attempt,
            outcome,
        ) matches NextView::Retry { attempt: again, cause, .. } && again == attempt + 1
            && answered(a, outcome->status, cause)),
        attempt >= a.retry.max_retries ==> (anthropic::next_after(
            a,
            attempt,
            outcome,
        ) matches NextView::Fail(cause) && answered(a, outcome->status, cause)),
{
}

/// The error of a response: it keeps the response's status and names the
/// provider.
pub open spec fn answered(a: AdapterView, status: u16, cause: ProviderErrorView) -> bool {
    cause matches ProviderErrorView::Upstream { status: kept, provider_id, .. } && kept == status
        && provider_id == Some(a.provider_id)
}

/// A response with any other status that is no success is the error at once,
/// however many retries are left.
pub proof fn law_refusal_is_final(a: AdapterView, attempt: u32, outcome: Outcome)
    requires
        outcome is Response,
        outcome->status < 200 || outcome->status > 299,
        !worth_another_try(outcome),
    ensures
        anthropic::next_after(a, attempt, outcome) matches NextView::Fail(cause) && answered(
            a,
            outcome->status,
            cause,
        ),
{
}

/// A response is taken exactly where its status is one of 200 to 299.
pub proof fn law_success_is_taken(a: AdapterView, attempt: u32, outcome: Outcome)
    ensures
        anthropic::next_after(a, attempt, outcome) is Accept <==> (outcome matches Outcome::Response {
            status,
            ..
        } && 200 <= status <= 299),
{
}

/// Where every attempt is worth another, a request is sent until the retries
/// are used up: once more than there are retries left, and no fewer.
pub proof fn law_every_retry_is_used(a: AdapterView, attempt: u32, outcomes: Seq<Outcome>)
    requires
        attempt <= a.retry.max_retries,
        forall|i: int| 0 <= i < outcomes.len() ==> worth_another_try(#[trigger] outcomes[i]),
    ensures
        outcomes.len() > a.retry.max_retries - attempt ==> anthropic::sends(a, attempt, outcomes)
            == a.retry.max_retries - attempt + 1,
        outcomes.len() <= a.retry.max_retries - attempt ==> anthropic::sends(a, attempt, outcomes)
            == outcomes.len(),
    decreases outcomes.len(),
{
    if outcomes.len() > 0 {
        let first = outcomes.first();
        assert(worth_another_try(outcomes[0]));
        match first {
            Outcome::NoResponse { timed_out, message } => {
                law_no_response_is_retried(a, attempt, timed_out, message);
            },
            Outcome::Response { .. } => {
                law_busy_upstream_is_retried(a, attempt, first);
            },
        }
        if attempt < a.retry.max_retries {
            let rest = outcomes.drop_first();
            assert forall|i: int| 0 <= i < rest.len() implies worth_another_try(
                #[trigger] rest[i],
            ) by {
                assert(rest[i] == outcomes[i + 1]);
            }
            law_every_retry_is_used(a, (attempt + 1) as u32, rest);
        }
    }
}

/// A `Retry-After` is waited out to the second, but never for more than ten.
pub proof fn law_retry_after_is_waited_out(
    retry: RetryConfig,
    attempt: u32,
    secs: u64,
    nanos: u32,
)
    ensures
        secs <= 10 ==> anthropic::retry_delay(retry, attempt, Some(secs), nanos) == 1000 * secs,
        secs > 10 ==> anthropic::retry_delay(retry, attempt, Some(secs), nanos) == 10_000,
{
}

/// The wait before a retry without a `Retry-After`, free of jitter.
pub open spec fn plain_wait(retry: RetryConfig, attempt: u32) -> int {
    anthropic::retry_delay(retry, attempt, None, 0)
}

/// The first wait is the base delay and each further one is twice the one
/// before, but none is longer than the longest delay.
pub proof fn law_waits_double(retry: RetryConfig, attempt: u32)
    requires
        retry.max_delay_ms <= i64::MAX,
    ensures
        retry.base_delay_ms <= retry.max_delay_ms ==> plain_wait(retry, 0) == retry.base_delay_ms,
        retry.base_delay_ms > retry.max_delay_ms ==> plain_wait(retry, 0) == retry.max_delay_ms,
        attempt < 20 && 2 * plain_wait(retry, attempt) <= retry.max_delay_ms ==> plain_wait(
            retry,
            (attempt + 1) as u32,
        ) == 2 * plain_wait(retry, attempt),
        attempt < 20 && 2 * plain_wait(retry, attempt) > retry.max_delay_ms ==> plain_wait(
            retry,
            (attempt + 1) as u32,
        ) == retry.max_delay_ms,
        attempt >= 20 ==> plain_wait(retry, attempt) == plain_wait(retry, 20),
{
    vstd::arithmetic::power2::lemma2_to64();
    lemma_no_jitter(retry, attempt);
    lemma_no_jitter(retry, 0);
    lemma_no_jitter(retry, 20);
    assert(retry.base_delay_ms * pow2(0) == retry.base_delay_ms) by (nonlinear_arith)
        requires
            pow2(0) == 1,
    ;
    if attempt < 20 {
        lemma_no_jitter(retry, (attempt + 1) as u32);
        lemma_pow2_unfold((attempt + 1) as nat);
        let b = retry.base_delay_ms as int;
        let p = pow2(attempt as nat) as int;
        let q = pow2((attempt + 1) as nat) as int;
        assert(b * q == 2 * (b * p)) by (nonlinear_arith)
            requires
                q == 2 * p,
        ;
    }
}

proof fn lemma_no_jitter(retry: RetryConfig, attempt: u32)
    requires
        retry.max_delay_ms <= i64::MAX,
    ensures
        plain_wait(retry, attempt) == anthropic::backoff(retry, attempt),
        anthropic::backoff(retry, attempt) >= 0,
{
    let exponent = if attempt < 20 {
        attempt as nat
    } else {
        20
    };
    let b = retry.base_delay_ms as int;
    let p = pow2(exponent) as int;
    assert(b * p >= 0) by (nonlinear_arith)
        requires
            b >= 0,
            p >= 0,
    ;
    let range = anthropic::backoff(retry, attempt) / 4;
    if range > 0 {
        assert(0int % (range * 2) == 0) by (nonlinear_arith)
            requires
                range > 0,
        ;
    }
}

/// Jitter makes a wait longer by less than a quarter, never shorter, and every
/// such addition can come about.
pub proof fn law_jitter_spreads_waits(retry: RetryConfig, attempt: u32, nanos: u32, more: int)
    requires
        retry.max_delay_ms <= i64::MAX,
    ensures
        plain_wait(retry, attempt) <= anthropic::retry_delay(retry, attempt, None, nanos),
        4 * (anthropic::retry_delay(retry, attempt, None, nanos) - plain_wait(retry, attempt))
            <= plain_wait(retry, attempt),
        0 <= more < plain_wait(retry, attempt) / 4 && nanos == plain_wait(retry, attempt) / 4
            + more ==> anthropic::retry_delay(retry, attempt, None, nanos) == plain_wait(
            retry,
            attempt,
        ) + more,
{
    lemma_no_jitter(retry, attempt);
    let delay = anthropic::backoff(retry, attempt);
    let range = delay / 4;
    if range > 0 {
        let n = nanos as int;
        assert(0 <= n % (range * 2) < range * 2) by (nonlinear_arith)
            requires
                range > 0,
        ;
        if n < range * 2 {
            assert(n % (range * 2) == n) by (nonlinear_arith)
                requires
                    0 <= n < range * 2,
            ;
        }
    }
}

/// A response with a `Retry-After` is waited out as it asks, and one without
/// is not, unless the message of its error begins with a mark of its own.
pub proof fn law_retry_after_reaches_the_wait(a: AdapterView, attempt: u32, outcome: Outcome)
    requires
        outcome is Response,
        worth_another_try(outcome),
        attempt < a.retry.max_retries,
        outcome->retry_after is None ==> !"[retry-after:"@.is_prefix_of(
            anthropic::response_failure(
                a,
                outcome->status,
                outcome->parsed,
                outcome->raw_text,
            )->Upstream_message,
        ),
    ensures
        anthropic::next_after(a, attempt, outcome) matches NextView::Retry { retry_after, .. }
            && retry_after == outcome->retry_after,
{
    let e = anthropic::response_failure(a, outcome->status, outcome->parsed, outcome->raw_text);
    if let Some(secs) = outcome->retry_after {
        anthropic::law_stash_is_readable(e, secs);
    }
}

/// The error that ends a request is the one that the last response was read
/// as, whether or not it asked for a wait.
pub proof fn law_the_last_error_is_told(a: AdapterView, attempt: u32, outcome: Outcome)
    requires
        outcome is Response,
        ({
            let message = anthropic::response_failure(
                a,
                outcome->status,
                outcome->parsed,
                outcome->raw_text,
            )->Upstream_message;
            &&& message.len() > 0 ==> !text::whitespace(message[0])
            &&& !"[retry-after:"@.is_prefix_of(message)
        }),
    ensures
        anthropic::next_after(a, attempt, outcome) matches NextView::Fail(e) ==> e
            == anthropic::response_failure(
            a,
            outcome->status,
            outcome->parsed,
            outcome->raw_text,
        ),
{
    let e = anthropic::response_failure(a, outcome->status, outcome->parsed, outcome->raw_text);
    if let Some(secs) = outcome->retry_after {
        anthropic::law_strip_undoes_stash(e, secs);
    }
}

/// What may do better another time: a request that got no response, and one
/// whose upstream was busy or broken.
pub proof fn law_what_is_retryable(e: ProviderErrorView)
    ensures
        anthropic::retryable(e) <==> (match e {
            ProviderErrorView::Transport { .. } => true,
            ProviderErrorView::Timeout { .. } => true,
            ProviderErrorView::Upstream { status, .. } => status == 429 || status == 500 || status
                == 502 || status == 503 || status == 529,
            _ => false,
        }),
{
}

} // verus!
