//! How requests are sent upstream: when they are sent again, and what becomes of the
//! answers.

use crate::error::{is_status, upstream_message, Failure, ProxyError};
use crate::json::{copy_object, copy_value, Json, JsonValue};
use crate::text::{contains, has_part, law_parts_have_surroundings};
use vstd::arithmetic::power2::pow2;
use vstd::prelude::*;
use vstd::string::*;

verus! {

/// Whether an HTTP status is a success.
pub open spec fn is_success(status: u16) -> bool {
    200 <= status < 300
}

/// Whether an HTTP status is a success.
pub fn is_success_status(status: u16) -> (b: bool)
    ensures
        b == is_success(status),
{
    200 <= status && status < 300
}

/// What is to be done with an answer.
#[derive(Debug)]
pub enum SendStep {
    /// The answer is passed on.
    Accept,
    /// The request is sent again after a pause; its attempts are counted from zero.
    Retry { attempt: u32, delay_ms: u128 },
    /// The request has failed.
    Fail(ProxyError),
}

/// Whether a request is sent again after an answer: the upstream asks for patience, and
/// there are attempts left.
pub open spec fn is_retried(status: u16, attempt: u32, max_retries: u32) -> bool {
    status == 429 && attempt < max_retries
}

/// The pause before the attempt with the given number, in milliseconds. It doubles from
/// one attempt to the next.
pub open spec fn retry_delay(base_ms: u64, attempt: u32) -> nat
    recommends
        attempt >= 1,
{
    (base_ms * pow2((attempt - 1) as nat)) as nat
}

fn power_of_two(n: u32) -> (p: u128)
    requires
        n <= 31,
    ensures
        p == pow2(n as nat),
        p <= 0x8000_0000,
{
    let mut p: u128 = 1;
    let mut i: u32 = 0;
    proof {
        vstd::arithmetic::power2::lemma2_to64();
    }
    while i < n
        invariant
            i <= n <= 31,
            p == pow2(i as nat),
            p * pow2((n - i) as nat) == pow2(n as nat),
            pow2(n as nat) <= 0x8000_0000,
            p <= 0x8000_0000,
        decreases n - i,
    {
        proof {
            vstd::arithmetic::power2::lemma_pow2_unfold((i + 1) as nat);
            vstd::arithmetic::power2::lemma_pow2_unfold((n - i) as nat);
            vstd::arithmetic::power2::lemma_pow2_pos((n - i - 1) as nat);
            let rest = pow2((n - i - 1) as nat);
            assert(p * (2 * rest) == (2 * p) * rest) by (nonlinear_arith);
            assert(2 * p <= (2 * p) * rest) by (nonlinear_arith)
                requires
                    rest >= 1,
                    p >= 0,
            ;
        }
        p = 2 * p;
        i += 1;
    }
    p
}

/// The pause before the attempt with the given number, in milliseconds.
pub fn retry_delay_ms(base_ms: u64, attempt: u32) -> (ms: u128)
    requires
        1 <= attempt <= 32,
    ensures
        ms == retry_delay(base_ms, attempt),
{
    let p = power_of_two(attempt - 1);
    assert(base_ms * p <= u64::MAX * 0x8000_0000) by (nonlinear_arith)
        requires
            base_ms <= u64::MAX,
            p <= 0x8000_0000,
    ;
    (base_ms as u128) * p
}

/// Decides what is to be done with the answer to the given attempt.
pub fn after_reply(
    status: u16,
    body: String,
    attempt: u32,
    max_retries: u32,
    base_delay_ms: u64,
) -> (step: SendStep)
    requires
        is_status(status),
        is_retried(status, attempt, max_retries) ==> attempt < 32,
    ensures
        match step {
            SendStep::Retry { attempt: next, delay_ms } => is_retried(status, attempt, max_retries)
                && next == attempt + 1 && delay_ms == retry_delay(base_delay_ms, next),
            SendStep::Fail(e) => !is_retried(status, attempt, max_retries) && !is_success(status)
                && e@ == (Failure::Upstream { status, message: upstream_message(status, body@) }),
            SendStep::Accept => is_success(status),
        },
{
    if status == 429 && attempt < max_retries {
        let next = attempt + 1;
        SendStep::Retry { attempt: next, delay_ms: retry_delay_ms(base_delay_ms, next) }
    } else if !is_success_status(status) {
        SendStep::Fail(ProxyError::from_upstream_body(status, body))
    } else {
        SendStep::Accept
    }
}

/// However often the upstream asks for patience, a request is sent at most once more
/// than there are retries: the attempt that follows a retry is still within them.
pub proof fn law_retries_are_bounded(status: u16, attempt: u32, max_retries: u32)
    requires
        attempt <= max_retries,
        is_retried(status, attempt, max_retries),
    ensures
        attempt + 1 <= max_retries,
        !is_retried(status, max_retries, max_retries),
{
}

/// The pauses between attempts double.
pub proof fn law_pauses_double(base_ms: u64, attempt: u32)
    requires
        1 <= attempt < 32,
    ensures
        retry_delay(base_ms, (attempt + 1) as u32) == 2 * retry_delay(base_ms, attempt),
        retry_delay(base_ms, 1) == base_ms,
{
    vstd::arithmetic::power2::lemma_pow2_unfold(attempt as nat);
    vstd::arithmetic::power2::lemma2_to64();
    let p = pow2((attempt - 1) as nat);
    assert(base_ms * (2 * p) == 2 * (base_ms * p)) by (nonlinear_arith);
    assert(pow2(0) == 1);
    assert(base_ms * 1 == base_ms);
    assert(retry_delay(base_ms, 1) == base_ms * pow2(0));
}

/// Whether an error says that the upstream does not take the tool choice.
pub open spec fn rejects_tool_choice(error: Failure) -> bool {
    match error {
        Failure::Upstream { status, message } => status == 400 && (has_part(
            message,
            "tool_choice"@,
        ) || has_part(message, "tool choice"@)),
        _ => false,
    }
}

/// A request without its tool choice.
pub open spec fn without_tool_choice(payload: Json) -> Json {
    match payload {
        Json::Object(m) => Json::Object(m.remove("tool_choice"@)),
        _ => payload,
    }
}

/// The request to send in place of one that failed, where the upstream did not take its
/// tool choice: the same without it.
pub fn retry_without_tool_choice(payload: &JsonValue, error: &ProxyError) -> (retry: Option<
    JsonValue,
>)
    ensures
        retry.deep_view() == (if rejects_tool_choice(error@) {
            Some(without_tool_choice(payload@))
        } else {
            None
        }),
{
    match error {
        ProxyError::Upstream { status, message } => {
            if *status == 400 && (contains(message.as_str(), "tool_choice") || contains(
                message.as_str(),
                "tool choice",
            )) {
                match payload {
                    JsonValue::Object(o) => {
                        let mut rest = copy_object(o);
                        rest.unset("tool_choice");
                        Some(JsonValue::Object(rest))
                    },
                    _ => Some(copy_value(payload)),
                }
            } else {
                None
            }
        },
        _ => None,
    }
}

/// The request that is sent after a tool choice was rejected has none, and has all else
/// that the rejected one had.
pub proof fn law_retry_changes_the_tool_choice_alone(payload: Json, key: Seq<char>)
    ensures
        without_tool_choice(payload).get("tool_choice"@) is None,
        key != "tool_choice"@ ==> without_tool_choice(payload).get(key) == payload.get(key),
{
}

/// The error for a request that got no answer.
pub fn transport_error(timed_out: bool, message: String) -> (e: ProxyError)
    ensures
        e@ == (if timed_out {
            Failure::Timeout(message@)
        } else {
            Failure::Transport(message@)
        }),
{
    if timed_out {
        ProxyError::Timeout(message)
    } else {
        ProxyError::Transport(message)
    }
}

/// A request is sent again when the upstream is busy and attempts are left, and for no
/// other reason. The statuses from 200 to 299 are successes, and no others.
pub proof fn law_busy_upstreams_are_asked_again(status: u16, attempt: u32, max_retries: u32)
    ensures
        attempt < max_retries ==> is_retried(429, attempt, max_retries),
        attempt >= max_retries ==> !is_retried(status, attempt, max_retries),
        status != 429 ==> !is_retried(status, attempt, max_retries),
        is_success(status) <==> status / 100 == 2,
{
}

/// A tool choice is dropped where the upstream answers that the request is a bad one and
/// names the tool choice, and in no other case.
pub proof fn law_named_tool_choices_are_dropped(
    status: u16,
    message: Seq<char>,
    a: Seq<char>,
    b: Seq<char>,
    other: Failure,
)
    ensures
        rejects_tool_choice(Failure::Upstream { status: 400, message: a + "tool_choice"@ + b }),
        rejects_tool_choice(Failure::Upstream { status: 400, message: a + "tool choice"@ + b }),
        status != 400 ==> !rejects_tool_choice(Failure::Upstream { status, message }),
        !has_part(message, "tool_choice"@) && !has_part(message, "tool choice"@)
            ==> !rejects_tool_choice(Failure::Upstream { status, message }),
        !(other is Upstream) ==> !rejects_tool_choice(other),
{
    law_parts_have_surroundings(a, "tool_choice"@, b, Seq::empty());
    law_parts_have_surroundings(a, "tool choice"@, b, Seq::empty());
}

} // verus!
