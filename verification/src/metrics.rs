//! Counters of requests and tokens. They wrap around at the end of the machine's range.

use crate::json::{object, Json, JsonValue};
use crate::usage::{
    count, count_at, count_in, read_count, read_count_in, shown_count, shown_detail, shows, Usage,
};
use vstd::prelude::*;
use vstd::string::*;

verus! {

/// Counters of requests and tokens.
#[derive(Debug, Clone, Copy, PartialEq, Eq, Structural)]
pub struct RequestMetrics {
    pub total_requests: u64,
    pub stream_requests: u64,
    pub non_stream_requests: u64,
    pub completed: u64,
    pub failed: u64,
    pub cancelled: u64,
    pub input_tokens: u64,
    pub output_tokens: u64,
    pub cached_tokens: u64,
    pub reasoning_tokens: u64,
}

/// Counters that stand at zero.
pub open spec fn no_requests() -> RequestMetrics {
    RequestMetrics {
        total_requests: 0,
        stream_requests: 0,
        non_stream_requests: 0,
        completed: 0,
        failed: 0,
        cancelled: 0,
        input_tokens: 0,
        output_tokens: 0,
        cached_tokens: 0,
        reasoning_tokens: 0,
    }
}

/// The counters after a request came in.
pub open spec fn after_request(m: RequestMetrics, stream: bool) -> RequestMetrics {
    RequestMetrics {
        total_requests: m.total_requests.wrapping_add(1),
        stream_requests: if stream {
            m.stream_requests.wrapping_add(1)
        } else {
            m.stream_requests
        },
        non_stream_requests: if stream {
            m.non_stream_requests
        } else {
            m.non_stream_requests.wrapping_add(1)
        },
        ..m
    }
}

impl Default for RequestMetrics {
    fn default() -> (m: Self)
        ensures
            m == no_requests(),
    {
        RequestMetrics {
            total_requests: 0,
            stream_requests: 0,
            non_stream_requests: 0,
            completed: 0,
            failed: 0,
            cancelled: 0,
            input_tokens: 0,
            output_tokens: 0,
            cached_tokens: 0,
            reasoning_tokens: 0,
        }
    }
}

/// The counters after one more completed request.
pub open spec fn after_completion(m: RequestMetrics, usage: Json) -> RequestMetrics {
    RequestMetrics {
        completed: m.completed.wrapping_add(1),
        input_tokens: m.input_tokens.wrapping_add(count_at(usage, "input_tokens"@)),
        output_tokens: m.output_tokens.wrapping_add(count_at(usage, "output_tokens"@)),
        cached_tokens: m.cached_tokens.wrapping_add(
            count_in(usage, "input_tokens_details"@, "cached_tokens"@),
        ),
        reasoning_tokens: m.reasoning_tokens.wrapping_add(
            count_in(usage, "output_tokens_details"@, "reasoning_tokens"@),
        ),
        ..m
    }
}

/// The counters as the proxy shows them.
pub open spec fn metrics_value(
    m: RequestMetrics,
    uptime_seconds: u64,
    inflight: usize,
    stored: usize,
) -> Json {
    Json::Object(
        map![
            "uptime_seconds"@ => count(uptime_seconds),
            "requests"@ => Json::Object(
                map![
                    "total"@ => count(m.total_requests),
                    "stream"@ => count(m.stream_requests),
                    "non_stream"@ => count(m.non_stream_requests),
                    "completed"@ => count(m.completed),
                    "failed"@ => count(m.failed),
                    "cancelled"@ => count(m.cancelled),
                    "inflight"@ => count(inflight as u64),
                ],
            ),
            "tokens"@ => Json::Object(
                map![
                    "input"@ => count(m.input_tokens),
                    "output"@ => count(m.output_tokens),
                    "cached"@ => count(m.cached_tokens),
                    "reasoning"@ => count(m.reasoning_tokens),
                ],
            ),
            "stored_responses"@ => count(stored as u64),
        ],
    )
}

impl RequestMetrics {
    pub fn record_request(&mut self, stream: bool)
        ensures
            *final(self) == after_request(*old(self), stream),
    {
        self.total_requests = self.total_requests.wrapping_add(1);
        if stream {
            self.stream_requests = self.stream_requests.wrapping_add(1);
        } else {
            self.non_stream_requests = self.non_stream_requests.wrapping_add(1);
        }
    }

    pub fn record_completion(&mut self, usage: &JsonValue)
        ensures
            *final(self) == after_completion(*old(self), usage@),
    {
        self.completed = self.completed.wrapping_add(1);
        self.add_usage(usage);
    }

    pub fn record_failure(&mut self)
        ensures
            *final(self) == (RequestMetrics {
                failed: old(self).failed.wrapping_add(1),
                ..*old(self)
            }),
    {
        self.failed = self.failed.wrapping_add(1);
    }

    pub fn record_cancellation(&mut self)
        ensures
            *final(self) == (RequestMetrics {
                cancelled: old(self).cancelled.wrapping_add(1),
                ..*old(self)
            }),
    {
        self.cancelled = self.cancelled.wrapping_add(1);
    }

    fn add_usage(&mut self, usage: &JsonValue)
        ensures
            *final(self) == (RequestMetrics {
                completed: old(self).completed,
                ..after_completion(*old(self), usage@)
            }),
    {
        self.input_tokens = self.input_tokens.wrapping_add(read_count(usage, "input_tokens"));
        self.output_tokens = self.output_tokens.wrapping_add(read_count(usage, "output_tokens"));
        self.cached_tokens =
        self.cached_tokens.wrapping_add(
            read_count_in(usage, "input_tokens_details", "cached_tokens"),
        );
        self.reasoning_tokens =
        self.reasoning_tokens.wrapping_add(
            read_count_in(usage, "output_tokens_details", "reasoning_tokens"),
        );
    }

    /// The counters as the proxy shows them.
    pub fn snapshot(&self, uptime_seconds: u64, inflight: usize, stored: usize) -> (v: JsonValue)
        ensures
            v@ == metrics_value(*self, uptime_seconds, inflight, stored),
    {
        let requests = object().with("total", JsonValue::number(self.total_requests)).with(
            "stream",
            JsonValue::number(self.stream_requests),
        ).with("non_stream", JsonValue::number(self.non_stream_requests)).with(
            "completed",
            JsonValue::number(self.completed),
        ).with("failed", JsonValue::number(self.failed)).with(
            "cancelled",
            JsonValue::number(self.cancelled),
        ).with("inflight", JsonValue::number(inflight as u64));
        let tokens = object().with("input", JsonValue::number(self.input_tokens)).with(
            "output",
            JsonValue::number(self.output_tokens),
        ).with("cached", JsonValue::number(self.cached_tokens)).with(
            "reasoning",
            JsonValue::number(self.reasoning_tokens),
        );
        JsonValue::Object(
            object().with("uptime_seconds", JsonValue::number(uptime_seconds)).with(
                "requests",
                JsonValue::Object(requests),
            ).with("tokens", JsonValue::Object(tokens)).with(
                "stored_responses",
                JsonValue::number(stored as u64),
            ),
        )
    }
}

/// As long as the counters do not wrap around, the streamed requests and the others add
/// up to all requests, and the end of a request leaves them alone.
pub proof fn law_requests_add_up(m: RequestMetrics, stream: bool, usage: Json)
    requires
        m.total_requests == m.stream_requests + m.non_stream_requests,
        m.total_requests < u64::MAX,
    ensures
        ({
            let after = after_request(m, stream);
            after.total_requests == after.stream_requests + after.non_stream_requests
        }),
        after_request(m, stream).total_requests == m.total_requests + 1,
        after_completion(m, usage).total_requests == m.total_requests,
        after_completion(m, usage).stream_requests == m.stream_requests,
        after_completion(m, usage).non_stream_requests == m.non_stream_requests,
{
}

/// A completed request adds the counts of its usage to the counters, each to its own, and
/// a request that comes in adds one to those that it belongs to.
pub proof fn law_counters_grow_by_what_is_counted(
    m: RequestMetrics,
    stream: bool,
    usage: Json,
    u: Usage,
)
    requires
        shows(usage, u),
        m.total_requests < u64::MAX,
        m.stream_requests < u64::MAX,
        m.non_stream_requests < u64::MAX,
        m.completed < u64::MAX,
        m.input_tokens + u.input <= u64::MAX,
        m.output_tokens + u.output <= u64::MAX,
        m.cached_tokens + u.cached <= u64::MAX,
        m.reasoning_tokens + u.reasoning <= u64::MAX,
    ensures
        after_completion(m, usage) == (RequestMetrics {
            completed: (m.completed + 1) as u64,
            input_tokens: (m.input_tokens + u.input) as u64,
            output_tokens: (m.output_tokens + u.output) as u64,
            cached_tokens: (m.cached_tokens + u.cached) as u64,
            reasoning_tokens: (m.reasoning_tokens + u.reasoning) as u64,
            ..m
        }),
        after_request(m, true) == (RequestMetrics {
            total_requests: (m.total_requests + 1) as u64,
            stream_requests: (m.stream_requests + 1) as u64,
            ..m
        }),
        after_request(m, false) == (RequestMetrics {
            total_requests: (m.total_requests + 1) as u64,
            non_stream_requests: (m.non_stream_requests + 1) as u64,
            ..m
        }),
{
}

/// The counters are shown as they stand, each under its name.
pub proof fn law_counters_are_shown(
    m: RequestMetrics,
    uptime_seconds: u64,
    inflight: usize,
    stored: usize,
)
    ensures
        ({
            let v = metrics_value(m, uptime_seconds, inflight, stored);
            &&& shown_count(v, "uptime_seconds"@) == Some(uptime_seconds)
            &&& shown_count(v, "stored_responses"@) == Some(stored as u64)
            &&& shown_detail(v, "requests"@, "total"@) == Some(m.total_requests)
            &&& shown_detail(v, "requests"@, "stream"@) == Some(m.stream_requests)
            &&& shown_detail(v, "requests"@, "non_stream"@) == Some(m.non_stream_requests)
            &&& shown_detail(v, "requests"@, "completed"@) == Some(m.completed)
            &&& shown_detail(v, "requests"@, "failed"@) == Some(m.failed)
            &&& shown_detail(v, "requests"@, "cancelled"@) == Some(m.cancelled)
            &&& shown_detail(v, "requests"@, "inflight"@) == Some(inflight as u64)
            &&& shown_detail(v, "tokens"@, "input"@) == Some(m.input_tokens)
            &&& shown_detail(v, "tokens"@, "output"@) == Some(m.output_tokens)
            &&& shown_detail(v, "tokens"@, "cached"@) == Some(m.cached_tokens)
            &&& shown_detail(v, "tokens"@, "reasoning"@) == Some(m.reasoning_tokens)
        }),
{
    reveal_strlit("uptime_seconds");
    reveal_strlit("stored_responses");
    reveal_strlit("requests");
    reveal_strlit("tokens");
    reveal_strlit("total");
    reveal_strlit("stream");
    reveal_strlit("non_stream");
    reveal_strlit("completed");
    reveal_strlit("failed");
    reveal_strlit("cancelled");
    reveal_strlit("inflight");
    reveal_strlit("input");
    reveal_strlit("output");
    reveal_strlit("cached");
    reveal_strlit("reasoning");
    assert("uptime_seconds"@.len() == 14);
    assert("stored_responses"@.len() == 16);
    assert("requests"@.len() == 8);
    assert("tokens"@.len() == 6);
    assert("total"@.len() == 5);
    assert("stream"@.len() == 6);
    assert("non_stream"@.len() == 10);
    assert("completed"@.len() == 9);
    assert("failed"@.len() == 6);
    assert("cancelled"@.len() == 9);
    assert("inflight"@.len() == 8);
    assert("input"@.len() == 5);
    assert("output"@.len() == 6);
    assert("cached"@.len() == 6);
    assert("reasoning"@.len() == 9);
    assert("requests"@[0] == 'r');
    assert("inflight"@[0] == 'i');
    assert("tokens"@[0] == 't');
    assert("stream"@[0] == 's');
    assert("failed"@[0] == 'f');
    assert("output"@[0] == 'o');
    assert("cached"@[0] == 'c');
    assert("total"@[0] == 't');
    assert("input"@[0] == 'i');
    assert("completed"@[1] == 'o');
    assert("cancelled"@[1] == 'a');
    assert("completed"@[0] == 'c');
    assert("reasoning"@[0] == 'r');
    assert("cancelled"@[0] == 'c');
}

} // verus!
