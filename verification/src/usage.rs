//! Token counts.

use crate::json::{object, object_of, Json, JsonValue, Object};
use crate::number::Num;
use vstd::prelude::*;
use vstd::string::*;

verus! {

/// The token counts of a response. Sums wrap around at the end of the machine's range.
#[derive(Debug, Clone, Copy, PartialEq, Eq, Structural)]
pub struct Usage {
    pub input: u64,
    pub cached: u64,
    pub output: u64,
    pub reasoning: u64,
    pub total: u64,
}

/// The count under `key`, zero where there is none.
pub open spec fn count_at(v: Json, key: Seq<char>) -> u64 {
    match v.get(key) {
        Some(n) => match n.as_u64() {
            Some(c) => c,
            None => 0,
        },
        None => 0,
    }
}

/// The count under `inner` in the member `outer`, zero where there is none.
pub open spec fn count_in(v: Json, outer: Seq<char>, inner: Seq<char>) -> u64 {
    match v.get(outer) {
        Some(d) => count_at(d, inner),
        None => 0,
    }
}

/// A count as JSON.
pub open spec fn count(n: u64) -> Json {
    Json::Num(Num::Unsigned(n))
}

/// Token counts as a response shows them.
pub open spec fn usage_value(u: Usage) -> Json {
    Json::Object(
        map![
            "input_tokens"@ => count(u.input),
            "input_tokens_details"@ => Json::Object(map!["cached_tokens"@ => count(u.cached)]),
            "output_tokens"@ => count(u.output),
            "output_tokens_details"@ => Json::Object(
                map!["reasoning_tokens"@ => count(u.reasoning)],
            ),
            "total_tokens"@ => count(u.total),
        ],
    )
}

/// The token counts that an upstream reports; without a total, it is the sum of input
/// and output.
pub open spec fn upstream_usage(usage: Option<Json>) -> Usage {
    match usage {
        None => Usage { input: 0, cached: 0, output: 0, reasoning: 0, total: 0 },
        Some(u) => {
            let input = count_at(u, "prompt_tokens"@);
            let output = count_at(u, "completion_tokens"@);
            Usage {
                input,
                cached: count_in(u, "prompt_tokens_details"@, "cached_tokens"@),
                output,
                reasoning: count_in(u, "completion_tokens_details"@, "reasoning_tokens"@),
                total: match u.get("total_tokens"@) {
                    Some(t) => match t.as_u64() {
                        Some(n) => n,
                        None => input.wrapping_add(output),
                    },
                    None => input.wrapping_add(output),
                },
            }
        },
    }
}

/// `v` with the count under `key`, if there is something there, raised by `by`.
pub open spec fn raised(v: Json, key: Seq<char>, by: u64) -> Json {
    match v {
        Json::Object(m) => if m.contains_key(key) {
            Json::Object(m.insert(key, count(count_at(v, key).wrapping_add(by))))
        } else {
            v
        },
        _ => v,
    }
}

/// `v` with the count under `inner` in the member `outer` raised by `by`.
pub open spec fn raised_in(v: Json, outer: Seq<char>, inner: Seq<char>, by: u64) -> Json {
    match v {
        Json::Object(m) => if m.contains_key(outer) {
            Json::Object(m.insert(outer, raised(m[outer], inner, by)))
        } else {
            v
        },
        _ => v,
    }
}

/// The token counts `total` with those of one more round.
pub open spec fn merged_usage(total: Json, round: Json) -> Json {
    let input = count_at(round, "input_tokens"@);
    let output = count_at(round, "output_tokens"@);
    let cached = count_in(round, "input_tokens_details"@, "cached_tokens"@);
    let reasoning = count_in(round, "output_tokens_details"@, "reasoning_tokens"@);
    let a = raised(total, "input_tokens"@, input);
    let b = raised(a, "output_tokens"@, output);
    let c = raised(raised(b, "total_tokens"@, input), "total_tokens"@, output);
    let d = raised_in(c, "input_tokens_details"@, "cached_tokens"@, cached);
    raised_in(d, "output_tokens_details"@, "reasoning_tokens"@, reasoning)
}

/// The count under `key`.
pub fn read_count(v: &JsonValue, key: &str) -> (n: u64)
    ensures
        n == count_at(v@, key@),
{
    match v.get(key) {
        Some(c) => match c.as_u64() {
            Some(n) => n,
            None => 0,
        },
        None => 0,
    }
}

/// The count under `inner` in the member `outer`.
pub fn read_count_in(v: &JsonValue, outer: &str, inner: &str) -> (n: u64)
    ensures
        n == count_in(v@, outer@, inner@),
{
    match v.get(outer) {
        Some(d) => read_count(d, inner),
        None => 0,
    }
}

/// Token counts as a response shows them.
pub fn show_usage(u: &Usage) -> (v: JsonValue)
    ensures
        v@ == usage_value(*u),
{
    let cached = object().with("cached_tokens", JsonValue::number(u.cached));
    let reasoning = object().with("reasoning_tokens", JsonValue::number(u.reasoning));
    JsonValue::Object(
        object().with("input_tokens", JsonValue::number(u.input)).with(
            "input_tokens_details",
            JsonValue::Object(cached),
        ).with("output_tokens", JsonValue::number(u.output)).with(
            "output_tokens_details",
            JsonValue::Object(reasoning),
        ).with("total_tokens", JsonValue::number(u.total)),
    )
}

/// No tokens at all.
pub fn empty_usage() -> (v: JsonValue)
    ensures
        v@ == usage_value(upstream_usage(None)),
{
    show_usage(&Usage { input: 0, cached: 0, output: 0, reasoning: 0, total: 0 })
}

/// The token counts that an upstream reports, as a response shows them.
pub fn usage_from_upstream(usage: Option<&JsonValue>) -> (v: JsonValue)
    ensures
        v@ == usage_value(upstream_usage(usage.deep_view())),
{
    let u = match usage {
        Some(u) => u,
        None => return empty_usage(),
    };
    let input = read_count(u, "prompt_tokens");
    let output = read_count(u, "completion_tokens");
    let stated = match u.get("total_tokens") {
        Some(t) => t.as_u64(),
        None => None,
    };
    let total = match stated {
        Some(n) => n,
        None => input.wrapping_add(output),
    };
    let counts = Usage {
        input,
        cached: read_count_in(u, "prompt_tokens_details", "cached_tokens"),
        output,
        reasoning: read_count_in(u, "completion_tokens_details", "reasoning_tokens"),
        total,
    };
    show_usage(&counts)
}

fn raise_member(o: &mut Object, key: &str, by: u64)
    ensures
        Json::Object(object_of(*final(o))) == raised(Json::Object(object_of(*old(o))), key@, by),
{
    let now = match o.member(key) {
        Some(n) => match n.as_u64() {
            Some(c) => c,
            None => 0,
        },
        None => return,
    };
    o.set(key, JsonValue::number(now.wrapping_add(by)));
}

fn raise(v: &mut JsonValue, key: &str, by: u64)
    ensures
        final(v)@ == raised(old(v)@, key@, by),
{
    match v {
        JsonValue::Object(o) => raise_member(o, key, by),
        _ => {},
    }
}

fn raise_in(v: &mut JsonValue, outer: &str, inner: &str, by: u64)
    ensures
        final(v)@ == raised_in(old(v)@, outer@, inner@, by),
{
    match v {
        JsonValue::Object(o) => {
            let mut details = match o.member(outer) {
                Some(d) => d.clone(),
                None => return,
            };
            raise(&mut details, inner, by);
            o.set(outer, details);
        },
        _ => {},
    }
}

/// Adds the token counts of one more round.
pub fn merge_usage(total: &mut JsonValue, round: &JsonValue)
    ensures
        final(total)@ == merged_usage(old(total)@, round@),
{
    let input = read_count(round, "input_tokens");
    let output = read_count(round, "output_tokens");
    raise(total, "input_tokens", input);
    raise(total, "output_tokens", output);
    raise(total, "total_tokens", input);
    raise(total, "total_tokens", output);
    raise_in(
        total,
        "input_tokens_details",
        "cached_tokens",
        read_count_in(round, "input_tokens_details", "cached_tokens"),
    );
    raise_in(
        total,
        "output_tokens_details",
        "reasoning_tokens",
        read_count_in(round, "output_tokens_details", "reasoning_tokens"),
    );
}

proof fn lemma_usage_keys()
    ensures
        "input_tokens"@ != "output_tokens"@,
        "input_tokens"@ != "total_tokens"@,
        "output_tokens"@ != "total_tokens"@,
        "input_tokens"@ != "input_tokens_details"@,
        "input_tokens"@ != "output_tokens_details"@,
        "output_tokens"@ != "input_tokens_details"@,
        "output_tokens"@ != "output_tokens_details"@,
        "total_tokens"@ != "input_tokens_details"@,
        "total_tokens"@ != "output_tokens_details"@,
        "input_tokens_details"@ != "output_tokens_details"@,
{
    reveal_strlit("input_tokens");
    reveal_strlit("output_tokens");
    reveal_strlit("total_tokens");
    reveal_strlit("input_tokens_details");
    reveal_strlit("output_tokens_details");
    assert("input_tokens"@.len() == 12);
    assert("output_tokens"@.len() == 13);
    assert("total_tokens"@[0] == 't');
    assert("input_tokens"@[0] == 'i');
    assert("input_tokens_details"@.len() == 20);
    assert("output_tokens_details"@.len() == 21);
}

/// Merging adds up counter by counter: the merged usage of two reports shows the sums
/// of their input, cached, output and reasoning tokens, and a total that has grown by
/// the input and the output of the round.
pub proof fn law_merging_adds_up(a: Usage, b: Usage)
    ensures
        merged_usage(usage_value(a), usage_value(b)) == usage_value(
            (Usage {
                input: a.input.wrapping_add(b.input),
                cached: a.cached.wrapping_add(b.cached),
                output: a.output.wrapping_add(b.output),
                reasoning: a.reasoning.wrapping_add(b.reasoning),
                total: a.total.wrapping_add(b.input).wrapping_add(b.output),
            }),
        ),
{
    lemma_usage_keys();
    let sum = Usage {
        input: a.input.wrapping_add(b.input),
        cached: a.cached.wrapping_add(b.cached),
        output: a.output.wrapping_add(b.output),
        reasoning: a.reasoning.wrapping_add(b.reasoning),
        total: a.total.wrapping_add(b.input).wrapping_add(b.output),
    };
    let merged = merged_usage(usage_value(a), usage_value(b));
    assert(count_at(usage_value(b), "input_tokens"@) == b.input);
    assert(count_at(usage_value(b), "output_tokens"@) == b.output);
    assert(merged->Object_0["input_tokens_details"@] == Json::Object(
        map!["cached_tokens"@ => count(sum.cached)],
    )) by {
        assert(merged->Object_0["input_tokens_details"@]->Object_0 =~= map![
            "cached_tokens"@ => count(sum.cached)
        ]);
    }
    assert(merged->Object_0["output_tokens_details"@] == Json::Object(
        map!["reasoning_tokens"@ => count(sum.reasoning)],
    )) by {
        assert(merged->Object_0["output_tokens_details"@]->Object_0 =~= map![
            "reasoning_tokens"@ => count(sum.reasoning)
        ]);
    }
    assert(merged->Object_0 =~= usage_value(sum)->Object_0);
}

/// A round without tokens changes nothing.
pub proof fn law_empty_round_changes_nothing(a: Usage)
    ensures
        merged_usage(usage_value(a), usage_value(upstream_usage(None))) == usage_value(a),
{
    law_merging_adds_up(a, upstream_usage(None));
}

/// The count that stands under `key`, if one stands there.
pub open spec fn shown_count(v: Json, key: Seq<char>) -> Option<u64> {
    match v.get(key) {
        Some(n) => n.as_u64(),
        None => None,
    }
}

/// The count that stands under `inner` in the member `outer`, if one stands there.
pub open spec fn shown_detail(v: Json, outer: Seq<char>, inner: Seq<char>) -> Option<u64> {
    match v.get(outer) {
        Some(d) => shown_count(d, inner),
        None => None,
    }
}

/// Whether token counts are shown, each under its name.
pub open spec fn shows(v: Json, u: Usage) -> bool {
    &&& shown_count(v, "input_tokens"@) == Some(u.input)
    &&& shown_count(v, "output_tokens"@) == Some(u.output)
    &&& shown_count(v, "total_tokens"@) == Some(u.total)
    &&& shown_detail(v, "input_tokens_details"@, "cached_tokens"@) == Some(u.cached)
    &&& shown_detail(v, "output_tokens_details"@, "reasoning_tokens"@) == Some(u.reasoning)
}

/// A count that an upstream may have left out.
pub open spec fn or_zero(n: Option<u64>) -> u64 {
    match n {
        Some(n) => n,
        None => 0,
    }
}

/// The token counts that stand in an upstream's report, by the names that upstreams use. A
/// total that is left out is the sum of input and output.
pub open spec fn reported(report: Option<Json>) -> Usage {
    match report {
        None => Usage { input: 0, cached: 0, output: 0, reasoning: 0, total: 0 },
        Some(r) => {
            let input = or_zero(shown_count(r, "prompt_tokens"@));
            let output = or_zero(shown_count(r, "completion_tokens"@));
            Usage {
                input,
                output,
                cached: or_zero(shown_detail(r, "prompt_tokens_details"@, "cached_tokens"@)),
                reasoning: or_zero(
                    shown_detail(r, "completion_tokens_details"@, "reasoning_tokens"@),
                ),
                total: match shown_count(r, "total_tokens"@) {
                    Some(t) => t,
                    None => input.wrapping_add(output),
                },
            }
        },
    }
}

/// Token counts are shown under their names.
pub proof fn law_counts_are_shown(u: Usage)
    ensures
        shows(usage_value(u), u),
{
    lemma_usage_keys();
}

/// What an upstream reports is what a response shows.
pub proof fn law_reported_counts_are_shown(report: Option<Json>)
    ensures
        shows(usage_value(upstream_usage(report)), reported(report)),
{
    law_counts_are_shown(upstream_usage(report));
}

/// Whether the counts of two reports can be added within the machine's range.
pub open spec fn fit_together(a: Usage, b: Usage) -> bool {
    &&& a.input + b.input <= u64::MAX
    &&& a.output + b.output <= u64::MAX
    &&& a.cached + b.cached <= u64::MAX
    &&& a.reasoning + b.reasoning <= u64::MAX
    &&& a.total + b.input + b.output <= u64::MAX
}

/// The sums of token counts. The total grows by the input and the output.
pub open spec fn added(a: Usage, b: Usage) -> Usage {
    Usage {
        input: (a.input + b.input) as u64,
        output: (a.output + b.output) as u64,
        cached: (a.cached + b.cached) as u64,
        reasoning: (a.reasoning + b.reasoning) as u64,
        total: (a.total + b.input + b.output) as u64,
    }
}

/// Counts that fit together are added, none is lost: merging the report of one more round
/// shows the sums.
pub proof fn law_merged_counts_are_sums(a: Usage, report: Option<Json>)
    requires
        fit_together(a, reported(report)),
    ensures
        shows(
            merged_usage(usage_value(a), usage_value(upstream_usage(report))),
            added(a, reported(report)),
        ),
        merged_usage(usage_value(a), usage_value(upstream_usage(report))) == usage_value(
            added(a, reported(report)),
        ),
{
    let b = upstream_usage(report);
    assert(b == reported(report));
    law_merging_adds_up(a, b);
    law_counts_are_shown(added(a, b));
}

} // verus!
