//! What the counters come to over any row of requests, and how they are shown.

use vstd::prelude::*;
use vstd::string::*;

use crate::gateway::http;
use crate::gateway::telemetry;
use crate::gateway::telemetry::{
    AccountView, Completion, Histogram, TelemetryState, TelemetryView, UsageSnapshotRow,
};
use crate::json::JsonView;
use crate::providers::wire;
use crate::sorted::SortedMap;
use crate::text;

verus! {

// ---------------------------------------------------------------------------
// Sums over requests
// ---------------------------------------------------------------------------

/// What a counter stands at; one that was never counted is at 0.
pub open spec fn standing(m: Map<Seq<Seq<char>>, u64>, k: Seq<Seq<char>>) -> int {
    if m.contains_key(k) {
        m[k] as int
    } else {
        0
    }
}

/// The tokens of a kind that a request took.
pub open spec fn spent(c: Completion, kind: Seq<char>) -> nat {
    if kind == "input"@ {
        c.input_tokens as nat
    } else if kind == "output"@ {
        c.output_tokens as nat
    } else {
        0
    }
}

/// The tokens of a kind that the requests of a provider and a model took.
pub open spec fn total_spent(
    cs: Seq<Completion>,
    provider: Seq<char>,
    model: Seq<char>,
    kind: Seq<char>,
) -> nat
    decreases cs.len(),
{
    if cs.len() == 0 {
        0
    } else {
        total_spent(cs.drop_last(), provider, model, kind) + (if cs.last().provider == provider
            && cs.last().model == model {
            spent(cs.last(), kind)
        } else {
            0
        })
    }
}

proof fn lemma_keys(a: Seq<char>, b: Seq<char>, c: Seq<char>, x: Seq<char>, y: Seq<char>, z: Seq<char>)
    ensures
        telemetry::key3(a, b, c) == seq![a, b, c],
        telemetry::key3(a, b, c) == telemetry::key3(x, y, z) <==> a == x && b == y && c == z,
        telemetry::key2(a, b) == seq![a, b],
        telemetry::key2(a, b) == telemetry::key2(x, y) <==> a == x && b == y,
{
    let p = telemetry::key3(a, b, c);
    let q = telemetry::key3(x, y, z);
    assert(p[0] == a && p[1] == b && p[2] == c);
    assert(q[0] == x && q[1] == y && q[2] == z);
    let p = telemetry::key2(a, b);
    let q = telemetry::key2(x, y);
    assert(p[0] == a && p[1] == b);
    assert(q[0] == x && q[1] == y);
}

proof fn lemma_kinds()
    ensures
        "input"@ != "output"@,
{
    reveal_strlit("input");
    reveal_strlit("output");
    assert("input"@.len() == 5 && "output"@.len() == 6);
}

/// After a row of requests the token counter of a provider, a model and a kind
/// is what it was before and the sum of the tokens of that kind over the
/// requests of that provider and model.
pub proof fn law_tokens_add_up(
    s: TelemetryView,
    cs: Seq<Completion>,
    provider: Seq<char>,
    model: Seq<char>,
    kind: Seq<char>,
)
    requires
        telemetry::recordable_all(s, cs),
    ensures
        standing(telemetry::recorded_all(s, cs).tokens, seq![provider, model, kind]) == standing(
            s.tokens,
            seq![provider, model, kind],
        ) + total_spent(cs, provider, model, kind),
    decreases cs.len(),
{
    if cs.len() > 0 {
        let c = cs.last();
        law_tokens_add_up(s, cs.drop_last(), provider, model, kind);
        lemma_kinds();
        lemma_keys(c.provider, c.model, "input"@, provider, model, kind);
        lemma_keys(c.provider, c.model, "output"@, provider, model, kind);
        lemma_keys(c.provider, c.model, "input"@, c.provider, c.model, "output"@);
        lemma_keys(provider, model, kind, provider, model, kind);
    }
}

/// The requests of a provider and a model that ended well, or that did not.
pub open spec fn ended(cs: Seq<Completion>, provider: Seq<char>, model: Seq<char>, ok: bool) -> nat
    decreases cs.len(),
{
    if cs.len() == 0 {
        0
    } else {
        ended(cs.drop_last(), provider, model, ok) + (if cs.last().provider == provider
            && cs.last().model == model && cs.last().ok == ok {
            1nat
        } else {
            0
        })
    }
}

/// After a row of requests the counters of a provider and a model have grown by
/// the requests that ended well and by those that did not.
pub proof fn law_requests_add_up(
    s: TelemetryView,
    cs: Seq<Completion>,
    provider: Seq<char>,
    model: Seq<char>,
)
    requires
        telemetry::recordable_all(s, cs),
    ensures
        standing(telemetry::recorded_all(s, cs).requests_ok, seq![provider, model]) == standing(
            s.requests_ok,
            seq![provider, model],
        ) + ended(cs, provider, model, true),
        standing(telemetry::recorded_all(s, cs).requests_err, seq![provider, model]) == standing(
            s.requests_err,
            seq![provider, model],
        ) + ended(cs, provider, model, false),
    decreases cs.len(),
{
    if cs.len() > 0 {
        let c = cs.last();
        law_requests_add_up(s, cs.drop_last(), provider, model);
        lemma_keys(c.provider, c.model, c.model, provider, model, model);
        lemma_keys(provider, model, model, provider, model, model);
    }
}

/// The durations of a provider and a model that were no longer than `bound`
/// nanoseconds: how many, and their sum.
pub open spec fn lasted(
    cs: Seq<Completion>,
    provider: Seq<char>,
    model: Seq<char>,
    bound: int,
) -> (nat, nat)
    decreases cs.len(),
{
    if cs.len() == 0 {
        (0, 0)
    } else {
        let before = lasted(cs.drop_last(), provider, model, bound);
        match cs.last().nanos {
            Some(n) => if cs.last().provider == provider && cs.last().model == model && n <= bound {
                (before.0 + 1, before.1 + n as nat)
            } else {
                before
            },
            None => before,
        }
    }
}

/// The bucket of a histogram with the given bound in nanoseconds.
pub open spec fn bucket(h: Histogram, bound: int) -> Option<u64> {
    if bound == 100_000_000 {
        Some(h.b01)
    } else if bound == 500_000_000 {
        Some(h.b05)
    } else if bound == 1_000_000_000 {
        Some(h.b1)
    } else if bound == 2_000_000_000 {
        Some(h.b2)
    } else if bound == 5_000_000_000 {
        Some(h.b5)
    } else if bound == 10_000_000_000 {
        Some(h.b10)
    } else if bound == 30_000_000_000 {
        Some(h.b30)
    } else if bound == 60_000_000_000 {
        Some(h.b60)
    } else if bound == 120_000_000_000 {
        Some(h.b120)
    } else if bound == 300_000_000_000 {
        Some(h.b300)
    } else {
        None
    }
}

/// A histogram, or one without durations where none is held.
pub open spec fn histogram(m: Map<Seq<Seq<char>>, Histogram>, k: Seq<Seq<char>>) -> Histogram {
    if m.contains_key(k) {
        m[k]
    } else {
        Histogram {
            b01: 0,
            b05: 0,
            b1: 0,
            b2: 0,
            b5: 0,
            b10: 0,
            b30: 0,
            b60: 0,
            b120: 0,
            b300: 0,
            count: 0,
            sum: 0,
        }
    }
}

/// After a row of requests the histogram of a provider and a model has counted
/// each of their durations once, has added it to its sum, and has counted it
/// in each bucket whose bound it does not exceed.
pub proof fn law_durations_add_up(
    s: TelemetryView,
    cs: Seq<Completion>,
    provider: Seq<char>,
    model: Seq<char>,
    bound: int,
)
    requires
        telemetry::recordable_all(s, cs),
        histogram(s.duration, seq![provider, model]).wf(),
    ensures
        ({
            let before = histogram(s.duration, seq![provider, model]);
            let after = histogram(
                telemetry::recorded_all(s, cs).duration,
                seq![provider, model],
            );
            let all = lasted(cs, provider, model, u64::MAX as int);
            &&& after.wf()
            &&& after.count == before.count + all.0
            &&& after.sum == before.sum + all.1
            &&& bucket(before, bound) matches Some(n) ==> bucket(after, bound) matches Some(grown)
                && grown == n + lasted(cs, provider, model, bound).0
        }),
    decreases cs.len(),
{
    if cs.len() > 0 {
        let c = cs.last();
        law_durations_add_up(s, cs.drop_last(), provider, model, bound);
        lemma_keys(c.provider, c.model, c.model, provider, model, model);
        lemma_keys(provider, model, model, provider, model, model);
    }
}

/// A request can be recorded wherever its own counters have room for it.
pub proof fn law_room_is_enough(s: TelemetryView, c: Completion)
    requires
        forall|k: Seq<Seq<char>>| #[trigger]
            s.usage.contains_key(k) ==> s.usage[k].requests < u64::MAX && s.usage[k].errors
                < u64::MAX && s.usage[k].input_tokens + c.input_tokens <= u64::MAX
                && s.usage[k].output_tokens + c.output_tokens <= u64::MAX,
        forall|k: Seq<Seq<char>>| #[trigger]
            s.requests_ok.contains_key(k) ==> s.requests_ok[k] < u64::MAX,
        forall|k: Seq<Seq<char>>| #[trigger]
            s.requests_err.contains_key(k) ==> s.requests_err[k] < u64::MAX,
        forall|k: Seq<Seq<char>>| #[trigger]
            s.tokens.contains_key(k) ==> s.tokens[k] + c.input_tokens <= u64::MAX && s.tokens[k]
                + c.output_tokens <= u64::MAX,
        forall|k: Seq<Seq<char>>| #[trigger]
            s.duration.contains_key(k) ==> s.duration[k].count < u64::MAX && s.duration[k].sum
                + u64::MAX <= u128::MAX,
    ensures
        telemetry::recordable(s, c),
{
}

// ---------------------------------------------------------------------------
// What a request counts as
// ---------------------------------------------------------------------------

/// A request without a stream counts the tokens that the `usage` of its
/// response tells, and none where it failed; it counts as a success exactly
/// where it has a response.
pub proof fn law_responses_tell_their_tokens(
    route: Seq<char>,
    day: Seq<char>,
    v: JsonView,
    u: JsonView,
    input: u64,
    output: u64,
    nanos: u64,
)
    ensures
        ({
            let c = telemetry::plain_completion(route, day, Some(v), nanos);
            &&& c.ok && c.day == day && c.nanos == Some(nanos)
            &&& (c.provider, c.model) == telemetry::route_of(route)
            &&& wire::has(v, "usage"@, u) && wire::has_integer(u, "input_tokens"@, input as int)
                ==> c.input_tokens == input
            &&& wire::has(v, "usage"@, u) && wire::has_integer(u, "output_tokens"@, output as int)
                ==> c.output_tokens == output
            &&& wire::lacks(v, "usage"@) ==> c.input_tokens == 0 && c.output_tokens == 0
        }),
        ({
            let c = telemetry::plain_completion(route, day, None, nanos);
            &&& !c.ok && c.day == day && c.nanos == Some(nanos)
            &&& (c.provider, c.model) == telemetry::route_of(route)
            &&& c.input_tokens == 0 && c.output_tokens == 0
        }),
{
}

/// A route without a slash is all model; its provider is unknown.
pub proof fn law_routes_without_a_provider(model: Seq<char>)
    requires
        forall|i: int| 0 <= i < model.len() ==> #[trigger] model[i] != '/',
    ensures
        telemetry::route_of(model) == ("unknown"@, model),
{
    text::lemma_first_of(model, '/');
}

/// The message of a stream event tells input tokens, which are added to those
/// before. A message delta tells the output tokens so far, which replace those
/// before; an event of another type tells none.
pub proof fn law_events_tell_their_tokens(
    a: AccountView,
    event: JsonView,
    m: JsonView,
    u: JsonView,
    kind: Seq<char>,
    n: u64,
)
    requires
        wire::has_text(event, "type"@, kind),
        a.input_tokens + n <= u64::MAX,
    ensures
        ({
            let after = telemetry::account_after(a, Some(event));
            &&& wire::has(event, "message"@, m) && wire::has(m, "usage"@, u) && wire::has_integer(
                u,
                "input_tokens"@,
                n as int,
            ) ==> after.input_tokens == a.input_tokens + n
            &&& wire::lacks(event, "message"@) ==> after.input_tokens == a.input_tokens
            &&& kind == "message_delta"@ && wire::has(event, "usage"@, u) && wire::has_integer(
                u,
                "output_tokens"@,
                n as int,
            ) ==> after.output_tokens == n
            &&& kind != "message_delta"@ || wire::lacks(event, "usage"@) ==> after.output_tokens
                == a.output_tokens
            &&& after.provider == a.provider && after.model == a.model
            &&& !after.first_event
            &&& after.had_error == a.had_error
        }),
{
}

/// An error in a stream changes no token, and makes the stream a failure for
/// good.
pub proof fn law_stream_errors_stay(a: AccountView, event: JsonView, day: Seq<char>)
    ensures
        ({
            let failed = telemetry::account_after(a, None);
            &&& failed.input_tokens == a.input_tokens && failed.output_tokens == a.output_tokens
            &&& failed.provider == a.provider && failed.model == a.model
            &&& failed.first_event == a.first_event
            &&& !telemetry::account_completion(failed, day).ok
            &&& !telemetry::account_completion(
                telemetry::account_after(failed, Some(event)),
                day,
            ).ok
        }),
{
}

// ---------------------------------------------------------------------------
// How counters are shown
// ---------------------------------------------------------------------------

/// A row of the usage report is shown with each of its parts under its name.
pub proof fn law_usage_rows_are_shown(row: UsageSnapshotRow)
    ensures
        ({
            let v = http::usage_row_json(row);
            &&& wire::has_text(v, "provider"@, row.provider@)
            &&& wire::has_text(v, "model"@, row.model@)
            &&& wire::has_text(v, "day"@, row.day@)
            &&& wire::has_integer(v, "requests"@, row.requests as int)
            &&& wire::has_integer(v, "errors"@, row.errors as int)
            &&& wire::has_integer(v, "input_tokens"@, row.input_tokens as int)
            &&& wire::has_integer(v, "output_tokens"@, row.output_tokens as int)
        }),
        row.key() == seq![row.provider@, row.model@, row.day@],
        row.counters().requests == row.requests,
        row.counters().errors == row.errors,
        row.counters().input_tokens == row.input_tokens,
        row.counters().output_tokens == row.output_tokens,
{
    reveal_strlit("provider");
    reveal_strlit("model");
    reveal_strlit("day");
    reveal_strlit("requests");
    reveal_strlit("errors");
    reveal_strlit("input_tokens");
    reveal_strlit("output_tokens");
    assert("provider"@.len() == 8 && "provider"@[0] == 'p');
    assert("requests"@.len() == 8 && "requests"@[0] == 'r');
    assert("model"@.len() == 5 && "day"@.len() == 3 && "errors"@.len() == 6);
    assert("input_tokens"@.len() == 12 && "output_tokens"@.len() == 13);
}

/// A text that holds `p` still holds it with more text around it.
proof fn lemma_holds_in_more(a: Seq<char>, s: Seq<char>, b: Seq<char>, p: Seq<char>)
    requires
        text::contains(s, p),
    ensures
        text::contains(a + s + b, p),
{
    let i = choose|i: int| #[trigger] text::occurs_at(s, p, i);
    let whole = a + s + b;
    assert(whole.subrange(a.len() + i, a.len() + i + p.len()) =~= s.subrange(i, i + p.len()));
    assert(text::occurs_at(whole, p, a.len() + i));
}

proof fn lemma_holds_itself(p: Seq<char>)
    ensures
        text::contains(p, p),
{
    assert(p.subrange(0, p.len() as int) =~= p);
    assert(text::occurs_at(p, p, 0));
}

proof fn lemma_request_line(
    keys: Seq<Seq<Seq<char>>>,
    values: Seq<u64>,
    class: Seq<char>,
    i: int,
)
    requires
        keys.len() == values.len(),
        0 <= i < keys.len(),
    ensures
        text::contains(
            telemetry::request_samples(keys, values, class),
            telemetry::request_sample(keys[i], class, values[i]),
        ),
    decreases keys.len(),
{
    let front = telemetry::request_samples(keys.drop_last(), values.drop_last(), class);
    let last = telemetry::request_sample(keys.last(), class, values.last());
    let none = Seq::<char>::empty();
    if i < keys.len() - 1 {
        lemma_request_line(keys.drop_last(), values.drop_last(), class, i);
        lemma_holds_in_more(none, front, last, telemetry::request_sample(keys[i], class, values[i]));
        assert(none + front + last =~= front + last);
    } else {
        lemma_holds_itself(last);
        lemma_holds_in_more(front, last, none, last);
        assert(front + last + none =~= front + last);
    }
}

proof fn lemma_token_line(keys: Seq<Seq<Seq<char>>>, values: Seq<u64>, i: int)
    requires
        keys.len() == values.len(),
        0 <= i < keys.len(),
    ensures
        text::contains(
            telemetry::token_samples(keys, values),
            telemetry::token_sample(keys[i], values[i]),
        ),
    decreases keys.len(),
{
    let front = telemetry::token_samples(keys.drop_last(), values.drop_last());
    let last = telemetry::token_sample(keys.last(), values.last());
    let none = Seq::<char>::empty();
    if i < keys.len() - 1 {
        lemma_token_line(keys.drop_last(), values.drop_last(), i);
        lemma_holds_in_more(none, front, last, telemetry::token_sample(keys[i], values[i]));
        assert(none + front + last =~= front + last);
    } else {
        lemma_holds_itself(last);
        lemma_holds_in_more(front, last, none, last);
        assert(front + last + none =~= front + last);
    }
}

proof fn lemma_duration_lines(keys: Seq<Seq<Seq<char>>>, values: Seq<Histogram>, i: int)
    requires
        keys.len() == values.len(),
        0 <= i < keys.len(),
    ensures
        text::contains(
            telemetry::duration_samples(keys, values),
            telemetry::histogram_samples(keys[i], values[i]),
        ),
    decreases keys.len(),
{
    let front = telemetry::duration_samples(keys.drop_last(), values.drop_last());
    let last = telemetry::histogram_samples(keys.last(), values.last());
    let none = Seq::<char>::empty();
    if i < keys.len() - 1 {
        lemma_duration_lines(keys.drop_last(), values.drop_last(), i);
        lemma_holds_in_more(none, front, last, telemetry::histogram_samples(keys[i], values[i]));
        assert(none + front + last =~= front + last);
    } else {
        lemma_holds_itself(last);
        lemma_holds_in_more(front, last, none, last);
        assert(front + last + none =~= front + last);
    }
}

/// Where a key of a map stands among its entries.
proof fn lemma_entry<V>(m: SortedMap<V>, k: Seq<Seq<char>>) -> (i: int)
    requires
        m.wf(),
        m@.contains_key(k),
    ensures
        0 <= i < m.keys().len(),
        m.keys().len() == m.values().len(),
        m.keys()[i] == k,
        m.values()[i] == m@[k],
{
    let i = m.keys().index_of(k);
    m.lemma_at(i);
    i
}

/// The parts of the exposition, each of which it holds.
proof fn lemma_exposition_parts(s: TelemetryState, p: Seq<char>)
    requires
        ({
            ||| text::contains(
                telemetry::request_samples(s.requests_ok.keys(), s.requests_ok.values(), "ok"@),
                p,
            )
            ||| text::contains(
                telemetry::request_samples(
                    s.requests_err.keys(),
                    s.requests_err.values(),
                    "error"@,
                ),
                p,
            )
            ||| text::contains(telemetry::token_samples(s.tokens.keys(), s.tokens.values()), p)
            ||| text::contains(
                telemetry::duration_samples(s.duration.keys(), s.duration.values()),
                p,
            )
        }),
    ensures
        text::contains(telemetry::exposition(s), p),
{
    let none = Seq::<char>::empty();
    let h1 = "# HELP switchyard_requests_total Total completed requests.\n"@
        + "# TYPE switchyard_requests_total counter\n"@;
    let ok = telemetry::request_samples(s.requests_ok.keys(), s.requests_ok.values(), "ok"@);
    let err = telemetry::request_samples(
        s.requests_err.keys(),
        s.requests_err.values(),
        "error"@,
    );
    let h2 = "# HELP switchyard_tokens_total Total tokens.\n"@
        + "# TYPE switchyard_tokens_total counter\n"@;
    let tokens = telemetry::token_samples(s.tokens.keys(), s.tokens.values());
    let h3 = "# HELP switchyard_request_duration_seconds Request duration histogram.\n"@
        + "# TYPE switchyard_request_duration_seconds histogram\n"@;
    let durations = telemetry::duration_samples(s.duration.keys(), s.duration.values());
    let whole = telemetry::exposition(s);
    assert(whole =~= h1 + ok + err + h2 + tokens + h3 + durations);
    if text::contains(ok, p) {
        lemma_holds_in_more(h1, ok, err + h2 + tokens + h3 + durations, p);
        assert(h1 + ok + (err + h2 + tokens + h3 + durations) =~= whole);
    } else if text::contains(err, p) {
        lemma_holds_in_more(h1 + ok, err, h2 + tokens + h3 + durations, p);
        assert((h1 + ok) + err + (h2 + tokens + h3 + durations) =~= whole);
    } else if text::contains(tokens, p) {
        lemma_holds_in_more(h1 + ok + err + h2, tokens, h3 + durations, p);
        assert((h1 + ok + err + h2) + tokens + (h3 + durations) =~= whole);
    } else {
        lemma_holds_in_more(h1 + ok + err + h2 + tokens + h3, durations, none, p);
        assert((h1 + ok + err + h2 + tokens + h3) + durations + none =~= whole);
    }
}

/// The metrics show each request counter with its provider, its model and how
/// the requests ended.
pub proof fn law_request_counters_are_shown(
    s: TelemetryState,
    provider: Seq<char>,
    model: Seq<char>,
)
    requires
        s.wf(),
    ensures
        s.requests_ok@.contains_key(seq![provider, model]) ==> text::contains(
            telemetry::exposition(s),
            "switchyard_requests_total"@ + "{"@ + ("provider=\""@ + provider + "\",model=\""@
                + model + "\""@ + ",class=\""@ + "ok"@ + "\""@) + "} "@ + text::decimal(
                s.requests_ok@[seq![provider, model]] as nat,
            ) + "\n"@,
        ),
        s.requests_err@.contains_key(seq![provider, model]) ==> text::contains(
            telemetry::exposition(s),
            "switchyard_requests_total"@ + "{"@ + ("provider=\""@ + provider + "\",model=\""@
                + model + "\""@ + ",class=\""@ + "error"@ + "\""@) + "} "@ + text::decimal(
                s.requests_err@[seq![provider, model]] as nat,
            ) + "\n"@,
        ),
{
    let k = seq![provider, model];
    assert(k[0] == provider && k[1] == model);
    if s.requests_ok@.contains_key(k) {
        let i = lemma_entry(s.requests_ok, k);
        lemma_request_line(s.requests_ok.keys(), s.requests_ok.values(), "ok"@, i);
        lemma_exposition_parts(s, telemetry::request_sample(k, "ok"@, s.requests_ok@[k]));
    }
    if s.requests_err@.contains_key(k) {
        let i = lemma_entry(s.requests_err, k);
        lemma_request_line(s.requests_err.keys(), s.requests_err.values(), "error"@, i);
        lemma_exposition_parts(s, telemetry::request_sample(k, "error"@, s.requests_err@[k]));
    }
}

/// The metrics show each token counter with its provider, its model and its
/// kind.
pub proof fn law_token_counters_are_shown(
    s: TelemetryState,
    provider: Seq<char>,
    model: Seq<char>,
    kind: Seq<char>,
)
    requires
        s.wf(),
        s.tokens@.contains_key(seq![provider, model, kind]),
    ensures
        text::contains(
            telemetry::exposition(s),
            "switchyard_tokens_total"@ + "{"@ + ("provider=\""@ + provider + "\",model=\""@ + model
                + "\""@ + ",kind=\""@ + kind + "\""@) + "} "@ + text::decimal(
                s.tokens@[seq![provider, model, kind]] as nat,
            ) + "\n"@,
        ),
{
    let k = seq![provider, model, kind];
    assert(k[0] == provider && k[1] == model && k[2] == kind);
    let i = lemma_entry(s.tokens, k);
    lemma_token_line(s.tokens.keys(), s.tokens.values(), i);
    lemma_exposition_parts(s, telemetry::token_sample(k, s.tokens@[k]));
}

/// What a histogram is shown as: its buckets by their bounds in seconds, the
/// last without a bound, then the number and the sum of its durations.
pub proof fn law_histograms_are_shown(
    s: TelemetryState,
    provider: Seq<char>,
    model: Seq<char>,
    i: int,
)
    requires
        s.wf(),
        s.duration@.contains_key(seq![provider, model]),
        0 <= i < bounds().len(),
    ensures
        ({
            let h = s.duration@[seq![provider, model]];
            let name = "provider=\""@ + provider + "\",model=\""@ + model + "\""@;
            let (le, bound) = bounds()[i];
            &&& text::contains(
                telemetry::exposition(s),
                "switchyard_request_duration_seconds_bucket"@ + "{"@ + (name + ",le=\""@ + le
                    + "\""@) + "} "@ + text::decimal(bucket(h, bound)->Some_0 as nat) + "\n"@,
            )
            &&& text::contains(
                telemetry::exposition(s),
                "switchyard_request_duration_seconds_bucket"@ + "{"@ + (name + ",le=\""@
                    + "+Inf"@ + "\""@) + "} "@ + text::decimal(h.count as nat) + "\n"@,
            )
            &&& text::contains(
                telemetry::exposition(s),
                "switchyard_request_duration_seconds_count"@ + "{"@ + name + "} "@ + text::decimal(
                    h.count as nat,
                ) + "\n"@,
            )
            &&& text::contains(
                telemetry::exposition(s),
                "switchyard_request_duration_seconds_sum"@ + "{"@ + name + "} "@
                    + telemetry::seconds_text(h.sum as nat) + "\n"@,
            )
        }),
{
    let k = seq![provider, model];
    assert(k[0] == provider && k[1] == model);
    let h = s.duration@[k];
    let at = lemma_entry(s.duration, k);
    lemma_duration_lines(s.duration.keys(), s.duration.values(), at);
    let all = telemetry::histogram_samples(k, h);
    let whole = telemetry::duration_samples(s.duration.keys(), s.duration.values());
    let (le, bound) = bounds()[i];
    lemma_histogram_line(k, h, i);
    let a = telemetry::bucket_sample(k, le, bucket(h, bound)->Some_0);
    let b = telemetry::bucket_sample(k, "+Inf"@, h.count);
    let c = telemetry::sample(
        "switchyard_request_duration_seconds_count"@,
        telemetry::labels(k),
        text::decimal(h.count as nat),
    );
    let d = telemetry::sample(
        "switchyard_request_duration_seconds_sum"@,
        telemetry::labels(k),
        telemetry::seconds_text(h.sum as nat),
    );
    lemma_part_of_part(whole, all, a);
    lemma_part_of_part(whole, all, b);
    lemma_part_of_part(whole, all, c);
    lemma_part_of_part(whole, all, d);
    lemma_exposition_parts(s, a);
    lemma_exposition_parts(s, b);
    lemma_exposition_parts(s, c);
    lemma_exposition_parts(s, d);
}

/// The bounds of the buckets, as they are written and in nanoseconds.
pub open spec fn bounds() -> Seq<(Seq<char>, int)> {
    seq![
        ("0.1"@, 100_000_000),
        ("0.5"@, 500_000_000),
        ("1"@, 1_000_000_000),
        ("2"@, 2_000_000_000),
        ("5"@, 5_000_000_000),
        ("10"@, 10_000_000_000),
        ("30"@, 30_000_000_000),
        ("60"@, 60_000_000_000),
        ("120"@, 120_000_000_000),
        ("300"@, 300_000_000_000),
    ]
}

/// What is part of a part is part of the whole.
proof fn lemma_part_of_part(whole: Seq<char>, part: Seq<char>, p: Seq<char>)
    requires
        text::contains(whole, part),
        text::contains(part, p),
    ensures
        text::contains(whole, p),
{
    let i = choose|i: int| #[trigger] text::occurs_at(whole, part, i);
    let j = choose|j: int| #[trigger] text::occurs_at(part, p, j);
    assert(part =~= whole.subrange(i, i + part.len()));
    assert(whole.subrange(i + j, i + j + p.len()) =~= part.subrange(j, j + p.len()));
    assert(text::occurs_at(whole, p, i + j));
}

/// The texts one after the other.
spec fn flat(parts: Seq<Seq<char>>) -> Seq<char>
    decreases parts.len(),
{
    if parts.len() == 0 {
        Seq::empty()
    } else {
        flat(parts.drop_last()) + parts.last()
    }
}

proof fn lemma_flat(parts: Seq<Seq<char>>, i: int)
    requires
        0 <= i < parts.len(),
    ensures
        text::contains(flat(parts), parts[i]),
    decreases parts.len(),
{
    let front = flat(parts.drop_last());
    let none = Seq::<char>::empty();
    if i < parts.len() - 1 {
        lemma_flat(parts.drop_last(), i);
        lemma_holds_in_more(none, front, parts.last(), parts[i]);
        assert(none + front + parts.last() =~= front + parts.last());
    } else {
        lemma_holds_itself(parts.last());
        lemma_holds_in_more(front, parts.last(), none, parts.last());
        assert(front + parts.last() + none =~= front + parts.last());
    }
}

/// The samples of a histogram as a row.
spec fn samples(k: Seq<Seq<char>>, h: Histogram) -> Seq<Seq<char>> {
    seq![
        telemetry::bucket_sample(k, "0.1"@, h.b01),
        telemetry::bucket_sample(k, "0.5"@, h.b05),
        telemetry::bucket_sample(k, "1"@, h.b1),
        telemetry::bucket_sample(k, "2"@, h.b2),
        telemetry::bucket_sample(k, "5"@, h.b5),
        telemetry::bucket_sample(k, "10"@, h.b10),
        telemetry::bucket_sample(k, "30"@, h.b30),
        telemetry::bucket_sample(k, "60"@, h.b60),
        telemetry::bucket_sample(k, "120"@, h.b120),
        telemetry::bucket_sample(k, "300"@, h.b300),
        telemetry::bucket_sample(k, "+Inf"@, h.count),
        telemetry::sample(
            "switchyard_request_duration_seconds_count"@,
            telemetry::labels(k),
            text::decimal(h.count as nat),
        ),
        telemetry::sample(
            "switchyard_request_duration_seconds_sum"@,
            telemetry::labels(k),
            telemetry::seconds_text(h.sum as nat),
        ),
    ]
}

proof fn lemma_flat_thirteen(p: Seq<Seq<char>>)
    requires
        p.len() == 13,
    ensures
        flat(p) == p[0] + p[1] + p[2] + p[3] + p[4] + p[5] + p[6] + p[7] + p[8] + p[9] + p[10]
            + p[11] + p[12],
{
    let none = Seq::<char>::empty();
    assert(p.take(13) =~= p);
    assert forall|n: int| 0 < n <= 13 implies flat(#[trigger] p.take(n)) == flat(p.take(n - 1))
        + p[n - 1] by {
        assert(p.take(n).drop_last() =~= p.take(n - 1));
    }
    assert(p.take(0) =~= Seq::<Seq<char>>::empty());
    assert(flat(p.take(1)) == flat(p.take(0)) + p[0]);
    assert(none + p[0] =~= p[0]);
    assert(flat(p.take(2)) == flat(p.take(1)) + p[1]);
    assert(flat(p.take(3)) == flat(p.take(2)) + p[2]);
    assert(flat(p.take(4)) == flat(p.take(3)) + p[3]);
    assert(flat(p.take(5)) == flat(p.take(4)) + p[4]);
    assert(flat(p.take(6)) == flat(p.take(5)) + p[5]);
    assert(flat(p.take(7)) == flat(p.take(6)) + p[6]);
    assert(flat(p.take(8)) == flat(p.take(7)) + p[7]);
    assert(flat(p.take(9)) == flat(p.take(8)) + p[8]);
    assert(flat(p.take(10)) == flat(p.take(9)) + p[9]);
    assert(flat(p.take(11)) == flat(p.take(10)) + p[10]);
    assert(flat(p.take(12)) == flat(p.take(11)) + p[11]);
    assert(flat(p.take(13)) == flat(p.take(12)) + p[12]);
}

#[verifier::spinoff_prover]
proof fn lemma_histogram_line(k: Seq<Seq<char>>, h: Histogram, i: int)
    requires
        0 <= i < bounds().len(),
    ensures
        ({
            let all = telemetry::histogram_samples(k, h);
            let (le, bound) = bounds()[i];
            &&& bucket(h, bound) is Some
            &&& text::contains(all, telemetry::bucket_sample(k, le, bucket(h, bound)->Some_0))
            &&& text::contains(all, telemetry::bucket_sample(k, "+Inf"@, h.count))
            &&& text::contains(
                all,
                telemetry::sample(
                    "switchyard_request_duration_seconds_count"@,
                    telemetry::labels(k),
                    text::decimal(h.count as nat),
                ),
            )
            &&& text::contains(
                all,
                telemetry::sample(
                    "switchyard_request_duration_seconds_sum"@,
                    telemetry::labels(k),
                    telemetry::seconds_text(h.sum as nat),
                ),
            )
        }),
{
    reveal(telemetry::histogram_samples);
    let p = samples(k, h);
    lemma_flat_thirteen(p);
    assert(telemetry::histogram_samples(k, h) == flat(p));
    lemma_flat(p, i);
    lemma_flat(p, 10);
    lemma_flat(p, 11);
    lemma_flat(p, 12);
    assert(i == 0 || i == 1 || i == 2 || i == 3 || i == 4 || i == 5 || i == 6 || i == 7 || i == 8
        || i == 9);
}

/// Whole seconds are written as a whole number, and others with the whole
/// seconds in front of the point.
pub proof fn law_seconds_are_written(secs: nat, rest: nat)
    requires
        rest < 1_000_000_000,
    ensures
        telemetry::seconds_text(secs * 1_000_000_000) == text::decimal(secs),
        rest > 0 ==> (text::decimal(secs) + "."@).is_prefix_of(
            telemetry::seconds_text(secs * 1_000_000_000 + rest),
        ),
{
    let nanos = secs * 1_000_000_000 + rest;
    assert(nanos / 1_000_000_000 == secs && nanos % 1_000_000_000 == rest);
    if rest > 0 {
        let front = text::decimal(secs) + "."@;
        let whole = telemetry::seconds_text(nanos);
        assert(whole.subrange(0, front.len() as int) =~= front);
    }
}

/// The value of digits behind the point, in units of the last of `places`.
pub open spec fn fraction_value(digits: Seq<char>, places: nat) -> nat
    decreases places,
{
    if places == 0 {
        0
    } else if digits.len() == places {
        text::digits_value(digits)
    } else {
        10 * fraction_value(digits, (places - 1) as nat)
    }
}

proof fn lemma_padded(n: nat, places: nat)
    requires
        n < vstd::arithmetic::power::pow(10, places),
    ensures
        telemetry::padded(n, places).len() == places,
        text::digits_value(telemetry::padded(n, places)) == n,
    decreases places,
{
    vstd::arithmetic::power::lemma_pow0(10);
    if places > 0 {
        vstd::arithmetic::power::lemma_pow_adds(10, 1, (places - 1) as nat);
        vstd::arithmetic::power::lemma_pow1(10);
        let p = vstd::arithmetic::power::pow(10, (places - 1) as nat);
        assert(n < 10 * p);
        assert(n / 10 < p);
        lemma_padded(n / 10, (places - 1) as nat);
        let s = telemetry::padded(n, places);
        assert(s.drop_last() =~= telemetry::padded(n / 10, (places - 1) as nat));
        assert(s.last() == text::digit(n % 10));
    }
}

/// The digits behind the point tell the fraction to the nanosecond.
pub proof fn law_fractions_are_exact(n: nat, places: nat)
    requires
        0 < n < vstd::arithmetic::power::pow(10, places),
    ensures
        fraction_value(telemetry::fraction_digits(n, places), places) == n,
        telemetry::fraction_digits(n, places).len() <= places,
    decreases places,
{
    vstd::arithmetic::power::lemma_pow0(10);
    assert(places > 0);
    if n % 10 == 0 {
        vstd::arithmetic::power::lemma_pow_adds(10, 1, (places - 1) as nat);
        vstd::arithmetic::power::lemma_pow1(10);
        let p = vstd::arithmetic::power::pow(10, (places - 1) as nat);
        assert(n < 10 * p);
        assert(0 < n / 10 < p);
        law_fractions_are_exact(n / 10, (places - 1) as nat);
    } else {
        lemma_padded(n, places);
    }
}

/// A counter of tokens that is no integer counts as none.
pub proof fn law_odd_counters_count_as_none(v: JsonView, u: JsonView, name: Seq<char>, x: JsonView)
    requires
        wire::has(v, "usage"@, u),
        wire::has(u, name, x),
        !(x is Number),
    ensures
        telemetry::usage_counter(v, name) == 0,
{
}

/// An event that does not say what it is tells no output tokens.
pub proof fn law_nameless_events_tell_no_output(a: AccountView, event: JsonView)
    requires
        wire::lacks(event, "type"@),
    ensures
        telemetry::account_after(a, Some(event)).output_tokens == a.output_tokens,
{
}

/// A counter that is absent, and one that no counter can be, counts as none.
pub proof fn law_absent_counters_count_as_none(
    v: JsonView,
    u: JsonView,
    name: Seq<char>,
    n: int,
)
    requires
        wire::has(v, "usage"@, u),
        wire::lacks(u, name) || wire::has_integer(u, name, n) && (n < 0 || n > u64::MAX),
    ensures
        telemetry::usage_counter(v, name) == 0,
{
}

} // verus!
