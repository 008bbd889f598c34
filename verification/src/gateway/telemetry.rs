//! Usage accounting and Prometheus metrics for the gateway.
//!
//! Per-request counters (requests, errors, tokens) and latency histograms are
//! keyed by provider, model, and UTC day. They are shown as JSON rows and as
//! Prometheus text. Durations are counted in nanoseconds.

use vstd::prelude::*;
use vstd::string::*;

use crate::gateway::backend::{BackendError, BackendErrorView};
use crate::json::{Json, JsonView};
use crate::sorted;
use crate::sorted::SortedMap;
use crate::text;

verus! {

// ---------------------------------------------------------------------------
// Counters
// ---------------------------------------------------------------------------

/// Per-(provider, model, day) usage counters.
#[derive(Debug, Clone, Copy, PartialEq, Eq, Structural)]
pub struct UsageRow {
    pub requests: u64,
    pub errors: u64,
    pub input_tokens: u64,
    pub output_tokens: u64,
}

pub open spec fn no_requests() -> UsageRow {
    UsageRow { requests: 0, errors: 0, input_tokens: 0, output_tokens: 0 }
}

impl Default for UsageRow {
    fn default() -> (r: UsageRow)
        ensures
            r == no_requests(),
    {
        UsageRow { requests: 0, errors: 0, input_tokens: 0, output_tokens: 0 }
    }
}

/// A latency histogram: for each bound how many durations did not exceed it,
/// their number and their sum in nanoseconds.
#[derive(Debug, Clone, Copy, PartialEq, Eq, Structural)]
pub struct Histogram {
    pub b01: u64,
    pub b05: u64,
    pub b1: u64,
    pub b2: u64,
    pub b5: u64,
    pub b10: u64,
    pub b30: u64,
    pub b60: u64,
    pub b120: u64,
    pub b300: u64,
    pub count: u64,
    pub sum: u128,
}

pub open spec fn no_durations() -> Histogram {
    Histogram {
        b01: 0,
        b05: 0,
        b1: 0,
        b2: 0,
        b5: 0,
        b10: 0,
        b30: 0,
        b60: 0,
        b120: 0,
        b300: 0,
        count: 0,
        sum: 0,
    }
}

impl Default for Histogram {
    fn default() -> (r: Histogram)
        ensures
            r == no_durations(),
    {
        Histogram {
            b01: 0,
            b05: 0,
            b1: 0,
            b2: 0,
            b5: 0,
            b10: 0,
            b30: 0,
            b60: 0,
            b120: 0,
            b300: 0,
            count: 0,
            sum: 0,
        }
    }
}

/// A bucket after a duration that may fall into it.
pub open spec fn bumped(bucket: u64, hit: bool) -> u64 {
    if hit {
        (bucket + 1) as u64
    } else {
        bucket
    }
}

impl Histogram {
    /// The buckets grow with their bounds, none of them beyond the number of
    /// durations.
    pub open spec fn wf(self) -> bool {
        self.b01 <= self.b05 <= self.b1 <= self.b2 <= self.b5 <= self.b10 <= self.b30 <= self.b60
            <= self.b120 <= self.b300 <= self.count
    }

    /// Whether one more duration can be counted.
    pub open spec fn has_room(self, nanos: u64) -> bool {
        self.count < u64::MAX && self.sum + nanos <= u128::MAX
    }

    pub open spec fn observed(self, nanos: u64) -> Histogram {
        Histogram {
            b01: bumped(self.b01, nanos <= 100_000_000),
            b05: bumped(self.b05, nanos <= 500_000_000),
            b1: bumped(self.b1, nanos <= 1_000_000_000),
            b2: bumped(self.b2, nanos <= 2_000_000_000),
            b5: bumped(self.b5, nanos <= 5_000_000_000),
            b10: bumped(self.b10, nanos <= 10_000_000_000),
            b30: bumped(self.b30, nanos <= 30_000_000_000),
            b60: bumped(self.b60, nanos <= 60_000_000_000),
            b120: bumped(self.b120, nanos <= 120_000_000_000),
            b300: bumped(self.b300, nanos <= 300_000_000_000),
            count: (self.count + 1) as u64,
            sum: (self.sum + nanos) as u128,
        }
    }

    /// Count a duration.
    pub fn observe(&mut self, nanos: u64)
        requires
            old(self).wf(),
            old(self).has_room(nanos),
        ensures
            *final(self) == old(self).observed(nanos),
            final(self).wf(),
    {
        if nanos <= 100_000_000 {
            self.b01 = self.b01 + 1;
        }
        if nanos <= 500_000_000 {
            self.b05 = self.b05 + 1;
        }
        if nanos <= 1_000_000_000 {
            self.b1 = self.b1 + 1;
        }
        if nanos <= 2_000_000_000 {
            self.b2 = self.b2 + 1;
        }
        if nanos <= 5_000_000_000 {
            self.b5 = self.b5 + 1;
        }
        if nanos <= 10_000_000_000 {
            self.b10 = self.b10 + 1;
        }
        if nanos <= 30_000_000_000 {
            self.b30 = self.b30 + 1;
        }
        if nanos <= 60_000_000_000 {
            self.b60 = self.b60 + 1;
        }
        if nanos <= 120_000_000_000 {
            self.b120 = self.b120 + 1;
        }
        if nanos <= 300_000_000_000 {
            self.b300 = self.b300 + 1;
        }
        self.count = self.count + 1;
        self.sum = self.sum + nanos as u128;
    }
}

// ---------------------------------------------------------------------------
// State
// ---------------------------------------------------------------------------

/// Telemetry state shared between the backend wrapper and HTTP handlers.
#[derive(Debug)]
pub struct TelemetryState {
    pub usage: SortedMap<UsageRow>,
    pub requests_ok: SortedMap<u64>,
    pub requests_err: SortedMap<u64>,
    pub tokens: SortedMap<u64>,
    pub duration: SortedMap<Histogram>,
}

/// What the state holds: usage by provider, model and day; requests and
/// durations by provider and model; tokens by provider, model and kind.
pub struct TelemetryView {
    pub usage: Map<Seq<Seq<char>>, UsageRow>,
    pub requests_ok: Map<Seq<Seq<char>>, u64>,
    pub requests_err: Map<Seq<Seq<char>>, u64>,
    pub tokens: Map<Seq<Seq<char>>, u64>,
    pub duration: Map<Seq<Seq<char>>, Histogram>,
}

impl View for TelemetryState {
    type V = TelemetryView;

    open spec fn view(&self) -> TelemetryView {
        TelemetryView {
            usage: self.usage@,
            requests_ok: self.requests_ok@,
            requests_err: self.requests_err@,
            tokens: self.tokens@,
            duration: self.duration@,
        }
    }
}

/// Whether every key of a map is a row of `n` texts.
pub open spec fn keys_have<V>(m: Map<Seq<Seq<char>>, V>, n: nat) -> bool {
    forall|k: Seq<Seq<char>>| #[trigger] m.contains_key(k) ==> k.len() == n
}

impl TelemetryState {
    pub open spec fn wf(self) -> bool {
        &&& self.usage.wf() && keys_have(self.usage@, 3)
        &&& self.requests_ok.wf() && keys_have(self.requests_ok@, 2)
        &&& self.requests_err.wf() && keys_have(self.requests_err@, 2)
        &&& self.tokens.wf() && keys_have(self.tokens@, 3)
        &&& self.duration.wf() && keys_have(self.duration@, 2)
        &&& forall|k: Seq<Seq<char>>| #[trigger]
            self.duration@.contains_key(k) ==> self.duration@[k].wf()
    }
}

pub open spec fn key2(a: Seq<char>, b: Seq<char>) -> Seq<Seq<char>> {
    seq![a, b]
}

pub open spec fn key3(a: Seq<char>, b: Seq<char>, c: Seq<char>) -> Seq<Seq<char>> {
    seq![a, b, c]
}

fn make_key2(a: &str, b: &str) -> (r: Vec<String>)
    ensures
        text::views(r@) == key2(a@, b@),
{
    let mut r: Vec<String> = Vec::new();
    r.push(a.to_owned());
    r.push(b.to_owned());
    assert(text::views(r@) =~= key2(a@, b@));
    r
}

fn make_key3(a: &str, b: &str, c: &str) -> (r: Vec<String>)
    ensures
        text::views(r@) == key3(a@, b@, c@),
{
    let mut r: Vec<String> = Vec::new();
    r.push(a.to_owned());
    r.push(b.to_owned());
    r.push(c.to_owned());
    assert(text::views(r@) =~= key3(a@, b@, c@));
    r
}

/// What a map holds under a key, or else the given value.
pub open spec fn at_or<V>(m: Map<Seq<Seq<char>>, V>, k: Seq<Seq<char>>, zero: V) -> V {
    if m.contains_key(k) {
        m[k]
    } else {
        zero
    }
}

fn count_at(m: &SortedMap<u64>, key: &Vec<String>) -> (r: u64)
    requires
        m.wf(),
    ensures
        r == at_or(m@, text::views(key@), 0u64),
{
    match m.get(key) {
        Some(n) => *n,
        None => 0,
    }
}

/// `m` with `n` added to the counter under `k`; nothing is done for 0.
pub open spec fn counted(m: Map<Seq<Seq<char>>, u64>, k: Seq<Seq<char>>, n: u64) -> Map<
    Seq<Seq<char>>,
    u64,
> {
    if n > 0 {
        m.insert(k, (at_or(m, k, 0u64) + n) as u64)
    } else {
        m
    }
}

fn count(m: &mut SortedMap<u64>, key: Vec<String>, n: u64)
    requires
        old(m).wf(),
        at_or(old(m)@, text::views(key@), 0u64) + n <= u64::MAX,
    ensures
        final(m).wf(),
        final(m)@ == counted(old(m)@, text::views(key@), n),
{
    if n > 0 {
        let before: u64 = count_at(m, &key);
        m.insert(key, before + n);
    }
}

/// A finished request.
pub struct Completion {
    pub provider: Seq<char>,
    pub model: Seq<char>,
    pub day: Seq<char>,
    pub ok: bool,
    pub input_tokens: u64,
    pub output_tokens: u64,
    pub nanos: Option<u64>,
}

pub open spec fn usage_after(row: UsageRow, c: Completion) -> UsageRow {
    UsageRow {
        requests: (row.requests + 1) as u64,
        errors: bumped(row.errors, !c.ok),
        input_tokens: (row.input_tokens + c.input_tokens) as u64,
        output_tokens: (row.output_tokens + c.output_tokens) as u64,
    }
}

pub open spec fn duration_after(
    m: Map<Seq<Seq<char>>, Histogram>,
    k: Seq<Seq<char>>,
    nanos: Option<u64>,
) -> Map<Seq<Seq<char>>, Histogram> {
    match nanos {
        Some(n) => m.insert(k, at_or(m, k, no_durations()).observed(n)),
        None => m,
    }
}

/// The state after a finished request: one more request of its kind, its
/// tokens, and its duration where one is given.
pub open spec fn recorded(s: TelemetryView, c: Completion) -> TelemetryView {
    let route = key2(c.provider, c.model);
    let row = key3(c.provider, c.model, c.day);
    TelemetryView {
        usage: s.usage.insert(row, usage_after(at_or(s.usage, row, no_requests()), c)),
        requests_ok: if c.ok {
            counted(s.requests_ok, route, 1)
        } else {
            s.requests_ok
        },
        requests_err: if c.ok {
            s.requests_err
        } else {
            counted(s.requests_err, route, 1)
        },
        tokens: counted(
            counted(s.tokens, key3(c.provider, c.model, "input"@), c.input_tokens),
            key3(c.provider, c.model, "output"@),
            c.output_tokens,
        ),
        duration: duration_after(s.duration, route, c.nanos),
    }
}

/// Whether none of the counters that a finished request adds to is full.
pub open spec fn recordable(s: TelemetryView, c: Completion) -> bool {
    let route = key2(c.provider, c.model);
    let row = at_or(s.usage, key3(c.provider, c.model, c.day), no_requests());
    &&& row.requests < u64::MAX
    &&& !c.ok ==> row.errors < u64::MAX
    &&& row.input_tokens + c.input_tokens <= u64::MAX
    &&& row.output_tokens + c.output_tokens <= u64::MAX
    &&& c.ok ==> at_or(s.requests_ok, route, 0u64) < u64::MAX
    &&& !c.ok ==> at_or(s.requests_err, route, 0u64) < u64::MAX
    &&& at_or(s.tokens, key3(c.provider, c.model, "input"@), 0u64) + c.input_tokens <= u64::MAX
    &&& at_or(s.tokens, key3(c.provider, c.model, "output"@), 0u64) + c.output_tokens <= u64::MAX
    &&& c.nanos matches Some(n) ==> at_or(s.duration, route, no_durations()).has_room(n)
}

pub open spec fn completion(
    provider: Seq<char>,
    model: Seq<char>,
    day: Seq<char>,
    ok: bool,
    input_tokens: u64,
    output_tokens: u64,
    nanos: Option<u64>,
) -> Completion {
    Completion { provider, model, day, ok, input_tokens, output_tokens, nanos }
}

proof fn lemma_token_keys(provider: Seq<char>, model: Seq<char>)
    ensures
        key3(provider, model, "input"@) != key3(provider, model, "output"@),
{
    reveal_strlit("input");
    reveal_strlit("output");
    assert("input"@.len() == 5 && "output"@.len() == 6);
    assert(key3(provider, model, "input"@)[2] == "input"@);
    assert(key3(provider, model, "output"@)[2] == "output"@);
}

impl TelemetryState {
    pub fn new() -> (r: TelemetryState)
        ensures
            r.wf(),
            r@ == (TelemetryView {
                usage: Map::empty(),
                requests_ok: Map::empty(),
                requests_err: Map::empty(),
                tokens: Map::empty(),
                duration: Map::empty(),
            }),
    {
        TelemetryState {
            usage: SortedMap::new(),
            requests_ok: SortedMap::new(),
            requests_err: SortedMap::new(),
            tokens: SortedMap::new(),
            duration: SortedMap::new(),
        }
    }

    fn usage_at(&self, key: &Vec<String>) -> (r: UsageRow)
        requires
            self.wf(),
        ensures
            r == at_or(self@.usage, text::views(key@), no_requests()),
    {
        match self.usage.get(key) {
            Some(row) => *row,
            None => UsageRow::default(),
        }
    }

    fn duration_at(&self, key: &Vec<String>) -> (r: Histogram)
        requires
            self.wf(),
        ensures
            r == at_or(self@.duration, text::views(key@), no_durations()),
            r.wf(),
    {
        match self.duration.get(key) {
            Some(h) => *h,
            None => Histogram::default(),
        }
    }

    /// Whether a duration can be counted.
    pub fn can_observe(&self, provider: &str, model: &str, nanos: u64) -> (r: bool)
        requires
            self.wf(),
        ensures
            r == at_or(self@.duration, key2(provider@, model@), no_durations()).has_room(nanos),
    {
        let h = self.duration_at(&make_key2(provider, model));
        h.count < u64::MAX && h.sum <= u128::MAX - nanos as u128
    }

    /// Count a duration.
    pub fn observe(&mut self, provider: &str, model: &str, nanos: u64)
        requires
            old(self).wf(),
            at_or(old(self)@.duration, key2(provider@, model@), no_durations()).has_room(nanos),
        ensures
            final(self).wf(),
            final(self)@ == (TelemetryView {
                duration: duration_after(
                    old(self)@.duration,
                    key2(provider@, model@),
                    Some(nanos),
                ),
                ..old(self)@
            }),
    {
        let key = make_key2(provider, model);
        let mut h = self.duration_at(&key);
        h.observe(nanos);
        self.duration.insert(key, h);
    }

    /// Whether a finished request can be recorded without a counter running
    /// over.
    pub fn can_record(
        &self,
        provider: &str,
        model: &str,
        day: &str,
        ok: bool,
        input_tokens: u64,
        output_tokens: u64,
        nanos: Option<u64>,
    ) -> (r: bool)
        requires
            self.wf(),
        ensures
            r == recordable(
                self@,
                completion(
                    provider@,
                    model@,
                    day@,
                    ok,
                    input_tokens,
                    output_tokens,
                    nanos,
                ),
            ),
    {
        let row = self.usage_at(&make_key3(provider, model, day));
        let route = make_key2(provider, model);
        let tokens_in: u64 = count_at(&self.tokens, &make_key3(provider, model, "input"));
        let tokens_out: u64 = count_at(&self.tokens, &make_key3(provider, model, "output"));
        let done: u64 = if ok {
            count_at(&self.requests_ok, &route)
        } else {
            count_at(&self.requests_err, &route)
        };
        let fits = row.requests < u64::MAX && (ok || row.errors < u64::MAX) && row.input_tokens
            <= u64::MAX - input_tokens && row.output_tokens <= u64::MAX - output_tokens && done
            < u64::MAX && tokens_in <= u64::MAX - input_tokens && tokens_out <= u64::MAX
            - output_tokens;
        match nanos {
            Some(n) => fits && self.can_observe(provider, model, n),
            None => fits,
        }
    }

    /// Record a finished request.
    pub fn record_complete(
        &mut self,
        provider: &str,
        model: &str,
        day: &str,
        ok: bool,
        input_tokens: u64,
        output_tokens: u64,
        nanos: Option<u64>,
    )
        requires
            old(self).wf(),
            recordable(
                old(self)@,
                completion(
                    provider@,
                    model@,
                    day@,
                    ok,
                    input_tokens,
                    output_tokens,
                    nanos,
                ),
            ),
        ensures
            final(self).wf(),
            final(self)@ == recorded(
                old(self)@,
                completion(
                    provider@,
                    model@,
                    day@,
                    ok,
                    input_tokens,
                    output_tokens,
                    nanos,
                ),
            ),
            at_or(final(self)@.tokens, key3(provider@, model@, "input"@), 0u64) == at_or(
                old(self)@.tokens,
                key3(provider@, model@, "input"@),
                0u64,
            ) + input_tokens,
            at_or(final(self)@.tokens, key3(provider@, model@, "output"@), 0u64) == at_or(
                old(self)@.tokens,
                key3(provider@, model@, "output"@),
                0u64,
            ) + output_tokens,
    {
        // Usage row
        let row_key = make_key3(provider, model, day);
        let mut row = self.usage_at(&row_key);
        row.requests = row.requests + 1;
        if !ok {
            row.errors = row.errors + 1;
        }
        row.input_tokens = row.input_tokens + input_tokens;
        row.output_tokens = row.output_tokens + output_tokens;
        self.usage.insert(row_key, row);
        // Request counter
        if ok {
            count(&mut self.requests_ok, make_key2(provider, model), 1);
        } else {
            count(&mut self.requests_err, make_key2(provider, model), 1);
        }
        // Token counters
        proof {
            lemma_token_keys(provider@, model@);
        }
        count(&mut self.tokens, make_key3(provider, model, "input"), input_tokens);
        count(&mut self.tokens, make_key3(provider, model, "output"), output_tokens);
        // Duration histogram
        if let Some(n) = nanos {
            self.observe(provider, model, n);
        }
    }
}

/// Every request counts once, as a success or as an error, and adds its tokens
/// to the row of its day.
pub proof fn law_recording_counts_once(s: TelemetryView, c: Completion)
    requires
        recordable(s, c),
    ensures
        ({
            let row = key3(c.provider, c.model, c.day);
            let route = key2(c.provider, c.model);
            let before = at_or(s.usage, row, no_requests());
            let after = recorded(s, c).usage[row];
            &&& after.requests == before.requests + 1
            &&& after.errors == before.errors + (if c.ok {
                0int
            } else {
                1
            })
            &&& after.input_tokens == before.input_tokens + c.input_tokens
            &&& after.output_tokens == before.output_tokens + c.output_tokens
            &&& at_or(recorded(s, c).requests_ok, route, 0u64) + at_or(
                recorded(s, c).requests_err,
                route,
                0u64,
            ) == at_or(s.requests_ok, route, 0u64) + at_or(s.requests_err, route, 0u64) + 1
        }),
{
}

/// A request leaves the counters of other providers, models and days alone.
pub proof fn law_recording_is_local(s: TelemetryView, c: Completion, k: Seq<Seq<char>>)
    requires
        k != key3(c.provider, c.model, c.day),
    ensures
        recorded(s, c).usage.contains_key(k) == s.usage.contains_key(k),
        s.usage.contains_key(k) ==> recorded(s, c).usage[k] == s.usage[k],
{
}

/// The state after a row of finished requests.
pub open spec fn recorded_all(s: TelemetryView, cs: Seq<Completion>) -> TelemetryView
    decreases cs.len(),
{
    if cs.len() == 0 {
        s
    } else {
        recorded(recorded_all(s, cs.drop_last()), cs.last())
    }
}

/// Whether no counter runs over on the way through a row of finished requests.
pub open spec fn recordable_all(s: TelemetryView, cs: Seq<Completion>) -> bool
    decreases cs.len(),
{
    cs.len() == 0 || recordable_all(s, cs.drop_last()) && recordable(
        recorded_all(s, cs.drop_last()),
        cs.last(),
    )
}

/// The finished requests of one provider, model and day.
pub open spec fn of_row(cs: Seq<Completion>, row: Seq<Seq<char>>) -> Seq<Completion>
    decreases cs.len(),
{
    if cs.len() == 0 {
        Seq::empty()
    } else if key3(cs.last().provider, cs.last().model, cs.last().day) == row {
        of_row(cs.drop_last(), row).push(cs.last())
    } else {
        of_row(cs.drop_last(), row)
    }
}

/// How many of the requests failed.
pub open spec fn failures(cs: Seq<Completion>) -> nat
    decreases cs.len(),
{
    if cs.len() == 0 {
        0
    } else {
        failures(cs.drop_last()) + (if cs.last().ok {
            0nat
        } else {
            1
        })
    }
}

/// The sum of the input tokens.
pub open spec fn total_input(cs: Seq<Completion>) -> nat
    decreases cs.len(),
{
    if cs.len() == 0 {
        0
    } else {
        total_input(cs.drop_last()) + cs.last().input_tokens as nat
    }
}

/// The sum of the output tokens.
pub open spec fn total_output(cs: Seq<Completion>) -> nat
    decreases cs.len(),
{
    if cs.len() == 0 {
        0
    } else {
        total_output(cs.drop_last()) + cs.last().output_tokens as nat
    }
}

/// The usage of a provider, a model and a day is the sum over the requests
/// recorded for them: their number, the number of those that failed, and their
/// tokens.
pub proof fn law_usage_adds_up(s: TelemetryView, cs: Seq<Completion>, row: Seq<Seq<char>>)
    requires
        recordable_all(s, cs),
    ensures
        ({
            let before = at_or(s.usage, row, no_requests());
            let after = at_or(recorded_all(s, cs).usage, row, no_requests());
            let own = of_row(cs, row);
            &&& after.requests == before.requests + own.len()
            &&& after.errors == before.errors + failures(own)
            &&& after.input_tokens == before.input_tokens + total_input(own)
            &&& after.output_tokens == before.output_tokens + total_output(own)
        }),
    decreases cs.len(),
{
    if cs.len() > 0 {
        let front = cs.drop_last();
        let c = cs.last();
        let s2 = recorded_all(s, front);
        law_usage_adds_up(s, front, row);
        let own = of_row(front, row);
        if key3(c.provider, c.model, c.day) == row {
            law_recording_counts_once(s2, c);
            assert(own.push(c).drop_last() =~= own);
        } else {
            law_recording_is_local(s2, c, row);
        }
    }
}

// ---------------------------------------------------------------------------
// Snapshot
// ---------------------------------------------------------------------------

/// One row of the usage report.
#[derive(Debug, Clone, PartialEq, Eq)]
pub struct UsageSnapshotRow {
    pub provider: String,
    pub model: String,
    pub day: String,
    pub requests: u64,
    pub errors: u64,
    pub input_tokens: u64,
    pub output_tokens: u64,
}

impl UsageSnapshotRow {
    /// The key that the row stands for.
    pub open spec fn key(self) -> Seq<Seq<char>> {
        key3(self.provider@, self.model@, self.day@)
    }

    pub open spec fn counters(self) -> UsageRow {
        UsageRow {
            requests: self.requests,
            errors: self.errors,
            input_tokens: self.input_tokens,
            output_tokens: self.output_tokens,
        }
    }
}

impl TelemetryState {
    /// JSON snapshot rows for `/usage`: one for each key, sorted by provider,
    /// model and day.
    pub fn usage_snapshot(&self) -> (r: Vec<UsageSnapshotRow>)
        requires
            self.wf(),
        ensures
            forall|i: int|
                0 <= i < r@.len() ==> self@.usage.contains_key((#[trigger] r@[i]).key())
                    && self@.usage[r@[i].key()] == r@[i].counters(),
            forall|k: Seq<Seq<char>>| #[trigger]
                self@.usage.contains_key(k) ==> exists|i: int|
                    0 <= i < r@.len() && (#[trigger] r@[i]).key() == k,
            forall|i: int, j: int|
                0 <= i < j < r@.len() ==> sorted::row_before(
                    (#[trigger] r@[i]).key(),
                    (#[trigger] r@[j]).key(),
                ),
    {
        let ghost keys = self.usage.keys();
        let mut out: Vec<UsageSnapshotRow> = Vec::new();
        let mut i: usize = 0;
        while i < self.usage.entries.len()
            invariant
                i <= self.usage.entries@.len(),
                self.wf(),
                keys == self.usage.keys(),
                out@.len() == i,
                forall|j: int| 0 <= j < i ==> (#[trigger] out@[j]).key() == keys[j],
                forall|j: int| 0 <= j < i ==> (#[trigger] out@[j]).counters() == self.usage.values()[j],
            decreases self.usage.entries@.len() - i,
        {
            let key = &self.usage.entries[i].0;
            let row = &self.usage.entries[i].1;
            proof {
                self.usage.lemma_at(i as int);
                assert(keys[i as int] == text::views(key@));
                assert(text::views(key@).len() == 3);
            }
            let shown = UsageSnapshotRow {
                provider: key[0].clone(),
                model: key[1].clone(),
                day: key[2].clone(),
                requests: row.requests,
                errors: row.errors,
                input_tokens: row.input_tokens,
                output_tokens: row.output_tokens,
            };
            proof {
                assert(shown.key() =~= text::views(key@));
            }
            out.push(shown);
            i = i + 1;
        }
        proof {
            assert forall|j: int| 0 <= j < out@.len() implies self@.usage.contains_key(
                (#[trigger] out@[j]).key(),
            ) && self@.usage[out@[j].key()] == out@[j].counters() by {
                self.usage.lemma_at(j);
            }
            assert forall|k: Seq<Seq<char>>| #[trigger] self@.usage.contains_key(k) implies exists|
                j: int,
            | 0 <= j < out@.len() && (#[trigger] out@[j]).key() == k by {
                let j = keys.index_of(k);
                assert(out@[j].key() == keys[j]);
            }
        }
        out
    }
}

// ---------------------------------------------------------------------------
// Prometheus text
// ---------------------------------------------------------------------------

/// `provider="..",model=".."`.
pub open spec fn labels(key: Seq<Seq<char>>) -> Seq<char> {
    "provider=\""@ + key[0] + "\",model=\""@ + key[1] + "\""@
}

/// One sample: the metric, its labels and its value.
pub open spec fn sample(metric: Seq<char>, labels: Seq<char>, value: Seq<char>) -> Seq<char> {
    metric + "{"@ + labels + "} "@ + value + "\n"@
}

pub open spec fn request_sample(key: Seq<Seq<char>>, class: Seq<char>, n: u64) -> Seq<char> {
    sample(
        "switchyard_requests_total"@,
        labels(key) + ",class=\""@ + class + "\""@,
        text::decimal(n as nat),
    )
}

pub open spec fn token_sample(key: Seq<Seq<char>>, n: u64) -> Seq<char> {
    sample(
        "switchyard_tokens_total"@,
        labels(key) + ",kind=\""@ + key[2] + "\""@,
        text::decimal(n as nat),
    )
}

pub open spec fn bucket_sample(key: Seq<Seq<char>>, le: Seq<char>, n: u64) -> Seq<char> {
    sample(
        "switchyard_request_duration_seconds_bucket"@,
        labels(key) + ",le=\""@ + le + "\""@,
        text::decimal(n as nat),
    )
}

/// The digits of a fraction in billionths, without the zeros at its end.
pub open spec fn fraction_digits(n: nat, places: nat) -> Seq<char>
    decreases places,
{
    if n == 0 || places == 0 {
        Seq::empty()
    } else if n % 10 == 0 {
        fraction_digits(n / 10, (places - 1) as nat)
    } else {
        padded(n, places)
    }
}

/// The last `places` decimal digits of `n`.
pub open spec fn padded(n: nat, places: nat) -> Seq<char>
    decreases places,
{
    if places == 0 {
        Seq::empty()
    } else {
        padded(n / 10, (places - 1) as nat).push(text::digit(n % 10))
    }
}

/// Nanoseconds as seconds in decimal notation.
pub open spec fn seconds_text(nanos: nat) -> Seq<char> {
    let whole = text::decimal(nanos / 1_000_000_000);
    if nanos % 1_000_000_000 == 0 {
        whole
    } else {
        whole + "."@ + fraction_digits(nanos % 1_000_000_000, 9)
    }
}

/// The samples of one histogram.
#[verifier::opaque]
pub open spec fn histogram_samples(key: Seq<Seq<char>>, h: Histogram) -> Seq<char> {
    bucket_sample(key, "0.1"@, h.b01) + bucket_sample(key, "0.5"@, h.b05) + bucket_sample(
        key,
        "1"@,
        h.b1,
    ) + bucket_sample(key, "2"@, h.b2) + bucket_sample(key, "5"@, h.b5) + bucket_sample(
        key,
        "10"@,
        h.b10,
    ) + bucket_sample(key, "30"@, h.b30) + bucket_sample(key, "60"@, h.b60) + bucket_sample(
        key,
        "120"@,
        h.b120,
    ) + bucket_sample(key, "300"@, h.b300) + bucket_sample(key, "+Inf"@, h.count) + sample(
        "switchyard_request_duration_seconds_count"@,
        labels(key),
        text::decimal(h.count as nat),
    ) + sample(
        "switchyard_request_duration_seconds_sum"@,
        labels(key),
        seconds_text(h.sum as nat),
    )
}

/// The samples of request counters, one after the other.
pub open spec fn request_samples(
    keys: Seq<Seq<Seq<char>>>,
    values: Seq<u64>,
    class: Seq<char>,
) -> Seq<char>
    decreases keys.len(),
{
    if keys.len() == 0 {
        Seq::empty()
    } else {
        request_samples(keys.drop_last(), values.drop_last(), class) + request_sample(
            keys.last(),
            class,
            values.last(),
        )
    }
}

pub open spec fn token_samples(keys: Seq<Seq<Seq<char>>>, values: Seq<u64>) -> Seq<char>
    decreases keys.len(),
{
    if keys.len() == 0 {
        Seq::empty()
    } else {
        token_samples(keys.drop_last(), values.drop_last()) + token_sample(
            keys.last(),
            values.last(),
        )
    }
}

pub open spec fn duration_samples(keys: Seq<Seq<Seq<char>>>, values: Seq<Histogram>) -> Seq<char>
    decreases keys.len(),
{
    if keys.len() == 0 {
        Seq::empty()
    } else {
        duration_samples(keys.drop_last(), values.drop_last()) + histogram_samples(
            keys.last(),
            values.last(),
        )
    }
}

/// The whole exposition: requests, tokens and durations, each family with its
/// help and type lines before its samples, which come in the order of the
/// keys.
pub open spec fn exposition(s: TelemetryState) -> Seq<char> {
    "# HELP switchyard_requests_total Total completed requests.\n"@
        + "# TYPE switchyard_requests_total counter\n"@ + request_samples(
        s.requests_ok.keys(),
        s.requests_ok.values(),
        "ok"@,
    ) + request_samples(s.requests_err.keys(), s.requests_err.values(), "error"@)
        + "# HELP switchyard_tokens_total Total tokens.\n"@
        + "# TYPE switchyard_tokens_total counter\n"@ + token_samples(
        s.tokens.keys(),
        s.tokens.values(),
    ) + "# HELP switchyard_request_duration_seconds Request duration histogram.\n"@
        + "# TYPE switchyard_request_duration_seconds histogram\n"@ + duration_samples(
        s.duration.keys(),
        s.duration.values(),
    )
}

fn labels_text(key: &Vec<String>) -> (r: String)
    requires
        key@.len() >= 2,
    ensures
        r@ == labels(text::views(key@)),
{
    let mut r = text::concat3("provider=\"", key[0].as_str(), "\",model=\"");
    r.append(key[1].as_str());
    r.append("\"");
    r
}

fn push_sample(out: &mut String, metric: &str, labels: &str, value: &str)
    ensures
        final(out)@ == old(out)@ + sample(metric@, labels@, value@),
{
    let mut line = text::concat3(metric, "{", labels);
    line.append("} ");
    line.append(value);
    line.append("\n");
    out.append(line.as_str());
}

fn push_labelled(
    out: &mut String,
    metric: &str,
    key: &Vec<String>,
    label: &str,
    label_value: &str,
    n: u64,
)
    requires
        key@.len() >= 2,
    ensures
        final(out)@ == old(out)@ + sample(
            metric@,
            labels(text::views(key@)) + label@ + label_value@ + "\""@,
            text::decimal(n as nat),
        ),
{
    let mut all = labels_text(key);
    all.append(label);
    all.append(label_value);
    all.append("\"");
    let value = text::decimal_text(n as u128);
    push_sample(out, metric, all.as_str(), value.as_str());
}

fn push_requests(out: &mut String, m: &SortedMap<u64>, class: &str)
    requires
        m.wf(),
        keys_have(m@, 2),
    ensures
        final(out)@ == old(out)@ + request_samples(m.keys(), m.values(), class@),
{
    let ghost keys = m.keys();
    let ghost values = m.values();
    let ghost start = out@;
    let mut i: usize = 0;
    assert(start + request_samples(keys.take(0), values.take(0), class@) =~= start);
    while i < m.entries.len()
        invariant
            i <= m.entries@.len(),
            m.wf(),
            keys_have(m@, 2),
            keys == m.keys(),
            values == m.values(),
            out@ == start + request_samples(keys.take(i as int), values.take(i as int), class@),
        decreases m.entries@.len() - i,
    {
        let key = &m.entries[i].0;
        let n: u64 = m.entries[i].1;
        proof {
            m.lemma_at(i as int);
            assert(keys[i as int] == text::views(key@));
            assert(keys.take(i + 1).drop_last() =~= keys.take(i as int));
            assert(values.take(i + 1).drop_last() =~= values.take(i as int));
            assert(keys.take(i + 1).last() == text::views(key@));
            assert(values.take(i + 1).last() == n);
        }
        push_labelled(out, "switchyard_requests_total", key, ",class=\"", class, n);
        assert(out@ =~= start + request_samples(keys.take(i + 1), values.take(i + 1), class@));
        i = i + 1;
    }
    assert(keys.take(i as int) =~= keys);
    assert(values.take(i as int) =~= values);
}

fn push_tokens(out: &mut String, m: &SortedMap<u64>)
    requires
        m.wf(),
        keys_have(m@, 3),
    ensures
        final(out)@ == old(out)@ + token_samples(m.keys(), m.values()),
{
    let ghost keys = m.keys();
    let ghost values = m.values();
    let ghost start = out@;
    let mut i: usize = 0;
    assert(start + token_samples(keys.take(0), values.take(0)) =~= start);
    while i < m.entries.len()
        invariant
            i <= m.entries@.len(),
            m.wf(),
            keys_have(m@, 3),
            keys == m.keys(),
            values == m.values(),
            out@ == start + token_samples(keys.take(i as int), values.take(i as int)),
        decreases m.entries@.len() - i,
    {
        let key = &m.entries[i].0;
        let n: u64 = m.entries[i].1;
        proof {
            m.lemma_at(i as int);
            assert(keys[i as int] == text::views(key@));
            assert(keys.take(i + 1).drop_last() =~= keys.take(i as int));
            assert(values.take(i + 1).drop_last() =~= values.take(i as int));
            assert(keys.take(i + 1).last() == text::views(key@));
            assert(values.take(i + 1).last() == n);
        }
        push_labelled(out, "switchyard_tokens_total", key, ",kind=\"", key[2].as_str(), n);
        assert(out@ =~= start + token_samples(keys.take(i + 1), values.take(i + 1)));
        i = i + 1;
    }
    assert(keys.take(i as int) =~= keys);
    assert(values.take(i as int) =~= values);
}

fn padded_text(n: u32, places: u32) -> (r: String)
    ensures
        r@ == padded(n as nat, places as nat),
    decreases places,
{
    if places == 0 {
        let r = String::new();
        assert(r@ =~= Seq::<char>::empty());
        r
    } else {
        let mut r = padded_text(n / 10, places - 1);
        let last = text::decimal_text((n % 10) as u128);
        r.append(last.as_str());
        assert(r@ =~= padded(n as nat, places as nat));
        r
    }
}

fn fraction_text(n: u32, places: u32) -> (r: String)
    ensures
        r@ == fraction_digits(n as nat, places as nat),
    decreases places,
{
    if n == 0 || places == 0 {
        let r = String::new();
        assert(r@ =~= Seq::<char>::empty());
        r
    } else if n % 10 == 0 {
        fraction_text(n / 10, places - 1)
    } else {
        padded_text(n, places)
    }
}

fn seconds(nanos: u128) -> (r: String)
    ensures
        r@ == seconds_text(nanos as nat),
{
    let whole = text::decimal_text(nanos / 1_000_000_000);
    let rest: u32 = (nanos % 1_000_000_000) as u32;
    if rest == 0 {
        whole
    } else {
        let digits = fraction_text(rest, 9);
        text::concat3(whole.as_str(), ".", digits.as_str())
    }
}

fn push_bucket(out: &mut String, key: &Vec<String>, le: &str, n: u64)
    requires
        key@.len() >= 2,
    ensures
        final(out)@ == old(out)@ + bucket_sample(text::views(key@), le@, n),
{
    push_labelled(out, "switchyard_request_duration_seconds_bucket", key, ",le=\"", le, n);
}

fn histogram_text(key: &Vec<String>, h: &Histogram) -> (r: String)
    requires
        key@.len() >= 2,
    ensures
        r@ == histogram_samples(text::views(key@), *h),
{
    reveal(histogram_samples);
    let ghost k = text::views(key@);
    let mut out = String::new();
    push_bucket(&mut out, key, "0.1", h.b01);
    assert(out@ =~= bucket_sample(k, "0.1"@, h.b01));
    push_bucket(&mut out, key, "0.5", h.b05);
    push_bucket(&mut out, key, "1", h.b1);
    push_bucket(&mut out, key, "2", h.b2);
    push_bucket(&mut out, key, "5", h.b5);
    push_bucket(&mut out, key, "10", h.b10);
    push_bucket(&mut out, key, "30", h.b30);
    push_bucket(&mut out, key, "60", h.b60);
    push_bucket(&mut out, key, "120", h.b120);
    push_bucket(&mut out, key, "300", h.b300);
    push_bucket(&mut out, key, "+Inf", h.count);
    let all = labels_text(key);
    let count = text::decimal_text(h.count as u128);
    push_sample(
        &mut out,
        "switchyard_request_duration_seconds_count",
        all.as_str(),
        count.as_str(),
    );
    let sum = seconds(h.sum);
    push_sample(
        &mut out,
        "switchyard_request_duration_seconds_sum",
        all.as_str(),
        sum.as_str(),
    );
    out
}

fn push_durations(out: &mut String, m: &SortedMap<Histogram>)
    requires
        m.wf(),
        keys_have(m@, 2),
    ensures
        final(out)@ == old(out)@ + duration_samples(m.keys(), m.values()),
{
    let ghost keys = m.keys();
    let ghost values = m.values();
    let ghost start = out@;
    let mut i: usize = 0;
    assert(start + duration_samples(keys.take(0), values.take(0)) =~= start);
    while i < m.entries.len()
        invariant
            i <= m.entries@.len(),
            m.wf(),
            keys_have(m@, 2),
            keys == m.keys(),
            values == m.values(),
            out@ == start + duration_samples(keys.take(i as int), values.take(i as int)),
        decreases m.entries@.len() - i,
    {
        let key = &m.entries[i].0;
        let h = &m.entries[i].1;
        proof {
            m.lemma_at(i as int);
            assert(keys[i as int] == text::views(key@));
            assert(keys.take(i + 1).drop_last() =~= keys.take(i as int));
            assert(values.take(i + 1).drop_last() =~= values.take(i as int));
            assert(keys.take(i + 1).last() == text::views(key@));
            assert(values.take(i + 1).last() == *h);
        }
        let lines = histogram_text(key, h);
        out.append(lines.as_str());
        assert(out@ =~= start + duration_samples(keys.take(i + 1), values.take(i + 1)));
        i = i + 1;
    }
    assert(keys.take(i as int) =~= keys);
    assert(values.take(i as int) =~= values);
}

impl TelemetryState {
    /// Prometheus text exposition for `/metrics`.
    pub fn metrics_text(&self) -> (r: String)
        requires
            self.wf(),
        ensures
            r@ == exposition(*self),
    {
        let mut out = "# HELP switchyard_requests_total Total completed requests.\n".to_owned();
        out.append("# TYPE switchyard_requests_total counter\n");
        push_requests(&mut out, &self.requests_ok, "ok");
        push_requests(&mut out, &self.requests_err, "error");
        out.append("# HELP switchyard_tokens_total Total tokens.\n");
        out.append("# TYPE switchyard_tokens_total counter\n");
        push_tokens(&mut out, &self.tokens);
        out.append(
            "# HELP switchyard_request_duration_seconds Request duration histogram.\n",
        );
        out.append("# TYPE switchyard_request_duration_seconds histogram\n");
        push_durations(&mut out, &self.duration);
        out
    }
}

// ---------------------------------------------------------------------------
// Requests under way
// ---------------------------------------------------------------------------

/// The provider and the model that a route names; without a slash the
/// provider is unknown.
pub open spec fn route_of(model: Seq<char>) -> (Seq<char>, Seq<char>) {
    match text::split_at_first(model, '/') {
        Some(parts) => parts,
        None => ("unknown"@, model),
    }
}

pub fn parse_route(model: &str) -> (r: (String, String))
    ensures
        (r.0@, r.1@) == route_of(model@),
{
    match text::split_once(model, '/') {
        Some((provider, rest)) => (provider.to_owned(), rest.to_owned()),
        None => ("unknown".to_owned(), model.to_owned()),
    }
}

/// A token counter of the `usage` member, or 0.
pub open spec fn usage_counter(v: JsonView, name: Seq<char>) -> u64 {
    match v.get("usage"@) {
        Some(usage) => match usage.get_unsigned(name) {
            Some(n) => n,
            None => 0,
        },
        None => 0,
    }
}

fn get_usage_counter(v: &Json, name: &str) -> (r: u64)
    ensures
        r == usage_counter(v@, name@),
{
    match v.get("usage") {
        Some(usage) => match usage.get_u64(name) {
            Some(n) => n,
            None => 0,
        },
        None => 0,
    }
}

/// The input and output tokens that a response reports.
pub fn extract_complete_usage(value: &Json) -> (r: (u64, u64))
    ensures
        r.0 == usage_counter(value@, "input_tokens"@),
        r.1 == usage_counter(value@, "output_tokens"@),
{
    (get_usage_counter(value, "input_tokens"), get_usage_counter(value, "output_tokens"))
}

/// The tokens that an event adds to the input: those of the message that it
/// carries, as a message start does.
pub open spec fn started_input(event: JsonView) -> u64 {
    match event.get("message"@) {
        Some(message) => usage_counter(message, "input_tokens"@),
        None => 0,
    }
}

/// The output tokens that a message delta reports, if the event is one.
pub open spec fn reported_output(event: JsonView) -> Option<u64> {
    if event.get_text("type"@) == Some("message_delta"@) {
        match event.get("usage"@) {
            Some(usage) => usage.get_unsigned("output_tokens"@),
            None => None,
        }
    } else {
        None
    }
}

/// The accounts of a stream under way.
#[derive(Debug, PartialEq, Eq)]
pub struct StreamAccount {
    pub provider: String,
    pub model: String,
    pub first_event: bool,
    pub input_tokens: u64,
    pub output_tokens: u64,
    pub had_error: bool,
}

pub struct AccountView {
    pub provider: Seq<char>,
    pub model: Seq<char>,
    pub first_event: bool,
    pub input_tokens: u64,
    pub output_tokens: u64,
    pub had_error: bool,
}

impl View for StreamAccount {
    type V = AccountView;

    open spec fn view(&self) -> AccountView {
        AccountView {
            provider: self.provider@,
            model: self.model@,
            first_event: self.first_event,
            input_tokens: self.input_tokens,
            output_tokens: self.output_tokens,
            had_error: self.had_error,
        }
    }
}

/// The accounts of a stream that has not begun.
pub open spec fn opened(route: Seq<char>) -> AccountView {
    AccountView {
        provider: route_of(route).0,
        model: route_of(route).1,
        first_event: true,
        input_tokens: 0,
        output_tokens: 0,
        had_error: false,
    }
}

/// The accounts after an item of the stream: an event, or an error, which is
/// `None`. The tokens of a message start are added; a message delta reports
/// the output tokens so far.
pub open spec fn account_after(a: AccountView, item: Option<JsonView>) -> AccountView {
    match item {
        Some(event) => AccountView {
            first_event: false,
            input_tokens: (a.input_tokens + started_input(event)) as u64,
            output_tokens: match reported_output(event) {
                Some(n) => n,
                None => a.output_tokens,
            },
            ..a
        },
        None => AccountView { had_error: true, ..a },
    }
}

/// What the end of a stream records. The histogram has the time of the first
/// event already.
pub open spec fn account_completion(a: AccountView, day: Seq<char>) -> Completion {
    Completion {
        provider: a.provider,
        model: a.model,
        day,
        ok: !a.had_error,
        input_tokens: a.input_tokens,
        output_tokens: a.output_tokens,
        nanos: None,
    }
}

impl StreamAccount {
    pub fn new(route: &str) -> (r: StreamAccount)
        ensures
            r@ == opened(route@),
    {
        let (provider, model) = parse_route(route);
        StreamAccount {
            provider,
            model,
            first_event: true,
            input_tokens: 0,
            output_tokens: 0,
            had_error: false,
        }
    }

    /// Whether the input tokens of an event can be added.
    pub fn can_take(&self, event: &Json) -> (r: bool)
        ensures
            r == (self.input_tokens + started_input(event@) <= u64::MAX),
    {
        let add: u64 = match event.get("message") {
            Some(message) => get_usage_counter(message, "input_tokens"),
            None => 0,
        };
        self.input_tokens <= u64::MAX - add
    }

    /// Take account of an event. Returns whether it is the first one, whose
    /// time goes into the histogram.
    pub fn on_event(&mut self, event: &Json) -> (r: bool)
        requires
            old(self).input_tokens + started_input(event@) <= u64::MAX,
        ensures
            r == old(self).first_event,
            final(self)@ == account_after(old(self)@, Some(event@)),
    {
        let first = self.first_event;
        self.first_event = false;
        // Extract usage from message_start
        if let Some(message) = event.get("message") {
            self.input_tokens = self.input_tokens + get_usage_counter(message, "input_tokens");
        }
        // Extract usage from message_delta
        if let Some(kind) = event.get_str("type") {
            if text::same(kind, "message_delta") {
                if let Some(usage) = event.get("usage") {
                    if let Some(n) = usage.get_u64("output_tokens") {
                        self.output_tokens = n;
                    }
                }
            }
        }
        first
    }

    /// Take account of an error in the stream.
    pub fn on_error(&mut self)
        ensures
            final(self)@ == account_after(old(self)@, None),
    {
        self.had_error = true;
    }

    /// Whether the end of the stream can be recorded.
    pub fn can_commit(&self, state: &TelemetryState, day: &str) -> (r: bool)
        requires
            state.wf(),
        ensures
            r == recordable(state@, account_completion(self@, day@)),
    {
        state.can_record(
            self.provider.as_str(),
            self.model.as_str(),
            day,
            !self.had_error,
            self.input_tokens,
            self.output_tokens,
            None,
        )
    }

    /// Record the end of the stream.
    pub fn commit(&self, state: &mut TelemetryState, day: &str)
        requires
            old(state).wf(),
            recordable(old(state)@, account_completion(self@, day@)),
        ensures
            final(state).wf(),
            final(state)@ == recorded(old(state)@, account_completion(self@, day@)),
    {
        state.record_complete(
            self.provider.as_str(),
            self.model.as_str(),
            day,
            !self.had_error,
            self.input_tokens,
            self.output_tokens,
            None,
        );
    }
}

/// The accounts after a row of items.
pub open spec fn account_after_all(a: AccountView, items: Seq<Option<JsonView>>) -> AccountView
    decreases items.len(),
{
    if items.len() == 0 {
        a
    } else {
        account_after(account_after_all(a, items.drop_last()), items.last())
    }
}

/// The sum of the input tokens of a row of items.
pub open spec fn streamed_input(items: Seq<Option<JsonView>>) -> nat
    decreases items.len(),
{
    if items.len() == 0 {
        0
    } else {
        streamed_input(items.drop_last()) + (match items.last() {
            Some(event) => started_input(event) as nat,
            None => 0,
        })
    }
}

/// The output tokens that the last item to report any gives.
pub open spec fn streamed_output(items: Seq<Option<JsonView>>) -> u64
    decreases items.len(),
{
    if items.len() == 0 {
        0
    } else {
        match items.last() {
            Some(event) => match reported_output(event) {
                Some(n) => n,
                None => streamed_output(items.drop_last()),
            },
            None => streamed_output(items.drop_last()),
        }
    }
}

/// What a whole stream records: the input tokens of all its events, the output
/// tokens that it reported last, and a success where no item was an error.
pub proof fn law_stream_adds_up(route: Seq<char>, items: Seq<Option<JsonView>>, day: Seq<char>)
    requires
        streamed_input(items) <= u64::MAX,
    ensures
        ({
            let c = account_completion(account_after_all(opened(route), items), day);
            &&& (c.provider, c.model) == route_of(route)
            &&& c.day == day
            &&& c.input_tokens == streamed_input(items)
            &&& c.output_tokens == streamed_output(items)
            &&& c.ok <==> !items.contains(None)
            &&& c.nanos is None
        }),
    decreases items.len(),
{
    if items.len() > 0 {
        let front = items.drop_last();
        law_stream_adds_up(route, front, day);
        assert(items[items.len() - 1] == items.last());
        if front.contains(None) {
            let i = front.index_of(None);
            assert(items[i] == None::<JsonView>);
        }
        if items.contains(None) && items.last() is Some {
            let i = items.index_of(None);
            assert(front[i] == None::<JsonView>);
        }
    }
}

/// The first event of a stream, and no other, is the one whose time counts.
pub proof fn law_first_event_counts_once(a: AccountView, items: Seq<Option<JsonView>>)
    ensures
        account_after_all(a, items).first_event <==> a.first_event && forall|i: int|
            0 <= i < items.len() ==> (#[trigger] items[i]) is None,
    decreases items.len(),
{
    if items.len() > 0 {
        let front = items.drop_last();
        law_first_event_counts_once(a, front);
        assert(items[items.len() - 1] == items.last());
        assert forall|i: int| 0 <= i < front.len() implies front[i] == #[trigger] items[i] by {}
        if account_after_all(a, items).first_event {
            assert forall|i: int| 0 <= i < items.len() implies (#[trigger] items[i]) is None by {
                if i < front.len() {
                    assert(front[i] is None);
                }
            }
        }
        if a.first_event && (forall|i: int| 0 <= i < items.len() ==> (#[trigger] items[i]) is None) {
            assert forall|i: int| 0 <= i < front.len() implies (#[trigger] front[i]) is None by {
                assert(items[i] is None);
            }
        }
    }
}

/// What a request without a stream records: its tokens where it succeeded,
/// its duration either way.
pub open spec fn plain_completion(
    route: Seq<char>,
    day: Seq<char>,
    value: Option<JsonView>,
    nanos: u64,
) -> Completion {
    Completion {
        provider: route_of(route).0,
        model: route_of(route).1,
        day,
        ok: value is Some,
        input_tokens: match value {
            Some(v) => usage_counter(v, "input_tokens"@),
            None => 0,
        },
        output_tokens: match value {
            Some(v) => usage_counter(v, "output_tokens"@),
            None => 0,
        },
        nanos: Some(nanos),
    }
}

impl TelemetryState {
    /// Record a request without a stream, if no counter would run over; the
    /// result says whether it was recorded. `value` is the response, or `None`
    /// where it failed.
    pub fn record_response(
        &mut self,
        route: &str,
        day: &str,
        value: Option<&Json>,
        nanos: u64,
    ) -> (r: bool)
        requires
            old(self).wf(),
        ensures
            final(self).wf(),
            ({
                let c = plain_completion(
                    route@,
                    day@,
                    match value {
                        Some(v) => Some(v@),
                        None => None,
                    },
                    nanos,
                );
                r == recordable(old(self)@, c) && final(self)@ == (if r {
                    recorded(old(self)@, c)
                } else {
                    old(self)@
                })
            }),
    {
        let (provider, model) = parse_route(route);
        let (ok, input_tokens, output_tokens) = match value {
            Some(v) => {
                let (input_tokens, output_tokens) = extract_complete_usage(v);
                (true, input_tokens, output_tokens)
            },
            None => (false, 0u64, 0u64),
        };
        let fits = self.can_record(
            provider.as_str(),
            model.as_str(),
            day,
            ok,
            input_tokens,
            output_tokens,
            Some(nanos),
        );
        if fits {
            self.record_complete(
                provider.as_str(),
                model.as_str(),
                day,
                ok,
                input_tokens,
                output_tokens,
                Some(nanos),
            );
        }
        fits
    }
}

/// What a client is told where a stream could not be made, whatever the cause.
pub fn stream_refusal() -> (r: BackendError)
    ensures
        r@ == BackendErrorView::Unavailable("stream creation failed"@),
{
    BackendError::Unavailable("stream creation failed".to_owned())
}

/// A route that is written as provider and model, the provider without a
/// slash, is taken apart into them.
pub proof fn law_route_splits(provider: Seq<char>, model: Seq<char>)
    requires
        forall|i: int| 0 <= i < provider.len() ==> #[trigger] provider[i] != '/',
    ensures
        route_of(provider + "/"@ + model) == (provider, model),
{
    reveal_strlit("/");
    let s = provider + "/"@ + model;
    assert forall|i: int| 0 <= i < provider.len() implies #[trigger] s[i] != '/' by {
        assert(s[i] == provider[i]);
    }
    assert(s[provider.len() as int] == '/');
    text::lemma_first_of_at(s, '/', provider.len() as int);
    assert(s.take(provider.len() as int) =~= provider);
    assert(s.skip(provider.len() as int + 1) =~= model);
}

} // verus!
