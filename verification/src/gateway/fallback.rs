//! Fallback routing.
//!
//! Wraps another backend and, on eligible errors, retries the request against
//! an ordered list of fallback routes. Eligibility is limited to transient
//! upstream failures: client errors and model-not-found responses pass through
//! untouched.

use vstd::prelude::*;
use vstd::string::*;

use crate::gateway::backend::{
    BackendError, BackendErrorView, BackendRequest, BackendRequestView,
};
use crate::providers::anthropic;
use crate::sorted;
use crate::sorted::SortedMap;
use crate::text;

verus! {

/// Whether a failure may be answered by another route.
pub open spec fn eligible(e: BackendErrorView) -> bool {
    match e {
        BackendErrorView::Unavailable(_) => true,
        BackendErrorView::Upstream { status, .. } => anthropic::retryable_status(status),
        _ => false,
    }
}

pub fn is_fallback_eligible(error: &BackendError) -> (r: bool)
    ensures
        r == eligible(error@),
        r <==> (match *error {
            BackendError::Unavailable(_) => true,
            BackendError::Upstream { status, .. } => status == 429 || status == 500 || status == 502
                || status == 503 || status == 529,
            _ => false,
        }),
{
    match error {
        BackendError::Unavailable(_) => true,
        BackendError::Upstream { status, .. } => matches!(*status, 429 | 500 | 502 | 503 | 529),
        _ => false,
    }
}

/// Backend that retries eligible failures against configured fallback routes.
#[derive(Debug)]
pub struct FallbackBackend<B> {
    pub inner: B,
    pub fallbacks: SortedMap<Vec<String>>,
}

/// What to do after a route has failed.
#[derive(Debug, PartialEq, Eq)]
pub enum FallbackStep {
    /// Send the request to this route; so many fallbacks have then been tried.
    Try { target: String, tried: usize },
    /// Give up with this error.
    Fail(BackendError),
}

pub enum FallbackStepView {
    Try { target: Seq<char>, tried: int },
    Fail(BackendErrorView),
}

impl View for FallbackStep {
    type V = FallbackStepView;

    open spec fn view(&self) -> FallbackStepView {
        match *self {
            FallbackStep::Try { target, tried } => FallbackStepView::Try {
                target: target@,
                tried: tried as int,
            },
            FallbackStep::Fail(e) => FallbackStepView::Fail(e@),
        }
    }
}

/// After `tried` fallbacks and the given error: the next fallback, whatever
/// the error, or the error where there is none.
pub open spec fn after_fallbacks(targets: Seq<Seq<char>>, tried: int, e: BackendErrorView) -> FallbackStepView {
    if tried < targets.len() {
        FallbackStepView::Try { target: targets[tried], tried: tried + 1 }
    } else {
        FallbackStepView::Fail(e)
    }
}

/// After the requested route has failed: the first fallback, if the failure is
/// eligible and there is one.
pub open spec fn after_route(targets: Option<Seq<Seq<char>>>, e: BackendErrorView) -> FallbackStepView {
    match targets {
        Some(t) => if eligible(e) {
            after_fallbacks(t, 0, e)
        } else {
            FallbackStepView::Fail(e)
        },
        None => FallbackStepView::Fail(e),
    }
}

impl<B> FallbackBackend<B> {
    pub open spec fn wf(self) -> bool {
        self.fallbacks.wf()
    }

    /// The fallback routes of a route.
    pub open spec fn targets_of(self, route: Seq<char>) -> Option<Seq<Seq<char>>> {
        if self.fallbacks@.contains_key(sorted::row(route)) {
            Some(text::views(self.fallbacks@[sorted::row(route)]@))
        } else {
            None
        }
    }

    pub fn new(inner: B, fallbacks: SortedMap<Vec<String>>) -> (r: FallbackBackend<B>)
        ensures
            r.inner == inner,
            r.fallbacks == fallbacks,
    {
        FallbackBackend { inner, fallbacks }
    }

    pub fn inner(&self) -> (r: &B)
        ensures
            *r == self.inner,
    {
        &self.inner
    }

    /// The fallback routes of a route.
    pub fn targets(&self, route: &str) -> (r: Option<Vec<String>>)
        requires
            self.wf(),
        ensures
            match r {
                Some(t) => self.targets_of(route@) == Some(text::views(t@)),
                None => self.targets_of(route@) is None,
            },
    {
        let key = sorted::key_of(route);
        match self.fallbacks.get(&key) {
            Some(t) => Some(text::clone_texts(t)),
            None => None,
        }
    }
}

/// Decide after the requested route has failed.
pub fn first_fallback(targets: &Option<Vec<String>>, error: BackendError) -> (r: FallbackStep)
    ensures
        r@ == after_route(
            match *targets {
                Some(t) => Some(text::views(t@)),
                None => None,
            },
            error@,
        ),
{
    match targets {
        Some(t) => if is_fallback_eligible(&error) {
            next_fallback(t, 0, error)
        } else {
            FallbackStep::Fail(error)
        },
        None => FallbackStep::Fail(error),
    }
}

/// Decide after `tried` fallback routes have failed, the last one with the
/// given error.
pub fn next_fallback(targets: &Vec<String>, tried: usize, error: BackendError) -> (r: FallbackStep)
    ensures
        r@ == after_fallbacks(text::views(targets@), tried as int, error@),
{
    if tried < targets.len() {
        FallbackStep::Try { target: targets[tried].clone(), tried: tried + 1 }
    } else {
        FallbackStep::Fail(error)
    }
}

/// The same request for another route.
pub fn retarget(request: &BackendRequest, target: &str) -> (r: BackendRequest)
    ensures
        r@ == (BackendRequestView { model: target@, ..request@ }),
{
    let mut r = request.clone();
    r.model = target.to_owned();
    r
}

/// The outcome of working through the fallback routes from `tried` on, where
/// the routes answer as given, and how many of them were asked.
pub open spec fn fallback_outcome<V>(
    targets: Seq<Seq<char>>,
    tried: int,
    e: BackendErrorView,
    answers: Seq<Result<V, BackendErrorView>>,
) -> (Result<V, BackendErrorView>, int)
    decreases targets.len() - tried,
{
    match after_fallbacks(targets, tried, e) {
        FallbackStepView::Fail(e) => (Err(e), tried),
        FallbackStepView::Try { tried: now, .. } => if tried < 0 {
            (Err(e), tried)
        } else {
            match answers[tried] {
                Ok(v) => (Ok(v), now),
                Err(next) => fallback_outcome(targets, now, next, answers),
            }
        },
    }
}

/// The first fallback route that answers serves the request, and no route
/// after it is asked.
pub proof fn law_first_answer_serves<V>(
    targets: Seq<Seq<char>>,
    tried: int,
    e: BackendErrorView,
    answers: Seq<Result<V, BackendErrorView>>,
    hit: int,
)
    requires
        0 <= tried <= hit < targets.len(),
        answers.len() == targets.len(),
        answers[hit] is Ok,
        forall|i: int| tried <= i < hit ==> (#[trigger] answers[i]) is Err,
    ensures
        fallback_outcome(targets, tried, e, answers) == (answers[hit], hit + 1),
    decreases hit - tried,
{
    if tried < hit {
        assert(answers[tried] is Err);
        law_first_answer_serves(targets, tried + 1, answers[tried]->Err_0, answers, hit);
    }
}

/// Where no fallback route answers, all have been asked, and the last error is
/// the outcome.
pub proof fn law_last_error_counts<V>(
    targets: Seq<Seq<char>>,
    tried: int,
    e: BackendErrorView,
    answers: Seq<Result<V, BackendErrorView>>,
)
    requires
        0 <= tried <= targets.len(),
        answers.len() == targets.len(),
        forall|i: int| tried <= i < targets.len() ==> (#[trigger] answers[i]) is Err,
    ensures
        fallback_outcome(targets, tried, e, answers) == (
            if tried == targets.len() {
                Err::<V, BackendErrorView>(e)
            } else {
                answers[targets.len() - 1]
            },
            targets.len() as int,
        ),
    decreases targets.len() - tried,
{
    if tried < targets.len() {
        assert(answers[tried] is Err);
        law_last_error_counts(targets, tried + 1, answers[tried]->Err_0, answers);
    }
}

/// Where the requested route could not be reached, whatever the message, the
/// first fallback route is tried.
pub proof fn law_unreachable_route_falls_back(targets: Seq<Seq<char>>, message: Seq<char>)
    requires
        targets.len() > 0,
    ensures
        after_route(Some(targets), BackendErrorView::Unavailable(message)) == (
        FallbackStepView::Try { target: targets[0], tried: 1 }),
{
}

/// Where the upstream of the requested route was busy or broken, the first
/// fallback route is tried; with any other status its error is the answer.
pub proof fn law_busy_route_falls_back(
    targets: Seq<Seq<char>>,
    status: u16,
    code: Seq<char>,
    message: Seq<char>,
)
    requires
        targets.len() > 0,
    ensures
        ({
            let e = BackendErrorView::Upstream { status, code, message };
            if status == 429 || status == 500 || status == 502 || status == 503 || status == 529 {
                after_route(Some(targets), e) == (FallbackStepView::Try {
                    target: targets[0],
                    tried: 1,
                })
            } else {
                after_route(Some(targets), e) == FallbackStepView::Fail(e)
            }
        }),
{
}

/// A route without fallback routes fails with its own error.
pub proof fn law_no_fallback_no_retry(e: BackendErrorView)
    ensures
        after_route(None, e) == FallbackStepView::Fail(e),
        after_route(Some(Seq::empty()), e) == FallbackStepView::Fail(e),
{
}

/// Once falling back has begun, the routes are tried in their order, whatever
/// the errors, and the error of the last one is the answer.
pub proof fn law_fallbacks_in_order(targets: Seq<Seq<char>>, tried: int, e: BackendErrorView)
    requires
        0 <= tried <= targets.len(),
    ensures
        tried < targets.len() ==> after_fallbacks(targets, tried, e) == (FallbackStepView::Try {
            target: targets[tried],
            tried: tried + 1,
        }),
        tried == targets.len() ==> after_fallbacks(targets, tried, e) == FallbackStepView::Fail(e),
{
}

/// Client errors and missing models pass through untouched.
pub proof fn law_client_errors_pass_through(targets: Option<Seq<Seq<char>>>, e: BackendErrorView)
    requires
        e is InvalidRequest || e is ModelUnavailable || e is Internal,
    ensures
        after_route(targets, e) == FallbackStepView::Fail(e),
{
}

/// The fallback routes of a route are those configured under its name, in
/// their order; a route that is not configured has none.
pub proof fn law_fallbacks_are_the_configured_ones<B>(b: FallbackBackend<B>, route: Seq<char>)
    ensures
        b.fallbacks@.contains_key(seq![route]) ==> (b.targets_of(route) matches Some(t) && t.len()
            == b.fallbacks@[seq![route]]@.len() && forall|i: int|
            0 <= i < t.len() ==> #[trigger] t[i] == b.fallbacks@[seq![route]]@[i]@),
        !b.fallbacks@.contains_key(seq![route]) ==> b.targets_of(route) is None,
{
    assert(sorted::row(route) =~= seq![route]);
}

} // verus!
