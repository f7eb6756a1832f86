use vstd::prelude::*;
use crate::aggregate::{
    AggregateResult, AggregateStep, BatchWriteOutput, TOTAL_REQUEST_COUNT, apply_step,
    apply_steps, empty_view, reply_valid,
};
use crate::error::{Error, unhandled_text};
use crate::seqs::{lemma_take_ends, lemma_take_front};

verus! {

/// What became of one batch, as plain values.
pub enum BatchOutcome {
    /// The batch got a reply.
    Written(BatchWriteOutput),
    /// The batch failed; the failure is recorded by this message.
    Failed(Seq<char>),
    /// The batch failed and the failure is not recorded.
    Dropped,
}

/// What became of one batch, as an aggregate takes it in.
pub enum BatchResult {
    /// The batch got a reply.
    Written(BatchWriteOutput),
    /// The batch failed; the failure is recorded by this message.
    Failed(String),
    /// The batch failed and the failure is not recorded.
    Dropped,
}

impl View for BatchResult {
    type V = BatchOutcome;

    open spec fn view(&self) -> BatchOutcome {
        match self {
            BatchResult::Written(o) => BatchOutcome::Written(*o),
            BatchResult::Failed(m) => BatchOutcome::Failed(m@),
            BatchResult::Dropped => BatchOutcome::Dropped,
        }
    }
}

/// The outcomes of a vector of batch results.
pub open spec fn outcomes_of(v: Seq<BatchResult>) -> Seq<BatchOutcome> {
    v.map_values(|r: BatchResult| r@)
}

/// The call that takes an outcome in when replies are counted with `add_output_success`
/// and failures recorded with `add_sdk_error`.
pub open spec fn counted_step(o: BatchOutcome) -> AggregateStep {
    match o {
        BatchOutcome::Written(r) => AggregateStep::OutputSuccess(r),
        BatchOutcome::Failed(m) => AggregateStep::Error(m),
        BatchOutcome::Dropped => AggregateStep::FailedReply,
    }
}

/// The call that takes an outcome in when replies are kept with `add_success` and failures
/// recorded with `add_join_error`.
pub open spec fn kept_step(o: BatchOutcome) -> AggregateStep {
    match o {
        BatchOutcome::Written(r) => AggregateStep::Success(r),
        BatchOutcome::Failed(m) => AggregateStep::Error(m),
        BatchOutcome::Dropped => AggregateStep::FailedReply,
    }
}

/// The calls for outcomes counted with `add_output_success`.
pub open spec fn counted_steps(s: Seq<BatchOutcome>) -> Seq<AggregateStep> {
    s.map_values(|o: BatchOutcome| counted_step(o))
}

/// The calls for outcomes kept with `add_success`.
pub open spec fn kept_steps(s: Seq<BatchOutcome>) -> Seq<AggregateStep> {
    s.map_values(|o: BatchOutcome| kept_step(o))
}

/// The number of results is small enough that counting a full batch for each fits a
/// `usize`, and no reply leaves more than a full batch unprocessed.
pub open spec fn results_bounded(s: Seq<BatchOutcome>) -> bool {
    &&& s.len() <= usize::MAX / TOTAL_REQUEST_COUNT
    &&& forall|i: int|
        0 <= i < s.len() ==> (#[trigger] s[i] matches BatchOutcome::Written(o) ==> reply_valid(o))
}

/// No reply in the calls leaves more than a full batch unprocessed.
pub open spec fn steps_small(s: Seq<AggregateStep>) -> bool {
    forall|i: int|
        0 <= i < s.len() ==> match #[trigger] s[i] {
            AggregateStep::Success(o) => reply_valid(o),
            AggregateStep::OutputSuccess(o) => reply_valid(o),
            _ => true,
        }
}

proof fn lemma_counts_bound(s: Seq<AggregateStep>)
    requires
        steps_small(s),
    ensures
        apply_steps(empty_view(), s).success_count <= TOTAL_REQUEST_COUNT * s.len(),
        apply_steps(empty_view(), s).unprocessed_count <= TOTAL_REQUEST_COUNT * s.len(),
    decreases s.len(),
{
    if s.len() > 0 {
        let t = s.drop_last();
        assert(steps_small(t)) by {
            assert forall|i: int| 0 <= i < t.len() implies match #[trigger] t[i] {
                AggregateStep::Success(o) => reply_valid(o),
                AggregateStep::OutputSuccess(o) => reply_valid(o),
                _ => true,
            } by {
                assert(t[i] == s[i]);
            }
        }
        lemma_counts_bound(t);
        assert(s[s.len() - 1] == s.last());
    }
}

/// The facts one step of a summary loop needs: the calls so far and this one, and the
/// bounds that keep the counts in a `usize`.
proof fn lemma_summary_step(steps: Seq<AggregateStep>, k: int)
    requires
        steps_small(steps),
        steps.len() <= usize::MAX / TOTAL_REQUEST_COUNT,
        0 <= k < steps.len(),
    ensures
        apply_steps(empty_view(), steps.take(k + 1)) == apply_step(
            apply_steps(empty_view(), steps.take(k)),
            steps[k],
        ),
        apply_steps(empty_view(), steps.take(k + 1)).success_count <= usize::MAX,
        apply_steps(empty_view(), steps.take(k + 1)).unprocessed_count <= usize::MAX,
{
    let t = steps.take(k + 1);
    assert(t.drop_last() =~= steps.take(k));
    assert(steps_small(t)) by {
        assert forall|i: int| 0 <= i < t.len() implies match #[trigger] t[i] {
            AggregateStep::Success(o) => reply_valid(o),
            AggregateStep::OutputSuccess(o) => reply_valid(o),
            _ => true,
        } by {
            assert(t[i] == steps[i]);
        }
    }
    lemma_counts_bound(t);
    assert(TOTAL_REQUEST_COUNT * (k + 1) <= TOTAL_REQUEST_COUNT * steps.len()) by (
    nonlinear_arith)
        requires
            k + 1 <= steps.len(),
    {
    }
    assert(TOTAL_REQUEST_COUNT * steps.len() <= usize::MAX) by (nonlinear_arith)
        requires
            steps.len() <= usize::MAX / TOTAL_REQUEST_COUNT,
    {
    }
}

proof fn lemma_steps_small(s: Seq<BatchOutcome>, steps: Seq<AggregateStep>)
    requires
        results_bounded(s),
        steps == counted_steps(s) || steps == kept_steps(s),
    ensures
        steps_small(steps),
        steps.len() == s.len(),
{
    assert forall|i: int| 0 <= i < steps.len() implies match #[trigger] steps[i] {
        AggregateStep::Success(o) => reply_valid(o),
        AggregateStep::OutputSuccess(o) => reply_valid(o),
        _ => true,
    } by {
        assert(steps[i] == counted_step(s[i]) || steps[i] == kept_step(s[i]));
    }
}

/// Takes the results in, in order: a reply counts its written requests with
/// `add_output_success` (its unprocessed ones are dropped), a failure is recorded with
/// `add_sdk_error`, a dropped failure changes nothing.
pub fn summarize_counted(results: Vec<BatchResult>) -> (r: AggregateResult)
    requires
        results_bounded(outcomes_of(results@)),
    ensures
        r@ == apply_steps(empty_view(), counted_steps(outcomes_of(results@))),
{
    summarize(results, false)
}

/// Takes the results in, in order: a reply counts its written requests and keeps its
/// unprocessed ones for retry with `add_success`, a failure is recorded with
/// `add_join_error`, a dropped failure changes nothing.
pub fn summarize_kept(results: Vec<BatchResult>) -> (r: AggregateResult)
    requires
        results_bounded(outcomes_of(results@)),
    ensures
        r@ == apply_steps(empty_view(), kept_steps(outcomes_of(results@))),
{
    summarize(results, true)
}

fn summarize(results: Vec<BatchResult>, keep: bool) -> (r: AggregateResult)
    requires
        results_bounded(outcomes_of(results@)),
    ensures
        r@ == apply_steps(
            empty_view(),
            if keep {
                kept_steps(outcomes_of(results@))
            } else {
                counted_steps(outcomes_of(results@))
            },
        ),
{
    let ghost orig = results@;
    let ghost s = outcomes_of(orig);
    let ghost steps = if keep {
        kept_steps(s)
    } else {
        counted_steps(s)
    };
    proof {
        lemma_steps_small(s, steps);
        lemma_take_ends(orig);
        lemma_take_ends(steps);
    }
    let mut rest = results;
    let mut r = AggregateResult::new();
    let mut k: usize = 0;
    while rest.len() > 0
        invariant
            k + rest@.len() == orig.len(),
            rest@ == orig.skip(k as int),
            s == outcomes_of(orig),
            steps == (if keep {
                kept_steps(s)
            } else {
                counted_steps(s)
            }),
            steps_small(steps),
            steps.len() == s.len(),
            s.len() <= usize::MAX / TOTAL_REQUEST_COUNT,
                r@ == apply_steps(empty_view(), steps.take(k as int)),
        decreases rest.len(),
    {
        let ghost before = rest@;
        let item = rest.remove(0);
        proof {
            lemma_take_front(orig, before, rest@, k as int);
            lemma_summary_step(steps, k as int);
            assert(item@ == s[k as int]);
        }
        match item {
            BatchResult::Written(o) => {
                if keep {
                    r.add_success::<()>(Ok(o));
                } else {
                    r.add_output_success(o);
                }
            },
            BatchResult::Failed(m) => {
                if keep {
                    r.add_join_error(m);
                } else {
                    r.add_sdk_error(m);
                }
            },
            BatchResult::Dropped => {},
        }
        k = k + 1;
    }
    proof {
        lemma_take_ends(steps);
    }
    r
}

/// Turns each result into a batch result with `f`, which gives `spec_f` of its argument.
fn convert_all<T, F: Fn(T) -> BatchResult>(
    results: Vec<T>,
    f: F,
    Ghost(spec_f): Ghost<spec_fn(T) -> BatchOutcome>,
) -> (v: Vec<BatchResult>)
    requires
        forall|x: T| #[trigger] f.requires((x,)),
        forall|x: T, c: BatchResult| #[trigger] f.ensures((x,), c) ==> c@ == spec_f(x),
    ensures
        outcomes_of(v@) == results@.map_values(spec_f),
{
    let ghost orig = results@;
    proof {
        lemma_take_ends(orig);
    }
    let mut rest = results;
    let mut v: Vec<BatchResult> = Vec::new();
    let mut k: usize = 0;
    assert(orig.len() == rest.len());
    while rest.len() > 0
        invariant
            k + rest@.len() == orig.len(),
            orig.len() <= usize::MAX,
            rest@ == orig.skip(k as int),
            forall|x: T| #[trigger] f.requires((x,)),
            forall|x: T, c: BatchResult| #[trigger] f.ensures((x,), c) ==> c@ == spec_f(x),
            outcomes_of(v@) =~= orig.take(k as int).map_values(spec_f),
        decreases rest.len(),
    {
        let ghost before = rest@;
        let ghost prev = v@;
        let item = rest.remove(0);
        proof {
            lemma_take_front(orig, before, rest@, k as int);
        }
        let c = f(item);
        v.push(c);
        assert(outcomes_of(v@) =~= outcomes_of(prev).push(c@));
        assert(orig.take(k + 1).map_values(spec_f) =~= orig.take(k as int).map_values(spec_f).push(
            spec_f(orig[k as int]),
        ));
        k = k + 1;
    }
    proof {
        lemma_take_ends(orig);
    }
    v
}

/// A batch result as the channel strategy receives it: a reply, or an error of the
/// library, recorded by the text the error displays.
pub open spec fn channel_outcome(r: Result<BatchWriteOutput, Error>) -> BatchOutcome {
    match r {
        Ok(o) => BatchOutcome::Written(o),
        Err(_) => BatchOutcome::Failed(unhandled_text()),
    }
}

/// A batch result as a joined task gives it: the task did not finish (recorded by its
/// message), or it finished with a reply, or with a failed request, which is dropped.
pub open spec fn joined_outcome(r: Result<Result<BatchWriteOutput, String>, String>) -> BatchOutcome {
    match r {
        Ok(Ok(o)) => BatchOutcome::Written(o),
        Ok(Err(_)) => BatchOutcome::Dropped,
        Err(m) => BatchOutcome::Failed(m@),
    }
}

/// A batch result as a request gives it: a reply, or a failed request by its message.
pub open spec fn request_outcome(r: Result<BatchWriteOutput, String>) -> BatchOutcome {
    match r {
        Ok(o) => BatchOutcome::Written(o),
        Err(m) => BatchOutcome::Failed(m@),
    }
}

/// The outcomes of the channel strategy's results.
pub open spec fn channel_outcomes(v: Seq<Result<BatchWriteOutput, Error>>) -> Seq<BatchOutcome> {
    v.map_values(|r: Result<BatchWriteOutput, Error>| channel_outcome(r))
}

/// The outcomes of joined tasks.
pub open spec fn joined_outcomes(v: Seq<Result<Result<BatchWriteOutput, String>, String>>) -> Seq<
    BatchOutcome,
> {
    v.map_values(|r: Result<Result<BatchWriteOutput, String>, String>| joined_outcome(r))
}

/// The outcomes of requests.
pub open spec fn request_outcomes(v: Seq<Result<BatchWriteOutput, String>>) -> Seq<BatchOutcome> {
    v.map_values(|r: Result<BatchWriteOutput, String>| request_outcome(r))
}

/// The aggregate the channel strategy makes of the results it receives: replies are counted
/// with `add_output_success`, errors with `add_error`.
pub fn aggregate_channel_results(results: Vec<Result<BatchWriteOutput, Error>>) -> (r: AggregateResult)
    requires
        results_bounded(channel_outcomes(results@)),
    ensures
        r@ == apply_steps(empty_view(), counted_steps(channel_outcomes(results@))),
{
    let f = |x: Result<BatchWriteOutput, Error>| -> (c: BatchResult)
        ensures
            c@ == channel_outcome(x),
        {
            match x {
                Ok(o) => BatchResult::Written(o),
                Err(e) => BatchResult::Failed(e.display_text()),
            }
        };
    let converted = convert_all(
        results,
        f,
        Ghost(|x: Result<BatchWriteOutput, Error>| channel_outcome(x)),
    );
    summarize_counted(converted)
}

/// The aggregate that map-reduce and the pipeline make of their joined tasks: replies are
/// taken in with `add_success` (unprocessed requests kept for retry), failed requests are
/// dropped, tasks that did not finish are recorded with `add_join_error`.
pub fn aggregate_joined_results(results: Vec<Result<Result<BatchWriteOutput, String>, String>>) -> (r: AggregateResult)
    requires
        results_bounded(joined_outcomes(results@)),
    ensures
        r@ == apply_steps(empty_view(), kept_steps(joined_outcomes(results@))),
{
    let f = |x: Result<Result<BatchWriteOutput, String>, String>| -> (c: BatchResult)
        ensures
            c@ == joined_outcome(x),
        {
            match x {
                Ok(Ok(o)) => BatchResult::Written(o),
                Ok(Err(_)) => BatchResult::Dropped,
                Err(m) => BatchResult::Failed(m),
            }
        };
    let converted = convert_all(
        results,
        f,
        Ghost(|x: Result<Result<BatchWriteOutput, String>, String>| joined_outcome(x)),
    );
    summarize_kept(converted)
}

/// The aggregate that the parallel loop and the workers make of their requests' results:
/// replies are counted with `add_output_success`, failed requests with `add_sdk_error`.
pub fn aggregate_request_results(results: Vec<Result<BatchWriteOutput, String>>) -> (r: AggregateResult)
    requires
        results_bounded(request_outcomes(results@)),
    ensures
        r@ == apply_steps(empty_view(), counted_steps(request_outcomes(results@))),
{
    let f = |x: Result<BatchWriteOutput, String>| -> (c: BatchResult)
        ensures
            c@ == request_outcome(x),
        {
            match x {
                Ok(o) => BatchResult::Written(o),
                Err(m) => BatchResult::Failed(m),
            }
        };
    let converted = convert_all(
        results,
        f,
        Ghost(|x: Result<BatchWriteOutput, String>| request_outcome(x)),
    );
    summarize_counted(converted)
}

/// What fork-join makes of its joined batches: the first error, if any batch failed.
pub fn first_failure(results: Vec<Result<(), Error>>) -> (r: Result<(), Error>)
    ensures
        r is Ok <==> forall|i: int| 0 <= i < results@.len() ==> #[trigger] results@[i] is Ok,
        r matches Err(e) ==> exists|k: int|
            0 <= k < results@.len() && results@[k] == Err::<(), Error>(e) && forall|j: int|
                0 <= j < k ==> #[trigger] results@[j] is Ok,
{
    let ghost orig = results@;
    proof {
        lemma_take_ends(orig);
    }
    let mut rest = results;
    let mut k: usize = 0;
    assert(orig.len() == rest.len());
    while rest.len() > 0
        invariant
            k + rest@.len() == orig.len(),
            orig.len() <= usize::MAX,
            orig == results@,
            rest@ == orig.skip(k as int),
            forall|j: int| 0 <= j < k ==> #[trigger] orig[j] is Ok,
        decreases rest.len(),
    {
        let ghost before = rest@;
        let item = rest.remove(0);
        proof {
            lemma_take_front(orig, before, rest@, k as int);
        }
        match item {
            Ok(()) => {},
            Err(e) => {
                assert(orig[k as int] == Err::<(), Error>(e));
                return Err(e);
            },
        }
        k = k + 1;
    }
    Ok(())
}

} // verus!
