//! Stages that transform readings, and the pipeline that chains them.
use crate::fixed::{
    blend, lemma_blend_between, lemma_blend_moves, smooth, smooth_step, UNITS_PER_ONE,
};
use crate::sensor::{Reading, SensorData};
use vstd::prelude::*;

verus! {

/// A stage of a pipeline: it turns one reading into another and may
/// remember what it has seen.
pub trait Processor {
    /// What this stage returns for `data` once it has processed the readings
    /// of `earlier`, in their order.
    spec fn respond(&self, earlier: Seq<Reading>, data: Reading) -> Reading;

    /// Processes one reading. Afterwards the stage behaves as it would have
    /// before with `data` put in front of whatever it is given next.
    fn process(&mut self, data: SensorData) -> (out: SensorData)
        ensures
            out@ == old(self).respond(Seq::empty(), data@),
            forall|earlier: Seq<Reading>, next: Reading|
                #[trigger] final(self).respond(earlier, next) == old(self).respond(
                    seq![data@] + earlier,
                    next,
                ),
    ;
}

/// The level of a low-pass filter with weight `alpha` that stood at `last`
/// and has since processed the readings of `inputs`, in their order.
pub open spec fn level_after(alpha: int, last: int, inputs: Seq<Reading>) -> int
    decreases inputs.len(),
{
    if inputs.len() == 0 {
        last
    } else {
        level_after(alpha, smooth(alpha, last, inputs.first().value), inputs.drop_first())
    }
}

/// Exponential smoothing: each value that comes in moves the filter's level
/// towards it by the fraction `alpha`, and the level goes out in its place.
pub struct LowPassFilter {
    alpha: i64,
    last_value: i64,
}

impl LowPassFilter {
    /// The weight of a new value, in millionths.
    pub closed spec fn alpha(&self) -> int {
        self.alpha as int
    }

    /// The level: the value that went out last, or 0 before the first.
    pub closed spec fn last_value(&self) -> int {
        self.last_value as int
    }

    /// A filter with weight `alpha`, in millionths, and level 0.
    ///
    /// A weight below 0 or above `UNITS_PER_ONE` is taken as it is: with it
    /// the filter amplifies instead of smoothing.
    pub fn new(alpha: i64) -> (filter: Self)
        ensures
            filter.alpha() == alpha,
            filter.last_value() == 0,
    {
        Self { alpha, last_value: 0 }
    }
}

impl Processor for LowPassFilter {
    open spec fn respond(&self, earlier: Seq<Reading>, data: Reading) -> Reading {
        Reading {
            value: smooth(
                self.alpha(),
                level_after(self.alpha(), self.last_value(), earlier),
                data.value,
            ),
            ..data
        }
    }

    fn process(&mut self, data: SensorData) -> (out: SensorData)
        ensures
            final(self).alpha() == old(self).alpha(),
            final(self).last_value() == smooth(
                old(self).alpha(),
                old(self).last_value(),
                data.value as int,
            ),
            out@ == (Reading { value: final(self).last_value(), ..data@ }),
    {
        self.last_value = smooth_step(self.alpha, self.last_value, data.value);
        let mut result = data;
        result.value = self.last_value;
        proof {
            assert forall|earlier: Seq<Reading>, next: Reading|
                #[trigger] self.respond(earlier, next) == old(self).respond(
                    seq![data@] + earlier,
                    next,
                ) by {
                let joined = seq![data@] + earlier;
                assert(joined.first() == data@);
                assert(joined.drop_first() =~= earlier);
            }
        }
        result
    }
}

/// The level of a filter stays within the range of a 64-bit value.
proof fn lemma_level_in_range(alpha: int, last: int, inputs: Seq<Reading>)
    requires
        i64::MIN <= last <= i64::MAX,
    ensures
        i64::MIN <= level_after(alpha, last, inputs) <= i64::MAX,
    decreases inputs.len(),
{
    if inputs.len() > 0 {
        lemma_level_in_range(
            alpha,
            smooth(alpha, last, inputs.first().value),
            inputs.drop_first(),
        );
    }
}

/// One more reading at the end of `inputs` moves the level by one more step.
proof fn lemma_level_after_push(alpha: int, last: int, inputs: Seq<Reading>, data: Reading)
    ensures
        level_after(alpha, last, inputs.push(data)) == smooth(
            alpha,
            level_after(alpha, last, inputs),
            data.value,
        ),
    decreases inputs.len(),
{
    let longer = inputs.push(data);
    if inputs.len() == 0 {
        assert(longer.first() == data);
        assert(longer.drop_first() =~= Seq::<Reading>::empty());
        assert(level_after(alpha, smooth(alpha, last, data.value), longer.drop_first()) == smooth(
            alpha,
            last,
            data.value,
        ));
    } else {
        assert(longer.first() == inputs.first());
        assert(longer.drop_first() =~= inputs.drop_first().push(data));
        lemma_level_after_push(
            alpha,
            smooth(alpha, last, inputs.first().value),
            inputs.drop_first(),
            data,
        );
    }
}

/// A reading repeated `times` times.
pub open spec fn repeated(data: Reading, times: nat) -> Seq<Reading> {
    Seq::new(times, |k: int| data)
}

/// Given the same reading again and again, a filter with a weight between 0
/// and 1 moves towards that reading's value and never past it: each value
/// that goes out lies between the one before it (for the first, the level
/// that the filter started from) and the value that comes in.
///
/// With a weight above 0 it does move: from above in every step until it
/// has reached the value, from below for as long as the weighted gap
/// amounts to a whole unit.
pub proof fn low_pass_approaches_repeated_input(
    filter: LowPassFilter,
    data: SensorData,
    times: nat,
)
    requires
        0 <= filter.alpha() <= UNITS_PER_ONE,
    ensures
        ({
            let before = level_after(filter.alpha(), filter.last_value(), repeated(data@, times));
            let out = filter.respond(repeated(data@, times), data@).value;
            &&& out == level_after(filter.alpha(), filter.last_value(), repeated(data@, times + 1))
            &&& before <= data.value ==> before <= out <= data.value
            &&& before >= data.value ==> data.value <= out <= before
            &&& filter.alpha() > 0 && before > data.value ==> out < before
            &&& before < data.value && filter.alpha() * (data.value - before) >= UNITS_PER_ONE
                ==> before < out
        }),
{
    let seen = repeated(data@, times);
    let before = level_after(filter.alpha(), filter.last_value(), seen);
    assert(repeated(data@, times + 1) =~= seen.push(data@));
    lemma_level_after_push(filter.alpha(), filter.last_value(), seen, data@);
    lemma_level_in_range(filter.alpha(), filter.last_value(), seen);
    lemma_blend_between(filter.alpha(), before, data.value as int);
    if filter.alpha() > 0 {
        lemma_blend_moves(filter.alpha(), before, data.value as int);
    } else {
        assert(filter.alpha() * (data.value - before) == 0) by (nonlinear_arith)
            requires
                filter.alpha() == 0,
        ;
    }
}

/// With the weight 1 a filter passes every value through as it came in,
/// whatever it has processed before.
pub proof fn low_pass_with_full_weight_passes_input(
    filter: LowPassFilter,
    earlier: Seq<Reading>,
    data: SensorData,
)
    requires
        filter.alpha() == UNITS_PER_ONE,
    ensures
        filter.respond(earlier, data@).value == data.value,
{
    let level = level_after(filter.alpha(), filter.last_value(), earlier);
    assert(blend(filter.alpha(), level, data.value as int) == data.value) by (nonlinear_arith)
        requires
            filter.alpha() == 1_000_000,
            blend(filter.alpha(), level, data.value as int) == (filter.alpha() * data.value + (
            1_000_000 - filter.alpha()) * level) / 1_000_000,
    ;
}

/// With the weight 0 a filter never leaves the level it started from: every
/// value that goes out is that level, which is 0 for a new filter.
pub proof fn low_pass_with_zero_weight_stays(
    filter: LowPassFilter,
    earlier: Seq<Reading>,
    data: SensorData,
)
    requires
        filter.alpha() == 0,
    ensures
        level_after(filter.alpha(), filter.last_value(), earlier) == filter.last_value(),
        filter.respond(earlier, data@).value == filter.last_value(),
{
    let last = filter.last_value();
    lemma_zero_weight_keeps_level(last, earlier);
    lemma_zero_weight_keeps(last, data.value as int);
}

/// With the weight 0 one step leaves the level where it was.
proof fn lemma_zero_weight_keeps(last: int, input: int)
    requires
        i64::MIN <= last <= i64::MAX,
    ensures
        smooth(0, last, input) == last,
{
    assert(blend(0, last, input) == last) by (nonlinear_arith)
        requires
            blend(0, last, input) == (0 * input + (1_000_000 - 0) * last) / 1_000_000,
    ;
}

/// With the weight 0 no sequence of readings moves the level.
proof fn lemma_zero_weight_keeps_level(last: int, inputs: Seq<Reading>)
    requires
        i64::MIN <= last <= i64::MAX,
    ensures
        level_after(0, last, inputs) == last,
    decreases inputs.len(),
{
    if inputs.len() > 0 {
        lemma_zero_weight_keeps(last, inputs.first().value);
        lemma_zero_weight_keeps_level(last, inputs.drop_first());
    }
}

/// Marks a reading valid where its value lies within `[min, max]`, and
/// invalid elsewhere, whatever the mark was before.
pub struct ThresholdValidator {
    min: i64,
    max: i64,
}

impl ThresholdValidator {
    /// The least value that is valid.
    pub closed spec fn min(&self) -> int {
        self.min as int
    }

    /// The greatest value that is valid.
    pub closed spec fn max(&self) -> int {
        self.max as int
    }

    /// A validator for the range from `min` to `max`, both included. With
    /// `min` above `max` no value is valid.
    pub fn new(min: i64, max: i64) -> (validator: Self)
        ensures
            validator.min() == min,
            validator.max() == max,
    {
        Self { min, max }
    }
}

impl Processor for ThresholdValidator {
    open spec fn respond(&self, earlier: Seq<Reading>, data: Reading) -> Reading {
        Reading { valid: self.min() <= data.value <= self.max(), ..data }
    }

    fn process(&mut self, data: SensorData) -> (out: SensorData)
        ensures
            *final(self) == *old(self),
    {
        let mut result = data;
        result.valid = result.value >= self.min && result.value <= self.max;
        result
    }
}

/// One of the stages that this library offers, for pipelines that mix them.
pub enum Stage {
    LowPass(LowPassFilter),
    Threshold(ThresholdValidator),
}

impl Processor for Stage {
    open spec fn respond(&self, earlier: Seq<Reading>, data: Reading) -> Reading {
        match self {
            Stage::LowPass(filter) => filter.respond(earlier, data),
            Stage::Threshold(validator) => validator.respond(earlier, data),
        }
    }

    fn process(&mut self, data: SensorData) -> (out: SensorData)
        ensures
            match *old(self) {
                Stage::LowPass(filter) => *final(self) matches Stage::LowPass(moved)
                    && moved.alpha() == filter.alpha() && moved.last_value() == smooth(
                    filter.alpha(),
                    filter.last_value(),
                    data.value as int,
                ),
                Stage::Threshold(_) => *final(self) == *old(self),
            },
    {
        match self {
            Stage::LowPass(filter) => filter.process(data),
            Stage::Threshold(validator) => validator.process(data),
        }
    }
}

/// What a chain of stages returns for `data` once the whole chain has run on
/// the readings of `earlier`, in their order: the last stage is given what
/// the stages before it make of `data`, and has seen what they made of the
/// earlier readings.
pub open spec fn chain_respond<P: Processor>(
    stages: Seq<P>,
    earlier: Seq<Reading>,
    data: Reading,
) -> Reading
    decreases stages.len(), 0int,
{
    if stages.len() == 0 {
        data
    } else {
        stages.last().respond(
            chain_outputs(stages.drop_last(), earlier),
            chain_respond(stages.drop_last(), earlier, data),
        )
    }
}

/// The readings that came out of a chain of stages over its runs on the
/// readings of `earlier`, in their order.
pub open spec fn chain_outputs<P: Processor>(stages: Seq<P>, earlier: Seq<Reading>) -> Seq<
    Reading,
>
    decreases stages.len(), 1int,
{
    Seq::new(earlier.len(), |k: int| chain_respond(stages, earlier.take(k), earlier[k]))
}

/// Where each stage of `after` behaves as the stage of `before` in its place
/// does once it has processed what reached it in a run on `given`, the
/// first `count` stages of `after` behave as those of `before` do once they
/// have run on `given`.
proof fn lemma_chain_after_run<P: Processor>(
    before: Seq<P>,
    after: Seq<P>,
    given: Reading,
    count: int,
    earlier: Seq<Reading>,
    next: Reading,
)
    requires
        before.len() == after.len(),
        0 <= count <= before.len(),
        forall|j: int, e: Seq<Reading>, x: Reading|
            0 <= j < before.len() ==> #[trigger] after[j].respond(e, x) == before[j].respond(
                seq![chain_respond(before.take(j), Seq::empty(), given)] + e,
                x,
            ),
    ensures
        chain_respond(after.take(count), earlier, next) == chain_respond(
            before.take(count),
            seq![given] + earlier,
            next,
        ),
    decreases count,
{
    if count > 0 {
        let joined = seq![given] + earlier;
        let a_front = after.take(count - 1);
        let b_front = before.take(count - 1);
        assert(after.take(count).drop_last() =~= a_front);
        assert(before.take(count).drop_last() =~= b_front);
        lemma_chain_after_run(before, after, given, count - 1, earlier, next);
        let feed = chain_respond(b_front, Seq::empty(), given);
        let seen_after = chain_outputs(a_front, earlier);
        let seen_before = chain_outputs(b_front, joined);
        assert(seq![feed] + seen_after =~= seen_before) by {
            assert(joined.take(0) =~= Seq::<Reading>::empty());
            assert forall|k: int| 0 <= k < earlier.len() implies #[trigger] seen_after[k]
                == seen_before[k + 1] by {
                lemma_chain_after_run(before, after, given, count - 1, earlier.take(k), earlier[k]);
                assert(joined.take(k + 1) =~= seq![given] + earlier.take(k));
            }
        }
    }
}

/// Stages in a fixed order, applied one after the other to each reading.
///
/// All stages of one pipeline are of one type `P`; `Stage` is the type for
/// pipelines that mix the stages of this library.
pub struct ProcessorPipeline<P: Processor> {
    processors: Vec<P>,
}

impl<P: Processor> Default for ProcessorPipeline<P> {
    /// A pipeline without stages.
    fn default() -> (pipeline: Self)
        ensures
            pipeline.stages() == Seq::<P>::empty(),
    {
        Self::new()
    }
}

impl<P: Processor> ProcessorPipeline<P> {
    /// The stages, in the order in which they were added.
    pub closed spec fn stages(&self) -> Seq<P> {
        self.processors@
    }

    /// What the pipeline returns for `data` once it has run on the readings
    /// of `earlier`, in their order.
    pub open spec fn respond(&self, earlier: Seq<Reading>, data: Reading) -> Reading {
        chain_respond(self.stages(), earlier, data)
    }

    /// A pipeline without stages.
    pub fn new() -> (pipeline: Self)
        ensures
            pipeline.stages() == Seq::<P>::empty(),
    {
        Self { processors: Vec::new() }
    }

    /// Adds a stage behind those that the pipeline has.
    pub fn add_processor(&mut self, processor: P)
        ensures
            final(self).stages() == old(self).stages().push(processor),
    {
        self.processors.push(processor);
    }

    /// Runs `data` through every stage, in the order in which they were
    /// added: each stage is given what the one before it returned.
    pub fn run(&mut self, data: SensorData) -> (out: SensorData)
        ensures
            out@ == old(self).respond(Seq::empty(), data@),
            old(self).stages().len() == 0 ==> out@ == data@,
            final(self).stages().len() == old(self).stages().len(),
            forall|earlier: Seq<Reading>, next: Reading|
                #[trigger] final(self).respond(earlier, next) == old(self).respond(
                    seq![data@] + earlier,
                    next,
                ),
    {
        let ghost before = self.processors@;
        let ghost given = data@;
        let count: usize = self.processors.len();
        let mut current = data;
        let mut i: usize = 0;
        while i < count
            invariant
                i <= count,
                before.len() == count,
                self.processors@.len() == count,
                current@ == chain_respond(before.take(i as int), Seq::empty(), given),
                forall|j: int| i <= j < count ==> self.processors@[j] == before[j],
                forall|j: int, e: Seq<Reading>, x: Reading|
                    0 <= j < i ==> #[trigger] self.processors@[j].respond(e, x)
                        == before[j].respond(
                        seq![chain_respond(before.take(j), Seq::empty(), given)] + e,
                        x,
                    ),
            decreases count - i,
        {
            proof {
                let reached = before.take(i + 1);
                assert(reached.drop_last() =~= before.take(i as int));
                assert(chain_outputs(before.take(i as int), Seq::empty()) =~= Seq::<
                    Reading,
                >::empty());
            }
            current = self.processors[i].process(current);
            i += 1;
        }
        proof {
            assert(before.take(count as int) =~= before);
            assert(self.processors@.take(count as int) =~= self.processors@);
            assert forall|earlier: Seq<Reading>, next: Reading|
                #[trigger] self.respond(earlier, next) == old(self).respond(
                    seq![given] + earlier,
                    next,
                ) by {
                lemma_chain_after_run(before, self.processors@, given, count as int, earlier, next);
            }
        }
        current
    }
}

/// A pipeline without stages returns every reading as it was given.
pub proof fn empty_pipeline_is_identity<P: Processor>(
    pipeline: ProcessorPipeline<P>,
    earlier: Seq<Reading>,
    data: Reading,
)
    requires
        pipeline.stages().len() == 0,
    ensures
        pipeline.respond(earlier, data) == data,
{
}

/// What comes out of a chain without stages is what went in.
pub proof fn empty_chain_outputs<P: Processor>(stages: Seq<P>, earlier: Seq<Reading>)
    requires
        stages.len() == 0,
    ensures
        chain_outputs(stages, earlier) == earlier,
{
    assert(chain_outputs(stages, earlier) =~= earlier) by {
        assert forall|k: int| 0 <= k < earlier.len() implies chain_outputs(stages, earlier)[k]
            == earlier[k] by {
            assert(chain_respond(stages, earlier.take(k), earlier[k]) == earlier[k]);
        }
    }
}

/// A stage added behind a chain is given what the chain returns, and has
/// seen what came out of the chain before.
pub proof fn chain_with_stage_behind<P: Processor>(
    stages: Seq<P>,
    last: P,
    earlier: Seq<Reading>,
    data: Reading,
)
    ensures
        chain_respond(stages.push(last), earlier, data) == last.respond(
            chain_outputs(stages, earlier),
            chain_respond(stages, earlier, data),
        ),
{
    assert(stages.push(last).drop_last() =~= stages);
}

/// A pipeline of two stages returns what its second stage makes of what its
/// first stage makes of the reading; over several runs, each of the two sees
/// what reached it in the runs before.
pub proof fn two_stages_compose<P: Processor>(
    pipeline: ProcessorPipeline<P>,
    earlier: Seq<Reading>,
    data: Reading,
)
    requires
        pipeline.stages().len() == 2,
    ensures
        ({
            let first = pipeline.stages()[0];
            let second = pipeline.stages()[1];
            &&& pipeline.respond(Seq::empty(), data) == second.respond(
                Seq::empty(),
                first.respond(Seq::empty(), data),
            )
            &&& pipeline.respond(earlier, data) == second.respond(
                Seq::new(earlier.len(), |k: int| first.respond(earlier.take(k), earlier[k])),
                first.respond(earlier, data),
            )
        }),
{
    let stages = pipeline.stages();
    let first = stages[0];
    let second = stages[1];
    let none = Seq::<P>::empty();
    assert(stages.drop_last() =~= none.push(first));
    assert(stages.last() == second);
    assert forall|e: Seq<Reading>, x: Reading| #[trigger]
        chain_respond(none.push(first), e, x) == first.respond(e, x) by {
        chain_with_stage_behind(none, first, e, x);
        empty_chain_outputs(none, e);
    }
    let seen = Seq::new(earlier.len(), |k: int| first.respond(earlier.take(k), earlier[k]));
    assert(chain_outputs(none.push(first), earlier) =~= seen) by {
        assert forall|k: int| 0 <= k < earlier.len() implies chain_outputs(
            none.push(first),
            earlier,
        )[k] == seen[k] by {
            assert(chain_respond(none.push(first), earlier.take(k), earlier[k]) == first.respond(
                earlier.take(k),
                earlier[k],
            ));
        }
    }
    assert(chain_outputs(none.push(first), Seq::<Reading>::empty()) =~= Seq::<Reading>::empty());
    assert(pipeline.respond(earlier, data) == second.respond(
        chain_outputs(stages.drop_last(), earlier),
        chain_respond(stages.drop_last(), earlier, data),
    ));
    assert(pipeline.respond(Seq::empty(), data) == second.respond(
        chain_outputs(stages.drop_last(), Seq::empty()),
        chain_respond(stages.drop_last(), Seq::empty(), data),
    ));
}

} // verus!
