//! The pipeline model: a declarative, ordered sequence of typed checks with
//! per-check parameters, and the derivation of how many leading and trailing
//! context points the pipeline's checks need.
//!
//! Check parameters that are physical quantities (thresholds, radii) are
//! IEEE-754 single-precision bit patterns carried as `u32`; the engine hands
//! them to the statistical routines unchanged.

use vstd::prelude::*;

verus! {

/// Number of leading context points one spike check run consumes.
pub const SPIKE_LEADING_PER_RUN: u8 = 1;

/// Number of trailing context points one spike check run consumes.
pub const SPIKE_TRAILING_PER_RUN: u8 = 1;

/// Number of leading context points one step check run consumes.
pub const STEP_LEADING_PER_RUN: u8 = 1;

/// Number of trailing context points one step check run consumes.
pub const STEP_TRAILING_PER_RUN: u8 = 0;

/// Parameters of a special-value check.
#[derive(Debug, Clone, PartialEq)]
pub struct SpecialValueCheckConf {
    /// Values considered special, as bit patterns
    pub special_values: Vec<u32>,
}

/// Parameters of a static range check.
#[derive(Debug, Clone, PartialEq)]
pub struct RangeCheckConf {
    /// Upper bound, as a bit pattern
    pub max: u32,
    /// Lower bound, as a bit pattern
    pub min: u32,
}

/// Parameters of a dynamic range check.
#[derive(Debug, Clone, PartialEq)]
pub struct RangeCheckDynamicConf {
    /// Source the bounds are fetched from
    pub source: String,
}

/// Parameters of a step check.
#[derive(Debug, Clone, PartialEq)]
pub struct StepCheckConf {
    /// Largest allowed step between successive points, as a bit pattern
    pub max: u32,
}

/// Parameters of a spike check.
#[derive(Debug, Clone, PartialEq)]
pub struct SpikeCheckConf {
    /// Largest allowed spike, as a bit pattern
    pub max: u32,
}

/// Parameters of a flatline check.
#[derive(Debug, Clone, PartialEq)]
pub struct FlatlineCheckConf {
    /// How many identical points in a row count as a flatline; also the
    /// number of leading context points the check needs
    pub max: u8,
}

/// Parameters of a buddy check.
#[derive(Debug, Clone, PartialEq)]
pub struct BuddyCheckConf {
    /// Search radii in which buddies are found, in metres, as bit patterns
    pub radii: Vec<u32>,
    /// Minimum number of buddies a station needs
    pub nums_min: Vec<u32>,
    /// Variance threshold for flagging, as a bit pattern
    pub threshold: u32,
    /// Largest buddy elevation difference, in metres, as a bit pattern
    pub max_elev_diff: u32,
    /// Linear elevation gradient, as a bit pattern
    pub elev_gradient: u32,
    /// Lower bound on the neighbourhood standard deviation, as a bit pattern
    pub min_std: u32,
    /// Number of iterations to perform
    pub num_iterations: u32,
}

/// Parameters of a spatial-consistency check.
#[derive(Debug, Clone, PartialEq)]
pub struct SctConf {
    /// Fewest neighbours a station may have and still be checked
    pub num_min: usize,
    /// Cap on the neighbours used per station
    pub num_max: usize,
    /// Inner radius, in metres, as a bit pattern
    pub inner_radius: u32,
    /// Outer radius, in metres, as a bit pattern
    pub outer_radius: u32,
    /// Number of iterations to perform
    pub num_iterations: u32,
    /// Fewest observations needed to compute a vertical profile
    pub num_min_prof: usize,
    /// Smallest elevation difference for a vertical profile, as a bit pattern
    pub min_elev_diff: u32,
    /// Minimum horizontal decorrelation length, as a bit pattern
    pub min_horizontal_scale: u32,
    /// Vertical decorrelation length, as a bit pattern
    pub vertical_scale: u32,
    /// Positive deviations allowed, as bit patterns
    pub pos: Vec<u32>,
    /// Negative deviations allowed, as bit patterns
    pub neg: Vec<u32>,
    /// Ratios of observation to background error variance, as bit patterns
    pub eps2: Vec<u32>,
    /// Which observations to check; `None` means all
    pub obs_to_check: Option<Vec<bool>>,
}

/// Parameters of a model-consistency check.
#[derive(Debug, Clone, PartialEq)]
pub struct ModelConsistencyCheckConf {
    /// Source of the model data
    pub model_source: String,
    /// Extra arguments passed to the model source
    pub model_args: String,
    /// Threshold for flagging, as a bit pattern
    pub threshold: u32,
}

/// A typed check with its parameters.
#[derive(Debug, Clone, PartialEq)]
pub enum CheckConf {
    /// Flag values from a fixed set of special values
    SpecialValueCheck(SpecialValueCheckConf),
    /// Flag values outside a static range
    RangeCheck(RangeCheckConf),
    /// Flag values outside a range fetched from another source
    RangeCheckDynamic(RangeCheckDynamicConf),
    /// Flag large steps between successive points
    StepCheck(StepCheckConf),
    /// Flag isolated spikes
    SpikeCheck(SpikeCheckConf),
    /// Flag runs of identical points
    FlatlineCheck(FlatlineCheckConf),
    /// Flag stations that disagree with their neighbours
    BuddyCheck(BuddyCheckConf),
    /// Spatial-consistency check
    Sct(SctConf),
    /// Flag observations that stray too far from model data
    ModelConsistencyCheck(ModelConsistencyCheckConf),
    /// Placeholder carrying no parameters
    Dummy,
}

/// The `(leading, trailing)` context points one run of the given check
/// consumes.
pub open spec fn spec_check_requirements(check: CheckConf) -> (u8, u8) {
    match check {
        CheckConf::StepCheck(_) => (STEP_LEADING_PER_RUN, STEP_TRAILING_PER_RUN),
        CheckConf::SpikeCheck(_) => (SPIKE_LEADING_PER_RUN, SPIKE_TRAILING_PER_RUN),
        CheckConf::FlatlineCheck(conf) => (conf.max, 0u8),
        _ => (0u8, 0u8),
    }
}

impl CheckConf {
    /// The `(leading, trailing)` context points one run of this check
    /// consumes.
    pub fn get_num_leading_trailing(&self) -> (r: (u8, u8))
        ensures
            r == spec_check_requirements(*self),
    {
        match self {
            CheckConf::StepCheck(_) => (STEP_LEADING_PER_RUN, STEP_TRAILING_PER_RUN),
            CheckConf::SpikeCheck(_) => (SPIKE_LEADING_PER_RUN, SPIKE_TRAILING_PER_RUN),
            CheckConf::FlatlineCheck(conf) => (conf.max, 0),
            _ => (0, 0),
        }
    }
}

/// One step of a pipeline: a name and the check it runs.
#[derive(Debug, Clone, PartialEq)]
pub struct PipelineStep {
    /// Name of the step, echoed back on its response
    pub name: String,
    /// The check this step runs
    pub check: CheckConf,
}

/// The `(leading, trailing)` requirements derived from a step list: the
/// component-wise maximum over the steps' requirements, folded from `(0, 0)`.
pub open spec fn spec_derived_requirements(steps: Seq<PipelineStep>) -> (u8, u8)
    decreases steps.len(),
{
    if steps.len() == 0 {
        (0u8, 0u8)
    } else {
        let prev = spec_derived_requirements(steps.drop_last());
        let last = spec_check_requirements(steps.last().check);
        (
            if prev.0 >= last.0 {
                prev.0
            } else {
                last.0
            },
            if prev.1 >= last.1 {
                prev.1
            } else {
                last.1
            },
        )
    }
}

/// A pipeline of checks: an ordered step list plus the derived context-point
/// requirements.
#[derive(Debug, Clone, PartialEq)]
pub struct Pipeline {
    /// Sequence of steps, run in declaration order
    pub steps: Vec<PipelineStep>,
    /// Number of leading context points required by the steps; derived,
    /// never authored
    pub num_leading_required: u8,
    /// Number of trailing context points required by the steps; derived,
    /// never authored
    pub num_trailing_required: u8,
}

impl Pipeline {
    /// The requirement fields hold exactly what the step list derives to.
    pub open spec fn wf(self) -> bool {
        (self.num_leading_required, self.num_trailing_required) == spec_derived_requirements(
            self.steps@,
        )
    }

    /// Build a pipeline from its step list, deriving the context-point
    /// requirements.
    pub fn new(steps: Vec<PipelineStep>) -> (r: Pipeline)
        ensures
            r.wf(),
            r.steps == steps,
    {
        let mut pipeline = Pipeline { steps, num_leading_required: 0, num_trailing_required: 0 };
        let (leading, trailing) = derive_num_leading_trailing(&pipeline);
        pipeline.num_leading_required = leading;
        pipeline.num_trailing_required = trailing;
        pipeline
    }
}

/// Given a pipeline, derive the number of leading and trailing context
/// points per timeseries needed in a dataset for all the intended data to be
/// QCed by the pipeline.
pub fn derive_num_leading_trailing(pipeline: &Pipeline) -> (r: (u8, u8))
    ensures
        r == spec_derived_requirements(pipeline.steps@),
{
    let mut leading: u8 = 0;
    let mut trailing: u8 = 0;
    let mut i: usize = 0;
    while i < pipeline.steps.len()
        invariant
            0 <= i <= pipeline.steps@.len(),
            (leading, trailing) == spec_derived_requirements(pipeline.steps@.take(i as int)),
        decreases pipeline.steps@.len() - i,
    {
        let (step_leading, step_trailing) = pipeline.steps[i].check.get_num_leading_trailing();
        if step_leading > leading {
            leading = step_leading;
        }
        if step_trailing > trailing {
            trailing = step_trailing;
        }
        proof {
            assert(pipeline.steps@.take(i + 1).drop_last() =~= pipeline.steps@.take(i as int));
            assert(pipeline.steps@.take(i + 1).last() == pipeline.steps@[i as int]);
        }
        i += 1;
    }
    proof {
        assert(pipeline.steps@.take(pipeline.steps@.len() as int) =~= pipeline.steps@);
    }
    (leading, trailing)
}

/// The derived requirements are the component-wise maximum over the steps'
/// requirements: no step needs more than the pipeline states, and each
/// stated requirement is zero or achieved by some step.
pub proof fn lemma_derived_requirements_are_max(steps: Seq<PipelineStep>)
    ensures
        forall|i: int|
            0 <= i < steps.len() ==> #[trigger] spec_check_requirements(steps[i].check).0
                <= spec_derived_requirements(steps).0,
        forall|i: int|
            0 <= i < steps.len() ==> #[trigger] spec_check_requirements(steps[i].check).1
                <= spec_derived_requirements(steps).1,
        spec_derived_requirements(steps).0 == 0 || exists|i: int|
            0 <= i < steps.len() && #[trigger] spec_check_requirements(steps[i].check).0
                == spec_derived_requirements(steps).0,
        spec_derived_requirements(steps).1 == 0 || exists|i: int|
            0 <= i < steps.len() && #[trigger] spec_check_requirements(steps[i].check).1
                == spec_derived_requirements(steps).1,
    decreases steps.len(),
{
    if steps.len() > 0 {
        let d = spec_derived_requirements(steps);
        let prev = spec_derived_requirements(steps.drop_last());
        let last_req = spec_check_requirements(steps.last().check);
        lemma_derived_requirements_are_max(steps.drop_last());
        assert forall|i: int|
            0 <= i < steps.len() implies #[trigger] spec_check_requirements(steps[i].check).0
            <= d.0 by {
            if i < steps.len() - 1 {
                assert(steps.drop_last()[i] == steps[i]);
            } else {
                assert(steps.last() == steps[i]);
            }
        }
        assert forall|i: int|
            0 <= i < steps.len() implies #[trigger] spec_check_requirements(steps[i].check).1
            <= d.1 by {
            if i < steps.len() - 1 {
                assert(steps.drop_last()[i] == steps[i]);
            } else {
                assert(steps.last() == steps[i]);
            }
        }
        if d.0 != 0 {
            if last_req.0 >= prev.0 {
                assert(spec_check_requirements(steps[steps.len() - 1].check).0 == d.0);
            } else {
                let j = choose|j: int|
                    0 <= j < steps.drop_last().len() && #[trigger] spec_check_requirements(
                        steps.drop_last()[j].check,
                    ).0 == prev.0;
                assert(steps.drop_last()[j] == steps[j]);
                assert(spec_check_requirements(steps[j].check).0 == d.0);
            }
        }
        if d.1 != 0 {
            if last_req.1 >= prev.1 {
                assert(spec_check_requirements(steps[steps.len() - 1].check).1 == d.1);
            } else {
                let j = choose|j: int|
                    0 <= j < steps.drop_last().len() && #[trigger] spec_check_requirements(
                        steps.drop_last()[j].check,
                    ).1 == prev.1;
                assert(steps.drop_last()[j] == steps[j]);
                assert(spec_check_requirements(steps[j].check).1 == d.1);
            }
        }
    }
}

/// The derivation is a pure function of the step list: two pipelines with
/// equal steps have equal derived requirements.
pub proof fn lemma_derivation_pure(p: Pipeline, q: Pipeline)
    requires
        p.wf(),
        q.wf(),
        p.steps@ == q.steps@,
    ensures
        p.num_leading_required == q.num_leading_required,
        p.num_trailing_required == q.num_trailing_required,
{
}

} // verus!
