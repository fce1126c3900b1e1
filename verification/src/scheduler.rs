//! The scheduler: per request, resolve the named pipeline, fetch the
//! observation cache exactly once with the pipeline's derived context
//! requirements, and drive the pipeline's steps in declaration order.
//!
//! The [`Driver`] is the per-request state machine: each call to
//! [`Driver::next_response`] runs the next step against the shared cache
//! and yields its response. A caller that stops calling (or drops the
//! driver) has disconnected; a step that fails yields its error and halts
//! the driver, so no further steps run. The sequence of step names a
//! caller receives is always a prefix of the pipeline's declared names,
//! never reordered, never duplicated.

use vstd::prelude::*;

use crate::data_switch;
use crate::data_switch::{DataCache, DataConnector, DataSwitch, SpaceSpec, TimeSpec};
use crate::duration;
use crate::duration::{parse_duration_handwritten, spec_parse_duration};
use crate::harness;
use crate::harness::{run_test, spec_response_ok, spec_step_shape_ok, CheckRunner, ValidateResponse};
use crate::pipeline::{lemma_derived_requirements_are_max, Pipeline, PipelineStep};

verus! {

/// Error type for the scheduler.
#[derive(Debug)]
pub enum Error {
    /// A named step could not be resolved before the run started. The
    /// linear pipeline resolves its steps as they run, so this engine
    /// reports unknown steps through [`Error::Runner`] instead; the
    /// variant stays for callers that match on it
    TestNotInDag(String),
    /// A check failed while the stream was running
    Runner(harness::Error),
    /// The request itself was unusable: unknown pipeline name, or a
    /// pipeline with no steps
    InvalidArg(String),
    /// The data switch or its connector could not produce the data
    DataSwitch(data_switch::Error),
}

/// The transport-level category an error maps to: errors raised before
/// the stream opens are a malformed request or a failed lookup; errors
/// raised inside the stream abort it.
#[derive(Debug, Clone, Copy, PartialEq, Eq, Structural)]
pub enum StatusCategory {
    /// The request itself was unusable
    InvalidArgument,
    /// A source, pipeline or datum could not be found
    NotFound,
    /// A check failed after the stream had opened
    Aborted,
}

/// The category each error kind maps to: bad arguments are the caller's,
/// unresolved names and data failures are lookups, check failures abort
/// the running stream.
pub open spec fn spec_error_category(e: Error) -> StatusCategory {
    match e {
        Error::InvalidArg(_) => StatusCategory::InvalidArgument,
        Error::TestNotInDag(_) => StatusCategory::NotFound,
        Error::DataSwitch(_) => StatusCategory::NotFound,
        Error::Runner(_) => StatusCategory::Aborted,
    }
}

impl Error {
    /// The transport category this error maps to.
    pub fn category(&self) -> (r: StatusCategory)
        ensures
            r == spec_error_category(*self),
    {
        match self {
            Error::InvalidArg(_) => StatusCategory::InvalidArgument,
            Error::TestNotInDag(_) => StatusCategory::NotFound,
            Error::DataSwitch(_) => StatusCategory::NotFound,
            Error::Runner(_) => StatusCategory::Aborted,
        }
    }
}

/// Per-request driver: runs one pipeline's steps, in order, against one
/// cache.
pub struct Driver<'a> {
    steps: &'a Vec<PipelineStep>,
    cache: DataCache,
    pos: usize,
    halted: bool,
    emitted: Ghost<Seq<Seq<char>>>,
}

impl<'a> Driver<'a> {
    /// The pipeline's steps, in declaration order.
    pub closed spec fn spec_steps(self) -> Seq<PipelineStep> {
        self.steps@
    }

    /// The cache every step reads.
    pub closed spec fn spec_cache(self) -> DataCache {
        self.cache
    }

    /// How many steps have completed successfully.
    pub closed spec fn spec_pos(self) -> int {
        self.pos as int
    }

    /// True once a step has failed; no further steps run.
    pub closed spec fn spec_halted(self) -> bool {
        self.halted
    }

    /// The names of the responses yielded so far, in order.
    pub closed spec fn spec_emitted(self) -> Seq<Seq<char>> {
        self.emitted@
    }

    /// Driver invariant: the position lies within the step list, the names
    /// yielded so far are exactly the names of the completed steps, the
    /// cache is well formed and offers every step the context it needs.
    pub open spec fn wf(self) -> bool {
        &&& self.spec_pos() <= self.spec_steps().len()
        &&& self.spec_emitted().len() == self.spec_pos()
        &&& forall|i: int|
            0 <= i < self.spec_pos() ==> (#[trigger] self.spec_emitted()[i])
                == self.spec_steps()[i].name@
        &&& self.spec_cache().wf()
        &&& forall|j: int|
            0 <= j < self.spec_steps().len() ==> spec_step_shape_ok(
                #[trigger] self.spec_steps()[j],
                self.spec_cache(),
            )
    }

    /// Start a driver at the first step of a pipeline.
    pub fn new(steps: &'a Vec<PipelineStep>, cache: DataCache) -> (r: Driver<'a>)
        requires
            cache.wf(),
            forall|j: int|
                0 <= j < steps@.len() ==> spec_step_shape_ok(#[trigger] steps@[j], cache),
        ensures
            r.wf(),
            r.spec_steps() == steps@,
            r.spec_cache() == cache,
            r.spec_pos() == 0,
            !r.spec_halted(),
            r.spec_emitted() == Seq::<Seq<char>>::empty(),
    {
        Driver { steps, cache, pos: 0, halted: false, emitted: Ghost(Seq::empty()) }
    }

    /// Run the next step and yield its response, or `None` once the
    /// pipeline is exhausted or a step has failed.
    ///
    /// A successful step advances the driver and its response carries that
    /// step's name; a failing step yields the check's error and halts the
    /// driver for good.
    pub fn next_response<R: CheckRunner>(&mut self, runner: &R) -> (r: Option<
        Result<ValidateResponse, Error>,
    >)
        requires
            old(self).wf(),
        ensures
            final(self).wf(),
            final(self).spec_steps() == old(self).spec_steps(),
            final(self).spec_cache() == old(self).spec_cache(),
            (old(self).spec_halted() || old(self).spec_pos() == old(self).spec_steps().len())
                ==> r is None && *final(self) == *old(self),
            (!old(self).spec_halted() && old(self).spec_pos() < old(self).spec_steps().len())
                ==> r is Some,
            r matches Some(Ok(resp)) ==> spec_response_ok(
                old(self).spec_steps()[old(self).spec_pos()],
                old(self).spec_cache(),
                resp,
            ) && final(self).spec_pos() == old(self).spec_pos() + 1 && !final(self).spec_halted()
                && final(self).spec_emitted() == old(self).spec_emitted().push(resp.test@),
            r matches Some(Err(e)) ==> (e matches Error::Runner(_)) && final(self).spec_halted()
                && final(self).spec_pos() == old(self).spec_pos() && final(self).spec_emitted()
                == old(self).spec_emitted(),
            (!old(self).spec_halted() && old(self).spec_pos() < old(self).spec_steps().len()
                && !harness::spec_kind_known(
                old(self).spec_steps()[old(self).spec_pos()].check,
            ) && !harness::spec_test_prefixed(
                old(self).spec_steps()[old(self).spec_pos()].name@,
            )) ==> (r matches Some(
                Err(Error::Runner(harness::Error::InvalidTestName(n))),
            ) && n@ == old(self).spec_steps()[old(self).spec_pos()].name@),
            (!old(self).spec_halted() && old(self).spec_pos() < old(self).spec_steps().len()
                && !harness::spec_kind_known(
                old(self).spec_steps()[old(self).spec_pos()].check,
            ) && harness::spec_test_prefixed(
                old(self).spec_steps()[old(self).spec_pos()].name@,
            )) ==> r matches Some(Ok(_)),
    {
        if self.halted || self.pos == self.steps.len() {
            return None;
        }
        let step = &self.steps[self.pos];
        match run_test(runner, step, &self.cache) {
            Ok(resp) => {
                self.pos += 1;
                proof {
                    self.emitted@ = self.emitted@.push(resp.test@);
                }
                Some(Ok(resp))
            },
            Err(e) => {
                self.halted = true;
                Some(Err(Error::Runner(e)))
            },
        }
    }
}

/// The names a driver has yielded are exactly the names of the completed
/// prefix of its pipeline's declared steps: never reordered, never
/// duplicated, truncated only by a failure or by the caller walking away.
pub proof fn lemma_emitted_is_declared_prefix(d: Driver)
    requires
        d.wf(),
    ensures
        d.spec_emitted() == d.spec_steps().take(d.spec_pos()).map_values(
            |s: PipelineStep| s.name@,
        ),
{
    let lhs = d.spec_emitted();
    let rhs = d.spec_steps().take(d.spec_pos()).map_values(|s: PipelineStep| s.name@);
    assert(lhs.len() == rhs.len());
    assert forall|i: int| 0 <= i < lhs.len() implies lhs[i] == rhs[i] by {
        assert(d.spec_steps().take(d.spec_pos())[i] == d.spec_steps()[i]);
    }
    assert(lhs =~= rhs);
}

/// Translate the plain fields of an incoming request into a [`TimeSpec`]:
/// the window endpoints are seconds since the epoch, the resolution an
/// ISO-8601 duration string. Fails exactly when the duration does not
/// parse.
pub fn time_spec_from_parts(start_time: i64, end_time: i64, time_resolution: &str) -> (r: Result<
    TimeSpec,
    duration::Error,
>)
    ensures
        match spec_parse_duration(time_resolution@) {
            Some(d) => r matches Ok(spec) && spec.timerange.start.0 == start_time
                && spec.timerange.end.0 == end_time && spec.time_resolution == d,
            None => r is Err,
        },
{
    let time_resolution = match parse_duration_handwritten(time_resolution) {
        Ok(d) => d,
        Err(e) => {
            return Err(e);
        },
    };
    Ok(
        TimeSpec {
            timerange: crate::time::Timerange {
                start: crate::time::Timestamp(start_time),
                end: crate::time::Timestamp(end_time),
            },
            time_resolution,
        },
    )
}

/// Service-wide request entry point: holds the configured pipelines and
/// the data switch, both installed once and shared read-only.
pub struct Scheduler<C> {
    pipelines: Vec<(String, Pipeline)>,
    data_switch: DataSwitch<C>,
}

impl<C: DataConnector> Scheduler<C> {
    /// The configured pipelines: name and pipeline pairs.
    pub closed spec fn spec_pipelines(self) -> Seq<(String, Pipeline)> {
        self.pipelines@
    }

    /// The data switch requests are routed through.
    pub closed spec fn spec_data_switch(self) -> DataSwitch<C> {
        self.data_switch
    }

    /// Scheduler invariant: every configured pipeline carries its derived
    /// requirements, and pipeline names are unique.
    pub open spec fn wf(self) -> bool {
        &&& forall|i: int|
            0 <= i < self.spec_pipelines().len() ==> (#[trigger] self.spec_pipelines()[i].1).wf()
        &&& forall|i: int, j: int|
            0 <= i < j < self.spec_pipelines().len() ==> self.spec_pipelines()[i].0@
                != self.spec_pipelines()[j].0@
    }

    /// True when a pipeline is configured under `name`.
    pub open spec fn spec_named(self, name: Seq<char>) -> bool {
        exists|i: int|
            0 <= i < self.spec_pipelines().len() && (#[trigger] self.spec_pipelines()[i].0@)
                == name
    }

    /// The pipeline configured under `name`.
    pub open spec fn spec_pipeline_of(self, name: Seq<char>) -> Pipeline {
        let i = choose|i: int|
            0 <= i < self.spec_pipelines().len() && (#[trigger] self.spec_pipelines()[i].0@)
                == name;
        self.spec_pipelines()[i].1
    }

    /// True when a request naming `name` can start: the pipeline exists
    /// and has at least one step.
    pub open spec fn spec_runnable(self, name: Seq<char>) -> bool {
        self.spec_named(name) && self.spec_pipeline_of(name).steps@.len() > 0
    }

    /// Instantiate a scheduler over configured pipelines and a data
    /// switch.
    ///
    /// Every pipeline must carry the requirements its step list derives to
    /// (build them with [`Pipeline::new`]), and names must be unique.
    pub fn new(pipelines: Vec<(String, Pipeline)>, data_switch: DataSwitch<C>) -> (r: Scheduler<
        C,
    >)
        requires
            forall|i: int| 0 <= i < pipelines@.len() ==> (#[trigger] pipelines@[i].1).wf(),
            forall|i: int, j: int|
                0 <= i < j < pipelines@.len() ==> pipelines@[i].0@ != pipelines@[j].0@,
        ensures
            r.wf(),
            r.spec_pipelines() == pipelines@,
            r.spec_data_switch() == data_switch,
    {
        Scheduler { pipelines, data_switch }
    }

    /// Start a QC run: resolve the pipeline, fetch the cache through the
    /// data switch exactly once — passing the pipeline's derived context
    /// requirements — and hand back the driver that runs the steps.
    ///
    /// Fails with [`Error::InvalidArg`] exactly when the pipeline name is
    /// unknown or the pipeline has no steps; fails with the switch's
    /// [`data_switch::Error::InvalidDataSource`] when the source is not
    /// registered; any connector error is passed through unchanged under
    /// [`Error::DataSwitch`], and no other error kind is returned here.
    /// `backing_sources` is accepted and reserved: the algorithm does not
    /// read it yet.
    pub fn validate_direct<'a>(
        &'a self,
        data_source: &str,
        backing_sources: &Vec<String>,
        time_spec: &TimeSpec,
        space_spec: &SpaceSpec,
        test_pipeline: &str,
        extra_spec: Option<&str>,
    ) -> (r: Result<Driver<'a>, Error>)
        requires
            self.wf(),
        ensures
            !self.spec_runnable(test_pipeline@) <==> r matches Err(Error::InvalidArg(_)),
            r matches Err(e) ==> (e matches Error::InvalidArg(_) || e matches Error::DataSwitch(
                _,
            )),
            self.spec_runnable(test_pipeline@) && !self.spec_data_switch().spec_registered(
                data_source@,
            ) ==> (r matches Err(Error::DataSwitch(data_switch::Error::InvalidDataSource(n)))
                && n@ == data_source@),
            r matches Ok(d) ==> {
                &&& d.wf()
                &&& d.spec_steps() == self.spec_pipeline_of(test_pipeline@).steps@
                &&& d.spec_pos() == 0
                &&& !d.spec_halted()
                &&& d.spec_emitted() == Seq::<Seq<char>>::empty()
                &&& d.spec_cache().wf()
                &&& d.spec_cache().num_leading_points == self.spec_pipeline_of(
                    test_pipeline@,
                ).num_leading_required
                &&& d.spec_cache().num_trailing_points == self.spec_pipeline_of(
                    test_pipeline@,
                ).num_trailing_required
            },
    {
        let pipeline = match self.find_pipeline(test_pipeline) {
            Some(p) => p,
            None => {
                return Err(
                    Error::InvalidArg("pipeline name not found in configuration".to_owned()),
                );
            },
        };
        if pipeline.steps.len() == 0 {
            return Err(Error::InvalidArg("must specify at least 1 test to be run".to_owned()));
        }

        let cache = match self.data_switch.fetch_data(
            data_source,
            space_spec,
            time_spec,
            pipeline.num_leading_required,
            pipeline.num_trailing_required,
            extra_spec,
        ) {
            Ok(cache) => cache,
            Err(e) => {
                return Err(Error::DataSwitch(e));
            },
        };

        proof {
            lemma_derived_requirements_are_max(pipeline.steps@);
        }
        Ok(Driver::new(&pipeline.steps, cache))
    }

    /// Look up a pipeline by name.
    fn find_pipeline<'a>(&'a self, name: &str) -> (r: Option<&'a Pipeline>)
        requires
            self.wf(),
        ensures
            r is Some <==> self.spec_named(name@),
            r matches Some(p) ==> *p == self.spec_pipeline_of(name@),
    {
        let owned = name.to_owned();
        let mut i: usize = 0;
        while i < self.pipelines.len()
            invariant
                self.wf(),
                0 <= i <= self.pipelines@.len(),
                owned@ == name@,
                forall|j: int| 0 <= j < i ==> (#[trigger] self.pipelines@[j].0@) != name@,
            decreases self.pipelines@.len() - i,
        {
            if owned == self.pipelines[i].0 {
                proof {
                    assert((self.spec_pipelines()[i as int].0@) == name@);
                    let j = choose|j: int|
                        0 <= j < self.spec_pipelines().len() && (
                        #[trigger] self.spec_pipelines()[j].0@) == name@;
                    if j < i {
                        assert(self.spec_pipelines()[j].0@ != self.spec_pipelines()[i as int].0@);
                    } else if j > i {
                        assert(self.spec_pipelines()[i as int].0@ != self.spec_pipelines()[j].0@);
                    }
                    assert(j == i as int);
                }
                return Some(&self.pipelines[i].1);
            }
            i += 1;
        }
        None
    }
}

} // verus!
