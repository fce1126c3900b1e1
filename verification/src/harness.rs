//! The check harness: dispatch from a single pipeline step and a data cache
//! to one response holding a verdict flag for every QCed point.
//!
//! The statistical routines themselves are external collaborators reached
//! through the [`CheckRunner`] trait; their verdicts come back as plain flag
//! codes. Everything around them is verified: which values each run sees,
//! how many verdicts a step yields, which timestamp and series identifier
//! each verdict carries, and the rejection of codes outside the engine's
//! flag vocabulary.

use vstd::prelude::*;

use crate::data_switch::{DataCache, SpatialTree};
use crate::flag::{spec_code_of_flag, spec_flag_of_code, Flag};
use crate::pipeline::{spec_check_requirements, BuddyCheckConf, CheckConf, PipelineStep, SctConf};
use crate::time::{
    lemma_fits_prefix, spec_time_at, time_at, RelDuration, Timestamp, MAX_SERIES_LEN, TIME_BOUND,
};

verus! {

/// Error type for the check harness.
#[derive(Debug)]
pub enum Error {
    /// The step's name was not recognised and its check kind is not one the
    /// harness runs
    InvalidTestName(String),
    /// The underlying statistical routine failed, or the cache did not meet
    /// its needs
    FailedTest(String),
    /// A statistical routine reported a flag code outside the engine's
    /// vocabulary
    UnknownFlag(u8),
}

/// The interface to the underlying statistical routines.
///
/// Observation values and thresholds are IEEE-754 single-precision bit
/// patterns; verdicts come back as flag codes (see
/// [`Flag::try_from_code`](crate::flag::Flag::try_from_code)), one per
/// point judged, and failures as plain messages. Nothing is assumed about
/// an implementation: the harness's guarantees hold whatever it returns.
pub trait CheckRunner {
    /// Judge one two-point window (predecessor, observation) against the
    /// largest allowed step.
    fn step_check(&self, window: &Vec<Option<u32>>, max: u32) -> Result<u8, String>;

    /// Judge one three-point window (predecessor, observation, successor)
    /// against the largest allowed spike.
    fn spike_check(&self, window: &Vec<Option<u32>>, max: u32) -> Result<u8, String>;

    /// Judge one window of points for a flatline run.
    fn flatline_check(&self, window: &Vec<Option<u32>>) -> Result<u8, String>;

    /// Judge one instant of observations, one value per station, against
    /// their neighbours; one code per station.
    fn buddy_check(
        &self,
        rtree: &SpatialTree,
        values: &Vec<u32>,
        conf: &BuddyCheckConf,
    ) -> Result<Vec<u8>, String>;

    /// Spatial-consistency judgement of one instant of observations; one
    /// code per station.
    fn sct(&self, rtree: &SpatialTree, values: &Vec<u32>, conf: &SctConf) -> Result<
        Vec<u8>,
        String,
    >;
}

/// Verdict on a single data point.
#[derive(Debug, Clone, PartialEq)]
pub struct TestResult {
    /// Timestamp of the judged point
    pub time: Timestamp,
    /// Identifier of the series the point belongs to
    pub identifier: String,
    /// The verdict itself
    pub flag: Flag,
}

/// Response to one pipeline step: the step's name and one verdict per
/// QCed point.
#[derive(Debug, Clone, PartialEq)]
pub struct ValidateResponse {
    /// Name of the step these results belong to
    pub test: String,
    /// One verdict per point judged, grouped series by series
    pub results: Vec<TestResult>,
}

/// True for the check kinds this harness runs.
pub open spec fn spec_kind_known(check: CheckConf) -> bool {
    match check {
        CheckConf::StepCheck(_) => true,
        CheckConf::SpikeCheck(_) => true,
        CheckConf::FlatlineCheck(_) => true,
        CheckConf::BuddyCheck(_) => true,
        CheckConf::Sct(_) => true,
        _ => false,
    }
}

/// True for the windowed per-series kinds.
pub open spec fn spec_kind_windowed(check: CheckConf) -> bool {
    match check {
        CheckConf::StepCheck(_) => true,
        CheckConf::SpikeCheck(_) => true,
        CheckConf::FlatlineCheck(_) => true,
        _ => false,
    }
}

/// True when a step name carries the prefix reserved for integration
/// testing.
pub open spec fn spec_test_prefixed(name: Seq<char>) -> bool {
    name.len() >= 4 && name[0] == 't' && name[1] == 'e' && name[2] == 's' && name[3] == 't'
}

/// The cache offers enough context points for one run of the step's check.
///
/// Spatial and unknown kinds need no context of their own, so this only
/// constrains the windowed kinds.
pub open spec fn spec_step_shape_ok(step: PipelineStep, cache: DataCache) -> bool {
    &&& spec_check_requirements(step.check).0 <= cache.num_leading_points
    &&& spec_check_requirements(step.check).1 <= cache.num_trailing_points
}

/// The shape every response body has: one verdict per series per QCed
/// point, grouped series by series; the `k`-th verdict of series `s` sits
/// at index `s * qc + k`, carries that series' identifier, and is stamped
/// `start + period * (leading + k)`.
pub open spec fn spec_results_shape(
    results: Seq<TestResult>,
    ids: Seq<Seq<char>>,
    qc: int,
    start: int,
    months: int,
    seconds: int,
    leading: int,
) -> bool {
    &&& qc >= 0
    &&& results.len() == ids.len() * qc
    &&& forall|j: int|
        0 <= j < results.len() ==> (#[trigger] results[j].identifier@) == ids[j / qc]
    &&& forall|j: int|
        0 <= j < results.len() ==> (#[trigger] results[j].time.0) == spec_time_at(
            start,
            months,
            seconds,
            leading + (j % qc),
        )
}

/// The identifiers of the cache's series, in order.
pub open spec fn spec_cache_ids(cache: DataCache) -> Seq<Seq<char>> {
    cache.data@.map_values(|p: (String, Vec<Option<u32>>)| p.0@)
}

/// Everything a successful response to `step` over `cache` satisfies: it
/// echoes the step's name, and its body has the response shape — one
/// verdict per QCed point of every series judged (the cache's series for a
/// known kind, a single pseudo-series named `test` otherwise, the latter
/// all flagged `Inconclusive`).
pub open spec fn spec_response_ok(step: PipelineStep, cache: DataCache, resp: ValidateResponse) -> bool {
    &&& resp.test@ == step.name@
    &&& spec_kind_known(step.check) ==> spec_results_shape(
        resp.results@,
        spec_cache_ids(cache),
        cache.spec_qc_len(),
        cache.start_time.0 as int,
        cache.period.months as int,
        cache.period.seconds as int,
        cache.num_leading_points as int,
    )
    &&& !spec_kind_known(step.check) ==> spec_results_shape(
        resp.results@,
        seq![seq!['t', 'e', 's', 't']],
        cache.spec_qc_len(),
        cache.start_time.0 as int,
        cache.period.months as int,
        cache.period.seconds as int,
        cache.num_leading_points as int,
    ) && (forall|j: int|
        0 <= j < resp.results@.len() ==> (#[trigger] resp.results@[j].flag) == Flag::Inconclusive)
}

/// Build the response for one step from the verdict codes of its check
/// runs: convert each code to a [`Flag`], stamp it with its series
/// identifier and its timestamp, and lay the verdicts out series by series.
///
/// Succeeds if and only if every code lies inside the engine's flag
/// vocabulary; the first code outside it is reported as
/// [`Error::UnknownFlag`].
pub fn assemble_response(
    step_name: &String,
    ids: &Vec<String>,
    codes: &Vec<Vec<u8>>,
    qc: usize,
    start_time: Timestamp,
    period: RelDuration,
    num_leading: u8,
) -> (r: Result<ValidateResponse, Error>)
    requires
        codes@.len() == ids@.len(),
        forall|s: int| 0 <= s < codes@.len() ==> (#[trigger] codes@[s]@.len()) == qc,
        -TIME_BOUND <= start_time.0 <= TIME_BOUND,
        qc > 0 ==> num_leading + qc <= MAX_SERIES_LEN,
        qc > 0 ==> period.fits(num_leading + qc),
    ensures
        r is Ok <==> (forall|s: int, k: int|
            0 <= s < codes@.len() && 0 <= k < qc ==> spec_flag_of_code(
                #[trigger] codes@[s]@[k],
            ) is Some),
        r matches Ok(resp) ==> {
            &&& resp.test@ == step_name@
            &&& spec_results_shape(
                resp.results@,
                ids@.map_values(|x: String| x@),
                qc as int,
                start_time.0 as int,
                period.months as int,
                period.seconds as int,
                num_leading as int,
            )
            &&& forall|j: int|
                0 <= j < resp.results@.len() ==> Some(#[trigger] resp.results@[j].flag)
                    == spec_flag_of_code(codes@[j / (qc as int)]@[j % (qc as int)])
        },
        r matches Err(e) ==> (e matches Error::UnknownFlag(c) && spec_flag_of_code(c) is None
            && exists|s: int, k: int|
            0 <= s < codes@.len() && 0 <= k < qc && (#[trigger] codes@[s]@[k]) == c),
{
    let ghost ids_view = ids@.map_values(|x: String| x@);
    let num_series = ids.len();
    let mut results: Vec<TestResult> = Vec::new();
    let mut s: usize = 0;
    while s < num_series
        invariant
            0 <= s <= num_series,
            num_series == ids@.len(),
            codes@.len() == ids@.len(),
            ids_view == ids@.map_values(|x: String| x@),
            forall|i: int| 0 <= i < codes@.len() ==> (#[trigger] codes@[i]@.len()) == qc,
            -TIME_BOUND <= start_time.0 <= TIME_BOUND,
            qc > 0 ==> num_leading + qc <= MAX_SERIES_LEN,
            qc > 0 ==> period.fits(num_leading + qc),
            results@.len() == s * qc,
            forall|j: int|
                0 <= j < results@.len() ==> (#[trigger] results@[j].identifier@) == ids_view[j
                    / (qc as int)],
            forall|j: int|
                0 <= j < results@.len() ==> (#[trigger] results@[j].time.0) == spec_time_at(
                    start_time.0 as int,
                    period.months as int,
                    period.seconds as int,
                    num_leading + (j % (qc as int)),
                ),
            forall|j: int|
                0 <= j < results@.len() ==> Some(#[trigger] results@[j].flag)
                    == spec_flag_of_code(codes@[j / (qc as int)]@[j % (qc as int)]),
            forall|i: int, k: int|
                0 <= i < s && 0 <= k < qc ==> spec_flag_of_code(
                    #[trigger] codes@[i]@[k],
                ) is Some,
        decreases num_series - s,
    {
        let mut k: usize = 0;
        while k < qc
            invariant
                0 <= s < num_series,
                0 <= k <= qc,
                num_series == ids@.len(),
                codes@.len() == ids@.len(),
                ids_view == ids@.map_values(|x: String| x@),
                forall|i: int| 0 <= i < codes@.len() ==> (#[trigger] codes@[i]@.len()) == qc,
                -TIME_BOUND <= start_time.0 <= TIME_BOUND,
                qc > 0 ==> num_leading + qc <= MAX_SERIES_LEN,
                qc > 0 ==> period.fits(num_leading + qc),
                results@.len() == s * qc + k,
                forall|j: int|
                    0 <= j < results@.len() ==> (#[trigger] results@[j].identifier@) == ids_view[j
                        / (qc as int)],
                forall|j: int|
                    0 <= j < results@.len() ==> (#[trigger] results@[j].time.0) == spec_time_at(
                        start_time.0 as int,
                        period.months as int,
                        period.seconds as int,
                        num_leading + (j % (qc as int)),
                    ),
                forall|j: int|
                    0 <= j < results@.len() ==> Some(#[trigger] results@[j].flag)
                        == spec_flag_of_code(codes@[j / (qc as int)]@[j % (qc as int)]),
                forall|i: int, k2: int|
                    0 <= i < s && 0 <= k2 < qc ==> spec_flag_of_code(
                        #[trigger] codes@[i]@[k2],
                    ) is Some,
                forall|k2: int|
                    0 <= k2 < k ==> spec_flag_of_code(#[trigger] codes@[s as int]@[k2]) is Some,
            decreases qc - k,
        {
            let code = codes[s][k];
            match Flag::try_from_code(code) {
                Some(flag) => {
                    proof {
                        lemma_fits_prefix(
                            period,
                            num_leading + qc,
                            num_leading + k,
                        );
                    }
                    let time = time_at(start_time, period, num_leading as usize + k);
                    let identifier = ids[s].clone();
                    proof {
                        vstd::arithmetic::div_mod::lemma_fundamental_div_mod_converse(
                            (s * qc + k) as int,
                            qc as int,
                            s as int,
                            k as int,
                        );
                    }
                    results.push(TestResult { time, identifier, flag });
                },
                None => {
                    proof {
                        assert(codes@[s as int]@[k as int] == code);
                    }
                    return Err(Error::UnknownFlag(code));
                },
            }
            k += 1;
        }
        proof {
            assert(s * qc + qc == (s + 1) * qc) by (nonlinear_arith) {}
        }
        s += 1;
    }
    let response = ValidateResponse { test: step_name.clone(), results };
    proof {
        assert(response.results@.len() == num_series * qc);
        assert forall|i: int, k: int|
            0 <= i < codes@.len() && 0 <= k < qc implies spec_flag_of_code(
            #[trigger] codes@[i]@[k],
        ) is Some by {}
    }
    Ok(response)
}

/// Copy the window of `size` points starting at `offset` out of a series.
fn collect_window(values: &Vec<Option<u32>>, offset: usize, size: usize) -> (w: Vec<Option<u32>>)
    requires
        offset + size <= values@.len(),
    ensures
        w@ == values@.subrange(offset as int, (offset + size) as int),
{
    let n = values.len();
    let mut w: Vec<Option<u32>> = Vec::new();
    let mut i: usize = 0;
    while i < size
        invariant
            0 <= i <= size,
            n == values@.len(),
            offset + size <= n,
            w@ == values@.subrange(offset as int, (offset + i) as int),
        decreases size - i,
    {
        w.push(values[offset + i]);
        proof {
            assert(w@ =~= values@.subrange(offset as int, (offset + i + 1) as int));
        }
        i += 1;
    }
    w
}

/// Run one windowed per-series check over the whole cache, returning the
/// verdict codes grouped by series: `codes[s][k]` judges point
/// `num_leading + k` of series `s`.
fn run_windowed<R: CheckRunner>(runner: &R, check: &CheckConf, cache: &DataCache) -> (r: Result<
    Vec<Vec<u8>>,
    String,
>)
    requires
        cache.wf(),
        spec_kind_windowed(*check),
        spec_check_requirements(*check).0 <= cache.num_leading_points,
        spec_check_requirements(*check).1 <= cache.num_trailing_points,
    ensures
        r matches Ok(codes) ==> codes@.len() == cache.data@.len() && forall|s: int|
            0 <= s < codes@.len() ==> (#[trigger] codes@[s]@.len()) == cache.spec_qc_len(),
{
    let num_series = cache.data.len();
    let mut codes: Vec<Vec<u8>> = Vec::new();
    if num_series == 0 {
        return Ok(codes);
    }
    let series_len = cache.data[0].1.len();
    let leading = cache.num_leading_points as usize;
    let trailing = cache.num_trailing_points as usize;
    let (lead_per_run, trail_per_run) = check.get_num_leading_trailing();
    let lead_per_run = lead_per_run as usize;
    let trail_per_run = trail_per_run as usize;
    let qc = series_len - leading - trailing;
    let window_size = lead_per_run + 1 + trail_per_run;
    let start_offset = leading - lead_per_run;
    let mut s: usize = 0;
    while s < num_series
        invariant
            0 <= s <= num_series,
            cache.wf(),
            spec_kind_windowed(*check),
            num_series == cache.data@.len(),
            num_series > 0,
            series_len == cache.spec_series_len(),
            leading == cache.num_leading_points,
            trailing == cache.num_trailing_points,
            lead_per_run == spec_check_requirements(*check).0,
            trail_per_run == spec_check_requirements(*check).1,
            lead_per_run <= leading,
            trail_per_run <= trailing,
            leading + 1 + trailing <= series_len,
            qc == series_len - leading - trailing,
            window_size == lead_per_run + 1 + trail_per_run,
            start_offset == leading - lead_per_run,
            codes@.len() == s,
            forall|i: int| 0 <= i < s ==> (#[trigger] codes@[i]@.len()) == qc,
        decreases num_series - s,
    {
        let values = &cache.data[s].1;
        let mut series_codes: Vec<u8> = Vec::new();
        let mut k: usize = 0;
        while k < qc
            invariant
                0 <= s < num_series,
                0 <= k <= qc,
                cache.wf(),
                spec_kind_windowed(*check),
                num_series == cache.data@.len(),
                series_len == cache.spec_series_len(),
                values@ == cache.data@[s as int].1@,
                leading == cache.num_leading_points,
                trailing == cache.num_trailing_points,
                lead_per_run == spec_check_requirements(*check).0,
                trail_per_run == spec_check_requirements(*check).1,
                lead_per_run <= leading,
                trail_per_run <= trailing,
                leading + 1 + trailing <= series_len,
                qc == series_len - leading - trailing,
                window_size == lead_per_run + 1 + trail_per_run,
                start_offset == leading - lead_per_run,
                series_codes@.len() == k,
            decreases qc - k,
        {
            proof {
                assert(cache.data@[s as int].1@.len() == series_len);
            }
            let window = collect_window(values, start_offset + k, window_size);
            let outcome = match check {
                CheckConf::StepCheck(conf) => runner.step_check(&window, conf.max),
                CheckConf::SpikeCheck(conf) => runner.spike_check(&window, conf.max),
                _ => runner.flatline_check(&window),
            };
            match outcome {
                Ok(code) => {
                    series_codes.push(code);
                },
                Err(message) => {
                    return Err(message);
                },
            }
            k += 1;
        }
        codes.push(series_codes);
        s += 1;
    }
    Ok(codes)
}

/// Gather the observations of one QCed instant: the value of series `s`
/// at index `num_leading + t` becomes entry `s` of the column, one per
/// station, in series order. Succeeds if and only if no series has a gap
/// at that instant.
fn collect_column(cache: &DataCache, t: usize) -> (r: Result<Vec<u32>, String>)
    requires
        cache.wf(),
        cache.data@.len() > 0,
        t < cache.spec_qc_len(),
    ensures
        r is Ok <==> (forall|s: int|
            0 <= s < cache.data@.len() ==> (#[trigger] cache.data@[s].1@[cache.num_leading_points
                + t]) is Some),
        r matches Ok(col) ==> col@.len() == cache.data@.len() && forall|s: int|
            0 <= s < col@.len() ==> Some(#[trigger] col@[s]) == cache.data@[s].1@[cache.num_leading_points
                + t],
{
    let num_series = cache.data.len();
    let leading = cache.num_leading_points as usize;
    let mut column: Vec<u32> = Vec::new();
    let mut s: usize = 0;
    while s < num_series
        invariant
            0 <= s <= num_series,
            cache.wf(),
            num_series == cache.data@.len(),
            num_series > 0,
            leading == cache.num_leading_points,
            t < cache.spec_qc_len(),
            column@.len() == s,
            forall|i: int|
                0 <= i < s ==> Some(#[trigger] column@[i]) == cache.data@[i].1@[leading + t],
        decreases num_series - s,
    {
        proof {
            assert(cache.data@[s as int].1@.len() == cache.spec_series_len());
        }
        match cache.data[s].1[leading + t] {
            Some(value) => {
                column.push(value);
            },
            None => {
                proof {
                    assert(!(cache.data@[s as int].1@[leading + t] is Some));
                }
                return Err("missing value inside the QCed range of a spatial check".to_owned());
            },
        }
        s += 1;
    }
    proof {
        assert forall|i: int| 0 <= i < cache.data@.len() implies (
        #[trigger] cache.data@[i].1@[cache.num_leading_points + t]) is Some by {
            assert(Some(column@[i]) == cache.data@[i].1@[cache.num_leading_points + t]);
        }
    }
    Ok(column)
}

/// Run one spatial check over the whole cache: for each QCed instant,
/// [`collect_column`] gathers one concrete value per station, the column
/// goes to the routine, and one verdict per station comes back. Returns
/// the codes grouped by series, as [`run_windowed`] does.
///
/// A gap (`None`) inside the QCed range, or a column judged with the wrong
/// number of verdicts, fails the run.
fn run_spatial<R: CheckRunner>(runner: &R, check: &CheckConf, cache: &DataCache) -> (r: Result<
    Vec<Vec<u8>>,
    String,
>)
    requires
        cache.wf(),
        check matches CheckConf::BuddyCheck(_) || check matches CheckConf::Sct(_),
    ensures
        r matches Ok(codes) ==> codes@.len() == cache.data@.len() && forall|s: int|
            0 <= s < codes@.len() ==> (#[trigger] codes@[s]@.len()) == cache.spec_qc_len(),
{
    let num_series = cache.data.len();
    let mut codes: Vec<Vec<u8>> = Vec::new();
    if num_series == 0 {
        return Ok(codes);
    }
    let series_len = cache.data[0].1.len();
    let leading = cache.num_leading_points as usize;
    let trailing = cache.num_trailing_points as usize;
    let qc = series_len - leading - trailing;

    // verdicts per instant, in time order; transposed into per-series rows
    // at the end
    let mut columns: Vec<Vec<u8>> = Vec::new();
    let mut t: usize = 0;
    while t < qc
        invariant
            0 <= t <= qc,
            cache.wf(),
            num_series == cache.data@.len(),
            num_series > 0,
            series_len == cache.spec_series_len(),
            leading == cache.num_leading_points,
            trailing == cache.num_trailing_points,
            leading + 1 + trailing <= series_len,
            qc == series_len - leading - trailing,
            columns@.len() == t,
            forall|i: int| 0 <= i < t ==> (#[trigger] columns@[i]@.len()) == num_series,
        decreases qc - t,
    {
        let column = match collect_column(cache, t) {
            Ok(column) => column,
            Err(message) => {
                return Err(message);
            },
        };
        let outcome = match check {
            CheckConf::BuddyCheck(conf) => runner.buddy_check(&cache.rtree, &column, conf),
            CheckConf::Sct(conf) => runner.sct(&cache.rtree, &column, conf),
            _ => Err("spatial check dispatched on a non-spatial kind".to_owned()),
        };
        match outcome {
            Ok(instant_codes) => {
                if instant_codes.len() != num_series {
                    return Err("spatial check returned one verdict per station short or over".to_owned());
                }
                columns.push(instant_codes);
            },
            Err(message) => {
                return Err(message);
            },
        }
        t += 1;
    }

    // transpose: row s collects the verdicts on series s, in time order
    let mut s: usize = 0;
    while s < num_series
        invariant
            0 <= s <= num_series,
            num_series == cache.data@.len(),
            qc == cache.spec_qc_len(),
            columns@.len() == qc,
            forall|i: int| 0 <= i < qc ==> (#[trigger] columns@[i]@.len()) == num_series,
            codes@.len() == s,
            forall|i: int| 0 <= i < s ==> (#[trigger] codes@[i]@.len()) == qc,
        decreases num_series - s,
    {
        let mut row: Vec<u8> = Vec::new();
        let mut k: usize = 0;
        while k < qc
            invariant
                0 <= s < num_series,
                0 <= k <= qc,
                columns@.len() == qc,
                forall|i: int| 0 <= i < qc ==> (#[trigger] columns@[i]@.len()) == num_series,
                row@.len() == k,
            decreases qc - k,
        {
            row.push(columns[k][s]);
            k += 1;
        }
        codes.push(row);
        s += 1;
    }
    proof {
        if num_series > 0 {
            assert(cache.spec_qc_len() == qc);
        }
    }
    Ok(codes)
}

/// Run one pipeline step against a cache and assemble its response.
///
/// The step's check kind decides the work: windowed per-series checks slide
/// their window over every series, spatial checks judge every station one
/// instant at a time, a step with an unknown kind and a name prefixed
/// `test` yields one `Inconclusive` verdict per QCed point of a single
/// pseudo-series named `test`, and any other step with an unknown kind is
/// rejected as [`Error::InvalidTestName`]. Whatever the statistical
/// routines return, every response carries the step's name, one verdict
/// per point judged in series order, each stamped with its series
/// identifier and the timestamp `start_time + period * (num_leading + k)`.
pub fn run_test<R: CheckRunner>(runner: &R, step: &PipelineStep, cache: &DataCache) -> (r: Result<
    ValidateResponse,
    Error,
>)
    requires
        cache.wf(),
        spec_step_shape_ok(*step, *cache),
    ensures
        (!spec_kind_known(step.check) && !spec_test_prefixed(step.name@)) <==> (r matches Err(
            Error::InvalidTestName(n),
        ) && n@ == step.name@),
        (!spec_kind_known(step.check) && spec_test_prefixed(step.name@)) ==> r is Ok,
        r matches Ok(resp) ==> spec_response_ok(*step, *cache, resp),
        r matches Err(e) && (e matches Error::FailedTest(_) || e matches Error::UnknownFlag(_))
            ==> spec_kind_known(step.check),
        r matches Err(Error::UnknownFlag(c)) ==> spec_flag_of_code(c) is None,
{
    let kind_known = match &step.check {
        CheckConf::StepCheck(_) => true,
        CheckConf::SpikeCheck(_) => true,
        CheckConf::FlatlineCheck(_) => true,
        CheckConf::BuddyCheck(_) => true,
        CheckConf::Sct(_) => true,
        _ => false,
    };

    let qc = if cache.data.len() == 0 {
        0
    } else {
        cache.series_len() - cache.num_leading_points as usize
            - cache.num_trailing_points as usize
    };

    if !kind_known {
        // reserved for integration testing: a single pseudo-series of
        // inconclusive verdicts
        if test_prefixed(&step.name) {
            let ids: Vec<String> = vec!["test".to_owned()];
            let inconclusive = Flag::Inconclusive.code();
            let series: Vec<u8> = vec![inconclusive; qc];
            let codes: Vec<Vec<u8>> = vec![series];
            proof {
                reveal_strlit("test");
                assert(ids@.map_values(|x: String| x@) =~~= seq![seq!['t', 'e', 's', 't']]);
            }
            proof {
                assert(forall|k: int|
                    0 <= k < qc ==> (#[trigger] codes@[0]@[k]) == spec_code_of_flag(
                        Flag::Inconclusive,
                    ));
            }
            proof {
                if qc > 0 {
                    lemma_fits_prefix(
                        cache.period,
                        cache.spec_series_len(),
                        cache.num_leading_points + qc,
                    );
                }
            }
            let response = match assemble_response(
                &step.name,
                &ids,
                &codes,
                qc,
                cache.start_time,
                cache.period,
                cache.num_leading_points,
            ) {
                Ok(resp) => resp,
                Err(_) => {
                    // cannot be reached: every code handed in is the
                    // inconclusive code, which the vocabulary holds
                    return Err(Error::FailedTest("inconclusive flag rejected".to_owned()));
                },
            };
            proof {
                assert forall|j: int| 0 <= j < response.results@.len() implies (
                #[trigger] response.results@[j].flag) == Flag::Inconclusive by {
                    vstd::arithmetic::div_mod::lemma_fundamental_div_mod_converse(
                        j,
                        qc as int,
                        0,
                        j,
                    );
                }
            }
            return Ok(response);
        }
        return Err(Error::InvalidTestName(step.name.clone()));
    }

    let windowed = match &step.check {
        CheckConf::StepCheck(_) => true,
        CheckConf::SpikeCheck(_) => true,
        CheckConf::FlatlineCheck(_) => true,
        _ => false,
    };

    let codes = if windowed {
        match run_windowed(runner, &step.check, cache) {
            Ok(codes) => codes,
            Err(message) => {
                return Err(Error::FailedTest(message));
            },
        }
    } else {
        match run_spatial(runner, &step.check, cache) {
            Ok(codes) => codes,
            Err(message) => {
                return Err(Error::FailedTest(message));
            },
        }
    };

    let mut ids: Vec<String> = Vec::new();
    let mut s: usize = 0;
    while s < cache.data.len()
        invariant
            0 <= s <= cache.data@.len(),
            ids@.len() == s,
            forall|i: int| 0 <= i < s ==> (#[trigger] ids@[i]@) == cache.data@[i].0@,
        decreases cache.data@.len() - s,
    {
        ids.push(cache.data[s].0.clone());
        s += 1;
    }
    proof {
        assert(ids@.map_values(|x: String| x@) =~= spec_cache_ids(*cache));
    }

    proof {
        if qc > 0 {
            lemma_fits_prefix(
                cache.period,
                cache.spec_series_len(),
                cache.num_leading_points + qc,
            );
        }
    }
    assemble_response(
        &step.name,
        &ids,
        &codes,
        qc,
        cache.start_time,
        cache.period,
        cache.num_leading_points,
    )
}

/// Every successful response to a known check kind holds exactly one
/// verdict per QCed point of every series in the cache: `len(results)`
/// equals the number of series times `len - num_leading - num_trailing`.
pub proof fn lemma_response_counts_every_point(
    step: PipelineStep,
    cache: DataCache,
    resp: ValidateResponse,
)
    requires
        spec_kind_known(step.check),
        spec_response_ok(step, cache, resp),
    ensures
        resp.results@.len() == cache.data@.len() * cache.spec_qc_len(),
{
}

/// The `k`-th verdict of a series within a successful response is stamped
/// `start_time + period * (num_leading + k)` and carries that series'
/// identifier.
pub proof fn lemma_response_times_and_identifiers(
    step: PipelineStep,
    cache: DataCache,
    resp: ValidateResponse,
    s: int,
    k: int,
)
    requires
        spec_kind_known(step.check),
        spec_response_ok(step, cache, resp),
        0 <= s < cache.data@.len(),
        0 <= k < cache.spec_qc_len(),
    ensures
        resp.results@[s * cache.spec_qc_len() + k].identifier@ == cache.data@[s].0@,
        resp.results@[s * cache.spec_qc_len() + k].time.0 == spec_time_at(
            cache.start_time.0 as int,
            cache.period.months as int,
            cache.period.seconds as int,
            cache.num_leading_points + k,
        ),
{
    let qc = cache.spec_qc_len();
    let j = s * qc + k;
    assert(0 <= j < cache.data@.len() * qc) by (nonlinear_arith)
        requires
            0 <= s < cache.data@.len(),
            0 <= k < qc,
            j == s * qc + k,
    {}
    vstd::arithmetic::div_mod::lemma_fundamental_div_mod_converse(j, qc, s, k);
    assert(spec_cache_ids(cache)[s] == cache.data@[s].0@);
}

/// A step's response is a function of the step's name, the series judged,
/// the cache's timing, and the verdict codes the statistical routines
/// returned: two responses assembled from equal inputs agree on every
/// observable field. With a deterministic connector and deterministic
/// checks, identical requests therefore yield identical responses.
pub proof fn lemma_response_determined(
    r1: ValidateResponse,
    r2: ValidateResponse,
    ids: Seq<Seq<char>>,
    codes: Seq<Seq<u8>>,
    qc: int,
    start: int,
    months: int,
    seconds: int,
    leading: int,
)
    requires
        r1.test@ == r2.test@,
        spec_results_shape(r1.results@, ids, qc, start, months, seconds, leading),
        spec_results_shape(r2.results@, ids, qc, start, months, seconds, leading),
        forall|j: int|
            0 <= j < r1.results@.len() ==> Some(#[trigger] r1.results@[j].flag)
                == spec_flag_of_code(codes[j / qc][j % qc]),
        forall|j: int|
            0 <= j < r2.results@.len() ==> Some(#[trigger] r2.results@[j].flag)
                == spec_flag_of_code(codes[j / qc][j % qc]),
    ensures
        r1.results@.len() == r2.results@.len(),
        forall|j: int|
            0 <= j < r1.results@.len() ==> (#[trigger] r1.results@[j]).time
                == r2.results@[j].time && r1.results@[j].identifier@ == r2.results@[j].identifier@
                && r1.results@[j].flag == r2.results@[j].flag,
{
    assert forall|j: int| 0 <= j < r1.results@.len() implies (#[trigger] r1.results@[j]).time
        == r2.results@[j].time && r1.results@[j].identifier@ == r2.results@[j].identifier@
        && r1.results@[j].flag == r2.results@[j].flag by {
        assert(r1.results@[j].identifier@ == ids[j / qc]);
        assert(r2.results@[j].identifier@ == ids[j / qc]);
        assert(r1.results@[j].time.0 == spec_time_at(start, months, seconds, leading + (j % qc)));
        assert(r2.results@[j].time.0 == spec_time_at(start, months, seconds, leading + (j % qc)));
    }
}

/// True when the step name carries the `test` prefix.
fn test_prefixed(name: &String) -> (r: bool)
    ensures
        r == spec_test_prefixed(name@),
{
    let n = name.as_str().unicode_len();
    if n < 4 {
        return false;
    }
    let s = name.as_str();
    s.get_char(0) == 't' && s.get_char(1) == 'e' && s.get_char(2) == 's' && s.get_char(3) == 't'
}

} // verus!
