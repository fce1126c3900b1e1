use std::cell::Cell;

use rove::data_switch::{DataCache, DataConnector, DataSwitch, Error as DataError, SpaceSpec, SpatialTree, TimeSpec, Timerange, Timestamp};
use rove::dev_utils::TestDataSource;
use rove::duration::parse_duration_handwritten;
use rove::flag::Flag;
use rove::harness::{CheckRunner, Error as HarnessError};
use rove::pipeline::{
    derive_num_leading_trailing, BuddyCheckConf, CheckConf, FlatlineCheckConf, Pipeline,
    PipelineStep, SctConf, SpikeCheckConf, StepCheckConf,
};
use rove::scheduler::{Error as SchedulerError, Scheduler, StatusCategory};
use rove::time::RelDuration;

fn flag_code(flag: olympian::Flag) -> u8 {
    match flag {
        olympian::Flag::Pass => 0,
        olympian::Flag::Fail => 1,
        olympian::Flag::Warn => 2,
        olympian::Flag::Inconclusive => 3,
        olympian::Flag::Invalid => 4,
        olympian::Flag::DataMissing => 5,
        olympian::Flag::Isolated => 6,
        _ => u8::MAX,
    }
}

fn to_f64(bits: u32) -> f64 {
    f32::from_bits(bits) as f64
}

fn window_f64(window: &Vec<Option<u32>>) -> Vec<Option<f64>> {
    window.iter().map(|v| v.map(|bits| to_f64(bits))).collect()
}

fn olympian_tree(tree: &SpatialTree) -> olympian::SpatialTree {
    olympian::SpatialTree::from_latlons(
        tree.lats.iter().map(|b| to_f64(*b)).collect(),
        tree.lons.iter().map(|b| to_f64(*b)).collect(),
        tree.elevs.iter().map(|b| to_f64(*b)).collect(),
    )
}

struct OlympianRunner {
    calls: Cell<usize>,
}

impl OlympianRunner {
    fn new() -> Self {
        OlympianRunner { calls: Cell::new(0) }
    }
}

impl CheckRunner for OlympianRunner {
    fn step_check(&self, window: &Vec<Option<u32>>, max: u32) -> Result<u8, String> {
        self.calls.set(self.calls.get() + 1);
        let w = window_f64(window);
        let data: [Option<f64>; 2] = [w[0], w[1]];
        Ok(flag_code(olympian::checks::series::step_check(&data, to_f64(max))))
    }

    fn spike_check(&self, window: &Vec<Option<u32>>, max: u32) -> Result<u8, String> {
        self.calls.set(self.calls.get() + 1);
        let w = window_f64(window);
        let data: [Option<f64>; 3] = [w[0], w[1], w[2]];
        Ok(flag_code(olympian::checks::series::spike_check(&data, to_f64(max))))
    }

    fn flatline_check(&self, window: &Vec<Option<u32>>) -> Result<u8, String> {
        self.calls.set(self.calls.get() + 1);
        let w = window_f64(window);
        Ok(flag_code(olympian::checks::series::flatline_check(&w, 0.0001)))
    }

    fn buddy_check(
        &self,
        rtree: &SpatialTree,
        values: &Vec<u32>,
        conf: &BuddyCheckConf,
    ) -> Result<Vec<u8>, String> {
        self.calls.set(self.calls.get() + 1);
        let data: Vec<Option<f64>> = values.iter().map(|b| Some(to_f64(*b))).collect();
        let args = olympian::checks::spatial::BuddyCheckArgs {
            radii: olympian::SingleOrVec::Single(to_f64(conf.radii[0])),
            min_buddies: olympian::SingleOrVec::Single(conf.nums_min[0]),
            threshold: to_f64(conf.threshold),
            max_elev_diff: to_f64(conf.max_elev_diff),
            elev_gradient: to_f64(conf.elev_gradient),
            min_std: to_f64(conf.min_std),
            num_iterations: conf.num_iterations,
        };
        olympian::checks::spatial::buddy_check(&data, &olympian_tree(rtree), &args, None)
            .map(|flags| flags.into_iter().map(flag_code).collect())
            .map_err(|e| format!("{:?}", e))
    }

    fn sct(
        &self,
        rtree: &SpatialTree,
        values: &Vec<u32>,
        conf: &SctConf,
    ) -> Result<Vec<u8>, String> {
        self.calls.set(self.calls.get() + 1);
        let data: Vec<Option<f64>> = values.iter().map(|b| Some(to_f64(*b))).collect();
        let args = olympian::checks::spatial::SctArgs {
            num_min: conf.num_min,
            num_max: conf.num_max,
            inner_radius: to_f64(conf.inner_radius),
            outer_radius: to_f64(conf.outer_radius),
            num_iterations: conf.num_iterations,
            num_min_prof: conf.num_min_prof,
            min_elev_diff: to_f64(conf.min_elev_diff),
            min_horizontal_scale: to_f64(conf.min_horizontal_scale),
            vertical_scale: to_f64(conf.vertical_scale),
            pos: olympian::SingleOrVec::Single(to_f64(conf.pos[0])),
            neg: olympian::SingleOrVec::Single(to_f64(conf.neg[0])),
            eps2: olympian::SingleOrVec::Single(to_f64(conf.eps2[0])),
        };
        olympian::checks::spatial::sct(&data, &olympian_tree(rtree), &args, None)
            .map(|flags| flags.into_iter().map(flag_code).collect())
            .map_err(|e| format!("{:?}", e))
    }
}

const THREE_BITS: u32 = 0x4040_0000;

fn two_step_pipeline() -> Vec<(String, Pipeline)> {
    let steps = vec![
        PipelineStep {
            name: "step_check".to_string(),
            check: CheckConf::StepCheck(StepCheckConf { max: THREE_BITS }),
        },
        PipelineStep {
            name: "spike_check".to_string(),
            check: CheckConf::SpikeCheck(SpikeCheckConf { max: THREE_BITS }),
        },
    ];
    vec![("pipeline".to_string(), Pipeline::new(steps))]
}

fn test_switch() -> DataSwitch<TestDataSource> {
    DataSwitch::new(vec![(
        "test".to_string(),
        TestDataSource { data_len_single: 3, data_len_series: 1, data_len_spatial: 10 },
    )])
}

fn five_minute_timespec() -> TimeSpec {
    TimeSpec {
        timerange: Timerange { start: Timestamp(0), end: Timestamp(600) },
        time_resolution: RelDuration::minutes(5),
    }
}

#[test]
fn single_series_two_checks_yields_one_pass_per_step() {
    let scheduler = Scheduler::new(two_step_pipeline(), test_switch());
    let runner = OlympianRunner::new();
    let mut driver = scheduler
        .validate_direct(
            "test",
            &vec![],
            &five_minute_timespec(),
            &SpaceSpec::One("single".to_string()),
            "pipeline",
            None,
        )
        .unwrap();

    let expected_names = ["step_check", "spike_check"];
    for name in expected_names {
        let response = driver.next_response(&runner).unwrap().unwrap();
        assert_eq!(response.test, name);
        assert_eq!(response.results.len(), 1);
        assert_eq!(response.results[0].time, Timestamp(300));
        assert_eq!(response.results[0].identifier, "test");
        assert_eq!(response.results[0].flag, Flag::Pass);
    }
    assert!(driver.next_response(&runner).is_none());
}

#[test]
fn identical_requests_yield_identical_response_sequences() {
    let scheduler = Scheduler::new(two_step_pipeline(), test_switch());
    let runner = OlympianRunner::new();
    let mut collected: Vec<Vec<(String, Vec<(i64, String, Flag)>)>> = Vec::new();
    for _ in 0..2 {
        let mut driver = scheduler
            .validate_direct(
                "test",
                &vec![],
                &five_minute_timespec(),
                &SpaceSpec::One("single".to_string()),
                "pipeline",
                None,
            )
            .unwrap();
        let mut responses = Vec::new();
        while let Some(response) = driver.next_response(&runner) {
            let response = response.unwrap();
            responses.push((
                response.test,
                response
                    .results
                    .into_iter()
                    .map(|r| (r.time.0, r.identifier, r.flag))
                    .collect(),
            ));
        }
        collected.push(responses);
    }
    assert_eq!(collected[0], collected[1]);
}

#[test]
fn zero_context_checks_on_single_point_series_succeed() {
    // a dummy integration step and a buddy check need no leading or
    // trailing context, so a one-point series is enough
    let steps = vec![
        PipelineStep { name: "test_dummy".to_string(), check: CheckConf::Dummy },
        PipelineStep {
            name: "buddy_check".to_string(),
            check: CheckConf::BuddyCheck(BuddyCheckConf {
                radii: vec![5000.0f32.to_bits()],
                nums_min: vec![2],
                threshold: 2.0f32.to_bits(),
                max_elev_diff: 200.0f32.to_bits(),
                elev_gradient: 0,
                min_std: 1.0f32.to_bits(),
                num_iterations: 2,
            }),
        },
    ];
    let pipeline = Pipeline::new(steps);
    assert_eq!(derive_num_leading_trailing(&pipeline), (0, 0));
    let scheduler = Scheduler::new(vec![("zero".to_string(), pipeline)], test_switch());
    let runner = OlympianRunner::new();
    let mut driver = scheduler
        .validate_direct(
            "test",
            &vec![],
            &five_minute_timespec(),
            &SpaceSpec::One("series".to_string()),
            "zero",
            None,
        )
        .unwrap();

    let dummy = driver.next_response(&runner).unwrap().unwrap();
    assert_eq!(dummy.test, "test_dummy");
    assert_eq!(dummy.results.len(), 1);
    assert_eq!(dummy.results[0].flag, Flag::Inconclusive);

    let buddy = driver.next_response(&runner).unwrap().unwrap();
    assert_eq!(buddy.test, "buddy_check");
    assert_eq!(buddy.results.len(), 1);

    assert!(driver.next_response(&runner).is_none());
}

#[test]
fn unknown_source_fails_with_invalid_data_source() {
    let scheduler = Scheduler::new(two_step_pipeline(), test_switch());
    let result = scheduler.validate_direct(
        "nope",
        &vec![],
        &five_minute_timespec(),
        &SpaceSpec::One("single".to_string()),
        "pipeline",
        None,
    );
    match result {
        Err(SchedulerError::DataSwitch(DataError::InvalidDataSource(name))) => {
            assert_eq!(name, "nope");
        }
        _ => panic!("expected InvalidDataSource"),
    }
}

#[test]
fn empty_pipeline_fails_with_invalid_arg() {
    let mut pipelines = two_step_pipeline();
    pipelines.push(("empty".to_string(), Pipeline::new(vec![])));
    let scheduler = Scheduler::new(pipelines, test_switch());
    let result = scheduler.validate_direct(
        "test",
        &vec![],
        &five_minute_timespec(),
        &SpaceSpec::One("single".to_string()),
        "empty",
        None,
    );
    assert!(matches!(result, Err(SchedulerError::InvalidArg(_))));
}

#[test]
fn unknown_pipeline_name_fails_with_invalid_arg() {
    let scheduler = Scheduler::new(two_step_pipeline(), test_switch());
    let result = scheduler.validate_direct(
        "test",
        &vec![],
        &five_minute_timespec(),
        &SpaceSpec::One("single".to_string()),
        "no_such_pipeline",
        None,
    );
    assert!(matches!(result, Err(SchedulerError::InvalidArg(_))));
}

#[derive(Debug)]
struct NoSpatialSource;

impl DataConnector for NoSpatialSource {
    fn fetch_data(
        &self,
        space_spec: &SpaceSpec,
        _time_spec: &TimeSpec,
        num_leading_points: u8,
        num_trailing_points: u8,
        _extra_spec: Option<&str>,
    ) -> Result<DataCache, DataError> {
        match space_spec {
            SpaceSpec::All => Err(DataError::UnimplementedSpatial(
                "this source serves single series only".to_string(),
            )),
            _ => Ok(DataCache::new(
                vec![0],
                vec![0],
                vec![0],
                Timestamp(0),
                RelDuration::minutes(5),
                num_leading_points,
                num_trailing_points,
                vec![(
                    "series".to_string(),
                    vec![Some(1.0f32.to_bits()); num_leading_points as usize + 1 + num_trailing_points as usize],
                )],
            )),
        }
    }
}

#[test]
fn all_spec_against_series_only_connector_fails_with_unimplemented_spatial() {
    let switch = DataSwitch::new(vec![("limited".to_string(), NoSpatialSource)]);
    let scheduler = Scheduler::new(two_step_pipeline(), switch);
    let result = scheduler.validate_direct(
        "limited",
        &vec![],
        &five_minute_timespec(),
        &SpaceSpec::All,
        "pipeline",
        None,
    );
    assert!(matches!(
        result,
        Err(SchedulerError::DataSwitch(DataError::UnimplementedSpatial(_)))
    ));
}

#[test]
fn caller_dropping_after_first_response_stops_the_driver() {
    let steps = vec![
        PipelineStep {
            name: "one".to_string(),
            check: CheckConf::StepCheck(StepCheckConf { max: THREE_BITS }),
        },
        PipelineStep {
            name: "two".to_string(),
            check: CheckConf::StepCheck(StepCheckConf { max: THREE_BITS }),
        },
        PipelineStep {
            name: "three".to_string(),
            check: CheckConf::StepCheck(StepCheckConf { max: THREE_BITS }),
        },
    ];
    let pipelines = vec![("three_steps".to_string(), Pipeline::new(steps))];
    let scheduler = Scheduler::new(pipelines, test_switch());
    let runner = OlympianRunner::new();
    {
        let mut driver = scheduler
            .validate_direct(
                "test",
                &vec![],
                &five_minute_timespec(),
                &SpaceSpec::One("single".to_string()),
                "three_steps",
                None,
            )
            .unwrap();
        let first = driver.next_response(&runner).unwrap().unwrap();
        assert_eq!(first.test, "one");
        // the caller walks away here; the driver is dropped with it
    }
    // the single series of length 3 with one leading point gives two
    // windows per step: the first step ran them, no later step ran anything
    assert_eq!(runner.calls.get(), 2);
}

struct BadFlagRunner {
    calls: Cell<usize>,
}

impl CheckRunner for BadFlagRunner {
    fn step_check(&self, _window: &Vec<Option<u32>>, _max: u32) -> Result<u8, String> {
        self.calls.set(self.calls.get() + 1);
        Ok(99)
    }

    fn spike_check(&self, _window: &Vec<Option<u32>>, _max: u32) -> Result<u8, String> {
        self.calls.set(self.calls.get() + 1);
        Ok(99)
    }

    fn flatline_check(&self, _window: &Vec<Option<u32>>) -> Result<u8, String> {
        self.calls.set(self.calls.get() + 1);
        Ok(99)
    }

    fn buddy_check(
        &self,
        _rtree: &SpatialTree,
        values: &Vec<u32>,
        _conf: &BuddyCheckConf,
    ) -> Result<Vec<u8>, String> {
        self.calls.set(self.calls.get() + 1);
        Ok(vec![99; values.len()])
    }

    fn sct(
        &self,
        _rtree: &SpatialTree,
        values: &Vec<u32>,
        _conf: &SctConf,
    ) -> Result<Vec<u8>, String> {
        self.calls.set(self.calls.get() + 1);
        Ok(vec![99; values.len()])
    }
}

#[test]
fn unknown_flag_aborts_the_step_and_the_run() {
    let scheduler = Scheduler::new(two_step_pipeline(), test_switch());
    let runner = BadFlagRunner { calls: Cell::new(0) };
    let mut driver = scheduler
        .validate_direct(
            "test",
            &vec![],
            &five_minute_timespec(),
            &SpaceSpec::One("single".to_string()),
            "pipeline",
            None,
        )
        .unwrap();
    match driver.next_response(&runner) {
        Some(Err(SchedulerError::Runner(HarnessError::UnknownFlag(code)))) => {
            assert_eq!(code, 99);
        }
        _ => panic!("expected an UnknownFlag error"),
    }
    assert!(driver.next_response(&runner).is_none());
    assert_eq!(runner.calls.get(), 1);
}

#[test]
fn series_too_short_for_requested_context_fails_before_the_stream() {
    // a flatline check demanding four leading points cannot be served from
    // a three-point series
    let steps = vec![
        PipelineStep {
            name: "flatline_check".to_string(),
            check: CheckConf::FlatlineCheck(FlatlineCheckConf { max: 4 }),
        },
    ];
    let pipelines = vec![("flatline".to_string(), Pipeline::new(steps))];
    let scheduler = Scheduler::new(pipelines, test_switch());
    let result = scheduler.validate_direct(
        "test",
        &vec![],
        &five_minute_timespec(),
        &SpaceSpec::One("single".to_string()),
        "flatline",
        None,
    );
    assert!(matches!(
        result,
        Err(SchedulerError::DataSwitch(DataError::UnimplementedSeries(_)))
    ));
}

#[test]
fn errors_map_to_their_transport_categories() {
    let invalid = SchedulerError::InvalidArg("no such pipeline".to_string());
    assert_eq!(invalid.category(), StatusCategory::InvalidArgument);
    let not_found = SchedulerError::DataSwitch(DataError::InvalidDataSource("nope".to_string()));
    assert_eq!(not_found.category(), StatusCategory::NotFound);
    let unresolved = SchedulerError::TestNotInDag("step".to_string());
    assert_eq!(unresolved.category(), StatusCategory::NotFound);
    let aborted = SchedulerError::Runner(HarnessError::UnknownFlag(99));
    assert_eq!(aborted.category(), StatusCategory::Aborted);
}

#[test]
fn flag_codes_round_trip() {
    let flags = [
        Flag::Pass,
        Flag::Fail,
        Flag::Warn,
        Flag::Inconclusive,
        Flag::Invalid,
        Flag::DataMissing,
        Flag::Isolated,
    ];
    for (code, flag) in flags.iter().enumerate() {
        assert_eq!(flag.code(), code as u8);
        assert_eq!(Flag::try_from_code(code as u8), Some(*flag));
    }
    assert_eq!(Flag::try_from_code(7), None);
    assert_eq!(Flag::try_from_code(u8::MAX), None);
}

#[test]
fn derived_requirements_are_componentwise_maxima() {
    let steps = vec![
        PipelineStep {
            name: "step_check".to_string(),
            check: CheckConf::StepCheck(StepCheckConf { max: THREE_BITS }),
        },
        PipelineStep {
            name: "flatline_check".to_string(),
            check: CheckConf::FlatlineCheck(FlatlineCheckConf { max: 4 }),
        },
        PipelineStep {
            name: "spike_check".to_string(),
            check: CheckConf::SpikeCheck(SpikeCheckConf { max: THREE_BITS }),
        },
    ];
    let pipeline = Pipeline::new(steps);
    assert_eq!(pipeline.num_leading_required, 4);
    assert_eq!(pipeline.num_trailing_required, 1);
    assert_eq!(derive_num_leading_trailing(&pipeline), (4, 1));
}

#[test]
fn facade_duration_parsing_feeds_the_time_spec() {
    let resolution = parse_duration_handwritten("PT5M").unwrap();
    assert_eq!(resolution, RelDuration::minutes(5));
    let spec = rove::scheduler::time_spec_from_parts(0, 600, "PT5M").unwrap();
    assert_eq!(spec.timerange, Timerange { start: Timestamp(0), end: Timestamp(600) });
    assert_eq!(spec.time_resolution, resolution);
    assert!(rove::scheduler::time_spec_from_parts(0, 600, "five minutes").is_err());
}

#[test]
fn data_cache_keeps_series_and_index_parallel() {
    let cache = DataCache::new(
        vec![0, 0],
        vec![0, 0],
        vec![0, 0],
        Timestamp(0),
        RelDuration::minutes(5),
        1,
        1,
        vec![
            ("a".to_string(), vec![Some(1); 3]),
            ("b".to_string(), vec![None, Some(2), None]),
        ],
    );
    assert_eq!(cache.data.len(), cache.rtree.lats.len());
    assert_eq!(cache.data[0].1.len(), cache.data[1].1.len());
    assert_eq!(cache.series_len(), 3);
}
