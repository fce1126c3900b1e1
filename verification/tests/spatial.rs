use rove::data_switch::{DataCache, DataConnector, DataSwitch, Error as DataError, SpaceSpec, SpatialTree, TimeSpec, Timerange, Timestamp};
use rove::flag::Flag;
use rove::harness::CheckRunner;
use rove::pipeline::{BuddyCheckConf, CheckConf, Pipeline, PipelineStep, SctConf};
use rove::scheduler::Scheduler;
use rove::time::RelDuration;

const DATA_LEN_SPATIAL: usize = 1000;

fn flag_code(flag: olympian::Flag) -> u8 {
    match flag {
        olympian::Flag::Pass => 0,
        olympian::Flag::Fail => 1,
        olympian::Flag::Warn => 2,
        olympian::Flag::Inconclusive => 3,
        olympian::Flag::Invalid => 4,
        olympian::Flag::DataMissing => 5,
        olympian::Flag::Isolated => 6,
        _ => u8::MAX,
    }
}

fn to_f64(bits: u32) -> f64 {
    f32::from_bits(bits) as f64
}

fn olympian_tree(tree: &SpatialTree) -> olympian::SpatialTree {
    olympian::SpatialTree::from_latlons(
        tree.lats.iter().map(|b| to_f64(*b)).collect(),
        tree.lons.iter().map(|b| to_f64(*b)).collect(),
        tree.elevs.iter().map(|b| to_f64(*b)).collect(),
    )
}

/// For each station, how many other stations (at distinct positions) lie
/// within `radius` metres of chord distance.
fn neighbour_counts(tree: &SpatialTree, radius: f64) -> Vec<usize> {
    const EARTH_RADIUS: f64 = 6_371_000.0;
    let xyz: Vec<[f64; 3]> = tree
        .lats
        .iter()
        .zip(tree.lons.iter())
        .map(|(lat_bits, lon_bits)| {
            let lat = to_f64(*lat_bits).to_radians();
            let lon = to_f64(*lon_bits).to_radians();
            [
                EARTH_RADIUS * lat.cos() * lon.cos(),
                EARTH_RADIUS * lat.cos() * lon.sin(),
                EARTH_RADIUS * lat.sin(),
            ]
        })
        .collect();
    xyz.iter()
        .map(|p| {
            xyz.iter()
                .filter(|q| **q != *p)
                .filter(|q| {
                    let d2 = (p[0] - q[0]).powi(2) + (p[1] - q[1]).powi(2) + (p[2] - q[2]).powi(2);
                    d2 <= radius * radius
                })
                .count()
        })
        .collect()
}

struct SpatialRunner;

impl CheckRunner for SpatialRunner {
    fn step_check(&self, window: &Vec<Option<u32>>, max: u32) -> Result<u8, String> {
        let w: Vec<Option<f64>> = window.iter().map(|v| v.map(|b| to_f64(b))).collect();
        let data: [Option<f64>; 2] = [w[0], w[1]];
        Ok(flag_code(olympian::checks::series::step_check(&data, to_f64(max))))
    }

    fn spike_check(&self, window: &Vec<Option<u32>>, max: u32) -> Result<u8, String> {
        let w: Vec<Option<f64>> = window.iter().map(|v| v.map(|b| to_f64(b))).collect();
        let data: [Option<f64>; 3] = [w[0], w[1], w[2]];
        Ok(flag_code(olympian::checks::series::spike_check(&data, to_f64(max))))
    }

    fn flatline_check(&self, window: &Vec<Option<u32>>) -> Result<u8, String> {
        let w: Vec<Option<f64>> = window.iter().map(|v| v.map(|b| to_f64(b))).collect();
        Ok(flag_code(olympian::checks::series::flatline_check(&w, 0.0001)))
    }

    fn buddy_check(
        &self,
        rtree: &SpatialTree,
        values: &Vec<u32>,
        conf: &BuddyCheckConf,
    ) -> Result<Vec<u8>, String> {
        let data: Vec<Option<f64>> = values.iter().map(|b| Some(to_f64(*b))).collect();
        let args = olympian::checks::spatial::BuddyCheckArgs {
            radii: olympian::SingleOrVec::Single(to_f64(conf.radii[0])),
            min_buddies: olympian::SingleOrVec::Single(conf.nums_min[0]),
            threshold: to_f64(conf.threshold),
            max_elev_diff: to_f64(conf.max_elev_diff),
            elev_gradient: to_f64(conf.elev_gradient),
            min_std: to_f64(conf.min_std),
            num_iterations: conf.num_iterations,
        };
        let judged = olympian::checks::spatial::buddy_check(&data, &olympian_tree(rtree), &args, None)
            .map_err(|e| format!("{:?}", e))?;
        // a station with too few buddies in range cannot be judged against
        // its neighbourhood: report it isolated instead
        let counts = neighbour_counts(rtree, to_f64(conf.radii[0]));
        Ok(judged
            .into_iter()
            .zip(counts)
            .map(|(flag, count)| {
                if count < conf.nums_min[0] as usize {
                    6 // isolated
                } else {
                    flag_code(flag)
                }
            })
            .collect())
    }

    fn sct(
        &self,
        rtree: &SpatialTree,
        values: &Vec<u32>,
        conf: &SctConf,
    ) -> Result<Vec<u8>, String> {
        let data: Vec<Option<f64>> = values.iter().map(|b| Some(to_f64(*b))).collect();
        let args = olympian::checks::spatial::SctArgs {
            num_min: conf.num_min,
            num_max: conf.num_max,
            inner_radius: to_f64(conf.inner_radius),
            outer_radius: to_f64(conf.outer_radius),
            num_iterations: conf.num_iterations,
            num_min_prof: conf.num_min_prof,
            min_elev_diff: to_f64(conf.min_elev_diff),
            min_horizontal_scale: to_f64(conf.min_horizontal_scale),
            vertical_scale: to_f64(conf.vertical_scale),
            pos: olympian::SingleOrVec::Single(to_f64(conf.pos[0])),
            neg: olympian::SingleOrVec::Single(to_f64(conf.neg[0])),
            eps2: olympian::SingleOrVec::Single(to_f64(conf.eps2[0])),
        };
        olympian::checks::spatial::sct(&data, &olympian_tree(rtree), &args, None)
            .map(|flags| flags.into_iter().map(flag_code).collect())
            .map_err(|e| format!("{:?}", e))
    }
}

/// Serves a spread-out field of stations, each with a single observation.
#[derive(Debug)]
struct SpreadField;

impl DataConnector for SpreadField {
    fn fetch_data(
        &self,
        space_spec: &SpaceSpec,
        _time_spec: &TimeSpec,
        num_leading_points: u8,
        num_trailing_points: u8,
        _extra_spec: Option<&str>,
    ) -> Result<DataCache, DataError> {
        match space_spec {
            SpaceSpec::All => {
                let lats: Vec<u32> = (0..DATA_LEN_SPATIAL)
                    .map(|i| (((i as f32).powi(2) * 0.001) % 3.0).to_bits())
                    .collect();
                let lons: Vec<u32> = (0..DATA_LEN_SPATIAL)
                    .map(|i| (((i as f32 + 1.0).powi(2) * 0.001) % 3.0).to_bits())
                    .collect();
                let elevs: Vec<u32> = vec![1.0f32.to_bits(); DATA_LEN_SPATIAL];
                let series_len =
                    num_leading_points as usize + 1 + num_trailing_points as usize;
                let data = (0..DATA_LEN_SPATIAL)
                    .map(|_| ("test".to_string(), vec![Some(1.0f32.to_bits()); series_len]))
                    .collect();
                Ok(DataCache::new(
                    lats,
                    lons,
                    elevs,
                    Timestamp(0),
                    RelDuration::minutes(5),
                    num_leading_points,
                    num_trailing_points,
                    data,
                ))
            }
            _ => Err(DataError::UnimplementedSeries(
                "this source serves the whole field only".to_string(),
            )),
        }
    }
}

#[test]
fn buddy_check_over_a_thousand_stations() {
    let steps = vec![PipelineStep {
        name: "buddy_check".to_string(),
        check: CheckConf::BuddyCheck(BuddyCheckConf {
            radii: vec![5000.0f32.to_bits()],
            nums_min: vec![2],
            threshold: 2.0f32.to_bits(),
            max_elev_diff: 200.0f32.to_bits(),
            elev_gradient: 0.0f32.to_bits(),
            min_std: 1.0f32.to_bits(),
            num_iterations: 2,
        }),
    }];
    let pipelines = vec![("buddy".to_string(), Pipeline::new(steps))];
    let switch = DataSwitch::new(vec![("test".to_string(), SpreadField)]);
    let scheduler = Scheduler::new(pipelines, switch);
    let runner = SpatialRunner;

    let mut driver = scheduler
        .validate_direct(
            "test",
            &vec![],
            &TimeSpec {
                timerange: Timerange { start: Timestamp(0), end: Timestamp(600) },
                time_resolution: RelDuration::minutes(5),
            },
            &SpaceSpec::All,
            "buddy",
            None,
        )
        .unwrap();

    let response = driver.next_response(&runner).unwrap().unwrap();
    assert_eq!(response.test, "buddy_check");
    assert_eq!(response.results.len(), DATA_LEN_SPATIAL);
    let mut seen_pass = false;
    let mut seen_isolated = false;
    for result in &response.results {
        match result.flag {
            Flag::Pass => seen_pass = true,
            Flag::Isolated => seen_isolated = true,
            other => panic!("unexpected flag {:?}", other),
        }
    }
    assert!(seen_pass && seen_isolated);
    assert!(driver.next_response(&runner).is_none());
}

#[test]
fn hardcoded_pipeline_runs_every_step_in_declared_order() {
    let pipelines = rove::dev_utils::construct_hardcoded_pipeline();
    let switch = DataSwitch::new(vec![("test".to_string(), SpreadField)]);
    let scheduler = Scheduler::new(pipelines, switch);
    let runner = SpatialRunner;

    let mut driver = scheduler
        .validate_direct(
            "test",
            &vec![],
            &TimeSpec {
                timerange: Timerange { start: Timestamp(0), end: Timestamp(600) },
                time_resolution: RelDuration::minutes(5),
            },
            &SpaceSpec::All,
            "hardcoded",
            None,
        )
        .unwrap();

    for name in ["step_check", "spike_check", "buddy_check", "sct"] {
        let response = driver.next_response(&runner).unwrap().unwrap();
        assert_eq!(response.test, name);
        assert_eq!(response.results.len(), DATA_LEN_SPATIAL);
        // one QCed instant, stamped one period after the start
        for result in &response.results {
            assert_eq!(result.time, Timestamp(300));
            assert_eq!(result.identifier, "test");
        }
    }
    assert!(driver.next_response(&runner).is_none());
}
