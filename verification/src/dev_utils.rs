//! Development utilities: a dummy connector serving fixed data, and a
//! hard-coded pipeline, both for wiring the engine up in tests and
//! examples.

use vstd::prelude::*;

use crate::data_switch::{DataCache, DataConnector, Error, SpaceSpec, TimeSpec};
use crate::pipeline::{
    BuddyCheckConf, CheckConf, Pipeline, PipelineStep, SctConf, SpikeCheckConf, StepCheckConf,
};
use crate::time::{RelDuration, Timestamp, MAX_SERIES_LEN};

verus! {

/// Bit pattern of the single-precision value 1, the observation every
/// series of [`TestDataSource`] carries.
pub const ONE_BITS: u32 = 0x3F80_0000;

/// A connector that serves fixed in-memory data: one series of ones for
/// the data ids `single` and `series`, and a field of stations, each one
/// point long, for the whole data set.
///
/// Station coordinates are not part of what this connector can vary: the
/// spatial variant puts every station at the origin. A test that needs
/// spread-out stations brings its own connector.
#[derive(Debug)]
pub struct TestDataSource {
    /// Length of the series served for the data id `single`
    pub data_len_single: usize,
    /// Length of the series served for the data id `series`
    pub data_len_series: usize,
    /// Number of stations served for the whole data set
    pub data_len_spatial: usize,
}

/// A series of `len` points fits the engine and the requested context.
pub open spec fn spec_series_len_ok(len: int, nl: u8, nt: u8) -> bool {
    len <= MAX_SERIES_LEN && len >= nl + 1 + nt
}

/// The cache served for a single-series request: one series named `test`
/// with `len` points of value 1, starting at the epoch with five-minute
/// spacing, its one station at the origin, and the requested context
/// points recorded.
pub open spec fn spec_series_cache_served(cache: DataCache, len: int, nl: u8, nt: u8) -> bool {
    &&& cache.data@.len() == 1
    &&& cache.data@[0].0@ == "test"@
    &&& cache.data@[0].1@ == Seq::new(len as nat, |i: int| Some(ONE_BITS))
    &&& cache.start_time == Timestamp(0)
    &&& cache.period == (RelDuration { months: 0, seconds: 300 })
    &&& cache.num_leading_points == nl
    &&& cache.num_trailing_points == nt
    &&& cache.rtree.lats@ == seq![0u32]
    &&& cache.rtree.lons@ == seq![0u32]
    &&& cache.rtree.elevs@ == seq![0u32]
}

/// The cache served for a whole-data-set request: `n` stations at the
/// origin, each a series named `test` holding one QCed point of value 1
/// plus the requested context, starting at the epoch with five-minute
/// spacing.
pub open spec fn spec_spatial_cache_served(cache: DataCache, n: int, nl: u8, nt: u8) -> bool {
    &&& cache.data@.len() == n
    &&& forall|s: int|
        0 <= s < n ==> (#[trigger] cache.data@[s].0@) == "test"@ && cache.data@[s].1@ == Seq::new(
            (nl + 1 + nt) as nat,
            |i: int| Some(ONE_BITS),
        )
    &&& cache.start_time == Timestamp(0)
    &&& cache.period == (RelDuration { months: 0, seconds: 300 })
    &&& cache.num_leading_points == nl
    &&& cache.num_trailing_points == nt
    &&& cache.rtree.lats@ == Seq::new(n as nat, |i: int| 0u32)
    &&& cache.rtree.lons@ == Seq::new(n as nat, |i: int| 0u32)
    &&& cache.rtree.elevs@ == Seq::new(n as nat, |i: int| 0u32)
}

/// A series of `len` observations, all of value 1.
fn ones(len: usize) -> (r: Vec<Option<u32>>)
    ensures
        r@ == Seq::new(len as nat, |i: int| Some(ONE_BITS)),
{
    let mut values: Vec<Option<u32>> = Vec::new();
    let mut i: usize = 0;
    while i < len
        invariant
            0 <= i <= len,
            values@ =~= Seq::new(i as nat, |j: int| Some(ONE_BITS)),
        decreases len - i,
    {
        values.push(Some(ONE_BITS));
        proof {
            assert(values@ =~= Seq::new((i + 1) as nat, |j: int| Some(ONE_BITS)));
        }
        i += 1;
    }
    proof {
        assert(values@ =~= Seq::new(len as nat, |j: int| Some(ONE_BITS)));
    }
    values
}

/// `n` coordinates, all zero.
fn zeros(n: usize) -> (r: Vec<u32>)
    ensures
        r@ == Seq::new(n as nat, |i: int| 0u32),
{
    let mut values: Vec<u32> = Vec::new();
    let mut i: usize = 0;
    while i < n
        invariant
            0 <= i <= n,
            values@ =~= Seq::new(i as nat, |j: int| 0u32),
        decreases n - i,
    {
        values.push(0);
        proof {
            assert(values@ =~= Seq::new((i + 1) as nat, |j: int| 0u32));
        }
        i += 1;
    }
    proof {
        assert(values@ =~= Seq::new(n as nat, |j: int| 0u32));
    }
    values
}

impl TestDataSource {
    /// One series named `test`, `len` points of value 1, starting at the
    /// epoch with five-minute spacing. Succeeds if and only if the length
    /// fits the engine and covers the requested context.
    pub fn series_cache(len: usize, num_leading_points: u8, num_trailing_points: u8) -> (r: Result<
        DataCache,
        Error,
    >)
        ensures
            r is Ok <==> spec_series_len_ok(len as int, num_leading_points, num_trailing_points),
            r matches Ok(cache) ==> cache.wf() && spec_series_cache_served(
                cache,
                len as int,
                num_leading_points,
                num_trailing_points,
            ),
            r matches Err(e) ==> e matches Error::UnimplementedSeries(_),
    {
        if len > MAX_SERIES_LEN {
            return Err(Error::UnimplementedSeries("series longer than the engine accepts".to_owned()));
        }
        if len < num_leading_points as usize + 1 + num_trailing_points as usize {
            return Err(Error::UnimplementedSeries("series too short for the requested context".to_owned()));
        }
        let values = ones(len);
        let mut data: Vec<(String, Vec<Option<u32>>)> = Vec::new();
        data.push(("test".to_owned(), values));
        let lats = zeros(1);
        let lons = zeros(1);
        let elevs = zeros(1);
        proof {
            assert(lats@ =~= seq![0u32]);
            assert(lons@ =~= seq![0u32]);
            assert(elevs@ =~= seq![0u32]);
        }
        Ok(
            DataCache::new(
                lats,
                lons,
                elevs,
                Timestamp(0),
                RelDuration::minutes(5),
                num_leading_points,
                num_trailing_points,
                data,
            ),
        )
    }

    /// `n` stations named `test`, all at the origin, each exactly one QCed
    /// point of value 1 plus the requested context. Always succeeds.
    pub fn spatial_cache(n: usize, num_leading_points: u8, num_trailing_points: u8) -> (r: Result<
        DataCache,
        Error,
    >)
        ensures
            r is Ok,
            r matches Ok(cache) ==> cache.wf() && spec_spatial_cache_served(
                cache,
                n as int,
                num_leading_points,
                num_trailing_points,
            ),
    {
        let series_len = num_leading_points as usize + 1 + num_trailing_points as usize;
        let mut data: Vec<(String, Vec<Option<u32>>)> = Vec::new();
        let mut s: usize = 0;
        while s < n
            invariant
                0 <= s <= n,
                series_len == num_leading_points + 1 + num_trailing_points,
                data@.len() == s,
                forall|i: int| 0 <= i < s ==> (#[trigger] data@[i].0@) == "test"@,
                forall|i: int|
                    0 <= i < s ==> (#[trigger] data@[i].1@) == Seq::new(
                        series_len as nat,
                        |j: int| Some(ONE_BITS),
                    ),
            decreases n - s,
        {
            let values = ones(series_len);
            data.push(("test".to_owned(), values));
            s += 1;
        }
        let zeros_a = zeros(n);
        let zeros_b = zeros(n);
        let zeros_c = zeros(n);
        proof {
            assert forall|i: int|
                0 <= i < data@.len() implies (#[trigger] data@[i].1@.len()) == series_len by {
                assert(data@[i].1@ == Seq::new(series_len as nat, |j: int| Some(ONE_BITS)));
            }
            if n > 0 {
                assert(data@[0].1@.len() == series_len);
            }
        }
        let cache = DataCache::new(
            zeros_a,
            zeros_b,
            zeros_c,
            Timestamp(0),
            RelDuration::minutes(5),
            num_leading_points,
            num_trailing_points,
            data,
        );
        proof {
            assert forall|s2: int| 0 <= s2 < n implies (#[trigger] cache.data@[s2].0@) == "test"@
                && cache.data@[s2].1@ == Seq::new(
                (num_leading_points + 1 + num_trailing_points) as nat,
                |i: int| Some(ONE_BITS),
            ) by {
                assert(cache.data@[s2].1@ == Seq::new(series_len as nat, |j: int| Some(ONE_BITS)));
                assert(cache.data@[s2].1@ =~= Seq::new(
                    (num_leading_points + 1 + num_trailing_points) as nat,
                    |i: int| Some(ONE_BITS),
                ));
            }
        }
        Ok(cache)
    }

    /// Route one request to the fixture it serves; the connector trait
    /// implementation forwards here.
    ///
    /// The data id `single` is served [`Self::series_cache`] of
    /// `data_len_single` points, `series` the same of `data_len_series`;
    /// any other data id fails with [`Error::InvalidDataId`]. The whole
    /// data set is served [`Self::spatial_cache`] of `data_len_spatial`
    /// stations, and polygons fail with [`Error::UnimplementedSpatial`].
    pub fn serve(
        &self,
        space_spec: &SpaceSpec,
        num_leading_points: u8,
        num_trailing_points: u8,
    ) -> (r: Result<DataCache, Error>)
        ensures
            r matches Ok(cache) ==> cache.wf() && cache.num_leading_points == num_leading_points
                && cache.num_trailing_points == num_trailing_points,
            (space_spec matches SpaceSpec::One(id) && id@ == "single"@) ==> (r is Ok
                <==> spec_series_len_ok(
                self.data_len_single as int,
                num_leading_points,
                num_trailing_points,
            )),
            (space_spec matches SpaceSpec::One(id) && id@ == "single"@) ==> (r matches Ok(cache)
                ==> spec_series_cache_served(
                cache,
                self.data_len_single as int,
                num_leading_points,
                num_trailing_points,
            )),
            (space_spec matches SpaceSpec::One(id) && id@ == "series"@) ==> (r is Ok
                <==> spec_series_len_ok(
                self.data_len_series as int,
                num_leading_points,
                num_trailing_points,
            )),
            (space_spec matches SpaceSpec::One(id) && id@ == "series"@) ==> (r matches Ok(cache)
                ==> spec_series_cache_served(
                cache,
                self.data_len_series as int,
                num_leading_points,
                num_trailing_points,
            )),
            (space_spec matches SpaceSpec::One(id) && id@ != "single"@ && id@ != "series"@) ==> (r
                matches Err(Error::InvalidDataId(_))),
            space_spec is All ==> (r matches Ok(cache) && spec_spatial_cache_served(
                cache,
                self.data_len_spatial as int,
                num_leading_points,
                num_trailing_points,
            )),
            space_spec matches SpaceSpec::Polygon(_) ==> (r matches Err(
                Error::UnimplementedSpatial(_),
            )),
    {
        proof {
            reveal_strlit("single");
            reveal_strlit("series");
            assert("single"@ != "series"@) by {
                assert("single"@[1] == 'i');
                assert("series"@[1] == 'e');
            }
        }
        match space_spec {
            SpaceSpec::One(data_id) => {
                let single = "single".to_owned();
                let series = "series".to_owned();
                if *data_id == single {
                    TestDataSource::series_cache(
                        self.data_len_single,
                        num_leading_points,
                        num_trailing_points,
                    )
                } else if *data_id == series {
                    TestDataSource::series_cache(
                        self.data_len_series,
                        num_leading_points,
                        num_trailing_points,
                    )
                } else {
                    Err(Error::InvalidDataId("unknown data_id".to_owned()))
                }
            },
            SpaceSpec::All => TestDataSource::spatial_cache(
                self.data_len_spatial,
                num_leading_points,
                num_trailing_points,
            ),
            SpaceSpec::Polygon(_) => Err(
                Error::UnimplementedSpatial("test source serves no polygons".to_owned()),
            ),
        }
    }
}

impl DataConnector for TestDataSource {
    fn fetch_data(
        &self,
        space_spec: &SpaceSpec,
        time_spec: &TimeSpec,
        num_leading_points: u8,
        num_trailing_points: u8,
        extra_spec: Option<&str>,
    ) -> (r: Result<DataCache, Error>) {
        self.serve(space_spec, num_leading_points, num_trailing_points)
    }
}

/// The pipeline the integration examples run, under the name `hardcoded`:
/// a step check and a spike check (both with a largest allowed difference
/// of 3), then a buddy check and a spatial-consistency check.
pub fn construct_hardcoded_pipeline() -> (r: Vec<(String, Pipeline)>)
    ensures
        r@.len() == 1,
        r@[0].0@ == "hardcoded"@,
        r@[0].1.wf(),
        r@[0].1.steps@.len() == 4,
        r@[0].1.steps@[0].name@ == "step_check"@,
        r@[0].1.steps@[0].check matches CheckConf::StepCheck(c) && c.max == 0x4040_0000,
        r@[0].1.steps@[1].name@ == "spike_check"@,
        r@[0].1.steps@[1].check matches CheckConf::SpikeCheck(c) && c.max == 0x4040_0000,
        r@[0].1.steps@[2].name@ == "buddy_check"@,
        r@[0].1.steps@[2].check matches CheckConf::BuddyCheck(_),
        r@[0].1.steps@[3].name@ == "sct"@,
        r@[0].1.steps@[3].check matches CheckConf::Sct(_),
{
    let mut steps: Vec<PipelineStep> = Vec::new();
    steps.push(
        PipelineStep {
            name: "step_check".to_owned(),
            check: CheckConf::StepCheck(StepCheckConf { max: 0x4040_0000 }),
        },
    );
    steps.push(
        PipelineStep {
            name: "spike_check".to_owned(),
            check: CheckConf::SpikeCheck(SpikeCheckConf { max: 0x4040_0000 }),
        },
    );
    steps.push(
        PipelineStep {
            name: "buddy_check".to_owned(),
            check: CheckConf::BuddyCheck(
                BuddyCheckConf {
                    radii: vec![0x459C_4000],
                    nums_min: vec![2],
                    threshold: 0x4000_0000,
                    max_elev_diff: 0x4348_0000,
                    elev_gradient: 0,
                    min_std: 0x3F80_0000,
                    num_iterations: 2,
                },
            ),
        },
    );
    steps.push(
        PipelineStep {
            name: "sct".to_owned(),
            check: CheckConf::Sct(
                SctConf {
                    num_min: 5,
                    num_max: 100,
                    inner_radius: 0x4743_5000,
                    outer_radius: 0x4812_7C00,
                    num_iterations: 5,
                    num_min_prof: 20,
                    min_elev_diff: 0x4348_0000,
                    min_horizontal_scale: 0x461C_4000,
                    vertical_scale: 0x4348_0000,
                    pos: vec![0x4080_0000],
                    neg: vec![0x4100_0000],
                    eps2: vec![0x3F00_0000],
                    obs_to_check: None,
                },
            ),
        },
    );
    let pipeline = Pipeline::new(steps);
    let mut pipelines: Vec<(String, Pipeline)> = Vec::new();
    pipelines.push(("hardcoded".to_owned(), pipeline));
    pipelines
}

} // verus!
