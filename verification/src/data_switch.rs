//! The uniform observation cache, the connector interface that produces it,
//! and the switch that routes a source name to a connector.
//!
//! Observation values and station coordinates are IEEE-754 single-precision
//! bit patterns carried as `u32`: the engine never computes with them, it
//! only marshals them between the connectors and the statistical routines,
//! so the bit pattern is the honest model of the value.

use vstd::prelude::*;

pub use crate::time::{RelDuration, TimeSpec, Timerange, Timestamp};
use crate::time::{MAX_SERIES_LEN, TIME_BOUND};

verus! {

/// Error type for the data switch and the connectors behind it.
///
/// A connector maps its internal failures to this type before returning.
#[derive(Debug)]
pub enum Error {
    /// A series id was not in a valid format
    InvalidSeriesId(String),
    /// No connector was registered under the requested source name
    InvalidDataSource(String),
    /// The connector rejected the data id inside the space specifier
    InvalidDataId(String),
    /// The connector rejected the extra specifier
    InvalidExtraSpec {
        /// Name of the relevant data source
        data_source: String,
        /// The extra specifier that could not be parsed
        extra_spec: Option<String>,
        /// The connector's own description of the failure
        reason: String,
    },
    /// Filesystem or socket failure inside a connector
    Io(String),
    /// The source was asked for series data but does not offer it
    UnimplementedSeries(String),
    /// The source was asked for spatial data but does not offer it
    UnimplementedSpatial(String),
    /// A blocking-task adapter inside a connector failed
    Join(String),
    /// Catchall for any other connector error
    Other(String),
}

/// Specifier of geographic position, by latitude and longitude.
///
/// Both fields are bit patterns of single-precision degrees.
#[derive(Debug, Clone, Copy, PartialEq, Eq, Structural)]
pub struct GeoPoint {
    /// Latitude in degrees, as an IEEE-754 bit pattern
    pub lat: u32,
    /// Longitude in degrees, as an IEEE-754 bit pattern
    pub lon: u32,
}

/// A geospatial polygon: its vertices, in order, as lat-lon points.
pub type Polygon = Vec<GeoPoint>;

/// Specifier of which data to fetch from a source by location.
#[derive(Debug)]
pub enum SpaceSpec {
    /// One single timeseries, specified by a data id
    One(String),
    /// Every series whose station falls inside the polygon
    Polygon(Polygon),
    /// The whole data set
    All,
}

/// A spatial index over station coordinates, built from parallel vectors of
/// latitudes, longitudes and elevations (single-precision bit patterns).
///
/// The neighbourhood queries themselves belong to the statistical library;
/// the engine only guarantees that the vectors stay parallel to the series
/// of the cache that owns them, and hands them out unchanged.
#[derive(Debug)]
pub struct SpatialTree {
    /// Station latitudes, in degrees, as IEEE-754 bit patterns
    pub lats: Vec<u32>,
    /// Station longitudes, in degrees, as IEEE-754 bit patterns
    pub lons: Vec<u32>,
    /// Station elevations, in metres, as IEEE-754 bit patterns
    pub elevs: Vec<u32>,
}

impl SpatialTree {
    /// The three coordinate vectors have one entry per station.
    pub open spec fn wf(self) -> bool {
        &&& self.lons@.len() == self.lats@.len()
        &&& self.elevs@.len() == self.lats@.len()
    }

    /// Build the index from parallel coordinate vectors.
    pub fn from_latlons(lats: Vec<u32>, lons: Vec<u32>, elevs: Vec<u32>) -> (r: Self)
        requires
            lons@.len() == lats@.len(),
            elevs@.len() == lats@.len(),
        ensures
            r.wf(),
            r.lats == lats,
            r.lons == lons,
            r.elevs == elevs,
    {
        SpatialTree { lats, lons, elevs }
    }

    /// Number of stations indexed.
    pub fn len(&self) -> (r: usize)
        ensures
            r == self.lats@.len(),
    {
        self.lats.len()
    }
}

/// Container for meteorological data: the uniform in-memory representation
/// every connector returns.
///
/// Each entry of `data` is one timeseries: its identifier and its values in
/// chronological order, `None` marking a gap. All series are aligned on
/// `start_time` and spaced by `period`; point `k` of every series carries
/// the timestamp `start_time + period * k`.
#[derive(Debug)]
pub struct DataCache {
    /// One entry per series: the series identifier and its values
    /// (single-precision bit patterns), aligned across series
    pub data: Vec<(String, Vec<Option<u32>>)>,
    /// Time of the first point of every series
    pub start_time: Timestamp,
    /// Spacing between successive points of every series
    pub period: RelDuration,
    /// Spatial index over the stations, parallel to `data`
    pub rtree: SpatialTree,
    /// How many points at the start of each series are context only:
    /// they are needed by checks but are not themselves QCed
    pub num_leading_points: u8,
    /// How many points at the end of each series are context only
    pub num_trailing_points: u8,
}

impl DataCache {
    /// Length every series of the cache has (0 for an empty cache).
    pub open spec fn spec_series_len(self) -> int {
        if self.data@.len() == 0 {
            0
        } else {
            self.data@[0].1@.len() as int
        }
    }

    /// Number of points per series that are QCed: all of them except the
    /// leading and trailing context.
    pub open spec fn spec_qc_len(self) -> int {
        if self.data@.len() == 0 {
            0
        } else {
            self.spec_series_len() - self.num_leading_points - self.num_trailing_points
        }
    }

    /// The cache invariant: all series have the same length, the spatial
    /// index is parallel to the series, a non-empty cache has room for its
    /// context points plus at least one QCed point, and start time, period
    /// and length lie within the engine's arithmetic bounds.
    pub open spec fn wf(self) -> bool {
        &&& self.rtree.wf()
        &&& self.rtree.lats@.len() == self.data@.len()
        &&& forall|i: int|
            0 <= i < self.data@.len() ==> #[trigger] self.data@[i].1@.len() == self.spec_series_len()
        &&& self.data@.len() > 0 ==> self.num_leading_points + 1 + self.num_trailing_points
            <= self.spec_series_len()
        &&& self.spec_series_len() <= MAX_SERIES_LEN
        &&& -TIME_BOUND <= self.start_time.0 <= TIME_BOUND
        &&& self.period.fits(self.spec_series_len())
    }

    /// Create a new cache from parallel coordinate vectors and series data,
    /// building the spatial index along the way.
    pub fn new(
        lats: Vec<u32>,
        lons: Vec<u32>,
        elevs: Vec<u32>,
        start_time: Timestamp,
        period: RelDuration,
        num_leading_points: u8,
        num_trailing_points: u8,
        data: Vec<(String, Vec<Option<u32>>)>,
    ) -> (r: Self)
        requires
            lons@.len() == lats@.len(),
            elevs@.len() == lats@.len(),
            lats@.len() == data@.len(),
            forall|i: int|
                0 <= i < data@.len() ==> #[trigger] data@[i].1@.len() == data@[0].1@.len(),
            data@.len() > 0 ==> num_leading_points + 1 + num_trailing_points <= data@[0].1@.len(),
            data@.len() > 0 ==> data@[0].1@.len() <= MAX_SERIES_LEN,
            -TIME_BOUND <= start_time.0 <= TIME_BOUND,
            data@.len() > 0 ==> period.fits(data@[0].1@.len() as int),
        ensures
            r.wf(),
            r.data == data,
            r.start_time == start_time,
            r.period == period,
            r.num_leading_points == num_leading_points,
            r.num_trailing_points == num_trailing_points,
            r.rtree.lats == lats,
            r.rtree.lons == lons,
            r.rtree.elevs == elevs,
    {
        proof {
            if data@.len() == 0 {
                assert(period.months * 0 == 0) by (nonlinear_arith) {}
                assert(period.seconds * 0 == 0) by (nonlinear_arith) {}
            }
        }
        DataCache {
            rtree: SpatialTree::from_latlons(lats, lons, elevs),
            data,
            start_time,
            period,
            num_leading_points,
            num_trailing_points,
        }
    }

    /// Length of the series in the cache (0 for an empty cache).
    pub fn series_len(&self) -> (r: usize)
        ensures
            r == self.spec_series_len(),
    {
        if self.data.len() == 0 {
            0
        } else {
            self.data[0].1.len()
        }
    }
}

/// Trait for pulling data from data sources.
///
/// Implementations are how the engine reaches data: one implementation per
/// kind of source, registered in a [`DataSwitch`]. An implementation must
/// return caches that satisfy the cache invariant and reflect the requested
/// number of context points; a source that cannot produce the requested
/// shape returns a fitting [`Error`] instead.
pub trait DataConnector {
    /// Fetch the specified data from the source.
    fn fetch_data(
        &self,
        space_spec: &SpaceSpec,
        time_spec: &TimeSpec,
        num_leading_points: u8,
        num_trailing_points: u8,
        extra_spec: Option<&str>,
    ) -> (r: Result<DataCache, Error>)
        ensures
            r matches Ok(cache) ==> cache.wf() && cache.num_leading_points == num_leading_points
                && cache.num_trailing_points == num_trailing_points,
    ;
}

/// Data routing utility: an immutable mapping from source names to
/// connectors.
///
/// Built once at service start; requests share it by read-only reference.
#[derive(Debug)]
pub struct DataSwitch<C> {
    /// Registered sources: name and connector pairs
    sources: Vec<(String, C)>,
}

impl<C: DataConnector> DataSwitch<C> {
    /// The registered name-to-connector pairs, in registration order.
    pub closed spec fn spec_sources(self) -> Seq<(String, C)> {
        self.sources@
    }

    /// True when some connector is registered under `name`.
    pub open spec fn spec_registered(self, name: Seq<char>) -> bool {
        exists|i: int|
            0 <= i < self.spec_sources().len() && #[trigger] self.spec_sources()[i].0@ == name
    }

    /// Instantiate a new switch over the given name-to-connector pairs.
    pub fn new(sources: Vec<(String, C)>) -> (r: Self)
        ensures
            r.spec_sources() == sources@,
    {
        DataSwitch { sources }
    }

    /// Route a fetch to the connector registered under `data_source_id`,
    /// passing every remaining argument through unchanged.
    ///
    /// Fails with [`Error::InvalidDataSource`] when no connector is
    /// registered under that name; otherwise returns the connector's result,
    /// whose caches satisfy the cache invariant and reflect the requested
    /// context points.
    pub fn fetch_data(
        &self,
        data_source_id: &str,
        space_spec: &SpaceSpec,
        time_spec: &TimeSpec,
        num_leading_points: u8,
        num_trailing_points: u8,
        extra_spec: Option<&str>,
    ) -> (r: Result<DataCache, Error>)
        ensures
            !self.spec_registered(data_source_id@) ==> (r matches Err(
                Error::InvalidDataSource(n),
            ) && n@ == data_source_id@),
            r matches Ok(cache) ==> cache.wf() && cache.num_leading_points == num_leading_points
                && cache.num_trailing_points == num_trailing_points,
    {
        let owned = data_source_id.to_owned();
        let mut i: usize = 0;
        while i < self.sources.len()
            invariant
                0 <= i <= self.sources@.len(),
                owned@ == data_source_id@,
                forall|j: int| 0 <= j < i ==> #[trigger] self.sources@[j].0@ != data_source_id@,
            decreases self.sources@.len() - i,
        {
            if owned == self.sources[i].0 {
                proof {
                    assert(self.spec_sources()[i as int].0@ == data_source_id@);
                }
                return self.sources[i].1.fetch_data(
                    space_spec,
                    time_spec,
                    num_leading_points,
                    num_trailing_points,
                    extra_spec,
                );
            }
            i += 1;
        }
        Err(Error::InvalidDataSource(owned))
    }
}

} // verus!
