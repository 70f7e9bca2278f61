//! Fixed-point coordinates and the rectangular pre-filter around a point.
use vstd::prelude::*;

verus! {

/// Units of a coordinate per degree: coordinates are held in ten-millionths of a degree.
pub const UNITS_PER_DEGREE: i64 = 10_000_000;

/// Largest latitude magnitude, in coordinate units (90 degrees).
pub const MAX_LATITUDE: i64 = 900_000_000;

/// Largest longitude magnitude, in coordinate units (180 degrees).
pub const MAX_LONGITUDE: i64 = 1_800_000_000;

/// Metres per degree of arc along a meridian, rounded down (mean Earth radius 6371 km), so
/// that a half-width derived from it is never too narrow.
pub const METRES_PER_DEGREE: u128 = 111_194;

/// The fixed-point scale of a cosine handed in by the caller (millionths).
pub const COSINE_SCALE: u32 = 1_000_000;

/// Half-widths are capped at a full turn of longitude: a wider box admits nothing more.
pub const MAX_HALF_WIDTH: i64 = 3_600_000_000;

/// A point on the Earth, in ten-millionths of a degree.
#[derive(Clone, Copy, Debug, PartialEq, Eq, Structural)]
pub struct GeoLocation {
    pub latitude: i64,
    pub longitude: i64,
}

impl GeoLocation {
    /// Latitude within [-90, 90] degrees and longitude within [-180, 180] degrees.
    pub open spec fn wf(&self) -> bool {
        -MAX_LATITUDE <= self.latitude <= MAX_LATITUDE && -MAX_LONGITUDE <= self.longitude
            <= MAX_LONGITUDE
    }
}

/// An axis-aligned rectangle in coordinate units, bounds included.
#[derive(Clone, Copy, Debug, PartialEq, Eq, Structural)]
pub struct BoundingBox {
    pub min_lat: i64,
    pub max_lat: i64,
    pub min_lon: i64,
    pub max_lon: i64,
}

/// Rounded-up quotient of naturals.
pub open spec fn ceil_div(a: int, b: int) -> int {
    (a + b - 1) / b
}

/// Latitude half-width, in coordinate units, of the box around a point for a threshold in metres.
pub open spec fn lat_half_width(threshold_m: u64) -> int {
    let w = ceil_div(threshold_m * UNITS_PER_DEGREE, METRES_PER_DEGREE as int);
    if w > MAX_HALF_WIDTH {
        MAX_HALF_WIDTH as int
    } else {
        w
    }
}

/// Longitude half-width: the latitude half-width divided by the cosine of the centre's
/// latitude (given in millionths, rounded down by the caller). A zero cosine (a pole)
/// opens the box to every longitude.
pub open spec fn lon_half_width(threshold_m: u64, cos_lat: u32) -> int {
    if cos_lat == 0 {
        MAX_HALF_WIDTH as int
    } else {
        let w = ceil_div(
            threshold_m * UNITS_PER_DEGREE * COSINE_SCALE,
            METRES_PER_DEGREE * cos_lat,
        );
        if w > MAX_HALF_WIDTH {
            MAX_HALF_WIDTH as int
        } else {
            w
        }
    }
}

/// The box that `BoundingBox::new` builds.
pub open spec fn bounding_box_spec(centre: GeoLocation, threshold_m: u64, cos_lat: u32) -> BoundingBox {
    BoundingBox {
        min_lat: (centre.latitude - lat_half_width(threshold_m)) as i64,
        max_lat: (centre.latitude + lat_half_width(threshold_m)) as i64,
        min_lon: (centre.longitude - lon_half_width(threshold_m, cos_lat)) as i64,
        max_lon: (centre.longitude + lon_half_width(threshold_m, cos_lat)) as i64,
    }
}

pub open spec fn in_box(location: GeoLocation, b: BoundingBox) -> bool {
    b.min_lat <= location.latitude <= b.max_lat && b.min_lon <= location.longitude <= b.max_lon
}

fn capped_ceil_div(a: u128, b: u128) -> (r: i64)
    requires
        0 < b <= 0x100_0000_0000,
        a <= 0x100_0000_0000_0000_0000_0000_0000_0000,
    ensures
        r == (if ceil_div(a as int, b as int) > MAX_HALF_WIDTH {
            MAX_HALF_WIDTH as int
        } else {
            ceil_div(a as int, b as int)
        }),
{
    let q = (a + (b - 1)) / b;
    if q > MAX_HALF_WIDTH as u128 {
        MAX_HALF_WIDTH
    } else {
        q as i64
    }
}

impl BoundingBox {
    /// The box around `centre` for `threshold_m` metres: the latitude half-width is the
    /// threshold over the length of a degree of latitude, the longitude half-width that over
    /// the cosine of the centre's latitude (`cos_lat`, in millionths). Every rounding widens
    /// the box: it rejects far points cheaply and never stands in for an exact distance.
    pub fn new(centre: &GeoLocation, threshold_m: u64, cos_lat: u32) -> (r: BoundingBox)
        requires
            centre.wf(),
            cos_lat <= COSINE_SCALE,
        ensures
            r == bounding_box_spec(*centre, threshold_m, cos_lat),
    {
        let t = threshold_m as u128;
        proof {
            assert(t * 10_000_000 * 1_000_000 <= 0x100_0000_0000_0000_0000_0000_0000_0000)
                by (nonlinear_arith)
                requires
                    t <= 0xffff_ffff_ffff_ffff,
            ;
        }
        let lat_half = capped_ceil_div(t * UNITS_PER_DEGREE as u128, METRES_PER_DEGREE);
        let lon_half = if cos_lat == 0 {
            MAX_HALF_WIDTH
        } else {
            capped_ceil_div(
                t * UNITS_PER_DEGREE as u128 * COSINE_SCALE as u128,
                METRES_PER_DEGREE * cos_lat as u128,
            )
        };
        BoundingBox {
            min_lat: centre.latitude - lat_half,
            max_lat: centre.latitude + lat_half,
            min_lon: centre.longitude - lon_half,
            max_lon: centre.longitude + lon_half,
        }
    }
}

/// Inclusive range test on both axes.
pub fn is_within_bounding_box(location: &GeoLocation, bounding_box: &BoundingBox) -> (r: bool)
    ensures
        r == in_box(*location, *bounding_box),
{
    location.latitude >= bounding_box.min_lat && location.latitude <= bounding_box.max_lat
        && location.longitude >= bounding_box.min_lon && location.longitude
        <= bounding_box.max_lon
}

} // verus!
