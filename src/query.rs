//! Nearest, by-key and within-radius queries over a slice of records.
//!
//! Great-circle distances are measured by the caller and handed in as whole metres, one per
//! record, together with the cosine of the query point's latitude: the queries decide which
//! records qualify and in what order, from those numbers alone.
use crate::geolocation::{
    bounding_box_spec, ceil_div, in_box, is_within_bounding_box, BoundingBox, GeoLocation,
    COSINE_SCALE, METRES_PER_DEGREE, UNITS_PER_DEGREE,
};
use crate::records::{Gazetteer, Located, PostalData};
use crate::text::text_eq;
use vstd::prelude::*;

verus! {

/// What the caller measured from one query point over a slice of records.
pub struct Proximity {
    /// The query point.
    pub centre: GeoLocation,
    /// Cosine of the centre's latitude, in millionths, rounded down.
    pub cos_centre_lat: u32,
    /// Distance in metres from the centre to each record; entries of records without a
    /// location are not read.
    pub metres: Vec<u64>,
}

impl Proximity {
    /// Measurements for `n` records around a valid point.
    pub open spec fn wf(&self, n: int) -> bool {
        self.centre.wf() && self.cos_centre_lat <= COSINE_SCALE && self.metres@.len() == n
    }

    /// The pre-filter box for a threshold in metres.
    pub open spec fn spec_bounds(&self, threshold_m: u64) -> BoundingBox {
        bounding_box_spec(self.centre, threshold_m, self.cos_centre_lat)
    }
}

/// Record `i` has a location and, when a box is given, lies inside it.
pub open spec fn admitted<T: Located>(data: Seq<T>, i: int, bounds: Option<BoundingBox>) -> bool {
    &&& data[i].location() is Some
    &&& match bounds {
        None => true,
        Some(b) => in_box(data[i].location()->0, b),
    }
}

/// Record `i` is admitted, no admitted record is closer, and every admitted record before it
/// is farther: the first record that attains the least distance.
pub open spec fn is_first_nearest<T: Located>(
    data: Seq<T>,
    metres: Seq<u64>,
    bounds: Option<BoundingBox>,
    i: int,
) -> bool {
    &&& 0 <= i < data.len()
    &&& admitted(data, i, bounds)
    &&& forall|j: int|
        0 <= j < data.len() && #[trigger] admitted(data, j, bounds) ==> metres[i] <= metres[j]
    &&& forall|j: int| 0 <= j < i && #[trigger] admitted(data, j, bounds) ==> metres[i] < metres[j]
}

pub open spec fn none_admitted<T: Located>(data: Seq<T>, bounds: Option<BoundingBox>) -> bool {
    forall|j: int| 0 <= j < data.len() ==> !#[trigger] admitted(data, j, bounds)
}

/// Record `i` passes both stages of the radius filter.
pub open spec fn within<T: Located>(
    data: Seq<T>,
    metres: Seq<u64>,
    b: BoundingBox,
    radius_m: u64,
    i: int,
) -> bool {
    admitted(data, i, Some(b)) && metres[i] <= radius_m
}

/// Positions, in order, among the first `k` records, of those within the radius.
pub open spec fn selected<T: Located>(
    data: Seq<T>,
    metres: Seq<u64>,
    b: BoundingBox,
    radius_m: u64,
    k: int,
) -> Seq<usize>
    decreases k,
{
    if k <= 0 {
        seq![]
    } else {
        let p = selected(data, metres, b, radius_m, k - 1);
        if within(data, metres, b, radius_m, k - 1) {
            p.push((k - 1) as usize)
        } else {
            p
        }
    }
}

/// The positions of all records within the radius, in input order.
pub open spec fn within_radius_positions<T: Located>(
    data: Seq<T>,
    prox: Proximity,
    radius_m: u64,
) -> Seq<usize> {
    selected(data, prox.metres@, prox.spec_bounds(radius_m), radius_m, data.len() as int)
}

fn admits<T: Located>(record: &T, bounds: &Option<BoundingBox>) -> (r: bool)
    ensures
        r == (record.location() is Some && match *bounds {
            None => true,
            Some(b) => in_box(record.location()->0, b),
        }),
{
    match record.geolocation() {
        None => false,
        Some(loc) => match bounds {
            None => true,
            Some(b) => is_within_bounding_box(&loc, b),
        },
    }
}

fn nearest_index<T: Located>(data: &[T], metres: &Vec<u64>, bounds: Option<BoundingBox>) -> (r:
    Option<usize>)
    requires
        metres@.len() == data@.len(),
    ensures
        match r {
            None => none_admitted(data@, bounds),
            Some(i) => is_first_nearest(data@, metres@, bounds, i as int),
        },
{
    let mut best: Option<usize> = None;
    let mut i: usize = 0;
    while i < data.len()
        invariant
            metres@.len() == data@.len(),
            i <= data@.len(),
            match best {
                None => forall|j: int| 0 <= j < i ==> !#[trigger] admitted(data@, j, bounds),
                Some(k) => {
                    &&& k < i
                    &&& admitted(data@, k as int, bounds)
                    &&& forall|j: int|
                        0 <= j < i && #[trigger] admitted(data@, j, bounds) ==> metres@[k as int]
                            <= metres@[j]
                    &&& forall|j: int|
                        0 <= j < k && #[trigger] admitted(data@, j, bounds) ==> metres@[k as int]
                            < metres@[j]
                },
            },
        decreases data@.len() - i,
    {
        if admits(&data[i], &bounds) {
            match best {
                None => {
                    best = Some(i);
                },
                Some(k) => {
                    if metres[i] < metres[k] {
                        best = Some(i);
                    }
                },
            }
        }
        i = i + 1;
    }
    best
}

proof fn lemma_selected<T: Located>(
    data: Seq<T>,
    metres: Seq<u64>,
    b: BoundingBox,
    radius_m: u64,
    k: int,
)
    requires
        0 <= k <= data.len() <= usize::MAX,
        metres.len() == data.len(),
    ensures
        forall|x: usize|
            selected(data, metres, b, radius_m, k).contains(x) <==> (x < k && within(
                data,
                metres,
                b,
                radius_m,
                x as int,
            )),
        forall|n: int|
            0 <= n < selected(data, metres, b, radius_m, k).len() ==> (#[trigger] selected(
                data,
                metres,
                b,
                radius_m,
                k,
            )[n]) < k,
    decreases k,
{
    if k > 0 {
        lemma_selected(data, metres, b, radius_m, k - 1);
        let p = selected(data, metres, b, radius_m, k - 1);
        if within(data, metres, b, radius_m, k - 1) {
            let q = p.push((k - 1) as usize);
            assert forall|x: usize|
                q.contains(x) <==> (x < k && within(data, metres, b, radius_m, x as int)) by {
                if q.contains(x) && x != (k - 1) as usize {
                    let n = choose|n: int| 0 <= n < q.len() && #[trigger] q[n] == x;
                    assert(p[n] == x);
                    assert(p.contains(x));
                }
                if x < k && within(data, metres, b, radius_m, x as int) {
                    if x == (k - 1) as usize {
                        assert(q[p.len() as int] == x);
                    } else {
                        assert(p.contains(x));
                        let n = choose|n: int| 0 <= n < p.len() && #[trigger] p[n] == x;
                        assert(q[n] == x);
                    }
                }
            }
        }
    }
}

fn within_radius_indices<T: Located>(
    data: &[T],
    metres: &Vec<u64>,
    b: &BoundingBox,
    radius_m: u64,
) -> (r: Vec<usize>)
    requires
        metres@.len() == data@.len(),
    ensures
        r@ == selected(data@, metres@, *b, radius_m, data@.len() as int),
        data@.len() <= usize::MAX,
{
    let mut out: Vec<usize> = Vec::new();
    let bounds = Some(*b);
    let mut i: usize = 0;
    while i < data.len()
        invariant
            metres@.len() == data@.len(),
            i <= data@.len(),
            bounds == Some(*b),
            out@ == selected(data@, metres@, *b, radius_m, i as int),
        decreases data@.len() - i,
    {
        if admits(&data[i], &bounds) && metres[i] <= radius_m {
            out.push(i);
        }
        i = i + 1;
    }
    out
}

/// Removes each entry equal to the one just before it.
pub open spec fn dedup_adjacent(s: Seq<Seq<char>>) -> Seq<Seq<char>>
    decreases s.len(),
{
    if s.len() == 0 {
        seq![]
    } else {
        let p = dedup_adjacent(s.drop_last());
        if s.len() >= 2 && s[s.len() - 2] == s.last() {
            p
        } else {
            p.push(s.last())
        }
    }
}

/// The nearest postal record that has a location; among equally near records, the first.
pub fn get_nearest_postcode<'a>(proximity: &Proximity, geonames_data: &'a [PostalData]) -> (r:
    Option<&'a PostalData>)
    requires
        proximity.metres@.len() == geonames_data@.len(),
    ensures
        r is None <==> none_admitted(geonames_data@, None),
        r matches Some(rec) ==> exists|i: int|
            is_first_nearest(geonames_data@, proximity.metres@, None, i) && *rec
                == #[trigger] geonames_data@[i],
{
    match nearest_index(geonames_data, &proximity.metres, None) {
        Some(i) => Some(&geonames_data[i]),
        None => None,
    }
}

/// The nearest postal record inside the box of `threshold_m` metres around the point: absent
/// when no located record lies in that box, however near the nearest one outside it.
pub fn get_nearest_postcode_with_bounding<'a>(
    proximity: &Proximity,
    geonames_data: &'a [PostalData],
    threshold_m: u64,
) -> (r: Option<&'a PostalData>)
    requires
        proximity.wf(geonames_data@.len() as int),
    ensures
        r is None <==> none_admitted(geonames_data@, Some(proximity.spec_bounds(threshold_m))),
        r matches Some(rec) ==> exists|i: int|
            is_first_nearest(
                geonames_data@,
                proximity.metres@,
                Some(proximity.spec_bounds(threshold_m)),
                i,
            ) && *rec == #[trigger] geonames_data@[i],
{
    let b = BoundingBox::new(&proximity.centre, threshold_m, proximity.cos_centre_lat);
    match nearest_index(geonames_data, &proximity.metres, Some(b)) {
        Some(i) => Some(&geonames_data[i]),
        None => None,
    }
}

/// The location of the first record with the postal code that has a location.
pub fn get_postcode_location(postcode: &str, geonames_data: &[PostalData]) -> (r: Option<
    GeoLocation,
>)
    ensures
        match r {
            None => forall|i: int|
                0 <= i < geonames_data@.len() && #[trigger] geonames_data@[i].postal_code@
                    == postcode@ ==> geonames_data@[i].geolocation is None,
            Some(loc) => exists|i: int|
                0 <= i < geonames_data@.len() && #[trigger] geonames_data@[i].postal_code@
                    == postcode@ && geonames_data@[i].geolocation == Some(loc) && forall|j: int|
                    0 <= j < i && #[trigger] geonames_data@[j].postal_code@ == postcode@
                        ==> geonames_data@[j].geolocation is None,
        },
{
    let mut i: usize = 0;
    while i < geonames_data.len()
        invariant
            i <= geonames_data@.len(),
            forall|j: int|
                0 <= j < i && #[trigger] geonames_data@[j].postal_code@ == postcode@
                    ==> geonames_data@[j].geolocation is None,
        decreases geonames_data@.len() - i,
    {
        let rec = &geonames_data[i];
        if text_eq(rec.postal_code.as_str(), postcode) {
            if let Some(loc) = rec.geolocation {
                return Some(loc);
            }
        }
        i = i + 1;
    }
    None
}

/// The postal codes of the records within `radius_m` metres, in input order, with each code
/// that repeats the one just before it left out (repeats further apart stay).
pub fn get_postcodes_within_radius<'a>(
    proximity: &Proximity,
    radius_m: u64,
    geonames_data: &'a [PostalData],
) -> (r: Vec<&'a str>)
    requires
        proximity.wf(geonames_data@.len() as int),
    ensures
        r@.map_values(|s: &str| s@) == dedup_adjacent(
            within_radius_positions(geonames_data@, *proximity, radius_m).map_values(
                |i: usize| geonames_data@[i as int].postal_code@,
            ),
        ),
{
    let b = BoundingBox::new(&proximity.centre, radius_m, proximity.cos_centre_lat);
    let idx = within_radius_indices(geonames_data, &proximity.metres, &b, radius_m);
    proof {
        lemma_selected(
            geonames_data@,
            proximity.metres@,
            b,
            radius_m,
            geonames_data@.len() as int,
        );
    }
    let ghost codes = idx@.map_values(|i: usize| geonames_data@[i as int].postal_code@);
    let mut out: Vec<&'a str> = Vec::new();
    let mut k: usize = 0;
    while k < idx.len()
        invariant
            k <= idx@.len(),
            codes == idx@.map_values(|i: usize| geonames_data@[i as int].postal_code@),
            forall|n: int| 0 <= n < idx@.len() ==> (#[trigger] idx@[n]) < geonames_data@.len(),
            out@.map_values(|s: &str| s@) == dedup_adjacent(codes.subrange(0, k as int)),
            k > 0 ==> out@.len() > 0 && out@.last()@ == codes[k - 1],
        decreases idx@.len() - k,
    {
        let code = geonames_data[idx[k]].postal_code.as_str();
        let keep = if k == 0 {
            true
        } else {
            !text_eq(out[out.len() - 1], code)
        };
        proof {
            let s = codes.subrange(0, k + 1);
            assert(s.drop_last() =~= codes.subrange(0, k as int));
        }
        if keep {
            out.push(code);
        }
        proof {
            assert(out@.map_values(|s: &str| s@) =~= dedup_adjacent(codes.subrange(0, k + 1)));
        }
        k = k + 1;
    }
    proof {
        assert(codes.subrange(0, idx@.len() as int) =~= codes);
    }
    out
}

/// All postal records within `radius_m` metres, in input order; records that share a code,
/// or repeat one another, are all kept.
pub fn get_postal_data_within_radius<'a>(
    proximity: &Proximity,
    radius_m: u64,
    geonames_data: &'a [PostalData],
) -> (r: Vec<&'a PostalData>)
    requires
        proximity.wf(geonames_data@.len() as int),
    ensures
        r@.len() == within_radius_positions(geonames_data@, *proximity, radius_m).len(),
        forall|n: int|
            0 <= n < r@.len() ==> *#[trigger] r@[n] == geonames_data@[within_radius_positions(
                geonames_data@,
                *proximity,
                radius_m,
            )[n] as int],
{
    let b = BoundingBox::new(&proximity.centre, radius_m, proximity.cos_centre_lat);
    let idx = within_radius_indices(geonames_data, &proximity.metres, &b, radius_m);
    proof {
        lemma_selected(
            geonames_data@,
            proximity.metres@,
            b,
            radius_m,
            geonames_data@.len() as int,
        );
    }
    let mut out: Vec<&'a PostalData> = Vec::new();
    let mut k: usize = 0;
    while k < idx.len()
        invariant
            k <= idx@.len(),
            forall|n: int| 0 <= n < idx@.len() ==> (#[trigger] idx@[n]) < geonames_data@.len(),
            out@.len() == k,
            forall|n: int| 0 <= n < k ==> *#[trigger] out@[n] == geonames_data@[idx@[n] as int],
        decreases idx@.len() - k,
    {
        out.push(&geonames_data[idx[k]]);
        k = k + 1;
    }
    out
}

/// A copy of the first record with the postal code, whether or not it has a location.
pub fn get_postcode(postcode: &str, geonames_data: &[PostalData]) -> (r: Option<PostalData>)
    ensures
        match r {
            None => forall|i: int|
                0 <= i < geonames_data@.len() ==> #[trigger] geonames_data@[i].postal_code@
                    != postcode@,
            Some(rec) => exists|i: int|
                0 <= i < geonames_data@.len() && #[trigger] geonames_data@[i] == rec
                    && rec.postal_code@ == postcode@ && forall|j: int|
                    0 <= j < i ==> #[trigger] geonames_data@[j].postal_code@ != postcode@,
        },
{
    let mut i: usize = 0;
    while i < geonames_data.len()
        invariant
            i <= geonames_data@.len(),
            forall|j: int| 0 <= j < i ==> #[trigger] geonames_data@[j].postal_code@ != postcode@,
        decreases geonames_data@.len() - i,
    {
        if text_eq(geonames_data[i].postal_code.as_str(), postcode) {
            return Some(geonames_data[i].duplicate());
        }
        i = i + 1;
    }
    None
}

/// The place goes by `place`: as its name, its ASCII name or one of its alternate names.
pub open spec fn names_place(g: Gazetteer, place: Seq<char>) -> bool {
    ||| g.name@ == place
    ||| g.asciiname@ == place
    ||| exists|k: int| 0 <= k < g.alternate_names@.len() && #[trigger] g.alternate_names@[k]@ == place
}

fn is_named(g: &Gazetteer, place: &str) -> (r: bool)
    ensures
        r == names_place(*g, place@),
{
    if text_eq(g.name.as_str(), place) || text_eq(g.asciiname.as_str(), place) {
        return true;
    }
    let mut k: usize = 0;
    while k < g.alternate_names.len()
        invariant
            k <= g.alternate_names@.len(),
            g.name@ != place@ && g.asciiname@ != place@,
            forall|j: int| 0 <= j < k ==> #[trigger] g.alternate_names@[j]@ != place@,
        decreases g.alternate_names@.len() - k,
    {
        if text_eq(g.alternate_names[k].as_str(), place) {
            return true;
        }
        k = k + 1;
    }
    false
}

/// The nearest place that has a location; among equally near places, the first.
pub fn get_nearest_place<'a>(proximity: &Proximity, geonames_data: &'a [Gazetteer]) -> (r: Option<
    &'a Gazetteer,
>)
    requires
        proximity.metres@.len() == geonames_data@.len(),
    ensures
        r is None <==> none_admitted(geonames_data@, None),
        r matches Some(rec) ==> exists|i: int|
            is_first_nearest(geonames_data@, proximity.metres@, None, i) && *rec
                == #[trigger] geonames_data@[i],
{
    match nearest_index(geonames_data, &proximity.metres, None) {
        Some(i) => Some(&geonames_data[i]),
        None => None,
    }
}

/// The nearest place inside the box of `threshold_m` metres around the point: absent when no
/// located place lies in that box.
pub fn get_nearest_place_with_bounding<'a>(
    proximity: &Proximity,
    geonames_data: &'a [Gazetteer],
    threshold_m: u64,
) -> (r: Option<&'a Gazetteer>)
    requires
        proximity.wf(geonames_data@.len() as int),
    ensures
        r is None <==> none_admitted(geonames_data@, Some(proximity.spec_bounds(threshold_m))),
        r matches Some(rec) ==> exists|i: int|
            is_first_nearest(
                geonames_data@,
                proximity.metres@,
                Some(proximity.spec_bounds(threshold_m)),
                i,
            ) && *rec == #[trigger] geonames_data@[i],
{
    let b = BoundingBox::new(&proximity.centre, threshold_m, proximity.cos_centre_lat);
    match nearest_index(geonames_data, &proximity.metres, Some(b)) {
        Some(i) => Some(&geonames_data[i]),
        None => None,
    }
}

/// The location of the first place that goes by `place` and has a location.
pub fn get_place_location(place: &str, geonames_data: &[Gazetteer]) -> (r: Option<GeoLocation>)
    ensures
        match r {
            None => forall|i: int|
                0 <= i < geonames_data@.len() && names_place(#[trigger] geonames_data@[i], place@)
                    ==> geonames_data@[i].geolocation is None,
            Some(loc) => exists|i: int|
                0 <= i < geonames_data@.len() && names_place(#[trigger] geonames_data@[i], place@)
                    && geonames_data@[i].geolocation == Some(loc) && forall|j: int|
                    0 <= j < i && names_place(#[trigger] geonames_data@[j], place@)
                        ==> geonames_data@[j].geolocation is None,
        },
{
    let mut i: usize = 0;
    while i < geonames_data.len()
        invariant
            i <= geonames_data@.len(),
            forall|j: int|
                0 <= j < i && names_place(#[trigger] geonames_data@[j], place@)
                    ==> geonames_data@[j].geolocation is None,
        decreases geonames_data@.len() - i,
    {
        let rec = &geonames_data[i];
        if is_named(rec, place) {
            if let Some(loc) = rec.geolocation {
                return Some(loc);
            }
        }
        i = i + 1;
    }
    None
}

/// The names of the places within `radius_m` metres, in input order.
pub fn get_places_within_radius<'a>(
    proximity: &Proximity,
    radius_m: u64,
    geonames_data: &'a [Gazetteer],
) -> (r: Vec<&'a str>)
    requires
        proximity.wf(geonames_data@.len() as int),
    ensures
        r@.map_values(|s: &str| s@) == within_radius_positions(
            geonames_data@,
            *proximity,
            radius_m,
        ).map_values(|i: usize| geonames_data@[i as int].name@),
{
    let b = BoundingBox::new(&proximity.centre, radius_m, proximity.cos_centre_lat);
    let idx = within_radius_indices(geonames_data, &proximity.metres, &b, radius_m);
    proof {
        lemma_selected(
            geonames_data@,
            proximity.metres@,
            b,
            radius_m,
            geonames_data@.len() as int,
        );
    }
    let mut out: Vec<&'a str> = Vec::new();
    let mut k: usize = 0;
    while k < idx.len()
        invariant
            k <= idx@.len(),
            forall|n: int| 0 <= n < idx@.len() ==> (#[trigger] idx@[n]) < geonames_data@.len(),
            out@.len() == k,
            forall|n: int|
                0 <= n < k ==> (#[trigger] out@[n])@ == geonames_data@[idx@[n] as int].name@,
        decreases idx@.len() - k,
    {
        out.push(geonames_data[idx[k]].name.as_str());
        k = k + 1;
    }
    proof {
        assert(out@.map_values(|s: &str| s@) =~= idx@.map_values(
            |i: usize| geonames_data@[i as int].name@,
        ));
    }
    out
}

proof fn lemma_ceil_div_monotone(a1: int, a2: int, b: int)
    requires
        0 <= a1 <= a2,
        b > 0,
    ensures
        ceil_div(a1, b) <= ceil_div(a2, b),
{
    vstd::arithmetic::div_mod::lemma_div_is_ordered(a1 + b - 1, a2 + b - 1, b);
}

/// The box grows with the threshold: every edge moves outward or stays.
pub proof fn lemma_bounds_monotone(prox: Proximity, r1: u64, r2: u64)
    requires
        r1 <= r2,
        prox.centre.wf(),
        prox.cos_centre_lat <= COSINE_SCALE,
    ensures
        prox.spec_bounds(r2).min_lat <= prox.spec_bounds(r1).min_lat,
        prox.spec_bounds(r1).max_lat <= prox.spec_bounds(r2).max_lat,
        prox.spec_bounds(r2).min_lon <= prox.spec_bounds(r1).min_lon,
        prox.spec_bounds(r1).max_lon <= prox.spec_bounds(r2).max_lon,
{
    assert(r1 * UNITS_PER_DEGREE <= r2 * UNITS_PER_DEGREE) by (nonlinear_arith)
        requires
            r1 <= r2,
    ;
    lemma_ceil_div_monotone(r1 * UNITS_PER_DEGREE, r2 * UNITS_PER_DEGREE, METRES_PER_DEGREE as int);
    assert(0 <= ceil_div(r1 * UNITS_PER_DEGREE, METRES_PER_DEGREE as int)) by {
        vstd::arithmetic::div_mod::lemma_div_pos_is_pos(
            r1 * UNITS_PER_DEGREE + METRES_PER_DEGREE - 1,
            METRES_PER_DEGREE as int,
        );
    }
    let c = prox.cos_centre_lat;
    if c != 0 {
        let d = METRES_PER_DEGREE * c;
        assert(d > 0) by (nonlinear_arith)
            requires
                c > 0,
                d == 111194 * c,
        ;
        assert(r1 * UNITS_PER_DEGREE * COSINE_SCALE <= r2 * UNITS_PER_DEGREE * COSINE_SCALE)
            by (nonlinear_arith)
            requires
                r1 <= r2,
        ;
        lemma_ceil_div_monotone(
            r1 * UNITS_PER_DEGREE * COSINE_SCALE,
            r2 * UNITS_PER_DEGREE * COSINE_SCALE,
            d,
        );
        assert(0 <= ceil_div(r1 * UNITS_PER_DEGREE * COSINE_SCALE, d)) by {
            vstd::arithmetic::div_mod::lemma_div_pos_is_pos(
                r1 * UNITS_PER_DEGREE * COSINE_SCALE + d - 1,
                d,
            );
        }
    }
}

/// Monotonicity in the radius: every record that the radius query returns for `r1` it also
/// returns for any larger radius `r2`.
pub proof fn lemma_within_radius_monotone<T: Located>(
    data: Seq<T>,
    prox: Proximity,
    r1: u64,
    r2: u64,
)
    requires
        r1 <= r2,
        prox.wf(data.len() as int),
        data.len() <= usize::MAX,
    ensures
        forall|x: usize|
            within_radius_positions(data, prox, r1).contains(x) ==> within_radius_positions(
                data,
                prox,
                r2,
            ).contains(x),
{
    lemma_bounds_monotone(prox, r1, r2);
    let b1 = prox.spec_bounds(r1);
    let b2 = prox.spec_bounds(r2);
    lemma_selected(data, prox.metres@, b1, r1, data.len() as int);
    lemma_selected(data, prox.metres@, b2, r2, data.len() as int);
    assert forall|x: usize|
        within_radius_positions(data, prox, r1).contains(x) implies within_radius_positions(
        data,
        prox,
        r2,
    ).contains(x) by {
        assert(selected(data, prox.metres@, b1, r1, data.len() as int).contains(x));
        assert(within(data, prox.metres@, b1, r1, x as int));
        assert(within(data, prox.metres@, b2, r2, x as int));
    }
}

/// Every record that the radius query returns has a location and lies within the radius;
/// and every located record within the radius that lies in the pre-filter box is returned,
/// so the query drops a record within the radius only where the box misses it.
pub proof fn lemma_within_radius_exact<T: Located>(data: Seq<T>, prox: Proximity, radius_m: u64)
    requires
        prox.wf(data.len() as int),
        data.len() <= usize::MAX,
    ensures
        forall|x: usize|
            #[trigger] within_radius_positions(data, prox, radius_m).contains(x) ==> x
                < data.len() && data[x as int].location() is Some && prox.metres@[x as int]
                <= radius_m,
        forall|x: usize|
            x < data.len() && data[x as int].location() is Some && prox.metres@[x as int]
                <= radius_m && in_box(data[x as int].location()->0, prox.spec_bounds(radius_m))
                ==> #[trigger] within_radius_positions(data, prox, radius_m).contains(x),
{
    let b = prox.spec_bounds(radius_m);
    lemma_selected(data, prox.metres@, b, radius_m, data.len() as int);
    assert forall|x: usize| #[trigger]
        within_radius_positions(data, prox, radius_m).contains(x) implies x < data.len()
            && data[x as int].location() is Some && prox.metres@[x as int] <= radius_m by {
        assert(selected(data, prox.metres@, b, radius_m, data.len() as int).contains(x));
        assert(within(data, prox.metres@, b, radius_m, x as int));
    }
    assert forall|x: usize|
        x < data.len() && data[x as int].location() is Some && prox.metres@[x as int] <= radius_m
            && in_box(data[x as int].location()->0, b) implies #[trigger] within_radius_positions(
        data,
        prox,
        radius_m,
    ).contains(x) by {
        assert(within(data, prox.metres@, b, radius_m, x as int));
    }
}

/// When every located record lies outside the box for `threshold_m`, the bounded nearest
/// search has no candidate (and so returns nothing), while the unbounded one has a candidate
/// as soon as any record has a location.
pub proof fn lemma_bounded_nearest_absent<T: Located>(
    data: Seq<T>,
    prox: Proximity,
    threshold_m: u64,
)
    requires
        forall|i: int|
            0 <= i < data.len() && (#[trigger] data[i].location()) is Some ==> !in_box(
                data[i].location()->0,
                prox.spec_bounds(threshold_m),
            ),
    ensures
        none_admitted(data, Some(prox.spec_bounds(threshold_m))),
        (exists|i: int| 0 <= i < data.len() && (#[trigger] data[i].location()) is Some)
            ==> !none_admitted(data, None),
{
    if exists|i: int| 0 <= i < data.len() && (#[trigger] data[i].location()) is Some {
        let i = choose|i: int| 0 <= i < data.len() && (#[trigger] data[i].location()) is Some;
        assert(admitted(data, i, None));
    }
}

} // verus!
