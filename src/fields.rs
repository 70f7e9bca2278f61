//! Positional access to the tab-separated fields of one dataset line.
use crate::geolocation::{GeoLocation, MAX_LATITUDE, MAX_LONGITUDE};
use crate::text::{decimal_e7, parse_decimal_e7, split_bytes, text_of};
use vstd::prelude::*;
use vstd::string::StringSliceAdditionalSpecFns;
use vstd::utf8::*;

verus! {

broadcast use {encode_utf8_decode_utf8, encode_utf8_valid_utf8};

/// The bytes of each field.
pub open spec fn field_bytes(fields: Seq<&str>) -> Seq<Seq<u8>> {
    fields.map_values(|f: &str| f.spec_bytes())
}

/// Field `k`, absent past the end of the line.
pub open spec fn field(f: Seq<Seq<u8>>, k: int) -> Option<Seq<u8>> {
    if 0 <= k < f.len() {
        Some(f[k])
    } else {
        None
    }
}

pub open spec fn field_text(f: Seq<Seq<u8>>, k: int) -> Option<Seq<char>> {
    match field(f, k) {
        Some(b) => Some(text_of(b)),
        None => None,
    }
}

pub open spec fn opt_view(o: Option<String>) -> Option<Seq<char>> {
    match o {
        Some(s) => Some(s@),
        None => None,
    }
}

/// Absent or empty.
pub open spec fn is_blank(o: Option<Seq<u8>>) -> bool {
    o is None || o->0.len() == 0
}

/// The location that a latitude and a longitude field give: `Some(None)` when both are blank,
/// `Some(Some(..))` when both are decimal numbers in range, and `None` (a malformed line)
/// otherwise.
pub open spec fn location_of(lat: Option<Seq<u8>>, lon: Option<Seq<u8>>) -> Option<
    Option<GeoLocation>,
> {
    if is_blank(lat) && is_blank(lon) {
        Some(None)
    } else if lat is Some && lon is Some {
        match (decimal_e7(lat->0), decimal_e7(lon->0)) {
            (Some(a), Some(o)) => if -MAX_LATITUDE <= a <= MAX_LATITUDE && -MAX_LONGITUDE <= o
                <= MAX_LONGITUDE {
                Some(Some(GeoLocation { latitude: a as i64, longitude: o as i64 }))
            } else {
                None
            },
            _ => None,
        }
    } else {
        None
    }
}

/// Field `k` as text, absent past the end of the line.
pub fn field_string(fields: &Vec<&str>, k: usize) -> (r: Option<String>)
    ensures
        opt_view(r) == field_text(field_bytes(fields@), k as int),
{
    if k < fields.len() {
        let s = fields[k].to_owned();
        proof {
            assert(field_bytes(fields@)[k as int] == fields@[k as int].spec_bytes());
        }
        Some(s)
    } else {
        None
    }
}

/// Field `k` as text; the field must exist.
pub fn field_required(fields: &Vec<&str>, k: usize) -> (r: String)
    requires
        k < fields@.len(),
    ensures
        r@ == text_of(field_bytes(fields@)[k as int]),
{
    proof {
        assert(field_bytes(fields@)[k as int] == fields@[k as int].spec_bytes());
    }
    fields[k].to_owned()
}

fn is_empty_text(s: &str) -> (r: bool)
    ensures
        r == (s.spec_bytes().len() == 0),
{
    s.as_bytes().len() == 0
}

/// Reads the location from fields `lat_k` and `lon_k`.
pub fn parse_location(fields: &Vec<&str>, lat_k: usize, lon_k: usize) -> (r: Option<
    Option<GeoLocation>,
>)
    ensures
        r == location_of(field(field_bytes(fields@), lat_k as int), field(field_bytes(fields@), lon_k as int)),
{
    let ghost f = field_bytes(fields@);
    proof {
        if lat_k < fields@.len() {
            assert(f[lat_k as int] == fields@[lat_k as int].spec_bytes());
        }
        if lon_k < fields@.len() {
            assert(f[lon_k as int] == fields@[lon_k as int].spec_bytes());
        }
    }
    let lat_blank = lat_k >= fields.len() || is_empty_text(fields[lat_k]);
    let lon_blank = lon_k >= fields.len() || is_empty_text(fields[lon_k]);
    if lat_blank && lon_blank {
        return Some(None);
    }
    if lat_k >= fields.len() || lon_k >= fields.len() {
        return None;
    }
    let lat = parse_decimal_e7(fields[lat_k], MAX_LATITUDE);
    let lon = parse_decimal_e7(fields[lon_k], MAX_LONGITUDE);
    match (lat, lon) {
        (Some(a), Some(o)) => Some(Some(GeoLocation { latitude: a, longitude: o })),
        _ => None,
    }
}

/// Splits a line into its tab-separated fields.
pub open spec fn fields_of(line: Seq<u8>) -> Seq<Seq<u8>> {
    split_bytes(line, 9)
}

} // verus!
