//! Reading a country's gazetteer: one named place per tab-separated line.
use crate::fields::{
    field_bytes, field_required, fields_of, location_of, parse_location,
};
use crate::postal::{kept_lines, lines_of, refused_lines, Parsed};
use crate::records::{Date, Gazetteer};
use crate::text::{integer_of, parse_integer, split_bytes, split_text, text_of, trim_cr, without_cr};
use vstd::prelude::*;
use vstd::string::StringSliceAdditionalSpecFns;

verus! {

broadcast use vstd::utf8::encode_utf8_decode_utf8;

/// The year, month and day that chrono reads from a text in the format `%Y-%m-%d`, if it
/// reads one.
pub uninterp spec fn iso_date_of(s: Seq<char>) -> Option<(int, int, int)>;

/// Relies on chrono's `NaiveDate::parse_from_str` with the format `%Y-%m-%d` to read a
/// calendar date, and on its `Datelike` accessors, whose month runs from 1 to 12 and day
/// from 1 to 31.
#[verifier::external_body]
fn parse_iso_date(s: &str) -> (r: Option<Date>)
    ensures
        match r {
            Some(d) => d.wf() && iso_date_of(s@) == Some(
                (d.year as int, d.month as int, d.day as int),
            ),
            None => iso_date_of(s@) is None,
        },
{
    match chrono::NaiveDate::parse_from_str(s, "%Y-%m-%d") {
        Ok(d) => Some(
            Date {
                year: chrono::Datelike::year(&d),
                month: chrono::Datelike::month(&d),
                day: chrono::Datelike::day(&d),
            },
        ),
        Err(_) => None,
    }
}

/// The integer that a field writes, where it fits in an `i64`.
pub open spec fn i64_of(b: Seq<u8>) -> Option<int> {
    match integer_of(b) {
        Some(v) => if i64::MIN <= v <= i64::MAX {
            Some(v)
        } else {
            None
        },
        None => None,
    }
}

/// An optional count: the integer that the field writes, or zero.
pub open spec fn i64_or_zero(b: Seq<u8>) -> int {
    match i64_of(b) {
        Some(v) => v,
        None => 0,
    }
}

/// The texts of a comma-separated list.
pub open spec fn list_of(b: Seq<u8>) -> Seq<Seq<char>> {
    split_bytes(b, 44).map_values(|p: Seq<u8>| text_of(p))
}

/// A gazetteer line has all nineteen fields, an integer identifier and elevation model
/// value, a blank or well-formed location and a date that chrono reads.
pub open spec fn gazetteer_line_ok(f: Seq<Seq<u8>>) -> bool {
    &&& f.len() >= 19
    &&& i64_of(f[0]) is Some
    &&& location_of(Some(f[4]), Some(f[5])) is Some
    &&& i64_of(f[16]) is Some
    &&& iso_date_of(text_of(f[18])) is Some
}

pub open spec fn gazetteer_ok(line: Seq<u8>) -> bool {
    gazetteer_line_ok(fields_of(line))
}

/// `g` is what the fields of an accepted gazetteer line hold, position by position.
pub open spec fn gazetteer_from(g: Gazetteer, f: Seq<Seq<u8>>) -> bool {
    &&& g.id == i64_of(f[0])->0
    &&& g.name@ == text_of(f[1])
    &&& g.asciiname@ == text_of(f[2])
    &&& g.alternate_names@.map_values(|s: String| s@) == list_of(f[3])
    &&& g.geolocation == location_of(Some(f[4]), Some(f[5]))->0
    &&& g.feature_class@ == text_of(f[6])
    &&& g.feature_code@ == text_of(f[7])
    &&& g.country_code@ == text_of(f[8])
    &&& g.alternate_country_codes@.map_values(|s: String| s@) == list_of(f[9])
    &&& g.admin1_code matches Some(c) && c@ == text_of(f[10])
    &&& g.admin2_code matches Some(c) && c@ == text_of(f[11])
    &&& g.admin3_code matches Some(c) && c@ == text_of(f[12])
    &&& g.admin4_code matches Some(c) && c@ == text_of(f[13])
    &&& g.population == i64_or_zero(f[14])
    &&& g.elevation == i64_or_zero(f[15])
    &&& g.dem == i64_of(f[16])->0
    &&& g.timezone@ == text_of(f[17])
    &&& iso_date_of(text_of(f[18])) == Some(
        (
            g.modification_date.year as int,
            g.modification_date.month as int,
            g.modification_date.day as int,
        ),
    )
}

fn text_list(s: &str) -> (r: Vec<String>)
    ensures
        r@.map_values(|t: String| t@) == list_of(s.spec_bytes()),
{
    let parts = split_text(s, 44);
    let mut out: Vec<String> = Vec::new();
    let mut k: usize = 0;
    while k < parts.len()
        invariant
            k <= parts@.len(),
            parts@.map_values(|f: &str| f.spec_bytes()) == split_bytes(s.spec_bytes(), 44),
            out@.len() == k,
            forall|n: int| 0 <= n < k ==> (#[trigger] out@[n])@ == parts@[n]@,
        decreases parts@.len() - k,
    {
        out.push(parts[k].to_owned());
        k = k + 1;
    }
    proof {
        let l = list_of(s.spec_bytes());
        assert forall|n: int| 0 <= n < l.len() implies l[n] == out@[n]@ by {
            assert(split_bytes(s.spec_bytes(), 44)[n] == parts@[n].spec_bytes());
        }
        assert(out@.map_values(|t: String| t@) =~= l);
    }
    out
}

/// Reads one gazetteer line; `None` when a mandatory field is missing or malformed.
pub fn parse_gazetteer_line(line: &str) -> (r: Option<Gazetteer>)
    ensures
        r is Some <==> gazetteer_ok(line.spec_bytes()),
        r matches Some(g) ==> gazetteer_from(g, fields_of(line.spec_bytes())),
{
    let fields = split_text(line, 9);
    let ghost f = field_bytes(fields@);
    proof {
        assert(f == fields_of(line.spec_bytes()));
    }
    if fields.len() < 19 {
        return None;
    }
    proof {
        assert forall|k: int| 0 <= k < 19 implies #[trigger] f[k] == fields@[k].spec_bytes() by {}
    }
    let id = match parse_integer(fields[0]) {
        Some(v) => v,
        None => {
            return None;
        },
    };
    let geolocation = match parse_location(&fields, 4, 5) {
        Some(g) => g,
        None => {
            return None;
        },
    };
    let dem = match parse_integer(fields[16]) {
        Some(v) => v,
        None => {
            return None;
        },
    };
    let modification_date = match parse_iso_date(fields[18]) {
        Some(d) => d,
        None => {
            return None;
        },
    };
    let population = match parse_integer(fields[14]) {
        Some(v) => v,
        None => 0,
    };
    let elevation = match parse_integer(fields[15]) {
        Some(v) => v,
        None => 0,
    };
    Some(
        Gazetteer {
            id,
            name: field_required(&fields, 1),
            asciiname: field_required(&fields, 2),
            alternate_names: text_list(fields[3]),
            geolocation,
            feature_class: field_required(&fields, 6),
            feature_code: field_required(&fields, 7),
            country_code: field_required(&fields, 8),
            alternate_country_codes: text_list(fields[9]),
            admin1_code: Some(field_required(&fields, 10)),
            admin2_code: Some(field_required(&fields, 11)),
            admin3_code: Some(field_required(&fields, 12)),
            admin4_code: Some(field_required(&fields, 13)),
            population,
            elevation,
            dem,
            timezone: field_required(&fields, 17),
            modification_date,
        },
    )
}

/// Reads a gazetteer: every non-empty line that is well formed gives a record, in order; the
/// others are counted in `skipped`.
pub fn load_gazetteer_data(data: &str) -> (r: Parsed<Gazetteer>)
    ensures
        ({
            let good = kept_lines(
                lines_of(data.spec_bytes()),
                |l: Seq<u8>| gazetteer_ok(l),
                lines_of(data.spec_bytes()).len() as int,
            );
            &&& r.records@.len() == good.len()
            &&& forall|n: int|
                0 <= n < good.len() ==> gazetteer_from(#[trigger] r.records@[n], fields_of(good[n]))
            &&& r.skipped == refused_lines(
                lines_of(data.spec_bytes()),
                |l: Seq<u8>| gazetteer_ok(l),
                lines_of(data.spec_bytes()).len() as int,
            )
        }),
{
    let lines = split_text(data, 10);
    let ghost ls = lines_of(data.spec_bytes());
    let ghost ok = |l: Seq<u8>| gazetteer_ok(l);
    proof {
        assert(ls.len() == lines@.len());
    }
    let mut records: Vec<Gazetteer> = Vec::new();
    let mut skipped: usize = 0;
    let mut i: usize = 0;
    while i < lines.len()
        invariant
            ls == lines_of(data.spec_bytes()),
            ok == (|l: Seq<u8>| gazetteer_ok(l)),
            ls.len() == lines@.len(),
            forall|k: int|
                0 <= k < lines@.len() ==> #[trigger] ls[k] == without_cr(lines@[k].spec_bytes()),
            i <= lines@.len(),
            skipped <= i,
            records@.len() == kept_lines(ls, ok, i as int).len(),
            forall|n: int|
                0 <= n < records@.len() ==> gazetteer_from(
                    #[trigger] records@[n],
                    fields_of(kept_lines(ls, ok, i as int)[n]),
                ),
            skipped == refused_lines(ls, ok, i as int),
        decreases lines@.len() - i,
    {
        let line = trim_cr(lines[i]);
        proof {
            assert(ls[i as int] == line.spec_bytes());
        }
        if line.as_bytes().len() > 0 {
            match parse_gazetteer_line(line) {
                Some(g) => {
                    records.push(g);
                },
                None => {
                    skipped = skipped + 1;
                },
            }
        }
        proof {
            let p = kept_lines(ls, ok, i as int);
            assert forall|n: int| 0 <= n < records@.len() implies gazetteer_from(
                #[trigger] records@[n],
                fields_of(kept_lines(ls, ok, i + 1)[n]),
            ) by {
                if n < p.len() {
                    assert(kept_lines(ls, ok, i + 1)[n] == p[n]);
                }
            }
        }
        i = i + 1;
    }
    Parsed { records, skipped }
}

} // verus!
