//! Reading a country's postal dataset: one record per tab-separated line.
use crate::fields::{
    field, field_bytes, field_required, field_string, field_text, fields_of, location_of, opt_view,
    parse_location,
};
use crate::records::{accuracy_of, Accuracy, PostalData};
use crate::text::{join_bytes, lemma_split_join, split_bytes, split_text, text_of, trim_cr, without_cr};
use vstd::prelude::*;
use vstd::string::StringSliceAdditionalSpecFns;

verus! {

broadcast use vstd::utf8::encode_utf8_decode_utf8;

/// Records read from a dataset, and the number of non-empty lines that were malformed and
/// left out.
pub struct Parsed<T> {
    pub records: Vec<T>,
    pub skipped: usize,
}

/// The lines of a text: split at line feeds, each without a trailing carriage return.
pub open spec fn lines_of(b: Seq<u8>) -> Seq<Seq<u8>> {
    split_bytes(b, 10).map_values(|l: Seq<u8>| without_cr(l))
}

/// The non-empty lines among the first `k` that `ok` accepts, in order.
pub open spec fn kept_lines(lines: Seq<Seq<u8>>, ok: spec_fn(Seq<u8>) -> bool, k: int) -> Seq<
    Seq<u8>,
>
    decreases k,
{
    if k <= 0 {
        seq![]
    } else {
        let p = kept_lines(lines, ok, k - 1);
        if lines[k - 1].len() > 0 && ok(lines[k - 1]) {
            p.push(lines[k - 1])
        } else {
            p
        }
    }
}

/// How many of the first `k` lines are non-empty and refused by `ok`.
pub open spec fn refused_lines(lines: Seq<Seq<u8>>, ok: spec_fn(Seq<u8>) -> bool, k: int) -> nat
    decreases k,
{
    if k <= 0 {
        0
    } else {
        refused_lines(lines, ok, k - 1) + if lines[k - 1].len() > 0 && !ok(lines[k - 1]) {
            1nat
        } else {
            0nat
        }
    }
}

/// The mandatory fields of a postal line: a country code and a postal code, both non-empty,
/// and a location that is either blank or well formed.
pub open spec fn postal_line_ok(f: Seq<Seq<u8>>) -> bool {
    &&& f.len() >= 2
    &&& f[0].len() > 0
    &&& f[1].len() > 0
    &&& location_of(field(f, 9), field(f, 10)) is Some
}

/// `rec` is what the fields of an accepted postal line hold, position by position; a field
/// past the end of the line is absent, and a missing accuracy reads as an empty code.
pub open spec fn postal_from(rec: PostalData, f: Seq<Seq<u8>>) -> bool {
    &&& rec.country_code@ == text_of(f[0])
    &&& rec.postal_code@ == text_of(f[1])
    &&& opt_view(rec.place_name) == field_text(f, 2)
    &&& opt_view(rec.admin_name1) == field_text(f, 3)
    &&& opt_view(rec.admin_code1) == field_text(f, 4)
    &&& opt_view(rec.admin_name2) == field_text(f, 5)
    &&& opt_view(rec.admin_code2) == field_text(f, 6)
    &&& opt_view(rec.admin_name3) == field_text(f, 7)
    &&& opt_view(rec.admin_code3) == field_text(f, 8)
    &&& rec.geolocation == location_of(field(f, 9), field(f, 10))->0
    &&& rec.accuracy == accuracy_of(
        match field_text(f, 11) {
            Some(t) => t,
            None => seq![],
        },
    )
}

pub open spec fn postal_ok(line: Seq<u8>) -> bool {
    postal_line_ok(fields_of(line))
}

/// Reads one postal line; `None` when a mandatory field is missing or malformed.
pub fn parse_postal_line(line: &str) -> (r: Option<PostalData>)
    ensures
        r is Some <==> postal_ok(line.spec_bytes()),
        r matches Some(rec) ==> postal_from(rec, fields_of(line.spec_bytes())),
{
    let fields = split_text(line, 9);
    let ghost f = field_bytes(fields@);
    proof {
        assert(f == fields_of(line.spec_bytes()));
    }
    if fields.len() < 2 || fields[0].as_bytes().len() == 0 || fields[1].as_bytes().len() == 0 {
        proof {
            if fields@.len() >= 2 {
                assert(f[0] == fields@[0].spec_bytes());
                assert(f[1] == fields@[1].spec_bytes());
            }
        }
        return None;
    }
    proof {
        assert(f[0] == fields@[0].spec_bytes());
        assert(f[1] == fields@[1].spec_bytes());
    }
    let geolocation = match parse_location(&fields, 9, 10) {
        Some(g) => g,
        None => {
            return None;
        },
    };
    let accuracy = if 11 < fields.len() {
        proof {
            assert(f[11] == fields@[11].spec_bytes());
        }
        Accuracy::parse(fields[11])
    } else {
        proof {
            assert(""@ =~= seq![]) by {
                reveal_strlit("");
            }
        }
        Accuracy::parse("")
    };
    Some(
        PostalData {
            country_code: field_required(&fields, 0),
            postal_code: field_required(&fields, 1),
            place_name: field_string(&fields, 2),
            admin_name1: field_string(&fields, 3),
            admin_code1: field_string(&fields, 4),
            admin_name2: field_string(&fields, 5),
            admin_code2: field_string(&fields, 6),
            admin_name3: field_string(&fields, 7),
            admin_code3: field_string(&fields, 8),
            geolocation,
            accuracy,
        },
    )
}

/// Reads a postal dataset: every non-empty line that is well formed gives a record, in
/// order; the others are counted in `skipped`.
pub fn load_postal_data(data: &str) -> (r: Parsed<PostalData>)
    ensures
        ({
            let good = kept_lines(
                lines_of(data.spec_bytes()),
                |l: Seq<u8>| postal_ok(l),
                lines_of(data.spec_bytes()).len() as int,
            );
            &&& r.records@.len() == good.len()
            &&& forall|n: int|
                0 <= n < good.len() ==> postal_from(#[trigger] r.records@[n], fields_of(good[n]))
            &&& r.skipped == refused_lines(
                lines_of(data.spec_bytes()),
                |l: Seq<u8>| postal_ok(l),
                lines_of(data.spec_bytes()).len() as int,
            )
        }),
{
    let lines = split_text(data, 10);
    let ghost ls = lines_of(data.spec_bytes());
    let ghost ok = |l: Seq<u8>| postal_ok(l);
    proof {
        assert(ls.len() == lines@.len());
    }
    let mut records: Vec<PostalData> = Vec::new();
    let mut skipped: usize = 0;
    let mut i: usize = 0;
    while i < lines.len()
        invariant
            ls == lines_of(data.spec_bytes()),
            ok == (|l: Seq<u8>| postal_ok(l)),
            ls.len() == lines@.len(),
            forall|k: int|
                0 <= k < lines@.len() ==> #[trigger] ls[k] == without_cr(lines@[k].spec_bytes()),
            i <= lines@.len(),
            skipped <= i,
            records@.len() == kept_lines(ls, ok, i as int).len(),
            forall|n: int|
                0 <= n < records@.len() ==> postal_from(
                    #[trigger] records@[n],
                    fields_of(kept_lines(ls, ok, i as int)[n]),
                ),
            skipped == refused_lines(ls, ok, i as int),
        decreases lines@.len() - i,
    {
        let line = trim_cr(lines[i]);
        proof {
            assert(ls[i as int] == line.spec_bytes());
        }
        if line.as_bytes().len() > 0 {
            match parse_postal_line(line) {
                Some(rec) => {
                    records.push(rec);
                },
                None => {
                    skipped = skipped + 1;
                },
            }
        }
        proof {
            let p = kept_lines(ls, ok, i as int);
            assert forall|n: int| 0 <= n < records@.len() implies postal_from(
                #[trigger] records@[n],
                fields_of(kept_lines(ls, ok, i + 1)[n]),
            ) by {
                if n < p.len() {
                    assert(kept_lines(ls, ok, i + 1)[n] == p[n]);
                }
            }
        }
        i = i + 1;
    }
    Parsed { records, skipped }
}

/// Writing the fields of a postal line with tabs between them and reading the line back
/// gives the same fields: the line is accepted, each field present is read back exactly
/// (`postal_from` over these very fields), and the optional fields past the end of a
/// shorter line read as absent.
pub proof fn lemma_postal_round_trip(f: Seq<Seq<u8>>)
    requires
        forall|k: int| 0 <= k < f.len() ==> !(#[trigger] f[k]).contains(9u8),
        postal_line_ok(f),
    ensures
        fields_of(join_bytes(f, 9)) == f,
        postal_ok(join_bytes(f, 9)),
        forall|k: int| f.len() <= k ==> #[trigger] field_text(fields_of(join_bytes(f, 9)), k) is None,
{
    lemma_split_join(f, 9);
}

} // verus!
