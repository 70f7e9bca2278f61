//! Byte-level helpers on UTF-8 text: equality, splitting at an ASCII delimiter, and numbers.
use vstd::prelude::*;
use vstd::string::StringSliceAdditionalSpecFns;
use vstd::utf8::*;

verus! {

broadcast use {encode_utf8_decode_utf8, encode_utf8_valid_utf8};

/// The characters that a UTF-8 byte sequence encodes.
pub open spec fn text_of(b: Seq<u8>) -> Seq<char> {
    decode_utf8(b)
}

/// True when the two strings hold the same characters.
pub fn text_eq(a: &str, b: &str) -> (r: bool)
    ensures
        r == (a@ == b@),
{
    let x = a.as_bytes();
    let y = b.as_bytes();
    if x.len() != y.len() {
        proof {
            if a@ == b@ {
                assert(x@ == y@);
            }
        }
        return false;
    }
    let mut i: usize = 0;
    while i < x.len()
        invariant
            x@ == a.spec_bytes(),
            y@ == b.spec_bytes(),
            x@.len() == y@.len(),
            i <= x@.len(),
            forall|k: int| 0 <= k < i ==> x@[k] == y@[k],
        decreases x@.len() - i,
    {
        if x[i] != y[i] {
            proof {
                if a@ == b@ {
                    assert(x@ == y@);
                }
            }
            return false;
        }
        i = i + 1;
    }
    proof {
        assert(x@ =~= y@);
        assert(decode_utf8(encode_utf8(a@)) == a@);
        assert(decode_utf8(encode_utf8(b@)) == b@);
    }
    true
}

/// The pieces of `b` between occurrences of the byte `d`: one more piece than there are `d`s.
pub open spec fn split_bytes(b: Seq<u8>, d: u8) -> Seq<Seq<u8>>
    decreases b.len(),
{
    if b.len() == 0 {
        seq![seq![]]
    } else {
        let p = split_bytes(b.drop_last(), d);
        if b.last() == d {
            p.push(seq![])
        } else {
            p.update(p.len() - 1, p.last().push(b.last()))
        }
    }
}

proof fn lemma_split_bytes_nonempty(b: Seq<u8>, d: u8)
    ensures
        split_bytes(b, d).len() >= 1,
    decreases b.len(),
{
    if b.len() > 0 {
        lemma_split_bytes_nonempty(b.drop_last(), d);
    }
}

proof fn lemma_ascii_boundary(t: Seq<u8>)
    requires
        valid_utf8(t),
        t.len() > 0,
        t[0] < 0x80,
    ensures
        is_char_boundary(t, 1),
{
    reveal_with_fuel(is_char_boundary, 2);
    assert(length_of_first_scalar(t) == 1);
    assert(pop_first_scalar(t) =~= t.subrange(1, t.len() as int));
}

/// Splits `s` at every occurrence of the ASCII byte `d`.
pub fn split_text<'a>(s: &'a str, d: u8) -> (r: Vec<&'a str>)
    requires
        d < 0x80,
    ensures
        r@.map_values(|f: &str| f.spec_bytes()) == split_bytes(s.spec_bytes(), d),
{
    let bytes = s.as_bytes();
    let mut out: Vec<&'a str> = Vec::new();
    let mut rest: &'a str = s;
    let mut start: usize = 0;
    let mut i: usize = 0;
    proof {
        assert(bytes@.subrange(0, 0) =~= seq![]);
        assert(bytes@.subrange(0, bytes@.len() as int) =~= bytes@);
        assert(out@.map_values(|f: &str| f.spec_bytes()).push(bytes@.subrange(0, 0)) =~= seq![
            seq![],
        ]);
    }
    while i < bytes.len()
        invariant
            d < 0x80,
            bytes@ == s.spec_bytes(),
            start <= i <= bytes@.len(),
            rest.spec_bytes() == bytes@.subrange(start as int, bytes@.len() as int),
            split_bytes(bytes@.subrange(0, i as int), d) == out@.map_values(
                |f: &str| f.spec_bytes(),
            ).push(bytes@.subrange(start as int, i as int)),
        decreases bytes@.len() - i,
    {
        let ghost prev = bytes@.subrange(0, i as int);
        let ghost next = bytes@.subrange(0, i + 1);
        proof {
            assert(next.drop_last() =~= prev);
            assert(next.last() == bytes@[i as int]);
        }
        if bytes[i] == d {
            let ghost rb = rest.spec_bytes();
            proof {
                assert(valid_utf8(rb));
                assert(rb[i - start] == d);
                is_char_boundary_iff_not_is_continuation_byte(rb, i - start);
            }
            let (field, tail) = rest.split_at(i - start);
            proof {
                let tb = tail.spec_bytes();
                assert(valid_utf8(tb));
                assert(tb[0] == d);
                lemma_ascii_boundary(tb);
            }
            let (_, after) = tail.split_at(1);
            proof {
                assert(field.spec_bytes() =~= bytes@.subrange(start as int, i as int));
                assert(after.spec_bytes() =~= bytes@.subrange(i + 1, bytes@.len() as int));
            }
            out.push(field);
            rest = after;
            start = i + 1;
            proof {
                assert(bytes@.subrange(start as int, i + 1) =~= seq![]);
                assert(split_bytes(next, d) =~= out@.map_values(|f: &str| f.spec_bytes()).push(
                    bytes@.subrange(start as int, i + 1),
                ));
            }
        } else {
            proof {
                assert(bytes@.subrange(start as int, i + 1) =~= bytes@.subrange(
                    start as int,
                    i as int,
                ).push(bytes@[i as int]));
                assert(split_bytes(next, d) =~= out@.map_values(|f: &str| f.spec_bytes()).push(
                    bytes@.subrange(start as int, i + 1),
                ));
            }
        }
        i = i + 1;
    }
    out.push(rest);
    proof {
        assert(bytes@.subrange(0, bytes@.len() as int) =~= bytes@);
        assert(out@.map_values(|f: &str| f.spec_bytes()) =~= split_bytes(s.spec_bytes(), d));
    }
    out
}

/// `b` without one trailing carriage return.
pub open spec fn without_cr(b: Seq<u8>) -> Seq<u8> {
    if b.len() > 0 && b.last() == 13 {
        b.drop_last()
    } else {
        b
    }
}

/// `s` without one trailing carriage return.
pub fn trim_cr<'a>(s: &'a str) -> (r: &'a str)
    ensures
        r.spec_bytes() == without_cr(s.spec_bytes()),
{
    let bytes = s.as_bytes();
    let n = bytes.len();
    if n > 0 && bytes[n - 1] == 13 {
        proof {
            let sb = s.spec_bytes();
            assert(valid_utf8(sb));
            is_char_boundary_iff_not_is_continuation_byte(sb, n - 1);
        }
        let (head, _) = s.split_at(n - 1);
        proof {
            assert(head.spec_bytes() =~= s.spec_bytes().drop_last());
        }
        head
    } else {
        s
    }
}

pub open spec fn is_digit(c: u8) -> bool {
    48 <= c <= 57
}

pub open spec fn all_digits(b: Seq<u8>) -> bool {
    forall|i: int| 0 <= i < b.len() ==> is_digit(#[trigger] b[i])
}

/// The number that a run of decimal digits writes.
pub open spec fn digits_value(b: Seq<u8>) -> nat
    decreases b.len(),
{
    if b.len() == 0 {
        0
    } else {
        digits_value(b.drop_last()) * 10 + (b.last() - 48) as nat
    }
}

pub open spec fn pow10(n: nat) -> nat
    decreases n,
{
    if n == 0 {
        1
    } else {
        10 * pow10((n - 1) as nat)
    }
}

/// `b` without a leading sign.
pub open spec fn unsigned_part(b: Seq<u8>) -> Seq<u8> {
    if b.len() > 0 && (b[0] == 45 || b[0] == 43) {
        b.drop_first()
    } else {
        b
    }
}

/// `b` begins with a minus sign.
pub open spec fn is_negative(b: Seq<u8>) -> bool {
    b.len() > 0 && b[0] == 45
}

/// The integer that `b` writes: an optional sign, then one or more decimal digits.
pub open spec fn integer_of(b: Seq<u8>) -> Option<int> {
    let ds = unsigned_part(b);
    if ds.len() > 0 && all_digits(ds) {
        Some(
            if is_negative(b) {
                -digits_value(ds)
            } else {
                digits_value(ds) as int
            },
        )
    } else {
        None
    }
}

proof fn lemma_digits_prefix_le(b: Seq<u8>, k: int)
    requires
        0 <= k <= b.len(),
        all_digits(b),
    ensures
        digits_value(b.subrange(0, k)) <= digits_value(b),
    decreases b.len(),
{
    if k < b.len() {
        lemma_digits_prefix_le(b.drop_last(), k);
        assert(b.drop_last().subrange(0, k) =~= b.subrange(0, k));
        assert(is_digit(b[b.len() - 1]));
    } else {
        assert(b.subrange(0, k) =~= b);
    }
}

proof fn lemma_digits_step(b: Seq<u8>, k: int)
    requires
        0 <= k < b.len(),
    ensures
        digits_value(b.subrange(0, k + 1)) == digits_value(b.subrange(0, k)) * 10 + (b[k] - 48) as nat,
{
    assert(b.subrange(0, k + 1).drop_last() =~= b.subrange(0, k));
}

/// Reads `b` as a run of decimal digits, stopping once the value passes `limit`: the value
/// when every byte is a digit and the value is at most `limit`.
fn read_digits(b: &[u8], limit: u128) -> (r: Option<u128>)
    requires
        limit < 0x1_0000_0000_0000_0000,
    ensures
        match r {
            Some(v) => all_digits(b@) && v == digits_value(b@) && v <= limit,
            None => !all_digits(b@) || digits_value(b@) > limit,
        },
{
    let mut acc: u128 = 0;
    let mut k: usize = 0;
    while k < b.len()
        invariant
            limit < 0x1_0000_0000_0000_0000,
            k <= b@.len(),
            all_digits(b@.subrange(0, k as int)),
            acc == digits_value(b@.subrange(0, k as int)),
            acc <= limit,
        decreases b@.len() - k,
    {
        let c = b[k];
        if c < 48 || c > 57 {
            proof {
                assert(!is_digit(b@[k as int]));
            }
            return None;
        }
        proof {
            lemma_digits_step(b@, k as int);
        }
        acc = acc * 10 + (c - 48) as u128;
        proof {
            assert forall|i: int| 0 <= i < k + 1 implies is_digit(
                #[trigger] b@.subrange(0, k + 1)[i],
            ) by {
                if i < k {
                    assert(b@.subrange(0, k + 1)[i] == b@.subrange(0, k as int)[i]);
                }
            }
        }
        k = k + 1;
        if acc > limit {
            proof {
                if all_digits(b@) {
                    lemma_digits_prefix_le(b@, k as int);
                }
            }
            return None;
        }
    }
    proof {
        assert(b@.subrange(0, b@.len() as int) =~= b@);
    }
    Some(acc)
}

/// Reads a signed decimal integer as `i64` does: an optional sign and one or more digits,
/// nothing else; `None` when the text is not such a number or the value does not fit.
pub fn parse_integer(s: &str) -> (r: Option<i64>)
    ensures
        r == (match integer_of(s.spec_bytes()) {
            Some(v) => if i64::MIN <= v <= i64::MAX {
                Some(v as i64)
            } else {
                None
            },
            None => None,
        }),
{
    let b = s.as_bytes();
    let n = b.len();
    let negative = n > 0 && b[0] == 45;
    let signed = n > 0 && (b[0] == 45 || b[0] == 43);
    let (_, ds) = if signed {
        b.split_at(1)
    } else {
        b.split_at(0)
    };
    proof {
        assert(ds@ =~= unsigned_part(b@));
    }
    if ds.len() == 0 {
        return None;
    }
    let limit: u128 = if negative {
        0x8000_0000_0000_0000
    } else {
        0x7fff_ffff_ffff_ffff
    };
    match read_digits(ds, limit) {
        Some(v) => {
            if negative {
                if v == 0x8000_0000_0000_0000 {
                    Some(i64::MIN)
                } else {
                    Some(-(v as i64))
                }
            } else {
                Some(v as i64)
            }
        },
        None => None,
    }
}

/// The first seven digits after the decimal point as a count of ten-millionths: shorter
/// fractions are padded with zeros, longer ones cut.
pub open spec fn frac_e7(f: Seq<u8>) -> nat {
    if f.len() >= 7 {
        digits_value(f.subrange(0, 7))
    } else {
        digits_value(f) * pow10((7 - f.len()) as nat)
    }
}

/// The value, in ten-millionths, that `b` writes as a decimal number: an optional sign, one or
/// more digits, then optionally a point and one or more digits.
pub open spec fn decimal_e7(b: Seq<u8>) -> Option<int> {
    let parts = split_bytes(unsigned_part(b), 46);
    let ip = parts[0];
    if ip.len() > 0 && all_digits(ip) && (parts.len() == 1 || (parts.len() == 2 && parts[1].len()
        > 0 && all_digits(parts[1]))) {
        let mag = digits_value(ip) * 10_000_000 + if parts.len() == 2 {
            frac_e7(parts[1])
        } else {
            0
        };
        Some(
            if is_negative(b) {
                -mag
            } else {
                mag as int
            },
        )
    } else {
        None
    }
}

fn check_digits(b: &[u8]) -> (r: bool)
    ensures
        r == all_digits(b@),
{
    let mut k: usize = 0;
    while k < b.len()
        invariant
            k <= b@.len(),
            forall|i: int| 0 <= i < k ==> is_digit(#[trigger] b@[i]),
        decreases b@.len() - k,
    {
        if b[k] < 48 || b[k] > 57 {
            return false;
        }
        k = k + 1;
    }
    true
}

fn fraction_e7(f: &[u8]) -> (r: Option<i64>)
    ensures
        match r {
            Some(v) => all_digits(f@) && v == frac_e7(f@) && v < 10_000_000,
            None => !all_digits(f@),
        },
{
    let m: usize = if f.len() >= 7 {
        7
    } else {
        f.len()
    };
    let (head, tail) = f.split_at(m);
    if !check_digits(tail) {
        proof {
            let i = choose|i: int| 0 <= i < tail@.len() && !is_digit(#[trigger] tail@[i]);
            assert(f@[m + i] == tail@[i]);
        }
        return None;
    }
    match read_digits(head, 9_999_999) {
        None => {
            proof {
                if all_digits(f@) {
                    assert forall|i: int| 0 <= i < head@.len() implies is_digit(
                        #[trigger] head@[i],
                    ) by {
                        assert(head@[i] == f@[i]);
                    }
                    lemma_digits_bound(head@);
                    lemma_pow10_le7(head@.len());
                }
            }
            None
        },
        Some(v) => {
            proof {
                assert forall|i: int| 0 <= i < f@.len() implies is_digit(#[trigger] f@[i]) by {
                    if i < m {
                        assert(f@[i] == head@[i]);
                    } else {
                        assert(f@[i] == tail@[i - m]);
                    }
                }
            }
            proof {
                lemma_digits_bound(head@);
                assert(pow10(0) == 1);
                assert(v * pow10(0) == v) by (nonlinear_arith)
                    requires
                        pow10(0) == 1,
                ;
            }
            let mut w: u64 = v as u64;
            let mut j: usize = m;
            while j < 7
                invariant
                    m <= j <= 7,
                    v == digits_value(head@),
                    w == v * pow10((j - m) as nat),
                    w < pow10(j as nat),
                    m == head@.len(),
                decreases 7 - j,
            {
                proof {
                    lemma_pow10_le7(j as nat);
                    assert(pow10((j + 1) as nat) == 10 * pow10(j as nat));
                    assert(pow10((j + 1 - m) as nat) == 10 * pow10((j - m) as nat));
                    assert(v * pow10((j + 1 - m) as nat) == (v * pow10((j - m) as nat)) * 10)
                        by (nonlinear_arith)
                        requires
                            pow10((j + 1 - m) as nat) == 10 * pow10((j - m) as nat),
                    ;
                }
                w = w * 10;
                j = j + 1;
            }
            proof {
                lemma_pow10_le7(7);
                assert(w == v * pow10((7 - m) as nat));
                if m == 7 {
                    assert(head@ =~= f@.subrange(0, 7));
                    assert(w == v);
                    assert(frac_e7(f@) == digits_value(head@));
                } else {
                    assert(head@ =~= f@);
                    assert(frac_e7(f@) == digits_value(head@) * pow10((7 - m) as nat));
                }
                assert(all_digits(f@));
                assert(w == frac_e7(f@));
                assert(w < 10_000_000);
            }
            Some(w as i64)
        },
    }
}

proof fn lemma_pow10_pos(n: nat)
    ensures
        pow10(n) >= 1,
    decreases n,
{
    if n > 0 {
        lemma_pow10_pos((n - 1) as nat);
    }
}

proof fn lemma_pow10_le7(n: nat)
    requires
        n <= 7,
    ensures
        pow10(n) <= 10_000_000,
{
    reveal_with_fuel(pow10, 8);
}

proof fn lemma_digits_bound(b: Seq<u8>)
    requires
        all_digits(b),
    ensures
        digits_value(b) < pow10(b.len()),
    decreases b.len(),
{
    if b.len() > 0 {
        let p = b.drop_last();
        assert(all_digits(p)) by {
            assert forall|i: int| 0 <= i < p.len() implies is_digit(#[trigger] p[i]) by {
                assert(p[i] == b[i]);
            }
        }
        lemma_digits_bound(p);
        assert(is_digit(b[b.len() - 1]));
        assert(pow10(b.len()) == 10 * pow10(p.len()));
    }
}

/// Reads a decimal number as a count of ten-millionths, accepted only where its magnitude is
/// at most `limit`.
pub fn parse_decimal_e7(s: &str, limit: i64) -> (r: Option<i64>)
    requires
        0 <= limit <= 1_800_000_000,
    ensures
        r == (match decimal_e7(s.spec_bytes()) {
            Some(v) => if -limit <= v <= limit {
                Some(v as i64)
            } else {
                None
            },
            None => None,
        }),
{
    let b = s.as_bytes();
    let n = b.len();
    let negative = n > 0 && b[0] == 45;
    let signed = n > 0 && (b[0] == 45 || b[0] == 43);
    let body: &str = if signed {
        proof {
            lemma_ascii_boundary(s.spec_bytes());
        }
        let (_, t) = s.split_at(1);
        t
    } else {
        s
    };
    proof {
        assert(body.spec_bytes() =~= unsigned_part(s.spec_bytes()));
    }
    let parts = split_text(body, 46);
    proof {
        lemma_split_bytes_nonempty(body.spec_bytes(), 46);
        assert(parts@.map_values(|f: &str| f.spec_bytes())[0] == parts@[0].spec_bytes());
    }
    if parts.len() > 2 {
        return None;
    }
    let ip = parts[0].as_bytes();
    if ip.len() == 0 {
        return None;
    }
    let whole = match read_digits(ip, (limit / 10_000_000) as u128) {
        Some(v) => v as i64,
        None => {
            proof {
                if all_digits(ip@) {
                    assert(digits_value(ip@) * 10_000_000 > limit) by (nonlinear_arith)
                        requires
                            digits_value(ip@) > limit / 10_000_000,
                            limit >= 0,
                    ;
                }
            }
            return None;
        },
    };
    let frac: i64 = if parts.len() == 2 {
        proof {
            assert(parts@.map_values(|f: &str| f.spec_bytes())[1] == parts@[1].spec_bytes());
        }
        let fb = parts[1].as_bytes();
        if fb.len() == 0 {
            return None;
        }
        match fraction_e7(fb) {
            Some(v) => v,
            None => {
                return None;
            },
        }
    } else {
        0
    };
    let mag: i64 = whole * 10_000_000 + frac;
    if mag > limit {
        return None;
    }
    if negative {
        Some(-mag)
    } else {
        Some(mag)
    }
}

/// The pieces written one after another with the byte `d` between each two.
pub open spec fn join_bytes(parts: Seq<Seq<u8>>, d: u8) -> Seq<u8>
    decreases parts.len(),
{
    if parts.len() <= 1 {
        if parts.len() == 1 {
            parts[0]
        } else {
            seq![]
        }
    } else {
        join_bytes(parts.drop_last(), d) + seq![d] + parts.last()
    }
}

proof fn lemma_split_without(b: Seq<u8>, d: u8, prefix: Seq<u8>)
    requires
        !b.contains(d),
    ensures
        split_bytes(prefix + seq![d] + b, d) == split_bytes(prefix, d).push(b),
        split_bytes(b, d) == seq![b],
    decreases b.len(),
{
    if b.len() == 0 {
        assert(prefix + seq![d] + b =~= prefix.push(d));
        assert((prefix.push(d)).drop_last() =~= prefix);
        assert(b =~= seq![]);
        assert(split_bytes(prefix.push(d), d) == split_bytes(prefix, d).push(seq![]));
    } else {
        let c = b.last();
        let b0 = b.drop_last();
        assert(!b0.contains(d)) by {
            if b0.contains(d) {
                let i = choose|i: int| 0 <= i < b0.len() && b0[i] == d;
                assert(b[i] == d);
            }
        }
        assert(c != d) by {
            assert(b[b.len() - 1] == c);
        }
        lemma_split_without(b0, d, prefix);
        let whole = prefix + seq![d] + b;
        assert(whole.drop_last() =~= prefix + seq![d] + b0);
        assert(b0.push(c) =~= b);
        lemma_split_bytes_nonempty(prefix, d);
        assert(b.drop_last() =~= b0);
        assert(whole.last() == c);
        let p = split_bytes(whole.drop_last(), d);
        assert(p == split_bytes(prefix, d).push(b0));
        assert(p.update(p.len() - 1, p.last().push(c)) =~= split_bytes(prefix, d).push(b));
        let q = split_bytes(b0, d);
        assert(q == seq![b0]);
        assert(q.update(q.len() - 1, q.last().push(c)) =~= seq![b]);
    }
}

/// Splitting at `d` undoes joining with `d`, when no piece holds a `d`.
pub proof fn lemma_split_join(parts: Seq<Seq<u8>>, d: u8)
    requires
        parts.len() >= 1,
        forall|k: int| 0 <= k < parts.len() ==> !(#[trigger] parts[k]).contains(d),
    ensures
        split_bytes(join_bytes(parts, d), d) == parts,
    decreases parts.len(),
{
    if parts.len() == 1 {
        lemma_split_without(parts[0], d, seq![]);
        assert(seq![parts[0]] =~= parts);
    } else {
        let init = parts.drop_last();
        assert forall|k: int| 0 <= k < init.len() implies !(#[trigger] init[k]).contains(d) by {
            assert(init[k] == parts[k]);
        }
        lemma_split_join(init, d);
        assert(!parts[parts.len() - 1].contains(d));
        lemma_split_without(parts.last(), d, join_bytes(init, d));
        assert(init.push(parts.last()) =~= parts);
    }
}

} // verus!
