//! Ingestion: parsing decimal numerals into fixed point, and building the
//! training set and query points from raw rows of bytes. Any malformed or
//! short row aborts ingestion before any computation.

use vstd::prelude::*;

use crate::errors::GpError;
use crate::fixed::fx_clamp;
use crate::fixed::fx_clamp_i128;
use crate::fixed::SCALE;
use crate::matrix::Matrix;
use crate::model::TrainingSet;
use crate::model::MAX_ROWS;

verus! {

/// ASCII digit.
pub open spec fn is_digit(c: u8) -> bool {
    48 <= c <= 57
}

/// First index at or after i that does not hold a digit.
pub open spec fn digit_end(s: Seq<u8>, i: int) -> int
    decreases s.len() - i when i <= s.len()
{
    if i >= s.len() || !is_digit(s[i]) {
        i
    } else {
        digit_end(s, i + 1)
    }
}

/// Value of a string of digits, most significant first.
pub open spec fn digits_val(s: Seq<u8>) -> int
    decreases s.len(),
{
    if s.len() == 0 {
        0
    } else {
        digits_val(s.drop_last()) * 10 + (s.last() - 48)
    }
}

/// Ten to the k-th power.
pub open spec fn pow10(k: int) -> int
    decreases k,
{
    if k <= 0 {
        1
    } else {
        10 * pow10(k - 1)
    }
}

/// Value of a fractional digit string in millionths: the first six digits
/// count, the rest only have to be digits.
pub open spec fn frac_val(s: Seq<u8>) -> int {
    if s.len() > 6 {
        digits_val(s.take(6))
    } else {
        digits_val(s) * pow10(6 - s.len())
    }
}

/// Parse a decimal numeral (optional sign, digits, optional point and
/// fractional digits, at least one digit in all) into clamped fixed
/// point; `None` exactly on malformed input.
pub open spec fn parse_fx_s(s: Seq<u8>) -> Option<int> {
    if s.len() == 0 {
        Option::None
    } else {
        let neg = s[0] == 45;
        let start: int = if s[0] == 45 || s[0] == 43 {
            1
        } else {
            0
        };
        let ie = digit_end(s, start);
        if ie == s.len() {
            if ie > start {
                Option::Some(parse_signed(neg, s.subrange(start, ie), Seq::empty()))
            } else {
                Option::None
            }
        } else if s[ie] == 46 {
            let fe = digit_end(s, ie + 1);
            if fe == s.len() && (ie > start || fe > ie + 1) {
                Option::Some(parse_signed(neg, s.subrange(start, ie), s.subrange(ie + 1, fe)))
            } else {
                Option::None
            }
        } else {
            Option::None
        }
    }
}

/// The clamped signed value of an integer part and a fractional part.
pub open spec fn parse_signed(neg: bool, ip: Seq<u8>, fp: Seq<u8>) -> int {
    let mag = digits_val(ip) * (SCALE as int) + frac_val(fp);
    if neg {
        fx_clamp(-mag)
    } else {
        fx_clamp(mag)
    }
}

/// A digit string has a nonnegative value.
proof fn lemma_digits_val_nonneg(s: Seq<u8>)
    requires
        forall|t: int| 0 <= t < s.len() ==> is_digit(#[trigger] s[t]),
    ensures
        digits_val(s) >= 0,
    decreases s.len(),
{
    if s.len() > 0 {
        lemma_digits_val_nonneg(s.drop_last());
        assert(digits_val(s.drop_last()) * 10 >= 0) by (nonlinear_arith)
            requires
                digits_val(s.drop_last()) >= 0,
        ;
    }
}

/// A digit string's value is below ten to its length.
proof fn lemma_digits_val_upper(s: Seq<u8>)
    requires
        forall|t: int| 0 <= t < s.len() ==> is_digit(#[trigger] s[t]),
    ensures
        digits_val(s) < pow10(s.len() as int),
    decreases s.len(),
{
    if s.len() > 0 {
        lemma_digits_val_upper(s.drop_last());
        lemma_digits_val_nonneg(s.drop_last());
        let d = digits_val(s.drop_last());
        assert(d * 10 + (s.last() - 48) < 10 * pow10(s.len() - 1)) by (nonlinear_arith)
            requires
                0 <= d,
                d < pow10(s.len() - 1),
                s.last() - 48 <= 9,
        ;
    }
}

/// A scan that stops at the first non-digit computes `digit_end`.
proof fn lemma_digit_end_char(s: Seq<u8>, start: int, e: int)
    requires
        0 <= start <= e <= s.len(),
        forall|t: int| start <= t < e ==> is_digit(#[trigger] s[t]),
        e == s.len() || !is_digit(s[e]),
    ensures
        digit_end(s, start) == e,
    decreases e - start,
{
    if start < e {
        lemma_digit_end_char(s, start + 1, e);
    }
}

/// Appending one digit multiplies the value by ten and adds the digit.
proof fn lemma_digits_val_step(s: Seq<u8>, a: int, i: int)
    requires
        0 <= a <= i < s.len(),
    ensures
        digits_val(s.subrange(a, i + 1)) == digits_val(s.subrange(a, i)) * 10 + (s[i] - 48),
{
    assert(s.subrange(a, i + 1).drop_last() =~= s.subrange(a, i));
    assert(s.subrange(a, i + 1).last() == s[i]);
}

/// Parse one field as a fixed-point decimal.
pub fn parse_fx(field: &Vec<u8>) -> (r: Option<i64>)
    ensures
        r is Some <==> parse_fx_s(field@) is Some,
        r is Some ==> r.unwrap() as int == parse_fx_s(field@).unwrap(),
{
    let ghost s = field@;
    let n = field.len();
    if n == 0 {
        return None;
    }
    let c0 = field[0];
    let neg = c0 == 45;
    let start: usize = if c0 == 45 || c0 == 43 {
        1
    } else {
        0
    };
    // integer part
    let mut i: usize = start;
    let mut acc: i128 = 0;
    let mut sat: bool = false;
    loop
        invariant
            s == field@,
            n == field.len(),
            start <= i <= n,
            start <= 1,
            forall|t: int| start <= t < i ==> is_digit(#[trigger] s[t]),
            !sat ==> 0 <= acc < 10_000_000_000_000 && acc as int == digits_val(
                s.subrange(start as int, i as int)),
            sat ==> digits_val(s.subrange(start as int, i as int)) >= 10_000_000_000_000,
        ensures
            s == field@,
            n == field.len(),
            start <= i <= n,
            i == n || !is_digit(s[i as int]),
            forall|t: int| start <= t < i ==> is_digit(#[trigger] s[t]),
            !sat ==> 0 <= acc < 10_000_000_000_000 && acc as int == digits_val(
                s.subrange(start as int, i as int)),
            sat ==> digits_val(s.subrange(start as int, i as int)) >= 10_000_000_000_000,
        decreases n - i,
    {
        if i >= n {
            break;
        }
        let c = field[i];
        if c < 48 || c > 57 {
            break;
        }
        proof {
            lemma_digits_val_step(s, start as int, i as int);
            lemma_digits_val_nonneg(s.subrange(start as int, i as int));
        }
        if !sat {
            let a2: i128 = acc * 10 + ((c - 48) as i128);
            if a2 >= 10_000_000_000_000 {
                sat = true;
                acc = 0;
            } else {
                acc = a2;
            }
        } else {
            proof {
                assert(digits_val(s.subrange(start as int, i as int)) * 10 + (s[i as int] - 48)
                    >= 10_000_000_000_000) by (nonlinear_arith)
                    requires
                        digits_val(s.subrange(start as int, i as int)) >= 10_000_000_000_000,
                        s[i as int] >= 48,
                ;
            }
        }
        i = i + 1;
    }
    proof {
        lemma_digit_end_char(s, start as int, i as int);
    }
    let ghost ip = s.subrange(start as int, i as int);
    if i == n {
        if i > start {
            Some(assemble(neg, acc, sat, 0, Ghost(ip), Ghost(Seq::empty())))
        } else {
            None
        }
    } else if field[i] == 46 {
        // fractional part: the first six digits carry value
        let fstart = i + 1;
        let mut j: usize = fstart;
        let mut facc: i64 = 0;
        loop
            invariant
                s == field@,
                n == field.len(),
                fstart == i + 1,
                i < n,
                fstart <= j <= n,
                j <= fstart + 6,
                forall|t: int| fstart <= t < j ==> is_digit(#[trigger] s[t]),
                0 <= facc < 1_000_000,
                facc as int == digits_val(s.subrange(fstart as int, j as int)),
            ensures
                s == field@,
                n == field.len(),
                fstart == i + 1,
                fstart <= j <= n,
                j <= fstart + 6,
                j == n || j == fstart + 6 || !is_digit(s[j as int]),
                forall|t: int| fstart <= t < j ==> is_digit(#[trigger] s[t]),
                0 <= facc < 1_000_000,
                facc as int == digits_val(s.subrange(fstart as int, j as int)),
            decreases n - j,
        {
            if j >= n || j - fstart >= 6 {
                break;
            }
            let c = field[j];
            if c < 48 || c > 57 {
                break;
            }
            proof {
                lemma_digits_val_step(s, fstart as int, j as int);
                lemma_digits_val_nonneg(s.subrange(fstart as int, j as int));
                lemma_digits_val_upper(s.subrange(fstart as int, j as int));
                assert(pow10(0) == 1);
                assert(pow10(1) == 10);
                assert(pow10(2) == 100);
                assert(pow10(3) == 1000);
                assert(pow10(4) == 10000);
                assert(pow10(5) == 100000);
            }
            facc = facc * 10 + ((c - 48) as i64);
            j = j + 1;
        }
        // any further characters must still be digits
        let mut k: usize = j;
        loop
            invariant
                s == field@,
                n == field.len(),
                j <= k <= n,
                forall|t: int| j <= t < k ==> is_digit(#[trigger] s[t]),
            ensures
                s == field@,
                n == field.len(),
                j <= k <= n,
                k == n || !is_digit(s[k as int]),
                forall|t: int| j <= t < k ==> is_digit(#[trigger] s[t]),
            decreases n - k,
        {
            if k >= n {
                break;
            }
            let c = field[k];
            if c < 48 || c > 57 {
                break;
            }
            k = k + 1;
        }
        proof {
            lemma_digit_end_char(s, fstart as int, k as int);
        }
        if k < n {
            return None;
        }
        if i == start && j == fstart {
            return None;
        }
        // scale the collected fractional digits to millionths
        let cnt = j - fstart;
        let mult: i64 = if cnt == 0 {
            1_000_000
        } else if cnt == 1 {
            100_000
        } else if cnt == 2 {
            10_000
        } else if cnt == 3 {
            1_000
        } else if cnt == 4 {
            100
        } else if cnt == 5 {
            10
        } else {
            1
        };
        let ghost fp = s.subrange(fstart as int, n as int);
        proof {
            assert(forall|t: int| fstart <= t < n ==> is_digit(#[trigger] s[t]));
            if fp.len() > 6 {
                assert(j < n);
                assert(is_digit(s[j as int]));
                assert(j == fstart + 6);
                assert(fp.take(6) =~= s.subrange(fstart as int, fstart as int + 6));
                assert(facc as int == digits_val(fp.take(6)));
            } else {
                assert(j == n);
                assert(s.subrange(fstart as int, j as int) =~= fp);
            }
            assert(pow10(0) == 1);
            assert(pow10(1) == 10);
            assert(pow10(2) == 100);
            assert(pow10(3) == 1000);
            assert(pow10(4) == 10000);
            assert(pow10(5) == 100000);
            assert(pow10(6) == 1000000);
            assert(0 <= (facc as int) * (mult as int) <= 1_000_000_000_000int)
                by (nonlinear_arith)
                requires
                    0 <= (facc as int) < 1_000_000,
                    1 <= (mult as int) <= 1_000_000,
            ;
        }
        let fscaled = facc * mult;
        Some(assemble(neg, acc, sat, fscaled, Ghost(ip), Ghost(fp)))
    } else {
        None
    }
}

/// Assemble the signed clamped value from the scanned parts.
fn assemble(neg: bool, acc: i128, sat: bool, fscaled: i64, Ghost(ip): Ghost<Seq<u8>>, Ghost(fp): Ghost<
    Seq<u8>>) -> (r: i64)
    requires
        !sat ==> 0 <= acc < 10_000_000_000_000 && acc as int == digits_val(ip),
        sat ==> digits_val(ip) >= 10_000_000_000_000,
        0 <= fscaled <= 1_000_000_000_000,
        fscaled as int == frac_val(fp),
    ensures
        r as int == parse_signed(neg, ip, fp),
{
    if sat {
        proof {
            assert(digits_val(ip) * (SCALE as int) >= 10_000_000_000_000_000_000)
                by (nonlinear_arith)
                requires
                    digits_val(ip) >= 10_000_000_000_000,
                    (SCALE as int) == 1_000_000,
            ;
        }
        if neg {
            -crate::fixed::FX_MAX
        } else {
            crate::fixed::FX_MAX
        }
    } else {
        proof {
            assert(0 <= (acc as int) * (SCALE as int) <= 10_000_000_000_000_000_000_000)
                by (nonlinear_arith)
                requires
                    0 <= (acc as int) < 10_000_000_000_000,
                    (SCALE as int) == 1_000_000,
            ;
        }
        let mag: i128 = acc * (SCALE as i128) + (fscaled as i128);
        let v = if neg {
            fx_clamp_i128(-mag)
        } else {
            fx_clamp_i128(mag)
        };
        v
    }
}

/// A training row: exactly three fields (x, y, target), each a numeral.
pub open spec fn train_row_ok(row: Seq<Vec<u8>>) -> bool {
    &&& row.len() == 3
    &&& parse_fx_s(row[0]@) is Some
    &&& parse_fx_s(row[1]@) is Some
    &&& parse_fx_s(row[2]@) is Some
}

/// The first offending field of a bad training row.
pub open spec fn train_bad_field(row: Seq<Vec<u8>>) -> int {
    if row.len() < 3 {
        row.len() as int
    } else if row.len() > 3 {
        3
    } else if parse_fx_s(row[0]@) is None {
        0
    } else if parse_fx_s(row[1]@) is None {
        1
    } else {
        2
    }
}

/// The training set holds exactly the parsed values of the rows.
pub open spec fn ts_matches(ts: TrainingSet, rows: Seq<Vec<Vec<u8>>>) -> bool {
    &&& ts.wf()
    &&& ts.x.rows == rows.len()
    &&& ts.x.cols == 2
    &&& forall|i: int|
        0 <= i < rows.len() ==> #[trigger] ts.x.at(i, 0) == parse_fx_s(rows[i]@[0]@).unwrap()
    &&& forall|i: int|
        0 <= i < rows.len() ==> #[trigger] ts.x.at(i, 1) == parse_fx_s(rows[i]@[1]@).unwrap()
    &&& forall|i: int|
        0 <= i < rows.len() ==> #[trigger] ts.y[i] as int == parse_fx_s(rows[i]@[2]@).unwrap()
}

/// Build the training set from raw rows; the first malformed or short row
/// aborts with `IngestionError` and no training set is produced.
pub fn ingest_training(rows: &Vec<Vec<Vec<u8>>>) -> (res: Result<TrainingSet, GpError>)
    ensures
        match res {
            Ok(ts) => {
                &&& 1 <= rows.len() <= MAX_ROWS
                &&& forall|i: int| 0 <= i < rows.len() ==> train_row_ok(#[trigger] rows[i]@)
                &&& ts_matches(ts, rows@)
            },
            Err(e) => {
                ||| (rows.len() == 0 && e == (GpError::IngestionError { row: 0, field: 0 }))
                ||| (rows.len() > MAX_ROWS && e == (GpError::IngestionError {
                    row: MAX_ROWS,
                    field: 0,
                }))
                ||| exists|i: int|
                    {
                        &&& 0 <= i < rows.len()
                        &&& !train_row_ok(#[trigger] rows[i]@)
                        &&& forall|t: int| 0 <= t < i ==> train_row_ok(#[trigger] rows[t]@)
                        &&& e == (GpError::IngestionError {
                            row: i as usize,
                            field: train_bad_field(rows[i]@) as usize,
                        })
                    }
            },
        },
{
    let n = rows.len();
    if n == 0 {
        return Err(GpError::IngestionError { row: 0, field: 0 });
    }
    if n > MAX_ROWS {
        return Err(GpError::IngestionError { row: MAX_ROWS, field: 0 });
    }
    let mut x = Matrix::zero(n, 2);
    let mut y: Vec<i64> = Vec::new();
    let mut i: usize = 0;
    while i < n
        invariant
            n == rows.len(),
            1 <= n <= MAX_ROWS,
            i <= n,
            x.wf(),
            x.rows == n,
            x.cols == 2,
            y.len() == i,
            forall|t: int| 0 <= t < i ==> train_row_ok(#[trigger] rows[t]@),
            forall|t: int|
                0 <= t < i ==> #[trigger] x.at(t, 0) == parse_fx_s(rows[t]@[0]@).unwrap(),
            forall|t: int|
                0 <= t < i ==> #[trigger] x.at(t, 1) == parse_fx_s(rows[t]@[1]@).unwrap(),
            forall|t: int|
                0 <= t < i ==> #[trigger] y[t] as int == parse_fx_s(rows[t]@[2]@).unwrap(),
        decreases n - i,
    {
        let row = &rows[i];
        if row.len() != 3 {
            return Err(GpError::IngestionError {
                row: i,
                field: if row.len() < 3 {
                    row.len()
                } else {
                    3
                },
            });
        }
        let v0 = parse_fx(&row[0]);
        let v0 = match v0 {
            Some(v) => v,
            None => {
                return Err(GpError::IngestionError { row: i, field: 0 });
            },
        };
        let v1 = parse_fx(&row[1]);
        let v1 = match v1 {
            Some(v) => v,
            None => {
                return Err(GpError::IngestionError { row: i, field: 1 });
            },
        };
        let v2 = parse_fx(&row[2]);
        let v2 = match v2 {
            Some(v) => v,
            None => {
                return Err(GpError::IngestionError { row: i, field: 2 });
            },
        };
        x.put(i, 0, v0);
        x.put(i, 1, v1);
        y.push(v2);
        i = i + 1;
    }
    Ok(TrainingSet::new(x, y))
}

/// A query row: exactly two coordinate fields, each a numeral.
pub open spec fn query_row_ok(row: Seq<Vec<u8>>) -> bool {
    &&& row.len() == 2
    &&& parse_fx_s(row[0]@) is Some
    &&& parse_fx_s(row[1]@) is Some
}

/// The parsed query points match the raw rows.
pub open spec fn queries_match(qs: Seq<Vec<i64>>, rows: Seq<Vec<Vec<u8>>>) -> bool {
    &&& qs.len() == rows.len()
    &&& forall|i: int| 0 <= i < rows.len() ==> #[trigger] qs[i]@.len() == 2
    &&& forall|i: int|
        0 <= i < rows.len() ==> #[trigger] qs[i][0] as int == parse_fx_s(rows[i]@[0]@).unwrap()
    &&& forall|i: int|
        0 <= i < rows.len() ==> #[trigger] qs[i][1] as int == parse_fx_s(rows[i]@[1]@).unwrap()
}

/// Parse query rows into points. A row of the wrong arity is a
/// `DimensionMismatch`; a non-numeric field is an `IngestionError`; the
/// first offence aborts the batch.
pub fn ingest_queries(rows: &Vec<Vec<Vec<u8>>>) -> (res: Result<Vec<Vec<i64>>, GpError>)
    ensures
        match res {
            Ok(qs) => {
                &&& forall|i: int| 0 <= i < rows.len() ==> query_row_ok(#[trigger] rows[i]@)
                &&& queries_match(qs@, rows@)
            },
            Err(e) => exists|i: int|
                {
                    &&& 0 <= i < rows.len()
                    &&& !query_row_ok(#[trigger] rows[i]@)
                    &&& forall|t: int| 0 <= t < i ==> query_row_ok(#[trigger] rows[t]@)
                    &&& if rows[i]@.len() != 2 {
                        e == (GpError::DimensionMismatch { expected: 2, actual: rows[i]@.len() as usize })
                    } else {
                        e == (GpError::IngestionError {
                            row: i as usize,
                            field: if parse_fx_s(rows[i]@[0]@) is None {
                                0
                            } else {
                                1
                            },
                        })
                    }
                },
        },
{
    let n = rows.len();
    let mut qs: Vec<Vec<i64>> = Vec::new();
    let mut i: usize = 0;
    while i < n
        invariant
            n == rows.len(),
            i <= n,
            qs.len() == i,
            forall|t: int| 0 <= t < i ==> query_row_ok(#[trigger] rows[t]@),
            forall|t: int| 0 <= t < i ==> #[trigger] qs[t]@.len() == 2,
            forall|t: int|
                0 <= t < i ==> #[trigger] qs[t][0] as int == parse_fx_s(rows[t]@[0]@).unwrap(),
            forall|t: int|
                0 <= t < i ==> #[trigger] qs[t][1] as int == parse_fx_s(rows[t]@[1]@).unwrap(),
        decreases n - i,
    {
        let row = &rows[i];
        if row.len() != 2 {
            return Err(GpError::DimensionMismatch { expected: 2, actual: row.len() });
        }
        let v0 = match parse_fx(&row[0]) {
            Some(v) => v,
            None => {
                return Err(GpError::IngestionError { row: i, field: 0 });
            },
        };
        let v1 = match parse_fx(&row[1]) {
            Some(v) => v,
            None => {
                return Err(GpError::IngestionError { row: i, field: 1 });
            },
        };
        let mut q: Vec<i64> = Vec::new();
        q.push(v0);
        q.push(v1);
        qs.push(q);
        i = i + 1;
    }
    Ok(qs)
}

} // verus!
