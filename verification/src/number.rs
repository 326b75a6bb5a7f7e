use vstd::prelude::*;

verus! {

use vstd::string::StringSliceAdditionalSpecFns;

/// Why a byte string could not be read as a decimal numeral.
#[derive(PartialEq, Eq, Structural, Debug, Clone, Hash)]
pub enum NumberParseError {
    /// A byte that is not a digit, a sign, or a point at its expected
    /// position, reported with its value and zero-based index.
    UnexpectedChar { unexpected_byte: u8, pos: usize },
    /// The input ends where digits were still required: a lone sign, or a
    /// decimal point with nothing after it.
    IncompleteInput,
    /// The input is empty.
    EmptyString,
}

/// ASCII byte values the numeral grammar speaks of.
pub const ZERO: u8 = 48;

pub const NINE: u8 = 57;

pub const PLUS: u8 = 43;

pub const MINUS: u8 = 45;

pub const POINT: u8 = 46;

/// An ASCII decimal digit.
pub open spec fn is_digit_byte(b: u8) -> bool {
    ZERO <= b && b <= NINE
}

/// Length of the optional leading sign.
pub open spec fn sign_len(s: Seq<u8>) -> int {
    if s.len() > 0 && (s[0] == PLUS || s[0] == MINUS) {
        1
    } else {
        0
    }
}

/// The first index at or after `from` holding a non-digit byte, or the
/// length of `s` when digits run to the end.
pub open spec fn first_non_digit(s: Seq<u8>, from: int) -> int
    recommends
        0 <= from <= s.len(),
    decreases s.len() - from,
{
    if from >= s.len() {
        s.len() as int
    } else if !is_digit_byte(s[from]) {
        from
    } else {
        first_non_digit(s, from + 1)
    }
}

/// Index of the first nonzero digit of `d`, or `d.len()` when every digit
/// is zero.
pub open spec fn first_nonzero(d: Seq<u8>) -> int
    decreases d.len(),
{
    if d.len() == 0 {
        0
    } else if d[0] != ZERO {
        0
    } else {
        1 + first_nonzero(d.drop_first())
    }
}

/// Index of the last nonzero digit of `d`, or `-1` when every digit is
/// zero.
pub open spec fn last_nonzero(d: Seq<u8>) -> int
    decreases d.len(),
{
    if d.len() == 0 {
        -1
    } else if d[d.len() - 1] != ZERO {
        d.len() - 1
    } else {
        last_nonzero(d.drop_last())
    }
}

/// Whether `d` holds any nonzero digit.
pub open spec fn has_nonzero(d: Seq<u8>) -> bool {
    first_nonzero(d) < d.len()
}

/// Count of significant digits of the digit string `d`: from the first
/// nonzero digit through the last, inclusive. Leading zeros and trailing
/// zeros never count; zeros between two nonzero digits do.
pub open spec fn sig_digits(d: Seq<u8>) -> int {
    if has_nonzero(d) {
        last_nonzero(d) - first_nonzero(d) + 1
    } else {
        0
    }
}

/// Decimal exponent of the leading significant digit, where `point` is the
/// count of digits standing before the decimal point. With no significant
/// digit at all, the result is the (non-positive) weight of the last
/// fractional position scanned, matching the single-pass scan.
pub open spec fn sig_exponent(d: Seq<u8>, point: int) -> int {
    if has_nonzero(d) {
        point - 1 - first_nonzero(d)
    } else {
        point - d.len()
    }
}

/// What `calc_digits` returns on `s`: the significant-digit count and the
/// decimal exponent of a numeral `[+|-] digits [. digits]`, or the first
/// error a left-to-right scan meets.
pub open spec fn spec_calc_digits(s: Seq<u8>) -> Result<(int, int), NumberParseError> {
    if s.len() == 0 {
        Err(NumberParseError::EmptyString)
    } else {
        let sl = sign_len(s);
        if sl == s.len() {
            Err(NumberParseError::IncompleteInput)
        } else {
            let j = first_non_digit(s, sl);
            if j == s.len() {
                let d = s.subrange(sl, s.len() as int);
                Ok((sig_digits(d), sig_exponent(d, d.len() as int)))
            } else if s[j] != POINT {
                Err(NumberParseError::UnexpectedChar { unexpected_byte: s[j], pos: j as usize })
            } else if j == s.len() - 1 {
                Err(NumberParseError::IncompleteInput)
            } else {
                let k = first_non_digit(s, j + 1);
                if k < s.len() {
                    Err(
                        NumberParseError::UnexpectedChar {
                            unexpected_byte: s[k],
                            pos: k as usize,
                        },
                    )
                } else {
                    let d = s.subrange(sl, j) + s.subrange(j + 1, s.len() as int);
                    Ok((sig_digits(d), sig_exponent(d, j - sl)))
                }
            }
        }
    }
}

/// Encoded byte length of a decimal numeral under the backend's numeric
/// encoding: significant digits packed two to a byte, plus one byte of
/// header.
pub open spec fn number_encoded_size(s: Seq<u8>) -> Result<int, NumberParseError> {
    match spec_calc_digits(s) {
        Ok(fe) => Ok((fe.0 + 1) / 2 + 1),
        Err(e) => Err(e),
    }
}

proof fn lemma_first_nonzero_bounds(d: Seq<u8>)
    ensures
        0 <= first_nonzero(d) <= d.len(),
        forall|i: int| 0 <= i < first_nonzero(d) ==> d[i] == ZERO,
        first_nonzero(d) < d.len() ==> d[first_nonzero(d)] != ZERO,
    decreases d.len(),
{
    if d.len() == 0 {
    } else if d[0] != ZERO {
    } else {
        lemma_first_nonzero_bounds(d.drop_first());
        assert forall|i: int| 0 <= i < first_nonzero(d) implies d[i] == ZERO by {
            if i > 0 {
                assert(d.drop_first()[i - 1] == d[i]);
            }
        }
        if first_nonzero(d) < d.len() {
            assert(d.drop_first()[first_nonzero(d) - 1] == d[first_nonzero(d)]);
        }
    }
}

proof fn lemma_last_nonzero_bounds(d: Seq<u8>)
    ensures
        -1 <= last_nonzero(d) < d.len(),
        forall|i: int| last_nonzero(d) < i < d.len() ==> d[i] == ZERO,
        last_nonzero(d) >= 0 ==> d[last_nonzero(d)] != ZERO,
    decreases d.len(),
{
    if d.len() == 0 {
    } else if d[d.len() - 1] != ZERO {
    } else {
        lemma_last_nonzero_bounds(d.drop_last());
        assert forall|i: int| last_nonzero(d) < i < d.len() implies d[i] == ZERO by {
            if i < d.len() - 1 {
                assert(d.drop_last()[i] == d[i]);
            }
        }
        if last_nonzero(d) >= 0 {
            assert(d.drop_last()[last_nonzero(d)] == d[last_nonzero(d)]);
        }
    }
}

/// The first and last nonzero digit, when one exists, bracket a non-empty
/// range.
proof fn lemma_nonzero_range(d: Seq<u8>)
    ensures
        0 <= first_nonzero(d) <= d.len(),
        -1 <= last_nonzero(d) < d.len(),
        has_nonzero(d) <==> last_nonzero(d) >= 0,
        has_nonzero(d) ==> first_nonzero(d) <= last_nonzero(d),
{
    lemma_first_nonzero_bounds(d);
    lemma_last_nonzero_bounds(d);
    if has_nonzero(d) {
        assert(d[first_nonzero(d)] != ZERO);
    }
    if last_nonzero(d) >= 0 {
        assert(d[last_nonzero(d)] != ZERO);
    }
}

proof fn lemma_first_nonzero_push(d: Seq<u8>, b: u8)
    ensures
        first_nonzero(d.push(b)) == if first_nonzero(d) < d.len() {
            first_nonzero(d)
        } else if b != ZERO {
            d.len() as int
        } else {
            d.len() + 1int
        },
    decreases d.len(),
{
    reveal_with_fuel(first_nonzero, 2);
    lemma_first_nonzero_bounds(d);
    let e = d.push(b);
    if d.len() == 0 {
        assert(e[0] == b);
        if b == ZERO {
            assert(e.drop_first() =~= Seq::<u8>::empty());
        }
    } else {
        assert(e[0] == d[0]);
        if d[0] == ZERO {
            assert(e.drop_first() =~= d.drop_first().push(b));
            lemma_first_nonzero_push(d.drop_first(), b);
        }
    }
}

proof fn lemma_last_nonzero_push(d: Seq<u8>, b: u8)
    ensures
        last_nonzero(d.push(b)) == if b != ZERO {
            d.len() as int
        } else {
            last_nonzero(d)
        },
{
    let e = d.push(b);
    assert(e[e.len() - 1] == b);
    if b == ZERO {
        assert(e.drop_last() =~= d);
    }
}

/// `first_non_digit` lands exactly where a left-to-right scan stops.
proof fn lemma_first_non_digit_at(s: Seq<u8>, from: int, stop: int)
    requires
        0 <= from <= stop <= s.len(),
        forall|i: int| from <= i < stop ==> is_digit_byte(s[i]),
        stop < s.len() ==> !is_digit_byte(s[stop]),
    ensures
        first_non_digit(s, from) == if stop < s.len() {
            stop
        } else {
            s.len() as int
        },
    decreases stop - from,
{
    if from < stop {
        lemma_first_non_digit_at(s, from + 1, stop);
    }
}

/// Significant digits are never more numerous than the digits themselves,
/// and the exponent is bounded by the digit count on both sides.
proof fn lemma_sig_bounds(d: Seq<u8>, point: int)
    requires
        0 <= point <= d.len(),
    ensures
        0 <= sig_digits(d) <= d.len(),
        point - d.len() <= sig_exponent(d, point) <= point,
{
    lemma_nonzero_range(d);
}

/// Count the significant digits and the decimal exponent of a decimal
/// numeral given in its byte form: an optional `+` or `-`, digits, and at
/// most one decimal point with digits after it. A single left-to-right
/// pass; the first offending byte is reported and nothing after it is
/// looked at.
pub fn calc_digits(str: &[u8]) -> (r: Result<(i32, i32), NumberParseError>)
    requires
        str@.len() <= i32::MAX,
    ensures
        ({
            let sp = spec_calc_digits(str@);
            match r {
                Ok(fe) => sp == Ok::<(int, int), NumberParseError>((fe.0 as int, fe.1 as int)) && 0 <= fe.0,
                Err(e) => sp == Err::<(int, int), NumberParseError>(e),
            }
        }),
{
    let s = Ghost(str@);
    let n: usize = str.len();
    let mut pos: usize = 0;
    let mut frac: i32 = 0;
    let mut exp: i32 = 0;
    let mut zeros: i32 = 0;
    let mut occur_significant: bool = false;

    if n == 0 {
        return Err(NumberParseError::EmptyString);
    }
    if str[pos] == PLUS || str[pos] == MINUS {
        pos = 1;
    }
    if pos == n {
        return Err(NumberParseError::IncompleteInput);
    }
    let sl = Ghost(pos as int);
    proof {
        assert(sl@ == sign_len(s@));
    }

    while pos < n && str[pos] != POINT
        invariant
            s@ == str@,
            n == s@.len(),
            n <= i32::MAX,
            sl@ == sign_len(s@),
            0 < n,
            sl@ <= pos <= n,
            forall|i: int| sl@ <= i < pos ==> is_digit_byte(s@[i]),
            ({
                let d = s@.subrange(sl@, pos as int);
                &&& occur_significant == has_nonzero(d)
                &&& frac == sig_digits(d)
                &&& exp == sig_exponent(d, pos - sl@)
                &&& zeros == if has_nonzero(d) {
                    pos - sl@ - 1 - last_nonzero(d)
                } else {
                    0
                }
            }),
        decreases n - pos,
    {
        let c = str[pos];
        if !(c >= ZERO && c <= NINE) {
            proof {
                lemma_first_non_digit_at(s@, sl@, pos as int);
            }
            return Err(NumberParseError::UnexpectedChar { pos, unexpected_byte: c });
        }
        proof {
            let d = s@.subrange(sl@, pos as int);
            lemma_nonzero_range(d);
            lemma_first_nonzero_push(d, c);
            lemma_last_nonzero_push(d, c);
            assert(s@.subrange(sl@, pos + 1) =~= d.push(s@[pos as int]));
        }
        if occur_significant {
            exp = exp + 1;
        }
        if c == ZERO {
            if occur_significant {
                zeros = zeros + 1;
            }
        } else {
            frac = frac + zeros + 1;
            zeros = 0;
            occur_significant = true;
        }
        pos = pos + 1;
    }

    if pos == n {
        proof {
            lemma_first_non_digit_at(s@, sl@, n as int);
            lemma_sig_bounds(s@.subrange(sl@, n as int), n - sl@);
        }
        return Ok((frac, exp));
    }

    // The scan stopped on a decimal point.
    let dot: usize = pos;
    proof {
        lemma_first_non_digit_at(s@, sl@, dot as int);
    }
    pos = pos + 1;
    if pos == n {
        return Err(NumberParseError::IncompleteInput);
    }

    // A leading zero run before the point is not significant; the scan
    // state already reflects that.
    if !occur_significant {
        zeros = 0;
    }

    while pos < n
        invariant
            s@ == str@,
            n == s@.len(),
            n <= i32::MAX,
            sl@ == sign_len(s@),
            0 < n,
            sl@ <= dot < n,
            dot + 1 <= pos <= n,
            s@[dot as int] == POINT,
            first_non_digit(s@, sl@) == dot,
            forall|i: int| dot + 1 <= i < pos ==> is_digit_byte(s@[i]),
            ({
                let d = s@.subrange(sl@, dot as int) + s@.subrange(dot + 1, pos as int);
                &&& occur_significant == has_nonzero(d)
                &&& frac == sig_digits(d)
                &&& exp == sig_exponent(d, dot - sl@)
                &&& zeros == if has_nonzero(d) {
                    d.len() - 1 - last_nonzero(d)
                } else {
                    0
                }
            }),
        decreases n - pos,
    {
        let c = str[pos];
        if !(c >= ZERO && c <= NINE) {
            proof {
                lemma_first_non_digit_at(s@, dot + 1, pos as int);
            }
            return Err(NumberParseError::UnexpectedChar { pos, unexpected_byte: c });
        }
        proof {
            let d = s@.subrange(sl@, dot as int) + s@.subrange(dot + 1, pos as int);
            lemma_nonzero_range(d);
            lemma_first_nonzero_push(d, c);
            lemma_last_nonzero_push(d, c);
            assert(s@.subrange(sl@, dot as int) + s@.subrange(dot + 1, pos + 1) =~= d.push(
                s@[pos as int],
            ));
        }
        if !occur_significant {
            exp = exp - 1;
        }
        if c != ZERO {
            frac = frac + zeros + 1;
            zeros = 0;
            occur_significant = true;
        } else if occur_significant {
            zeros = zeros + 1;
        }
        pos = pos + 1;
    }

    proof {
        lemma_first_non_digit_at(s@, dot + 1, n as int);
        lemma_sig_bounds(s@.subrange(sl@, dot as int) + s@.subrange(dot + 1, n as int), dot - sl@);
    }
    Ok((frac, exp))
}

/// Encoded byte length of a decimal numeral: its significant digits are
/// packed in pairs, with one extra byte of header.
pub fn calc_num_size(num: &str) -> (r: Result<usize, NumberParseError>)
    requires
        num.spec_bytes().len() <= i32::MAX,
    ensures
        ({
            let sp = number_encoded_size(num.spec_bytes());
            match r {
                Ok(size) => sp == Ok::<int, NumberParseError>(size as int),
                Err(e) => sp == Err::<int, NumberParseError>(e),
            }
        }),
{
    match calc_digits(num.as_bytes()) {
        Ok((frac, _)) => Ok(((frac as usize) + 1) / 2 + 1),
        Err(e) => Err(e),
    }
}

} // verus!
