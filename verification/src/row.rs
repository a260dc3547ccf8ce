//! Turning the fields of one tabular input row into a ledger event.
//!
//! A row is `type,client,tx,amount`. Fields are trimmed of surrounding
//! whitespace; `client` and `tx` are unsigned decimal integers; `amount`
//! is a decimal literal, rounded half-to-even to four fractional digits;
//! the type token is matched case-insensitively, an unrecognized token
//! giving [`Transaction::Unknown`].

use crate::models::TranactionState;
use crate::models::Transaction;
use crate::models::TransactionDetail;
use vstd::prelude::*;

verus! {

/// The whitespace trimmed from around a field.
pub open spec fn is_space(c: char) -> bool {
    c == ' ' || c == '\t' || c == '\r' || c == '\n'
}

/// `s` without its leading whitespace.
pub open spec fn trim_front(s: Seq<char>) -> Seq<char>
    decreases s.len(),
{
    if s.len() > 0 && is_space(s[0]) {
        trim_front(s.drop_first())
    } else {
        s
    }
}

/// `s` without its trailing whitespace.
pub open spec fn trim_back(s: Seq<char>) -> Seq<char>
    decreases s.len(),
{
    if s.len() > 0 && is_space(s.last()) {
        trim_back(s.drop_last())
    } else {
        s
    }
}

/// `s` without surrounding whitespace.
pub open spec fn trim_spec(s: Seq<char>) -> Seq<char> {
    trim_back(trim_front(s))
}

proof fn lemma_trim_front_range(s: Seq<char>, i: int)
    requires
        0 <= i <= s.len(),
        forall|j: int| 0 <= j < i ==> is_space(#[trigger] s[j]),
        i == s.len() || !is_space(s[i]),
    ensures
        trim_front(s) == s.subrange(i, s.len() as int),
    decreases i,
{
    if i == 0 {
        assert(s.subrange(0, s.len() as int) =~= s);
    } else {
        lemma_trim_front_range(s.drop_first(), i - 1);
        assert(s.drop_first().subrange(i - 1, s.drop_first().len() as int) =~= s.subrange(
            i,
            s.len() as int,
        ));
    }
}

proof fn lemma_trim_back_range(s: Seq<char>, k: int)
    requires
        0 <= k <= s.len(),
        forall|j: int| k <= j < s.len() ==> is_space(#[trigger] s[j]),
        k == 0 || !is_space(s[k - 1]),
    ensures
        trim_back(s) == s.subrange(0, k),
    decreases s.len() - k,
{
    if k == s.len() {
        assert(s.subrange(0, k) =~= s);
    } else {
        lemma_trim_back_range(s.drop_last(), k);
        assert(s.drop_last().subrange(0, k) =~= s.subrange(0, k));
    }
}

/// Whether `c` is trimmed away.
fn is_space_char(c: char) -> (r: bool)
    ensures
        r == is_space(c),
{
    c == ' ' || c == '\t' || c == '\r' || c == '\n'
}

/// `s` without surrounding whitespace.
pub fn trim(s: &str) -> (r: &str)
    ensures
        r@ == trim_spec(s@),
{
    let len = s.unicode_len();
    let mut start: usize = 0;
    while start < len && is_space_char(s.get_char(start))
        invariant
            start <= len,
            len == s@.len(),
            forall|j: int| 0 <= j < start ==> is_space(#[trigger] s@[j]),
        decreases len - start,
    {
        start = start + 1;
    }
    let mut end: usize = len;
    while end > start && is_space_char(s.get_char(end - 1))
        invariant
            start <= end <= len,
            len == s@.len(),
            forall|j: int| end <= j < len ==> is_space(#[trigger] s@[j]),
        decreases end,
    {
        end = end - 1;
    }
    let r = s.substring_char(start, end);
    proof {
        lemma_trim_front_range(s@, start as int);
        let m = s@.subrange(start as int, len as int);
        lemma_trim_back_range(m, end - start);
        assert(m.subrange(0, end - start) =~= s@.subrange(start as int, end as int));
    }
    r
}

/// A decimal digit.
pub open spec fn is_digit(c: char) -> bool {
    48 <= c as u32 <= 57
}

/// The value of one digit.
pub open spec fn digit_val(c: char) -> nat {
    (c as u32 - 48) as nat
}

/// Every character of `s` is a decimal digit.
pub open spec fn all_digits(s: Seq<char>) -> bool {
    forall|i: int| 0 <= i < s.len() ==> is_digit(#[trigger] s[i])
}

/// The number the digit string `s` denotes, most significant digit
/// first; leading zeros are allowed.
pub open spec fn digits_val(s: Seq<char>) -> nat
    decreases s.len(),
{
    if s.len() == 0 {
        0
    } else {
        digits_val(s.drop_last()) * 10 + digit_val(s.last())
    }
}

/// A digit string is worth at least any of its prefixes.
proof fn lemma_digits_val_prefix(s: Seq<char>, i: int)
    requires
        0 <= i <= s.len(),
    ensures
        digits_val(s.subrange(0, i)) <= digits_val(s),
    decreases s.len() - i,
{
    if i == s.len() {
        assert(s.subrange(0, i) =~= s);
    } else {
        assert(s.subrange(0, i + 1).drop_last() =~= s.subrange(0, i));
        assert(digits_val(s.subrange(0, i + 1)) == digits_val(s.subrange(0, i)) * 10 + digit_val(
            s[i],
        ));
        lemma_digits_val_prefix(s, i + 1);
    }
}

/// Parses a trimmed field as an unsigned decimal integer of at most
/// `bound`: a non-empty run of digits, leading zeros allowed. Hands back
/// nothing exactly when the field is not such a run or its value is too
/// big.
fn parse_digits_bounded(s: &str, bound: u64) -> (r: Option<u64>)
    requires
        bound <= 1_000_000_000_000_000_000,
    ensures
        r matches Some(v) ==> s@.len() > 0 && all_digits(s@) && digits_val(s@) == v as nat && v
            <= bound,
        r is None ==> !(s@.len() > 0 && all_digits(s@) && digits_val(s@) <= bound as nat),
{
    let len = s.unicode_len();
    if len == 0 {
        return None;
    }
    let mut acc: u64 = 0;
    let mut i: usize = 0;
    while i < len
        invariant
            i <= len,
            len == s@.len(),
            all_digits(s@.subrange(0, i as int)),
            acc as nat == digits_val(s@.subrange(0, i as int)),
            acc <= bound,
            bound <= 1_000_000_000_000_000_000,
        decreases len - i,
    {
        let c = s.get_char(i);
        let code = c as u32;
        if code < 48 || code > 57 {
            return None;
        }
        let d = (code - 48) as u64;
        proof {
            assert(s@.subrange(0, i + 1).drop_last() =~= s@.subrange(0, i as int));
        }
        acc = acc * 10 + d;
        i = i + 1;
        if acc > bound {
            proof {
                lemma_digits_val_prefix(s@, i as int);
            }
            return None;
        }
    }
    proof {
        assert(s@.subrange(0, len as int) =~= s@);
    }
    Some(acc)
}

/// The index of the first `.` in `b` at or after `i`, or `b.len()` if
/// there is none.
pub open spec fn first_dot(b: Seq<char>, i: int) -> int
    decreases b.len() - i,
{
    if i < 0 || i >= b.len() {
        b.len() as int
    } else if b[i] == '.' {
        i
    } else {
        first_dot(b, i + 1)
    }
}

proof fn lemma_first_dot(b: Seq<char>, i: int, k: int)
    requires
        0 <= i <= k <= b.len(),
        forall|j: int| i <= j < k ==> b[j] != '.',
        k == b.len() || b[k] == '.',
    ensures
        first_dot(b, i) == k,
    decreases k - i,
{
    if i < k {
        lemma_first_dot(b, i + 1, k);
    }
}

/// The integer part of a decimal body: what stands before the first dot.
pub open spec fn body_int(b: Seq<char>) -> Seq<char> {
    b.subrange(0, first_dot(b, 0))
}

/// The fractional part of a decimal body: what stands after the first
/// dot, or nothing when there is no dot.
pub open spec fn body_frac(b: Seq<char>) -> Seq<char> {
    let k = first_dot(b, 0);
    if k == b.len() {
        Seq::empty()
    } else {
        b.subrange(k + 1, b.len() as int)
    }
}

/// A well-formed unsigned decimal body: a non-empty run of digits,
/// optionally followed by a dot and a non-empty run of digits.
pub open spec fn body_ok(b: Seq<char>) -> bool {
    &&& body_int(b).len() > 0
    &&& all_digits(body_int(b))
    &&& (first_dot(b, 0) == b.len() || body_frac(b).len() > 0)
    &&& all_digits(body_frac(b))
}

/// The first four fractional digits as a count of ten-thousandths,
/// shorter fractions padded with zeros.
pub open spec fn frac4_val(frac: Seq<char>) -> nat {
    if frac.len() >= 4 {
        digits_val(frac.subrange(0, 4))
    } else if frac.len() == 3 {
        digits_val(frac) * 10
    } else if frac.len() == 2 {
        digits_val(frac) * 100
    } else if frac.len() == 1 {
        digits_val(frac) * 1000
    } else {
        0
    }
}

/// Whether rounding to four fractional digits rounds the magnitude up:
/// it does when the dropped tail is over one half of a ten-thousandth,
/// and on exactly one half when the kept digits are odd (round half to
/// even).
pub open spec fn frac_round_up(frac: Seq<char>) -> bool {
    if frac.len() <= 4 {
        false
    } else {
        let d5 = digit_val(frac[4]);
        if d5 > 5 {
            true
        } else if d5 < 5 {
            false
        } else if exists|j: int| 5 <= j < frac.len() && digit_val(#[trigger] frac[j]) > 0 {
            true
        } else {
            frac4_val(frac) % 2 == 1
        }
    }
}

/// The magnitude of a decimal body in ten-thousandths, rounded half to
/// even at the fourth fractional digit.
pub open spec fn magnitude_units(b: Seq<char>) -> nat {
    digits_val(body_int(b)) * 10000 + frac4_val(body_frac(b)) + (if frac_round_up(body_frac(b)) {
        1nat
    } else {
        0nat
    })
}

/// Whether the amount field starts with a minus sign.
pub open spec fn amount_neg(s: Seq<char>) -> bool {
    s.len() > 0 && s[0] == '-'
}

/// The amount field without its sign.
pub open spec fn amount_body(s: Seq<char>) -> Seq<char> {
    if amount_neg(s) {
        s.drop_first()
    } else {
        s
    }
}

/// A parsable amount field: an optional minus sign, a well-formed
/// decimal body, and a rounded magnitude that a balance can hold.
pub open spec fn amount_ok(s: Seq<char>) -> bool {
    &&& body_ok(amount_body(s))
    &&& magnitude_units(amount_body(s)) <= i64::MAX as nat
}

/// The signed fixed-point value of a parsable amount field.
pub open spec fn amount_units(s: Seq<char>) -> int {
    if amount_neg(s) {
        -(magnitude_units(amount_body(s)) as int)
    } else {
        magnitude_units(amount_body(s)) as int
    }
}

/// Parses a trimmed amount field into ten-thousandths, rounding half to
/// even at the fourth fractional digit. Hands back nothing exactly when
/// the field is not an optionally-signed decimal literal or its rounded
/// magnitude does not fit a balance.
pub fn parse_amount(s: &str) -> (r: Option<i64>)
    ensures
        r matches Some(v) ==> amount_ok(s@) && v as int == amount_units(s@),
        r is None ==> !amount_ok(s@),
{
    let slen = s.unicode_len();
    let neg = slen > 0 && s.get_char(0) == '-';
    let start: usize = if neg {
        1
    } else {
        0
    };
    let b = s.substring_char(start, slen);
    proof {
        assert(b@ =~= amount_body(s@));
    }
    let blen = b.unicode_len();
    let mut k: usize = 0;
    while k < blen && b.get_char(k) != '.'
        invariant
            k <= blen,
            blen == b@.len(),
            forall|j: int| 0 <= j < k ==> b@[j] != '.',
        decreases blen - k,
    {
        k = k + 1;
    }
    proof {
        lemma_first_dot(b@, 0, k as int);
    }
    let intstr = b.substring_char(0, k);
    let fracstr = if k < blen {
        b.substring_char(k + 1, blen)
    } else {
        b.substring_char(blen, blen)
    };
    proof {
        assert(intstr@ == body_int(b@));
        assert(fracstr@ =~= body_frac(b@));
    }
    let int_val = match parse_digits_bounded(intstr, 1_000_000_000_000_000) {
        Some(v) => v,
        None => {
            return None;
        },
    };
    if k < blen && fracstr.unicode_len() == 0 {
        return None;
    }
    let flen = fracstr.unicode_len();
    let mut frac4: u64 = 0;
    let mut i: usize = 0;
    while i < flen
        invariant
            i <= flen,
            flen == fracstr@.len(),
            fracstr@ == body_frac(amount_body(s@)),
            all_digits(fracstr@.subrange(0, i as int)),
            frac4 as nat == digits_val(
                fracstr@.subrange(
                    0,
                    if i < 4 {
                        i as int
                    } else {
                        4
                    },
                ),
            ),
            i == 0 ==> frac4 == 0,
            i == 1 ==> frac4 <= 9,
            i == 2 ==> frac4 <= 99,
            i == 3 ==> frac4 <= 999,
            frac4 <= 9999,
        decreases flen - i,
    {
        let c = fracstr.get_char(i);
        let code = c as u32;
        if code < 48 || code > 57 {
            proof {
                assert(!is_digit(fracstr@[i as int]));
                assert(!all_digits(body_frac(amount_body(s@))));
            }
            return None;
        }
        if i < 4 {
            proof {
                assert(fracstr@.subrange(0, i + 1).drop_last() =~= fracstr@.subrange(0, i as int));
            }
            frac4 = frac4 * 10 + (code - 48) as u64;
        }
        i = i + 1;
    }
    proof {
        assert(fracstr@.subrange(0, flen as int) =~= fracstr@);
    }
    if flen == 1 {
        frac4 = frac4 * 1000;
    } else if flen == 2 {
        frac4 = frac4 * 100;
    } else if flen == 3 {
        frac4 = frac4 * 10;
    }
    proof {
        assert(frac4 as nat == frac4_val(fracstr@));
    }
    let round_up: bool = if flen > 4 {
        let d5 = fracstr.get_char(4) as u32 - 48;
        let mut rest_nonzero = false;
        let mut j: usize = 5;
        while j < flen
            invariant
                5 <= j <= flen,
                flen == fracstr@.len(),
                all_digits(fracstr@),
                rest_nonzero == exists|t: int|
                    5 <= t < j && digit_val(#[trigger] fracstr@[t]) > 0,
            decreases flen - j,
        {
            if fracstr.get_char(j) as u32 > 48 {
                rest_nonzero = true;
            }
            proof {
                if !rest_nonzero {
                    assert forall|t: int|
                        5 <= t < j + 1 implies digit_val(#[trigger] fracstr@[t]) == 0 by {
                        if t < j {
                            assert(!(digit_val(fracstr@[t]) > 0));
                        }
                    }
                }
            }
            j = j + 1;
        }
        d5 > 5 || (d5 == 5 && (rest_nonzero || frac4 % 2 == 1))
    } else {
        false
    };
    proof {
        assert(round_up == frac_round_up(fracstr@));
    }
    let m: u64 = int_val * 10000 + frac4 + (if round_up {
        1
    } else {
        0
    });
    proof {
        assert(m as nat == magnitude_units(amount_body(s@)));
    }
    if m > i64::MAX as u64 {
        return None;
    }
    let units = m as i64;
    if neg {
        Some(-units)
    } else {
        Some(units)
    }
}

/// The character code with an upper-case ASCII letter folded to its
/// lower-case form.
pub open spec fn lower_code(c: char) -> int {
    if 65 <= c as u32 <= 90 {
        c as u32 + 32
    } else {
        c as u32 as int
    }
}

/// Character-wise ASCII-case-insensitive equality.
pub open spec fn eq_ignore_case(s: Seq<char>, t: Seq<char>) -> bool {
    s.len() == t.len() && forall|i: int|
        0 <= i < s.len() ==> lower_code(#[trigger] s[i]) == lower_code(t[i])
}

/// Compares a trimmed type token against an expected token, ignoring
/// ASCII case.
fn token_matches(s: &str, t: &str) -> (r: bool)
    ensures
        r == eq_ignore_case(s@, t@),
{
    let slen = s.unicode_len();
    let tlen = t.unicode_len();
    if slen != tlen {
        return false;
    }
    let mut i: usize = 0;
    while i < slen
        invariant
            i <= slen,
            slen == s@.len(),
            slen == t@.len(),
            forall|j: int| 0 <= j < i ==> lower_code(#[trigger] s@[j]) == lower_code(t@[j]),
        decreases slen - i,
    {
        let a = s.get_char(i) as u32;
        let b = t.get_char(i) as u32;
        let a_low = if 65 <= a && a <= 90 {
            a + 32
        } else {
            a
        };
        let b_low = if 65 <= b && b <= 90 {
            b + 32
        } else {
            b
        };
        if a_low != b_low {
            return false;
        }
        i = i + 1;
    }
    true
}

/// Why a row was rejected before reaching the engine: a required field
/// is missing, or a field does not parse.
#[derive(Debug, Clone, Copy, PartialEq, Eq, Structural)]
pub enum RowError {
    MissingType,
    MissingClient,
    MissingTx,
    BadClient,
    BadTx,
    BadAmount,
}

/// The event a trimmed type token stands for; an unrecognized token
/// gives `Unknown`.
pub open spec fn classify(token: Seq<char>, d: TransactionDetail) -> Transaction {
    if eq_ignore_case(token, "deposit"@) {
        Transaction::Deposit(d)
    } else if eq_ignore_case(token, "withdrawal"@) {
        Transaction::Withdrawal(d)
    } else if eq_ignore_case(token, "dispute"@) {
        Transaction::Dispute(d)
    } else if eq_ignore_case(token, "resolve"@) {
        Transaction::Resolve(d)
    } else if eq_ignore_case(token, "chargeback"@) {
        Transaction::ChargeBack(d)
    } else {
        Transaction::Unknown
    }
}

/// What a row's fields yield: the event, or the first reason the row is
/// malformed. The type token must be present; `client` and `tx` must be
/// present and parse as unsigned integers of 16 and 32 bits; `amount`,
/// when present and non-blank, must parse as a decimal whose rounded
/// magnitude a balance can hold.
pub open spec fn parse_row(fields: Seq<Seq<char>>) -> Result<Transaction, RowError> {
    if fields.len() < 1 {
        Err(RowError::MissingType)
    } else if fields.len() < 2 {
        Err(RowError::MissingClient)
    } else if fields.len() < 3 {
        Err(RowError::MissingTx)
    } else {
        let ctext = trim_spec(fields[1]);
        let ttext = trim_spec(fields[2]);
        if !(ctext.len() > 0 && all_digits(ctext) && digits_val(ctext) <= u16::MAX as nat) {
            Err(RowError::BadClient)
        } else if !(ttext.len() > 0 && all_digits(ttext) && digits_val(ttext) <= u32::MAX as nat) {
            Err(RowError::BadTx)
        } else {
            let atext = if fields.len() >= 4 {
                trim_spec(fields[3])
            } else {
                Seq::empty()
            };
            let d = (TransactionDetail {
                client: digits_val(ctext) as u16,
                tx: digits_val(ttext) as u32,
                amount: None,
                state: TranactionState::Normal,
            });
            if atext.len() == 0 {
                Ok(classify(trim_spec(fields[0]), d))
            } else if !amount_ok(atext) {
                Err(RowError::BadAmount)
            } else {
                Ok(
                    classify(
                        trim_spec(fields[0]),
                        TransactionDetail { amount: Some(amount_units(atext) as i64), ..d },
                    ),
                )
            }
        }
    }
}

/// Builds one validated event from the fields of one row, as
/// [`parse_row`] describes.
pub fn transaction_from_fields(fields: &Vec<String>) -> (r: Result<Transaction, RowError>)
    ensures
        r == parse_row(fields@.map_values(|f: String| f@)),
{
    if fields.len() < 1 {
        return Err(RowError::MissingType);
    }
    if fields.len() < 2 {
        return Err(RowError::MissingClient);
    }
    if fields.len() < 3 {
        return Err(RowError::MissingTx);
    }
    let ctext = trim(fields[1].as_str());
    let client = match parse_digits_bounded(ctext, 65535) {
        Some(v) => v as u16,
        None => {
            return Err(RowError::BadClient);
        },
    };
    let ttext = trim(fields[2].as_str());
    let tx = match parse_digits_bounded(ttext, 4294967295) {
        Some(v) => v as u32,
        None => {
            return Err(RowError::BadTx);
        },
    };
    let amount: Option<i64> = if fields.len() >= 4 {
        let atext = trim(fields[3].as_str());
        if atext.unicode_len() == 0 {
            None
        } else {
            match parse_amount(atext) {
                Some(v) => Some(v),
                None => {
                    return Err(RowError::BadAmount);
                },
            }
        }
    } else {
        None
    };
    let detail = TransactionDetail::new(client, tx, amount);
    let ttok = trim(fields[0].as_str());
    if token_matches(ttok, "deposit") {
        Ok(Transaction::Deposit(detail))
    } else if token_matches(ttok, "withdrawal") {
        Ok(Transaction::Withdrawal(detail))
    } else if token_matches(ttok, "dispute") {
        Ok(Transaction::Dispute(detail))
    } else if token_matches(ttok, "resolve") {
        Ok(Transaction::Resolve(detail))
    } else if token_matches(ttok, "chargeback") {
        Ok(Transaction::ChargeBack(detail))
    } else {
        Ok(Transaction::Unknown)
    }
}

} // verus!
