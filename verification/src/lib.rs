//! Parsing and validation of Canadian social insurance numbers (SINs).
//!
//! A free-form input string is normalized by discarding every non-digit
//! character, the remaining digits are checked against the Luhn-style
//! checksum that SINs use, and a successfully validated number can be
//! classified by the jurisdictions its leading digit may indicate.

use vstd::prelude::*;
use vstd::slice::slice_subrange;
use vstd::string::StrSliceExecFns;
use vstd::string::StringExecFns;

pub mod jurisdiction;

pub use jurisdiction::SINType;

verus! {

/// An error resulting from parsing a SIN.
#[derive(Debug, Copy, Clone, PartialEq, Eq)]
#[non_exhaustive]
pub enum SINParseError {
    /// The SIN is longer than 9 digits.
    TooLong,
    /// The SIN is less than 9 digits.
    TooShort,
    /// The SIN has an invalid Luhn checksum.
    InvalidChecksum,
}

/// Is `c` a decimal digit, `'0'` through `'9'`?
pub open spec fn is_decimal_digit(c: char) -> bool {
    48 <= c as u32 <= 57
}

/// The numeric value of a decimal digit character.
pub open spec fn digit_of_char(c: char) -> u8 {
    (c as u32 - 48) as u8
}

/// The digits of `s`, in order of appearance; every other character is
/// discarded.
pub open spec fn digits_of(s: Seq<char>) -> Seq<u8>
    decreases s.len(),
{
    if s.len() == 0 {
        Seq::empty()
    } else if is_decimal_digit(s.last()) {
        digits_of(s.drop_last()).push(digit_of_char(s.last()))
    } else {
        digits_of(s.drop_last())
    }
}

/// The character that renders the single digit `d`.
pub open spec fn char_of_digit(d: u8) -> char {
    if d == 0 {
        '0'
    } else if d == 1 {
        '1'
    } else if d == 2 {
        '2'
    } else if d == 3 {
        '3'
    } else if d == 4 {
        '4'
    } else if d == 5 {
        '5'
    } else if d == 6 {
        '6'
    } else if d == 7 {
        '7'
    } else if d == 8 {
        '8'
    } else {
        '9'
    }
}

/// The characters that render the digit sequence `ds`, one character per
/// digit, in order, with nothing added.
pub open spec fn chars_of_digits(ds: Seq<u8>) -> Seq<char>
    decreases ds.len(),
{
    if ds.len() == 0 {
        Seq::empty()
    } else {
        chars_of_digits(ds.drop_last()).push(char_of_digit(ds.last()))
    }
}

/// The dash-grouped rendering of a 9-digit sequence: the digits in three
/// groups of three, separated by single dashes.
pub open spec fn dashed_chars_of_digits(ds: Seq<u8>) -> Seq<char> {
    chars_of_digits(ds.subrange(0, 3)) + seq!['-'] + chars_of_digits(ds.subrange(3, 6))
        + seq!['-'] + chars_of_digits(ds.subrange(6, 9))
}

/// The weighted-and-reduced contribution of digit `d` at position `i`:
/// digits at even positions count once, digits at odd positions are
/// doubled, and a doubled value above 9 is reduced to the sum of its two
/// decimal digits (for a value `w` in 10..=18 that sum is `w % 10 + 1`).
pub open spec fn luhn_term(d: u8, i: int) -> int {
    let w: int = if i % 2 == 0 {
        d as int
    } else {
        2 * d as int
    };
    if w > 9 {
        (w % 10) + 1
    } else {
        w
    }
}

/// The sum of the weighted-and-reduced contributions of the first `n`
/// digits of `ds`.
pub open spec fn luhn_sum_upto(ds: Seq<u8>, n: int) -> int
    decreases n,
{
    if n <= 0 {
        0
    } else {
        luhn_sum_upto(ds, n - 1) + luhn_term(ds[n - 1], n - 1)
    }
}

/// The Luhn-style checksum of a digit sequence passes iff the sum of all
/// weighted-and-reduced contributions is divisible by 10.
pub open spec fn checksum_ok(ds: Seq<u8>) -> bool {
    luhn_sum_upto(ds, ds.len() as int) % 10 == 0
}

/// The outcome `parse` must produce for an input whose characters are `s`:
/// fewer than 9 digits fail as too short, more than 9 as too long, and
/// exactly 9 digits pass iff their checksum does.
pub open spec fn parse_outcome(s: Seq<char>) -> Result<Seq<u8>, SINParseError> {
    let ds = digits_of(s);
    if ds.len() < 9 {
        Err(SINParseError::TooShort)
    } else if ds.len() > 9 {
        Err(SINParseError::TooLong)
    } else if checksum_ok(ds) {
        Ok(ds)
    } else {
        Err(SINParseError::InvalidChecksum)
    }
}

/// A social insurance number.
///
/// A value of this type always holds exactly 9 digits, each in 0..=9,
/// whose checksum passes: the only way to obtain one is a successful
/// `parse`.
#[derive(Debug, Copy, Clone, Eq, PartialEq)]
pub struct SIN {
    inner_digits: [u8; 9],
}

impl View for SIN {
    type V = Seq<u8>;

    closed spec fn view(&self) -> Seq<u8> {
        self.inner_digits@
    }
}

impl SIN {
    /// Every SIN holds exactly 9 single digits that pass the checksum.
    pub open spec fn wf(self) -> bool {
        &&& self@.len() == 9
        &&& forall|i: int| 0 <= i < 9 ==> self@[i] <= 9
        &&& checksum_ok(self@)
    }

    /// Parses a SIN from a string.
    ///
    /// Every character of the input that is not a decimal digit (a space,
    /// a dash, a letter) is silently discarded, so `"046-454-286"` and
    /// `"046454286"` parse identically. The digits that remain must number
    /// exactly 9 and pass the Luhn-style checksum.
    pub fn parse(s: String) -> (r: Result<Self, SINParseError>)
        ensures
            match r {
                Ok(sin) => parse_outcome(s@) == Ok::<Seq<u8>, SINParseError>(sin@) && sin.wf(),
                Err(e) => parse_outcome(s@) == Err::<Seq<u8>, SINParseError>(e),
            },
    {
        let text = s.as_str();
        let n: usize = text.unicode_len();
        let mut digits: Vec<u8> = Vec::new();
        let mut i: usize = 0;
        while i < n
            invariant
                n == text@.len(),
                text@ == s@,
                i <= n,
                digits@ == digits_of(s@.take(i as int)),
                forall|k: int| 0 <= k < digits@.len() ==> digits@[k] <= 9,
            decreases n - i,
        {
            let c = text.get_char(i);
            let code: u32 = c as u32;
            proof {
                assert(s@.take(i + 1).drop_last() =~= s@.take(i as int));
                assert(s@.take(i + 1).last() == c);
            }
            if 48 <= code && code <= 57 {
                digits.push((code - 48) as u8);
            }
            i = i + 1;
        }
        proof {
            assert(s@.take(n as int) =~= s@);
        }
        if digits.len() < 9 {
            return Err(SINParseError::TooShort);
        }
        if digits.len() > 9 {
            return Err(SINParseError::TooLong);
        }
        let mut luhn_sum: u8 = 0;
        let mut j: usize = 0;
        while j < 9
            invariant
                digits@.len() == 9,
                forall|k: int| 0 <= k < 9 ==> digits@[k] <= 9,
                j <= 9,
                luhn_sum as int == luhn_sum_upto(digits@, j as int),
                luhn_sum <= 9 * j,
            decreases 9 - j,
        {
            let d: u8 = digits[j];
            let weighted: u8 = if j % 2 == 0 {
                d
            } else {
                2 * d
            };
            let reduced: u8 = if weighted > 9 {
                (weighted % 10) + 1
            } else {
                weighted
            };
            luhn_sum = luhn_sum + reduced;
            j = j + 1;
        }
        if luhn_sum % 10 != 0 {
            return Err(SINParseError::InvalidChecksum);
        }
        let inner_digits: [u8; 9] = [
            digits[0],
            digits[1],
            digits[2],
            digits[3],
            digits[4],
            digits[5],
            digits[6],
            digits[7],
            digits[8],
        ];
        proof {
            assert(inner_digits@ =~= digits@);
        }
        Ok(SIN { inner_digits })
    }

    /// All types the SIN *could* be. This will often be multiple options,
    /// since this is based on the first digit, and there is some overlap.
    /// However, the following can be determined unambiguously:
    /// - `CRAAssigned` (starts with 0)
    /// - `TemporaryResident` (starts with 9)
    /// - `Quebec` (starts with 2 or 3)
    /// - `BusinessNumber` sometimes (if it starts with 8 it's a business
    ///   number, if it starts with 7 it *might* be one)
    pub fn types(&self) -> (r: Vec<SINType>)
        ensures
            r@ == jurisdiction::types_for_leading_digit(self@[0]),
            r@.len() >= 1,
    {
        match self.inner_digits[0] {
            0 => vec![SINType::CRAAssigned],
            1 => vec![
                SINType::NovaScotia,
                SINType::NewBrunswick,
                SINType::PrinceEdwardIsland,
                SINType::NewfoundlandLabrador,
            ],
            2 | 3 => vec![SINType::Quebec],
            4 | 5 => vec![SINType::Ontario, SINType::OverseasForces],
            6 => vec![
                SINType::Ontario,
                SINType::Manitoba,
                SINType::Saskatchewan,
                SINType::Alberta,
                SINType::NorthwestTerritories,
                SINType::Nunavut,
            ],
            7 => vec![SINType::BritishColumbia, SINType::Yukon, SINType::BusinessNumber],
            8 => vec![SINType::BusinessNumber],
            _ => vec![SINType::TemporaryResident],
        }
    }

    /// Returns the parsed digits as an array of digits.
    pub fn digits(self) -> (r: [u8; 9])
        ensures
            r@ == self@,
    {
        self.inner_digits
    }

    /// The one-character string that renders the single digit `d`.
    fn digit_str(d: u8) -> (r: &'static str)
        requires
            d <= 9,
        ensures
            r@ == seq![char_of_digit(d)],
    {
        proof {
            reveal_strlit("0");
            reveal_strlit("1");
            reveal_strlit("2");
            reveal_strlit("3");
            reveal_strlit("4");
            reveal_strlit("5");
            reveal_strlit("6");
            reveal_strlit("7");
            reveal_strlit("8");
            reveal_strlit("9");
        }
        let r: &'static str = match d {
            0 => "0",
            1 => "1",
            2 => "2",
            3 => "3",
            4 => "4",
            5 => "5",
            6 => "6",
            7 => "7",
            8 => "8",
            _ => "9",
        };
        proof {
            assert(r@ =~= seq![char_of_digit(d)]);
        }
        r
    }

    /// Renders a run of digits as a string, one character per digit.
    fn gen_sin_string_part(part: &[u8]) -> (r: String)
        requires
            forall|k: int| 0 <= k < part@.len() ==> part@[k] <= 9,
        ensures
            r@ == chars_of_digits(part@),
    {
        let mut r = String::new();
        let n: usize = part.len();
        let mut i: usize = 0;
        while i < n
            invariant
                n == part@.len(),
                i <= n,
                forall|k: int| 0 <= k < part@.len() ==> part@[k] <= 9,
                r@ == chars_of_digits(part@.take(i as int)),
            decreases n - i,
        {
            let d: u8 = part[i];
            r.append(Self::digit_str(d));
            proof {
                assert(part@.take(i + 1).drop_last() =~= part@.take(i as int));
                assert(part@.take(i + 1).last() == d);
                assert(r@ =~= chars_of_digits(part@.take(i + 1)));
            }
            i = i + 1;
        }
        proof {
            assert(part@.take(n as int) =~= part@);
        }
        r
    }

    /// Returns the SIN as a contiguous 9-digit string.
    pub fn digits_string(self) -> (r: String)
        requires
            self.wf(),
        ensures
            r@ == chars_of_digits(self@),
    {
        Self::gen_sin_string_part(self.inner_digits.as_slice())
    }

    /// Returns the SIN as a string with dashes in it, grouped 3-3-3.
    pub fn digits_dashed_string(self) -> (r: String)
        requires
            self.wf(),
        ensures
            r@ == dashed_chars_of_digits(self@),
    {
        let whole = self.inner_digits.as_slice();
        let mut r = Self::gen_sin_string_part(slice_subrange(whole, 0, 3));
        proof {
            reveal_strlit("-");
        }
        r.append("-");
        let mid = Self::gen_sin_string_part(slice_subrange(whole, 3, 6));
        r.append(mid.as_str());
        r.append("-");
        let tail = Self::gen_sin_string_part(slice_subrange(whole, 6, 9));
        r.append(tail.as_str());
        proof {
            assert("-"@ =~= seq!['-']);
            assert(r@ =~= dashed_chars_of_digits(self@));
        }
        r
    }
}

/// A doubled digit lies in 10..=18 when it exceeds 9, and reducing it by
/// `(w % 10) + 1` is then exactly summing its two decimal digits.
pub proof fn lemma_reduction_sums_decimal_digits(w: int)
    requires
        10 <= w <= 18,
    ensures
        (w % 10) + 1 == w / 10 + w % 10,
{
}

/// Digit extraction distributes over concatenation: the digits of `a + b`
/// are the digits of `a` followed by the digits of `b`.
pub proof fn lemma_digits_of_concat(a: Seq<char>, b: Seq<char>)
    ensures
        digits_of(a + b) == digits_of(a) + digits_of(b),
    decreases b.len(),
{
    if b.len() == 0 {
        assert(a + b =~= a);
        assert(digits_of(a) + digits_of(b) =~= digits_of(a));
    } else {
        lemma_digits_of_concat(a, b.drop_last());
        assert((a + b).drop_last() =~= a + b.drop_last());
        assert((a + b).last() == b.last());
        if is_decimal_digit(b.last()) {
            assert(digits_of(a) + digits_of(b) =~= (digits_of(a) + digits_of(
                b.drop_last(),
            )).push(digit_of_char(b.last())));
        }
    }
}

/// A sequence without a single digit character contributes no digits at
/// all: this is why arbitrary separators are tolerated wherever they
/// stand.
pub proof fn lemma_non_digits_vanish(s: Seq<char>)
    requires
        forall|i: int| 0 <= i < s.len() ==> !is_decimal_digit(s[i]),
    ensures
        digits_of(s) == Seq::<u8>::empty(),
    decreases s.len(),
{
    if s.len() > 0 {
        lemma_non_digits_vanish(s.drop_last());
    }
}

/// Two inputs that carry the same digits in the same order parse to the
/// same outcome, whatever non-digit characters surround them: parsing
/// depends on the extracted digits alone.
pub proof fn lemma_separator_tolerance(s1: Seq<char>, s2: Seq<char>)
    requires
        digits_of(s1) == digits_of(s2),
    ensures
        parse_outcome(s1) == parse_outcome(s2),
{
}

/// Rendering digits and extracting them again is the identity: the
/// contiguous rendering of a digit sequence holds exactly those digits.
pub proof fn lemma_digits_of_rendered(ds: Seq<u8>)
    requires
        forall|i: int| 0 <= i < ds.len() ==> ds[i] <= 9,
    ensures
        digits_of(chars_of_digits(ds)) == ds,
    decreases ds.len(),
{
    if ds.len() == 0 {
        assert(digits_of(chars_of_digits(ds)) =~= ds);
    } else {
        lemma_digits_of_rendered(ds.drop_last());
        let cs = chars_of_digits(ds);
        assert(cs.drop_last() =~= chars_of_digits(ds.drop_last()));
        assert(cs.last() == char_of_digit(ds.last()));
        assert(is_decimal_digit(char_of_digit(ds.last())));
        assert(digit_of_char(char_of_digit(ds.last())) == ds.last());
        assert(digits_of(cs) =~= ds);
    }
}

/// Round trip: re-parsing the contiguous rendering of a validated SIN
/// succeeds and yields the same digit sequence.
pub proof fn lemma_render_parse_round_trip(sin: SIN)
    requires
        sin.wf(),
    ensures
        parse_outcome(chars_of_digits(sin@)) == Ok::<Seq<u8>, SINParseError>(sin@),
{
    lemma_digits_of_rendered(sin@);
}

/// Round trip through the dash-grouped rendering: the two dashes are
/// stripped away again, so re-parsing also yields the same digit
/// sequence.
pub proof fn lemma_dashed_render_parse_round_trip(sin: SIN)
    requires
        sin.wf(),
    ensures
        parse_outcome(dashed_chars_of_digits(sin@)) == Ok::<Seq<u8>, SINParseError>(sin@),
{
    let ds = sin@;
    let g1 = chars_of_digits(ds.subrange(0, 3));
    let g2 = chars_of_digits(ds.subrange(3, 6));
    let g3 = chars_of_digits(ds.subrange(6, 9));
    let dash = seq!['-'];
    lemma_digits_of_concat(g1, dash);
    lemma_digits_of_concat(g1 + dash, g2);
    lemma_digits_of_concat(g1 + dash + g2, dash);
    lemma_digits_of_concat(g1 + dash + g2 + dash, g3);
    lemma_non_digits_vanish(dash);
    lemma_digits_of_rendered(ds.subrange(0, 3));
    lemma_digits_of_rendered(ds.subrange(3, 6));
    lemma_digits_of_rendered(ds.subrange(6, 9));
    assert(digits_of(dashed_chars_of_digits(ds)) =~= ds);
}

} // verus!
