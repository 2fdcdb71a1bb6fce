//! Byte counts in words: `1500000` reads `1.50 MB`.
//!
//! The units go up by thousands, from `B` to `YB`. A count is shown in the
//! largest unit that it reaches, with two decimals, rounded to the nearest
//! hundredth, halves away from zero. Zero is shown as `0 B`. A negative count
//! is shown as its magnitude behind a minus sign.

use crate::file_info::{views_of, FileInfo, FileInfoView};
use vstd::arithmetic::div_mod::{
    lemma_div_denominator, lemma_fundamental_div_mod, lemma_hoist_over_denominator,
};
use vstd::prelude::*;
use vstd::string::*;

verus! {

/// The largest unit is the eighth after the byte.
pub const LARGEST_UNIT: usize = 8;

/// `1000` to the power `e`.
pub open spec fn pow1000(e: nat) -> nat
    decreases e,
{
    if e == 0 {
        1
    } else {
        1000 * pow1000((e - 1) as nat)
    }
}

/// How many times `m` can be divided by 1000 without falling under 1,
/// counting no further than `limit`.
pub open spec fn magnitude(m: nat, limit: nat) -> nat
    decreases limit,
{
    if limit == 0 || m < 1000 {
        0
    } else {
        1 + magnitude(m / 1000, (limit - 1) as nat)
    }
}

/// The unit in which a count of `m` bytes is shown.
pub open spec fn unit_exponent(m: nat) -> nat {
    magnitude(m, LARGEST_UNIT as nat)
}

/// `m` bytes in hundredths of the unit `e`, rounded to the nearest one.
pub open spec fn hundredths(m: nat, e: nat) -> nat {
    ((200 * m + pow1000(e)) / (2 * pow1000(e))) as nat
}

/// The character of the digit `d`.
pub open spec fn digit_char(d: nat) -> char {
    if d == 0 {
        '0'
    } else if d == 1 {
        '1'
    } else if d == 2 {
        '2'
    } else if d == 3 {
        '3'
    } else if d == 4 {
        '4'
    } else if d == 5 {
        '5'
    } else if d == 6 {
        '6'
    } else if d == 7 {
        '7'
    } else if d == 8 {
        '8'
    } else {
        '9'
    }
}

/// `n` in decimal digits, without leading zeros.
pub open spec fn decimal(n: nat) -> Seq<char>
    decreases n,
{
    if n < 10 {
        seq![digit_char(n)]
    } else {
        decimal(n / 10).push(digit_char(n % 10))
    }
}

/// The name of the unit `e`.
pub open spec fn unit_name(e: nat) -> Seq<char> {
    if e == 0 {
        seq!['B']
    } else if e == 1 {
        seq!['k', 'B']
    } else if e == 2 {
        seq!['M', 'B']
    } else if e == 3 {
        seq!['G', 'B']
    } else if e == 4 {
        seq!['T', 'B']
    } else if e == 5 {
        seq!['P', 'B']
    } else if e == 6 {
        seq!['E', 'B']
    } else if e == 7 {
        seq!['Z', 'B']
    } else {
        seq!['Y', 'B']
    }
}

/// The magnitude of `num`.
pub open spec fn magnitude_of(num: int) -> nat {
    if num < 0 {
        (-num) as nat
    } else {
        num as nat
    }
}

/// A count of `num` bytes in words.
pub open spec fn pretty_text(num: int) -> Seq<char> {
    if num == 0 {
        seq!['0', ' ', 'B']
    } else {
        let m = magnitude_of(num);
        let e = unit_exponent(m);
        let h = hundredths(m, e);
        let sign = if num < 0 {
            seq!['-']
        } else {
            Seq::<char>::empty()
        };
        sign + decimal(h / 100) + seq!['.', digit_char(h % 100 / 10), digit_char(h % 10), ' ']
            + unit_name(e)
    }
}

/// The unit of a count is the largest one that the count reaches: `m` is at
/// least the unit, and under the unit above unless there is none above.
pub proof fn lemma_unit_is_largest_reached(m: nat)
    requires
        m >= 1,
    ensures
        unit_exponent(m) <= LARGEST_UNIT,
        pow1000(unit_exponent(m)) <= m,
        unit_exponent(m) < LARGEST_UNIT ==> m < pow1000(unit_exponent(m) + 1),
{
    lemma_magnitude_bounds(m, LARGEST_UNIT as nat);
}

proof fn lemma_magnitude_bounds(m: nat, limit: nat)
    requires
        m >= 1,
    ensures
        magnitude(m, limit) <= limit,
        pow1000(magnitude(m, limit)) <= m,
        magnitude(m, limit) < limit ==> m < pow1000(magnitude(m, limit) + 1),
    decreases limit,
{
    reveal_with_fuel(pow1000, 2);
    if limit != 0 && m >= 1000 {
        lemma_magnitude_bounds(m / 1000, (limit - 1) as nat);
    }
}

/// The hundredths shown are the nearest to the count, and of two that are
/// equally near the larger: the count times a hundred lies within half a
/// unit of them.
pub proof fn lemma_hundredths_are_nearest(m: nat, e: nat)
    ensures
        2 * hundredths(m, e) * pow1000(e) <= 200 * m + pow1000(e),
        200 * m < 2 * hundredths(m, e) * pow1000(e) + pow1000(e),
{
    lemma_pow1000_positive(e);
    let p = pow1000(e) as int;
    let x = 200 * m + p;
    lemma_fundamental_div_mod(x, 2 * p);
    assert(x == (2 * p) * (x / (2 * p)) + x % (2 * p));
    assert(0 <= x % (2 * p) < 2 * p);
    assert((2 * p) * (x / (2 * p)) == 2 * (x / (2 * p)) * p) by (nonlinear_arith);
}

proof fn lemma_pow1000_positive(e: nat)
    ensures
        pow1000(e) >= 1,
    decreases e,
{
    if e > 0 {
        lemma_pow1000_positive((e - 1) as nat);
    }
}

/// A negative count reads as its magnitude behind a minus sign.
pub proof fn lemma_negative_is_minus_magnitude(num: int)
    requires
        num > 0,
    ensures
        pretty_text(-num) == seq!['-'] + pretty_text(num),
{
    let m = magnitude_of(num);
    let e = unit_exponent(m);
    let h = hundredths(m, e);
    let tail = seq!['.', digit_char(h % 100 / 10), digit_char(h % 10), ' '];
    assert(pretty_text(num) =~= decimal(h / 100) + tail + unit_name(e));
    assert(pretty_text(-num) =~= seq!['-'] + (decimal(h / 100) + tail + unit_name(e)));
}

/// The digit `d` as text.
fn digit_text(d: u8) -> (text: &'static str)
    requires
        d < 10,
    ensures
        text@ == seq![digit_char(d as nat)],
{
    proof {
        reveal_strlit("0");
        reveal_strlit("1");
        reveal_strlit("2");
        reveal_strlit("3");
        reveal_strlit("4");
        reveal_strlit("5");
        reveal_strlit("6");
        reveal_strlit("7");
        reveal_strlit("8");
        reveal_strlit("9");
    }
    let text = match d {
        0 => "0",
        1 => "1",
        2 => "2",
        3 => "3",
        4 => "4",
        5 => "5",
        6 => "6",
        7 => "7",
        8 => "8",
        _ => "9",
    };
    assert(text@ =~= seq![digit_char(d as nat)]);
    text
}

/// Writes `value` in decimal digits at the end of `text`.
fn append_decimal(text: &mut String, value: u128)
    ensures
        final(text)@ == old(text)@ + decimal(value as nat),
    decreases value,
{
    if value >= 10 {
        append_decimal(text, value / 10);
    }
    let digit = (value % 10) as u8;
    text.append(digit_text(digit));
    assert(text@ =~= old(text)@ + decimal(value as nat));
}

/// The name of the unit `exponent` as text.
fn unit_text(exponent: usize) -> (text: &'static str)
    requires
        exponent <= LARGEST_UNIT,
    ensures
        text@ == unit_name(exponent as nat),
{
    proof {
        reveal_strlit("B");
        reveal_strlit("kB");
        reveal_strlit("MB");
        reveal_strlit("GB");
        reveal_strlit("TB");
        reveal_strlit("PB");
        reveal_strlit("EB");
        reveal_strlit("ZB");
        reveal_strlit("YB");
    }
    let text = match exponent {
        0 => "B",
        1 => "kB",
        2 => "MB",
        3 => "GB",
        4 => "TB",
        5 => "PB",
        6 => "EB",
        7 => "ZB",
        _ => "YB",
    };
    assert(text@ =~= unit_name(exponent as nat));
    text
}

/// The powers of 1000 that name a unit are positive and reach a septillion
/// at most.
proof fn lemma_pow1000_bounds(e: nat)
    requires
        e <= LARGEST_UNIT,
    ensures
        1 <= pow1000(e) <= 1_000_000_000_000_000_000_000_000,
        pow1000(e + 1) == 1000 * pow1000(e),
{
    reveal_with_fuel(pow1000, 10);
}

/// Rounding the whole count gives what rounding its part under one unit
/// gives, beside a hundred for each whole unit; that part rounds to a hundred
/// at most.
proof fn lemma_hundredths_by_parts(m: nat, e: nat)
    requires
        e <= LARGEST_UNIT,
    ensures
        hundredths(m, e) == (m / pow1000(e)) * 100 + (200 * (m % pow1000(e)) + pow1000(e)) / (2
            * pow1000(e)),
        (200 * (m % pow1000(e)) + pow1000(e)) / (2 * pow1000(e)) <= 100,
{
    lemma_pow1000_bounds(e);
    let p = pow1000(e) as int;
    let whole = (m as int) / p;
    let rest = (m as int) % p;
    lemma_fundamental_div_mod(m as int, p);
    lemma_hoist_over_denominator(200 * rest + p, 100 * whole, (2 * p) as nat);
    assert(200 * rest + p + (100 * whole) * (2 * p) == 200 * m + p) by (nonlinear_arith)
        requires
            m == p * whole + rest,
    ;
    assert((200 * rest + p) / (2 * p) <= 100) by (nonlinear_arith)
        requires
            0 <= rest < p,
    ;
}

/// The count of whole units leaves room to go on to hundredths.
proof fn lemma_whole_part_is_small(amount: u128, scale: u128, exponent: nat)
    requires
        exponent <= LARGEST_UNIT,
        scale == pow1000(exponent),
        exponent < LARGEST_UNIT ==> amount / scale < 1000,
    ensures
        1 <= scale <= 1_000_000_000_000_000_000_000_000,
        (amount / scale) * 100 + 100 <= u128::MAX,
{
    lemma_pow1000_bounds(exponent);
    if exponent == LARGEST_UNIT {
        reveal_with_fuel(pow1000, 10);
        assert(scale == 1_000_000_000_000_000_000_000_000u128);
        assert(amount / 1_000_000_000_000_000_000_000_000u128 <= 340_282_366_920_939);
    }
}

/// The three lines that describe one file: its name, its path and its size
/// in words.
pub open spec fn description_of(file: FileInfoView) -> Seq<char> {
    "File Name: "@ + file.name + "\n"@ + "File Path: "@ + file.path + "\n"@ + "File size: "@
        + pretty_text(file.size as int) + "\n"@
}

/// The listing of `files`: for each file in turn its number, counted from
/// one, its description and a rule.
pub open spec fn listing_of(files: Seq<FileInfoView>) -> Seq<char>
    decreases files.len(),
{
    if files.len() == 0 {
        Seq::empty()
    } else {
        listing_of(files.drop_last()) + "File Number: "@ + decimal(files.len()) + "\n"@
            + description_of(files.last()) + "---------------------------------------\n"@
    }
}

/// The listing of the files found, for a console.
pub fn pretty_listing(files: &Vec<FileInfo>) -> (text: String)
    ensures
        text@ == listing_of(views_of(files@)),
{
    let mut text = String::new();
    let mut i: usize = 0;
    while i < files.len()
        invariant
            i <= files.len(),
            text@ == listing_of(views_of(files@).take(i as int)),
        decreases files.len() - i,
    {
        let ghost shown = views_of(files@).take(i + 1);
        proof {
            assert(shown.drop_last() =~= views_of(files@).take(i as int));
            assert(shown.last() == files@[i as int]@);
        }
        text.append("File Number: ");
        append_decimal(&mut text, (i + 1) as u128);
        text.append("\n");
        let description = files[i].pretty_print();
        text.append(description.as_str());
        text.append("---------------------------------------\n");
        assert(text@ =~= listing_of(shown));
        i = i + 1;
    }
    assert(views_of(files@).take(files.len() as int) =~= views_of(files@));
    text
}

impl FileInfo {
    /// The description of the file: three lines, with its name, its path
    /// and its size in words.
    pub fn pretty_print(&self) -> (text: String)
        ensures
            text@ == description_of(self@),
    {
        let mut text = String::from_str("File Name: ");
        text.append(self.name.as_str());
        text.append("\n");
        text.append("File Path: ");
        text.append(self.path.as_str());
        text.append("\n");
        text.append("File size: ");
        let size = Self::convert_bytes_to_pretty_string(self.size as i128);
        text.append(size.as_str());
        text.append("\n");
        assert(text@ =~= description_of(self@));
        text
    }

    /// A byte count in words: in the largest unit that it reaches, from `B`
    /// to `YB` by thousands, with two decimals.
    pub fn convert_bytes_to_pretty_string(num: i128) -> (text: String)
        ensures
            text@ == pretty_text(num as int),
    {
        if num == 0 {
            proof {
                reveal_strlit("0 B");
            }
            let text = String::from_str("0 B");
            assert(text@ =~= pretty_text(0));
            return text;
        }
        let negative = num < 0;
        let amount: u128 = if negative {
            (-(num + 1)) as u128 + 1
        } else {
            num as u128
        };
        assert(amount == magnitude_of(num as int));
        let mut exponent: usize = 0;
        let mut scale: u128 = 1;
        while exponent < LARGEST_UNIT && amount / scale >= 1000
            invariant
                exponent <= LARGEST_UNIT,
                scale == pow1000(exponent as nat),
                1 <= scale <= amount,
                unit_exponent(amount as nat) == exponent + magnitude(
                    (amount / scale) as nat,
                    (LARGEST_UNIT - exponent) as nat,
                ),
            decreases LARGEST_UNIT - exponent,
        {
            proof {
                lemma_pow1000_bounds(exponent as nat);
                lemma_div_denominator(amount as int, scale as int, 1000);
                lemma_fundamental_div_mod(amount as int, scale as int);
                assert(scale * 1000 <= amount) by (nonlinear_arith)
                    requires
                        amount / scale >= 1000,
                        amount == scale * (amount / scale) + amount % scale,
                        amount % scale >= 0,
                        scale >= 1,
                ;
            }
            scale = scale * 1000;
            exponent = exponent + 1;
        }
        proof {
            lemma_whole_part_is_small(amount, scale, exponent as nat);
            lemma_hundredths_by_parts(amount as nat, exponent as nat);
        }
        let whole: u128 = amount / scale;
        let rest: u128 = amount % scale;
        let fraction: u128 = (rest * 200 + scale) / (2 * scale);
        let total: u128 = whole * 100 + fraction;
        proof {
            reveal_strlit("");
            reveal_strlit("-");
            reveal_strlit(".");
            reveal_strlit(" ");
        }
        let mut text = String::from_str(if negative { "-" } else { "" });
        append_decimal(&mut text, total / 100);
        text.append(".");
        text.append(digit_text((total % 100 / 10) as u8));
        text.append(digit_text((total % 10) as u8));
        text.append(" ");
        text.append(unit_text(exponent));
        assert(text@ =~= pretty_text(num as int));
        text
    }
}

} // verus!
