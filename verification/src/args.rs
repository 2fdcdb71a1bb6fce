//! What the command line asks for.
//!
//! The arguments are the program's name, then the directory to scan, then
//! the number of files to show. Both may be left out.

use vstd::prelude::*;
use vstd::string::*;
use vstd::utf8::is_ascii_chars_encode_utf8;

verus! {

/// The number of files shown where the command line names no other.
pub const DEFAULT_NUMBER_OF_FILES: usize = 10;

/// The number of files shown in a window, where no command line is read.
pub const WINDOW_NUMBER_OF_FILES: usize = 20;

/// The byte of the plus sign.
const PLUS: u8 = 43;

/// The byte of the digit zero.
const DIGIT_ZERO: u8 = 48;

/// The byte of the digit nine.
const DIGIT_NINE: u8 = 57;

/// `c` is a decimal digit.
pub open spec fn is_digit(c: char) -> bool {
    '0' <= c <= '9'
}

/// The number that the digit `c` stands for.
pub open spec fn digit_value(c: char) -> nat {
    (c as nat - '0' as nat) as nat
}

/// The number that the decimal digits `digits` write.
pub open spec fn number_of(digits: Seq<char>) -> nat
    decreases digits.len(),
{
    if digits.len() == 0 {
        0
    } else {
        number_of(digits.drop_last()) * 10 + digit_value(digits.last())
    }
}

/// `text` without the plus sign that a number may start with.
pub open spec fn unsigned_part(text: Seq<char>) -> Seq<char> {
    if text.len() > 0 && text[0] == '+' {
        text.skip(1)
    } else {
        text
    }
}

/// `text` writes a number: one decimal digit or more, behind a plus sign
/// or none.
pub open spec fn is_number(text: Seq<char>) -> bool {
    let digits = unsigned_part(text);
    digits.len() > 0 && forall|i: int| 0 <= i < digits.len() ==> is_digit(#[trigger] digits[i])
}

/// The number of files that the argument `text` asks for: the number it
/// writes, or the default where it writes none, writes zero or writes one
/// too large for the machine.
pub open spec fn count_from(text: Seq<char>) -> nat {
    let number = number_of(unsigned_part(text));
    if is_number(text) && 1 <= number <= usize::MAX {
        number
    } else {
        DEFAULT_NUMBER_OF_FILES as nat
    }
}

/// The number of files that the command line asks for.
pub open spec fn number_of_files_from(args: Seq<Seq<char>>) -> nat {
    if args.len() < 3 {
        DEFAULT_NUMBER_OF_FILES as nat
    } else {
        count_from(args[2])
    }
}

/// The directory that the command line asks for: the current one where it
/// names none.
pub open spec fn dir_from(args: Seq<Seq<char>>) -> Seq<char> {
    if args.len() < 2 {
        seq!['.', '/']
    } else {
        args[1]
    }
}

/// A number is not smaller than what its first digits write.
proof fn lemma_number_of_prefix(digits: Seq<char>, n: int)
    requires
        0 <= n <= digits.len(),
    ensures
        number_of(digits.take(n)) <= number_of(digits),
    decreases digits.len(),
{
    if n == digits.len() {
        assert(digits.take(n) =~= digits);
    } else {
        assert(digits.drop_last().take(n) =~= digits.take(n));
        lemma_number_of_prefix(digits.drop_last(), n);
    }
}

/// The number that `text` writes, if it writes one that the machine can hold.
fn parse_number(text: &str) -> (number: Option<usize>)
    ensures
        number == if is_number(text@) && number_of(unsigned_part(text@)) <= usize::MAX {
            Some(number_of(unsigned_part(text@)) as usize)
        } else {
            None
        },
{
    if !text.is_ascii() {
        proof {
            let i = choose|i: int| 0 <= i < text@.len() && !('\0' <= #[trigger] text@[i] <= '\u{7f}');
            let digits = unsigned_part(text@);
            if text@.len() > 0 && text@[0] == '+' {
                assert(digits[i - 1] == text@[i]);
            } else {
                assert(digits[i] == text@[i]);
            }
        }
        return None;
    }
    let bytes = text.as_bytes();
    proof {
        is_ascii_chars_encode_utf8(text@);
    }
    let n: usize = bytes.len();
    let start: usize = if n > 0 && bytes[0] == PLUS {
        1
    } else {
        0
    };
    let ghost digits = unsigned_part(text@);
    assert(digits.len() == n - start);
    assert(forall|k: int| 0 <= k < digits.len() ==> digits[k] == text@[k + start]);
    if start == n {
        return None;
    }
    let mut value: usize = 0;
    let mut i: usize = start;
    while i < n
        invariant
            start <= i <= n,
            n == text@.len(),
            n == bytes@.len(),
            digits == unsigned_part(text@),
            digits.len() == n - start,
            forall|k: int| 0 <= k < n ==> text@[k] as u8 == #[trigger] bytes@[k],
            forall|k: int| 0 <= k < n ==> '\0' <= #[trigger] text@[k] <= '\u{7f}',
            forall|k: int| 0 <= k < digits.len() ==> #[trigger] digits[k] == text@[k + start],
            forall|k: int| 0 <= k < i - start ==> is_digit(#[trigger] digits[k]),
            value == number_of(digits.take(i - start)),
        decreases n - i,
    {
        let byte: u8 = bytes[i];
        let ghost c = digits[i - start];
        assert(c == text@[i as int]);
        assert(c as u8 == byte);
        if byte < DIGIT_ZERO || byte > DIGIT_NINE {
            assert(!is_digit(c));
            return None;
        }
        assert(is_digit(c));
        let digit: usize = (byte - DIGIT_ZERO) as usize;
        proof {
            assert(digits.take(i - start + 1).drop_last() =~= digits.take(i - start));
            assert(digits.take(i - start + 1).last() == c);
            assert(digit == digit_value(c));
        }
        if value > (usize::MAX - digit) / 10 {
            proof {
                lemma_number_of_prefix(digits, i - start + 1);
                assert(number_of(digits.take(i - start + 1)) == value * 10 + digit);
            }
            return None;
        }
        value = value * 10 + digit;
        i = i + 1;
    }
    assert(digits.take(n - start) =~= digits);
    Some(value)
}

/// The number of files to show: the third argument where it writes a
/// number from one up, the default of ten where there is none or it writes
/// nothing of the kind.
pub fn parse_number_of_files(args: &Vec<String>) -> (count: usize)
    ensures
        count == number_of_files_from(args.deep_view()),
        count >= 1,
{
    if args.len() < 3 {
        return DEFAULT_NUMBER_OF_FILES;
    }
    assert(args.deep_view()[2] == args@[2]@);
    match parse_number(args[2].as_str()) {
        Some(number) => if number >= 1 {
            number
        } else {
            DEFAULT_NUMBER_OF_FILES
        },
        None => DEFAULT_NUMBER_OF_FILES,
    }
}

/// The directory to scan: the second argument, or the current directory
/// where there is none.
pub fn parse_dir(args: &Vec<String>) -> (dir: String)
    ensures
        dir@ == dir_from(args.deep_view()),
{
    if args.len() < 2 {
        proof {
            reveal_strlit("./");
        }
        let dir = String::from_str("./");
        assert(dir@ =~= seq!['.', '/']);
        dir
    } else {
        assert(args.deep_view()[1] == args@[1]@);
        args[1].clone()
    }
}

} // verus!
