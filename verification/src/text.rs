//! Numbers as origin URIs and messages write them, and a nickname as a
//! target names it.
use vstd::prelude::*;

verus! {

/// The character of the digit `value`, in lower case past nine.
pub open spec fn digit(value: int) -> char {
    if value < 10 {
        ('0' as int + value) as char
    } else {
        ('a' as int + (value - 10)) as char
    }
}

/// `value` in decimal, with no leading zero.
pub open spec fn in_decimal(value: nat) -> Seq<char>
    decreases value,
{
    if value < 10 {
        seq![digit(value as int)]
    } else {
        in_decimal(value / 10).push(digit((value % 10) as int))
    }
}

/// `value` in four hexadecimal digits.
pub open spec fn in_hexadecimal(value: u16) -> Seq<char> {
    seq![
        digit((value / 4096) as int),
        digit((value / 256 % 16) as int),
        digit((value / 16 % 16) as int),
        digit((value % 16) as int),
    ]
}

/// What the hexadecimal digit `c` is worth, in either case.
pub open spec fn worth(c: char) -> Option<int> {
    if '0' <= c <= '9' {
        Some(c as int - '0' as int)
    } else if 'a' <= c <= 'f' {
        Some(c as int - 'a' as int + 10)
    } else if 'A' <= c <= 'F' {
        Some(c as int - 'A' as int + 10)
    } else {
        None
    }
}

/// Whether every character is a hexadecimal digit.
pub open spec fn all_digits(text: Seq<char>) -> bool {
    forall|i: int| 0 <= i < text.len() ==> (#[trigger] worth(text[i])) is Some
}

/// What a run of hexadecimal digits is worth.
pub open spec fn run_worth(text: Seq<char>) -> int
    decreases text.len(),
{
    if text.len() == 0 {
        0
    } else {
        run_worth(text.drop_last()) * 16 + worth(text.last())->0
    }
}

/// The sixteen-bit number `text` names in hexadecimal: an optional plus sign,
/// then at least one digit and nothing but digits, worth no more than sixteen
/// bits hold.
pub open spec fn named_number(text: Seq<char>) -> Option<u16> {
    let digits = if text.len() > 0 && text[0] == '+' {
        text.skip(1)
    } else {
        text
    };
    if digits.len() > 0 && all_digits(digits) && run_worth(digits) <= u16::MAX {
        Some(run_worth(digits) as u16)
    } else {
        None
    }
}

/// The digit `value` as a string.
fn digit_text(value: u16) -> (text: &'static str)
    requires
        value < 16,
    ensures
        text@ == seq![digit(value as int)],
{
    proof {
        reveal_strlit("0");
        reveal_strlit("1");
        reveal_strlit("2");
        reveal_strlit("3");
        reveal_strlit("4");
        reveal_strlit("5");
        reveal_strlit("6");
        reveal_strlit("7");
        reveal_strlit("8");
        reveal_strlit("9");
        reveal_strlit("a");
        reveal_strlit("b");
        reveal_strlit("c");
        reveal_strlit("d");
        reveal_strlit("e");
        reveal_strlit("f");
    }
    let text: &'static str = match value {
        0 => "0",
        1 => "1",
        2 => "2",
        3 => "3",
        4 => "4",
        5 => "5",
        6 => "6",
        7 => "7",
        8 => "8",
        9 => "9",
        10 => "a",
        11 => "b",
        12 => "c",
        13 => "d",
        14 => "e",
        _ => "f",
    };
    assert(text@ =~= seq![digit(value as int)]);
    text
}

/// `value` in decimal.
pub(crate) fn decimal(value: u16) -> (text: String)
    ensures
        text@ == in_decimal(value as nat),
    decreases value,
{
    if value < 10 {
        digit_text(value).to_string()
    } else {
        let mut text = decimal(value / 10);
        text.append(digit_text(value % 10));
        assert(text@ =~= in_decimal(value as nat));
        text
    }
}

/// `value` in four hexadecimal digits.
pub(crate) fn hexadecimal(value: u16) -> (text: String)
    ensures
        text@ == in_hexadecimal(value),
{
    let mut text = digit_text(value / 4096).to_string();
    text.append(digit_text(value / 256 % 16));
    text.append(digit_text(value / 16 % 16));
    text.append(digit_text(value % 16));
    assert(text@ =~= in_hexadecimal(value));
    text
}

/// What one hexadecimal digit is worth.
fn digit_worth(c: char) -> (value: Option<u32>)
    ensures
        match value {
            Some(value) => worth(c) == Some(value as int) && value < 16,
            None => worth(c) is None,
        },
{
    if '0' <= c && c <= '9' {
        Some(c as u32 - '0' as u32)
    } else if 'a' <= c && c <= 'f' {
        Some(c as u32 - 'a' as u32 + 10)
    } else if 'A' <= c && c <= 'F' {
        Some(c as u32 - 'A' as u32 + 10)
    } else {
        None
    }
}

/// A longer run of digits is worth no less.
proof fn lemma_run_worth_grows(text: Seq<char>, shorter: int)
    requires
        all_digits(text),
        0 <= shorter <= text.len(),
    ensures
        0 <= run_worth(text.take(shorter)) <= run_worth(text),
    decreases text.len(),
{
    if text.len() > 0 {
        assert(worth(text.last()) is Some);
        assert(all_digits(text.drop_last())) by {
            assert forall|i: int| 0 <= i < text.drop_last().len() implies (#[trigger] worth(
                text.drop_last()[i],
            )) is Some by {
                assert(worth(text[i]) is Some);
            }
        }
        if shorter < text.len() {
            lemma_run_worth_grows(text.drop_last(), shorter);
            assert(text.drop_last().take(shorter) =~= text.take(shorter));
        } else {
            lemma_run_worth_grows(text.drop_last(), shorter - 1);
            assert(text.take(shorter) =~= text);
        }
    }
}

/// The sixteen-bit number `text` names in hexadecimal, if it names one.
pub fn parse_hexadecimal(text: &str) -> (value: Option<u16>)
    ensures
        value == named_number(text@),
{
    let length: usize = text.unicode_len();
    let start: usize = if length > 0 && text.get_char(0) == '+' {
        1
    } else {
        0
    };
    if start == length {
        return None;
    }
    let ghost digits = text@.skip(start as int);
    assert(start == 0 ==> digits =~= text@);
    let mut value: u32 = 0;
    let mut at: usize = start;
    while at < length
        invariant
            length == text@.len(),
            start <= at <= length,
            digits == text@.skip(start as int),
            named_number(text@) == (if digits.len() > 0 && all_digits(digits) && run_worth(digits)
                <= u16::MAX {
                Some(run_worth(digits) as u16)
            } else {
                None
            }),
            forall|i: int| 0 <= i < at - start ==> (#[trigger] worth(digits[i])) is Some,
            value == run_worth(digits.take(at - start)),
            value <= u16::MAX,
        decreases length - at,
    {
        assert(digits.take(at - start + 1).drop_last() =~= digits.take(at - start));
        assert(digits[at - start] == text@[at as int]);
        match digit_worth(text.get_char(at)) {
            Some(worth_of_digit) => {
                value = value * 16 + worth_of_digit;
                if value > 0xffff {
                    proof {
                        if all_digits(digits) {
                            lemma_run_worth_grows(digits, at - start + 1);
                        }
                    }
                    return None;
                }
            },
            None => {
                return None;
            },
        }
        at = at + 1;
    }
    assert(digits.take(at - start) =~= digits);
    Some(value as u16)
}

/// The four digits of a number name that number.
pub proof fn lemma_hexadecimal_reads_back(value: u16)
    ensures
        named_number(in_hexadecimal(value)) == Some(value),
{
    let text = in_hexadecimal(value);
    assert forall|d: int| 0 <= d < 16 implies #[trigger] worth(digit(d)) == Some(d) by {
    }
    assert(text[0] != '+');
    assert(text.drop_last().drop_last().drop_last().drop_last().len() == 0);
    assert(text.drop_last().drop_last().drop_last() =~= seq![text[0]]);
    assert(text.drop_last().drop_last() =~= seq![text[0], text[1]]);
    assert(text.drop_last() =~= seq![text[0], text[1], text[2]]);
    reveal_with_fuel(run_worth, 5);
    assert(run_worth(text) == (((value / 4096) * 16 + value / 256 % 16) * 16 + value / 16 % 16) * 16
        + value % 16);
}

/// Decimal text reads back: its characters are digits, the first of several
/// is no zero, and taken in base ten they come to the value.
pub proof fn lemma_decimal_reads_back(value: nat)
    ensures
        in_decimal(value).len() > 0,
        forall|i: int|
            0 <= i < in_decimal(value).len() ==> '0' <= #[trigger] in_decimal(value)[i] <= '9',
        in_decimal(value).len() > 1 ==> in_decimal(value)[0] != '0',
        in_decimal(value).fold_left(
            0int,
            |sum: int, c: char| 10 * sum + (c as int - '0' as int),
        ) == value,
    decreases value,
{
    let text = in_decimal(value);
    let step = |sum: int, c: char| 10 * sum + (c as int - '0' as int);
    if value < 10 {
        assert(text.drop_last().fold_left(0int, step) == 0);
    } else {
        let before = in_decimal(value / 10);
        lemma_decimal_reads_back(value / 10);
        assert(text.drop_last() =~= before);
        assert(before.fold_left(0int, step) == value / 10);
        assert forall|i: int| 0 <= i < text.len() implies '0' <= #[trigger] text[i] <= '9' by {
            if i < before.len() {
                assert(text[i] == before[i]);
            }
        }
        assert(text[0] == before[0]);
        assert(text.len() > 1 ==> text[0] != '0') by {
            if before.len() == 1 && before[0] == '0' {
                assert(before.drop_last().fold_left(0int, step) == 0);
            }
        }
    }
}

/// No two numbers have one decimal text.
pub proof fn lemma_decimal_tells_apart(left: nat, right: nat)
    requires
        left != right,
    ensures
        in_decimal(left) != in_decimal(right),
{
    lemma_decimal_reads_back(left);
    lemma_decimal_reads_back(right);
}

/// Hexadecimal text is four digits, none of them in upper case, which taken in
/// base sixteen come to the value.
pub proof fn lemma_hexadecimal_is_four_digits(value: u16)
    ensures
        in_hexadecimal(value).len() == 4,
        forall|i: int|
            0 <= i < 4 ==> ('0' <= #[trigger] in_hexadecimal(value)[i] <= '9' || 'a'
                <= in_hexadecimal(value)[i] <= 'f'),
        in_hexadecimal(value).fold_left(
            0int,
            |sum: int, c: char|
                16 * sum + (if c <= '9' {
                    c as int - '0' as int
                } else {
                    c as int - 'a' as int + 10
                }),
        ) == value,
{
    let step = |sum: int, c: char|
        16 * sum + (if c <= '9' {
            c as int - '0' as int
        } else {
            c as int - 'a' as int + 10
        });
    let text = in_hexadecimal(value);
    let three = text.drop_last();
    let two = three.drop_last();
    let one = two.drop_last();
    assert(one.drop_last().fold_left(0int, step) == 0);
    assert(one.fold_left(0int, step) == value / 4096);
    assert(two.fold_left(0int, step) == value / 256);
    assert(three.fold_left(0int, step) == value / 16);
}

/// A run of hexadecimal digits, in either case, comes to what it is in base
/// sixteen.
proof fn lemma_run_worth_is_base_sixteen(text: Seq<char>)
    requires
        all_digits(text),
    ensures
        run_worth(text) == text.fold_left(
            0int,
            |sum: int, c: char|
                16 * sum + (if c <= '9' {
                    c as int - '0' as int
                } else if c <= 'F' {
                    c as int - 'A' as int + 10
                } else {
                    c as int - 'a' as int + 10
                }),
        ),
    decreases text.len(),
{
    if text.len() > 0 {
        let before = text.drop_last();
        assert(all_digits(before)) by {
            assert forall|i: int| 0 <= i < before.len() implies (#[trigger] worth(before[i])) is Some by {
                assert(worth(text[i]) is Some);
            }
        }
        lemma_run_worth_is_base_sixteen(before);
        assert(worth(text[text.len() - 1]) is Some);
    }
}

/// What names a number: digits in either case, at least one, after a plus sign
/// or none, that in base sixteen come to no more than sixteen bits hold. The
/// number is what they come to.
pub proof fn lemma_what_names_a_number(signed: bool, digits: Seq<char>)
    requires
        signed || digits.len() == 0 || digits[0] != '+',
    ensures
        ({
            let text = if signed {
                seq!['+'] + digits
            } else {
                digits
            };
            let worth_of_all = digits.fold_left(
                0int,
                |sum: int, c: char|
                    16 * sum + (if c <= '9' {
                        c as int - '0' as int
                    } else if c <= 'F' {
                        c as int - 'A' as int + 10
                    } else {
                        c as int - 'a' as int + 10
                    }),
            );
            let every = forall|i: int|
                0 <= i < digits.len() ==> ('0' <= #[trigger] digits[i] <= '9' || 'a' <= digits[i]
                    <= 'f' || 'A' <= digits[i] <= 'F');
            let named = digits.len() > 0 && every && worth_of_all <= 0xffff;
            &&& named_number(text) is Some <==> named
            &&& named ==> named_number(text)->0 == worth_of_all
        }),
{
    let text = if signed {
        seq!['+'] + digits
    } else {
        digits
    };
    assert(text.skip(1) =~= digits || !signed);
    let every = forall|i: int|
        0 <= i < digits.len() ==> ('0' <= #[trigger] digits[i] <= '9' || 'a' <= digits[i] <= 'f'
            || 'A' <= digits[i] <= 'F');
    if every {
        assert forall|i: int| 0 <= i < digits.len() implies (#[trigger] worth(digits[i])) is Some by {
            assert('0' <= digits[i] <= '9' || 'a' <= digits[i] <= 'f' || 'A' <= digits[i] <= 'F');
        }
    }
    if all_digits(digits) {
        assert forall|i: int| 0 <= i < digits.len() implies ('0' <= #[trigger] digits[i] <= '9'
            || 'a' <= digits[i] <= 'f' || 'A' <= digits[i] <= 'F') by {
            assert(worth(digits[i]) is Some);
        }
        lemma_run_worth_is_base_sixteen(digits);
        lemma_run_worth_grows(digits, 0);
        assert(run_worth(digits.take(0)) == 0);
    }
}

} // verus!
