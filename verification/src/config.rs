//! The game that was chosen last, as it is kept between two runs.
//!
//! What is kept is the game's place in the list of games, written in
//! decimal digits in a small file below the per-user application-data
//! directory. Reading is lenient about white space around the number and
//! strict about everything else.

use vstd::prelude::*;
use vstd::string::StringExecFns;
use crate::text::{join, joined, to_chars};

verus! {

/// The name of the file that keeps the choice.
pub open spec fn config_file_name() -> Seq<char> {
    "gacha_url_last_game.txt"@
}

/// Where the choice is kept below `root`; below the current directory
/// where no root is known.
pub open spec fn config_path(root: Option<Seq<char>>) -> Seq<char> {
    joined(
        match root {
            Some(r) => r,
            None => "."@,
        },
        config_file_name(),
    )
}

/// White space, as `char::is_whitespace` has it.
pub open spec fn is_space(c: char) -> bool {
    ||| '\u{9}' <= c <= '\u{d}'
    ||| c == ' '
    ||| c == '\u{85}'
    ||| c == '\u{a0}'
    ||| c == '\u{1680}'
    ||| '\u{2000}' <= c <= '\u{200a}'
    ||| c == '\u{2028}'
    ||| c == '\u{2029}'
    ||| c == '\u{202f}'
    ||| c == '\u{205f}'
    ||| c == '\u{3000}'
}

/// A decimal digit.
pub open spec fn is_digit(c: char) -> bool {
    '0' <= c <= '9'
}

/// The digit for `value`, which is less than ten.
pub open spec fn digit_char(value: nat) -> char {
    (value + 0x30) as char
}

/// The value of a decimal digit.
pub open spec fn digit_value(c: char) -> nat {
    (c as u32 - 0x30) as nat
}

/// How many characters of white space `text` begins with.
pub open spec fn leading_spaces(text: Seq<char>) -> nat
    decreases text.len(),
{
    if text.len() > 0 && is_space(text.first()) {
        1 + leading_spaces(text.drop_first())
    } else {
        0
    }
}

/// How many characters of white space `text` ends with.
pub open spec fn trailing_spaces(text: Seq<char>) -> nat
    decreases text.len(),
{
    if text.len() > 0 && is_space(text.last()) {
        1 + trailing_spaces(text.drop_last())
    } else {
        0
    }
}

/// `text` without the white space at its two ends.
pub open spec fn trimmed(text: Seq<char>) -> Seq<char> {
    if leading_spaces(text) == text.len() {
        Seq::empty()
    } else {
        text.subrange(leading_spaces(text) as int, text.len() - trailing_spaces(text))
    }
}

/// The number that the decimal digits `digits` write.
pub open spec fn decimal_value(digits: Seq<char>) -> nat
    decreases digits.len(),
{
    if digits.len() == 0 {
        0
    } else {
        decimal_value(digits.drop_last()) * 10 + digit_value(digits.last())
    }
}

/// `n` in decimal digits, without a sign and without leading zeros.
pub open spec fn decimal_text(n: nat) -> Seq<char>
    decreases n,
{
    if n < 10 {
        seq![digit_char(n)]
    } else {
        decimal_text(n / 10).push(digit_char(n % 10))
    }
}

/// `text` holds decimal digits only.
pub open spec fn all_digits(text: Seq<char>) -> bool {
    forall|i: int| 0 <= i < text.len() ==> is_digit(#[trigger] text[i])
}

/// The number that `text` writes: decimal digits, at least one, after at
/// most one plus sign. `None` where `text` is anything else.
pub open spec fn unsigned_value(text: Seq<char>) -> Option<nat> {
    let digits = if text.len() > 0 && text[0] == '+' {
        text.drop_first()
    } else {
        text
    };
    if digits.len() > 0 && all_digits(digits) {
        Some(decimal_value(digits))
    } else {
        None
    }
}

/// The place in the list that the kept text `saved` names. `None` where it
/// names none that fits 32 bits.
pub open spec fn saved_index(saved: Seq<char>) -> Option<u32> {
    match unsigned_value(trimmed(saved)) {
        Some(value) => if value <= u32::MAX {
            Some(value as u32)
        } else {
            None
        },
        None => None,
    }
}

/// A number is not less than the number that its first digits write.
proof fn lemma_decimal_value_grows(digits: Seq<char>, n: int)
    requires
        0 <= n <= digits.len(),
    ensures
        decimal_value(digits.take(n)) <= decimal_value(digits),
    decreases digits.len(),
{
    if n == digits.len() {
        assert(digits.take(n) =~= digits);
    } else {
        lemma_decimal_value_grows(digits.drop_last(), n);
        assert(digits.drop_last().take(n) =~= digits.take(n));
    }
}

/// The decimal text of a number holds digits only, at least one, and
/// writes that number.
pub proof fn lemma_decimal_text(n: nat)
    ensures
        decimal_text(n).len() > 0,
        all_digits(decimal_text(n)),
        decimal_value(decimal_text(n)) == n,
    decreases n,
{
    if n < 10 {
        let text = decimal_text(n);
        assert(text.drop_last() =~= Seq::<char>::empty());
        assert(decimal_value(text.drop_last()) == 0);
        assert(text.last() == digit_char(n));
    } else {
        lemma_decimal_text(n / 10);
        let front = decimal_text(n / 10);
        let text = decimal_text(n);
        assert(text.drop_last() =~= front);
        assert(text.last() == digit_char(n % 10));
        assert forall|i: int| 0 <= i < text.len() implies is_digit(#[trigger] text[i]) by {
            if i < front.len() {
                assert(text[i] == front[i]);
            }
        }
    }
}

/// A text that neither begins nor ends with white space is trimmed
/// already.
pub proof fn lemma_trimmed_identity(text: Seq<char>)
    requires
        text.len() > 0,
        !is_space(text.first()),
        !is_space(text.last()),
    ensures
        trimmed(text) == text,
{
    assert(text.subrange(0, text.len() as int) =~= text);
}

/// What is written for a place in the list reads back as that place.
pub proof fn lemma_saved_index_round_trip(index: u32)
    ensures
        saved_index(decimal_text(index as nat)) == Some(index),
{
    let text = decimal_text(index as nat);
    lemma_decimal_text(index as nat);
    assert(is_digit(text[0]));
    assert(is_digit(text[text.len() - 1]));
    lemma_trimmed_identity(text);
}

/// Where the choice is kept. `root` is the per-user application-data
/// directory; where it is not known, the file lies below the current
/// directory.
pub fn get_config_path(root: Option<&str>) -> (path: String)
    ensures
        path@ == config_path(
            match root {
                Some(r) => Some(r@),
                None => None,
            },
        ),
{
    match root {
        Some(r) => join(r, "gacha_url_last_game.txt"),
        None => join(".", "gacha_url_last_game.txt"),
    }
}

/// The one-character text of a digit.
fn digit_str(value: u32) -> (text: &'static str)
    requires
        value < 10,
    ensures
        text@ == seq![digit_char(value as nat)],
{
    proof {
        reveal_strlit("0");
        reveal_strlit("1");
        reveal_strlit("2");
        reveal_strlit("3");
        reveal_strlit("4");
        reveal_strlit("5");
        reveal_strlit("6");
        reveal_strlit("7");
        reveal_strlit("8");
        reveal_strlit("9");
    }
    let text = if value == 0 {
        "0"
    } else if value == 1 {
        "1"
    } else if value == 2 {
        "2"
    } else if value == 3 {
        "3"
    } else if value == 4 {
        "4"
    } else if value == 5 {
        "5"
    } else if value == 6 {
        "6"
    } else if value == 7 {
        "7"
    } else if value == 8 {
        "8"
    } else {
        "9"
    };
    assert(text@ =~= seq![digit_char(value as nat)]);
    text
}

/// Writes `n` in decimal digits at the end of `out`.
fn push_decimal(out: &mut String, n: u32)
    ensures
        final(out)@ == old(out)@ + decimal_text(n as nat),
    decreases n,
{
    if n >= 10 {
        push_decimal(out, n / 10);
    }
    out.append(digit_str(n % 10));
    proof {
        if n >= 10 {
            assert(decimal_text(n as nat) =~= decimal_text((n / 10) as nat) + seq![
                digit_char((n % 10) as nat),
            ]);
        }
    }
}

/// The text to keep for the game at place `index` of the list.
pub fn save_last_game(index: u32) -> (saved: String)
    ensures
        saved@ == decimal_text(index as nat),
        saved_index(saved@) == Some(index),
{
    let mut saved = String::new();
    push_decimal(&mut saved, index);
    proof {
        lemma_saved_index_round_trip(index);
    }
    saved
}

/// Whether `c` is white space.
fn space(c: char) -> (space: bool)
    ensures
        space == is_space(c),
{
    ('\u{9}' <= c && c <= '\u{d}') || c == ' ' || c == '\u{85}' || c == '\u{a0}' || c
        == '\u{1680}' || ('\u{2000}' <= c && c <= '\u{200a}') || c == '\u{2028}' || c
        == '\u{2029}' || c == '\u{202f}' || c == '\u{205f}' || c == '\u{3000}'
}

/// The number of characters of white space at the start of the text.
proof fn lemma_leading_spaces(text: Seq<char>, n: int)
    requires
        0 <= n <= text.len(),
        forall|i: int| 0 <= i < n ==> is_space(text[i]),
        n < text.len() ==> !is_space(text[n]),
    ensures
        leading_spaces(text) == n,
    decreases n,
{
    if n > 0 {
        let rest = text.drop_first();
        assert forall|i: int| 0 <= i < n - 1 implies is_space(rest[i]) by {
            assert(rest[i] == text[i + 1]);
        }
        lemma_leading_spaces(rest, n - 1);
    }
}

/// The number of characters of white space at the end of the text.
proof fn lemma_trailing_spaces(text: Seq<char>, n: int)
    requires
        0 <= n <= text.len(),
        forall|i: int| text.len() - n <= i < text.len() ==> is_space(text[i]),
        n < text.len() ==> !is_space(text[text.len() - n - 1]),
    ensures
        trailing_spaces(text) == n,
    decreases n,
{
    if n > 0 {
        let rest = text.drop_last();
        assert forall|i: int| rest.len() - (n - 1) <= i < rest.len() implies is_space(rest[i]) by {
            assert(rest[i] == text[i]);
        }
        lemma_trailing_spaces(rest, n - 1);
    }
}

/// The number that the characters of `text` from `from` up to `to` write.
fn unsigned(text: &Vec<char>, from: usize, to: usize) -> (value: Option<u32>)
    requires
        from <= to <= text.len(),
    ensures
        value == match unsigned_value(text@.subrange(from as int, to as int)) {
            Some(v) => if v <= u32::MAX {
                Some(v as u32)
            } else {
                None
            },
            None => None,
        },
{
    let ghost whole = text@.subrange(from as int, to as int);
    let start = if from < to && text[from] == '+' {
        from + 1
    } else {
        from
    };
    let ghost digits = text@.subrange(start as int, to as int);
    proof {
        if start > from {
            assert(whole[0] == '+');
            assert(whole.drop_first() =~= digits);
        } else {
            if whole.len() > 0 {
                assert(whole[0] == text@[from as int]);
            }
            assert(whole =~= digits);
        }
    }
    if start == to {
        return None;
    }
    let mut value: u64 = 0;
    let mut at: usize = start;
    while at < to
        invariant
            from <= start <= at <= to <= text.len(),
            whole == text@.subrange(from as int, to as int),
            digits == text@.subrange(start as int, to as int),
            unsigned_value(whole) == if all_digits(digits) {
                Some(decimal_value(digits))
            } else {
                None
            },
            forall|i: int| 0 <= i < at - start ==> is_digit(#[trigger] digits[i]),
            value == decimal_value(digits.take(at - start)),
            value <= u32::MAX,
        decreases to - at,
    {
        let c = text[at];
        if !('0' <= c && c <= '9') {
            assert(!is_digit(digits[at - start]));
            return None;
        }
        let digit: u64 = (c as u32 - 0x30) as u64;
        proof {
            let next = digits.take(at - start + 1);
            assert(next.drop_last() =~= digits.take(at - start));
            assert(next.last() == c);
        }
        value = value * 10 + digit;
        at += 1;
        if value > 0xffff_ffff {
            proof {
                lemma_decimal_value_grows(digits, at - start);
            }
            return None;
        }
    }
    proof {
        assert(digits.take(to - start) =~= digits);
    }
    Some(value as u32)
}

/// The place in the list that the kept text names; `saved` is `None` where
/// nothing could be read. `None` where the text names no place: where it is
/// not a decimal number of at most 32 bits, white space around it apart.
pub fn load_last_game(saved: Option<&str>) -> (index: Option<u32>)
    ensures
        index == match saved {
            Some(text) => saved_index(text@),
            None => None,
        },
{
    let text = match saved {
        Some(text) => to_chars(text),
        None => {
            return None;
        },
    };
    let mut from: usize = 0;
    while from < text.len() && space(text[from])
        invariant
            from <= text.len(),
            forall|i: int| 0 <= i < from ==> is_space(text@[i]),
        decreases text.len() - from,
    {
        from += 1;
    }
    proof {
        lemma_leading_spaces(text@, from as int);
    }
    if from == text.len() {
        proof {
            assert(trimmed(text@) =~= Seq::<char>::empty());
        }
        return None;
    }
    let mut to: usize = text.len();
    while to > from && space(text[to - 1])
        invariant
            from <= to <= text.len(),
            from < text.len(),
            !is_space(text@[from as int]),
            forall|i: int| to <= i < text.len() ==> is_space(text@[i]),
        decreases to,
    {
        to -= 1;
    }
    proof {
        assert(to > from);
        lemma_trailing_spaces(text@, text.len() - to);
    }
    unsigned(&text, from, to)
}

} // verus!
