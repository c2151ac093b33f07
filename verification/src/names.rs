//! Names for the files that pictures are saved under.
//!
//! Pictures are numbered: `gh_pfp1.png`, `gh_pfp2.png` and so on. New pictures
//! get the numbers after the highest one that is already taken, so no file
//! that exists is written over.

use vstd::prelude::*;
use vstd::string::*;

verus! {

/// What the name of every picture starts with.
pub const DEFAULT_OUTPUT_FILE_NAME: &'static str = "gh_pfp";

/// The format that pictures are saved in, which is what their names end in,
/// after a dot.
pub const DEFAULT_OUTPUT_FILE_FORMAT: &'static str = "png";

/// The characters before the number in a picture's name.
pub open spec fn name_prefix() -> Seq<char> {
    seq!['g', 'h', '_', 'p', 'f', 'p']
}

/// The characters after the number in a picture's name.
pub open spec fn name_suffix() -> Seq<char> {
    seq!['.', 'p', 'n', 'g']
}

/// Whether `c` is one of the ten decimal digits.
pub open spec fn is_digit(c: char) -> bool {
    '0' <= c <= '9'
}

/// The digit for a number below ten.
pub open spec fn digit_char(d: nat) -> char {
    ('0' as nat + d) as char
}

/// The number that a sequence of decimal digits stands for; zero for none.
pub open spec fn decimal_value(digits: Seq<char>) -> nat
    decreases digits.len(),
{
    if digits.len() == 0 {
        0
    } else {
        (10 * decimal_value(digits.drop_last()) + (digits.last() as nat - '0' as nat)) as nat
    }
}

/// `text` without the plus sign that it may start with.
pub open spec fn without_sign(text: Seq<char>) -> Seq<char> {
    if text.len() > 0 && text[0] == '+' {
        text.skip(1)
    } else {
        text
    }
}

/// Whether `digits` holds decimal digits and nothing else.
pub open spec fn all_digits(digits: Seq<char>) -> bool {
    forall|i: int| 0 <= i < digits.len() ==> is_digit(#[trigger] digits[i])
}

/// The number that `text` is the numeral of: decimal digits, at least one,
/// after at most one plus sign. Nothing for any other text.
pub open spec fn numeral_value(text: Seq<char>) -> Option<nat> {
    let digits = without_sign(text);
    if digits.len() > 0 && all_digits(digits) {
        Some(decimal_value(digits))
    } else {
        None
    }
}

/// The number in the name of a picture: `name` is the prefix, a numeral that
/// fits `usize`, and the suffix. Nothing for any other name.
pub open spec fn name_index(name: Seq<char>) -> Option<nat> {
    if name.len() >= 10 && name.take(6) == name_prefix() && name.skip(name.len() - 4)
        == name_suffix() {
        match numeral_value(name.subrange(6, name.len() - 4)) {
            Some(value) => if value <= usize::MAX {
                Some(value)
            } else {
                None
            },
            None => None,
        }
    } else {
        None
    }
}

/// The highest number that a picture among `names` has; zero if none is one.
pub open spec fn highest_index(names: Seq<Seq<char>>) -> nat
    decreases names.len(),
{
    if names.len() == 0 {
        0
    } else {
        let before = highest_index(names.drop_last());
        match name_index(names.last()) {
            Some(index) => if index > before {
                index
            } else {
                before
            },
            None => before,
        }
    }
}

/// The decimal numeral of `n`, without a sign or leading zeros.
pub open spec fn decimal_digits(n: nat) -> Seq<char>
    decreases n,
{
    if n < 10 {
        seq![digit_char(n)]
    } else {
        decimal_digits(n / 10).push(digit_char(n % 10))
    }
}

/// The name of the picture with number `index`.
pub open spec fn image_name(index: nat) -> Seq<char> {
    name_prefix() + decimal_digits(index) + name_suffix()
}

/// What the constants hold: the prefix, and the dot and the format that make
/// up the suffix.
proof fn lemma_affixes()
    ensures
        DEFAULT_OUTPUT_FILE_NAME@ == name_prefix(),
        "."@ + DEFAULT_OUTPUT_FILE_FORMAT@ == name_suffix(),
        "."@ == name_suffix().take(1),
        DEFAULT_OUTPUT_FILE_FORMAT@ == name_suffix().skip(1),
{
    reveal_strlit("gh_pfp");
    reveal_strlit(".");
    reveal_strlit("png");
}

/// Whether `text` holds `pattern` from position `at` on.
fn holds_at(text: &str, at: usize, pattern: &str) -> (found: bool)
    requires
        at + pattern@.len() <= text@.len() <= usize::MAX,
    ensures
        found == (text@.subrange(at as int, at + pattern@.len()) == pattern@),
{
    let length: usize = pattern.unicode_len();
    let mut i: usize = 0;
    while i < length
        invariant
            i <= length,
            length == pattern@.len(),
            at + length <= text@.len() <= usize::MAX,
            text@.subrange(at as int, at + i) == pattern@.take(i as int),
        decreases length - i,
    {
        if text.get_char(at + i) != pattern.get_char(i) {
            return false;
        }
        i += 1;
    }
    assert(pattern@.take(length as int) =~= pattern@);
    true
}

/// A numeral is worth at least as much as any of its beginnings.
pub proof fn lemma_decimal_value_grows(digits: Seq<char>, k: int)
    requires
        0 <= k <= digits.len(),
        all_digits(digits),
    ensures
        decimal_value(digits.take(k)) <= decimal_value(digits),
    decreases digits.len() - k,
{
    if k == digits.len() {
        assert(digits.take(k) =~= digits);
    } else {
        lemma_decimal_value_grows(digits, k + 1);
        assert(digits.take(k + 1).drop_last() =~= digits.take(k));
    }
}

/// Reads the number in the name of a picture.
pub fn parse_name(name: &str) -> (index: Option<usize>)
    ensures
        match index {
            Some(i) => name_index(name@) == Some(i as nat),
            None => name_index(name@) is None,
        },
{
    let length: usize = name.unicode_len();
    if length < 10 {
        return None;
    }
    proof {
        lemma_affixes();
    }
    if !holds_at(name, 0, DEFAULT_OUTPUT_FILE_NAME) || !holds_at(name, length - 4, ".")
        || !holds_at(name, length - 3, DEFAULT_OUTPUT_FILE_FORMAT) {
        proof {
            if name@.skip(length - 4) == name_suffix() {
                assert(name@.subrange(length - 4, length - 4 + 1) =~= name_suffix().take(1));
                assert(name@.subrange(length - 3, length - 3 + 3) =~= name_suffix().skip(1));
            }
        }
        return None;
    }
    proof {
        assert(name@.skip(length - 4) =~= name@.subrange(length - 4, length - 4 + 1)
            + name@.subrange(length - 3, length - 3 + 3));
    }
    let end: usize = length - 4;
    let ghost text = name@.subrange(6, end as int);
    let mut i: usize = 6;
    if i < end && name.get_char(i) == '+' {
        i = 7;
    }
    let start: usize = i;
    let ghost digits = name@.subrange(start as int, end as int);
    if start == end {
        return None;
    }
    let mut value: usize = 0;
    while i < end
        invariant
            6 <= start <= i <= end,
            end + 4 == name@.len(),
            name_index(name@) == match numeral_value(text) {
                Some(v) => if v <= usize::MAX {
                    Some(v)
                } else {
                    None
                },
                None => None,
            },
            digits == name@.subrange(start as int, end as int),
            digits == without_sign(text),
            all_digits(digits.take(i - start)),
            value == decimal_value(digits.take(i - start)),
        decreases end - i,
    {
        let c: char = name.get_char(i);
        assert(c == digits[i - start]);
        if c < '0' || c > '9' {
            return None;
        }
        let digit: usize = (c as u32 - '0' as u32) as usize;
        proof {
            assert(digits.take(i - start + 1).drop_last() =~= digits.take(i - start));
        }
        let next: Option<usize> = match value.checked_mul(10) {
            Some(tenfold) => tenfold.checked_add(digit),
            None => None,
        };
        match next {
            Some(more) => {
                value = more;
            },
            None => {
                proof {
                    if all_digits(digits) {
                        lemma_decimal_value_grows(digits, i - start + 1);
                    }
                }
                return None;
            },
        }
        i += 1;
    }
    assert(digits.take(end - start) =~= digits);
    Some(value)
}

/// The highest number that a picture among `existing` has; zero if none is one.
pub fn find_highest_index(existing: &Vec<String>) -> (highest: usize)
    ensures
        highest == highest_index(existing.deep_view()),
{
    let ghost names = existing.deep_view();
    let mut max: usize = 0;
    let mut k: usize = 0;
    while k < existing.len()
        invariant
            k <= existing.len(),
            names == existing.deep_view(),
            max == highest_index(names.take(k as int)),
        decreases existing.len() - k,
    {
        proof {
            assert(names.take(k + 1).drop_last() =~= names.take(k as int));
        }
        match parse_name(existing[k].as_str()) {
            Some(number) => {
                if number > max {
                    max = number;
                }
            },
            None => {},
        }
        k += 1;
    }
    assert(names.take(k as int) =~= names);
    max
}

/// The text of a digit.
fn digit_text(d: usize) -> (text: &'static str)
    requires
        d < 10,
    ensures
        text@ == seq![digit_char(d as nat)],
{
    proof {
        reveal_strlit("0");
        reveal_strlit("1");
        reveal_strlit("2");
        reveal_strlit("3");
        reveal_strlit("4");
        reveal_strlit("5");
        reveal_strlit("6");
        reveal_strlit("7");
        reveal_strlit("8");
        reveal_strlit("9");
    }
    let text = match d {
        0 => "0",
        1 => "1",
        2 => "2",
        3 => "3",
        4 => "4",
        5 => "5",
        6 => "6",
        7 => "7",
        8 => "8",
        _ => "9",
    };
    text
}

/// Appends the decimal numeral of `n` to `text`.
fn push_decimal(text: &mut String, n: usize)
    ensures
        final(text)@ == old(text)@ + decimal_digits(n as nat),
    decreases n,
{
    if n >= 10 {
        push_decimal(text, n / 10);
    }
    text.append(digit_text(n % 10));
}

/// The name of the picture with number `index`.
pub fn format_name(index: usize) -> (name: String)
    ensures
        name@ == image_name(index as nat),
{
    proof {
        lemma_affixes();
    }
    let mut name = String::from_str(DEFAULT_OUTPUT_FILE_NAME);
    push_decimal(&mut name, index);
    name.append(".");
    name.append(DEFAULT_OUTPUT_FILE_FORMAT);
    name
}

/// Names for `count` new pictures, given the names of the files that exist:
/// the numbers that follow the highest number taken, in order.
///
/// None of the names is the name of a file that exists.
pub fn gen_image_names(existing: &Vec<String>, count: usize) -> (names: Vec<String>)
    requires
        highest_index(existing.deep_view()) + 1 + count <= usize::MAX,
    ensures
        names.len() == count,
        forall|k: int|
            0 <= k < count ==> (#[trigger] names[k])@ == image_name(
                (highest_index(existing.deep_view()) + 1 + k) as nat,
            ),
        forall|k: int, e: int|
            0 <= k < count && 0 <= e < existing.len() ==> (#[trigger] names[k])@ != (
            #[trigger] existing[e])@,
{
    let mut res: Vec<String> = Vec::new();
    let max: usize = find_highest_index(existing) + 1;
    let mut i: usize = max;
    while i < max + count
        invariant
            max == highest_index(existing.deep_view()) + 1,
            max + count <= usize::MAX,
            max <= i <= max + count,
            res.len() == i - max,
            forall|k: int| 0 <= k < res.len() ==> (#[trigger] res[k])@ == image_name((max + k) as nat),
        decreases max + count - i,
    {
        res.push(format_name(i));
        i += 1;
    }
    proof {
        assert forall|k: int, e: int| 0 <= k < count && 0 <= e < existing.len() implies (
        #[trigger] res[k])@ != (#[trigger] existing[e])@ by {
            lemma_later_names_are_free(existing.deep_view(), e, (k + 1) as nat);
        }
    }
    res
}

/// The numeral of a number is made of digits, at least one, and stands for
/// that number.
pub proof fn lemma_decimal_digits(n: nat)
    ensures
        decimal_digits(n).len() >= 1,
        all_digits(decimal_digits(n)),
        decimal_value(decimal_digits(n)) == n,
    decreases n,
{
    let digits = decimal_digits(n);
    if n < 10 {
        assert(decimal_value(digits.drop_last()) == 0);
    } else {
        lemma_decimal_digits(n / 10);
        assert(digits.drop_last() =~= decimal_digits(n / 10));
    }
}

/// The name made for a number is read as the name of that number.
pub proof fn lemma_name_round_trip(index: nat)
    requires
        index <= usize::MAX,
    ensures
        name_index(image_name(index)) == Some(index),
{
    let digits = decimal_digits(index);
    let name = image_name(index);
    lemma_decimal_digits(index);
    assert(name.take(6) =~= name_prefix());
    assert(name.skip(name.len() - 4) =~= name_suffix());
    assert(name.subrange(6, name.len() - 4) =~= digits);
}

/// No picture among `names` has a number above the highest.
pub proof fn lemma_highest_index_bounds(names: Seq<Seq<char>>, e: int)
    requires
        0 <= e < names.len(),
    ensures
        name_index(names[e]) matches Some(index) ==> index <= highest_index(names),
    decreases names.len(),
{
    if e < names.len() - 1 {
        lemma_highest_index_bounds(names.drop_last(), e);
    }
}

/// The names of the numbers after the highest are not among `names`.
pub proof fn lemma_later_names_are_free(names: Seq<Seq<char>>, e: int, later: nat)
    requires
        0 <= e < names.len(),
        later >= 1,
        highest_index(names) + later <= usize::MAX,
    ensures
        names[e] != image_name(highest_index(names) + later),
{
    lemma_highest_index_bounds(names, e);
    lemma_name_round_trip(highest_index(names) + later);
}

} // verus!
