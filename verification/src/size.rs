//! Byte counts written with a unit, such as `10MB`.

#[allow(unused_imports)]
use crate::text::{decimal, digit_char};
use vstd::prelude::*;

verus! {

/// The characters with the Unicode property `White_Space`.
pub open spec fn white_space(c: char) -> bool {
    ||| '\u{9}' <= c <= '\u{d}'
    ||| c == ' '
    ||| c == '\u{85}'
    ||| c == '\u{a0}'
    ||| c == '\u{1680}'
    ||| '\u{2000}' <= c <= '\u{200a}'
    ||| c == '\u{2028}'
    ||| c == '\u{2029}'
    ||| c == '\u{202f}'
    ||| c == '\u{205f}'
    ||| c == '\u{3000}'
}

/// The text without the white space at its start.
pub open spec fn trim_start(s: Seq<char>) -> Seq<char>
    decreases s.len(),
{
    if s.len() > 0 && white_space(s[0]) {
        trim_start(s.skip(1))
    } else {
        s
    }
}

/// The text without the white space at its end.
pub open spec fn trim_end(s: Seq<char>) -> Seq<char>
    decreases s.len(),
{
    if s.len() > 0 && white_space(s.last()) {
        trim_end(s.drop_last())
    } else {
        s
    }
}

/// The text without the white space around it.
pub open spec fn trim(s: Seq<char>) -> Seq<char> {
    trim_end(trim_start(s))
}

/// A decimal digit.
pub open spec fn is_digit(c: char) -> bool {
    '0' <= c <= '9'
}

/// A character that may stand in the number: a digit or the separator `_`.
pub open spec fn in_number(c: char) -> bool {
    is_digit(c) || c == '_'
}

/// How many characters at the start may stand in the number.
pub open spec fn number_len(s: Seq<char>) -> nat
    decreases s.len(),
{
    if s.len() > 0 && in_number(s[0]) {
        1 + number_len(s.skip(1))
    } else {
        0
    }
}

/// Every character but one.
pub open spec fn all_but(c: char) -> spec_fn(char) -> bool {
    |x: char| x != c
}

/// The text without any occurrence of one character.
pub open spec fn without(s: Seq<char>, c: char) -> Seq<char> {
    s.filter(all_but(c))
}

/// The number that a sequence of digits denotes.
pub open spec fn digits_value(s: Seq<char>) -> nat
    decreases s.len(),
{
    if s.len() == 0 {
        0
    } else {
        digits_value(s.drop_last()) * 10 + (s.last() as nat - '0' as nat) as nat
    }
}

/// The character with an ASCII capital letter made small.
pub open spec fn lower(c: char) -> char {
    if 'A' <= c <= 'Z' {
        (c as u32 + 32) as char
    } else {
        c
    }
}

/// The text with its ASCII capital letters made small.
pub open spec fn lowercase(s: Seq<char>) -> Seq<char> {
    s.map_values(|c: char| lower(c))
}

/// The unit as it is looked up: without white space around it, in small letters
/// and without blanks inside.
pub open spec fn unit_of(s: Seq<char>) -> Seq<char> {
    without(lowercase(trim(s)), ' ')
}

/// The bytes in one unit.
pub open spec fn multiplier(unit: Seq<char>) -> Option<nat> {
    if unit == ""@ || unit == "b"@ {
        Some(1)
    } else if unit == "k"@ || unit == "kb"@ {
        Some(1_000)
    } else if unit == "m"@ || unit == "mb"@ {
        Some(1_000_000)
    } else if unit == "g"@ || unit == "gb"@ {
        Some(1_000_000_000)
    } else {
        None
    }
}

/// What a number and a unit say as a byte count: the count, or what is wrong with it.
pub open spec fn sized(digits: Seq<char>, unit: Seq<char>) -> Result<nat, Seq<char>> {
    if digits.len() == 0 {
        Err("size must start with a number"@)
    } else if digits_value(digits) > usize::MAX {
        Err("invalid size: number too large to fit in target type"@)
    } else {
        match multiplier(unit) {
            None => Err("unsupported size unit: "@ + unit),
            Some(m) => if digits_value(digits) * m > usize::MAX {
                Err("size is too large"@)
            } else {
                Ok(digits_value(digits) * m)
            },
        }
    }
}

/// What a text says as a byte count: the count, or what is wrong with it.
pub open spec fn parsed_size(input: Seq<char>) -> Result<nat, Seq<char>> {
    let value = trim(input);
    let end = number_len(value) as int;
    if value.len() == 0 {
        Err("size must not be empty"@)
    } else {
        sized(without(value.take(end), '_'), unit_of(value.skip(end)))
    }
}

/// Whether a character is white space.
fn is_white_space(c: char) -> (r: bool)
    ensures
        r == white_space(c),
{
    ('\u{9}' <= c && c <= '\u{d}') || c == ' ' || c == '\u{85}' || c == '\u{a0}' || c == '\u{1680}'
        || ('\u{2000}' <= c && c <= '\u{200a}') || c == '\u{2028}' || c == '\u{2029}'
        || c == '\u{202f}' || c == '\u{205f}' || c == '\u{3000}'
}

/// The characters of a text.
fn characters(text: &str) -> (chars: Vec<char>)
    ensures
        chars@ == text@,
{
    let mut chars: Vec<char> = Vec::new();
    for c in it: text.chars()
        invariant
            chars@ == it.seq().take(it.index() as int),
            it.seq() == text@,
    {
        chars.push(c);
    }
    chars
}

/// The part `from..to` of a text.
fn part(chars: &Vec<char>, from: usize, to: usize) -> (r: Vec<char>)
    requires
        from <= to <= chars.len(),
    ensures
        r@ == chars@.subrange(from as int, to as int),
{
    let mut r: Vec<char> = Vec::new();
    let mut i: usize = from;
    while i < to
        invariant
            from <= i <= to <= chars.len(),
            r@ == chars@.subrange(from as int, i as int),
        decreases to - i,
    {
        r.push(chars[i]);
        i = i + 1;
        assert(r@ =~= chars@.subrange(from as int, i as int));
    }
    r
}

/// The text without the white space around it.
fn trimmed(chars: &Vec<char>) -> (r: Vec<char>)
    ensures
        r@ == trim(chars@),
{
    let mut from: usize = 0;
    assert(chars@.skip(0) =~= chars@);
    while from < chars.len() && is_white_space(chars[from])
        invariant
            from <= chars.len(),
            trim_start(chars@) == trim_start(chars@.skip(from as int)),
        decreases chars.len() - from,
    {
        assert(chars@.skip(from as int).skip(1) =~= chars@.skip(from + 1));
        from = from + 1;
    }
    let ghost rest = chars@.skip(from as int);
    assert(trim_start(chars@) == rest);
    let mut to: usize = chars.len();
    assert(rest =~= chars@.subrange(from as int, to as int));
    while from < to && is_white_space(chars[to - 1])
        invariant
            from <= to <= chars.len(),
            trim_end(rest) == trim_end(chars@.subrange(from as int, to as int)),
        decreases to,
    {
        assert(chars@.subrange(from as int, to as int).drop_last() =~= chars@.subrange(
            from as int,
            to - 1,
        ));
        to = to - 1;
    }
    part(chars, from, to)
}

/// How many characters at the start may stand in the number.
fn leading_number(chars: &Vec<char>) -> (n: usize)
    ensures
        n == number_len(chars@),
        n <= chars.len(),
{
    let mut n: usize = 0;
    assert(chars@.skip(0) =~= chars@);
    while n < chars.len() && (('0' <= chars[n] && chars[n] <= '9') || chars[n] == '_')
        invariant
            n <= chars.len(),
            number_len(chars@) == n + number_len(chars@.skip(n as int)),
        decreases chars.len() - n,
    {
        assert(chars@.skip(n as int).skip(1) =~= chars@.skip(n + 1));
        n = n + 1;
    }
    n
}

/// The text without any occurrence of one character.
fn removed(chars: &Vec<char>, c: char) -> (r: Vec<char>)
    ensures
        r@ == without(chars@, c),
{
    let mut r: Vec<char> = Vec::new();
    let mut i: usize = 0;
    let ghost keep = all_but(c);
    assert(chars@.take(0).filter(keep) =~= Seq::empty()) by {
        reveal(Seq::filter);
    }
    while i < chars.len()
        invariant
            i <= chars.len(),
            keep == all_but(c),
            r@ == chars@.take(i as int).filter(keep),
        decreases chars.len() - i,
    {
        assert(chars@.take(i + 1).drop_last() =~= chars@.take(i as int));
        proof {
            reveal(Seq::filter);
        }
        if chars[i] != c {
            r.push(chars[i]);
        }
        i = i + 1;
    }
    assert(chars@.take(chars.len() as int) =~= chars@);
    r
}

/// The text with its ASCII capital letters made small.
fn lowercased(chars: &Vec<char>) -> (r: Vec<char>)
    ensures
        r@ == lowercase(chars@),
{
    let mut r: Vec<char> = Vec::new();
    let mut i: usize = 0;
    while i < chars.len()
        invariant
            i <= chars.len(),
            r@ == lowercase(chars@.take(i as int)),
        decreases chars.len() - i,
    {
        let c = chars[i];
        if 'A' <= c && c <= 'Z' {
            r.push((c as u8 + 32) as char);
        } else {
            r.push(c);
        }
        i = i + 1;
        assert(r@ =~= lowercase(chars@.take(i as int)));
    }
    assert(chars@.take(chars.len() as int) =~= chars@);
    r
}

/// More digits never make a smaller number.
proof fn lemma_prefix_value(s: Seq<char>, n: int)
    requires
        0 <= n <= s.len(),
    ensures
        digits_value(s.take(n)) <= digits_value(s),
    decreases s.len(),
{
    if n == s.len() {
        assert(s.take(n) =~= s);
    } else {
        assert(s.drop_last().take(n) =~= s.take(n));
        lemma_prefix_value(s.drop_last(), n);
    }
}

/// The number that a sequence of digits denotes, if it fits.
fn number_value(digits: &Vec<char>) -> (r: Option<usize>)
    requires
        forall|i: int| 0 <= i < digits.len() ==> is_digit(#[trigger] digits[i]),
    ensures
        match r {
            Some(n) => n == digits_value(digits@),
            None => digits_value(digits@) > usize::MAX,
        },
{
    let mut n: usize = 0;
    let mut i: usize = 0;
    while i < digits.len()
        invariant
            i <= digits.len(),
            forall|j: int| 0 <= j < digits.len() ==> is_digit(#[trigger] digits[j]),
            n == digits_value(digits@.take(i as int)),
        decreases digits.len() - i,
    {
        let digit: usize = (digits[i] as u8 - 48) as usize;
        proof {
            assert(digits@.take(i + 1).drop_last() =~= digits@.take(i as int));
            assert(digits@.take(i + 1).last() == digits[i as int]);
            lemma_prefix_value(digits@, i + 1);
        }
        match n.checked_mul(10) {
            None => {
                return None;
            },
            Some(tens) => match tens.checked_add(digit) {
                None => {
                    return None;
                },
                Some(next) => {
                    n = next;
                },
            },
        }
        i = i + 1;
    }
    assert(digits@.take(digits.len() as int) =~= digits@);
    Some(n)
}

/// The bytes in one unit.
fn unit_bytes(unit: &Vec<char>) -> (r: Option<usize>)
    ensures
        match r {
            Some(m) => multiplier(unit@) == Some(m as nat),
            None => multiplier(unit@) is None,
        },
{
    proof {
        reveal_strlit("");
        reveal_strlit("b");
        reveal_strlit("k");
        reveal_strlit("kb");
        reveal_strlit("m");
        reveal_strlit("mb");
        reveal_strlit("g");
        reveal_strlit("gb");
        assert(unit.len() == 0 ==> unit@ =~= ""@);
        assert(unit.len() == 1 && unit[0] == 'b' ==> unit@ =~= "b"@);
        assert(unit.len() == 1 && unit[0] == 'k' ==> unit@ =~= "k"@);
        assert(unit.len() == 1 && unit[0] == 'm' ==> unit@ =~= "m"@);
        assert(unit.len() == 1 && unit[0] == 'g' ==> unit@ =~= "g"@);
        assert(unit.len() == 2 && unit[0] == 'k' && unit[1] == 'b' ==> unit@ =~= "kb"@);
        assert(unit.len() == 2 && unit[0] == 'm' && unit[1] == 'b' ==> unit@ =~= "mb"@);
        assert(unit.len() == 2 && unit[0] == 'g' && unit[1] == 'b' ==> unit@ =~= "gb"@);
    }
    if unit.len() == 0 || (unit.len() == 1 && unit[0] == 'b') {
        Some(1)
    } else if unit.len() == 1 || (unit.len() == 2 && unit[1] == 'b') {
        if unit[0] == 'k' {
            Some(1_000)
        } else if unit[0] == 'm' {
            Some(1_000_000)
        } else if unit[0] == 'g' {
            Some(1_000_000_000)
        } else {
            None
        }
    } else {
        None
    }
}

/// A text made of the given characters behind a fixed one.
fn message(start: &str, chars: &Vec<char>) -> (r: String)
    ensures
        r@ == start@ + chars@,
{
    let mut r = start.to_owned();
    let mut i: usize = 0;
    assert(r@ =~= start@ + chars@.take(0));
    while i < chars.len()
        invariant
            i <= chars.len(),
            r@ == start@ + chars@.take(i as int),
        decreases chars.len() - i,
    {
        r.push(chars[i]);
        i = i + 1;
        assert(r@ =~= start@ + chars@.take(i as int));
    }
    assert(chars@.take(chars.len() as int) =~= chars@);
    r
}

/// Only digits are left of a number once its separators are removed.
proof fn lemma_number_digits(s: Seq<char>)
    ensures
        number_len(s) <= s.len(),
        forall|i: int|
            0 <= i < without(s.take(number_len(s) as int), '_').len() ==> is_digit(
                #[trigger] without(s.take(number_len(s) as int), '_')[i],
            ),
{
    lemma_number_chars(s);
    let number = s.take(number_len(s) as int);
    let keep = all_but('_');
    assert forall|i: int| 0 <= i < number.filter(keep).len() implies is_digit(
        #[trigger] number.filter(keep)[i],
    ) by {
        number.lemma_filter_pred(keep, i);
        number.lemma_filter_contains_rev(keep, number.filter(keep)[i]);
        let j = choose|j: int| 0 <= j < number.len() && number[j] == number.filter(keep)[i];
        assert(in_number(number[j]));
    }
}

/// Every character of the number may stand in it.
proof fn lemma_number_chars(s: Seq<char>)
    ensures
        number_len(s) <= s.len(),
        forall|i: int| 0 <= i < number_len(s) ==> in_number(#[trigger] s[i]),
    decreases s.len(),
{
    if s.len() > 0 && in_number(s[0]) {
        lemma_number_chars(s.skip(1));
        assert forall|i: int| 0 <= i < number_len(s) implies in_number(#[trigger] s[i]) by {
            if i > 0 {
                assert(s[i] == s.skip(1)[i - 1]);
            }
        }
    }
}

/// Reads a byte count such as `64K`, `10 mb` or `1_024`. The unit is one of `B`,
/// `K`, `M` and `G`, each but the first a power of a thousand, with or without a
/// `B` behind it and in letters of either case; without a unit the count is in
/// bytes.
pub fn parse_byte_size(input: &str) -> (r: Result<usize, String>)
    ensures
        match r {
            Ok(n) => parsed_size(input@) == Ok::<nat, Seq<char>>(n as nat),
            Err(message) => parsed_size(input@) == Err::<nat, Seq<char>>(message@),
        },
{
    let chars = characters(input);
    let value = trimmed(&chars);
    if value.len() == 0 {
        return Err("size must not be empty".to_owned());
    }
    let end: usize = leading_number(&value);
    let number = removed(&part(&value, 0, end), '_');
    let ghost digits = without(value@.take(end as int), '_');
    assert(number@ == digits) by {
        assert(value@.subrange(0, end as int) =~= value@.take(end as int));
    }
    if number.len() == 0 {
        return Err("size must start with a number".to_owned());
    }
    proof {
        lemma_number_digits(value@);
    }
    let bytes: usize = match number_value(&number) {
        Some(n) => n,
        None => {
            return Err("invalid size: number too large to fit in target type".to_owned());
        },
    };
    let rest = part(&value, end, value.len());
    assert(rest@ =~= value@.skip(end as int));
    let unit = removed(&lowercased(&trimmed(&rest)), ' ');
    match unit_bytes(&unit) {
        None => Err(message("unsupported size unit: ", &unit)),
        Some(m) => match bytes.checked_mul(m) {
            None => Err("size is too large".to_owned()),
            Some(n) => Ok(n),
        },
    }
}

/// Trimming the end of a text leaves its front alone while something is left behind it.
proof fn lemma_trim_end_of_two(a: Seq<char>, b: Seq<char>)
    ensures
        trim_end(a + b) == if trim_end(b).len() > 0 {
            a + trim_end(b)
        } else {
            trim_end(a)
        },
    decreases b.len(),
{
    if b.len() == 0 {
        assert(a + b =~= a);
    } else if white_space(b.last()) {
        assert((a + b).drop_last() =~= a + b.drop_last());
        lemma_trim_end_of_two(a, b.drop_last());
    }
}

/// What trimming the end leaves is the front of the text.
proof fn lemma_trim_end_is_prefix(s: Seq<char>)
    ensures
        trim_end(s).len() <= s.len(),
        trim_end(s) == s.take(trim_end(s).len() as int),
    decreases s.len(),
{
    if s.len() > 0 && white_space(s.last()) {
        lemma_trim_end_is_prefix(s.drop_last());
        assert(s.drop_last().take(trim_end(s).len() as int) =~= s.take(trim_end(s).len() as int));
    } else {
        assert(s.take(s.len() as int) =~= s);
    }
}

/// Trimming the end twice is trimming it once.
proof fn lemma_trim_end_twice(s: Seq<char>)
    ensures
        trim_end(trim_end(s)) == trim_end(s),
    decreases s.len(),
{
    if s.len() > 0 && white_space(s.last()) {
        lemma_trim_end_twice(s.drop_last());
    }
}

/// Both ends may be trimmed in either order.
proof fn lemma_trim_order(s: Seq<char>)
    ensures
        trim_start(trim_end(s)) == trim(s),
    decreases s.len(),
{
    if s.len() > 0 {
        let first = seq![s[0]];
        let rest = s.skip(1);
        assert(s =~= first + rest);
        lemma_trim_end_of_two(first, rest);
        assert(first.drop_last() =~= Seq::empty());
        assert(trim_end(Seq::<char>::empty()) == Seq::<char>::empty());
        assert(trim_start(Seq::<char>::empty()) == Seq::<char>::empty());
        if white_space(s[0]) {
            lemma_trim_order(rest);
            if trim_end(rest).len() > 0 {
                assert((first + trim_end(rest)).skip(1) =~= trim_end(rest));
            }
        }
    }
}

/// White space in front is trimmed away.
proof fn lemma_trim_start_of_two(a: Seq<char>, b: Seq<char>)
    requires
        forall|i: int| 0 <= i < a.len() ==> white_space(#[trigger] a[i]),
    ensures
        trim_start(a + b) == trim_start(b),
    decreases a.len(),
{
    if a.len() == 0 {
        assert(a + b =~= b);
    } else {
        assert((a + b).skip(1) =~= a.skip(1) + b);
        assert forall|i: int| 0 <= i < a.skip(1).len() implies white_space(
            #[trigger] a.skip(1)[i],
        ) by {
            assert(a.skip(1)[i] == a[i + 1]);
        }
        lemma_trim_start_of_two(a.skip(1), b);
    }
}

/// Nothing is left of white space.
proof fn lemma_trim_end_of_white_space(s: Seq<char>)
    requires
        forall|i: int| 0 <= i < s.len() ==> white_space(#[trigger] s[i]),
    ensures
        trim_end(s).len() == 0,
    decreases s.len(),
{
    if s.len() > 0 {
        lemma_trim_end_of_white_space(s.drop_last());
    }
}

/// The number goes as far as its characters do.
proof fn lemma_number_len_of_two(a: Seq<char>, b: Seq<char>)
    requires
        forall|i: int| 0 <= i < a.len() ==> in_number(#[trigger] a[i]),
        b.len() > 0 ==> !in_number(b[0]),
    ensures
        number_len(a + b) == a.len(),
    decreases a.len(),
{
    if a.len() == 0 {
        assert(a + b =~= b);
    } else {
        assert((a + b).skip(1) =~= a.skip(1) + b);
        assert forall|i: int| 0 <= i < a.skip(1).len() implies in_number(
            #[trigger] a.skip(1)[i],
        ) by {
            assert(a.skip(1)[i] == a[i + 1]);
        }
        lemma_number_len_of_two(a.skip(1), b);
    }
}

/// A number with a unit behind it, with or without white space between and behind
/// them, says the number times the bytes in the unit. Separators in the number do
/// not matter.
pub proof fn law_number_with_unit(number: Seq<char>, unit: Seq<char>)
    requires
        number.len() > 0,
        forall|i: int| 0 <= i < number.len() ==> in_number(#[trigger] number[i]),
        unit.len() > 0 ==> !in_number(unit[0]),
    ensures
        parsed_size(number + unit) == sized(without(number, '_'), unit_of(unit)),
{
    let rest = trim_end(unit);
    assert(in_number(number[0]));
    assert(in_number(number.last()));
    assert(trim_start(number + unit) == number + unit);
    lemma_trim_end_of_two(number, unit);
    assert(trim_end(number + unit) =~= number + rest);
    lemma_trim_end_is_prefix(unit);
    lemma_number_len_of_two(number, rest);
    assert((number + rest).take(number.len() as int) =~= number);
    assert((number + rest).skip(number.len() as int) =~= rest);
    lemma_trim_order(rest);
    lemma_trim_end_twice(unit);
    lemma_trim_order(unit);
}

/// White space around a size does not matter.
pub proof fn law_white_space_around(before: Seq<char>, size: Seq<char>, after: Seq<char>)
    requires
        forall|i: int| 0 <= i < before.len() ==> white_space(#[trigger] before[i]),
        forall|i: int| 0 <= i < after.len() ==> white_space(#[trigger] after[i]),
    ensures
        parsed_size(before + size + after) == parsed_size(size),
{
    assert(before + size + after =~= before + (size + after));
    lemma_trim_start_of_two(before, size + after);
    lemma_trim_order(size + after);
    lemma_trim_order(size);
    lemma_trim_end_of_white_space(after);
    lemma_trim_end_of_two(size, after);
}

/// Making letters small changes neither white space nor numbers.
proof fn lemma_lower(c: char)
    ensures
        white_space(lower(c)) == white_space(c),
        in_number(lower(c)) == in_number(c),
        in_number(c) ==> lower(c) == c,
        lower(lower(c)) == lower(c),
{
}

/// Trimming and making letters small may come in either order.
proof fn lemma_trim_lowercase(s: Seq<char>)
    ensures
        trim_start(lowercase(s)) == lowercase(trim_start(s)),
        trim_end(lowercase(s)) == lowercase(trim_end(s)),
    decreases s.len(),
{
    if s.len() > 0 {
        lemma_lower(s[0]);
        lemma_lower(s.last());
        lemma_trim_lowercase(s.skip(1));
        lemma_trim_lowercase(s.drop_last());
        assert(lowercase(s).skip(1) =~= lowercase(s.skip(1)));
        assert(lowercase(s).drop_last() =~= lowercase(s.drop_last()));
    }
}

/// The number is as long in small letters.
proof fn lemma_number_len_lowercase(s: Seq<char>)
    ensures
        number_len(lowercase(s)) == number_len(s),
    decreases s.len(),
{
    if s.len() > 0 {
        lemma_lower(s[0]);
        lemma_number_len_lowercase(s.skip(1));
        assert(lowercase(s).skip(1) =~= lowercase(s.skip(1)));
    }
}

/// The case of ASCII letters does not matter.
pub proof fn law_letter_case(size: Seq<char>)
    ensures
        parsed_size(lowercase(size)) == parsed_size(size),
{
    let value = trim(size);
    lemma_trim_lowercase(size);
    lemma_trim_lowercase(trim_start(size));
    assert(trim(lowercase(size)) == lowercase(value));
    lemma_number_len_lowercase(value);
    lemma_number_chars(value);
    let end = number_len(value) as int;
    let unit = value.skip(end);
    assert(lowercase(value).take(end) =~= value.take(end)) by {
        assert forall|i: int| 0 <= i < end implies lowercase(value).take(end)[i] == value.take(
            end,
        )[i] by {
            assert(in_number(value[i]));
            lemma_lower(value[i]);
        }
    }
    assert(lowercase(value).skip(end) =~= lowercase(unit));
    lemma_trim_lowercase(unit);
    lemma_trim_lowercase(trim_start(unit));
    assert(lowercase(lowercase(trim(unit))) =~= lowercase(trim(unit))) by {
        assert forall|i: int| 0 <= i < trim(unit).len() implies lowercase(
            lowercase(trim(unit)),
        )[i] == lowercase(trim(unit))[i] by {
            lemma_lower(trim(unit)[i]);
        }
    }
}

/// The decimal notation of a number is made of digits and denotes the number.
proof fn lemma_decimal_value(n: nat)
    ensures
        decimal(n).len() > 0,
        forall|i: int| 0 <= i < decimal(n).len() ==> is_digit(#[trigger] decimal(n)[i]),
        digits_value(decimal(n)) == n,
    decreases n,
{
    if n < 10 {
        assert(decimal(n).drop_last() =~= Seq::empty());
        assert(digits_value(Seq::<char>::empty()) == 0);
        assert(is_digit(digit_char(n)));
    } else {
        lemma_decimal_value(n / 10);
        assert(decimal(n).drop_last() =~= decimal(n / 10));
        assert(is_digit(digit_char(n % 10)));
    }
}

/// The decimal notation of a number is made of digits, denotes the number and has no
/// zero in front of another digit.
pub proof fn law_decimal_denotes(n: nat)
    ensures
        decimal(n).len() > 0,
        n > 0 ==> decimal(n)[0] != '0',
        n == 0 ==> decimal(n).len() == 1,
        forall|i: int| 0 <= i < decimal(n).len() ==> is_digit(#[trigger] decimal(n)[i]),
        digits_value(decimal(n)) == n,
    decreases n,
{
    lemma_decimal_value(n);
    if n >= 10 {
        law_decimal_denotes(n / 10);
        assert(decimal(n)[0] == decimal(n / 10)[0]);
    }
}

/// Nothing is removed from a text without the character.
proof fn lemma_without_absent(s: Seq<char>, c: char)
    requires
        forall|i: int| 0 <= i < s.len() ==> #[trigger] s[i] != c,
    ensures
        without(s, c) == s,
    decreases s.len(),
{
    reveal(Seq::filter);
    if s.len() > 0 {
        lemma_without_absent(s.drop_last(), c);
        assert(s =~= s.drop_last().push(s.last()));
    } else {
        assert(without(s, c) =~= s);
    }
}

/// Every byte count can be read back from its decimal notation.
pub proof fn law_decimal_round_trip(n: usize)
    ensures
        parsed_size(decimal(n as nat)) == Ok::<nat, Seq<char>>(n as nat),
{
    let number = decimal(n as nat);
    let unit = Seq::<char>::empty();
    law_decimal_denotes(n as nat);
    assert(number + unit =~= number);
    law_number_with_unit(number, unit);
    lemma_without_absent(number, '_');
    reveal_strlit("");
    assert(lowercase(trim(unit)) =~= unit);
    lemma_without_absent(unit, ' ');
    assert(unit =~= ""@);
    assert(unit_of(unit) == unit);
    assert(multiplier(unit) == Some(1nat));
    assert(without(number, '_') == number);
    assert(digits_value(number) * 1 == n);
    assert(sized(number, unit) == Ok::<nat, Seq<char>>(n as nat));
}

/// What is white space, what a digit, and what making letters small does, by the numbers
/// of the characters.
pub proof fn law_characters(c: char)
    ensures
        white_space(c) <==> {
            let n = c as nat;
            ||| 9 <= n <= 13
            ||| n == 0x20
            ||| n == 0x85
            ||| n == 0xa0
            ||| n == 0x1680
            ||| 0x2000 <= n <= 0x200a
            ||| n == 0x2028
            ||| n == 0x2029
            ||| n == 0x202f
            ||| n == 0x205f
            ||| n == 0x3000
        },
        is_digit(c) <==> 48 <= c as nat <= 57,
        in_number(c) <==> 48 <= c as nat <= 57 || c as nat == 95,
        lower(c) as nat == if 65 <= c as nat <= 90 {
            c as nat + 32
        } else {
            c as nat
        },
{
}

/// A digit behind other digits makes ten times their number and itself.
pub proof fn law_digit_appended(s: Seq<char>, d: nat)
    requires
        d < 10,
    ensures
        digits_value(Seq::empty()) == 0,
        digits_value(s.push(digit_char(d))) == 10 * digits_value(s) + d,
        is_digit(digit_char(d)),
        digit_char(d) as nat == 48 + d,
{
    assert(s.push(digit_char(d)).drop_last() =~= s);
}

/// A number times the bytes in a unit as a byte count, or why it is none.
pub open spec fn times(n: nat, bytes: nat) -> Result<nat, Seq<char>> {
    if n > usize::MAX {
        Err("invalid size: number too large to fit in target type"@)
    } else if n * bytes > usize::MAX {
        Err("size is too large"@)
    } else {
        Ok(n * bytes)
    }
}

/// A unit without white space is looked up as it is, in small letters.
proof fn lemma_plain_unit(unit: Seq<char>, small: Seq<char>)
    requires
        unit.len() == small.len(),
        forall|i: int|
            0 <= i < unit.len() ==> !white_space(#[trigger] unit[i]) && lower(unit[i]) == small[i],
    ensures
        unit_of(unit) == small,
{
    assert(trim(unit) == unit);
    assert(lowercase(unit) =~= small);
    assert forall|i: int| 0 <= i < small.len() implies #[trigger] small[i] != ' ' by {
        assert(!white_space(unit[i]));
        lemma_lower(unit[i]);
    }
    lemma_without_absent(small, ' ');
}

/// A number with a unit that is spelled so says the number times the bytes in it.
proof fn lemma_count_in_unit(n: nat, unit: Seq<char>, small: Seq<char>, bytes: nat)
    requires
        unit.len() == small.len(),
        forall|i: int|
            0 <= i < unit.len() ==> !white_space(#[trigger] unit[i]) && lower(unit[i]) == small[i],
        unit.len() > 0 ==> !in_number(unit[0]),
        multiplier(small) == Some(bytes),
    ensures
        parsed_size(decimal(n) + unit) == times(n, bytes),
{
    let number = decimal(n);
    law_decimal_denotes(n);
    law_number_with_unit(number, unit);
    lemma_plain_unit(unit, small);
    lemma_without_absent(number, '_');
}

/// Without a unit, or with `B`, a number says itself. `K`, `M` and `G` are each a thousand
/// times the one before, and a `B` behind them changes nothing.
pub proof fn law_units(n: nat)
    ensures
        parsed_size(decimal(n)) == times(n, 1),
        parsed_size(decimal(n) + "B"@) == times(n, 1),
        parsed_size(decimal(n) + "K"@) == times(n, 1_000),
        parsed_size(decimal(n) + "KB"@) == times(n, 1_000),
        parsed_size(decimal(n) + "M"@) == times(n, 1_000_000),
        parsed_size(decimal(n) + "MB"@) == times(n, 1_000_000),
        parsed_size(decimal(n) + "G"@) == times(n, 1_000_000_000),
        parsed_size(decimal(n) + "GB"@) == times(n, 1_000_000_000),
{
    lemma_unit_spellings();
    lemma_multipliers();
    assert(decimal(n) + Seq::<char>::empty() =~= decimal(n));
    lemma_count_in_unit(n, Seq::empty(), ""@, 1);
    lemma_count_in_unit(n, "B"@, "b"@, 1);
    lemma_count_in_unit(n, "K"@, "k"@, 1_000);
    lemma_count_in_unit(n, "KB"@, "kb"@, 1_000);
    lemma_count_in_unit(n, "M"@, "m"@, 1_000_000);
    lemma_count_in_unit(n, "MB"@, "mb"@, 1_000_000);
    lemma_count_in_unit(n, "G"@, "g"@, 1_000_000_000);
    lemma_count_in_unit(n, "GB"@, "gb"@, 1_000_000_000);
}

/// The bytes in each unit.
proof fn lemma_multipliers()
    ensures
        multiplier(""@) == Some(1nat),
        multiplier("b"@) == Some(1nat),
        multiplier("k"@) == Some(1_000nat),
        multiplier("kb"@) == Some(1_000nat),
        multiplier("m"@) == Some(1_000_000nat),
        multiplier("mb"@) == Some(1_000_000nat),
        multiplier("g"@) == Some(1_000_000_000nat),
        multiplier("gb"@) == Some(1_000_000_000nat),
{
    lemma_unit_spellings();
    assert(""@.len() == 0);
    assert("b"@.len() == 1 && "b"@[0] == 'b');
    assert("k"@.len() == 1 && "k"@[0] == 'k');
    assert("m"@.len() == 1 && "m"@[0] == 'm');
    assert("g"@.len() == 1 && "g"@[0] == 'g');
    assert("kb"@.len() == 2 && "kb"@[0] == 'k');
    assert("mb"@.len() == 2 && "mb"@[0] == 'm');
    assert("gb"@.len() == 2 && "gb"@[0] == 'g');
}

/// The units in capital and in small letters.
proof fn lemma_unit_spellings()
    ensures
        ""@ == Seq::<char>::empty(),
        "B"@ == seq!['B'],
        "K"@ == seq!['K'],
        "KB"@ == seq!['K', 'B'],
        "M"@ == seq!['M'],
        "MB"@ == seq!['M', 'B'],
        "G"@ == seq!['G'],
        "GB"@ == seq!['G', 'B'],
        "b"@ == seq!['b'],
        "k"@ == seq!['k'],
        "kb"@ == seq!['k', 'b'],
        "m"@ == seq!['m'],
        "mb"@ == seq!['m', 'b'],
        "g"@ == seq!['g'],
        "gb"@ == seq!['g', 'b'],
{
    reveal_strlit("");
    reveal_strlit("B");
    reveal_strlit("K");
    reveal_strlit("KB");
    reveal_strlit("M");
    reveal_strlit("MB");
    reveal_strlit("G");
    reveal_strlit("GB");
    reveal_strlit("b");
    reveal_strlit("k");
    reveal_strlit("kb");
    reveal_strlit("m");
    reveal_strlit("mb");
    reveal_strlit("g");
    reveal_strlit("gb");
    assert(""@ =~= Seq::<char>::empty());
    assert("B"@ =~= seq!['B']);
    assert("K"@ =~= seq!['K']);
    assert("KB"@ =~= seq!['K', 'B']);
    assert("M"@ =~= seq!['M']);
    assert("MB"@ =~= seq!['M', 'B']);
    assert("G"@ =~= seq!['G']);
    assert("GB"@ =~= seq!['G', 'B']);
    assert("b"@ =~= seq!['b']);
    assert("k"@ =~= seq!['k']);
    assert("kb"@ =~= seq!['k', 'b']);
    assert("m"@ =~= seq!['m']);
    assert("mb"@ =~= seq!['m', 'b']);
    assert("g"@ =~= seq!['g']);
    assert("gb"@ =~= seq!['g', 'b']);
}

/// Any other unit is refused, and the message names it.
pub proof fn law_other_units_are_refused(n: usize, unit: Seq<char>)
    requires
        unit.len() > 0,
        !in_number(unit[0]),
        forall|i: int|
            0 <= i < unit.len() ==> !white_space(#[trigger] unit[i]) && !('A' <= unit[i] <= 'Z'),
        unit != seq!['b'],
        unit != seq!['k'],
        unit != seq!['k', 'b'],
        unit != seq!['m'],
        unit != seq!['m', 'b'],
        unit != seq!['g'],
        unit != seq!['g', 'b'],
    ensures
        parsed_size(decimal(n as nat) + unit) == Err::<nat, Seq<char>>(
            "unsupported size unit: "@ + unit,
        ),
{
    let number = decimal(n as nat);
    law_decimal_denotes(n as nat);
    law_number_with_unit(number, unit);
    lemma_plain_unit(unit, unit);
    lemma_without_absent(number, '_');
    lemma_unit_spellings();
}

/// White space between the number and the unit does not matter.
pub proof fn law_white_space_between(number: Seq<char>, between: Seq<char>, unit: Seq<char>)
    requires
        number.len() > 0,
        forall|i: int| 0 <= i < number.len() ==> in_number(#[trigger] number[i]),
        forall|i: int| 0 <= i < between.len() ==> white_space(#[trigger] between[i]),
        unit.len() > 0 ==> !in_number(unit[0]),
    ensures
        parsed_size(number + between + unit) == parsed_size(number + unit),
{
    let rest = between + unit;
    assert(number + between + unit =~= number + rest);
    if between.len() > 0 {
        assert(white_space(between[0]));
        assert(rest[0] == between[0]);
    } else {
        assert(rest =~= unit);
    }
    law_number_with_unit(number, rest);
    law_number_with_unit(number, unit);
    lemma_trim_start_of_two(between, unit);
}

/// A separator anywhere in the number does not matter.
pub proof fn law_separators(first: Seq<char>, second: Seq<char>, unit: Seq<char>)
    requires
        first.len() + second.len() > 0,
        forall|i: int| 0 <= i < first.len() ==> in_number(#[trigger] first[i]),
        forall|i: int| 0 <= i < second.len() ==> in_number(#[trigger] second[i]),
        unit.len() > 0 ==> !in_number(unit[0]),
    ensures
        parsed_size(first + seq!['_'] + second + unit) == parsed_size(first + second + unit),
{
    let with = first + seq!['_'] + second;
    let bare = first + second;
    assert forall|i: int| 0 <= i < with.len() implies in_number(#[trigger] with[i]) by {
        if i < first.len() {
            assert(in_number(first[i]));
        } else if i > first.len() {
            assert(in_number(second[i - first.len() - 1]));
        }
    }
    assert forall|i: int| 0 <= i < bare.len() implies in_number(#[trigger] bare[i]) by {
        if i < first.len() {
            assert(in_number(first[i]));
        } else {
            assert(in_number(second[i - first.len()]));
        }
    }
    law_number_with_unit(with, unit);
    law_number_with_unit(bare, unit);
    let keep = all_but('_');
    lemma_filter_of_two(first + seq!['_'], second, keep);
    lemma_filter_of_two(first, seq!['_'], keep);
    lemma_filter_of_two(first, second, keep);
    lemma_nothing_kept(seq!['_'], keep);
    assert(first.filter(keep) + seq!['_'].filter(keep) =~= first.filter(keep));
}

/// What is kept of two texts is what is kept of either.
proof fn lemma_filter_of_two(a: Seq<char>, b: Seq<char>, keep: spec_fn(char) -> bool)
    ensures
        (a + b).filter(keep) == a.filter(keep) + b.filter(keep),
    decreases b.len(),
{
    reveal(Seq::filter);
    if b.len() == 0 {
        assert(a + b =~= a);
        assert(a.filter(keep) + b.filter(keep) =~= a.filter(keep));
    } else {
        assert((a + b).drop_last() =~= a + b.drop_last());
        lemma_filter_of_two(a, b.drop_last(), keep);
        assert((a + b).filter(keep) =~= a.filter(keep) + b.filter(keep));
    }
}

/// A size must start with a number: with a digit, be it behind separators.
pub proof fn law_a_number_comes_first(start: Seq<char>, rest: Seq<char>)
    requires
        start.len() + rest.len() > 0,
        forall|i: int| 0 <= i < start.len() ==> #[trigger] start[i] == '_',
        start.len() == 0 ==> !white_space(rest[0]),
        rest.len() > 0 ==> !in_number(rest[0]),
    ensures
        parsed_size(start + rest) == Err::<nat, Seq<char>>("size must start with a number"@),
{
    if start.len() > 0 {
        law_number_with_unit(start, rest);
        let keep = all_but('_');
        lemma_nothing_kept(start, keep);
    } else {
        assert(start + rest =~= rest);
        assert(trim_start(rest) == rest);
        lemma_trim_end_keeps_first(rest);
        let value = trim(rest);
        assert(number_len(value) == 0);
        assert(value.take(0) =~= Seq::empty());
        lemma_nothing_kept(value.take(0), all_but('_'));
    }
}

proof fn lemma_nothing_kept(s: Seq<char>, keep: spec_fn(char) -> bool)
    requires
        forall|i: int| 0 <= i < s.len() ==> !keep(#[trigger] s[i]),
    ensures
        s.filter(keep).len() == 0,
    decreases s.len(),
{
    reveal(Seq::filter);
    if s.len() > 0 {
        lemma_nothing_kept(s.drop_last(), keep);
    }
}

proof fn lemma_trim_end_keeps_first(s: Seq<char>)
    requires
        s.len() > 0,
        !white_space(s[0]),
    ensures
        trim_end(s).len() > 0,
        trim_end(s)[0] == s[0],
    decreases s.len(),
{
    if white_space(s.last()) {
        lemma_trim_end_keeps_first(s.drop_last());
    }
}

/// A size must not be white space alone.
pub proof fn law_empty_sizes_are_refused(blank: Seq<char>)
    requires
        forall|i: int| 0 <= i < blank.len() ==> white_space(#[trigger] blank[i]),
    ensures
        parsed_size(blank) == Err::<nat, Seq<char>>("size must not be empty"@),
{
    lemma_trim_end_of_white_space(blank);
    lemma_trim_order(blank);
    assert(trim_end(blank) =~= Seq::empty());
    assert(trim_start(Seq::<char>::empty()) == Seq::<char>::empty());
}

/// A number that does not fit is refused before its unit is looked at.
pub proof fn law_large_numbers_are_refused(n: nat, unit: Seq<char>)
    requires
        n > usize::MAX,
        unit.len() > 0 ==> !in_number(unit[0]),
    ensures
        parsed_size(decimal(n) + unit) == Err::<nat, Seq<char>>(
            "invalid size: number too large to fit in target type"@,
        ),
{
    law_decimal_denotes(n);
    law_number_with_unit(decimal(n), unit);
    lemma_without_absent(decimal(n), '_');
}

/// A blank inside the unit does not matter.
pub proof fn law_blanks_in_the_unit(number: Seq<char>, first: Seq<char>, second: Seq<char>)
    requires
        number.len() > 0,
        forall|i: int| 0 <= i < number.len() ==> in_number(#[trigger] number[i]),
        first.len() > 0,
        second.len() > 0,
        !in_number(first[0]),
        !white_space(first[0]),
        !white_space(second.last()),
    ensures
        parsed_size(number + (first + seq![' '] + second)) == parsed_size(
            number + (first + second),
        ),
{
    let with = first + seq![' '] + second;
    let bare = first + second;
    law_number_with_unit(number, with);
    law_number_with_unit(number, bare);
    assert(with[0] == first[0] && bare[0] == first[0]);
    assert(with.last() == second.last() && bare.last() == second.last());
    assert(trim(with) == with);
    assert(trim(bare) == bare);
    let keep = all_but(' ');
    let (a, b) = (lowercase(first), lowercase(second));
    assert(lower(' ') == ' ');
    assert(lowercase(with) =~= a + seq![' '] + b);
    assert(lowercase(bare) =~= a + b);
    lemma_filter_of_two(a + seq![' '], b, keep);
    lemma_filter_of_two(a, seq![' '], keep);
    lemma_filter_of_two(a, b, keep);
    lemma_nothing_kept(seq![' '], keep);
    assert(a.filter(keep) + seq![' '].filter(keep) =~= a.filter(keep));
}

} // verus!
