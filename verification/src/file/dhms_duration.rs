//! Durations written as days, hours, minutes and seconds, as in `1d12h30m`.

use vstd::prelude::*;

verus! {

pub const SECS_PER_MINUTE: i64 = 60;

pub const SECS_PER_HOUR: i64 = 3_600;

pub const SECS_PER_DAY: i64 = 86_400;

/// The character that stands for the digit `d`.
pub open spec fn digit_char(d: int) -> char {
    if d == 0 {
        '0'
    } else if d == 1 {
        '1'
    } else if d == 2 {
        '2'
    } else if d == 3 {
        '3'
    } else if d == 4 {
        '4'
    } else if d == 5 {
        '5'
    } else if d == 6 {
        '6'
    } else if d == 7 {
        '7'
    } else if d == 8 {
        '8'
    } else {
        '9'
    }
}

/// A natural number in decimal, without leading zeros.
pub open spec fn decimal(n: nat) -> Seq<char>
    decreases n,
{
    if n < 10 {
        seq![digit_char(n as int)]
    } else {
        decimal(n / 10).push(digit_char((n % 10) as int))
    }
}

/// One part of a written duration: the number and its unit, or nothing
/// where the number is not positive.
pub open spec fn part(n: int, unit: char) -> Seq<char> {
    if n > 0 {
        decimal(n as nat).push(unit)
    } else {
        Seq::empty()
    }
}

/// A duration of `seconds` seconds as it is written: the whole days, then
/// the hours, minutes and seconds that are left, each with its unit and
/// each only where it is not zero. A duration that is not positive is
/// written as the empty text.
pub open spec fn dhms_text(seconds: int) -> Seq<char> {
    if seconds <= 0 {
        Seq::empty()
    } else {
        part(seconds / 86_400, 'd') + part((seconds / 3_600) % 24, 'h') + part(
            (seconds / 60) % 60,
            'm',
        ) + part(seconds % 60, 's')
    }
}

/// The text of one digit.
fn digit_str(d: u64) -> (text: &'static str)
    requires
        d < 10,
    ensures
        text@ == seq![digit_char(d as int)],
{
    proof {
        reveal_strlit("0");
        reveal_strlit("1");
        reveal_strlit("2");
        reveal_strlit("3");
        reveal_strlit("4");
        reveal_strlit("5");
        reveal_strlit("6");
        reveal_strlit("7");
        reveal_strlit("8");
        reveal_strlit("9");
    }
    let text = if d == 0 {
        "0"
    } else if d == 1 {
        "1"
    } else if d == 2 {
        "2"
    } else if d == 3 {
        "3"
    } else if d == 4 {
        "4"
    } else if d == 5 {
        "5"
    } else if d == 6 {
        "6"
    } else if d == 7 {
        "7"
    } else if d == 8 {
        "8"
    } else {
        "9"
    };
    assert(text@ =~= seq![digit_char(d as int)]);
    text
}

/// Writes `n` in decimal at the end of `text`.
fn push_decimal(text: &mut String, n: u64)
    ensures
        final(text)@ == old(text)@ + decimal(n as nat),
    decreases n,
{
    if n >= 10 {
        push_decimal(text, n / 10);
    }
    text.append(digit_str(n % 10));
    assert(final(text)@ =~= old(text)@ + decimal(n as nat));
}

/// Writes one part of a duration at the end of `text`.
fn push_part(text: &mut String, n: i64, unit: &'static str)
    requires
        unit@.len() == 1,
    ensures
        final(text)@ == old(text)@ + part(n as int, unit@[0]),
{
    if n > 0 {
        push_decimal(text, n as u64);
        text.append(unit);
        assert(final(text)@ =~= old(text)@ + part(n as int, unit@[0]));
    } else {
        assert(final(text)@ =~= old(text)@ + part(n as int, unit@[0]));
    }
}

/// Writes a duration of `duration` seconds.
pub fn serialize(duration: i64) -> (text: String)
    ensures
        text@ == dhms_text(duration as int),
{
    let mut text = String::new();
    if duration > 0 {
        proof {
            reveal_strlit("d");
            reveal_strlit("h");
            reveal_strlit("m");
            reveal_strlit("s");
        }
        push_part(&mut text, duration / SECS_PER_DAY, "d");
        push_part(&mut text, (duration / SECS_PER_HOUR) % 24, "h");
        push_part(&mut text, (duration / SECS_PER_MINUTE) % 60, "m");
        push_part(&mut text, duration % 60, "s");
        assert(text@ =~= dhms_text(duration as int));
    }
    text
}

/// Why a text is not a duration.
#[derive(Debug, Clone, Copy, PartialEq, Eq, Structural)]
pub enum DurationError {
    /// What stands in front of this unit is not a whole number that fits
    /// in 64 bits.
    BadNumber(char),
    /// The parts add up to more seconds than fit in 64 bits.
    OutOfRange,
}

/// Whether `i` is the first place at which `c` stands in `text`.
pub open spec fn is_first(text: Seq<char>, c: char, i: int) -> bool {
    &&& 0 <= i < text.len()
    &&& text[i] == c
    &&& forall|j: int| 0 <= j < i ==> text[j] != c
}

/// The first place at which `c` stands in `text`, if it stands there.
pub open spec fn first_index(text: Seq<char>, c: char) -> Option<int> {
    if exists|i: int| is_first(text, c, i) {
        Some(choose|i: int| is_first(text, c, i))
    } else {
        None
    }
}

/// Whether `c` is one of the ten digits.
pub open spec fn is_digit(c: char) -> bool {
    '0' <= c <= '9'
}

/// The value of the digit `c`.
pub open spec fn digit_value(c: char) -> int {
    c as int - '0' as int
}

/// Whether a text is made of digits alone.
pub open spec fn all_digits(text: Seq<char>) -> bool {
    forall|i: int| 0 <= i < text.len() ==> is_digit(#[trigger] text[i])
}

/// The number that a text of digits writes in decimal.
pub open spec fn digits_value(text: Seq<char>) -> int
    decreases text.len(),
{
    if text.len() == 0 {
        0
    } else {
        digits_value(text.drop_last()) * 10 + digit_value(text.last())
    }
}

/// The whole number that a text writes, if it writes one that fits in 64
/// bits: an optional sign, `+` or `-`, then at least one digit and nothing
/// but digits.
pub open spec fn parse_int(text: Seq<char>) -> Option<int> {
    let signed = text.len() > 0 && (text[0] == '-' || text[0] == '+');
    let digits = if signed {
        text.skip(1)
    } else {
        text
    };
    let value = if text.len() > 0 && text[0] == '-' {
        -digits_value(digits)
    } else {
        digits_value(digits)
    };
    if digits.len() > 0 && all_digits(digits) && i64::MIN <= value <= i64::MAX {
        Some(value)
    } else {
        None
    }
}

/// The number that stands in front of the first `unit`, read from the place
/// `from` on; zero where the text has no such unit; `None` where what
/// stands there is not a number.
pub open spec fn number_before(text: Seq<char>, unit: char, from: int) -> Option<int> {
    match first_index(text, unit) {
        None => Some(0),
        Some(i) => parse_int(text.subrange(from, i)),
    }
}

/// The place from which reading goes on after `unit` was looked for: just
/// behind its first occurrence, or `from` where the text has none.
pub open spec fn place_after(text: Seq<char>, unit: char, from: int) -> int {
    match first_index(text, unit) {
        None => from,
        Some(i) => i + 1,
    }
}

/// The seconds that a written duration stands for. Days, hours, minutes
/// and seconds are looked for in this order. The number of each unit is
/// what stands between the place where the unit before it ended and the
/// first occurrence of its own letter; a unit whose letter is missing
/// counts as zero. What follows the last unit found is not read.
pub open spec fn dhms_seconds(text: Seq<char>) -> Result<int, DurationError> {
    let after_d = place_after(text, 'd', 0);
    let after_h = place_after(text, 'h', after_d);
    let after_m = place_after(text, 'm', after_h);
    match number_before(text, 'd', 0) {
        None => Err(DurationError::BadNumber('d')),
        Some(d) => match number_before(text, 'h', after_d) {
            None => Err(DurationError::BadNumber('h')),
            Some(h) => match number_before(text, 'm', after_h) {
                None => Err(DurationError::BadNumber('m')),
                Some(m) => match number_before(text, 's', after_m) {
                    None => Err(DurationError::BadNumber('s')),
                    Some(s) => {
                        let total = d * 86_400 + h * 3_600 + m * 60 + s;
                        if i64::MIN <= total <= i64::MAX {
                            Ok(total)
                        } else {
                            Err(DurationError::OutOfRange)
                        }
                    },
                },
            },
        },
    }
}

/// The characters of a text.
fn chars_of(text: &str) -> (chars: Vec<char>)
    ensures
        chars@ == text@,
{
    let mut chars: Vec<char> = Vec::new();
    for c in it: text.chars()
        invariant
            it.seq() == text@,
            chars@ == text@.take(it.index() as int),
    {
        chars.push(c);
        assert(text@.take(it.index() + 1) == text@.take(it.index() as int).push(c));
    }
    assert(text@.take(text@.len() as int) == text@);
    chars
}

/// Looks for the first occurrence of a character.
fn find(chars: &Vec<char>, c: char) -> (place: Option<usize>)
    ensures
        match place {
            Some(i) => first_index(chars@, c) == Some(i as int) && is_first(chars@, c, i as int),
            None => first_index(chars@, c) is None && forall|j: int|
                0 <= j < chars@.len() ==> chars@[j] != c,
        },
{
    let mut i: usize = 0;
    while i < chars.len()
        invariant
            i <= chars@.len(),
            forall|j: int| 0 <= j < i ==> chars@[j] != c,
        decreases chars@.len() - i,
    {
        if chars[i] == c {
            assert(is_first(chars@, c, i as int));
            let ghost chosen = choose|k: int| is_first(chars@, c, k);
            assert(chosen == i) by {
                if chosen < i {
                    assert(chars@[chosen] != c);
                }
                if i < chosen {
                    assert(chars@[i as int] != c);
                }
            }
            return Some(i);
        }
        i += 1;
    }
    assert(forall|k: int| !is_first(chars@, c, k));
    None
}

/// A text of digits is worth at least as much as any of its beginnings.
proof fn lemma_digits_grow(text: Seq<char>, k: int)
    requires
        all_digits(text),
        0 <= k <= text.len(),
    ensures
        0 <= digits_value(text.take(k)) <= digits_value(text),
    decreases text.len() - k,
{
    if k == text.len() {
        assert(text.take(k) =~= text);
        lemma_digits_nonnegative(text);
    } else {
        lemma_digits_grow(text, k + 1);
        assert(text.take(k + 1).drop_last() =~= text.take(k));
        assert(is_digit(text[k]));
        lemma_digits_nonnegative(text.take(k));
        assert forall|i: int| 0 <= i < text.take(k).len() implies is_digit(
            #[trigger] text.take(k)[i],
        ) by {
            assert(text.take(k)[i] == text[i]);
        }
    }
}

/// A text of digits is worth no less than zero.
proof fn lemma_digits_nonnegative(text: Seq<char>)
    requires
        all_digits(text),
    ensures
        0 <= digits_value(text),
    decreases text.len(),
{
    if text.len() > 0 {
        assert forall|i: int| 0 <= i < text.drop_last().len() implies is_digit(
            #[trigger] text.drop_last()[i],
        ) by {
            assert(text.drop_last()[i] == text[i]);
        }
        lemma_digits_nonnegative(text.drop_last());
        assert(is_digit(text[text.len() - 1]));
    }
}

/// Reads the whole number that stands between two places.
#[verifier::loop_isolation(false)]
fn parse_number(chars: &Vec<char>, from: usize, to: usize) -> (number: Option<i64>)
    requires
        from <= to <= chars@.len(),
    ensures
        match number {
            Some(n) => parse_int(chars@.subrange(from as int, to as int)) == Some(n as int),
            None => parse_int(chars@.subrange(from as int, to as int)) is None,
        },
{
    let ghost text = chars@.subrange(from as int, to as int);
    if from == to {
        return None;
    }
    let negative = chars[from] == '-';
    let signed = negative || chars[from] == '+';
    let start: usize = if signed {
        from + 1
    } else {
        from
    };
    assert(text[0] == chars@[from as int]);
    let ghost digits = if signed {
        text.skip(1)
    } else {
        text
    };
    assert(digits =~= chars@.subrange(start as int, to as int));
    if start == to {
        return None;
    }
    // The largest magnitude that can still fit: 2^63.
    let limit: i128 = 9_223_372_036_854_775_808;
    let mut value: i128 = 0;
    let mut i: usize = start;
    while i < to
        invariant
            start <= i <= to,
            to <= chars@.len(),
            digits == chars@.subrange(start as int, to as int),
            all_digits(digits.take(i - start)),
            value == digits_value(digits.take(i - start)),
            0 <= value <= limit,
            limit == 9_223_372_036_854_775_808,
        decreases to - i,
    {
        let c = chars[i];
        let ghost k = i - start;
        assert(digits[k] == c);
        assert(digits.take(k + 1).drop_last() =~= digits.take(k));
        if !(c >= '0' && c <= '9') {
            assert(!is_digit(digits[k]));
            return None;
        }
        assert forall|j: int| 0 <= j < digits.take(k + 1).len() implies is_digit(
            #[trigger] digits.take(k + 1)[j],
        ) by {
            if j < k {
                assert(digits.take(k)[j] == digits.take(k + 1)[j]);
            }
        }
        let d: i128 = (c as u32 - '0' as u32) as i128;
        let next: i128 = value * 10 + d;
        if next > limit {
            proof {
                assert forall|j: int| 0 <= j < digits.len() && !is_digit(
                    digits[j],
                ) implies !all_digits(digits) by {}
                if all_digits(digits) {
                    lemma_digits_grow(digits, k + 1);
                }
            }
            return None;
        }
        value = next;
        i += 1;
    }
    assert(digits.take(to - start) =~= digits);
    if negative {
        Some((-value) as i64)
    } else if value == limit {
        None
    } else {
        Some(value as i64)
    }
}

/// Whether `c` stands nowhere in `text` in front of the place `upto`.
spec fn absent_before(text: Seq<char>, c: char, upto: int) -> bool {
    forall|j: int| 0 <= j < upto ==> text[j] != c
}

/// Whether `c` can stand inside a number.
spec fn in_numbers(c: char) -> bool {
    is_digit(c) || c == '+' || c == '-'
}

/// A number that was read clears the way: reading goes on at or behind
/// the place it started from, and a letter that was absent in front of
/// that place is absent in front of the new one, since only a number and
/// `unit` lie between.
proof fn lemma_number_clears_the_way(text: Seq<char>, unit: char, from: int)
    requires
        0 <= from <= text.len(),
        absent_before(text, unit, from),
        !in_numbers(unit),
        number_before(text, unit, from) is Some,
    ensures
        from <= place_after(text, unit, from) <= text.len(),
        forall|c: char|
            !in_numbers(c) && c != unit && absent_before(text, c, from) ==> #[trigger] absent_before(
                text,
                c,
                place_after(text, unit, from),
            ),
{
    if first_index(text, unit) is Some {
        let i = first_index(text, unit).unwrap();
        assert(is_first(text, unit, i));
        assert(from <= i);
        let number = text.subrange(from, i);
        let signed = number.len() > 0 && (number[0] == '-' || number[0] == '+');
        let digits = if signed {
            number.skip(1)
        } else {
            number
        };
        assert(all_digits(digits));
        assert forall|c: char|
            !in_numbers(c) && c != unit && absent_before(
                text,
                c,
                from,
            ) implies #[trigger] absent_before(text, c, i + 1) by {
            assert forall|j: int| 0 <= j < i + 1 implies text[j] != c by {
                if from <= j < i {
                    assert(number[j - from] == text[j]);
                    if signed {
                        if j > from {
                            assert(digits[j - from - 1] == text[j]);
                            assert(is_digit(digits[j - from - 1]));
                        }
                    } else {
                        assert(digits[j - from] == text[j]);
                        assert(is_digit(digits[j - from]));
                    }
                }
            }
        }
    }
}

/// Whether the first `unit` of `text`, if there is one, stands at or behind
/// the place `from`, so that what lies between the two is a piece of the
/// text.
pub open spec fn lies_ahead(text: Seq<char>, unit: char, from: int) -> bool {
    &&& 0 <= from <= text.len()
    &&& first_index(text, unit) matches Some(i) ==> from <= i
}

/// Reading never turns back: as long as the numbers of the units before
/// were read, the letter of the next unit is looked for where reading went
/// on, and is not found in front of that place.
pub proof fn law_reading_goes_forward(text: Seq<char>)
    ensures
        ({
            let after_d = place_after(text, 'd', 0);
            let after_h = place_after(text, 'h', after_d);
            let after_m = place_after(text, 'm', after_h);
            let d = number_before(text, 'd', 0);
            let h = number_before(text, 'h', after_d);
            let m = number_before(text, 'm', after_h);
            &&& lies_ahead(text, 'd', 0)
            &&& d is Some ==> lies_ahead(text, 'h', after_d)
            &&& d is Some && h is Some ==> after_d <= after_h && lies_ahead(text, 'm', after_h)
            &&& d is Some && h is Some && m is Some ==> after_h <= after_m && lies_ahead(
                text,
                's',
                after_m,
            )
        }),
{
    let after_d = place_after(text, 'd', 0);
    let after_h = place_after(text, 'h', after_d);
    let after_m = place_after(text, 'm', after_h);
    assert(absent_before(text, 'd', 0) && absent_before(text, 'h', 0) && absent_before(
        text,
        'm',
        0,
    ) && absent_before(text, 's', 0));
    assert forall|unit: char, from: int|
        0 <= from <= text.len() && absent_before(text, unit, from) implies #[trigger] lies_ahead(
        text,
        unit,
        from,
    ) by {
        if first_index(text, unit) is Some {
            let i = first_index(text, unit).unwrap();
            assert(is_first(text, unit, i));
        }
    }
    if number_before(text, 'd', 0) is Some {
        lemma_number_clears_the_way(text, 'd', 0);
        assert(absent_before(text, 'h', after_d) && absent_before(text, 'm', after_d)
            && absent_before(text, 's', after_d));
        assert(lies_ahead(text, 'h', after_d));
        if number_before(text, 'h', after_d) is Some {
            lemma_number_clears_the_way(text, 'h', after_d);
            assert(absent_before(text, 'm', after_h) && absent_before(text, 's', after_h));
            assert(lies_ahead(text, 'm', after_h));
            if number_before(text, 'm', after_h) is Some {
                lemma_number_clears_the_way(text, 'm', after_h);
                assert(absent_before(text, 's', after_m));
                assert(lies_ahead(text, 's', after_m));
            }
        }
    }
}

/// Reads the number in front of the first `unit`, from the place `from` on.
/// A letter that was absent in front of `from` is absent in front of the
/// place where reading goes on.
fn read_unit(chars: &Vec<char>, unit: char, from: usize) -> (read: Option<(i64, usize)>)
    requires
        from <= chars@.len(),
        absent_before(chars@, unit, from as int),
        !in_numbers(unit),
    ensures
        match read {
            Some((n, next)) => {
                &&& number_before(chars@, unit, from as int) == Some(n as int)
                &&& next == place_after(chars@, unit, from as int)
                &&& from <= next <= chars@.len()
                &&& forall|c: char|
                    !in_numbers(c) && c != unit && absent_before(chars@, c, from as int)
                        ==> #[trigger] absent_before(chars@, c, next as int)
            },
            None => number_before(chars@, unit, from as int) is None,
        },
{
    match find(chars, unit) {
        None => Some((0, from)),
        Some(i) => {
            assert(from <= i);
            match parse_number(chars, from, i) {
                None => None,
                Some(n) => {
                    proof {
                        lemma_number_clears_the_way(chars@, unit, from as int);
                    }
                    assert(i < chars.len());
                    Some((n, i + 1))
                },
            }
        },
    }
}

/// Reads a written duration: the seconds it stands for, or what is wrong
/// with it.
pub fn deserialize(text: &str) -> (duration: Result<i64, DurationError>)
    ensures
        match duration {
            Ok(seconds) => dhms_seconds(text@) == Ok::<int, DurationError>(seconds as int),
            Err(e) => dhms_seconds(text@) == Err::<int, DurationError>(e),
        },
{
    let chars = chars_of(text);
    assert(absent_before(chars@, 'd', 0) && absent_before(chars@, 'h', 0) && absent_before(
        chars@,
        'm',
        0,
    ) && absent_before(chars@, 's', 0));
    let (d, after_d) = match read_unit(&chars, 'd', 0) {
        Some(read) => read,
        None => {
            return Err(DurationError::BadNumber('d'));
        },
    };
    assert(absent_before(chars@, 'h', after_d as int) && absent_before(chars@, 'm', after_d as int)
        && absent_before(chars@, 's', after_d as int));
    let (h, after_h) = match read_unit(&chars, 'h', after_d) {
        Some(read) => read,
        None => {
            return Err(DurationError::BadNumber('h'));
        },
    };
    assert(absent_before(chars@, 'm', after_h as int) && absent_before(chars@, 's', after_h as int));
    let (m, after_m) = match read_unit(&chars, 'm', after_h) {
        Some(read) => read,
        None => {
            return Err(DurationError::BadNumber('m'));
        },
    };
    assert(absent_before(chars@, 's', after_m as int));
    let (s, _) = match read_unit(&chars, 's', after_m) {
        Some(read) => read,
        None => {
            return Err(DurationError::BadNumber('s'));
        },
    };
    let total: i128 = d as i128 * 86_400 + h as i128 * 3_600 + m as i128 * 60 + s as i128;
    if total < i64::MIN as i128 || total > i64::MAX as i128 {
        Err(DurationError::OutOfRange)
    } else {
        Ok(total as i64)
    }
}

/// The decimal text of a number is made of digits, has at least one, and
/// is worth the number.
proof fn lemma_decimal_is_read(n: nat)
    ensures
        decimal(n).len() > 0,
        all_digits(decimal(n)),
        digits_value(decimal(n)) == n,
    decreases n,
{
    if n < 10 {
        let text = seq![digit_char(n as int)];
        assert(text.drop_last() =~= Seq::<char>::empty());
        assert(digits_value(text.drop_last()) == 0);
        assert(text.last() == digit_char(n as int));
    } else {
        lemma_decimal_is_read(n / 10);
        let text = decimal(n);
        let init = decimal(n / 10);
        let last = digit_char((n % 10) as int);
        assert(text.drop_last() =~= init);
        assert(text.last() == last);
        assert forall|i: int| 0 <= i < text.len() implies is_digit(#[trigger] text[i]) by {
            if i < init.len() {
                assert(text[i] == init[i]);
            }
        }
    }
}

/// Whether `c` stands nowhere in `text`.
spec fn free_of(text: Seq<char>, c: char) -> bool {
    forall|i: int| 0 <= i < text.len() ==> text[i] != c
}

/// A part holds no letter but its own unit.
proof fn lemma_part_free(n: int, unit: char, c: char)
    requires
        c != unit,
        !is_digit(c),
    ensures
        free_of(part(n, unit), c),
{
    if n > 0 {
        lemma_decimal_is_read(n as nat);
        let digits = decimal(n as nat);
        assert forall|i: int| 0 <= i < part(n, unit).len() implies part(n, unit)[i] != c by {
            if i < digits.len() {
                assert(part(n, unit)[i] == digits[i]);
                assert(is_digit(digits[i]));
            }
        }
    }
}

/// Two texts without a character make one text without it.
proof fn lemma_joined_free(a: Seq<char>, b: Seq<char>, c: char)
    requires
        free_of(a, c),
        free_of(b, c),
    ensures
        free_of(a + b, c),
{
    assert forall|i: int| 0 <= i < (a + b).len() implies (a + b)[i] != c by {
        if i < a.len() {
            assert((a + b)[i] == a[i]);
        } else {
            assert((a + b)[i] == b[i - a.len()]);
        }
    }
}

/// A part that stands between two texts without its unit is read back:
/// the number in front of the unit is the part's number, and reading goes
/// on behind the part.
proof fn lemma_part_is_read(before: Seq<char>, n: int, unit: char, behind: Seq<char>)
    requires
        0 <= n <= i64::MAX,
        !in_numbers(unit),
        free_of(before, unit),
        free_of(behind, unit),
    ensures
        number_before(before + part(n, unit) + behind, unit, before.len() as int) == Some(n),
        place_after(before + part(n, unit) + behind, unit, before.len() as int) == before.len()
            + part(n, unit).len(),
{
    let text = before + part(n, unit) + behind;
    if n > 0 {
        lemma_decimal_is_read(n as nat);
        let digits = decimal(n as nat);
        let place = (before.len() + digits.len()) as int;
        assert(text[place] == unit);
        assert forall|j: int| 0 <= j < place implies text[j] != unit by {
            if j >= before.len() {
                assert(text[j] == digits[j - before.len()]);
                assert(is_digit(digits[j - before.len()]));
            } else {
                assert(text[j] == before[j]);
            }
        }
        assert(is_first(text, unit, place));
        let chosen = choose|i: int| is_first(text, unit, i);
        assert(chosen == place) by {
            if chosen < place {
                assert(text[chosen] != unit);
            }
        }
        assert(text.subrange(before.len() as int, place) =~= digits);
        assert(is_digit(digits[0]));
    } else {
        assert(part(n, unit) =~= Seq::<char>::empty());
        assert forall|i: int| !is_first(text, unit, i) by {
            if 0 <= i < text.len() {
                if i < before.len() {
                    assert(text[i] == before[i]);
                } else {
                    assert(text[i] == behind[i - before.len()]);
                }
            }
        }
    }
}

/// Days, hours, minutes and seconds of a duration add up to it.
proof fn lemma_parts_add_up(n: int)
    requires
        n >= 0,
    ensures
        (n / 86_400) * 86_400 + ((n / 3_600) % 24) * 3_600 + ((n / 60) % 60) * 60 + n % 60 == n,
        0 <= n / 86_400 <= n,
        0 <= (n / 3_600) % 24 < 24,
        0 <= (n / 60) % 60 < 60,
        0 <= n % 60 < 60,
{
    let minutes = n / 60;
    let hours = minutes / 60;
    let days = hours / 24;
    assert(hours == n / 3_600);
    assert(days == n / 86_400);
}

/// Four parts in a row are read back one after the other.
proof fn lemma_parts_are_read(d: int, h: int, m: int, s: int)
    requires
        0 <= d <= i64::MAX,
        0 <= h <= i64::MAX,
        0 <= m <= i64::MAX,
        0 <= s <= i64::MAX,
    ensures
        ({
            let text = part(d, 'd') + part(h, 'h') + part(m, 'm') + part(s, 's');
            let after_d = place_after(text, 'd', 0);
            let after_h = place_after(text, 'h', after_d);
            let after_m = place_after(text, 'm', after_h);
            &&& number_before(text, 'd', 0) == Some(d)
            &&& number_before(text, 'h', after_d) == Some(h)
            &&& number_before(text, 'm', after_h) == Some(m)
            &&& number_before(text, 's', after_m) == Some(s)
        }),
{
    let none = Seq::<char>::empty();
    let pd = part(d, 'd');
    let ph = part(h, 'h');
    let pm = part(m, 'm');
    let ps = part(s, 's');
    let text = pd + ph + pm + ps;
    assert(number_before(text, 'd', 0) == Some(d) && place_after(text, 'd', 0) == pd.len()) by {
        lemma_part_free(h, 'h', 'd');
        lemma_part_free(m, 'm', 'd');
        lemma_part_free(s, 's', 'd');
        lemma_joined_free(ph, pm, 'd');
        lemma_joined_free(ph + pm, ps, 'd');
        lemma_part_is_read(none, d, 'd', ph + pm + ps);
        assert(text =~= none + pd + (ph + pm + ps));
    }
    assert(number_before(text, 'h', pd.len() as int) == Some(h) && place_after(
        text,
        'h',
        pd.len() as int,
    ) == pd.len() + ph.len()) by {
        lemma_part_free(d, 'd', 'h');
        lemma_part_free(m, 'm', 'h');
        lemma_part_free(s, 's', 'h');
        lemma_joined_free(pm, ps, 'h');
        lemma_part_is_read(pd, h, 'h', pm + ps);
        assert(text =~= pd + ph + (pm + ps));
    }
    assert(number_before(text, 'm', (pd + ph).len() as int) == Some(m) && place_after(
        text,
        'm',
        (pd + ph).len() as int,
    ) == (pd + ph).len() + pm.len()) by {
        lemma_part_free(d, 'd', 'm');
        lemma_part_free(h, 'h', 'm');
        lemma_part_free(s, 's', 'm');
        lemma_joined_free(pd, ph, 'm');
        lemma_part_is_read(pd + ph, m, 'm', ps);
    }
    assert(number_before(text, 's', (pd + ph + pm).len() as int) == Some(s)) by {
        lemma_part_free(d, 'd', 's');
        lemma_part_free(h, 'h', 's');
        lemma_part_free(m, 'm', 's');
        lemma_joined_free(pd, ph, 's');
        lemma_joined_free(pd + ph, pm, 's');
        lemma_part_is_read(pd + ph + pm, s, 's', none);
        assert(text =~= (pd + ph + pm) + ps + none);
    }
}

/// What was written is read back: the text of a duration of `seconds`
/// seconds stands for `seconds` seconds, where that is more than none, and
/// for none where it is not.
pub proof fn law_written_is_read(seconds: i64)
    ensures
        seconds > 0 ==> dhms_seconds(dhms_text(seconds as int)) == Ok::<int, DurationError>(
            seconds as int,
        ),
        seconds <= 0 ==> dhms_seconds(dhms_text(seconds as int)) == Ok::<int, DurationError>(0),
{
    let n = seconds as int;
    if n <= 0 {
        lemma_parts_are_read(0, 0, 0, 0);
        assert(part(0, 'd') + part(0, 'h') + part(0, 'm') + part(0, 's') =~= dhms_text(n));
    } else {
        lemma_parts_add_up(n);
        lemma_parts_are_read(n / 86_400, (n / 3_600) % 24, (n / 60) % 60, n % 60);
    }
}

} // verus!
