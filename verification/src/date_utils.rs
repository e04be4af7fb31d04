//! The three token grammars of a reminder command: a calendar date written
//! as `13APR2026`, a time of day written as `1300`, and a duration written
//! as `1y2M3d4h5m`.

use crate::text::{
    all_digits, all_letters, bounded_value, char_is_digit, char_is_letter, chars_of,
    decimal_value, digit_run, digit_value, is_digit, is_letter, lemma_decimal_bound,
    lemma_digit_run, lemma_digit_run_is, lower, lowercase, read_number, skip_digits, to_lower,
};
use vstd::prelude::*;

verus! {

/// What a token was recognised as.
#[derive(Clone, Copy, Debug, PartialEq, Eq, Structural)]
pub enum RemindMeDateTypes {
    /// The token fits none of the grammars.
    Invalid,
    /// A calendar date: day of the month, month from 1 to 12, and year.
    ThreeLetterMonth { d: u32, mon: u32, y: i32 },
    /// A time of day on a 24-hour clock.
    SpecifiedTime { h: u32, min: u32 },
    /// A span to add to an instant; a part that was left out is zero.
    AddedTime { y: i32, mon: u32, d: u32, h: u32, min: u32 },
}

/// The abbreviation of a month, in lower case.
pub open spec fn month_abbreviation(month: int) -> Seq<char> {
    if month == 1 {
        seq!['j', 'a', 'n']
    } else if month == 2 {
        seq!['f', 'e', 'b']
    } else if month == 3 {
        seq!['m', 'a', 'r']
    } else if month == 4 {
        seq!['a', 'p', 'r']
    } else if month == 5 {
        seq!['m', 'a', 'y']
    } else if month == 6 {
        seq!['j', 'u', 'n']
    } else if month == 7 {
        seq!['j', 'u', 'l']
    } else if month == 8 {
        seq!['a', 'u', 'g']
    } else if month == 9 {
        seq!['s', 'e', 'p']
    } else if month == 10 {
        seq!['o', 'c', 't']
    } else if month == 11 {
        seq!['n', 'o', 'v']
    } else {
        seq!['d', 'e', 'c']
    }
}

/// A text abbreviates a month where it is that month's abbreviation in
/// upper or lower case, or any mixture of the two.
pub open spec fn abbreviates(s: Seq<char>, month: int) -> bool {
    1 <= month <= 12 && lowercase(s) == month_abbreviation(month)
}

/// The number, from 1 to 12, of the month that a text abbreviates, if it
/// abbreviates one.
pub open spec fn month_number(s: Seq<char>) -> Option<u32> {
    if exists|month: int| abbreviates(s, month) {
        Some((choose|month: int| abbreviates(s, month)) as u32)
    } else {
        None
    }
}

/// The month that three lower-case letters abbreviate.
spec fn month_of_letters(a: char, b: char, c: char) -> Option<u32> {
    if a == 'j' && b == 'a' && c == 'n' {
        Some(1u32)
    } else if a == 'f' && b == 'e' && c == 'b' {
        Some(2u32)
    } else if a == 'm' && b == 'a' && c == 'r' {
        Some(3u32)
    } else if a == 'a' && b == 'p' && c == 'r' {
        Some(4u32)
    } else if a == 'm' && b == 'a' && c == 'y' {
        Some(5u32)
    } else if a == 'j' && b == 'u' && c == 'n' {
        Some(6u32)
    } else if a == 'j' && b == 'u' && c == 'l' {
        Some(7u32)
    } else if a == 'a' && b == 'u' && c == 'g' {
        Some(8u32)
    } else if a == 's' && b == 'e' && c == 'p' {
        Some(9u32)
    } else if a == 'o' && b == 'c' && c == 't' {
        Some(10u32)
    } else if a == 'n' && b == 'o' && c == 'v' {
        Some(11u32)
    } else if a == 'd' && b == 'e' && c == 'c' {
        Some(12u32)
    } else {
        None
    }
}

/// Every abbreviation has three letters, and they tell the months apart.
proof fn lemma_month_letters(month: int)
    requires
        1 <= month <= 12,
    ensures
        month_abbreviation(month).len() == 3,
        month_of_letters(
            month_abbreviation(month)[0],
            month_abbreviation(month)[1],
            month_abbreviation(month)[2],
        ) == Some(month as u32),
{
}

/// Only a text of three letters abbreviates a month, and which month it is
/// shows in its letters.
proof fn lemma_month_number(s: Seq<char>)
    ensures
        s.len() != 3 ==> month_number(s) is None,
        s.len() == 3 ==> month_number(s) == month_of_letters(
            lower(s[0]),
            lower(s[1]),
            lower(s[2]),
        ),
        month_number(s) matches Some(month) ==> 1 <= month <= 12 && abbreviates(s, month as int)
            && is_letter(s[0]) && is_letter(s[1]) && is_letter(s[2]),
{
    let low = lowercase(s);
    assert forall|month: int| abbreviates(s, month) implies s.len() == 3 && month_of_letters(
        lower(s[0]),
        lower(s[1]),
        lower(s[2]),
    ) == Some(month as u32) by {
        lemma_month_letters(month);
        assert(low[0] == lower(s[0]) && low[1] == lower(s[1]) && low[2] == lower(s[2]));
    }
    if s.len() == 3 {
        if let Some(month) = month_of_letters(lower(s[0]), lower(s[1]), lower(s[2])) {
            lemma_month_letters(month as int);
            assert(low =~= month_abbreviation(month as int));
            assert(abbreviates(s, month as int));
        }
    }
}

/// How many digits the day of an absolute date takes: two where the second
/// character is a digit too, else one.
pub open spec fn day_width(s: Seq<char>) -> int {
    if s.len() >= 2 && is_digit(s[1]) {
        2
    } else {
        1
    }
}

/// The shape of an absolute date: one or two digits, three letters, then
/// two to four digits, and nothing else.
pub open spec fn is_absolute_date(s: Seq<char>) -> bool {
    let w = day_width(s);
    &&& w + 5 <= s.len() <= w + 7
    &&& all_digits(s.take(w))
    &&& all_letters(s.subrange(w, w + 3))
    &&& all_digits(s.skip(w + 3))
}

/// What a token of the absolute-date shape stands for. Letters that name no
/// month make the whole token invalid.
pub open spec fn absolute_date(s: Seq<char>) -> RemindMeDateTypes {
    let w = day_width(s);
    match month_number(s.subrange(w, w + 3)) {
        Some(mon) => RemindMeDateTypes::ThreeLetterMonth {
            d: decimal_value(s.take(w)) as u32,
            mon,
            y: decimal_value(s.skip(w + 3)) as i32,
        },
        None => RemindMeDateTypes::Invalid,
    }
}

/// The shape of a time of day: four digits, of which the first is at most
/// 2, the second at most 3 and the third at most 5.
pub open spec fn is_time_of_day(s: Seq<char>) -> bool {
    &&& s.len() == 4
    &&& '0' <= s[0] && s[0] <= '2'
    &&& '0' <= s[1] && s[1] <= '3'
    &&& '0' <= s[2] && s[2] <= '5'
    &&& is_digit(s[3])
}

/// What a token of the time-of-day shape stands for.
pub open spec fn time_of_day(s: Seq<char>) -> RemindMeDateTypes {
    RemindMeDateTypes::SpecifiedTime {
        h: (digit_value(s[0]) * 10 + digit_value(s[1])) as u32,
        min: (digit_value(s[2]) * 10 + digit_value(s[3])) as u32,
    }
}

/// Whether a part of a duration, one or more digits and then `unit`, stands
/// at `from`.
pub open spec fn has_part(s: Seq<char>, from: int, unit: char) -> bool {
    let end = digit_run(s, from);
    from < end && end < s.len() && s[end] == unit
}

/// Where reading goes on after the part for `unit` that may stand at `from`.
pub open spec fn part_end(s: Seq<char>, from: int, unit: char) -> int {
    if has_part(s, from, unit) {
        digit_run(s, from) + 1
    } else {
        from
    }
}

/// The number in the part for `unit` that may stand at `from`: zero where
/// there is no such part, and where the number is above `limit`.
pub open spec fn part_value(s: Seq<char>, from: int, unit: char, limit: u32) -> u32 {
    if has_part(s, from, unit) {
        bounded_value(s.subrange(from, digit_run(s, from)), limit)
    } else {
        0
    }
}

/// Where the parts for years, months, days, hours and minutes start, each
/// after the one before it, and where the last one ends.
pub open spec fn part_starts(s: Seq<char>) -> (int, int, int, int, int) {
    let months = part_end(s, 0, 'y');
    let days = part_end(s, months, 'M');
    let hours = part_end(s, days, 'd');
    let minutes = part_end(s, hours, 'h');
    (months, days, hours, minutes, part_end(s, minutes, 'm'))
}

/// The shape of a relative duration: parts for `y`, `M`, `d`, `h` and `m`,
/// in that order, each present once or left out, and nothing else.
pub open spec fn is_relative_duration(s: Seq<char>) -> bool {
    part_starts(s).4 == s.len()
}

/// What a token of the relative-duration shape stands for.
pub open spec fn relative_duration(s: Seq<char>) -> RemindMeDateTypes {
    let starts = part_starts(s);
    RemindMeDateTypes::AddedTime {
        y: part_value(s, 0, 'y', 0x7fff_ffff) as i32,
        mon: part_value(s, starts.0, 'M', u32::MAX),
        d: part_value(s, starts.1, 'd', u32::MAX),
        h: part_value(s, starts.2, 'h', u32::MAX),
        min: part_value(s, starts.3, 'm', u32::MAX),
    }
}

/// The part for `unit` that stands at `from`, by its digits, if there is one.
pub open spec fn part_at(s: Seq<char>, from: int, unit: char) -> Option<Seq<char>> {
    if has_part(s, from, unit) {
        Some(s.subrange(from, digit_run(s, from)))
    } else {
        None
    }
}

/// A part of a duration as it is written: the digits and then the unit, or
/// nothing where the part is left out.
pub open spec fn part_text(number: Option<Seq<char>>, unit: char) -> Seq<char> {
    match number {
        Some(digits) => digits.push(unit),
        None => Seq::empty(),
    }
}

/// A part that is written has at least one digit, and digits only.
pub open spec fn is_part_number(number: Option<Seq<char>>) -> bool {
    number matches Some(digits) ==> digits.len() > 0 && all_digits(digits)
}

/// The number that a part contributes: zero where the part is left out,
/// and where its number is above `limit`.
pub open spec fn part_number(number: Option<Seq<char>>, limit: u32) -> u32 {
    match number {
        Some(digits) => bounded_value(digits, limit),
        None => 0,
    }
}

/// What a token stands for. The grammars are tried in a fixed order: the
/// absolute date, the time of day, the relative duration. The empty token
/// is invalid, and so is one that fits none of them.
pub open spec fn parsed(s: Seq<char>) -> RemindMeDateTypes {
    if s.len() == 0 {
        RemindMeDateTypes::Invalid
    } else if is_absolute_date(s) {
        absolute_date(s)
    } else if is_time_of_day(s) {
        time_of_day(s)
    } else if is_relative_duration(s) {
        relative_duration(s)
    } else {
        RemindMeDateTypes::Invalid
    }
}

/// The number of the month that `mon` abbreviates, from 1 for January to 12
/// for December, whatever the case of its letters.
pub fn month_to_number(mon: &str) -> (r: Option<u32>)
    ensures
        r == month_number(mon@),
        r matches Some(m) ==> 1 <= m <= 12,
{
    let chars = chars_of(mon);
    proof {
        lemma_month_number(mon@);
    }
    if chars.len() == 3 {
        month_of(chars[0], chars[1], chars[2])
    } else {
        None
    }
}

/// The month that three letters abbreviate, whatever their case.
fn month_of(first: char, second: char, third: char) -> (r: Option<u32>)
    ensures
        r == month_of_letters(lower(first), lower(second), lower(third)),
        r matches Some(m) ==> 1 <= m <= 12,
{
    let a = to_lower(first);
    let b = to_lower(second);
    let c = to_lower(third);
    if a == 'j' && b == 'a' && c == 'n' {
        Some(1)
    } else if a == 'f' && b == 'e' && c == 'b' {
        Some(2)
    } else if a == 'm' && b == 'a' && c == 'r' {
        Some(3)
    } else if a == 'a' && b == 'p' && c == 'r' {
        Some(4)
    } else if a == 'm' && b == 'a' && c == 'y' {
        Some(5)
    } else if a == 'j' && b == 'u' && c == 'n' {
        Some(6)
    } else if a == 'j' && b == 'u' && c == 'l' {
        Some(7)
    } else if a == 'a' && b == 'u' && c == 'g' {
        Some(8)
    } else if a == 's' && b == 'e' && c == 'p' {
        Some(9)
    } else if a == 'o' && b == 'c' && c == 't' {
        Some(10)
    } else if a == 'n' && b == 'o' && c == 'v' {
        Some(11)
    } else if a == 'd' && b == 'e' && c == 'c' {
        Some(12)
    } else {
        None
    }
}

/// Recognises a token. Every text gives a result: one that fits no grammar,
/// the empty one among them, gives `Invalid`.
pub fn parse_date(str: &str) -> (r: RemindMeDateTypes)
    ensures
        r == parsed(str@),
        str@.len() == 0 ==> r == RemindMeDateTypes::Invalid,
        r matches RemindMeDateTypes::ThreeLetterMonth { d, mon, y } ==> d <= 99 && 1 <= mon <= 12
            && 0 <= y <= 9999,
        r matches RemindMeDateTypes::SpecifiedTime { h, min } ==> h <= 23 && min <= 59,
        r matches RemindMeDateTypes::AddedTime { y, .. } ==> y >= 0,
{
    let chars = chars_of(str);
    if chars.len() == 0 {
        return RemindMeDateTypes::Invalid;
    }
    if let Some(date) = read_absolute_date(&chars) {
        return date;
    }
    if let Some(time) = read_time_of_day(&chars) {
        return time;
    }
    if let Some(span) = read_relative_duration(&chars) {
        return span;
    }
    RemindMeDateTypes::Invalid
}

/// Whether `chars[from..to]` are digits.
fn digits_between(chars: &Vec<char>, from: usize, to: usize) -> (r: bool)
    requires
        from <= to <= chars.len(),
    ensures
        r == all_digits(chars@.subrange(from as int, to as int)),
{
    let mut i: usize = from;
    while i < to
        invariant
            from <= i <= to <= chars.len(),
            all_digits(chars@.subrange(from as int, i as int)),
        decreases to - i,
    {
        if !char_is_digit(chars[i]) {
            assert(chars@.subrange(from as int, to as int)[i - from] == chars@[i as int]);
            return false;
        }
        assert(all_digits(chars@.subrange(from as int, i + 1))) by {
            assert(chars@.subrange(from as int, i + 1).drop_last() =~= chars@.subrange(
                from as int,
                i as int,
            ));
        }
        i = i + 1;
    }
    true
}

/// Whether `chars[from..to]` are letters.
fn letters_between(chars: &Vec<char>, from: usize, to: usize) -> (r: bool)
    requires
        from <= to <= chars.len(),
    ensures
        r == all_letters(chars@.subrange(from as int, to as int)),
{
    let mut i: usize = from;
    while i < to
        invariant
            from <= i <= to <= chars.len(),
            all_letters(chars@.subrange(from as int, i as int)),
        decreases to - i,
    {
        if !char_is_letter(chars[i]) {
            assert(chars@.subrange(from as int, to as int)[i - from] == chars@[i as int]);
            return false;
        }
        assert(all_letters(chars@.subrange(from as int, i + 1))) by {
            assert(chars@.subrange(from as int, i + 1).drop_last() =~= chars@.subrange(
                from as int,
                i as int,
            ));
        }
        i = i + 1;
    }
    true
}

/// Reads the token as an absolute date, if it has the shape of one.
fn read_absolute_date(chars: &Vec<char>) -> (r: Option<RemindMeDateTypes>)
    ensures
        r is Some <==> is_absolute_date(chars@),
        r matches Some(v) ==> v == absolute_date(chars@),
        r matches Some(RemindMeDateTypes::ThreeLetterMonth { d, mon, y }) ==> d <= 99 && 1 <= mon
            <= 12 && 0 <= y <= 9999,
{
    let n: usize = chars.len();
    let w: usize = if n >= 2 && char_is_digit(chars[1]) {
        2
    } else {
        1
    };
    if n < w + 5 || n > w + 7 {
        return None;
    }
    if !digits_between(chars, 0, w) || !letters_between(chars, w, w + 3) || !digits_between(
        chars,
        w + 3,
        n,
    ) {
        return None;
    }
    proof {
        assert(chars@.take(w as int) =~= chars@.subrange(0, w as int));
        assert(chars@.skip(w + 3) =~= chars@.subrange(w + 3, n as int));
        lemma_decimal_bound(chars@.take(w as int));
        lemma_decimal_bound(chars@.skip(w + 3));
        let letters = chars@.subrange(w as int, w + 3);
        assert(letters[0] == chars@[w as int]);
        assert(letters[1] == chars@[w + 1]);
        assert(letters[2] == chars@[w + 2]);
        lemma_month_number(letters);
    }
    let d: u32 = read_number(chars, 0, w, 99);
    let y: u32 = read_number(chars, w + 3, n, 9999);
    match month_of(chars[w], chars[w + 1], chars[w + 2]) {
        Some(mon) => Some(RemindMeDateTypes::ThreeLetterMonth { d, mon, y: y as i32 }),
        None => Some(RemindMeDateTypes::Invalid),
    }
}

/// Reads the token as a time of day, if it has the shape of one.
fn read_time_of_day(chars: &Vec<char>) -> (r: Option<RemindMeDateTypes>)
    ensures
        r is Some <==> is_time_of_day(chars@),
        r matches Some(v) ==> v == time_of_day(chars@),
{
    if chars.len() != 4 {
        return None;
    }
    let a: char = chars[0];
    let b: char = chars[1];
    let c: char = chars[2];
    let d: char = chars[3];
    if a >= '0' && a <= '2' && b >= '0' && b <= '3' && c >= '0' && c <= '5' && char_is_digit(d) {
        let h: u32 = (a as u32 - '0' as u32) * 10 + (b as u32 - '0' as u32);
        let min: u32 = (c as u32 - '0' as u32) * 10 + (d as u32 - '0' as u32);
        Some(RemindMeDateTypes::SpecifiedTime { h, min })
    } else {
        None
    }
}

/// Reads the part for `unit` that may stand at `from`: where reading goes
/// on, and the number of the part.
fn read_part(chars: &Vec<char>, from: usize, unit: char, limit: u32) -> (r: (usize, u32))
    requires
        from <= chars.len(),
    ensures
        r.0 == part_end(chars@, from as int, unit),
        r.1 == part_value(chars@, from as int, unit, limit),
        from <= r.0 <= chars.len(),
{
    let end: usize = skip_digits(chars, from);
    if from < end && end < chars.len() && chars[end] == unit {
        proof {
            lemma_digit_run(chars@, from as int);
        }
        (end + 1, read_number(chars, from, end, limit))
    } else {
        (from, 0)
    }
}

/// Reads the token as a relative duration, if it has the shape of one.
fn read_relative_duration(chars: &Vec<char>) -> (r: Option<RemindMeDateTypes>)
    ensures
        r is Some <==> is_relative_duration(chars@),
        r matches Some(v) ==> v == relative_duration(chars@),
{
    let (months_at, y) = read_part(chars, 0, 'y', 0x7fff_ffff);
    let (days_at, mon) = read_part(chars, months_at, 'M', u32::MAX);
    let (hours_at, d) = read_part(chars, days_at, 'd', u32::MAX);
    let (minutes_at, h) = read_part(chars, hours_at, 'h', u32::MAX);
    let (end, min) = read_part(chars, minutes_at, 'm', u32::MAX);
    if end == chars.len() {
        Some(RemindMeDateTypes::AddedTime { y: y as i32, mon, d, h, min })
    } else {
        None
    }
}

/// A day of one or two digits, three letters that abbreviate a month, and
/// a year of two to four digits make an absolute date with the numbers that
/// the digits write and the number of the month.
pub proof fn lemma_absolute_date(day: Seq<char>, month: Seq<char>, year: Seq<char>, mon: u32)
    requires
        1 <= day.len() <= 2,
        all_digits(day),
        month_number(month) == Some(mon),
        2 <= year.len() <= 4,
        all_digits(year),
    ensures
        parsed(day + month + year) == (RemindMeDateTypes::ThreeLetterMonth {
            d: decimal_value(day) as u32,
            mon,
            y: decimal_value(year) as i32,
        }),
        1 <= mon <= 12,
        decimal_value(day) <= 99,
        decimal_value(year) <= 9999,
{
    let s = day + month + year;
    let w = day.len() as int;
    lemma_month_number(month);
    assert(day_width(s) == w) by {
        assert(is_digit(day[0]));
        assert(s[0] == day[0]);
    }
    assert(s.take(w) =~= day);
    assert(s.subrange(w, w + 3) =~= month);
    assert(s.skip(w + 3) =~= year);
    lemma_decimal_bound(day);
    lemma_decimal_bound(year);
}

/// Where the three letters of a token in the shape of an absolute date
/// abbreviate no month, the token is invalid: no other grammar is tried.
pub proof fn lemma_unknown_month(s: Seq<char>)
    requires
        is_absolute_date(s),
        month_number(s.subrange(day_width(s), day_width(s) + 3)) is None,
    ensures
        parsed(s) == RemindMeDateTypes::Invalid,
{
}

/// Four digits of which the first is at most 2, the second at most 3 and
/// the third at most 5 make a time of day, with the hour that the first two
/// write and the minute that the last two write. Any other four digits are
/// invalid.
pub proof fn lemma_time_of_day(a: char, b: char, c: char, d: char)
    requires
        is_digit(a),
        is_digit(b),
        is_digit(c),
        is_digit(d),
    ensures
        a <= '2' && b <= '3' && c <= '5' ==> parsed(seq![a, b, c, d]) == (
        RemindMeDateTypes::SpecifiedTime {
            h: (digit_value(a) * 10 + digit_value(b)) as u32,
            min: (digit_value(c) * 10 + digit_value(d)) as u32,
        }) && digit_value(a) * 10 + digit_value(b) <= 23 && digit_value(c) * 10 + digit_value(d)
            <= 59,
        !(a <= '2' && b <= '3' && c <= '5') ==> parsed(seq![a, b, c, d])
            == RemindMeDateTypes::Invalid,
{
    let s = seq![a, b, c, d];
    assert(digit_run(s, 0) == 4) by {
        lemma_digit_run_is(s, 0, 4);
    }
}

/// No token has the shape of two grammars: the order in which they are
/// tried decides nothing.
pub proof fn lemma_shapes_exclusive(s: Seq<char>)
    requires
        s.len() > 0,
    ensures
        !(is_absolute_date(s) && is_time_of_day(s)),
        !(is_absolute_date(s) && is_relative_duration(s)),
        !(is_time_of_day(s) && is_relative_duration(s)),
{
    if is_relative_duration(s) && is_absolute_date(s) {
        let year = s.skip(day_width(s) + 3);
        assert(year[year.len() - 1] == s.last());
    }
}

/// The written part for `unit` that stands at `from` is read in full.
proof fn lemma_part_read(s: Seq<char>, from: int, number: Option<Seq<char>>, unit: char)
    requires
        is_part_number(number),
        !is_digit(unit),
        0 <= from,
        from + part_text(number, unit).len() <= s.len(),
        s.subrange(from, from + part_text(number, unit).len()) == part_text(number, unit),
    ensures
        number matches Some(digits) ==> digit_run(s, from) == from + digits.len() && s[from
            + digits.len()] == unit && s.subrange(from, from + digits.len()) == digits,
{
    if let Some(digits) = number {
        let text = part_text(number, unit);
        let end = from + digits.len();
        assert forall|i: int| from <= i < end implies is_digit(#[trigger] s[i]) by {
            assert(s.subrange(from, from + text.len())[i - from] == s[i]);
            assert(text[i - from] == digits[i - from]);
        }
        assert(s[end] == unit) by {
            assert(s.subrange(from, from + text.len())[end - from] == s[end]);
        }
        lemma_digit_run_is(s, from, end);
        assert(s.subrange(from, end) =~= digits);
    }
}

/// How a part that may stand at `from` is read, told from what stands
/// there: the part itself, or else either nothing at all or a part for
/// another unit.
proof fn lemma_part_step(
    s: Seq<char>,
    from: int,
    number: Option<Seq<char>>,
    unit: char,
    limit: u32,
    run: int,
)
    requires
        0 <= from <= s.len(),
        digit_run(s, from) == run,
        number matches Some(digits) ==> run == from + digits.len() && digits.len() > 0 && run
            < s.len() && s[run] == unit && s.subrange(from, run) == digits,
        number is None ==> run == from || (run < s.len() && s[run] != unit),
    ensures
        part_end(s, from, unit) == from + part_text(number, unit).len(),
        part_value(s, from, unit, limit) == part_number(number, limit),
{
}

/// Where each of five texts lies in the text that they make together.
proof fn lemma_five_texts(a: Seq<char>, b: Seq<char>, c: Seq<char>, d: Seq<char>, e: Seq<char>)
    ensures
        ({
            let s = a + b + c + d + e;
            let at_months = a.len() as int;
            let at_days = at_months + b.len();
            let at_hours = at_days + c.len();
            let at_minutes = at_hours + d.len();
            let at_end = at_minutes + e.len();
            &&& s.len() == at_end
            &&& s.subrange(0, at_months) == a
            &&& s.subrange(at_months, at_days) == b
            &&& s.subrange(at_days, at_hours) == c
            &&& s.subrange(at_hours, at_minutes) == d
            &&& s.subrange(at_minutes, at_end) == e
        }),
{
}

/// Parts for years, months, days, hours and minutes, written one after the
/// other in this order, each with its number or left out, make a relative
/// duration with these numbers, and zero for a part that is left out. At
/// least one part has to be there: the empty token is invalid.
pub proof fn lemma_relative_duration(
    years: Option<Seq<char>>,
    months: Option<Seq<char>>,
    days: Option<Seq<char>>,
    hours: Option<Seq<char>>,
    minutes: Option<Seq<char>>,
)
    requires
        is_part_number(years),
        is_part_number(months),
        is_part_number(days),
        is_part_number(hours),
        is_part_number(minutes),
        years is Some || months is Some || days is Some || hours is Some || minutes is Some,
    ensures
        parsed(
            part_text(years, 'y') + part_text(months, 'M') + part_text(days, 'd') + part_text(
                hours,
                'h',
            ) + part_text(minutes, 'm'),
        ) == (RemindMeDateTypes::AddedTime {
            y: part_number(years, 0x7fff_ffff) as i32,
            mon: part_number(months, u32::MAX),
            d: part_number(days, u32::MAX),
            h: part_number(hours, u32::MAX),
            min: part_number(minutes, u32::MAX),
        }),
{
    let ty = part_text(years, 'y');
    let tm = part_text(months, 'M');
    let td = part_text(days, 'd');
    let th = part_text(hours, 'h');
    let ti = part_text(minutes, 'm');
    let s = ty + tm + td + th + ti;
    let at_months = ty.len() as int;
    let at_days = at_months + tm.len();
    let at_hours = at_days + td.len();
    let at_minutes = at_hours + th.len();
    let at_end = at_minutes + ti.len();
    lemma_five_texts(ty, tm, td, th, ti);
    lemma_part_read(s, 0, years, 'y');
    lemma_part_read(s, at_months, months, 'M');
    lemma_part_read(s, at_days, days, 'd');
    lemma_part_read(s, at_hours, hours, 'h');
    lemma_part_read(s, at_minutes, minutes, 'm');
    lemma_part_step(s, at_minutes, minutes, 'm', u32::MAX, digit_run(s, at_minutes));
    lemma_part_step(s, at_hours, hours, 'h', u32::MAX, digit_run(s, at_hours));
    lemma_part_step(s, at_days, days, 'd', u32::MAX, digit_run(s, at_days));
    lemma_part_step(s, at_months, months, 'M', u32::MAX, digit_run(s, at_months));
    lemma_part_step(s, 0, years, 'y', 0x7fff_ffff, digit_run(s, 0));
    assert(part_starts(s) == (at_months, at_days, at_hours, at_minutes, at_end));
    lemma_shapes_exclusive(s);
}

/// What is read at `from` for `unit` is a part as it is written, and
/// reading goes on behind it.
proof fn lemma_part_at(s: Seq<char>, from: int, unit: char)
    requires
        0 <= from <= s.len(),
    ensures
        is_part_number(part_at(s, from, unit)),
        from <= part_end(s, from, unit) <= s.len(),
        s.subrange(from, part_end(s, from, unit)) == part_text(part_at(s, from, unit), unit),
{
    lemma_digit_run(s, from);
}

/// A token reads as a relative duration only if it is made of parts for
/// years, months, days, hours and minutes, in this order, each with at
/// least one digit before its unit or left out: the parts that reading
/// finds, put together, are the token.
pub proof fn lemma_relative_duration_only(s: Seq<char>)
    requires
        is_relative_duration(s),
    ensures
        ({
            let starts = part_starts(s);
            let years = part_at(s, 0, 'y');
            let months = part_at(s, starts.0, 'M');
            let days = part_at(s, starts.1, 'd');
            let hours = part_at(s, starts.2, 'h');
            let minutes = part_at(s, starts.3, 'm');
            &&& is_part_number(years)
            &&& is_part_number(months)
            &&& is_part_number(days)
            &&& is_part_number(hours)
            &&& is_part_number(minutes)
            &&& s == part_text(years, 'y') + part_text(months, 'M') + part_text(days, 'd')
                + part_text(hours, 'h') + part_text(minutes, 'm')
        }),
{
    let (at_months, at_days, at_hours, at_minutes, at_end) = part_starts(s);
    lemma_part_at(s, 0, 'y');
    lemma_part_at(s, at_months, 'M');
    lemma_part_at(s, at_days, 'd');
    lemma_part_at(s, at_hours, 'h');
    lemma_part_at(s, at_minutes, 'm');
    assert(s =~= s.subrange(0, at_months) + s.subrange(at_months, at_days) + s.subrange(
        at_days,
        at_hours,
    ) + s.subrange(at_hours, at_minutes) + s.subrange(at_minutes, at_end));
}

} // verus!
