//! The date that a plan carries in its text, in a line such as
//! `Datum: Montag, 20.09.2021`, and the start of that day as a timestamp.

use vstd::prelude::*;
use vstd::string::*;
use chrono::{NaiveDate, NaiveTime};
use crate::substitutions::Text;
use crate::util::is_digit;

verus! {

/// Why no date could be read from the text of a plan.
#[derive(Debug, Clone, Copy, PartialEq, Eq, Structural)]
pub enum PlanDateError {
    /// The text does not hold `Datum: `.
    DateNotFound,
    /// No line break follows `Datum: `.
    DateEndNotFound,
    /// A part of the date is not a number that fits in 32 bits.
    NotANumber,
    /// The date has fewer than three parts.
    TooFewParts,
    /// The parts do not name a day of the calendar.
    NoSuchDay,
}

/// Whether the pattern stands in the text at the given position.
pub open spec fn occurs_at(text: Text, pattern: Text, at: int) -> bool {
    0 <= at && at + pattern.len() <= text.len() && text.subrange(at, at + pattern.len()) == pattern
}

/// The first position from `from` on at which the pattern stands in the
/// text.
pub open spec fn find_first(text: Text, pattern: Text, from: int) -> Option<int>
    decreases text.len() + 1 - from,
{
    if from < 0 || from + pattern.len() > text.len() {
        None
    } else if occurs_at(text, pattern, from) {
        Some(from)
    } else {
        find_first(text, pattern, from + 1)
    }
}

/// The last position up to `from` at which the pattern stands in the text.
pub open spec fn find_last(text: Text, pattern: Text, from: int) -> Option<int>
    decreases from + 1,
{
    if from < 0 {
        None
    } else if occurs_at(text, pattern, from) {
        Some(from)
    } else {
        find_last(text, pattern, from - 1)
    }
}

/// The fields of a text that a separator parts: what stands before the
/// first separator, between each two, and after the last.
pub open spec fn split_fields(text: Text, separator: char) -> Seq<Text>
    decreases text.len(),
{
    if text.len() == 0 {
        seq![Seq::empty()]
    } else {
        let before = split_fields(text.drop_last(), separator);
        if text.last() == separator {
            before.push(Seq::empty())
        } else {
            before.update(before.len() - 1, before.last().push(text.last()))
        }
    }
}

/// The number that decimal digits stand for.
pub open spec fn digits_value(digits: Text) -> nat
    decreases digits.len(),
{
    if digits.len() == 0 {
        0
    } else {
        (digits_value(digits.drop_last()) * 10 + (digits.last() as u32 - '0' as u32)) as nat
    }
}

/// The number that a text stands for: decimal digits, at least one, with
/// nothing before or after them, whose value fits in 32 bits.
pub open spec fn decimal(text: Text) -> Option<u32> {
    if text.len() > 0 && (forall|i: int| 0 <= i < text.len() ==> is_digit(#[trigger] text[i]))
        && digits_value(text) <= u32::MAX {
        Some(digits_value(text) as u32)
    } else {
        None
    }
}

/// The mark that stands before the date in the text of a plan.
pub open spec fn date_mark() -> Text {
    "Datum: "@
}

/// What separates the name of the weekday from the date.
pub open spec fn weekday_separator() -> Text {
    ", "@
}

/// The line of the text that holds the date, from the mark to the line
/// break.
pub open spec fn date_line(text: Text) -> Result<Text, PlanDateError> {
    match find_first(text, date_mark(), 0) {
        None => Err(PlanDateError::DateNotFound),
        Some(start) => match find_first(text, seq!['\n'], start) {
            None => Err(PlanDateError::DateEndNotFound),
            Some(end) => Ok(text.subrange(start, end)),
        },
    }
}

/// What follows the last `, ` of a line; the whole line where it has none.
pub open spec fn after_weekday(line: Text) -> Text {
    match find_last(line, weekday_separator(), line.len() - 2) {
        Some(at) => line.skip(at + 2),
        None => line,
    }
}

/// Whether every field is a number.
pub open spec fn all_decimal(fields: Seq<Text>) -> bool {
    forall|i: int| 0 <= i < fields.len() ==> decimal(#[trigger] fields[i]) is Some
}

/// The day, the month and the year that the text of a plan gives as its
/// date: the numbers between the dots of what follows the weekday in the
/// line of the date. Every part has to be a number, and there have to be at
/// least three; the first three count.
pub open spec fn date_parts(text: Text) -> Result<(u32, u32, u32), PlanDateError> {
    match date_line(text) {
        Err(error) => Err(error),
        Ok(line) => {
            let fields = split_fields(after_weekday(line), '.');
            if !all_decimal(fields) {
                Err(PlanDateError::NotANumber)
            } else if fields.len() < 3 {
                Err(PlanDateError::TooFewParts)
            } else {
                Ok((decimal(fields[0])->Some_0, decimal(fields[1])->Some_0, decimal(fields[2])->Some_0))
            }
        },
    }
}

/// The characters of a text.
fn chars_of(text: &str) -> (chars: Vec<char>)
    ensures
        chars@ == text@,
{
    let mut chars: Vec<char> = Vec::new();
    for c in it: text.chars()
        invariant
            it.seq() == text@,
            chars@ == text@.take(it.index()),
    {
        proof {
            assert(text@.take(it.index() + 1) =~= text@.take(it.index()).push(c));
        }
        chars.push(c);
    }
    assert(text@.take(text@.len() as int) =~= text@);
    chars
}

/// Whether the pattern stands in the text at the given position.
fn stands_at(text: &Vec<char>, pattern: &Vec<char>, at: usize) -> (stands: bool)
    ensures
        stands == occurs_at(text@, pattern@, at as int),
{
    if pattern.len() > text.len() || at > text.len() - pattern.len() {
        return false;
    }
    let mut i: usize = 0;
    while i < pattern.len()
        invariant
            i <= pattern.len(),
            at + pattern.len() <= text.len(),
            forall|k: int| 0 <= k < i ==> text[at + k] == pattern[k],
        decreases pattern.len() - i,
    {
        if text[at + i] != pattern[i] {
            proof {
                let part = text@.subrange(at as int, at + pattern.len());
                assert(part[i as int] == text[at + i]);
            }
            return false;
        }
        i += 1;
    }
    assert(text@.subrange(at as int, at + pattern.len()) =~= pattern@);
    true
}

/// The first position from `from` on at which the pattern stands in the
/// text.
fn find_from(text: &Vec<char>, pattern: &Vec<char>, from: usize) -> (found: Option<usize>)
    ensures
        match found {
            Some(at) => find_first(text@, pattern@, from as int) == Some(at as int) && from <= at
                && at + pattern.len() <= text.len(),
            None => find_first(text@, pattern@, from as int) is None,
        },
{
    if pattern.len() > text.len() {
        return None;
    }
    let limit = text.len() - pattern.len();
    let mut at = from;
    while at <= limit
        invariant
            from <= at,
            limit == text.len() - pattern.len(),
            find_first(text@, pattern@, from as int) == find_first(text@, pattern@, at as int),
        decreases limit + 1 - at,
    {
        if stands_at(text, pattern, at) {
            return Some(at);
        }
        if at == limit {
            assert(find_first(text@, pattern@, at + 1) is None);
            return None;
        }
        at += 1;
    }
    None
}

/// The last position at which the pattern stands in the text.
fn find_back(text: &Vec<char>, pattern: &Vec<char>) -> (found: Option<usize>)
    ensures
        match found {
            Some(at) => find_last(text@, pattern@, text.len() - pattern.len()) == Some(at as int)
                && at + pattern.len() <= text.len(),
            None => find_last(text@, pattern@, text.len() - pattern.len()) is None,
        },
{
    if pattern.len() > text.len() {
        return None;
    }
    let mut at = text.len() - pattern.len();
    loop
        invariant
            at + pattern.len() <= text.len(),
            find_last(text@, pattern@, text.len() - pattern.len()) == find_last(
                text@,
                pattern@,
                at as int,
            ),
        decreases at,
    {
        if stands_at(text, pattern, at) {
            return Some(at);
        }
        if at == 0 {
            assert(find_last(text@, pattern@, -1) is None);
            return None;
        }
        at -= 1;
    }
}

/// The characters of a text from one position to another.
fn slice_of(text: &Vec<char>, from: usize, to: usize) -> (part: Vec<char>)
    requires
        from <= to <= text.len(),
    ensures
        part@ == text@.subrange(from as int, to as int),
{
    let mut part: Vec<char> = Vec::new();
    let mut i = from;
    while i < to
        invariant
            from <= i <= to <= text.len(),
            part@ == text@.subrange(from as int, i as int),
        decreases to - i,
    {
        part.push(text[i]);
        assert(text@.subrange(from as int, i + 1) =~= text@.subrange(from as int, i as int).push(
            text[i as int],
        ));
        i += 1;
    }
    part
}

/// The texts that lists of characters hold.
pub open spec fn texts_of(fields: Seq<Vec<char>>) -> Seq<Text> {
    Seq::new(fields.len(), |i: int| fields[i]@)
}

/// The fields of a text that a separator parts.
fn fields_of(text: &Vec<char>, separator: char) -> (fields: Vec<Vec<char>>)
    ensures
        texts_of(fields@) == split_fields(text@, separator),
{
    let mut fields: Vec<Vec<char>> = Vec::new();
    let mut field: Vec<char> = Vec::new();
    let mut i: usize = 0;
    assert(text@.take(0) =~= Seq::<char>::empty());
    assert(texts_of(fields@).push(field@) =~= split_fields(text@.take(0), separator));
    while i < text.len()
        invariant
            i <= text.len(),
            texts_of(fields@).push(field@) == split_fields(text@.take(i as int), separator),
        decreases text.len() - i,
    {
        let c = text[i];
        let ghost before = texts_of(fields@);
        let ghost current = field@;
        proof {
            assert(text@.take(i + 1).drop_last() =~= text@.take(i as int));
            assert(text@.take(i + 1).last() == c);
        }
        if c == separator {
            fields.push(field);
            field = Vec::new();
            assert(texts_of(fields@) =~= before.push(current));
            assert(texts_of(fields@).push(field@) =~= before.push(current).push(Seq::empty()));
        } else {
            field.push(c);
            assert(before.push(field@) =~= before.push(current).update(
                before.len() as int,
                current.push(c),
            ));
        }
        i += 1;
    }
    assert(text@.take(text.len() as int) =~= text@);
    let ghost before = texts_of(fields@);
    fields.push(field);
    assert(texts_of(fields@) =~= before.push(field@));
    fields
}

/// More digits never stand for a smaller number.
proof fn lemma_digits_grow(digits: Text, count: int)
    requires
        0 <= count <= digits.len(),
        forall|i: int| 0 <= i < digits.len() ==> is_digit(#[trigger] digits[i]),
    ensures
        digits_value(digits.take(count)) <= digits_value(digits),
    decreases digits.len() - count,
{
    if count < digits.len() {
        lemma_digits_grow(digits, count + 1);
        assert(digits.take(count + 1).drop_last() =~= digits.take(count));
        assert(digits.take(count + 1).last() == digits[count]);
    } else {
        assert(digits.take(count) =~= digits);
    }
}

/// The number that a text stands for: see [`decimal`].
fn decimal_of(text: &Vec<char>) -> (number: Option<u32>)
    ensures
        number == decimal(text@),
{
    if text.len() == 0 {
        return None;
    }
    let mut value: u64 = 0;
    let mut i: usize = 0;
    assert(text@.take(0) =~= Seq::<char>::empty());
    while i < text.len()
        invariant
            i <= text.len(),
            forall|k: int| 0 <= k < i ==> is_digit(#[trigger] text[k]),
            value == digits_value(text@.take(i as int)),
            value <= u32::MAX,
        decreases text.len() - i,
    {
        let c = text[i];
        if !('0' <= c && c <= '9') {
            return None;
        }
        proof {
            assert(text@.take(i + 1).drop_last() =~= text@.take(i as int));
            assert(text@.take(i + 1).last() == c);
        }
        let digit = (c as u32 - '0' as u32) as u64;
        value = value * 10 + digit;
        if value > 0xffff_ffff {
            proof {
                assert forall|k: int| 0 <= k < text.len() && !is_digit(#[trigger] text[k]) implies decimal(
                    text@,
                ) is None by {}
                if forall|k: int| 0 <= k < text.len() ==> is_digit(#[trigger] text[k]) {
                    lemma_digits_grow(text@, i + 1);
                }
            }
            return None;
        }
        i += 1;
    }
    assert(text@.take(text.len() as int) =~= text@);
    Some(value as u32)
}

/// Reads the day, the month and the year that the text of a plan gives as
/// its date: see [`date_parts`].
pub fn read_date_parts(text: &str) -> (outcome: Result<(u32, u32, u32), PlanDateError>)
    ensures
        outcome == date_parts(text@),
{
    let chars = chars_of(text);
    let mark = chars_of("Datum: ");
    let start = match find_from(&chars, &mark, 0) {
        Some(start) => start,
        None => {
            return Err(PlanDateError::DateNotFound);
        },
    };
    let mut line_break: Vec<char> = Vec::new();
    line_break.push('\n');
    assert(line_break@ =~= seq!['\n']);
    let end = match find_from(&chars, &line_break, start) {
        Some(end) => end,
        None => {
            return Err(PlanDateError::DateEndNotFound);
        },
    };
    let line = slice_of(&chars, start, end);
    let ghost dated = line@;
    assert(date_line(text@) == Ok::<Text, PlanDateError>(dated));
    let separator = chars_of(", ");
    proof {
        reveal_strlit(", ");
        assert(separator@.len() == 2);
    }
    let date = match find_back(&line, &separator) {
        Some(at) => {
            let tail = slice_of(&line, at + 2, line.len());
            assert(tail@ =~= line@.skip(at + 2));
            tail
        },
        None => line,
    };
    assert(date@ == after_weekday(dated));
    let fields = fields_of(&date, '.');
    let ghost parts = split_fields(date@, '.');
    let mut numbers: Vec<u32> = Vec::new();
    let mut i: usize = 0;
    while i < fields.len()
        invariant
            i <= fields.len(),
            parts == texts_of(fields@),
            date_line(text@) == Ok::<Text, PlanDateError>(dated),
            parts == split_fields(after_weekday(dated), '.'),
            numbers.len() == i,
            forall|k: int| 0 <= k < i ==> decimal(#[trigger] parts[k]) == Some(numbers[k]),
        decreases fields.len() - i,
    {
        assert(parts[i as int] == fields[i as int]@);
        match decimal_of(&fields[i]) {
            Some(number) => {
                numbers.push(number);
            },
            None => {
                assert(!all_decimal(parts));
                return Err(PlanDateError::NotANumber);
            },
        }
        i += 1;
    }
    if numbers.len() < 3 {
        return Err(PlanDateError::TooFewParts);
    }
    Ok((numbers[0], numbers[1], numbers[2]))
}

/// The Unix timestamp of the start of a calendar day in UTC, as chrono
/// computes it; `None` where chrono knows no such day.
pub uninterp spec fn utc_day_start(year: int, month: int, day: int) -> Option<i64>;

/// Asks chrono for the start of a calendar day: `NaiveDate::from_ymd_opt`
/// makes the date or gives `None` for a day that does not exist or a year
/// out of its range, `NaiveDate::and_time` with `NaiveTime::MIN` makes it
/// midnight, `NaiveDateTime::and_utc` places that in UTC, and
/// `DateTime::timestamp` counts the seconds since the start of 1970. The
/// result is named [`utc_day_start`]; nothing else is claimed of it.
#[verifier::external_body]
fn day_start_timestamp(year: i32, month: u32, day: u32) -> (seconds: Option<i64>)
    ensures
        seconds == utc_day_start(year as int, month as int, day as int),
{
    match NaiveDate::from_ymd_opt(year, month, day) {
        Some(date) => Some(date.and_time(NaiveTime::MIN).and_utc().timestamp()),
        None => None,
    }
}

/// The start of a day given by day, month and year, as a Unix timestamp;
/// an error where the calendar has no such day.
pub open spec fn day_start(day: u32, month: u32, year: u32) -> Result<i64, PlanDateError> {
    if year > i32::MAX {
        Err(PlanDateError::NoSuchDay)
    } else {
        match utc_day_start(year as int, month as int, day as int) {
            Some(seconds) => Ok(seconds),
            None => Err(PlanDateError::NoSuchDay),
        }
    }
}

/// The start of a day given by day, month and year, as a Unix timestamp.
pub fn start_of_day(day: u32, month: u32, year: u32) -> (outcome: Result<i64, PlanDateError>)
    ensures
        outcome == day_start(day, month, year),
{
    if year > 0x7fff_ffff {
        return Err(PlanDateError::NoSuchDay);
    }
    match day_start_timestamp(year as i32, month, day) {
        Some(seconds) => Ok(seconds),
        None => Err(PlanDateError::NoSuchDay),
    }
}

/// The date of a plan as the Unix timestamp of the start of its day: the
/// date that [`date_parts`] reads from the text, placed by [`day_start`].
pub open spec fn plan_day_start(text: Text) -> Result<i64, PlanDateError> {
    match date_parts(text) {
        Err(error) => Err(error),
        Ok(parts) => day_start(parts.0, parts.1, parts.2),
    }
}

/// Reads the date of a plan from its text and gives the start of that day
/// as a Unix timestamp.
pub fn plan_date(text: &str) -> (outcome: Result<i64, PlanDateError>)
    ensures
        outcome == plan_day_start(text@),
{
    match read_date_parts(text) {
        Err(error) => Err(error),
        Ok(parts) => start_of_day(parts.0, parts.1, parts.2),
    }
}

impl PlanDateError {
    /// What went wrong, in words.
    pub fn to_string(&self) -> (message: String)
        ensures
            message@ == match *self {
                PlanDateError::DateNotFound => "date not found"@,
                PlanDateError::DateEndNotFound => "date end not found"@,
                PlanDateError::NotANumber => "date part is not a number"@,
                PlanDateError::TooFewParts => "date has fewer than three parts"@,
                PlanDateError::NoSuchDay => "date is not a day of the calendar"@,
            },
    {
        match self {
            PlanDateError::DateNotFound => "date not found".to_owned(),
            PlanDateError::DateEndNotFound => "date end not found".to_owned(),
            PlanDateError::NotANumber => "date part is not a number".to_owned(),
            PlanDateError::TooFewParts => "date has fewer than three parts".to_owned(),
            PlanDateError::NoSuchDay => "date is not a day of the calendar".to_owned(),
        }
    }
}

} // verus!
