//! Reading a reminder command: which instant it asks for and what it says.
//!
//! A command is a list of words. The first is the keyword that called it,
//! the second says when, the third may refine that with a time of day, and
//! the rest is the message.

use crate::calendar::{
    in_year, months_later, plus_months, plus_seconds, seconds_later, with_year, LocalDateTime,
};
use crate::date_utils::{parse_date, parsed, RemindMeDateTypes};
use crate::text::chars_of;
use vstd::prelude::*;
use vstd::string::{StrSliceExecFns, StringExecFns};

verus! {

/// Why a command was turned down.
#[derive(Clone, Copy, Debug, PartialEq, Eq, Structural)]
pub enum CommandError {
    /// Fewer than two words follow the keyword.
    InsufficientArguments,
    /// The word after the keyword is no date, time or duration.
    FirstTokenInvalid,
    /// Date and time are both given, and no message after them.
    MissingMessage,
    /// Both words are dates.
    MoreThanOneDate,
    /// Both words are times of day or durations.
    MoreThanOneTime,
    /// The instant asked for is already past.
    NotInFuture,
    /// The calendar has no such date, or the clock no such time.
    InvalidCalendarDate,
}

/// What the requester is told about a rejection.
pub open spec fn reason_text(e: CommandError) -> Seq<char> {
    match e {
        CommandError::InsufficientArguments => "insufficient arguments"@,
        CommandError::FirstTokenInvalid => "first token invalid"@,
        CommandError::MissingMessage => "missing message"@,
        CommandError::MoreThanOneDate => "more than one date provided"@,
        CommandError::MoreThanOneTime => "more than one time provided"@,
        CommandError::NotInFuture => "not in the future"@,
        CommandError::InvalidCalendarDate => "invalid calendar date"@,
    }
}

impl CommandError {
    /// The reason in words.
    pub fn reason(&self) -> (r: &'static str)
        ensures
            r@ == reason_text(*self),
    {
        match self {
            CommandError::InsufficientArguments => "insufficient arguments",
            CommandError::FirstTokenInvalid => "first token invalid",
            CommandError::MissingMessage => "missing message",
            CommandError::MoreThanOneDate => "more than one date provided",
            CommandError::MoreThanOneTime => "more than one time provided",
            CommandError::NotInFuture => "not in the future",
            CommandError::InvalidCalendarDate => "invalid calendar date",
        }
    }
}

/// A reminder that was asked for: when it is due and what it says.
#[derive(Debug, PartialEq, Eq)]
pub struct Reminder {
    /// The instant from which the reminder is due.
    pub due: LocalDateTime,
    /// The message: the words of the command behind those that say when.
    pub message: String,
}

impl View for Reminder {
    type V = (LocalDateTime, Seq<char>);

    open spec fn view(&self) -> (LocalDateTime, Seq<char>) {
        (self.due, self.message@)
    }
}

/// The words of a command as texts.
pub open spec fn words(tokens: Seq<String>) -> Seq<Seq<char>> {
    Seq::new(tokens.len(), |i: int| tokens[i]@)
}

/// The keyword that a reminder command starts with.
pub open spec fn keyword() -> Seq<char> {
    "!remindme"@
}

/// A text calls for a reminder where it starts with the keyword.
pub open spec fn calls_for_reminder(text: Seq<char>) -> bool {
    keyword().is_prefix_of(text)
}

/// The words of a text: what stands between its spaces, each single space
/// ending one word and starting the next. A text without a space is one
/// word, and two spaces in a row have an empty word between them.
pub open spec fn split(text: Seq<char>) -> Seq<Seq<char>>
    decreases text.len(),
{
    if text.len() == 0 {
        seq![Seq::empty()]
    } else {
        let before = split(text.drop_last());
        if text.last() == ' ' {
            before.push(Seq::empty())
        } else {
            before.drop_last().push(before.last().push(text.last()))
        }
    }
}

/// A time of day and a duration both say when on the clock.
pub open spec fn bears_time(t: RemindMeDateTypes) -> bool {
    t is SpecifiedTime || t is AddedTime
}

/// What is wrong with the way two recognised words go together in a command
/// of `count` words, if anything. A second word that is not recognised
/// belongs to the message and is never at fault.
pub open spec fn conflict(
    first: RemindMeDateTypes,
    second: RemindMeDateTypes,
    count: int,
) -> Option<CommandError> {
    if first is Invalid {
        Some(CommandError::FirstTokenInvalid)
    } else if second is Invalid {
        None
    } else if count < 4 {
        Some(CommandError::MissingMessage)
    } else if first is ThreeLetterMonth && second is ThreeLetterMonth {
        Some(CommandError::MoreThanOneDate)
    } else if bears_time(first) && bears_time(second) {
        Some(CommandError::MoreThanOneTime)
    } else {
        None
    }
}

/// A candidate is accepted where it is an instant and not before `now`.
pub open spec fn accepted(candidate: LocalDateTime, now: LocalDateTime) -> Result<
    LocalDateTime,
    CommandError,
> {
    if !candidate.wf() {
        Err(CommandError::InvalidCalendarDate)
    } else if candidate.before(now) {
        Err(CommandError::NotInFuture)
    } else {
        Ok(candidate)
    }
}

/// The date of `t` with another time of day, on the full minute.
pub open spec fn at_time(t: LocalDateTime, hour: u32, minute: u32) -> LocalDateTime {
    LocalDateTime { hour, minute, second: 0, ..t }
}

/// The instant some seconds after one that may be missing.
pub open spec fn then_seconds(t: Option<LocalDateTime>, seconds: int) -> Option<LocalDateTime> {
    match t {
        Some(t) => seconds_later(t, seconds as i64),
        None => None,
    }
}

/// Moving on by the clock part of a duration: the hours, the minutes, the
/// hours once more, then the days, each step from where the one before
/// ended. The hours count twice.
pub open spec fn after_clock_span(now: LocalDateTime, d: u32, h: u32, min: u32) -> Option<
    LocalDateTime,
> {
    then_seconds(
        then_seconds(then_seconds(then_seconds(Some(now), h * 3600), min * 60), h * 3600),
        d * 86400,
    )
}

/// Moving on by the calendar part of a duration: first the months, then the
/// years, which keep month and day. There is no result where the calendar
/// has no such date.
pub open spec fn after_calendar_span(t: LocalDateTime, mon: u32, y: i32) -> Option<
    LocalDateTime,
> {
    match months_later(t, mon) {
        Some(moved) => in_year(moved, moved.year + y),
        None => None,
    }
}

/// The instant that the first word of a command asks for.
///
/// A date is taken at the time of day that it is now, and a time of day on
/// the date of today; neither may lie before `now`. A duration is added to
/// `now` and taken as it comes.
pub open spec fn resolved(first: RemindMeDateTypes, now: LocalDateTime) -> Result<
    LocalDateTime,
    CommandError,
> {
    match first {
        RemindMeDateTypes::Invalid => Err(CommandError::FirstTokenInvalid),
        RemindMeDateTypes::ThreeLetterMonth { d, mon, y } => accepted(
            LocalDateTime { year: y, month: mon, day: d, ..now },
            now,
        ),
        RemindMeDateTypes::SpecifiedTime { h, min } => accepted(at_time(now, h, min), now),
        RemindMeDateTypes::AddedTime { y, mon, d, h, min } => match after_clock_span(
            now,
            d,
            h,
            min,
        ) {
            Some(t) => match after_calendar_span(t, mon, y) {
                Some(due) => Ok(due),
                None => Err(CommandError::InvalidCalendarDate),
            },
            None => Err(CommandError::InvalidCalendarDate),
        },
    }
}

/// What the second word makes of the instant that the first one gave, and
/// the position of the word that the message starts with. Only a time of
/// day changes anything: it replaces the time on the date already found,
/// and the message then starts one word later.
pub open spec fn refined(second: RemindMeDateTypes, due: LocalDateTime, now: LocalDateTime)
    -> Result<(LocalDateTime, usize), CommandError> {
    match second {
        RemindMeDateTypes::SpecifiedTime { h, min } => match accepted(at_time(due, h, min), now) {
            Ok(t) => Ok((t, 3usize)),
            Err(e) => Err(e),
        },
        _ => Ok((due, 2usize)),
    }
}

/// Words put together with one space between each two.
pub open spec fn joined(words: Seq<Seq<char>>) -> Seq<char>
    decreases words.len(),
{
    if words.len() == 0 {
        Seq::empty()
    } else if words.len() == 1 {
        words[0]
    } else {
        joined(words.drop_last()) + seq![' '] + words.last()
    }
}

/// The message of a command: its words from position `start` on.
pub open spec fn message_from(tokens: Seq<Seq<char>>, start: int) -> Seq<char> {
    if 0 <= start <= tokens.len() {
        joined(tokens.skip(start))
    } else {
        Seq::empty()
    }
}

/// What a command means at the instant `now`: the due time and the message,
/// or the reason why there is none.
pub open spec fn interpreted(tokens: Seq<Seq<char>>, now: LocalDateTime) -> Result<
    (LocalDateTime, Seq<char>),
    CommandError,
> {
    if tokens.len() < 3 {
        Err(CommandError::InsufficientArguments)
    } else {
        let first = parsed(tokens[1]);
        let second = parsed(tokens[2]);
        match conflict(first, second, tokens.len() as int) {
            Some(e) => Err(e),
            None => match resolved(first, now) {
                Err(e) => Err(e),
                Ok(due) => match refined(second, due, now) {
                    Err(e) => Err(e),
                    Ok((due, start)) => Ok((due, message_from(tokens, start as int))),
                },
            },
        }
    }
}

/// Whether a text is a reminder command.
pub fn is_reminder_command(text: &str) -> (r: bool)
    ensures
        r == calls_for_reminder(text@),
{
    let chars = chars_of(text);
    let key = chars_of("!remindme");
    if chars.len() < key.len() {
        return false;
    }
    let mut i: usize = 0;
    while i < key.len()
        invariant
            i <= key.len() <= chars.len(),
            chars@ == text@,
            key@ == keyword(),
            forall|k: int| 0 <= k < i ==> chars@[k] == key@[k],
        decreases key.len() - i,
    {
        if chars[i] != key[i] {
            return false;
        }
        i = i + 1;
    }
    true
}

/// Takes a text apart into its words.
pub fn split_words(text: &str) -> (r: Vec<String>)
    ensures
        words(r@) == split(text@),
{
    let chars = chars_of(text);
    let mut out: Vec<String> = Vec::new();
    let mut start: usize = 0;
    let mut i: usize = 0;
    proof {
        assert(chars@.take(0) =~= Seq::<char>::empty());
        assert(chars@.subrange(0, 0) =~= Seq::<char>::empty());
        assert(words(out@).push(Seq::<char>::empty()) =~= seq![Seq::<char>::empty()]);
    }
    while i < chars.len()
        invariant
            start <= i <= chars.len(),
            chars@ == text@,
            words(out@).push(chars@.subrange(start as int, i as int)) == split(
                chars@.take(i as int),
            ),
        decreases chars.len() - i,
    {
        proof {
            let word = chars@.subrange(start as int, i as int);
            assert(chars@.take(i + 1).drop_last() =~= chars@.take(i as int));
            assert(chars@.take(i + 1).last() == chars@[i as int]);
            assert(words(out@).push(word).drop_last() =~= words(out@));
            assert(word.push(chars@[i as int]) =~= chars@.subrange(start as int, i + 1));
            assert(chars@.subrange(i + 1, i + 1) =~= Seq::<char>::empty());
        }
        if chars[i] == ' ' {
            let word = String::from_str(text.substring_char(start, i));
            out.push(word);
            start = i + 1;
        }
        i = i + 1;
    }
    let word = String::from_str(text.substring_char(start, chars.len()));
    proof {
        assert(words(out@.push(word)) =~= words(out@).push(word@));
        assert(chars@.take(chars.len() as int) =~= chars@);
    }
    out.push(word);
    out
}

/// Finds what is wrong with the way two recognised words go together.
pub fn find_conflict(first: RemindMeDateTypes, second: RemindMeDateTypes, count: usize) -> (r:
    Option<CommandError>)
    ensures
        r == conflict(first, second, count as int),
{
    let first_is_date = matches!(first, RemindMeDateTypes::ThreeLetterMonth { .. });
    let second_is_date = matches!(second, RemindMeDateTypes::ThreeLetterMonth { .. });
    let first_is_time = matches!(first, RemindMeDateTypes::SpecifiedTime { .. }) || matches!(
        first,
        RemindMeDateTypes::AddedTime { .. }
    );
    let second_is_time = matches!(second, RemindMeDateTypes::SpecifiedTime { .. }) || matches!(
        second,
        RemindMeDateTypes::AddedTime { .. }
    );
    if matches!(first, RemindMeDateTypes::Invalid) {
        Some(CommandError::FirstTokenInvalid)
    } else if matches!(second, RemindMeDateTypes::Invalid) {
        None
    } else if count < 4 {
        Some(CommandError::MissingMessage)
    } else if first_is_date && second_is_date {
        Some(CommandError::MoreThanOneDate)
    } else if first_is_time && second_is_time {
        Some(CommandError::MoreThanOneTime)
    } else {
        None
    }
}

/// Accepts a candidate that is an instant and not in the past.
pub fn accept(candidate: LocalDateTime, now: LocalDateTime) -> (r: Result<
    LocalDateTime,
    CommandError,
>)
    ensures
        r == accepted(candidate, now),
        r matches Ok(t) ==> t == candidate && t.wf() && now.at_or_before(t),
{
    match LocalDateTime::new(
        candidate.year,
        candidate.month,
        candidate.day,
        candidate.hour,
        candidate.minute,
        candidate.second,
    ) {
        None => Err(CommandError::InvalidCalendarDate),
        Some(t) => if t < now {
            Err(CommandError::NotInFuture)
        } else {
            Ok(t)
        },
    }
}

/// Moves on from `now` by the clock part of a duration.
pub fn add_clock_span(now: LocalDateTime, d: u32, h: u32, min: u32) -> (r: Option<LocalDateTime>)
    ensures
        r == after_clock_span(now, d, h, min),
        r matches Some(t) ==> now.at_or_before(t),
{
    let hours: i64 = (h as i64) * 3600;
    let Some(a) = plus_seconds(now, hours) else {
        return None;
    };
    let Some(b) = plus_seconds(a, (min as i64) * 60) else {
        return None;
    };
    let Some(c) = plus_seconds(b, hours) else {
        return None;
    };
    plus_seconds(c, (d as i64) * 86400)
}

/// Moves on from `t` by the calendar part of a duration.
pub fn add_calendar_span(t: LocalDateTime, mon: u32, y: i32) -> (r: Option<LocalDateTime>)
    ensures
        r == after_calendar_span(t, mon, y),
        r matches Some(due) ==> due.wf(),
        r matches Some(due) ==> y >= 0 ==> t.at_or_before(due),
{
    let Some(moved) = plus_months(t, mon) else {
        return None;
    };
    match moved.year.checked_add(y) {
        Some(year) => with_year(moved, year),
        None => None,
    }
}

/// Finds the instant that the first word of a command asks for.
pub fn resolve(first: RemindMeDateTypes, now: LocalDateTime) -> (r: Result<
    LocalDateTime,
    CommandError,
>)
    ensures
        r == resolved(first, now),
        r matches Ok(due) ==> due.wf(),
        r matches Ok(due) ==> (first matches RemindMeDateTypes::AddedTime { y, .. } ==> y >= 0)
            ==> now.at_or_before(due),
{
    match first {
        RemindMeDateTypes::Invalid => Err(CommandError::FirstTokenInvalid),
        RemindMeDateTypes::ThreeLetterMonth { d, mon, y } => accept(
            LocalDateTime { year: y, month: mon, day: d, ..now },
            now,
        ),
        RemindMeDateTypes::SpecifiedTime { h, min } => accept(
            LocalDateTime { hour: h, minute: min, second: 0, ..now },
            now,
        ),
        RemindMeDateTypes::AddedTime { y, mon, d, h, min } => {
            let Some(t) = add_clock_span(now, d, h, min) else {
                return Err(CommandError::InvalidCalendarDate);
            };
            match add_calendar_span(t, mon, y) {
                Some(due) => Ok(due),
                None => Err(CommandError::InvalidCalendarDate),
            }
        },
    }
}

/// Applies the second word of a command to the instant found so far.
pub fn refine(second: RemindMeDateTypes, due: LocalDateTime, now: LocalDateTime) -> (r: Result<
    (LocalDateTime, usize),
    CommandError,
>)
    ensures
        r == refined(second, due, now),
        r matches Ok((t, start)) ==> second is SpecifiedTime ==> t.wf() && now.at_or_before(t),
        r matches Ok((t, start)) ==> !(second is SpecifiedTime) ==> t == due,
{
    match second {
        RemindMeDateTypes::SpecifiedTime { h, min } => match accept(
            LocalDateTime { hour: h, minute: min, second: 0, ..due },
            now,
        ) {
            Ok(t) => Ok((t, 3)),
            Err(e) => Err(e),
        },
        _ => Ok((due, 2)),
    }
}

/// Puts the words from position `start` on together as the message.
pub fn join_words(tokens: &Vec<String>, start: usize) -> (r: String)
    ensures
        r@ == message_from(words(tokens@), start as int),
{
    let mut text = String::new();
    if start > tokens.len() {
        return text;
    }
    let mut i: usize = start;
    while i < tokens.len()
        invariant
            start <= i <= tokens.len(),
            text@ == joined(words(tokens@).subrange(start as int, i as int)),
        decreases tokens.len() - i,
    {
        proof {
            reveal_strlit(" ");
            let so_far = words(tokens@).subrange(start as int, i as int);
            let longer = words(tokens@).subrange(start as int, i + 1);
            assert(longer.drop_last() =~= so_far);
            assert(longer.last() == tokens@[i as int]@);
            assert(" "@ =~= seq![' ']);
        }
        if i > start {
            text.append(" ");
        }
        text.append(tokens[i].as_str());
        i = i + 1;
    }
    assert(words(tokens@).subrange(start as int, tokens.len() as int) =~= words(tokens@).skip(
        start as int,
    ));
    text
}

/// The outcome of reading a command, with the reminder by its view.
pub open spec fn outcome(r: Result<Reminder, CommandError>) -> Result<
    (LocalDateTime, Seq<char>),
    CommandError,
> {
    match r {
        Ok(reminder) => Ok(reminder@),
        Err(e) => Err(e),
    }
}

/// Reads a command at the instant `now`. The words are the keyword, one or
/// two words that say when, and the message.
///
/// A reminder that comes back is due at an instant of the calendar that is
/// not before `now`.
pub fn interpret_command(tokens: &Vec<String>, now: LocalDateTime) -> (r: Result<
    Reminder,
    CommandError,
>)
    ensures
        outcome(r) == interpreted(words(tokens@), now),
        r matches Ok(reminder) ==> reminder.due.wf() && now.at_or_before(reminder.due),
{
    if tokens.len() < 3 {
        return Err(CommandError::InsufficientArguments);
    }
    let first = parse_date(tokens[1].as_str());
    let second = parse_date(tokens[2].as_str());
    if let Some(e) = find_conflict(first, second, tokens.len()) {
        return Err(e);
    }
    let due = match resolve(first, now) {
        Ok(due) => due,
        Err(e) => {
            return Err(e);
        },
    };
    let (due, start) = match refine(second, due, now) {
        Ok(found) => found,
        Err(e) => {
            return Err(e);
        },
    };
    Ok(Reminder { due, message: join_words(tokens, start) })
}

/// Taking a text apart loses nothing: there is always at least one word, no
/// word holds a space, and the words joined with single spaces are the text.
pub proof fn lemma_split_joined(text: Seq<char>)
    ensures
        split(text).len() >= 1,
        forall|k: int, i: int|
            0 <= k < split(text).len() && 0 <= i < split(text)[k].len() ==> #[trigger] split(
                text,
            )[k][i] != ' ',
        joined(split(text)) == text,
    decreases text.len(),
{
    if text.len() > 0 {
        let before = split(text.drop_last());
        let after = split(text);
        lemma_split_joined(text.drop_last());
        if text.last() == ' ' {
            assert(after.drop_last() =~= before);
            assert(joined(after) =~= text);
        } else {
            assert(after.drop_last() =~= before.drop_last());
            assert(joined(after) =~= joined(before).push(text.last()));
            assert(joined(after) =~= text);
        }
    }
}

/// Two dates in one command that has a message are turned down as more than
/// one date.
pub proof fn lemma_two_dates_rejected(tokens: Seq<Seq<char>>, now: LocalDateTime)
    requires
        tokens.len() >= 4,
        parsed(tokens[1]) is ThreeLetterMonth,
        parsed(tokens[2]) is ThreeLetterMonth,
    ensures
        interpreted(tokens, now) == Err::<(LocalDateTime, Seq<char>), _>(
            CommandError::MoreThanOneDate,
        ),
        reason_text(CommandError::MoreThanOneDate) == "more than one date provided"@,
{
}

/// A time of day or a duration followed by another of the two, in a command
/// that has a message, is turned down as more than one time.
pub proof fn lemma_two_times_rejected(tokens: Seq<Seq<char>>, now: LocalDateTime)
    requires
        tokens.len() >= 4,
        bears_time(parsed(tokens[1])),
        bears_time(parsed(tokens[2])),
    ensures
        interpreted(tokens, now) == Err::<(LocalDateTime, Seq<char>), _>(
            CommandError::MoreThanOneTime,
        ),
        reason_text(CommandError::MoreThanOneTime) == "more than one time provided"@,
{
}

/// The spelling of a rejection as not in the future.
pub open spec fn not_in_future() -> Result<(LocalDateTime, Seq<char>), CommandError> {
    Err(CommandError::NotInFuture)
}

/// A date or a time of day that lies before `now` is turned down as not in
/// the future, whether it comes from the first word alone or from a time of
/// day in the second; and a reminder that such a command does give is not
/// due before `now`.
pub proof fn lemma_past_rejected(tokens: Seq<Seq<char>>, now: LocalDateTime)
    requires
        tokens.len() >= 3,
        conflict(parsed(tokens[1]), parsed(tokens[2]), tokens.len() as int) is None,
    ensures
        match parsed(tokens[1]) {
            RemindMeDateTypes::ThreeLetterMonth { d, mon, y } => {
                let candidate = LocalDateTime { year: y, month: mon, day: d, ..now };
                candidate.wf() && candidate.before(now) ==> interpreted(tokens, now)
                    == not_in_future()
            },
            RemindMeDateTypes::SpecifiedTime { h, min } => {
                let candidate = at_time(now, h, min);
                candidate.wf() && candidate.before(now) ==> interpreted(tokens, now)
                    == not_in_future()
            },
            _ => true,
        },
        match (resolved(parsed(tokens[1]), now), parsed(tokens[2])) {
            (Ok(due), RemindMeDateTypes::SpecifiedTime { h, min }) => {
                let candidate = at_time(due, h, min);
                candidate.wf() && candidate.before(now) ==> interpreted(tokens, now)
                    == not_in_future()
            },
            _ => true,
        },
        interpreted(tokens, now) matches Ok((due, text)) ==> !(parsed(tokens[1]) is AddedTime)
            ==> due.wf() && !due.before(now),
        reason_text(CommandError::NotInFuture) == "not in the future"@,
{
}

} // verus!
