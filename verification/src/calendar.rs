//! Calendar dates and times of day, and the days that times fall on where the
//! program runs.
use crate::i18n;
use crate::i18n::Catalog;
use crate::text;
use vstd::prelude::*;

verus! {

/// A day of the proleptic Gregorian calendar.
#[derive(Clone, Copy, Debug, PartialEq, Eq, Structural, Hash)]
pub struct CalendarDate {
    pub year: i32,
    pub month: u32,
    pub day: u32,
}

/// A minute of a day.
#[derive(Clone, Copy, Debug, PartialEq, Eq, Structural, Hash)]
pub struct Moment {
    pub date: CalendarDate,
    pub hour: u32,
    pub minute: u32,
}

/// The first year that can be reckoned with.
pub const FIRST_YEAR: i32 = -262_143;

/// The last year that can be reckoned with.
pub const LAST_YEAR: i32 = 262_142;

/// The number of the first day of the first year.
pub const FIRST_DAY: i32 = -95_746_129;

/// The number of 1 January 1970.
pub const EPOCH_DAY: i64 = 719_163;

/// The length of a day in seconds.
pub const DAY_SECONDS: i64 = 86_400;

/// The second at which the first year begins, counted from 1970.
pub const FIRST_SECOND: i64 = -8_334_601_228_800;

/// The last second of the last year, counted from 1970.
pub const LAST_SECOND: i64 = 8_210_266_876_799;

// ── The calendar ───────────────────────────────────────────────────────────

/// Whether a year has a 29 February.
pub open spec fn leap(year: int) -> bool {
    year % 4 == 0 && (year % 100 != 0 || year % 400 == 0)
}

/// How many days a month has.
pub open spec fn month_days(year: int, month: int) -> int {
    if month == 2 {
        if leap(year) {
            29
        } else {
            28
        }
    } else if month == 4 || month == 6 || month == 9 || month == 11 {
        30
    } else {
        31
    }
}

/// How many days of a year lie before a month.
pub open spec fn days_before_month(year: int, month: int) -> int
    decreases month,
{
    if month <= 1 {
        0
    } else {
        days_before_month(year, month - 1) + month_days(year, month - 1)
    }
}

/// How many days lie between the start of year 1 and the start of a year.
pub open spec fn days_before_year(year: int) -> int {
    365 * (year - 1) + (year - 1) / 4 - (year - 1) / 100 + (year - 1) / 400
}

impl CalendarDate {
    /// Whether the calendar has this date.
    pub open spec fn valid(self) -> bool {
        &&& FIRST_YEAR <= self.year <= LAST_YEAR
        &&& 1 <= self.month <= 12
        &&& 1 <= self.day <= month_days(self.year as int, self.month as int)
    }

    /// The number of the day, where 1 January of year 1 is day 1.
    pub open spec fn number(self) -> int {
        days_before_year(self.year as int) + days_before_month(
            self.year as int,
            self.month as int,
        ) + self.day
    }

    /// How many days have passed since Monday.
    pub open spec fn since_monday(self) -> int {
        (self.number() - 1) % 7
    }

    /// Whether one date comes before another.
    pub open spec fn before(self, other: CalendarDate) -> bool {
        ||| self.year < other.year
        ||| self.year == other.year && self.month < other.month
        ||| self.year == other.year && self.month == other.month && self.day < other.day
    }

    /// The number of the Monday that begins the week, or of the date itself
    /// where the calendar does not reach back to that Monday.
    pub open spec fn week_start(self) -> int {
        if self.number() - self.since_monday() >= FIRST_DAY {
            self.number() - self.since_monday()
        } else {
            self.number()
        }
    }
}

impl Moment {
    /// Whether a day of the calendar has this minute.
    pub open spec fn valid(self) -> bool {
        self.date.valid() && self.hour < 24 && self.minute < 60
    }
}

proof fn lemma_year_length(year: int)
    ensures
        days_before_month(year, 13) == (if leap(year) {
            366int
        } else {
            365
        }),
        days_before_year(year + 1) == days_before_year(year) + days_before_month(year, 13),
{
    reveal_with_fuel(days_before_month, 14);
}

proof fn lemma_years_grow(from: int, to: int)
    requires
        from < to,
    ensures
        days_before_year(from) + days_before_month(from, 13) <= days_before_year(to),
    decreases to - from,
{
    if from + 1 < to {
        lemma_years_grow(from, to - 1);
        lemma_year_length(to - 1);
    } else {
        lemma_year_length(from);
    }
}

proof fn lemma_months_grow(year: int, from: int, to: int)
    requires
        1 <= from < to,
    ensures
        days_before_month(year, from) + month_days(year, from) <= days_before_month(year, to),
    decreases to,
{
    if from < to - 1 {
        lemma_months_grow(year, from, to - 1);
    }
}

/// Of two dates the earlier has the smaller number.
pub proof fn numbers_follow_the_calendar(a: CalendarDate, b: CalendarDate)
    requires
        a.valid(),
        b.valid(),
    ensures
        a.before(b) <==> a.number() < b.number(),
        a == b <==> a.number() == b.number(),
{
    lemma_number_grows(a, b);
    lemma_number_grows(b, a);
}

proof fn lemma_number_grows(a: CalendarDate, b: CalendarDate)
    requires
        a.valid(),
        b.valid(),
    ensures
        a.before(b) ==> a.number() < b.number(),
{
    if a.before(b) {
        if a.year < b.year {
            lemma_years_grow(a.year as int, b.year as int);
            lemma_months_grow(a.year as int, a.month as int, 13);
            lemma_month_start(b.year as int, b.month as int);
        } else if a.month < b.month {
            lemma_months_grow(a.year as int, a.month as int, b.month as int);
        }
    }
}

proof fn lemma_month_start(year: int, month: int)
    requires
        1 <= month,
    ensures
        days_before_month(year, month) >= 0,
    decreases month,
{
    if month > 1 {
        lemma_month_start(year, month - 1);
    }
}

proof fn lemma_number_bounds(date: CalendarDate)
    requires
        date.valid(),
    ensures
        FIRST_DAY <= date.number() <= 95_745_399,
{
    lemma_month_start(date.year as int, date.month as int);
    lemma_months_grow(date.year as int, date.month as int, 13);
    lemma_year_length(date.year as int);
}

/// `chrono::NaiveDate::from_ymd_opt` and `chrono::Datelike::num_days_from_ce`:
/// the number of a date, with 1 January of year 1 as day 1, and nothing for
/// values that are no date of the calendar in the years chrono covers.
#[verifier::external_body]
pub(crate) fn day_number(date: CalendarDate) -> (number: Option<i32>)
    ensures
        date.valid() ==> number is Some && number->0 == date.number(),
        !date.valid() ==> number is None,
{
    match chrono::NaiveDate::from_ymd_opt(date.year, date.month, date.day) {
        Some(day) => Some(chrono::Datelike::num_days_from_ce(&day)),
        None => None,
    }
}

/// `chrono::Datelike::weekday` and `chrono::Weekday::num_days_from_monday`: how
/// many days have passed since Monday, and nothing for values that are no date.
#[verifier::external_body]
fn days_since_monday(date: CalendarDate) -> (days: Option<u32>)
    ensures
        date.valid() ==> days is Some && days->0 == date.since_monday(),
        !date.valid() ==> days is None,
{
    match chrono::NaiveDate::from_ymd_opt(date.year, date.month, date.day) {
        Some(day) => Some(chrono::Datelike::weekday(&day).num_days_from_monday()),
        None => None,
    }
}

/// `chrono::DateTime::from_timestamp` and `chrono::DateTime::with_timezone` for
/// `chrono::Local`: the minute that a count of seconds since 1970 falls on
/// where the program runs. Nothing comes back exactly for the seconds outside
/// the years chrono covers. Which minute it is depends on the machine's time
/// zone; every zone is less than a day away from universal time. The seconds
/// of the first and the last day, where the zone can lead out of those years,
/// are left out.
#[verifier::external_body]
fn local_moment(seconds: i64) -> (moment: Option<Moment>)
    requires
        FIRST_SECOND <= seconds <= LAST_SECOND ==> FIRST_SECOND + DAY_SECONDS <= seconds
            <= LAST_SECOND - DAY_SECONDS,
    ensures
        moment is Some <==> FIRST_SECOND <= seconds <= LAST_SECOND,
        moment matches Some(moment) ==> moment.valid() && -1 <= moment.date.number() - (EPOCH_DAY
            + seconds as int / 86_400) <= 1,
{
    match chrono::DateTime::<chrono::Utc>::from_timestamp(seconds, 0) {
        Some(time) => {
            let time = time.with_timezone(&chrono::Local);
            let date = CalendarDate {
                year: chrono::Datelike::year(&time),
                month: chrono::Datelike::month(&time),
                day: chrono::Datelike::day(&time),
            };
            let hour = chrono::Timelike::hour(&time);
            Some(Moment { date, hour, minute: chrono::Timelike::minute(&time) })
        },
        None => None,
    }
}

/// `chrono::Local::now`: today's date where the program runs. Which date it is
/// depends on the machine's clock and time zone.
#[verifier::external_body]
pub(crate) fn local_today() -> (today: CalendarDate)
    ensures
        today.valid(),
{
    let now = chrono::Local::now();
    CalendarDate {
        year: chrono::Datelike::year(&now),
        month: chrono::Datelike::month(&now),
        day: chrono::Datelike::day(&now),
    }
}

/// Whether a count of seconds can be placed in the calendar, or lies outside
/// it in every time zone.
pub open spec fn placeable(timestamp: u64) -> bool {
    timestamp <= LAST_SECOND ==> timestamp <= LAST_SECOND - DAY_SECONDS
}

// ── Periods ────────────────────────────────────────────────────────────────

/// The calendar periods that sessions are grouped by.
#[derive(Clone, Copy, Debug, PartialEq, Eq, Structural, Hash)]
pub enum SessionDateGroup {
    Today,
    Yesterday,
    ThisWeek,
    ThisMonth,
    ThisYear,
    More,
}

impl SessionDateGroup {
    /// The place of a period, the most recent first.
    pub open spec fn place(self) -> int {
        match self {
            SessionDateGroup::Today => 0,
            SessionDateGroup::Yesterday => 1,
            SessionDateGroup::ThisWeek => 2,
            SessionDateGroup::ThisMonth => 3,
            SessionDateGroup::ThisYear => 4,
            SessionDateGroup::More => 5,
        }
    }

    /// The place of a period, the most recent first.
    pub fn index(self) -> (index: usize)
        ensures
            index == self.place(),
    {
        match self {
            SessionDateGroup::Today => 0,
            SessionDateGroup::Yesterday => 1,
            SessionDateGroup::ThisWeek => 2,
            SessionDateGroup::ThisMonth => 3,
            SessionDateGroup::ThisYear => 4,
            SessionDateGroup::More => 5,
        }
    }

    /// The text that names a period.
    pub open spec fn label_key(self) -> Seq<char> {
        match self {
            SessionDateGroup::Today => "sidebar.today"@,
            SessionDateGroup::Yesterday => "sidebar.yesterday"@,
            SessionDateGroup::ThisWeek => "sidebar.this_week"@,
            SessionDateGroup::ThisMonth => "sidebar.this_month"@,
            SessionDateGroup::ThisYear => "sidebar.this_year"@,
            SessionDateGroup::More => "sidebar.more"@,
        }
    }

    /// What a period is called.
    pub fn label(self, catalog: &Catalog) -> (label: String)
        ensures
            label@ == i18n::plain(catalog@, self.label_key()),
    {
        match self {
            SessionDateGroup::Today => catalog.text("sidebar.today"),
            SessionDateGroup::Yesterday => catalog.text("sidebar.yesterday"),
            SessionDateGroup::ThisWeek => catalog.text("sidebar.this_week"),
            SessionDateGroup::ThisMonth => catalog.text("sidebar.this_month"),
            SessionDateGroup::ThisYear => catalog.text("sidebar.this_year"),
            SessionDateGroup::More => catalog.text("sidebar.more"),
        }
    }
}

/// The period of a date as seen today: what lies ahead counts as today.
pub open spec fn period(date: CalendarDate, today: CalendarDate) -> SessionDateGroup {
    if date.number() >= today.number() {
        SessionDateGroup::Today
    } else if date.number() == today.number() - 1 {
        SessionDateGroup::Yesterday
    } else if date.number() >= today.week_start() {
        SessionDateGroup::ThisWeek
    } else if date.year == today.year && date.month == today.month {
        SessionDateGroup::ThisMonth
    } else if date.year == today.year {
        SessionDateGroup::ThisYear
    } else {
        SessionDateGroup::More
    }
}

/// A date and today as numbers, and the number of the Monday before today.
fn reckon(date: CalendarDate, today: CalendarDate) -> (numbers: (i32, i32, i32))
    requires
        date.valid(),
        today.valid(),
    ensures
        numbers.0 == date.number(),
        numbers.1 == today.number(),
        numbers.2 == today.week_start(),
        numbers.1 >= FIRST_DAY,
{
    proof {
        lemma_number_bounds(date);
        lemma_number_bounds(today);
    }
    match (day_number(date), day_number(today), days_since_monday(today)) {
        (Some(number), Some(now), Some(passed)) => {
            let monday: i32 = now - passed as i32;
            (
                number,
                now,
                if monday >= FIRST_DAY {
                    monday
                } else {
                    now
                },
            )
        },
        _ => (0, 0, 0),
    }
}

/// The period of a date as seen today.
pub fn session_date_group_for_dates(session_date: CalendarDate, today: CalendarDate) -> (group:
    SessionDateGroup)
    requires
        session_date.valid(),
        today.valid(),
    ensures
        group == period(session_date, today),
{
    let (number, now, monday) = reckon(session_date, today);
    if number >= now {
        SessionDateGroup::Today
    } else if number == now - 1 {
        SessionDateGroup::Yesterday
    } else if number >= monday {
        SessionDateGroup::ThisWeek
    } else if session_date.year == today.year && session_date.month == today.month {
        SessionDateGroup::ThisMonth
    } else if session_date.year == today.year {
        SessionDateGroup::ThisYear
    } else {
        SessionDateGroup::More
    }
}

/// The date of a time where the program runs, if the calendar has it.
pub fn local_date(timestamp: u64) -> (date: Option<CalendarDate>)
    requires
        placeable(timestamp),
    ensures
        date is Some <==> timestamp <= LAST_SECOND,
        date matches Some(date) ==> date.valid() && -1 <= date.number() - (EPOCH_DAY
            + timestamp as int / 86_400) <= 1,
{
    if timestamp > LAST_SECOND as u64 {
        return None;
    }
    match local_moment(timestamp as i64) {
        Some(moment) => Some(moment.date),
        None => None,
    }
}

/// Whether a time can fall into a period, in some time zone, as seen today. A
/// time that the calendar does not reach counts as today.
pub open spec fn possible_period(
    timestamp: u64,
    today: CalendarDate,
    group: SessionDateGroup,
) -> bool {
    if timestamp > LAST_SECOND {
        group == SessionDateGroup::Today
    } else {
        exists|date: CalendarDate|
            {
                &&& date.valid()
                &&& -1 <= date.number() - (EPOCH_DAY + timestamp as int / 86_400) <= 1
                &&& group == #[trigger] period(date, today)
            }
    }
}

/// The period of a time as seen today. A time that the calendar does not
/// reach counts as today.
pub fn session_date_group(timestamp: u64, today: CalendarDate) -> (group: SessionDateGroup)
    requires
        placeable(timestamp),
        today.valid(),
    ensures
        possible_period(timestamp, today, group),
{
    match local_date(timestamp) {
        Some(date) => session_date_group_for_dates(date, today),
        None => session_date_group_for_dates(today, today),
    }
}

/// Of two dates the earlier never falls into a more recent period.
pub proof fn earlier_dates_fall_into_earlier_periods(
    a: CalendarDate,
    b: CalendarDate,
    today: CalendarDate,
)
    requires
        a.valid(),
        b.valid(),
        today.valid(),
        a.before(b),
    ensures
        period(b, today).place() <= period(a, today).place(),
{
    numbers_follow_the_calendar(a, b);
    numbers_follow_the_calendar(a, today);
    numbers_follow_the_calendar(b, today);
}

// ── Message times ──────────────────────────────────────────────────────────

/// A number below a hundred in two digits.
pub open spec fn two_digits(number: int) -> Seq<char> {
    seq![
        text::digit_char((number / 10) as nat),
        text::digit_char((number % 10) as nat),
    ]
}

/// A time of day on a dial of twenty-four hours.
pub open spec fn clock24(hour: int, minute: int) -> Seq<char> {
    two_digits(hour) + ":"@ + two_digits(minute)
}

/// A time of day on a dial of twelve hours.
pub open spec fn clock12(hour: int, minute: int) -> Seq<char> {
    two_digits(
        if hour % 12 == 0 {
            12
        } else {
            hour % 12
        },
    ) + ":"@ + two_digits(minute) + (if hour < 12 {
        " AM"@
    } else {
        " PM"@
    })
}

/// The English name of a day of the week.
pub open spec fn weekday_name(since_monday: int) -> Seq<char> {
    if since_monday == 0 {
        "Monday"@
    } else if since_monday == 1 {
        "Tuesday"@
    } else if since_monday == 2 {
        "Wednesday"@
    } else if since_monday == 3 {
        "Thursday"@
    } else if since_monday == 4 {
        "Friday"@
    } else if since_monday == 5 {
        "Saturday"@
    } else {
        "Sunday"@
    }
}

/// The short English name of a month.
pub open spec fn month_name(month: int) -> Seq<char> {
    if month == 1 {
        "Jan"@
    } else if month == 2 {
        "Feb"@
    } else if month == 3 {
        "Mar"@
    } else if month == 4 {
        "Apr"@
    } else if month == 5 {
        "May"@
    } else if month == 6 {
        "Jun"@
    } else if month == 7 {
        "Jul"@
    } else if month == 8 {
        "Aug"@
    } else if month == 9 {
        "Sep"@
    } else if month == 10 {
        "Oct"@
    } else if month == 11 {
        "Nov"@
    } else {
        "Dec"@
    }
}

/// `chrono::NaiveTime::format` with `%H:%M`: the hour on a dial of twenty-four
/// and the minute, each in two digits.
#[verifier::external_body]
fn format_clock24(hour: u32, minute: u32) -> (text: String)
    requires
        hour < 24,
        minute < 60,
    ensures
        text@ == clock24(hour as int, minute as int),
{
    match chrono::NaiveTime::from_hms_opt(hour, minute, 0) {
        Some(time) => time.format("%H:%M").to_string(),
        None => String::new(),
    }
}

/// `chrono::NaiveTime::format` with `%I:%M %p`: the hour on a dial of twelve
/// and the minute, each in two digits, and the half of the day.
#[verifier::external_body]
fn format_clock12(hour: u32, minute: u32) -> (text: String)
    requires
        hour < 24,
        minute < 60,
    ensures
        text@ == clock12(hour as int, minute as int),
{
    match chrono::NaiveTime::from_hms_opt(hour, minute, 0) {
        Some(time) => time.format("%I:%M %p").to_string(),
        None => String::new(),
    }
}

/// `chrono::NaiveDate::format` with `%A`: the English name of the day of the
/// week.
#[verifier::external_body]
fn format_weekday(date: CalendarDate) -> (text: String)
    requires
        date.valid(),
    ensures
        text@ == weekday_name(date.since_monday()),
{
    match chrono::NaiveDate::from_ymd_opt(date.year, date.month, date.day) {
        Some(day) => day.format("%A").to_string(),
        None => String::new(),
    }
}

/// `chrono::NaiveDate::format` with `%b`: the short English name of the month.
#[verifier::external_body]
fn format_month(date: CalendarDate) -> (text: String)
    requires
        date.valid(),
    ensures
        text@ == month_name(date.month as int),
{
    match chrono::NaiveDate::from_ymd_opt(date.year, date.month, date.day) {
        Some(day) => day.format("%b").to_string(),
        None => String::new(),
    }
}

/// A text without the zeros it starts with.
pub open spec fn without_leading_zeros(text: Seq<char>) -> Seq<char>
    decreases text.len(),
{
    if text.len() > 0 && text[0] == '0' {
        without_leading_zeros(text.skip(1))
    } else {
        text
    }
}

fn strip_leading_zeros(text: &str) -> (result: String)
    ensures
        result@ == without_leading_zeros(text@),
{
    let chars = text::chars_of(text);
    let mut i: usize = 0;
    assert(chars@.skip(0) =~= chars@);
    while i < chars.len() && chars[i] == '0'
        invariant
            i <= chars@.len(),
            chars@ == text@,
            without_leading_zeros(text@) == without_leading_zeros(chars@.skip(i as int)),
        decreases chars@.len() - i,
    {
        assert(chars@.skip(i as int)[0] == '0');
        assert(chars@.skip(i as int).skip(1) =~= chars@.skip(i + 1));
        i += 1;
    }
    assert(i < chars@.len() ==> chars@.skip(i as int)[0] == chars@[i as int]);
    assert(chars@.subrange(i as int, chars@.len() as int) =~= chars@.skip(i as int));
    text::text_of(&chars, i, chars.len())
}

/// An integer in decimal.
pub open spec fn signed_digits(value: int) -> Seq<char> {
    if value < 0 {
        "-"@ + text::decimal_digits((-value) as nat)
    } else {
        text::decimal_digits(value as nat)
    }
}

fn signed_decimal(value: i32) -> (text: String)
    ensures
        text@ == signed_digits(value as int),
{
    if value < 0 {
        let digits = text::decimal((-(value as i64)) as u64);
        let mut text = text::owned("-");
        text.append(digits.as_str());
        text
    } else {
        text::decimal(value as u64)
    }
}

/// What follows the number of a day in English.
pub open spec fn ordinal_suffix(day: int) -> Seq<char> {
    if 11 <= day % 100 <= 13 {
        "th"@
    } else if day % 10 == 1 {
        "st"@
    } else if day % 10 == 2 {
        "nd"@
    } else if day % 10 == 3 {
        "rd"@
    } else {
        "th"@
    }
}

/// What follows the number of a day in English.
pub fn day_ordinal_suffix(day: u32) -> (suffix: &'static str)
    ensures
        suffix@ == ordinal_suffix(day as int),
{
    let tail: u32 = day % 100;
    if tail >= 11 && tail <= 13 {
        return "th";
    }
    match day % 10 {
        1 => "st",
        2 => "nd",
        3 => "rd",
        _ => "th",
    }
}

/// The text for a day of the week.
pub open spec fn weekday_key(since_monday: int) -> Seq<char> {
    if since_monday == 0 {
        "time.monday"@
    } else if since_monday == 1 {
        "time.tuesday"@
    } else if since_monday == 2 {
        "time.wednesday"@
    } else if since_monday == 3 {
        "time.thursday"@
    } else if since_monday == 4 {
        "time.friday"@
    } else if since_monday == 5 {
        "time.saturday"@
    } else {
        "time.sunday"@
    }
}

fn localized_weekday(catalog: &Catalog, since_monday: u32) -> (text: String)
    ensures
        text@ == i18n::plain(catalog@, weekday_key(since_monday as int)),
{
    match since_monday {
        0 => catalog.text("time.monday"),
        1 => catalog.text("time.tuesday"),
        2 => catalog.text("time.wednesday"),
        3 => catalog.text("time.thursday"),
        4 => catalog.text("time.friday"),
        5 => catalog.text("time.saturday"),
        _ => catalog.text("time.sunday"),
    }
}

/// A time with as much of its date as tells it apart, in the manner of East
/// Asian languages.
pub open spec fn east_asian_time(
    entries: Seq<(Seq<char>, Seq<char>)>,
    moment: Moment,
    today: CalendarDate,
) -> Seq<char> {
    let time = clock24(moment.hour as int, moment.minute as int);
    let date = moment.date;
    if date.number() >= today.number() {
        time
    } else if date.number() == today.number() - 1 {
        i18n::localized(entries, "time.yesterday_at"@, seq![i18n::argument("time"@, time)])
    } else if date.number() >= today.week_start() {
        i18n::localized(
            entries,
            "time.weekday_at"@,
            seq![
                i18n::argument("weekday"@, i18n::plain(entries, weekday_key(date.since_monday()))),
                i18n::argument("time"@, time),
            ],
        )
    } else if date.year == today.year {
        i18n::localized(
            entries,
            "time.date_at"@,
            seq![
                i18n::argument("month"@, text::decimal_digits(date.month as nat)),
                i18n::argument("day"@, text::decimal_digits(date.day as nat)),
                i18n::argument("time"@, time),
            ],
        )
    } else {
        i18n::localized(
            entries,
            "time.full_date_at"@,
            seq![
                i18n::argument("year"@, signed_digits(date.year as int)),
                i18n::argument("month"@, text::decimal_digits(date.month as nat)),
                i18n::argument("day"@, text::decimal_digits(date.day as nat)),
                i18n::argument("time"@, time),
            ],
        )
    }
}

/// A time with as much of its date as tells it apart, in the English manner.
pub open spec fn english_time(
    entries: Seq<(Seq<char>, Seq<char>)>,
    moment: Moment,
    today: CalendarDate,
) -> Seq<char> {
    let time = without_leading_zeros(clock12(moment.hour as int, moment.minute as int));
    let date = moment.date;
    let month_and_day = month_name(date.month as int) + " "@ + text::decimal_digits(
        date.day as nat,
    ) + ordinal_suffix(date.day as int);
    if date.number() >= today.number() {
        time
    } else if date.number() == today.number() - 1 {
        i18n::localized(entries, "time.yesterday_at"@, seq![i18n::argument("time"@, time)])
    } else if date.number() >= today.week_start() {
        weekday_name(date.since_monday()) + " "@ + time
    } else if date.year == today.year {
        month_and_day + ", "@ + time
    } else {
        month_and_day + " "@ + signed_digits(date.year as int) + ", "@ + time
    }
}

/// A time with as much of its date as tells it apart.
pub open spec fn message_time(
    entries: Seq<(Seq<char>, Seq<char>)>,
    east_asian: bool,
    moment: Moment,
    today: CalendarDate,
) -> Seq<char> {
    if east_asian {
        east_asian_time(entries, moment, today)
    } else {
        english_time(entries, moment, today)
    }
}

fn east_asian_message_time(catalog: &Catalog, moment: Moment, today: CalendarDate) -> (text:
    String)
    requires
        moment.valid(),
        today.valid(),
    ensures
        text@ == east_asian_time(catalog@, moment, today),
{
    let time = format_clock24(moment.hour, moment.minute);
    let date = moment.date;
    let (number, now, monday) = reckon(date, today);
    if number >= now {
        return time;
    }
    if number == now - 1 {
        return catalog.text_with("time.yesterday_at", "time", time.as_str());
    }
    if number >= monday {
        let passed: u32 = match days_since_monday(date) {
            Some(passed) => passed,
            None => 0,
        };
        let weekday = localized_weekday(catalog, passed);
        return catalog.text_with_two(
            "time.weekday_at",
            "weekday",
            weekday.as_str(),
            "time",
            time.as_str(),
        );
    }
    let month = text::decimal(date.month as u64);
    let day = text::decimal(date.day as u64);
    if date.year == today.year {
        let names: Vec<&str> = vec!["month", "day", "time"];
        let values: Vec<String> = vec![month, day, time];
        assert(i18n::arguments_view(names@, values@) =~= seq![
            i18n::argument("month"@, month@),
            i18n::argument("day"@, day@),
            i18n::argument("time"@, time@),
        ]);
        return catalog.text_with_all("time.date_at", &names, &values);
    }
    let year = signed_decimal(date.year);
    let names: Vec<&str> = vec!["year", "month", "day", "time"];
    let values: Vec<String> = vec![year, month, day, time];
    assert(i18n::arguments_view(names@, values@) =~= seq![
        i18n::argument("year"@, year@),
        i18n::argument("month"@, month@),
        i18n::argument("day"@, day@),
        i18n::argument("time"@, time@),
    ]);
    catalog.text_with_all("time.full_date_at", &names, &values)
}

fn english_message_time(catalog: &Catalog, moment: Moment, today: CalendarDate) -> (text: String)
    requires
        moment.valid(),
        today.valid(),
    ensures
        text@ == english_time(catalog@, moment, today),
{
    let clock = format_clock12(moment.hour, moment.minute);
    let time = strip_leading_zeros(clock.as_str());
    let date = moment.date;
    let (number, now, monday) = reckon(date, today);
    if number >= now {
        return time;
    }
    if number == now - 1 {
        return catalog.text_with("time.yesterday_at", "time", time.as_str());
    }
    if number >= monday {
        let mut weekday = format_weekday(date);
        weekday.append(" ");
        weekday.append(time.as_str());
        return weekday;
    }
    let mut shown = format_month(date);
    shown.append(" ");
    let day = text::decimal(date.day as u64);
    shown.append(day.as_str());
    shown.append(day_ordinal_suffix(date.day));
    if date.year != today.year {
        shown.append(" ");
        let year = signed_decimal(date.year);
        shown.append(year.as_str());
    }
    shown.append(", ");
    shown.append(time.as_str());
    shown
}

/// A time with as much of its date as tells it apart.
pub fn message_time_for(
    catalog: &Catalog,
    east_asian: bool,
    moment: Moment,
    today: CalendarDate,
) -> (text: String)
    requires
        moment.valid(),
        today.valid(),
    ensures
        text@ == message_time(catalog@, east_asian, moment, today),
{
    if east_asian {
        east_asian_message_time(catalog, moment, today)
    } else {
        english_message_time(catalog, moment, today)
    }
}

/// Whether a text shows a message's time for some time zone: nothing where
/// the calendar does not reach the time.
pub open spec fn shows_time(
    entries: Seq<(Seq<char>, Seq<char>)>,
    east_asian: bool,
    created_at: u64,
    today: CalendarDate,
    shown: Seq<char>,
) -> bool {
    if created_at > LAST_SECOND {
        shown.len() == 0
    } else {
        exists|moment: Moment|
            {
                &&& moment.valid()
                &&& -1 <= moment.date.number() - (EPOCH_DAY + created_at as int / 86_400) <= 1
                &&& shown == #[trigger] message_time(entries, east_asian, moment, today)
            }
    }
}

/// What stands for the time of a message, seen on a day.
pub fn format_message_time_at(
    catalog: &Catalog,
    east_asian: bool,
    created_at: u64,
    today: CalendarDate,
) -> (text: String)
    requires
        placeable(created_at),
        today.valid(),
    ensures
        shows_time(catalog@, east_asian, created_at, today, text@),
{
    if created_at > LAST_SECOND as u64 {
        return String::new();
    }
    match local_moment(created_at as i64) {
        Some(moment) => message_time_for(catalog, east_asian, moment, today),
        None => String::new(),
    }
}

/// What stands for the time of a message now.
pub fn format_message_time(catalog: &Catalog, east_asian: bool, created_at: u64) -> (text: String)
    requires
        placeable(created_at),
    ensures
        exists|today: CalendarDate|
            today.valid() && #[trigger] shows_time(
                catalog@,
                east_asian,
                created_at,
                today,
                text@,
            ),
{
    let today = local_today();
    format_message_time_at(catalog, east_asian, created_at, today)
}

} // verus!
