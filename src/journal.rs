use chrono::Datelike;
use vstd::prelude::*;
use vstd::string::*;

use crate::transcript::{deduplicate_overlap, deduplicated, last_words_lowered, trailing_words, views};

verus! {

/// How many trailing words of the last written segment are kept for overlap
/// detection.
pub const TRAILING_WORDS: usize = 20;

/// A calendar date in the proleptic Gregorian calendar.
#[derive(Debug, Clone, Copy, PartialEq, Eq, Structural)]
pub struct CivilDate {
    pub year: i32,
    pub month: u32,
    pub day: u32,
}

pub open spec fn is_leap_year(y: int) -> bool {
    (y % 4 == 0 && y % 100 != 0) || y % 400 == 0
}

pub open spec fn days_in_month(y: int, m: int) -> int {
    if m == 2 {
        if is_leap_year(y) {
            29
        } else {
            28
        }
    } else if m == 4 || m == 6 || m == 9 || m == 11 {
        30
    } else {
        31
    }
}

impl CivilDate {
    /// A real date in years 1 through 9999.
    pub open spec fn valid(&self) -> bool {
        &&& 1 <= self.year <= 9999
        &&& 1 <= self.month <= 12
        &&& 1 <= self.day <= days_in_month(self.year as int, self.month as int)
    }
}

/// The day of the week of a date, counted from Monday as 0.
pub uninterp spec fn weekday_number(year: i32, month: u32, day: u32) -> u32;

/// Relies on chrono's `NaiveDate::from_ymd_opt(..).weekday().num_days_from_monday()`:
/// the day of the week of a valid date, Monday being 0 and Sunday 6.
#[verifier::external_body]
fn weekday_index(year: i32, month: u32, day: u32) -> (r: u32)
    requires
        (CivilDate { year, month, day }).valid(),
    ensures
        r == weekday_number(year, month, day),
        r < 7,
{
    chrono::NaiveDate::from_ymd_opt(year, month, day).unwrap().weekday().num_days_from_monday()
}

pub open spec fn digit(d: int) -> char {
    if d == 0 {
        '0'
    } else if d == 1 {
        '1'
    } else if d == 2 {
        '2'
    } else if d == 3 {
        '3'
    } else if d == 4 {
        '4'
    } else if d == 5 {
        '5'
    } else if d == 6 {
        '6'
    } else if d == 7 {
        '7'
    } else if d == 8 {
        '8'
    } else {
        '9'
    }
}

/// The decimal digits of `n`, without leading zeros.
pub open spec fn decimal(n: nat) -> Seq<char>
    decreases n,
{
    if n < 10 {
        seq![digit(n as int)]
    } else {
        decimal(n / 10) + seq![digit((n % 10) as int)]
    }
}

/// `n` as two digits, zero-padded.
pub open spec fn two_digits(n: nat) -> Seq<char> {
    seq![digit((n / 10) as int), digit((n % 10) as int)]
}

/// `n` as four digits, zero-padded.
pub open spec fn four_digits(n: nat) -> Seq<char> {
    seq![
        digit((n / 1000) as int),
        digit((n / 100 % 10) as int),
        digit((n / 10 % 10) as int),
        digit((n % 10) as int),
    ]
}

pub open spec fn weekday_abbrev(w: int) -> Seq<char> {
    if w == 0 {
        "Mon"@
    } else if w == 1 {
        "Tue"@
    } else if w == 2 {
        "Wed"@
    } else if w == 3 {
        "Thu"@
    } else if w == 4 {
        "Fri"@
    } else if w == 5 {
        "Sat"@
    } else {
        "Sun"@
    }
}

pub open spec fn month_name(m: int) -> Seq<char> {
    if m == 1 {
        "January"@
    } else if m == 2 {
        "February"@
    } else if m == 3 {
        "March"@
    } else if m == 4 {
        "April"@
    } else if m == 5 {
        "May"@
    } else if m == 6 {
        "June"@
    } else if m == 7 {
        "July"@
    } else if m == 8 {
        "August"@
    } else if m == 9 {
        "September"@
    } else if m == 10 {
        "October"@
    } else if m == 11 {
        "November"@
    } else {
        "December"@
    }
}

/// The first line of a day's file, and the blank line after it:
/// `# <Weekday>, <Month> <Day>, <Year>`.
pub open spec fn day_header(d: CivilDate) -> Seq<char> {
    "# "@ + weekday_abbrev(weekday_number(d.year, d.month, d.day) as int) + ", "@ + month_name(
        d.month as int,
    ) + " "@ + decimal(d.day as nat) + ", "@ + decimal(d.year as nat) + "\n\n"@
}

/// The name of a day's file: `YYYY-MM-DD.md`.
pub open spec fn day_file_name(d: CivilDate) -> Seq<char> {
    four_digits(d.year as nat) + "-"@ + two_digits(d.month as nat) + "-"@ + two_digits(
        d.day as nat,
    ) + ".md"@
}

/// A minute of the day: `HH:MM`.
pub open spec fn minute_label(hour: nat, minute: nat) -> Seq<char> {
    two_digits(hour) + ":"@ + two_digits(minute)
}

/// The line written for a segment, with the speaker's tag when there is one.
pub open spec fn segment_line(text: Seq<char>, speaker: Option<Seq<char>>) -> Seq<char> {
    match speaker {
        Some(name) => "**"@ + name + ":** "@ + text + "\n"@,
        None => text + "\n"@,
    }
}

fn digit_str(d: u32) -> (r: &'static str)
    requires
        d < 10,
    ensures
        r@ == seq![digit(d as int)],
{
    match d {
        0 => {
            proof { reveal_strlit("0"); }
            "0"
        },
        1 => {
            proof { reveal_strlit("1"); }
            "1"
        },
        2 => {
            proof { reveal_strlit("2"); }
            "2"
        },
        3 => {
            proof { reveal_strlit("3"); }
            "3"
        },
        4 => {
            proof { reveal_strlit("4"); }
            "4"
        },
        5 => {
            proof { reveal_strlit("5"); }
            "5"
        },
        6 => {
            proof { reveal_strlit("6"); }
            "6"
        },
        7 => {
            proof { reveal_strlit("7"); }
            "7"
        },
        8 => {
            proof { reveal_strlit("8"); }
            "8"
        },
        _ => {
            proof { reveal_strlit("9"); }
            "9"
        },
    }
}

/// Append the decimal digits of `n`.
pub fn push_decimal(out: &mut String, n: u32)
    ensures
        final(out)@ == old(out)@ + decimal(n as nat),
    decreases n,
{
    if n >= 10 {
        push_decimal(out, n / 10);
    }
    out.append(digit_str(n % 10));
    proof {
        if n >= 10 {
            assert(final(out)@ =~= old(out)@ + decimal(n as nat));
        }
    }
}

/// Append `n` as two zero-padded digits.
pub fn push_two_digits(out: &mut String, n: u32)
    requires
        n < 100,
    ensures
        final(out)@ == old(out)@ + two_digits(n as nat),
{
    out.append(digit_str(n / 10));
    out.append(digit_str(n % 10));
    assert(final(out)@ =~= old(out)@ + two_digits(n as nat));
}

fn weekday_str(w: u32) -> (r: &'static str)
    ensures
        r@ == weekday_abbrev(w as int),
{
    if w == 0 {
        "Mon"
    } else if w == 1 {
        "Tue"
    } else if w == 2 {
        "Wed"
    } else if w == 3 {
        "Thu"
    } else if w == 4 {
        "Fri"
    } else if w == 5 {
        "Sat"
    } else {
        "Sun"
    }
}

fn month_str(m: u32) -> (r: &'static str)
    ensures
        r@ == month_name(m as int),
{
    if m == 1 {
        "January"
    } else if m == 2 {
        "February"
    } else if m == 3 {
        "March"
    } else if m == 4 {
        "April"
    } else if m == 5 {
        "May"
    } else if m == 6 {
        "June"
    } else if m == 7 {
        "July"
    } else if m == 8 {
        "August"
    } else if m == 9 {
        "September"
    } else if m == 10 {
        "October"
    } else if m == 11 {
        "November"
    } else {
        "December"
    }
}

/// The header line (and blank line) that opens the file of day `d`.
pub fn header_for(d: CivilDate) -> (r: String)
    requires
        d.valid(),
    ensures
        r@ == day_header(d),
{
    let w = weekday_index(d.year, d.month, d.day);
    let mut out = String::from_str("# ");
    out.append(weekday_str(w));
    out.append(", ");
    out.append(month_str(d.month));
    out.append(" ");
    push_decimal(&mut out, d.day);
    out.append(", ");
    push_decimal(&mut out, d.year as u32);
    out.append("\n\n");
    out
}

/// The name of the file of day `d`.
pub fn file_name_for(d: CivilDate) -> (r: String)
    requires
        d.valid(),
    ensures
        r@ == day_file_name(d),
{
    let y = d.year as u32;
    let mut out = String::new();
    out.append(digit_str(y / 1000));
    out.append(digit_str(y / 100 % 10));
    out.append(digit_str(y / 10 % 10));
    out.append(digit_str(y % 10));
    assert(out@ =~= four_digits(d.year as nat));
    out.append("-");
    push_two_digits(&mut out, d.month);
    out.append("-");
    push_two_digits(&mut out, d.day);
    out.append(".md");
    out
}

/// The `HH:MM` label of a minute of the day.
pub fn minute_label_for(hour: u32, minute: u32) -> (r: String)
    requires
        hour < 24,
        minute < 60,
    ensures
        r@ == minute_label(hour as nat, minute as nat),
{
    let mut out = String::new();
    push_two_digits(&mut out, hour);
    out.append(":");
    push_two_digits(&mut out, minute);
    out
}

/// What to do on disk for one segment.
pub struct SegmentPlan {
    /// The file the segment goes to.
    pub file_name: String,
    /// When set, the day changed: create the file with this header unless it
    /// already exists.
    pub header: Option<String>,
    /// The text to append, or nothing when the whole segment repeated the last one.
    pub entry: Option<String>,
    /// The segment's text once the repeated words are removed.
    pub text: String,
}

/// Decides what goes into the daily transcript files: which file, when a header
/// and a minute heading are due, and which words repeat the previous segment.
pub struct MarkdownWriter {
    timestamps: bool,
    current_date: Option<CivilDate>,
    last_time: Option<String>,
    last_trailing_words: Vec<String>,
}

impl MarkdownWriter {
    pub closed spec fn stamps(&self) -> bool {
        self.timestamps
    }

    pub closed spec fn date(&self) -> Option<CivilDate> {
        self.current_date
    }

    /// The last minute heading written today.
    pub closed spec fn last_minute(&self) -> Option<Seq<char>> {
        match self.last_time {
            Some(t) => Some(t@),
            None => None,
        }
    }

    /// The lowercase trailing words of the last written segment.
    pub closed spec fn trailing(&self) -> Seq<Seq<char>> {
        views(self.last_trailing_words@)
    }

    /// A writer that has written nothing yet.
    pub fn new(timestamps: bool) -> (r: MarkdownWriter)
        ensures
            r.stamps() == timestamps,
            r.date() is None,
            r.last_minute() is None,
            r.trailing().len() == 0,
    {
        MarkdownWriter {
            timestamps,
            current_date: None,
            last_time: None,
            last_trailing_words: Vec::new(),
        }
    }

    /// A writer that remembers `words` as the trailing words of the last segment.
    pub fn with_trailing_words(timestamps: bool, words: Vec<String>) -> (r: MarkdownWriter)
        ensures
            r.stamps() == timestamps,
            r.date() is None,
            r.last_minute() is None,
            r.trailing() == views(words@),
    {
        MarkdownWriter { timestamps, current_date: None, last_time: None, last_trailing_words: words }
    }

    /// The trailing words remembered from the last segment.
    pub fn trailing_words(&self) -> (r: &Vec<String>)
        ensures
            views(r@) == self.trailing(),
    {
        &self.last_trailing_words
    }

    /// `text` without the leading words that repeat the last segment.
    pub fn deduplicate_overlap(&self, text: &str) -> (r: String)
        ensures
            r@ == deduplicated(self.trailing(), text@),
    {
        deduplicate_overlap(&self.last_trailing_words, text)
    }

    /// Plan the writing of a segment with text `text`, optionally tagged with a
    /// speaker, stamped at local date `date` and time `hour:minute`.
    pub fn plan_segment(
        &mut self,
        date: CivilDate,
        hour: u32,
        minute: u32,
        text: &str,
        speaker: Option<&str>,
    ) -> (r: SegmentPlan)
        requires
            date.valid(),
            hour < 24,
            minute < 60,
        ensures
            ({
                let new_day = old(self).date() != Some(date);
                let trailing = if new_day {
                    Seq::<Seq<char>>::empty()
                } else {
                    old(self).trailing()
                };
                let last = if new_day {
                    None
                } else {
                    old(self).last_minute()
                };
                let t = deduplicated(trailing, text@);
                let label = minute_label(hour as nat, minute as nat);
                let heading_due = old(self).stamps() && last != Some(label);
                let spk = match speaker {
                    Some(s) => Some(s@),
                    None => None,
                };
                &&& r.file_name@ == day_file_name(date)
                &&& (new_day ==> (r.header matches Some(h) && h@ == day_header(date)))
                &&& (!new_day ==> r.header is None)
                &&& r.text@ == t
                &&& final(self).date() == Some(date)
                &&& final(self).stamps() == old(self).stamps()
                &&& final(self).trailing() == trailing
                &&& (t.len() == 0 ==> r.entry is None && final(self).last_minute() == last)
                &&& (t.len() > 0 ==> (r.entry matches Some(e) && e@ == if heading_due {
                    "## "@ + label + "\n\n"@ + segment_line(t, spk)
                } else {
                    segment_line(t, spk)
                }) && final(self).last_minute() == if heading_due {
                    Some(label)
                } else {
                    last
                })
            }),
    {
        let file_name = file_name_for(date);
        let new_day = match self.current_date {
            Some(d) => d != date,
            None => true,
        };
        let mut header = None;
        if new_day {
            self.current_date = Some(date);
            self.last_time = None;
            self.last_trailing_words = Vec::new();
            header = Some(header_for(date));
        }
        let t = deduplicate_overlap(&self.last_trailing_words, text);
        if t.unicode_len() == 0 {
            return SegmentPlan { file_name, header, entry: None, text: t };
        }
        let mut entry = String::new();
        if self.timestamps {
            let label = minute_label_for(hour, minute);
            let due = match &self.last_time {
                Some(l) => !(*l == label),
                None => true,
            };
            if due {
                entry.append("## ");
                entry.append(label.as_str());
                entry.append("\n\n");
                self.last_time = Some(label);
            }
        }
        match speaker {
            Some(name) => {
                entry.append("**");
                entry.append(name);
                entry.append(":** ");
                entry.append(t.as_str());
                entry.append("\n");
            },
            None => {
                entry.append(t.as_str());
                entry.append("\n");
            },
        }
        SegmentPlan { file_name, header, entry: Some(entry), text: t }
    }

    /// Remember the trailing words of a segment once its text is on disk.
    pub fn record_written(&mut self, written: &str)
        ensures
            final(self).trailing() == trailing_words(written@, TRAILING_WORDS as int),
            final(self).date() == old(self).date(),
            final(self).last_minute() == old(self).last_minute(),
            final(self).stamps() == old(self).stamps(),
    {
        self.last_trailing_words = last_words_lowered(written, TRAILING_WORDS);
    }
}

} // verus!
