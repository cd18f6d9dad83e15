//! Relative time: how long ago, or how far ahead, an instant lies, as a label
//! and as a coarse recency category that selects the label's color.

use crate::palette;
use crate::palette::{paint, painted};
use crate::text::{decimal, ends_with, push_decimal, starts_with};
use vstd::prelude::*;
use vstd::string::*;

verus! {

pub const NANOS_PER_SEC: u32 = 1_000_000_000;

pub const MINUTE: u64 = 60;

pub const HOUR: u64 = 3_600;

pub const DAY: u64 = 86_400;

pub const WEEK: u64 = 604_800;

pub const MONTH: u64 = 2_629_746;

pub const YEAR: u64 = 31_557_600;

/// An instant, given by its distance from the Unix epoch and the side of
/// the epoch on which it lies.
#[derive(Clone, Copy, Debug)]
pub struct Timestamp {
    pub before_epoch: bool,
    pub secs: u64,
    pub nanos: u32,
}

impl View for Timestamp {
    type V = int;

    /// The instant in nanoseconds since the Unix epoch; negative before it.
    open spec fn view(&self) -> int {
        if self.before_epoch {
            -(self.secs * NANOS_PER_SEC + self.nanos)
        } else {
            self.secs * NANOS_PER_SEC + self.nanos
        }
    }
}

impl Timestamp {
    /// The instant in nanoseconds since the Unix epoch; negative before it.
    pub fn nanos_since_epoch(&self) -> (n: i128)
        ensures
            n == self@,
    {
        let whole: i128 = self.secs as i128;
        assert(whole * 1_000_000_000 <= 0xffff_ffff_ffff_ffff * 1_000_000_000) by (nonlinear_arith)
            requires
                0 <= whole <= 0xffff_ffff_ffff_ffff,
        ;
        let magnitude: i128 = whole * 1_000_000_000 + self.nanos as i128;
        if self.before_epoch {
            -magnitude
        } else {
            magnitude
        }
    }
}

/// How recent an instant is. The categories of the past are ordered from
/// `JustNow` to `Years`; `Future` and `Unknown` stand apart.
#[derive(Clone, Copy, Debug, PartialEq, Eq, Structural)]
pub enum Recency {
    JustNow,
    Seconds,
    Minutes,
    Hours,
    Days,
    Weeks,
    Months,
    Years,
    Future,
    Unknown,
}

impl Recency {
    /// The position of the category in the order of the enumeration.
    pub open spec fn rank(self) -> int {
        match self {
            Recency::JustNow => 0,
            Recency::Seconds => 1,
            Recency::Minutes => 2,
            Recency::Hours => 3,
            Recency::Days => 4,
            Recency::Weeks => 5,
            Recency::Months => 6,
            Recency::Years => 7,
            Recency::Future => 8,
            Recency::Unknown => 9,
        }
    }
}

/// The category of an instant that lies `secs` whole seconds in the past:
/// the first bucket whose threshold `secs` is below.
pub open spec fn past_recency(secs: nat) -> Recency {
    if secs < 5 {
        Recency::JustNow
    } else if secs < MINUTE {
        Recency::Seconds
    } else if secs < HOUR {
        Recency::Minutes
    } else if secs < DAY {
        Recency::Hours
    } else if secs < WEEK {
        Recency::Days
    } else if secs < MONTH {
        Recency::Weeks
    } else if secs < YEAR {
        Recency::Months
    } else {
        Recency::Years
    }
}

/// `count` followed by `unit`, in the plural unless `count` is 1.
pub open spec fn counted(count: nat, unit: Seq<char>) -> Seq<char> {
    decimal(count) + " "@ + unit + (if count == 1 {
        ""@
    } else {
        "s"@
    })
}

/// `secs` seconds counted in the unit of the bucket they fall in, from
/// seconds up to years. The count is truncated, never rounded.
pub open spec fn past_amount(secs: nat) -> Seq<char> {
    if secs < MINUTE {
        counted(secs, "second"@)
    } else if secs < HOUR {
        counted(secs / (MINUTE as nat), "minute"@)
    } else if secs < DAY {
        counted(secs / (HOUR as nat), "hour"@)
    } else if secs < WEEK {
        counted(secs / (DAY as nat), "day"@)
    } else if secs < MONTH {
        counted(secs / (WEEK as nat), "week"@)
    } else if secs < YEAR {
        counted(secs / (MONTH as nat), "month"@)
    } else {
        counted(secs / (YEAR as nat), "year"@)
    }
}

/// `secs` seconds counted in the largest unit they reach, from seconds up
/// to weeks: the units in which a distance into the future is told.
pub open spec fn future_amount(secs: nat) -> Seq<char> {
    if secs < MINUTE {
        counted(secs, "second"@)
    } else if secs < HOUR {
        counted(secs / (MINUTE as nat), "minute"@)
    } else if secs < DAY {
        counted(secs / (HOUR as nat), "hour"@)
    } else if secs < WEEK {
        counted(secs / (DAY as nat), "day"@)
    } else {
        counted(secs / (WEEK as nat), "week"@)
    }
}

/// The label of an instant that lies `secs` whole seconds in the past.
pub open spec fn past_label(secs: nat) -> Seq<char> {
    if secs < 5 {
        "just now"@
    } else {
        past_amount(secs) + " ago"@
    }
}

/// The label of an instant that lies `secs` whole seconds in the future.
pub open spec fn future_label(secs: nat) -> Seq<char> {
    "in "@ + future_amount(secs)
}

/// The category of an instant that lies `elapsed` nanoseconds before now;
/// a negative `elapsed` is an instant in the future.
pub open spec fn recency_of(elapsed: int) -> Recency {
    if elapsed < 0 {
        Recency::Future
    } else {
        past_recency((elapsed / (NANOS_PER_SEC as int)) as nat)
    }
}

/// The label of an instant that lies `elapsed` nanoseconds before now;
/// a negative `elapsed` is an instant in the future.
pub open spec fn label_of(elapsed: int) -> Seq<char> {
    if elapsed < 0 {
        future_label(((-elapsed) / (NANOS_PER_SEC as int)) as nat)
    } else {
        past_label((elapsed / (NANOS_PER_SEC as int)) as nat)
    }
}

/// The label of a modification time that may be absent, as seen `now`
/// nanoseconds after the epoch.
pub open spec fn modified_label(now: int, modified: Option<Timestamp>) -> Seq<char> {
    match modified {
        Some(ts) => label_of(now - ts@),
        None => "unknown"@,
    }
}

/// The category of a modification time that may be absent, as seen `now`
/// nanoseconds after the epoch.
pub open spec fn modified_recency(now: int, modified: Option<Timestamp>) -> Recency {
    match modified {
        Some(ts) => recency_of(now - ts@),
        None => Recency::Unknown,
    }
}

/// The color in which a label of the given category is shown.
pub open spec fn recency_color(recency: Recency) -> Seq<char> {
    match recency {
        Recency::JustNow | Recency::Seconds => palette::MODIFIED_RECENT@,
        Recency::Minutes => palette::MODIFIED_SOON@,
        Recency::Hours => palette::MODIFIED@,
        Recency::Days => palette::MODIFIED_HOURS@,
        Recency::Weeks => palette::MODIFIED_DAYS@,
        Recency::Months => palette::MODIFIED_WEEKS@,
        Recency::Years => palette::MODIFIED_OLD@,
        Recency::Future => palette::MODIFIED_FUTURE@,
        Recency::Unknown => palette::MODIFIED@,
    }
}

/// The older an instant of the past, the later its category: the category
/// never moves back as the elapsed time grows, and it is one of those from
/// `JustNow` to `Years`. Every label of the past ends in "ago", except that
/// of the category `JustNow`, which is "just now".
pub proof fn lemma_past_buckets_follow_elapsed_time(shorter: int, longer: int)
    requires
        0 <= shorter <= longer,
    ensures
        recency_of(shorter).rank() <= recency_of(longer).rank(),
        recency_of(longer).rank() <= Recency::Years.rank(),
        recency_of(longer) != Recency::JustNow ==> ends_with(label_of(longer), "ago"@),
        recency_of(longer) == Recency::JustNow ==> label_of(longer) == "just now"@,
{
    let unit = NANOS_PER_SEC as int;
    assert(0 <= shorter / unit <= longer / unit) by (nonlinear_arith)
        requires
            0 <= shorter <= longer,
            unit > 0,
    ;
    reveal_strlit(" ago");
    reveal_strlit("ago");
    let secs = (longer / unit) as nat;
    if secs >= 5 {
        let label = past_amount(secs) + " ago"@;
        assert(label.skip(label.len() - 3) =~= "ago"@);
    }
}

/// Every instant of the future has the category `Future` and a label that
/// starts with "in ".
pub proof fn lemma_future_bucket(elapsed: int)
    requires
        elapsed < 0,
    ensures
        recency_of(elapsed) == Recency::Future,
        starts_with(label_of(elapsed), "in "@),
{
    reveal_strlit("in ");
    let ahead = ((-elapsed) / (NANOS_PER_SEC as int)) as nat;
    let label = "in "@ + future_amount(ahead);
    assert(label.take(3) =~= "in "@);
}

fn push_counted(out: &mut String, count: u64, unit: &str)
    ensures
        final(out)@ == old(out)@ + counted(count as nat, unit@),
{
    push_decimal(out, count);
    out.append(" ");
    out.append(unit);
    if count == 1 {
        out.append("");
    } else {
        out.append("s");
    }
    assert(out@ =~= old(out)@ + counted(count as nat, unit@));
}

fn push_past_amount(out: &mut String, secs: u64)
    ensures
        final(out)@ == old(out)@ + past_amount(secs as nat),
{
    if secs < MINUTE {
        push_counted(out, secs, "second");
    } else if secs < HOUR {
        push_counted(out, secs / MINUTE, "minute");
    } else if secs < DAY {
        push_counted(out, secs / HOUR, "hour");
    } else if secs < WEEK {
        push_counted(out, secs / DAY, "day");
    } else if secs < MONTH {
        push_counted(out, secs / WEEK, "week");
    } else if secs < YEAR {
        push_counted(out, secs / MONTH, "month");
    } else {
        push_counted(out, secs / YEAR, "year");
    }
}

fn push_future_amount(out: &mut String, secs: u128)
    requires
        secs < 0x1_0000_0000_0000_0000_0000,
    ensures
        final(out)@ == old(out)@ + future_amount(secs as nat),
{
    if secs < MINUTE as u128 {
        push_counted(out, secs as u64, "second");
    } else if secs < HOUR as u128 {
        push_counted(out, (secs / MINUTE as u128) as u64, "minute");
    } else if secs < DAY as u128 {
        push_counted(out, (secs / HOUR as u128) as u64, "hour");
    } else if secs < WEEK as u128 {
        push_counted(out, (secs / DAY as u128) as u64, "day");
    } else {
        push_counted(out, (secs / WEEK as u128) as u64, "week");
    }
}

fn past_recency_of(secs: u128) -> (recency: Recency)
    ensures
        recency == past_recency(secs as nat),
{
    if secs < 5 {
        Recency::JustNow
    } else if secs < MINUTE as u128 {
        Recency::Seconds
    } else if secs < HOUR as u128 {
        Recency::Minutes
    } else if secs < DAY as u128 {
        Recency::Hours
    } else if secs < WEEK as u128 {
        Recency::Days
    } else if secs < MONTH as u128 {
        Recency::Weeks
    } else if secs < YEAR as u128 {
        Recency::Months
    } else {
        Recency::Years
    }
}

/// The label and the category of the instant `ts` as seen at the instant `now`.
pub fn relative_time_at(now: Timestamp, ts: Timestamp) -> (told: (String, Recency))
    ensures
        told.0@ == label_of(now@ - ts@),
        told.1 == recency_of(now@ - ts@),
{
    let elapsed: i128 = now.nanos_since_epoch() - ts.nanos_since_epoch();
    let mut text = String::new();
    if elapsed < 0 {
        let secs: u128 = ((-elapsed) / NANOS_PER_SEC as i128) as u128;
        push_future_amount(&mut text, secs);
        let mut label = String::from_str("in ");
        label.append(text.as_str());
        assert(text@ =~= future_amount(secs as nat));
        (label, Recency::Future)
    } else {
        let secs: u128 = (elapsed / NANOS_PER_SEC as i128) as u128;
        let recency = past_recency_of(secs);
        if secs < 5 {
            (String::from_str("just now"), recency)
        } else {
            let years: u128 = secs / YEAR as u128;
            if secs < YEAR as u128 {
                push_past_amount(&mut text, secs as u64);
            } else {
                push_counted(&mut text, years as u64, "year");
            }
            assert(text@ =~= past_amount(secs as nat));
            text.append(" ago");
            (text, recency)
        }
    }
}

/// The present instant. The body reads `SystemTime::now` and tells its
/// distance from the Unix epoch, and the side of the epoch, as
/// `SystemTime::duration_since` reports them. Nothing is claimed of the
/// result: the clock may tell any instant.
#[verifier::external_body]
pub(crate) fn current_time() -> (now: Timestamp) {
    match std::time::SystemTime::now().duration_since(std::time::UNIX_EPOCH) {
        Ok(d) => Timestamp { before_epoch: false, secs: d.as_secs(), nanos: d.subsec_nanos() },
        Err(e) => Timestamp {
            before_epoch: true,
            secs: e.duration().as_secs(),
            nanos: e.duration().subsec_nanos(),
        },
    }
}

/// Whether `told` is the label and the category of the instant `ts` as
/// seen at the instant `now`.
pub open spec fn tells_time_at(now: Timestamp, ts: Timestamp, told: (String, Recency)) -> bool {
    told.0@ == label_of(now@ - ts@) && told.1 == recency_of(now@ - ts@)
}

/// The label and the category of the instant `ts` as seen at the moment of
/// the call, whenever that is.
pub fn format_relative_time(ts: Timestamp) -> (told: (String, Recency))
    ensures
        exists|now: Timestamp| tells_time_at(now, ts, told),
{
    let now = current_time();
    let told = relative_time_at(now, ts);
    assert(tells_time_at(now, ts, told));
    told
}

/// Paints the label `text` in the color of its category.
pub fn color_modified(text: &str, recency: Recency) -> (out: String)
    ensures
        out@ == painted(text@, recency_color(recency)),
{
    let color = match recency {
        Recency::JustNow | Recency::Seconds => palette::MODIFIED_RECENT,
        Recency::Minutes => palette::MODIFIED_SOON,
        Recency::Hours => palette::MODIFIED,
        Recency::Days => palette::MODIFIED_HOURS,
        Recency::Weeks => palette::MODIFIED_DAYS,
        Recency::Months => palette::MODIFIED_WEEKS,
        Recency::Years => palette::MODIFIED_OLD,
        Recency::Future => palette::MODIFIED_FUTURE,
        Recency::Unknown => palette::MODIFIED,
    };
    paint(text, color)
}

} // verus!
