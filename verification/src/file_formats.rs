//! Which reader opens a file: the readers are tried in an order that depends on the file's
//! extension, and the first one that reads the file wins. Also the valid time of a BUFR message,
//! built from its year, month, day and hour.

use crate::ordering::ValidTime;
use vstd::prelude::*;

verus! {

/// The file formats Sonde reads.
#[derive(Clone, Copy, Debug, PartialEq, Eq, Structural)]
pub enum FileFormat {
    Bufkit,
    Bufr,
    WyomingHtml,
}

/// The order in which the readers are tried for a file with the given extension: Bufkit, BUFR,
/// Wyoming HTML, except that a `bufr` file tries BUFR first (swapping the first two) and an `html`
/// file tries Wyoming HTML first (swapping the first and the last).
pub open spec fn loader_order_spec(extension: Option<Seq<char>>) -> Seq<FileFormat> {
    if extension == Some("bufr"@) {
        seq![FileFormat::Bufr, FileFormat::Bufkit, FileFormat::WyomingHtml]
    } else if extension == Some("html"@) {
        seq![FileFormat::WyomingHtml, FileFormat::Bufr, FileFormat::Bufkit]
    } else {
        seq![FileFormat::Bufkit, FileFormat::Bufr, FileFormat::WyomingHtml]
    }
}

/// Exchanges two entries of `v`.
fn swap_formats(v: &mut Vec<FileFormat>, i: usize, j: usize)
    requires
        i < old(v).len(),
        j < old(v).len(),
    ensures
        final(v)@ == old(v)@.update(i as int, old(v)@[j as int]).update(j as int, old(v)@[i as int]),
{
    let a = v[i];
    let b = v[j];
    v.set(i, b);
    v.set(j, a);
}

/// The order in which the readers are tried for a file with the given extension.
pub fn loader_order(extension: Option<&str>) -> (order: Vec<FileFormat>)
    ensures
        order@.len() == 3,
        order@.contains(FileFormat::Bufkit) && order@.contains(FileFormat::Bufr) && order@.contains(
            FileFormat::WyomingHtml,
        ),
        order@[0] == (match extension {
            Some(e) => if e@ == "bufr"@ {
                FileFormat::Bufr
            } else if e@ == "html"@ {
                FileFormat::WyomingHtml
            } else {
                FileFormat::Bufkit
            },
            None => FileFormat::Bufkit,
        }),
        order@ == loader_order_spec(
            match extension {
                Some(e) => Some(e@),
                None => None,
            },
        ),
{
    let mut load_fns = vec![FileFormat::Bufkit, FileFormat::Bufr, FileFormat::WyomingHtml];
    let is_bufr = match extension {
        Some(e) => crate::config::str_equal(e, "bufr"),
        None => false,
    };
    if is_bufr {
        // Try the bufr loader first.
        swap_formats(&mut load_fns, 0, 1);
    }
    let is_html = match extension {
        Some(e) => crate::config::str_equal(e, "html"),
        None => false,
    };
    if is_html {
        // Try the wyoming text list loader first.
        swap_formats(&mut load_fns, 0, 2);
    }
    proof {
        reveal_strlit("bufr");
        reveal_strlit("html");
        assert("bufr"@[0] != "html"@[0]);
    }
    assert(load_fns@ =~= loader_order_spec(
        match extension {
            Some(e) => Some(e@),
            None => None,
        },
    ));
    load_fns
}

/// What the caller does next while opening a file.
#[derive(Clone, Copy, Debug, PartialEq, Eq, Structural)]
pub enum LoadStep {
    /// Try to read the file as this format, then report the outcome.
    Try(FileFormat),
    /// The file was read as this format.
    Loaded(FileFormat),
    /// No reader could read the file.
    NoMatchingFileType,
}

/// Opening one file: the readers of `order` are tried one after the other until one succeeds.
pub struct FileLoader {
    order: Vec<FileFormat>,
    tried: usize,
    loaded: bool,
}

impl FileLoader {
    /// The readers to try, in order.
    pub closed spec fn order(&self) -> Seq<FileFormat> {
        self.order@
    }

    /// How many readers have failed so far.
    pub closed spec fn failed(&self) -> nat {
        self.tried as nat
    }

    /// Has a reader succeeded?
    pub closed spec fn succeeded(&self) -> bool {
        self.loaded
    }

    /// The step the caller takes in this state.
    pub open spec fn step_spec(&self) -> LoadStep {
        if self.succeeded() {
            LoadStep::Loaded(self.order()[self.failed() as int])
        } else if self.failed() < self.order().len() {
            LoadStep::Try(self.order()[self.failed() as int])
        } else {
            LoadStep::NoMatchingFileType
        }
    }

    pub closed spec fn wf(&self) -> bool {
        &&& self.tried <= self.order@.len()
        &&& self.loaded ==> self.tried < self.order@.len()
    }

    /// Starts opening a file with the given extension: nothing tried yet.
    pub fn new(extension: Option<&str>) -> (l: Self)
        ensures
            l.wf(),
            l.order() == loader_order_spec(
                match extension {
                    Some(e) => Some(e@),
                    None => None,
                },
            ),
            l.failed() == 0,
            !l.succeeded(),
    {
        FileLoader { order: loader_order(extension), tried: 0, loaded: false }
    }

    /// What to do now.
    pub fn next_step(&self) -> (s: LoadStep)
        requires
            self.wf(),
        ensures
            s == self.step_spec(),
    {
        if self.loaded {
            LoadStep::Loaded(self.order[self.tried])
        } else if self.tried < self.order.len() {
            LoadStep::Try(self.order[self.tried])
        } else {
            LoadStep::NoMatchingFileType
        }
    }

    /// Reports whether the reader of the last `Try` read the file, and says what to do next: a
    /// success ends the search with that format, a failure moves on to the next reader, and when
    /// none is left the file has no matching type.
    pub fn report(&mut self, read_ok: bool) -> (s: LoadStep)
        requires
            old(self).wf(),
            old(self).step_spec() is Try,
        ensures
            final(self).wf(),
            final(self).order() == old(self).order(),
            read_ok ==> final(self).succeeded() && final(self).failed() == old(self).failed(),
            !read_ok ==> !final(self).succeeded() && final(self).failed() == old(self).failed() + 1,
            s == final(self).step_spec(),
    {
        if read_ok {
            self.loaded = true;
        } else if self.tried < self.order.len() {
            self.tried = self.tried + 1;
        }
        self.next_step()
    }
}

/// A file is read as the first format of `order` that `reads` accepts; with none, the file has
/// no matching type. Reporting the outcomes of `reads` one by one to a `FileLoader` ends in this
/// step.
pub open spec fn load_outcome(order: Seq<FileFormat>, reads: spec_fn(FileFormat) -> bool) -> LoadStep
    decreases order.len(),
{
    if order.len() == 0 {
        LoadStep::NoMatchingFileType
    } else if reads(order[0]) {
        LoadStep::Loaded(order[0])
    } else {
        load_outcome(order.drop_first(), reads)
    }
}

/// A `FileLoader` that has seen `k` failures, each reported from `reads`, is on its way to
/// `load_outcome`: when all readers failed the file has no matching type, and when the next reader
/// succeeds the file is loaded with it. So the first reader that accepts the file wins, and the
/// file is refused only when every reader fails.
pub proof fn lemma_first_successful_reader_wins(order: Seq<FileFormat>, reads: spec_fn(FileFormat) -> bool, k: nat)
    requires
        k <= order.len(),
        forall|i: int| 0 <= i < k ==> !reads(#[trigger] order[i]),
    ensures
        load_outcome(order, reads) == load_outcome(order.skip(k as int), reads),
        k == order.len() ==> load_outcome(order, reads) == LoadStep::NoMatchingFileType,
        k < order.len() && reads(order[k as int]) ==> load_outcome(order, reads) == LoadStep::Loaded(order[k as int]),
    decreases k,
{
    if k == 0 {
        assert(order.skip(0) =~= order);
    } else {
        assert(!reads(order[0]));
        assert(order.drop_first().skip((k - 1) as int) =~= order.skip(k as int));
        assert forall|i: int| 0 <= i < k - 1 implies !reads(#[trigger] order.drop_first()[i]) by {
            assert(order.drop_first()[i] == order[i + 1]);
        }
        lemma_first_successful_reader_wins(order.drop_first(), reads, (k - 1) as nat);
        assert(load_outcome(order, reads) == load_outcome(order.drop_first(), reads));
    }
    if k < order.len() {
        assert(order.skip(k as int)[0] == order[k as int]);
    }
}

/// Lowest year a calendar date can have.
pub const MIN_YEAR: i32 = -262143;
/// Highest year a calendar date can have.
pub const MAX_YEAR: i32 = 262142;

/// Leap year of the proleptic Gregorian calendar.
pub open spec fn is_leap_year(y: int) -> bool {
    y % 4 == 0 && (y % 100 != 0 || y % 400 == 0)
}

/// Number of days of month `m` (1 to 12) of year `y`.
pub open spec fn days_in_month(y: int, m: int) -> int {
    if m == 2 {
        if is_leap_year(y) {
            29
        } else {
            28
        }
    } else if m == 4 || m == 6 || m == 9 || m == 11 {
        30
    } else {
        31
    }
}

/// The calendar date exists and its year is in the range a date can hold.
pub open spec fn valid_date(y: i32, m: u32, d: u32) -> bool {
    &&& MIN_YEAR <= y <= MAX_YEAR
    &&& 1 <= m <= 12
    &&& 1 <= d <= days_in_month(y as int, m as int)
}

/// Number of days from 1970-01-01 to the date `y-m-d` of the proleptic Gregorian calendar
/// (negative before it). Years are counted from March, so that the leap day ends a year, in eras
/// of 400 years of 146097 days each.
pub open spec fn days_from_civil(y: int, m: int, d: int) -> int {
    let yy = if m <= 2 {
        y - 1
    } else {
        y
    };
    let era = yy / 400;
    let year_of_era = yy - era * 400;
    let month_from_march = if m > 2 {
        m - 3
    } else {
        m + 9
    };
    let day_of_year = (153 * month_from_march + 2) / 5 + d - 1;
    let day_of_era = year_of_era * 365 + year_of_era / 4 - year_of_era / 100 + day_of_year;
    era * 146097 + day_of_era - 719468
}

/// Seconds since the Unix epoch of hour `h` of the date `y-m-d`, the date and time taken as UTC.
pub open spec fn ymdh_timestamp(y: int, m: int, d: int, h: int) -> int {
    days_from_civil(y, m, d) * 86400 + h * 3600
}

/// Days from the start of the March-based year `yy` (March 1 of `yy`, January and February
/// counted at the end) to its day `doy`, counted as `days_from_civil` does.
spec fn march_days(yy: int, doy: int) -> int {
    let era = yy / 400;
    let year_of_era = yy - era * 400;
    era * 146097 + year_of_era * 365 + year_of_era / 4 - year_of_era / 100 + doy - 719468
}

/// A March-based year `yy` has 366 days when the February at its end (in `yy + 1`) has a leap day.
proof fn lemma_march_year_length(yy: int)
    ensures
        march_days(yy + 1, 0) == march_days(yy, 0) + 365 + (if is_leap_year(yy + 1) {
            1int
        } else {
            0int
        }),
{
    let q = yy / 400;
    let r = yy - q * 400;
    assert(0 <= r < 400);
    if r < 399 {
        assert((yy + 1) / 400 == q);
        let r1 = r + 1;
        assert((yy + 1) % 4 == r1 % 4);
        assert((yy + 1) % 100 == r1 % 100);
        assert((yy + 1) % 400 == r1);
        assert(r1 / 4 - r / 4 == (if r1 % 4 == 0 { 1int } else { 0int }));
        assert(r1 / 100 - r / 100 == (if r1 % 100 == 0 { 1int } else { 0int }));
    } else {
        assert((yy + 1) / 400 == q + 1);
        assert((yy + 1) % 400 == 0);
    }
}

/// `days_from_civil` counts days: 1970-01-01 is day 0 and each date is one day after the one
/// before it in the calendar (months of `days_in_month` days, leap years by `is_leap_year`). So
/// it is the number of days since 1970-01-01, before or after.
pub proof fn lemma_days_from_civil_counts_days(y: int, m: int, d: int)
    requires
        1 <= m <= 12,
        1 <= d <= days_in_month(y, m),
    ensures
        days_from_civil(1970, 1, 1) == 0,
        d < days_in_month(y, m) ==> days_from_civil(y, m, d + 1) == days_from_civil(y, m, d) + 1,
        d == days_in_month(y, m) && m < 12 ==> days_from_civil(y, m + 1, 1) == days_from_civil(y, m, d) + 1,
        d == days_in_month(y, m) && m == 12 ==> days_from_civil(y + 1, 1, 1) == days_from_civil(y, m, d) + 1,
{
    assert(days_from_civil(1970, 1, 1) == 0);
    if m == 2 {
        lemma_march_year_length(y - 1);
        assert(days_from_civil(y, m, d) == march_days(y - 1, 337 + d - 1));
        assert(days_from_civil(y, 3, 1) == march_days(y, 0));
        assert(march_days(y - 1, 337 + d - 1) == march_days(y - 1, 0) + 336 + d);
    }
}

/// Makes the date `y-m-d` at hour `h` (`chrono::NaiveDate::from_ymd(y, m, d).and_hms(h, 0, 0)`)
/// and returns its Unix timestamp and subsecond nanoseconds. The contract claims that both calls
/// succeed on an existing date and an hour below 24 (they panic otherwise), that the seconds are
/// the number of days since 1970-01-01 of the proleptic Gregorian calendar times 86400 plus the
/// hour's seconds (chrono counts a naive date and time as UTC and has no leap seconds at whole
/// hours), and that there are no subsecond nanoseconds, since the time is made from whole hours.
#[verifier::external_body]
fn date_hour_timestamp(y: i32, m: u32, d: u32, h: u32) -> (t: ValidTime)
    requires
        valid_date(y, m, d),
        h < 24,
    ensures
        t.secs == ymdh_timestamp(y as int, m as int, d as int, h as int),
        t.nanos == 0,
{
    #[allow(deprecated)]
    let dt = chrono::NaiveDate::from_ymd(y, m, d).and_hms(h, 0, 0);
    #[allow(deprecated)]
    ValidTime { secs: dt.timestamp(), nanos: dt.timestamp_subsec_nanos() }
}

/// Year, month, day and hour read from a message, each converted the way the reader converts
/// them: the year to `i32`, the others to `u32`, keeping the low bits.
pub open spec fn message_date(year: i64, month: i64, day: i64, hour: i64) -> (i32, u32, u32, u32) {
    (year as i32, month as u32, day as u32, hour as u32)
}

/// The valid time of a BUFR message from its year, month, day and hour: present only when all
/// four are present, and then the timestamp of that date and hour. The date must exist once
/// converted (the reader panics otherwise).
pub fn bufr_valid_time(year: Option<i64>, month: Option<i64>, day: Option<i64>, hour: Option<i64>) -> (vt: Option<ValidTime>)
    requires
        year.is_some() && month.is_some() && day.is_some() && hour.is_some() ==> {
            let (y, m, d, h) = message_date(year->0, month->0, day->0, hour->0);
            valid_date(y, m, d) && h < 24
        },
    ensures
        vt.is_some() == (year.is_some() && month.is_some() && day.is_some() && hour.is_some()),
        vt.is_some() ==> {
            let (y, m, d, h) = message_date(year->0, month->0, day->0, hour->0);
            vt->0.secs == ymdh_timestamp(y as int, m as int, d as int, h as int) && vt->0.nanos == 0
        },
{
    match (year, month, day, hour) {
        (Some(y), Some(m), Some(d), Some(h)) => {
            let y = y as i32;
            let m = m as u32;
            let d = d as u32;
            let h = h as u32;
            Some(date_hour_timestamp(y, m, d, h))
        },
        _ => None,
    }
}

} // verus!
