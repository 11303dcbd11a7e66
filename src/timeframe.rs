use vstd::prelude::*;

use std::fmt::Write;

use vstd::relations::*;

use crate::error::ReportError;

verus! {

/// A point in time: seconds since the Unix epoch (UTC) and the nanoseconds
/// past that second.
#[derive(Clone, Copy, Debug, PartialEq, Eq, Structural)]
pub struct Instant {
    pub seconds: i64,
    pub nanos: u32,
}

impl Instant {
    /// The instant as a count of nanoseconds since the epoch.
    pub open spec fn ns(self) -> int {
        self.seconds * 1_000_000_000 + self.nanos
    }

    /// The same count, computed.
    pub fn total_nanos(&self) -> (r: i128)
        ensures
            r == self.ns(),
    {
        (self.seconds as i128) * 1_000_000_000i128 + (self.nanos as i128)
    }

    pub fn is_later_than(&self, other: &Instant) -> (r: bool)
        ensures
            r == (self.ns() > other.ns()),
    {
        self.total_nanos() > other.total_nanos()
    }
}


/// Which instant a date-based timeframe stands for.
#[derive(Clone, Debug)]
pub enum DateKind {
    Absolute(Instant),
    Today,
}

/// Which release a release-based timeframe stands for.
#[derive(Clone, Debug)]
pub enum ReleaseKind {
    Latest,
    Absolute(String),
    RelativeFromLast(u8),
}

/// A resolvable point in time: an absolute date, now, or a release.
#[derive(Clone, Debug)]
pub enum Timeframe {
    Release(ReleaseKind),
    Date(DateKind),
}

/// The mathematical value of a timeframe.
pub enum TimeframeView {
    Latest,
    Tag(Seq<char>),
    FromLast(nat),
    Today,
    At(Instant),
}

impl View for Timeframe {
    type V = TimeframeView;

    open spec fn view(&self) -> TimeframeView {
        match self {
            Timeframe::Release(ReleaseKind::Latest) => TimeframeView::Latest,
            Timeframe::Release(ReleaseKind::Absolute(tag)) => TimeframeView::Tag(tag@),
            Timeframe::Release(ReleaseKind::RelativeFromLast(n)) => TimeframeView::FromLast(*n as nat),
            Timeframe::Date(DateKind::Today) => TimeframeView::Today,
            Timeframe::Date(DateKind::Absolute(t)) => TimeframeView::At(*t),
        }
    }
}

impl Timeframe {
    /// A copy of the timeframe.
    pub fn duplicate(&self) -> (r: Timeframe)
        ensures
            r@ == self@,
    {
        match self {
            Timeframe::Release(ReleaseKind::Latest) => Timeframe::Release(ReleaseKind::Latest),
            Timeframe::Release(ReleaseKind::Absolute(tag)) => Timeframe::Release(ReleaseKind::Absolute(tag.clone())),
            Timeframe::Release(ReleaseKind::RelativeFromLast(n)) => Timeframe::Release(ReleaseKind::RelativeFromLast(*n)),
            Timeframe::Date(DateKind::Today) => Timeframe::Date(DateKind::Today),
            Timeframe::Date(DateKind::Absolute(t)) => Timeframe::Date(DateKind::Absolute(*t)),
        }
    }
}

impl std::str::FromStr for Timeframe {
    type Err = ReportError;

    fn from_str(s: &str) -> Result<Timeframe, ReportError> {
        parse_timeframe(s)
    }
}

pub open spec fn is_digit(c: char) -> bool {
    '0' <= c && c <= '9'
}

pub open spec fn all_digits(d: Seq<char>) -> bool {
    forall|i: int| 0 <= i < d.len() ==> is_digit(#[trigger] d[i])
}

/// The decimal value of a string of digits.
pub open spec fn digits_value(d: Seq<char>) -> nat
    decreases d.len(),
{
    if d.len() == 0 {
        0
    } else {
        digits_value(d.drop_last()) * 10 + ((d.last() as int - '0' as int) as nat)
    }
}

pub open spec fn is_blank(c: char) -> bool {
    c == ' ' || c == '\t' || c == '\n' || c == '\r' || c == '\x0b' || c == '\x0c'
}

pub open spec fn has_prefix(s: Seq<char>, p: Seq<char>) -> bool {
    p.len() <= s.len() && s.subrange(0, p.len() as int) == p
}

/// What follows `release:`: `latest`, `latest-N` with N a count that fits a
/// byte, or a tag without blanks. `None` for anything else.
pub open spec fn release_form(rest: Seq<char>) -> Option<TimeframeView> {
    let count = rest.subrange("latest-"@.len() as int, rest.len() as int);
    if rest == "latest"@ {
        Some(TimeframeView::Latest)
    } else if has_prefix(rest, "latest-"@) && count.len() > 0 && all_digits(count) {
        if digits_value(count) <= 255 {
            Some(TimeframeView::FromLast(digits_value(count)))
        } else {
            None
        }
    } else if rest.len() > 0 && forall|i: int| 0 <= i < rest.len() ==> !is_blank(#[trigger] rest[i]) {
        Some(TimeframeView::Tag(rest))
    } else {
        None
    }
}

/// The timeframe grammar, given what the timestamp reader and the calendar
/// date reader make of the same text. Earlier forms win.
pub open spec fn timeframe_form(
    s: Seq<char>,
    timestamp: Option<Instant>,
    date: Option<Instant>,
) -> Option<TimeframeView> {
    if timestamp is Some {
        Some(TimeframeView::At(timestamp->Some_0))
    } else if date is Some {
        Some(TimeframeView::At(date->Some_0))
    } else if s == "today"@ {
        Some(TimeframeView::Today)
    } else if has_prefix(s, "release:"@) {
        release_form(s.subrange("release:"@.len() as int, s.len() as int))
    } else {
        None
    }
}

/// `release:latest-N`, for a run of digits N that neither chrono reader
/// takes, reads as `N` releases back when N fits a byte, and is rejected
/// otherwise; the count is never altered.
pub proof fn lemma_relative_release(d: Seq<char>)
    requires
        d.len() > 0,
        all_digits(d),
    ensures
        timeframe_form("release:latest-"@ + d, None, None) == (if digits_value(d) <= 255 {
            Some(TimeframeView::FromLast(digits_value(d)))
        } else {
            None
        }),
{
    reveal_strlit("release:latest-");
    reveal_strlit("release:");
    reveal_strlit("latest-");
    reveal_strlit("latest");
    reveal_strlit("today");
    let s = "release:latest-"@ + d;
    assert(s.subrange(0, 8) =~= "release:"@);
    let rest = s.subrange(8, s.len() as int);
    assert(rest =~= "latest-"@ + d);
    assert(rest.subrange(0, 7) =~= "latest-"@);
    assert(rest.subrange(7, rest.len() as int) =~= d);
    assert(rest != "latest"@) by {
        assert(rest.len() != "latest"@.len());
    }
    assert(s != "today"@) by {
        assert(s.len() != "today"@.len());
    }
}

/// The timeframe that a text denotes.
pub open spec fn timeframe_of(s: Seq<char>) -> Option<TimeframeView> {
    timeframe_form(s, rfc3339_instant(s), calendar_midnight(s))
}

/// What chrono reads from an RFC 3339 timestamp, as an instant.
pub uninterp spec fn rfc3339_instant(s: Seq<char>) -> Option<Instant>;

/// What chrono reads from a `YYYY-MM-DD` date, at midnight UTC.
pub uninterp spec fn calendar_midnight(s: Seq<char>) -> Option<Instant>;

/// Relies on chrono's `FromStr` for `DateTime<Utc>` (RFC 3339 and its relaxed
/// forms): the instant read, or `None` when the text is not a timestamp.
#[verifier::external_body]
fn read_timestamp(s: &str) -> (r: Option<Instant>)
    ensures
        r == rfc3339_instant(s@),
{
    match s.parse::<chrono::DateTime<chrono::Utc>>() {
        Ok(t) => Some(Instant { seconds: t.timestamp(), nanos: t.timestamp_subsec_nanos() }),
        Err(_) => None,
    }
}

/// Relies on chrono's `FromStr` for `NaiveDate`: the date read, taken at
/// midnight UTC, or `None` when the text is not a date.
#[verifier::external_body]
fn read_calendar_date(s: &str) -> (r: Option<Instant>)
    ensures
        r == calendar_midnight(s@),
{
    match s.parse::<chrono::NaiveDate>() {
        Ok(d) => Some(Instant { seconds: d.and_time(chrono::NaiveTime::MIN).and_utc().timestamp(), nanos: 0 }),
        Err(_) => None,
    }
}

/// Whether `s` starts with `p`.
pub fn starts_with(s: &str, p: &str) -> (r: bool)
    ensures
        r == has_prefix(s@, p@),
{
    let n = s.unicode_len();
    let m = p.unicode_len();
    if m > n {
        return false;
    }
    let mut i: usize = 0;
    while i < m
        invariant
            m == p@.len(),
            n == s@.len(),
            m <= n,
            i <= m,
            forall|j: int| 0 <= j < i ==> s@[j] == p@[j],
        decreases m - i,
    {
        if s.get_char(i) != p.get_char(i) {
            assert(s@.subrange(0, m as int)[i as int] != p@[i as int]);
            return false;
        }
        i = i + 1;
    }
    assert(s@.subrange(0, m as int) =~= p@);
    true
}

/// Whether two texts are equal.
pub fn same_text(a: &str, b: &str) -> (r: bool)
    ensures
        r == (a@ == b@),
{
    if a.unicode_len() != b.unicode_len() {
        return false;
    }
    let r = starts_with(a, b);
    proof {
        assert(a@.len() == b@.len() ==> a@ =~= a@.subrange(0, b@.len() as int));
    }
    r
}

proof fn lemma_digits_step(d: Seq<char>, i: int)
    requires
        0 <= i < d.len(),
    ensures
        d.subrange(0, i + 1).drop_last() == d.subrange(0, i),
        d.subrange(0, i + 1).last() == d[i],
{
    assert(d.subrange(0, i + 1).drop_last() =~= d.subrange(0, i));
}

/// The count written by `d` when it is a non-empty run of digits whose value
/// fits a byte.
pub fn read_count(d: &str) -> (r: Option<u8>)
    ensures
        r == (if d@.len() > 0 && all_digits(d@) && digits_value(d@) <= 255 {
            Some(digits_value(d@) as u8)
        } else {
            None
        }),
{
    let n = d.unicode_len();
    if n == 0 {
        return None;
    }
    let mut acc: u32 = 0;
    let mut big = false;
    let mut i: usize = 0;
    while i < n
        invariant
            n == d@.len(),
            i <= n,
            all_digits(d@.subrange(0, i as int)),
            big ==> digits_value(d@.subrange(0, i as int)) > 255,
            !big ==> acc == digits_value(d@.subrange(0, i as int)) && acc <= 255,
        decreases n - i,
    {
        let c = d.get_char(i);
        proof {
            lemma_digits_step(d@, i as int);
        }
        if !('0' <= c && c <= '9') {
            assert(!all_digits(d@));
            return None;
        }
        let v: u32 = (c as u32) - ('0' as u32);
        if !big {
            acc = acc * 10 + v;
            if acc > 255 {
                big = true;
            }
        }
        assert(all_digits(d@.subrange(0, i + 1))) by {
            assert forall|j: int| 0 <= j < i + 1 implies is_digit(#[trigger] d@.subrange(0, i + 1)[j]) by {
                if j < i {
                    assert(d@.subrange(0, i + 1)[j] == d@.subrange(0, i as int)[j]);
                }
            }
        }
        i = i + 1;
    }
    assert(d@.subrange(0, n as int) =~= d@);
    if big {
        None
    } else {
        Some(acc as u8)
    }
}


/// Whether `d` is a non-empty run of digits.
pub fn is_digit_run(d: &str) -> (r: bool)
    ensures
        r == (d@.len() > 0 && all_digits(d@)),
{
    let n = d.unicode_len();
    let mut i: usize = 0;
    while i < n
        invariant
            n == d@.len(),
            i <= n,
            forall|j: int| 0 <= j < i ==> is_digit(#[trigger] d@[j]),
        decreases n - i,
    {
        let c = d.get_char(i);
        if !('0' <= c && c <= '9') {
            return false;
        }
        i = i + 1;
    }
    n > 0
}

/// Whether `d` is non-empty and holds no blank.
pub fn is_word(d: &str) -> (r: bool)
    ensures
        r == (d@.len() > 0 && forall|i: int| 0 <= i < d@.len() ==> !is_blank(#[trigger] d@[i])),
{
    let n = d.unicode_len();
    let mut i: usize = 0;
    while i < n
        invariant
            n == d@.len(),
            i <= n,
            forall|j: int| 0 <= j < i ==> !is_blank(#[trigger] d@[j]),
        decreases n - i,
    {
        let c = d.get_char(i);
        if c == ' ' || c == '\t' || c == '\n' || c == '\r' || c == '\x0b' || c == '\x0c' {
            return false;
        }
        i = i + 1;
    }
    n > 0
}

fn invalid_timeframe(s: &str) -> (r: ReportError)
    ensures
        r matches ReportError::InvalidTimeframe { text } && text@ == s@,
{
    ReportError::InvalidTimeframe { text: String::from_str(s) }
}

/// Reads a timeframe from its text, given what the timestamp reader and the
/// calendar date reader made of that same text.
pub fn parse_timeframe_with(s: &str, timestamp: Option<Instant>, date: Option<Instant>) -> (r: Result<
    Timeframe,
    ReportError,
>)
    ensures
        match timeframe_form(s@, timestamp, date) {
            Some(v) => r is Ok && r->Ok_0@ == v,
            None => r matches Err(ReportError::InvalidTimeframe { text }) && text@ == s@,
        },
{
    if let Some(t) = timestamp {
        return Ok(Timeframe::Date(DateKind::Absolute(t)));
    }
    if let Some(t) = date {
        return Ok(Timeframe::Date(DateKind::Absolute(t)));
    }
    if same_text(s, "today") {
        return Ok(Timeframe::Date(DateKind::Today));
    }
    if !starts_with(s, "release:") {
        return Err(invalid_timeframe(s));
    }
    proof {
        reveal_strlit("release:");
        reveal_strlit("latest-");
    }
    let n = s.unicode_len();
    let rest = s.substring_char(8, n);
    if same_text(rest, "latest") {
        return Ok(Timeframe::Release(ReleaseKind::Latest));
    }
    if starts_with(rest, "latest-") {
        let m = rest.unicode_len();
        let count = rest.substring_char(7, m);
        if is_digit_run(count) {
            return match read_count(count) {
                Some(k) => Ok(Timeframe::Release(ReleaseKind::RelativeFromLast(k))),
                None => Err(invalid_timeframe(s)),
            };
        }
    }
    if is_word(rest) {
        Ok(Timeframe::Release(ReleaseKind::Absolute(String::from_str(rest))))
    } else {
        Err(invalid_timeframe(s))
    }
}

/// Reads a timeframe from its text. Forms, earliest first: an RFC 3339
/// timestamp, a `YYYY-MM-DD` date (midnight UTC), `today`, `release:latest`,
/// `release:latest-N`, `release:<tag>`.
pub fn parse_timeframe(s: &str) -> (r: Result<Timeframe, ReportError>)
    ensures
        match timeframe_of(s@) {
            Some(v) => r is Ok && r->Ok_0@ == v,
            None => r matches Err(ReportError::InvalidTimeframe { text }) && text@ == s@,
        },
{
    let timestamp = read_timestamp(s);
    let date = read_calendar_date(s);
    parse_timeframe_with(s, timestamp, date)
}


/// Newest first: the order on instant counts that releases are ranked by.
pub open spec fn newer_or_same(a: int, b: int) -> bool {
    a >= b
}

/// The creation instants, as counts, ranked newest first.
pub open spec fn ranked(created: Seq<Instant>) -> Seq<int> {
    created.map_values(|t: Instant| t.ns()).sort_by(|a: int, b: int| newer_or_same(a, b))
}

proof fn lemma_newer_or_same_total()
    ensures
        total_ordering(|a: int, b: int| newer_or_same(a, b)),
{
}

/// Orders two counts newest first, for sorting.
fn newer_first(a: &i128, b: &i128) -> (r: core::cmp::Ordering)
    ensures
        (r == core::cmp::Ordering::Less) == (*a > *b),
        (r == core::cmp::Ordering::Equal) == (*a == *b),
        (r == core::cmp::Ordering::Greater) == (*a < *b),
{
    if *a > *b {
        core::cmp::Ordering::Less
    } else if *a == *b {
        core::cmp::Ordering::Equal
    } else {
        core::cmp::Ordering::Greater
    }
}

/// Relies on `slice::sort_unstable_by`: with a comparator that is a total
/// order, the slice ends up a permutation of itself, sorted by it.
#[verifier::external_body]
fn sort_newest_first(v: &mut Vec<i128>)
    ensures
        final(v)@.map_values(|k: i128| k as int).to_multiset() == old(v)@.map_values(
            |k: i128| k as int,
        ).to_multiset(),
        sorted_by(final(v)@.map_values(|k: i128| k as int), |a: int, b: int| newer_or_same(a, b)),
{
    v.sort_unstable_by(|a, b| newer_first(a, b));
}

/// The creation instant of the release that stands `n` places behind the
/// newest one (0 = the newest), or an error that gives the count asked for
/// and the count found when there are not that many releases.
pub fn nth_latest(created: &Vec<Instant>, n: u8) -> (r: Result<Instant, ReportError>)
    ensures
        (n as int) < created@.len() ==> r is Ok && created@.contains(r->Ok_0)
            && r->Ok_0.ns() == ranked(created@)[n as int],
        (n as int) >= created@.len() ==> (r matches Err(ReportError::NotEnoughReleases { requested, found })
            && requested == n && found == created@.len()),
{
    let len = created.len();
    if (n as usize) >= len {
        return Err(ReportError::NotEnoughReleases { requested: n, found: len });
    }
    let mut keys: Vec<i128> = Vec::new();
    let mut i: usize = 0;
    while i < len
        invariant
            len == created@.len(),
            i <= len,
            keys@.len() == i,
            forall|j: int| 0 <= j < i ==> #[trigger] keys@[j] == created@[j].ns(),
        decreases len - i,
    {
        keys.push(created[i].total_nanos());
        i = i + 1;
    }
    let ghost unsorted = keys@;
    sort_newest_first(&mut keys);
    proof {
        unsorted.map_values(|k: i128| k as int).to_multiset_ensures();
        keys@.map_values(|k: i128| k as int).to_multiset_ensures();
    }
    let target = keys[n as usize];
    proof {
        let leq = |a: int, b: int| newer_or_same(a, b);
        let counts = created@.map_values(|t: Instant| t.ns());
        let as_ints = |k: i128| k as int;
        lemma_newer_or_same_total();
        assert(unsorted.map_values(as_ints) =~= counts);
        counts.lemma_sort_by_ensures(leq);
        vstd::seq_lib::lemma_sorted_unique(keys@.map_values(as_ints), counts.sort_by(leq), leq);
        assert(keys@.map_values(as_ints)[n as int] == target as int);
        assert(keys@.map_values(as_ints).contains(target as int));
        keys@.map_values(as_ints).to_multiset_ensures();
        counts.to_multiset_ensures();
        assert(counts.contains(target as int));
        let w = choose|w: int| 0 <= w < counts.len() && counts[w] == target as int;
        assert(unsorted[w] == target);
        assert(unsorted.contains(target));
        assert(target as int == ranked(created@)[n as int]);
    }
    let mut k: usize = 0;
    while k < len
        invariant
            len == created@.len(),
            k <= len,
            unsorted.len() == len,
            forall|j: int| 0 <= j < len ==> #[trigger] unsorted[j] == created@[j].ns(),
            unsorted.contains(target),
            (n as int) < len,
            target as int == ranked(created@)[n as int],
            forall|j: int| 0 <= j < k ==> unsorted[j] != target,
        decreases len - k,
    {
        if created[k].total_nanos() == target {
            return Ok(created[k]);
        }
        k = k + 1;
    }
    proof {
        let j = choose|j: int| 0 <= j < unsorted.len() && unsorted[j] == target;
    }
    Err(ReportError::NotEnoughReleases { requested: n, found: len })
}

/// The text that chrono's `format` writes for an instant under a date-format
/// pattern, or `None` where the pattern is malformed or the instant is out of
/// chrono's range.
pub uninterp spec fn strftime_text(t: Instant, pattern: Seq<char>) -> Option<Seq<char>>;

/// Relies on chrono's `DateTime::<Utc>::from_timestamp` and `format`: the
/// rendering of the instant, `None` where either fails.
#[verifier::external_body]
pub(crate) fn format_instant(t: Instant, pattern: &str) -> (r: Option<String>)
    ensures
        match r {
            Some(text) => strftime_text(t, pattern@) == Some(text@),
            None => strftime_text(t, pattern@) is None,
        },
{
    let moment = chrono::DateTime::<chrono::Utc>::from_timestamp(t.seconds, t.nanos)?;
    let mut out = String::new();
    match write!(out, "{}", moment.format(pattern)) {
        Ok(()) => Some(out),
        Err(_) => None,
    }
}

} // verus!
