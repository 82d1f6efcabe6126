//! Opening hours: the time-of-day grammar of a schedule cell.

use vstd::prelude::*;

use chrono::Timelike;

use crate::error::{Error, ErrorView};
use crate::text::{chars_of, find_text, first_occurrence, same_text, split_on, split_text, views_of};

verus! {

/// The chrono format of a time of day: hour without padding, minutes, and
/// a lower-case meridiem.
pub const CLOCK_FORMAT: &'static str = "%l:%M %P";

/// The separator between the opening and closing time of one interval.
pub const RANGE_SEPARATOR: &'static str = " - ";

/// The separator between the intervals of one day.
pub const LIST_SEPARATOR: &'static str = ", ";

/// The cell text of a day on which the restaurant is closed.
pub const CLOSED: &'static str = "Closed";

/// The hour and minute that chrono reads from `text` under `format`, if it
/// reads a time at all.
pub uninterp spec fn clock_time_of(text: Seq<char>, format: Seq<char>) -> Option<(u32, u32)>;

#[verifier::external_type_specification]
#[verifier::external_body]
pub struct ExChronoParseError(chrono::ParseError);

/// Relies on `chrono::NaiveTime::parse_from_str`: the parsed time depends on
/// the text and the format alone, and its hour and minute are below 24 and
/// 60.
#[verifier::external_body]
fn parse_clock_time(text: &str, format: &str) -> (r: Result<(u32, u32), chrono::ParseError>)
    ensures
        r is Ok <==> clock_time_of(text@, format@) is Some,
        r matches Ok(hm) ==> clock_time_of(text@, format@) == Some(hm),
        r matches Ok(hm) ==> hm.0 < 24 && hm.1 < 60,
{
    chrono::NaiveTime::parse_from_str(text, format).map(|t| (t.hour(), t.minute()))
}

/// A time of day, without time zone.
#[derive(Clone, Copy, Debug, PartialEq, Eq, Structural, Hash, PartialOrd, Ord)]
pub struct TimeOfDay {
    pub hour: u32,
    pub minute: u32,
}

/// One interval during which a restaurant is open.
#[derive(Clone, Copy, Debug, PartialEq, Eq, Structural, Hash, PartialOrd, Ord)]
pub struct Open {
    pub from: TimeOfDay,
    pub to: TimeOfDay,
}

/// The opening hours of one day.
#[derive(Clone, Debug, PartialEq, Eq, Hash, PartialOrd, Ord)]
pub enum Times {
    /// Open during each interval, in the order the upstream site lists them.
    Open(Vec<Open>),
    /// Closed all day.
    Closed,
}

/// The mathematical content of [`Times`].
pub enum TimesView {
    Open(Seq<Open>),
    Closed,
}

impl View for Times {
    type V = TimesView;

    open spec fn view(&self) -> TimesView {
        match self {
            Times::Open(v) => TimesView::Open(v@),
            Times::Closed => TimesView::Closed,
        }
    }
}

impl TimeOfDay {
    /// Hour and minute are within a day.
    pub open spec fn wf(self) -> bool {
        self.hour < 24 && self.minute < 60
    }
}

impl Open {
    pub open spec fn wf(self) -> bool {
        self.from.wf() && self.to.wf()
    }
}

impl Times {
    /// Every interval is made of valid times of day.
    pub open spec fn wf(&self) -> bool {
        match self {
            Times::Open(v) => forall|k: int| 0 <= k < v@.len() ==> (#[trigger] v@[k]).wf(),
            Times::Closed => true,
        }
    }
}

/// The decimal digits, in order.
pub const DIGITS: &'static str = "0123456789";

/// The decimal digit of `d`.
pub open spec fn digit_text(d: nat) -> Seq<char> {
    DIGITS@.subrange(d as int, d as int + 1)
}

/// `n` in decimal without leading zero; `n` is below 100.
pub open spec fn decimal_text(n: nat) -> Seq<char> {
    if n >= 10 {
        digit_text(n / 10) + digit_text(n % 10)
    } else {
        digit_text(n)
    }
}

/// `n` in two decimal digits; `n` is below 100.
pub open spec fn two_digit_text(n: nat) -> Seq<char> {
    digit_text(n / 10) + digit_text(n % 10)
}

/// A time of day on the twelve-hour clock, as the upstream site writes it:
/// "9:05 am", "12:30 pm".
pub open spec fn clock_text(t: TimeOfDay) -> Seq<char> {
    let h = (t.hour % 12) as nat;
    let h12: nat = if h == 0 { 12 } else { h };
    decimal_text(h12) + ":"@ + two_digit_text(t.minute as nat) + (if t.hour < 12 { " am"@ } else { " pm"@ })
}

/// An interval as "from - to".
pub open spec fn open_text(o: Open) -> Seq<char> {
    clock_text(o.from) + RANGE_SEPARATOR@ + clock_text(o.to)
}

/// Intervals joined by ", ".
pub open spec fn opens_text(v: Seq<Open>) -> Seq<char>
    decreases v.len(),
{
    if v.len() == 0 {
        Seq::empty()
    } else if v.len() == 1 {
        open_text(v[0])
    } else {
        opens_text(v.drop_last()) + LIST_SEPARATOR@ + open_text(v.last())
    }
}

/// The opening hours of a day as the upstream site writes them.
pub open spec fn times_text(t: TimesView) -> Seq<char> {
    match t {
        TimesView::Closed => CLOSED@,
        TimesView::Open(v) => opens_text(v),
    }
}

fn digit(d: u32) -> (r: &'static str)
    requires
        d < 10,
    ensures
        r@ == digit_text(d as nat),
{
    proof {
        reveal_strlit("0123456789");
    }
    DIGITS.substring_char(d as usize, d as usize + 1)
}

impl TimeOfDay {
    /// This time on the twelve-hour clock, such as "9:05 am".
    pub fn to_text(&self) -> (r: String)
        requires
            self.wf(),
        ensures
            r@ == clock_text(*self),
    {
        let h = self.hour % 12;
        let h12: u32 = if h == 0 { 12 } else { h };
        let hour = if h12 >= 10 {
            String::from_str(digit(h12 / 10)).concat(digit(h12 % 10))
        } else {
            String::from_str(digit(h12))
        };
        let meridiem = if self.hour < 12 { " am" } else { " pm" };
        hour.concat(":").concat(digit(self.minute / 10)).concat(digit(self.minute % 10)).concat(meridiem)
    }
}

impl Open {
    /// This interval as "from - to".
    pub fn to_text(&self) -> (r: String)
        requires
            self.wf(),
        ensures
            r@ == open_text(*self),
    {
        self.from.to_text().concat(RANGE_SEPARATOR).concat(self.to.to_text().as_str())
    }
}

impl Times {
    /// These opening hours as the upstream site writes them.
    pub fn to_text(&self) -> (r: String)
        requires
            self.wf(),
        ensures
            r@ == times_text(self@),
    {
        match self {
            Times::Closed => String::from_str(CLOSED),
            Times::Open(v) => {
                let mut out = String::new();
                let mut k: usize = 0;
                assert(v@.subrange(0, 0) =~= Seq::<Open>::empty());
                while k < v.len()
                    invariant
                        forall|q: int| 0 <= q < v@.len() ==> (#[trigger] v@[q]).wf(),
                        k <= v.len(),
                        out@ == opens_text(v@.subrange(0, k as int)),
                    decreases v.len() - k,
                {
                    let piece = v[k].to_text();
                    assert(v@.subrange(0, k + 1).drop_last() =~= v@.subrange(0, k as int));
                    if k > 0 {
                        out.append(LIST_SEPARATOR);
                    } else {
                        assert(v@.subrange(0, 1) =~= seq![v@[0]]);
                    }
                    out.append(piece.as_str());
                    k += 1;
                }
                assert(v@.subrange(0, k as int) =~= v@);
                out
            },
        }
    }
}

pub open spec fn is_digit(c: char) -> bool {
    '0' <= c && c <= '9'
}

/// `t` is one or two digits, a space, and "am" or "pm": an hour without
/// minutes.
pub open spec fn is_bare_hour(t: Seq<char>) -> bool {
    let k = t.len() - 3;
    &&& (t.len() == 4 || t.len() == 5)
    &&& forall|i: int| 0 <= i < k ==> is_digit(#[trigger] t[i])
    &&& t[k] == ' '
    &&& (t[k + 1] == 'a' || t[k + 1] == 'p')
    &&& t[k + 2] == 'm'
}

/// An hour without minutes gets ":00" after its digits; any other token is
/// left as it is.
#[verifier::opaque]
pub open spec fn with_minutes(t: Seq<char>) -> Seq<char> {
    if is_bare_hour(t) {
        t.subrange(0, t.len() - 3) + ":00"@ + t.subrange(t.len() - 3, t.len() as int)
    } else {
        t
    }
}

/// The time of day a token names.
pub open spec fn clock_of(t: Seq<char>) -> Option<TimeOfDay> {
    match clock_time_of(with_minutes(t), CLOCK_FORMAT@) {
        Some(hm) => Some(TimeOfDay { hour: hm.0, minute: hm.1 }),
        None => None,
    }
}

/// The interval that "from - to" names.
#[verifier::opaque]
pub open spec fn open_of(s: Seq<char>) -> Option<Open> {
    match first_occurrence(s, RANGE_SEPARATOR@) {
        None => None,
        Some(i) => {
            let from = clock_of(s.subrange(0, i));
            let to = clock_of(s.subrange(i + RANGE_SEPARATOR@.len(), s.len() as int));
            if from is Some && to is Some {
                Some(Open { from: from->0, to: to->0 })
            } else {
                None
            }
        },
    }
}

/// The intervals that a list of range texts names, if each names one.
pub open spec fn opens_of(ps: Seq<Seq<char>>) -> Option<Seq<Open>>
    decreases ps.len(),
{
    if ps.len() == 0 {
        Some(Seq::empty())
    } else {
        match (opens_of(ps.drop_last()), open_of(ps.last())) {
            (Some(v), Some(o)) => Some(v.push(o)),
            _ => None,
        }
    }
}

/// The opening hours that a schedule cell's text names.
pub open spec fn times_of(s: Seq<char>) -> Option<TimesView> {
    if s == CLOSED@ {
        Some(TimesView::Closed)
    } else {
        match opens_of(split_on(s, LIST_SEPARATOR@)) {
            Some(v) => Some(TimesView::Open(v)),
            None => None,
        }
    }
}

/// Rewrites an hour without minutes, such as "9 am", to "9:00 am".
pub fn with_minutes_text(t: &str) -> (r: String)
    ensures
        r@ == with_minutes(t@),
{
    reveal(with_minutes);
    let cs = chars_of(t);
    let n = cs.len();
    if n != 4 && n != 5 {
        return t.to_owned();
    }
    let k = n - 3;
    let mut digits = true;
    let mut i: usize = 0;
    while i < k
        invariant
            cs@ == t@,
            k == n - 3,
            n == t@.len(),
            i <= k,
            digits <==> forall|q: int| 0 <= q < i ==> is_digit(#[trigger] t@[q]),
        decreases k - i,
    {
        if !('0' <= cs[i] && cs[i] <= '9') {
            digits = false;
        }
        i += 1;
    }
    if digits && cs[k] == ' ' && (cs[k + 1] == 'a' || cs[k + 1] == 'p') && cs[k + 2] == 'm' {
        t.substring_char(0, k).to_owned().concat(":00").concat(t.substring_char(k, n))
    } else {
        t.to_owned()
    }
}

impl Open {
    /// Parses "from - to", each side a time of day such as "9 am" or
    /// "10:30 pm".
    pub fn parse(s: &str) -> (r: Result<Open, Error>)
        ensures
            r is Ok <==> open_of(s@) is Some,
            r matches Ok(o) ==> open_of(s@) == Some(o) && o.from.wf() && o.to.wf(),
            r matches Err(e) ==> e@ == ErrorView::TimeParse,
    {
        reveal(open_of);
        let n = s.unicode_len();
        let i = match find_text(s, RANGE_SEPARATOR) {
            Some(i) => i,
            None => {
                return Err(Error::TimeParse);
            },
        };
        proof {
            reveal_strlit(" - ");
            assert(RANGE_SEPARATOR@.len() == 3);
        }
        let from_text = with_minutes_text(s.substring_char(0, i));
        let to_text = with_minutes_text(s.substring_char(i + 3, n));
        let from = match parse_clock_time(from_text.as_str(), CLOCK_FORMAT) {
            Ok(hm) => TimeOfDay { hour: hm.0, minute: hm.1 },
            Err(_) => {
                return Err(Error::TimeParse);
            },
        };
        let to = match parse_clock_time(to_text.as_str(), CLOCK_FORMAT) {
            Ok(hm) => TimeOfDay { hour: hm.0, minute: hm.1 },
            Err(_) => {
                return Err(Error::TimeParse);
            },
        };
        Ok(Open { from, to })
    }
}


/// Writing an hour without minutes with ":00" added names the same time of
/// day: "9 am" and "9:00 am" read alike.
pub proof fn lemma_minutes_optional(t: Seq<char>)
    ensures
        clock_of(with_minutes(t)) == clock_of(t),
{
    reveal(with_minutes);
    if is_bare_hour(t) {
        reveal_strlit(":00");
        let w = with_minutes(t);
        assert(w.len() == t.len() + 3);
        assert(!is_bare_hour(w));
        assert(with_minutes(w) == w);
    }
}

proof fn lemma_opens_prefix_failure(ps: Seq<Seq<char>>, k: int)
    requires
        0 <= k <= ps.len(),
        opens_of(ps.subrange(0, k)) is None,
    ensures
        opens_of(ps) is None,
    decreases ps.len() - k,
{
    if k == ps.len() {
        assert(ps.subrange(0, k) =~= ps);
    } else {
        assert(ps.subrange(0, k + 1).drop_last() =~= ps.subrange(0, k));
        lemma_opens_prefix_failure(ps, k + 1);
    }
}

impl Times {
    /// Parses the text of a schedule cell: "Closed", or one or more
    /// intervals separated by ", ".
    pub fn parse(s: &str) -> (r: Result<Times, Error>)
        ensures
            r is Ok <==> times_of(s@) is Some,
            r matches Ok(t) ==> times_of(s@) == Some(t@) && t.wf(),
            r matches Err(e) ==> e@ == ErrorView::TimeParse,
    {
        if same_text(s, CLOSED) {
            return Ok(Times::Closed);
        }
        proof {
            reveal_strlit(", ");
        }
        let pieces = split_text(s, LIST_SEPARATOR);
        let ghost ps = views_of(pieces@);
        let mut opens: Vec<Open> = Vec::new();
        let mut i: usize = 0;
        assert(ps.subrange(0, 0) =~= Seq::<Seq<char>>::empty());
        while i < pieces.len()
            invariant
                ps == views_of(pieces@),
                ps == split_on(s@, LIST_SEPARATOR@),
                s@ != CLOSED@,
                i <= pieces.len(),
                opens_of(ps.subrange(0, i as int)) == Some(opens@),
                forall|q: int| 0 <= q < opens@.len() ==> (#[trigger] opens@[q]).wf(),
            decreases pieces.len() - i,
        {
            assert(ps.subrange(0, i + 1).drop_last() =~= ps.subrange(0, i as int));
            assert(ps[i as int] == pieces@[i as int]@);
            match Open::parse(pieces[i].as_str()) {
                Ok(o) => {
                    opens.push(o);
                },
                Err(e) => {
                    proof {
                        lemma_opens_prefix_failure(ps, i + 1);
                    }
                    return Err(e);
                },
            }
            i += 1;
        }
        assert(ps.subrange(0, i as int) =~= ps);
        Ok(Times::Open(opens))
    }
}


impl std::str::FromStr for Times {
    type Err = Error;

    /// Parses the text of a schedule cell, as [`Times::parse`].
    fn from_str(s: &str) -> (r: Result<Times, Error>)
        ensures
            r is Ok <==> times_of(s@) is Some,
            r matches Ok(t) ==> times_of(s@) == Some(t@) && t.wf(),
            r matches Err(e) ==> e@ == ErrorView::TimeParse,
    {
        Times::parse(s)
    }
}

impl std::str::FromStr for Open {
    type Err = Error;

    /// Parses "from - to", as [`Open::parse`].
    fn from_str(s: &str) -> (r: Result<Open, Error>)
        ensures
            r is Ok <==> open_of(s@) is Some,
            r matches Ok(o) ==> open_of(s@) == Some(o) && o.from.wf() && o.to.wf(),
            r matches Err(e) ==> e@ == ErrorView::TimeParse,
    {
        Open::parse(s)
    }
}

} // verus!
