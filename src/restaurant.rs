//! Restaurants: the record, and the parser for restaurant listings.

use vstd::prelude::*;

use chrono::Datelike;

use crate::document::{first_text, select_all, select_in, indices_view, option_view, Document, DomNodeView, Selector, SelectorView};
use crate::error::{all_ok, lemma_all_ok_error_at, lemma_all_ok_prefix_error, lemma_all_ok_step, Error, ErrorView, Part};
use crate::food_type::{food_type_from_name, food_type_rank, lemma_rank_injective, FoodType};
use crate::location::{location_slug, Location, LocationView};
use crate::text::{trim, trimmed};
use crate::times::{times_of, Times, TimesView};

verus! {

/// The upstream page listing the restaurants open right now.
pub const OPEN_NOW_URL: &'static str = "https://maceats.mcmaster.ca/open-now";

/// A calendar day, counted as chrono counts days from the common era (day 1
/// is January 1 of year 1).
#[derive(Clone, Copy, Debug, PartialEq, Eq, Structural, Hash, PartialOrd, Ord)]
pub struct Date {
    pub days_from_ce: i64,
}

/// Relies on `chrono::Local::now` and `chrono::Datelike::num_days_from_ce`:
/// today's date in the server's time zone. Nothing is known of the value.
#[verifier::external_body]
fn local_today() -> (r: i32) {
    chrono::Local::now().date_naive().num_days_from_ce()
}

/// A restaurant as the upstream site lists it.
#[derive(Clone, Debug, PartialEq, Eq, Hash, PartialOrd, Ord)]
pub struct Restaurant {
    pub name: String,
    pub location: Location,
    pub location_details: Option<String>,
    pub location_phone: Option<String>,
    /// The opening hours of each of the next days, from today on, if the
    /// listing has a schedule.
    pub schedule: Option<Vec<(Date, Times)>>,
    /// The food types served, sorted by [`FoodType::rank`], each once.
    pub tags: Vec<FoodType>,
}

/// The mathematical content of a [`Restaurant`]; its tags are a set.
pub struct RestaurantView {
    pub name: Seq<char>,
    pub location: LocationView,
    pub location_details: Option<Seq<char>>,
    pub location_phone: Option<Seq<char>>,
    pub schedule: Option<Seq<(Date, TimesView)>>,
    pub tags: Set<FoodType>,
}

pub open spec fn schedule_view(s: Option<Vec<(Date, Times)>>) -> Option<Seq<(Date, TimesView)>> {
    match s {
        Some(v) => Some(v@.map_values(|e: (Date, Times)| (e.0, e.1@))),
        None => None,
    }
}

/// Tags are sorted strictly by rank, hence each is present once.
pub open spec fn tags_sorted(tags: Seq<FoodType>) -> bool {
    forall|a: int, b: int| 0 <= a < b < tags.len() ==> food_type_rank(#[trigger] tags[a]) < food_type_rank(#[trigger] tags[b])
}

impl View for Restaurant {
    type V = RestaurantView;

    open spec fn view(&self) -> RestaurantView {
        RestaurantView {
            name: self.name@,
            location: self.location@,
            location_details: option_view(self.location_details),
            location_phone: option_view(self.location_phone),
            schedule: schedule_view(self.schedule),
            tags: self.tags@.to_set(),
        }
    }
}

/// The days of a schedule are distinct and in calendar order.
pub open spec fn dates_increasing(s: Seq<(Date, TimesView)>) -> bool {
    forall|a: int, b: int| 0 <= a < b < s.len() ==> (#[trigger] s[a]).0.days_from_ce < (#[trigger] s[b]).0.days_from_ce
}

pub open spec fn schedule_wf(s: Option<Seq<(Date, TimesView)>>) -> bool {
    match s {
        Some(v) => dates_increasing(v),
        None => true,
    }
}

impl Restaurant {
    /// The stored tags are in rank order, and the schedule has each day once,
    /// in calendar order.
    pub open spec fn wf(&self) -> bool {
        tags_sorted(self.tags@) && schedule_wf(schedule_view(self.schedule))
    }
}

pub open spec fn views_of_restaurants(v: Seq<Restaurant>) -> Seq<RestaurantView> {
    v.map_values(|r: Restaurant| r@)
}

pub open spec fn sel(tag: Seq<char>, class: Seq<char>) -> SelectorView {
    SelectorView { tag, classes: seq![class] }
}

pub open spec fn unit_selector() -> SelectorView { sel("div"@, "unit"@) }
pub open spec fn title_selector() -> SelectorView { sel("h1"@, "title"@) }
pub open spec fn location_selector() -> SelectorView { sel("h2"@, "location"@) }
pub open spec fn details_selector() -> SelectorView { sel("div"@, "location-data"@) }
pub open spec fn phone_selector() -> SelectorView { sel("div"@, "location-phone"@) }
pub open spec fn schedule_selector() -> SelectorView { sel("div"@, "schedule"@) }
pub open spec fn time_cell_selector() -> SelectorView { sel("td"@, "time"@) }
pub open spec fn tags_selector() -> SelectorView { sel("ul"@, "tags"@) }
pub open spec fn tag_item_selector() -> SelectorView { SelectorView { tag: "li"@, classes: Seq::empty() } }

/// The trimmed text of the first element inside container `i` that `s`
/// selects; both the element and its text are required.
pub open spec fn required_text(d: Seq<DomNodeView>, i: int, s: SelectorView, part: Part) -> Result<Seq<char>, ErrorView> {
    let found = select_in(d, i, s);
    if found.len() == 0 {
        Err(ErrorView::ElementNotFound(part))
    } else {
        match first_text(d, found[0]) {
            None => Err(ErrorView::TextNotFound(part)),
            Some(t) => Ok(trimmed(t)),
        }
    }
}

/// The trimmed text of the first element inside container `i` that `s`
/// selects; a missing element gives `None`, a present one must have text.
pub open spec fn optional_text(d: Seq<DomNodeView>, i: int, s: SelectorView, part: Part) -> Result<Option<Seq<char>>, ErrorView> {
    let found = select_in(d, i, s);
    if found.len() == 0 {
        Ok(None)
    } else {
        match first_text(d, found[0]) {
            None => Err(ErrorView::TextNotFound(part)),
            Some(t) => Ok(Some(trimmed(t))),
        }
    }
}

/// The opening hours that time cell `c` gives for day `k` after `today`.
pub open spec fn day_of(d: Seq<DomNodeView>, c: int, today: Date, k: int) -> Result<(Date, TimesView), ErrorView> {
    match first_text(d, c) {
        None => Err(ErrorView::TextNotFound(Part::Time)),
        Some(t) => match times_of(trimmed(t)) {
            None => Err(ErrorView::TimeParse),
            Some(v) => Ok((Date { days_from_ce: (today.days_from_ce + k) as i64 }, v)),
        },
    }
}

/// The number of days a schedule covers.
pub const SCHEDULE_DAYS: usize = 7;

/// The schedule inside container `i`: its first time cells, day by day
/// from `today`, at most a week of them.
pub open spec fn schedule_of(d: Seq<DomNodeView>, i: int, today: Date) -> Result<Option<Seq<(Date, TimesView)>>, ErrorView> {
    let found = select_in(d, i, schedule_selector());
    if found.len() == 0 {
        Ok(None)
    } else {
        let cells = select_in(d, found[0], time_cell_selector());
        let n = if cells.len() < SCHEDULE_DAYS { cells.len() } else { SCHEDULE_DAYS as nat };
        match all_ok(Seq::new(n, |k: int| day_of(d, cells[k], today, k))) {
            Ok(days) => Ok(Some(days)),
            Err(e) => Err(e),
        }
    }
}

/// The food type that tag item `j` names.
pub open spec fn tag_of(d: Seq<DomNodeView>, j: int) -> Result<FoodType, ErrorView> {
    match first_text(d, j) {
        None => Err(ErrorView::TextNotFound(Part::FoodType)),
        Some(t) => match food_type_from_name(t) {
            None => Err(ErrorView::EnumParse(t)),
            Some(f) => Ok(f),
        },
    }
}

/// The food types that the tag list inside container `i` names; no tag
/// list means no tags.
pub open spec fn tags_of(d: Seq<DomNodeView>, i: int) -> Result<Set<FoodType>, ErrorView> {
    let found = select_in(d, i, tags_selector());
    if found.len() == 0 {
        Ok(Set::empty())
    } else {
        match all_ok(select_in(d, found[0], tag_item_selector()).map_values(|j: int| tag_of(d, j))) {
            Ok(ts) => Ok(ts.to_set()),
            Err(e) => Err(e),
        }
    }
}

/// The restaurant that container `i` describes, reading its parts in order:
/// name, location, details, phone, schedule, tags. The first part that
/// fails gives the error.
pub open spec fn restaurant_of(d: Seq<DomNodeView>, i: int, today: Date) -> Result<RestaurantView, ErrorView> {
    match required_text(d, i, title_selector(), Part::Name) {
        Err(e) => Err(e),
        Ok(name) => match required_text(d, i, location_selector(), Part::Location) {
            Err(e) => Err(e),
            Ok(loc) => match optional_text(d, i, details_selector(), Part::LocationDetails) {
                Err(e) => Err(e),
                Ok(details) => match optional_text(d, i, phone_selector(), Part::LocationPhone) {
                    Err(e) => Err(e),
                    Ok(phone) => match schedule_of(d, i, today) {
                        Err(e) => Err(e),
                        Ok(schedule) => match tags_of(d, i) {
                            Err(e) => Err(e),
                            Ok(tags) => Ok(RestaurantView {
                                name,
                                location: LocationView { name: loc, slug: location_slug(loc) },
                                location_details: details,
                                location_phone: phone,
                                schedule,
                                tags,
                            }),
                        },
                    },
                },
            },
        },
    }
}

/// The restaurants that a restaurant listing describes, or the first error.
pub open spec fn restaurants_of(d: Seq<DomNodeView>, today: Date) -> Result<Seq<RestaurantView>, ErrorView> {
    all_ok(select_all(d, unit_selector()).map_values(|i: int| restaurant_of(d, i, today)))
}

/// Adds `t` to tags kept in rank order.
fn insert_tag(tags: &mut Vec<FoodType>, t: FoodType)
    requires
        tags_sorted(old(tags)@),
    ensures
        tags_sorted(final(tags)@),
        final(tags)@.to_set() == old(tags)@.to_set().insert(t),
{
    let r = t.rank();
    let mut p: usize = 0;
    while p < tags.len() && tags[p].rank() < r
        invariant
            tags_sorted(tags@),
            r as nat == food_type_rank(t),
            p <= tags.len(),
            forall|q: int| 0 <= q < p ==> food_type_rank(#[trigger] tags@[q]) < food_type_rank(t),
        decreases tags.len() - p,
    {
        p += 1;
    }
    if p < tags.len() && tags[p].rank() == r {
        proof {
            lemma_rank_injective(tags@[p as int], t);
            assert(tags@.to_set() =~= tags@.to_set().insert(t));
        }
        return;
    }
    let ghost before = tags@;
    tags.insert(p, t);
    proof {
        before.insert_ensures(p as int, t);
        assert forall|a: int, b: int| 0 <= a < b < tags@.len() implies food_type_rank(#[trigger] tags@[a]) < food_type_rank(#[trigger] tags@[b]) by {
            if a < p && b > p {
                assert(tags@[b] == before[b - 1]);
            } else if a < p && b == p {
            } else if a == p && b > p {
                assert(tags@[b] == before[b - 1]);
                if b - 1 > p {
                    assert(food_type_rank(before[p as int]) < food_type_rank(before[b - 1]));
                }
            } else if a > p {
                assert(tags@[a] == before[a - 1]);
                assert(tags@[b] == before[b - 1]);
            }
        }
        assert forall|x: FoodType| tags@.to_set().contains(x) <==> before.to_set().insert(t).contains(x) by {
            if tags@.contains(x) {
                let q = choose|q: int| 0 <= q < tags@.len() && tags@[q] == x;
                if q < p {
                    assert(before[q] == x);
                } else if q > p {
                    assert(before[q - 1] == x);
                }
            }
            if before.contains(x) {
                let q = choose|q: int| 0 <= q < before.len() && before[q] == x;
                if q < p {
                    assert(tags@[q] == x);
                } else {
                    assert(tags@[q + 1] == x);
                }
            }
            if x == t {
                assert(tags@[p as int] == t);
            }
        }
        assert(tags@.to_set() =~= before.to_set().insert(t));
    }
}


fn selector(tag: &'static str, class: &'static str) -> (r: Selector)
    ensures
        r@ == sel(tag@, class@),
{
    let r = Selector { tag, classes: vec![class] };
    assert(r@.classes =~= seq![class@]);
    r
}

fn required_text_in(doc: &Document, i: usize, s: &Selector, part: Part) -> (r: Result<String, Error>)
    requires
        i < doc@.len(),
    ensures
        match r {
            Ok(t) => required_text(doc@, i as int, s@, part) == Ok::<Seq<char>, ErrorView>(t@),
            Err(e) => required_text(doc@, i as int, s@, part) == Err::<Seq<char>, ErrorView>(e@),
        },
{
    let found = doc.select_in(i, s);
    if found.len() == 0 {
        return Err(Error::ElementNotFound(part));
    }
    assert(indices_view(found@)[0] == found@[0] as int);
    match doc.first_text(found[0]) {
        None => Err(Error::TextNotFound(part)),
        Some(t) => Ok(trim(t.as_str())),
    }
}

fn optional_text_in(doc: &Document, i: usize, s: &Selector, part: Part) -> (r: Result<Option<String>, Error>)
    requires
        i < doc@.len(),
    ensures
        match r {
            Ok(t) => optional_text(doc@, i as int, s@, part) == Ok::<Option<Seq<char>>, ErrorView>(option_view(t)),
            Err(e) => optional_text(doc@, i as int, s@, part) == Err::<Option<Seq<char>>, ErrorView>(e@),
        },
{
    let found = doc.select_in(i, s);
    if found.len() == 0 {
        return Ok(None);
    }
    assert(indices_view(found@)[0] == found@[0] as int);
    match doc.first_text(found[0]) {
        None => Err(Error::TextNotFound(part)),
        Some(t) => Ok(Some(trim(t.as_str()))),
    }
}

pub open spec fn days_view(v: Seq<(Date, Times)>) -> Seq<(Date, TimesView)> {
    v.map_values(|e: (Date, Times)| (e.0, e.1@))
}

fn schedule_in(doc: &Document, i: usize, today: Date) -> (r: Result<Option<Vec<(Date, Times)>>, Error>)
    requires
        i < doc@.len(),
        today.days_from_ce <= i64::MAX - 7,
    ensures
        match r {
            Ok(s) => schedule_of(doc@, i as int, today) == Ok::<Option<Seq<(Date, TimesView)>>, ErrorView>(schedule_view(s)),
            Err(e) => schedule_of(doc@, i as int, today) == Err::<Option<Seq<(Date, TimesView)>>, ErrorView>(e@),
        },
        r matches Ok(s) ==> schedule_wf(schedule_view(s)),
{
    let found = doc.select_in(i, &selector("div", "schedule"));
    if found.len() == 0 {
        return Ok(None);
    }
    let ghost d = doc@;
    assert(indices_view(found@)[0] == found@[0] as int);
    let cells = doc.select_in(found[0], &selector("td", "time"));
    let ghost cs = select_in(d, found@[0] as int, time_cell_selector());
    assert(indices_view(cells@) == cs);
    let n: usize = if cells.len() < SCHEDULE_DAYS { cells.len() } else { SCHEDULE_DAYS };
    let ghost rs = Seq::new(n as nat, |k: int| day_of(d, cs[k], today, k));
    let mut days: Vec<(Date, Times)> = Vec::new();
    let mut k: usize = 0;
    assert(rs.subrange(0, 0) =~= Seq::<Result<(Date, TimesView), ErrorView>>::empty());
    assert(days_view(days@) =~= Seq::<(Date, TimesView)>::empty());
    assert(schedule_of(d, i as int, today) == (match all_ok(rs) {
        Ok(days) => Ok(Some(days)),
        Err(e) => Err(e),
    }));
    while k < n
        invariant
            d == doc@,
            schedule_of(d, i as int, today) == (match all_ok(rs) {
                Ok(days) => Ok(Some(days)),
                Err(e) => Err::<Option<Seq<(Date, TimesView)>>, ErrorView>(e),
            }),
            indices_view(cells@) == cs,
            forall|q: int| 0 <= q < cells@.len() ==> cells@[q] < d.len(),
            n <= cells.len(),
            n <= SCHEDULE_DAYS,
            today.days_from_ce <= i64::MAX - 7,
            rs == Seq::new(n as nat, |k: int| day_of(d, cs[k], today, k)),
            k <= n,
            all_ok(rs.subrange(0, k as int)) == Ok::<Seq<(Date, TimesView)>, ErrorView>(days_view(days@)),
            days@.len() == k,
            forall|q: int| 0 <= q < k ==> (#[trigger] days@[q]).0.days_from_ce == today.days_from_ce + q,
        decreases n - k,
    {
        proof {
            lemma_all_ok_step(rs, k as int);
            assert(cs[k as int] == cells@[k as int] as int);
        }
        let c = cells[k];
        let text = match doc.first_text(c) {
            Some(t) => t,
            None => {
                proof {
                    lemma_all_ok_prefix_error(rs, k + 1);
                }
                return Err(Error::TextNotFound(Part::Time));
            },
        };
        let trimmed_text = trim(text.as_str());
        match Times::parse(trimmed_text.as_str()) {
            Ok(t) => {
                let date = Date { days_from_ce: today.days_from_ce + k as i64 };
                let ghost before = days@;
                days.push((date, t));
                assert(days_view(days@) =~= days_view(before).push((date, t@)));
            },
            Err(e) => {
                proof {
                    lemma_all_ok_prefix_error(rs, k + 1);
                }
                return Err(e);
            },
        }
        k += 1;
    }
    assert(rs.subrange(0, k as int) =~= rs);
    assert(dates_increasing(days_view(days@))) by {
        assert forall|a: int, b: int| 0 <= a < b < days_view(days@).len() implies
            (#[trigger] days_view(days@)[a]).0.days_from_ce < (#[trigger] days_view(days@)[b]).0.days_from_ce by {
            assert(days_view(days@)[a].0 == days@[a].0);
            assert(days_view(days@)[b].0 == days@[b].0);
        }
    }
    Ok(Some(days))
}

fn tags_in(doc: &Document, i: usize) -> (r: Result<Vec<FoodType>, Error>)
    requires
        i < doc@.len(),
    ensures
        match r {
            Ok(ts) => tags_of(doc@, i as int) == Ok::<Set<FoodType>, ErrorView>(ts@.to_set()) && tags_sorted(ts@),
            Err(e) => tags_of(doc@, i as int) == Err::<Set<FoodType>, ErrorView>(e@),
        },
{
    let mut tags: Vec<FoodType> = Vec::new();
    let found = doc.select_in(i, &selector("ul", "tags"));
    if found.len() == 0 {
        assert(tags@.to_set() =~= Set::<FoodType>::empty());
        return Ok(tags);
    }
    let ghost d = doc@;
    assert(indices_view(found@)[0] == found@[0] as int);
    let item = Selector { tag: "li", classes: Vec::new() };
    assert(item@.classes =~= Seq::<Seq<char>>::empty());
    let items = doc.select_in(found[0], &item);
    let ghost js = select_in(d, found@[0] as int, tag_item_selector());
    let ghost rs = js.map_values(|j: int| tag_of(d, j));
    let ghost mut parsed: Seq<FoodType> = Seq::empty();
    let mut k: usize = 0;
    assert(rs.subrange(0, 0) =~= Seq::<Result<FoodType, ErrorView>>::empty());
    assert(tags@.to_set() =~= parsed.to_set());
    assert(tags_of(d, i as int) == (match all_ok(rs) {
        Ok(ts) => Ok(ts.to_set()),
        Err(e) => Err(e),
    }));
    while k < items.len()
        invariant
            d == doc@,
            tags_of(d, i as int) == (match all_ok(rs) {
                Ok(ts) => Ok(ts.to_set()),
                Err(e) => Err::<Set<FoodType>, ErrorView>(e),
            }),
            indices_view(items@) == js,
            forall|q: int| 0 <= q < items@.len() ==> items@[q] < d.len(),
            rs == js.map_values(|j: int| tag_of(d, j)),
            k <= items.len(),
            all_ok(rs.subrange(0, k as int)) == Ok::<Seq<FoodType>, ErrorView>(parsed),
            tags@.to_set() == parsed.to_set(),
            tags_sorted(tags@),
        decreases items.len() - k,
    {
        proof {
            lemma_all_ok_step(rs, k as int);
            assert(rs[k as int] == tag_of(d, items@[k as int] as int));
        }
        let text = match doc.first_text(items[k]) {
            Some(t) => t,
            None => {
                proof {
                    lemma_all_ok_prefix_error(rs, k + 1);
                }
                return Err(Error::TextNotFound(Part::FoodType));
            },
        };
        match FoodType::parse(text.as_str()) {
            Ok(t) => {
                insert_tag(&mut tags, t);
                proof {
                    parsed.lemma_push_to_set_commute(t);
                    parsed = parsed.push(t);
                }
            },
            Err(e) => {
                proof {
                    lemma_all_ok_prefix_error(rs, k + 1);
                }
                return Err(e);
            },
        }
        k += 1;
    }
    assert(rs.subrange(0, k as int) =~= rs);
    Ok(tags)
}


impl Restaurant {
    /// Reads the restaurant that container `i` of a listing describes, with
    /// the schedule's first day on `today`.
    pub fn from_container(doc: &Document, i: usize, today: Date) -> (r: Result<Restaurant, Error>)
        requires
            i < doc@.len(),
            today.days_from_ce <= i64::MAX - 7,
        ensures
            match r {
                Ok(x) => restaurant_of(doc@, i as int, today) == Ok::<RestaurantView, ErrorView>(x@) && x.wf(),
                Err(e) => restaurant_of(doc@, i as int, today) == Err::<RestaurantView, ErrorView>(e@),
            },
    {
        let name = required_text_in(doc, i, &selector("h1", "title"), Part::Name)?;
        let location_name = required_text_in(doc, i, &selector("h2", "location"), Part::Location)?;
        let location_details = optional_text_in(doc, i, &selector("div", "location-data"), Part::LocationDetails)?;
        let location_phone = optional_text_in(doc, i, &selector("div", "location-phone"), Part::LocationPhone)?;
        let schedule = schedule_in(doc, i, today)?;
        let tags = tags_in(doc, i)?;
        Ok(Restaurant {
            name,
            location: Location::new(location_name.as_str()),
            location_details,
            location_phone,
            schedule,
            tags,
        })
    }

    /// Reads every restaurant of a listing, with schedules starting on
    /// `today`; the first container that fails to parse fails the whole
    /// listing, and no restaurant is returned.
    pub fn from_restaurant_list(doc: &Document, today: Date) -> (r: Result<Vec<Restaurant>, Error>)
        requires
            today.days_from_ce <= i64::MAX - 7,
        ensures
            match r {
                Ok(v) => restaurants_of(doc@, today) == Ok::<Seq<RestaurantView>, ErrorView>(views_of_restaurants(v@))
                    && forall|k: int| 0 <= k < v@.len() ==> (#[trigger] v@[k]).wf(),
                Err(e) => restaurants_of(doc@, today) == Err::<Seq<RestaurantView>, ErrorView>(e@),
            },
    {
        let units = doc.select_all(&selector("div", "unit"));
        let ghost d = doc@;
        let ghost rs = select_all(d, unit_selector()).map_values(|i: int| restaurant_of(d, i, today));
        let mut out: Vec<Restaurant> = Vec::new();
        let mut k: usize = 0;
        assert(rs.subrange(0, 0) =~= Seq::<Result<RestaurantView, ErrorView>>::empty());
        assert(views_of_restaurants(out@) =~= Seq::<RestaurantView>::empty());
        while k < units.len()
            invariant
                d == doc@,
                today.days_from_ce <= i64::MAX - 7,
                rs == select_all(d, unit_selector()).map_values(|i: int| restaurant_of(d, i, today)),
                indices_view(units@) == select_all(d, unit_selector()),
                forall|q: int| 0 <= q < units@.len() ==> units@[q] < d.len(),
                k <= units.len(),
                all_ok(rs.subrange(0, k as int)) == Ok::<Seq<RestaurantView>, ErrorView>(views_of_restaurants(out@)),
                forall|q: int| 0 <= q < out@.len() ==> (#[trigger] out@[q]).wf(),
            decreases units.len() - k,
        {
            proof {
                lemma_all_ok_step(rs, k as int);
                assert(rs[k as int] == restaurant_of(d, units@[k as int] as int, today));
            }
            match Restaurant::from_container(doc, units[k], today) {
                Ok(x) => {
                    let ghost before = out@;
                    out.push(x);
                    assert(views_of_restaurants(out@) =~= views_of_restaurants(before).push(x@));
                },
                Err(e) => {
                    proof {
                        lemma_all_ok_prefix_error(rs, k + 1);
                    }
                    return Err(e);
                },
            }
            k += 1;
        }
        assert(rs.subrange(0, k as int) =~= rs);
        Ok(out)
    }

    /// Reads every restaurant of a listing, with schedules starting on the
    /// server's current date; whatever that date is, the result is the
    /// listing read from it.
    pub fn from_restaurant_list_html(doc: &Document) -> (r: Result<Vec<Restaurant>, Error>)
        ensures
            exists|today: Date| #[trigger] restaurants_of(doc@, today) == match r {
                Ok(v) => Ok::<Seq<RestaurantView>, ErrorView>(views_of_restaurants(v@)),
                Err(e) => Err::<Seq<RestaurantView>, ErrorView>(e@),
            },
    {
        let today = Date { days_from_ce: local_today() as i64 };
        let r = Restaurant::from_restaurant_list(doc, today);
        assert(restaurants_of(doc@, today) == match r {
            Ok(v) => Ok::<Seq<RestaurantView>, ErrorView>(views_of_restaurants(v@)),
            Err(e) => Err::<Seq<RestaurantView>, ErrorView>(e@),
        });
        r
    }
}


/// A restaurant container without a title element fails with
/// `ElementNotFound` of the name; one whose first title element has no text
/// fails with `TextNotFound` of the name. Either way no restaurant is read.
pub proof fn lemma_missing_name_fails_container(d: Seq<DomNodeView>, i: int, today: Date)
    ensures
        select_in(d, i, title_selector()).len() == 0 ==> restaurant_of(d, i, today)
            == Err::<RestaurantView, ErrorView>(ErrorView::ElementNotFound(Part::Name)),
        select_in(d, i, title_selector()).len() > 0 && first_text(d, select_in(d, i, title_selector())[0]) is None
            ==> restaurant_of(d, i, today) == Err::<RestaurantView, ErrorView>(ErrorView::TextNotFound(Part::Name)),
{
}

/// A listing in which some restaurant container lacks its title element, or
/// whose title has no text, yields no restaurants at all: the whole listing
/// fails. When every container before it parses, the failure is exactly the
/// missing title (`ElementNotFound` or `TextNotFound` of the name).
pub proof fn lemma_missing_name_fails_listing(d: Seq<DomNodeView>, today: Date, k: int)
    requires
        0 <= k < select_all(d, unit_selector()).len(),
        required_text(d, select_all(d, unit_selector())[k], title_selector(), Part::Name) is Err,
    ensures
        restaurants_of(d, today) is Err,
        (forall|q: int| 0 <= q < k ==> (#[trigger] restaurant_of(d, select_all(d, unit_selector())[q], today)) is Ok)
            ==> restaurants_of(d, today) == Err::<Seq<RestaurantView>, ErrorView>(
            ErrorView::ElementNotFound(Part::Name),
        ) || restaurants_of(d, today) == Err::<Seq<RestaurantView>, ErrorView>(ErrorView::TextNotFound(Part::Name)),
{
    let units = select_all(d, unit_selector());
    let rs = units.map_values(|i: int| restaurant_of(d, i, today));
    assert(rs[k] == restaurant_of(d, units[k], today));
    lemma_all_ok_error_at(rs, k);
    if forall|q: int| 0 <= q < k ==> (#[trigger] restaurant_of(d, units[q], today)) is Ok {
        assert forall|q: int| 0 <= q < k implies (#[trigger] rs[q]) is Ok by {
            assert(rs[q] == restaurant_of(d, units[q], today));
        }
    }
}

} // verus!
