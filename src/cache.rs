//! The memoizing cache in front of the upstream site, as a state machine:
//! each query either answers from the cache or names the one upstream fetch
//! it needs; the caller performs the fetch, stores its result, and asks again.

use vstd::prelude::*;

use crate::document::option_view;
use crate::error::Error;
use crate::food_type::{is_branded, CoffeeBrand, FoodType};
use crate::location::{locations_view, Location, LocationView};
use crate::restaurant::{schedule_view, views_of_restaurants, Date, Restaurant, RestaurantView};
use crate::text::same_text;
use crate::times::{Open, Times};

verus! {

fn copy_string(s: &String) -> (r: String)
    ensures
        r@ == s@,
{
    s.clone()
}

fn copy_opt_string(s: &Option<String>) -> (r: Option<String>)
    ensures
        option_view(r) == option_view(*s),
{
    match s {
        Some(x) => Some(copy_string(x)),
        None => None,
    }
}

fn copy_times(t: &Times) -> (r: Times)
    ensures
        r@ == t@,
{
    match t {
        Times::Closed => Times::Closed,
        Times::Open(v) => {
            let mut out: Vec<Open> = Vec::new();
            let mut k: usize = 0;
            while k < v.len()
                invariant
                    k <= v.len(),
                    out@ == v@.subrange(0, k as int),
                decreases v.len() - k,
            {
                out.push(v[k]);
                k += 1;
                assert(out@ =~= v@.subrange(0, k as int));
            }
            assert(out@ =~= v@);
            Times::Open(out)
        },
    }
}

fn copy_schedule(s: &Option<Vec<(Date, Times)>>) -> (r: Option<Vec<(Date, Times)>>)
    ensures
        schedule_view(r) == schedule_view(*s),
{
    match s {
        None => None,
        Some(v) => {
            let ghost target = v@.map_values(|e: (Date, Times)| (e.0, e.1@));
            let mut out: Vec<(Date, Times)> = Vec::new();
            let mut k: usize = 0;
            while k < v.len()
                invariant
                    k <= v.len(),
                    target == v@.map_values(|e: (Date, Times)| (e.0, e.1@)),
                    out@.map_values(|e: (Date, Times)| (e.0, e.1@)) == target.subrange(0, k as int),
                    out@.len() == k,
                decreases v.len() - k,
            {
                let ghost before = out@;
                out.push((v[k].0, copy_times(&v[k].1)));
                k += 1;
                assert(out@.map_values(|e: (Date, Times)| (e.0, e.1@)) =~= target.subrange(0, k as int));
            }
            assert(target.subrange(0, k as int) =~= target);
            Some(out)
        },
    }
}

fn copy_tags(v: &Vec<FoodType>) -> (r: Vec<FoodType>)
    ensures
        r@ == v@,
{
    let mut out: Vec<FoodType> = Vec::new();
    let mut k: usize = 0;
    while k < v.len()
        invariant
            k <= v.len(),
            out@ == v@.subrange(0, k as int),
        decreases v.len() - k,
    {
        out.push(v[k]);
        k += 1;
        assert(out@ =~= v@.subrange(0, k as int));
    }
    assert(out@ =~= v@);
    out
}

fn copy_location(l: &Location) -> (r: Location)
    ensures
        r@ == l@,
{
    Location { name: copy_string(&l.name), slug: copy_string(&l.slug) }
}

fn copy_restaurant(x: &Restaurant) -> (r: Restaurant)
    ensures
        r@ == x@,
        r.tags@ == x.tags@,
{
    Restaurant {
        name: copy_string(&x.name),
        location: copy_location(&x.location),
        location_details: copy_opt_string(&x.location_details),
        location_phone: copy_opt_string(&x.location_phone),
        schedule: copy_schedule(&x.schedule),
        tags: copy_tags(&x.tags),
    }
}

fn copy_restaurants(v: &Vec<Restaurant>) -> (r: Vec<Restaurant>)
    ensures
        views_of_restaurants(r@) == views_of_restaurants(v@),
        forall|k: int| 0 <= k < r@.len() ==> (#[trigger] r@[k]).tags@ == v@[k].tags@,
{
    let mut out: Vec<Restaurant> = Vec::new();
    let mut k: usize = 0;
    while k < v.len()
        invariant
            k <= v.len(),
            views_of_restaurants(out@) == views_of_restaurants(v@).subrange(0, k as int),
            out@.len() == k,
            forall|q: int| 0 <= q < k ==> (#[trigger] out@[q]).tags@ == v@[q].tags@,
        decreases v.len() - k,
    {
        out.push(copy_restaurant(&v[k]));
        k += 1;
        assert(views_of_restaurants(out@) =~= views_of_restaurants(v@).subrange(0, k as int));
    }
    assert(views_of_restaurants(v@).subrange(0, k as int) =~= views_of_restaurants(v@));
    out
}

fn copy_locations(v: &Vec<Location>) -> (r: Vec<Location>)
    ensures
        locations_view(r@) == locations_view(v@),
{
    let mut out: Vec<Location> = Vec::new();
    let mut k: usize = 0;
    while k < v.len()
        invariant
            k <= v.len(),
            locations_view(out@) == locations_view(v@).subrange(0, k as int),
            out@.len() == k,
        decreases v.len() - k,
    {
        out.push(copy_location(&v[k]));
        k += 1;
        assert(locations_view(out@) =~= locations_view(v@).subrange(0, k as int));
    }
    assert(locations_view(v@).subrange(0, k as int) =~= locations_view(v@));
    out
}


/// An association list read as a map; the first entry of a key wins.
pub open spec fn entries_map<K, V>(s: Seq<(K, V)>) -> Map<K, V>
    decreases s.len(),
{
    if s.len() == 0 {
        Map::empty()
    } else {
        let m = entries_map(s.drop_last());
        if m.contains_key(s.last().0) {
            m
        } else {
            m.insert(s.last().0, s.last().1)
        }
    }
}

proof fn lemma_entries_map_absent<K, V>(s: Seq<(K, V)>, k: K)
    requires
        forall|j: int| 0 <= j < s.len() ==> (#[trigger] s[j]).0 != k,
    ensures
        !entries_map(s).contains_key(k),
    decreases s.len(),
{
    if s.len() > 0 {
        lemma_entries_map_absent(s.drop_last(), k);
    }
}

proof fn lemma_entries_map_first<K, V>(s: Seq<(K, V)>, i: int)
    requires
        0 <= i < s.len(),
        forall|j: int| 0 <= j < i ==> (#[trigger] s[j]).0 != s[i].0,
    ensures
        entries_map(s).contains_key(s[i].0),
        entries_map(s)[s[i].0] == s[i].1,
    decreases s.len(),
{
    if i == s.len() - 1 {
        lemma_entries_map_absent(s.drop_last(), s[i].0);
    } else {
        lemma_entries_map_first(s.drop_last(), i);
    }
}

proof fn lemma_entries_map_push<K, V>(s: Seq<(K, V)>, k: K, v: V)
    requires
        !entries_map(s).contains_key(k),
    ensures
        entries_map(s.push((k, v))) == entries_map(s).insert(k, v),
{
    assert(s.push((k, v)).drop_last() =~= s);
}

/// What a query needs from upstream when the cache cannot answer it.
#[derive(Clone, Copy, Debug, PartialEq, Eq, Structural, Hash)]
pub enum Upstream {
    /// Every restaurant of every location.
    AllRestaurants,
    /// The restaurants listed on a coffee brand's page.
    CoffeeBrand(CoffeeBrand),
    /// The location listing.
    AllLocations,
}

/// The outcome of asking the cache: an answer, or the fetch to perform
/// before asking again.
pub enum Step<T> {
    Ready(Result<T, Error>),
    Fetch(Upstream),
}

/// The five cached queries.
pub enum Query {
    AllRestaurants,
    FoodType(FoodType),
    CoffeeBrand(CoffeeBrand),
    AllLocations,
    /// The restaurants of the location with this slug.
    Location(Seq<char>),
}

/// What a query answers with.
pub enum Answer {
    Restaurants(Seq<RestaurantView>),
    Locations(Seq<LocationView>),
}

/// The mathematical content of a [`Step`].
pub enum StepView {
    Ready(Answer),
    Fetch(Upstream),
}

/// The mathematical content of a [`Cache`]: each query's stored result.
pub struct CacheView {
    pub all: Option<Seq<RestaurantView>>,
    pub by_food_type: Map<FoodType, Seq<RestaurantView>>,
    pub by_brand: Map<CoffeeBrand, Seq<RestaurantView>>,
    pub locations: Option<Seq<LocationView>>,
    pub by_location: Map<Seq<char>, Seq<RestaurantView>>,
}

pub open spec fn empty_cache() -> CacheView {
    CacheView {
        all: None,
        by_food_type: Map::empty(),
        by_brand: Map::empty(),
        locations: None,
        by_location: Map::empty(),
    }
}

/// The restaurants of `a` whose tags contain `t`.
pub open spec fn with_food_type(a: Seq<RestaurantView>, t: FoodType) -> Seq<RestaurantView> {
    a.filter(tagged_with(t))
}

pub open spec fn tagged_with(t: FoodType) -> spec_fn(RestaurantView) -> bool {
    |r: RestaurantView| r.tags.contains(t)
}

pub open spec fn located_at(slug: Seq<char>) -> spec_fn(RestaurantView) -> bool {
    |r: RestaurantView| r.location.slug == slug
}

/// The restaurants of `a` at the location with slug `slug`.
pub open spec fn at_location(a: Seq<RestaurantView>, slug: Seq<char>) -> Seq<RestaurantView> {
    a.filter(located_at(slug))
}

/// Every derived entry agrees with the cached list of all restaurants.
pub open spec fn coherent(c: CacheView) -> bool {
    &&& forall|t: FoodType| #[trigger] c.by_food_type.contains_key(t) ==> c.all is Some
        && c.by_food_type[t] == with_food_type(c.all->0, t)
    &&& forall|s: Seq<char>| #[trigger] c.by_location.contains_key(s) ==> c.all is Some
        && c.by_location[s] == at_location(c.all->0, s)
}

/// One query against the cache: the cache after it, and its outcome. A
/// query answered from other cached entries stores what it derived.
pub open spec fn answer(c: CacheView, q: Query) -> (CacheView, StepView) {
    match q {
        Query::AllRestaurants => (c, match c.all {
            Some(a) => StepView::Ready(Answer::Restaurants(a)),
            None => StepView::Fetch(Upstream::AllRestaurants),
        }),
        Query::CoffeeBrand(b) => (c, if c.by_brand.contains_key(b) {
            StepView::Ready(Answer::Restaurants(c.by_brand[b]))
        } else {
            StepView::Fetch(Upstream::CoffeeBrand(b))
        }),
        Query::FoodType(FoodType::Coffee(Some(b))) => (c, if c.by_brand.contains_key(b) {
            StepView::Ready(Answer::Restaurants(c.by_brand[b]))
        } else {
            StepView::Fetch(Upstream::CoffeeBrand(b))
        }),
        Query::FoodType(t) => if c.by_food_type.contains_key(t) {
            (c, StepView::Ready(Answer::Restaurants(c.by_food_type[t])))
        } else {
            match c.all {
                Some(a) => (
                    CacheView { by_food_type: c.by_food_type.insert(t, with_food_type(a, t)), ..c },
                    StepView::Ready(Answer::Restaurants(with_food_type(a, t))),
                ),
                None => (c, StepView::Fetch(Upstream::AllRestaurants)),
            }
        },
        Query::AllLocations => (c, match c.locations {
            Some(l) => StepView::Ready(Answer::Locations(l)),
            None => StepView::Fetch(Upstream::AllLocations),
        }),
        Query::Location(s) => if c.by_location.contains_key(s) {
            (c, StepView::Ready(Answer::Restaurants(c.by_location[s])))
        } else {
            match c.all {
                Some(a) => (
                    CacheView { by_location: c.by_location.insert(s, at_location(a, s)), ..c },
                    StepView::Ready(Answer::Restaurants(at_location(a, s))),
                ),
                None => (c, StepView::Fetch(Upstream::AllRestaurants)),
            }
        },
    }
}

/// Storing what a fetch returned. An entry that is already present stays:
/// a cache entry is written once per epoch.
pub open spec fn fill(c: CacheView, u: Upstream, f: Answer) -> CacheView {
    match (u, f) {
        (Upstream::AllRestaurants, Answer::Restaurants(a)) => if c.all is None {
            CacheView { all: Some(a), ..c }
        } else {
            c
        },
        (Upstream::CoffeeBrand(b), Answer::Restaurants(a)) => if !c.by_brand.contains_key(b) {
            CacheView { by_brand: c.by_brand.insert(b, a), ..c }
        } else {
            c
        },
        (Upstream::AllLocations, Answer::Locations(l)) => if c.locations is None {
            CacheView { locations: Some(l), ..c }
        } else {
            c
        },
        _ => c,
    }
}


/// A query answers from the cache, and answering leaves the cache as it is.
pub open spec fn is_hit(c: CacheView, q: Query) -> bool {
    answer(c, q).1 is Ready && answer(c, q).0 == c
}

/// `f` gives, for each upstream fetch, a result of the kind it returns.
pub open spec fn fetch_fits(f: spec_fn(Upstream) -> Answer) -> bool {
    forall|u: Upstream| match u {
        Upstream::AllLocations => #[trigger] f(u) is Locations,
        _ => f(u) is Restaurants,
    }
}

/// One call of a query as callers run it while holding the cache: ask; on
/// a miss, fetch from upstream (`f` gives what the fetch returns), store,
/// and ask again. The cache afterwards, and the number of fetches made.
pub open spec fn serve(c: CacheView, q: Query, f: spec_fn(Upstream) -> Answer) -> (CacheView, nat) {
    let (c1, s1) = answer(c, q);
    match s1 {
        StepView::Ready(_) => (c1, 0),
        StepView::Fetch(u) => (answer(fill(c1, u, f(u)), q).0, 1),
    }
}

/// `n` calls of the same query, one after the other: the cache afterwards,
/// and the number of fetches made in all.
pub open spec fn serve_many(c: CacheView, q: Query, n: nat, f: spec_fn(Upstream) -> Answer) -> (CacheView, nat)
    decreases n,
{
    if n == 0 {
        (c, 0)
    } else {
        let (c1, k1) = serve(c, q, f);
        let r = serve_many(c1, q, (n - 1) as nat, f);
        (r.0, k1 + r.1)
    }
}

proof fn lemma_serve_then_hit(c: CacheView, q: Query, f: spec_fn(Upstream) -> Answer)
    requires
        fetch_fits(f),
    ensures
        is_hit(serve(c, q, f).0, q),
{
    let (c1, s1) = answer(c, q);
    if let StepView::Fetch(u) = s1 {
        let fu = f(u);
        assert(match u {
            Upstream::AllLocations => fu is Locations,
            _ => fu is Restaurants,
        });
    }
}

proof fn lemma_hits_stay(c: CacheView, q: Query, n: nat, f: spec_fn(Upstream) -> Answer)
    requires
        is_hit(c, q),
    ensures
        serve_many(c, q, n, f) == (c, 0nat),
    decreases n,
{
    if n > 0 {
        lemma_hits_stay(c, q, (n - 1) as nat, f);
    }
}

/// Single flight: however many callers make the same query one after the
/// other, starting from a cache that misses it, upstream is fetched once.
pub proof fn lemma_single_flight(c: CacheView, q: Query, n: nat, f: spec_fn(Upstream) -> Answer)
    requires
        fetch_fits(f),
        n >= 1,
        answer(c, q).1 is Fetch,
    ensures
        serve_many(c, q, n, f).1 == 1,
{
    lemma_serve_then_hit(c, q, f);
    lemma_hits_stay(serve(c, q, f).0, q, (n - 1) as nat, f);
}

/// An upstream that answers every restaurant fetch with `v` and the location
/// listing with `ls`.
pub open spec fn upstream_answering(v: Seq<RestaurantView>, ls: Seq<LocationView>) -> spec_fn(Upstream) -> Answer {
    |u: Upstream| match u {
        Upstream::AllLocations => Answer::Locations(ls),
        _ => Answer::Restaurants(v),
    }
}

proof fn lemma_upstream_answering_fits(v: Seq<RestaurantView>, ls: Seq<LocationView>)
    ensures
        fetch_fits(upstream_answering(v, ls)),
{
    assert forall|u: Upstream| match u {
        Upstream::AllLocations => #[trigger] upstream_answering(v, ls)(u) is Locations,
        _ => upstream_answering(v, ls)(u) is Restaurants,
    } by {}
}

/// After the first of `n` calls, the cache answers the query without I/O,
/// and every call in the run answers with what it then holds.
proof fn lemma_serve_many_settles(c: CacheView, q: Query, n: nat, f: spec_fn(Upstream) -> Answer)
    requires
        fetch_fits(f),
        n >= 1,
    ensures
        serve_many(c, q, n, f).0 == serve(c, q, f).0,
        is_hit(serve(c, q, f).0, q),
{
    lemma_serve_then_hit(c, q, f);
    lemma_hits_stay(serve(c, q, f).0, q, (n - 1) as nat, f);
}

/// Single flight on the list of all restaurants: `n` calls one after the
/// other on a cache that holds no such list fetch it once, and every call
/// answers with the fetched list `v`.
pub proof fn lemma_single_flight_all_restaurants(c: CacheView, n: nat, v: Seq<RestaurantView>, ls: Seq<LocationView>)
    requires
        n >= 1,
        c.all is None,
    ensures
        serve_many(c, Query::AllRestaurants, n, upstream_answering(v, ls)).1 == 1,
        answer(serve_many(c, Query::AllRestaurants, n, upstream_answering(v, ls)).0, Query::AllRestaurants)
            == (serve_many(c, Query::AllRestaurants, n, upstream_answering(v, ls)).0, StepView::Ready(Answer::Restaurants(v))),
{
    let f = upstream_answering(v, ls);
    lemma_upstream_answering_fits(v, ls);
    lemma_single_flight(c, Query::AllRestaurants, n, f);
    lemma_serve_many_settles(c, Query::AllRestaurants, n, f);
}

/// Single flight on a coffee brand's page: `n` calls one after the other on
/// a cache without an entry for `b` fetch the page once, and every call
/// answers with the fetched list `v`.
pub proof fn lemma_single_flight_coffee_brand(c: CacheView, b: CoffeeBrand, n: nat, v: Seq<RestaurantView>, ls: Seq<LocationView>)
    requires
        n >= 1,
        !c.by_brand.contains_key(b),
    ensures
        serve_many(c, Query::CoffeeBrand(b), n, upstream_answering(v, ls)).1 == 1,
        answer(serve_many(c, Query::CoffeeBrand(b), n, upstream_answering(v, ls)).0, Query::CoffeeBrand(b))
            == (serve_many(c, Query::CoffeeBrand(b), n, upstream_answering(v, ls)).0, StepView::Ready(Answer::Restaurants(v))),
{
    let f = upstream_answering(v, ls);
    lemma_upstream_answering_fits(v, ls);
    lemma_single_flight(c, Query::CoffeeBrand(b), n, f);
    lemma_serve_many_settles(c, Query::CoffeeBrand(b), n, f);
}

/// Single flight on the location listing: `n` calls one after the other on
/// a cache that holds no listing fetch it once, and every call answers with
/// the fetched listing `ls`.
pub proof fn lemma_single_flight_locations(c: CacheView, n: nat, v: Seq<RestaurantView>, ls: Seq<LocationView>)
    requires
        n >= 1,
        c.locations is None,
    ensures
        serve_many(c, Query::AllLocations, n, upstream_answering(v, ls)).1 == 1,
        answer(serve_many(c, Query::AllLocations, n, upstream_answering(v, ls)).0, Query::AllLocations)
            == (serve_many(c, Query::AllLocations, n, upstream_answering(v, ls)).0, StepView::Ready(Answer::Locations(ls))),
{
    let f = upstream_answering(v, ls);
    lemma_upstream_answering_fits(v, ls);
    lemma_single_flight(c, Query::AllLocations, n, f);
    lemma_serve_many_settles(c, Query::AllLocations, n, f);
}

/// After an invalidation every query misses, so its next call fetches from
/// upstream, whatever was cached before.
pub proof fn lemma_invalidated_misses(q: Query)
    ensures
        answer(empty_cache(), q).1 is Fetch,
{
}

/// For a food type without a brand, the answer is exactly the cached list
/// of all restaurants filtered to those tagged with it.
pub proof fn lemma_food_type_is_filter(c: CacheView, t: FoodType)
    requires
        coherent(c),
        !is_branded(t),
    ensures
        answer(c, Query::FoodType(t)).1 is Ready ==> c.all is Some
            && answer(c, Query::AllRestaurants).1 == StepView::Ready(Answer::Restaurants(c.all->0))
            && answer(c, Query::FoodType(t)).1 == StepView::Ready(Answer::Restaurants(with_food_type(c.all->0, t))),
{
}

/// The restaurants of a location are exactly the cached list of all
/// restaurants filtered to those whose location has that slug.
pub proof fn lemma_location_is_filter(c: CacheView, slug: Seq<char>)
    requires
        coherent(c),
    ensures
        answer(c, Query::Location(slug)).1 is Ready ==> c.all is Some
            && answer(c, Query::AllRestaurants).1 == StepView::Ready(Answer::Restaurants(c.all->0))
            && answer(c, Query::Location(slug)).1 == StepView::Ready(Answer::Restaurants(at_location(c.all->0, slug))),
{
}

/// Answering keeps the cache coherent.
pub proof fn lemma_answer_coherent(c: CacheView, q: Query)
    requires
        coherent(c),
    ensures
        coherent(answer(c, q).0),
{
}

/// Storing a fetched result keeps the cache coherent.
pub proof fn lemma_fill_coherent(c: CacheView, u: Upstream, f: Answer)
    requires
        coherent(c),
    ensures
        coherent(fill(c, u, f)),
{
}


fn has_tag(tags: &Vec<FoodType>, t: FoodType) -> (r: bool)
    ensures
        r == tags@.contains(t),
{
    let mut k: usize = 0;
    while k < tags.len()
        invariant
            k <= tags.len(),
            forall|q: int| 0 <= q < k ==> tags@[q] != t,
        decreases tags.len() - k,
    {
        if tags[k] == t {
            return true;
        }
        k += 1;
    }
    false
}

/// The restaurants of `all` whose tags contain `t`, in order.
pub fn filter_food_type(all: &Vec<Restaurant>, t: FoodType) -> (r: Vec<Restaurant>)
    ensures
        views_of_restaurants(r@) == with_food_type(views_of_restaurants(all@), t),
{
    let ghost a = views_of_restaurants(all@);
    let mut out: Vec<Restaurant> = Vec::new();
    let mut k: usize = 0;
    proof {
        reveal(Seq::filter);
        assert(a.subrange(0, 0) =~= Seq::<RestaurantView>::empty());
    }
    while k < all.len()
        invariant
            a == views_of_restaurants(all@),
            k <= all.len(),
            views_of_restaurants(out@) == a.subrange(0, k as int).filter(tagged_with(t)),
        decreases all.len() - k,
    {
        proof {
            assert(a.subrange(0, k + 1) =~= a.subrange(0, k as int).push(a[k as int]));
            a.subrange(0, k as int).lemma_filter_push(a[k as int], tagged_with(t));
        }
        let ghost before = out@;
        if has_tag(&all[k].tags, t) {
            let x = copy_restaurant(&all[k]);
            out.push(x);
            assert(views_of_restaurants(out@) =~= views_of_restaurants(before).push(x@));
        }
        k += 1;
    }
    assert(a.subrange(0, k as int) =~= a);
    out
}

fn filter_location(all: &Vec<Restaurant>, slug: &String) -> (r: Vec<Restaurant>)
    ensures
        views_of_restaurants(r@) == at_location(views_of_restaurants(all@), slug@),
{
    let ghost a = views_of_restaurants(all@);
    let mut out: Vec<Restaurant> = Vec::new();
    let mut k: usize = 0;
    proof {
        reveal(Seq::filter);
        assert(a.subrange(0, 0) =~= Seq::<RestaurantView>::empty());
    }
    while k < all.len()
        invariant
            a == views_of_restaurants(all@),
            k <= all.len(),
            views_of_restaurants(out@) == a.subrange(0, k as int).filter(located_at(slug@)),
        decreases all.len() - k,
    {
        proof {
            assert(a.subrange(0, k + 1) =~= a.subrange(0, k as int).push(a[k as int]));
            a.subrange(0, k as int).lemma_filter_push(a[k as int], located_at(slug@));
        }
        let ghost before = out@;
        if same_text(all[k].location.slug.as_str(), slug.as_str()) {
            let x = copy_restaurant(&all[k]);
            out.push(x);
            assert(views_of_restaurants(out@) =~= views_of_restaurants(before).push(x@));
        }
        k += 1;
    }
    assert(a.subrange(0, k as int) =~= a);
    out
}

pub open spec fn food_type_entries(v: Seq<(FoodType, Vec<Restaurant>)>) -> Seq<(FoodType, Seq<RestaurantView>)> {
    v.map_values(|e: (FoodType, Vec<Restaurant>)| (e.0, views_of_restaurants(e.1@)))
}

pub open spec fn brand_entries(v: Seq<(CoffeeBrand, Vec<Restaurant>)>) -> Seq<(CoffeeBrand, Seq<RestaurantView>)> {
    v.map_values(|e: (CoffeeBrand, Vec<Restaurant>)| (e.0, views_of_restaurants(e.1@)))
}

pub open spec fn location_entries(v: Seq<(String, Vec<Restaurant>)>) -> Seq<(Seq<char>, Seq<RestaurantView>)> {
    v.map_values(|e: (String, Vec<Restaurant>)| (e.0@, views_of_restaurants(e.1@)))
}

fn find_food_type(entries: &Vec<(FoodType, Vec<Restaurant>)>, t: FoodType) -> (r: Option<usize>)
    ensures
        match r {
            Some(i) => i < entries@.len() && entries_map(food_type_entries(entries@)).contains_key(t)
                && entries_map(food_type_entries(entries@))[t] == views_of_restaurants(entries@[i as int].1@),
            None => !entries_map(food_type_entries(entries@)).contains_key(t),
        },
{
    let ghost s = food_type_entries(entries@);
    let mut k: usize = 0;
    while k < entries.len()
        invariant
            s == food_type_entries(entries@),
            k <= entries.len(),
            forall|q: int| 0 <= q < k ==> (#[trigger] s[q]).0 != t,
        decreases entries.len() - k,
    {
        if entries[k].0 == t {
            proof {
                lemma_entries_map_first(s, k as int);
            }
            return Some(k);
        }
        k += 1;
    }
    proof {
        lemma_entries_map_absent(s, t);
    }
    None
}

fn find_brand(entries: &Vec<(CoffeeBrand, Vec<Restaurant>)>, b: CoffeeBrand) -> (r: Option<usize>)
    ensures
        match r {
            Some(i) => i < entries@.len() && entries_map(brand_entries(entries@)).contains_key(b)
                && entries_map(brand_entries(entries@))[b] == views_of_restaurants(entries@[i as int].1@),
            None => !entries_map(brand_entries(entries@)).contains_key(b),
        },
{
    let ghost s = brand_entries(entries@);
    let mut k: usize = 0;
    while k < entries.len()
        invariant
            s == brand_entries(entries@),
            k <= entries.len(),
            forall|q: int| 0 <= q < k ==> (#[trigger] s[q]).0 != b,
        decreases entries.len() - k,
    {
        if entries[k].0 == b {
            proof {
                lemma_entries_map_first(s, k as int);
            }
            return Some(k);
        }
        k += 1;
    }
    proof {
        lemma_entries_map_absent(s, b);
    }
    None
}

fn find_location(entries: &Vec<(String, Vec<Restaurant>)>, slug: &String) -> (r: Option<usize>)
    ensures
        match r {
            Some(i) => i < entries@.len() && entries_map(location_entries(entries@)).contains_key(slug@)
                && entries_map(location_entries(entries@))[slug@] == views_of_restaurants(entries@[i as int].1@),
            None => !entries_map(location_entries(entries@)).contains_key(slug@),
        },
{
    let ghost s = location_entries(entries@);
    let mut k: usize = 0;
    while k < entries.len()
        invariant
            s == location_entries(entries@),
            k <= entries.len(),
            forall|q: int| 0 <= q < k ==> (#[trigger] s[q]).0 != slug@,
        decreases entries.len() - k,
    {
        if same_text(entries[k].0.as_str(), slug.as_str()) {
            proof {
                lemma_entries_map_first(s, k as int);
            }
            return Some(k);
        }
        k += 1;
    }
    proof {
        lemma_entries_map_absent(s, slug@);
    }
    None
}


/// The memoized results of the five queries. Derived entries (by food type,
/// by location) always agree with the cached list of all restaurants.
pub struct Cache {
    restaurants_all: Option<Vec<Restaurant>>,
    restaurants_food_type: Vec<(FoodType, Vec<Restaurant>)>,
    restaurants_coffee_brand: Vec<(CoffeeBrand, Vec<Restaurant>)>,
    locations_all: Option<Vec<Location>>,
    location_restaurants: Vec<(String, Vec<Restaurant>)>,
}

pub open spec fn all_view(o: Option<Vec<Restaurant>>) -> Option<Seq<RestaurantView>> {
    match o {
        Some(v) => Some(views_of_restaurants(v@)),
        None => None,
    }
}

pub open spec fn locations_opt_view(o: Option<Vec<Location>>) -> Option<Seq<LocationView>> {
    match o {
        Some(v) => Some(locations_view(v@)),
        None => None,
    }
}

/// What a step over restaurants says, or `None` for an internal error.
pub open spec fn restaurants_step(r: Step<Vec<Restaurant>>) -> Option<StepView> {
    match r {
        Step::Ready(Ok(v)) => Some(StepView::Ready(Answer::Restaurants(views_of_restaurants(v@)))),
        Step::Ready(Err(_)) => None,
        Step::Fetch(u) => Some(StepView::Fetch(u)),
    }
}

/// What a step over locations says, or `None` for an internal error.
pub open spec fn locations_step(r: Step<Vec<Location>>) -> Option<StepView> {
    match r {
        Step::Ready(Ok(v)) => Some(StepView::Ready(Answer::Locations(locations_view(v@)))),
        Step::Ready(Err(_)) => None,
        Step::Fetch(u) => Some(StepView::Fetch(u)),
    }
}

impl View for Cache {
    type V = CacheView;

    closed spec fn view(&self) -> CacheView {
        CacheView {
            all: all_view(self.restaurants_all),
            by_food_type: entries_map(food_type_entries(self.restaurants_food_type@)),
            by_brand: entries_map(brand_entries(self.restaurants_coffee_brand@)),
            locations: locations_opt_view(self.locations_all),
            by_location: entries_map(location_entries(self.location_restaurants@)),
        }
    }
}

impl Cache {
    pub open spec fn wf(&self) -> bool {
        coherent(self@)
    }

    /// An empty cache.
    pub fn new() -> (r: Cache)
        ensures
            r@ == empty_cache(),
            r.wf(),
    {
        let r = Cache {
            restaurants_all: None,
            restaurants_food_type: Vec::new(),
            restaurants_coffee_brand: Vec::new(),
            locations_all: None,
            location_restaurants: Vec::new(),
        };
        assert(entries_map(food_type_entries(r.restaurants_food_type@)) =~= Map::empty());
        assert(entries_map(brand_entries(r.restaurants_coffee_brand@)) =~= Map::empty());
        assert(entries_map(location_entries(r.location_restaurants@)) =~= Map::empty());
        r
    }

    /// Forgets every cached value; every later query misses.
    pub fn invalidate(&mut self)
        ensures
            final(self)@ == empty_cache(),
            final(self).wf(),
    {
        *self = Cache::new();
    }

    /// All restaurants of all locations.
    pub fn restaurants_all(&mut self) -> (r: Step<Vec<Restaurant>>)
        requires
            old(self).wf(),
        ensures
            final(self).wf(),
            final(self)@ == answer(old(self)@, Query::AllRestaurants).0,
            restaurants_step(r) == Some(answer(old(self)@, Query::AllRestaurants).1),
    {
        match &self.restaurants_all {
            Some(all) => Step::Ready(Ok(copy_restaurants(all))),
            None => Step::Fetch(Upstream::AllRestaurants),
        }
    }

    /// The restaurants that serve a coffee brand, from the brand's own page.
    pub fn restaurants_coffee_brand(&mut self, coffee_brand: CoffeeBrand) -> (r: Step<Vec<Restaurant>>)
        requires
            old(self).wf(),
        ensures
            final(self).wf(),
            final(self)@ == answer(old(self)@, Query::CoffeeBrand(coffee_brand)).0,
            restaurants_step(r) == Some(answer(old(self)@, Query::CoffeeBrand(coffee_brand)).1),
    {
        match find_brand(&self.restaurants_coffee_brand, coffee_brand) {
            Some(i) => Step::Ready(Ok(copy_restaurants(&self.restaurants_coffee_brand[i].1))),
            None => Step::Fetch(Upstream::CoffeeBrand(coffee_brand)),
        }
    }

    /// The restaurants that serve a food type. A specific coffee brand is
    /// answered from the brand's page; any other food type by filtering all
    /// restaurants, the result being kept for later calls.
    pub fn restaurants_food_type(&mut self, food_type: FoodType) -> (r: Step<Vec<Restaurant>>)
        requires
            old(self).wf(),
        ensures
            final(self).wf(),
            final(self)@ == answer(old(self)@, Query::FoodType(food_type)).0,
            restaurants_step(r) == Some(answer(old(self)@, Query::FoodType(food_type)).1),
    {
        if let FoodType::Coffee(Some(b)) = food_type {
            return self.restaurants_coffee_brand(b);
        }
        if let Some(i) = find_food_type(&self.restaurants_food_type, food_type) {
            return Step::Ready(Ok(copy_restaurants(&self.restaurants_food_type[i].1)));
        }
        let derived = match &self.restaurants_all {
            Some(all) => filter_food_type(all, food_type),
            None => {
                return Step::Fetch(Upstream::AllRestaurants);
            },
        };
        let ghost before = food_type_entries(self.restaurants_food_type@);
        let ghost dv = views_of_restaurants(derived@);
        self.restaurants_food_type.push((food_type, derived));
        proof {
            assert(food_type_entries(self.restaurants_food_type@) =~= before.push((food_type, dv)));
            lemma_entries_map_push(before, food_type, dv);
            lemma_answer_coherent(old(self)@, Query::FoodType(food_type));
        }
        match find_food_type(&self.restaurants_food_type, food_type) {
            Some(i) => Step::Ready(Ok(copy_restaurants(&self.restaurants_food_type[i].1))),
            None => Step::Ready(Err(Error::CacheConsistency)),
        }
    }

    /// All locations.
    pub fn locations_all(&mut self) -> (r: Step<Vec<Location>>)
        requires
            old(self).wf(),
        ensures
            final(self).wf(),
            final(self)@ == answer(old(self)@, Query::AllLocations).0,
            locations_step(r) == Some(answer(old(self)@, Query::AllLocations).1),
    {
        match &self.locations_all {
            Some(all) => Step::Ready(Ok(copy_locations(all))),
            None => Step::Fetch(Upstream::AllLocations),
        }
    }

    /// The restaurants at a location, matched by slug, derived from all
    /// restaurants and kept for later calls.
    pub fn location_restaurants(&mut self, location: &Location) -> (r: Step<Vec<Restaurant>>)
        requires
            old(self).wf(),
        ensures
            final(self).wf(),
            final(self)@ == answer(old(self)@, Query::Location(location.slug@)).0,
            restaurants_step(r) == Some(answer(old(self)@, Query::Location(location.slug@)).1),
    {
        if let Some(i) = find_location(&self.location_restaurants, &location.slug) {
            return Step::Ready(Ok(copy_restaurants(&self.location_restaurants[i].1)));
        }
        let derived = match &self.restaurants_all {
            Some(all) => filter_location(all, &location.slug),
            None => {
                return Step::Fetch(Upstream::AllRestaurants);
            },
        };
        let ghost before = location_entries(self.location_restaurants@);
        let ghost dv = views_of_restaurants(derived@);
        let key = copy_string(&location.slug);
        self.location_restaurants.push((key, derived));
        proof {
            assert(location_entries(self.location_restaurants@) =~= before.push((location.slug@, dv)));
            lemma_entries_map_push(before, location.slug@, dv);
            lemma_answer_coherent(old(self)@, Query::Location(location.slug@));
        }
        match find_location(&self.location_restaurants, &location.slug) {
            Some(i) => Step::Ready(Ok(copy_restaurants(&self.location_restaurants[i].1))),
            None => Step::Ready(Err(Error::CacheConsistency)),
        }
    }

    /// Stores the fetched list of all restaurants, unless one is cached.
    pub fn store_restaurants_all(&mut self, fetched: Vec<Restaurant>)
        requires
            old(self).wf(),
        ensures
            final(self).wf(),
            final(self)@ == fill(old(self)@, Upstream::AllRestaurants, Answer::Restaurants(views_of_restaurants(fetched@))),
    {
        if self.restaurants_all.is_none() {
            self.restaurants_all = Some(fetched);
        }
        proof {
            lemma_fill_coherent(old(self)@, Upstream::AllRestaurants, Answer::Restaurants(views_of_restaurants(fetched@)));
        }
    }

    /// Stores the fetched restaurants of a coffee brand, unless some are cached.
    pub fn store_coffee_brand(&mut self, coffee_brand: CoffeeBrand, fetched: Vec<Restaurant>)
        requires
            old(self).wf(),
        ensures
            final(self).wf(),
            final(self)@ == fill(old(self)@, Upstream::CoffeeBrand(coffee_brand), Answer::Restaurants(views_of_restaurants(fetched@))),
    {
        if find_brand(&self.restaurants_coffee_brand, coffee_brand).is_none() {
            let ghost before = brand_entries(self.restaurants_coffee_brand@);
            let ghost fv = views_of_restaurants(fetched@);
            self.restaurants_coffee_brand.push((coffee_brand, fetched));
            proof {
                assert(brand_entries(self.restaurants_coffee_brand@) =~= before.push((coffee_brand, fv)));
                lemma_entries_map_push(before, coffee_brand, fv);
            }
        }
        proof {
            lemma_fill_coherent(old(self)@, Upstream::CoffeeBrand(coffee_brand), Answer::Restaurants(views_of_restaurants(fetched@)));
        }
    }

    /// Stores the fetched location listing, unless one is cached.
    pub fn store_locations_all(&mut self, fetched: Vec<Location>)
        requires
            old(self).wf(),
        ensures
            final(self).wf(),
            final(self)@ == fill(old(self)@, Upstream::AllLocations, Answer::Locations(locations_view(fetched@))),
    {
        if self.locations_all.is_none() {
            self.locations_all = Some(fetched);
        }
        proof {
            lemma_fill_coherent(old(self)@, Upstream::AllLocations, Answer::Locations(locations_view(fetched@)));
        }
    }
}

} // verus!
