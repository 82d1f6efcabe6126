use maceats::cache::{Cache, Step, Upstream};
use maceats::{CoffeeBrand, FoodType, Location, Restaurant};

fn restaurant(name: &str, location: &str, tags: Vec<FoodType>) -> Restaurant {
    Restaurant {
        name: name.to_string(),
        location: Location::new(location),
        location_details: None,
        location_phone: None,
        schedule: None,
        tags,
    }
}

fn upstream_restaurants() -> Vec<Restaurant> {
    vec![
        restaurant("Bridges", "Student Centre", vec![FoodType::Breakfast, FoodType::Pizza]),
        restaurant("Centro", "Commons", vec![FoodType::Pizza, FoodType::Vegetarian]),
        restaurant("Tims", "Student Centre", vec![FoodType::Coffee(None)]),
    ]
}

fn brand_restaurants() -> Vec<Restaurant> {
    vec![restaurant("Tims", "Student Centre", vec![FoodType::Coffee(None)])]
}

/// A stand-in for the upstream site that counts the fetches made.
struct Upstreams {
    fetches: usize,
}

impl Upstreams {
    fn serve(&mut self, cache: &mut Cache, ask: &dyn Fn(&mut Cache) -> Step<Vec<Restaurant>>) -> Vec<Restaurant> {
        loop {
            match ask(cache) {
                Step::Ready(r) => return r.unwrap(),
                Step::Fetch(u) => {
                    self.fetches += 1;
                    match u {
                        Upstream::AllRestaurants => cache.store_restaurants_all(upstream_restaurants()),
                        Upstream::CoffeeBrand(b) => cache.store_coffee_brand(b, brand_restaurants()),
                        Upstream::AllLocations => panic!("no location listing expected"),
                    }
                }
            }
        }
    }
}

#[test]
fn repeated_calls_fetch_once() {
    let mut cache = Cache::new();
    let mut up = Upstreams { fetches: 0 };
    for _ in 0..8 {
        let got = up.serve(&mut cache, &|c| c.restaurants_food_type(FoodType::Pizza));
        assert_eq!(got.len(), 2);
    }
    assert_eq!(up.fetches, 1);
    for _ in 0..8 {
        up.serve(&mut cache, &|c| c.restaurants_all());
    }
    assert_eq!(up.fetches, 1);
}

#[test]
fn invalidate_forces_a_new_fetch() {
    let mut cache = Cache::new();
    let mut up = Upstreams { fetches: 0 };
    up.serve(&mut cache, &|c| c.restaurants_all());
    up.serve(&mut cache, &|c| c.restaurants_coffee_brand(CoffeeBrand::TimHortons));
    assert_eq!(up.fetches, 2);
    cache.invalidate();
    assert!(matches!(cache.restaurants_all(), Step::Fetch(Upstream::AllRestaurants)));
    assert!(matches!(
        cache.restaurants_coffee_brand(CoffeeBrand::TimHortons),
        Step::Fetch(Upstream::CoffeeBrand(CoffeeBrand::TimHortons))
    ));
    assert!(matches!(cache.locations_all(), Step::Fetch(Upstream::AllLocations)));
    assert!(matches!(
        cache.restaurants_food_type(FoodType::Pizza),
        Step::Fetch(Upstream::AllRestaurants)
    ));
    up.serve(&mut cache, &|c| c.restaurants_all());
    assert_eq!(up.fetches, 3);
}

#[test]
fn food_type_answer_is_the_filtered_list() {
    let mut cache = Cache::new();
    let mut up = Upstreams { fetches: 0 };
    let all = up.serve(&mut cache, &|c| c.restaurants_all());
    for t in [FoodType::Pizza, FoodType::Breakfast, FoodType::Sushi, FoodType::Coffee(None)] {
        let got = up.serve(&mut cache, &|c| c.restaurants_food_type(t));
        let expected: Vec<Restaurant> = all.iter().filter(|r| r.tags.contains(&t)).cloned().collect();
        assert_eq!(got, expected);
    }
    assert_eq!(up.fetches, 1);
}

#[test]
fn branded_coffee_comes_from_the_brand_page() {
    let mut cache = Cache::new();
    let mut up = Upstreams { fetches: 0 };
    let got = up.serve(&mut cache, &|c| c.restaurants_food_type(FoodType::Coffee(Some(CoffeeBrand::Marley))));
    assert_eq!(got, brand_restaurants());
    assert_eq!(up.fetches, 1);
    let again = up.serve(&mut cache, &|c| c.restaurants_coffee_brand(CoffeeBrand::Marley));
    assert_eq!(again, brand_restaurants());
    assert_eq!(up.fetches, 1);
}

#[test]
fn location_answer_matches_by_slug() {
    let mut cache = Cache::new();
    let mut up = Upstreams { fetches: 0 };
    let here = Location::new("Student   Centre");
    let got = up.serve(&mut cache, &|c| c.location_restaurants(&here));
    let names: Vec<&str> = got.iter().map(|r| r.name.as_str()).collect();
    assert_eq!(names, vec!["Bridges", "Tims"]);
    assert_eq!(up.fetches, 1);
}

#[test]
fn locations_are_cached() {
    let mut cache = Cache::new();
    assert!(matches!(cache.locations_all(), Step::Fetch(Upstream::AllLocations)));
    cache.store_locations_all(vec![Location::new("Commons")]);
    match cache.locations_all() {
        Step::Ready(Ok(v)) => assert_eq!(v, vec![Location::new("Commons")]),
        _ => panic!("expected a cached answer"),
    }
}

#[test]
fn a_second_store_keeps_the_first_value() {
    let mut cache = Cache::new();
    cache.store_restaurants_all(upstream_restaurants());
    cache.store_restaurants_all(vec![]);
    match cache.restaurants_all() {
        Step::Ready(Ok(v)) => assert_eq!(v, upstream_restaurants()),
        _ => panic!("expected a cached answer"),
    }
}

#[test]
fn filtering_by_food_type_keeps_order() {
    let got = maceats::cache::filter_food_type(&upstream_restaurants(), FoodType::Pizza);
    let names: Vec<&str> = got.iter().map(|r| r.name.as_str()).collect();
    assert_eq!(names, vec!["Bridges", "Centro"]);
    assert!(maceats::cache::filter_food_type(&upstream_restaurants(), FoodType::Sushi).is_empty());
}
