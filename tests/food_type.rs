use maceats::{CoffeeBrand, Error, FoodType};

const BRANDS: [CoffeeBrand; 5] = [
    CoffeeBrand::Marley,
    CoffeeBrand::Rejuvenate,
    CoffeeBrand::Starbucks,
    CoffeeBrand::TimHortons,
    CoffeeBrand::Williams,
];

fn all_food_types() -> Vec<FoodType> {
    let mut v = vec![
        FoodType::Breakfast,
        FoodType::Coffee(None),
        FoodType::Convenience,
        FoodType::Dessert,
        FoodType::GlutenFree,
        FoodType::Grill,
        FoodType::Halal,
        FoodType::Kosher,
        FoodType::Noodles,
        FoodType::Pasta,
        FoodType::Pizza,
        FoodType::Sandwiches,
        FoodType::Snacks,
        FoodType::Soup,
        FoodType::Sushi,
        FoodType::Vegetarian,
    ];
    for b in BRANDS {
        v.push(FoodType::Coffee(Some(b)));
    }
    v
}

#[test]
fn food_type_round_trip_every_variant() {
    for t in all_food_types() {
        assert_eq!(FoodType::parse(&t.name()), Ok(t));
    }
}

#[test]
fn coffee_brand_round_trip_every_variant() {
    for b in BRANDS {
        assert_eq!(CoffeeBrand::parse(b.name()), Ok(b));
    }
}

#[test]
fn food_type_names() {
    assert_eq!(FoodType::GlutenFree.name(), "Gluten Free");
    assert_eq!(FoodType::Coffee(None).name(), "Coffee");
    assert_eq!(FoodType::Coffee(Some(CoffeeBrand::TimHortons)).name(), "Coffee (Tim Hortons)");
    assert_eq!(CoffeeBrand::TimHortons.name(), "Tim Hortons");
}

#[test]
fn food_type_parse_is_case_sensitive() {
    assert_eq!(FoodType::parse("pizza"), Err(Error::EnumParse("pizza".to_string())));
    assert_eq!(FoodType::parse("Pizza"), Ok(FoodType::Pizza));
}

#[test]
fn food_type_parse_unknown() {
    assert_eq!(FoodType::parse("Tacos"), Err(Error::EnumParse("Tacos".to_string())));
    assert_eq!(FoodType::parse(""), Err(Error::EnumParse(String::new())));
    assert_eq!(
        FoodType::parse("Coffee (Nescafe)"),
        Err(Error::EnumParse("Coffee (Nescafe)".to_string()))
    );
    assert_eq!(FoodType::parse("Coffee ("), Err(Error::EnumParse("Coffee (".to_string())));
}

#[test]
fn coffee_brand_parse_is_exact() {
    assert_eq!(CoffeeBrand::parse("Tim Hortons"), Ok(CoffeeBrand::TimHortons));
    assert_eq!(CoffeeBrand::parse("tim hortons"), Err(Error::EnumParse("tim hortons".to_string())));
    assert_eq!(CoffeeBrand::parse("Starbucks "), Err(Error::EnumParse("Starbucks ".to_string())));
}

#[test]
fn food_type_urls() {
    assert_eq!(
        FoodType::GlutenFree.url(),
        Some("https://maceats.mcmaster.ca/types/gluten-free".to_string())
    );
    assert_eq!(FoodType::Coffee(None).url(), None);
    assert_eq!(
        FoodType::Coffee(Some(CoffeeBrand::TimHortons)).url(),
        Some("https://maceats.mcmaster.ca/types/coffee/tim-hortons".to_string())
    );
    assert_eq!(CoffeeBrand::Marley.url(), "https://maceats.mcmaster.ca/types/coffee/marley");
}

#[test]
fn food_type_ranks_follow_declaration_order() {
    let all = all_food_types();
    let mut sorted = all.clone();
    sorted.sort();
    let ranks: Vec<u8> = sorted.iter().map(|t| t.rank()).collect();
    let expected: Vec<u8> = (0..21).collect();
    assert_eq!(ranks, expected);
}

#[test]
fn food_type_from_str() {
    assert_eq!("Sushi".parse::<FoodType>(), Ok(FoodType::Sushi));
    assert_eq!("Williams".parse::<CoffeeBrand>(), Ok(CoffeeBrand::Williams));
    assert!("sushi".parse::<FoodType>().is_err());
}

#[test]
fn any_coffee_has_no_page_of_its_own() {
    assert_eq!(FoodType::Coffee(None).urls(), Vec::<String>::new());
    assert_eq!(
        FoodType::Coffee(Some(CoffeeBrand::Williams)).urls(),
        vec![CoffeeBrand::Williams.url()]
    );
    assert_eq!(FoodType::Soup.urls(), vec!["https://maceats.mcmaster.ca/types/soup".to_string()]);
}

#[test]
fn from_str_round_trips_every_variant() {
    for t in all_food_types() {
        assert_eq!(t.name().parse::<FoodType>(), Ok(t));
    }
    for b in BRANDS {
        assert_eq!(b.name().parse::<CoffeeBrand>(), Ok(b));
    }
}

#[test]
fn from_str_is_exact() {
    assert_eq!("BREAKFAST".parse::<FoodType>(), Err(Error::EnumParse("BREAKFAST".to_string())));
    assert_eq!(" Breakfast".parse::<FoodType>(), Err(Error::EnumParse(" Breakfast".to_string())));
    assert_eq!("TimHortons".parse::<CoffeeBrand>(), Err(Error::EnumParse("TimHortons".to_string())));
}
