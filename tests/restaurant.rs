use maceats::document::Document;
use maceats::{CoffeeBrand, Date, Error, FoodType, Location, Open, Part, Restaurant, TimeOfDay, Times};

const TODAY: Date = Date { days_from_ce: 738_000 };

fn day(k: i64) -> Date {
    Date { days_from_ce: TODAY.days_from_ce + k }
}

fn nine_to_five() -> Times {
    Times::Open(vec![Open { from: TimeOfDay { hour: 9, minute: 0 }, to: TimeOfDay { hour: 17, minute: 0 } }])
}

const LISTING: &str = r#"<!DOCTYPE html><html><body>
<div class="unit">
  <h1 class="title">
    Bridges Cafe
  </h1>
  <h2 class="location">Student Centre</h2>
  <div class="location-data">Room 101</div>
  <div class="location-phone">905-555-0100</div>
  <div class="schedule"><table><tr>
    <td class="time">9 am - 5 pm</td><td class="time">Closed</td><td class="time">9:00 am - 5:00 pm</td>
    <td class="time">Closed</td><td class="time">Closed</td><td class="time">Closed</td>
    <td class="time">Closed</td><td class="time">not a time</td>
  </tr></table></div>
  <ul class="tags"><li>Pizza</li><li>Coffee (Starbucks)</li><li>Breakfast</li><li>Pizza</li></ul>
</div>
<div class="unit">
  <h1 class="title">Tim Hortons</h1>
  <h2 class="location">Hamilton For Hall</h2>
</div>
</body></html>"#;

#[test]
fn restaurant_listing_is_read_in_order() {
    let doc = Document::parse(LISTING);
    let restaurants = Restaurant::from_restaurant_list(&doc, TODAY).unwrap();
    assert_eq!(restaurants.len(), 2);

    let first = &restaurants[0];
    assert_eq!(first.name, "Bridges Cafe");
    assert_eq!(first.location, Location::new("Student Centre"));
    assert_eq!(first.location_details, Some("Room 101".to_string()));
    assert_eq!(first.location_phone, Some("905-555-0100".to_string()));
    assert_eq!(
        first.schedule,
        Some(vec![
            (day(0), nine_to_five()),
            (day(1), Times::Closed),
            (day(2), nine_to_five()),
            (day(3), Times::Closed),
            (day(4), Times::Closed),
            (day(5), Times::Closed),
            (day(6), Times::Closed),
        ])
    );
    assert_eq!(
        first.tags,
        vec![FoodType::Breakfast, FoodType::Coffee(Some(CoffeeBrand::Starbucks)), FoodType::Pizza]
    );

    let second = &restaurants[1];
    assert_eq!(second.name, "Tim Hortons");
    assert_eq!(second.location.slug, "hamilton-hall");
    assert_eq!(second.location_details, None);
    assert_eq!(second.location_phone, None);
    assert_eq!(second.schedule, None);
    assert!(second.tags.is_empty());
}

#[test]
fn listing_with_todays_date_reads_the_same_records() {
    let doc = Document::parse(LISTING);
    let restaurants = Restaurant::from_restaurant_list_html(&doc).unwrap();
    assert_eq!(restaurants.len(), 2);
    assert_eq!(restaurants[0].name, "Bridges Cafe");
    assert_eq!(restaurants[0].schedule.as_ref().map(|s| s.len()), Some(7));
    let start = restaurants[0].schedule.as_ref().unwrap()[0].0;
    assert_eq!(restaurants[0].schedule.as_ref().unwrap()[6].0, Date { days_from_ce: start.days_from_ce + 6 });
}

#[test]
fn short_schedule_keeps_its_cells() {
    let doc = Document::parse(
        r#"<div class="unit"><h1 class="title">A</h1><h2 class="location">B</h2>
        <div class="schedule"><span class="time">x</span><table><tr><td class="time">Closed</td></tr></table></div></div>"#,
    );
    let restaurants = Restaurant::from_restaurant_list(&doc, TODAY).unwrap();
    assert_eq!(restaurants[0].schedule, Some(vec![(day(0), Times::Closed)]));
}

#[test]
fn missing_name_fails_the_whole_listing() {
    let doc = Document::parse(
        r#"<div class="unit"><h1 class="title">Fine</h1><h2 class="location">Here</h2></div>
        <div class="unit"><h2 class="location">Nameless</h2></div>"#,
    );
    assert_eq!(
        Restaurant::from_restaurant_list(&doc, TODAY),
        Err(Error::ElementNotFound(Part::Name))
    );
}

#[test]
fn empty_name_fails_with_text_not_found() {
    let doc = Document::parse(r#"<div class="unit"><h1 class="title"></h1><h2 class="location">Here</h2></div>"#);
    assert_eq!(Restaurant::from_restaurant_list(&doc, TODAY), Err(Error::TextNotFound(Part::Name)));
}

#[test]
fn missing_location_fails() {
    let doc = Document::parse(r#"<div class="unit"><h1 class="title">A</h1></div>"#);
    assert_eq!(
        Restaurant::from_restaurant_list(&doc, TODAY),
        Err(Error::ElementNotFound(Part::Location))
    );
}

#[test]
fn present_but_empty_details_fail() {
    let doc = Document::parse(
        r#"<div class="unit"><h1 class="title">A</h1><h2 class="location">B</h2><div class="location-data"></div></div>"#,
    );
    assert_eq!(
        Restaurant::from_restaurant_list(&doc, TODAY),
        Err(Error::TextNotFound(Part::LocationDetails))
    );
}

#[test]
fn present_but_empty_phone_fails() {
    let doc = Document::parse(
        r#"<div class="unit"><h1 class="title">A</h1><h2 class="location">B</h2><div class="location-phone"></div></div>"#,
    );
    assert_eq!(
        Restaurant::from_restaurant_list(&doc, TODAY),
        Err(Error::TextNotFound(Part::LocationPhone))
    );
}

#[test]
fn bad_time_cell_fails_the_restaurant() {
    let doc = Document::parse(
        r#"<div class="unit"><h1 class="title">A</h1><h2 class="location">B</h2>
        <div class="schedule"><table><tr><td class="time">Closed</td><td class="time">noon - 5 pm</td></tr></table></div></div>"#,
    );
    assert_eq!(Restaurant::from_restaurant_list(&doc, TODAY), Err(Error::TimeParse));
}

#[test]
fn empty_time_cell_fails_with_text_not_found() {
    let doc = Document::parse(
        r#"<div class="unit"><h1 class="title">A</h1><h2 class="location">B</h2>
        <div class="schedule"><table><tr><td class="time"></td></tr></table></div></div>"#,
    );
    assert_eq!(Restaurant::from_restaurant_list(&doc, TODAY), Err(Error::TextNotFound(Part::Time)));
}

#[test]
fn unknown_tag_fails_with_its_text() {
    let doc = Document::parse(
        r#"<div class="unit"><h1 class="title">A</h1><h2 class="location">B</h2><ul class="tags"><li>Pizza</li><li>Tacos</li></ul></div>"#,
    );
    assert_eq!(
        Restaurant::from_restaurant_list(&doc, TODAY),
        Err(Error::EnumParse("Tacos".to_string()))
    );
}

#[test]
fn empty_tag_fails_with_text_not_found() {
    let doc = Document::parse(
        r#"<div class="unit"><h1 class="title">A</h1><h2 class="location">B</h2><ul class="tags"><li></li></ul></div>"#,
    );
    assert_eq!(
        Restaurant::from_restaurant_list(&doc, TODAY),
        Err(Error::TextNotFound(Part::FoodType))
    );
}

#[test]
fn document_without_units_has_no_restaurants() {
    let doc = Document::parse("<p>closed for the season</p>");
    assert_eq!(Restaurant::from_restaurant_list(&doc, TODAY), Ok(vec![]));
}
