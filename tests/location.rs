use maceats::document::Document;
use maceats::location::slug_source_text;
use maceats::{Error, Location, Part};

#[test]
fn stop_words_do_not_change_the_slug() {
    assert_eq!(Location::new("Some For Hall").slug, Location::new("Some Hall").slug);
    assert_eq!(Location::new("Some Hall").slug, "some-hall");
}

#[test]
fn slug_is_idempotent_on_its_source() {
    let source = slug_source_text("Centre FOR Off  the   Hall");
    assert_eq!(source, "Centre the Hall");
    assert_eq!(slug_source_text(&source), source);
    let slug = Location::new("Centre FOR Off  the   Hall").slug;
    assert_eq!(slug, "centre-the-hall");
    assert_eq!(Location::new(&slug).slug, slug);
}

#[test]
fn slug_is_kebab_case() {
    let l = Location::new("Student Centre");
    assert_eq!(l.name, "Student Centre");
    assert_eq!(l.slug, "student-centre");
    assert_eq!(Location::new("  ").slug, "");
    assert_eq!(Location::new("Forward Offices").slug, "forward-offices");
}

#[test]
fn location_url_is_under_the_locations_directory() {
    assert_eq!(
        Location::new("Student Centre").url(),
        Ok("https://maceats.mcmaster.ca/locations/student-centre".to_string())
    );
}

const LISTING: &str = r#"<!DOCTYPE html><html><body>
<div class="unit unit-location"><a href="/locations/student-centre">  Student Centre </a></div>
<div class="unit"><a href="/locations/ignored">Not a location</a></div>
<div class="unit-location unit extra"><a href="https://maceats.mcmaster.ca/locations/mdcl/">MDCL</a></div>
</body></html>"#;

#[test]
fn location_listing_is_read_in_order() {
    let doc = Document::parse(LISTING);
    let locations = Location::from_location_list_html(&doc).unwrap();
    assert_eq!(
        locations,
        vec![
            Location { name: "Student Centre".to_string(), slug: "student-centre".to_string() },
            Location { name: "MDCL".to_string(), slug: "mdcl".to_string() },
        ]
    );
}

#[test]
fn location_without_link_fails() {
    let doc = Document::parse(r#"<div class="unit unit-location"><span>x</span></div>"#);
    assert_eq!(
        Location::from_location_list_html(&doc),
        Err(Error::ElementNotFound(Part::Location))
    );
}

#[test]
fn location_link_without_text_fails() {
    let doc = Document::parse(r#"<div class="unit unit-location"><a href="/locations/a"></a></div>"#);
    assert_eq!(Location::from_location_list_html(&doc), Err(Error::TextNotFound(Part::Location)));
}

#[test]
fn location_link_without_href_fails() {
    let doc = Document::parse(r#"<div class="unit unit-location"><a>Hall</a></div>"#);
    assert_eq!(
        Location::from_location_list_html(&doc),
        Err(Error::AttributeNotFound(Part::Location))
    );
}

#[test]
fn location_link_with_root_href_fails() {
    let doc = Document::parse(r#"<div class="unit unit-location"><a href="/">Hall</a></div>"#);
    assert_eq!(
        Location::from_location_list_html(&doc),
        Err(Error::AttributeNotFound(Part::Location))
    );
}

#[test]
fn location_link_with_bad_url_fails() {
    let doc = Document::parse(r#"<div class="unit unit-location"><a href="http://[::1">Hall</a></div>"#);
    assert_eq!(Location::from_location_list_html(&doc), Err(Error::UrlParse));
}

#[test]
fn empty_listing_has_no_locations() {
    let doc = Document::parse("<html><body><p>Nothing here</p></body></html>");
    assert_eq!(Location::from_location_list_html(&doc), Ok(vec![]));
}
