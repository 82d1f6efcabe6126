use maceats::times::with_minutes_text;
use maceats::{Error, Open, TimeOfDay, Times};

fn at(hour: u32, minute: u32) -> TimeOfDay {
    TimeOfDay { hour, minute }
}

#[test]
fn bare_hours_read_like_full_times() {
    assert_eq!(Times::parse("9 am - 5 pm"), Times::parse("9:00 am - 5:00 pm"));
    assert_eq!(
        Times::parse("9 am - 5 pm"),
        Ok(Times::Open(vec![Open { from: at(9, 0), to: at(17, 0) }]))
    );
}

#[test]
fn closed_is_the_closed_variant() {
    assert_eq!(Times::parse("Closed"), Ok(Times::Closed));
}

#[test]
fn closed_is_case_sensitive() {
    assert_eq!(Times::parse("closed"), Err(Error::TimeParse));
}

#[test]
fn several_intervals_keep_their_order() {
    assert_eq!(
        Times::parse("7:30 am - 11 am, 12:15 pm - 11:45 pm"),
        Ok(Times::Open(vec![
            Open { from: at(7, 30), to: at(11, 0) },
            Open { from: at(12, 15), to: at(23, 45) },
        ]))
    );
}

#[test]
fn midnight_and_noon() {
    assert_eq!(
        Times::parse("12 am - 12 pm"),
        Ok(Times::Open(vec![Open { from: at(0, 0), to: at(12, 0) }]))
    );
}

#[test]
fn meridiem_is_case_insensitive() {
    assert_eq!(
        Times::parse("9:00 AM - 5:00 PM"),
        Ok(Times::Open(vec![Open { from: at(9, 0), to: at(17, 0) }]))
    );
}

#[test]
fn malformed_cells_fail() {
    assert_eq!(Times::parse("9 am to 5 pm"), Err(Error::TimeParse));
    assert_eq!(Times::parse("25:00 am - 5 pm"), Err(Error::TimeParse));
    assert_eq!(Times::parse("9 am - 5 pm, "), Err(Error::TimeParse));
    assert_eq!(Times::parse(""), Err(Error::TimeParse));
}

#[test]
fn open_without_separator_fails() {
    assert_eq!(Open::parse("9 am"), Err(Error::TimeParse));
}

#[test]
fn minutes_are_added_to_bare_hours_only() {
    assert_eq!(with_minutes_text("9 am"), "9:00 am");
    assert_eq!(with_minutes_text("11 pm"), "11:00 pm");
    assert_eq!(with_minutes_text("9:30 am"), "9:30 am");
    assert_eq!(with_minutes_text("123 am"), "123 am");
    assert_eq!(with_minutes_text("9 xm"), "9 xm");
}

#[test]
fn times_render_as_the_site_writes_them() {
    let t = Times::parse("9 am - 5 pm, 12:05 am - 12:30 pm, 10:15 pm - 11 pm").unwrap();
    assert_eq!(t.to_text(), "9:00 am - 5:00 pm, 12:05 am - 12:30 pm, 10:15 pm - 11:00 pm");
    assert_eq!(Times::Closed.to_text(), "Closed");
}

#[test]
fn rendered_times_parse_back() {
    let t = Times::parse("7:30 am - 11 pm").unwrap();
    assert_eq!(Times::parse(&t.to_text()), Ok(t));
}

#[test]
fn times_from_str() {
    assert_eq!("Closed".parse::<Times>(), Ok(Times::Closed));
    assert_eq!("9 am - 5 pm".parse::<Open>(), Ok(Open { from: at(9, 0), to: at(17, 0) }));
}

#[test]
fn open_from_str_keeps_reversed_intervals() {
    assert_eq!("10 pm - 2 am".parse::<Open>(), Ok(Open { from: at(22, 0), to: at(2, 0) }));
    assert_eq!("9am - 5pm".parse::<Open>(), Err(Error::TimeParse));
    assert_eq!("9:60 am - 5 pm".parse::<Open>(), Err(Error::TimeParse));
    assert_eq!("".parse::<Times>(), Err(Error::TimeParse));
}
