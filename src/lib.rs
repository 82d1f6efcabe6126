//! Typed access to the campus dining site: the domain model, the parser that
//! turns fetched documents into records, and the memoizing cache in front of
//! the upstream site.

pub mod cache;
pub mod document;
pub mod error;
pub mod food_type;
pub mod location;
pub mod restaurant;
pub mod text;
pub mod times;

pub use cache::{Cache, Step, Upstream};
pub use error::{Error, ErrorView, Part};
pub use food_type::{CoffeeBrand, FoodType};
pub use location::{Location, LocationView};
pub use restaurant::{Date, Restaurant, RestaurantView};
pub use times::{Open, TimeOfDay, Times, TimesView};
