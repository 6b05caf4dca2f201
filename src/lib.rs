//! A countries reference table with the request handlers of its REST API.
//!
//! `store` holds the table and its operations, `api` maps requests to
//! replies, and `laws` states what holds across several operations.

pub mod api;
pub mod country;
pub mod laws;
pub mod store;

pub use api::{
    add_country, all_countries, countries_by_region, country_by_code, delete_country, get_regions,
    update_country, Reply,
};
pub use country::Country;
pub use store::{seed_countries, CountryTable};
