//! The logic of a small scraping tool and of its Blood on the Clocktower
//! companion: what is read off a page, what is stored, what is listed.

pub mod botc;
pub mod browser;
pub mod browser_laws;
pub mod catalog;
pub mod clock;
pub mod command_laws;
pub mod games;
pub mod listing_laws;
pub mod models;
pub mod order;
pub mod page;
pub mod page_laws;
pub mod reading_laws;
pub mod report;
pub mod row_laws;
pub mod schema;
pub mod scrapes;
pub mod scraping;
pub mod selectors;
pub mod storage;
pub mod storage_laws;
pub mod tables;
pub mod text;
pub mod text_laws;
pub mod view_laws;
