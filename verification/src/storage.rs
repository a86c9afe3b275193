//! All storage operations under one name.

pub use crate::catalog::{get_editions, get_roles, upsert_editions, upsert_roles};
pub use crate::games::{create_game, create_game_at, get_game};
pub use crate::schema::init_schema;
pub use crate::scrapes::{get_all_scrapes, get_scrapes_by_url, insert_scrape};
