pub mod text;
pub mod rich_text;
pub mod timeline;
pub mod paging;
pub mod discovery;
pub mod settings;
pub mod account;
pub mod security;
pub mod cache_state;
pub mod timeline_cache;
pub mod media;
pub mod search;
pub mod projection;
pub mod room_state;
pub mod store_paths;
pub mod account_manager;
pub mod keyed;
pub mod timeline_registry;
pub mod backfill;
pub mod message_search;
