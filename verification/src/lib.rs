pub mod cache;
pub mod listing;
pub mod media;
pub mod order;
pub mod range;
pub mod response;
pub mod text;
pub mod thumbnail;
