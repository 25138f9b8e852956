pub mod messages;
pub mod orderbook;
pub mod responses;
pub mod types;
pub mod parser;
pub mod router;
pub mod ticker;
pub mod poll;
