//! Everything the client does that is not the window.
pub mod api;
pub mod client;
pub mod exits;
pub mod flags;
pub mod flow;
pub mod frame;
pub mod geo;
pub mod keys;
pub mod markers;
pub mod order;
pub mod places;
pub mod preview;
pub mod store;
pub mod text;
pub mod tunnel;
pub mod units;
pub mod window;
pub mod worker;
pub mod worldmap;
