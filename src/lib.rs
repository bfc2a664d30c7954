pub mod text;
pub mod date;
pub mod error;
pub mod prof;
pub mod utils;
pub mod colle;
pub mod group;
pub mod guild_data;
pub mod calendar;
pub mod subscriber;
