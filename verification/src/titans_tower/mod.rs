pub mod channel;
pub mod channel_config;
pub mod error;
pub mod ui;
pub mod bot;
pub mod provision;
