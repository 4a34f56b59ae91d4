pub mod chance;
pub mod command_handler;
pub mod config;
pub mod decimal;
pub mod digits;
pub mod dota_bot;
pub mod fosiaudio;
pub mod hero_assignment_strategy;
pub mod hero_pool_generators;
pub mod heroes;
pub mod history;
pub mod ids;
pub mod lobby;
pub mod message_bus;
pub mod options;
pub mod player;
pub mod rating;
pub mod silly_responder;
pub mod spawelo;
pub mod store;
pub mod text;
pub mod utils;
