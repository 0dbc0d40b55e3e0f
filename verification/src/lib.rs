//! Terminal client library for a dnet cluster of inference shards: what each screen does
//! with a key, what it shows, and how it reads the API's answers.
//!
//! - `views`: the screens of the client (menu, settings, devices, topology ring and shard
//!   health, model loading, manual layer assignment, chat replies);
//! - `chat`: the conversation (typing, sending, streamed replies, reasoning blocks,
//!   wrapping);
//! - `transcript`: the lines in which a conversation is drawn;
//! - `menu`, `settings`, `model`, `topology`: the compact screens with a seven-entry menu,
//!   two settings, a fixed list of models and a topology held in the screen;
//! - `config`, `common`, `utils`, `widgets`, `input`, `text`, `clock`: settings, API data,
//!   helpers, the model list widget, key presses, text functions, the wall clock.

pub mod chat;
pub mod clock;
pub mod common;
pub mod config;
pub mod input;
pub mod menu;
pub mod model;
pub mod settings;
pub mod text;
pub mod topology;
pub mod transcript;
pub mod utils;
pub mod views;
pub mod widgets;
