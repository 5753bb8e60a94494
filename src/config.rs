//! The settings file of the Telegram output.
use vstd::prelude::*;

verus! {

/// The settings file.
pub struct Config {
    pub telegram: TelegramConfig,
}

/// Where notifications go on Telegram.
pub struct TelegramConfig {
    pub bot_token: String,
    pub chat_id: String,
}

} // verus!
