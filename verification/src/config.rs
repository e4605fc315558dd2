//! What the notifier is configured with: fixed addresses, and the two
//! credentials that are read once at startup.

use vstd::prelude::*;
use crate::error::ErrorKind;

verus! {

/// The client identification that market pages are fetched with.
pub const USER_AGENT: &'static str = "Mozilla/5.0 (Windows NT 10.0; Win64; x64) Chrome/128.0";

/// The address of the ticker that quotes the cross-rate.
pub const TICKER_URL: &'static str = "https://api.btcturk.com/api/v2/ticker?pairSymbol=USDT_TRY";

/// The variable that holds the bot token.
pub const BOT_TOKEN_VAR: &'static str = "BOT_TOKEN";

/// The variable that holds the channel identifier.
pub const CHANNEL_ID_VAR: &'static str = "CHANNEL_ID";

/// The length of the pause between ticks, in seconds.
pub const PAUSE_SECONDS: u64 = 60;

/// One of the two credentials.
#[derive(Clone, Copy, Debug, PartialEq, Eq, Structural)]
pub enum Credential {
    BotToken,
    ChannelId,
}

impl Credential {
    /// The name of the variable that holds the credential.
    pub open spec fn variable_text(self) -> Seq<char> {
        match self {
            Credential::BotToken => BOT_TOKEN_VAR@,
            Credential::ChannelId => CHANNEL_ID_VAR@,
        }
    }

    /// The name of the variable that the credential is read from.
    pub fn variable(self) -> (name: &'static str)
        ensures
            name@ == self.variable_text(),
    {
        match self {
            Credential::BotToken => BOT_TOKEN_VAR,
            Credential::ChannelId => CHANNEL_ID_VAR,
        }
    }
}

/// The bot token and the channel identifier.
#[derive(Debug)]
pub struct Credentials {
    pub bot_token: String,
    pub channel_id: String,
}

/// A startup failure: a credential is absent.
#[derive(Clone, Copy, Debug, PartialEq, Eq, Structural)]
pub struct Missing {
    pub credential: Credential,
}

impl Missing {
    /// The kind of this failure.
    pub fn kind(&self) -> (kind: ErrorKind)
        ensures
            kind == ErrorKind::MissingCredential,
    {
        ErrorKind::MissingCredential
    }
}

impl Credentials {
    /// Puts the credentials together from what the environment holds. Both
    /// are required; the bot token is looked at first.
    pub fn from_values(bot_token: Option<String>, channel_id: Option<String>) -> (loaded: Result<
        Credentials,
        Missing,
    >)
        ensures
            match (bot_token, channel_id) {
                (Some(token), Some(channel)) => loaded matches Ok(c) && c.bot_token == token
                    && c.channel_id == channel,
                (None, _) => loaded == Err::<Credentials, Missing>(
                    Missing { credential: Credential::BotToken },
                ),
                (Some(_), None) => loaded == Err::<Credentials, Missing>(
                    Missing { credential: Credential::ChannelId },
                ),
            },
    {
        match bot_token {
            Some(token) => match channel_id {
                Some(channel) => Ok(Credentials { bot_token: token, channel_id: channel }),
                None => Err(Missing { credential: Credential::ChannelId }),
            },
            None => Err(Missing { credential: Credential::BotToken }),
        }
    }
}

} // verus!
