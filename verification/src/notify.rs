//! The request that posts a message to the channel.

use vstd::prelude::*;
use crate::config::Credentials;

verus! {

/// What precedes the bot token in the address of the bot endpoint.
pub const ENDPOINT_PREFIX: &'static str = "https://api.telegram.org/bot";

/// What follows the bot token in the address of the bot endpoint.
pub const ENDPOINT_SUFFIX: &'static str = "/sendMessage";

/// The name of the form field that holds the channel identifier.
pub const CHAT_ID_FIELD: &'static str = "chat_id";

/// The name of the form field that holds the message.
pub const TEXT_FIELD: &'static str = "text";

/// A form-encoded POST request, before encoding.
#[derive(Debug)]
pub struct Request {
    pub url: String,
    /// The fields of the form, each a name and a value, in order.
    pub form: Vec<(String, String)>,
}

impl Request {
    /// The fields of the form as texts.
    pub open spec fn fields(self) -> Seq<(Seq<char>, Seq<char>)> {
        self.form@.map_values(|field: (String, String)| (field.0@, field.1@))
    }
}

/// The address that messages are posted to.
pub open spec fn endpoint_text(bot_token: Seq<char>) -> Seq<char> {
    ENDPOINT_PREFIX@ + bot_token + ENDPOINT_SUFFIX@
}

/// The address that messages are posted to with a bot token.
pub fn endpoint(bot_token: &str) -> (url: String)
    ensures
        url@ == endpoint_text(bot_token@),
{
    let mut url = String::from_str(ENDPOINT_PREFIX);
    url.append(bot_token);
    url.append(ENDPOINT_SUFFIX);
    url
}

/// The request that posts `text` to the channel of `credentials`: a form
/// with the channel identifier and the text, in that order.
pub fn send_message_request(credentials: &Credentials, text: &str) -> (request: Request)
    ensures
        request.url@ == endpoint_text(credentials.bot_token@),
        request.fields() == seq![
            (CHAT_ID_FIELD@, credentials.channel_id@),
            (TEXT_FIELD@, text@),
        ],
{
    let url = endpoint(credentials.bot_token.as_str());
    let mut form: Vec<(String, String)> = Vec::new();
    form.push((String::from_str(CHAT_ID_FIELD), credentials.channel_id.clone()));
    form.push((String::from_str(TEXT_FIELD), String::from_str(text)));
    let request = Request { url, form };
    assert(request.fields() =~= seq![
        (CHAT_ID_FIELD@, credentials.channel_id@),
        (TEXT_FIELD@, text@),
    ]);
    request
}

} // verus!
