use peybot::config::{
    Credential, Credentials, Missing, BOT_TOKEN_VAR, CHANNEL_ID_VAR, PAUSE_SECONDS, TICKER_URL,
    USER_AGENT,
};
use peybot::error::ErrorKind;
use peybot::notify::{endpoint, send_message_request};

#[test]
fn both_credentials_are_required() {
    let loaded = Credentials::from_values(Some("123:abc".to_string()), Some("@rates".to_string()))
        .expect("both are present");
    assert_eq!(loaded.bot_token, "123:abc");
    assert_eq!(loaded.channel_id, "@rates");
}

#[test]
fn missing_bot_token_is_reported_first() {
    let missing = Credentials::from_values(None, None).unwrap_err();
    assert_eq!(missing, Missing { credential: Credential::BotToken });
    let missing = Credentials::from_values(None, Some("@rates".to_string())).unwrap_err();
    assert_eq!(missing.credential, Credential::BotToken);
    assert_eq!(missing.kind(), ErrorKind::MissingCredential);
}

#[test]
fn missing_channel_is_reported() {
    let missing = Credentials::from_values(Some("123:abc".to_string()), None).unwrap_err();
    assert_eq!(missing.credential, Credential::ChannelId);
    assert_eq!(missing.credential.variable(), "CHANNEL_ID");
}

#[test]
fn empty_credentials_are_present() {
    let loaded = Credentials::from_values(Some(String::new()), Some(String::new())).unwrap();
    assert_eq!(loaded.bot_token, "");
    assert_eq!(loaded.channel_id, "");
}

#[test]
fn variables_are_named() {
    assert_eq!(Credential::BotToken.variable(), "BOT_TOKEN");
    assert_eq!(BOT_TOKEN_VAR, "BOT_TOKEN");
    assert_eq!(CHANNEL_ID_VAR, "CHANNEL_ID");
}

#[test]
fn fixed_configuration() {
    assert_eq!(USER_AGENT, "Mozilla/5.0 (Windows NT 10.0; Win64; x64) Chrome/128.0");
    assert_eq!(TICKER_URL, "https://api.btcturk.com/api/v2/ticker?pairSymbol=USDT_TRY");
    assert_eq!(PAUSE_SECONDS, 60);
}

#[test]
fn endpoint_holds_the_token() {
    assert_eq!(endpoint("123:abc"), "https://api.telegram.org/bot123:abc/sendMessage");
    assert_eq!(endpoint(""), "https://api.telegram.org/bot/sendMessage");
}

#[test]
fn request_carries_channel_and_text() {
    let credentials =
        Credentials::from_values(Some("123:abc".to_string()), Some("@rates".to_string())).unwrap();
    let request = send_message_request(&credentials, "سلام\n1,000");
    assert_eq!(request.url, "https://api.telegram.org/bot123:abc/sendMessage");
    assert_eq!(
        request.form,
        vec![
            ("chat_id".to_string(), "@rates".to_string()),
            ("text".to_string(), "سلام\n1,000".to_string()),
        ]
    );
}
