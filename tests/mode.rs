use p2p_chatter::mode::{str_eq, ClientMode};
use std::str::FromStr;

#[test]
fn parses_dialing() {
    assert_eq!(ClientMode::parse("Dialing"), Ok(ClientMode::Dialing));
}

#[test]
fn parses_listening() {
    assert_eq!(ClientMode::parse("Listening"), Ok(ClientMode::Listening));
}

#[test]
fn rejects_other_words() {
    assert_eq!(ClientMode::parse("dialing"), Err("Dialing/Listening Needed.".to_string()));
    assert_eq!(ClientMode::parse(""), Err("Dialing/Listening Needed.".to_string()));
    assert_eq!(ClientMode::parse("Dialing "), Err("Dialing/Listening Needed.".to_string()));
}

#[test]
fn from_str_goes_through_parse() {
    let m: ClientMode = "Listening".parse().unwrap();
    assert_eq!(m, ClientMode::Listening);
    assert!("Relay".parse::<ClientMode>().is_err());
}

#[test]
fn string_equality() {
    assert!(str_eq("chat", "chat"));
    assert!(!str_eq("chat", "chats"));
    assert!(!str_eq("chat", "chap"));
    assert!(str_eq("", ""));
}

#[test]
fn from_str_rejects_with_message() {
    assert_eq!(ClientMode::from_str("Dialing"), Ok(ClientMode::Dialing));
    assert_eq!(ClientMode::from_str("dialing"), Err("Dialing/Listening Needed.".to_string()));
    assert_eq!(ClientMode::from_str(""), Err("Dialing/Listening Needed.".to_string()));
}
