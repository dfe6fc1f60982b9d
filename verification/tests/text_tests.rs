//! The text rules: possessive room names and the decimal form inputs.

use voice_rooms::text::{
    bitrate_decision, parse_u64, user_limit_decision, voice_channel_name, BitrateOutcome,
    UserLimitOutcome,
};

#[test]
fn possessive_names() {
    assert_eq!(voice_channel_name("Alex"), "Alex's voice");
    assert_eq!(voice_channel_name("Chris"), "Chris' voice");
    assert_eq!(voice_channel_name(""), "'s voice");
    assert_eq!(voice_channel_name("S"), "S's voice");
}

#[test]
fn parse_u64_cases() {
    assert_eq!(parse_u64("0"), Some(0));
    assert_eq!(parse_u64("42"), Some(42));
    assert_eq!(parse_u64("007"), Some(7));
    assert_eq!(parse_u64("18446744073709551615"), Some(u64::MAX));
    assert_eq!(parse_u64("18446744073709551616"), None);
    assert_eq!(parse_u64(""), None);
    assert_eq!(parse_u64("12a"), None);
    assert_eq!(parse_u64("-5"), None);
    assert_eq!(parse_u64(" 5"), None);
}

#[test]
fn bitrate_cases() {
    assert_eq!(bitrate_decision("abc"), BitrateOutcome::Invalid);
    assert_eq!(bitrate_decision(""), BitrateOutcome::Invalid);
    assert_eq!(bitrate_decision("7"), BitrateOutcome::OutOfRange);
    assert_eq!(bitrate_decision("97"), BitrateOutcome::OutOfRange);
    assert_eq!(bitrate_decision("8"), BitrateOutcome::Apply(8000));
    assert_eq!(bitrate_decision("96"), BitrateOutcome::Apply(96000));
    assert_eq!(bitrate_decision("64"), BitrateOutcome::Apply(64000));
}

#[test]
fn user_limit_cases() {
    assert_eq!(user_limit_decision(""), UserLimitOutcome::Invalid);
    assert_eq!(user_limit_decision("x"), UserLimitOutcome::Invalid);
    assert_eq!(user_limit_decision("70000"), UserLimitOutcome::Invalid);
    assert_eq!(user_limit_decision("0"), UserLimitOutcome::Apply(0));
    assert_eq!(user_limit_decision("99"), UserLimitOutcome::Apply(99));
}
