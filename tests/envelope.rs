use emtt::{parse_envelope, parse_syslog_message, EnvelopeError};

#[test]
fn envelope_with_priority() {
    let r = parse_syslog_message("<14>1 2024-05-01T10:00:00Z radio0_abc meshtasticd 42 - - [x]: hello there\n");
    assert_eq!(r, Ok(("radio0_abc".to_string(), "hello there".to_string())));
}

#[test]
fn envelope_without_priority() {
    assert_eq!(parse_syslog_message("- node1: body"), Err("Missing message separator"));
    let r2 = parse_syslog_message("2024 node1 x: body");
    assert_eq!(r2, Ok(("node1".to_string(), "body".to_string())));
}

#[test]
fn envelope_keeps_text_after_first_colon() {
    let r = parse_syslog_message("- ident tag:no space: a:b\n\n");
    assert_eq!(r, Ok(("ident".to_string(), "no space: a:b".to_string())));
}

#[test]
fn envelope_strips_only_one_space() {
    let r = parse_syslog_message("- ident:  two");
    assert_eq!(r, Err("Missing message separator"));
    let r2 = parse_syslog_message("- ident x:  two");
    assert_eq!(r2, Ok(("ident".to_string(), " two".to_string())));
}

#[test]
fn envelope_bad_priority() {
    assert_eq!(parse_syslog_message("<14>nospace"), Err("Invalid PRI/version format"));
    assert_eq!(parse_envelope("<14>nospace"), Err(EnvelopeError::BadPriority));
}

#[test]
fn envelope_missing_timestamp() {
    assert_eq!(parse_syslog_message("<14> "), Err("Missing timestamp"));
    assert_eq!(parse_syslog_message("justoneword"), Err("Missing timestamp"));
}

#[test]
fn envelope_missing_ident() {
    assert_eq!(parse_syslog_message("2024 ident"), Err("Missing ident"));
}

#[test]
fn envelope_missing_separator() {
    assert_eq!(parse_syslog_message("2024 ident rest without colon"), Err("Missing message separator"));
    assert_eq!(parse_envelope("2024 ident rest"), Err(EnvelopeError::MissingSeparator));
}
