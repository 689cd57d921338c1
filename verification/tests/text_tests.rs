use divera_status::api_types::UserStatus;
use divera_status::decimal::{parse_u32, u32_to_string};
use divera_status::split::split_commas;
use divera_status::template::{subst, TemplateError};
use divera_status::types::{update_for_button, Update};

#[test]
fn u32_to_string_is_decimal() {
    assert_eq!(u32_to_string(0), "0");
    assert_eq!(u32_to_string(7), "7");
    assert_eq!(u32_to_string(10), "10");
    assert_eq!(u32_to_string(12345), "12345");
    assert_eq!(u32_to_string(u32::MAX), "4294967295");
}

#[test]
fn parse_u32_accepts_decimal_numbers() {
    assert_eq!(parse_u32("0"), Some(0));
    assert_eq!(parse_u32("42"), Some(42));
    assert_eq!(parse_u32("+42"), Some(42));
    assert_eq!(parse_u32("007"), Some(7));
    assert_eq!(parse_u32("4294967295"), Some(u32::MAX));
}

#[test]
fn parse_u32_rejects_everything_else() {
    assert_eq!(parse_u32(""), None);
    assert_eq!(parse_u32("+"), None);
    assert_eq!(parse_u32("-1"), None);
    assert_eq!(parse_u32("12x"), None);
    assert_eq!(parse_u32(" 12"), None);
    assert_eq!(parse_u32("4294967296"), None);
}

#[test]
fn split_commas_keeps_empty_tokens() {
    assert_eq!(split_commas("1,3,2"), vec!["1", "3", "2"]);
    assert_eq!(split_commas("solo"), vec!["solo"]);
    assert_eq!(split_commas(""), vec![""]);
    assert_eq!(split_commas("a,,b,"), vec!["a", "", "b", ""]);
}

#[test]
fn subst_replaces_names() {
    let pairs = vec![
        ("who".to_string(), "world".to_string()),
        ("greeting".to_string(), "hello".to_string()),
    ];
    assert_eq!(
        subst("{greeting}, {who}!", &pairs),
        Ok("hello, world!".to_string())
    );
    assert_eq!(subst("no names here", &pairs), Ok("no names here".to_string()));
    assert_eq!(subst("", &pairs), Ok("".to_string()));
}

#[test]
fn subst_unescapes_doubled_braces() {
    let pairs = vec![("x".to_string(), "1".to_string())];
    assert_eq!(subst("{{\"x\": {x}}}", &pairs), Ok("{\"x\": 1}".to_string()));
    assert_eq!(subst("{{{{}}", &pairs), Ok("{{}".to_string()));
}

#[test]
fn subst_rejects_unknown_names() {
    let pairs = vec![("x".to_string(), "1".to_string())];
    assert_eq!(
        subst("{y}", &pairs),
        Err(TemplateError::UnknownName("y".to_string()))
    );
}

#[test]
fn subst_rejects_unmatched_braces() {
    let pairs = vec![("x".to_string(), "1".to_string())];
    assert_eq!(subst("{x", &pairs), Err(TemplateError::Invalid));
    assert_eq!(subst("x}", &pairs), Err(TemplateError::Invalid));
    assert_eq!(subst("{never closed", &pairs), Err(TemplateError::Invalid));
}

#[test]
fn update_for_button_maps_wheel_clicks() {
    assert_eq!(update_for_button(4), Update::StatusNext);
    assert_eq!(update_for_button(5), Update::StatusPrev);
    assert_eq!(update_for_button(1), Update::Reload);
    assert_eq!(update_for_button(0), Update::Reload);
}

#[test]
fn user_status_new_keeps_id() {
    let s = UserStatus::new(6);
    assert_eq!(s.status_id(), 6);
}
