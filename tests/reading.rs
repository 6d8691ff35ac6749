use pitemp::reading::{is_raspberry_pi_os, parse_temp_string};

#[test]
fn parses_the_sampler_reply() {
    let text = parse_temp_string("temp=42.8'C");
    assert_eq!(text, Some("42.8"));
    assert_eq!(text.unwrap().parse::<f64>().unwrap(), 42.8);
}

#[test]
fn parses_the_reply_with_its_line_feed() {
    assert_eq!(parse_temp_string("temp=51.0'C\n"), Some("51.0"));
    assert_eq!(parse_temp_string("temp=7'C\n"), Some("7"));
}

#[test]
fn parses_a_negative_reading() {
    let text = parse_temp_string("temp=-3.25'C").unwrap();
    assert_eq!(text, "-3.25");
    assert_eq!(text.parse::<f64>().unwrap(), -3.25);
}

#[test]
fn reply_without_suffix_fails() {
    assert_eq!(parse_temp_string("temp=42.8"), None);
    assert_eq!(parse_temp_string("temp=42.8\n"), None);
    assert_eq!(parse_temp_string("temp=42.8'F"), None);
}

#[test]
fn reply_without_prefix_fails() {
    assert_eq!(parse_temp_string("42.8'C"), None);
    assert_eq!(parse_temp_string("Temp=42.8'C"), None);
    assert_eq!(parse_temp_string(""), None);
}

#[test]
fn framed_text_in_any_float_syntax_is_handed_on() {
    let cases: [(&str, &str, f64); 6] = [
        ("temp=1e5'C", "1e5", 1e5),
        ("temp=.5'C", ".5", 0.5),
        ("temp=5.'C", "5.", 5.0),
        ("temp=+42.8'C", "+42.8", 42.8),
        ("temp=2.5E-1'C\n", "2.5E-1", 0.25),
        ("temp=inf'C", "inf", f64::INFINITY),
    ];
    for (reply, text, value) in cases {
        let number = parse_temp_string(reply);
        assert_eq!(number, Some(text));
        assert_eq!(number.unwrap().parse::<f64>().unwrap(), value);
    }
}

#[test]
fn framed_text_that_is_no_number_fails_to_parse() {
    for (reply, text) in [("temp=abc'C", "abc"), ("temp='C", ""), ("temp=4.2.1'C", "4.2.1"), ("temp=-'C", "-")] {
        let number = parse_temp_string(reply);
        assert_eq!(number, Some(text));
        assert!(number.unwrap().parse::<f64>().is_err());
    }
}

#[test]
fn reply_with_two_line_feeds_fails() {
    assert_eq!(parse_temp_string("temp=42.8'C\n\n"), None);
}

#[test]
fn raspberry_pi_model_is_recognised() {
    assert!(is_raspberry_pi_os(Some("Raspberry Pi 4 Model B Rev 1.4\0"), None));
    assert!(is_raspberry_pi_os(Some("Raspberry Pi"), Some("NAME=Debian")));
}

#[test]
fn raspberry_pi_os_release_is_recognised() {
    assert!(is_raspberry_pi_os(None, Some("PRETTY_NAME=\"Raspberry Pi OS\"\n")));
    assert!(is_raspberry_pi_os(Some("Generic board"), Some("NAME=Raspian\n")));
}

#[test]
fn other_platforms_are_not_recognised() {
    assert!(!is_raspberry_pi_os(None, None));
    assert!(!is_raspberry_pi_os(Some("QEMU Virtual Machine"), Some("NAME=\"Ubuntu\"\n")));
    assert!(!is_raspberry_pi_os(Some("Raspberry P"), Some("Raspberry Pi O")));
    assert!(!is_raspberry_pi_os(Some(""), Some("")));
}
