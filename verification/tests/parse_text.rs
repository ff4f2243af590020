use lora_ecla::actors::{parse_strategy_args, unquote};
use lora_ecla::parse::{parse_i16, parse_i32, parse_u32, parse_usize, split_char, trim_char};
use lora_ecla::text::{contains_string, eq_ignore_case, same_text, starts_with};

#[test]
fn split_keeps_empty_pieces() {
    assert_eq!(split_char("a,b,,c", ','), vec!["a", "b", "", "c"]);
    assert_eq!(split_char("", ','), vec![""]);
    assert_eq!(split_char(",", ','), vec!["", ""]);
    assert_eq!(split_char("no separator", ','), vec!["no separator"]);
    assert_eq!(split_char("127.0.0.1:8080:node1", ':'), vec!["127.0.0.1", "8080", "node1"]);
}

#[test]
fn trim_removes_repeated_ends_only() {
    assert_eq!(trim_char("''x'y''", '\''), "x'y");
    assert_eq!(trim_char("''''", '\''), "");
    assert_eq!(trim_char("abc", '\''), "abc");
    assert_eq!(trim_char("", '"'), "");
}

#[test]
fn unquote_strips_single_then_double_quotes() {
    assert_eq!(unquote("'\"/usr/bin/dtnd\"'"), "/usr/bin/dtnd");
    assert_eq!(unquote("\"-n node1 -w 3000\""), "-n node1 -w 3000");
    // double quotes inside single quotes are not reached by the single-quote trim
    assert_eq!(unquote("\"'x'\""), "'x'");
    assert_eq!(unquote("plain"), "plain");
}

#[test]
fn integers_parse_like_std() {
    for s in ["0", "42", "-7", "+13", "2147483647", "-2147483648", "007"] {
        assert_eq!(parse_i32(s), s.parse::<i32>().ok(), "{}", s);
    }
    for s in ["", "+", "-", "2147483648", "-2147483649", " 1", "1 ", "1a", "--1", "99999999999999999999999"] {
        assert_eq!(parse_i32(s), None, "{}", s);
        assert_eq!(parse_i32(s), s.parse::<i32>().ok(), "{}", s);
    }
    assert_eq!(parse_i16("-32768"), Some(-32768));
    assert_eq!(parse_i16("32768"), None);
    assert_eq!(parse_i16("-45"), Some(-45));
    assert_eq!(parse_u32("4294967295"), Some(u32::MAX));
    assert_eq!(parse_u32("4294967296"), None);
    assert_eq!(parse_u32("-0"), None);
    assert_eq!(parse_u32("+8080"), Some(8080));
    assert_eq!(parse_usize("7"), Some(7));
    assert_eq!(parse_usize("-1"), None);
    assert_eq!(parse_usize("18446744073709551615"), "18446744073709551615".parse::<usize>().ok());
}

#[test]
fn strategy_args_are_key_value_pairs() {
    let m = parse_strategy_args("SEND_INTERVAL=5s,MAX_COPIES=3").unwrap();
    assert_eq!(m.len(), 2);
    assert_eq!(m.get("SEND_INTERVAL").unwrap(), "5s");
    assert_eq!(m.get("MAX_COPIES").unwrap(), "3");
    let later_wins = parse_strategy_args("A=1,A=2").unwrap();
    assert_eq!(later_wins.len(), 1);
    assert_eq!(later_wins.get("A").unwrap(), "2");
    let empty_value = parse_strategy_args("A=").unwrap();
    assert_eq!(empty_value.get("A").unwrap(), "");
}

#[test]
fn strategy_args_reject_malformed_pieces() {
    assert!(parse_strategy_args("A=1,B").is_none());
    assert!(parse_strategy_args("A=1=2").is_none());
    assert!(parse_strategy_args("A=1,").is_none());
}

#[test]
fn text_helpers() {
    assert!(starts_with("+RX 5,AB", "+RX "));
    assert!(!starts_with("+R", "+RX "));
    assert!(same_text("quadrant", "quadrant"));
    assert!(!same_text("quadrant", "Quadrant"));
    assert!(eq_ignore_case("LoRa", "lora"));
    assert!(eq_ignore_case("STRATEGY", "strategy"));
    assert!(!eq_ignore_case("lora", "loraa"));
    let v = vec!["a".to_string(), "b".to_string()];
    assert!(contains_string(&v, &"b".to_string()));
    assert!(!contains_string(&v, &"c".to_string()));
}
