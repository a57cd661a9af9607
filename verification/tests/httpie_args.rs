use rust_journey::httpie::{format_body, json_body, parse_kv_pair, parse_url, KvPair};

#[test]
fn parse_url_works() {
    assert!(parse_url("abc").is_err());
    assert!(parse_url("http://abc.xyz").is_ok());
    assert!(parse_url("https://httpbin.org/post").is_ok());
}

#[test]
fn parse_url_gives_back_the_text() {
    assert_eq!(parse_url("http://abc.xyz").unwrap(), "http://abc.xyz");
    assert_eq!(parse_url("abc").unwrap_err(), "relative URL without a base");
}

#[test]
fn parse_kv_pair_works() {
    assert!(parse_kv_pair("a").is_err());
    assert_eq!(
        parse_kv_pair("a=1").unwrap(),
        KvPair {
            k: "a".into(),
            v: "1".into()
        }
    );
    assert_eq!(
        parse_kv_pair("b=").unwrap(),
        KvPair {
            k: "b".into(),
            v: "".into()
        }
    );
}

#[test]
fn parse_kv_pair_takes_the_field_between_the_first_two_equals() {
    assert_eq!(
        parse_kv_pair("a=1=2").unwrap(),
        KvPair {
            k: "a".into(),
            v: "1".into()
        }
    );
    assert_eq!(
        parse_kv_pair("=x").unwrap(),
        KvPair {
            k: "".into(),
            v: "x".into()
        }
    );
    assert_eq!(
        parse_kv_pair("名前=値").unwrap(),
        KvPair {
            k: "名前".into(),
            v: "値".into()
        }
    );
}

#[test]
fn parse_kv_pair_error_names_the_argument() {
    let e = parse_kv_pair("novalue").unwrap_err();
    assert_eq!(e.input, "novalue");
    assert_eq!(e.message(), "Failed to parse novalue");
}

#[test]
fn kv_pair_from_str_matches_parse_kv_pair() {
    let p: KvPair = "k=v".parse().unwrap();
    assert_eq!(p, parse_kv_pair("k=v").unwrap());
    assert!("kv".parse::<KvPair>().is_err());
}

fn pair(k: &str, v: &str) -> KvPair {
    KvPair {
        k: k.to_string(),
        v: v.to_string(),
    }
}

#[test]
fn json_body_keeps_the_last_value_of_each_key() {
    let pairs = vec![pair("a", "1"), pair("b", "2"), pair("a", "3")];
    let body = json_body(&pairs);
    assert_eq!(body, vec![pair("a", "3"), pair("b", "2")]);
}

#[test]
fn json_body_of_no_pairs_is_empty() {
    assert_eq!(json_body(&Vec::new()), Vec::<KvPair>::new());
}

#[test]
fn format_body_pretty_prints_json_only() {
    assert_eq!(
        format_body(true, "{\"a\":1,\"b\":2}").unwrap(),
        "{\n  \"a\": 1,\n  \"b\": 2\n}"
    );
    assert_eq!(format_body(false, "{\"a\":1}").unwrap(), "{\"a\":1}");
    assert_eq!(format_body(true, "[1,2]").unwrap(), "[\n  1,\n  2\n]");
}

#[test]
fn json_body_orders_keys_by_first_occurrence() {
    let pairs = vec![pair("z", "1"), pair("a", "2"), pair("z", "3"), pair("m", "4")];
    assert_eq!(
        json_body(&pairs),
        vec![pair("z", "3"), pair("a", "2"), pair("m", "4")]
    );
}
