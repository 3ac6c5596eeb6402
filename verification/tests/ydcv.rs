use ydcv::formatters::PlainFormatter;
use ydcv::AnsiFormatter;
use ydcv::sign::{build_params, compute_sign, md5_hex};
use ydcv::{Config, DecodeError, RawLookupResult, YdResponse, YdSmartResult, YdTranslateResult};

fn sentence(src: &str, tgt: &str) -> YdTranslateResult {
    YdTranslateResult { source: String::from(src), target: String::from(tgt) }
}

#[test]
fn md5_known_digests() {
    assert_eq!(md5_hex(""), "d41d8cd98f00b204e9800998ecf8427e");
    assert_eq!(md5_hex("abc"), "900150983cd24fb0d6963f7d28e17f72");
}

#[test]
fn sign_is_deterministic() {
    let a = compute_sign("fanyideskweb", "hello", "1700000000000", "secret");
    let b = compute_sign("fanyideskweb", "hello", "1700000000000", "secret");
    assert_eq!(a, b);
    assert_eq!(a, md5_hex("fanyideskwebhello1700000000000secret"));
}

#[test]
fn params_carry_the_signed_fields() {
    let cfg = Config::resolve(None, None, None, None);
    let params = build_params("hello", &cfg, "1700000000000");
    assert_eq!(params.len(), 13);
    assert_eq!(params[0], (String::from("i"), String::from("hello")));
    assert_eq!(params[1], (String::from("from"), String::from("AUTO")));
    assert_eq!(params[4], (String::from("client"), String::from("fanyideskweb")));
    assert_eq!(params[9].0, "bv");
    assert_eq!(params[9].1, md5_hex("5.0 (X11)"));
    assert_eq!(params[10], (String::from("lts"), String::from("1700000000000")));
    assert_eq!(params[11], (String::from("salt"), String::from("1700000000000")));
    assert_eq!(params[12].0, "sign");
    assert_eq!(
        params[12].1,
        md5_hex("fanyideskwebhello1700000000000Ygy_4c=r#e#4EX^NUGUc5")
    );
}

#[test]
fn config_falls_back_to_builtin_defaults() {
    let cfg = Config::resolve(None, None, None, None);
    assert_eq!(cfg.api, "fanyideskweb");
    assert_eq!(cfg.api_key, "Ygy_4c=r#e#4EX^NUGUc5");
}

#[test]
fn config_layering_first_present_wins() {
    let cfg = Config::resolve(
        Some(String::from("primary")),
        Some(String::from("legacy")),
        None,
        Some(String::from("legacy-key")),
    );
    assert_eq!(cfg.api, "primary");
    assert_eq!(cfg.api_key, "legacy-key");
}

#[test]
fn decode_basic_response() {
    let body = "{\"errorCode\":0,\"translateResult\":[[{\"src\":\"hello\",\"tgt\":\"ni hao\"}]]}";
    let r = YdResponse::decode(body).unwrap();
    assert_eq!(r.error_code, 0);
    let trans = r.translate_result.as_ref().unwrap();
    assert_eq!(trans.len(), 1);
    assert_eq!(trans[0].len(), 1);
    assert_eq!(trans[0][0].source, "hello");
    assert_eq!(trans[0][0].target, "ni hao");
    assert!(r.smart_result.is_none());
}

#[test]
fn decode_is_idempotent() {
    let body = "{\"errorCode\":0,\"translateResult\":[[{\"src\":\"a\",\"tgt\":\"b\"}]],\"smartResult\":{\"entries\":[\"x\"],\"type\":2}}";
    let r1 = YdResponse::decode(body).unwrap();
    let r2 = YdResponse::decode(body).unwrap();
    assert_eq!(r1.to_json(), r2.to_json());
    assert_eq!(r1.error_code, r2.error_code);
    assert_eq!(
        r1.translate_result.as_ref().unwrap()[0][0].source,
        r2.translate_result.as_ref().unwrap()[0][0].source
    );
    assert_eq!(
        r1.smart_result.as_ref().unwrap().entries,
        r2.smart_result.as_ref().unwrap().entries
    );
}

#[test]
fn round_trip_preserves_structure() {
    let original = YdResponse {
        error_code: 0,
        translate_result: Some(vec![
            vec![sentence("say \"hi\"", "back\\slash"), sentence("two", "er")],
            vec![sentence("three", "san")],
        ]),
        smart_result: Some(YdSmartResult {
            entries: vec![String::from("alt one"), String::from("alt two")],
            typ: -3,
        }),
    };
    let text = original.to_json();
    let decoded = YdResponse::decode(&text).unwrap();
    assert_eq!(decoded.error_code, 0);
    let trans = decoded.translate_result.as_ref().unwrap();
    assert_eq!(trans.len(), 2);
    assert_eq!(trans[0][0].source, "say \"hi\"");
    assert_eq!(trans[0][0].target, "back\\slash");
    assert_eq!(trans[0][1].source, "two");
    assert_eq!(trans[1][0].target, "san");
    let smart = decoded.smart_result.as_ref().unwrap();
    assert_eq!(smart.entries, vec!["alt one", "alt two"]);
    assert_eq!(smart.typ, -3);
    assert_eq!(decoded.to_json(), text);
}

#[test]
fn round_trip_no_sections() {
    let original = YdResponse { error_code: 40, translate_result: None, smart_result: None };
    let text = original.to_json();
    assert_eq!(text, "{\"errorCode\":40,\"translateResult\":null,\"smartResult\":null}");
    let decoded = YdResponse::decode(&text).unwrap();
    assert_eq!(decoded.error_code, 40);
    assert!(decoded.translate_result.is_none());
    assert!(decoded.smart_result.is_none());
}

#[test]
fn decode_malformed_fails_with_decode_error() {
    let r = YdResponse::decode("{not json");
    assert!(r.is_err());
    assert_eq!(r.unwrap_err(), DecodeError::Malformed);
    assert!(YdResponse::decode("").is_err());
    assert!(YdResponse::decode("[]").is_err());
    assert!(YdResponse::decode("{\"errorCode\":0} trailing").is_err());
}

#[test]
fn decode_requires_error_code() {
    assert!(YdResponse::decode("{}").is_err());
    assert!(YdResponse::decode("{\"translateResult\":null}").is_err());
}

#[test]
fn decode_rejects_wrong_field_types() {
    assert!(YdResponse::decode("{\"errorCode\":\"zero\"}").is_err());
    assert!(YdResponse::decode("{\"errorCode\":1.5}").is_err());
    assert!(YdResponse::decode("{\"errorCode\":0,\"translateResult\":7}").is_err());
    assert!(YdResponse::decode("{\"errorCode\":0,\"smartResult\":{\"type\":1}}").is_err());
}

#[test]
fn decode_ignores_unknown_fields() {
    let body = "{\"type\":\"EN2ZH_CN\",\"errorCode\":0,\"elapsedTime\":9,\"translateResult\":null,\"other\":{\"x\":[1,2.5,true,null,\"s\"]}}";
    let r = YdResponse::decode(body).unwrap();
    assert_eq!(r.error_code, 0);
    assert!(r.translate_result.is_none());
}

#[test]
fn decode_handles_escapes_and_whitespace() {
    let body = " { \"errorCode\" : 0 , \"translateResult\" : [ [ { \"src\" : \"a\\\"b\\\\c\" , \"tgt\" : \"\\u0041\\n\" } ] ] } ";
    let r = YdResponse::decode(body).unwrap();
    let trans = r.translate_result.as_ref().unwrap();
    assert_eq!(trans[0][0].source, "a\"b\\c");
    assert_eq!(trans[0][0].target, "A\n");
}

#[test]
fn explain_renders_header_pair_and_trailing_line() {
    let r = YdResponse {
        error_code: 0,
        translate_result: Some(vec![vec![sentence("hello", "ni hao")]]),
        smart_result: None,
    };
    let text = r.explain(&PlainFormatter);
    assert_eq!(text, "  Translation:\n    hello\n    ni hao\n");
}

#[test]
fn explain_no_result_is_one_line() {
    let r = YdResponse { error_code: 1, translate_result: None, smart_result: None };
    assert_eq!(r.explain(&PlainFormatter), "  No translation found\n");
    let r2 = YdResponse { error_code: 0, translate_result: None, smart_result: None };
    assert_eq!(r2.explain(&PlainFormatter), "  No translation found\n");
}

#[test]
fn explain_keeps_paragraph_order() {
    let r = YdResponse {
        error_code: 0,
        translate_result: Some(vec![vec![sentence("a", "A")], vec![sentence("b", "B")]]),
        smart_result: None,
    };
    let text = r.explain(&PlainFormatter);
    assert_eq!(text, "  Translation:\n    a\n    A\n    b\n    B\n");
    let first = text.find("    a").unwrap();
    let second = text.find("    b").unwrap();
    assert!(first < second);
}

#[test]
fn explain_renders_smart_result() {
    let r = YdResponse {
        error_code: 0,
        translate_result: Some(vec![vec![sentence("a", "A")]]),
        smart_result: Some(YdSmartResult {
            entries: vec![String::from("x"), String::from("y")],
            typ: 5,
        }),
    };
    let text = r.explain(&PlainFormatter);
    assert_eq!(text, "  Translation:\n    a\n    A\n\n  Smart result:\nx    y");
}

#[test]
fn raw_result_keeps_the_body_verbatim() {
    let raw = RawLookupResult::new(String::from("{not json"));
    assert_eq!(raw.body, "{not json");
}

#[test]
fn ansi_formatter_wraps_in_escapes() {
    let r = YdResponse { error_code: 2, translate_result: None, smart_result: None };
    assert_eq!(
        r.explain(&AnsiFormatter),
        "\u{1b}[31m  No translation found\u{1b}[0m\n"
    );
}

#[test]
fn decode_error_message() {
    let e = YdResponse::decode("{oops").unwrap_err();
    assert_eq!(e.message(), "malformed JSON response body");
}
