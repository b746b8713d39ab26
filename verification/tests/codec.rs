use relay::descriptor::{BodyPayload, RelayError, RequestDescriptor};
use relay::encode::to_pretty_json;
use relay::parse::parse_descriptor;

fn sample() -> RequestDescriptor {
    RequestDescriptor {
        correlation_handle: 42,
        target_uri: String::from("/index.html"),
        raw_args: String::from("a=1&b=2"),
        unparsed_uri: String::from("/index.html?a=1&b=2"),
        http_method: String::from("GET"),
        protocol_version: String::from("HTTP/1.1"),
        headers: vec![
            (String::from("Host"), String::from("localhost")),
            (String::from("Accept"), String::from("*/*")),
        ],
        body: BodyPayload { utf8: Some(String::from("hello")), hex: None, file: None },
    }
}

#[test]
fn round_trip_basic() {
    let d = sample();
    let text = to_pretty_json(&d);
    let parsed = parse_descriptor(&text).unwrap();
    assert_eq!(parsed, d);
}

#[test]
fn round_trip_all_data_null() {
    let mut d = sample();
    d.body = BodyPayload { utf8: None, hex: None, file: None };
    let text = to_pretty_json(&d);
    assert_eq!(parse_descriptor(&text).unwrap(), d);
}

#[test]
fn round_trip_multiple_data_populated() {
    let mut d = sample();
    d.body = BodyPayload {
        utf8: Some(String::from("text")),
        hex: Some(String::from("74657874")),
        file: Some(String::from("/tmp/payload")),
    };
    let text = to_pretty_json(&d);
    assert_eq!(parse_descriptor(&text).unwrap(), d);
}

#[test]
fn round_trip_empty_headers_and_strings() {
    let d = RequestDescriptor {
        correlation_handle: 0,
        target_uri: String::new(),
        raw_args: String::new(),
        unparsed_uri: String::new(),
        http_method: String::new(),
        protocol_version: String::new(),
        headers: vec![],
        body: BodyPayload { utf8: None, hex: None, file: None },
    };
    let text = to_pretty_json(&d);
    assert_eq!(parse_descriptor(&text).unwrap(), d);
}

#[test]
fn round_trip_escapes_and_unicode() {
    let mut d = sample();
    d.target_uri = String::from("quote \" backslash \\ slash / tab \t newline \n");
    d.raw_args = String::from("control \u{1} \u{1f} bell \u{7}");
    d.http_method = String::from("héllo wörld \u{1f600}");
    d.headers = vec![(String::from("X-Odd \"Name\""), String::from("va\\lue"))];
    let text = to_pretty_json(&d);
    assert_eq!(parse_descriptor(&text).unwrap(), d);
}

#[test]
fn round_trip_handle_extremes() {
    for h in [i64::MIN, -1, 0, 1, i64::MAX] {
        let mut d = sample();
        d.correlation_handle = h;
        let text = to_pretty_json(&d);
        assert_eq!(parse_descriptor(&text).unwrap().correlation_handle, h);
    }
}

#[test]
fn pretty_output_exact() {
    let d = RequestDescriptor {
        correlation_handle: -7,
        target_uri: String::from("/x"),
        raw_args: String::new(),
        unparsed_uri: String::from("/x"),
        http_method: String::from("GET"),
        protocol_version: String::from("HTTP/1.0"),
        headers: vec![(String::from("Host"), String::from("h"))],
        body: BodyPayload { utf8: None, hex: Some(String::from("00ff")), file: None },
    };
    let expected = "{\n  \"requestHandle\": -7,\n  \"uri\": \"/x\",\n  \"args\": \"\",\n  \"unparsedUri\": \"/x\",\n  \"method\": \"GET\",\n  \"protocol\": \"HTTP/1.0\",\n  \"headers\": {\n    \"Host\": \"h\"\n  },\n  \"data\": {\n    \"utf8\": null,\n    \"hex\": \"00ff\",\n    \"file\": null\n  }\n}";
    assert_eq!(to_pretty_json(&d), expected);
}

#[test]
fn output_is_well_formed_json() {
    let d = sample();
    let text = to_pretty_json(&d);
    let v: serde_json::Value = serde_json::from_str(&text).unwrap();
    assert_eq!(v.get("requestHandle").unwrap().as_i64().unwrap(), 42);
    assert_eq!(v.get("uri").unwrap().as_str().unwrap(), "/index.html");
    assert_eq!(v.get("method").unwrap().as_str().unwrap(), "GET");
    assert_eq!(
        v.get("headers").unwrap().get("Host").unwrap().as_str().unwrap(),
        "localhost"
    );
    assert_eq!(v.get("data").unwrap().get("utf8").unwrap().as_str().unwrap(), "hello");
    assert!(v.get("data").unwrap().get("hex").unwrap().is_null());
}

#[test]
fn parse_reordered_and_spaced() {
    let text = "  {\n \"data\": {\"utf8\": null},\n \"protocol\": \"p\",\n \"method\": \"POST\",\n \"unparsedUri\": \"/u?x\",\n \"args\": \"x\",\n \"uri\": \"/u\",\n \"headers\": { \"k\" : \"v\" },\n \"requestHandle\" : 9 }  ";
    let d = parse_descriptor(text).unwrap();
    assert_eq!(d.correlation_handle, 9);
    assert_eq!(d.target_uri, "/u");
    assert_eq!(d.raw_args, "x");
    assert_eq!(d.unparsed_uri, "/u?x");
    assert_eq!(d.http_method, "POST");
    assert_eq!(d.protocol_version, "p");
    assert_eq!(d.headers, vec![(String::from("k"), String::from("v"))]);
    assert_eq!(d.body, BodyPayload { utf8: None, hex: None, file: None });
}

#[test]
fn parse_duplicate_header_last_wins() {
    let text = "{\"requestHandle\": 1, \"uri\": \"\", \"args\": \"\", \"unparsedUri\": \"\", \"method\": \"GET\", \"protocol\": \"\", \"headers\": {\"a\": \"1\", \"b\": \"2\", \"a\": \"3\"}, \"data\": {}}";
    let d = parse_descriptor(text).unwrap();
    assert_eq!(
        d.headers,
        vec![(String::from("a"), String::from("3")), (String::from("b"), String::from("2"))]
    );
}

#[test]
fn parse_unknown_member_ignored() {
    let text = "{\"requestHandle\": 1, \"extra\": \"zz\", \"uri\": \"\", \"args\": \"\", \"unparsedUri\": \"\", \"method\": \"GET\", \"protocol\": \"\", \"headers\": {}, \"data\": {\"utf8\": \"t\"}, \"more\": null}";
    let d = parse_descriptor(text).unwrap();
    assert_eq!(d.body.utf8.as_deref(), Some("t"));
}

#[test]
fn parse_missing_required_field_fails() {
    // no "method"
    let text = "{\"requestHandle\": 1, \"uri\": \"\", \"args\": \"\", \"unparsedUri\": \"\", \"protocol\": \"\", \"headers\": {}, \"data\": {}}";
    assert_eq!(parse_descriptor(text), Err(RelayError::MalformedInput));
}

#[test]
fn parse_invalid_json_fails() {
    assert_eq!(parse_descriptor("this is not json"), Err(RelayError::MalformedInput));
    assert_eq!(parse_descriptor(""), Err(RelayError::MalformedInput));
    assert_eq!(parse_descriptor("null"), Err(RelayError::MalformedInput));
    assert_eq!(parse_descriptor("{"), Err(RelayError::MalformedInput));
}

#[test]
fn parse_trailing_garbage_fails() {
    let text = "{\"requestHandle\": 1, \"uri\": \"\", \"args\": \"\", \"unparsedUri\": \"\", \"method\": \"GET\", \"protocol\": \"\", \"headers\": {}, \"data\": {}} x";
    assert_eq!(parse_descriptor(text), Err(RelayError::MalformedInput));
}

#[test]
fn parse_wrong_field_type_fails() {
    let text = "{\"requestHandle\": \"1\", \"uri\": \"\", \"args\": \"\", \"unparsedUri\": \"\", \"method\": \"GET\", \"protocol\": \"\", \"headers\": {}, \"data\": {}}";
    assert_eq!(parse_descriptor(text), Err(RelayError::MalformedInput));
}

#[test]
fn parse_handle_overflow_fails() {
    let text = "{\"requestHandle\": 9223372036854775808, \"uri\": \"\", \"args\": \"\", \"unparsedUri\": \"\", \"method\": \"GET\", \"protocol\": \"\", \"headers\": {}, \"data\": {}}";
    assert_eq!(parse_descriptor(text), Err(RelayError::MalformedInput));
}

#[test]
fn parse_handle_min_boundary() {
    let text = "{\"requestHandle\": -9223372036854775808, \"uri\": \"\", \"args\": \"\", \"unparsedUri\": \"\", \"method\": \"GET\", \"protocol\": \"\", \"headers\": {}, \"data\": {}}";
    assert_eq!(parse_descriptor(text).unwrap().correlation_handle, i64::MIN);
}

#[test]
fn parse_leading_zero_fails() {
    let text = "{\"requestHandle\": 01, \"uri\": \"\", \"args\": \"\", \"unparsedUri\": \"\", \"method\": \"GET\", \"protocol\": \"\", \"headers\": {}, \"data\": {}}";
    assert_eq!(parse_descriptor(text), Err(RelayError::MalformedInput));
}

#[test]
fn parse_unicode_escapes() {
    let text = "{\"requestHandle\": 1, \"uri\": \"\\u0041\\u002F\", \"args\": \"h\\u00e9llo\", \"unparsedUri\": \"\\ud83d\\ude00\", \"method\": \"GET\", \"protocol\": \"\", \"headers\": {}, \"data\": {}}";
    let d = parse_descriptor(text).unwrap();
    assert_eq!(d.target_uri, "A/");
    assert_eq!(d.raw_args, "héllo");
    assert_eq!(d.unparsed_uri, "\u{1f600}");
}

#[test]
fn parse_escaped_round_trips_with_raw() {
    // the same value written raw and as escapes deserializes to one descriptor
    let escaped = "{\"requestHandle\": 1, \"uri\": \"caf\\u00e9\", \"args\": \"\", \"unparsedUri\": \"\", \"method\": \"GET\", \"protocol\": \"\", \"headers\": {}, \"data\": {}}";
    let raw = "{\"requestHandle\": 1, \"uri\": \"café\", \"args\": \"\", \"unparsedUri\": \"\", \"method\": \"GET\", \"protocol\": \"\", \"headers\": {}, \"data\": {}}";
    assert_eq!(parse_descriptor(escaped).unwrap(), parse_descriptor(raw).unwrap());
}

#[test]
fn parse_lone_surrogate_fails() {
    let lone = "{\"requestHandle\": 1, \"uri\": \"\\ud83d\", \"args\": \"\", \"unparsedUri\": \"\", \"method\": \"GET\", \"protocol\": \"\", \"headers\": {}, \"data\": {}}";
    assert_eq!(parse_descriptor(lone), Err(RelayError::MalformedInput));
    let bad_pair = "{\"requestHandle\": 1, \"uri\": \"\\ud83d\\u0041\", \"args\": \"\", \"unparsedUri\": \"\", \"method\": \"GET\", \"protocol\": \"\", \"headers\": {}, \"data\": {}}";
    assert_eq!(parse_descriptor(bad_pair), Err(RelayError::MalformedInput));
}

#[test]
fn parse_unknown_member_any_shape_ignored() {
    let text = "{\"requestHandle\": 2, \"extra\": {\"nested\": [1, 2.5, {\"x\": null}], \"deep\": {\"y\": [true, \"s\"]}}, \"uri\": \"/u\", \"args\": \"\", \"unparsedUri\": \"\", \"method\": \"GET\", \"protocol\": \"\", \"big\": 123456789012345678901234567890, \"float\": -1.5e9, \"arr\": [], \"headers\": {}, \"data\": {\"ignored\": {\"a\": [1]}, \"utf8\": \"t\"}}";
    let d = parse_descriptor(text).unwrap();
    assert_eq!(d.correlation_handle, 2);
    assert_eq!(d.target_uri, "/u");
    assert_eq!(d.body.utf8.as_deref(), Some("t"));
}

#[test]
fn parse_bad_unknown_member_still_fails() {
    // the ignored member must still be valid JSON
    let text = "{\"requestHandle\": 1, \"extra\": [1,, 2], \"uri\": \"\", \"args\": \"\", \"unparsedUri\": \"\", \"method\": \"GET\", \"protocol\": \"\", \"headers\": {}, \"data\": {}}";
    assert_eq!(parse_descriptor(text), Err(RelayError::MalformedInput));
    let text2 = "{\"requestHandle\": 1, \"extra\": 01, \"uri\": \"\", \"args\": \"\", \"unparsedUri\": \"\", \"method\": \"GET\", \"protocol\": \"\", \"headers\": {}, \"data\": {}}";
    assert_eq!(parse_descriptor(text2), Err(RelayError::MalformedInput));
}
