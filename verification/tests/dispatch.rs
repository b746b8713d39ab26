use relay::descriptor::{BodyPayload, RelayError, RequestDescriptor};
use relay::encode::to_pretty_json;
use relay::relay::{
    correlation_header_name, handle_to_decimal, prepare_dispatch, status_code_for, PayloadSource,
    RelayConfig,
};

fn descriptor_text(handle: i64) -> String {
    let d = RequestDescriptor {
        correlation_handle: handle,
        target_uri: String::from("/r"),
        raw_args: String::new(),
        unparsed_uri: String::from("/r"),
        http_method: String::from("PUT"),
        protocol_version: String::from("HTTP/1.1"),
        headers: vec![(String::from("Host"), String::from("me"))],
        body: BodyPayload { utf8: None, hex: None, file: None },
    };
    to_pretty_json(&d)
}

#[test]
fn derived_dispatch_carries_own_handle() {
    let cfg = RelayConfig::standard();
    let a = prepare_dispatch(&descriptor_text(17), &PayloadSource::DescriptorDerived, &cfg)
        .unwrap();
    let b = prepare_dispatch(&descriptor_text(-3), &PayloadSource::DescriptorDerived, &cfg)
        .unwrap();
    assert_eq!(a.correlation_header.as_deref(), Some("17"));
    assert_eq!(b.correlation_header.as_deref(), Some("-3"));
    assert_ne!(a.body, b.body);
    assert_eq!(a.target_uri, "http://127.0.0.1:80/test_response");
}

#[test]
fn derived_dispatch_body_is_normalized_reencoding() {
    let cfg = RelayConfig::standard();
    let text = descriptor_text(5);
    let disp = prepare_dispatch(&text, &PayloadSource::DescriptorDerived, &cfg).unwrap();
    assert_eq!(disp.body, text);
    // a differently-spaced input normalizes to the same outbound body
    let spaced =
        "{ \"requestHandle\": 5, \"uri\": \"/r\", \"args\": \"\", \"unparsedUri\": \"/r\", \"method\": \"PUT\", \"protocol\": \"HTTP/1.1\", \"headers\": {\"Host\": \"me\"}, \"data\": {} }";
    let disp2 = prepare_dispatch(spaced, &PayloadSource::DescriptorDerived, &cfg).unwrap();
    assert_eq!(disp2.body, text);
}

#[test]
fn placeholder_ignores_input_entirely() {
    let cfg = RelayConfig::standard();
    for input in ["", "garbage", "{\"requestHandle\": 1}", "null"] {
        let disp = prepare_dispatch(input, &PayloadSource::FixedPlaceholder, &cfg).unwrap();
        assert_eq!(disp.body, "hi!!!");
        assert!(disp.correlation_header.is_none());
        assert_eq!(disp.target_uri, "http://127.0.0.1:80/test_response");
    }
}

#[test]
fn malformed_input_refused_with_status() {
    let cfg = RelayConfig::standard();
    let r = prepare_dispatch("not json", &PayloadSource::DescriptorDerived, &cfg);
    assert!(matches!(r, Err(RelayError::MalformedInput)));
    assert_eq!(status_code_for(&r), 1);
    let ok = prepare_dispatch(&descriptor_text(1), &PayloadSource::DescriptorDerived, &cfg);
    assert_eq!(status_code_for(&ok), 0);
}

#[test]
fn header_name_and_decimal_form() {
    assert_eq!(correlation_header_name(), "X-Nginx-Request-Handle");
    assert_eq!(handle_to_decimal(0), "0");
    assert_eq!(handle_to_decimal(12345), "12345");
    assert_eq!(handle_to_decimal(-1), "-1");
    assert_eq!(handle_to_decimal(i64::MIN), "-9223372036854775808");
    assert_eq!(handle_to_decimal(i64::MAX), "9223372036854775807");
}

#[test]
fn custom_collector_uri_is_used() {
    let cfg = RelayConfig { collector_uri: String::from("http://10.0.0.1:8080/sink") };
    let disp = prepare_dispatch("", &PayloadSource::FixedPlaceholder, &cfg).unwrap();
    assert_eq!(disp.target_uri, "http://10.0.0.1:8080/sink");
}
