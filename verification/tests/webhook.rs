use pwr_viewgen::model::Message;
use pwr_viewgen::model::ParsedMessage;
use pwr_viewgen::validate::ValidationError;
use pwr_viewgen::webhook::build_request;
use pwr_viewgen::webhook::extract_message_id;
use pwr_viewgen::webhook::map_send_response;
use pwr_viewgen::webhook::prepare;
use pwr_viewgen::webhook::SendError;
use pwr_viewgen::webhook::SendResult;

fn plain_message() -> Message {
    Message {
        content: "hello".into(),
        ..Message::default()
    }
}

fn parsed_with(message: Message, canonical: &str) -> ParsedMessage {
    ParsedMessage {
        message,
        canonical: serde_json::from_str(canonical).expect("canonical is json"),
    }
}

#[test]
fn wait_appends_query_to_plain_url() {
    let req = build_request("https://discord.com/api/webhooks/1/abc", "{}", true).unwrap();
    assert_eq!(req.url, "https://discord.com/api/webhooks/1/abc?wait=true");
}

#[test]
fn wait_appends_to_existing_query_with_ampersand() {
    let req = build_request(
        "https://discord.com/api/webhooks/1/abc?thread_id=42",
        "{}",
        true,
    )
    .unwrap();
    assert_eq!(
        req.url,
        "https://discord.com/api/webhooks/1/abc?thread_id=42&wait=true"
    );
}

#[test]
fn without_wait_url_is_unchanged() {
    let req = build_request("https://discord.com/api/webhooks/1/abc", "{}", false).unwrap();
    assert_eq!(req.url, "https://discord.com/api/webhooks/1/abc");
}

#[test]
fn request_is_json_post() {
    let req = build_request(
        "https://discord.com/api/webhooks/1/abc",
        "{\"content\":\"hi\"}",
        false,
    )
    .unwrap();
    assert_eq!(req.method, "POST");
    assert_eq!(
        req.headers,
        vec![("Content-Type", "application/json".to_owned())]
    );
    assert_eq!(req.body, "{\"content\":\"hi\"}");
}

#[test]
fn non_http_scheme_is_rejected() {
    assert_eq!(
        build_request("ftp://example.com/hook", "{}", false),
        Err(SendError::InvalidUrl {
            url: "ftp://example.com/hook".into(),
        })
    );
}

#[test]
fn empty_url_is_rejected() {
    assert_eq!(
        build_request("", "{}", false),
        Err(SendError::InvalidUrl { url: String::new() })
    );
}

#[test]
fn prepare_forwards_canonical_body_verbatim_after_validation() {
    let parsed = parsed_with(plain_message(), r#"{"content":"hello","custom_id":"kept"}"#);
    let req = prepare("https://discord.com/api/webhooks/1/abc", &parsed, false).unwrap();
    assert_eq!(
        req.body,
        parsed.canonical.to_string(),
        "canonical body is forwarded verbatim"
    );
    assert_eq!(req.body, r#"{"content":"hello","custom_id":"kept"}"#);
}

#[test]
fn oversized_content_still_fails_before_request_is_built() {
    let mut message = plain_message();
    message.content = "x".repeat(2001);
    let parsed = parsed_with(message, "{}");
    assert!(matches!(
        prepare("https://discord.com/api/webhooks/1/abc", &parsed, false),
        Err(SendError::Validation(_))
    ));
}

#[test]
fn message_id_is_extracted_from_wait_response() {
    let body = r#"{"id":"1199368822186135553","channel_id":"1","content":"hello"}"#;
    assert_eq!(
        extract_message_id(body),
        Some("1199368822186135553".to_owned())
    );
}

#[test]
fn empty_response_yields_no_message_id() {
    assert_eq!(extract_message_id(""), None);
    assert_eq!(extract_message_id("not json"), None);
    assert_eq!(extract_message_id(r#"{"content":"no id"}"#), None);
}

#[test]
fn success_response_with_id_maps_to_ok_result() {
    let body = r#"{"id":"1199368822186135553","channel_id":"1","content":"hello"}"#.to_owned();
    assert_eq!(
        map_send_response(200, body),
        Ok(SendResult {
            status: 200,
            message_id: Some("1199368822186135553".to_owned()),
        })
    );
}

#[test]
fn rate_limit_response_surfaces_discord_429_info_as_an_error() {
    let body = r#"{"retry_after": 1.234, "global": false,
            "message": "You are being rate limited.", "code": 0}"#
        .to_owned();
    assert_eq!(
        map_send_response(429, body),
        Err(SendError::Discord {
            status: 429,
            body: r#"{"retry_after": 1.234, "global": false,
            "message": "You are being rate limited.", "code": 0}"#
                .to_owned(),
        })
    );
}

#[test]
fn non_2xx_response_maps_discord_error_body_to_discord_error() {
    let body = r#"{"message": "Unknown Webhook", "code": 10015}"#.to_owned();
    assert_eq!(
        map_send_response(404, body),
        Err(SendError::Discord {
            status: 404,
            body: r#"{"message": "Unknown Webhook", "code": 10015}"#.to_owned(),
        })
    );
}

#[test]
fn numeric_id_is_not_a_message_id() {
    assert_eq!(extract_message_id(r#"{"id": 5}"#), None);
    assert_eq!(extract_message_id(r#"["id"]"#), None);
    assert_eq!(
        map_send_response(204, String::new()),
        Ok(SendResult {
            status: 204,
            message_id: None,
        })
    );
    assert!(matches!(
        map_send_response(300, String::new()),
        Err(SendError::Discord { status: 300, .. })
    ));
}

#[test]
fn invalid_url_is_reported_after_validation_passes() {
    let parsed = parsed_with(plain_message(), r#"{"content":"hello"}"#);
    assert_eq!(
        prepare("discord.com/api/webhooks/1/abc", &parsed, true),
        Err(SendError::InvalidUrl {
            url: "discord.com/api/webhooks/1/abc".into(),
        })
    );
    let req = prepare("http://h/x?a=1", &parsed, true).unwrap();
    assert_eq!(req.url, "http://h/x?a=1&wait=true");
    assert_eq!(req.body, r#"{"content":"hello"}"#);
}

#[test]
fn send_errors_read_as_messages() {
    assert_eq!(
        SendError::InvalidUrl {
            url: "ftp://a\"b".into()
        }
        .to_string(),
        "invalid webhook URL \"ftp://a\\\"b\": must be an http(s) URL"
    );
    assert_eq!(
        SendError::Validation(ValidationError::MissingComponentsForV2 {
            path: "components".into()
        })
        .to_string(),
        "message failed validation: components: at least one component is required when the components v2 flag is set"
    );
    assert_eq!(
        SendError::Transport("timed out".into()).to_string(),
        "webhook request failed: timed out"
    );
    assert_eq!(
        SendError::Discord {
            status: 404,
            body: "{}".into()
        }
        .to_string(),
        "Discord returned 404: {}"
    );
}

#[test]
fn premium_button_is_refused_before_sending() {
    let message = Message {
        components: vec![pwr_viewgen::model::Component::ActionRow {
            components: vec![pwr_viewgen::model::Component::Button {
                style: 6,
                label: None,
                emoji: None,
                url: None,
                disabled: false,
            }],
        }],
        ..plain_message()
    };
    let parsed = parsed_with(message, "{}");
    assert!(matches!(
        prepare("https://discord.com/api/webhooks/1/abc", &parsed, false),
        Err(SendError::Validation(ValidationError::OutOfRange { .. }))
    ));
}
