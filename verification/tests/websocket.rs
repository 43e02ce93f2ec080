use serverkit::headers::Headers;
use serverkit::response::IntoResponse;
use serverkit::websocket::{WebSocketError, WebSocketMessage, WebSocketUpgrade, WebSocketUpgradeError};

fn headers(entries: &[(&str, &str)]) -> Headers {
    let mut headers = Headers::new();
    for (name, value) in entries {
        headers.append(name.to_string(), value.as_bytes().to_vec()).unwrap();
    }
    headers
}

fn upgrade_request(extra: &[(&str, &str)]) -> Headers {
    let mut entries = vec![
        ("Upgrade", "websocket"),
        ("Connection", "keep-alive, Upgrade"),
        ("Sec-WebSocket-Version", "13"),
        ("Sec-WebSocket-Key", "dGhlIHNhbXBsZSBub25jZQ=="),
    ];
    entries.extend_from_slice(extra);
    headers(&entries)
}

#[test]
fn accepts_an_upgrade_and_lists_requested_protocols() {
    let upgrade =
        WebSocketUpgrade::from_headers(&upgrade_request(&[("Sec-WebSocket-Protocol", " chat , , superchat")]), true)
            .unwrap();
    assert_eq!(upgrade.protocols(), &vec!["chat".to_owned(), "superchat".to_owned()]);
    let upgrade = upgrade.protocol("superchat".to_owned()).unwrap();
    let plan = upgrade.plan();
    assert_eq!(plan.key(), "dGhlIHNhbXBsZSBub25jZQ==");
    assert_eq!(plan.selected_protocol(), Some("superchat"));
}

#[test]
fn refuses_protocols_that_were_not_requested() {
    let upgrade = WebSocketUpgrade::from_headers(&upgrade_request(&[]), true).unwrap();
    assert!(matches!(upgrade.protocol("chat".to_owned()), Err(WebSocketUpgradeError::Protocol)));
}

#[test]
fn reports_why_a_request_cannot_be_upgraded() {
    let plain = headers(&[("Connection", "Upgrade")]);
    assert_eq!(WebSocketUpgrade::from_headers(&plain, true).unwrap_err(), WebSocketUpgradeError::NotWebSocket);
    let version = headers(&[("Upgrade", "WebSocket"), ("Connection", "upgrade"), ("Sec-WebSocket-Version", "8")]);
    assert_eq!(WebSocketUpgrade::from_headers(&version, true).unwrap_err(), WebSocketUpgradeError::Version);
    let keyless = headers(&[("Upgrade", "websocket"), ("Connection", "Upgrade"), ("Sec-WebSocket-Version", "13")]);
    assert_eq!(WebSocketUpgrade::from_headers(&keyless, true).unwrap_err(), WebSocketUpgradeError::MissingKey);
    assert_eq!(WebSocketUpgrade::from_headers(&upgrade_request(&[]), false).unwrap_err(), WebSocketUpgradeError::Runtime);
}

#[test]
fn upgrade_errors_become_responses() {
    let mut version = WebSocketUpgradeError::Version.into_response();
    assert_eq!(version.status(), 426);
    assert_eq!(version.headers().get("sec-websocket-version"), Some(b"13".as_slice()));
    assert_eq!(WebSocketUpgradeError::NotWebSocket.into_response().status(), 400);
    assert_eq!(WebSocketUpgradeError::Runtime.into_response().status(), 500);
    let error = WebSocketError::new("closed".to_owned());
    assert_eq!(error.message(), "closed");
    let response = error.into_response();
    assert_eq!(response.status(), 500);
    assert_eq!(response.body(), b"closed");
}

#[test]
fn messages_compare_by_content() {
    assert_eq!(WebSocketMessage::Binary(vec![1, 2, 3]), WebSocketMessage::Binary(vec![1, 2, 3]));
    assert_ne!(WebSocketMessage::Text("a".to_owned()), WebSocketMessage::Text("b".to_owned()));
}

#[test]
fn the_upgrade_response_names_the_selected_protocol() {
    let upgrade = WebSocketUpgrade::from_headers(&upgrade_request(&[("Sec-WebSocket-Protocol", "chat")]), true)
        .unwrap()
        .protocol("chat".to_owned())
        .unwrap();
    let mut response = upgrade.on_upgrade();
    assert_eq!(response.status(), 101);
    assert_eq!(response.headers().get("sec-websocket-protocol"), Some(b"chat".as_slice()));

    let plain = WebSocketUpgrade::from_headers(&upgrade_request(&[]), true).unwrap();
    let mut response = plain.on_upgrade();
    assert_eq!(response.headers().get("sec-websocket-protocol"), None);
}
