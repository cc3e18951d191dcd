use simple_socket::json::FrameItem;
use simple_socket::message::{
    comma_joined, frame, frame_fits, request_body, ConnectMessage, ConnectedResponse, EditMessage, EventResponse, MessageType,
    RemoteResponse, ServerResponse, SimpleSocketMessage, SubscribeMessage,
};

fn item(text: Option<&str>, signed: Option<i64>, unsigned: Option<u64>, json: &str) -> FrameItem {
    FrameItem { text: text.map(String::from), signed, unsigned, json: json.to_string() }
}

fn number(n: u64) -> FrameItem {
    item(None, Some(n as i64), Some(n), &n.to_string())
}

fn string(s: &str) -> FrameItem {
    item(Some(s), None, None, &format!("\"{}\"", s))
}

#[test]
fn message_type_codes() {
    assert_eq!(MessageType::Connect.code(), 1);
    assert_eq!(MessageType::Subscribe.code(), 2);
    assert_eq!(MessageType::Publish.code(), 3);
    assert_eq!(MessageType::Edit.code(), 4);
    assert_eq!(MessageType::Unsubscribe.code(), 5);
    assert_eq!(MessageType::Remote.code(), 6);
    assert_eq!(MessageType::DefaultConfig.code(), 7);
}

#[test]
fn connect_message_text() {
    let m = ConnectMessage { id: "61b9724ea70f1912d5e0eb11", token: "client_a05c" };
    let (id, text) = m.to_shitty_json_array(0);
    assert_eq!(id, 10);
    assert_eq!(text, "10,\"61b9724ea70f1912d5e0eb11\",\"client_a05c\"");
}

#[test]
fn connect_message_escapes_strings() {
    let m = ConnectMessage { id: "a\"b", token: "c\\d\n" };
    let (id, text) = m.to_shitty_json_array(42);
    assert_eq!(id, 142);
    assert_eq!(text, "142,\"a\\\"b\",\"c\\\\d\\n\"");
}

#[test]
fn subscribe_message_text() {
    let m = SubscribeMessage { unknown_param: true, filter: "{\"Task\":\"PostUpdate\"}".to_string() };
    let (id, text) = m.to_shitty_json_array(5);
    assert_eq!(id, 25);
    assert_eq!(text, "25,{\"Task\":\"PostUpdate\"},true");
    let m = SubscribeMessage { unknown_param: false, filter: "null".to_string() };
    assert_eq!(m.to_shitty_json_array(10), (210, "210,null,false".to_string()));
}

#[test]
fn edit_message_text() {
    let m = EditMessage { hash: -7, req_num: 3, filter: "[1]".to_string() };
    let (id, text) = m.to_shitty_json_array(12);
    assert_eq!(id, 212);
    assert_eq!(text, "212,3,-7,[1]");
}

#[test]
fn message_text_begins_with_id() {
    let m = SubscribeMessage { unknown_param: true, filter: "{}".to_string() };
    let (id, text) = m.to_shitty_json_array(987);
    assert!(text.starts_with(&format!("{},", id)));
}

#[test]
fn frame_wraps_in_brackets() {
    assert_eq!(frame(b"1,2"), b"[1,2]".to_vec());
    assert_eq!(frame(b""), b"[]".to_vec());
}

#[test]
fn from_frame_connected() {
    let items = vec![number(1), string("c"), string("s"), string("x")];
    let r = ServerResponse::from_frame(&items);
    assert_eq!(
        r,
        Ok(ServerResponse::Connected(ConnectedResponse {
            client_id: "c".to_string(),
            server_id: "s".to_string(),
            secure_id: "x".to_string(),
        }))
    );
}

#[test]
fn from_frame_event() {
    let items = vec![number(2), number(5), item(None, None, None, "{\"a\":1}")];
    assert_eq!(
        ServerResponse::from_frame(&items),
        Ok(ServerResponse::Message(EventResponse { hash: 5, data: "{\"a\":1}".to_string() }))
    );
}

#[test]
fn from_frame_remote_wins_over_kind() {
    let items = vec![number(1), number(9), item(None, None, None, "[1]"), item(None, None, None, "null"), string("call")];
    assert_eq!(
        ServerResponse::from_frame(&items),
        Ok(ServerResponse::Remote(RemoteResponse {
            hash: 9,
            data: "[1]".to_string(),
            name: "call".to_string(),
            extra: "null".to_string(),
        }))
    );
}

#[test]
fn from_frame_errors() {
    assert_eq!(ServerResponse::from_frame(&vec![string("x")]), Err("not int".to_string()));
    assert_eq!(ServerResponse::from_frame(&vec![number(3)]), Err("invalid response type".to_string()));
    assert_eq!(ServerResponse::from_frame(&vec![number(1), number(2)]), Err("not a string".to_string()));
    assert_eq!(
        ServerResponse::from_frame(&vec![number(1), string("a"), string("b"), number(4)]),
        Err("not a string".to_string())
    );
    assert_eq!(ServerResponse::from_frame(&vec![number(2), string("h"), number(1)]), Err("not int".to_string()));
    assert_eq!(
        ServerResponse::from_frame(&vec![number(6), string("h"), number(1), number(1), string("n")]),
        Err("not an int".to_string())
    );
}

#[test]
fn frame_fit_checks() {
    assert!(!frame_fits(&vec![]));
    assert!(!frame_fits(&vec![number(1)]));
    assert!(!frame_fits(&vec![number(1), string("a")]));
    assert!(frame_fits(&vec![number(1), number(5)]));
    assert!(!frame_fits(&vec![number(2), number(5)]));
    assert!(frame_fits(&vec![number(2), string("x")]));
    assert!(frame_fits(&vec![number(9)]));
}

#[test]
fn from_bytes_connected() {
    let r = ServerResponse::from_bytes(b"1,\"c\",\"s\",\"x\"");
    assert_eq!(
        r,
        Ok(ServerResponse::Connected(ConnectedResponse {
            client_id: "c".to_string(),
            server_id: "s".to_string(),
            secure_id: "x".to_string(),
        }))
    );
}

#[test]
fn from_bytes_event_keeps_compact_data() {
    let r = ServerResponse::from_bytes(b"2, 1251552546, {\"a\": [1, 2]}");
    assert_eq!(
        r,
        Ok(ServerResponse::Message(EventResponse { hash: 1251552546, data: "{\"a\":[1,2]}".to_string() }))
    );
}

#[test]
fn from_bytes_negative_hash() {
    let r = ServerResponse::from_bytes(b"2,-42,null");
    assert_eq!(r, Ok(ServerResponse::Message(EventResponse { hash: -42, data: "null".to_string() })));
}

#[test]
fn from_bytes_remote() {
    let r = ServerResponse::from_bytes(b"6,9,{\"d\":2},null,\"name\"");
    assert_eq!(
        r,
        Ok(ServerResponse::Remote(RemoteResponse {
            hash: 9,
            data: "{\"d\":2}".to_string(),
            name: "name".to_string(),
            extra: "null".to_string(),
        }))
    );
}

#[test]
fn from_bytes_errors() {
    assert_eq!(ServerResponse::from_bytes(b"3"), Err("invalid response type".to_string()));
    assert_eq!(ServerResponse::from_bytes(b"-1"), Err("not int".to_string()));
    assert_eq!(ServerResponse::from_bytes(b"1.5"), Err("not int".to_string()));
    let e = ServerResponse::from_bytes(b"1,").unwrap_err();
    assert!(!e.is_empty());
    assert!(ServerResponse::from_bytes(b"nonsense").is_err());
}

#[test]
fn try_from_bytes_truncated_frames() {
    assert_eq!(ServerResponse::try_from_bytes(b""), None);
    assert_eq!(ServerResponse::try_from_bytes(b"1,\"c\""), None);
    assert_eq!(ServerResponse::try_from_bytes(b"2,5"), None);
    assert_eq!(ServerResponse::try_from_bytes(b"3"), Some(Err("invalid response type".to_string())));
    assert_eq!(
        ServerResponse::try_from_bytes(b"2,5,true"),
        Some(Ok(ServerResponse::Message(EventResponse { hash: 5, data: "true".to_string() })))
    );
}

#[test]
fn request_bodies() {
    assert_eq!(request_body(1, 0, "\"a\",\"b\""), "10,\"a\",\"b\"");
    assert_eq!(request_body(2, 31, "x"), "231,x");
    assert_eq!(comma_joined("a", "b"), "a,b");
    assert_eq!(comma_joined("", ""), ",");
}

#[test]
fn connect_message_escapes_control_characters() {
    let m = ConnectMessage { id: "\u{1}\u{1f}\u{7f}", token: "\u{8}\t\u{c}\r/é" };
    let (_, text) = m.to_shitty_json_array(0);
    assert_eq!(text, "10,\"\\u0001\\u001f\u{7f}\",\"\\b\\t\\f\\r/é\"");
}

#[test]
fn request_ids_differ_across_kinds() {
    let connect = ConnectMessage { id: "p", token: "t" };
    let subscribe = SubscribeMessage { unknown_param: true, filter: "{}".to_string() };
    let edit = EditMessage { hash: 1, req_num: 2, filter: "{}".to_string() };
    let ids = vec![
        connect.to_shitty_json_array(0).0,
        subscribe.to_shitty_json_array(1).0,
        edit.to_shitty_json_array(2).0,
        connect.to_shitty_json_array(1).0,
        subscribe.to_shitty_json_array(0).0,
    ];
    assert_eq!(ids, vec![10, 21, 22, 11, 20]);
    for i in 0..ids.len() {
        for j in (i + 1)..ids.len() {
            assert_ne!(ids[i], ids[j]);
        }
    }
}
