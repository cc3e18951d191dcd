use simple_socket::context::{hash, Context};
use simple_socket::message::{ConnectMessage, ConnectedResponse, EventResponse, RemoteResponse};
use simple_socket::session::{next_step, Dispatch, LoopStep, SocketEvent};

#[test]
fn new_context_is_empty() {
    let mut ctx: Context<u8> = Context::new();
    assert_eq!(ctx.req_num(), 0);
    assert!(ctx.take_outbox().is_empty());
    assert!(ctx.secure_id_text().is_none());
    assert!(ctx.on_message(&EventResponse { hash: 0, data: "null".to_string() }).is_none());
}

#[test]
fn send_numbers_requests() {
    let mut ctx: Context<u8> = Context::new();
    let a = ctx.send(ConnectMessage { id: "p", token: "t" });
    let b = ctx.send(ConnectMessage { id: "p", token: "t" });
    assert_eq!(a, 10);
    assert_eq!(b, 11);
    assert_eq!(ctx.req_num(), 2);
    assert_eq!(ctx.take_outbox(), vec!["10,\"p\",\"t\"".to_string(), "11,\"p\",\"t\"".to_string()]);
    assert!(ctx.take_outbox().is_empty());
}

#[test]
fn subscription_receives_its_events() {
    let mut ctx: Context<&'static str> = Context::new();
    let filter = "{\"Task\":\"PostUpdate\"}".to_string();
    let handle = ctx.subscribe(filter.clone(), "first");
    assert_eq!(handle.hash(), hash(&filter));
    assert_eq!(handle.req_id(), 20);
    assert_eq!(ctx.take_outbox(), vec!["20,{\"Task\":\"PostUpdate\"},true".to_string()]);
    let hit = EventResponse { hash: handle.hash(), data: "1".to_string() };
    assert_eq!(ctx.on_message(&hit), Some(&"first"));
    let miss = EventResponse { hash: handle.hash() + 1, data: "1".to_string() };
    assert_eq!(ctx.on_message(&miss), None);
}

#[test]
fn resubscribing_replaces() {
    let mut ctx: Context<u32> = Context::new();
    let a = ctx.subscribe("[1]".to_string(), 1);
    let b = ctx.subscribe("[1]".to_string(), 2);
    assert_eq!(a.hash(), b.hash());
    assert_eq!(a.req_id(), 20);
    assert_eq!(b.req_id(), 21);
    let ev = EventResponse { hash: a.hash(), data: "0".to_string() };
    assert_eq!(ctx.on_message(&ev), Some(&2));
}

#[test]
fn edit_sends_and_keeps_table() {
    let mut ctx: Context<u32> = Context::new();
    let h = ctx.subscribe("[1]".to_string(), 7);
    let _ = ctx.take_outbox();
    h.edit(&mut ctx, "[2]".to_string());
    let expected = format!("21,{},{},[2]", h.req_id(), h.hash());
    assert_eq!(h.req_id(), 20);
    assert_eq!(ctx.take_outbox(), vec![expected]);
    let ev = EventResponse { hash: hash("[1]"), data: "0".to_string() };
    assert_eq!(ctx.on_message(&ev), Some(&7));
    assert_eq!(ctx.on_message(&EventResponse { hash: hash("[2]"), data: "0".to_string() }), None);
    h.close();
}

#[test]
fn connected_records_secure_id() {
    let mut ctx: Context<u8> = Context::new();
    ctx.on_connected(&ConnectedResponse {
        client_id: "abc".to_string(),
        server_id: "srv".to_string(),
        secure_id: "xyz".to_string(),
    });
    assert_eq!(ctx.secure_id_text(), Some(&"abc-xyz".to_string()));
}

#[test]
fn binary_frames_dispatch() {
    let mut ctx: Context<u8> = Context::new();
    let d = ctx.on_binary(b"1,\"abc\",\"srv\",\"xyz\"");
    assert_eq!(
        d,
        Dispatch::Ready(ConnectedResponse {
            client_id: "abc".to_string(),
            server_id: "srv".to_string(),
            secure_id: "xyz".to_string(),
        })
    );
    assert_eq!(ctx.secure_id_text(), Some(&"abc-xyz".to_string()));
    assert_eq!(
        ctx.on_binary(b"2,17,[true]"),
        Dispatch::Deliver(EventResponse { hash: 17, data: "[true]".to_string() })
    );
    assert_eq!(
        ctx.on_binary(b"0,1,2,3,\"f\""),
        Dispatch::Remote(RemoteResponse {
            hash: 1,
            data: "2".to_string(),
            name: "f".to_string(),
            extra: "3".to_string(),
        })
    );
    assert_eq!(ctx.on_binary(b"5"), Dispatch::Malformed("invalid response type".to_string()));
    assert_eq!(ctx.on_binary(b""), Dispatch::Truncated);
    assert_eq!(ctx.req_num(), 0);
}

#[test]
fn loop_steps() {
    assert_eq!(next_step(SocketEvent::Binary(vec![1, 2])), LoopStep::Handle(vec![1, 2]));
    assert_eq!(next_step(SocketEvent::Closed), LoopStep::Continue);
    assert_eq!(next_step(SocketEvent::Ping), LoopStep::Continue);
    assert_eq!(next_step(SocketEvent::Unexpected), LoopStep::Abort);
    assert_eq!(next_step(SocketEvent::ReadFailed), LoopStep::Stop);
    assert_eq!(next_step(SocketEvent::Ended), LoopStep::Stop);
    assert_eq!(next_step(SocketEvent::Outgoing("x".to_string())), LoopStep::Transmit("x".to_string()));
    assert_eq!(next_step(SocketEvent::OutgoingClosed), LoopStep::Stop);
}

#[test]
fn subscribe_under_a_given_hash() {
    let mut ctx: Context<u8> = Context::new();
    let h = ctx.subscribe_hashed("[3]".to_string(), -5, 9);
    assert_eq!(h.hash(), -5);
    assert_eq!(h.req_id(), 20);
    assert_eq!(ctx.take_outbox(), vec!["20,[3],true".to_string()]);
    assert_eq!(ctx.on_message(&EventResponse { hash: -5, data: "0".to_string() }), Some(&9));
}

#[test]
fn subscription_survives_later_changes() {
    let mut ctx: Context<u32> = Context::new();
    let h = ctx.subscribe("[1]".to_string(), 5);
    let _ = ctx.send(ConnectMessage { id: "p", token: "t" });
    let other = ctx.subscribe("[2]".to_string(), 6);
    assert_ne!(other.hash(), h.hash());
    h.edit(&mut ctx, "[3]".to_string());
    let _ = ctx.take_outbox();
    let _ = ctx.on_binary(b"1,\"a\",\"b\",\"c\"");
    let _ = ctx.on_binary(b"2,1,null");
    assert_eq!(ctx.on_message(&EventResponse { hash: h.hash(), data: "0".to_string() }), Some(&5));
    assert_eq!(ctx.on_message(&EventResponse { hash: other.hash(), data: "0".to_string() }), Some(&6));
}

#[test]
fn a_run_of_sends_has_distinct_ids() {
    let mut ctx: Context<u8> = Context::new();
    let mut ids = Vec::new();
    for i in 0..30u32 {
        if i % 2 == 0 {
            ids.push(ctx.send(ConnectMessage { id: "p", token: "t" }));
        } else {
            ids.push(ctx.subscribe(format!("[{}]", i), 0).req_id());
        }
    }
    assert_eq!(ctx.req_num(), 30);
    for i in 0..ids.len() {
        for j in (i + 1)..ids.len() {
            assert_ne!(ids[i], ids[j]);
        }
    }
}
