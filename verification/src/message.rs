//! The wire format: decoding server frames into [`ServerResponse`]s and
//! encoding client requests as the comma-separated body of a JSON array
//! prefixed with the request type.
use vstd::prelude::*;
use crate::decimal::{
    dec, digit_char, dec_int, decimal, decimal_signed, digit_scale, lemma_digit_scale_bound,
    lemma_dec_injective, lemma_digit_scale_monotone, lemma_request_id_text, pow10, request_id,
    scale_of,
};
use crate::json::{
    FrameItem, FrameItemView, items_view, json_array_items, json_string_literal,
    law_string_literal_is_injective, parse_array, quote,
};
use crate::text::{owned, push_char};

verus! {

/// The server's answer to a connect request.
#[derive(Debug, Clone, PartialEq, Eq)]
pub struct ConnectedResponse {
    pub client_id: String,
    pub server_id: String,
    pub secure_id: String,
}

/// An event published to a subscription; `data` is the JSON text of the
/// payload.
#[derive(Debug, Clone, PartialEq, Eq)]
pub struct EventResponse {
    pub hash: i64,
    pub data: String,
}

/// A remote call; `data` and `extra` are JSON texts (`extra` is usually
/// `null`, do not use).
#[derive(Debug, Clone, PartialEq, Eq)]
pub struct RemoteResponse {
    pub hash: i64,
    pub data: String,
    pub name: String,
    pub extra: String,
}

/// A decoded server frame.
#[derive(Debug, Clone, PartialEq, Eq)]
pub enum ServerResponse {
    Connected(ConnectedResponse),
    Message(EventResponse),
    Remote(RemoteResponse),
}

/// The mathematical value of a [`ServerResponse`].
pub enum ResponseView {
    Connected { client_id: Seq<char>, server_id: Seq<char>, secure_id: Seq<char> },
    Message { hash: i64, data: Seq<char> },
    Remote { hash: i64, data: Seq<char>, name: Seq<char>, extra: Seq<char> },
}

impl View for ServerResponse {
    type V = ResponseView;

    open spec fn view(&self) -> ResponseView {
        match self {
            ServerResponse::Connected(c) => ResponseView::Connected {
                client_id: c.client_id@,
                server_id: c.server_id@,
                secure_id: c.secure_id@,
            },
            ServerResponse::Message(m) => ResponseView::Message { hash: m.hash, data: m.data@ },
            ServerResponse::Remote(r) => ResponseView::Remote {
                hash: r.hash,
                data: r.data@,
                name: r.name@,
                extra: r.extra@,
            },
        }
    }
}

/// The view of a decoding result.
pub open spec fn outcome_view(r: Result<ServerResponse, String>) -> Result<ResponseView, Seq<char>> {
    match r {
        Ok(v) => Ok(v@),
        Err(e) => Err(e@),
    }
}

/// Error text when an element that must be a string is not.
pub open spec fn not_a_string() -> Seq<char> {
    "not a string"@
}

/// Error text when the hash of a remote call is not an integer.
pub open spec fn not_an_int() -> Seq<char> {
    "not an int"@
}

/// Error text when the frame type or an event hash is not an integer.
pub open spec fn not_int() -> Seq<char> {
    "not int"@
}

/// Error text for a frame type other than 1 and 2.
pub open spec fn invalid_response_type() -> Seq<char> {
    "invalid response type"@
}

/// Error text when the frame is not a JSON array.
pub open spec fn not_an_array() -> Seq<char> {
    "not an array"@
}

/// A frame is read without indexing past its end: a remote frame (element 4
/// is a string) has all it needs; otherwise element 0 must exist, and each
/// element that the decoder goes on to read after a successful read must
/// exist too.
pub open spec fn frame_in_bounds(items: Seq<FrameItemView>) -> bool {
    if items.len() > 4 && items[4].text is Some {
        true
    } else if items.len() == 0 {
        false
    } else {
        match items[0].unsigned {
            Some(kind) => if kind == 1 {
                items.len() >= 2 && (items[1].text is Some ==> items.len() >= 3 && (items[2].text is Some
                    ==> items.len() >= 4))
            } else if kind == 2 {
                items.len() >= 2 && (items[1].signed is Some ==> items.len() >= 3)
            } else {
                true
            },
            None => true,
        }
    }
}

/// A connected frame: `[1, client_id, server_id, secure_id]`, checked in
/// that order.
pub open spec fn connected_outcome(items: Seq<FrameItemView>) -> Result<ResponseView, Seq<char>> {
    match items[1].text {
        None => Err(not_a_string()),
        Some(client_id) => match items[2].text {
            None => Err(not_a_string()),
            Some(server_id) => match items[3].text {
                None => Err(not_a_string()),
                Some(secure_id) => Ok(ResponseView::Connected { client_id, server_id, secure_id }),
            },
        },
    }
}

/// An event frame: `[2, hash, data]`.
pub open spec fn message_outcome(items: Seq<FrameItemView>) -> Result<ResponseView, Seq<char>> {
    match items[1].signed {
        None => Err(not_int()),
        Some(hash) => Ok(ResponseView::Message { hash, data: items[2].json }),
    }
}

/// What a frame decodes to, from its elements: a remote call when element 4
/// is a string, otherwise the kind named by element 0.
pub open spec fn frame_outcome(items: Seq<FrameItemView>) -> Result<ResponseView, Seq<char>> {
    if items.len() > 4 && items[4].text is Some {
        match items[1].signed {
            None => Err(not_an_int()),
            Some(hash) => Ok(
                ResponseView::Remote {
                    hash,
                    data: items[2].json,
                    name: items[4].text->0,
                    extra: items[3].json,
                },
            ),
        }
    } else {
        match items[0].unsigned {
            None => Err(not_int()),
            Some(kind) => if kind == 1 {
                connected_outcome(items)
            } else if kind == 2 {
                message_outcome(items)
            } else {
                Err(invalid_response_type())
            },
        }
    }
}

/// The bytes of a message body wrapped in array brackets.
pub open spec fn framed(msg: Seq<u8>) -> Seq<u8> {
    seq![91u8] + msg + seq![93u8]
}

/// A message body is decoded without indexing past the end of its frame.
pub open spec fn bytes_in_bounds(msg: Seq<u8>) -> bool {
    match json_array_items(framed(msg)) {
        Ok(Some(items)) => frame_in_bounds(items),
        _ => true,
    }
}

/// What a message body decodes to: the JSON error, or the decoding of the
/// elements of the bracketed body.
pub open spec fn bytes_outcome(msg: Seq<u8>) -> Result<ResponseView, Seq<char>> {
    match json_array_items(framed(msg)) {
        Err(e) => Err(e),
        Ok(None) => Err(not_an_array()),
        Ok(Some(items)) => frame_outcome(items),
    }
}

/// `msg` between `[` and `]`.
pub fn frame(msg: &[u8]) -> (r: Vec<u8>)
    ensures
        r@ == framed(msg@),
{
    let mut r: Vec<u8> = Vec::new();
    r.push(91u8);
    let n = msg.len();
    for i in 0..n
        invariant
            n == msg@.len(),
            r@ == seq![91u8] + msg@.take(i as int),
    {
        r.push(msg[i]);
        proof {
            assert(msg@.take(i as int + 1) =~= msg@.take(i as int).push(msg@[i as int]));
        }
    }
    r.push(93u8);
    proof {
        assert(msg@.take(n as int) =~= msg@);
        assert(r@ =~= framed(msg@));
    }
    r
}

/// Whether [`ServerResponse::from_frame`] reads `items` without running past
/// their end.
pub fn frame_fits(items: &Vec<FrameItem>) -> (b: bool)
    ensures
        b == frame_in_bounds(items_view(items@)),
{
    let ghost v = items_view(items@);
    let n = items.len();
    if n > 4 && items[4].text.is_some() {
        assert(v[4] == items@[4]@);
        return true;
    }
    if n == 0 {
        return false;
    }
    assert(v[0] == items@[0]@);
    match items[0].unsigned {
        Some(kind) => {
            if kind == 1 {
                if n < 2 {
                    return false;
                }
                assert(v[1] == items@[1]@);
                if items[1].text.is_none() {
                    return true;
                }
                if n < 3 {
                    return false;
                }
                assert(v[2] == items@[2]@);
                if items[2].text.is_none() {
                    return true;
                }
                n >= 4
            } else if kind == 2 {
                if n < 2 {
                    return false;
                }
                assert(v[1] == items@[1]@);
                items[1].signed.is_none() || n >= 3
            } else {
                true
            }
        },
        None => true,
    }
}

fn text_of(item: &FrameItem) -> (r: Option<String>)
    ensures
        r matches Some(t) ==> item@.text == Some(t@),
        r is None ==> item@.text is None,
{
    match &item.text {
        Some(t) => Some(t.clone()),
        None => None,
    }
}

impl ServerResponse {
    /// Decodes the elements of a frame. Element 4 being a string makes it a
    /// remote call; otherwise element 0 selects a connected frame (1) or an
    /// event (2), and any other value is refused.
    pub fn from_frame(items: &Vec<FrameItem>) -> (r: Result<ServerResponse, String>)
        requires
            frame_in_bounds(items_view(items@)),
        ensures
            outcome_view(r) == frame_outcome(items_view(items@)),
    {
        let ghost v = items_view(items@);
        let n = items.len();
        if n > 4 && items[4].text.is_some() {
            assert(v[4] == items@[4]@ && v[1] == items@[1]@ && v[2] == items@[2]@ && v[3]
                == items@[3]@);
            let name = match text_of(&items[4]) {
                Some(t) => t,
                None => { return Err(owned("not a string")); },
            };
            return match items[1].signed {
                Some(hash) => Ok(
                    ServerResponse::Remote(
                        RemoteResponse {
                            hash,
                            data: items[2].json.clone(),
                            extra: items[3].json.clone(),
                            name,
                        },
                    ),
                ),
                None => Err(owned("not an int")),
            };
        }
        assert(v[0] == items@[0]@);
        match items[0].unsigned {
            Some(kind) => {
                if kind == 1 {
                    assert(v[1] == items@[1]@);
                    let client_id = match text_of(&items[1]) {
                        Some(t) => t,
                        None => { return Err(owned("not a string")); },
                    };
                    assert(v[2] == items@[2]@);
                    let server_id = match text_of(&items[2]) {
                        Some(t) => t,
                        None => { return Err(owned("not a string")); },
                    };
                    assert(v[3] == items@[3]@);
                    let secure_id = match text_of(&items[3]) {
                        Some(t) => t,
                        None => { return Err(owned("not a string")); },
                    };
                    Ok(ServerResponse::Connected(ConnectedResponse { client_id, server_id, secure_id }))
                } else if kind == 2 {
                    assert(v[1] == items@[1]@);
                    match items[1].signed {
                        Some(hash) => {
                            assert(v[2] == items@[2]@);
                            Ok(ServerResponse::Message(EventResponse { hash, data: items[2].json.clone() }))
                        },
                        None => Err(owned("not int")),
                    }
                } else {
                    Err(owned("invalid response type"))
                }
            },
            None => Err(owned("not int")),
        }
    }

    /// Decodes a message body: the body is wrapped in brackets, parsed as
    /// JSON, and its elements decoded by [`ServerResponse::from_frame`].
    pub fn from_bytes(msg: &[u8]) -> (r: Result<ServerResponse, String>)
        requires
            bytes_in_bounds(msg@),
        ensures
            outcome_view(r) == bytes_outcome(msg@),
    {
        let bytes = frame(msg);
        match parse_array(bytes.as_slice()) {
            Ok(Some(items)) => ServerResponse::from_frame(&items),
            Ok(None) => Err(owned("not an array")),
            Err(e) => Err(e),
        }
    }

    /// Decodes a message body as [`ServerResponse::from_bytes`] does, or
    /// gives `None` for a body whose frame is too short for the elements its
    /// decoding reads.
    pub fn try_from_bytes(msg: &[u8]) -> (r: Option<Result<ServerResponse, String>>)
        ensures
            r is None <==> !bytes_in_bounds(msg@),
            r matches Some(res) ==> outcome_view(res) == bytes_outcome(msg@),
    {
        let bytes = frame(msg);
        let fits = match parse_array(bytes.as_slice()) {
            Ok(Some(items)) => frame_fits(&items),
            _ => true,
        };
        if fits {
            Some(ServerResponse::from_bytes(msg))
        } else {
            None
        }
    }
}

/// The request kinds of the protocol, numbered from 1.
#[derive(Debug, Clone, Copy, PartialEq, Eq)]
pub enum MessageType {
    Connect,
    Subscribe,
    Publish,
    Edit,
    Unsubscribe,
    Remote,
    DefaultConfig,
}

impl MessageType {
    /// The number that identifies the request kind on the wire.
    pub open spec fn spec_code(self) -> nat {
        match self {
            MessageType::Connect => 1,
            MessageType::Subscribe => 2,
            MessageType::Publish => 3,
            MessageType::Edit => 4,
            MessageType::Unsubscribe => 5,
            MessageType::Remote => 6,
            MessageType::DefaultConfig => 7,
        }
    }

    /// The number that identifies the request kind on the wire.
    pub fn code(&self) -> (c: u8)
        ensures
            c as nat == self.spec_code(),
    {
        match self {
            MessageType::Connect => 1,
            MessageType::Subscribe => 2,
            MessageType::Publish => 3,
            MessageType::Edit => 4,
            MessageType::Unsubscribe => 5,
            MessageType::Remote => 6,
            MessageType::DefaultConfig => 7,
        }
    }
}

/// The largest request number for which request ids fit in a `u32`.
pub const MAX_REQUEST: u32 = 999_999_999;

/// The text of a request: the kind's code, the request number, then the
/// remaining fields, all separated by commas after the number.
pub open spec fn request_text(code: nat, req: nat, fields: Seq<char>) -> Seq<char> {
    dec(code) + dec(req) + seq![','] + fields
}

/// Every request text begins with the decimal text of the request's id
/// and a comma: the id is the code followed by the request number.
pub proof fn law_request_text_starts_with_id(code: nat, req: nat, fields: Seq<char>)
    requires
        1 <= code <= 9,
    ensures
        request_text(code, req, fields) == dec(request_id(code, req)) + seq![','] + fields,
{
    lemma_request_id_text(code, req);
}

/// Of two requests of the same kind, the later one (higher request number)
/// has the larger id, so no two requests of a kind share an id.
pub proof fn law_request_ids_increase(code: nat, r1: nat, r2: nat)
    requires
        1 <= code,
        r1 < r2,
    ensures
        request_id(code, r1) < request_id(code, r2),
{
    lemma_digit_scale_monotone(r1, r2);
    assert(code * digit_scale(r1) <= code * digit_scale(r2)) by (nonlinear_arith)
        requires
            digit_scale(r1) <= digit_scale(r2),
    ;
}

/// Two requests differ in kind or in request number exactly when their ids
/// differ: no two requests of one client share an id, whatever their kinds.
pub proof fn law_request_ids_distinct(code1: nat, r1: nat, code2: nat, r2: nat)
    requires
        1 <= code1 <= 9,
        1 <= code2 <= 9,
        code1 != code2 || r1 != r2,
    ensures
        request_id(code1, r1) != request_id(code2, r2),
{
    lemma_request_id_text(code1, r1);
    lemma_request_id_text(code2, r2);
    if request_id(code1, r1) == request_id(code2, r2) {
        let t = dec(request_id(code1, r1));
        assert(dec(code1) == seq![digit_char(code1)]);
        assert(dec(code2) == seq![digit_char(code2)]);
        assert(t[0] == digit_char(code1));
        assert(t[0] == digit_char(code2));
        assert(digit_char(code1) as int == code1 + 48);
        assert(digit_char(code2) as int == code2 + 48);
        assert(dec(r1) =~= t.skip(1));
        assert(dec(r2) =~= t.skip(1));
        lemma_dec_injective(r1, r2);
    }
}

/// `a`, a comma, then `b`.
pub open spec fn comma(a: Seq<char>, b: Seq<char>) -> Seq<char> {
    a + seq![','] + b
}

/// The JSON text of a boolean.
pub open spec fn json_bool(b: bool) -> Seq<char> {
    if b {
        "true"@
    } else {
        "false"@
    }
}

/// The id of request `req` of the kind with code `code`, as a `u32`: the
/// number written as the code followed by the request number.
pub fn request_number(code: u8, req: u32) -> (id: u32)
    requires
        1 <= code <= 3,
        req <= MAX_REQUEST,
    ensures
        id as nat == request_id(code as nat, req as nat),
{
    let scale = scale_of(req);
    proof {
        reveal_with_fuel(pow10, 10);
        assert(pow10(9) == 1_000_000_000);
        lemma_digit_scale_bound(req as nat, 9);
    }
    assert(scale <= 1_000_000_000);
    assert((code as u64) * scale <= 3_000_000_000) by (nonlinear_arith)
        requires
            code <= 3,
            scale <= 1_000_000_000,
    ;
    let id: u64 = (code as u64) * scale + (req as u64);
    assert(id <= 3 * 1_000_000_000 + 999_999_999) by (nonlinear_arith)
        requires
            id == (code as u64) * scale + (req as u64),
            code <= 3,
            scale <= 1_000_000_000,
            req <= 999_999_999,
    ;
    id as u32
}

/// The text of a request: the kind's code, the request number, a comma
/// and the remaining fields (already comma-separated).
pub fn request_body(code: u8, req: u32, fields: &str) -> (r: String)
    ensures
        r@ == request_text(code as nat, req as nat, fields@),
{
    let mut r = decimal(code as u128);
    let num = decimal(req as u128);
    r.append(num.as_str());
    push_char(&mut r, ',');
    r.append(fields);
    r
}

/// `a`, a comma, then `b`.
pub fn comma_joined(a: &str, b: &str) -> (r: String)
    ensures
        r@ == comma(a@, b@),
{
    let mut r = owned(a);
    push_char(&mut r, ',');
    r.append(b);
    r
}

/// A request that can be put on the wire.
pub trait SimpleSocketMessage {
    /// The id and the text of this request when sent as request `req_num`.
    spec fn encoding(&self, req_num: nat) -> (nat, Seq<char>);

    /// The id and the text of this request when sent as request `req_num`.
    fn to_shitty_json_array(&self, req_num: u32) -> (r: (u32, String))
        requires
            req_num <= MAX_REQUEST,
        ensures
            r.0 as nat == self.encoding(req_num as nat).0,
            r.1@ == self.encoding(req_num as nat).1,
    ;
}

/// Opens a session for a project.
pub struct ConnectMessage<'a> {
    pub id: &'a str,
    pub token: &'a str,
}

impl<'a> SimpleSocketMessage for ConnectMessage<'a> {
    /// `1<req>,"<id>","<token>"`.
    open spec fn encoding(&self, req_num: nat) -> (nat, Seq<char>) {
        (
            request_id(1, req_num),
            request_text(
                1,
                req_num,
                comma(json_string_literal(self.id@), json_string_literal(self.token@)),
            ),
        )
    }

    fn to_shitty_json_array(&self, req_num: u32) -> (r: (u32, String)) {
        let code = MessageType::Connect.code();
        let id = quote(self.id);
        let token = quote(self.token);
        let fields = comma_joined(id.as_str(), token.as_str());
        (request_number(code, req_num), request_body(code, req_num, fields.as_str()))
    }
}

/// Subscribes to the events that match a filter, given as JSON text.
pub struct SubscribeMessage {
    pub unknown_param: bool,
    pub filter: String,
}

impl SimpleSocketMessage for SubscribeMessage {
    /// `2<req>,<filter>,<unknown_param>`.
    open spec fn encoding(&self, req_num: nat) -> (nat, Seq<char>) {
        (
            request_id(2, req_num),
            request_text(2, req_num, comma(self.filter@, json_bool(self.unknown_param))),
        )
    }

    fn to_shitty_json_array(&self, req_num: u32) -> (r: (u32, String)) {
        let code = MessageType::Subscribe.code();
        let flag = if self.unknown_param {
            "true"
        } else {
            "false"
        };
        let fields = comma_joined(self.filter.as_str(), flag);
        (request_number(code, req_num), request_body(code, req_num, fields.as_str()))
    }
}

/// Replaces the filter of the subscription made by request `req_num`, filed
/// under `hash`. It is sent with the subscribe code.
pub struct EditMessage {
    pub hash: i64,
    pub req_num: u32,
    pub filter: String,
}

impl SimpleSocketMessage for EditMessage {
    /// `2<req>,<self.req_num>,<hash>,<filter>`.
    open spec fn encoding(&self, req_num: nat) -> (nat, Seq<char>) {
        (
            request_id(2, req_num),
            request_text(
                2,
                req_num,
                comma(dec(self.req_num as nat), comma(dec_int(self.hash as int), self.filter@)),
            ),
        )
    }

    fn to_shitty_json_array(&self, req_num: u32) -> (r: (u32, String)) {
        let code = MessageType::Subscribe.code();
        let sub = decimal(self.req_num as u128);
        let hash = decimal_signed(self.hash);
        let tail = comma_joined(hash.as_str(), self.filter.as_str());
        let fields = comma_joined(sub.as_str(), tail.as_str());
        (request_number(code, req_num), request_body(code, req_num, fields.as_str()))
    }
}


/// The parser is handed the message body itself, unchanged, between one
/// opening and one closing bracket: nothing of the body is dropped, added
/// or moved.
pub proof fn law_frame_is_body_in_brackets(msg: Seq<u8>)
    ensures
        framed(msg).len() == msg.len() + 2,
        framed(msg)[0] == 91u8,
        framed(msg)[msg.len() as int + 1] == 93u8,
        forall|i: int| 0 <= i < msg.len() ==> framed(msg)[i + 1] == #[trigger] msg[i],
        framed(msg).subrange(1, msg.len() as int + 1) == msg,
{
    assert(framed(msg).subrange(1, msg.len() as int + 1) =~= msg);
}

/// Whether a frame counts as truncated depends on its parsed elements only:
/// a body that does not parse as an array of elements is never truncated,
/// nor is any frame of four or more elements, nor an event frame (kind 2)
/// of three or more; a truncated frame parses to fewer than four elements.
pub proof fn law_truncation_depends_on_elements_only(msg: Seq<u8>, other: Seq<u8>)
    ensures
        json_array_items(framed(msg)) == json_array_items(framed(other)) ==> bytes_in_bounds(msg)
            == bytes_in_bounds(other),
        !(json_array_items(framed(msg)) is Ok && json_array_items(framed(msg))->Ok_0 is Some)
            ==> bytes_in_bounds(msg),
        (json_array_items(framed(msg)) matches Ok(Some(items)) && items.len() >= 4)
            ==> bytes_in_bounds(msg),
        (json_array_items(framed(msg)) matches Ok(Some(items)) && items.len() >= 3
            && items[0].unsigned == Some(2u64)) ==> bytes_in_bounds(msg),
        !bytes_in_bounds(msg) ==> (json_array_items(framed(msg)) matches Ok(Some(items))
            && items.len() < 4),
{
}

/// A connect request is the request id, then the JSON string of the project
/// id, then the JSON string of the whole token, separated by commas; the
/// token's JSON string closes the text.
pub proof fn law_connect_request_carries_id_and_token(id: &str, token: &str, req: nat)
    ensures
        (ConnectMessage { id, token }).encoding(req).1 == dec(request_id(1, req)) + seq![',']
            + json_string_literal(id@) + seq![','] + json_string_literal(token@),
        ({
            let text = (ConnectMessage { id, token }).encoding(req).1;
            let lit = json_string_literal(token@);
            text.len() >= lit.len() + 1 && text.subrange(text.len() - lit.len(), text.len() as int)
                == lit && text[text.len() - lit.len() - 1] == ','
        }),
{
    let text = (ConnectMessage { id, token }).encoding(req).1;
    let lit = json_string_literal(token@);
    lemma_request_id_text(1, req);
    assert(text =~= dec(request_id(1, req)) + seq![','] + json_string_literal(id@) + seq![',']
        + lit);
    assert(text.subrange(text.len() - lit.len(), text.len() as int) =~= lit);
}

/// A subscribe request is the request id, the filter text exactly as given,
/// and the flag, separated by commas: cutting the id and its comma from the
/// front and the comma and flag from the back gives the filter back.
pub proof fn law_subscribe_request_carries_filter(filter: String, flag: bool, req: nat)
    ensures
        ({
            let text = (SubscribeMessage { unknown_param: flag, filter }).encoding(req).1;
            let head = dec(request_id(2, req)).len() + 1;
            let tail = json_bool(flag).len() + 1;
            &&& text == dec(request_id(2, req)) + seq![','] + filter@ + seq![','] + json_bool(flag)
            &&& text.len() == head + filter@.len() + tail
            &&& text.subrange(head as int, text.len() - tail) == filter@
        }),
{
    let text = (SubscribeMessage { unknown_param: flag, filter }).encoding(req).1;
    let head = dec(request_id(2, req)).len() + 1;
    let tail = json_bool(flag).len() + 1;
    lemma_request_id_text(2, req);
    assert(text =~= dec(request_id(2, req)) + seq![','] + filter@ + seq![','] + json_bool(flag));
    assert(text.subrange(head as int, text.len() - tail) =~= filter@);
}

/// An edit request is the request id, the id of the subscribing request,
/// the hash, and the new filter exactly as given, separated by commas; the
/// whole filter closes the text.
pub proof fn law_edit_request_carries_filter(hash: i64, sub_req: u32, filter: String, req: nat)
    ensures
        (EditMessage { hash, req_num: sub_req, filter }).encoding(req).1 == dec(request_id(2, req))
            + seq![','] + dec(sub_req as nat) + seq![','] + dec_int(hash as int) + seq![',']
            + filter@,
        ({
            let text = (EditMessage { hash, req_num: sub_req, filter }).encoding(req).1;
            text.len() >= filter@.len() + 1 && text.subrange(
                text.len() - filter@.len(),
                text.len() as int,
            ) == filter@ && text[text.len() - filter@.len() - 1] == ','
        }),
{
    let text = (EditMessage { hash, req_num: sub_req, filter }).encoding(req).1;
    lemma_request_id_text(2, req);
    assert(text =~= dec(request_id(2, req)) + seq![','] + dec(sub_req as nat) + seq![',']
        + dec_int(hash as int) + seq![','] + filter@);
    assert(text.subrange(text.len() - filter@.len(), text.len() as int) =~= filter@);
}


/// A connect request gives back what it was made from: for one request
/// number, two requests with the same project id have the same text only
/// if their tokens are the same (whole, whatever their length), and two
/// with the same token only if their project ids are the same.
pub proof fn law_connect_request_determines_id_and_token(
    id1: &str,
    token1: &str,
    id2: &str,
    token2: &str,
    req: nat,
)
    ensures
        (ConnectMessage { id: id1, token: token1 }).encoding(req).1 == (ConnectMessage {
            id: id2,
            token: token2,
        }).encoding(req).1 && id1@ == id2@ ==> token1@ == token2@,
        (ConnectMessage { id: id1, token: token1 }).encoding(req).1 == (ConnectMessage {
            id: id2,
            token: token2,
        }).encoding(req).1 && token1@ == token2@ ==> id1@ == id2@,
{
    let t1 = (ConnectMessage { id: id1, token: token1 }).encoding(req).1;
    let t2 = (ConnectMessage { id: id2, token: token2 }).encoding(req).1;
    law_connect_request_carries_id_and_token(id1, token1, req);
    law_connect_request_carries_id_and_token(id2, token2, req);
    let head = dec(request_id(1, req)) + seq![','];
    if t1 == t2 && id1@ == id2@ {
        let p = head + json_string_literal(id1@) + seq![','];
        assert(t1 =~= p + json_string_literal(token1@));
        assert(t2 =~= p + json_string_literal(token2@));
        assert(json_string_literal(token1@) =~= t1.skip(p.len() as int));
        assert(json_string_literal(token2@) =~= t2.skip(p.len() as int));
        law_string_literal_is_injective(token1@, token2@);
    }
    if t1 == t2 && token1@ == token2@ {
        let q = seq![','] + json_string_literal(token1@);
        assert(t1 =~= head + json_string_literal(id1@) + q);
        assert(t2 =~= head + json_string_literal(id2@) + q);
        assert(json_string_literal(id1@) =~= t1.subrange(head.len() as int, t1.len() - q.len()));
        assert(json_string_literal(id2@) =~= t2.subrange(head.len() as int, t2.len() - q.len()));
        law_string_literal_is_injective(id1@, id2@);
    }
}


/// For one request number and flag, two subscribe requests have the same
/// text only if their filters are the same text.
pub proof fn law_subscribe_request_determines_filter(
    filter1: String,
    filter2: String,
    flag: bool,
    req: nat,
)
    ensures
        (SubscribeMessage { unknown_param: flag, filter: filter1 }).encoding(req).1
            == (SubscribeMessage { unknown_param: flag, filter: filter2 }).encoding(req).1
            ==> filter1@ == filter2@,
{
    law_subscribe_request_carries_filter(filter1, flag, req);
    law_subscribe_request_carries_filter(filter2, flag, req);
}

/// For one request number, subscription and hash, two edit requests have
/// the same text only if their new filters are the same text.
pub proof fn law_edit_request_determines_filter(
    hash: i64,
    sub_req: u32,
    filter1: String,
    filter2: String,
    req: nat,
)
    ensures
        (EditMessage { hash, req_num: sub_req, filter: filter1 }).encoding(req).1 == (EditMessage {
            hash,
            req_num: sub_req,
            filter: filter2,
        }).encoding(req).1 ==> filter1@ == filter2@,
{
    law_edit_request_carries_filter(hash, sub_req, filter1, req);
    law_edit_request_carries_filter(hash, sub_req, filter2, req);
    let t1 = (EditMessage { hash, req_num: sub_req, filter: filter1 }).encoding(req).1;
    let t2 = (EditMessage { hash, req_num: sub_req, filter: filter2 }).encoding(req).1;
    if t1 == t2 {
        let p = dec(request_id(2, req)) + seq![','] + dec(sub_req as nat) + seq![',']
            + dec_int(hash as int) + seq![','];
        assert(t1 =~= p + filter1@);
        assert(t2 =~= p + filter2@);
        assert(filter1@ =~= t1.skip(p.len() as int));
        assert(filter2@ =~= t2.skip(p.len() as int));
    }
}

/// An event decoded from a message body (one that decodes without running
/// past the end of its frame, as every body that is not truncated does)
/// carries the hash and the compact JSON of the second and third elements
/// that serde_json reads from the body itself between brackets.
pub proof fn law_event_comes_from_the_body(msg: Seq<u8>, hash: i64, data: Seq<char>)
    ensures
        bytes_in_bounds(msg) && bytes_outcome(msg) == Ok::<ResponseView, Seq<char>>(
            ResponseView::Message { hash, data },
        ) ==> (json_array_items(seq![91u8] + msg + seq![93u8]) matches Ok(Some(items))
            && items.len() >= 3 && items[0].unsigned == Some(2u64) && items[1].signed == Some(hash)
            && items[2].json == data),
{
    assert(framed(msg) == seq![91u8] + msg + seq![93u8]);
}

} // verus!
