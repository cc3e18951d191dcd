//! The calls into `serde_json` that the message codec makes, and the plain
//! values that the codec reads from their results.
use vstd::prelude::*;

verus! {

/// One element of a top-level JSON array, reduced to what the frame decoder
/// reads of it: the string it holds, the integer it holds (as `i64` and as
/// `u64`), and its own compact JSON text.
#[derive(Debug, Clone, PartialEq, Eq)]
pub struct FrameItem {
    /// `Some` exactly when the element is a JSON string.
    pub text: Option<String>,
    /// The element as a signed 64-bit integer, where it is one.
    pub signed: Option<i64>,
    /// The element as an unsigned 64-bit integer, where it is one.
    pub unsigned: Option<u64>,
    /// The compact JSON text of the element.
    pub json: String,
}

/// The mathematical value of a [`FrameItem`].
pub struct FrameItemView {
    pub text: Option<Seq<char>>,
    pub signed: Option<i64>,
    pub unsigned: Option<u64>,
    pub json: Seq<char>,
}

/// The characters of an optional string.
pub open spec fn opt_chars(o: Option<String>) -> Option<Seq<char>> {
    match o {
        Some(s) => Some(s@),
        None => None,
    }
}

impl View for FrameItem {
    type V = FrameItemView;

    open spec fn view(&self) -> FrameItemView {
        FrameItemView {
            text: opt_chars(self.text),
            signed: self.signed,
            unsigned: self.unsigned,
            json: self.json@,
        }
    }
}

/// The views of a sequence of frame items.
pub open spec fn items_view(items: Seq<FrameItem>) -> Seq<FrameItemView> {
    items.map_values(|i: FrameItem| i@)
}

/// The view of what [`parse_array`] returns.
pub open spec fn parsed_view(r: Result<Option<Vec<FrameItem>>, String>) -> Result<
    Option<Seq<FrameItemView>>,
    Seq<char>,
> {
    match r {
        Ok(Some(items)) => Ok(Some(items_view(items@))),
        Ok(None) => Ok(None),
        Err(e) => Err(e@),
    }
}

/// A lower-case hexadecimal digit.
pub open spec fn hex_digit(d: int) -> char {
    if d < 10 {
        (48 + d) as char
    } else {
        (87 + d) as char
    }
}

/// How serde_json writes one character inside a JSON string: quote and
/// backslash behind a backslash, the five control characters with short
/// forms as `\b \t \n \f \r`, the other characters below 0x20 as
/// `\u00XX` (lower-case hex), and everything else as itself.
pub open spec fn json_escape(c: char) -> Seq<char> {
    let v = c as int;
    if v == 0x22 {
        seq!['\\', '"']
    } else if v == 0x5C {
        seq!['\\', '\\']
    } else if v == 0x08 {
        seq!['\\', 'b']
    } else if v == 0x09 {
        seq!['\\', 't']
    } else if v == 0x0A {
        seq!['\\', 'n']
    } else if v == 0x0C {
        seq!['\\', 'f']
    } else if v == 0x0D {
        seq!['\\', 'r']
    } else if 0 <= v < 0x20 {
        seq!['\\', 'u', '0', '0', hex_digit(v / 16), hex_digit(v % 16)]
    } else {
        seq![c]
    }
}

/// The escaped characters of a text, in order.
pub open spec fn json_escaped(s: Seq<char>) -> Seq<char>
    decreases s.len(),
{
    if s.len() == 0 {
        Seq::empty()
    } else {
        json_escaped(s.drop_last()) + json_escape(s.last())
    }
}

/// What `serde_json::to_string` writes for a string: the escaped text
/// between double quotes.
pub open spec fn json_string_literal(s: Seq<char>) -> Seq<char> {
    seq!['"'] + json_escaped(s) + seq!['"']
}

/// Every character is written as at least one character.
proof fn lemma_escape_nonempty(c: char)
    ensures
        json_escape(c).len() >= 1,
{
}

/// A text of one character is escaped as that character.
proof fn lemma_escaped_single(c: char)
    ensures
        json_escaped(seq![c]) == json_escape(c),
{
    let s1 = seq![c];
    assert(s1.drop_last() =~= Seq::<char>::empty());
    assert(s1.last() == c);
    assert(json_escaped(s1.drop_last()) == Seq::<char>::empty());
    assert(Seq::<char>::empty() + json_escape(c) =~= json_escape(c));
}

/// Escaping a text piece by piece gives the escaped pieces in order.
pub proof fn lemma_escaped_concat(a: Seq<char>, b: Seq<char>)
    ensures
        json_escaped(a + b) == json_escaped(a) + json_escaped(b),
    decreases b.len(),
{
    if b.len() == 0 {
        assert(a + b =~= a);
        assert(json_escaped(a) + json_escaped(b) =~= json_escaped(a));
    } else {
        let b1 = b.drop_last();
        lemma_escaped_concat(a, b1);
        assert((a + b).drop_last() =~= a + b1);
        assert((a + b).last() == b.last());
        assert(json_escaped(a + b) =~= json_escaped(a) + json_escaped(b1) + json_escape(b.last()));
    }
}

/// An escaped text is at least as long as the text.
proof fn lemma_escaped_len(s: Seq<char>)
    ensures
        json_escaped(s).len() >= s.len(),
    decreases s.len(),
{
    if s.len() > 0 {
        lemma_escaped_len(s.drop_last());
        lemma_escape_nonempty(s.last());
    }
}

/// Different hexadecimal digits are different characters.
proof fn lemma_hex_digit_injective(d1: int, d2: int)
    requires
        0 <= d1 < 16,
        0 <= d2 < 16,
        hex_digit(d1) == hex_digit(d2),
    ensures
        d1 == d2,
{
    assert(hex_digit(d1) as int == if d1 < 10 { 48 + d1 } else { 87 + d1 });
    assert(hex_digit(d2) as int == if d2 < 10 { 48 + d2 } else { 87 + d2 });
}

/// The escapes of two characters never start one another off differently:
/// if an escaped character followed by anything equals another escaped
/// character followed by anything, the two characters are the same.
proof fn lemma_escape_prefix_free(x: char, y: char, r1: Seq<char>, r2: Seq<char>)
    requires
        json_escape(x) + r1 == json_escape(y) + r2,
    ensures
        x == y,
        r1 == r2,
{
    let t = json_escape(x) + r1;
    let ex = json_escape(x);
    let ey = json_escape(y);
    let vx = x as int;
    let vy = y as int;
    assert(t[0] == ex[0] && t[0] == ey[0]);
    if ex.len() >= 2 && ey.len() >= 2 {
        assert(t[1] == ex[1] && t[1] == ey[1]);
        if ex.len() == 6 && ey.len() == 6 {
            assert(t[4] == ex[4] && t[4] == ey[4]);
            assert(t[5] == ex[5] && t[5] == ey[5]);
            lemma_hex_digit_injective(vx / 16, vy / 16);
            lemma_hex_digit_injective(vx % 16, vy % 16);
            assert(vx == vy);
        } else if ex.len() == 6 {
            assert(t[1] == 'u');
        } else if ey.len() == 6 {
            assert(t[1] == 'u');
        }
    }
    assert(vx == vy);
    assert(ex == ey);
    assert(r1 =~= t.skip(ex.len() as int));
    assert(r2 =~= t.skip(ey.len() as int));
}

/// Different texts have different escaped forms: the escaped form gives the
/// text back.
pub proof fn lemma_escaped_injective(a: Seq<char>, b: Seq<char>)
    requires
        json_escaped(a) == json_escaped(b),
    ensures
        a == b,
    decreases a.len(),
{
    if a.len() == 0 || b.len() == 0 {
        lemma_escaped_len(a);
        lemma_escaped_len(b);
        if a.len() > 0 {
            lemma_escaped_concat(seq![a[0]], a.skip(1));
            assert(seq![a[0]] + a.skip(1) =~= a);
            lemma_escaped_single(a[0]);
            lemma_escape_nonempty(a[0]);
        }
        if b.len() > 0 {
            lemma_escaped_concat(seq![b[0]], b.skip(1));
            assert(seq![b[0]] + b.skip(1) =~= b);
            lemma_escaped_single(b[0]);
            lemma_escape_nonempty(b[0]);
        }
        assert(a =~= b);
    } else {
        let a1 = a.skip(1);
        let b1 = b.skip(1);
        lemma_escaped_concat(seq![a[0]], a1);
        lemma_escaped_concat(seq![b[0]], b1);
        assert(seq![a[0]] + a1 =~= a);
        assert(seq![b[0]] + b1 =~= b);
        lemma_escaped_single(a[0]);
        lemma_escaped_single(b[0]);
        lemma_escape_prefix_free(a[0], b[0], json_escaped(a1), json_escaped(b1));
        lemma_escaped_injective(a1, b1);
        assert(a =~= b);
    }
}

/// A JSON string literal gives its text back: different texts have
/// different literals.
pub proof fn law_string_literal_is_injective(a: Seq<char>, b: Seq<char>)
    ensures
        json_string_literal(a) == json_string_literal(b) ==> a == b,
{
    if json_string_literal(a) == json_string_literal(b) {
        let la = json_string_literal(a);
        assert(json_escaped(a) =~= la.subrange(1, la.len() - 1));
        assert(json_escaped(b) =~= la.subrange(1, la.len() - 1));
        lemma_escaped_injective(a, b);
    }
}

/// What `serde_json::from_slice::<serde_json::Value>` makes of `bytes`, read
/// element by element: the error text when the bytes are not JSON, `None`
/// when they are JSON but not an array, and otherwise the elements read
/// through `Value::as_str`, `Value::as_i64`, `Value::as_u64` and the compact
/// `Display` of each element.
pub uninterp spec fn json_array_items(bytes: Seq<u8>) -> Result<
    Option<Seq<FrameItemView>>,
    Seq<char>,
>;

/// Calls `serde_json::to_string` on a string slice. The contract claims that
/// the result is the string's JSON literal as `format_escaped_str` writes it
/// (see [`json_string_literal`]); serializing a `str` into serde_json's
/// in-memory writer has no failing path, so the error arm is never taken.
#[verifier::external_body]
pub(crate) fn quote(s: &str) -> (r: String)
    ensures
        r@ == json_string_literal(s@),
{
    match serde_json::to_string(s) {
        Ok(text) => text,
        Err(_) => String::new(),
    }
}

/// Calls `serde_json::from_slice::<serde_json::Value>` and, for an array,
/// reads each element with `as_str`, `as_i64`, `as_u64` and `to_string`.
/// The contract claims only that the outcome is the named result of the
/// bytes; what that result is for given bytes is serde_json's business.
#[verifier::external_body]
pub(crate) fn parse_array(bytes: &[u8]) -> (r: Result<Option<Vec<FrameItem>>, String>)
    ensures
        parsed_view(r) == json_array_items(bytes@),
{
    match serde_json::from_slice::<serde_json::Value>(bytes) {
        Ok(serde_json::Value::Array(values)) => {
            let mut items = Vec::new();
            for v in values.iter() {
                let text = v.as_str().map(String::from);
                items.push(FrameItem { text, signed: v.as_i64(), unsigned: v.as_u64(), json: v.to_string() });
            }
            Ok(Some(items))
        },
        Ok(_) => Ok(None),
        Err(e) => Err(e.to_string()),
    }
}

} // verus!
