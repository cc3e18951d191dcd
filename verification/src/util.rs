//! Labels for operations: the operation's name, the time in milliseconds
//! since the Unix epoch and the request number, joined by underscores.
use vstd::prelude::*;
use core::time::Duration;
use std::time::SystemTime;
use crate::decimal::{dec, decimal, lemma_dec_digits, lemma_dec_injective};
use crate::text::{owned, push_char};

verus! {

/// The operations a client can label.
#[derive(Debug, Clone, Copy, PartialEq, Eq)]
pub enum SimpleSocketOperation {
    Subscribe,
    EditSub,
    CloseSub,
    Connect,
    DefaultConfig,
    DisPub,
    Publish,
}

/// The name of an operation.
pub open spec fn operation_title(operation: SimpleSocketOperation) -> Seq<char> {
    match operation {
        SimpleSocketOperation::Subscribe => "Subscribe"@,
        SimpleSocketOperation::EditSub => "EditSub"@,
        SimpleSocketOperation::CloseSub => "CloseSub"@,
        SimpleSocketOperation::Connect => "Connect"@,
        SimpleSocketOperation::DefaultConfig => "DefaultConfig"@,
        SimpleSocketOperation::DisPub => "DisPub"@,
        SimpleSocketOperation::Publish => "Publish"@,
    }
}

/// The label of an operation at `millis` milliseconds after the epoch.
pub open spec fn operation_label(
    operation: SimpleSocketOperation,
    millis: nat,
    reqnum: nat,
) -> Seq<char> {
    operation_title(operation) + seq!['_'] + dec(millis) + seq!['_'] + dec(reqnum)
}

/// Operation names hold no underscore, and different operations have
/// different names.
proof fn lemma_titles(a: SimpleSocketOperation, b: SimpleSocketOperation)
    ensures
        !operation_title(a).contains('_'),
        operation_title(a) == operation_title(b) ==> a == b,
{
    reveal_strlit("Subscribe");
    reveal_strlit("EditSub");
    reveal_strlit("CloseSub");
    reveal_strlit("Connect");
    reveal_strlit("DefaultConfig");
    reveal_strlit("DisPub");
    reveal_strlit("Publish");
    let ta = operation_title(a);
    let tb = operation_title(b);
    if ta == tb && a != b {
        assert(ta.len() == tb.len());
        assert(ta[0] == tb[0]);
        assert(ta[1] == tb[1]);
    }
}

/// Text before a marker that the prefixes do not hold is split at that
/// marker in one way only.
proof fn lemma_split_at_marker(a1: Seq<char>, b1: Seq<char>, a2: Seq<char>, b2: Seq<char>, x: char)
    requires
        a1 + seq![x] + b1 == a2 + seq![x] + b2,
        !a1.contains(x),
        !a2.contains(x),
    ensures
        a1 == a2,
        b1 == b2,
{
    let t = a1 + seq![x] + b1;
    if a1.len() < a2.len() {
        assert(t[a1.len() as int] == x);
        assert(a2[a1.len() as int] == t[a1.len() as int]);
    } else if a2.len() < a1.len() {
        assert(t[a2.len() as int] == x);
        assert(a1[a2.len() as int] == t[a2.len() as int]);
    }
    assert(a1 =~= t.take(a1.len() as int));
    assert(a2 =~= t.take(a2.len() as int));
    assert(b1 =~= t.skip(a1.len() as int + 1));
    assert(b2 =~= t.skip(a2.len() as int + 1));
}

/// Decimal text holds no underscore.
proof fn lemma_dec_has_no_underscore(n: nat)
    ensures
        !dec(n).contains('_'),
{
    lemma_dec_digits(n);
    if dec(n).contains('_') {
        let i = choose|i: int| 0 <= i < dec(n).len() && dec(n)[i] == '_';
        assert(48 <= (dec(n)[i] as int) <= 57);
    }
}

/// A label gives back what it was made of: the operation name, the time
/// and the request number are separated by the only two underscores in it,
/// so equal labels come from the same operation, time and number.
pub proof fn law_label_determines_parts(
    op1: SimpleSocketOperation,
    millis1: nat,
    reqnum1: nat,
    op2: SimpleSocketOperation,
    millis2: nat,
    reqnum2: nat,
)
    ensures
        !operation_title(op1).contains('_'),
        !dec(millis1).contains('_'),
        !dec(reqnum1).contains('_'),
        operation_label(op1, millis1, reqnum1) == operation_label(op2, millis2, reqnum2) ==> op1
            == op2 && millis1 == millis2 && reqnum1 == reqnum2,
{
    lemma_titles(op1, op2);
    lemma_titles(op2, op1);
    lemma_dec_has_no_underscore(millis1);
    lemma_dec_has_no_underscore(millis2);
    lemma_dec_has_no_underscore(reqnum1);
    lemma_dec_has_no_underscore(reqnum2);
    if operation_label(op1, millis1, reqnum1) == operation_label(op2, millis2, reqnum2) {
        let rest1 = dec(millis1) + seq!['_'] + dec(reqnum1);
        let rest2 = dec(millis2) + seq!['_'] + dec(reqnum2);
        assert(operation_label(op1, millis1, reqnum1) =~= operation_title(op1) + seq!['_'] + rest1);
        assert(operation_label(op2, millis2, reqnum2) =~= operation_title(op2) + seq!['_'] + rest2);
        lemma_split_at_marker(operation_title(op1), rest1, operation_title(op2), rest2, '_');
        lemma_split_at_marker(dec(millis1), dec(reqnum1), dec(millis2), dec(reqnum2), '_');
        lemma_dec_injective(millis1, millis2);
        lemma_dec_injective(reqnum1, reqnum2);
    }
}

/// The label of an operation at a given time.
pub fn operation_name_at(operation: SimpleSocketOperation, millis: u128, reqnum: usize) -> (s: String)
    ensures
        s@ == operation_label(operation, millis as nat, reqnum as nat),
{
    let op = match operation {
        SimpleSocketOperation::Subscribe => "Subscribe",
        SimpleSocketOperation::EditSub => "EditSub",
        SimpleSocketOperation::CloseSub => "CloseSub",
        SimpleSocketOperation::Connect => "Connect",
        SimpleSocketOperation::DefaultConfig => "DefaultConfig",
        SimpleSocketOperation::DisPub => "DisPub",
        SimpleSocketOperation::Publish => "Publish",
    };
    let mut s = owned(op);
    push_char(&mut s, '_');
    let time = decimal(millis);
    s.append(time.as_str());
    push_char(&mut s, '_');
    let num = decimal(reqnum as u128);
    s.append(num.as_str());
    s
}

#[verifier::external_type_specification]
#[verifier::external_body]
pub struct ExSystemTime(SystemTime);

/// Reads the system clock with `SystemTime::now`; nothing is claimed of the
/// reading.
#[verifier::external_body]
fn clock_now() -> SystemTime {
    SystemTime::now()
}

/// `SystemTime::duration_since(UNIX_EPOCH)`, with the error (a reading
/// before the epoch) as `None`; nothing is claimed of the duration.
#[verifier::external_body]
fn since_epoch(t: &SystemTime) -> Option<Duration> {
    t.duration_since(SystemTime::UNIX_EPOCH).ok()
}

/// `Duration::as_millis`; nothing is claimed of the value.
#[verifier::external_body]
fn whole_millis(d: &Duration) -> u128 {
    d.as_millis()
}

/// The label of an operation at the current time: `None` when the clock
/// reads a time before the epoch, otherwise the label at some reading of
/// the clock.
pub fn operation_name(operation: SimpleSocketOperation, reqnum: usize) -> (s: Option<String>)
    ensures
        s matches Some(text) ==> exists|millis: nat| text@ == operation_label(operation, millis, reqnum as nat),
{
    let now = clock_now();
    match since_epoch(&now) {
        Some(d) => {
            let millis = whole_millis(&d);
            let text = operation_name_at(operation, millis, reqnum);
            assert(text@ == operation_label(operation, millis as nat, reqnum as nat));
            Some(text)
        },
        None => None,
    }
}

} // verus!
