//! The text messages of the scheduling protocol: requests that users send
//! to the scheduler, the scheduler's answers, and the worker assignments
//! that clients receive.
//!
//! Messages travel in fixed-size buffers padded with zero bytes; the
//! padding is dropped and the rest read as UTF-8 text, from which one
//! trailing line feed is removed.

use vstd::prelude::*;
use vstd::utf8::{valid_utf8, decode_utf8};
use vstd::utf8::{encode_utf8, encode_scalar, encode_utf8_valid_utf8, encode_utf8_decode_utf8};
use crate::text::{
    has_prefix, split_seq, split_char, starts_with, strip_trailing_newline, views_of,
    lemma_split_concat, lemma_split_without_sep,
};

verus! {

/// Length of the public key that ends a worker assignment.
pub const PUBLIC_KEY_LEN: usize = 33;

/// The bytes of `b` that are not zero, in their order.
pub open spec fn nonzero(b: Seq<u8>) -> Seq<u8> {
    b.filter(|x: u8| x != 0u8)
}

/// `s` without one trailing line feed.
pub open spec fn without_newline(s: Seq<char>) -> Seq<char> {
    if s.len() > 0 && s.last() == '\n' {
        s.drop_last()
    } else {
        s
    }
}

/// The text of a padded buffer whose bytes are valid UTF-8.
pub open spec fn message_text(b: Seq<u8>) -> Seq<char> {
    without_newline(decode_utf8(b))
}

/// `std`'s `String::from_utf8`: the text whose UTF-8 encoding the bytes
/// are, or nothing when they are not UTF-8.
#[verifier::external_body]
fn string_from_utf8(bytes: Vec<u8>) -> (res: Option<String>)
    ensures
        res is Some <==> valid_utf8(bytes@),
        res matches Some(s) ==> s@ == decode_utf8(bytes@),
{
    String::from_utf8(bytes).ok()
}

/// The buffer without its zero bytes.
pub fn drop_zero_bytes(buf: &[u8]) -> (res: Vec<u8>)
    ensures
        res@ == nonzero(buf@),
{
    let mut out: Vec<u8> = Vec::new();
    let mut i: usize = 0;
    reveal(Seq::filter);
    assert(buf@.take(0).filter(|x: u8| x != 0u8) =~= Seq::<u8>::empty());
    while i < buf.len()
        invariant
            i <= buf@.len(),
            out@ == buf@.take(i as int).filter(|x: u8| x != 0u8),
        decreases buf@.len() - i,
    {
        reveal(Seq::filter);
        assert(buf@.take(i + 1).drop_last() =~= buf@.take(i as int));
        assert(buf@.take(i + 1).last() == buf[i as int]);
        if buf[i] != 0 {
            out.push(buf[i]);
        }
        i = i + 1;
    }
    assert(buf@.take(buf@.len() as int) =~= buf@);
    out
}

/// Reads the text of a padded buffer: zero bytes dropped, UTF-8 decoded
/// and one trailing line feed removed; `None` when the bytes are not UTF-8.
pub fn read_message(buf: &[u8]) -> (res: Option<String>)
    ensures
        res is Some <==> valid_utf8(nonzero(buf@)),
        res matches Some(s) ==> s@ == message_text(nonzero(buf@)),
{
    let bytes = drop_zero_bytes(buf);
    match string_from_utf8(bytes) {
        Some(s) => {
            let t = strip_trailing_newline(s.as_str());
            Some(t.to_owned())
        },
        None => None,
    }
}

/// A user's request to the scheduler.
#[derive(Debug, PartialEq, Eq)]
pub enum Request {
    /// The empty message: the user is done with its worker.
    Release,
    /// A request to run a model; the message names it.
    Model(String),
    /// Any other message, which the scheduler rejects.
    Unknown(String),
}

/// A request as a mathematical value.
pub enum RequestView {
    Release,
    Model(Seq<char>),
    Unknown(Seq<char>),
}

impl View for Request {
    type V = RequestView;

    open spec fn view(&self) -> RequestView {
        match self {
            Request::Release => RequestView::Release,
            Request::Model(m) => RequestView::Model(m@),
            Request::Unknown(m) => RequestView::Unknown(m@),
        }
    }
}

/// The message names one of the models the scheduler serves.
pub open spec fn names_model(msg: Seq<char>) -> bool {
    has_prefix(msg, "resnet18"@) || has_prefix(msg, "mobilenetv1"@)
}

/// The request that message text `msg` makes.
pub open spec fn request_of(msg: Seq<char>) -> RequestView {
    if msg.len() == 0 {
        RequestView::Release
    } else if names_model(msg) {
        RequestView::Model(msg)
    } else {
        RequestView::Unknown(msg)
    }
}

/// Classifies a message text: empty, naming a served model, or other.
pub fn classify_request(msg: String) -> (res: Request)
    ensures
        res@ == request_of(msg@),
        msg@.len() == 0 ==> res@ == RequestView::Release,
        msg@.len() > 0 && (has_prefix(msg@, "resnet18"@) || has_prefix(msg@, "mobilenetv1"@))
            ==> res@ == RequestView::Model(msg@),
        msg@.len() > 0 && !(has_prefix(msg@, "resnet18"@) || has_prefix(msg@, "mobilenetv1"@))
            ==> res@ == RequestView::Unknown(msg@),
{
    if msg.as_str().unicode_len() == 0 {
        Request::Release
    } else if starts_with(msg.as_str(), "resnet18") || starts_with(msg.as_str(), "mobilenetv1") {
        Request::Model(msg)
    } else {
        Request::Unknown(msg)
    }
}

/// Reads a user's request from a padded buffer; `None` when its bytes are
/// not UTF-8.
pub fn parse_request(buf: &[u8]) -> (res: Option<Request>)
    ensures
        res is Some <==> valid_utf8(nonzero(buf@)),
        res matches Some(r) ==> r@ == request_of(message_text(nonzero(buf@))),
        res matches Some(r) ==> {
            let m = message_text(nonzero(buf@));
            &&& m.len() == 0 ==> r@ == RequestView::Release
            &&& m.len() > 0 && (has_prefix(m, "resnet18"@) || has_prefix(m, "mobilenetv1"@))
                ==> r@ == RequestView::Model(m)
            &&& m.len() > 0 && !(has_prefix(m, "resnet18"@) || has_prefix(m, "mobilenetv1"@))
                ==> r@ == RequestView::Unknown(m)
        },
{
    match read_message(buf) {
        Some(msg) => Some(classify_request(msg)),
        None => None,
    }
}

/// The scheduler's answer to a request it does not understand.
pub fn rejection_reply() -> (res: &'static str)
    ensures
        res@ == "wrong message!!!"@,
{
    "wrong message!!!"
}

/// The worker address that an assignment `ip` names: what follows a
/// leading comma, or else the second comma-separated field.
pub open spec fn assigned_slave_of(ip: Seq<char>) -> Option<Seq<char>> {
    if ip.len() > 0 && ip[0] == ',' {
        Some(ip.skip(1))
    } else if split_seq(ip, ',').len() >= 2 {
        Some(split_seq(ip, ',')[1])
    } else {
        None
    }
}

/// The worker address that an assignment names; `None` when it has
/// neither a leading comma nor a second field.
pub fn assigned_slave<'a>(ip: &'a str) -> (res: Option<&'a str>)
    ensures
        res is Some <==> assigned_slave_of(ip@) is Some,
        res matches Some(s) ==> s@ == assigned_slave_of(ip@).unwrap(),
{
    let n = ip.unicode_len();
    if n > 0 && ip.get_char(0) == ',' {
        let rest = ip.substring_char(1, n);
        assert(rest@ =~= ip@.skip(1));
        Some(rest)
    } else {
        let fields = split_char(ip, ',');
        if fields.len() >= 2 {
            assert(views_of(fields@)[1] == fields@[1]@);
            Some(fields[1])
        } else {
            None
        }
    }
}

/// The answer that tells a user its assignment: the assignment followed
/// by ",key".
pub fn assignment_reply(ip: &str) -> (res: String)
    ensures
        res@ == ip@ + ",key"@,
{
    let mut res = ip.to_owned();
    res.append(",key");
    res
}

/// The reasons a worker assignment cannot be read.
#[derive(Debug, PartialEq, Eq)]
pub enum AssignmentError {
    /// Fewer bytes than a public key.
    TooShort,
    /// The text before the public key is not UTF-8.
    NotUtf8,
    /// The text has no second '|'-separated field.
    NoAddress,
}

/// A worker assignment received by a client.
pub struct Assignment {
    /// The scheduler marked this as the last worker of the job.
    pub finished: bool,
    /// The address of the worker to contact.
    pub slave_address: String,
    /// The worker's public key.
    pub public_key: Vec<u8>,
}

/// What an assignment buffer holds: its text (without padding and trailing
/// line feed) and its public key, the last bytes; or why it cannot be read.
pub open spec fn assignment_of(buf: Seq<u8>) -> Result<
    (bool, Seq<char>, Seq<u8>),
    AssignmentError,
> {
    let b = nonzero(buf);
    if b.len() < 33 {
        Err(AssignmentError::TooShort)
    } else if !valid_utf8(b.take(b.len() - 33)) {
        Err(AssignmentError::NotUtf8)
    } else {
        let msg = message_text(b.take(b.len() - 33));
        if split_seq(msg, '|').len() < 2 {
            Err(AssignmentError::NoAddress)
        } else {
            Ok((has_prefix(msg, "finished"@), split_seq(msg, '|')[1], b.skip(b.len() - 33)))
        }
    }
}

/// Reads a worker assignment from a padded buffer: the public key is the
/// last 33 bytes, the text before it has the form `status|address|...`,
/// and a status that begins with "finished" ends the job.
pub fn parse_assignment(buf: &[u8]) -> (res: Result<Assignment, AssignmentError>)
    ensures
        match (res, assignment_of(buf@)) {
            (Ok(a), Ok((f, addr, key))) => a.finished == f && a.slave_address@ == addr
                && a.public_key@ == key,
            (Err(e), Err(e2)) => e == e2,
            _ => false,
        },
{
    let mut bytes = drop_zero_bytes(buf);
    let n = bytes.len();
    if n < PUBLIC_KEY_LEN {
        return Err(AssignmentError::TooShort);
    }
    let ghost b = bytes@;
    let public_key = bytes.split_off(n - PUBLIC_KEY_LEN);
    assert(bytes@ =~= b.take(b.len() - 33));
    assert(public_key@ =~= b.skip(b.len() - 33));
    let text = match string_from_utf8(bytes) {
        Some(s) => s,
        None => {
            return Err(AssignmentError::NotUtf8);
        },
    };
    let msg = strip_trailing_newline(text.as_str());
    let fields = split_char(msg, '|');
    if fields.len() < 2 {
        return Err(AssignmentError::NoAddress);
    }
    assert(views_of(fields@)[1] == fields@[1]@);
    let finished = starts_with(msg, "finished");
    let slave_address = fields[1].to_owned();
    Ok(Assignment { finished, slave_address, public_key })
}

/// A nonempty message is a model request exactly when it begins with
/// "resnet18" or "mobilenetv1", and is rejected otherwise; the empty
/// message releases the worker.
pub proof fn lemma_request_kinds(m: Seq<char>)
    ensures
        m.len() == 0 ==> request_of(m) == RequestView::Release,
        m.len() > 0 && m.len() >= 8 && m.subrange(0, 8) == "resnet18"@ ==> request_of(m)
            == RequestView::Model(m),
        m.len() > 0 && m.len() >= 11 && m.subrange(0, 11) == "mobilenetv1"@ ==> request_of(m)
            == RequestView::Model(m),
        m.len() > 0 && !has_prefix(m, "resnet18"@) && !has_prefix(m, "mobilenetv1"@)
            ==> request_of(m) == RequestView::Unknown(m),
{
    reveal_strlit("resnet18");
    reveal_strlit("mobilenetv1");
}

/// In an assignment `a,rest` whose first field `a` is nonempty and holds
/// no comma, the worker is the field right after the first comma; when
/// `rest` holds no further comma, it is all of `rest`.
pub proof fn lemma_assigned_slave_second_field(a: Seq<char>, rest: Seq<char>)
    requires
        a.len() > 0,
        !a.contains(','),
    ensures
        assigned_slave_of(a + seq![','] + rest) == Some(split_seq(rest, ',')[0]),
        !rest.contains(',') ==> assigned_slave_of(a + seq![','] + rest) == Some(rest),
{
    let ip = a + seq![','] + rest;
    lemma_split_concat(a, ',', rest);
    lemma_split_without_sep(a, ',');
    crate::text::lemma_split_nonempty(rest, ',');
    assert(ip[0] == a[0]);
    assert(a[0] != ',') by {
        if a[0] == ',' {
            assert(a.contains(','));
        }
    }
    let pieces = split_seq(ip, ',');
    assert(pieces == seq![a] + split_seq(rest, ','));
    assert(pieces[1] == split_seq(rest, ',')[0]);
    if !rest.contains(',') {
        lemma_split_without_sep(rest, ',');
    }
}

/// `n` zero bytes.
pub open spec fn zeros(n: nat) -> Seq<u8> {
    Seq::new(n, |i: int| 0u8)
}

proof fn lemma_nonzero_all(b: Seq<u8>)
    requires
        forall|i: int| 0 <= i < b.len() ==> b[i] != 0,
    ensures
        nonzero(b) == b,
    decreases b.len(),
{
    reveal(Seq::filter);
    if b.len() > 0 {
        lemma_nonzero_all(b.drop_last());
        assert(b.drop_last().push(b.last()) =~= b);
    }
}

proof fn lemma_nonzero_zeros(n: nat)
    ensures
        nonzero(zeros(n)) == Seq::<u8>::empty(),
    decreases n,
{
    reveal(Seq::filter);
    if n > 0 {
        assert(zeros(n).drop_last() =~= zeros((n - 1) as nat));
        lemma_nonzero_zeros((n - 1) as nat);
    }
}

proof fn lemma_scalar_bytes_nonzero(c: char)
    requires
        c != '\0',
    ensures
        forall|i: int|
            0 <= i < encode_scalar(c as u32).len() ==> #[trigger] encode_scalar(c as u32)[i] != 0,
{
    let v = c as u32;
    vstd::utf8::char_is_scalar(c);
    assert(v != 0) by {
        if v == 0 {
            vstd::utf8::char_u32_cast(c, v);
            assert(c == (0u32 as char));
        }
    }
    assert(v != 0 && v <= 0x7F ==> (v & 0x7F) as u8 != 0) by (bit_vector);
    assert((0xC0u8 | ((v >> 6) & 0x1F) as u8) != 0) by (bit_vector);
    assert((0xE0u8 | ((v >> 12) & 0x0F) as u8) != 0) by (bit_vector);
    assert((0xF0u8 | ((v >> 18) & 0x7) as u8) != 0) by (bit_vector);
    assert((0x80u8 | (v & 0x3F) as u8) != 0) by (bit_vector);
    assert((0x80u8 | ((v >> 6) & 0x3F) as u8) != 0) by (bit_vector);
    assert((0x80u8 | ((v >> 12) & 0x3F) as u8) != 0) by (bit_vector);
}

proof fn lemma_encode_nonzero(t: Seq<char>)
    requires
        !t.contains('\0'),
    ensures
        forall|i: int| 0 <= i < encode_utf8(t).len() ==> #[trigger] encode_utf8(t)[i] != 0,
    decreases t.len(),
{
    if t.len() > 0 {
        assert(t[0] != '\0') by {
            if t[0] == '\0' {
                assert(t.contains('\0'));
            }
        }
        assert(!t.drop_first().contains('\0')) by {
            if t.drop_first().contains('\0') {
                let k = choose|k: int| 0 <= k < t.drop_first().len() && t.drop_first()[k] == '\0';
                assert(t[k + 1] == '\0');
            }
        }
        lemma_scalar_bytes_nonzero(t[0]);
        lemma_encode_nonzero(t.drop_first());
        let e = encode_scalar(t[0] as u32);
        let r = encode_utf8(t.drop_first());
        assert forall|i: int| 0 <= i < encode_utf8(t).len() implies #[trigger] encode_utf8(t)[i]
            != 0 by {
            if i < e.len() {
                assert(encode_utf8(t)[i] == e[i]);
            } else {
                assert(encode_utf8(t)[i] == r[i - e.len()]);
            }
        }
    }
}

proof fn lemma_assignment_of_text(t: Seq<char>, key: Seq<u8>, pad: nat)
    requires
        !t.contains('\0'),
        key.len() == 33,
        forall|i: int| 0 <= i < key.len() ==> key[i] != 0,
    ensures
        assignment_of(encode_utf8(t) + key + zeros(pad)) == (if split_seq(
            without_newline(t),
            '|',
        ).len() < 2 {
            Err::<(bool, Seq<char>, Seq<u8>), AssignmentError>(AssignmentError::NoAddress)
        } else {
            Ok(
                (
                    has_prefix(without_newline(t), "finished"@),
                    split_seq(without_newline(t), '|')[1],
                    key,
                ),
            )
        }),
{
    let e = encode_utf8(t);
    lemma_encode_nonzero(t);
    let body = e + key;
    assert forall|i: int| 0 <= i < body.len() implies body[i] != 0 by {
        if i < e.len() {
            assert(body[i] == e[i]);
        } else {
            assert(body[i] == key[i - e.len()]);
        }
    }
    lemma_nonzero_all(body);
    lemma_nonzero_zeros(pad);
    Seq::filter_distributes_over_add(body, zeros(pad), |x: u8| x != 0u8);
    assert(nonzero(body + zeros(pad)) =~= body);
    assert(body.take(body.len() - 33) =~= e);
    assert(body.skip(body.len() - 33) =~= key);
    encode_utf8_valid_utf8(t);
    encode_utf8_decode_utf8(t);
}

/// The trailing line feed of an assignment's text does not reach its
/// fields: a buffer holding text `t` plus a line feed, then the key, then
/// zero padding reads as the one holding `t` alone, and both give the
/// status and address of `t`'s first two '|'-separated fields.
pub proof fn lemma_assignment_ignores_trailing_newline(t: Seq<char>, key: Seq<u8>, pad: nat)
    requires
        !t.contains('\0'),
        !(t.len() > 0 && t.last() == '\n'),
        key.len() == 33,
        forall|i: int| 0 <= i < key.len() ==> key[i] != 0,
    ensures
        assignment_of(encode_utf8(t.push('\n')) + key + zeros(pad)) == assignment_of(
            encode_utf8(t) + key + zeros(pad),
        ),
        assignment_of(encode_utf8(t) + key + zeros(pad)) == (if split_seq(t, '|').len() < 2 {
            Err::<(bool, Seq<char>, Seq<u8>), AssignmentError>(AssignmentError::NoAddress)
        } else {
            Ok((has_prefix(t, "finished"@), split_seq(t, '|')[1], key))
        }),
{
    let t2 = t.push('\n');
    assert(!t2.contains('\0')) by {
        if t2.contains('\0') {
            let k = choose|k: int| 0 <= k < t2.len() && t2[k] == '\0';
            if k < t.len() {
                assert(t[k] == '\0');
            }
        }
    }
    lemma_assignment_of_text(t, key, pad);
    lemma_assignment_of_text(t2, key, pad);
    assert(without_newline(t) == t);
    assert(t2.drop_last() =~= t);
    assert(without_newline(t2) == t);
}

} // verus!
