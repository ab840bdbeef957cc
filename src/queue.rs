use vstd::prelude::*;
use vstd::string::StringExecFns;

verus! {

/// Key under which an event body with identifier `id` is stored.
pub open spec fn message_key_of(id: Seq<char>) -> Seq<char> {
    "perpx:msg:"@ + id
}

/// Key of the list that holds the message keys of queue `name`.
pub open spec fn queue_key_of(name: Seq<char>) -> Seq<char> {
    "perpx:queue:"@ + name
}

pub fn message_key(id: &str) -> (r: String)
    ensures
        r@ == message_key_of(id@),
{
    let mut key = "perpx:msg:".to_owned();
    key.append(id);
    key
}

pub fn queue_key(queue_name: &str) -> (r: String)
    ensures
        r@ == queue_key_of(queue_name@),
{
    let mut key = "perpx:queue:".to_owned();
    key.append(queue_name);
    key
}

pub open spec fn is_lower_hex(c: char) -> bool {
    ('0' <= c && c <= '9') || ('a' <= c && c <= 'f')
}

pub open spec fn is_hyphen_position(i: int) -> bool {
    i == 8 || i == 13 || i == 18 || i == 23
}

/// Text of a random (version 4, RFC 4122 variant) UUID in lower-case hyphenated
/// form: 36 characters, hyphens at 8, 13, 18 and 23, lower-case hex digits
/// elsewhere, version digit `4`, variant digit one of `8`, `9`, `a`, `b`.
pub open spec fn is_uuid_v4_text(s: Seq<char>) -> bool {
    &&& s.len() == 36
    &&& forall|i: int|
        0 <= i < 36 ==> if is_hyphen_position(i) {
            s[i] == '-'
        } else {
            is_lower_hex(#[trigger] s[i])
        }
    &&& s[14] == '4'
    &&& (s[19] == '8' || s[19] == '9' || s[19] == 'a' || s[19] == 'b')
}

/// Relies on `uuid::Uuid::new_v4` for a fresh random identifier, and on uuid's
/// `Display`, which writes it in lower-case hyphenated form. `new_v4` fixes the
/// version nibble to 4 and the variant bits to `10`; the other 122 bits are random.
#[verifier::external_body]
fn random_id() -> (r: String)
    ensures
        is_uuid_v4_text(r@),
{
    uuid::Uuid::new_v4().to_string()
}

/// A fresh key for an event body: the message prefix and a random version-4
/// UUID in hyphenated form.
pub fn new_message_key() -> (r: String)
    ensures
        r@.len() == 46,
        exists|id: Seq<char>| is_uuid_v4_text(id) && r@ == message_key_of(id),
{
    let id = random_id();
    let key = message_key(id.as_str());
    proof {
        reveal_strlit("perpx:msg:");
        assert(is_uuid_v4_text(id@) && key@ == message_key_of(id@));
    }
    key
}

/// The kinds of frame the exchange stream carries.
#[derive(Clone, Copy, Debug, PartialEq, Eq, Structural)]
pub enum StreamKind {
    Tickers,
    MarkPrices,
    Unknown,
}

pub open spec fn stream_kind_of(name: Seq<char>) -> StreamKind {
    if name == "!ticker@arr"@ {
        StreamKind::Tickers
    } else if name == "!markPrice@arr"@ {
        StreamKind::MarkPrices
    } else {
        StreamKind::Unknown
    }
}

/// Routes a frame by its `stream` name.
pub fn stream_kind(name: &String) -> (r: StreamKind)
    ensures
        r == stream_kind_of(name@),
{
    let tickers = "!ticker@arr".to_owned();
    let marks = "!markPrice@arr".to_owned();
    if *name == tickers {
        StreamKind::Tickers
    } else if *name == marks {
        StreamKind::MarkPrices
    } else {
        StreamKind::Unknown
    }
}

} // verus!
