//! The canonical chat message, its wire encoding, and validation of
//! untrusted inbound payloads.
//!
//! A `ChatMessage` is immutable once built and its serialized (JSON wire
//! form) size is capped at `MAX_MESSAGE_SIZE` bytes; the cap is checked at
//! construction, after the identifier and timestamp are assigned, since both
//! count toward the serialized size.

use vstd::prelude::*;
use vstd::string::StrSliceExecFns;
use vstd::string::StringExecFns;
use vstd::utf8::encode_utf8;
use vstd::utf8::char_is_scalar;
use vstd::utf8::char_u32_cast;
use vstd::utf8::encode_scalar;

verus! {

broadcast use char_is_scalar, char_u32_cast;

/// Serialized size cap for a single chat message, in bytes.
pub const MAX_MESSAGE_SIZE: usize = 1024;

/// The canonical, validated, broadcast unit: a unique identifier, the
/// server-derived identity, the message body, and a UTC timestamp.
pub struct ChatMessage {
    pub id: String,
    pub username: String,
    pub body: String,
    pub sent_at: String,
}

/// The mathematical value of a `ChatMessage`: its four fields as
/// character sequences.
pub ghost struct MessageView {
    pub id: Seq<char>,
    pub username: Seq<char>,
    pub body: Seq<char>,
    pub sent_at: Seq<char>,
}

impl View for ChatMessage {
    type V = MessageView;

    open spec fn view(&self) -> MessageView {
        MessageView {
            id: self.id@,
            username: self.username@,
            body: self.body@,
            sent_at: self.sent_at@,
        }
    }
}

/// Untrusted structured input from a client: a claimed display name
/// (ignored — identity is server-derived) and free-text content.
pub struct ReceivedMessage {
    pub username: String,
    pub content: String,
}

/// Why a payload was discarded. Both kinds are absorbed by the inbound
/// loop: the offending payload is dropped and the connection continues.
#[derive(Clone, Copy, Debug, PartialEq, Eq, Structural)]
pub enum MessageError {
    /// The validated message exceeds the serialized size cap.
    MessageTooLarge,
    /// The raw payload was empty, whitespace-only, or not parseable.
    EmptyBody,
}

/// The lowercase hexadecimal digit for a value below 16.
pub open spec fn hex_digit(n: u32) -> char
    recommends
        n < 16,
{
    if n == 0 { '0' } else if n == 1 { '1' } else if n == 2 { '2' } else if n == 3 { '3' }
    else if n == 4 { '4' } else if n == 5 { '5' } else if n == 6 { '6' } else if n == 7 { '7' }
    else if n == 8 { '8' } else if n == 9 { '9' } else if n == 10 { 'a' } else if n == 11 { 'b' }
    else if n == 12 { 'c' } else if n == 13 { 'd' } else if n == 14 { 'e' } else { 'f' }
}

/// A character that the JSON wire form copies through unchanged: neither a
/// quote, nor a backslash, nor a control character.
pub open spec fn is_plain_char(c: char) -> bool {
    (c as u32) >= 0x20 && (c as u32) != 0x22 && (c as u32) != 0x5c
}

/// How one character appears inside a JSON string: plain characters stand
/// for themselves, quotes, backslashes and the named control characters get
/// two-character escapes, and the remaining control characters get the
/// six-character `\u00..` form with lowercase hexadecimal digits.
pub open spec fn escape_char(c: char) -> Seq<char> {
    let cu = c as u32;
    if cu == 0x22 {
        seq!['\\', '"']
    } else if cu == 0x5c {
        seq!['\\', '\\']
    } else if cu == 0x08 {
        seq!['\\', 'b']
    } else if cu == 0x09 {
        seq!['\\', 't']
    } else if cu == 0x0a {
        seq!['\\', 'n']
    } else if cu == 0x0c {
        seq!['\\', 'f']
    } else if cu == 0x0d {
        seq!['\\', 'r']
    } else if cu < 0x20 {
        seq!['\\', 'u', '0', '0', hex_digit(cu / 16), hex_digit(cu % 16)]
    } else {
        seq![c]
    }
}

/// A whole string as it appears inside a JSON string literal.
pub open spec fn json_escaped(s: Seq<char>) -> Seq<char>
    decreases s.len(),
{
    if s.len() == 0 {
        Seq::empty()
    } else {
        json_escaped(s.drop_last()) + escape_char(s.last())
    }
}

/// The JSON wire form of a message: the structured text record sent to
/// clients for both history and live messages.
pub open spec fn json_of(m: MessageView) -> Seq<char> {
    "{\"id\":\""@ + json_escaped(m.id) + "\",\"username\":\""@ + json_escaped(m.username)
        + "\",\"body\":\""@ + json_escaped(m.body) + "\",\"sent_at\":\""@ + json_escaped(m.sent_at)
        + "\"}"@
}

/// The serialized size of a message: the UTF-8 byte length of its JSON wire
/// form. This is the quantity the `MAX_MESSAGE_SIZE` cap bounds.
pub open spec fn wire_size(m: MessageView) -> nat {
    encode_utf8(json_of(m)).len()
}

/// The message value assembled from four plain fields.
pub open spec fn view_of_parts(
    id: Seq<char>,
    username: Seq<char>,
    body: Seq<char>,
    sent_at: Seq<char>,
) -> MessageView {
    MessageView { id, username, body, sent_at }
}

/// One lowercase hexadecimal digit as a string slice.
fn hex_digit_str(n: u32) -> (r: &'static str)
    requires
        n < 16,
    ensures
        r@ == seq![hex_digit(n)],
{
    match n {
        0 => { proof { reveal_strlit("0"); assert("0"@ =~= seq![hex_digit(0u32)]); } "0" },
        1 => { proof { reveal_strlit("1"); assert("1"@ =~= seq![hex_digit(1u32)]); } "1" },
        2 => { proof { reveal_strlit("2"); assert("2"@ =~= seq![hex_digit(2u32)]); } "2" },
        3 => { proof { reveal_strlit("3"); assert("3"@ =~= seq![hex_digit(3u32)]); } "3" },
        4 => { proof { reveal_strlit("4"); assert("4"@ =~= seq![hex_digit(4u32)]); } "4" },
        5 => { proof { reveal_strlit("5"); assert("5"@ =~= seq![hex_digit(5u32)]); } "5" },
        6 => { proof { reveal_strlit("6"); assert("6"@ =~= seq![hex_digit(6u32)]); } "6" },
        7 => { proof { reveal_strlit("7"); assert("7"@ =~= seq![hex_digit(7u32)]); } "7" },
        8 => { proof { reveal_strlit("8"); assert("8"@ =~= seq![hex_digit(8u32)]); } "8" },
        9 => { proof { reveal_strlit("9"); assert("9"@ =~= seq![hex_digit(9u32)]); } "9" },
        10 => { proof { reveal_strlit("a"); assert("a"@ =~= seq![hex_digit(10u32)]); } "a" },
        11 => { proof { reveal_strlit("b"); assert("b"@ =~= seq![hex_digit(11u32)]); } "b" },
        12 => { proof { reveal_strlit("c"); assert("c"@ =~= seq![hex_digit(12u32)]); } "c" },
        13 => { proof { reveal_strlit("d"); assert("d"@ =~= seq![hex_digit(13u32)]); } "d" },
        14 => { proof { reveal_strlit("e"); assert("e"@ =~= seq![hex_digit(14u32)]); } "e" },
        _ => { proof { reveal_strlit("f"); assert("f"@ =~= seq![hex_digit(15u32)]); } "f" },
    }
}

/// Appends the JSON escape of the character at index `i` of `s`.
fn append_escape_at(out: &mut String, s: &str, i: usize)
    requires
        i < s@.len(),
        i < usize::MAX,
    ensures
        final(out)@ == old(out)@ + escape_char(s@[i as int]),
{
    let c = s.get_char(i);
    let cu: u32 = c as u32;
    if cu == 0x22 {
        out.append("\\\"");
        proof { reveal_strlit("\\\""); assert("\\\""@ =~= escape_char(c)); }
    } else if cu == 0x5c {
        out.append("\\\\");
        proof { reveal_strlit("\\\\"); assert("\\\\"@ =~= escape_char(c)); }
    } else if cu == 0x08 {
        out.append("\\b");
        proof { reveal_strlit("\\b"); assert("\\b"@ =~= escape_char(c)); }
    } else if cu == 0x09 {
        out.append("\\t");
        proof { reveal_strlit("\\t"); assert("\\t"@ =~= escape_char(c)); }
    } else if cu == 0x0a {
        out.append("\\n");
        proof { reveal_strlit("\\n"); assert("\\n"@ =~= escape_char(c)); }
    } else if cu == 0x0c {
        out.append("\\f");
        proof { reveal_strlit("\\f"); assert("\\f"@ =~= escape_char(c)); }
    } else if cu == 0x0d {
        out.append("\\r");
        proof { reveal_strlit("\\r"); assert("\\r"@ =~= escape_char(c)); }
    } else if cu < 0x20 {
        let ghost before = out@;
        out.append("\\u00");
        out.append(hex_digit_str(cu / 16));
        out.append(hex_digit_str(cu % 16));
        proof {
            reveal_strlit("\\u00");
            assert(out@ =~= before + escape_char(c));
        }
    } else {
        let piece = s.substring_char(i, i + 1);
        proof {
            assert(piece@ =~= seq![c]);
            assert(escape_char(c) == seq![c]);
        }
        out.append(piece);
    }
}

/// Appends the JSON-escaped form of `s` to `out`.
fn append_escaped(out: &mut String, s: &str)
    ensures
        final(out)@ == old(out)@ + json_escaped(s@),
{
    let n = s.unicode_len();
    let mut i: usize = 0;
    proof {
        assert(s@.take(0) =~= Seq::<char>::empty());
    }
    while i < n
        invariant
            n == s@.len(),
            i <= n,
            out@ == old(out)@ + json_escaped(s@.take(i as int)),
        decreases n - i,
    {
        append_escape_at(out, s, i);
        proof {
            let t = s@.take(i + 1);
            assert(t.drop_last() =~= s@.take(i as int));
            assert(t.last() == s@[i as int]);
            assert(out@ =~= old(out)@ + json_escaped(s@.take(i + 1)));
        }
        i += 1;
    }
    proof {
        assert(s@.take(n as int) =~= s@);
    }
}

/// Whether a character counts as whitespace when trimming raw input.
pub uninterp spec fn is_space(c: char) -> bool;

/// Relies on `char::is_whitespace`: whether the character has the Unicode
/// whitespace property, a function of the character alone.
#[verifier::external_body]
fn char_is_space(c: char) -> (r: bool)
    ensures
        r == is_space(c),
{
    c.is_whitespace()
}

/// The number of whitespace characters at the front of `s`.
pub open spec fn leading_ws(s: Seq<char>) -> int
    decreases s.len(),
{
    if s.len() == 0 || !is_space(s[0]) {
        0
    } else {
        1 + leading_ws(s.drop_first())
    }
}

/// The number of whitespace characters at the back of `s`.
pub open spec fn trailing_ws(s: Seq<char>) -> int
    decreases s.len(),
{
    if s.len() == 0 || !is_space(s.last()) {
        0
    } else {
        1 + trailing_ws(s.drop_last())
    }
}

/// `s` with surrounding whitespace removed.
pub open spec fn trim_spec(s: Seq<char>) -> Seq<char> {
    if leading_ws(s) == s.len() {
        Seq::empty()
    } else {
        s.subrange(leading_ws(s), s.len() - trailing_ws(s))
    }
}

/// `leading_ws` is the index of the first non-whitespace character.
proof fn lemma_leading_ws_at(s: Seq<char>, i: int)
    requires
        0 <= i <= s.len(),
        forall|j: int| 0 <= j < i ==> is_space(#[trigger] s[j]),
        i < s.len() ==> !is_space(s[i]),
    ensures
        leading_ws(s) == i,
    decreases i,
{
    if i == 0 {
    } else {
        assert(is_space(s[0]));
        lemma_leading_ws_at(s.drop_first(), i - 1);
    }
}

/// `trailing_ws` counts exactly the whitespace run at the back.
proof fn lemma_trailing_ws_at(s: Seq<char>, j: int)
    requires
        0 <= j <= s.len(),
        forall|k: int| j <= k < s.len() ==> is_space(#[trigger] s[k]),
        j > 0 ==> !is_space(s[j - 1]),
    ensures
        trailing_ws(s) == s.len() - j,
    decreases s.len() - j,
{
    if j == s.len() {
    } else {
        assert(is_space(s.last()));
        lemma_trailing_ws_at(s.drop_last(), j);
    }
}

/// Removes surrounding whitespace, exactly as `trim_spec` describes.
fn trim_str(s: &str) -> (r: &str)
    ensures
        r@ == trim_spec(s@),
{
    let n = s.unicode_len();
    let mut i: usize = 0;
    while i < n && char_is_space(s.get_char(i))
        invariant
            n == s@.len(),
            i <= n,
            forall|j: int| 0 <= j < i ==> is_space(#[trigger] s@[j]),
        decreases n - i,
    {
        i += 1;
    }
    if i == n {
        proof {
            lemma_leading_ws_at(s@, n as int);
        }
        let r = s.substring_char(n, n);
        proof {
            assert(r@ =~= trim_spec(s@));
        }
        return r;
    }
    let mut j: usize = n;
    while j > i && char_is_space(s.get_char(j - 1))
        invariant
            n == s@.len(),
            i < n,
            !is_space(s@[i as int]),
            i + 1 <= j <= n,
            forall|k: int| j <= k < n ==> is_space(#[trigger] s@[k]),
        decreases j,
    {
        j -= 1;
    }
    proof {
        lemma_leading_ws_at(s@, i as int);
        lemma_trailing_ws_at(s@, j as int);
    }
    s.substring_char(i, j)
}

/// What serde_json finds in a payload: `None` when the text is not a valid
/// JSON document; otherwise the `username` and `content` fields, each
/// present exactly when it occurs as a string field. A pure function of the
/// text.
pub uninterp spec fn payload_fields_of(s: Seq<char>) -> Option<
    (Option<Seq<char>>, Option<Seq<char>>),
>;

/// The value of one optional extracted field.
pub open spec fn opt_view(o: Option<String>) -> Option<Seq<char>> {
    match o {
        Option::Some(s) => Option::Some(s@),
        Option::None => Option::None,
    }
}

/// Relies on serde_json's `from_str`, `Value::get` and `Value::as_str`:
/// parsing is a deterministic function of the text, and the two string
/// fields are handed out when present.
#[verifier::external_body]
fn parse_payload(s: &str) -> (r: Option<(Option<String>, Option<String>)>)
    ensures
        r is Some <==> payload_fields_of(s@) is Some,
        r matches Some(p) ==> payload_fields_of(s@) == Some((opt_view(p.0), opt_view(p.1))),
{
    match serde_json::from_str::<serde_json::Value>(s) {
        Ok(v) => Some(
            (
                v.get("username").and_then(|f| f.as_str()).map(|f| f.to_owned()),
                v.get("content").and_then(|f| f.as_str()).map(|f| f.to_owned()),
            ),
        ),
        Err(_) => None,
    }
}

/// A field's text, or empty when the field is missing or not a string.
pub open spec fn field_or_empty(o: Option<Seq<char>>) -> Seq<char> {
    match o {
        Option::Some(s) => s,
        Option::None => Seq::empty(),
    }
}

/// What parsing an untrusted raw payload yields: the claimed username and
/// the content, or `EmptyBody` when the trimmed text is empty or not JSON.
pub open spec fn parse_spec(raw: Seq<char>) -> Result<(Seq<char>, Seq<char>), MessageError> {
    let t = trim_spec(raw);
    if t.len() == 0 {
        Result::Err(MessageError::EmptyBody)
    } else {
        match payload_fields_of(t) {
            Option::None => Result::Err(MessageError::EmptyBody),
            Option::Some(f) => Result::Ok((field_or_empty(f.0), field_or_empty(f.1))),
        }
    }
}

/// Law: empty or whitespace-only raw input is rejected with `EmptyBody`.
pub proof fn lemma_blank_input_rejected(raw: Seq<char>)
    requires
        forall|i: int| 0 <= i < raw.len() ==> is_space(#[trigger] raw[i]),
    ensures
        parse_spec(raw) == Result::<(Seq<char>, Seq<char>), MessageError>::Err(
            MessageError::EmptyBody,
        ),
{
    lemma_leading_ws_at(raw, raw.len() as int);
}

impl ReceivedMessage {
    /// Parses untrusted raw input: trims surrounding whitespace, rejects
    /// empty or unparseable payloads with `EmptyBody`, and otherwise
    /// extracts the claimed username and the content.
    pub fn try_new(body: &str) -> (r: Result<ReceivedMessage, MessageError>)
        ensures
            r matches Ok(m) ==> parse_spec(body@) matches Ok(p) && m.username@ == p.0
                && m.content@ == p.1,
            r matches Err(e) ==> parse_spec(body@) matches Err(e2) && e == e2,
    {
        let trimmed = trim_str(body);
        if trimmed.unicode_len() == 0 {
            return Err(MessageError::EmptyBody);
        }
        match parse_payload(trimmed) {
            None => Err(MessageError::EmptyBody),
            Some((u, c)) => {
                let username = match u {
                    Some(x) => x,
                    None => String::new(),
                };
                let content = match c {
                    Some(x) => x,
                    None => String::new(),
                };
                Ok(ReceivedMessage { username, content })
            },
        }
    }

    /// Builds the canonical message for this payload under the given
    /// server-derived identity; the claimed username is discarded.
    pub fn to_chat_message(&self, username: String) -> (r: Result<ChatMessage, MessageError>)
        ensures
            r matches Ok(m) ==> m@.username == username@ && m@.body == self.content@
                && wire_size(m@) <= MAX_MESSAGE_SIZE,
            r matches Err(e) ==> e == MessageError::MessageTooLarge,
            6 * encode_utf8(username@).len() + 6 * encode_utf8(self.content@).len() + 109
                <= MAX_MESSAGE_SIZE ==> r is Ok,
    {
        ChatMessage::try_new(username, self.content.clone())
    }
}

/// A character of a hyphenated message identifier: a lowercase hexadecimal
/// digit or a hyphen.
pub open spec fn is_id_char(c: char) -> bool {
    let cu = c as u32;
    (0x30 <= cu && cu <= 0x39) || (0x61 <= cu && cu <= 0x66) || cu == 0x2d
}

/// A character of an RFC 3339 UTC timestamp: a digit or one of `-:.TZ+`.
pub open spec fn is_stamp_char(c: char) -> bool {
    let cu = c as u32;
    (0x30 <= cu && cu <= 0x39) || cu == 0x2d || cu == 0x3a || cu == 0x2e || cu == 0x54 || cu
        == 0x5a || cu == 0x2b
}

/// Relies on uuid's `Uuid::new_v4` and its `Display` form: the hyphenated
/// text is exactly 36 characters of lowercase hexadecimal digits and
/// hyphens. Nothing is assumed about which identifier comes back.
#[verifier::external_body]
fn fresh_id() -> (r: String)
    ensures
        r@.len() == 36,
        forall|i: int| 0 <= i < r@.len() ==> is_id_char(#[trigger] r@[i]),
{
    uuid::Uuid::new_v4().to_string()
}

/// Relies on chrono's `Utc::now` and `to_rfc3339_opts` with millisecond
/// precision: an RFC 3339 timestamp of at most 27 characters drawn from
/// digits and `-:.TZ+`. Nothing is assumed about which instant comes back.
#[verifier::external_body]
fn now_stamp() -> (r: String)
    ensures
        r@.len() <= 27,
        forall|i: int| 0 <= i < r@.len() ==> is_stamp_char(#[trigger] r@[i]),
{
    chrono::Utc::now().to_rfc3339_opts(chrono::SecondsFormat::Millis, true)
}

/// UTF-8 encoding distributes over concatenation.
proof fn lemma_encode_utf8_concat(a: Seq<char>, b: Seq<char>)
    ensures
        encode_utf8(a + b) == encode_utf8(a) + encode_utf8(b),
    decreases a.len(),
{
    if a.len() == 0 {
        assert(a + b =~= b);
        assert(encode_utf8(a) + encode_utf8(b) =~= encode_utf8(b));
    } else {
        assert((a + b)[0] == a[0]);
        assert((a + b).drop_first() =~= a.drop_first() + b);
        lemma_encode_utf8_concat(a.drop_first(), b);
        assert(encode_utf8(a + b) =~= encode_utf8(a) + encode_utf8(b));
    }
}

/// A sequence of characters below 128 encodes to exactly one byte each.
pub(crate) proof fn lemma_ascii_u32_bytes(s: Seq<char>)
    requires
        forall|i: int| 0 <= i < s.len() ==> (#[trigger] s[i] as u32) < 128,
    ensures
        encode_utf8(s).len() == s.len(),
    decreases s.len(),
{
    if s.len() == 0 {
    } else {
        assert(encode_scalar(s[0] as u32).len() == 1);
        lemma_ascii_u32_bytes(s.drop_first());
    }
}

/// The byte lengths of the fixed pieces of the JSON wire form.
proof fn lemma_literal_sizes()
    ensures
        encode_utf8("{\"id\":\""@).len() == 7,
        encode_utf8("\",\"username\":\""@).len() == 14,
        encode_utf8("\",\"body\":\""@).len() == 10,
        encode_utf8("\",\"sent_at\":\""@).len() == 13,
        encode_utf8("\"}"@).len() == 2,
{
    reveal_strlit("{\"id\":\"");
    reveal_strlit("\",\"username\":\"");
    reveal_strlit("\",\"body\":\"");
    reveal_strlit("\",\"sent_at\":\"");
    reveal_strlit("\"}");
    lemma_ascii_u32_bytes("{\"id\":\""@);
    lemma_ascii_u32_bytes("\",\"username\":\""@);
    lemma_ascii_u32_bytes("\",\"body\":\""@);
    lemma_ascii_u32_bytes("\",\"sent_at\":\""@);
    lemma_ascii_u32_bytes("\"}"@);
}

/// A one-character sequence encodes to exactly the scalar's encoding.
proof fn lemma_encode_single(c: char)
    ensures
        encode_utf8(seq![c]) == encode_scalar(c as u32),
{
    let s = seq![c];
    assert(s[0] == c);
    assert(s.drop_first() =~= Seq::<char>::empty());
    assert(encode_utf8(s.drop_first()).len() == 0);
    assert(encode_utf8(s) =~= encode_scalar(c as u32));
}

/// A single character's escape costs at most six bytes, and at most six
/// times the bytes of the character itself.
proof fn lemma_escape_char_bytes(c: char)
    ensures
        encode_utf8(escape_char(c)).len() <= 6,
        encode_utf8(escape_char(c)).len() <= 6 * encode_scalar(c as u32).len(),
{
    assert(1 <= encode_scalar(c as u32).len() <= 4);
    let e = escape_char(c);
    if is_plain_char(c) {
        assert(e =~= seq![c]);
        lemma_encode_single(c);
    } else {
        assert(forall|i: int| 0 <= i < e.len() ==> (#[trigger] e[i] as u32) < 128);
        lemma_ascii_u32_bytes(e);
        assert(e.len() <= 6);
    }
}

/// Escaping a whole string costs at most six times its bytes.
proof fn lemma_escaped_bytes_bound(s: Seq<char>)
    ensures
        encode_utf8(json_escaped(s)).len() <= 6 * encode_utf8(s).len(),
    decreases s.len(),
{
    if s.len() == 0 {
    } else {
        let dl = s.drop_last();
        let c = s.last();
        lemma_escaped_bytes_bound(dl);
        lemma_encode_utf8_concat(json_escaped(dl), escape_char(c));
        lemma_escape_char_bytes(c);
        assert(s =~= dl + seq![c]);
        lemma_encode_utf8_concat(dl, seq![c]);
        lemma_encode_single(c);
    }
}

/// A string of plain characters passes through escaping unchanged.
proof fn lemma_plain_escape(s: Seq<char>)
    requires
        forall|i: int| 0 <= i < s.len() ==> is_plain_char(#[trigger] s[i]),
    ensures
        json_escaped(s) == s,
    decreases s.len(),
{
    if s.len() == 0 {
        assert(json_escaped(s) =~= s);
    } else {
        lemma_plain_escape(s.drop_last());
        assert(escape_char(s.last()) =~= seq![s.last()]);
        assert(json_escaped(s) =~= s);
    }
}

/// With a well-formed identifier and timestamp, the serialized size is
/// bounded by a fixed overhead plus six times the byte lengths of the
/// username and body.
proof fn lemma_wire_size_bound(m: MessageView)
    requires
        m.id.len() == 36,
        forall|i: int| 0 <= i < m.id.len() ==> is_id_char(#[trigger] m.id[i]),
        m.sent_at.len() <= 27,
        forall|i: int| 0 <= i < m.sent_at.len() ==> is_stamp_char(#[trigger] m.sent_at[i]),
    ensures
        wire_size(m) <= 109 + 6 * encode_utf8(m.username).len() + 6 * encode_utf8(m.body).len(),
{
    let l1 = "{\"id\":\""@;
    let l2 = "\",\"username\":\""@;
    let l3 = "\",\"body\":\""@;
    let l4 = "\",\"sent_at\":\""@;
    let l5 = "\"}"@;
    let e1 = json_escaped(m.id);
    let e2 = json_escaped(m.username);
    let e3 = json_escaped(m.body);
    let e4 = json_escaped(m.sent_at);
    lemma_literal_sizes();
    lemma_encode_utf8_concat(l1, e1);
    lemma_encode_utf8_concat(l1 + e1, l2);
    lemma_encode_utf8_concat(l1 + e1 + l2, e2);
    lemma_encode_utf8_concat(l1 + e1 + l2 + e2, l3);
    lemma_encode_utf8_concat(l1 + e1 + l2 + e2 + l3, e3);
    lemma_encode_utf8_concat(l1 + e1 + l2 + e2 + l3 + e3, l4);
    lemma_encode_utf8_concat(l1 + e1 + l2 + e2 + l3 + e3 + l4, e4);
    lemma_encode_utf8_concat(l1 + e1 + l2 + e2 + l3 + e3 + l4 + e4, l5);
    assert(forall|i: int| 0 <= i < m.id.len() ==> is_plain_char(#[trigger] m.id[i]));
    assert(forall|i: int| 0 <= i < m.id.len() ==> (#[trigger] m.id[i] as u32) < 128);
    lemma_plain_escape(m.id);
    lemma_ascii_u32_bytes(m.id);
    assert(forall|i: int| 0 <= i < m.sent_at.len() ==> is_plain_char(#[trigger] m.sent_at[i]));
    assert(forall|i: int| 0 <= i < m.sent_at.len() ==> (#[trigger] m.sent_at[i] as u32) < 128);
    lemma_plain_escape(m.sent_at);
    lemma_ascii_u32_bytes(m.sent_at);
    lemma_escaped_bytes_bound(m.username);
    lemma_escaped_bytes_bound(m.body);
}

impl ChatMessage {
    /// Builds a message under the given identity with a fresh unique
    /// identifier and the current timestamp, then enforces the size cap.
    /// Construction is owed whenever the username and body leave room for
    /// the identifier, timestamp and framing under the cap.
    pub fn try_new(username: String, body: String) -> (r: Result<ChatMessage, MessageError>)
        ensures
            r matches Ok(m) ==> m@.username == username@ && m@.body == body@ && wire_size(m@)
                <= MAX_MESSAGE_SIZE && m@.id.len() == 36 && m@.sent_at.len() <= 27,
            r matches Err(e) ==> e == MessageError::MessageTooLarge,
            6 * encode_utf8(username@).len() + 6 * encode_utf8(body@).len() + 109
                <= MAX_MESSAGE_SIZE ==> r is Ok,
    {
        let id = fresh_id();
        let sent_at = now_stamp();
        proof {
            lemma_wire_size_bound(view_of_parts(id@, username@, body@, sent_at@));
        }
        Self::from_parts(id, username, body, sent_at)
    }

    /// A copy of this message with the same value.
    pub fn duplicate(&self) -> (r: ChatMessage)
        ensures
            r@ == self@,
    {
        ChatMessage {
            id: self.id.clone(),
            username: self.username.clone(),
            body: self.body.clone(),
            sent_at: self.sent_at.clone(),
        }
    }

    /// The JSON wire form of this message, exactly `json_of` of its value.
    pub fn to_json(&self) -> (r: String)
        ensures
            r@ == json_of(self@),
    {
        let mut out = "{\"id\":\"".to_owned();
        append_escaped(&mut out, self.id.as_str());
        out.append("\",\"username\":\"");
        append_escaped(&mut out, self.username.as_str());
        out.append("\",\"body\":\"");
        append_escaped(&mut out, self.body.as_str());
        out.append("\",\"sent_at\":\"");
        append_escaped(&mut out, self.sent_at.as_str());
        out.append("\"}");
        proof {
            assert(out@ =~= json_of(self@));
        }
        out
    }

    /// Checks this message against the serialized size cap.
    pub fn assert_size(&self) -> (r: Result<(), MessageError>)
        ensures
            r is Ok <==> wire_size(self@) <= MAX_MESSAGE_SIZE,
            r matches Err(e) ==> e == MessageError::MessageTooLarge,
    {
        let j = self.to_json();
        let bytes = j.as_str().as_bytes();
        if bytes.len() > MAX_MESSAGE_SIZE {
            Err(MessageError::MessageTooLarge)
        } else {
            Ok(())
        }
    }

    /// Assembles a message from its four fields and enforces the size cap:
    /// succeeds exactly when the serialized size is within `MAX_MESSAGE_SIZE`.
    pub fn from_parts(id: String, username: String, body: String, sent_at: String) -> (r: Result<
        ChatMessage,
        MessageError,
    >)
        ensures
            ({
                let mv = view_of_parts(id@, username@, body@, sent_at@);
                &&& (r is Ok <==> wire_size(mv) <= MAX_MESSAGE_SIZE)
                &&& (r matches Ok(m) ==> m@ == mv)
                &&& (r matches Err(e) ==> e == MessageError::MessageTooLarge)
            }),
    {
        let m = ChatMessage { id, username, body, sent_at };
        match m.assert_size() {
            Ok(()) => Ok(m),
            Err(e) => Err(e),
        }
    }
}

} // verus!
