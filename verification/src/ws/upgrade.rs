//! The HTTP request that becomes a WebSocket: which answer it gets, and what is remembered of
//! it.

use vstd::prelude::*;

use crate::server::config::ServerConfig;
use crate::text;
use crate::text::{same_text, text_of_utf8};
use crate::ws::codec::WebSocketError;

verus! {

/// What a client's key is joined with before it is hashed.
pub const WEBSOCKET_GUID: &'static str = "258EAFA5-E914-47DA-95CA-C5AB0DC85B11";

/// An HTTP request, as far as it matters here.
#[derive(Debug)]
pub struct UpgradeRequest {
    /// Whether the method is GET.
    pub is_get: bool,
    /// The path of the address.
    pub path: String,
    /// The headers, in order.
    pub headers: Vec<(String, Vec<u8>)>,
}

/// What is remembered of a request that became a WebSocket.
#[derive(Debug)]
pub struct UpgradeResult {
    /// Whether the client speaks version 2 of the protocol.
    pub is_v2: bool,
    /// The headers that may name the client's address.
    pub headers: Vec<(String, String)>,
}

/// The answer to a request.
#[derive(Debug)]
pub enum UpgradeAnswer {
    /// A request for something else: 200, without a body.
    Plain,
    /// A request for the state of the server: 200, as JSON, without a body.
    Health,
    /// A request that cannot become a WebSocket: 400.
    BadRequest,
    /// The request becomes a WebSocket: 101, with the key's answer and the client's own choice
    /// of a protocol, and no extensions.
    Switch { accept: String, protocol: Option<Vec<u8>>, result: UpgradeResult },
}

/// Why a request did not become a WebSocket.
#[derive(Debug)]
pub enum WsUpgradeError {
    Io(String),
    UpgradeFailed,
    Hyper(String),
    WebSocket(WebSocketError),
}

impl WsUpgradeError {
    /// The error in words.
    pub open spec fn text(self) -> Seq<char> {
        match self {
            WsUpgradeError::Io(what) => "IO error: "@ + what@,
            WsUpgradeError::UpgradeFailed => "WebSocket upgrade failed"@,
            WsUpgradeError::Hyper(what) => "Hyper error: "@ + what@,
            WsUpgradeError::WebSocket(e) => "WebSocket error: "@ + crate::ws::codec::error_text(e),
        }
    }

    /// The error in words.
    pub fn message(&self) -> (r: String)
        ensures
            r@ == self.text(),
    {
        match self {
            WsUpgradeError::Io(what) => "IO error: ".to_owned().concat(what.as_str()),
            WsUpgradeError::UpgradeFailed => "WebSocket upgrade failed".to_owned(),
            WsUpgradeError::Hyper(what) => "Hyper error: ".to_owned().concat(what.as_str()),
            WsUpgradeError::WebSocket(e) => "WebSocket error: ".to_owned().concat(e.message()),
        }
    }
}

// ---------------------------------------------------------------------------------------
// Outside calls
// ---------------------------------------------------------------------------------------

/// The SHA-1 digest of some bytes.
pub uninterp spec fn sha1_of(data: Seq<u8>) -> Seq<u8>;

/// The Base64 text of some bytes, in the standard alphabet and with padding.
pub uninterp spec fn base64_of(data: Seq<u8>) -> Seq<char>;

/// `sha1::Sha1::digest`: the digest of some bytes, which depends on them alone and takes 20
/// bytes.
#[verifier::external_body]
fn sha1_digest(data: &[u8]) -> (r: Vec<u8>)
    ensures
        r@ == sha1_of(data@),
        r@.len() == 20,
{
    <sha1::Sha1 as sha1::Digest>::digest(data).to_vec()
}

/// `base64::Engine::encode` with the standard engine: the text of some bytes, which depends on
/// them alone. Text too long to be counted would panic.
#[verifier::external_body]
fn base64_encode(data: &[u8]) -> (r: String)
    requires
        data@.len() <= usize::MAX / 4,
    ensures
        r@ == base64_of(data@),
{
    base64::Engine::encode(&base64::engine::general_purpose::STANDARD, data)
}

// ---------------------------------------------------------------------------------------
// What a request means
// ---------------------------------------------------------------------------------------

/// A byte with an ASCII capital replaced by its small letter.
pub open spec fn lower_byte(b: u8) -> u8 {
    if 0x41 <= b <= 0x5a {
        (b + 0x20) as u8
    } else {
        b
    }
}

/// Whether two runs of bytes are the same but for the case of ASCII letters.
pub open spec fn same_word(a: Seq<u8>, b: Seq<u8>) -> bool {
    a.len() == b.len() && forall|i: int|
        0 <= i < a.len() ==> lower_byte(#[trigger] a[i]) == lower_byte(b[i])
}

/// Whether a byte is ASCII white space.
pub open spec fn is_white_byte(b: u8) -> bool {
    b == 0x20 || b == 0x09 || b == 0x0a || b == 0x0c || b == 0x0d
}

/// Bytes without the white space at their front.
pub open spec fn trimmed_front(bytes: Seq<u8>) -> Seq<u8>
    decreases bytes.len(),
{
    if bytes.len() > 0 && is_white_byte(bytes[0]) {
        trimmed_front(bytes.skip(1))
    } else {
        bytes
    }
}

/// Bytes without the white space at their end.
pub open spec fn trimmed_back(bytes: Seq<u8>) -> Seq<u8>
    decreases bytes.len(),
{
    if bytes.len() > 0 && is_white_byte(bytes.last()) {
        trimmed_back(bytes.drop_last())
    } else {
        bytes
    }
}

/// The place of the first comma, or the length if there is none.
pub open spec fn first_comma(bytes: Seq<u8>) -> int
    decreases bytes.len(),
{
    if bytes.len() == 0 || bytes[0] == 0x2c {
        0
    } else {
        1 + first_comma(bytes.skip(1))
    }
}

/// The first comma lies within the bytes.
proof fn lemma_first_comma(bytes: Seq<u8>)
    ensures
        0 <= first_comma(bytes) <= bytes.len(),
    decreases bytes.len(),
{
    if bytes.len() > 0 && bytes[0] != 0x2c {
        lemma_first_comma(bytes.skip(1));
    }
}

/// Whether a word is among words that commas part. White space around them and the case of
/// ASCII letters do not matter.
pub open spec fn has_word(value: Seq<u8>, word: Seq<u8>) -> bool
    decreases value.len() + 1,
{
    let comma = first_comma(value);
    if same_word(trimmed_back(trimmed_front(value.take(comma))), word) {
        true
    } else if 0 <= comma < value.len() {
        has_word(value.skip(comma + 1), word)
    } else {
        false
    }
}

/// Whether a header has this name. The case of ASCII letters does not matter.
pub open spec fn is_named(header: (String, Vec<u8>), name: Seq<char>) -> bool {
    text::lower(header.0@) == name
}

/// Whether some header of this name holds this word.
pub open spec fn header_has_word(
    headers: Seq<(String, Vec<u8>)>,
    name: Seq<char>,
    word: Seq<u8>,
) -> bool {
    exists|i: int|
        0 <= i < headers.len() && is_named(#[trigger] headers[i], name) && has_word(
            headers[i].1@,
            word,
        )
}

/// The value of the first header of this name.
pub open spec fn header_value(headers: Seq<(String, Vec<u8>)>, name: Seq<char>) -> Option<Seq<u8>>
    decreases headers.len(),
{
    if headers.len() == 0 {
        None
    } else if is_named(headers[0], name) {
        Some(headers[0].1@)
    } else {
        header_value(headers.skip(1), name)
    }
}

/// Whether a request asks to become a WebSocket.
pub open spec fn asks_for_upgrade(headers: Seq<(String, Vec<u8>)>) -> bool {
    header_has_word(headers, "connection"@, vstd::utf8::encode_utf8("upgrade"@)) && header_has_word(
        headers,
        "upgrade"@,
        vstd::utf8::encode_utf8("websocket"@),
    )
}

/// Whether a header's value can be taken as text: visible ASCII, spaces and tabs.
pub open spec fn is_plain_text(value: Seq<u8>) -> bool {
    forall|i: int| 0 <= i < value.len() ==> 0x20 <= #[trigger] value[i] < 0x7f || value[i] == 0x09
}

/// Plain text as characters.
pub open spec fn plain_text(value: Seq<u8>) -> Seq<char> {
    Seq::new(value.len(), |i: int| value[i] as char)
}

/// The headers of one name that can be taken as text, in order.
pub open spec fn captured_for(headers: Seq<(String, Vec<u8>)>, target: Seq<char>) -> Seq<
    (Seq<char>, Seq<char>),
>
    decreases headers.len(),
{
    if headers.len() == 0 {
        seq![]
    } else {
        let before = captured_for(headers.drop_last(), target);
        let (name, value) = headers.last();
        if is_named(headers.last(), text::lower(target)) && is_plain_text(value@) {
            before.push((name@, plain_text(value@)))
        } else {
            before
        }
    }
}

/// The headers of some names that can be taken as text, the first name first.
pub open spec fn captured(headers: Seq<(String, Vec<u8>)>, targets: Seq<String>) -> Seq<
    (Seq<char>, Seq<char>),
>
    decreases targets.len(),
{
    if targets.len() == 0 {
        seq![]
    } else {
        captured(headers, targets.drop_last()) + captured_for(headers, targets.last()@)
    }
}

/// The values of some headers.
pub open spec fn header_views(headers: Seq<(String, String)>) -> Seq<(Seq<char>, Seq<char>)> {
    headers.map_values(|h: (String, String)| (h.0@, h.1@))
}

/// The answer to a client's key.
pub open spec fn accept_of(key: Seq<u8>) -> Seq<char> {
    base64_of(sha1_of(key + vstd::utf8::encode_utf8(WEBSOCKET_GUID@)))
}

/// Whether a request that asks for it can become a WebSocket: it has a key, and its version is
/// 13.
pub open spec fn can_upgrade(headers: Seq<(String, Vec<u8>)>) -> bool {
    header_value(headers, "sec-websocket-key"@) is Some && header_value(
        headers,
        "sec-websocket-version"@,
    ) == Some(vstd::utf8::encode_utf8("13"@))
}

// ---------------------------------------------------------------------------------------
// Answering
// ---------------------------------------------------------------------------------------

/// A byte with an ASCII capital replaced by its small letter.
fn lower_of(b: u8) -> (r: u8)
    ensures
        r == lower_byte(b),
{
    if 0x41 <= b && b <= 0x5a {
        b + 0x20
    } else {
        b
    }
}

/// Whether a byte is ASCII white space.
fn white(b: u8) -> (r: bool)
    ensures
        r == is_white_byte(b),
{
    b == 0x20 || b == 0x09 || b == 0x0a || b == 0x0c || b == 0x0d
}

/// Whether a stretch of bytes, without the white space around it, is a word.
fn is_word_at(value: &Vec<u8>, from: usize, to: usize, word: &[u8]) -> (r: bool)
    requires
        from <= to <= value@.len(),
    ensures
        r == same_word(
            trimmed_back(trimmed_front(value@.subrange(from as int, to as int))),
            word@,
        ),
{
    let ghost whole = value@.subrange(from as int, to as int);
    let mut a: usize = from;
    let mut b: usize = to;
    while a < b && white(value[a])
        invariant
            from <= a <= b,
            b == to,
            to <= value@.len(),
            trimmed_front(value@.subrange(a as int, to as int)) == trimmed_front(whole),
        decreases b - a,
    {
        proof {
            assert(value@.subrange(a as int, to as int).skip(1) == value@.subrange(
                a + 1,
                to as int,
            ));
        }
        a = a + 1;
    }
    while a < b && white(value[b - 1])
        invariant
            from <= a <= b <= to,
            to <= value@.len(),
            trimmed_back(value@.subrange(a as int, b as int)) == trimmed_back(
                trimmed_front(whole),
            ),
        decreases b - a,
    {
        proof {
            assert(value@.subrange(a as int, b as int).drop_last() == value@.subrange(
                a as int,
                b - 1,
            ));
        }
        b = b - 1;
    }
    let ghost bare = value@.subrange(a as int, b as int);
    proof {
        assert(bare == trimmed_back(trimmed_front(whole)));
    }
    if b - a != word.len() {
        return false;
    }
    let mut i: usize = 0;
    while i < word.len()
        invariant
            i <= word@.len(),
            b - a == word@.len(),
            b <= value@.len(),
            a <= b,
            bare == value@.subrange(a as int, b as int),
            bare == trimmed_back(trimmed_front(whole)),
            whole == value@.subrange(from as int, to as int),
            forall|j: int| 0 <= j < i ==> lower_byte(#[trigger] bare[j]) == lower_byte(word@[j]),
        decreases word@.len() - i,
    {
        if lower_of(value[a + i]) != lower_of(word[i]) {
            proof {
                assert(bare[i as int] == value@[a + i]);
            }
            return false;
        }
        i = i + 1;
    }
    true
}

/// Whether a word is among words that commas part.
fn value_has_word(value: &Vec<u8>, word: &[u8]) -> (r: bool)
    ensures
        r == has_word(value@, word@),
{
    let mut from: usize = 0;
    proof {
        assert(value@.skip(0) == value@);
    }
    loop
        invariant
            from <= value@.len(),
            has_word(value@.skip(from as int), word@) == has_word(value@, word@),
        decreases value@.len() + 1 - from,
    {
        let ghost rest = value@.skip(from as int);
        let mut to: usize = from;
        proof {
            lemma_first_comma(rest);
        }
        while to < value.len() && value[to] != 0x2c
            invariant
                from <= to <= value@.len(),
                rest == value@.skip(from as int),
                from + first_comma(rest) == to + first_comma(value@.skip(to as int)),
            decreases value@.len() - to,
        {
            proof {
                assert(value@.skip(to as int).skip(1) == value@.skip(to + 1));
            }
            to = to + 1;
        }
        proof {
            assert(rest.take(to - from) == value@.subrange(from as int, to as int));
        }
        if is_word_at(value, from, to, word) {
            return true;
        }
        if to == value.len() {
            return false;
        }
        proof {
            assert(rest.skip(to - from + 1) == value@.skip(to + 1));
        }
        from = to + 1;
    }
}

/// Whether a header has this name.
fn named(header: &(String, Vec<u8>), name: &str) -> (r: bool)
    ensures
        r == is_named(*header, name@),
{
    same_text(header.0.as_str().to_ascii_lowercase().as_str(), name)
}

/// Whether some header of this name holds this word.
fn any_header_has(headers: &Vec<(String, Vec<u8>)>, name: &str, word: &[u8]) -> (r: bool)
    ensures
        r == header_has_word(headers@, name@, word@),
{
    let mut i: usize = 0;
    while i < headers.len()
        invariant
            i <= headers@.len(),
            forall|j: int|
                0 <= j < i ==> !(is_named(#[trigger] headers@[j], name@) && has_word(
                    headers@[j].1@,
                    word@,
                )),
        decreases headers@.len() - i,
    {
        if named(&headers[i], name) && value_has_word(&headers[i].1, word) {
            return true;
        }
        i = i + 1;
    }
    false
}

/// The value of the first header of this name.
fn find_header<'a>(headers: &'a Vec<(String, Vec<u8>)>, name: &str) -> (r: Option<&'a Vec<u8>>)
    ensures
        match r {
            Some(value) => header_value(headers@, name@) == Some(value@),
            None => header_value(headers@, name@) is None,
        },
{
    let mut i: usize = 0;
    proof {
        assert(headers@.skip(0) == headers@);
    }
    while i < headers.len()
        invariant
            i <= headers@.len(),
            header_value(headers@.skip(i as int), name@) == header_value(headers@, name@),
        decreases headers@.len() - i,
    {
        proof {
            assert(headers@.skip(i as int)[0] == headers@[i as int]);
            assert(headers@.skip(i as int).skip(1) == headers@.skip(i + 1));
        }
        if named(&headers[i], name) {
            return Some(&headers[i].1);
        }
        i = i + 1;
    }
    None
}

/// Whether a request asks to become a WebSocket.
pub fn is_upgrade_request(headers: &Vec<(String, Vec<u8>)>) -> (r: bool)
    ensures
        r == asks_for_upgrade(headers@),
{
    any_header_has(headers, "connection", "upgrade".as_bytes()) && any_header_has(
        headers,
        "upgrade",
        "websocket".as_bytes(),
    )
}

/// Plain text is valid UTF-8 and reads as its own characters.
proof fn lemma_plain_text(value: Seq<u8>)
    requires
        is_plain_text(value),
    ensures
        vstd::utf8::valid_utf8(value),
        vstd::utf8::encode_utf8(plain_text(value)) == value,
        vstd::utf8::decode_utf8(value) == plain_text(value),
{
    let chars = plain_text(value);
    assert forall|i: int| 0 <= i < chars.len() implies '\0' <= #[trigger] chars[i]
        <= '\u{7f}' by {
        assert(0x20 <= value[i] < 0x7f || value[i] == 0x09);
    }
    vstd::utf8::is_ascii_chars_encode_utf8(chars);
    assert forall|i: int| 0 <= i < value.len() implies #[trigger] vstd::utf8::encode_utf8(chars)[i]
        == value[i] by {
        assert(0x20 <= value[i] < 0x7f || value[i] == 0x09);
        assert(chars[i] as u8 == value[i]);
    }
    assert(vstd::utf8::encode_utf8(chars) == value);
    vstd::utf8::encode_utf8_valid_utf8(chars);
    vstd::utf8::encode_utf8_decode_utf8(chars);
}

/// A header's value as text, if it can be taken as such.
fn text_value(value: &Vec<u8>) -> (r: Option<String>)
    ensures
        match r {
            Some(text) => is_plain_text(value@) && text@ == plain_text(value@),
            None => !is_plain_text(value@),
        },
{
    let mut i: usize = 0;
    while i < value.len()
        invariant
            i <= value@.len(),
            forall|j: int|
                0 <= j < i ==> 0x20 <= #[trigger] value@[j] < 0x7f || value@[j] == 0x09,
        decreases value@.len() - i,
    {
        let b: u8 = value[i];
        if !((0x20 <= b && b < 0x7f) || b == 0x09) {
            proof {
                assert(!(0x20 <= value@[i as int] < 0x7f || value@[i as int] == 0x09));
            }
            return None;
        }
        i = i + 1;
    }
    proof {
        lemma_plain_text(value@);
    }
    match text_of_utf8(value.as_slice()) {
        Some(text) => {
            proof {
                vstd::utf8::encode_utf8_decode_utf8(text@);
            }
            Some(text.to_owned())
        },
        None => None,
    }
}

/// Copies the headers of some names that can be taken as text, the first name first.
pub fn capture_headers(headers: &Vec<(String, Vec<u8>)>, targets: &Vec<String>) -> (r: Vec<
    (String, String),
>)
    ensures
        header_views(r@) == captured(headers@, targets@),
{
    let mut found: Vec<(String, String)> = Vec::new();
    let mut i: usize = 0;
    proof {
        assert(targets@.take(0) == Seq::<String>::empty());
        assert(header_views(found@) == Seq::<(Seq<char>, Seq<char>)>::empty());
    }
    while i < targets.len()
        invariant
            i <= targets@.len(),
            header_views(found@) == captured(headers@, targets@.take(i as int)),
        decreases targets@.len() - i,
    {
        let ghost before = header_views(found@);
        let target = targets[i].as_str().to_ascii_lowercase();
        let mut j: usize = 0;
        proof {
            assert(headers@.take(0) == Seq::<(String, Vec<u8>)>::empty());
            assert(before + Seq::<(Seq<char>, Seq<char>)>::empty() == before);
        }
        while j < headers.len()
            invariant
                i < targets@.len(),
                j <= headers@.len(),
                target@ == text::lower(targets@[i as int]@),
                header_views(found@) == before + captured_for(
                    headers@.take(j as int),
                    targets@[i as int]@,
                ),
            decreases headers@.len() - j,
        {
            let ghost so_far = found@;
            proof {
                assert(headers@.take(j + 1).drop_last() == headers@.take(j as int));
            }
            if named(&headers[j], target.as_str()) {
                if let Some(value) = text_value(&headers[j].1) {
                    let name = headers[j].0.clone();
                    let ghost view = (name@, value@);
                    found.push((name, value));
                    proof {
                        assert(header_views(found@) == header_views(so_far).push(view));
                    }
                }
            }
            proof {
                assert(header_views(found@) == before + captured_for(
                    headers@.take(j + 1),
                    targets@[i as int]@,
                ));
            }
            j = j + 1;
        }
        proof {
            assert(headers@.take(headers@.len() as int) == headers@);
            assert(targets@.take(i + 1).drop_last() == targets@.take(i as int));
        }
        i = i + 1;
    }
    proof {
        assert(targets@.take(targets@.len() as int) == targets@);
    }
    found
}

/// The answer to a client's key.
pub fn accept_key(key: &Vec<u8>) -> (r: String)
    ensures
        r@ == accept_of(key@),
{
    let mut joined = vstd::slice::slice_to_vec(key.as_slice());
    joined.extend_from_slice(WEBSOCKET_GUID.as_bytes());
    proof {
        assert(joined@ == key@ + vstd::utf8::encode_utf8(WEBSOCKET_GUID@));
    }
    let digest = sha1_digest(joined.as_slice());
    base64_encode(digest.as_slice())
}

/// Whether two runs of bytes are the same.
fn is_bytes(a: &Vec<u8>, b: &[u8]) -> (r: bool)
    ensures
        r == (a@ == b@),
{
    if a.len() != b.len() {
        return false;
    }
    let mut i: usize = 0;
    while i < b.len()
        invariant
            i <= b@.len(),
            a@.len() == b@.len(),
            forall|j: int| 0 <= j < i ==> a@[j] == b@[j],
        decreases b@.len() - i,
    {
        if a[i] != b[i] {
            return false;
        }
        i = i + 1;
    }
    proof {
        assert(a@ == b@);
    }
    true
}

/// Decides what a request is answered. The headers that may name the client's address are
/// remembered only if the configuration looks for them.
pub fn answer_request(request: &UpgradeRequest, config: &ServerConfig) -> (r: UpgradeAnswer)
    ensures
        if !asks_for_upgrade(request.headers@) {
            if request.is_get && request.path@ == "/health"@ {
                r is Health
            } else {
                r is Plain
            }
        } else if !can_upgrade(request.headers@) {
            r is BadRequest
        } else {
            &&& r matches UpgradeAnswer::Switch { accept, protocol, result }
            &&& accept@ == accept_of(header_value(request.headers@, "sec-websocket-key"@)->0)
            &&& match protocol {
                Some(value) => header_value(request.headers@, "sec-websocket-protocol"@) == Some(
                    value@,
                ),
                None => header_value(request.headers@, "sec-websocket-protocol"@) is None,
            }
            &&& result.is_v2 == (header_value(request.headers@, "sec-websocket-protocol"@) is Some)
            &&& header_views(result.headers@) == if config.real_ip_enabled {
                captured(request.headers@, config.real_ip_headers@)
            } else {
                seq![]
            }
        },
{
    if !is_upgrade_request(&request.headers) {
        if request.is_get && same_text(request.path.as_str(), "/health") {
            return UpgradeAnswer::Health;
        }
        return UpgradeAnswer::Plain;
    }
    let protocol = match find_header(&request.headers, "sec-websocket-protocol") {
        Some(value) => Some(vstd::slice::slice_to_vec(value.as_slice())),
        None => None,
    };
    let is_v2 = protocol.is_some();
    let key = match find_header(&request.headers, "sec-websocket-key") {
        Some(key) => key,
        None => return UpgradeAnswer::BadRequest,
    };
    let version_fits = match find_header(&request.headers, "sec-websocket-version") {
        Some(version) => is_bytes(version, "13".as_bytes()),
        None => false,
    };
    if !version_fits {
        return UpgradeAnswer::BadRequest;
    }
    let headers = if config.real_ip_enabled {
        capture_headers(&request.headers, &config.real_ip_headers)
    } else {
        let none: Vec<(String, String)> = Vec::new();
        proof {
            assert(header_views(none@) == Seq::<(Seq<char>, Seq<char>)>::empty());
        }
        none
    };
    UpgradeAnswer::Switch {
        accept: accept_key(key),
        protocol,
        result: UpgradeResult { is_v2, headers },
    }
}

// ---------------------------------------------------------------------------------------
// Laws
// ---------------------------------------------------------------------------------------

/// Two words are the same exactly if they have the same letters, where a capital counts as its
/// small letter and nothing else does.
pub proof fn case_alone_makes_no_difference(a: Seq<u8>, b: Seq<u8>)
    ensures
        same_word(a, b) <==> a.len() == b.len() && forall|i: int|
            0 <= i < a.len() ==> {
                ||| #[trigger] a[i] == b[i]
                ||| 65 <= a[i] <= 90 && b[i] == a[i] + 32
                ||| 65 <= b[i] <= 90 && a[i] == b[i] + 32
            },
{
    if a.len() == b.len() && (forall|i: int|
        0 <= i < a.len() ==> {
            ||| #[trigger] a[i] == b[i]
            ||| 65 <= a[i] <= 90 && b[i] == a[i] + 32
            ||| 65 <= b[i] <= 90 && a[i] == b[i] + 32
        }) {
        assert(same_word(a, b));
    }
    if same_word(a, b) {
        assert forall|i: int| 0 <= i < a.len() implies {
            ||| #[trigger] a[i] == b[i]
            ||| 65 <= a[i] <= 90 && b[i] == a[i] + 32
            ||| 65 <= b[i] <= 90 && a[i] == b[i] + 32
        } by {
            assert(lower_byte(a[i]) == lower_byte(b[i]));
        }
    }
}

/// White space at the front and at the end of a word is taken away, and nothing else.
pub proof fn white_space_is_taken_away(front: Seq<u8>, word: Seq<u8>, end: Seq<u8>)
    requires
        forall|i: int| 0 <= i < front.len() ==> is_white_byte(#[trigger] front[i]),
        forall|i: int| 0 <= i < end.len() ==> is_white_byte(#[trigger] end[i]),
        word.len() > 0,
        !is_white_byte(word[0]),
        !is_white_byte(word.last()),
    ensures
        trimmed_back(trimmed_front(front + word + end)) == word,
{
    assert(front + word + end == front + (word + end));
    lemma_front_taken(front, word + end);
    lemma_end_taken(word, end);
}

/// White space at the front is taken away.
proof fn lemma_front_taken(front: Seq<u8>, word: Seq<u8>)
    requires
        forall|i: int| 0 <= i < front.len() ==> is_white_byte(#[trigger] front[i]),
        word.len() > 0 ==> !is_white_byte(word[0]),
    ensures
        trimmed_front(front + word) == word,
    decreases front.len(),
{
    let all = front + word;
    if front.len() == 0 {
        assert(all == word);
    } else {
        assert(all[0] == front[0]);
        let rest = front.skip(1);
        assert forall|i: int| 0 <= i < rest.len() implies is_white_byte(#[trigger] rest[i]) by {
            assert(rest[i] == front[i + 1]);
        }
        lemma_front_taken(rest, word);
        assert(all.skip(1) == rest + word);
    }
}

/// White space at the end is taken away.
proof fn lemma_end_taken(word: Seq<u8>, end: Seq<u8>)
    requires
        forall|i: int| 0 <= i < end.len() ==> is_white_byte(#[trigger] end[i]),
        word.len() > 0 ==> !is_white_byte(word.last()),
    ensures
        trimmed_back(word + end) == word,
    decreases end.len(),
{
    let all = word + end;
    if end.len() == 0 {
        assert(all == word);
    } else {
        assert(all.last() == end.last());
        let rest = end.drop_last();
        assert forall|i: int| 0 <= i < rest.len() implies is_white_byte(#[trigger] rest[i]) by {
            assert(rest[i] == end[i]);
        }
        lemma_end_taken(word, rest);
        assert(all.drop_last() == word + rest);
    }
}

/// White space is a space, a tab, a line feed, a form feed or a carriage return.
pub proof fn what_white_space_is(b: u8)
    ensures
        is_white_byte(b) <==> b == 9 || b == 10 || b == 12 || b == 13 || b == 32,
{
}

/// A comma parts words: a word is among those on its left or among those on its right.
pub proof fn commas_part_words(left: Seq<u8>, right: Seq<u8>, word: Seq<u8>)
    ensures
        has_word(left + seq![0x2cu8] + right, word) <==> has_word(left, word) || has_word(
            right,
            word,
        ),
    decreases left.len(),
{
    let all = left + seq![0x2cu8] + right;
    let comma = first_comma(left);
    lemma_first_comma(left);
    lemma_comma_found(left, right);
    assert(all.take(comma) == left.take(comma));
    if comma < left.len() {
        let rest = left.skip(comma + 1);
        commas_part_words(rest, right, word);
        assert(all.skip(comma + 1) == rest + seq![0x2cu8] + right);
    } else {
        assert(all.skip(comma + 1) == right);
    }
}

/// The first comma is the first of the left side, if it has one, and the one behind it if not.
proof fn lemma_comma_found(left: Seq<u8>, right: Seq<u8>)
    ensures
        first_comma(left + seq![0x2cu8] + right) == first_comma(left),
    decreases left.len(),
{
    let all = left + seq![0x2cu8] + right;
    if left.len() == 0 {
        assert(all[0] == 0x2c);
    } else {
        assert(all[0] == left[0]);
        assert(all.skip(1) == left.skip(1) + seq![0x2cu8] + right);
        lemma_comma_found(left.skip(1), right);
    }
}

/// Bytes without a comma hold the one word that they are, white space apart.
pub proof fn words_without_commas(value: Seq<u8>, word: Seq<u8>)
    requires
        forall|i: int| 0 <= i < value.len() ==> value[i] != 0x2c,
    ensures
        has_word(value, word) <==> same_word(trimmed_back(trimmed_front(value)), word),
{
    lemma_no_comma(value);
    assert(value.take(value.len() as int) == value);
}

/// Without a comma the first one is found at the end.
proof fn lemma_no_comma(value: Seq<u8>)
    requires
        forall|i: int| 0 <= i < value.len() ==> value[i] != 0x2c,
    ensures
        first_comma(value) == value.len(),
    decreases value.len(),
{
    if value.len() > 0 {
        assert(value[0] != 0x2c);
        assert forall|i: int| 0 <= i < value.skip(1).len() implies value.skip(1)[i] != 0x2c by {
            assert(value.skip(1)[i] == value[i + 1]);
        }
        lemma_no_comma(value.skip(1));
    }
}

/// The first header of a name gives its value, whatever follows; and without such a header there
/// is none.
pub proof fn the_first_header_gives_the_value(
    headers: Seq<(String, Vec<u8>)>,
    name: Seq<char>,
    i: int,
)
    requires
        0 <= i <= headers.len(),
        forall|j: int| 0 <= j < i ==> text::lower((#[trigger] headers[j]).0@) != name,
        i < headers.len() ==> text::lower(headers[i].0@) == name,
    ensures
        header_value(headers, name) == if i < headers.len() {
            Some(headers[i].1@)
        } else {
            None
        },
    decreases i,
{
    if i > 0 {
        let rest = headers.skip(1);
        assert(text::lower(headers[0].0@) != name);
        assert forall|j: int| 0 <= j < i - 1 implies text::lower((#[trigger] rest[j]).0@)
            != name by {
            assert(rest[j] == headers[j + 1]);
        }
        the_first_header_gives_the_value(rest, name, i - 1);
    }
}

/// A request asks to become a WebSocket exactly if some Connection header has the word "upgrade"
/// and some Upgrade header the word "websocket".
pub proof fn who_asks_to_become_a_websocket(headers: Seq<(String, Vec<u8>)>)
    ensures
        asks_for_upgrade(headers) <==> {
            &&& exists|i: int|
                {
                    &&& 0 <= i < headers.len()
                    &&& text::lower((#[trigger] headers[i]).0@) == "connection"@
                    &&& has_word(headers[i].1@, vstd::utf8::encode_utf8("upgrade"@))
                }
            &&& exists|i: int|
                {
                    &&& 0 <= i < headers.len()
                    &&& text::lower((#[trigger] headers[i]).0@) == "upgrade"@
                    &&& has_word(headers[i].1@, vstd::utf8::encode_utf8("websocket"@))
                }
        },
{
    if exists|i: int|
        {
            &&& 0 <= i < headers.len()
            &&& text::lower((#[trigger] headers[i]).0@) == "connection"@
            &&& has_word(headers[i].1@, vstd::utf8::encode_utf8("upgrade"@))
        } {
        let i = choose|i: int|
            {
                &&& 0 <= i < headers.len()
                &&& text::lower((#[trigger] headers[i]).0@) == "connection"@
                &&& has_word(headers[i].1@, vstd::utf8::encode_utf8("upgrade"@))
            };
        assert(is_named(headers[i], "connection"@));
    }
    if exists|i: int|
        {
            &&& 0 <= i < headers.len()
            &&& text::lower((#[trigger] headers[i]).0@) == "upgrade"@
            &&& has_word(headers[i].1@, vstd::utf8::encode_utf8("websocket"@))
        } {
        let i = choose|i: int|
            {
                &&& 0 <= i < headers.len()
                &&& text::lower((#[trigger] headers[i]).0@) == "upgrade"@
                &&& has_word(headers[i].1@, vstd::utf8::encode_utf8("websocket"@))
            };
        assert(is_named(headers[i], "upgrade"@));
    }
}

/// A request can become a WebSocket exactly if it has a key, whatever the key, and the first header
/// for the version says "13".
pub proof fn which_requests_can_become_websockets(headers: Seq<(String, Vec<u8>)>)
    ensures
        can_upgrade(headers) <==> {
            &&& exists|i: int|
                0 <= i < headers.len() && text::lower((#[trigger] headers[i]).0@)
                    == "sec-websocket-key"@
            &&& header_value(headers, "sec-websocket-version"@) == Some(seq![0x31u8, 0x33u8])
        },
{
    reveal_strlit("13");
    vstd::utf8::is_ascii_chars_encode_utf8("13"@);
    assert(vstd::utf8::encode_utf8("13"@) == seq![0x31u8, 0x33u8]);
    lemma_some_header(headers, "sec-websocket-key"@);
}

/// A name has a value exactly if some header has it.
proof fn lemma_some_header(headers: Seq<(String, Vec<u8>)>, name: Seq<char>)
    ensures
        header_value(headers, name) is Some <==> exists|i: int|
            0 <= i < headers.len() && text::lower((#[trigger] headers[i]).0@) == name,
    decreases headers.len(),
{
    if headers.len() > 0 {
        let rest = headers.skip(1);
        lemma_some_header(rest, name);
        if is_named(headers[0], name) {
            assert(text::lower(headers[0].0@) == name);
        } else {
            if exists|i: int|
                0 <= i < headers.len() && text::lower((#[trigger] headers[i]).0@) == name {
                let i = choose|i: int|
                    0 <= i < headers.len() && text::lower((#[trigger] headers[i]).0@) == name;
                assert(rest[i - 1] == headers[i]);
            }
            if exists|i: int|
                0 <= i < rest.len() && text::lower((#[trigger] rest[i]).0@) == name {
                let i = choose|i: int|
                    0 <= i < rest.len() && text::lower((#[trigger] rest[i]).0@) == name;
                assert(headers[i + 1] == rest[i]);
            }
        }
    }
}

/// The answer to a key is the Base64 text of the SHA-1 digest of the key and the number that the
/// protocol fixes.
pub proof fn keys_are_answered(key: Seq<u8>)
    ensures
        accept_of(key) == base64_of(
            sha1_of(key + vstd::utf8::encode_utf8("258EAFA5-E914-47DA-95CA-C5AB0DC85B11"@)),
        ),
{
}

/// A value can be taken as text exactly if it holds nothing but visible ASCII characters, spaces
/// and tabs, and it reads as those characters.
pub proof fn what_can_be_taken_as_text(value: Seq<u8>)
    ensures
        is_plain_text(value) <==> forall|i: int|
            0 <= i < value.len() ==> (#[trigger] value[i] == 9 || (32 <= value[i] && value[i]
                <= 126)),
        is_plain_text(value) ==> vstd::utf8::encode_utf8(plain_text(value)) == value,
{
    if is_plain_text(value) {
        lemma_plain_text(value);
        assert forall|i: int| 0 <= i < value.len() implies (#[trigger] value[i] == 9 || (32
            <= value[i] && value[i] <= 126)) by {
            assert(0x20 <= value[i] < 0x7f || value[i] == 0x09);
        }
    }
    if forall|i: int|
        0 <= i < value.len() ==> (#[trigger] value[i] == 9 || (32 <= value[i] && value[i] <= 126)) {
        assert(is_plain_text(value));
    }
}

/// A header is remembered for a name exactly if it has the name, in any spelling, and can be taken
/// as text; it comes behind those that came before it.
pub proof fn which_headers_are_remembered(
    headers: Seq<(String, Vec<u8>)>,
    header: (String, Vec<u8>),
    target: Seq<char>,
)
    ensures
        captured_for(seq![], target) == Seq::<(Seq<char>, Seq<char>)>::empty(),
        captured_for(headers.push(header), target) == captured_for(headers, target) + if text::lower(
            header.0@,
        ) == text::lower(target) && is_plain_text(header.1@) {
            seq![(header.0@, plain_text(header.1@))]
        } else {
            seq![]
        },
{
    assert(headers.push(header).drop_last() == headers);
}

/// The headers of each further name come behind those of the names before it.
pub proof fn further_names_come_behind(
    headers: Seq<(String, Vec<u8>)>,
    targets: Seq<String>,
    target: String,
)
    ensures
        captured(headers, seq![]) == Seq::<(Seq<char>, Seq<char>)>::empty(),
        captured(headers, targets.push(target)) == captured(headers, targets) + captured_for(
            headers,
            target@,
        ),
{
    assert(targets.push(target).drop_last() == targets);
}

/// A request becomes a WebSocket exactly if it asks for it, has a key and names version 13. It is
/// of version 2 of the protocol exactly if it chooses a subprotocol, and it gets its own choice
/// back. One that asks but cannot is a bad request, and all others get a plain answer, but for a
/// GET of "/health".
pub proof fn requests_are_answered(
    request: UpgradeRequest,
    config: ServerConfig,
    r: UpgradeAnswer,
)
    requires
        call_ensures(answer_request, (&request, &config), r),
    ensures
        ({
            let headers = request.headers@;
            let chosen = header_value(headers, "sec-websocket-protocol"@);
            &&& r is Switch <==> asks_for_upgrade(headers) && can_upgrade(headers)
            &&& r is BadRequest <==> asks_for_upgrade(headers) && !can_upgrade(headers)
            &&& r is Health <==> !asks_for_upgrade(headers) && request.is_get && request.path@
                == "/health"@
            &&& r is Plain <==> !asks_for_upgrade(headers) && !(request.is_get && request.path@
                == "/health"@)
            &&& r matches UpgradeAnswer::Switch { accept, protocol, result } ==> {
                &&& header_value(headers, "sec-websocket-key"@) is Some
                &&& accept@ == accept_of(header_value(headers, "sec-websocket-key"@)->0)
                &&& result.is_v2 <==> chosen is Some
                &&& protocol is Some <==> chosen is Some
                &&& protocol matches Some(value) ==> chosen == Some(value@)
                &&& !config.real_ip_enabled ==> result.headers@.len() == 0
                &&& config.real_ip_enabled ==> header_views(result.headers@) == captured(
                    headers,
                    config.real_ip_headers@,
                )
            }
        }),
{
    if let UpgradeAnswer::Switch { accept, protocol, result } = r {
        assert(header_views(result.headers@).len() == result.headers@.len());
    }
}

/// Headers stand for their names and values, one by one.
pub proof fn headers_stand_for_what_they_hold(headers: Seq<(String, String)>, i: int)
    ensures
        header_views(headers).len() == headers.len(),
        0 <= i < headers.len() ==> header_views(headers)[i] == (headers[i].0@, headers[i].1@),
{
}

} // verus!
