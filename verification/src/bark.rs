//! Bark push requests: the JSON payload of a notification, the endpoint a
//! device key addresses, the optional AES encryption of the payload, and how
//! Bark's answers are classified.

use vstd::prelude::*;
use base64::Engine;
use cbc::cipher::{BlockEncryptMut, KeyIvInit};
use rand::Rng;
use crate::error::{CoreError, CoreResult};
use crate::json::{
    entries_v, get_v, insert_spec, int_v, json_text, lemma_jv_object, number_from, number_from_i64,
    object_insert, str_of, i64_of, uint_v, Json, JsonV,
};
use crate::notification::{contains_any, has_any, Notification};
use crate::settings::{parsed_url_scheme, url_scheme, AppSettings};
use crate::text::{
    ascii_lower_spec, contains, contains_spec, owned, same_text, starts_with, starts_with_spec,
    to_ascii_lowercase, trim_spec, is_blank,
};

verus! {

/// An entry `key` with the text `v`, added when `v` is not empty.
pub open spec fn with_text(e: Seq<(Seq<char>, JsonV)>, key: Seq<char>, v: Seq<char>) -> Seq<
    (Seq<char>, JsonV),
> {
    if v.len() == 0 {
        e
    } else {
        insert_spec(e, key, JsonV::Str(v))
    }
}

/// The Bark payload of a notification: title, body, group, level and id;
/// the optional texts that are set; the body again as Markdown when asked;
/// volume, badge, archiving and time to live when given; `call` and
/// `autoCopy` as "1" when enabled.
pub open spec fn payload_spec(n: Notification) -> JsonV {
    let e0 = insert_spec(
        insert_spec(
            insert_spec(
                insert_spec(insert_spec(Seq::empty(), "title"@, JsonV::Str(n.title@)), "body"@, JsonV::Str(n.body@)),
                "group"@,
                JsonV::Str(n.group@),
            ),
            "level"@,
            JsonV::Str(n.level@),
        ),
        "id"@,
        JsonV::Str(n.bark_id@),
    );
    let e1 = with_text(
        with_text(
            with_text(
                with_text(
                    with_text(with_text(with_text(e0, "subtitle"@, n.subtitle@), "sound"@, n.sound@), "icon"@, n.icon@),
                    "image"@,
                    n.image@,
                ),
                "url"@,
                n.url@,
            ),
            "copy"@,
            n.copy@,
        ),
        "action"@,
        n.action@,
    );
    let e2 = if n.markdown {
        insert_spec(e1, "markdown"@, JsonV::Str(n.body@))
    } else {
        e1
    };
    let e3 = match n.volume {
        Some(v) => insert_spec(e2, "volume"@, uint_v(v as u64)),
        None => e2,
    };
    let e4 = match n.badge {
        Some(b) => insert_spec(e3, "badge"@, int_v(b)),
        None => e3,
    };
    let e5 = if n.call {
        insert_spec(e4, "call"@, JsonV::Str("1"@))
    } else {
        e4
    };
    let e6 = if n.auto_copy {
        insert_spec(e5, "autoCopy"@, JsonV::Str("1"@))
    } else {
        e5
    };
    let e7 = match n.archive {
        Some(a) => insert_spec(e6, "isArchive"@, uint_v(if a { 1 } else { 0 })),
        None => e6,
    };
    let e8 = match n.ttl {
        Some(t) => insert_spec(e7, "ttl"@, uint_v(t)),
        None => e7,
    };
    JsonV::Object(e8)
}

fn insert_text(e: &mut Vec<(String, Json)>, key: &str, v: &String)
    ensures
        entries_v(final(e)@) == with_text(entries_v(old(e)@), key@, v@),
{
    proof {
        reveal_strlit("");
    }
    if !same_text(v.as_str(), "") {
        assert(v@.len() != 0) by {
            if v@.len() == 0 {
                assert(v@ =~= ""@);
            }
        }
        object_insert(e, owned(key), Json::Str(v.clone()));
    }
}

/// The JSON payload Bark receives for `n`.
pub fn payload(n: &Notification) -> (r: Json)
    ensures
        r@ == payload_spec(*n),
{
    let mut e: Vec<(String, Json)> = Vec::new();
    assert(entries_v(e@) =~= Seq::<(Seq<char>, JsonV)>::empty());
    object_insert(&mut e, owned("title"), Json::Str(n.title.clone()));
    object_insert(&mut e, owned("body"), Json::Str(n.body.clone()));
    object_insert(&mut e, owned("group"), Json::Str(n.group.clone()));
    object_insert(&mut e, owned("level"), Json::Str(n.level.clone()));
    object_insert(&mut e, owned("id"), Json::Str(n.bark_id.clone()));
    insert_text(&mut e, "subtitle", &n.subtitle);
    insert_text(&mut e, "sound", &n.sound);
    insert_text(&mut e, "icon", &n.icon);
    insert_text(&mut e, "image", &n.image);
    insert_text(&mut e, "url", &n.url);
    insert_text(&mut e, "copy", &n.copy);
    insert_text(&mut e, "action", &n.action);
    if n.markdown {
        object_insert(&mut e, owned("markdown"), Json::Str(n.body.clone()));
    }
    match n.volume {
        Some(v) => object_insert(&mut e, owned("volume"), number_from(v as u64)),
        None => {},
    }
    match n.badge {
        Some(b) => object_insert(&mut e, owned("badge"), number_from_i64(b)),
        None => {},
    }
    if n.call {
        object_insert(&mut e, owned("call"), Json::string("1"));
    }
    if n.auto_copy {
        object_insert(&mut e, owned("autoCopy"), Json::string("1"));
    }
    match n.archive {
        Some(a) => object_insert(&mut e, owned("isArchive"), number_from(if a { 1 } else { 0 })),
        None => {},
    }
    match n.ttl {
        Some(t) => object_insert(&mut e, owned("ttl"), number_from(t)),
        None => {},
    }
    proof {
        lemma_jv_object(e);
    }
    Json::Object(e)
}

/// The payload that asks Bark to delete the notification `id`.
pub open spec fn delete_payload_spec(id: Seq<char>) -> JsonV {
    JsonV::Object(
        insert_spec(insert_spec(Seq::empty(), "id"@, JsonV::Str(id)), "delete"@, JsonV::Str("1"@)),
    )
}

/// The payload that deletes the pushed notification `bark_id`; a blank id
/// is refused.
pub fn delete_payload(bark_id: &str) -> (r: CoreResult<Json>)
    ensures
        trim_spec(bark_id@).len() == 0 ==> (r matches Err(CoreError::InvalidConfig(m)) && m@ == "Bark notification id is missing"@),
        trim_spec(bark_id@).len() != 0 ==> (r matches Ok(j) && j@ == delete_payload_spec(bark_id@)),
{
    if is_blank(bark_id) {
        return Err(CoreError::InvalidConfig(owned("Bark notification id is missing")));
    }
    let mut e: Vec<(String, Json)> = Vec::new();
    assert(entries_v(e@) =~= Seq::<(Seq<char>, JsonV)>::empty());
    object_insert(&mut e, owned("id"), Json::string(bark_id));
    object_insert(&mut e, owned("delete"), Json::string("1"));
    proof {
        lemma_jv_object(e);
    }
    Ok(Json::Object(e))
}

/// The text of the URL that `url::Url::parse` reads from `s` (its
/// serialization), or `None` when it refuses `s`.
pub uninterp spec fn url_text(s: Seq<char>) -> Option<Seq<char>>;

/// Calls `url::Url::parse` and, when it succeeds, takes the URL's text
/// (`String::from(Url)`): its result is named `url_text`.
#[verifier::external_body]
fn parsed_url_text(s: &str) -> (r: Option<String>)
    ensures
        match r {
            Some(x) => url_text(s@) == Some(x@),
            None => url_text(s@) is None,
        },
{
    url::Url::parse(s).ok().map(String::from)
}

/// The text of the URL that `url::Url::parse` reads from `base`, after its
/// path segments drop a trailing empty one and take `segment` as the last
/// one; `None` when `base` is refused or cannot have path segments.
pub uninterp spec fn url_with_segment(base: Seq<char>, segment: Seq<char>) -> Option<Seq<char>>;

/// Calls `url::Url::parse`, then `Url::path_segments_mut` with
/// `PathSegmentsMut::pop_if_empty` and `PathSegmentsMut::push`: its result
/// is named `url_with_segment`.
#[verifier::external_body]
fn push_url_segment(base: &str, segment: &str) -> (r: Option<String>)
    ensures
        match r {
            Some(x) => url_with_segment(base@, segment@) == Some(x@),
            None => url_with_segment(base@, segment@) is None,
        },
{
    let mut url = url::Url::parse(base).ok()?;
    url.path_segments_mut().ok()?.pop_if_empty().push(segment);
    Some(String::from(url))
}

/// A device key that is neither a URL nor anything but blanks.
pub open spec fn key_missing(key: Seq<char>) -> bool {
    !starts_with_spec(key, "http://"@) && !starts_with_spec(key, "https://"@) && trim_spec(key).len() == 0
}

/// The URL that a push for `key` goes to: a key that is itself an HTTP(S)
/// URL is used as it is; otherwise the key is appended as a path segment to
/// the server (Bark's public server when blank), which must be an HTTP(S)
/// URL. `None` when the URL is refused.
pub open spec fn endpoint_spec(server: Seq<char>, key: Seq<char>) -> Option<Seq<char>> {
    if starts_with_spec(key, "http://"@) || starts_with_spec(key, "https://"@) {
        url_text(key)
    } else {
        let base = if trim_spec(server).len() == 0 {
            "https://api.day.app"@
        } else {
            server
        };
        match url_scheme(base) {
            Some(s) => if s == "http"@ || s == "https"@ {
                url_with_segment(base, key)
            } else {
                None
            },
            None => None,
        }
    }
}

/// The URL a push for the device key `key` goes to; see `endpoint_spec`.
pub fn endpoint(server: &str, key: &str) -> (r: CoreResult<String>)
    ensures
        key_missing(key@) ==> (r matches Err(CoreError::InvalidConfig(m)) && m@ == "Bark device key is missing"@),
        !key_missing(key@) ==> match endpoint_spec(server@, key@) {
            Some(u) => r matches Ok(x) && x@ == u,
            None => r matches Err(CoreError::InvalidBarkServer),
        },
{
    if starts_with(key, "http://") || starts_with(key, "https://") {
        return match parsed_url_text(key) {
            Some(u) => Ok(u),
            None => Err(CoreError::InvalidBarkServer),
        };
    }
    if is_blank(key) {
        return Err(CoreError::InvalidConfig(owned("Bark device key is missing")));
    }
    let base: &str = if is_blank(server) {
        "https://api.day.app"
    } else {
        server
    };
    let scheme = match parsed_url_scheme(base) {
        Some(s) => s,
        None => return Err(CoreError::InvalidBarkServer),
    };
    if !(same_text(scheme.as_str(), "http") || same_text(scheme.as_str(), "https")) {
        return Err(CoreError::InvalidBarkServer);
    }
    match push_url_segment(base, key) {
        Some(u) => Ok(u),
        None => Err(CoreError::InvalidBarkServer),
    }
}

/// AES-128 in CBC mode with PKCS#7 padding, as the `aes` and `cbc` crates
/// compute it, of `data` under `key` and `iv`.
pub uninterp spec fn aes128_cbc_pkcs7(key: Seq<u8>, iv: Seq<u8>, data: Seq<u8>) -> Seq<u8>;

/// AES-256 in CBC mode with PKCS#7 padding, as the `aes` and `cbc` crates
/// compute it, of `data` under `key` and `iv`.
pub uninterp spec fn aes256_cbc_pkcs7(key: Seq<u8>, iv: Seq<u8>, data: Seq<u8>) -> Seq<u8>;

/// Calls `cbc::Encryptor::<aes::Aes128>::new_from_slices` and
/// `encrypt_padded_mut::<Pkcs7>` on the first `len` bytes of `buffer`, which
/// leaves room for the padding block; its result is named
/// `aes128_cbc_pkcs7`.
#[verifier::external_body]
fn aes128_cbc_encrypt(key: &[u8], iv: &[u8], buffer: Vec<u8>, len: usize) -> (r: Vec<u8>)
    requires
        key@.len() == 16,
        iv@.len() == 16,
        len + 16 <= buffer@.len(),
    ensures
        r@ == aes128_cbc_pkcs7(key@, iv@, buffer@.take(len as int)),
{
    let mut buffer = buffer;
    cbc::Encryptor::<aes::Aes128>::new_from_slices(key, iv).unwrap().encrypt_padded_mut::<
        cbc::cipher::block_padding::Pkcs7,
    >(&mut buffer, len).unwrap().to_vec()
}

/// Calls `cbc::Encryptor::<aes::Aes256>::new_from_slices` and
/// `encrypt_padded_mut::<Pkcs7>` on the first `len` bytes of `buffer`, which
/// leaves room for the padding block; its result is named
/// `aes256_cbc_pkcs7`.
#[verifier::external_body]
fn aes256_cbc_encrypt(key: &[u8], iv: &[u8], buffer: Vec<u8>, len: usize) -> (r: Vec<u8>)
    requires
        key@.len() == 32,
        iv@.len() == 16,
        len + 16 <= buffer@.len(),
    ensures
        r@ == aes256_cbc_pkcs7(key@, iv@, buffer@.take(len as int)),
{
    let mut buffer = buffer;
    cbc::Encryptor::<aes::Aes256>::new_from_slices(key, iv).unwrap().encrypt_padded_mut::<
        cbc::cipher::block_padding::Pkcs7,
    >(&mut buffer, len).unwrap().to_vec()
}

/// The character of the standard Base64 alphabet for the six bits `v`.
pub open spec fn base64_char(v: int) -> char {
    if v < 26 {
        (('A' as int) + v) as char
    } else if v < 52 {
        (('a' as int) + v - 26) as char
    } else if v < 62 {
        (('0' as int) + v - 52) as char
    } else if v == 62 {
        '+'
    } else {
        '/'
    }
}

/// Standard Base64 with padding (RFC 4648): each three bytes as four
/// characters; a last group of one or two bytes padded with `=`.
pub open spec fn base64_standard(data: Seq<u8>) -> Seq<char>
    decreases data.len(),
{
    if data.len() == 0 {
        Seq::empty()
    } else if data.len() == 1 {
        let a = data[0] as int;
        seq![base64_char(a / 4), base64_char((a % 4) * 16), '=', '=']
    } else if data.len() == 2 {
        let a = data[0] as int;
        let b = data[1] as int;
        seq![base64_char(a / 4), base64_char((a % 4) * 16 + b / 16), base64_char((b % 16) * 4), '=']
    } else {
        let a = data[0] as int;
        let b = data[1] as int;
        let c = data[2] as int;
        seq![
            base64_char(a / 4),
            base64_char((a % 4) * 16 + b / 16),
            base64_char((b % 16) * 4 + c / 64),
            base64_char(c % 64),
        ] + base64_standard(data.subrange(3, data.len() as int))
    }
}

/// Calls `base64::engine::general_purpose::STANDARD.encode`, which writes
/// `base64_standard` (the standard alphabet, with padding).
#[verifier::external_body]
fn base64_encode(data: &[u8]) -> (r: String)
    ensures
        r@ == base64_standard(data@),
{
    base64::engine::general_purpose::STANDARD.encode(data)
}

/// ASCII letters and digits.
pub open spec fn is_alphanumeric_ascii(c: char) -> bool {
    ('a' <= c <= 'z') || ('A' <= c <= 'Z') || ('0' <= c <= '9')
}

/// Sixteen characters drawn by `rand::thread_rng` from
/// `rand::distributions::Alphanumeric` (ASCII letters and digits, so one
/// byte each in UTF-8). Which ones is chance: only that is stated.
#[verifier::external_body]
fn random_iv() -> (r: String)
    ensures
        r@.len() == 16,
        forall|i: int| 0 <= i < 16 ==> is_alphanumeric_ascii(#[trigger] r@[i]),
        vstd::utf8::encode_utf8(r@).len() == 16,
{
    rand::thread_rng().sample_iter(&rand::distributions::Alphanumeric).take(16).map(char::from).collect()
}

/// An encrypted Bark form: the Base64 ciphertext and the initialization
/// vector it was made with.
pub struct EncryptedForm {
    pub ciphertext: String,
    pub iv: String,
}

/// The key length in bytes that an algorithm needs: 16 for AES-128-CBC,
/// else 32.
pub open spec fn key_size(algorithm: Seq<char>) -> nat {
    if algorithm == "AES-128-CBC"@ {
        16
    } else {
        32
    }
}

/// The Base64 ciphertext of the compact JSON text of `payload`.
pub open spec fn ciphertext_spec(payload: JsonV, key: Seq<char>, algorithm: Seq<char>, iv: Seq<char>) -> Seq<char> {
    let k = vstd::utf8::encode_utf8(key);
    let v = vstd::utf8::encode_utf8(iv);
    let data = vstd::utf8::encode_utf8(json_text(payload));
    base64_standard(
        if key_size(algorithm) == 16 {
            aes128_cbc_pkcs7(k, v, data)
        } else {
            aes256_cbc_pkcs7(k, v, data)
        },
    )
}

/// Encrypts the payload with the initialization vector `iv`: a key of the
/// wrong length for the algorithm is refused.
pub fn encrypt_with_iv(value: &Json, key: &str, algorithm: &str, iv: &str) -> (r: CoreResult<EncryptedForm>)
    requires
        vstd::utf8::encode_utf8(iv@).len() == 16,
    ensures
        vstd::utf8::encode_utf8(key@).len() != key_size(algorithm@) ==> r matches Err(CoreError::InvalidEncryptionKey),
        vstd::utf8::encode_utf8(key@).len() == key_size(algorithm@) ==> (r matches Ok(f) && f.iv@ == iv@
            && f.ciphertext@ == ciphertext_spec(value@, key@, algorithm@, iv@)),
{
    let aes128 = same_text(algorithm, "AES-128-CBC");
    let expected: usize = if aes128 {
        16
    } else {
        32
    };
    let key_bytes = key.as_bytes();
    if key_bytes.len() != expected {
        return Err(CoreError::InvalidEncryptionKey);
    }
    let raw = value.to_text();
    let data = raw.as_str().as_bytes();
    let mut buffer: Vec<u8> = Vec::new();
    let mut i: usize = 0;
    while i < data.len()
        invariant
            i <= data@.len(),
            buffer@ == data@.take(i as int),
        decreases data.len() - i,
    {
        buffer.push(data[i]);
        i = i + 1;
        assert(buffer@ =~= data@.take(i as int));
    }
    let mut pad: usize = 0;
    while pad < 16
        invariant
            pad <= 16,
            buffer@.len() == data@.len() + pad,
            buffer@.take(data@.len() as int) == data@,
        decreases 16 - pad,
    {
        buffer.push(0u8);
        pad = pad + 1;
        assert(buffer@.take(data@.len() as int) =~= data@);
    }
    assert(data@.take(data@.len() as int) =~= data@);
    let len = data.len();
    let iv_bytes = iv.as_bytes();
    let encrypted = if aes128 {
        aes128_cbc_encrypt(key_bytes, iv_bytes, buffer, len)
    } else {
        aes256_cbc_encrypt(key_bytes, iv_bytes, buffer, len)
    };
    let ciphertext = base64_encode(encrypted.as_slice());
    Ok(EncryptedForm { ciphertext, iv: owned(iv) })
}

/// Encrypts the payload under a fresh random initialization vector; see
/// `encrypt_with_iv`.
pub fn encrypt(value: &Json, key: &str, algorithm: &str) -> (r: CoreResult<EncryptedForm>)
    ensures
        vstd::utf8::encode_utf8(key@).len() != key_size(algorithm@) ==> r matches Err(CoreError::InvalidEncryptionKey),
        vstd::utf8::encode_utf8(key@).len() == key_size(algorithm@) ==> (r matches Ok(f) && f.iv@.len() == 16
            && (forall|i: int| 0 <= i < 16 ==> is_alphanumeric_ascii(#[trigger] f.iv@[i]))
            && f.ciphertext@ == ciphertext_spec(value@, key@, algorithm@, f.iv@)),
{
    let iv = random_iv();
    encrypt_with_iv(value, key, algorithm, iv.as_str())
}

/// Phrases with which Bark reports an unknown device key.
pub open spec fn key_words() -> Seq<Seq<char>> {
    seq!["device key"@, "device token"@, "get device token"@, "invalid key"@]
}

/// The message of a Bark answer: its `message` text when the body is JSON
/// that has one, else the whole body.
pub open spec fn answer_message(body: Seq<char>, parsed: Option<JsonV>) -> Seq<char> {
    match parsed {
        Some(j) => match str_of(get_v(j, "message"@)) {
            Some(m) => m,
            None => body,
        },
        None => body,
    }
}

/// An answer with status 400 whose message (in ASCII lowercase) speaks of the
/// device key or token.
pub open spec fn invalid_key_spec(status: u16, body: Seq<char>, parsed: Option<JsonV>) -> bool {
    status == 400 && has_any(ascii_lower_spec(answer_message(body, parsed)), key_words())
}

pub open spec fn opt_v(parsed: Option<Json>) -> Option<JsonV> {
    match parsed {
        Some(j) => Some(j@),
        None => None,
    }
}

/// Whether Bark's answer (status, body, and the body parsed as JSON if it
/// is JSON) reports an unknown device key.
pub fn invalid_device_key(status: u16, body: &str, parsed: &Option<Json>) -> (r: bool)
    ensures
        r == invalid_key_spec(status, body@, opt_v(*parsed)),
{
    if status != 400 {
        return false;
    }
    let message: &str = match parsed {
        Some(j) => match j.get("message") {
            Some(m) => match m.as_str() {
                Some(t) => t,
                None => body,
            },
            None => body,
        },
        None => body,
    };
    let lower = to_ascii_lowercase(message);
    let words = vec!["device key", "device token", "get device token", "invalid key"];
    let ghost kw = key_words();
    assert(kw.len() == words@.len());
    assert forall|i: int| 0 <= i < kw.len() implies kw[i] == words@[i]@ by {}
    contains_any(lower.as_str(), &words)
}

/// The status that Bark's `code` stands for: the code taken as a 16-bit
/// number when that is a valid HTTP status, else 400.
pub open spec fn code_status(code: i64) -> u16 {
    let s = code as u16;
    if 100 <= s <= 999 {
        s
    } else {
        400
    }
}

/// An answer that says the key is unknown, or else that the push was refused.
pub open spec fn refusal(invalid: bool) -> CoreError {
    if invalid {
        CoreError::BarkInvalidKey
    } else {
        CoreError::BarkRejected
    }
}

/// Classifies Bark's answer to a push: server errors; other failures, told
/// apart by whether they report an unknown device key; a blank success,
/// which reads as an empty object; a body that is not JSON; a JSON `code`
/// other than 200, classified like a failure with that status; else the
/// parsed body. `parsed` is the body parsed as JSON, or `None` when it is
/// not JSON. No error carries the server's words, which may repeat the
/// device key.
pub fn parse_response(status: u16, text: &str, parsed: Option<Json>) -> (r: CoreResult<Json>)
    ensures
        r matches Err(e) ==> (e is BarkServer || e is BarkInvalidKey || e is BarkRejected),
        500 <= status <= 599 ==> r matches Err(CoreError::BarkServer),
        !(500 <= status <= 599) && !(200 <= status <= 299) ==> r == Err::<Json, CoreError>(
            refusal(invalid_key_spec(status, text@, opt_v(parsed))),
        ),
        200 <= status <= 299 && trim_spec(text@).len() == 0 ==> (r matches Ok(j) && j@ == JsonV::Object(Seq::empty())),
        200 <= status <= 299 && trim_spec(text@).len() != 0 ==> match parsed {
            None => r matches Err(CoreError::BarkRejected),
            Some(p) => match i64_of(get_v(p@, "code"@)) {
                Some(c) => if c != 200 {
                    r == Err::<Json, CoreError>(refusal(invalid_key_spec(code_status(c), text@, Some(p@))))
                } else {
                    r matches Ok(j) && j@ == p@
                },
                None => r matches Ok(j) && j@ == p@,
            },
        },
{
    if 500 <= status && status <= 599 {
        return Err(CoreError::BarkServer);
    }
    if !(200 <= status && status <= 299) {
        return Err(
            if invalid_device_key(status, text, &parsed) {
                CoreError::BarkInvalidKey
            } else {
                CoreError::BarkRejected
            },
        );
    }
    if is_blank(text) {
        let e: Vec<(String, Json)> = Vec::new();
        proof {
            lemma_jv_object(e);
            assert(entries_v(e@) =~= Seq::<(Seq<char>, JsonV)>::empty());
        }
        return Ok(Json::Object(e));
    }
    let code = match &parsed {
        None => return Err(CoreError::BarkRejected),
        Some(p) => match p.get("code") {
            Some(c) => c.as_i64(),
            None => None,
        },
    };
    match code {
        Some(c) => {
            if c != 200 {
                let s = c as u16;
                let synthetic: u16 = if 100 <= s && s <= 999 {
                    s
                } else {
                    400
                };
                return Err(
                    if invalid_device_key(synthetic, text, &parsed) {
                        CoreError::BarkInvalidKey
                    } else {
                        CoreError::BarkRejected
                    },
                );
            }
        },
        None => {},
    }
    match parsed {
        Some(p) => Ok(p),
        None => Err(CoreError::BarkRejected),
    }
}

/// The error a failed request stands for: a timeout, or an unreachable
/// server.
pub fn request_error(timed_out: bool) -> (r: CoreError)
    ensures
        r == (if timed_out {
            CoreError::BarkTimeout
        } else {
            CoreError::BarkUnreachable
        }),
{
    if timed_out {
        CoreError::BarkTimeout
    } else {
        CoreError::BarkUnreachable
    }
}

/// The timeouts of a push, in seconds: the whole request and, for the
/// interactive test, the connection (8 s and 3 s); otherwise the configured
/// request timeout and no connection timeout.
pub fn request_timeouts(settings: &AppSettings, interactive: bool) -> (r: (u64, Option<u64>))
    ensures
        r == (if interactive {
            (8u64, Some(3u64))
        } else {
            (settings.request_timeout, None::<u64>)
        }),
{
    if interactive {
        (8, Some(3))
    } else {
        (settings.request_timeout, None)
    }
}

/// What a push sends: the payload as JSON, or the encrypted form.
pub enum RequestBody {
    Json(Json),
    Form(EncryptedForm),
}

/// A push request: where it goes and what it sends.
pub struct BarkRequest {
    pub url: String,
    pub body: RequestBody,
}

/// A request to `url` that sends `payload` as JSON.
pub open spec fn json_request(r: CoreResult<BarkRequest>, url: Seq<char>, payload: JsonV) -> bool {
    match r {
        Ok(q) => q.url@ == url && match q.body {
            RequestBody::Json(j) => j@ == payload,
            _ => false,
        },
        Err(_) => false,
    }
}

/// A request to `url` that sends `payload` encrypted under `key` (with the
/// initialization vector `iv`, when given).
pub open spec fn form_request(
    r: CoreResult<BarkRequest>,
    url: Seq<char>,
    payload: JsonV,
    key: Seq<char>,
    algorithm: Seq<char>,
    iv: Option<Seq<char>>,
) -> bool {
    match r {
        Ok(q) => q.url@ == url && match q.body {
            RequestBody::Form(f) => (match iv {
                Some(v) => f.iv@ == v,
                None => true,
            }) && f.ciphertext@ == ciphertext_spec(payload, key, algorithm, f.iv@),
            _ => false,
        },
        Err(_) => false,
    }
}

/// The request that pushes `payload` for the device key `bark_key`, the
/// form encrypted with `iv` when encryption is enabled; see
/// `endpoint_spec`. With encryption enabled, a missing or empty key and a
/// key of the wrong length are refused.
pub fn prepare_request_with_iv(
    payload: Json,
    settings: &AppSettings,
    bark_key: &str,
    encryption_key: Option<&str>,
    iv: &str,
) -> (r: CoreResult<BarkRequest>)
    requires
        settings.encryption_enabled ==> vstd::utf8::encode_utf8(iv@).len() == 16,
    ensures
        key_missing(bark_key@) ==> (r matches Err(CoreError::InvalidConfig(m)) && m@ == "Bark device key is missing"@),
        !key_missing(bark_key@) ==> match endpoint_spec(settings.bark_server@, bark_key@) {
            None => r matches Err(CoreError::InvalidBarkServer),
            Some(u) => if !settings.encryption_enabled {
                json_request(r, u, payload@)
            } else {
                match encryption_key {
                    None => r matches Err(CoreError::InvalidConfig(m)) && m@ == "Bark encryption is enabled but its key is missing"@,
                    Some(k) => if k@.len() == 0 {
                        r matches Err(CoreError::InvalidConfig(m)) && m@ == "Bark encryption is enabled but its key is missing"@
                    } else if vstd::utf8::encode_utf8(k@).len() != key_size(settings.encryption_algorithm@) {
                        r matches Err(CoreError::InvalidEncryptionKey)
                    } else {
                        form_request(r, u, payload@, k@, settings.encryption_algorithm@, Some(iv@))
                    },
                }
            },
        },
{
    let url = endpoint(settings.bark_server.as_str(), bark_key)?;
    if !settings.encryption_enabled {
        return Ok(BarkRequest { url, body: RequestBody::Json(payload) });
    }
    proof {
        reveal_strlit("");
    }
    let key: &str = match encryption_key {
        Some(k) => if same_text(k, "") {
            return Err(CoreError::InvalidConfig(owned("Bark encryption is enabled but its key is missing")));
        } else {
            assert(k@.len() != 0) by {
                if k@.len() == 0 {
                    assert(k@ =~= ""@);
                }
            }
            k
        },
        None => return Err(CoreError::InvalidConfig(owned("Bark encryption is enabled but its key is missing"))),
    };
    let form = encrypt_with_iv(&payload, key, settings.encryption_algorithm.as_str(), iv)?;
    Ok(BarkRequest { url, body: RequestBody::Form(form) })
}

/// The request that pushes `payload`; with encryption enabled the form is
/// encrypted under a fresh random initialization vector. See
/// `prepare_request_with_iv`.
pub fn prepare_request(payload: Json, settings: &AppSettings, bark_key: &str, encryption_key: Option<&str>) -> (r: CoreResult<BarkRequest>)
    ensures
        key_missing(bark_key@) ==> (r matches Err(CoreError::InvalidConfig(m)) && m@ == "Bark device key is missing"@),
        !key_missing(bark_key@) ==> match endpoint_spec(settings.bark_server@, bark_key@) {
            None => r matches Err(CoreError::InvalidBarkServer),
            Some(u) => if !settings.encryption_enabled {
                json_request(r, u, payload@)
            } else {
                match encryption_key {
                    None => r matches Err(CoreError::InvalidConfig(m)) && m@ == "Bark encryption is enabled but its key is missing"@,
                    Some(k) => if k@.len() == 0 {
                        r matches Err(CoreError::InvalidConfig(m)) && m@ == "Bark encryption is enabled but its key is missing"@
                    } else if vstd::utf8::encode_utf8(k@).len() != key_size(settings.encryption_algorithm@) {
                        r matches Err(CoreError::InvalidEncryptionKey)
                    } else {
                        form_request(r, u, payload@, k@, settings.encryption_algorithm@, None)
                    },
                }
            },
        },
{
    if settings.encryption_enabled {
        let iv = random_iv();
        prepare_request_with_iv(payload, settings, bark_key, encryption_key, iv.as_str())
    } else {
        prepare_request_with_iv(payload, settings, bark_key, encryption_key, "")
    }
}

} // verus!