//! The test client's side of the protocol: the headers that authenticate its
//! requests, how it reads and checks a host's HTTP answer, its key
//! SPAKE2 exchange under the pairing code, its key confirmation and the
//! decryption of the issued credential. Its sockets and credential file live
//! in the executable.

use vstd::prelude::*;
use vstd::string::{StrSliceExecFns, StringExecFns};
use vstd::utf8::{decode_utf8, valid_utf8};

use crate::auth::{
    auth_error_text, now_unix, random_nonce, sign, spec_request_tag, spec_response_tag, verify_response, AuthError,
};
use crate::client::{pairing_code_argument, without_whitespace};
use crate::crypto::{
    chacha20poly1305_open, hex_decode, hkdf_sha256_32, hmac_sha256, spake2_finish_a, spake2_start_a,
    spec_chacha20poly1305_open, spec_client_exchange, spec_edwards_point_decodes, spec_hex_decode,
    spec_hkdf_sha256, spec_hmac_sha256, spec_spake2_a_key, spec_spake2_a_message, spec_spake2_b_key,
    spec_spake2_b_message, ClientExchange,
};
use crate::decimal::{digit_char, digit_text, nat_text, std_parse_u16, u64_to_text};
use crate::http::{eq_ignore_ascii_case, is_unicode_whitespace, is_whitespace, parse_u16, trimmed, trim_end_index, trim_start_index, ascii_lower_code};
use crate::pairing::{
    client_identity, client_identity_bytes, code_password, confirmation_domain, confirmation_domain_bytes,
    confirmation_message, credential_aad, credential_info, credential_info_bytes, host_identity,
    host_identity_bytes, is_pairing_code, spec_credential_aad, CredentialContext, PendingView,
};
use crate::protocol::PairResponse;

verus! {

/// The lower-case hexadecimal digit of a value below sixteen.
pub open spec fn hex_digit_char(n: nat) -> char {
    if n < 10 {
        digit_char(n)
    } else if n == 10 {
        'a'
    } else if n == 11 {
        'b'
    } else if n == 12 {
        'c'
    } else if n == 13 {
        'd'
    } else if n == 14 {
        'e'
    } else {
        'f'
    }
}

/// `hex::encode`: two lower-case hexadecimal digits per byte, high first.
pub open spec fn hex_text(bytes: Seq<u8>) -> Seq<char> {
    Seq::new(
        2 * bytes.len(),
        |i: int|
            if i % 2 == 0 {
                hex_digit_char((bytes[i / 2] / 16) as nat)
            } else {
                hex_digit_char((bytes[i / 2] % 16) as nat)
            },
    )
}

fn hex_digit_text(n: u8) -> (text: &'static str)
    requires
        n < 16,
    ensures
        text@ == seq![hex_digit_char(n as nat)],
{
    if n < 10 {
        return digit_text(n as u32);
    }
    proof {
        reveal_strlit("a");
        reveal_strlit("b");
        reveal_strlit("c");
        reveal_strlit("d");
        reveal_strlit("e");
        reveal_strlit("f");
    }
    match n {
        10 => "a",
        11 => "b",
        12 => "c",
        13 => "d",
        14 => "e",
        _ => "f",
    }
}

/// The lower-case hexadecimal text of bytes.
pub fn hex_encode(bytes: &[u8]) -> (text: String)
    ensures
        text@ == hex_text(bytes@),
{
    let mut text = String::new();
    let mut i: usize = 0;
    while i < bytes.len()
        invariant
            i <= bytes@.len(),
            text@ == hex_text(bytes@.subrange(0, i as int)),
        decreases bytes.len() - i,
    {
        let b = bytes[i];
        let ghost before = text@;
        text.append(hex_digit_text(b / 16));
        text.append(hex_digit_text(b % 16));
        assert(text@ =~= hex_text(bytes@.subrange(0, i + 1))) by {
            let s = bytes@.subrange(0, i + 1);
            assert forall|k: int| 0 <= k < 2 * i implies #[trigger] hex_text(s)[k] == before[k] by {
                assert(s[k / 2] == bytes@.subrange(0, i as int)[k / 2]);
            }
        }
        i = i + 1;
    }
    assert(bytes@.subrange(0, i as int) =~= bytes@);
    text
}

/// What authenticates one request of the test client.
pub struct RequestAuthentication {
    pub headers: Vec<(String, String)>,
    pub credential: Vec<u8>,
    pub nonce: [u8; 16],
}

/// The authentication of a request on `path` with `body`, signed at
/// `timestamp` with `nonce` by the hex-encoded stored credential: the
/// timestamp, nonce and signature headers.
pub fn authentication_headers_at(
    path: &str,
    body: &[u8],
    credential_hex: &str,
    timestamp: u64,
    nonce: [u8; 16],
) -> (r: Result<RequestAuthentication, String>)
    ensures
        match spec_hex_decode(credential_hex@) {
            None => r matches Err(e) && e@ == "invalid stored credential"@,
            Some(credential) => match spec_request_tag(credential, timestamp, nonce@, "POST"@, path@, body@) {
                None => r matches Err(e) && e@ == auth_error_text(AuthError::Malformed),
                Some(tag) => r matches Ok(a) && {
                    &&& a.credential@ == credential
                    &&& a.nonce == nonce
                    &&& a.headers@.len() == 3
                    &&& a.headers@[0].0@ == "x-decky-timestamp"@
                    &&& a.headers@[0].1@ == nat_text(timestamp as nat)
                    &&& a.headers@[1].0@ == "x-decky-nonce"@
                    &&& a.headers@[1].1@ == hex_text(nonce@)
                    &&& a.headers@[2].0@ == "x-decky-signature"@
                    &&& a.headers@[2].1@ == hex_text(tag)
                },
            },
        },
{
    let credential = match hex_decode(credential_hex) {
        Some(credential) => credential,
        None => {
            return Err(String::from_str("invalid stored credential"));
        },
    };
    let signature = match sign(credential.as_slice(), timestamp, &nonce, "POST", path, body) {
        Ok(signature) => signature,
        Err(error) => {
            return Err(String::from_str(error.message()));
        },
    };
    let mut headers: Vec<(String, String)> = Vec::new();
    headers.push((String::from_str("x-decky-timestamp"), u64_to_text(timestamp)));
    headers.push((String::from_str("x-decky-nonce"), hex_encode(&nonce)));
    headers.push((String::from_str("x-decky-signature"), hex_encode(&signature)));
    Ok(RequestAuthentication { headers, credential, nonce })
}

/// The authentication of a request signed now with a fresh nonce.
pub fn authentication_headers(path: &str, body: &[u8], credential_hex: &str) -> (r: Result<
    RequestAuthentication,
    String,
>)
    ensures
        match spec_hex_decode(credential_hex@) {
            None => r matches Err(e) && e@ == "invalid stored credential"@,
            Some(credential) => if vstd::utf8::is_ascii_chars(path@) && path@.len() <= u16::MAX {
                r matches Ok(a) && {
                    &&& a.credential@ == credential
                    &&& a.headers@.len() == 3
                    &&& a.headers@[0].0@ == "x-decky-timestamp"@
                    &&& a.headers@[1].0@ == "x-decky-nonce"@
                    &&& a.headers@[1].1@ == hex_text(a.nonce@)
                    &&& a.headers@[2].0@ == "x-decky-signature"@
                    &&& exists|timestamp: u64|
                        #[trigger] nat_text(timestamp as nat) == a.headers@[0].1@ && (spec_request_tag(
                            credential,
                            timestamp,
                            a.nonce@,
                            "POST"@,
                            path@,
                            body@,
                        ) matches Some(tag) && a.headers@[2].1@ == hex_text(tag))
                }
            } else {
                r matches Err(e) && e@ == auth_error_text(AuthError::Malformed)
            },
        },
{
    let timestamp = now_unix();
    let nonce = random_nonce();
    proof {
        reveal_strlit("POST");
        assert(vstd::utf8::is_ascii_chars("POST"@));
    }
    let r = authentication_headers_at(path, body, credential_hex, timestamp, nonce);
    proof {
        if r is Ok {
            assert(nat_text(timestamp as nat) == r->Ok_0.headers@[0].1@);
        }
    }
    r
}

/// Index of the first `\r\n\r\n` at or after `from`, if any.
pub open spec fn blank_line_index(r: Seq<u8>, from: int) -> Option<int>
    decreases r.len() - from,
{
    if from < 0 || from + 4 > r.len() {
        None
    } else if r[from] == 13 && r[from + 1] == 10 && r[from + 2] == 13 && r[from + 3] == 10 {
        Some(from)
    } else {
        blank_line_index(r, from + 1)
    }
}

/// Index of the first `\n` at or after `from`, or the length.
pub open spec fn newline_index(s: Seq<char>, from: int) -> int
    decreases s.len() - from,
{
    if from < 0 || from >= s.len() {
        s.len() as int
    } else if s[from] == '\n' {
        from
    } else {
        newline_index(s, from + 1)
    }
}

/// The line that starts at `start`, as `str::lines` yields it: without its
/// `\n`, and without the `\r` before that `\n`.
pub open spec fn line_at(s: Seq<char>, start: int) -> Seq<char> {
    let e = newline_index(s, start);
    let raw = s.subrange(start, e);
    if e < s.len() && raw.len() > 0 && raw.last() == '\r' {
        raw.drop_last()
    } else {
        raw
    }
}

/// First index at or after `i` that is not whitespace, or the length.
pub open spec fn skip_space(s: Seq<char>, i: int) -> int
    decreases s.len() - i,
{
    if 0 <= i < s.len() && is_unicode_whitespace(s[i]) {
        skip_space(s, i + 1)
    } else {
        i
    }
}

/// First index at or after `i` that is whitespace, or the length.
pub open spec fn skip_word(s: Seq<char>, i: int) -> int
    decreases s.len() - i,
{
    if 0 <= i < s.len() && !is_unicode_whitespace(s[i]) {
        skip_word(s, i + 1)
    } else {
        i
    }
}

/// `split_whitespace().nth(1)`: the second whitespace-separated word.
pub open spec fn second_word(s: Seq<char>) -> Option<Seq<char>> {
    let a = skip_space(s, 0);
    let b = skip_word(s, a);
    let c = skip_space(s, b);
    let d = skip_word(s, c);
    if c < d {
        Some(s.subrange(c, d))
    } else {
        None
    }
}

/// The status code of a response head: the second word of its first line.
pub open spec fn head_status(head: Seq<char>) -> Option<u16> {
    if head.len() == 0 {
        None
    } else {
        match second_word(line_at(head, 0)) {
            Some(word) => std_parse_u16(word),
            None => None,
        }
    }
}

/// Index of the first `:` at or after `from`, or the length.
pub open spec fn colon_index(s: Seq<char>, from: int) -> int
    decreases s.len() - from,
{
    if from < 0 || from >= s.len() {
        s.len() as int
    } else if s[from] == ':' {
        from
    } else {
        colon_index(s, from + 1)
    }
}

/// The trimmed value of a `x-decky-response-signature` header line, in any
/// letter case of the name.
pub open spec fn signature_value(line: Seq<char>) -> Option<Seq<char>> {
    let c = colon_index(line, 0);
    if c < line.len() && eq_ignore_ascii_case(line.subrange(0, c), "x-decky-response-signature"@) {
        Some(trimmed(line.subrange(c + 1, line.len() as int)))
    } else {
        None
    }
}

/// The value of the first response-signature header among the lines that
/// start at or after `start`.
pub open spec fn signature_from(head: Seq<char>, start: int) -> Option<Seq<char>>
    decreases head.len() - start,
{
    if start < 0 || start >= head.len() {
        None
    } else {
        match signature_value(line_at(head, start)) {
            Some(v) => Some(v),
            None => if start <= newline_index(head, start) < head.len() {
                signature_from(head, newline_index(head, start) + 1)
            } else {
                None
            },
        }
    }
}

/// A host's answer, read and checked.
pub enum HostAnswer {
    Success { status: u16, body: Vec<u8> },
    Failure { status: u16, body: Vec<u8> },
}

/// What reading a response gives: whether it succeeded, its status and
/// body; or the error text.
pub open spec fn spec_read_response(
    response: Seq<u8>,
    path: Seq<char>,
    authentication: Option<(Seq<u8>, Seq<u8>)>,
) -> Result<(bool, u16, Seq<u8>), Seq<char>> {
    match blank_line_index(response, 0) {
        None => Err("malformed HTTP response"@),
        Some(h) => if !valid_utf8(response.subrange(0, h)) {
            Err("malformed HTTP headers"@)
        } else {
            let head = decode_utf8(response.subrange(0, h));
            match head_status(head) {
                None => Err("malformed HTTP status"@),
                Some(status) => {
                    let body = response.subrange(h + 4, response.len() as int);
                    let checked: Result<(), Seq<char>> = match authentication {
                        None => Ok(()),
                        Some((credential, nonce)) => match signature_from(head, 0) {
                            None => Err("host response authentication is missing"@),
                            Some(text) => match spec_hex_decode(text) {
                                None => Err("host response authentication is malformed"@),
                                Some(signature) => if spec_response_tag(credential, nonce, path, status, body)
                                    == Some(signature) {
                                    Ok(())
                                } else {
                                    Err("host response authentication failed"@)
                                },
                            },
                        },
                    };
                    match checked {
                        Err(e) => Err(e),
                        Ok(()) => Ok((200 <= status < 300, status, body)),
                    }
                },
            }
        },
    }
}

/// A response that is read and checked is a success exactly when its
/// status is in `200..300`, for every status, and the status and body read
/// are the head's status and the bytes after the blank line.
pub proof fn lemma_read_success_is_2xx(
    response: Seq<u8>,
    path: Seq<char>,
    authentication: Option<(Seq<u8>, Seq<u8>)>,
)
    ensures
        spec_read_response(response, path, authentication) matches Ok((success, status, body)) ==> {
            &&& success <==> (200 <= status && status < 300)
            &&& blank_line_index(response, 0) matches Some(h) && {
                &&& head_status(decode_utf8(response.subrange(0, h))) == Some(status)
                &&& body == response.subrange(h + 4, response.len() as int)
            }
        },
{
}

/// An authenticated response is read only when it carries a response
/// signature whose hex is the tag, under the credential, of the request's
/// nonce, the path, and the status and body that were read.
pub proof fn lemma_authenticated_responses_are_signed(
    response: Seq<u8>,
    path: Seq<char>,
    credential: Seq<u8>,
    nonce: Seq<u8>,
)
    ensures
        spec_read_response(response, path, Some((credential, nonce))) matches Ok((_, status, body)) ==> {
            &&& blank_line_index(response, 0) matches Some(h) && signature_from(
                decode_utf8(response.subrange(0, h)),
                0,
            ) matches Some(text) && spec_hex_decode(text) matches Some(signature) && spec_response_tag(
                credential,
                nonce,
                path,
                status,
                body,
            ) == Some(signature)
        },
{
}

/// Without authentication, a response whose head is valid text with a
/// status is always read, as a success or a failure by its status.
pub proof fn lemma_unauthenticated_responses_are_read(response: Seq<u8>, path: Seq<char>)
    requires
        blank_line_index(response, 0) matches Some(h) && valid_utf8(response.subrange(0, h)) && head_status(
            decode_utf8(response.subrange(0, h)),
        ) is Some,
    ensures
        spec_read_response(response, path, None) is Ok,
{
}

/// `std::str::from_utf8`, owned: the text of bytes that are valid UTF-8.
#[verifier::external_body]
fn utf8_text(bytes: &[u8]) -> (text: Option<String>)
    ensures
        match text {
            Some(t) => valid_utf8(bytes@) && t@ == decode_utf8(bytes@),
            None => !valid_utf8(bytes@),
        },
{
    std::str::from_utf8(bytes).ok().map(|t| t.to_owned())
}

proof fn lemma_blank_line_index(r: Seq<u8>, from: int)
    requires
        0 <= from,
    ensures
        blank_line_index(r, from) matches Some(h) ==> from <= h && h + 4 <= r.len(),
    decreases r.len() - from,
{
    if from + 4 <= r.len() && !(r[from] == 13 && r[from + 1] == 10 && r[from + 2] == 13 && r[from + 3] == 10) {
        lemma_blank_line_index(r, from + 1);
    }
}

fn find_blank_line(response: &[u8]) -> (index: Option<usize>)
    ensures
        match blank_line_index(response@, 0) {
            Some(h) => index matches Some(i) && i as int == h,
            None => index is None,
        },
        index matches Some(h) ==> h + 4 <= response.len(),
{
    proof {
        lemma_blank_line_index(response@, 0);
    }
    let n = response.len();
    let mut i: usize = 0;
    while i < n && n - i >= 4
        invariant
            n == response@.len(),
            i <= n,
            blank_line_index(response@, 0) == blank_line_index(response@, i as int),
        decreases n - i,
    {
        if response[i] == 13 && response[i + 1] == 10 && response[i + 2] == 13 && response[i + 3] == 10 {
            return Some(i);
        }
        i = i + 1;
    }
    None
}

proof fn lemma_newline_index(s: Seq<char>, from: int)
    requires
        0 <= from <= s.len(),
    ensures
        from <= newline_index(s, from) <= s.len(),
        newline_index(s, from) < s.len() ==> s[newline_index(s, from)] == '\n',
    decreases s.len() - from,
{
    if from < s.len() && s[from] != '\n' {
        lemma_newline_index(s, from + 1);
    }
}

fn find_newline(text: &str, from: usize) -> (index: usize)
    requires
        from <= text@.len(),
    ensures
        index == newline_index(text@, from as int),
        from <= index <= text@.len(),
{
    proof {
        lemma_newline_index(text@, from as int);
    }
    let n = text.unicode_len();
    let mut i = from;
    while i < n && text.get_char(i) != '\n'
        invariant
            n == text@.len(),
            from <= i <= n,
            newline_index(text@, from as int) == newline_index(text@, i as int),
        decreases n - i,
    {
        i = i + 1;
    }
    i
}

/// The bounds of the line that starts at `start`.
fn line_bounds(text: &str, start: usize) -> (bounds: (usize, usize))
    requires
        start <= text@.len(),
    ensures
        start <= bounds.1 <= text@.len(),
        start <= bounds.0 <= text@.len(),
        bounds.0 == newline_index(text@, start as int),
        text@.subrange(start as int, bounds.1 as int) == line_at(text@, start as int),
{
    let e = find_newline(text, start);
    let n = text.unicode_len();
    if e < n && e > start && text.get_char(e - 1) == '\r' {
        assert(text@.subrange(start as int, e - 1) =~= text@.subrange(start as int, e as int).drop_last());
        (e, e - 1)
    } else {
        (e, e)
    }
}

proof fn lemma_skip_space(s: Seq<char>, i: int)
    requires
        0 <= i <= s.len(),
    ensures
        i <= skip_space(s, i) <= s.len(),
    decreases s.len() - i,
{
    if i < s.len() && is_unicode_whitespace(s[i]) {
        lemma_skip_space(s, i + 1);
    }
}

proof fn lemma_skip_word(s: Seq<char>, i: int)
    requires
        0 <= i <= s.len(),
    ensures
        i <= skip_word(s, i) <= s.len(),
    decreases s.len() - i,
{
    if i < s.len() && !is_unicode_whitespace(s[i]) {
        lemma_skip_word(s, i + 1);
    }
}

fn skip_space_exec(line: &str, from: usize) -> (index: usize)
    requires
        from <= line@.len(),
    ensures
        index == skip_space(line@, from as int),
        from <= index <= line@.len(),
{
    proof {
        lemma_skip_space(line@, from as int);
    }
    let n = line.unicode_len();
    let mut i = from;
    while i < n && is_whitespace(line.get_char(i))
        invariant
            n == line@.len(),
            from <= i <= n,
            skip_space(line@, from as int) == skip_space(line@, i as int),
        decreases n - i,
    {
        i = i + 1;
    }
    i
}

fn skip_word_exec(line: &str, from: usize) -> (index: usize)
    requires
        from <= line@.len(),
    ensures
        index == skip_word(line@, from as int),
        from <= index <= line@.len(),
{
    proof {
        lemma_skip_word(line@, from as int);
    }
    let n = line.unicode_len();
    let mut i = from;
    while i < n && !is_whitespace(line.get_char(i))
        invariant
            n == line@.len(),
            from <= i <= n,
            skip_word(line@, from as int) == skip_word(line@, i as int),
        decreases n - i,
    {
        i = i + 1;
    }
    i
}

/// The status code of a response head.
fn read_status(head: &str) -> (status: Option<u16>)
    ensures
        status == head_status(head@),
{
    let n = head.unicode_len();
    if n == 0 {
        return None;
    }
    let (_, stop) = line_bounds(head, 0);
    let line = head.substring_char(0, stop);
    let a = skip_space_exec(line, 0);
    let b = skip_word_exec(line, a);
    let c = skip_space_exec(line, b);
    let d = skip_word_exec(line, c);
    if c < d {
        parse_u16(line.substring_char(c, d))
    } else {
        None
    }
}

proof fn lemma_colon_index(s: Seq<char>, from: int)
    requires
        0 <= from <= s.len(),
    ensures
        from <= colon_index(s, from) <= s.len(),
    decreases s.len() - from,
{
    if from < s.len() && s[from] != ':' {
        lemma_colon_index(s, from + 1);
    }
}

proof fn lemma_trim_indices(s: Seq<char>)
    ensures
        0 <= trim_start_index(s, 0) <= trim_end_index(s, trim_start_index(s, 0), s.len() as int) <= s.len(),
{
    lemma_trim_start(s, 0);
    lemma_trim_end(s, trim_start_index(s, 0), s.len() as int);
}

proof fn lemma_trim_start(s: Seq<char>, i: int)
    requires
        0 <= i <= s.len(),
    ensures
        i <= trim_start_index(s, i) <= s.len(),
    decreases s.len() - i,
{
    if i < s.len() && is_unicode_whitespace(s[i]) {
        lemma_trim_start(s, i + 1);
    }
}

proof fn lemma_trim_end(s: Seq<char>, low: int, j: int)
    requires
        0 <= low <= j <= s.len(),
    ensures
        low <= trim_end_index(s, low, j) <= j,
    decreases j - low,
{
    if low < j && is_unicode_whitespace(s[j - 1]) {
        lemma_trim_end(s, low, j - 1);
    }
}

/// `str::trim`.
fn trim_text(text: &str) -> (trimmed_text: &str)
    ensures
        trimmed_text@ == trimmed(text@),
{
    proof {
        lemma_trim_indices(text@);
    }
    let n = text.unicode_len();
    let mut start: usize = 0;
    while start < n && is_whitespace(text.get_char(start))
        invariant
            n == text@.len(),
            start <= n,
            trim_start_index(text@, 0) == trim_start_index(text@, start as int),
        decreases n - start,
    {
        start = start + 1;
    }
    let mut stop: usize = n;
    while stop > start && is_whitespace(text.get_char(stop - 1))
        invariant
            n == text@.len(),
            start <= stop <= n,
            start == trim_start_index(text@, 0),
            trim_end_index(text@, start as int, n as int) == trim_end_index(text@, start as int, stop as int),
        decreases stop - start,
    {
        stop = stop - 1;
    }
    text.substring_char(start, stop)
}

/// Whether a header name is `x-decky-response-signature` in any letter case.
fn is_signature_name(name: &str) -> (matches_name: bool)
    ensures
        matches_name == eq_ignore_ascii_case(name@, "x-decky-response-signature"@),
{
    let target = "x-decky-response-signature";
    proof {
        reveal_strlit("x-decky-response-signature");
    }
    let n = name.unicode_len();
    if n != target.unicode_len() {
        return false;
    }
    let mut i: usize = 0;
    while i < n
        invariant
            n == name@.len(),
            n == target@.len(),
            target@ == "x-decky-response-signature"@,
            i <= n,
            forall|k: int| 0 <= k < i ==> ascii_lower_code(#[trigger] name@[k]) == ascii_lower_code(target@[k]),
        decreases n - i,
    {
        let a = name.get_char(i);
        let b = target.get_char(i);
        let la: u32 = if 'A' <= a && a <= 'Z' {
            (a as u32) + 32
        } else {
            a as u32
        };
        let lb: u32 = if 'A' <= b && b <= 'Z' {
            (b as u32) + 32
        } else {
            b as u32
        };
        if la != lb {
            assert(ascii_lower_code(name@[i as int]) != ascii_lower_code(target@[i as int]));
            return false;
        }
        i = i + 1;
    }
    true
}

/// The value of the response-signature header of a line, if it is one.
fn line_signature(line: &str) -> (value: Option<String>)
    ensures
        match signature_value(line@) {
            Some(v) => value matches Some(t) && t@ == v,
            None => value is None,
        },
{
    proof {
        lemma_colon_index(line@, 0);
    }
    let n = line.unicode_len();
    let mut c: usize = 0;
    while c < n && line.get_char(c) != ':'
        invariant
            n == line@.len(),
            c <= n,
            colon_index(line@, 0) == colon_index(line@, c as int),
        decreases n - c,
    {
        c = c + 1;
    }
    if c >= n {
        return None;
    }
    if !is_signature_name(line.substring_char(0, c)) {
        return None;
    }
    Some(String::from_str(trim_text(line.substring_char(c + 1, n))))
}

/// The value of the first response-signature header of a response head.
fn find_signature(head: &str) -> (value: Option<String>)
    ensures
        match signature_from(head@, 0) {
            Some(v) => value matches Some(t) && t@ == v,
            None => value is None,
        },
{
    let n = head.unicode_len();
    let mut start: usize = 0;
    while start < n
        invariant
            n == head@.len(),
            start <= n,
            signature_from(head@, 0) == signature_from(head@, start as int),
        decreases n - start,
    {
        let (newline, stop) = line_bounds(head, start);
        match line_signature(head.substring_char(start, stop)) {
            Some(value) => {
                return Some(value);
            },
            None => {},
        }
        if newline >= n {
            return None;
        }
        start = newline + 1;
    }
    None
}

/// Reads a host's HTTP answer to a request on `path`. The head must end with
/// an empty line, be UTF-8 and name a status; for an authenticated request
/// the response signature over the request nonce, path, status and body must
/// verify under the credential. A status outside `200..300` is a failure
/// whose body holds the host's error.
pub fn read_response(response: &[u8], path: &str, authentication: Option<(&[u8], &[u8; 16])>) -> (r: Result<
    HostAnswer,
    String,
>)
    ensures
        ({
            let expected = spec_read_response(
                response@,
                path@,
                match authentication {
                    Some((credential, nonce)) => Some((credential@, nonce@)),
                    None => None,
                },
            );
            match expected {
                Err(e) => r matches Err(t) && t@ == e,
                Ok((success, status, body)) => r matches Ok(answer) && match answer {
                    HostAnswer::Success { status: s, body: b } => success && s == status && b@ == body,
                    HostAnswer::Failure { status: s, body: b } => !success && s == status && b@ == body,
                },
            }
        }),
{
    let h = match find_blank_line(response) {
        Some(h) => h,
        None => {
            return Err(String::from_str("malformed HTTP response"));
        },
    };
    let head_bytes = vstd::slice::slice_subrange(response, 0, h);
    let head = match utf8_text(head_bytes) {
        Some(head) => head,
        None => {
            return Err(String::from_str("malformed HTTP headers"));
        },
    };
    let status = match read_status(head.as_str()) {
        Some(status) => status,
        None => {
            return Err(String::from_str("malformed HTTP status"));
        },
    };
    let body = vstd::slice::slice_to_vec(vstd::slice::slice_subrange(response, h + 4, response.len()));
    match authentication {
        None => {},
        Some((credential, nonce)) => {
            let text = match find_signature(head.as_str()) {
                Some(text) => text,
                None => {
                    return Err(String::from_str("host response authentication is missing"));
                },
            };
            let signature = match hex_decode(text.as_str()) {
                Some(signature) => signature,
                None => {
                    return Err(String::from_str("host response authentication is malformed"));
                },
            };
            if verify_response(credential, nonce, path, status, body.as_slice(), signature.as_slice()).is_err() {
                return Err(String::from_str("host response authentication failed"));
            }
        },
    }
    if 200 <= status && status < 300 {
        Ok(HostAnswer::Success { status, body })
    } else {
        Ok(HostAnswer::Failure { status, body })
    }
}

/// Starts the test client's SPAKE2 exchange for the pairing code given to
/// `pair`: the code with whitespace removed must be six digits, and it is
/// the password of an exchange on side `A` between the client's and the
/// host's identities. Returns the exchange and the message to send.
pub fn start_client_pairing(code: Option<&str>) -> (r: Result<(ClientExchange, Vec<u8>), String>)
    ensures
        match code {
            None => r matches Err(e) && e@ == "pair requires --code"@,
            Some(c) => if is_pairing_code(without_whitespace(c@)) {
                r matches Ok((exchange, message)) && {
                    let (password, id_a, id_b, x) = spec_client_exchange(exchange);
                    &&& password == code_password(without_whitespace(c@))
                    &&& id_a == client_identity()
                    &&& id_b == host_identity()
                    &&& message@ == spec_spake2_a_message(password, id_a, id_b, x)
                    &&& message@.len() == 33
                    &&& message@[0] == 0x41u8
                }
            } else {
                r matches Err(e) && e@ == "pairing code must contain six digits"@
            },
        },
{
    let code = pairing_code_argument(code)?;
    let client_id = client_identity_bytes();
    let host_id = host_identity_bytes();
    Ok(spake2_start_a(code.as_str().as_bytes(), client_id.as_slice(), host_id.as_slice()))
}

/// Finishes the test client's SPAKE2 exchange with the host's message: the
/// shared key, or an error when the message is not a side `B` message whose
/// point decodes. When the host answered this exchange's message under the
/// same password and identities, the key is the one the host derived.
pub fn finish_client_pairing(exchange: ClientExchange, host_message: &[u8]) -> (r: Result<Vec<u8>, String>)
    ensures
        ({
            let (password, id_a, id_b, x) = spec_client_exchange(exchange);
            if host_message@.len() == 33 && host_message@[0] == 0x42u8 && spec_edwards_point_decodes(
                host_message@.subrange(1, 33),
            ) {
                r matches Ok(k) && {
                    &&& k@.len() == 32
                    &&& k@ == spec_spake2_a_key(password, id_a, id_b, host_message@, x)
                    &&& forall|y: Seq<u8>|
                        host_message@ == #[trigger] spec_spake2_b_message(password, id_a, id_b, y) ==> k@
                            == spec_spake2_b_key(password, id_a, id_b, spec_spake2_a_message(password, id_a, id_b, x), y)
                }
            } else {
                r matches Err(e) && e@ == "pairing exchange failed"@
            }
        }),
{
    match spake2_finish_a(exchange, host_message) {
        Some(key) => Ok(key),
        None => Err(String::from_str("pairing exchange failed")),
    }
}

/// The test client's key confirmation: the HMAC, under the SPAKE2 key, of
/// the host's confirmation domain, both SPAKE2 messages and the session id.
pub fn client_confirmation(
    shared: &[u8],
    client_message: &[u8],
    host_message: &[u8],
    session_id: &[u8],
) -> (r: Result<[u8; 32], String>)
    ensures
        r matches Ok(tag) && tag@ == spec_hmac_sha256(
            shared@,
            confirmation_domain() + client_message@ + host_message@ + session_id@,
        ),
{
    let mut message = confirmation_domain_bytes();
    message.extend_from_slice(client_message);
    message.extend_from_slice(host_message);
    message.extend_from_slice(session_id);
    assert(message@ =~= confirmation_domain() + client_message@ + host_message@ + session_id@);
    match hmac_sha256(shared, message.as_slice()) {
        Some(tag) => Ok(tag),
        None => Err(String::from_str("pairing confirmation failed")),
    }
}

/// The test client's confirmation over an exchange is the tag the host
/// checks for that exchange under the same SPAKE2 key: both use the host's
/// confirmation domain over the same messages and session id.
pub proof fn lemma_client_confirmation_is_the_host_check(shared: Seq<u8>, exchange: PendingView)
    ensures
        spec_hmac_sha256(
            shared,
            confirmation_domain() + exchange.client_message + exchange.host_message + exchange.session_id,
        ) == spec_hmac_sha256(shared, confirmation_message(exchange)),
{
}

/// The credential the host issued, decrypted with the key derived from the
/// SPAKE2 key and bound to the pairing answer's exchange and metadata.
pub fn decrypt_credential(shared: &[u8], paired: &PairResponse) -> (r: Result<[u8; 32], String>)
    requires
        paired.encryption_nonce@.len() == 12,
    ensures
        ({
            let key = spec_hkdf_sha256(shared@, credential_info());
            match spec_credential_aad(
                paired.host_spake2_message@,
                paired.session_id@,
                vstd::utf8::encode_utf8(paired.hostname@),
                vstd::utf8::encode_utf8(paired.host_version@),
                paired.protocol_version,
                vstd::utf8::encode_utf8(paired.host_id@),
            ) {
                None => r matches Err(e) && e@ == "host returned invalid pairing metadata"@,
                Some(aad) => match spec_chacha20poly1305_open(
                    key,
                    paired.encryption_nonce@,
                    paired.encrypted_credential@,
                    aad,
                ) {
                    None => r matches Err(e) && e@ == "the pairing code was rejected"@,
                    Some(p) => if p.len() == 32 {
                        r matches Ok(c) && c@ == p
                    } else {
                        r matches Err(e) && e@ == "host returned an invalid credential"@
                    },
                },
            }
        }),
{
    let info = credential_info_bytes();
    let key = match hkdf_sha256_32(shared, info.as_slice()) {
        Some(key) => key,
        None => {
            return Err(String::from_str("credential derivation failed"));
        },
    };
    let context = CredentialContext {
        hostname: paired.hostname.as_str(),
        host_version: paired.host_version.as_str(),
        protocol_version: paired.protocol_version,
        host_id: paired.host_id.as_str(),
    };
    let aad = match credential_aad(paired.host_spake2_message.as_slice(), paired.session_id.as_slice(), &context) {
        Ok(aad) => aad,
        Err(_) => {
            return Err(String::from_str("host returned invalid pairing metadata"));
        },
    };
    let mut nonce = [0_u8; 12];
    let mut k: usize = 0;
    while k < 12
        invariant
            k <= 12,
            paired.encryption_nonce@.len() == 12,
            nonce@.subrange(0, k as int) == paired.encryption_nonce@.subrange(0, k as int),
        decreases 12 - k,
    {
        nonce[k] = paired.encryption_nonce[k];
        assert(nonce@.subrange(0, k + 1) =~= paired.encryption_nonce@.subrange(0, k + 1));
        k = k + 1;
    }
    assert(nonce@ =~= paired.encryption_nonce@.subrange(0, 12));
    assert(paired.encryption_nonce@.subrange(0, 12) =~= paired.encryption_nonce@);
    let plaintext = match chacha20poly1305_open(&key, &nonce, paired.encrypted_credential.as_slice(), aad.as_slice()) {
        Some(plaintext) => plaintext,
        None => {
            return Err(String::from_str("the pairing code was rejected"));
        },
    };
    if plaintext.len() != 32 {
        return Err(String::from_str("host returned an invalid credential"));
    }
    let mut credential = [0_u8; 32];
    let mut i: usize = 0;
    while i < 32
        invariant
            i <= 32,
            plaintext@.len() == 32,
            credential@.subrange(0, i as int) == plaintext@.subrange(0, i as int),
        decreases 32 - i,
    {
        credential[i] = plaintext[i];
        assert(credential@.subrange(0, i + 1) =~= plaintext@.subrange(0, i + 1));
        i = i + 1;
    }
    assert(credential@ =~= credential@.subrange(0, 32));
    assert(plaintext@ =~= plaintext@.subrange(0, 32));
    Ok(credential)
}

} // verus!
