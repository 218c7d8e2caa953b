//! The blocking HTTP/1.1 wire: endpoints, request heads, and the parsing that
//! decides when a response is complete and what its body is.
//!
//! A keep-alive server never closes the connection, so completion is decided
//! at the protocol's own body boundary (`Content-Length` or the terminating
//! chunk). Everything here works on bytes already read; the socket itself is
//! driven by the caller.
use vstd::prelude::*;
use vstd::utf8::{decode_utf8, encode_utf8, valid_utf8};
use crate::text::{
    chars_of, copy_range, decimal, digit_of, digits_value, eq_ic, find_char, find_char_from, find_char_in, line_at,
    line_bounds, line_end, lemma_line_bounds, lemma_find_char_from, lemma_utf8_len_bound,
    lower_starts_with, next_line, nth_token, nth_token_exec, parse_uint, parse_uint_range,
    push_char, push_decimal, push_str, range_eq_ic, range_lower_starts_with, str_from_utf8, utf8_error_text,
    string_of, string_of_range, trim, trim_range,
};

verus! {

/// Where a request goes, and how it authenticates.
///
/// An unauthenticated loopback server needs no credential; the background
/// service demands HTTP Basic, precomputed once here as the whole header value.
#[derive(Clone, Debug, PartialEq, Eq)]
pub struct Endpoint {
    pub host: String,
    pub port: u16,
    pub auth: Option<String>,
}

/// Why an endpoint could not be built from a registration URL.
#[derive(Clone, Debug, PartialEq, Eq)]
pub enum EndpointError {
    /// The URL does not parse.
    InvalidUrl(String),
    /// The URL parses but names no host.
    NoHost(String),
    /// The URL has neither an explicit port nor a scheme with a known one.
    NoPort(String),
}

/// What the `url` crate reports of a URL string: `None` when it does not
/// parse, otherwise its host (`Url::host_str`) and its port
/// (`Url::port_or_known_default`).
pub uninterp spec fn url_host_port(url: Seq<char>) -> Option<(Option<Seq<char>>, Option<u16>)>;

/// The standard, padded base64 encoding of some bytes.
pub uninterp spec fn base64_standard(bytes: Seq<u8>) -> Seq<char>;

/// Parses `url` with `url::Url::parse` and reports `Url::host_str` and
/// `Url::port_or_known_default`. The contract ties the whole answer to the
/// input string through `url_host_port`; what that answer is for a given URL
/// is left to the `url` crate and not stated here.
#[verifier::external_body]
fn parse_url_host_port(url: &str) -> (r: Option<(Option<String>, Option<u16>)>)
    ensures
        match url_host_port(url@) {
            None => r is None,
            Some((host, port)) => r matches Some((h, p)) && p == port && match host {
                None => h is None,
                Some(hs) => h matches Some(hv) && hv@ == hs,
            },
        },
{
    url::Url::parse(url).ok().map(|parsed| (parsed.host_str().map(str::to_owned), parsed.port_or_known_default()))
}

/// Encodes bytes with `base64::engine::general_purpose::STANDARD`
/// (`Engine::encode`). The result is named, not described; the length bound
/// keeps the crate's encoded-length computation from overflowing, where it
/// panics.
#[verifier::external_body]
fn encode_base64_standard(bytes: &[u8]) -> (r: String)
    requires
        bytes@.len() <= usize::MAX / 2,
    ensures
        r@ == base64_standard(bytes@),
{
    base64::Engine::encode(&base64::engine::general_purpose::STANDARD, bytes)
}

pub open spec fn loopback() -> Seq<char> {
    seq!['1', '2', '7', '.', '0', '.', '0', '.', '1']
}

/// `Basic <base64(user:password)>`, the header value Basic authentication sends.
pub open spec fn basic_credential(user: Seq<char>, password: Seq<char>) -> Seq<char> {
    seq!['B', 'a', 's', 'i', 'c', ' '] + base64_standard(
        encode_utf8(user + seq![':'] + password),
    )
}

/// `host:port`.
pub open spec fn address_of(host: Seq<char>, port: u16) -> Seq<char> {
    host + seq![':'] + decimal(port as nat)
}

impl Endpoint {
    /// An unauthenticated loopback server.
    pub fn local(port: u16) -> (r: Endpoint)
        ensures
            r.host@ == loopback(),
            r.port == port,
            r.auth is None,
    {
        let host = string_of("127.0.0.1");
        proof {
            reveal_strlit("127.0.0.1");
        }
        Endpoint { host, port, auth: None }
    }

    /// Parses a registration URL and precomputes its Basic credential.
    pub fn basic(url: &str, user: &str, password: &str) -> (r: Result<Endpoint, EndpointError>)
        requires
            user@.len() + password@.len() < usize::MAX / 16,
        ensures
            match url_host_port(url@) {
                None => r matches Err(EndpointError::InvalidUrl(u)) && u@ == url@,
                Some((None, _)) => r matches Err(EndpointError::NoHost(u)) && u@ == url@,
                Some((Some(_), None)) => r matches Err(EndpointError::NoPort(u)) && u@ == url@,
                Some((Some(host), Some(port))) => r matches Ok(e) && e.host@ == host && e.port
                    == port && (e.auth matches Some(a) && a@ == basic_credential(user@, password@)),
            },
    {
        let parsed = parse_url_host_port(url);
        let (host, port) = match parsed {
            None => return Err(EndpointError::InvalidUrl(string_of(url))),
            Some(pair) => pair,
        };
        let host = match host {
            None => return Err(EndpointError::NoHost(string_of(url))),
            Some(h) => h,
        };
        let port = match port {
            None => return Err(EndpointError::NoPort(string_of(url))),
            Some(p) => p,
        };
        let mut joined = string_of(user);
        push_char(&mut joined, ':');
        push_str(&mut joined, password);
        assert(joined@ =~= user@ + seq![':'] + password@);
        let bytes = joined.as_str().as_bytes();
        assert(bytes@ == encode_utf8(joined@));
        proof {
            lemma_utf8_len_bound(joined@);
        }
        let credential = encode_base64_standard(bytes);
        let mut auth = string_of("Basic ");
        proof {
            reveal_strlit("Basic ");
        }
        push_str(&mut auth, credential.as_str());
        assert(auth@ =~= basic_credential(user@, password@));
        Ok(Endpoint { host, port, auth: Some(auth) })
    }

    /// `host:port`, as a request's `Host` header and a socket address name it.
    pub fn address(&self) -> (r: String)
        ensures
            r@ == address_of(self.host@, self.port),
    {
        let mut r = string_of(self.host.as_str());
        push_char(&mut r, ':');
        push_decimal(&mut r, self.port as u64);
        r
    }
}


/// Why a response could not be read.
#[derive(Debug)]
pub enum WireError {
    /// No blank line ends the head: "OpenCode returned an invalid HTTP response".
    InvalidResponse,
    /// The head, or a chunk-size line, is not UTF-8; carries the decoder's text.
    InvalidUtf8(String),
    /// The status line has no numeric status: "OpenCode returned an invalid HTTP status".
    InvalidStatus,
    /// "OpenCode returned an invalid HTTP content length".
    InvalidContentLength,
    /// "OpenCode returned an invalid HTTP chunk size".
    InvalidChunkSize,
    /// A chunk is not followed by CRLF, or the chunk stream has no size line:
    /// "OpenCode returned an invalid chunked response".
    InvalidChunked,
    /// "OpenCode returned a truncated HTTP chunk".
    TruncatedChunk,
    /// A complete response whose status is outside 200..300, with its body.
    Status { status: u16, body: Vec<u8> },
    /// A chunk size within two of `usize::MAX`, on which the size arithmetic
    /// overflows. Only the overflow probes answer this.
    SizeOverflow,
}

/// `WireError` as the specifications speak of it.
pub enum WireFault {
    InvalidResponse,
    InvalidUtf8(Seq<char>),
    InvalidStatus,
    InvalidContentLength,
    InvalidChunkSize,
    InvalidChunked,
    TruncatedChunk,
    Status(u16, Seq<u8>),
    SizeOverflow,
}

impl WireError {
    pub open spec fn fault(&self) -> WireFault {
        match self {
            WireError::InvalidResponse => WireFault::InvalidResponse,
            WireError::InvalidUtf8(m) => WireFault::InvalidUtf8(m@),
            WireError::InvalidStatus => WireFault::InvalidStatus,
            WireError::InvalidContentLength => WireFault::InvalidContentLength,
            WireError::InvalidChunkSize => WireFault::InvalidChunkSize,
            WireError::InvalidChunked => WireFault::InvalidChunked,
            WireError::TruncatedChunk => WireFault::TruncatedChunk,
            WireError::Status { status, body } => WireFault::Status(*status, body@),
            WireError::SizeOverflow => WireFault::SizeOverflow,
        }
    }
}

pub open spec fn bool_outcome(r: Result<bool, WireError>) -> Result<bool, WireFault> {
    match r {
        Ok(b) => Ok(b),
        Err(e) => Err(e.fault()),
    }
}

pub open spec fn bytes_outcome(r: Result<Vec<u8>, WireError>) -> Result<Seq<u8>, WireFault> {
    match r {
        Ok(b) => Ok(b@),
        Err(e) => Err(e.fault()),
    }
}

pub open spec fn crlf() -> Seq<u8> {
    seq![13u8, 10u8]
}

pub open spec fn blank_line() -> Seq<u8> {
    seq![13u8, 10u8, 13u8, 10u8]
}

/// The first index at or after `i` where `p` occurs in `s`, as
/// `windows(p.len()).position(..)` finds it.
pub open spec fn find_bytes_from(s: Seq<u8>, p: Seq<u8>, i: int) -> Option<int>
    decreases s.len() + 1 - i,
{
    if i < 0 || i + p.len() > s.len() {
        None
    } else if s.subrange(i, i + p.len()) == p {
        Some(i)
    } else {
        find_bytes_from(s, p, i + 1)
    }
}

pub proof fn lemma_find_bytes_from(s: Seq<u8>, p: Seq<u8>, i: int)
    ensures
        find_bytes_from(s, p, i) matches Some(k) ==> 0 <= i <= k && k + p.len() <= s.len()
            && s.subrange(k, k + p.len()) == p,
    decreases s.len() + 1 - i,
{
    if !(i < 0 || i + p.len() > s.len()) && s.subrange(i, i + p.len()) != p {
        lemma_find_bytes_from(s, p, i + 1);
    }
}

fn bytes_at(s: &[u8], i: usize, p: &[u8]) -> (r: bool)
    requires
        i + p@.len() <= s@.len(),
    ensures
        r == (s@.subrange(i as int, i + p@.len()) == p@),
{
    let n = s.len();
    let mut j: usize = 0;
    while j < p.len()
        invariant
            n == s@.len(),
            i + p@.len() <= s@.len(),
            0 <= j <= p@.len(),
            forall|k: int| 0 <= k < j ==> s@[i + k] == p@[k],
        decreases p@.len() - j,
    {
        if s[i + j] != p[j] {
            assert(s@.subrange(i as int, i + p@.len())[j as int] != p@[j as int]);
            return false;
        }
        j = j + 1;
    }
    assert(s@.subrange(i as int, i + p@.len()) =~= p@);
    true
}

fn find_bytes(s: &[u8], start: usize, p: &[u8]) -> (r: Option<usize>)
    requires
        p@.len() > 0,
    ensures
        r matches Some(k) ==> find_bytes_from(s@, p@, start as int) == Some(k as int),
        r is None ==> find_bytes_from(s@, p@, start as int) is None,
{
    let mut i = start;
    while i <= s.len() && s.len() - i >= p.len()
        invariant
            start <= i,
            p@.len() > 0,
            find_bytes_from(s@, p@, start as int) == find_bytes_from(s@, p@, i as int),
        decreases s@.len() - i,
    {
        if bytes_at(s, i, p) {
            return Some(i);
        }
        i = i + 1;
    }
    None
}

/// The header named `name` (ASCII case ignored) among the lines after the
/// first one at or after `i`: the trimmed text after the first `:` of the
/// first line whose text before that `:` is the name.
pub open spec fn header_value_from(h: Seq<char>, i: int, name: Seq<char>) -> Option<Seq<char>>
    decreases h.len() + 1 - i,
{
    if i < 0 || i >= h.len() {
        None
    } else {
        let line = line_at(h, i);
        match find_char(line, ':') {
            Some(k) if eq_ic(line.take(k), name) => Some(trim(line.skip(k + 1))),
            _ => {
                proof {
                    lemma_line_bounds(h, i);
                }
                header_value_from(h, next_line(h, i), name)
            },
        }
    }
}

/// What `header_value` answers: the value of the first header line (the
/// status line is skipped) whose name is `name`, ignoring ASCII case.
pub open spec fn spec_header_value(h: Seq<char>, name: Seq<char>) -> Option<Seq<char>> {
    if h.len() == 0 {
        None
    } else {
        header_value_from(h, next_line(h, 0), name)
    }
}

/// Finds a header's value in `h`, answering its bounds.
fn header_value_range(h: &Vec<char>, name: &Vec<char>) -> (r: Option<(usize, usize)>)
    ensures
        match spec_header_value(h@, name@) {
            Some(v) => r matches Some((a, b)) && a <= b <= h@.len() && h@.subrange(
                a as int,
                b as int,
            ) == v,
            None => r is None,
        },
{
    if h.len() == 0 {
        return None;
    }
    let (_, first_break) = line_bounds(h, 0);
    if first_break >= h.len() {
        return None;
    }
    let mut i = first_break + 1;
    while i < h.len()
        invariant
            i <= h@.len(),
            h@.len() > 0,
            spec_header_value(h@, name@) == header_value_from(h@, i as int, name@),
        decreases h@.len() - i,
    {
        let (end, brk) = line_bounds(h, i);
        let ghost line = line_at(h@, i as int);
        assert(line == h@.subrange(i as int, end as int));
        match find_char_in(h, i, end, ':') {
            Some(colon) => {
                assert(line.take(colon - i) =~= h@.subrange(i as int, colon as int));
                assert(line.skip(colon - i + 1) =~= h@.subrange(colon + 1, end as int));
                assert(find_char(line, ':') == Some(colon - i));
                if range_eq_ic(h, i, colon, name) {
                    let (a, b) = trim_range(h, colon + 1, end);
                    assert(header_value_from(h@, i as int, name@) == Some(
                        trim(line.skip(colon - i + 1)),
                    ));
                    return Some((a, b));
                }
                assert(header_value_from(h@, i as int, name@) == header_value_from(
                    h@,
                    next_line(h@, i as int),
                    name@,
                ));
            },
            None => {
                assert(header_value_from(h@, i as int, name@) == header_value_from(
                    h@,
                    next_line(h@, i as int),
                    name@,
                ));
            },
        }
        assert(next_line(h@, i as int) == brk + 1);
        if brk >= h.len() {
            return None;
        }
        i = brk + 1;
    }
    None
}

/// The value of the header `name` in a response head, ignoring ASCII case,
/// trimmed; the first line (the status line) is never a header.
pub fn header_value(headers: &str, name: &str) -> (r: Option<String>)
    ensures
        match spec_header_value(headers@, name@) {
            Some(v) => r matches Some(s) && s@ == v,
            None => r is None,
        },
{
    let h = chars_of(headers);
    let n = chars_of(name);
    match header_value_range(&h, &n) {
        Some((a, b)) => Some(string_of_range(&h, a, b)),
        None => None,
    }
}

/// The status code of a head: the second white-space separated token of its
/// first line, read as a `u16`.
pub open spec fn spec_status(h: Seq<char>) -> Option<nat> {
    if h.len() == 0 {
        None
    } else {
        match nth_token(h, 0, line_end(h, 0), 1) {
            Some((a, b)) => parse_uint(h.subrange(a, b), 10, 65535),
            None => None,
        }
    }
}

fn status_of(h: &Vec<char>) -> (r: Option<u16>)
    ensures
        match spec_status(h@) {
            Some(s) => r == Some(s as u16),
            None => r is None,
        },
{
    if h.len() == 0 {
        return None;
    }
    proof {
        lemma_line_bounds(h@, 0);
    }
    let (end, _) = line_bounds(h, 0);
    match nth_token_exec(h, 0, end, 1) {
        Some((a, b)) => match parse_uint_range(h, a, b, 10, 65535) {
            Some(n) => {
                let ghost v = parse_uint(h@.subrange(a as int, b as int), 10, 65535)->0;
                assert(n == v);
                assert(v <= 65535);
                assert(spec_status(h@) == Some(v));
                Some(n as u16)
            },
            None => None,
        },
        None => None,
    }
}


pub open spec fn chunked_word() -> Seq<char> {
    seq!['c', 'h', 'u', 'n', 'k', 'e', 'd']
}

pub open spec fn transfer_encoding() -> Seq<char> {
    seq!['t', 'r', 'a', 'n', 's', 'f', 'e', 'r', '-', 'e', 'n', 'c', 'o', 'd', 'i', 'n', 'g']
}

pub open spec fn content_length() -> Seq<char> {
    seq!['c', 'o', 'n', 't', 'e', 'n', 't', '-', 'l', 'e', 'n', 'g', 't', 'h']
}

/// `transfer-encoding: chunked`, the line prefix that marks a chunked body.
pub open spec fn chunked_line() -> Seq<char> {
    transfer_encoding() + seq![':', ' '] + chunked_word()
}

fn chunked_word_exec() -> (r: Vec<char>)
    ensures
        r@ == chunked_word(),
{
    let r = chars_of("chunked");
    proof {
        reveal_strlit("chunked");
    }
    assert(r@ =~= chunked_word());
    r
}

fn transfer_encoding_exec() -> (r: Vec<char>)
    ensures
        r@ == transfer_encoding(),
{
    let r = chars_of("transfer-encoding");
    proof {
        reveal_strlit("transfer-encoding");
    }
    assert(r@ =~= transfer_encoding());
    r
}

fn content_length_exec() -> (r: Vec<char>)
    ensures
        r@ == content_length(),
{
    let r = chars_of("content-length");
    proof {
        reveal_strlit("content-length");
    }
    assert(r@ =~= content_length());
    r
}

fn chunked_line_exec() -> (r: Vec<char>)
    ensures
        r@ == chunked_line(),
{
    let r = chars_of("transfer-encoding: chunked");
    proof {
        reveal_strlit("transfer-encoding: chunked");
    }
    assert(r@ =~= chunked_line());
    r
}

/// Whether one of the comma-separated codings of `v`, from `i` on, is
/// `chunked` (trimmed, ASCII case ignored).
pub open spec fn any_chunked_from(v: Seq<char>, i: int) -> bool
    decreases v.len() + 1 - i,
{
    if i < 0 || i > v.len() {
        false
    } else {
        match find_char_from(v, ',', i) {
            Some(k) => {
                proof {
                    lemma_find_char_from(v, ',', i);
                }
                eq_ic(trim(v.subrange(i, k)), chunked_word()) || any_chunked_from(v, k + 1)
            },
            None => eq_ic(trim(v.subrange(i, v.len() as int)), chunked_word()),
        }
    }
}

fn any_chunked(v: &Vec<char>) -> (r: bool)
    ensures
        r == any_chunked_from(v@, 0),
{
    let word = chunked_word_exec();
    let vlen = v.len();
    let mut i: usize = 0;
    loop
        invariant
            vlen == v@.len(),
            i <= v@.len(),
            word@ == chunked_word(),
            any_chunked_from(v@, 0) == any_chunked_from(v@, i as int),
        decreases v@.len() - i,
    {
        proof {
            lemma_find_char_from(v@, ',', i as int);
        }
        match crate::text::find_char_after(v, i, ',') {
            Some(k) => {
                let (a, b) = trim_range(v, i, k);
                if range_eq_ic(v, a, b, &word) {
                    return true;
                }
                i = k + 1;
            },
            None => {
                let (a, b) = trim_range(v, i, v.len());
                return range_eq_ic(v, a, b, &word);
            },
        }
    }
}

/// Whether a header names `chunked` among its transfer codings.
pub open spec fn te_chunked(h: Seq<char>) -> bool {
    match spec_header_value(h, transfer_encoding()) {
        Some(v) => any_chunked_from(v, 0),
        None => false,
    }
}

/// A chunk-size line read the way the chunked reader reads it: UTF-8, the
/// part before any `;` extension, trimmed, in hexadecimal.
pub enum SizeLine {
    BadUtf8,
    BadSize,
    Size(nat),
}

pub open spec fn before_semicolon(t: Seq<char>) -> Seq<char> {
    match find_char(t, ';') {
        Some(k) => t.take(k),
        None => t,
    }
}

pub open spec fn size_line(line: Seq<u8>) -> SizeLine {
    if !valid_utf8(line) {
        SizeLine::BadUtf8
    } else {
        match parse_uint(trim(before_semicolon(decode_utf8(line))), 16, usize::MAX as nat) {
            Some(n) => SizeLine::Size(n),
            None => SizeLine::BadSize,
        }
    }
}

fn size_at(b: &[u8], p: usize, le: usize) -> (r: Result<usize, WireError>)
    requires
        p <= le <= b@.len(),
    ensures
        match size_line(b@.subrange(p as int, le as int)) {
            SizeLine::BadUtf8 => r matches Err(WireError::InvalidUtf8(m)) && m@ == utf8_error_text(
                b@.subrange(p as int, le as int),
            ),
            SizeLine::BadSize => r matches Err(WireError::InvalidChunkSize),
            SizeLine::Size(n) => r matches Ok(m) && m == n,
        },
{
    let line = &b[p..le];
    let text = match str_from_utf8(line) {
        Ok(text) => text,
        Err(message) => return Err(WireError::InvalidUtf8(message)),
    };
    let t = chars_of(text);
    let end = match find_char_in(&t, 0, t.len(), ';') {
        Some(k) => {
            assert(t@.subrange(0, t@.len() as int) =~= t@);
            assert(t@.take(k as int) =~= t@.subrange(0, k as int));
            k
        },
        None => {
            assert(t@.subrange(0, t@.len() as int) =~= t@);
            t.len()
        },
    };
    assert(t@.subrange(0, end as int) == before_semicolon(t@));
    let (a, z) = trim_range(&t, 0, end);
    match parse_uint_range(&t, a, z, 16, usize::MAX as u64) {
        Some(n) => Ok(n as usize),
        None => Err(WireError::InvalidChunkSize),
    }
}

/// Whether the chunked body from `p` on has reached its terminating chunk.
pub open spec fn chunked_complete_from(b: Seq<u8>, p: int) -> Result<bool, WireFault>
    decreases b.len() + 1 - p,
{
    if p < 0 || p > b.len() {
        Ok(false)
    } else {
        match find_bytes_from(b, crlf(), p) {
            None => Ok(false),
            Some(le) => match size_line(b.subrange(p, le)) {
                SizeLine::BadUtf8 => Err(WireFault::InvalidUtf8(utf8_error_text(b.subrange(p, le)))),
                SizeLine::BadSize => Err(WireFault::InvalidChunkSize),
                SizeLine::Size(n) => {
                    let q = le + 2;
                    if n == 0 {
                        Ok(true)
                    } else if n + 2 > usize::MAX {
                        Err(WireFault::SizeOverflow)
                    } else if b.len() - q < n + 2 {
                        Ok(false)
                    } else if b.subrange(q + n, q + n + 2) != crlf() {
                        Err(WireFault::InvalidChunked)
                    } else {
                        proof {
                            lemma_find_bytes_from(b, crlf(), p);
                        }
                        chunked_complete_from(b, q + n + 2)
                    }
                },
            },
        }
    }
}

fn crlf_exec() -> (r: [u8; 2])
    ensures
        r@ == crlf(),
{
    let r = [13u8, 10u8];
    assert(r@ =~= crlf());
    r
}

fn chunked_complete_walk(b: &[u8]) -> (r: Result<bool, WireError>)
    ensures
        bool_outcome(r) == chunked_complete_from(b@, 0),
{
    let crlf_bytes = crlf_exec();
    let n = b.len();
    let mut p: usize = 0;
    loop
        invariant
            n == b@.len(),
            p <= b@.len(),
            crlf_bytes@ == crlf(),
            chunked_complete_from(b@, 0) == chunked_complete_from(b@, p as int),
        decreases b@.len() - p,
    {
        proof {
            lemma_find_bytes_from(b@, crlf(), p as int);
        }
        let le = match find_bytes(b, p, &crlf_bytes) {
            Some(le) => le,
            None => return Ok(false),
        };
        let size = match size_at(b, p, le) {
            Ok(size) => size,
            Err(e) => return Err(e),
        };
        let q = le + 2;
        if size == 0 {
            return Ok(true);
        }
        if size > usize::MAX - 2 {
            return Err(WireError::SizeOverflow);
        }
        if n - q < size + 2 {
            return Ok(false);
        }
        if !(b[q + size] == 13u8 && b[q + size + 1] == 10u8) {
            assert(b@.subrange(q + size, q + size + 2) != crlf()) by {
                if b@.subrange(q + size, q + size + 2) == crlf() {
                    assert(b@.subrange(q + size, q + size + 2)[0] == b@[q + size]);
                    assert(b@.subrange(q + size, q + size + 2)[1] == b@[q + size + 1]);
                }
            }
            return Err(WireError::InvalidChunked);
        }
        assert(b@.subrange(q + size, q + size + 2) =~= crlf());
        p = q + size + 2;
    }
}

/// Whether a response head announces a chunked body, from line `i` on:
/// some line, ASCII-lowercased, begins with `transfer-encoding: chunked`.
pub open spec fn any_line_chunked_from(h: Seq<char>, i: int) -> bool
    decreases h.len() + 1 - i,
{
    if i < 0 || i >= h.len() {
        false
    } else {
        proof {
            lemma_line_bounds(h, i);
        }
        lower_starts_with(line_at(h, i), chunked_line()) || any_line_chunked_from(
            h,
            next_line(h, i),
        )
    }
}

fn any_line_chunked(h: &Vec<char>) -> (r: bool)
    ensures
        r == any_line_chunked_from(h@, 0),
{
    let pattern = chunked_line_exec();
    let mut i: usize = 0;
    while i < h.len()
        invariant
            i <= h@.len(),
            pattern@ == chunked_line(),
            any_line_chunked_from(h@, 0) == any_line_chunked_from(h@, i as int),
        decreases h@.len() - i,
    {
        let (end, brk) = line_bounds(h, i);
        assert(line_at(h@, i as int) == h@.subrange(i as int, end as int));
        if range_lower_starts_with(h, i, end, &pattern) {
            return true;
        }
        assert(any_line_chunked_from(h@, i as int) == any_line_chunked_from(
            h@,
            next_line(h@, i as int),
        ));
        if brk >= h.len() {
            return false;
        }
        i = brk + 1;
    }
    false
}

/// The body of a chunked stream from `p` on, with its framing removed.
pub open spec fn dechunk_from(b: Seq<u8>, p: int) -> Result<Seq<u8>, WireFault>
    decreases b.len() + 1 - p,
{
    if p < 0 || p > b.len() {
        Err(WireFault::InvalidChunked)
    } else {
        match find_bytes_from(b, crlf(), p) {
            None => Err(WireFault::InvalidChunked),
            Some(le) => match size_line(b.subrange(p, le)) {
                SizeLine::BadUtf8 => Err(WireFault::InvalidUtf8(utf8_error_text(b.subrange(p, le)))),
                SizeLine::BadSize => Err(WireFault::InvalidChunkSize),
                SizeLine::Size(n) => {
                    let q = le + 2;
                    if n == 0 {
                        Ok(Seq::empty())
                    } else if n + 2 > usize::MAX {
                        Err(WireFault::SizeOverflow)
                    } else if b.len() - q < n + 2 || b.subrange(q + n, q + n + 2) != crlf() {
                        Err(WireFault::TruncatedChunk)
                    } else {
                        proof {
                            lemma_find_bytes_from(b, crlf(), p);
                        }
                        match dechunk_from(b, q + n + 2) {
                            Ok(rest) => Ok(b.subrange(q, q + n) + rest),
                            Err(e) => Err(e),
                        }
                    }
                },
            },
        }
    }
}

pub open spec fn prepend_bytes(out: Seq<u8>, r: Result<Seq<u8>, WireFault>) -> Result<
    Seq<u8>,
    WireFault,
> {
    match r {
        Ok(rest) => Ok(out + rest),
        Err(e) => Err(e),
    }
}

fn dechunk_walk(b: &[u8]) -> (r: Result<Vec<u8>, WireError>)
    ensures
        bytes_outcome(r) == dechunk_from(b@, 0),
{
    let crlf_bytes = crlf_exec();
    let n = b.len();
    let mut p: usize = 0;
    let mut out: Vec<u8> = Vec::new();
    assert(prepend_bytes(out@, dechunk_from(b@, 0)) =~= dechunk_from(b@, 0)) by {
        match dechunk_from(b@, 0) {
            Ok(x) => assert(Seq::<u8>::empty() + x =~= x),
            Err(_) => {},
        }
    }
    loop
        invariant
            n == b@.len(),
            p <= b@.len(),
            crlf_bytes@ == crlf(),
            dechunk_from(b@, 0) == prepend_bytes(out@, dechunk_from(b@, p as int)),
        decreases b@.len() - p,
    {
        proof {
            lemma_find_bytes_from(b@, crlf(), p as int);
        }
        let le = match find_bytes(b, p, &crlf_bytes) {
            Some(le) => le,
            None => return Err(WireError::InvalidChunked),
        };
        let size = match size_at(b, p, le) {
            Ok(size) => size,
            Err(e) => return Err(e),
        };
        let q = le + 2;
        if size == 0 {
            assert(out@ + Seq::<u8>::empty() =~= out@);
            return Ok(out);
        }
        if size > usize::MAX - 2 {
            return Err(WireError::SizeOverflow);
        }
        if n - q < size + 2 || !(b[q + size] == 13u8 && b[q + size + 1] == 10u8) {
            assert(n - q < size + 2 || b@.subrange(q + size, q + size + 2) != crlf()) by {
                if n - q >= size + 2 && b@.subrange(q + size, q + size + 2) == crlf() {
                    assert(b@.subrange(q + size, q + size + 2)[0] == b@[q + size]);
                    assert(b@.subrange(q + size, q + size + 2)[1] == b@[q + size + 1]);
                }
            }
            return Err(WireError::TruncatedChunk);
        }
        assert(b@.subrange(q + size, q + size + 2) =~= crlf());
        let ghost before = out@;
        out.extend_from_slice(&b[q..q + size]);
        assert(out@ =~= before + b@.subrange(q as int, q + size));
        proof {
            let next = dechunk_from(b@, q + size + 2);
            match next {
                Ok(rest) => {
                    assert(before + (b@.subrange(q as int, q + size) + rest) =~= out@ + rest);
                },
                Err(_) => {},
            }
        }
        p = q + size + 2;
    }
}

/// Whether a buffered response is complete: the head has ended and either the
/// chunked body has its terminating chunk, the body holds `Content-Length`
/// bytes, or the status is one that has no body (204, 205, 304).
pub open spec fn spec_response_complete(r: Seq<u8>) -> Result<bool, WireFault> {
    match find_bytes_from(r, blank_line(), 0) {
        None => Ok(false),
        Some(he) => {
            let hb = r.take(he);
            if !valid_utf8(hb) {
                Err(WireFault::InvalidUtf8(utf8_error_text(hb)))
            } else {
                let h = decode_utf8(hb);
                let body = r.skip(he + 4);
                if te_chunked(h) {
                    chunked_complete_from(body, 0)
                } else {
                    match spec_header_value(h, content_length()) {
                        Some(l) => match parse_uint(trim(l), 10, usize::MAX as nat) {
                            Some(n) => Ok(body.len() >= n),
                            None => Err(WireFault::InvalidContentLength),
                        },
                        None => Ok(
                            match spec_status(h) {
                                Some(s) => s == 204 || s == 205 || s == 304,
                                None => false,
                            },
                        ),
                    }
                }
            }
        },
    }
}

/// The body of a complete response, or why there is none: an unreadable head
/// or status, a malformed chunked body, or a status outside 200..300.
pub open spec fn spec_parse_response(r: Seq<u8>) -> Result<Seq<u8>, WireFault> {
    match find_bytes_from(r, blank_line(), 0) {
        None => Err(WireFault::InvalidResponse),
        Some(he) => {
            let hb = r.take(he);
            if !valid_utf8(hb) {
                Err(WireFault::InvalidUtf8(utf8_error_text(hb)))
            } else {
                let h = decode_utf8(hb);
                match spec_status(h) {
                    None => Err(WireFault::InvalidStatus),
                    Some(status) => {
                        let body = r.skip(he + 4);
                        let decoded = if any_line_chunked_from(h, 0) {
                            dechunk_from(body, 0)
                        } else {
                            Ok(body)
                        };
                        match decoded {
                            Err(e) => Err(e),
                            Ok(d) => if 200 <= status < 300 {
                                Ok(d)
                            } else {
                                Err(WireFault::Status(status as u16, d))
                            },
                        }
                    },
                }
            }
        },
    }
}

fn blank_line_exec() -> (r: [u8; 4])
    ensures
        r@ == blank_line(),
{
    let r = [13u8, 10u8, 13u8, 10u8];
    assert(r@ =~= blank_line());
    r
}

fn response_complete_walk(response: &[u8]) -> (r: Result<bool, WireError>)
    ensures
        bool_outcome(r) == spec_response_complete(response@),
{
    let pattern = blank_line_exec();
    proof {
        lemma_find_bytes_from(response@, blank_line(), 0);
    }
    let he = match find_bytes(response, 0, &pattern) {
        Some(he) => he,
        None => return Ok(false),
    };
    let text = match str_from_utf8(&response[0..he]) {
        Ok(text) => text,
        Err(message) => {
            assert(response@.subrange(0, he as int) =~= response@.take(he as int));
            return Err(WireError::InvalidUtf8(message));
        },
    };
    assert(response@.subrange(0, he as int) =~= response@.take(he as int));
    let h = chars_of(text);
    let total = response.len();
    let body = &response[he + 4..total];
    assert(body@ =~= response@.skip(he + 4));
    let te_name = transfer_encoding_exec();
    let chunked = match header_value_range(&h, &te_name) {
        Some((a, b)) => {
            let v = copy_range(&h, a, b);
            any_chunked(&v)
        },
        None => false,
    };
    if chunked {
        return chunked_complete_walk(body);
    }
    let cl_name = content_length_exec();
    match header_value_range(&h, &cl_name) {
        Some((a, b)) => {
            let (x, y) = trim_range(&h, a, b);
            match parse_uint_range(&h, x, y, 10, usize::MAX as u64) {
                Some(len) => Ok(body.len() as u64 >= len),
                None => Err(WireError::InvalidContentLength),
            }
        },
        None => match status_of(&h) {
            Some(s) => Ok(s == 204 || s == 205 || s == 304),
            None => Ok(false),
        },
    }
}

fn parse_response_walk(response: &[u8]) -> (r: Result<Vec<u8>, WireError>)
    ensures
        bytes_outcome(r) == spec_parse_response(response@),
{
    let pattern = blank_line_exec();
    proof {
        lemma_find_bytes_from(response@, blank_line(), 0);
    }
    let he = match find_bytes(response, 0, &pattern) {
        Some(he) => he,
        None => return Err(WireError::InvalidResponse),
    };
    assert(response@.subrange(0, he as int) =~= response@.take(he as int));
    let text = match str_from_utf8(&response[0..he]) {
        Ok(text) => text,
        Err(message) => return Err(WireError::InvalidUtf8(message)),
    };
    let h = chars_of(text);
    let status = match status_of(&h) {
        Some(s) => s,
        None => return Err(WireError::InvalidStatus),
    };
    let total = response.len();
    let body = &response[he + 4..total];
    assert(body@ =~= response@.skip(he + 4));
    let decoded = if any_line_chunked(&h) {
        match dechunk_walk(body) {
            Ok(d) => d,
            Err(e) => return Err(e),
        }
    } else {
        vstd::slice::slice_to_vec(body)
    };
    if 200 <= status && status < 300 {
        Ok(decoded)
    } else {
        Err(WireError::Status { status, body: decoded })
    }
}

/// Whether a buffered response is complete, without waiting for the server
/// to close the connection.
pub fn http_response_is_complete(response: &[u8]) -> (r: Result<bool, WireError>)
    requires
        spec_response_complete(response@) != Err::<bool, WireFault>(WireFault::SizeOverflow),
    ensures
        bool_outcome(r) == spec_response_complete(response@),
{
    response_complete_walk(response)
}

/// Whether deciding completion would meet a chunk size whose arithmetic
/// overflows; `http_response_is_complete` is defined on every other input.
pub fn response_completion_overflows(response: &[u8]) -> (r: bool)
    ensures
        r == (spec_response_complete(response@) == Err::<bool, WireFault>(WireFault::SizeOverflow)),
{
    matches!(response_complete_walk(response), Err(WireError::SizeOverflow))
}

/// Whether a chunked body has reached its terminating zero-size chunk.
pub fn chunked_body_is_complete(input: &[u8]) -> (r: Result<bool, WireError>)
    requires
        chunked_complete_from(input@, 0) != Err::<bool, WireFault>(WireFault::SizeOverflow),
    ensures
        bool_outcome(r) == chunked_complete_from(input@, 0),
{
    chunked_complete_walk(input)
}

/// The body of a complete response: chunked framing removed, and an error
/// that carries the status and body when the status is not a success.
pub fn parse_http_response(response: &[u8]) -> (r: Result<Vec<u8>, WireError>)
    requires
        spec_parse_response(response@) != Err::<Seq<u8>, WireFault>(WireFault::SizeOverflow),
    ensures
        bytes_outcome(r) == spec_parse_response(response@),
{
    parse_response_walk(response)
}

/// Whether reading the body would meet a chunk size whose arithmetic
/// overflows; `parse_http_response` is defined on every other input.
pub fn response_body_overflows(response: &[u8]) -> (r: bool)
    ensures
        r == (spec_parse_response(response@) == Err::<Seq<u8>, WireFault>(WireFault::SizeOverflow)),
{
    matches!(parse_response_walk(response), Err(WireError::SizeOverflow))
}

/// Removes chunked framing, up to the terminating zero-size chunk.
pub fn decode_chunked(input: &[u8]) -> (r: Result<Vec<u8>, WireError>)
    requires
        dechunk_from(input@, 0) != Err::<Seq<u8>, WireFault>(WireFault::SizeOverflow),
    ensures
        bytes_outcome(r) == dechunk_from(input@, 0),
{
    dechunk_walk(input)
}

/// What `String::from_utf8_lossy` makes of some bytes.
pub uninterp spec fn utf8_lossy(bytes: Seq<u8>) -> Seq<char>;

/// Decodes bytes with `String::from_utf8_lossy`, which replaces each invalid
/// sequence with U+FFFD. The contract states only what std documents without
/// pages: well-formed UTF-8 comes back as the characters it encodes.
#[verifier::external_body]
pub fn lossy_text(bytes: &[u8]) -> (r: String)
    ensures
        r@ == utf8_lossy(bytes@),
        valid_utf8(bytes@) ==> r@ == decode_utf8(bytes@),
{
    String::from_utf8_lossy(bytes).into_owned()
}

/// How some bytes read as text: as the characters they encode when they are
/// well-formed UTF-8, and as `String::from_utf8_lossy` repairs them otherwise.
pub open spec fn lossy_view(bytes: Seq<u8>) -> Seq<char> {
    if valid_utf8(bytes) {
        decode_utf8(bytes)
    } else {
        utf8_lossy(bytes)
    }
}

/// The text of a failed request, as an error chain prints it.
pub open spec fn status_failure_text(status: u16, body: Seq<u8>) -> Seq<char> {
    "OpenCode session request failed with HTTP "@ + decimal(status as nat) + ": "@
        + lossy_view(body)
}

/// The message an error reads as.
pub open spec fn error_text(e: &WireError) -> Seq<char> {
    match e {
        WireError::Status { status, body } => status_failure_text(*status, body@),
        WireError::InvalidUtf8(m) => m@,
        WireError::InvalidResponse => "OpenCode returned an invalid HTTP response"@,
        WireError::InvalidStatus => "OpenCode returned an invalid HTTP status"@,
        WireError::InvalidContentLength => "OpenCode returned an invalid HTTP content length"@,
        WireError::InvalidChunkSize => "OpenCode returned an invalid HTTP chunk size"@,
        WireError::InvalidChunked => "OpenCode returned an invalid chunked response"@,
        WireError::TruncatedChunk => "OpenCode returned a truncated HTTP chunk"@,
        WireError::SizeOverflow => "attempt to add with overflow"@,
    }
}

impl WireError {
    /// The message this error reads as.
    pub fn message(&self) -> (r: String)
        ensures
            r@ == error_text(self),
            self matches WireError::Status { status, body } ==> r@ == status_failure_text(
                *status,
                body@,
            ),
            self matches WireError::InvalidUtf8(m) ==> r@ == m@,
            self matches WireError::InvalidResponse ==> r@
                == "OpenCode returned an invalid HTTP response"@,
            self matches WireError::InvalidStatus ==> r@
                == "OpenCode returned an invalid HTTP status"@,
            self matches WireError::InvalidContentLength ==> r@
                == "OpenCode returned an invalid HTTP content length"@,
            self matches WireError::InvalidChunkSize ==> r@
                == "OpenCode returned an invalid HTTP chunk size"@,
            self matches WireError::InvalidChunked ==> r@
                == "OpenCode returned an invalid chunked response"@,
            self matches WireError::TruncatedChunk ==> r@
                == "OpenCode returned a truncated HTTP chunk"@,
            self matches WireError::SizeOverflow ==> r@ == "attempt to add with overflow"@,
    {
        match self {
            WireError::InvalidResponse => string_of("OpenCode returned an invalid HTTP response"),
            WireError::InvalidUtf8(m) => m.clone(),
            WireError::InvalidStatus => string_of("OpenCode returned an invalid HTTP status"),
            WireError::InvalidContentLength => string_of(
                "OpenCode returned an invalid HTTP content length",
            ),
            WireError::InvalidChunkSize => string_of("OpenCode returned an invalid HTTP chunk size"),
            WireError::InvalidChunked => string_of("OpenCode returned an invalid chunked response"),
            WireError::TruncatedChunk => string_of("OpenCode returned a truncated HTTP chunk"),
            WireError::Status { status, body } => {
                let mut r = string_of("OpenCode session request failed with HTTP ");
                push_decimal(&mut r, *status as u64);
                push_str(&mut r, ": ");
                let detail = lossy_text(body.as_slice());
                push_str(&mut r, detail.as_str());
                r
            },
            WireError::SizeOverflow => string_of("attempt to add with overflow"),
        }
    }
}

/// `Authorization: <credential>\r\n` when the endpoint has a credential.
pub open spec fn authorization_line(auth: Option<String>) -> Seq<char> {
    match auth {
        Some(a) => "Authorization: "@ + a@ + "\r\n"@,
        None => Seq::empty(),
    }
}

fn push_authorization(out: &mut String, auth: &Option<String>)
    ensures
        final(out)@ == old(out)@ + authorization_line(*auth),
{
    match auth {
        Some(a) => {
            push_str(out, "Authorization: ");
            push_str(out, a.as_str());
            push_str(out, "\r\n");
        },
        None => {
            assert(old(out)@ + Seq::<char>::empty() =~= old(out)@);
        },
    }
}

/// The head of a JSON request that asks the server to close afterwards.
pub open spec fn spec_request_head(
    host: Seq<char>,
    port: u16,
    auth: Option<String>,
    method: Seq<char>,
    path: Seq<char>,
    body_len: nat,
) -> Seq<char> {
    method + " "@ + path + " HTTP/1.1\r\nHost: "@ + address_of(host, port)
        + "\r\nAccept: application/json\r\n"@ + authorization_line(auth)
        + "Content-Type: application/json\r\nContent-Length: "@ + decimal(body_len)
        + "\r\nConnection: close\r\n\r\n"@
}

/// Writes the head of a JSON request with a body of `body_len` bytes.
pub fn request_head(endpoint: &Endpoint, method: &str, path: &str, body_len: usize) -> (r: String)
    ensures
        r@ == spec_request_head(
            endpoint.host@,
            endpoint.port,
            endpoint.auth,
            method@,
            path@,
            body_len as nat,
        ),
{
    let mut r = string_of(method);
    push_str(&mut r, " ");
    push_str(&mut r, path);
    push_str(&mut r, " HTTP/1.1\r\nHost: ");
    let address = endpoint.address();
    push_str(&mut r, address.as_str());
    push_str(&mut r, "\r\nAccept: application/json\r\n");
    push_authorization(&mut r, &endpoint.auth);
    push_str(&mut r, "Content-Type: application/json\r\nContent-Length: ");
    push_decimal(&mut r, body_len as u64);
    push_str(&mut r, "\r\nConnection: close\r\n\r\n");
    r
}

/// The head of the request that opens a server-sent event stream.
pub open spec fn spec_event_stream_head(
    host: Seq<char>,
    port: u16,
    auth: Option<String>,
    path: Seq<char>,
) -> Seq<char> {
    "GET "@ + path + " HTTP/1.1\r\nHost: "@ + address_of(host, port)
        + "\r\nAccept: text/event-stream\r\n"@ + authorization_line(auth)
        + "Connection: keep-alive\r\n\r\n"@
}

/// Writes the request that opens the event stream at `path` and keeps it open.
pub fn event_stream_head(endpoint: &Endpoint, path: &str) -> (r: String)
    ensures
        r@ == spec_event_stream_head(endpoint.host@, endpoint.port, endpoint.auth, path@),
{
    let mut r = string_of("GET ");
    push_str(&mut r, path);
    push_str(&mut r, " HTTP/1.1\r\nHost: ");
    let address = endpoint.address();
    push_str(&mut r, address.as_str());
    push_str(&mut r, "\r\nAccept: text/event-stream\r\n");
    push_authorization(&mut r, &endpoint.auth);
    push_str(&mut r, "Connection: keep-alive\r\n\r\n");
    r
}

/// Whether the bytes read so far end the head of an event-stream response
/// (a CRLF blank line, or a bare LF one).
pub open spec fn spec_event_head_complete(head: Seq<u8>) -> bool {
    (head.len() >= 4 && head.skip(head.len() - 4) == blank_line()) || (head.len() >= 2
        && head.skip(head.len() - 2) == seq![10u8, 10u8])
}

pub fn event_head_complete(head: &[u8]) -> (r: bool)
    ensures
        r == spec_event_head_complete(head@),
{
    let n = head.len();
    let crlf_blank = n >= 4 && head[n - 4] == 13u8 && head[n - 3] == 10u8 && head[n - 2] == 13u8
        && head[n - 1] == 10u8;
    let lf_blank = n >= 2 && head[n - 2] == 10u8 && head[n - 1] == 10u8;
    proof {
        if n >= 4 {
            let t = head@.skip(n - 4);
            assert(t == blank_line() <==> (t[0] == 13u8 && t[1] == 10u8 && t[2] == 13u8 && t[3]
                == 10u8)) by {
                if t[0] == 13u8 && t[1] == 10u8 && t[2] == 13u8 && t[3] == 10u8 {
                    assert(t =~= blank_line());
                }
            }
        }
        if n >= 2 {
            let t = head@.skip(n - 2);
            assert(t == seq![10u8, 10u8] <==> (t[0] == 10u8 && t[1] == 10u8)) by {
                if t[0] == 10u8 && t[1] == 10u8 {
                    assert(t =~= seq![10u8, 10u8]);
                }
            }
        }
    }
    crlf_blank || lf_blank
}

/// Why an event stream was refused during setup.
#[derive(Debug)]
pub enum StreamSetupError {
    /// "OpenCode returned an invalid HTTP status".
    InvalidStatus,
    /// "OpenCode refused the event stream with HTTP {status}".
    Refused(u16),
}

/// Reads the status of an event-stream response head (decoded lossily) and
/// accepts only 200..300: an authenticated server answers 401 with a
/// well-formed head and then says nothing at all.
pub fn event_stream_status(head: &[u8]) -> (r: Result<u16, StreamSetupError>)
    ensures
        match spec_status(lossy_view(head@)) {
            None => r matches Err(StreamSetupError::InvalidStatus),
            Some(s) => if 200 <= s < 300 {
                r matches Ok(v) && v == s
            } else {
                r matches Err(StreamSetupError::Refused(v)) && v == s
            },
        },
{
    let text = lossy_text(head);
    let h = chars_of(text.as_str());
    match status_of(&h) {
        None => Err(StreamSetupError::InvalidStatus),
        Some(s) => if 200 <= s && s < 300 {
            Ok(s)
        } else {
            Err(StreamSetupError::Refused(s))
        },
    }
}

/// `u8::is_ascii_whitespace`: space, tab, line feed, form feed, carriage return.
pub open spec fn is_ascii_ws_byte(b: u8) -> bool {
    b == 32u8 || b == 9u8 || b == 10u8 || b == 12u8 || b == 13u8
}

/// Whether a success body carries nothing, which answers JSON `null`.
pub fn is_blank_body(body: &[u8]) -> (r: bool)
    ensures
        r == (forall|i: int| 0 <= i < body@.len() ==> is_ascii_ws_byte(#[trigger] body@[i])),
{
    let mut i: usize = 0;
    while i < body.len()
        invariant
            0 <= i <= body@.len(),
            forall|j: int| 0 <= j < i ==> is_ascii_ws_byte(#[trigger] body@[j]),
        decreases body@.len() - i,
    {
        let b = body[i];
        if !(b == 32u8 || b == 9u8 || b == 10u8 || b == 12u8 || b == 13u8) {
            return false;
        }
        i = i + 1;
    }
    true
}


/// A chunked body is complete exactly when it decodes: the reader stops at the
/// terminating chunk, and everything before it is well framed.
pub proof fn law_chunked_complete_iff_decodes(b: Seq<u8>, p: int)
    ensures
        chunked_complete_from(b, p) == Ok::<bool, WireFault>(true) <==> dechunk_from(b, p) is Ok,
    decreases b.len() + 1 - p,
{
    if 0 <= p <= b.len() {
        match find_bytes_from(b, crlf(), p) {
            None => {},
            Some(le) => {
                match size_line(b.subrange(p, le)) {
                    SizeLine::Size(n) => {
                        let q = le + 2;
                        if n != 0 && n + 2 <= usize::MAX && !(b.len() - q < n + 2)
                            && b.subrange(q + n, q + n + 2) == crlf() {
                            lemma_find_bytes_from(b, crlf(), p);
                            law_chunked_complete_iff_decodes(b, q + n + 2);
                        }
                    },
                    _ => {},
                }
            },
        }
    }
}

proof fn lemma_find_bytes_extend(s: Seq<u8>, t: Seq<u8>, p: Seq<u8>, i: int)
    requires
        find_bytes_from(s, p, i) is Some,
    ensures
        find_bytes_from(s + t, p, i) == find_bytes_from(s, p, i),
    decreases s.len() + 1 - i,
{
    lemma_find_bytes_from(s, p, i);
    let k = find_bytes_from(s, p, i)->0;
    assert((s + t).subrange(i, i + p.len()) =~= s.subrange(i, i + p.len()));
    if s.subrange(i, i + p.len()) != p {
        lemma_find_bytes_extend(s, t, p, i + 1);
    }
}

proof fn lemma_chunked_complete_extend(b: Seq<u8>, t: Seq<u8>, p: int)
    requires
        chunked_complete_from(b, p) == Ok::<bool, WireFault>(true),
    ensures
        chunked_complete_from(b + t, p) == Ok::<bool, WireFault>(true),
    decreases b.len() + 1 - p,
{
    let le = find_bytes_from(b, crlf(), p)->0;
    lemma_find_bytes_from(b, crlf(), p);
    lemma_find_bytes_extend(b, t, crlf(), p);
    assert((b + t).subrange(p, le) =~= b.subrange(p, le));
    match size_line(b.subrange(p, le)) {
        SizeLine::Size(n) => {
            let q = le + 2;
            if n != 0 {
                assert((b + t).subrange(q + n, q + n + 2) =~= b.subrange(q + n, q + n + 2));
                lemma_chunked_complete_extend(b, t, q + n + 2);
            }
        },
        _ => {},
    }
}

/// Once a buffered response is complete it stays complete whatever arrives
/// after it: a reader that stops at the protocol's own body boundary never
/// needs the connection to close.
pub proof fn law_complete_response_stays_complete(r: Seq<u8>, more: Seq<u8>)
    requires
        spec_response_complete(r) == Ok::<bool, WireFault>(true),
    ensures
        spec_response_complete(r + more) == Ok::<bool, WireFault>(true),
{
    let he = find_bytes_from(r, blank_line(), 0)->0;
    lemma_find_bytes_from(r, blank_line(), 0);
    lemma_find_bytes_extend(r, more, blank_line(), 0);
    assert((r + more).take(he) =~= r.take(he));
    let body = r.skip(he + 4);
    assert((r + more).skip(he + 4) =~= body + more);
    let h = decode_utf8(r.take(he));
    if te_chunked(h) {
        lemma_chunked_complete_extend(body, more, 0);
    }
}

/// One lower-case hexadecimal digit.
pub open spec fn hex_lower(d: nat) -> char {
    if d < 10 {
        (d + 0x30) as char
    } else {
        (d - 10 + 0x61) as char
    }
}

/// `format!("{:x}", n)`: the lower-case hexadecimal rendering of `n`.
pub open spec fn hex_text(n: nat) -> Seq<char>
    decreases n,
{
    if n < 16 {
        seq![hex_lower(n)]
    } else {
        hex_text(n / 16).push(hex_lower(n % 16))
    }
}

/// One chunk as a chunked body frames it: its size in hexadecimal, CRLF, the
/// bytes, CRLF.
pub open spec fn chunk_frame(c: Seq<u8>) -> Seq<u8> {
    encode_utf8(hex_text(c.len())) + crlf() + c + crlf()
}

/// A chunk list encoded as a chunked body: every chunk framed, then the
/// terminating zero-size chunk and the empty trailer (`0\r\n\r\n`).
pub open spec fn chunked_encoding(cs: Seq<Seq<u8>>) -> Seq<u8>
    decreases cs.len(),
{
    if cs.len() == 0 {
        encode_utf8(hex_text(0)) + crlf() + crlf()
    } else {
        chunk_frame(cs[0]) + chunked_encoding(cs.drop_first())
    }
}

/// The chunks' bytes, one after another.
pub open spec fn concat_chunks(cs: Seq<Seq<u8>>) -> Seq<u8>
    decreases cs.len(),
{
    if cs.len() == 0 {
        Seq::empty()
    } else {
        cs[0] + concat_chunks(cs.drop_first())
    }
}

pub open spec fn is_hex_lower_char(c: char) -> bool {
    ('0' <= c && c <= '9') || ('a' <= c && c <= 'f')
}

proof fn lemma_hex_digit(d: nat)
    requires
        d < 16,
    ensures
        digit_of(hex_lower(d), 16) == Some(d),
        is_hex_lower_char(hex_lower(d)),
{
    let c = hex_lower(d);
    if d < 10 {
        assert(c as u32 == d + 0x30);
    } else {
        assert(c as u32 == d - 10 + 0x61);
    }
}

proof fn lemma_hex_text(n: nat)
    ensures
        hex_text(n).len() > 0,
        forall|i: int| 0 <= i < hex_text(n).len() ==> is_hex_lower_char(#[trigger] hex_text(n)[i]),
        digits_value(hex_text(n), 16) == Some(n),
    decreases n,
{
    if n < 16 {
        lemma_hex_digit(n);
        assert(seq![hex_lower(n)].drop_last() =~= Seq::<char>::empty());
        assert(digits_value(Seq::<char>::empty(), 16) == Some(0nat));
    } else {
        lemma_hex_digit(n % 16);
        lemma_hex_text(n / 16);
        let t = hex_text(n / 16);
        assert(t.push(hex_lower(n % 16)).drop_last() =~= t);
        vstd::arithmetic::div_mod::lemma_fundamental_div_mod(n as int, 16);
    }
}

proof fn lemma_no_char_from(s: Seq<char>, c: char, i: int)
    requires
        forall|k: int| 0 <= k < s.len() ==> s[k] != c,
    ensures
        find_char_from(s, c, i) is None,
    decreases s.len() - i,
{
    if 0 <= i < s.len() {
        lemma_no_char_from(s, c, i + 1);
    }
}

/// The size line of a hexadecimal rendering reads back as the number.
proof fn lemma_hex_size_line(n: nat)
    requires
        n <= usize::MAX,
    ensures
        size_line(encode_utf8(hex_text(n))) == SizeLine::Size(n),
        encode_utf8(hex_text(n)).len() == hex_text(n).len(),
        forall|i: int| 0 <= i < encode_utf8(hex_text(n)).len() ==> #[trigger] encode_utf8(
            hex_text(n),
        )[i] != 13u8,
{
    let t = hex_text(n);
    lemma_hex_text(n);
    assert(vstd::utf8::is_ascii_chars(t)) by {
        assert forall|i: int| 0 <= i < t.len() implies '\0' <= #[trigger] t[i] <= '\u{7f}' by {
            assert(is_hex_lower_char(t[i]));
        }
    }
    vstd::utf8::is_ascii_chars_encode_utf8(t);
    vstd::utf8::encode_utf8_valid_utf8(t);
    vstd::utf8::encode_utf8_decode_utf8(t);
    let h = encode_utf8(t);
    assert forall|i: int| 0 <= i < h.len() implies #[trigger] h[i] != 13u8 by {
        assert(is_hex_lower_char(t[i]));
        assert(t[i] as u8 == h[i]);
    }
    assert forall|k: int| 0 <= k < t.len() implies t[k] != ';' by {
        assert(is_hex_lower_char(t[k]));
    }
    lemma_no_char_from(t, ';', 0);
    assert(before_semicolon(t) == t);
    assert(!crate::text::is_ws(t[0]));
    assert(crate::text::trim_start(t) == t);
    assert(!crate::text::is_ws(t.last())) by {
        assert(is_hex_lower_char(t[t.len() - 1]));
    }
    assert(crate::text::trim_end(t) == t);
    assert(t[0] != '+');
}

proof fn lemma_find_crlf_at(b: Seq<u8>, p: int, k: int)
    requires
        0 <= p <= k,
        k + 2 <= b.len(),
        b[k] == 13u8,
        b[k + 1] == 10u8,
        forall|j: int| p <= j < k ==> b[j] != 13u8,
    ensures
        find_bytes_from(b, crlf(), p) == Some(k),
    decreases k - p,
{
    if p < k {
        assert(b.subrange(p, p + 2)[0] == b[p]);
        assert(b.subrange(p, p + 2) != crlf());
        lemma_find_crlf_at(b, p + 1, k);
    } else {
        assert(b.subrange(k, k + 2) =~= crlf());
    }
}

proof fn lemma_dechunk_encoding(b: Seq<u8>, p: int, cs: Seq<Seq<u8>>)
    requires
        0 <= p <= b.len(),
        b.skip(p) == chunked_encoding(cs),
        forall|i: int| 0 <= i < cs.len() ==> (#[trigger] cs[i]).len() > 0 && cs[i].len() + 2
            <= usize::MAX,
    ensures
        dechunk_from(b, p) == Ok::<Seq<u8>, WireFault>(concat_chunks(cs)),
    decreases cs.len(),
{
    let n: nat = if cs.len() == 0 {
        0
    } else {
        cs[0].len()
    };
    if cs.len() > 0 {
        assert(cs[0].len() > 0);
    }
    lemma_hex_size_line(n);
    let h = encode_utf8(hex_text(n));
    let hl = h.len() as int;
    let rest = b.skip(p);
    if cs.len() == 0 {
        assert(rest =~= h + crlf() + crlf());
    } else {
        assert(rest =~= h + crlf() + cs[0] + crlf() + chunked_encoding(cs.drop_first()));
    }
    assert(rest.len() >= hl + 2);
    assert(rest.len() == b.len() - p);
    // The head of the rest is the size line, then CRLF.
    assert(rest.subrange(0, hl) =~= h) by {
        if cs.len() == 0 {
            assert(rest =~= h + crlf() + crlf());
        } else {
            assert(rest =~= h + crlf() + cs[0] + crlf() + chunked_encoding(cs.drop_first()));
        }
    }
    assert(rest[hl] == 13u8 && rest[hl + 1] == 10u8) by {
        if cs.len() == 0 {
            assert(rest =~= h + crlf() + crlf());
        } else {
            assert(rest =~= h + crlf() + cs[0] + crlf() + chunked_encoding(cs.drop_first()));
        }
    }
    assert forall|j: int| p <= j < p + hl implies b[j] != 13u8 by {
        assert(b[j] == rest[j - p]);
        assert(rest.subrange(0, hl)[j - p] == h[j - p]);
    }
    assert(b[p + hl] == rest[hl]);
    assert(b[p + hl + 1] == rest[hl + 1]);
    lemma_find_crlf_at(b, p, p + hl);
    assert(b.subrange(p, p + hl) =~= h) by {
        assert forall|j: int| 0 <= j < hl implies b.subrange(p, p + hl)[j] == h[j] by {
            assert(b[p + j] == rest[j]);
            assert(rest.subrange(0, hl)[j] == h[j]);
        }
    }
    if cs.len() > 0 {
        let c = cs[0];
        let q = p + hl + 2;
        let tail = chunked_encoding(cs.drop_first());
        assert(rest =~= h + crlf() + c + crlf() + tail);
        assert(b.subrange(q, q + n) =~= c) by {
            assert forall|j: int| 0 <= j < n implies b.subrange(q, q + n)[j] == c[j] by {
                assert(b[q + j] == rest[hl + 2 + j]);
            }
        }
        assert(b.subrange(q + n, q + n + 2) =~= crlf()) by {
            assert(b[q + n] == rest[hl + 2 + n]);
            assert(b[q + n + 1] == rest[hl + 2 + n + 1]);
        }
        assert(b.skip(q + n + 2) =~= tail) by {
            assert forall|j: int| 0 <= j < tail.len() implies b.skip(q + n + 2)[j] == tail[j] by {
                assert(b[q + n + 2 + j] == rest[hl + 2 + n + 2 + j]);
            }
        }
        assert forall|i: int| 0 <= i < cs.drop_first().len() implies (#[trigger] cs.drop_first()[
            i]).len() > 0 && cs.drop_first()[i].len() + 2 <= usize::MAX by {
            assert(cs.drop_first()[i] == cs[i + 1]);
        }
        lemma_dechunk_encoding(b, q + n + 2, cs.drop_first());
    }
}

/// Decoding a chunked encoding gives back the chunks: framing each non-empty
/// chunk as `{size:x}\r\n<bytes>\r\n` and ending with `0\r\n\r\n`
/// decodes to the chunks' bytes in order, whatever the chunks contain (CRLF
/// included). Chunk sizes stay two short of `usize::MAX`, where the size
/// arithmetic would overflow.
pub proof fn law_decoding_undoes_chunked_encoding(cs: Seq<Seq<u8>>)
    requires
        forall|i: int| 0 <= i < cs.len() ==> (#[trigger] cs[i]).len() > 0 && cs[i].len() + 2
            <= usize::MAX,
    ensures
        dechunk_from(chunked_encoding(cs), 0) == Ok::<Seq<u8>, WireFault>(concat_chunks(cs)),
{
    let b = chunked_encoding(cs);
    assert(b.skip(0) =~= b);
    lemma_dechunk_encoding(b, 0, cs);
}
} // verus!

verus! {

/// A response that is not chunked and declares `Content-Length: n` is
/// complete exactly when at least `n` bytes follow the blank line that ends
/// its head; so a declared length of zero is complete as soon as the head
/// ends, and a reader never waits for bytes the head did not announce.
pub proof fn law_content_length_decides_completion(r: Seq<u8>, he: int, n: nat)
    requires
        find_bytes_from(r, blank_line(), 0) == Some(he),
        valid_utf8(r.take(he)),
        !te_chunked(decode_utf8(r.take(he))),
        spec_header_value(decode_utf8(r.take(he)), content_length()) matches Some(l) && parse_uint(
            trim(l),
            10,
            usize::MAX as nat,
        ) == Some(n),
    ensures
        spec_response_complete(r) == Ok::<bool, WireFault>(r.len() - (he + 4) >= n),
        n == 0 ==> spec_response_complete(r) == Ok::<bool, WireFault>(true),
        r.len() - (he + 4) < n ==> spec_response_complete(r) == Ok::<bool, WireFault>(false),
{
    lemma_find_bytes_from(r, blank_line(), 0);
}

/// Until its head has ended a response is never complete. A head that is
/// not UTF-8 is an error. A head that is neither chunked nor declares a
/// length is complete as it stands exactly when its status is one that
/// carries no body (204, 205 or 304), and a declared length that is not a
/// number is an error rather than a wait.
pub proof fn law_completion_without_a_length(r: Seq<u8>)
    ensures
        find_bytes_from(r, blank_line(), 0) is None ==> spec_response_complete(r) == Ok::<
            bool,
            WireFault,
        >(false),
        find_bytes_from(r, blank_line(), 0) matches Some(he) ==> {
            let hb = r.take(he);
            let h = decode_utf8(hb);
            &&& !valid_utf8(hb) ==> spec_response_complete(r) is Err
            &&& (valid_utf8(hb) && !te_chunked(h) && spec_header_value(h, content_length()) is None)
                ==> spec_response_complete(r) == Ok::<bool, WireFault>(
                spec_status(h) == Some(204nat) || spec_status(h) == Some(205nat) || spec_status(h)
                    == Some(304nat),
            )
            &&& (valid_utf8(hb) && !te_chunked(h) && (spec_header_value(h, content_length())
                matches Some(l) && parse_uint(trim(l), 10, usize::MAX as nat) is None))
                ==> spec_response_complete(r) == Err::<bool, WireFault>(
                WireFault::InvalidContentLength,
            )
        },
{
}

} // verus!
