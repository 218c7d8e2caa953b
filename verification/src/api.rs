//! The HTTP API of the shared background service: what each call sends, and
//! what is made of the answer.
//!
//! Three properties of this API are traps, and they are settled here rather
//! than left to callers:
//!
//! * The response envelope is per route: most routes wrap their payload in
//!   `{ data }`, while the health route and the interrupt route answer bare.
//! * Pagination ends on an EMPTY `data` array, never on an absent cursor: a
//!   `cursor.next` is minted on every page, the last one included.
//! * Location scoping is split: `GET /api/session` filters with a flat
//!   `?directory=`, every other location-aware route with the deepObject
//!   `?location[directory]=`. Getting it wrong silently answers for the home
//!   directory.
use vstd::prelude::*;
use vstd::utf8::encode_utf8;
use crate::json::{json_get, member, opt_bool, opt_get, opt_str, str_eq, Json};
use crate::text::{chars_of, decimal, push_char, push_decimal, push_str, string_of, trim, trim_range};
use crate::wire::{error_text, lossy_text, lossy_view, WireError};

verus! {

/// RFC 3986 unreserved bytes, the only ones a path segment keeps as they are.
pub open spec fn is_unreserved(b: u8) -> bool {
    ||| (0x41 <= b && b <= 0x5a)
    ||| (0x61 <= b && b <= 0x7a)
    ||| (0x30 <= b && b <= 0x39)
    ||| b == 0x2d
    ||| b == 0x2e
    ||| b == 0x5f
    ||| b == 0x7e
}

/// An upper-case hexadecimal digit.
pub open spec fn hex_digit(n: nat) -> char {
    if n < 10 {
        (n + 0x30) as char
    } else {
        (n - 10 + 0x41) as char
    }
}

/// One byte of a path segment: itself when unreserved, `%XX` otherwise.
pub open spec fn encode_byte(b: u8) -> Seq<char> {
    if is_unreserved(b) {
        seq![b as char]
    } else {
        seq!['%', hex_digit((b / 16) as nat), hex_digit((b % 16) as nat)]
    }
}

/// The percent-encoding of some bytes, byte by byte.
pub open spec fn percent_encode(bytes: Seq<u8>) -> Seq<char>
    decreases bytes.len(),
{
    if bytes.len() == 0 {
        Seq::empty()
    } else {
        percent_encode(bytes.drop_last()) + encode_byte(bytes.last())
    }
}

/// A string as one path segment or query component: its UTF-8 bytes,
/// percent-encoded.
pub open spec fn segment(s: Seq<char>) -> Seq<char> {
    percent_encode(encode_utf8(s))
}

fn hex_char(n: u8) -> (r: char)
    requires
        n < 16,
    ensures
        r == hex_digit(n as nat),
{
    let c: u8 = if n < 10 {
        n + 48
    } else {
        n + 55
    };
    c as char
}

/// Percent-encodes `s` for a URL path segment or query component. The
/// deepObject brackets of `location[directory]` come out as `%5B` and `%5D`.
pub fn encode_path_segment(s: &str) -> (r: String)
    ensures
        r@ == segment(s@),
{
    let bytes = s.as_bytes();
    let n = bytes.len();
    let mut out = String::new();
    let mut i: usize = 0;
    assert(bytes@.take(0) =~= Seq::<u8>::empty());
    assert(out@ =~= Seq::<char>::empty());
    while i < n
        invariant
            n == bytes@.len(),
            bytes@ == encode_utf8(s@),
            0 <= i <= n,
            out@ == percent_encode(bytes@.take(i as int)),
        decreases n - i,
    {
        let b = bytes[i];
        assert(bytes@.take(i + 1).drop_last() =~= bytes@.take(i as int));
        assert(bytes@.take(i + 1).last() == b);
        let unreserved = (0x41 <= b && b <= 0x5a) || (0x61 <= b && b <= 0x7a) || (0x30 <= b && b
            <= 0x39) || b == 0x2d || b == 0x2e || b == 0x5f || b == 0x7e;
        if unreserved {
            push_char(&mut out, b as char);
        } else {
            push_char(&mut out, '%');
            push_char(&mut out, hex_char(b / 16));
            push_char(&mut out, hex_char(b % 16));
        }
        assert(out@ =~= percent_encode(bytes@.take(i as int)) + encode_byte(b));
        i = i + 1;
    }
    assert(bytes@.take(n as int) =~= bytes@);
    out
}

/// One `key=value` pair appended to a query string, which starts with `?`.
pub open spec fn query_step(text: Seq<char>, key: Seq<char>, value: Seq<char>) -> Seq<char> {
    text + seq![
        if text.len() == 0 {
            '?'
        } else {
            '&'
        },
    ] + segment(key) + seq!['='] + segment(value)
}

/// The query string of some pairs, in order; empty for none.
pub open spec fn spec_query(pairs: Seq<(Seq<char>, Seq<char>)>) -> Seq<char>
    decreases pairs.len(),
{
    if pairs.len() == 0 {
        Seq::empty()
    } else {
        query_step(spec_query(pairs.drop_last()), pairs.last().0, pairs.last().1)
    }
}

/// A query string under construction.
pub struct Query {
    text: String,
}

impl Query {
    pub closed spec fn view_text(&self) -> Seq<char> {
        self.text@
    }

    pub fn new() -> (r: Query)
        ensures
            r.view_text() == Seq::<char>::empty(),
    {
        Query { text: String::new() }
    }

    /// Appends `key=value`, both percent-encoded, after `?` for the first pair
    /// and `&` for every later one.
    pub fn push(&mut self, key: &str, value: &str)
        ensures
            final(self).view_text() == query_step(old(self).view_text(), key@, value@),
    {
        let first = self.text.as_str().is_empty();
        if first {
            push_char(&mut self.text, '?');
        } else {
            push_char(&mut self.text, '&');
        }
        let k = encode_path_segment(key);
        push_str(&mut self.text, k.as_str());
        push_char(&mut self.text, '=');
        let v = encode_path_segment(value);
        push_str(&mut self.text, v.as_str());
        assert(self.text@ =~= query_step(old(self).view_text(), key@, value@));
    }

    pub fn finish(self) -> (r: String)
        ensures
            r@ == self.view_text(),
    {
        self.text
    }
}

impl Default for Query {
    fn default() -> (r: Query)
        ensures
            r.view_text() == Seq::<char>::empty(),
    {
        Query::new()
    }
}

/// Page order. The server defaults to newest first, so a transcript must ask
/// for `asc` explicitly.
#[derive(Clone, Copy, Debug, PartialEq, Eq)]
pub enum Order {
    Asc,
    Desc,
}

pub open spec fn order_text(o: Order) -> Seq<char> {
    match o {
        Order::Asc => "asc"@,
        Order::Desc => "desc"@,
    }
}

impl Order {
    pub fn as_str(self) -> (r: &'static str)
        ensures
            r@ == order_text(self),
    {
        match self {
            Order::Asc => "asc",
            Order::Desc => "desc",
        }
    }
}

/// The order is baked into an opaque cursor, and sending both is refused, so
/// a cursor takes the order's place.
pub open spec fn cursor_or_order(
    pairs: Seq<(Seq<char>, Seq<char>)>,
    order: Order,
    cursor: Option<Seq<char>>,
) -> Seq<(Seq<char>, Seq<char>)> {
    match cursor {
        Some(c) => pairs.push(("cursor"@, c)),
        None => pairs.push(("order"@, order_text(order))),
    }
}

pub open spec fn opt_pair(
    pairs: Seq<(Seq<char>, Seq<char>)>,
    key: Seq<char>,
    value: Option<Seq<char>>,
) -> Seq<(Seq<char>, Seq<char>)> {
    match value {
        Some(v) => pairs.push((key, v)),
        None => pairs,
    }
}

pub open spec fn opt_view(o: Option<&str>) -> Option<Seq<char>> {
    match o {
        Some(s) => Some(s@),
        None => None,
    }
}

/// The query of `GET /api/session`: the one location-aware route that
/// filters with a FLAT `directory`.
pub open spec fn session_list_pairs(
    directory: Option<Seq<char>>,
    parent_id: Option<Seq<char>>,
    order: Order,
    limit: nat,
    cursor: Option<Seq<char>>,
) -> Seq<(Seq<char>, Seq<char>)> {
    cursor_or_order(
        opt_pair(
            opt_pair(seq![("limit"@, decimal(limit))], "directory"@, directory),
            "parentID"@,
            parent_id,
        ),
        order,
        cursor,
    )
}

pub open spec fn message_list_pairs(order: Order, limit: Option<nat>, cursor: Option<Seq<char>>) -> Seq<
    (Seq<char>, Seq<char>),
> {
    let start = match limit {
        Some(l) => seq![("limit"@, decimal(l))],
        None => Seq::empty(),
    };
    cursor_or_order(start, order, cursor)
}

pub open spec fn location_pairs(directory: Option<Seq<char>>) -> Seq<(Seq<char>, Seq<char>)> {
    opt_pair(Seq::empty(), "location[directory]"@, directory)
}

fn decimal_string(n: usize) -> (r: String)
    ensures
        r@ == decimal(n as nat),
{
    let mut s = String::new();
    push_decimal(&mut s, n as u64);
    assert(s@ =~= decimal(n as nat));
    s
}

pub fn session_list_query(
    directory: Option<&str>,
    parent_id: Option<&str>,
    order: Order,
    limit: usize,
    cursor: Option<&str>,
) -> (r: String)
    ensures
        r@ == spec_query(
            session_list_pairs(opt_view(directory), opt_view(parent_id), order, limit as nat, opt_view(cursor)),
        ),
{
    let mut query = Query::new();
    let l = decimal_string(limit);
    query.push("limit", l.as_str());
    let ghost p0 = seq![("limit"@, decimal(limit as nat))];
    assert(spec_query(p0) == query.view_text()) by {
        assert(p0.drop_last() =~= Seq::<(Seq<char>, Seq<char>)>::empty());
        assert(spec_query(Seq::<(Seq<char>, Seq<char>)>::empty()) == Seq::<char>::empty());
    }
    let ghost p1 = opt_pair(p0, "directory"@, opt_view(directory));
    if let Some(d) = directory {
        query.push("directory", d);
        assert(p1.drop_last() =~= p0);
    }
    assert(spec_query(p1) == query.view_text());
    let ghost p2 = opt_pair(p1, "parentID"@, opt_view(parent_id));
    if let Some(p) = parent_id {
        query.push("parentID", p);
        assert(p2.drop_last() =~= p1);
    }
    assert(spec_query(p2) == query.view_text());
    let ghost p3 = cursor_or_order(p2, order, opt_view(cursor));
    match cursor {
        Some(c) => query.push("cursor", c),
        None => query.push("order", order.as_str()),
    }
    assert(p3.drop_last() =~= p2);
    assert(spec_query(p3) == query.view_text());
    query.finish()
}

pub fn message_list_query(order: Order, limit: Option<usize>, cursor: Option<&str>) -> (r: String)
    ensures
        r@ == spec_query(
            message_list_pairs(
                order,
                match limit {
                    Some(l) => Some(l as nat),
                    None => None,
                },
                opt_view(cursor),
            ),
        ),
{
    let mut query = Query::new();
    let ghost lim = match limit {
        Some(l) => Some(l as nat),
        None => None::<nat>,
    };
    let ghost p0 = match lim {
        Some(l) => seq![("limit"@, decimal(l))],
        None => Seq::<(Seq<char>, Seq<char>)>::empty(),
    };
    if let Some(l) = limit {
        let t = decimal_string(l);
        query.push("limit", t.as_str());
        assert(p0.drop_last() =~= Seq::<(Seq<char>, Seq<char>)>::empty());
        assert(spec_query(Seq::<(Seq<char>, Seq<char>)>::empty()) == Seq::<char>::empty());
    }
    assert(spec_query(p0) == query.view_text());
    let ghost p1 = cursor_or_order(p0, order, opt_view(cursor));
    match cursor {
        Some(c) => query.push("cursor", c),
        None => query.push("order", order.as_str()),
    }
    assert(p1.drop_last() =~= p0);
    query.finish()
}

/// The query every location-aware route but `GET /api/session` scopes with.
pub fn location_query(directory: Option<&str>) -> (r: String)
    ensures
        r@ == spec_query(location_pairs(opt_view(directory))),
{
    let mut query = Query::new();
    if let Some(d) = directory {
        query.push("location[directory]", d);
        let ghost p = location_pairs(opt_view(directory));
        assert(p.drop_last() =~= Seq::<(Seq<char>, Seq<char>)>::empty());
        assert(spec_query(Seq::<(Seq<char>, Seq<char>)>::empty()) == Seq::<char>::empty());
        assert(spec_query(p) == query.view_text());
    } else {
        assert(location_pairs(opt_view(directory)) =~= Seq::<(Seq<char>, Seq<char>)>::empty());
    }
    query.finish()
}


/// A failed call, split by what the caller can do about it: the status and
/// the server's own error tag are what separate "this session is gone" from
/// "this workspace does not resolve".
#[derive(Debug)]
pub enum ApiError {
    /// A non-2xx whose body is the service's structured error, which always
    /// carries `_tag` and `message`.
    Tagged { tag: String, message: String, status: u16 },
    /// A non-2xx without a structured body.
    Http { status: u16, body: String },
    /// No HTTP status at all: connect failure, timeout, a body that would not
    /// decode, or an argument refused before any request went out.
    Transport(String),
}

pub open spec fn spec_status(e: &ApiError) -> Option<u16> {
    match e {
        ApiError::Tagged { status, .. } => Some(*status),
        ApiError::Http { status, .. } => Some(*status),
        ApiError::Transport(_) => None,
    }
}

pub open spec fn spec_unresolvable(e: &ApiError) -> bool {
    match e {
        ApiError::Http { status, body } => *status == 500 && trim(body@).len() == 0,
        _ => false,
    }
}

/// How an error reads.
pub open spec fn api_error_text(e: &ApiError) -> Seq<char> {
    match e {
        ApiError::Tagged { tag, message, status } => "OpenCode 2 "@ + tag@ + " (HTTP "@ + decimal(
            *status as nat,
        ) + "): "@ + message@,
        ApiError::Http { status, body } => if trim(body@).len() == 0 {
            "OpenCode 2 request failed with HTTP "@ + decimal(*status as nat)
        } else {
            "OpenCode 2 request failed with HTTP "@ + decimal(*status as nat) + ": "@ + body@
        },
        ApiError::Transport(m) => m@,
    }
}

fn is_blank_text(s: &str) -> (r: bool)
    ensures
        r == (trim(s@).len() == 0),
{
    let v = chars_of(s);
    let (a, b) = trim_range(&v, 0, v.len());
    assert(v@.subrange(0, v@.len() as int) =~= v@);
    a == b
}

impl ApiError {
    pub fn status(&self) -> (r: Option<u16>)
        ensures
            r == spec_status(self),
    {
        match self {
            ApiError::Tagged { status, .. } => Some(*status),
            ApiError::Http { status, .. } => Some(*status),
            ApiError::Transport(_) => None,
        }
    }

    pub fn tag(&self) -> (r: Option<&str>)
        ensures
            match self {
                ApiError::Tagged { tag, .. } => r matches Some(t) && t@ == tag@,
                _ => r is None,
            },
    {
        match self {
            ApiError::Tagged { tag, .. } => Some(tag.as_str()),
            _ => None,
        }
    }

    /// The session (or whatever the route names) is gone.
    pub fn is_not_found(&self) -> (r: bool)
        ensures
            r == (spec_status(self) == Some(404u16)),
    {
        match self.status() {
            Some(s) => s == 404,
            None => false,
        }
    }

    /// A location-scoped route handed a directory the service cannot resolve
    /// answers 500 with an EMPTY body: a bad workspace, not a server fault.
    pub fn is_unresolvable_location(&self) -> (r: bool)
        ensures
            r == spec_unresolvable(self),
    {
        match self {
            ApiError::Http { status, body } => *status == 500 && is_blank_text(body.as_str()),
            _ => false,
        }
    }

    /// The error as it reads.
    pub fn message(&self) -> (r: String)
        ensures
            r@ == api_error_text(self),
    {
        match self {
            ApiError::Tagged { tag, message, status } => {
                let mut r = string_of("OpenCode 2 ");
                push_str(&mut r, tag.as_str());
                push_str(&mut r, " (HTTP ");
                push_decimal(&mut r, *status as u64);
                push_str(&mut r, "): ");
                push_str(&mut r, message.as_str());
                r
            },
            ApiError::Http { status, body } => {
                let mut r = string_of("OpenCode 2 request failed with HTTP ");
                push_decimal(&mut r, *status as u64);
                if !is_blank_text(body.as_str()) {
                    push_str(&mut r, ": ");
                    push_str(&mut r, body.as_str());
                }
                r
            },
            ApiError::Transport(m) => m.clone(),
        }
    }
}

/// The text of a string value.
pub open spec fn text_of(j: Json) -> Option<Seq<char>> {
    opt_str(Some(j))
}

/// The service's structured error, `{ _tag, message }` (other members
/// ignored), read the way any derived two-field record is read: from an
/// object, or from a positional array of exactly the two.
pub open spec fn spec_tagged(j: Option<Json>) -> Option<(Seq<char>, Seq<char>)> {
    match j {
        Some(Json::Object(entries)) => match (
            opt_str(member(entries@, "_tag"@)),
            opt_str(member(entries@, "message"@)),
        ) {
            (Some(t), Some(m)) => Some((t, m)),
            _ => None,
        },
        Some(Json::Array(items)) => if items@.len() == 2 && text_of(items@[0]) is Some && text_of(
            items@[1],
        ) is Some {
            Some((text_of(items@[0])->0, text_of(items@[1])->0))
        } else {
            None
        },
        _ => None,
    }
}

fn tagged_error(j: Option<&Json>) -> (r: Option<(String, String)>)
    ensures
        match spec_tagged(crate::json::deref(j)) {
            Some((t, m)) => r matches Some((rt, rm)) && rt@ == t && rm@ == m,
            None => r is None,
        },
{
    match j {
        Some(v) => match v {
            Json::Object(_) => {
                let tag = match v.get("_tag") {
                    Some(t) => t.as_str(),
                    None => None,
                };
                let message = match v.get("message") {
                    Some(m) => m.as_str(),
                    None => None,
                };
                match (tag, message) {
                    (Some(t), Some(m)) => Some((string_of(t), string_of(m))),
                    _ => None,
                }
            },
            Json::Array(items) => {
                if items.len() != 2 {
                    return None;
                }
                match (items[0].as_str(), items[1].as_str()) {
                    (Some(t), Some(m)) => Some((string_of(t), string_of(m))),
                    _ => None,
                }
            },
            _ => None,
        },
        None => None,
    }
}

/// Recovers what a failed request means. A non-2xx answer keeps its status,
/// and its body (read lossily as UTF-8) either is the service's structured
/// error or is kept as text; every other failure is a transport failure with
/// the wire's own message. `parsed_body` is that body text read as JSON, when
/// it is JSON at all.
pub fn classify(error: &WireError, parsed_body: Option<&Json>) -> (r: ApiError)
    ensures
        match error {
            WireError::Status { status, body } => match spec_tagged(crate::json::deref(parsed_body)) {
                Some((t, m)) => r matches ApiError::Tagged { tag, message, status: s } && tag@ == t
                    && message@ == m && s == *status,
                None => r matches ApiError::Http { status: s, body: b } && s == *status && b@
                    == lossy_view(body@),
            },
            _ => r matches ApiError::Transport(m) && m@ == error_text(error),
        },
{
    match error {
        WireError::Status { status, body } => match tagged_error(parsed_body) {
            Some((tag, message)) => ApiError::Tagged { tag, message, status: *status },
            None => ApiError::Http { status: *status, body: lossy_text(body.as_slice()) },
        },
        _ => ApiError::Transport(error.message()),
    }
}

pub open spec fn missing_text(what: Seq<char>) -> Seq<char> {
    "OpenCode 2 returned no "@ + what + " in its response"@
}

pub open spec fn unreadable_text(what: Seq<char>) -> Seq<char> {
    "OpenCode 2 returned an unreadable "@ + what + " response"@
}

/// Unwraps the `{ data }` envelope of a route that has one. (`what` names
/// the payload in the error.)
pub fn data(response: Json, what: &str) -> (r: Result<Json, ApiError>)
    ensures
        match response {
            Json::Object(entries) => match member(entries@, "data"@) {
                Some(v) => r == Ok::<Json, ApiError>(v),
                None => r matches Err(ApiError::Transport(m)) && m@ == missing_text(what@),
            },
            _ => r matches Err(ApiError::Transport(m)) && m@ == unreadable_text(what@),
        },
{
    let ghost whole = response;
    match response {
        Json::Object(mut entries) => {
            let ghost e0 = entries@;
            assert(whole matches Json::Object(x) && x@ == e0);
            let n = entries.len();
            let mut i: usize = 0;
            assert(e0.skip(0) =~= e0);
            while i < n
                invariant
                    n == entries@.len(),
                    entries@ == e0,
                    whole matches Json::Object(x) && x@ == e0,
                    whole == response,
                    0 <= i <= n,
                    member(e0, "data"@) == member(e0.skip(i as int), "data"@),
                decreases n - i,
            {
                assert(e0.skip(i as int).drop_first() =~= e0.skip(i + 1));
                assert(e0.skip(i as int)[0] == e0[i as int]);
                if str_eq(entries[i].0.as_str(), "data") {
                    let (_, v) = entries.remove(i);
                    assert(member(e0, "data"@) == Some(v));
                    return Ok(v);
                }
                i = i + 1;
            }
            assert(member(e0, "data"@) is None);
            let mut m = string_of("OpenCode 2 returned no ");
            push_str(&mut m, what);
            push_str(&mut m, " in its response");
            Err(ApiError::Transport(m))
        },
        _ => {
            let mut m = string_of("OpenCode 2 returned an unreadable ");
            push_str(&mut m, what);
            push_str(&mut m, " response");
            Err(ApiError::Transport(m))
        },
    }
}

/// The continuation of a decoded page. Both cursors are minted on every page,
/// the last one included, so only an empty page ends a walk: its cursor is
/// dropped here, where no caller can get that wrong.
pub fn page_next(item_count: usize, next: Option<String>) -> (r: Option<String>)
    ensures
        item_count == 0 ==> r is None,
        item_count > 0 ==> r == next,
{
    if item_count == 0 {
        None
    } else {
        next
    }
}


/// A local request answers in milliseconds; this budget only covers a
/// machine under load.
pub const REQUEST_TIMEOUT_MS: u64 = 10000;

/// Health is on the start path, where a hung probe would eat the whole start
/// budget.
pub const HEALTH_TIMEOUT_MS: u64 = 2000;

/// A transcript page and a session export walk every stored message.
pub const TRANSFER_TIMEOUT_MS: u64 = 60000;

/// Forking copies every retained message into a new session.
pub const FORK_TIMEOUT_MS: u64 = 120000;

/// One call of the API: what goes on the wire. The answer comes back through
/// `classify` on failure and through `data` where the route has an envelope.
#[derive(Debug)]
pub struct ApiRequest {
    pub method: &'static str,
    pub path: String,
    pub body: Option<Json>,
    pub timeout_ms: u64,
}

/// How the service admits a prompt into a session that is already running.
#[derive(Clone, Copy, Debug, PartialEq, Eq)]
pub enum Delivery {
    Steer,
    Queue,
}

pub open spec fn delivery_text(d: Delivery) -> Seq<char> {
    match d {
        Delivery::Steer => "steer"@,
        Delivery::Queue => "queue"@,
    }
}

/// An answer to a permission request.
#[derive(Clone, Copy, Debug, PartialEq, Eq)]
pub enum PermissionReply {
    Once,
    /// Writes a persistent allow rule into the user's own configuration.
    Always,
    Reject,
}

/// A model as a session refers to it (no `modelID`: that belongs to the
/// catalogue's entries).
#[derive(Clone, Debug)]
pub struct ModelRef {
    pub id: String,
    pub provider_id: String,
    pub variant: Option<String>,
}

/// The fork boundary as the service ACCEPTS it: `through` carries no message
/// id, and sending one is refused.
#[derive(Clone, Debug)]
pub enum ForkRequestBoundary {
    Before { message_id: String },
    Through,
}

pub open spec fn request_is(r: ApiRequest, method: Seq<char>, path: Seq<char>, timeout: u64) -> bool {
    r.method@ == method && r.path@ == path && r.timeout_ms == timeout
}

/// A request without a body.
pub open spec fn bare(r: ApiRequest, method: Seq<char>, path: Seq<char>, timeout: u64) -> bool {
    request_is(r, method, path, timeout) && r.body is None
}

/// The members of an object, in order (nothing for any other value).
pub open spec fn members(j: Json) -> Seq<(String, Json)> {
    match j {
        Json::Object(es) => es@,
        _ => Seq::empty(),
    }
}

pub open spec fn is_text_entry(e: (String, Json), key: Seq<char>, value: Seq<char>) -> bool {
    &&& e.0@ == key
    &&& e.1 matches Json::String(s) && s@ == value
}

/// `{"id", "providerID"[, "variant"]}`, the variant left out when absent.
pub open spec fn is_model_json(j: Json, m: ModelRef) -> bool {
    &&& j is Object
    &&& members(j).len() == if m.variant is Some {
        3int
    } else {
        2int
    }
    &&& is_text_entry(members(j)[0], "id"@, m.id@)
    &&& is_text_entry(members(j)[1], "providerID"@, m.provider_id@)
    &&& m.variant matches Some(v) ==> is_text_entry(members(j)[2], "variant"@, v@)
}

/// `{"type": "through"}` or `{"type": "before", "messageID": ..}`.
pub open spec fn is_boundary_json(j: Json, b: ForkRequestBoundary) -> bool {
    &&& j is Object
    &&& match b {
        ForkRequestBoundary::Through => members(j).len() == 1 && is_text_entry(
            members(j)[0],
            "type"@,
            "through"@,
        ),
        ForkRequestBoundary::Before { message_id } => members(j).len() == 2 && is_text_entry(
            members(j)[0],
            "type"@,
            "before"@,
        ) && is_text_entry(members(j)[1], "messageID"@, message_id@),
    }
}

/// The body of a request, as an object's members.
pub open spec fn body_members(r: ApiRequest) -> Seq<(String, Json)> {
    match r.body {
        Some(b) => members(b),
        None => Seq::empty(),
    }
}

pub open spec fn has_object_body(r: ApiRequest) -> bool {
    r.body matches Some(b) && (b is Object)
}

fn text_entry(key: &str, value: &str) -> (r: (String, Json))
    ensures
        is_text_entry(r, key@, value@),
{
    (string_of(key), Json::text(value))
}

fn model_json(m: &ModelRef) -> (r: Json)
    ensures
        is_model_json(r, *m),
{
    let mut es: Vec<(String, Json)> = Vec::new();
    es.push(text_entry("id", m.id.as_str()));
    es.push(text_entry("providerID", m.provider_id.as_str()));
    if let Some(v) = &m.variant {
        es.push(text_entry("variant", v.as_str()));
    }
    Json::Object(es)
}

fn boundary_json(b: &ForkRequestBoundary) -> (r: Json)
    ensures
        is_boundary_json(r, *b),
{
    let mut es: Vec<(String, Json)> = Vec::new();
    match b {
        ForkRequestBoundary::Through => {
            es.push(text_entry("type", "through"));
        },
        ForkRequestBoundary::Before { message_id } => {
            es.push(text_entry("type", "before"));
            es.push(text_entry("messageID", message_id.as_str()));
        },
    }
    Json::Object(es)
}

/// `/api/session/{session}` followed by `tail`.
pub open spec fn session_path(session: Seq<char>, tail: Seq<char>) -> Seq<char> {
    "/api/session/"@ + segment(session) + tail
}

/// `/api/session/{session}{mid}{item}` followed by `tail`.
pub open spec fn session_item_path(
    session: Seq<char>,
    mid: Seq<char>,
    item: Seq<char>,
    tail: Seq<char>,
) -> Seq<char> {
    "/api/session/"@ + segment(session) + mid + segment(item) + tail
}

fn session_route(session: &str, tail: &str) -> (r: String)
    ensures
        r@ == session_path(session@, tail@),
{
    let mut r = string_of("/api/session/");
    let s = encode_path_segment(session);
    push_str(&mut r, s.as_str());
    push_str(&mut r, tail);
    r
}

fn session_item_route(session: &str, mid: &str, item: &str, tail: &str) -> (r: String)
    ensures
        r@ == session_item_path(session@, mid@, item@, tail@),
{
    let mut r = session_route(session, mid);
    let i = encode_path_segment(item);
    push_str(&mut r, i.as_str());
    push_str(&mut r, tail);
    r
}

fn delivery_str(d: Delivery) -> (r: &'static str)
    ensures
        r@ == delivery_text(d),
{
    match d {
        Delivery::Steer => "steer",
        Delivery::Queue => "queue",
    }
}

/// `GET /api/health`, which answers bare, under its own tight budget.
pub fn health() -> (r: ApiRequest)
    ensures
        bare(r, "GET"@, "/api/health"@, HEALTH_TIMEOUT_MS),
{
    ApiRequest { method: "GET", path: string_of("/api/health"), body: None, timeout_ms: HEALTH_TIMEOUT_MS }
}

/// Creates a session with a CLIENT-MINTED id, so the caller can subscribe to
/// its events before the session exists. `directory` must be the exact string
/// later used to list the session.
pub fn create_session(id: &str, agent: Option<&str>, model: Option<&ModelRef>, directory: &str) -> (r:
    ApiRequest)
    ensures
        request_is(r, "POST"@, "/api/session"@, REQUEST_TIMEOUT_MS),
        has_object_body(r),
        body_members(r).len() == 2 + (if agent is Some {
            1int
        } else {
            0int
        }) + (if model is Some {
            1int
        } else {
            0int
        }),
        is_text_entry(body_members(r)[0], "id"@, id@),
        body_members(r)[1].0@ == "location"@,
        members(body_members(r)[1].1).len() == 1 && body_members(r)[1].1 is Object,
        is_text_entry(members(body_members(r)[1].1)[0], "directory"@, directory@),
        agent matches Some(a) ==> is_text_entry(body_members(r)[2], "agent"@, a@),
        model matches Some(m) ==> ({
            let k = if agent is Some {
                3int
            } else {
                2int
            };
            body_members(r)[k].0@ == "model"@ && is_model_json(body_members(r)[k].1, *m)
        }),
{
    let mut es: Vec<(String, Json)> = Vec::new();
    es.push(text_entry("id", id));
    let mut loc: Vec<(String, Json)> = Vec::new();
    loc.push(text_entry("directory", directory));
    es.push((string_of("location"), Json::Object(loc)));
    if let Some(a) = agent {
        es.push(text_entry("agent", a));
    }
    if let Some(m) = model {
        es.push((string_of("model"), model_json(m)));
    }
    ApiRequest {
        method: "POST",
        path: string_of("/api/session"),
        body: Some(Json::Object(es)),
        timeout_ms: REQUEST_TIMEOUT_MS,
    }
}

pub fn get_session(session: &str) -> (r: ApiRequest)
    ensures
        bare(r, "GET"@, session_path(session@, ""@), REQUEST_TIMEOUT_MS),
{
    ApiRequest { method: "GET", path: session_route(session, ""), body: None, timeout_ms: REQUEST_TIMEOUT_MS }
}

pub fn delete_session(session: &str) -> (r: ApiRequest)
    ensures
        bare(r, "DELETE"@, session_path(session@, ""@), REQUEST_TIMEOUT_MS),
{
    ApiRequest {
        method: "DELETE",
        path: session_route(session, ""),
        body: None,
        timeout_ms: REQUEST_TIMEOUT_MS,
    }
}

pub fn rename_session(session: &str, title: &str) -> (r: ApiRequest)
    ensures
        request_is(r, "POST"@, session_path(session@, "/rename"@), REQUEST_TIMEOUT_MS),
        has_object_body(r),
        body_members(r).len() == 1,
        is_text_entry(body_members(r)[0], "title"@, title@),
{
    let mut es: Vec<(String, Json)> = Vec::new();
    es.push(text_entry("title", title));
    ApiRequest {
        method: "POST",
        path: session_route(session, "/rename"),
        body: Some(Json::Object(es)),
        timeout_ms: REQUEST_TIMEOUT_MS,
    }
}

/// Lists sessions; the answer is a page.
pub fn list_sessions(
    directory: Option<&str>,
    parent_id: Option<&str>,
    order: Order,
    limit: usize,
    cursor: Option<&str>,
) -> (r: ApiRequest)
    ensures
        bare(
            r,
            "GET"@,
            "/api/session"@ + spec_query(
                session_list_pairs(opt_view(directory), opt_view(parent_id), order, limit as nat, opt_view(cursor)),
            ),
            REQUEST_TIMEOUT_MS,
        ),
{
    let mut path = string_of("/api/session");
    let q = session_list_query(directory, parent_id, order, limit, cursor);
    push_str(&mut path, q.as_str());
    ApiRequest { method: "GET", path, body: None, timeout_ms: REQUEST_TIMEOUT_MS }
}

/// A page of a session's messages.
pub fn list_messages(session: &str, order: Order, limit: Option<usize>, cursor: Option<&str>) -> (r:
    ApiRequest)
    ensures
        bare(
            r,
            "GET"@,
            session_path(
                session@,
                "/message"@ + spec_query(
                    message_list_pairs(
                        order,
                        match limit {
                            Some(l) => Some(l as nat),
                            None => None,
                        },
                        opt_view(cursor),
                    ),
                ),
            ),
            TRANSFER_TIMEOUT_MS,
        ),
{
    let mut tail = string_of("/message");
    let q = message_list_query(order, limit, cursor);
    push_str(&mut tail, q.as_str());
    ApiRequest {
        method: "GET",
        path: session_route(session, tail.as_str()),
        body: None,
        timeout_ms: TRANSFER_TIMEOUT_MS,
    }
}

pub open spec fn bool_text(b: bool) -> Seq<char> {
    if b {
        "true"@
    } else {
        "false"@
    }
}

pub fn export_session(session: &str, sanitize: bool) -> (r: ApiRequest)
    ensures
        bare(
            r,
            "GET"@,
            session_path(session@, "/export?sanitize="@ + bool_text(sanitize)),
            TRANSFER_TIMEOUT_MS,
        ),
{
    let mut tail = string_of("/export?sanitize=");
    push_str(
        &mut tail,
        if sanitize {
            "true"
        } else {
            "false"
        },
    );
    ApiRequest {
        method: "GET",
        path: session_route(session, tail.as_str()),
        body: None,
        timeout_ms: TRANSFER_TIMEOUT_MS,
    }
}

/// Submits a prompt. Without a delivery the service chooses, which is what an
/// idle session wants.
pub fn prompt(session: &str, text: &str, delivery: Option<Delivery>) -> (r: ApiRequest)
    ensures
        request_is(r, "POST"@, session_path(session@, "/prompt"@), REQUEST_TIMEOUT_MS),
        has_object_body(r),
        body_members(r).len() == if delivery is Some {
            2int
        } else {
            1int
        },
        is_text_entry(body_members(r)[0], "text"@, text@),
        delivery matches Some(d) ==> is_text_entry(body_members(r)[1], "delivery"@, delivery_text(d)),
{
    let mut es: Vec<(String, Json)> = Vec::new();
    es.push(text_entry("text", text));
    if let Some(d) = delivery {
        es.push(text_entry("delivery", delivery_str(d)));
    }
    ApiRequest {
        method: "POST",
        path: session_route(session, "/prompt"),
        body: Some(Json::Object(es)),
        timeout_ms: REQUEST_TIMEOUT_MS,
    }
}

/// Runs a registered command; the service acknowledges with no content and
/// reports progress on the event stream.
pub fn command(session: &str, name: &str, arguments: &str, delivery: Option<Delivery>) -> (r:
    ApiRequest)
    ensures
        request_is(r, "POST"@, session_path(session@, "/command"@), REQUEST_TIMEOUT_MS),
        has_object_body(r),
        body_members(r).len() == if delivery is Some {
            3int
        } else {
            2int
        },
        is_text_entry(body_members(r)[0], "command"@, name@),
        is_text_entry(body_members(r)[1], "text"@, arguments@),
        delivery matches Some(d) ==> is_text_entry(body_members(r)[2], "delivery"@, delivery_text(d)),
{
    let mut es: Vec<(String, Json)> = Vec::new();
    es.push(text_entry("command", name));
    es.push(text_entry("text", arguments));
    if let Some(d) = delivery {
        es.push(text_entry("delivery", delivery_str(d)));
    }
    ApiRequest {
        method: "POST",
        path: session_route(session, "/command"),
        body: Some(Json::Object(es)),
        timeout_ms: REQUEST_TIMEOUT_MS,
    }
}

/// The undelivered inbox entries, left as raw JSON for the caller to filter.
pub fn list_inbox(session: &str) -> (r: ApiRequest)
    ensures
        bare(r, "GET"@, session_path(session@, "/inbox"@), REQUEST_TIMEOUT_MS),
{
    ApiRequest {
        method: "GET",
        path: session_route(session, "/inbox"),
        body: None,
        timeout_ms: REQUEST_TIMEOUT_MS,
    }
}

/// Promotes a queued entry so it interrupts the running turn.
pub fn steer_inbox(session: &str, inbox_id: &str) -> (r: ApiRequest)
    ensures
        bare(r, "POST"@, session_item_path(session@, "/inbox/"@, inbox_id@, "/steer"@), REQUEST_TIMEOUT_MS),
{
    ApiRequest {
        method: "POST",
        path: session_item_route(session, "/inbox/", inbox_id, "/steer"),
        body: None,
        timeout_ms: REQUEST_TIMEOUT_MS,
    }
}

/// Demotes an entry so it waits for the running turn to finish.
pub fn queue_inbox(session: &str, inbox_id: &str) -> (r: ApiRequest)
    ensures
        bare(r, "POST"@, session_item_path(session@, "/inbox/"@, inbox_id@, "/queue"@), REQUEST_TIMEOUT_MS),
{
    ApiRequest {
        method: "POST",
        path: session_item_route(session, "/inbox/", inbox_id, "/queue"),
        body: None,
        timeout_ms: REQUEST_TIMEOUT_MS,
    }
}

pub fn cancel_inbox(session: &str, inbox_id: &str) -> (r: ApiRequest)
    ensures
        bare(r, "DELETE"@, session_item_path(session@, "/inbox/"@, inbox_id@, ""@), REQUEST_TIMEOUT_MS),
{
    ApiRequest {
        method: "DELETE",
        path: session_item_route(session, "/inbox/", inbox_id, ""),
        body: None,
        timeout_ms: REQUEST_TIMEOUT_MS,
    }
}

/// Interrupts the running turn. The route takes no body and answers a BARE
/// `{ interrupted }`, outside the `{ data }` envelope.
pub fn interrupt(session: &str) -> (r: ApiRequest)
    ensures
        bare(r, "POST"@, session_path(session@, "/interrupt"@), REQUEST_TIMEOUT_MS),
{
    ApiRequest {
        method: "POST",
        path: session_route(session, "/interrupt"),
        body: None,
        timeout_ms: REQUEST_TIMEOUT_MS,
    }
}

/// What an interrupt answer says, read the way a struct whose one field is
/// the boolean `interrupted` is read from a document: an object whose
/// `interrupted` member is a boolean (other members are ignored), or an array
/// holding just that boolean. An answer wrapped in `{ data }` has no such
/// member and says nothing.
pub open spec fn interrupted_flag(response: Json) -> Option<bool> {
    match response {
        Json::Object(entries) => opt_bool(member(entries@, "interrupted"@)),
        Json::Array(items) => if items@.len() == 1 {
            opt_bool(Some(items@[0]))
        } else {
            None
        },
        _ => None,
    }
}

/// The text of a payload that would not decode, after the decoder's own
/// account of why.
pub open spec fn invalid_text(what: Seq<char>, detail: Seq<char>) -> Seq<char> {
    "OpenCode 2 returned an invalid "@ + what + ": "@ + detail
}

/// Reads the answer to `interrupt`: whether there was a turn to interrupt.
/// An answer without the flag is a transport failure whose text ends with
/// `detail`, the decoder's account of the document.
pub fn interrupt_answer(response: &Json, detail: &str) -> (r: Result<bool, ApiError>)
    ensures
        match interrupted_flag(*response) {
            Some(b) => r == Ok::<bool, ApiError>(b),
            None => r matches Err(ApiError::Transport(m)) && m@ == invalid_text(
                "interrupt"@,
                detail@,
            ),
        },
{
    let flag = match response {
        Json::Object(_) => match response.get("interrupted") {
            Some(v) => v.as_bool(),
            None => None,
        },
        Json::Array(items) => if items.len() == 1 {
            items[0].as_bool()
        } else {
            None
        },
        _ => None,
    };
    match flag {
        Some(b) => Ok(b),
        None => {
            let mut m = string_of("OpenCode 2 returned an invalid ");
            push_str(&mut m, "interrupt");
            push_str(&mut m, ": ");
            push_str(&mut m, detail);
            Err(ApiError::Transport(m))
        },
    }
}

pub fn fork(session: &str, boundary: &ForkRequestBoundary) -> (r: ApiRequest)
    ensures
        request_is(r, "POST"@, session_path(session@, "/fork"@), FORK_TIMEOUT_MS),
        has_object_body(r),
        body_members(r).len() == 1,
        body_members(r)[0].0@ == "boundary"@,
        is_boundary_json(body_members(r)[0].1, *boundary),
{
    let mut es: Vec<(String, Json)> = Vec::new();
    es.push((string_of("boundary"), boundary_json(boundary)));
    ApiRequest {
        method: "POST",
        path: session_route(session, "/fork"),
        body: Some(Json::Object(es)),
        timeout_ms: FORK_TIMEOUT_MS,
    }
}

pub fn switch_model(session: &str, model: &ModelRef) -> (r: ApiRequest)
    ensures
        request_is(r, "POST"@, session_path(session@, "/model"@), REQUEST_TIMEOUT_MS),
        has_object_body(r),
        body_members(r).len() == 1,
        body_members(r)[0].0@ == "model"@,
        is_model_json(body_members(r)[0].1, *model),
{
    let mut es: Vec<(String, Json)> = Vec::new();
    es.push((string_of("model"), model_json(model)));
    ApiRequest {
        method: "POST",
        path: session_route(session, "/model"),
        body: Some(Json::Object(es)),
        timeout_ms: REQUEST_TIMEOUT_MS,
    }
}

pub fn switch_agent(session: &str, agent: &str) -> (r: ApiRequest)
    ensures
        request_is(r, "POST"@, session_path(session@, "/agent"@), REQUEST_TIMEOUT_MS),
        has_object_body(r),
        body_members(r).len() == 1,
        is_text_entry(body_members(r)[0], "agent"@, agent@),
{
    let mut es: Vec<(String, Json)> = Vec::new();
    es.push(text_entry("agent", agent));
    ApiRequest {
        method: "POST",
        path: session_route(session, "/agent"),
        body: Some(Json::Object(es)),
        timeout_ms: REQUEST_TIMEOUT_MS,
    }
}

pub fn list_permissions(session: &str) -> (r: ApiRequest)
    ensures
        bare(r, "GET"@, session_path(session@, "/permission"@), REQUEST_TIMEOUT_MS),
{
    ApiRequest {
        method: "GET",
        path: session_route(session, "/permission"),
        body: None,
        timeout_ms: REQUEST_TIMEOUT_MS,
    }
}

pub open spec fn refused_rule_text() -> Seq<char> {
    "OpenCode 2 permission replies must not save a persistent rule"@
}

/// Answers one permission request. `always` is refused here, before any
/// request goes out: it would write a persistent allow rule into the user's
/// own configuration, which is not this client's decision to make.
pub fn reply_permission(session: &str, request_id: &str, reply: PermissionReply) -> (r: Result<
    ApiRequest,
    ApiError,
>)
    ensures
        reply == PermissionReply::Always ==> (r matches Err(ApiError::Transport(m)) && m@
            == refused_rule_text()),
        reply == PermissionReply::Once ==> (r matches Ok(q) && request_is(
            q,
            "POST"@,
            session_item_path(session@, "/permission/"@, request_id@, "/reply"@),
            REQUEST_TIMEOUT_MS,
        ) && has_object_body(q) && body_members(q).len() == 1 && is_text_entry(
            body_members(q)[0],
            "reply"@,
            "once"@,
        )),
        reply == PermissionReply::Reject ==> (r matches Ok(q) && request_is(
            q,
            "POST"@,
            session_item_path(session@, "/permission/"@, request_id@, "/reply"@),
            REQUEST_TIMEOUT_MS,
        ) && has_object_body(q) && body_members(q).len() == 1 && is_text_entry(
            body_members(q)[0],
            "reply"@,
            "reject"@,
        )),
{
    let word = match reply {
        PermissionReply::Always => {
            return Err(
                ApiError::Transport(
                    string_of("OpenCode 2 permission replies must not save a persistent rule"),
                ),
            );
        },
        PermissionReply::Once => "once",
        PermissionReply::Reject => "reject",
    };
    let mut es: Vec<(String, Json)> = Vec::new();
    es.push(text_entry("reply", word));
    Ok(
        ApiRequest {
            method: "POST",
            path: session_item_route(session, "/permission/", request_id, "/reply"),
            body: Some(Json::Object(es)),
            timeout_ms: REQUEST_TIMEOUT_MS,
        },
    )
}

pub fn list_forms(session: &str) -> (r: ApiRequest)
    ensures
        bare(r, "GET"@, session_path(session@, "/form"@), REQUEST_TIMEOUT_MS),
{
    ApiRequest {
        method: "GET",
        path: session_route(session, "/form"),
        body: None,
        timeout_ms: REQUEST_TIMEOUT_MS,
    }
}

/// Answers a form with `answer`, the fields keyed by their `key`.
pub fn reply_form(session: &str, form_id: &str, answer: Json) -> (r: ApiRequest)
    ensures
        request_is(
            r,
            "POST"@,
            session_item_path(session@, "/form/"@, form_id@, "/reply"@),
            REQUEST_TIMEOUT_MS,
        ),
        has_object_body(r),
        body_members(r).len() == 1,
        body_members(r)[0].0@ == "answer"@,
        body_members(r)[0].1 == answer,
{
    let mut es: Vec<(String, Json)> = Vec::new();
    es.push((string_of("answer"), answer));
    ApiRequest {
        method: "POST",
        path: session_item_route(session, "/form/", form_id, "/reply"),
        body: Some(Json::Object(es)),
        timeout_ms: REQUEST_TIMEOUT_MS,
    }
}

pub fn cancel_form(session: &str, form_id: &str) -> (r: ApiRequest)
    ensures
        bare(r, "POST"@, session_item_path(session@, "/form/"@, form_id@, "/cancel"@), REQUEST_TIMEOUT_MS),
{
    ApiRequest {
        method: "POST",
        path: session_item_route(session, "/form/", form_id, "/cancel"),
        body: None,
        timeout_ms: REQUEST_TIMEOUT_MS,
    }
}

/// The sessions the service is currently running.
pub fn active_sessions() -> (r: ApiRequest)
    ensures
        bare(r, "GET"@, "/api/session/active"@, REQUEST_TIMEOUT_MS),
{
    ApiRequest {
        method: "GET",
        path: string_of("/api/session/active"),
        body: None,
        timeout_ms: REQUEST_TIMEOUT_MS,
    }
}

/// The ids of the running sessions: the payload is keyed BY session id, so the
/// set is its keys.
pub fn active_session_ids(data: &Json) -> (r: Result<Vec<String>, ApiError>)
    ensures
        match *data {
            Json::Object(es) => r matches Ok(ids) && ids@.len() == es@.len() && forall|i: int|
                0 <= i < ids@.len() ==> #[trigger] ids@[i]@ == es@[i].0@,
            _ => r matches Err(ApiError::Transport(m)) && m@
                == "OpenCode 2 returned an unreadable active session map"@,
        },
{
    match data {
        Json::Object(es) => {
            let n = es.len();
            let mut ids: Vec<String> = Vec::new();
            let mut i: usize = 0;
            while i < n
                invariant
                    n == es@.len(),
                    0 <= i <= n,
                    ids@.len() == i,
                    forall|k: int| 0 <= k < i ==> #[trigger] ids@[k]@ == es@[k].0@,
                decreases n - i,
            {
                ids.push(es[i].0.clone());
                i = i + 1;
            }
            Ok(ids)
        },
        _ => Err(ApiError::Transport(string_of("OpenCode 2 returned an unreadable active session map"))),
    }
}

/// A catalogue route, scoped by deepObject `location[directory]`.
pub open spec fn catalogue_path(route: Seq<char>, directory: Option<Seq<char>>) -> Seq<char> {
    route + spec_query(location_pairs(directory))
}

fn catalogue(route: &str, directory: Option<&str>) -> (r: ApiRequest)
    ensures
        bare(r, "GET"@, catalogue_path(route@, opt_view(directory)), REQUEST_TIMEOUT_MS),
{
    let mut path = string_of(route);
    let q = location_query(directory);
    push_str(&mut path, q.as_str());
    ApiRequest { method: "GET", path, body: None, timeout_ms: REQUEST_TIMEOUT_MS }
}

/// The model catalogue of a location (`{ location, data }`).
pub fn list_models(directory: Option<&str>) -> (r: ApiRequest)
    ensures
        bare(r, "GET"@, catalogue_path("/api/model"@, opt_view(directory)), REQUEST_TIMEOUT_MS),
{
    catalogue("/api/model", directory)
}

pub fn list_agents(directory: Option<&str>) -> (r: ApiRequest)
    ensures
        bare(r, "GET"@, catalogue_path("/api/agent"@, opt_view(directory)), REQUEST_TIMEOUT_MS),
{
    catalogue("/api/agent", directory)
}

pub fn list_skills(directory: Option<&str>) -> (r: ApiRequest)
    ensures
        bare(r, "GET"@, catalogue_path("/api/skill"@, opt_view(directory)), REQUEST_TIMEOUT_MS),
{
    catalogue("/api/skill", directory)
}

/// The command catalogue of a location.
pub fn list_commands(directory: Option<&str>) -> (r: ApiRequest)
    ensures
        bare(r, "GET"@, catalogue_path("/api/command"@, opt_view(directory)), REQUEST_TIMEOUT_MS),
{
    catalogue("/api/command", directory)
}

/// The plugin registry of a location, asked while a cold location's command
/// catalogue fills in stages.
pub fn command_plugins(directory: Option<&str>) -> (r: ApiRequest)
    ensures
        bare(r, "GET"@, catalogue_path("/api/plugin"@, opt_view(directory)), REQUEST_TIMEOUT_MS),
{
    catalogue("/api/plugin", directory)
}

/// A plugin that answers to one of two names and has settled.
pub open spec fn plugin_settled_as(p: Json, a: Seq<char>, b: Seq<char>) -> bool {
    let id = opt_str(json_get(p, "id"@));
    let status = opt_str(opt_get(json_get(p, "state"@), "status"@));
    (id == Some(a) || id == Some(b)) && (status == Some("active"@) || status == Some("failed"@))
}

pub open spec fn some_plugin_settled(ps: Seq<Json>, a: Seq<char>, b: Seq<char>) -> bool {
    exists|i: int| 0 <= i < ps.len() && plugin_settled_as(#[trigger] ps[i], a, b)
}

/// Whether the three plugins that publish commands (built-in, configured,
/// skills) have each settled, as active or failed; nothing when the answer
/// carries no plugin list.
pub open spec fn spec_plugins_ready(response: Json) -> Option<bool> {
    match crate::json::opt_array(json_get(response, "data"@)) {
        Some(ps) => Some(
            some_plugin_settled(ps, "opencode.command"@, "command"@) && some_plugin_settled(
                ps,
                "opencode.config.command"@,
                "config-command"@,
            ) && some_plugin_settled(ps, "opencode.config.skill"@, "config-skill"@),
        ),
        None => None,
    }
}

fn any_plugin_settled(ps: &Vec<Json>, a: &str, b: &str) -> (r: bool)
    ensures
        r == some_plugin_settled(ps@, a@, b@),
{
    let n = ps.len();
    let mut i: usize = 0;
    while i < n
        invariant
            n == ps@.len(),
            0 <= i <= n,
            forall|k: int| 0 <= k < i ==> !plugin_settled_as(#[trigger] ps@[k], a@, b@),
        decreases n - i,
    {
        let p = &ps[i];
        let named = match p.get("id") {
            Some(v) => match v.as_str() {
                Some(id) => str_eq(id, a) || str_eq(id, b),
                None => false,
            },
            None => false,
        };
        let state = p.get("state");
        let settled = match crate::json::get_in(state, "status") {
            Some(v) => match v.as_str() {
                Some(st) => str_eq(st, "active") || str_eq(st, "failed"),
                None => false,
            },
            None => false,
        };
        if named && settled {
            assert(plugin_settled_as(ps@[i as int], a@, b@));
            return true;
        }
        i = i + 1;
    }
    false
}

pub fn command_plugins_ready(response: &Json) -> (r: Option<bool>)
    ensures
        r == spec_plugins_ready(*response),
{
    let ps = match response.get("data") {
        Some(d) => match d.as_array() {
            Some(items) => items,
            None => return None,
        },
        None => return None,
    };
    let a = any_plugin_settled(ps, "opencode.command", "command");
    let b = any_plugin_settled(ps, "opencode.config.command", "config-command");
    let c = any_plugin_settled(ps, "opencode.config.skill", "config-skill");
    Some(a && b && c)
}

/// Whether the command list just read can be kept: once every plugin has
/// settled, or, where the plugin registry could not be read, once the list is
/// no longer empty.
pub fn commands_settled(ready: Option<bool>, command_count: usize) -> (r: bool)
    ensures
        r == (ready == Some(true) || (ready is None && command_count > 0)),
{
    match ready {
        Some(b) => b,
        None => command_count > 0,
    }
}


/// The service answers an unresolvable workspace with a 500 and an EMPTY
/// body; such a failure, classified, reads as an unresolvable location and
/// keeps its status.
pub proof fn law_bodyless_500_is_unresolvable(body: Seq<u8>, parsed: Option<Json>, r: ApiError)
    requires
        body.len() == 0,
        spec_tagged(parsed) is None,
        r matches ApiError::Http { status: s, body: b } && s == 500 && b@ == lossy_view(body),
    ensures
        spec_unresolvable(&r),
        spec_status(&r) == Some(500u16),
{
    assert(body =~= Seq::<u8>::empty());
    assert(crate::text::trim_start(Seq::<char>::empty()) == Seq::<char>::empty());
    assert(crate::text::trim_end(Seq::<char>::empty()) == Seq::<char>::empty());
}

/// Only a 500 whose body is blank names a workspace the service cannot
/// resolve: a 500 whose body has any text that is not white space is a
/// server fault, and so is every other status and every failure without one.
pub proof fn law_only_a_blank_500_is_unresolvable(e: ApiError)
    ensures
        spec_unresolvable(&e) <==> (e matches ApiError::Http { status, body } && status == 500
            && forall|i: int| 0 <= i < body@.len() ==> crate::text::is_ws(#[trigger] body@[i])),
        (e matches ApiError::Http { status, body } && exists|i: int|
            0 <= i < body@.len() && !crate::text::is_ws(#[trigger] body@[i])) ==> !spec_unresolvable(&e),
{
    match e {
        ApiError::Http { status, body } => crate::text::lemma_trim_empty_iff_all_ws(body@),
        _ => {},
    }
}

/// Characters that survive percent-encoding: the unreserved ones and `%`.
pub open spec fn is_url_safe(c: char) -> bool {
    ||| c == '%'
    ||| ('A' <= c && c <= 'Z')
    ||| ('a' <= c && c <= 'z')
    ||| ('0' <= c && c <= '9')
    ||| c == '-'
    ||| c == '.'
    ||| c == '_'
    ||| c == '~'
}

/// An encoded segment holds nothing but unreserved characters and `%`
/// escapes, so no value can break a path or query apart: `/`, `[`, `]`, `&`,
/// `=` and `?` never survive.
pub proof fn law_segments_are_url_safe(bytes: Seq<u8>)
    ensures
        forall|i: int| 0 <= i < percent_encode(bytes).len() ==> is_url_safe(
            #[trigger] percent_encode(bytes)[i],
        ),
    decreases bytes.len(),
{
    if bytes.len() > 0 {
        law_segments_are_url_safe(bytes.drop_last());
        let a = percent_encode(bytes.drop_last());
        let e = encode_byte(bytes.last());
        let b = bytes.last();
        assert(forall|k: int| 0 <= k < e.len() ==> is_url_safe(#[trigger] e[k])) by {
            if !is_unreserved(b) {
                assert(hex_digit((b / 16) as nat) == e[1]);
                assert(hex_digit((b % 16) as nat) == e[2]);
            }
        }
        assert forall|i: int| 0 <= i < (a + e).len() implies is_url_safe(#[trigger] (a + e)[i]) by {
            if i < a.len() {
                assert((a + e)[i] == a[i]);
            } else {
                assert((a + e)[i] == e[i - a.len()]);
            }
        }
    }
}

/// A cursor takes the order's place: a listing query that carries a cursor
/// never also carries an order (the order is baked into the cursor, and
/// sending both is refused), and one without a cursor always states it.
pub proof fn law_cursor_replaces_order(
    directory: Option<Seq<char>>,
    parent_id: Option<Seq<char>>,
    order: Order,
    limit: nat,
    page_limit: Option<nat>,
    cursor: Option<Seq<char>>,
)
    ensures
        ({
            let s = session_list_pairs(directory, parent_id, order, limit, cursor);
            let m = message_list_pairs(order, page_limit, cursor);
            &&& cursor matches Some(c) ==> s.last() == ("cursor"@, c) && m.last() == ("cursor"@, c)
            &&& cursor is Some ==> forall|i: int| 0 <= i < s.len() ==> (#[trigger] s[i]).0 != "order"@
            &&& cursor is Some ==> forall|i: int| 0 <= i < m.len() ==> (#[trigger] m[i]).0 != "order"@
            &&& cursor is None ==> s.last() == ("order"@, order_text(order)) && m.last() == (
                "order"@,
                order_text(order),
            )
            &&& cursor is None ==> forall|i: int| 0 <= i < s.len() ==> (#[trigger] s[i]).0 != "cursor"@
            &&& cursor is None ==> forall|i: int| 0 <= i < m.len() ==> (#[trigger] m[i]).0 != "cursor"@
        }),
{
    reveal_strlit("order");
    reveal_strlit("cursor");
    reveal_strlit("limit");
    reveal_strlit("directory");
    reveal_strlit("parentID");
    assert("limit"@[0] != "order"@[0]);
    assert("limit"@ != "order"@);
    assert("limit"@.len() != "cursor"@.len());
    assert("directory"@.len() != "order"@.len() && "directory"@.len() != "cursor"@.len());
    assert("parentID"@.len() != "order"@.len() && "parentID"@.len() != "cursor"@.len());
    let b0 = seq![("limit"@, decimal(limit))];
    let b1 = opt_pair(b0, "directory"@, directory);
    let b2 = opt_pair(b1, "parentID"@, parent_id);
    assert forall|i: int| 0 <= i < b2.len() implies (#[trigger] b2[i]).0 != "order"@ && b2[i].0
        != "cursor"@ by {
        if i < b1.len() {
            assert(b2[i] == b1[i]);
            if i < b0.len() {
                assert(b1[i] == b0[i]);
            } else {
                assert(b1[i].0 == "directory"@);
            }
        } else {
            assert(b2[i].0 == "parentID"@);
        }
    }
    let m0 = match page_limit {
        Some(l) => seq![("limit"@, decimal(l))],
        None => Seq::<(Seq<char>, Seq<char>)>::empty(),
    };
    assert forall|i: int| 0 <= i < m0.len() implies (#[trigger] m0[i]).0 != "order"@ && m0[i].0
        != "cursor"@ by {}
    let s = session_list_pairs(directory, parent_id, order, limit, cursor);
    let m = message_list_pairs(order, page_limit, cursor);
    assert(s.drop_last() =~= b2);
    assert(m.drop_last() =~= m0);
    assert forall|i: int| 0 <= i < s.len() - 1 implies #[trigger] s[i] == b2[i] by {}
    assert forall|i: int| 0 <= i < m.len() - 1 implies #[trigger] m[i] == m0[i] by {}
}


/// One `key=value` parameter, both sides percent-encoded.
pub open spec fn parameter(pair: (Seq<char>, Seq<char>)) -> Seq<char> {
    segment(pair.0) + seq!['='] + segment(pair.1)
}

/// The parameters joined with `&`, in order.
pub open spec fn joined_parameters(pairs: Seq<(Seq<char>, Seq<char>)>) -> Seq<char>
    decreases pairs.len(),
{
    if pairs.len() == 0 {
        Seq::empty()
    } else if pairs.len() == 1 {
        parameter(pairs[0])
    } else {
        joined_parameters(pairs.drop_last()) + seq!['&'] + parameter(pairs.last())
    }
}

/// A query built by pushing pairs one after another is empty for no pair,
/// and otherwise exactly one `?` in front of the parameters joined with `&`
/// in push order. (`Query::new` starts from `spec_query` of no pairs, and
/// each `Query::push` extends the pairs by one.)
pub proof fn law_query_closed_form(pairs: Seq<(Seq<char>, Seq<char>)>)
    ensures
        spec_query(pairs) == if pairs.len() == 0 {
            Seq::<char>::empty()
        } else {
            seq!['?'] + joined_parameters(pairs)
        },
        forall|k: Seq<char>, v: Seq<char>|
            #![trigger spec_query(pairs.push((k, v)))]
            spec_query(pairs.push((k, v))) == query_step(spec_query(pairs), k, v),
    decreases pairs.len(),
{
    assert forall|k: Seq<char>, v: Seq<char>|
        #![trigger spec_query(pairs.push((k, v)))]
        spec_query(pairs.push((k, v))) == query_step(spec_query(pairs), k, v) by {
        assert(pairs.push((k, v)).drop_last() =~= pairs);
    }
    if pairs.len() > 0 {
        let init = pairs.drop_last();
        law_query_closed_form(init);
        let last = pairs.last();
        if init.len() == 0 {
            assert(pairs[0] == last);
            assert(spec_query(init) == Seq::<char>::empty());
            assert(spec_query(pairs) =~= seq!['?'] + parameter(last));
        } else {
            let q = spec_query(init);
            assert(q.len() > 0);
            assert(spec_query(pairs) =~= seq!['?'] + joined_parameters(init) + seq!['&']
                + parameter(last));
            assert(seq!['?'] + joined_parameters(pairs) =~= seq!['?'] + joined_parameters(init)
                + seq!['&'] + parameter(last));
        }
    }
}
} // verus!
