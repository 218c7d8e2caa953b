//! Computer Use: the native helper's MCP protocol decisions, its process
//! registration, the preview it publishes, and the per-location MCP bridge.
//!
//! The helper loads the Cua Driver SDK into its own process and speaks MCP
//! over stdin and stdout; everything that touches the SDK, the files or the
//! pipes is driven from outside, with the decisions taken here.
use vstd::prelude::*;
use crate::json::{json_get, opt_bool, opt_get, opt_str, opt_u64, str_eq, Json, JsonNumber};
use crate::service::{join_path, path_join};
use crate::text::{chars_of, decimal, push_char, push_decimal, push_str, string_of};
use crate::wire::{lossy_text, lossy_view};

verus! {

/// The platform the helper runs on, as far as the library file name goes.
#[derive(Clone, Copy, Debug, PartialEq, Eq)]
pub enum HostOs {
    Windows,
    MacOs,
    Other,
}

pub open spec fn library_file(os: HostOs) -> Seq<char> {
    match os {
        HostOs::Windows => "cua_driver_sdk.dll"@,
        HostOs::MacOs => "libcua_driver_sdk.dylib"@,
        HostOs::Other => "libcua_driver_sdk.so"@,
    }
}

/// The file name of the packaged SDK library, which is loaded from the
/// helper's own directory and never searched for.
pub fn library_name(os: HostOs) -> (r: &'static str)
    ensures
        r@ == library_file(os),
{
    match os {
        HostOs::Windows => "cua_driver_sdk.dll",
        HostOs::MacOs => "libcua_driver_sdk.dylib",
        HostOs::Other => "libcua_driver_sdk.so",
    }
}

/// The decimal rendering of a signed number.
pub open spec fn signed_decimal(n: int) -> Seq<char> {
    if n < 0 {
        seq!['-'] + decimal((-n) as nat)
    } else {
        decimal(n as nat)
    }
}

fn push_signed(out: &mut String, n: i32)
    ensures
        final(out)@ == old(out)@ + signed_decimal(n as int),
{
    if n < 0 {
        push_char(out, '-');
        let m: u64 = if n == i32::MIN {
            2147483648u64
        } else {
            (-n) as u64
        };
        push_decimal(out, m);
        assert(old(out)@.push('-') + decimal(m as nat) =~= old(out)@ + signed_decimal(n as int));
    } else {
        push_decimal(out, n as u64);
    }
}

pub open spec fn driver_failure_text(status: i32, error: Seq<u8>) -> Seq<char> {
    "Cua Driver failed ("@ + signed_decimal(status as int) + "): "@ + lossy_view(error)
}

/// An SDK status: zero is success; anything else fails with the SDK's own
/// error text, read lossily as UTF-8.
pub fn check(status: i32, error: &[u8]) -> (r: Result<(), String>)
    ensures
        status == 0 ==> r is Ok,
        status != 0 ==> (r matches Err(m) && m@ == driver_failure_text(status, error@)),
{
    if status != 0 {
        let mut m = string_of("Cua Driver failed (");
        push_signed(&mut m, status);
        push_str(&mut m, "): ");
        let detail = lossy_text(error);
        push_str(&mut m, detail.as_str());
        return Err(m);
    }
    Ok(())
}

/// The SDK must report its version and accept ABI 1.1.
pub fn abi_supported(version_status: i32, compatible: bool) -> (r: Result<(), String>)
    ensures
        (version_status == 0 && compatible) ==> r is Ok,
        !(version_status == 0 && compatible) ==> (r matches Err(m) && m@
            == "Cua Driver SDK ABI 1.1 is required"@),
{
    if version_status != 0 || !compatible {
        return Err(string_of("Cua Driver SDK ABI 1.1 is required"));
    }
    Ok(())
}

pub open spec fn stopped_before_text() -> Seq<char> {
    "Computer Use stopped before the action started"@
}

pub open spec fn stopped_during_text() -> Seq<char> {
    "Computer Use stopped; action completion is unknown. Inspect fresh state before retrying."@
}

/// An action is not started once Computer Use was stopped.
pub fn admit_operation(cancelled: bool) -> (r: Result<(), String>)
    ensures
        cancelled ==> (r matches Err(m) && m@ == stopped_before_text()),
        !cancelled ==> r is Ok,
{
    if cancelled {
        return Err(string_of("Computer Use stopped before the action started"));
    }
    Ok(())
}

/// Waiting for one SDK operation to complete.
pub struct OperationWait {
    was_cancelled: bool,
}

impl OperationWait {
    pub closed spec fn cancel_sent(&self) -> bool {
        self.was_cancelled
    }

    pub fn new() -> (r: OperationWait)
        ensures
            !r.cancel_sent(),
    {
        OperationWait { was_cancelled: false }
    }

    /// Nothing completed within one poll. Returns whether to cancel the
    /// operation now: once, the first time a stop is seen.
    pub fn poll_timed_out(&mut self, stop_requested: bool) -> (cancel_now: bool)
        ensures
            cancel_now == (!old(self).cancel_sent() && stop_requested),
            final(self).cancel_sent() == (old(self).cancel_sent() || stop_requested),
    {
        if !self.was_cancelled && stop_requested {
            self.was_cancelled = true;
            return true;
        }
        false
    }

    /// The operation's outcome. After a cancel, whatever the SDK reported
    /// cannot be trusted to say whether the action happened, so it is never
    /// passed on as a success, and an interrupted action is not retried.
    pub fn finish(&self, outcome: Result<Vec<u8>, String>) -> (r: Result<Vec<u8>, String>)
        ensures
            self.cancel_sent() ==> (r matches Err(m) && m@ == stopped_during_text()),
            !self.cancel_sent() ==> r == outcome,
    {
        if self.was_cancelled {
            return Err(
                string_of(
                    "Computer Use stopped; action completion is unknown. Inspect fresh state before retrying.",
                ),
            );
        }
        outcome
    }
}

/// A request line longer than this ends the session.
pub const MAX_MESSAGE_BYTES: u64 = 33554432;

pub fn message_too_long(len: u64) -> (r: bool)
    ensures
        r == (len > MAX_MESSAGE_BYTES),
{
    len > MAX_MESSAGE_BYTES
}

pub open spec fn is_text_entry(e: (String, Json), key: Seq<char>, value: Seq<char>) -> bool {
    &&& e.0@ == key
    &&& e.1 matches Json::String(s) && s@ == value
}

pub open spec fn is_number_entry(e: (String, Json), key: Seq<char>, n: JsonNumber) -> bool {
    e.0@ == key && e.1 == Json::Number(n)
}

pub open spec fn members(j: Json) -> Seq<(String, Json)> {
    match j {
        Json::Object(es) => es@,
        _ => Seq::empty(),
    }
}

/// What an MCP request asks of the helper.
#[derive(Debug)]
pub enum McpCall<'a> {
    /// Answer with `initialize_result`.
    Initialize,
    /// The SDK's tool catalogue.
    ListTools,
    /// Run a tool; `arguments` absent means `{}`.
    CallTool { name: &'a str, arguments: Option<&'a Json> },
    /// Answer `{}`.
    Ping,
}

/// `/params/<key>` of a request.
pub open spec fn param(request: Json, key: Seq<char>) -> Option<Json> {
    opt_get(json_get(request, "params"@), key)
}

/// The routing of one MCP request by its `method`.
pub fn dispatch_plan<'a>(request: &'a Json) -> (r: Result<McpCall<'a>, String>)
    ensures
        match opt_str(json_get(*request, "method"@)) {
            Some(m) => if m == "initialize"@ {
                r matches Ok(McpCall::Initialize)
            } else if m == "tools/list"@ {
                r matches Ok(McpCall::ListTools)
            } else if m == "tools/call"@ {
                match opt_str(param(*request, "name"@)) {
                    Some(n) => r matches Ok(McpCall::CallTool { name, arguments }) && name@ == n
                        && crate::json::deref(arguments) == param(*request, "arguments"@),
                    None => r matches Err(e) && e@ == "tools/call requires a name"@,
                }
            } else if m == "ping"@ {
                r matches Ok(McpCall::Ping)
            } else {
                r matches Err(e) && e@ == "unsupported MCP method"@
            },
            None => r matches Err(e) && e@ == "unsupported MCP method"@,
        },
{
    let method = match request.get("method") {
        Some(v) => v.as_str(),
        None => None,
    };
    let m = match method {
        Some(m) => m,
        None => return Err(string_of("unsupported MCP method")),
    };
    if str_eq(m, "initialize") {
        return Ok(McpCall::Initialize);
    }
    if str_eq(m, "tools/list") {
        return Ok(McpCall::ListTools);
    }
    if str_eq(m, "tools/call") {
        let params = request.get("params");
        let name = match crate::json::get_in(params, "name") {
            Some(v) => v.as_str(),
            None => None,
        };
        return match name {
            Some(n) => Ok(McpCall::CallTool { name: n, arguments: crate::json::get_in(params, "arguments") }),
            None => Err(string_of("tools/call requires a name")),
        };
    }
    if str_eq(m, "ping") {
        return Ok(McpCall::Ping);
    }
    Err(string_of("unsupported MCP method"))
}

fn text_entry(key: &str, value: &str) -> (r: (String, Json))
    ensures
        is_text_entry(r, key@, value@),
{
    (string_of(key), Json::text(value))
}

/// `{"protocolVersion": "2025-06-18", "capabilities": {"tools": {}},
/// "serverInfo": {"name": "Waku Cua Driver", "version": "0.28.0"}}`.
pub fn initialize_result() -> (r: Json)
    ensures
        members(r).len() == 3,
        is_text_entry(members(r)[0], "protocolVersion"@, "2025-06-18"@),
        members(r)[1].0@ == "capabilities"@,
        members(members(r)[1].1).len() == 1,
        members(members(r)[1].1)[0].0@ == "tools"@,
        members(members(r)[1].1)[0].1 matches Json::Object(t) && t@.len() == 0,
        members(r)[2].0@ == "serverInfo"@,
        members(members(r)[2].1).len() == 2,
        is_text_entry(members(members(r)[2].1)[0], "name"@, "Waku Cua Driver"@),
        is_text_entry(members(members(r)[2].1)[1], "version"@, "0.28.0"@),
{
    let mut tools: Vec<(String, Json)> = Vec::new();
    tools.push((string_of("tools"), Json::Object(Vec::new())));
    let mut info: Vec<(String, Json)> = Vec::new();
    info.push(text_entry("name", "Waku Cua Driver"));
    info.push(text_entry("version", "0.28.0"));
    let mut es: Vec<(String, Json)> = Vec::new();
    es.push(text_entry("protocolVersion", "2025-06-18"));
    es.push((string_of("capabilities"), Json::Object(tools)));
    es.push((string_of("serverInfo"), Json::Object(info)));
    Json::Object(es)
}

/// The JSON-RPC response to the request with `id`: its result, or an internal
/// error (-32603) carrying the failure's message.
pub fn response_json(id: Json, outcome: Result<Json, String>) -> (r: Json)
    ensures
        members(r).len() == 3,
        is_text_entry(members(r)[0], "jsonrpc"@, "2.0"@),
        members(r)[1].0@ == "id"@ && members(r)[1].1 == id,
        outcome matches Ok(v) ==> members(r)[2].0@ == "result"@ && members(r)[2].1 == v,
        outcome matches Err(m) ==> members(r)[2].0@ == "error"@ && members(members(r)[2].1).len()
            == 2 && is_number_entry(
            members(members(r)[2].1)[0],
            "code"@,
            JsonNumber::NegInt(-32603i64),
        ) && is_text_entry(members(members(r)[2].1)[1], "message"@, m@),
{
    let mut es: Vec<(String, Json)> = Vec::new();
    es.push(text_entry("jsonrpc", "2.0"));
    es.push((string_of("id"), id));
    match outcome {
        Ok(v) => es.push((string_of("result"), v)),
        Err(m) => {
            let mut err: Vec<(String, Json)> = Vec::new();
            err.push((string_of("code"), Json::Number(JsonNumber::NegInt(-32603))));
            err.push((string_of("message"), Json::String(m)));
            es.push((string_of("error"), Json::Object(err)));
        },
    }
    Json::Object(es)
}

/// Only a successful `get_window_state` call publishes a preview.
pub fn publishes_preview(request: &Json) -> (r: bool)
    ensures
        r == (opt_str(param(*request, "name"@)) == Some("get_window_state"@)),
{
    let params = request.get("params");
    match crate::json::get_in(params, "name") {
        Some(v) => match v.as_str() {
            Some(n) => str_eq(n, "get_window_state"),
            None => false,
        },
        None => false,
    }
}

/// A content item that is a PNG image.
pub open spec fn is_png_image(j: Json) -> bool {
    opt_str(json_get(j, "type"@)) == Some("image"@) && opt_str(json_get(j, "mimeType"@)) == Some(
        "image/png"@,
    )
}

/// The first PNG image among `items[i..]`.
pub open spec fn first_png_from(items: Seq<Json>, i: int) -> Option<Json>
    decreases items.len() - i,
{
    if i < 0 || i >= items.len() {
        None
    } else if is_png_image(items[i]) {
        Some(items[i])
    } else {
        first_png_from(items, i + 1)
    }
}

/// What a preview carries.
pub struct PreviewFacts {
    pub window_id: u64,
    pub width: u64,
    pub height: u64,
    pub app_name: Seq<char>,
    pub window_title: Seq<char>,
    pub data: Seq<char>,
}

/// A `get_window_state` result worth previewing: not an error, a capture
/// frame not marked invalid, a window id and capture size, and a PNG among
/// its content. The app name defaults to `App`, the title to empty.
pub open spec fn spec_preview(result: Json) -> Option<PreviewFacts> {
    if opt_bool(json_get(result, "isError"@)) == Some(true) {
        None
    } else {
        match json_get(result, "structuredContent"@) {
            None => None,
            Some(state) => if opt_bool(json_get(state, "screenshot_frame_valid"@)) == Some(false) {
                None
            } else {
                match (
                    opt_u64(json_get(state, "window_id"@)),
                    opt_u64(json_get(state, "screenshot_width"@)),
                    opt_u64(json_get(state, "screenshot_height"@)),
                    crate::json::opt_array(json_get(result, "content"@)),
                ) {
                    (Some(id), Some(w), Some(h), Some(items)) => match first_png_from(items, 0) {
                        Some(image) => match opt_str(json_get(image, "data"@)) {
                            Some(d) => Some(
                                PreviewFacts {
                                    window_id: id,
                                    width: w,
                                    height: h,
                                    app_name: match opt_str(json_get(state, "app_name"@)) {
                                        Some(a) => a,
                                        None => "App"@,
                                    },
                                    window_title: match opt_str(json_get(state, "window_title"@)) {
                                        Some(t) => t,
                                        None => ""@,
                                    },
                                    data: d,
                                },
                            ),
                            None => None,
                        },
                        None => None,
                    },
                    _ => None,
                }
            },
        }
    }
}

/// `{"target": {"windowId", "bundleId": "", "appName", "windowTitle",
/// "width", "height"}, "imageUrl": "data:image/png;base64,<data>"}`.
pub open spec fn is_preview_json(j: Json, f: PreviewFacts) -> bool {
    let t = members(j)[0].1;
    &&& members(j).len() == 2
    &&& members(j)[0].0@ == "target"@
    &&& members(t).len() == 6
    &&& is_number_entry(members(t)[0], "windowId"@, JsonNumber::PosInt(f.window_id))
    &&& is_text_entry(members(t)[1], "bundleId"@, ""@)
    &&& is_text_entry(members(t)[2], "appName"@, f.app_name)
    &&& is_text_entry(members(t)[3], "windowTitle"@, f.window_title)
    &&& is_number_entry(members(t)[4], "width"@, JsonNumber::PosInt(f.width))
    &&& is_number_entry(members(t)[5], "height"@, JsonNumber::PosInt(f.height))
    &&& is_text_entry(members(j)[1], "imageUrl"@, "data:image/png;base64,"@ + f.data)
}

fn text_or<'a>(j: Option<&'a Json>, fallback: &'a str) -> (r: &'a str)
    ensures
        match opt_str(crate::json::deref(j)) {
            Some(s) => r@ == s,
            None => r@ == fallback@,
        },
{
    match j {
        Some(v) => match v.as_str() {
            Some(s) => s,
            None => fallback,
        },
        None => fallback,
    }
}

fn first_png(items: &Vec<Json>) -> (r: Option<&Json>)
    ensures
        crate::json::deref(r) == first_png_from(items@, 0),
{
    let n = items.len();
    let mut i: usize = 0;
    while i < n
        invariant
            n == items@.len(),
            0 <= i <= n,
            first_png_from(items@, 0) == first_png_from(items@, i as int),
        decreases n - i,
    {
        let item = &items[i];
        let kind = match item.get("type") {
            Some(v) => match v.as_str() {
                Some(k) => str_eq(k, "image"),
                None => false,
            },
            None => false,
        };
        let mime = match item.get("mimeType") {
            Some(v) => match v.as_str() {
                Some(m) => str_eq(m, "image/png"),
                None => false,
            },
            None => false,
        };
        if kind && mime {
            return Some(item);
        }
        i = i + 1;
    }
    None
}

/// The preview a `get_window_state` result publishes, if it is worth one.
pub fn preview_update(result: &Json) -> (r: Option<Json>)
    ensures
        match spec_preview(*result) {
            Some(f) => r matches Some(j) && is_preview_json(j, f),
            None => r is None,
        },
{
    let is_error = match result.get("isError") {
        Some(v) => v.as_bool(),
        None => None,
    };
    if is_error == Some(true) {
        return None;
    }
    let state = match result.get("structuredContent") {
        Some(s) => s,
        None => return None,
    };
    let valid = match state.get("screenshot_frame_valid") {
        Some(v) => v.as_bool(),
        None => None,
    };
    if valid == Some(false) {
        return None;
    }
    let id = match state.get("window_id") {
        Some(v) => v.as_u64(),
        None => None,
    };
    let width = match state.get("screenshot_width") {
        Some(v) => v.as_u64(),
        None => None,
    };
    let height = match state.get("screenshot_height") {
        Some(v) => v.as_u64(),
        None => None,
    };
    let items = match result.get("content") {
        Some(v) => v.as_array(),
        None => None,
    };
    let (id, width, height, items) = match (id, width, height, items) {
        (Some(a), Some(b), Some(c), Some(d)) => (a, b, c, d),
        _ => return None,
    };
    let image = match first_png(items) {
        Some(i) => i,
        None => return None,
    };
    let data = match image.get("data") {
        Some(v) => match v.as_str() {
            Some(d) => d,
            None => return None,
        },
        None => return None,
    };
    let app = text_or(state.get("app_name"), "App");
    let title = text_or(state.get("window_title"), "");
    let mut target: Vec<(String, Json)> = Vec::new();
    target.push((string_of("windowId"), Json::Number(JsonNumber::PosInt(id))));
    target.push(text_entry("bundleId", ""));
    target.push(text_entry("appName", app));
    target.push(text_entry("windowTitle", title));
    target.push((string_of("width"), Json::Number(JsonNumber::PosInt(width))));
    target.push((string_of("height"), Json::Number(JsonNumber::PosInt(height))));
    let mut url = string_of("data:image/png;base64,");
    push_str(&mut url, data);
    let mut es: Vec<(String, Json)> = Vec::new();
    es.push((string_of("target"), Json::Object(target)));
    es.push((string_of("imageUrl"), Json::String(url)));
    Some(Json::Object(es))
}

proof fn lemma_first_png_at(items: Seq<Json>, i: int, k: int)
    requires
        0 <= i <= k < items.len(),
        is_png_image(items[k]),
        forall|j: int| i <= j < k ==> !is_png_image(#[trigger] items[j]),
    ensures
        first_png_from(items, i) == Some(items[k]),
    decreases k - i,
{
    if i < k {
        lemma_first_png_at(items, i + 1, k);
    }
}

/// A captured window is previewed: a result that is not an error, whose
/// `structuredContent` has a window id and capture size and is not marked
/// invalid, and whose content holds a PNG with data, publishes a preview of
/// that window, showing the first PNG's data.
pub proof fn law_a_captured_window_is_previewed(result: Json, state: Json, items: Seq<Json>, k: int)
    requires
        opt_bool(json_get(result, "isError"@)) != Some(true),
        json_get(result, "structuredContent"@) == Some(state),
        opt_bool(json_get(state, "screenshot_frame_valid"@)) != Some(false),
        opt_u64(json_get(state, "window_id"@)) is Some,
        opt_u64(json_get(state, "screenshot_width"@)) is Some,
        opt_u64(json_get(state, "screenshot_height"@)) is Some,
        crate::json::opt_array(json_get(result, "content"@)) == Some(items),
        0 <= k < items.len(),
        is_png_image(items[k]),
        forall|j: int| 0 <= j < k ==> !is_png_image(#[trigger] items[j]),
        opt_str(json_get(items[k], "data"@)) is Some,
    ensures
        spec_preview(result) matches Some(f) && Some(f.data) == opt_str(json_get(items[k], "data"@)),
{
    lemma_first_png_at(items, 0, k);
}

/// A preview describes the window of the result it came from: its id and
/// capture size are the ones in `structuredContent`, and so are its app name
/// and window title whenever those are strings; only a missing or non-string
/// one falls back, to `App` and to the empty title.
pub proof fn law_preview_describes_the_window(result: Json, state: Json)
    requires
        json_get(result, "structuredContent"@) == Some(state),
    ensures
        spec_preview(result) matches Some(f) ==> {
            &&& opt_u64(json_get(state, "window_id"@)) == Some(f.window_id)
            &&& opt_u64(json_get(state, "screenshot_width"@)) == Some(f.width)
            &&& opt_u64(json_get(state, "screenshot_height"@)) == Some(f.height)
            &&& (opt_str(json_get(state, "window_title"@)) matches Some(t) ==> f.window_title == t)
            &&& (opt_str(json_get(state, "window_title"@)) is None ==> f.window_title == ""@)
            &&& (opt_str(json_get(state, "app_name"@)) matches Some(a) ==> f.app_name == a)
            &&& (opt_str(json_get(state, "app_name"@)) is None ==> f.app_name == "App"@)
        },
{
}

/// A failed capture publishes nothing: an error result, a result without
/// `structuredContent`, a capture marked invalid, and a result whose content
/// holds no PNG never replace the preview.
pub proof fn law_failed_captures_are_not_previewed(result: Json)
    ensures
        opt_bool(json_get(result, "isError"@)) == Some(true) ==> spec_preview(result) is None,
        json_get(result, "structuredContent"@) is None ==> spec_preview(result) is None,
        (json_get(result, "structuredContent"@) matches Some(state) && opt_bool(
            json_get(state, "screenshot_frame_valid"@),
        ) == Some(false)) ==> spec_preview(result) is None,
        (crate::json::opt_array(json_get(result, "content"@)) matches Some(items) && forall|j: int|
            0 <= j < items.len() ==> !is_png_image(#[trigger] items[j])) ==> spec_preview(result) is None,
{
    if let Some(items) = crate::json::opt_array(json_get(result, "content"@)) {
        if forall|j: int| 0 <= j < items.len() ==> !is_png_image(#[trigger] items[j]) {
            lemma_no_png_from(items, 0);
        }
    }
}

proof fn lemma_no_png_from(items: Seq<Json>, i: int)
    requires
        0 <= i,
        forall|j: int| 0 <= j < items.len() ==> !is_png_image(#[trigger] items[j]),
    ensures
        first_png_from(items, i) is None,
    decreases items.len() - i,
{
    if i < items.len() {
        lemma_no_png_from(items, i + 1);
    }
}

/// The helper's process registration with the app that launched it: the
/// directory it registers in (when the app gave one) and its pid.
pub struct Registration {
    pub directory: Option<String>,
    pub pid: u32,
}

pub open spec fn in_directory(directory: Option<String>, name: Seq<char>) -> Option<Seq<char>> {
    match directory {
        Some(d) => Some(path_join(d@, name)),
        None => None,
    }
}

pub open spec fn opt_string_view(o: Option<String>) -> Option<Seq<char>> {
    match o {
        Some(s) => Some(s@),
        None => None,
    }
}

impl Registration {
    fn file(&self, name: &str) -> (r: Option<String>)
        ensures
            opt_string_view(r) == in_directory(self.directory, name@),
    {
        match &self.directory {
            Some(d) => Some(join_path(d.as_str(), name)),
            None => None,
        }
    }

    /// The empty file named by the pid that announces this process.
    pub fn pid_marker(&self) -> (r: Option<String>)
        ensures
            opt_string_view(r) == in_directory(self.directory, decimal(self.pid as nat)),
    {
        let mut name = String::new();
        push_decimal(&mut name, self.pid as u64);
        assert(name@ =~= decimal(self.pid as nat));
        self.file(name.as_str())
    }

    /// The file whose presence asks this process to stop.
    pub fn cancel_marker(&self) -> (r: Option<String>)
        ensures
            opt_string_view(r) == in_directory(self.directory, "cancel-"@ + decimal(self.pid as nat)),
    {
        let mut name = string_of("cancel-");
        push_decimal(&mut name, self.pid as u64);
        self.file(name.as_str())
    }

    /// Stopped from outside: only a registered process can be, by its cancel
    /// marker existing (`marker_exists` says whether it does).
    pub fn cancelled(&self, marker_exists: bool) -> (r: bool)
        ensures
            r == (self.directory is Some && marker_exists),
    {
        self.directory.is_some() && marker_exists
    }

    /// Where the preview of window `window_id` is published.
    pub fn preview_path(&self, window_id: u64) -> (r: Option<String>)
        ensures
            opt_string_view(r) == in_directory(
                self.directory,
                "preview-"@ + decimal(window_id as nat) + ".json"@,
            ),
    {
        let mut name = string_of("preview-");
        push_decimal(&mut name, window_id);
        push_str(&mut name, ".json");
        self.file(name.as_str())
    }
}

/// Preview frames being decoded off the UI thread. Each decode is started
/// under a new generation; only the latest one may replace the frame shown,
/// and a failed decode keeps the previous frame.
pub struct PreviewFrames<T> {
    generation: u64,
    pub current: Option<T>,
}

impl<T> PreviewFrames<T> {
    pub closed spec fn generation(&self) -> u64 {
        self.generation
    }

    /// The frame shown: the public `current` field.
    pub closed spec fn shown(&self) -> Option<T> {
        self.current
    }

    pub fn new() -> (r: PreviewFrames<T>)
        ensures
            r.generation() == 0,
            r.shown() is None,
    {
        PreviewFrames { generation: 0, current: None }
    }

    /// Starts a decode and returns its generation.
    pub fn begin(&mut self) -> (g: u64)
        ensures
            g == final(self).generation(),
            g == next_generation(old(self).generation()),
            final(self).shown() == old(self).shown(),
    {
        self.generation = self.generation.wrapping_add(1);
        self.generation
    }

    /// A decode finished. Its frame is shown only when it is the latest
    /// decode and produced an image; otherwise the shown frame stays.
    pub fn complete(&mut self, generation: u64, image: Option<T>) -> (shown: bool)
        ensures
            final(self).generation() == old(self).generation(),
            shown == (generation == old(self).generation() && image is Some),
            shown ==> final(self).shown() == image,
            !shown ==> final(self).shown() == old(self).shown(),
    {
        if generation != self.generation {
            return false;
        }
        match image {
            Some(i) => {
                self.current = Some(i);
                true
            },
            None => false,
        }
    }
}

impl<T> Default for PreviewFrames<T> {
    fn default() -> (r: PreviewFrames<T>)
        ensures
            r.generation() == 0,
            r.shown() is None,
    {
        PreviewFrames::new()
    }
}

/// The generation after `g`, wrapping.
pub open spec fn next_generation(g: u64) -> u64 {
    if g == u64::MAX {
        0
    } else {
        (g + 1) as u64
    }
}

/// Starting a decode makes every earlier one stale: the generation handed out
/// by one `begin` is never the current one after the next `begin`, so a late
/// completion of it cannot replace the frame.
pub proof fn law_a_newer_decode_makes_older_ones_stale(g: u64)
    ensures
        next_generation(next_generation(g)) != next_generation(g),
{
}

/// `data:image/png;base64,`, the only image URL a preview carries.
pub open spec fn png_prefix() -> Seq<char> {
    "data:image/png;base64,"@
}

/// What the standard, padded base64 decoding makes of some bytes: the bytes
/// they encode, or nothing when they are not valid base64.
pub uninterp spec fn base64_standard_decoded(text: Seq<u8>) -> Option<Seq<u8>>;

/// Decodes with `base64::engine::general_purpose::STANDARD` (`Engine::decode`),
/// reporting a `DecodeError` as nothing. The result is named, not described.
#[verifier::external_body]
fn decode_base64_standard(text: &[u8]) -> (r: Option<Vec<u8>>)
    ensures
        match base64_standard_decoded(text@) {
            Some(b) => r matches Some(v) && v@ == b,
            None => r is None,
        },
{
    base64::Engine::decode(&base64::engine::general_purpose::STANDARD, text).ok()
}

/// Why a preview image URL yields no PNG.
#[derive(Debug, PartialEq, Eq)]
pub enum PreviewError {
    /// "Computer Use preview is not a PNG data URL".
    NotPngDataUrl,
    /// "Computer Use preview contains invalid base64".
    InvalidBase64,
    /// "Computer Use preview is empty".
    Empty,
}

impl PreviewError {
    pub fn message(&self) -> (r: &'static str)
        ensures
            *self == PreviewError::NotPngDataUrl ==> r@
                == "Computer Use preview is not a PNG data URL"@,
            *self == PreviewError::InvalidBase64 ==> r@
                == "Computer Use preview contains invalid base64"@,
            *self == PreviewError::Empty ==> r@ == "Computer Use preview is empty"@,
    {
        match self {
            PreviewError::NotPngDataUrl => "Computer Use preview is not a PNG data URL",
            PreviewError::InvalidBase64 => "Computer Use preview contains invalid base64",
            PreviewError::Empty => "Computer Use preview is empty",
        }
    }
}

/// The PNG bytes of a preview's image URL: the base64 payload after the
/// `data:image/png;base64,` prefix, which must decode to at least one byte.
pub fn preview_png_bytes(image_url: &str) -> (r: Result<Vec<u8>, PreviewError>)
    ensures
        !crate::text::starts_with(image_url@, png_prefix()) ==> r == Err::<Vec<u8>, PreviewError>(
            PreviewError::NotPngDataUrl,
        ),
        crate::text::starts_with(image_url@, png_prefix()) ==> match base64_standard_decoded(
            vstd::utf8::encode_utf8(image_url@.skip(png_prefix().len() as int)),
        ) {
            None => r == Err::<Vec<u8>, PreviewError>(PreviewError::InvalidBase64),
            Some(b) => if b.len() == 0 {
                r == Err::<Vec<u8>, PreviewError>(PreviewError::Empty)
            } else {
                r matches Ok(v) && v@ == b
            },
        },
{
    let url = chars_of(image_url);
    let prefix = chars_of("data:image/png;base64,");
    proof {
        reveal_strlit("data:image/png;base64,");
    }
    let n = url.len();
    if !crate::text::range_starts_with(&url, 0, n, &prefix) {
        assert(url@.subrange(0, n as int) =~= url@);
        return Err(PreviewError::NotPngDataUrl);
    }
    assert(url@.subrange(0, n as int) =~= url@);
    let payload = crate::text::string_of_range(&url, prefix.len(), n);
    let bytes = payload.as_str().as_bytes();
    match decode_base64_standard(bytes) {
        None => Err(PreviewError::InvalidBase64),
        Some(v) => {
            if v.len() == 0 {
                return Err(PreviewError::Empty);
            }
            Ok(v)
        },
    }
}

/// Whether a tool name is one of the JavaScript REPL bridge's own: a server
/// `waku_js_repl_<32 hex digits>` followed by `_js_reset` or `_js`. Answers
/// the server and the tool.
pub open spec fn is_hex_char(c: char) -> bool {
    ('0' <= c && c <= '9') || ('a' <= c && c <= 'f') || ('A' <= c && c <= 'F')
}

pub open spec fn is_bridge_server(server: Seq<char>) -> bool {
    &&& crate::text::starts_with(server, "waku_js_repl_"@)
    &&& server.len() == "waku_js_repl_"@.len() + 32
    &&& forall|i: int| "waku_js_repl_"@.len() <= i < server.len() ==> is_hex_char(#[trigger] server[i])
}

/// The server and tool a name splits into, before the server is checked.
pub open spec fn split_tool(name: Seq<char>) -> Option<(Seq<char>, Seq<char>)> {
    if crate::text::ends_with(name, "_js_reset"@) {
        Some((name.take(name.len() - "_js_reset"@.len()), "js_reset"@))
    } else if crate::text::ends_with(name, "_js"@) {
        Some((name.take(name.len() - "_js"@.len()), "js"@))
    } else {
        None
    }
}

pub open spec fn spec_tool_identity(name: Seq<char>) -> Option<(Seq<char>, Seq<char>)> {
    match split_tool(name) {
        Some((server, tool)) => if is_bridge_server(server) {
            Some((server, tool))
        } else {
            None
        },
        None => None,
    }
}

fn all_hex(v: &Vec<char>, lo: usize) -> (r: bool)
    requires
        lo <= v@.len(),
    ensures
        r == (forall|i: int| lo <= i < v@.len() ==> is_hex_char(#[trigger] v@[i])),
{
    let n = v.len();
    let mut i = lo;
    while i < n
        invariant
            n == v@.len(),
            lo <= i <= n,
            forall|k: int| lo <= k < i ==> is_hex_char(#[trigger] v@[k]),
        decreases n - i,
    {
        let c = v[i];
        if !(('0' <= c && c <= '9') || ('a' <= c && c <= 'f') || ('A' <= c && c <= 'F')) {
            return false;
        }
        i = i + 1;
    }
    true
}

pub fn tool_identity(name: &str) -> (r: Option<(String, &'static str)>)
    ensures
        match spec_tool_identity(name@) {
            Some((server, tool)) => r matches Some((s, t)) && s@ == server && t@ == tool,
            None => r is None,
        },
{
    let v = chars_of(name);
    let n = v.len();
    let reset = chars_of("_js_reset");
    let js = chars_of("_js");
    let lead = chars_of("waku_js_repl_");
    proof {
        reveal_strlit("_js_reset");
        reveal_strlit("_js");
        reveal_strlit("waku_js_repl_");
    }
    assert(v@.subrange(0, n as int) =~= v@);
    let (end, tool): (usize, &'static str) = if crate::text::range_ends_with(&v, 0, n, &reset) {
        (n - 9, "js_reset")
    } else if crate::text::range_ends_with(&v, 0, n, &js) {
        (n - 3, "js")
    } else {
        return None;
    };
    let server = copy_prefix(&v, end);
    assert(server@ =~= v@.take(end as int));
    let m = server.len();
    assert(server@.subrange(0, m as int) =~= server@);
    if m != 45 || !crate::text::range_starts_with(&server, 0, m, &lead) {
        return None;
    }
    if !all_hex(&server, 13) {
        return None;
    }
    Some((crate::text::string_of_range(&server, 0, m), tool))
}

fn copy_prefix(v: &Vec<char>, end: usize) -> (r: Vec<char>)
    requires
        end <= v@.len(),
    ensures
        r@ == v@.take(end as int),
{
    let r = crate::text::copy_range(v, 0, end);
    assert(v@.subrange(0, end as int) =~= v@.take(end as int));
    r
}


/// The key of the session instruction entry that points the agent at the
/// bundled skill.
pub const INSTRUCTION_KEY: &'static str = "waku-computer-use";

pub open spec fn is_lower_hex_char(c: char) -> bool {
    ('0' <= c && c <= '9') || ('a' <= c && c <= 'f')
}

/// A fresh random UUID (`uuid::Uuid::new_v4`) in its simple form: 32
/// lower-case hexadecimal digits, which is all that is stated of it.
#[verifier::external_body]
fn new_bridge_id() -> (r: String)
    ensures
        r@.len() == 32,
        forall|i: int| 0 <= i < r@.len() ==> is_lower_hex_char(#[trigger] r@[i]),
{
    uuid::Uuid::new_v4().simple().to_string()
}

/// A new name for the MCP server one location's bridge registers:
/// `waku_js_repl_` and a random id, the shape `tool_identity` recognizes.
pub fn bridge_server_name() -> (r: String)
    ensures
        is_bridge_server(r@),
        forall|i: int| 13 <= i < r@.len() ==> is_lower_hex_char(#[trigger] r@[i]),
{
    let id = new_bridge_id();
    let mut r = string_of("waku_js_repl_");
    push_str(&mut r, id.as_str());
    proof {
        reveal_strlit("waku_js_repl_");
        assert(r@.take(13) =~= "waku_js_repl_"@);
        assert forall|i: int| 13 <= i < r@.len() implies is_hex_char(#[trigger] r@[i])
            && is_lower_hex_char(r@[i]) by {
            assert(r@[i] == id@[i - 13]);
            assert(is_lower_hex_char(id@[i - 13]));
        }
    }
    r
}

/// The bridge's own tools are recognized for what they are: a bridge server's
/// name followed by `_js` is its `js` tool, and by `_js_reset` its
/// `js_reset` tool.
pub proof fn law_bridge_tools_are_recognized(server: Seq<char>)
    requires
        is_bridge_server(server),
    ensures
        spec_tool_identity(server + "_js"@) == Some((server, "js"@)),
        spec_tool_identity(server + "_js_reset"@) == Some((server, "js_reset"@)),
{
    reveal_strlit("_js");
    reveal_strlit("_js_reset");
    reveal_strlit("waku_js_repl_");
    let a = server + "_js"@;
    let b = server + "_js_reset"@;
    assert(a.skip(a.len() - 3) =~= "_js"@);
    assert(a.take(a.len() - 3) =~= server);
    assert(b.skip(b.len() - 9) =~= "_js_reset"@);
    assert(b.take(b.len() - 9) =~= server);
    // A name ending in `_js` does not end in `_js_reset`: its third-last
    // character is `_`, where `_js_reset` has an `s`.
    assert(!crate::text::ends_with(a, "_js_reset"@)) by {
        if crate::text::ends_with(a, "_js_reset"@) {
            assert(a.skip(a.len() - 9)[6] == a[a.len() - 3]);
            assert(a[a.len() - 3] == '_');
        }
    }
}

fn number_entry(key: &str, n: u64) -> (r: (String, Json))
    ensures
        is_number_entry(r, key@, JsonNumber::PosInt(n)),
{
    (string_of(key), Json::Number(JsonNumber::PosInt(n)))
}

/// The local MCP server a location's bridge registers: the REPL started in
/// the workspace, without the service's extra code-mode wrapper (this is
/// already a JavaScript tool), told where session registrations live.
pub fn bridge_config(repl_path: &str, directory: &str, sessions_directory: &str) -> (r: Json)
    ensures
        members(r).len() == 6,
        is_text_entry(members(r)[0], "type"@, "local"@),
        members(r)[1].0@ == "command"@,
        members(r)[1].1 matches Json::Array(c) && c@.len() == 1 && (c@[0] matches Json::String(
            p,
        ) && p@ == repl_path@),
        is_text_entry(members(r)[2], "cwd"@, directory@),
        members(r)[3].0@ == "codemode"@ && members(r)[3].1 == Json::Bool(false),
        members(r)[4].0@ == "environment"@,
        members(members(r)[4].1).len() == 1,
        is_text_entry(
            members(members(r)[4].1)[0],
            "WAKU_COMPUTER_USE_SESSIONS_DIRECTORY"@,
            sessions_directory@,
        ),
        members(r)[5].0@ == "timeout"@,
        members(members(r)[5].1).len() == 3,
        is_number_entry(members(members(r)[5].1)[0], "startup"@, JsonNumber::PosInt(10000)),
        is_number_entry(members(members(r)[5].1)[1], "catalog"@, JsonNumber::PosInt(10000)),
        is_number_entry(members(members(r)[5].1)[2], "execution"@, JsonNumber::PosInt(300000)),
{
    let mut command: Vec<Json> = Vec::new();
    command.push(Json::text(repl_path));
    let mut environment: Vec<(String, Json)> = Vec::new();
    environment.push(text_entry("WAKU_COMPUTER_USE_SESSIONS_DIRECTORY", sessions_directory));
    let mut timeout: Vec<(String, Json)> = Vec::new();
    timeout.push(number_entry("startup", 10000));
    timeout.push(number_entry("catalog", 10000));
    timeout.push(number_entry("execution", 300000));
    let mut es: Vec<(String, Json)> = Vec::new();
    es.push(text_entry("type", "local"));
    es.push((string_of("command"), Json::Array(command)));
    es.push(text_entry("cwd", directory));
    es.push((string_of("codemode"), Json::Bool(false)));
    es.push((string_of("environment"), Json::Object(environment)));
    es.push((string_of("timeout"), Json::Object(timeout)));
    Json::Object(es)
}

/// What the URL-safe base64 encoding without padding makes of some bytes.
pub uninterp spec fn base64_url_no_pad(bytes: Seq<u8>) -> Seq<char>;

/// Encodes with `base64::engine::general_purpose::URL_SAFE_NO_PAD`
/// (`Engine::encode`). The result is named, not described; the length bound
/// keeps the crate's encoded-length computation from overflowing, where it
/// panics.
#[verifier::external_body]
fn encode_base64_url_no_pad(bytes: &[u8]) -> (r: String)
    requires
        bytes@.len() <= usize::MAX / 2,
    ensures
        r@ == base64_url_no_pad(bytes@),
{
    base64::Engine::encode(&base64::engine::general_purpose::URL_SAFE_NO_PAD, bytes)
}

/// Where a session's registration with the bridge lives: its id, URL-safe
/// base64 without padding, as a `.json` file in the sessions directory.
pub fn session_registration_path(sessions_directory: &str, session_id: &str) -> (r: String)
    requires
        session_id@.len() <= usize::MAX / 8,
    ensures
        r@ == path_join(
            sessions_directory@,
            base64_url_no_pad(vstd::utf8::encode_utf8(session_id@)) + ".json"@,
        ),
{
    let bytes = session_id.as_bytes();
    proof {
        crate::text::lemma_utf8_len_bound(session_id@);
    }
    let mut name = encode_base64_url_no_pad(bytes);
    push_str(&mut name, ".json");
    join_path(sessions_directory, name.as_str())
}

/// A session's registration: which helper serves it, its process directory,
/// and the workspace.
pub fn session_registration(server_path: &str, process_directory: &str, cwd: &str) -> (r: Json)
    ensures
        members(r).len() == 3,
        is_text_entry(members(r)[0], "server_path"@, server_path@),
        is_text_entry(members(r)[1], "process_directory"@, process_directory@),
        is_text_entry(members(r)[2], "cwd"@, cwd@),
{
    let mut es: Vec<(String, Json)> = Vec::new();
    es.push(text_entry("server_path", server_path));
    es.push(text_entry("process_directory", process_directory));
    es.push(text_entry("cwd", cwd));
    Json::Object(es)
}

/// Whether a registration found on disk is still this runtime's: a newer
/// runtime that resumed the session must not be revoked by an older one.
pub fn owns_registration(registration: Option<&Json>, process_directory: &str) -> (r: bool)
    ensures
        r == (opt_str(opt_get(crate::json::deref(registration), "process_directory"@)) == Some(
            process_directory@,
        )),
{
    match crate::json::get_in(registration, "process_directory") {
        Some(v) => match v.as_str() {
            Some(p) => str_eq(p, process_directory),
            None => false,
        },
        None => false,
    }
}

/// The first server of a `list` answer whose `name` is `name`.
pub open spec fn first_named_from(servers: Seq<Json>, name: Seq<char>, i: int) -> Option<Json>
    decreases servers.len() - i,
{
    if i < 0 || i >= servers.len() {
        None
    } else if opt_str(json_get(servers[i], "name"@)) == Some(name) {
        Some(servers[i])
    } else {
        first_named_from(servers, name, i + 1)
    }
}

pub fn find_server<'a>(servers: &'a Vec<Json>, name: &str) -> (r: Option<&'a Json>)
    ensures
        crate::json::deref(r) == first_named_from(servers@, name@, 0),
{
    let n = servers.len();
    let mut i: usize = 0;
    while i < n
        invariant
            n == servers@.len(),
            0 <= i <= n,
            first_named_from(servers@, name@, 0) == first_named_from(servers@, name@, i as int),
        decreases n - i,
    {
        let named = match servers[i].get("name") {
            Some(v) => match v.as_str() {
                Some(s) => str_eq(s, name),
                None => false,
            },
            None => false,
        };
        if named {
            return Some(&servers[i]);
        }
        i = i + 1;
    }
    None
}

/// A server's `status.status`.
pub open spec fn server_status(server: Option<Json>) -> Option<Seq<char>> {
    opt_str(opt_get(opt_get(server, "status"@), "status"@))
}

/// Whether the bridge's server is connected and can be used as it is.
pub fn server_connected(server: Option<&Json>) -> (r: bool)
    ensures
        r == (server_status(crate::json::deref(server)) == Some("connected"@)),
{
    let status = crate::json::get_in(server, "status");
    match crate::json::get_in(status, "status") {
        Some(v) => match v.as_str() {
            Some(s) => str_eq(s, "connected"),
            None => false,
        },
        None => false,
    }
}

/// One look at the bridge's server while it connects.
#[derive(Debug)]
pub enum McpStep {
    Connected,
    /// The service gave up on it; the message says why.
    Failed(String),
    /// "OpenCode 2 timed out connecting Waku Computer Use".
    TimedOut,
    /// Look again shortly.
    Wait,
}

pub open spec fn is_terminal_failure(s: Seq<char>) -> bool {
    s == "failed"@ || s == "disabled"@ || s == "needs_auth"@
}

pub open spec fn mcp_failure_text(server: Option<Json>) -> Seq<char> {
    "OpenCode 2 could not start Waku Computer Use: "@ + match opt_str(
        opt_get(opt_get(server, "status"@), "error"@),
    ) {
        Some(e) => e,
        None => "MCP server unavailable"@,
    }
}

pub fn mcp_connect_step(server: Option<&Json>, deadline_passed: bool) -> (r: McpStep)
    ensures
        ({
            let st = server_status(crate::json::deref(server));
            &&& st == Some("connected"@) ==> r is Connected
            &&& (st matches Some(s) && is_terminal_failure(s)) ==> (r matches McpStep::Failed(m)
                && m@ == mcp_failure_text(crate::json::deref(server)))
            &&& !(st == Some("connected"@) || (st matches Some(s) && is_terminal_failure(s)))
                ==> if deadline_passed {
                r is TimedOut
            } else {
                r is Wait
            }
        }),
{
    proof {
        reveal_strlit("connected");
        reveal_strlit("failed");
        reveal_strlit("disabled");
        reveal_strlit("needs_auth");
    }
    let status = crate::json::get_in(server, "status");
    let state = match crate::json::get_in(status, "status") {
        Some(v) => v.as_str(),
        None => None,
    };
    if let Some(s) = state {
        if str_eq(s, "connected") {
            assert(server_status(crate::json::deref(server)) == Some("connected"@));
            assert("connected"@.len() == 9);
            assert("failed"@.len() == 6);
            assert("disabled"@.len() == 8);
            assert("needs_auth"@.len() == 10);
            assert(!is_terminal_failure("connected"@));
            return McpStep::Connected;
        }
        let failed = str_eq(s, "failed");
        let disabled = str_eq(s, "disabled");
        let auth = str_eq(s, "needs_auth");
        if failed || disabled || auth {
            let mut m = string_of("OpenCode 2 could not start Waku Computer Use: ");
            let detail = match crate::json::get_in(status, "error") {
                Some(v) => match v.as_str() {
                    Some(e) => e,
                    None => "MCP server unavailable",
                },
                None => "MCP server unavailable",
            };
            push_str(&mut m, detail);
            return McpStep::Failed(m);
        }
    }
    if deadline_passed {
        McpStep::TimedOut
    } else {
        McpStep::Wait
    }
}

pub open spec fn instructions_text(server: Seq<char>, skill_path: Seq<char>) -> Seq<char> {
    "Computer Use is enabled for this Waku session. Use the `js` and `js_reset` tools from MCP server `"@
        + server
        + "`. These are direct MCP tools; call them directly. The host routes calls to this session automatically. Before using Computer Use, read the bundled skill at "@
        + skill_path
        + " for the complete native API and operating instructions. Initialize with `await setupComputerUseRuntime({ globals: globalThis })`, then call methods such as `cua.list_apps()` directly. Use `jsRepl.write(...)` for output and `await jsRepl.emitImage(...)` for images. Bindings persist until `js_reset`. The skill documents all available methods; there is no public tool-discovery or generic dispatch API."@
}

/// The session instruction that points the agent at the bridge's tools and
/// the bundled skill.
pub fn computer_use_instructions(server: &str, skill_path: &str) -> (r: String)
    ensures
        r@ == instructions_text(server@, skill_path@),
{
    let mut r = string_of(
        "Computer Use is enabled for this Waku session. Use the `js` and `js_reset` tools from MCP server `",
    );
    push_str(&mut r, server);
    push_str(
        &mut r,
        "`. These are direct MCP tools; call them directly. The host routes calls to this session automatically. Before using Computer Use, read the bundled skill at ",
    );
    push_str(&mut r, skill_path);
    push_str(
        &mut r,
        " for the complete native API and operating instructions. Initialize with `await setupComputerUseRuntime({ globals: globalThis })`, then call methods such as `cua.list_apps()` directly. Use `jsRepl.write(...)` for output and `await jsRepl.emitImage(...)` for images. Bindings persist until `js_reset`. The skill documents all available methods; there is no public tool-discovery or generic dispatch API.",
    );
    r
}

} // verus!
