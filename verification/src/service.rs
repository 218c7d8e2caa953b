//! Discovery, probing and event routing for the shared background service.
//!
//! One background process serves every workspace. It is found through its
//! registration file rather than owned, its health answer must name the very
//! process the file names, and its single event stream is demultiplexed here:
//! a frame reaches exactly the subscribers of the session it belongs to, the
//! `tui.*` remote-control family reaches nobody, and session-less catalogue
//! invalidations reach everybody.
use vstd::prelude::*;
use crate::json::{json_get, opt_array, opt_bool, opt_get, opt_str, opt_u64, str_eq, Json};
use crate::order::{sort_names, sorted, views};
use crate::text::{
    chars_of, decimal, ends_with, push_char, push_decimal, push_str, range_ends_with,
    range_starts_with, starts_with, string_of,
};
use crate::wire::{Endpoint, EndpointError, basic_credential, url_host_port};

verus! {

/// The descriptor the service writes for its clients.
pub struct ServiceRegistration {
    pub id: String,
    pub version: Option<String>,
    pub url: String,
    pub pid: u32,
    pub password: String,
}

/// `Debug` rendering of a string, quotes and escapes included.
pub uninterp spec fn debug_quoted(s: Seq<char>) -> Seq<char>;

/// Renders a string with `format!("{:?}", ..)`. The rendering is named, not
/// described: it depends on the string alone.
#[verifier::external_body]
fn debug_str(s: &str) -> (r: String)
    ensures
        r@ == debug_quoted(s@),
{
    format!("{:?}", s)
}

/// How a registration prints: every field but the password, which prints as
/// `"<redacted>"`.
pub open spec fn registration_text(
    id: Seq<char>,
    version: Option<Seq<char>>,
    url: Seq<char>,
    pid: u32,
) -> Seq<char> {
    "ServiceRegistration { id: "@ + debug_quoted(id) + ", version: "@ + match version {
        Some(v) => "Some("@ + debug_quoted(v) + ")"@,
        None => "None"@,
    } + ", url: "@ + debug_quoted(url) + ", pid: "@ + decimal(pid as nat)
        + ", password: \"<redacted>\" }"@
}

pub open spec fn opt_view(s: Option<String>) -> Option<Seq<char>> {
    match s {
        Some(v) => Some(v@),
        None => None,
    }
}

impl ServiceRegistration {
    /// The registration as `{:?}` shows it, with the credential withheld so it
    /// cannot reach a log, an error string or a panic message.
    pub fn debug_text(&self) -> (r: String)
        ensures
            r@ == registration_text(self.id@, opt_view(self.version), self.url@, self.pid),
    {
        let mut r = string_of("ServiceRegistration { id: ");
        let id = debug_str(self.id.as_str());
        push_str(&mut r, id.as_str());
        push_str(&mut r, ", version: ");
        match &self.version {
            Some(v) => {
                push_str(&mut r, "Some(");
                let q = debug_str(v.as_str());
                push_str(&mut r, q.as_str());
                push_str(&mut r, ")");
            },
            None => push_str(&mut r, "None"),
        }
        push_str(&mut r, ", url: ");
        let url = debug_str(self.url.as_str());
        push_str(&mut r, url.as_str());
        push_str(&mut r, ", pid: ");
        push_decimal(&mut r, self.pid as u64);
        push_str(&mut r, ", password: \"<redacted>\" }");
        r
    }
}

/// A registration's printed form does not depend on its password.
pub proof fn law_debug_text_ignores_password(a: ServiceRegistration, b: ServiceRegistration)
    requires
        a.id@ == b.id@,
        opt_view(a.version) == opt_view(b.version),
        a.url@ == b.url@,
        a.pid == b.pid,
    ensures
        registration_text(a.id@, opt_view(a.version), a.url@, a.pid) == registration_text(
            b.id@,
            opt_view(b.version),
            b.url@,
            b.pid,
        ),
{
}

/// The Basic username the service demands.
pub open spec fn service_user() -> Seq<char> {
    "opencode"@
}

/// The endpoint a registration names, with the service's Basic credential.
pub fn probe(registration: &ServiceRegistration) -> (r: Result<Endpoint, EndpointError>)
    requires
        registration.password@.len() < usize::MAX / 32,
    ensures
        match url_host_port(registration.url@) {
            None => r matches Err(EndpointError::InvalidUrl(u)) && u@ == registration.url@,
            Some((None, _)) => (r matches Err(EndpointError::NoHost(u)) && u@ == registration.url@),
            Some((Some(_), None)) => r matches Err(EndpointError::NoPort(u)) && u@
                == registration.url@,
            Some((Some(host), Some(port))) => r matches Ok(e) && e.host@ == host && e.port == port
                && (e.auth matches Some(a) && a@ == basic_credential(
                service_user(),
                registration.password@,
            )),
        },
{
    proof {
        reveal_strlit("opencode");
    }
    Endpoint::basic(registration.url.as_str(), "opencode", registration.password.as_str())
}

/// Why a health answer does not vouch for a registration.
#[derive(Debug)]
pub enum HealthRejection {
    /// "the OpenCode 2 service reported itself unhealthy".
    Unhealthy,
    /// "the OpenCode 2 service on {url} is not the process its registration
    /// names": a descriptor left behind by a dead service still parses, and
    /// its port can already serve an unrelated listener.
    OtherProcess(String),
}

/// Accepts a health answer only when it says `healthy: true` and names the
/// registered pid.
pub fn accept_health(registration: &ServiceRegistration, health: &Json) -> (r: Result<
    (),
    HealthRejection,
>)
    ensures
        opt_bool(json_get(*health, "healthy"@)) != Some(true) ==> r matches Err(
            HealthRejection::Unhealthy,
        ),
        opt_bool(json_get(*health, "healthy"@)) == Some(true) && opt_u64(
            json_get(*health, "pid"@),
        ) != Some(registration.pid as u64) ==> (r matches Err(HealthRejection::OtherProcess(u))
            && u@ == registration.url@),
        r is Ok <==> opt_bool(json_get(*health, "healthy"@)) == Some(true) && opt_u64(
            json_get(*health, "pid"@),
        ) == Some(registration.pid as u64),
{
    let healthy = match health.get("healthy") {
        Some(v) => v.as_bool(),
        None => None,
    };
    if healthy != Some(true) {
        return Err(HealthRejection::Unhealthy);
    }
    let pid = match health.get("pid") {
        Some(v) => v.as_u64(),
        None => None,
    };
    if pid != Some(registration.pid as u64) {
        return Err(HealthRejection::OtherProcess(registration.url.clone()));
    }
    Ok(())
}

impl HealthRejection {
    pub fn message(&self) -> (r: String)
        ensures
            self matches HealthRejection::Unhealthy ==> r@
                == "the OpenCode 2 service reported itself unhealthy"@,
            self matches HealthRejection::OtherProcess(u) ==> r@ == "the OpenCode 2 service on "@
                + u@ + " is not the process its registration names"@,
    {
        match self {
            HealthRejection::Unhealthy => string_of(
                "the OpenCode 2 service reported itself unhealthy",
            ),
            HealthRejection::OtherProcess(url) => {
                let mut r = string_of("the OpenCode 2 service on ");
                push_str(&mut r, url.as_str());
                push_str(&mut r, " is not the process its registration names");
                r
            },
        }
    }
}

/// Where one envelope of the shared event stream belongs.
#[derive(Clone, Debug, PartialEq, Eq)]
pub enum Route {
    Session(String),
    Broadcast,
    Drop,
}

pub enum RouteView {
    Session(Seq<char>),
    Broadcast,
    Drop,
}

impl Route {
    pub open spec fn view_route(&self) -> RouteView {
        match self {
            Route::Session(s) => RouteView::Session(s@),
            Route::Broadcast => RouteView::Broadcast,
            Route::Drop => RouteView::Drop,
        }
    }
}

/// The routing rule. `tui.*` envelopes are remote-control commands for a
/// terminal client and go nowhere; `form.created` is attributed by its nested
/// `data.form.sessionID` and dropped when it has none; every other envelope
/// goes to the session `data.sessionID` names, or to everybody when it names
/// none. (A JSON pointer step through a key that is not a number never enters
/// an array, so `/data/sessionID` is two member lookups.)
pub open spec fn spec_route(envelope: Json) -> RouteView {
    let kind = match opt_str(json_get(envelope, "type"@)) {
        Some(k) => k,
        None => Seq::empty(),
    };
    if starts_with(kind, "tui."@) {
        RouteView::Drop
    } else if kind == "form.created"@ {
        match opt_str(opt_get(opt_get(json_get(envelope, "data"@), "form"@), "sessionID"@)) {
            Some(s) => RouteView::Session(s),
            None => RouteView::Drop,
        }
    } else {
        match opt_str(opt_get(json_get(envelope, "data"@), "sessionID"@)) {
            Some(s) => RouteView::Session(s),
            None => RouteView::Broadcast,
        }
    }
}

/// The remote-control family never reaches a session: any envelope whose type
/// starts with `tui.` is dropped, whatever session it names. And a form that
/// cannot be attributed is dropped, never broadcast to every task.
pub proof fn law_remote_control_never_reaches_a_session(envelope: Json)
    ensures
        (opt_str(json_get(envelope, "type"@)) matches Some(k) && starts_with(k, "tui."@))
            ==> spec_route(envelope) == RouteView::Drop,
        (opt_str(json_get(envelope, "type"@)) == Some("form.created"@) && opt_str(
            opt_get(opt_get(json_get(envelope, "data"@), "form"@), "sessionID"@),
        ) is None) ==> spec_route(envelope) == RouteView::Drop,
{
    reveal_strlit("tui.");
    reveal_strlit("form.created");
    assert(!starts_with("form.created"@, "tui."@)) by {
        assert("form.created"@.take(4)[0] != "tui."@[0]);
    }
}

fn member_str<'a>(j: Option<&'a Json>, key: &str) -> (r: Option<&'a str>)
    ensures
        match opt_str(opt_get(crate::json::deref(j), key@)) {
            Some(s) => r matches Some(t) && t@ == s,
            None => r is None,
        },
{
    match crate::json::get_in(j, key) {
        Some(v) => v.as_str(),
        None => None,
    }
}

/// Demultiplexes one envelope of the shared event stream.
pub fn route(envelope: &Json) -> (r: Route)
    ensures
        r.view_route() == spec_route(*envelope),
{
    let kind_text = match member_str(Some(envelope), "type") {
        Some(k) => string_of(k),
        None => String::new(),
    };
    let kind = chars_of(kind_text.as_str());
    let tui = chars_of("tui.");
    if range_starts_with(&kind, 0, kind.len(), &tui) {
        assert(kind@.subrange(0, kind@.len() as int) =~= kind@);
        return Route::Drop;
    }
    assert(kind@.subrange(0, kind@.len() as int) =~= kind@);
    if str_eq(kind_text.as_str(), "form.created") {
        let data = envelope.get("data");
        let form = crate::json::get_in(data, "form");
        return match member_str(form, "sessionID") {
            Some(s) => Route::Session(string_of(s)),
            None => Route::Drop,
        };
    }
    let data = envelope.get("data");
    match member_str(data, "sessionID") {
        Some(s) => Route::Session(string_of(s)),
        None => Route::Broadcast,
    }
}


/// `PathBuf::join` with a relative component: a `/` goes between unless the
/// base is empty or already ends in one.
pub open spec fn path_join(base: Seq<char>, part: Seq<char>) -> Seq<char> {
    if base.len() == 0 {
        part
    } else if base.last() == '/' {
        base + part
    } else {
        base + seq!['/'] + part
    }
}

pub fn join_path(base: &str, part: &str) -> (r: String)
    ensures
        r@ == path_join(base@, part@),
{
    let b = chars_of(base);
    if b.len() == 0 {
        return string_of(part);
    }
    let mut r = string_of(base);
    if b[b.len() - 1] != '/' {
        push_char(&mut r, '/');
    }
    push_str(&mut r, part);
    r
}

pub open spec fn opt_str_view(o: Option<&str>) -> Option<Seq<char>> {
    match o {
        Some(s) => Some(s@),
        None => None,
    }
}

/// `${XDG_STATE_HOME:-$HOME/.local/state}/opencode`: an empty `XDG_STATE_HOME`
/// counts as unset, and with no home either the state directory is relative.
pub open spec fn spec_state_directory(xdg: Option<Seq<char>>, home: Option<Seq<char>>) -> Seq<
    char,
> {
    let base = if xdg is Some && xdg->0.len() > 0 {
        xdg->0
    } else {
        match home {
            Some(h) => path_join(path_join(h, ".local"@), "state"@),
            None => path_join(".local"@, "state"@),
        }
    };
    path_join(base, "opencode"@)
}

/// The directory the service registers itself in.
pub fn state_directory(xdg_state_home: Option<&str>, home: Option<&str>) -> (r: String)
    ensures
        r@ == spec_state_directory(opt_str_view(xdg_state_home), opt_str_view(home)),
{
    let base = match xdg_state_home {
        Some(x) if !x.is_empty() => string_of(x),
        _ => match home {
            Some(h) => {
                let local = join_path(h, ".local");
                join_path(local.as_str(), "state")
            },
            None => join_path(".local", "state"),
        },
    };
    join_path(base.as_str(), "opencode")
}

/// Where the mainstream service's descriptor lives.
pub fn registration_path(xdg_state_home: Option<&str>, home: Option<&str>) -> (r: String)
    ensures
        r@ == path_join(
            spec_state_directory(opt_str_view(xdg_state_home), opt_str_view(home)),
            "service.json"@,
        ),
{
    let dir = state_directory(xdg_state_home, home);
    join_path(dir.as_str(), "service.json")
}

/// A non-mainstream channel registers as `service-<channel>.json`.
pub open spec fn is_channel_file(name: Seq<char>) -> bool {
    starts_with(name, "service-"@) && ends_with(name, ".json"@)
}

/// The channel descriptors among some file names, in their given order.
pub open spec fn channel_files(names: Seq<Seq<char>>) -> Seq<Seq<char>>
    decreases names.len(),
{
    if names.len() == 0 {
        Seq::empty()
    } else if is_channel_file(names.last()) {
        channel_files(names.drop_last()).push(names.last())
    } else {
        channel_files(names.drop_last())
    }
}

/// Each file name joined to `dir`.
pub open spec fn joined_all(dir: Seq<char>, files: Seq<Seq<char>>) -> Seq<Seq<char>> {
    Seq::new(files.len(), |i: int| path_join(dir, files[i]))
}

/// The channel descriptors to try, after the mainstream one, given the names
/// of the files in the state directory: each `service-*.json`, joined to the
/// directory, in path order.
pub fn channel_candidates(directory: &str, names: &Vec<String>) -> (r: Vec<String>)
    ensures
        exists|files: Seq<Seq<char>>|
            {
                &&& sorted(files)
                &&& files.to_multiset() == channel_files(views(names@)).to_multiset()
                &&& views(r@) == joined_all(directory@, files)
            },
{
    let prefix = chars_of("service-");
    let suffix = chars_of(".json");
    let n = names.len();
    let mut kept: Vec<String> = Vec::new();
    let mut i: usize = 0;
    assert(views(names@).take(0) =~= Seq::<Seq<char>>::empty());
    assert(views(kept@) =~= Seq::<Seq<char>>::empty());
    while i < n
        invariant
            n == names@.len(),
            0 <= i <= n,
            prefix@ == "service-"@,
            suffix@ == ".json"@,
            views(kept@) == channel_files(views(names@).take(i as int)),
        decreases n - i,
    {
        let name = chars_of(names[i].as_str());
        let len = name.len();
        let keep = range_starts_with(&name, 0, len, &prefix) && range_ends_with(
            &name,
            0,
            len,
            &suffix,
        );
        assert(name@.subrange(0, len as int) =~= name@);
        assert(views(names@).take(i + 1).drop_last() =~= views(names@).take(i as int));
        assert(views(names@).take(i + 1).last() == names@[i as int]@);
        if keep {
            kept.push(names[i].clone());
            assert(views(kept@) =~= channel_files(views(names@).take(i as int)).push(
                names@[i as int]@,
            ));
        }
        i = i + 1;
    }
    assert(views(names@).take(n as int) =~= views(names@));
    let ordered = sort_names(kept);
    let m = ordered.len();
    let mut r: Vec<String> = Vec::new();
    let mut j: usize = 0;
    while j < m
        invariant
            m == ordered@.len(),
            0 <= j <= m,
            views(r@) == joined_all(directory@, views(ordered@).take(j as int)),
        decreases m - j,
    {
        let path = join_path(directory, ordered[j].as_str());
        let ghost before = views(r@);
        r.push(path);
        assert(views(r@) =~= before.push(path@));
        assert(views(ordered@)[j as int] == ordered@[j as int]@);
        assert(joined_all(directory@, views(ordered@).take(j + 1)) =~= joined_all(
            directory@,
            views(ordered@).take(j as int),
        ).push(path@));
        j = j + 1;
    }
    assert(views(ordered@).take(m as int) =~= views(ordered@));
    r
}

/// The first descriptor that was found and parsed, if any.
pub open spec fn first_found(s: Seq<Option<ServiceRegistration>>) -> Option<ServiceRegistration>
    decreases s.len(),
{
    if s.len() == 0 {
        None
    } else if s[0] is Some {
        s[0]
    } else {
        first_found(s.drop_first())
    }
}

/// The registered service: the mainstream descriptor when it was found and
/// parses, otherwise the first channel descriptor that does, in the order of
/// `channel_candidates`. Absence is an ordinary answer: no service runs.
pub fn read_registration(
    primary: Option<ServiceRegistration>,
    channels: Vec<Option<ServiceRegistration>>,
) -> (r: Option<ServiceRegistration>)
    ensures
        primary is Some ==> r == primary,
        primary is None ==> r == first_found(channels@),
{
    if primary.is_some() {
        return primary;
    }
    let ghost all = channels@;
    let mut rest = channels;
    let mut found: Option<ServiceRegistration> = None;
    assert(all.subrange(all.len() as int, all.len() as int) =~= Seq::<
        Option<ServiceRegistration>,
    >::empty());
    while rest.len() > 0
        invariant
            rest@ == all.subrange(0, rest@.len() as int),
            rest@.len() <= all.len(),
            found == first_found(all.subrange(rest@.len() as int, all.len() as int)),
        decreases rest@.len(),
    {
        let k = rest.len() - 1;
        let item = rest.pop().unwrap();
        assert(all.subrange(k as int, all.len() as int).drop_first() =~= all.subrange(
            k + 1,
            all.len() as int,
        ));
        assert(all.subrange(k as int, all.len() as int)[0] == all[k as int]);
        if item.is_some() {
            found = item;
        }
        assert(rest@ =~= all.subrange(0, k as int));
    }
    assert(all.subrange(0, all.len() as int) =~= all);
    found
}

/// The context window one model entry contributes: keyed
/// `"{providerID}/{id}"`, valued by its `limit.context`; nothing when any of
/// the three is missing or mistyped.
pub open spec fn model_window(m: Json) -> Option<(Seq<char>, u64)> {
    match (
        opt_str(json_get(m, "providerID"@)),
        opt_str(json_get(m, "id"@)),
        opt_u64(opt_get(json_get(m, "limit"@), "context"@)),
    ) {
        (Some(p), Some(i), Some(c)) => Some((p + seq!['/'] + i, c)),
        _ => None,
    }
}

pub open spec fn has_key(w: Seq<(Seq<char>, u64)>, k: Seq<char>) -> bool {
    exists|i: int| 0 <= i < w.len() && (#[trigger] w[i]).0 == k
}

pub open spec fn key_index(w: Seq<(Seq<char>, u64)>, k: Seq<char>) -> int {
    choose|i: int| 0 <= i < w.len() && (#[trigger] w[i]).0 == k
}

/// A map from key to window keeps each key once.
pub open spec fn keys_distinct(w: Seq<(Seq<char>, u64)>) -> bool {
    forall|i: int, j: int| 0 <= i < j < w.len() ==> (#[trigger] w[i]).0 != (#[trigger] w[j]).0
}

/// Map insertion: a known key takes the new value, a new key goes last.
pub open spec fn upsert(w: Seq<(Seq<char>, u64)>, k: Seq<char>, v: u64) -> Seq<(Seq<char>, u64)> {
    if has_key(w, k) {
        w.update(key_index(w, k), (k, v))
    } else {
        w.push((k, v))
    }
}

/// The windows of a model list, collected as a map: a later model with the
/// same key replaces an earlier one.
pub open spec fn spec_windows(models: Seq<Json>) -> Seq<(Seq<char>, u64)>
    decreases models.len(),
{
    if models.len() == 0 {
        Seq::empty()
    } else {
        let w = spec_windows(models.drop_last());
        match model_window(models.last()) {
            Some((k, v)) => upsert(w, k, v),
            None => w,
        }
    }
}

/// The models of a `/api/model` answer: its `data` array, or none.
pub open spec fn response_models(response: Json) -> Seq<Json> {
    match opt_array(json_get(response, "data"@)) {
        Some(items) => items,
        None => Seq::empty(),
    }
}

pub open spec fn window_views(v: Seq<(String, u64)>) -> Seq<(Seq<char>, u64)> {
    v.map_values(|e: (String, u64)| (e.0@, e.1))
}

fn model_window_exec(m: &Json) -> (r: Option<(String, u64)>)
    ensures
        match model_window(*m) {
            Some((k, v)) => r matches Some((rk, rv)) && rk@ == k && rv == v,
            None => r is None,
        },
{
    let provider = match m.get("providerID") {
        Some(v) => v.as_str(),
        None => None,
    };
    let id = match m.get("id") {
        Some(v) => v.as_str(),
        None => None,
    };
    let limit = m.get("limit");
    let context = match crate::json::get_in(limit, "context") {
        Some(v) => v.as_u64(),
        None => None,
    };
    match (provider, id, context) {
        (Some(p), Some(i), Some(c)) => {
            let mut key = string_of(p);
            push_char(&mut key, '/');
            push_str(&mut key, i);
            Some((key, c))
        },
        _ => None,
    }
}

fn upsert_exec(w: &mut Vec<(String, u64)>, k: String, v: u64)
    requires
        keys_distinct(window_views(old(w)@)),
    ensures
        keys_distinct(window_views(final(w)@)),
        window_views(final(w)@) == upsert(window_views(old(w)@), k@, v),
{
    let ghost t = window_views(w@);
    let n = w.len();
    let mut i: usize = 0;
    while i < n
        invariant
            n == w@.len(),
            w@ == old(w)@,
            t == window_views(w@),
            keys_distinct(t),
            0 <= i <= n,
            forall|j: int| 0 <= j < i ==> (#[trigger] t[j]).0 != k@,
        decreases n - i,
    {
        assert(t[i as int] == (w@[i as int].0@, w@[i as int].1));
        if str_eq(w[i].0.as_str(), k.as_str()) {
            proof {
                assert(has_key(t, k@));
                let q = key_index(t, k@);
                assert(t[q].0 == k@);
                if q != i as int {
                    if q < i {
                        assert(t[q].0 != k@);
                    } else {
                        assert(t[i as int].0 != t[q].0);
                    }
                }
                assert(key_index(t, k@) == i as int);
            }
            let _old = w.remove(i);
            w.insert(i, (k, v));
            proof {
                let u = t.update(i as int, (k@, v));
                assert(window_views(w@) =~= u);
                assert forall|a: int, b: int| 0 <= a < b < u.len() implies (#[trigger] u[a]).0
                    != (#[trigger] u[b]).0 by {
                    assert(t[a].0 != t[b].0);
                }
            }
            return;
        }
        i = i + 1;
    }
    w.push((k, v));
    proof {
        let u = t.push((k@, v));
        assert(window_views(w@) =~= u);
        assert forall|a: int, b: int| 0 <= a < b < u.len() implies (#[trigger] u[a]).0 != (
        #[trigger] u[b]).0 by {
            if b == t.len() {
                assert(t[a].0 != k@);
            } else {
                assert(t[a].0 != t[b].0);
            }
        }
    }
}

/// `"{providerID}/{id}"` to `limit.context` for every model of a `/api/model`
/// answer (`{location, data: [..]}`), the key a selected model is stored
/// under. A model without all three contributes nothing.
pub fn context_windows(response: &Json) -> (r: Vec<(String, u64)>)
    ensures
        window_views(r@) == spec_windows(response_models(*response)),
        keys_distinct(window_views(r@)),
{
    let empty: Vec<Json> = Vec::new();
    let models: &Vec<Json> = match response.get("data") {
        Some(d) => match d.as_array() {
            Some(items) => items,
            None => &empty,
        },
        None => &empty,
    };
    assert(models@ == response_models(*response));
    let n = models.len();
    let mut out: Vec<(String, u64)> = Vec::new();
    let mut i: usize = 0;
    assert(models@.take(0) =~= Seq::<Json>::empty());
    assert(window_views(out@) =~= Seq::<(Seq<char>, u64)>::empty());
    while i < n
        invariant
            n == models@.len(),
            0 <= i <= n,
            window_views(out@) == spec_windows(models@.take(i as int)),
            keys_distinct(window_views(out@)),
        decreases n - i,
    {
        assert(models@.take(i + 1).drop_last() =~= models@.take(i as int));
        assert(models@.take(i + 1).last() == models@[i as int]);
        match model_window_exec(&models[i]) {
            Some((k, v)) => upsert_exec(&mut out, k, v),
            None => {},
        }
        i = i + 1;
    }
    assert(models@.take(n as int) =~= models@);
    out
}

/// The context windows of a `/api/model` answer, or nothing when the request
/// failed: a miss means "not known yet", never "unlimited".
pub fn model_context_windows(response: Option<&Json>) -> (r: Option<Vec<(String, u64)>>)
    ensures
        response is None ==> r is None,
        response matches Some(j) ==> (r matches Some(w) && window_views(w@) == spec_windows(
            response_models(*j),
        )),
{
    match response {
        Some(j) => Some(context_windows(j)),
        None => None,
    }
}

/// The window a map holds for `k`.
pub open spec fn window_for(w: Seq<(Seq<char>, u64)>, k: Seq<char>) -> Option<u64> {
    if has_key(w, k) {
        Some(w[key_index(w, k)].1)
    } else {
        None
    }
}

/// The window of the last model in the list whose key is `k`.
pub open spec fn last_window(models: Seq<Json>, k: Seq<char>) -> Option<u64>
    decreases models.len(),
{
    if models.len() == 0 {
        None
    } else {
        match model_window(models.last()) {
            Some((mk, v)) => if mk == k {
                Some(v)
            } else {
                last_window(models.drop_last(), k)
            },
            None => last_window(models.drop_last(), k),
        }
    }
}

proof fn lemma_windows_distinct(models: Seq<Json>)
    ensures
        keys_distinct(spec_windows(models)),
    decreases models.len(),
{
    if models.len() > 0 {
        lemma_windows_distinct(models.drop_last());
        let w = spec_windows(models.drop_last());
        match model_window(models.last()) {
            Some((k, v)) => {
                let u = upsert(w, k, v);
                if has_key(w, k) {
                    assert forall|a: int, b: int| 0 <= a < b < u.len() implies (#[trigger] u[
                        a]).0 != (#[trigger] u[b]).0 by {
                        let q = key_index(w, k);
                        assert(w[q].0 == k);
                        assert(w[a].0 != w[b].0);
                    }
                } else {
                    assert forall|a: int, b: int| 0 <= a < b < u.len() implies (#[trigger] u[
                        a]).0 != (#[trigger] u[b]).0 by {
                        if b == w.len() {
                            assert(w[a].0 != k);
                        } else {
                            assert(w[a].0 != w[b].0);
                        }
                    }
                }
            },
            None => {},
        }
    }
}

/// Looking a key up in the collected windows gives the window of the last
/// model that carries that key, and nothing when no model does: a later entry
/// for the same model replaces an earlier one.
pub proof fn law_windows_keep_the_last_model(models: Seq<Json>, k: Seq<char>)
    ensures
        window_for(spec_windows(models), k) == last_window(models, k),
    decreases models.len(),
{
    if models.len() > 0 {
        law_windows_keep_the_last_model(models.drop_last(), k);
        lemma_windows_distinct(models.drop_last());
        let w = spec_windows(models.drop_last());
        match model_window(models.last()) {
            Some((mk, v)) => {
                let u = upsert(w, mk, v);
                if has_key(w, mk) {
                    let q = key_index(w, mk);
                    assert(w[q].0 == mk);
                    if mk == k {
                        assert(u[q].0 == k);
                        assert(has_key(u, k));
                        let r = key_index(u, k);
                        assert(u[r].0 == k);
                        if r != q {
                            assert(w[r].0 == k);
                            if r < q {
                                assert(w[r].0 != w[q].0);
                            } else {
                                assert(w[q].0 != w[r].0);
                            }
                        }
                    } else {
                        if has_key(w, k) {
                            let p = key_index(w, k);
                            assert(w[p].0 == k);
                            assert(u[p].0 == k);
                            assert(has_key(u, k));
                            let r = key_index(u, k);
                            assert(u[r].0 == k);
                            if r != p {
                                assert(r != q);
                                assert(w[r].0 == k);
                                if r < p {
                                    assert(w[r].0 != w[p].0);
                                } else {
                                    assert(w[p].0 != w[r].0);
                                }
                            }
                        } else {
                            if has_key(u, k) {
                                let r = key_index(u, k);
                                assert(u[r].0 == k);
                                assert(r != q);
                                assert(w[r].0 == k);
                            }
                        }
                    }
                } else {
                    if mk == k {
                        assert(u[w.len() as int].0 == k);
                        assert(has_key(u, k));
                        let r = key_index(u, k);
                        assert(u[r].0 == k);
                        if r < w.len() {
                            assert(w[r].0 == k);
                        }
                    } else {
                        if has_key(w, k) {
                            let p = key_index(w, k);
                            assert(w[p].0 == k);
                            assert(u[p].0 == k);
                            let r = key_index(u, k);
                            assert(u[r].0 == k);
                            if r != p {
                                assert(r < w.len());
                                assert(w[r].0 == k);
                                if r < p {
                                    assert(w[r].0 != w[p].0);
                                } else {
                                    assert(w[p].0 != w[r].0);
                                }
                            }
                        } else {
                            if has_key(u, k) {
                                let r = key_index(u, k);
                                assert(u[r].0 == k);
                                assert(r < w.len());
                                assert(w[r].0 == k);
                            }
                        }
                    }
                }
            },
            None => {},
        }
    }
}


/// The one service slot. There is exactly one service, so the slot is keyed
/// on nothing; the service it holds once running is kept beside it.
#[derive(Clone, Copy, Debug, PartialEq, Eq)]
pub enum SlotState {
    Vacant,
    /// One caller is connecting; everybody else waits for it.
    Starting,
    Running,
}

/// What an acquire does on finding the slot in some state.
#[derive(Debug, PartialEq, Eq)]
pub enum AcquireStep {
    /// Re-check the held service, outside the slot lock.
    Revalidate,
    /// Connect; the slot now reads `Starting`, so nobody else does.
    Connect,
    /// Another caller is connecting: wait for the slot to change.
    Wait,
}

pub open spec fn spec_acquire(s: SlotState) -> (SlotState, AcquireStep) {
    match s {
        SlotState::Running => (SlotState::Running, AcquireStep::Revalidate),
        SlotState::Vacant => (SlotState::Starting, AcquireStep::Connect),
        SlotState::Starting => (SlotState::Starting, AcquireStep::Wait),
    }
}

pub fn acquire_step(slot: &mut SlotState) -> (step: AcquireStep)
    ensures
        (*final(slot), step) == spec_acquire(*old(slot)),
{
    match *slot {
        SlotState::Running => AcquireStep::Revalidate,
        SlotState::Vacant => {
            *slot = SlotState::Starting;
            AcquireStep::Connect
        },
        SlotState::Starting => AcquireStep::Wait,
    }
}

/// A connect attempt ended: the slot runs the service it found or started,
/// and a failed or declined start leaves it vacant so the next caller simply
/// retries. Waiters are woken either way.
pub fn connect_finished(slot: &mut SlotState, connected: bool)
    ensures
        *final(slot) == if connected {
            SlotState::Running
        } else {
            SlotState::Vacant
        },
{
    *slot = if connected {
        SlotState::Running
    } else {
        SlotState::Vacant
    };
}

/// The reader gave up on `service`: the slot goes vacant, but only while it
/// still holds that very service.
pub fn vacate(slot: &mut SlotState, holds_same_service: bool)
    ensures
        (*old(slot) == SlotState::Running && holds_same_service) ==> *final(slot)
            == SlotState::Vacant,
        !(*old(slot) == SlotState::Running && holds_same_service) ==> *final(slot) == *old(slot),
{
    let running = match *slot {
        SlotState::Running => true,
        _ => false,
    };
    if running && holds_same_service {
        *slot = SlotState::Vacant;
    }
}

/// Two acquires never both connect: the first one's `Connect` leaves the
/// slot `Starting`, where every later acquire waits until the attempt ends.
pub proof fn law_one_connect_at_a_time(s: SlotState)
    ensures
        spec_acquire(s).1 == AcquireStep::Connect ==> spec_acquire(spec_acquire(s).0).1
            == AcquireStep::Wait,
        spec_acquire(s).1 == AcquireStep::Connect <==> s == SlotState::Vacant,
{
}

/// What connecting (or revalidating) does once the registration was read and
/// probed.
#[derive(Debug, PartialEq, Eq)]
pub enum ConnectPlan {
    /// A live service answered: adopt it (in place, when revalidating).
    Adopt,
    /// Nothing live, and this caller may not start the daemon.
    Decline,
    /// Nothing live: start `serve --service` and wait for it to register.
    Spawn,
}

pub fn connect_plan(live: bool, may_spawn: bool) -> (r: ConnectPlan)
    ensures
        live ==> r == ConnectPlan::Adopt,
        !live && !may_spawn ==> r == ConnectPlan::Decline,
        !live && may_spawn ==> r == ConnectPlan::Spawn,
{
    if live {
        ConnectPlan::Adopt
    } else if !may_spawn {
        ConnectPlan::Decline
    } else {
        ConnectPlan::Spawn
    }
}

/// How long a started service has to register a healthy descriptor.
pub const SERVICE_START_BUDGET_MS: u64 = 20000;

/// The pause between two looks at the registration while starting.
pub const SERVICE_START_POLL_MS: u64 = 100;

/// One look at a service being started.
#[derive(Debug)]
pub enum SpawnStep {
    Ready,
    /// Give up with this message.
    Fail(String),
    /// Look again after `SERVICE_START_POLL_MS`.
    Sleep,
}

pub open spec fn spawn_failure_text(exit: Option<Seq<char>>) -> Seq<char> {
    match exit {
        Some(status) => "`opencode2 serve --service` exited ("@ + status
            + ") without registering a healthy service"@,
        None => "timed out starting the OpenCode 2 background service"@,
    }
}

/// A healthy registration ends the wait. Past the deadline the start fails,
/// naming the launcher's exit status when it had one; a non-zero exit alone
/// is not fatal, since losing the start race to another process looks exactly
/// like it.
pub fn spawn_poll_step(healthy: bool, deadline_passed: bool, exit: Option<&str>) -> (r: SpawnStep)
    ensures
        healthy ==> r is Ready,
        !healthy && deadline_passed ==> (r matches SpawnStep::Fail(m) && m@ == spawn_failure_text(
            opt_str_view(exit),
        )),
        !healthy && !deadline_passed ==> r is Sleep,
{
    if healthy {
        return SpawnStep::Ready;
    }
    if !deadline_passed {
        return SpawnStep::Sleep;
    }
    match exit {
        Some(status) => {
            let mut m = string_of("`opencode2 serve --service` exited (");
            push_str(&mut m, status);
            push_str(&mut m, ") without registering a healthy service");
            SpawnStep::Fail(m)
        },
        None => SpawnStep::Fail(string_of("timed out starting the OpenCode 2 background service")),
    }
}

} // verus!
