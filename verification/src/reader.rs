//! The decisions of the single event-stream reader.
//!
//! The reader itself (sockets, sleeps, threads) is driven from outside; what it
//! does with each frame, and how it paces reconnection after the stream breaks,
//! is decided here. A reader never spawns a service: a user who stopped theirs
//! must not see it resurrected. After three consecutive failed rediscoveries it
//! gives up, so a permanently dead service produces one clean failure.
use vstd::prelude::*;
use crate::json::{json_get, opt_str, Json};
use crate::service::{route, spec_route, Route};
use crate::sse::SseFrame;

verus! {

/// A `created` member as the envelope shape accepts it: absent, `null`, or a
/// number.
pub open spec fn created_ok(j: Option<Json>) -> bool {
    match j {
        None => true,
        Some(Json::Null) => true,
        Some(Json::Number(_)) => true,
        _ => false,
    }
}

pub open spec fn is_text(j: Json) -> bool {
    j is String
}

/// The shape every event-stream frame must have: `id` and `type` strings and
/// an optional numeric `created`, every other member ignored. Like any derived
/// record shape it is also accepted as a positional array of exactly those
/// three. The first frame of a connection has no `created`.
pub open spec fn spec_is_envelope(j: Json) -> bool {
    match j {
        Json::Object(_) => {
            &&& opt_str(json_get(j, "id"@)) is Some
            &&& opt_str(json_get(j, "type"@)) is Some
            &&& created_ok(json_get(j, "created"@))
        },
        Json::Array(items) => {
            &&& items@.len() == 3
            &&& is_text(items@[0])
            &&& is_text(items@[1])
            &&& created_ok(Some(items@[2]))
        },
        _ => false,
    }
}

/// Whether an envelope invalidates the model catalogue.
pub open spec fn spec_refreshes_models(j: Json) -> bool {
    opt_str(json_get(j, "type"@)) == Some("catalog.updated"@) || opt_str(json_get(j, "type"@))
        == Some("models-dev.refreshed"@)
}

/// Whether `j` has the envelope shape.
pub fn is_envelope(j: &Json) -> (r: bool)
    ensures
        r == spec_is_envelope(*j),
{
    match j {
        Json::Object(_) => {
            let id = match j.get("id") {
                Some(v) => v.as_str().is_some(),
                None => false,
            };
            let kind = match j.get("type") {
                Some(v) => v.as_str().is_some(),
                None => false,
            };
            let created = match j.get("created") {
                None => true,
                Some(v) => match v {
                    Json::Null => true,
                    Json::Number(_) => true,
                    _ => false,
                },
            };
            id && kind && created
        },
        Json::Array(items) => {
            if items.len() != 3 {
                return false;
            }
            let first = match &items[0] {
                Json::String(_) => true,
                _ => false,
            };
            let second = match &items[1] {
                Json::String(_) => true,
                _ => false,
            };
            let third = match &items[2] {
                Json::Null => true,
                Json::Number(_) => true,
                _ => false,
            };
            first && second && third
        },
        _ => false,
    }
}

/// What the reader does with one frame.
#[derive(Debug)]
pub enum FrameStep {
    /// A heartbeat comment: read on.
    Skip,
    /// A named event, which the service sends only when the stream itself
    /// failed: reconnect.
    Disconnect,
    /// An ordinary frame, whose data must decode as a JSON envelope.
    Decode(String),
}

pub fn frame_step(frame: SseFrame) -> (r: FrameStep)
    ensures
        frame is Comment ==> r is Skip,
        frame is Named ==> r is Disconnect,
        frame matches SseFrame::Data(d) ==> (r matches FrameStep::Decode(e) && e@ == d@),
{
    match frame {
        SseFrame::Comment => FrameStep::Skip,
        SseFrame::Named { .. } => FrameStep::Disconnect,
        SseFrame::Data(d) => FrameStep::Decode(d),
    }
}

/// What the reader does with one decoded envelope.
#[derive(Debug)]
pub enum EnvelopeStep {
    /// The stream no longer carries envelopes; dropping the frame silently
    /// would leave a session waiting for events that already stopped.
    Disconnect,
    /// Refresh the model catalogue first when asked, then hand the envelope to
    /// the hub along `route`.
    Deliver { refresh_models: bool, route: Route },
}

pub fn envelope_step(envelope: &Json) -> (r: EnvelopeStep)
    ensures
        !spec_is_envelope(*envelope) ==> r is Disconnect,
        spec_is_envelope(*envelope) ==> (r matches EnvelopeStep::Deliver { refresh_models, route }
            && refresh_models == spec_refreshes_models(*envelope) && route.view_route()
            == spec_route(*envelope)),
{
    if !is_envelope(envelope) {
        return EnvelopeStep::Disconnect;
    }
    let refresh_models = match envelope.get("type") {
        Some(v) => match v.as_str() {
            Some(k) => {
                let a = crate::json::str_eq(k, "catalog.updated");
                let b = crate::json::str_eq(k, "models-dev.refreshed");
                a || b
            },
            None => false,
        },
        None => false,
    };
    EnvelopeStep::Deliver { refresh_models, route: route(envelope) }
}

/// The first pause after a break, and the pause after every reconnect.
pub const MIN_BACKOFF_MS: u64 = 250;

/// The pause never grows beyond this.
pub const MAX_BACKOFF_MS: u64 = 8000;

/// Consecutive failed rediscoveries after which the reader gives up.
pub const MAX_REDISCOVERY_FAILURES: u32 = 3;

/// What the reader does after a break.
#[derive(Debug, PartialEq, Eq)]
pub enum ReaderStep {
    /// Sleep this long, then reconnect.
    Retry { sleep_ms: u64 },
    /// Hand the service slot back and stop without restarting.
    GiveUp,
}

/// The reader's pacing state across connections.
pub struct ReaderState {
    backoff_ms: u64,
    failures: u32,
    pending_resync: Option<u64>,
}

/// The pause after `b`: doubled, up to the cap.
pub open spec fn next_backoff(b: u64) -> u64 {
    if 2 * b >= MAX_BACKOFF_MS {
        MAX_BACKOFF_MS
    } else {
        (2 * b) as u64
    }
}

impl ReaderState {
    pub closed spec fn backoff_ms(&self) -> u64 {
        self.backoff_ms
    }

    pub closed spec fn failures(&self) -> u32 {
        self.failures
    }

    /// The generation a resync is owed for, once the stream comes back.
    pub closed spec fn pending_resync(&self) -> Option<u64> {
        self.pending_resync
    }

    pub open spec fn wf(&self) -> bool {
        &&& MIN_BACKOFF_MS <= self.backoff_ms() <= MAX_BACKOFF_MS
        &&& self.failures() < MAX_REDISCOVERY_FAILURES
    }

    pub fn new() -> (r: ReaderState)
        ensures
            r.wf(),
            r.backoff_ms() == MIN_BACKOFF_MS,
            r.failures() == 0,
            r.pending_resync() is None,
    {
        ReaderState { backoff_ms: MIN_BACKOFF_MS, failures: 0, pending_resync: None }
    }

    /// The stream is open again: pacing starts over, and the resync owed for
    /// the last break (if any) is handed out once.
    pub fn connected(&mut self) -> (resync: Option<u64>)
        requires
            old(self).wf(),
        ensures
            final(self).wf(),
            resync == old(self).pending_resync(),
            final(self).pending_resync() is None,
            final(self).backoff_ms() == MIN_BACKOFF_MS,
            final(self).failures() == 0,
    {
        self.backoff_ms = MIN_BACKOFF_MS;
        self.failures = 0;
        let resync = self.pending_resync;
        self.pending_resync = None;
        resync
    }

    /// The stream broke and the service was looked up again (`rediscovered`
    /// says whether that found a live one). The break is owed a resync under
    /// `generation`.
    pub fn disconnected(&mut self, generation: u64, rediscovered: bool) -> (step: ReaderStep)
        requires
            old(self).wf(),
        ensures
            final(self).pending_resync() == Some(generation),
            failures_after(old(self).failures() as nat, rediscovered) >= MAX_REDISCOVERY_FAILURES
                ==> step == ReaderStep::GiveUp,
            failures_after(old(self).failures() as nat, rediscovered) < MAX_REDISCOVERY_FAILURES
                ==> {
                &&& step == ReaderStep::Retry { sleep_ms: old(self).backoff_ms() }
                &&& final(self).wf()
                &&& final(self).backoff_ms() == next_backoff(old(self).backoff_ms())
                &&& final(self).failures() == failures_after(
                    old(self).failures() as nat,
                    rediscovered,
                )
            },
    {
        self.pending_resync = Some(generation);
        if rediscovered {
            self.failures = 0;
        } else {
            self.failures = self.failures + 1;
            if self.failures >= MAX_REDISCOVERY_FAILURES {
                return ReaderStep::GiveUp;
            }
        }
        let sleep_ms = self.backoff_ms;
        self.backoff_ms = if 2 * self.backoff_ms >= MAX_BACKOFF_MS {
            MAX_BACKOFF_MS
        } else {
            2 * self.backoff_ms
        };
        ReaderStep::Retry { sleep_ms }
    }
}

/// Whether the reader that just stopped must be replaced: only when it did
/// not give up and someone subscribed while it was winding down.
pub fn restart_reader(gave_up: bool, subscribers: usize) -> (r: bool)
    ensures
        r == (!gave_up && subscribers > 0),
{
    !gave_up && subscribers > 0
}

/// The failure count after one rediscovery attempt.
pub open spec fn failures_after(f: nat, rediscovered: bool) -> nat {
    if rediscovered {
        0
    } else {
        f + 1
    }
}

/// From a fresh connection, the reader retries after the first and second
/// consecutive failed rediscovery and gives up on the third; a rediscovery
/// that succeeds in between starts the count over.
pub proof fn law_gives_up_on_the_third_consecutive_failure(f0: nat)
    requires
        f0 == 0,
    ensures
        failures_after(f0, false) < MAX_REDISCOVERY_FAILURES,
        failures_after(failures_after(f0, false), false) < MAX_REDISCOVERY_FAILURES,
        failures_after(failures_after(failures_after(f0, false), false), false)
            >= MAX_REDISCOVERY_FAILURES,
        failures_after(failures_after(failures_after(f0, false), false), true) == 0,
{
}

/// The pause between reconnects never leaves its bounds, and from the
/// smallest pause it doubles on each break until it reaches the cap.
pub proof fn law_backoff_doubles_within_bounds(b: u64)
    requires
        MIN_BACKOFF_MS <= b <= MAX_BACKOFF_MS,
    ensures
        MIN_BACKOFF_MS <= next_backoff(b) <= MAX_BACKOFF_MS,
        next_backoff(b) >= b,
        b * 2 <= MAX_BACKOFF_MS ==> next_backoff(b) == 2 * b,
        next_backoff(MIN_BACKOFF_MS) == 500,
        next_backoff(500) == 1000,
        next_backoff(1000) == 2000,
        next_backoff(2000) == 4000,
        next_backoff(4000) == 8000,
        next_backoff(8000) == 8000,
{
}

/// The reader refreshes the model context windows exactly when the catalogue
/// was invalidated: an envelope of type `catalog.updated` or
/// `models-dev.refreshed` asks for the refresh, and an envelope of any other
/// type, or with no type, does not.
pub proof fn law_catalogue_invalidation_refreshes_models(j: Json)
    ensures
        opt_str(json_get(j, "type"@)) == Some("catalog.updated"@) ==> spec_refreshes_models(j),
        opt_str(json_get(j, "type"@)) == Some("models-dev.refreshed"@) ==> spec_refreshes_models(j),
        opt_str(json_get(j, "type"@)) != Some("catalog.updated"@) && opt_str(json_get(j, "type"@))
            != Some("models-dev.refreshed"@) ==> !spec_refreshes_models(j),
{
}

} // verus!
