//! Who receives what from the one shared event stream.
//!
//! Subscribers are registered per session id and identified by the token that
//! `subscribe` hands out, since two runtimes can legitimately watch the same
//! session. The table decides, for a routed envelope, which tokens receive it;
//! the channels behind the tokens belong to the caller.
use vstd::prelude::*;
use crate::json::str_eq;
use crate::service::{Route, RouteView};
use crate::text::string_of;

verus! {

/// The table as the specifications see it: one entry per watched session, in
/// the order sessions were first subscribed, each with its tokens in
/// subscription order.
pub type Entries = Seq<(Seq<char>, Seq<usize>)>;

/// Whether some entry is keyed by `s`.
pub open spec fn has_session(t: Entries, s: Seq<char>) -> bool {
    exists|i: int| 0 <= i < t.len() && (#[trigger] t[i]).0 == s
}

/// The index of the entry keyed by `s`, when there is one.
pub open spec fn session_index(t: Entries, s: Seq<char>) -> int {
    choose|i: int| 0 <= i < t.len() && (#[trigger] t[i]).0 == s
}

/// The tokens subscribed to `s`: none when nobody watches it.
pub open spec fn tokens_of(t: Entries, s: Seq<char>) -> Seq<usize> {
    if has_session(t, s) {
        t[session_index(t, s)].1
    } else {
        Seq::empty()
    }
}

/// A well-formed table keys each session once and keeps no empty entry.
pub open spec fn table_wf(t: Entries) -> bool {
    &&& forall|i: int, j: int| 0 <= i < j < t.len() ==> (#[trigger] t[i]).0 != (#[trigger] t[j]).0
    &&& forall|i: int| 0 <= i < t.len() ==> (#[trigger] t[i]).1.len() > 0
}

/// `s` with every occurrence of `id` taken out.
pub open spec fn without(s: Seq<usize>, id: usize) -> Seq<usize>
    decreases s.len(),
{
    if s.len() == 0 {
        s
    } else if s.last() == id {
        without(s.drop_last(), id)
    } else {
        without(s.drop_last(), id).push(s.last())
    }
}

/// Subscribing `id` to `s`: appended to the session's tokens, or a new entry
/// at the end.
pub open spec fn spec_subscribe(t: Entries, s: Seq<char>, id: usize) -> Entries {
    if has_session(t, s) {
        let i = session_index(t, s);
        t.update(i, (s, t[i].1.push(id)))
    } else {
        t.push((s, seq![id]))
    }
}

/// Unsubscribing `id` from `s`: the token leaves the session's list, and a
/// session left with no subscriber leaves the table.
pub open spec fn spec_unsubscribe(t: Entries, s: Seq<char>, id: usize) -> Entries {
    if has_session(t, s) {
        let i = session_index(t, s);
        let rest = without(t[i].1, id);
        if rest.len() == 0 {
            t.remove(i)
        } else {
            t.update(i, (s, rest))
        }
    } else {
        t
    }
}

/// Every token of every session, session by session.
pub open spec fn all_tokens(t: Entries) -> Seq<usize>
    decreases t.len(),
{
    if t.len() == 0 {
        Seq::empty()
    } else {
        all_tokens(t.drop_last()) + t.last().1
    }
}

/// Who receives an envelope routed to `route`: the subscribers of its session,
/// everybody, or nobody.
pub open spec fn spec_recipients(t: Entries, route: RouteView) -> Seq<usize> {
    match route {
        RouteView::Session(s) => tokens_of(t, s),
        RouteView::Broadcast => all_tokens(t),
        RouteView::Drop => Seq::empty(),
    }
}

/// The token after `id`, wrapping as an atomic counter does.
pub open spec fn next_after(id: usize) -> usize {
    if id == usize::MAX {
        0
    } else {
        (id + 1) as usize
    }
}

/// No token occurs twice in `s`.
pub open spec fn no_dup(s: Seq<usize>) -> bool {
    forall|a: int, b: int| 0 <= a < b < s.len() ==> #[trigger] s[a] != #[trigger] s[b]
}

/// Every subscriber has a token of its own: no token occurs twice in one
/// session, and no token belongs to two sessions.
pub open spec fn distinct_tokens(t: Entries) -> bool {
    &&& forall|i: int| 0 <= i < t.len() ==> no_dup(#[trigger] t[i].1)
    &&& forall|i: int, j: int, x: usize|
        #![trigger t[i].1.contains(x), t[j].1.contains(x)]
        0 <= i < t.len() && 0 <= j < t.len() && i != j && t[i].1.contains(x) ==> !t[j].1.contains(
            x,
        )
}

/// Every token handed out so far is below `next`.
pub open spec fn tokens_below(t: Entries, next: usize) -> bool {
    forall|i: int, x: usize| 0 <= i < t.len() && (#[trigger] t[i].1.contains(x)) ==> x < next
}

/// One watched session and the tokens of its subscribers.
pub struct SessionSubscribers {
    session: String,
    tokens: Vec<usize>,
}

/// The subscriber registry of the shared event stream.
pub struct SubscriberTable {
    entries: Vec<SessionSubscribers>,
    next_id: usize,
    /// Whether the token counter has gone past `usize::MAX` and started over,
    /// after which a new token may repeat a live one.
    wrapped: Ghost<bool>,
}

spec fn entry_view(e: SessionSubscribers) -> (Seq<char>, Seq<usize>) {
    (e.session@, e.tokens@)
}

impl SubscriberTable {
    pub closed spec fn view_entries(&self) -> Entries {
        self.entries@.map_values(|e: SessionSubscribers| (e.session@, e.tokens@))
    }

    /// The token the next subscription receives.
    pub closed spec fn next_token(&self) -> usize {
        self.next_id
    }

    /// Whether the token counter has started over.
    pub closed spec fn wrapped(&self) -> bool {
        self.wrapped@
    }

    /// Well-formed, and, until the counter starts over, every live token is
    /// distinct and below the next one.
    pub open spec fn wf(&self) -> bool {
        &&& table_wf(self.view_entries())
        &&& !self.wrapped() ==> distinct_tokens(self.view_entries()) && tokens_below(
            self.view_entries(),
            self.next_token(),
        )
    }

    /// An empty table whose first token is 0.
    pub fn new() -> (r: SubscriberTable)
        ensures
            r.wf(),
            r.view_entries() == Seq::<(Seq<char>, Seq<usize>)>::empty(),
            r.next_token() == 0,
            !r.wrapped(),
    {
        let r = SubscriberTable { entries: Vec::new(), next_id: 0, wrapped: Ghost(false) };
        assert(r.view_entries() =~= Seq::<(Seq<char>, Seq<usize>)>::empty());
        r
    }

    /// The position of the entry for `session`.
    fn position(&self, session: &str) -> (r: Option<usize>)
        requires
            self.wf(),
        ensures
            match r {
                Some(i) => has_session(self.view_entries(), session@) && i == session_index(
                    self.view_entries(),
                    session@,
                ) && i < self.view_entries().len(),
                None => !has_session(self.view_entries(), session@),
            },
    {
        let n = self.entries.len();
        let ghost t = self.view_entries();
        let mut i: usize = 0;
        while i < n
            invariant
                n == self.entries@.len(),
                t == self.view_entries(),
                t.len() == n,
                table_wf(t),
                0 <= i <= n,
                forall|j: int| 0 <= j < i ==> (#[trigger] t[j]).0 != session@,
            decreases n - i,
        {
            assert(t[i as int] == entry_view(self.entries@[i as int]));
            if str_eq(self.entries[i].session.as_str(), session) {
                proof {
                    assert(t[i as int].0 == session@);
                    let k = session_index(t, session@);
                    assert(t[k].0 == session@);
                    if k != i as int {
                        if k < i {
                            assert(t[k].0 != session@);
                        } else {
                            assert(t[i as int].0 != t[k].0);
                        }
                    }
                }
                return Some(i);
            }
            i = i + 1;
        }
        None
    }

    /// Registers a subscriber to `session` and returns its token.
    pub fn subscribe(&mut self, session: &str) -> (id: usize)
        requires
            old(self).wf(),
        ensures
            final(self).wf(),
            id == old(self).next_token(),
            final(self).next_token() == next_after(id),
            final(self).view_entries() == spec_subscribe(old(self).view_entries(), session@, id),
            final(self).wrapped() == (old(self).wrapped() || id == usize::MAX),
    {
        let id = self.next_id;
        let ghost was_wrapped = self.wrapped@;
        let ghost t0 = self.view_entries();
        proof {
            self.wrapped@ = was_wrapped || id == usize::MAX;
        }
        self.next_id = if id == usize::MAX {
            0
        } else {
            id + 1
        };
        let ghost t = self.view_entries();
        match self.position(session) {
            Some(i) => {
                let mut e = self.entries.remove(i);
                e.tokens.push(id);
                self.entries.insert(i, e);
                proof {
                    let u = t.update(i as int, (session@, t[i as int].1.push(id)));
                    assert(self.view_entries() =~= u);
                    assert forall|a: int, b: int| 0 <= a < b < u.len() implies (#[trigger] u[a]).0
                        != (#[trigger] u[b]).0 by {
                        assert(t[a].0 != t[b].0);
                    }
                    assert forall|a: int| 0 <= a < u.len() implies (#[trigger] u[a]).1.len()
                        > 0 by {
                        assert(t[a].1.len() > 0);
                    }
                }
            },
            None => {
                let mut tokens = Vec::new();
                tokens.push(id);
                self.entries.push(SessionSubscribers { session: string_of(session), tokens });
                proof {
                    let u = t.push((session@, seq![id]));
                    assert(self.view_entries() =~= u);
                    assert forall|a: int, b: int| 0 <= a < b < u.len() implies (#[trigger] u[a]).0
                        != (#[trigger] u[b]).0 by {
                        if b == t.len() {
                            assert(t[a].0 != session@);
                        } else {
                            assert(t[a].0 != t[b].0);
                        }
                    }
                    assert forall|a: int| 0 <= a < u.len() implies (#[trigger] u[a]).1.len()
                        > 0 by {
                        if a < t.len() {
                            assert(t[a].1.len() > 0);
                        }
                    }
                }
            },
        }
        proof {
            if !(was_wrapped || id == usize::MAX) {
                lemma_subscribe_distinct(t0, session@, id);
            }
        }
        id
    }

    /// Removes the subscriber `id` from `session`, and the session itself when
    /// that was its last subscriber.
    pub fn unsubscribe(&mut self, session: &str, id: usize)
        requires
            old(self).wf(),
        ensures
            final(self).wf(),
            final(self).next_token() == old(self).next_token(),
            final(self).view_entries() == spec_unsubscribe(old(self).view_entries(), session@, id),
            final(self).wrapped() == old(self).wrapped(),
    {
        proof {
            if !self.wrapped@ {
                lemma_unsubscribe_distinct(self.view_entries(), session@, id, self.next_id);
            }
        }
        let ghost t = self.view_entries();
        match self.position(session) {
            Some(i) => {
                let e = self.entries.remove(i);
                let rest = without_exec(&e.tokens, id);
                if rest.len() == 0 {
                    proof {
                        let u = t.remove(i as int);
                        assert(self.view_entries() =~= u);
                        assert forall|a: int, b: int| 0 <= a < b < u.len() implies (#[trigger] u[
                            a]).0 != (#[trigger] u[b]).0 by {
                            if a < i {
                                if b < i {
                                    assert(t[a].0 != t[b].0);
                                } else {
                                    assert(t[a].0 != t[b + 1].0);
                                }
                            } else {
                                assert(t[a + 1].0 != t[b + 1].0);
                            }
                        }
                        assert forall|a: int| 0 <= a < u.len() implies (#[trigger] u[a]).1.len()
                            > 0 by {
                            if a < i {
                                assert(t[a].1.len() > 0);
                            } else {
                                assert(t[a + 1].1.len() > 0);
                            }
                        }
                    }
                } else {
                    self.entries.insert(i, SessionSubscribers { session: e.session, tokens: rest });
                    proof {
                        let u = t.update(i as int, (session@, without(t[i as int].1, id)));
                        assert(self.view_entries() =~= u);
                        assert forall|a: int, b: int| 0 <= a < b < u.len() implies (#[trigger] u[
                            a]).0 != (#[trigger] u[b]).0 by {
                            assert(t[a].0 != t[b].0);
                        }
                        assert forall|a: int| 0 <= a < u.len() implies (#[trigger] u[a]).1.len()
                            > 0 by {
                            assert(t[a].1.len() > 0);
                        }
                    }
                }
            },
            None => {},
        }
    }

    /// The tokens that receive an envelope routed to `route`.
    pub fn recipients(&self, route: &Route) -> (r: Vec<usize>)
        requires
            self.wf(),
        ensures
            r@ == spec_recipients(self.view_entries(), route.view_route()),
    {
        match route {
            Route::Drop => Vec::new(),
            Route::Session(s) => match self.position(s.as_str()) {
                Some(i) => {
                    let mut out = Vec::new();
                    append_tokens(&mut out, &self.entries[i].tokens);
                    assert(self.view_entries()[i as int] == entry_view(self.entries@[i as int]));
                    out
                },
                None => Vec::new(),
            },
            Route::Broadcast => {
                let ghost t = self.view_entries();
                let n = self.entries.len();
                let mut out: Vec<usize> = Vec::new();
                let mut i: usize = 0;
                assert(t.take(0) =~= Seq::<(Seq<char>, Seq<usize>)>::empty());
                while i < n
                    invariant
                        n == self.entries@.len(),
                        t == self.view_entries(),
                        t.len() == n,
                        0 <= i <= n,
                        out@ == all_tokens(t.take(i as int)),
                    decreases n - i,
                {
                    assert(t[i as int] == entry_view(self.entries@[i as int]));
                    append_tokens(&mut out, &self.entries[i].tokens);
                    assert(t.take(i + 1).drop_last() =~= t.take(i as int));
                    i = i + 1;
                }
                assert(t.take(n as int) =~= t);
                out
            },
        }
    }

    /// How many sessions currently have a subscriber.
    pub fn session_count(&self) -> (r: usize)
        ensures
            r == self.view_entries().len(),
    {
        self.entries.len()
    }
}

fn append_tokens(out: &mut Vec<usize>, src: &Vec<usize>)
    ensures
        final(out)@ == old(out)@ + src@,
{
    let n = src.len();
    let mut i: usize = 0;
    while i < n
        invariant
            n == src@.len(),
            0 <= i <= n,
            out@ == old(out)@ + src@.take(i as int),
        decreases n - i,
    {
        out.push(src[i]);
        assert(src@.take(i + 1) =~= src@.take(i as int).push(src@[i as int]));
        i = i + 1;
    }
    assert(src@.take(n as int) =~= src@);
}

fn without_exec(src: &Vec<usize>, id: usize) -> (r: Vec<usize>)
    ensures
        r@ == without(src@, id),
{
    let n = src.len();
    let mut out: Vec<usize> = Vec::new();
    let mut i: usize = 0;
    assert(src@.take(0) =~= Seq::<usize>::empty());
    while i < n
        invariant
            n == src@.len(),
            0 <= i <= n,
            out@ == without(src@.take(i as int), id),
        decreases n - i,
    {
        assert(src@.take(i + 1).drop_last() =~= src@.take(i as int));
        if src[i] != id {
            out.push(src[i]);
        }
        i = i + 1;
    }
    assert(src@.take(n as int) =~= src@);
    out
}

proof fn lemma_without_absent(s: Seq<usize>, id: usize)
    requires
        !s.contains(id),
    ensures
        without(s, id) == s,
    decreases s.len(),
{
    if s.len() > 0 {
        assert(!s.drop_last().contains(id)) by {
            if s.drop_last().contains(id) {
                let k = choose|k: int| 0 <= k < s.drop_last().len() && s.drop_last()[k] == id;
                assert(s[k] == id);
            }
        }
        lemma_without_absent(s.drop_last(), id);
        assert(s[s.len() - 1] != id);
        assert(s.drop_last().push(s.last()) =~= s);
    }
}

proof fn lemma_without_removes(s: Seq<usize>, id: usize)
    ensures
        !without(s, id).contains(id),
    decreases s.len(),
{
    if s.len() > 0 {
        lemma_without_removes(s.drop_last(), id);
        let w = without(s.drop_last(), id);
        if s.last() != id {
            assert forall|k: int| 0 <= k < w.push(s.last()).len() implies w.push(s.last())[k]
                != id by {
                if k < w.len() {
                    assert(w[k] != id) by {
                        if w[k] == id {
                            assert(w.contains(id));
                        }
                    }
                }
            }
        }
    }
}

/// Whoever subscribes to a session and then unsubscribes with the token they
/// were given leaves the table exactly as they found it.
pub proof fn law_subscribe_then_unsubscribe_restores(t: Entries, s: Seq<char>, id: usize)
    requires
        table_wf(t),
        !tokens_of(t, s).contains(id),
    ensures
        spec_unsubscribe(spec_subscribe(t, s, id), s, id) == t,
{
    let u = spec_subscribe(t, s, id);
    if has_session(t, s) {
        let i = session_index(t, s);
        assert(u[i].0 == s);
        assert(has_session(u, s));
        let k = session_index(u, s);
        assert(u[k].0 == s);
        assert(k == i) by {
            if k != i {
                if k < i {
                    assert(t[k].0 != t[i].0);
                } else {
                    assert(t[i].0 != t[k].0);
                }
            }
        }
        lemma_without_absent(t[i].1, id);
        assert(t[i].1.push(id).drop_last() =~= t[i].1);
        assert(without(t[i].1.push(id), id) == t[i].1);
        assert(t[i].1.len() > 0);
        assert(t.update(i, (s, t[i].1)) =~= t);
    } else {
        assert(u[t.len() as int].0 == s);
        assert(has_session(u, s));
        let k = session_index(u, s);
        assert(u[k].0 == s);
        assert(k == t.len()) by {
            if k < t.len() {
                assert(t[k].0 == s);
            }
        }
        let one = seq![id];
        assert(one.drop_last() =~= Seq::<usize>::empty());
        assert(one.last() == id);
        assert(without(Seq::<usize>::empty(), id) == Seq::<usize>::empty());
        assert(without(one, id) == Seq::<usize>::empty());
        assert(u.remove(t.len() as int) =~= t);
    }
}

/// Subscribing adds a session to the count exactly when nobody watched it yet.
pub proof fn law_subscribe_counts_new_sessions(t: Entries, s: Seq<char>, id: usize)
    requires
        table_wf(t),
    ensures
        spec_subscribe(t, s, id).len() == t.len() + if has_session(t, s) {
            0int
        } else {
            1int
        },
        has_session(spec_subscribe(t, s, id), s),
        tokens_of(spec_subscribe(t, s, id), s).contains(id),
{
    let u = spec_subscribe(t, s, id);
    if has_session(t, s) {
        let i = session_index(t, s);
        assert(u[i].0 == s);
    } else {
        assert(u[t.len() as int].0 == s);
    }
    assert(has_session(u, s));
    let k = session_index(u, s);
    assert(u[k].0 == s);
    if has_session(t, s) {
        let i = session_index(t, s);
        assert(t[i].0 == s);
        if k != i {
            assert(u[k] == t[k]);
            if k < i {
                assert(t[k].0 != t[i].0);
            } else {
                assert(t[i].0 != t[k].0);
            }
        }
        assert(tokens_of(u, s) == t[i].1.push(id));
        assert(tokens_of(u, s)[t[i].1.len() as int] == id);
    } else {
        if k < t.len() {
            assert(t[k].0 == s);
        }
        assert(tokens_of(u, s) == seq![id]);
        assert(tokens_of(u, s)[0] == id);
    }
}

/// A token that unsubscribed from a session receives nothing routed to it.
pub proof fn law_unsubscribed_token_receives_nothing(t: Entries, s: Seq<char>, id: usize)
    requires
        table_wf(t),
    ensures
        !spec_recipients(spec_unsubscribe(t, s, id), RouteView::Session(s)).contains(id),
{
    let u = spec_unsubscribe(t, s, id);
    if has_session(t, s) {
        let i = session_index(t, s);
        assert(t[i].0 == s);
        lemma_without_removes(t[i].1, id);
        if has_session(u, s) {
            let k = session_index(u, s);
            assert(u[k].0 == s);
            let rest = without(t[i].1, id);
            if rest.len() == 0 {
                if k < i {
                    assert(u[k] == t[k]);
                    assert(t[k].0 != t[i].0);
                } else {
                    assert(u[k] == t[k + 1]);
                    assert(t[i].0 != t[k + 1].0);
                }
            } else {
                if k != i {
                    assert(u[k] == t[k]);
                    if k < i {
                        assert(t[k].0 != t[i].0);
                    } else {
                        assert(t[i].0 != t[k].0);
                    }
                }
            }
        }
    } else {
        if has_session(u, s) {
            let k = session_index(u, s);
            assert(u[k].0 == s);
            assert(t[k].0 == s);
        }
    }
}

/// A frame routed to a session reaches exactly that session's subscribers,
/// one dropped reaches nobody, and a broadcast reaches every subscriber.
pub proof fn law_recipients_follow_the_route(t: Entries, s: Seq<char>)
    ensures
        spec_recipients(t, RouteView::Session(s)) == tokens_of(t, s),
        spec_recipients(t, RouteView::Drop).len() == 0,
        forall|i: int, k: int|
            0 <= i < t.len() && 0 <= k < t[i].1.len() ==> spec_recipients(
                t,
                RouteView::Broadcast,
            ).contains(#[trigger] t[i].1[k]),
{
    assert forall|i: int, k: int| 0 <= i < t.len() && 0 <= k < t[i].1.len() implies all_tokens(
        t,
    ).contains(#[trigger] t[i].1[k]) by {
        lemma_all_tokens_contains(t, i, k);
    }
}

proof fn lemma_all_tokens_contains(t: Entries, i: int, k: int)
    requires
        0 <= i < t.len(),
        0 <= k < t[i].1.len(),
    ensures
        all_tokens(t).contains(t[i].1[k]),
    decreases t.len(),
{
    let a = all_tokens(t.drop_last());
    if i == t.len() - 1 {
        assert((a + t.last().1)[a.len() + k] == t[i].1[k]);
    } else {
        assert(t.drop_last()[i] == t[i]);
        lemma_all_tokens_contains(t.drop_last(), i, k);
        let j = choose|j: int| 0 <= j < a.len() && a[j] == t[i].1[k];
        assert((a + t.last().1)[j] == t[i].1[k]);
    }
}


proof fn lemma_without_subset(s: Seq<usize>, id: usize, x: usize)
    requires
        without(s, id).contains(x),
    ensures
        s.contains(x),
        x != id,
    decreases s.len(),
{
    if s.len() > 0 {
        let w = without(s.drop_last(), id);
        if s.last() != id && x == s.last() {
            assert(s[s.len() - 1] == x);
        } else {
            if s.last() != id {
                let k = choose|k: int| 0 <= k < w.push(s.last()).len() && w.push(s.last())[k] == x;
                assert(w[k] == x);
            }
            lemma_without_subset(s.drop_last(), id, x);
            let k = choose|k: int| 0 <= k < s.drop_last().len() && s.drop_last()[k] == x;
            assert(s[k] == x);
        }
    }
}

proof fn lemma_without_no_dup(s: Seq<usize>, id: usize)
    requires
        no_dup(s),
    ensures
        no_dup(without(s, id)),
    decreases s.len(),
{
    if s.len() > 0 {
        let d = s.drop_last();
        assert(no_dup(d)) by {
            assert forall|a: int, b: int| 0 <= a < b < d.len() implies #[trigger] d[a] != #[trigger] d[b] by {
                assert(s[a] != s[b]);
            }
        }
        lemma_without_no_dup(d, id);
        let w = without(d, id);
        if s.last() != id {
            assert(!w.contains(s.last())) by {
                if w.contains(s.last()) {
                    lemma_without_subset(d, id, s.last());
                    let k = choose|k: int| 0 <= k < d.len() && d[k] == s.last();
                    assert(s[k] != s[s.len() - 1]);
                }
            }
            let u = w.push(s.last());
            assert forall|a: int, b: int| 0 <= a < b < u.len() implies #[trigger] u[a] != #[trigger] u[b] by {
                if b == w.len() {
                    assert(u[a] == w[a]);
                    assert(w.contains(w[a]));
                } else {
                    assert(w[a] != w[b]);
                }
            }
        }
    }
}

proof fn lemma_subscribe_distinct(t: Entries, s: Seq<char>, id: usize)
    requires
        table_wf(t),
        distinct_tokens(t),
        tokens_below(t, id),
        id < usize::MAX,
    ensures
        distinct_tokens(spec_subscribe(t, s, id)),
        tokens_below(spec_subscribe(t, s, id), (id + 1) as usize),
{
    let u = spec_subscribe(t, s, id);
    // Where each entry of `u` comes from: an entry of `t`, possibly with the
    // new token added at its end.
    assert forall|i: int, x: usize| 0 <= i < u.len() && (#[trigger] u[i].1.contains(x)) implies x
        == id || (i < t.len() && t[i].1.contains(x)) by {
        if i < t.len() && u[i].1 != t[i].1 {
            let k = choose|k: int| 0 <= k < u[i].1.len() && u[i].1[k] == x;
            if k < t[i].1.len() {
                assert(u[i].1[k] == t[i].1[k]);
            }
        } else if i >= t.len() {
            let k = choose|k: int| 0 <= k < u[i].1.len() && u[i].1[k] == x;
        }
    }
    assert forall|i: int| 0 <= i < t.len() implies !(#[trigger] t[i].1).contains(id) by {
        if t[i].1.contains(id) {
            assert(id < id);
        }
    }
    assert forall|i: int| 0 <= i < u.len() implies no_dup(#[trigger] u[i].1) by {
        if i < t.len() && u[i].1 != t[i].1 {
            let o = t[i].1;
            assert(no_dup(o));
            assert(u[i].1 == o.push(id));
            assert forall|a: int, b: int| 0 <= a < b < o.push(id).len() implies #[trigger] o.push(
                id,
            )[a] != #[trigger] o.push(id)[b] by {
                if b == o.len() {
                    assert(o.contains(o[a]));
                } else {
                    assert(o[a] != o[b]);
                }
            }
        } else if i < t.len() {
            assert(no_dup(t[i].1));
        }
    }
    assert forall|i: int, j: int, x: usize|
        0 <= i < u.len() && 0 <= j < u.len() && i != j && #[trigger] u[i].1.contains(x) implies !(
        #[trigger] u[j].1.contains(x)) by {
        if u[j].1.contains(x) {
            if x == id {
                // The new token went to exactly one entry.
                if has_session(t, s) {
                    let k = session_index(t, s);
                    if i != k {
                        assert(i < t.len() && t[i].1.contains(x));
                    } else {
                        assert(j < t.len() && t[j].1.contains(x));
                    }
                } else {
                    if i != t.len() {
                        assert(i < t.len() && t[i].1.contains(x));
                    } else {
                        assert(j < t.len() && t[j].1.contains(x));
                    }
                }
            } else {
                assert(t[i].1.contains(x) && t[j].1.contains(x));
            }
        }
    }
}

proof fn lemma_unsubscribe_distinct(t: Entries, s: Seq<char>, id: usize, next: usize)
    requires
        table_wf(t),
        distinct_tokens(t),
        tokens_below(t, next),
    ensures
        distinct_tokens(spec_unsubscribe(t, s, id)),
        tokens_below(spec_unsubscribe(t, s, id), next),
{
    let u = spec_unsubscribe(t, s, id);
    if has_session(t, s) {
        let k = session_index(t, s);
        let rest = without(t[k].1, id);
        lemma_without_no_dup(t[k].1, id);
        // Every entry of `u` is an entry of `t`, or entry `k` with tokens left out.
        let src = |i: int| if rest.len() == 0 && i >= k {
            i + 1
        } else {
            i
        };
        assert forall|i: int, x: usize| 0 <= i < u.len() && (#[trigger] u[i].1.contains(x)) implies (
        0 <= src(i) < t.len() && t[src(i)].1.contains(x)) by {
            if rest.len() != 0 && i == k {
                lemma_without_subset(t[k].1, id, x);
            } else {
                assert(u[i] == t[src(i)]);
            }
        }
        assert forall|i: int| 0 <= i < u.len() implies no_dup(#[trigger] u[i].1) by {
            if rest.len() != 0 && i == k {
            } else {
                assert(u[i] == t[src(i)]);
            }
        }
        assert forall|i: int, j: int, x: usize|
            0 <= i < u.len() && 0 <= j < u.len() && i != j && #[trigger] u[i].1.contains(x) implies !(
            #[trigger] u[j].1.contains(x)) by {
            if u[j].1.contains(x) {
                assert(t[src(i)].1.contains(x) && t[src(j)].1.contains(x));
            }
        }
    }
}

/// How often `x` occurs in `s`.
pub open spec fn occurrences(s: Seq<usize>, x: usize) -> nat
    decreases s.len(),
{
    if s.len() == 0 {
        0
    } else {
        occurrences(s.drop_last(), x) + if s.last() == x {
            1nat
        } else {
            0nat
        }
    }
}

/// Whether `x` is the token of some live subscriber.
pub open spec fn subscribed(t: Entries, x: usize) -> bool {
    exists|i: int| 0 <= i < t.len() && (#[trigger] t[i].1).contains(x)
}

/// Whether the subscriber with token `x` is meant to receive an envelope
/// routed to `route`.
pub open spec fn addressed(t: Entries, route: RouteView, x: usize) -> bool {
    match route {
        RouteView::Session(s) => tokens_of(t, s).contains(x),
        RouteView::Broadcast => subscribed(t, x),
        RouteView::Drop => false,
    }
}

proof fn lemma_occurrences_no_dup(s: Seq<usize>, x: usize)
    requires
        no_dup(s),
    ensures
        occurrences(s, x) == if s.contains(x) {
            1nat
        } else {
            0nat
        },
    decreases s.len(),
{
    if s.len() > 0 {
        let d = s.drop_last();
        assert(no_dup(d)) by {
            assert forall|a: int, b: int| 0 <= a < b < d.len() implies #[trigger] d[a] != #[trigger] d[b] by {
                assert(s[a] != s[b]);
            }
        }
        lemma_occurrences_no_dup(d, x);
        if s.last() == x {
            assert(s[s.len() - 1] == x);
            if d.contains(x) {
                let k = choose|k: int| 0 <= k < d.len() && d[k] == x;
                assert(s[k] != s[s.len() - 1]);
            }
        } else {
            if s.contains(x) {
                let k = choose|k: int| 0 <= k < s.len() && s[k] == x;
                assert(d[k] == x);
            }
            if d.contains(x) {
                let k = choose|k: int| 0 <= k < d.len() && d[k] == x;
                assert(s[k] == x);
            }
        }
    }
}

proof fn lemma_occurrences_concat(a: Seq<usize>, b: Seq<usize>, x: usize)
    ensures
        occurrences(a + b, x) == occurrences(a, x) + occurrences(b, x),
    decreases b.len(),
{
    if b.len() == 0 {
        assert(a + b =~= a);
    } else {
        assert((a + b).drop_last() =~= a + b.drop_last());
        lemma_occurrences_concat(a, b.drop_last(), x);
    }
}

proof fn lemma_broadcast_once(t: Entries, x: usize)
    requires
        distinct_tokens(t),
    ensures
        occurrences(all_tokens(t), x) == if subscribed(t, x) {
            1nat
        } else {
            0nat
        },
    decreases t.len(),
{
    if t.len() > 0 {
        let d = t.drop_last();
        assert(distinct_tokens(d)) by {
            assert forall|i: int| 0 <= i < d.len() implies no_dup(#[trigger] d[i].1) by {
                assert(d[i] == t[i]);
                assert(no_dup(t[i].1));
            }
            assert forall|i: int, j: int, y: usize|
                0 <= i < d.len() && 0 <= j < d.len() && i != j && #[trigger] d[i].1.contains(y) implies !(
                #[trigger] d[j].1.contains(y)) by {
                assert(d[i] == t[i] && d[j] == t[j]);
            }
        }
        lemma_broadcast_once(d, x);
        lemma_occurrences_concat(all_tokens(d), t.last().1, x);
        let n = t.len() - 1;
        assert(no_dup(t[n].1));
        lemma_occurrences_no_dup(t.last().1, x);
        if subscribed(d, x) {
            let i = choose|i: int| 0 <= i < d.len() && (#[trigger] d[i].1).contains(x);
            assert(d[i] == t[i]);
            assert(t[i].1.contains(x));
            assert(!t[n].1.contains(x));
            assert(subscribed(t, x));
        } else {
            if t.last().1.contains(x) {
                assert(t[n].1.contains(x));
                assert(subscribed(t, x));
            } else if subscribed(t, x) {
                let i = choose|i: int| 0 <= i < t.len() && (#[trigger] t[i].1).contains(x);
                if i < n {
                    assert(d[i] == t[i]);
                    assert(d[i].1.contains(x));
                }
            }
        }
    }
}

/// Exactly-once delivery: while every live subscriber holds a token of its
/// own (which `subscribe` and `unsubscribe` keep until the token counter
/// starts over), an envelope reaches each subscriber it is addressed to
/// exactly once (the subscribers of its session, or every subscriber for a
/// broadcast) and reaches no other subscriber at all, so another session's
/// traffic, a dropped `tui.*` envelope and an unsubscribed token get nothing.
pub proof fn law_each_subscriber_receives_once(t: Entries, route: RouteView, x: usize)
    requires
        table_wf(t),
        distinct_tokens(t),
    ensures
        occurrences(spec_recipients(t, route), x) == if addressed(t, route, x) {
            1nat
        } else {
            0nat
        },
{
    match route {
        RouteView::Session(s) => {
            if has_session(t, s) {
                let k = session_index(t, s);
                assert(no_dup(t[k].1));
                lemma_occurrences_no_dup(t[k].1, x);
            } else {
                assert(occurrences(Seq::<usize>::empty(), x) == 0);
            }
        },
        RouteView::Broadcast => lemma_broadcast_once(t, x),
        RouteView::Drop => {
            assert(occurrences(Seq::<usize>::empty(), x) == 0);
        },
    }
}
} // verus!
