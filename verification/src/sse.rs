//! Server-sent event framing: lines in, frames out.
//!
//! The reader feeds one line at a time (as `read_line` returns it, with or
//! without its terminator); a blank line dispatches whatever the lines before
//! it accumulated.
use vstd::prelude::*;
use crate::text::{chars_of, find_char, find_char_in, push_char, push_range, string_of_range};

verus! {

/// One parsed server-sent-event frame.
#[derive(Clone, Debug, PartialEq, Eq)]
pub enum SseFrame {
    /// A frame with only `data:` lines, which is every ordinary event.
    Data(String),
    /// A frame carrying an `event:` field. The service uses this solely to
    /// report that the stream itself failed, so a reader that ignored the
    /// field would sit blind on a dead stream.
    Named { event: String, data: String },
    /// A `:`-prefixed comment; the service heartbeats with `: heartbeat`.
    Comment,
}

/// A frame as the specifications speak of it.
pub enum FrameView {
    Data(Seq<char>),
    Named(Seq<char>, Seq<char>),
    Comment,
}

impl SseFrame {
    pub open spec fn view_frame(&self) -> FrameView {
        match self {
            SseFrame::Data(d) => FrameView::Data(d@),
            SseFrame::Named { event, data } => FrameView::Named(event@, data@),
            SseFrame::Comment => FrameView::Comment,
        }
    }
}

/// What the parser has accumulated since the last dispatched frame.
pub struct SseState {
    pub event: Seq<char>,
    pub data: Seq<char>,
    pub saw_comment: bool,
}

/// `trim_end_matches(['\r', '\n'])`.
pub open spec fn trim_newlines(s: Seq<char>) -> Seq<char>
    decreases s.len(),
{
    if s.len() > 0 && (s.last() == '\r' || s.last() == '\n') {
        trim_newlines(s.drop_last())
    } else {
        s
    }
}

/// The value of a field line: what follows the first `:`, less one leading
/// space; a line with no `:` is a field with an empty value.
pub open spec fn field_value(t: Seq<char>) -> Seq<char> {
    match find_char(t, ':') {
        Some(k) => {
            let v = t.skip(k + 1);
            if v.len() > 0 && v[0] == ' ' {
                v.drop_first()
            } else {
                v
            }
        },
        None => Seq::empty(),
    }
}

/// The name of a field line: what precedes the first `:`, or the whole line.
pub open spec fn field_name(t: Seq<char>) -> Seq<char> {
    match find_char(t, ':') {
        Some(k) => t.take(k),
        None => t,
    }
}

/// One line's effect: the next state and the frame it dispatches, if any.
pub open spec fn sse_step(st: SseState, line: Seq<char>) -> (SseState, Option<FrameView>) {
    let t = trim_newlines(line);
    if t.len() == 0 {
        if st.data.len() > 0 || st.event.len() > 0 {
            (
                SseState { event: Seq::empty(), data: Seq::empty(), saw_comment: false },
                Some(
                    if st.event.len() == 0 {
                        FrameView::Data(st.data)
                    } else {
                        FrameView::Named(st.event, st.data)
                    },
                ),
            )
        } else if st.saw_comment {
            (SseState { event: st.event, data: st.data, saw_comment: false }, Some(FrameView::Comment))
        } else {
            (st, None)
        }
    } else if t[0] == ':' {
        (SseState { event: st.event, data: st.data, saw_comment: true }, None)
    } else {
        let name = field_name(t);
        let value = field_value(t);
        if name == "data"@ {
            let data = if st.data.len() == 0 {
                value
            } else {
                st.data.push('\n') + value
            };
            (SseState { event: st.event, data, saw_comment: st.saw_comment }, None)
        } else if name == "event"@ {
            (SseState { event: value, data: st.data, saw_comment: st.saw_comment }, None)
        } else {
            (st, None)
        }
    }
}

/// Turns the lines of an event stream into frames.
pub struct SseParser {
    event: String,
    data: String,
    saw_comment: bool,
}

impl SseParser {
    pub closed spec fn state(&self) -> SseState {
        SseState { event: self.event@, data: self.data@, saw_comment: self.saw_comment }
    }

    /// A parser that has seen nothing.
    pub fn new() -> (r: SseParser)
        ensures
            r.state() == (SseState { event: Seq::empty(), data: Seq::empty(), saw_comment: false }),
    {
        SseParser { event: String::new(), data: String::new(), saw_comment: false }
    }

    /// Feeds one line and answers the frame it completes, if any.
    pub fn feed(&mut self, line: &str) -> (r: Option<SseFrame>)
        ensures
            sse_step(old(self).state(), line@).0 == final(self).state(),
            match sse_step(old(self).state(), line@).1 {
                Some(f) => r matches Some(g) && g.view_frame() == f,
                None => r is None,
            },
    {
        let v = chars_of(line);
        let mut end = v.len();
        assert(v@.subrange(0, end as int) =~= line@);
        while end > 0 && (v[end - 1] == '\r' || v[end - 1] == '\n')
            invariant
                end <= v@.len(),
                trim_newlines(line@) == trim_newlines(v@.subrange(0, end as int)),
                v@ == line@,
            decreases end,
        {
            assert(v@.subrange(0, end as int).drop_last() =~= v@.subrange(0, end - 1));
            end = end - 1;
        }
        assert(v@.subrange(0, v@.len() as int) =~= v@);
        proof {
            let t = v@.subrange(0, end as int);
            assert(!(t.len() > 0 && (t.last() == '\r' || t.last() == '\n')));
        }
        let ghost t = v@.subrange(0, end as int);
        assert(trim_newlines(line@) == t);
        if end == 0 {
            if !self.data.as_str().is_empty() || !self.event.as_str().is_empty() {
                proof {
                    assert(self.data@.len() > 0 || self.event@.len() > 0);
                }
                let mut payload = String::new();
                std::mem::swap(&mut payload, &mut self.data);
                let mut name = String::new();
                std::mem::swap(&mut name, &mut self.event);
                self.saw_comment = false;
                if name.as_str().is_empty() {
                    return Some(SseFrame::Data(payload));
                } else {
                    return Some(SseFrame::Named { event: name, data: payload });
                }
            }
            proof {
                assert(self.data@.len() == 0 && self.event@.len() == 0);
            }
            if self.saw_comment {
                self.saw_comment = false;
                return Some(SseFrame::Comment);
            }
            return None;
        }
        if v[0] == ':' {
            self.saw_comment = true;
            return None;
        }
        let (name_end, value_start) = match find_char_in(&v, 0, end, ':') {
            Some(k) => {
                assert(t.take(k as int) =~= v@.subrange(0, k as int));
                let vs = if k + 1 < end && v[k + 1] == ' ' {
                    k + 2
                } else {
                    k + 1
                };
                proof {
                    let w = t.skip(k + 1);
                    assert(w =~= v@.subrange(k + 1, end as int));
                    if w.len() > 0 && w[0] == ' ' {
                        assert(w.drop_first() =~= v@.subrange(vs as int, end as int));
                    } else {
                        assert(w =~= v@.subrange(vs as int, end as int));
                    }
                }
                (k, vs)
            },
            None => {
                assert(t =~= v@.subrange(0, end as int));
                (end, end)
            },
        };
        assert(field_name(t) == v@.subrange(0, name_end as int));
        assert(field_value(t) == v@.subrange(value_start as int, end as int));
        let data_word = chars_of("data");
        let event_word = chars_of("event");
        if name_end == data_word.len() && crate::text::range_starts_with(&v, 0, name_end, &data_word) {
            assert(v@.subrange(0, name_end as int) =~= data_word@) by {
                assert(v@.subrange(0, name_end as int).take(data_word@.len() as int) =~= v@.subrange(0, name_end as int));
            }
            if !self.data.as_str().is_empty() {
                push_char(&mut self.data, '\n');
            }
            push_range(&mut self.data, &v, value_start, end);
            proof {
                if old(self).data@.len() == 0 {
                    assert(self.data@ =~= field_value(t));
                }
            }
            return None;
        }
        proof {
            if v@.subrange(0, name_end as int) == data_word@ {
                assert(v@.subrange(0, name_end as int).take(data_word@.len() as int) =~= v@.subrange(0, name_end as int));
            }
        }
        if name_end == event_word.len() && crate::text::range_starts_with(&v, 0, name_end, &event_word) {
            assert(v@.subrange(0, name_end as int) =~= event_word@) by {
                assert(v@.subrange(0, name_end as int).take(event_word@.len() as int) =~= v@.subrange(0, name_end as int));
            }
            self.event = string_of_range(&v, value_start, end);
            return None;
        }
        proof {
            if v@.subrange(0, name_end as int) == event_word@ {
                assert(v@.subrange(0, name_end as int).take(event_word@.len() as int) =~= v@.subrange(0, name_end as int));
            }
        }
        None
    }
}

/// The state of a parser that has seen nothing since its last frame.
pub open spec fn empty_state() -> SseState {
    SseState { event: Seq::empty(), data: Seq::empty(), saw_comment: false }
}

/// The frames a run of lines dispatches, in order, and the state it leaves.
pub open spec fn sse_run(st: SseState, lines: Seq<Seq<char>>) -> (SseState, Seq<FrameView>)
    decreases lines.len(),
{
    if lines.len() == 0 {
        (st, Seq::empty())
    } else {
        let (next, frame) = sse_step(st, lines[0]);
        let (last, frames) = sse_run(next, lines.drop_first());
        (
            last,
            match frame {
                Some(f) => seq![f] + frames,
                None => frames,
            },
        )
    }
}

/// A blank line ends the frame being read: whatever it dispatches, the parser
/// is left with no event name, no data and no comment. A frame it dispatches
/// carries the accumulated data, and is named exactly when an `event:` line
/// came since the previous frame; with neither, a comment seen since then
/// dispatches a bare comment.
pub proof fn law_blank_line_dispatches_and_forgets(st: SseState, line: Seq<char>)
    requires
        trim_newlines(line).len() == 0,
    ensures
        sse_step(st, line).0 == empty_state(),
        st.event.len() > 0 ==> sse_step(st, line).1 == Some(FrameView::Named(st.event, st.data)),
        st.event.len() == 0 && st.data.len() > 0 ==> sse_step(st, line).1 == Some(
            FrameView::Data(st.data),
        ),
        st.event.len() == 0 && st.data.len() == 0 ==> sse_step(st, line).1 == (if st.saw_comment {
            Some(FrameView::Comment)
        } else {
            None
        }),
{
    if st.event.len() == 0 && st.data.len() == 0 {
        assert(st.event =~= Seq::<char>::empty());
        assert(st.data =~= Seq::<char>::empty());
    }
}

/// What a parser dispatches after a blank line depends only on the lines fed
/// after it: from any state, a blank line and then some lines dispatch the
/// blank line's own frame followed by exactly the frames those lines
/// dispatch from a fresh parser, and end where a fresh parser would.
pub proof fn law_frames_depend_only_on_lines_since_a_dispatch(
    a: SseState,
    blank: Seq<char>,
    lines: Seq<Seq<char>>,
)
    requires
        trim_newlines(blank).len() == 0,
    ensures
        sse_run(a, seq![blank] + lines).0 == sse_run(empty_state(), lines).0,
        sse_run(a, seq![blank] + lines).1 == match sse_step(a, blank).1 {
            Some(f) => seq![f] + sse_run(empty_state(), lines).1,
            None => sse_run(empty_state(), lines).1,
        },
{
    law_blank_line_dispatches_and_forgets(a, blank);
    assert((seq![blank] + lines)[0] == blank);
    assert((seq![blank] + lines).drop_first() =~= lines);
}

/// A `data:` line adds its value to the frame being read, after a newline
/// when the frame already holds data; an `event:` line names the frame; a
/// line that starts with `:` marks a comment. None of them dispatches a frame,
/// and each leaves the rest of what was read untouched.
pub proof fn law_field_lines_accumulate(st: SseState, v: Seq<char>)
    requires
        v.len() == 0 || (v.last() != '\r' && v.last() != '\n'),
    ensures
        sse_step(st, "data: "@ + v) == (
            SseState {
                event: st.event,
                data: if st.data.len() == 0 {
                    v
                } else {
                    st.data + "\n"@ + v
                },
                saw_comment: st.saw_comment,
            },
            None::<FrameView>,
        ),
        sse_step(st, "event: "@ + v) == (
            SseState { event: v, data: st.data, saw_comment: st.saw_comment },
            None::<FrameView>,
        ),
        sse_step(st, ":"@ + v) == (
            SseState { event: st.event, data: st.data, saw_comment: true },
            None::<FrameView>,
        ),
{
    reveal_strlit("data: ");
    reveal_strlit("event: ");
    reveal_strlit(":");
    reveal_strlit("data");
    reveal_strlit("event");
    reveal_strlit("\n");
    let d = "data: "@ + v;
    let e = "event: "@ + v;
    let c = ":"@ + v;
    assert(trim_newlines(d) == d);
    assert(trim_newlines(e) == e);
    assert(trim_newlines(c) == c);
    assert(find_char(d, ':') == Some(4int)) by {
        assert(d[0] == 'd' && d[1] == 'a' && d[2] == 't' && d[3] == 'a' && d[4] == ':');
        reveal_with_fuel(crate::text::find_char_from, 6);
    }
    assert(find_char(e, ':') == Some(5int)) by {
        assert(e[0] == 'e' && e[1] == 'v' && e[2] == 'e' && e[3] == 'n' && e[4] == 't' && e[5]
            == ':');
        reveal_with_fuel(crate::text::find_char_from, 7);
    }
    assert(d.take(4) =~= "data"@);
    assert(e.take(5) =~= "event"@);
    assert(d.skip(5).drop_first() =~= v);
    assert(e.skip(6).drop_first() =~= v);
    assert(st.data.push('\n') + v =~= st.data + "\n"@ + v);
}

} // verus!
