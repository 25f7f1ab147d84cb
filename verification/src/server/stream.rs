//! Reading streamed model replies: splitting the byte stream into lines,
//! the server-sent-event `data:` lines of OpenAI-compatible endpoints, the
//! tool calls that arrive in fragments, and the NDJSON lines of Ollama.
use vstd::prelude::*;
use crate::text::{append_chars, chars_of, dec, slice_chars, starts_with_chars, str_eq, string_of, trim, trim_chars, u64_to_dec};
use vstd::utf8::{decode_utf8, valid_utf8};

verus! {

// ---------------------------------------------------------------------------
// Line framing
// ---------------------------------------------------------------------------

/// Complete lines (without their `'\n'`) and the unfinished rest.
pub open spec fn frame(data: Seq<u8>) -> (Seq<Seq<u8>>, Seq<u8>)
    decreases data.len(),
{
    if data.len() == 0 {
        (Seq::empty(), Seq::empty())
    } else {
        let (lines, rest) = frame(data.drop_last());
        if data.last() == 10u8 {
            (lines.push(rest), Seq::empty())
        } else {
            (lines, rest.push(data.last()))
        }
    }
}

pub open spec fn byte_views(v: Seq<Vec<u8>>) -> Seq<Seq<u8>> {
    v.map_values(|l: Vec<u8>| l@)
}

pub open spec fn no_newline(s: Seq<u8>) -> bool {
    forall|i: int| 0 <= i < s.len() ==> s[i] != 10u8
}

proof fn lemma_frame_no_newline(s: Seq<u8>)
    requires
        no_newline(s),
    ensures
        frame(s) == (Seq::<Seq<u8>>::empty(), s),
    decreases s.len(),
{
    if s.len() > 0 {
        lemma_frame_no_newline(s.drop_last());
        assert(s.drop_last().push(s.last()) =~= s);
    }
}

/// Bytes received but not yet ended by a line break.
pub struct LineBuffer {
    buf: Vec<u8>,
}

impl LineBuffer {
    pub closed spec fn view(&self) -> Seq<u8> {
        self.buf@
    }

    /// The pending bytes never hold a line break.
    pub closed spec fn wf(&self) -> bool {
        no_newline(self.buf@)
    }

    pub fn new() -> (b: Self)
        ensures
            b.wf(),
            b.view() == Seq::<u8>::empty(),
    {
        LineBuffer { buf: Vec::new() }
    }

    /// Appends a chunk and takes out the lines it completes: what the
    /// pending bytes plus the chunk frame into.
    pub fn push(&mut self, chunk: &[u8]) -> (lines: Vec<Vec<u8>>)
        requires
            old(self).wf(),
        ensures
            final(self).wf(),
            (byte_views(lines@), final(self).view()) == frame(old(self).view() + chunk@),
    {
        let ghost start = self.buf@;
        proof {
            lemma_frame_no_newline(start);
            assert(start + chunk@.take(0) =~= start);
        }
        let mut cur: Vec<u8> = Vec::new();
        std::mem::swap(&mut cur, &mut self.buf);
        let mut lines: Vec<Vec<u8>> = Vec::new();
        let mut i: usize = 0;
        while i < chunk.len()
            invariant
                i <= chunk@.len(),
                (byte_views(lines@), cur@) == frame(start + chunk@.take(i as int)),
                no_newline(cur@),
            decreases chunk@.len() - i,
        {
            proof {
                assert((start + chunk@.take(i + 1)).drop_last() =~= start + chunk@.take(i as int));
                assert((start + chunk@.take(i + 1)).last() == chunk@[i as int]);
            }
            let b = chunk[i];
            if b == 10u8 {
                let line = cur;
                cur = Vec::new();
                let ghost before = byte_views(lines@);
                lines.push(line);
                assert(byte_views(lines@) =~= before.push(line@));
            } else {
                cur.push(b);
            }
            i = i + 1;
        }
        assert(start + chunk@.take(chunk@.len() as int) =~= start + chunk@);
        self.buf = cur;
        lines
    }
}

/// `std::str::from_utf8(bytes)`, as an owned string: the decoded text
/// exactly when the bytes are valid UTF-8.
#[verifier::external_body]
fn utf8_string(bytes: &[u8]) -> (r: Option<String>)
    ensures
        r is Some <==> valid_utf8(bytes@),
        r matches Some(s) ==> s@ == decode_utf8(bytes@),
{
    std::str::from_utf8(bytes).ok().map(|s| s.to_string())
}

/// A received line as text: decoded and trimmed; empty when it is not
/// valid UTF-8.
pub open spec fn line_text(bytes: Seq<u8>) -> Seq<char> {
    if valid_utf8(bytes) {
        trim(decode_utf8(bytes))
    } else {
        Seq::empty()
    }
}

pub fn decode_line(bytes: &Vec<u8>) -> (t: String)
    ensures
        t@ == line_text(bytes@),
{
    match utf8_string(bytes.as_slice()) {
        Some(s) => string_of(&trim_chars(&chars_of(s.as_str()))),
        None => String::new(),
    }
}

// ---------------------------------------------------------------------------
// Server-sent events
// ---------------------------------------------------------------------------

/// What one line of an OpenAI-compatible event stream carries.
#[derive(Debug, Clone, PartialEq, Eq)]
pub enum SseLine {
    /// Blank, or not a `data:` line.
    Skip,
    /// The `[DONE]` sentinel.
    Done,
    /// A JSON chunk.
    Data(String),
}

pub open spec fn starts_with(s: Seq<char>, p: Seq<char>) -> bool {
    p.len() <= s.len() && s.take(p.len() as int) == p
}

pub open spec fn sse_spec(t: Seq<char>) -> Option<Option<Seq<char>>> {
    if t.len() == 0 || !starts_with(t, "data: "@) {
        None
    } else {
        let d = trim(t.skip(6));
        if d == "[DONE]"@ {
            Some(None)
        } else {
            Some(Some(d))
        }
    }
}

/// Classifies a received line (already decoded and trimmed).
pub fn sse_line(text: &str) -> (l: SseLine)
    ensures
        match (l, sse_spec(text@)) {
            (SseLine::Skip, None) => true,
            (SseLine::Done, Some(None)) => true,
            (SseLine::Data(d), Some(Some(d2))) => d@ == d2,
            _ => false,
        },
{
    let t = chars_of(text);
    let prefix = chars_of("data: ");
    proof {
        reveal_strlit("data: ");
    }
    if t.len() == 0 || !starts_with_chars(&t, &prefix) {
        return SseLine::Skip;
    }
    let rest = slice_chars(&t, 6, t.len());
    assert(rest@ == t@.skip(6));
    let d = string_of(&trim_chars(&rest));
    if str_eq(d.as_str(), "[DONE]") {
        SseLine::Done
    } else {
        SseLine::Data(d)
    }
}

// ---------------------------------------------------------------------------
// Tool calls streamed in fragments
// ---------------------------------------------------------------------------

/// One fragment of a streamed tool call, keyed by the call's index.
#[derive(Debug, Clone)]
pub struct ToolCallFragment {
    pub index: usize,
    pub id: Option<String>,
    pub name: Option<String>,
    pub arguments: Option<String>,
}

/// A tool call put together: id, name and the concatenated argument text.
pub type CallView = (Seq<char>, Seq<char>, Seq<char>);

pub open spec fn nonempty_or(o: Option<String>, old: Seq<char>) -> Seq<char> {
    match o {
        Some(s) => if s@.len() > 0 {
            s@
        } else {
            old
        },
        None => old,
    }
}

/// A call after a fragment: a non-empty id or name replaces the one so far,
/// argument text is appended.
pub open spec fn merge_fragment(c: CallView, f: ToolCallFragment) -> CallView {
    (
        nonempty_or(f.id, c.0),
        nonempty_or(f.name, c.1),
        match f.arguments {
            Some(a) => c.2 + a@,
            None => c.2,
        },
    )
}

/// The calls received so far, by index.
pub struct ToolCallAccumulator {
    entries: Vec<(usize, String, String, String)>,
}

pub open spec fn entry_view(e: (usize, String, String, String)) -> (int, CallView) {
    (e.0 as int, (e.1@, e.2@, e.3@))
}

impl ToolCallAccumulator {
    pub closed spec fn entries_view(&self) -> Seq<(int, CallView)> {
        self.entries@.map_values(|e: (usize, String, String, String)| entry_view(e))
    }

    /// Indices strictly increase.
    pub closed spec fn wf(&self) -> bool {
        forall|i: int, j: int|
            0 <= i < j < self.entries@.len() ==> self.entries@[i].0 < self.entries@[j].0
    }

    /// The calls by index.
    pub closed spec fn view(&self) -> Map<int, CallView> {
        Map::new(
            |k: int| exists|i: int| 0 <= i < self.entries@.len() && self.entries@[i].0 == k,
            |k: int|
                entry_view(
                    self.entries@[choose|i: int|
                        0 <= i < self.entries@.len() && self.entries@[i].0 == k],
                ).1,
        )
    }

    pub fn new() -> (a: Self)
        ensures
            a.wf(),
            a.view() == Map::<int, CallView>::empty(),
    {
        let a = ToolCallAccumulator { entries: Vec::new() };
        assert(a.view() =~= Map::<int, CallView>::empty());
        a
    }

    /// Adds a fragment to the call with its index (a new call when there
    /// is none yet).
    pub fn apply(&mut self, f: &ToolCallFragment)
        requires
            old(self).wf(),
        ensures
            final(self).wf(),
            final(self).view() == old(self).view().insert(
                f.index as int,
                merge_fragment(
                    if old(self).view().contains_key(f.index as int) {
                        old(self).view()[f.index as int]
                    } else {
                        (Seq::<char>::empty(), Seq::<char>::empty(), Seq::<char>::empty())
                    },
                    *f,
                ),
            ),
    {
        let ghost old_entries = self.entries@;
        let ghost old_view = self.view();
        let mut pos: usize = 0;
        while pos < self.entries.len() && self.entries[pos].0 < f.index
            invariant
                pos <= self.entries@.len(),
                self.entries@ == old_entries,
                forall|j: int| 0 <= j < pos ==> self.entries@[j].0 < f.index,
            decreases self.entries@.len() - pos,
        {
            pos = pos + 1;
        }
        let exists_at = pos < self.entries.len() && self.entries[pos].0 == f.index;
        let (mut id, mut name, mut args) = if exists_at {
            let e = &self.entries[pos];
            (e.1.clone(), e.2.clone(), e.3.clone())
        } else {
            (String::new(), String::new(), String::new())
        };
        let ghost prior: CallView = (id@, name@, args@);
        proof {
            if exists_at {
                assert(old_view.contains_key(f.index as int));
                let c = choose|i: int| 0 <= i < old_entries.len() && old_entries[i].0 == f.index as int;
                assert(c == pos as int) by {
                    if c < pos {
                    } else if c > pos {
                    }
                }
                assert(old_view[f.index as int] == prior);
            } else {
                assert(!old_view.contains_key(f.index as int)) by {
                    if old_view.contains_key(f.index as int) {
                        let c = choose|i: int| 0 <= i < old_entries.len() && old_entries[i].0 == f.index as int;
                        if c < pos {
                        } else {
                            assert(old_entries[pos as int].0 <= old_entries[c].0);
                        }
                    }
                }
            }
        }
        match &f.id {
            Some(s) => if s.as_str().unicode_len() > 0 {
                id = s.clone();
            },
            None => {},
        }
        match &f.name {
            Some(s) => if s.as_str().unicode_len() > 0 {
                name = s.clone();
            },
            None => {},
        }
        match &f.arguments {
            Some(a) => {
                args.append(a.as_str());
            },
            None => {},
        }
        let ghost merged: CallView = (id@, name@, args@);
        assert(merged == merge_fragment(prior, *f));
        if exists_at {
            self.entries.set(pos, (f.index, id, name, args));
        } else {
            self.entries.insert(pos, (f.index, id, name, args));
        }
        proof {
            let nv = old_view.insert(f.index as int, merged);
            assert forall|i: int, j: int| 0 <= i < j < self.entries@.len() implies self.entries@[i].0
                < self.entries@[j].0 by {
                if !exists_at {
                    if i < pos && j == pos {
                    } else if i < pos && j > pos {
                        assert(self.entries@[j] == old_entries[j - 1]);
                    } else if i == pos && j > pos {
                        assert(self.entries@[j] == old_entries[j - 1]);
                    } else if i > pos {
                        assert(self.entries@[i] == old_entries[i - 1]);
                        assert(self.entries@[j] == old_entries[j - 1]);
                    }
                }
            }
            assert forall|k: int| #[trigger] self.view().contains_key(k) <==> nv.contains_key(k) by {
                if nv.contains_key(k) && k != f.index as int {
                    let c = choose|i: int| 0 <= i < old_entries.len() && old_entries[i].0 == k;
                    if exists_at || c < pos {
                        assert(self.entries@[c].0 == k);
                    } else {
                        assert(self.entries@[c + 1].0 == k);
                    }
                }
                if k == f.index as int {
                    assert(self.entries@[pos as int].0 == k);
                }
                if self.view().contains_key(k) && k != f.index as int {
                    let c = choose|i: int| 0 <= i < self.entries@.len() && self.entries@[i].0 == k;
                    if exists_at || c < pos {
                        assert(old_entries[c].0 == k);
                    } else {
                        assert(old_entries[c - 1].0 == k);
                    }
                }
            }
            assert forall|k: int| #[trigger] self.view().contains_key(k) implies self.view()[k] == nv[k] by {
                let c = choose|i: int| 0 <= i < self.entries@.len() && self.entries@[i].0 == k;
                if k == f.index as int {
                    assert(c == pos as int) by {
                        if c < pos {
                        } else if c > pos {
                        }
                    }
                } else {
                    if exists_at || c < pos {
                        assert(self.entries@[c] == old_entries[c]);
                        let d = choose|i: int| 0 <= i < old_entries.len() && old_entries[i].0 == k;
                        assert(d == c) by {
                            if d < c {
                            } else if d > c {
                            }
                        }
                    } else {
                        assert(self.entries@[c] == old_entries[c - 1]);
                        let d = choose|i: int| 0 <= i < old_entries.len() && old_entries[i].0 == k;
                        assert(d == c - 1) by {
                            if d < c - 1 {
                            } else if d > c - 1 {
                            }
                        }
                    }
                }
            }
            assert(self.view() =~= nv);
        }
    }
}

/// A completed call's id: the one received, else `call_<index>`.
pub open spec fn call_id(index: int, id: Seq<char>) -> Seq<char> {
    if id.len() == 0 {
        "call_"@ + dec(index as nat)
    } else {
        id
    }
}

/// The calls handed to the tool executor, in index order: calls that never
/// received a name are dropped.
pub open spec fn flushed(es: Seq<(int, CallView)>) -> Seq<CallView>
    decreases es.len(),
{
    if es.len() == 0 {
        Seq::empty()
    } else {
        let r = flushed(es.drop_last());
        let (i, c) = es.last();
        if c.1.len() == 0 {
            r
        } else {
            r.push((call_id(i, c.0), c.1, c.2))
        }
    }
}

pub open spec fn call_views(v: Seq<(String, String, String)>) -> Seq<CallView> {
    v.map_values(|c: (String, String, String)| (c.0@, c.1@, c.2@))
}

impl ToolCallAccumulator {
    /// The accumulated calls are kept in index order, one per index, each
    /// holding what was accumulated for its index, so `finish` hands out
    /// every streamed call once, in index order.
    pub proof fn law_calls_kept_in_index_order(&self)
        requires
            self.wf(),
        ensures
            forall|i: int, j: int|
                0 <= i < j < self.entries_view().len() ==> self.entries_view()[i].0 < self.entries_view()[j].0,
            forall|i: int|
                0 <= i < self.entries_view().len() ==> self.view().contains_key(
                    #[trigger] self.entries_view()[i].0,
                ) && self.view()[self.entries_view()[i].0] == self.entries_view()[i].1,
            forall|k: int| #[trigger]
                self.view().contains_key(k) ==> exists|i: int|
                    0 <= i < self.entries_view().len() && self.entries_view()[i].0 == k,
    {
        assert forall|i: int|
            0 <= i < self.entries_view().len() implies self.view().contains_key(
            #[trigger] self.entries_view()[i].0,
        ) && self.view()[self.entries_view()[i].0] == self.entries_view()[i].1 by {
            let k = self.entries@[i].0 as int;
            assert(self.entries_view()[i] == entry_view(self.entries@[i]));
            let c = choose|c: int| 0 <= c < self.entries@.len() && self.entries@[c].0 == k;
            assert(c == i) by {
                if c < i {
                } else if c > i {
                }
            }
        }
        assert forall|k: int| #[trigger] self.view().contains_key(k) implies exists|i: int|
            0 <= i < self.entries_view().len() && self.entries_view()[i].0 == k by {
            let c = choose|c: int| 0 <= c < self.entries@.len() && self.entries@[c].0 == k;
            assert(self.entries_view()[c] == entry_view(self.entries@[c]));
        }
    }

    /// The completed calls: `(id, name, arguments)` in index order.
    pub fn finish(&self) -> (calls: Vec<(String, String, String)>)
        ensures
            call_views(calls@) == flushed(self.entries_view()),
    {
        let ghost ev = self.entries_view();
        let mut calls: Vec<(String, String, String)> = Vec::new();
        let mut i: usize = 0;
        while i < self.entries.len()
            invariant
                i <= self.entries@.len(),
                ev == self.entries_view(),
                ev.len() == self.entries@.len(),
                call_views(calls@) == flushed(ev.take(i as int)),
            decreases self.entries@.len() - i,
        {
            let e = &self.entries[i];
            proof {
                assert(ev.take(i + 1).drop_last() =~= ev.take(i as int));
                assert(ev.take(i + 1).last() == ev[i as int]);
                assert(ev[i as int] == entry_view(self.entries@[i as int]));
            }
            if e.2.as_str().unicode_len() > 0 {
                let id = if e.1.as_str().unicode_len() == 0 {
                    let mut v = chars_of("call_");
                    append_chars(&mut v, &u64_to_dec(e.0 as u64));
                    string_of(&v)
                } else {
                    e.1.clone()
                };
                let ghost before = call_views(calls@);
                calls.push((id, e.2.clone(), e.3.clone()));
                assert(call_views(calls@) =~= before.push((id@, e.2@, e.3@)));
            }
            i = i + 1;
        }
        assert(ev.take(ev.len() as int) =~= ev);
        calls
    }
}

// ---------------------------------------------------------------------------
// One streamed reply
// ---------------------------------------------------------------------------

/// The calls after a sequence of fragments.
pub open spec fn apply_all(m: Map<int, CallView>, fs: Seq<ToolCallFragment>) -> Map<int, CallView>
    decreases fs.len(),
{
    if fs.len() == 0 {
        m
    } else {
        let prev = apply_all(m, fs.drop_last());
        let f = fs.last();
        prev.insert(
            f.index as int,
            merge_fragment(
                if prev.contains_key(f.index as int) {
                    prev[f.index as int]
                } else {
                    (Seq::<char>::empty(), Seq::<char>::empty(), Seq::<char>::empty())
                },
                f,
            ),
        )
    }
}

/// The parts of one `choices[0]` chunk that matter: the finish reason, the
/// tool-call fragments of the delta and its text.
#[derive(Debug, Clone)]
pub struct ChunkDelta {
    pub finish_reason: Option<String>,
    pub tool_calls: Vec<ToolCallFragment>,
    pub content: Option<String>,
}

/// The state of a reply being streamed: the finish reason so far (`stop`
/// until the provider reports another) and the tool calls.
pub struct StreamState {
    pub finish_reason: String,
    pub calls: ToolCallAccumulator,
}

impl StreamState {
    pub fn new() -> (s: Self)
        ensures
            s.finish_reason@ == "stop"@,
            s.calls.wf(),
            s.calls.view() == Map::<int, CallView>::empty(),
    {
        StreamState { finish_reason: String::from_str("stop"), calls: ToolCallAccumulator::new() }
    }

    /// Takes in one chunk; returns the text to pass on (non-empty content).
    pub fn apply_chunk(&mut self, chunk: ChunkDelta) -> (text: Option<String>)
        requires
            old(self).calls.wf(),
        ensures
            final(self).calls.wf(),
            final(self).finish_reason@ == nonempty_or(chunk.finish_reason, old(self).finish_reason@),
            final(self).calls.view() == apply_all(old(self).calls.view(), chunk.tool_calls@),
            match (chunk.content, text) {
                (Some(c), Some(t)) => c@.len() > 0 && t@ == c@,
                (Some(c), None) => c@.len() == 0,
                (None, None) => true,
                (None, Some(_)) => false,
            },
    {
        match chunk.finish_reason {
            Some(r) => if r.as_str().unicode_len() > 0 {
                self.finish_reason = r;
            },
            None => {},
        }
        let fragments = chunk.tool_calls;
        let ghost start = self.calls.view();
        let mut i: usize = 0;
        while i < fragments.len()
            invariant
                i <= fragments@.len(),
                self.calls.wf(),
                self.finish_reason@ == nonempty_or(chunk.finish_reason, old(self).finish_reason@),
                start == old(self).calls.view(),
                self.calls.view() == apply_all(start, fragments@.take(i as int)),
            decreases fragments@.len() - i,
        {
            proof {
                assert(fragments@.take(i + 1).drop_last() =~= fragments@.take(i as int));
                assert(fragments@.take(i + 1).last() == fragments@[i as int]);
            }
            self.calls.apply(&fragments[i]);
            i = i + 1;
        }
        assert(fragments@.take(fragments@.len() as int) =~= fragments@);
        match chunk.content {
            Some(c) => if c.as_str().unicode_len() > 0 {
                Some(c)
            } else {
                None
            },
            None => None,
        }
    }
}

/// What one NDJSON line of an Ollama stream does.
#[derive(Debug, Clone, PartialEq, Eq)]
pub enum OllamaStep {
    /// `done: true`: the reply is complete.
    Stop,
    /// Pass this text on.
    Emit(String),
    /// Nothing to pass on.
    Skip,
}

/// Decides from a parsed line's `done` flag and `message.content`.
pub fn ollama_step(done: bool, content: Option<String>) -> (s: OllamaStep)
    ensures
        done ==> s == OllamaStep::Stop,
        !done ==> match (content, s) {
            (Some(c), OllamaStep::Emit(t)) => c@.len() > 0 && t@ == c@,
            (Some(c), OllamaStep::Skip) => c@.len() == 0,
            (None, OllamaStep::Skip) => true,
            _ => false,
        },
{
    if done {
        return OllamaStep::Stop;
    }
    match content {
        Some(c) => if c.as_str().unicode_len() > 0 {
            OllamaStep::Emit(c)
        } else {
            OllamaStep::Skip
        },
        None => OllamaStep::Skip,
    }
}

} // verus!
