//! From the pieces of a completion to the events that the editor handles.
use crate::chat;
use crate::chat::{ChoiceDelta, ResponseStreamEvent, ToolCallChunk};
use crate::json;
use crate::text;
use crate::text::str_eq;
use vstd::prelude::*;

verus! {

/// Tokens that a completion has used.
#[derive(Clone, Copy, Debug, PartialEq, Eq, Structural)]
pub struct TokenUsage {
    pub input_tokens: u64,
    pub output_tokens: u64,
    pub cache_creation_input_tokens: u64,
    pub cache_read_input_tokens: u64,
}

/// Why a completion has ended.
#[derive(Clone, Copy, Debug, PartialEq, Eq, Structural)]
pub enum StopReason {
    EndTurn,
    ToolUse,
    MaxTokens,
}

/// A tool call, as far as its pieces have come.
#[derive(Debug, Default)]
pub struct RawToolCall {
    pub id: String,
    pub name: String,
    pub arguments: String,
}

impl View for RawToolCall {
    type V = chat::CallView;

    open spec fn view(&self) -> chat::CallView {
        chat::CallView { id: self.id@, name: self.name@, arguments: self.arguments@ }
    }
}

/// An event of a completion. The arguments of a tool call are still to be
/// read.
#[derive(Debug)]
pub enum CompletionEvent {
    UsageUpdate(TokenUsage),
    Thinking { text: String },
    Text(String),
    ToolCall(RawToolCall),
    Stop(StopReason),
}

/// An event of a completion by its contents.
pub enum EventView {
    UsageUpdate(TokenUsage),
    Thinking(Seq<char>),
    Text(Seq<char>),
    ToolCall(chat::CallView),
    Stop(StopReason),
}

impl View for CompletionEvent {
    type V = EventView;

    open spec fn view(&self) -> EventView {
        match *self {
            CompletionEvent::UsageUpdate(u) => EventView::UsageUpdate(u),
            CompletionEvent::Thinking { text } => EventView::Thinking(text@),
            CompletionEvent::Text(t) => EventView::Text(t@),
            CompletionEvent::ToolCall(c) => EventView::ToolCall(c@),
            CompletionEvent::Stop(r) => EventView::Stop(r),
        }
    }
}

/// Events by their contents.
pub open spec fn event_views(events: Seq<CompletionEvent>) -> Seq<EventView> {
    events.map_values(|e: CompletionEvent| e@)
}

// ---- tool calls -------------------------------------------------------------------------

/// A tool call of which nothing has come.
pub open spec fn empty_call() -> chat::CallView {
    chat::CallView { id: Seq::empty(), name: Seq::empty(), arguments: Seq::empty() }
}

/// The piece of the arguments that a chunk brings.
pub open spec fn chunk_arguments(chunk: ToolCallChunk) -> Seq<char> {
    match chunk.function {
        Some(f) => match f.arguments {
            Some(a) => a@,
            None => Seq::empty(),
        },
        None => Seq::empty(),
    }
}

/// A tool call with one chunk more: a new id counts, so does a new name that
/// is not empty, and arguments add up.
pub open spec fn with_chunk(call: chat::CallView, chunk: ToolCallChunk) -> chat::CallView {
    chat::CallView {
        id: match chunk.id {
            Some(id) => id@,
            None => call.id,
        },
        name: match chunk.function {
            Some(f) => match f.name {
                Some(n) if n@.len() > 0 => n@,
                _ => call.name,
            },
            None => call.name,
        },
        arguments: call.arguments + chunk_arguments(chunk),
    }
}

/// The place of the call `index` among the calls from place `i` on; the place
/// after the last one where it is not among them.
pub open spec fn slot(calls: Seq<(usize, chat::CallView)>, index: usize, i: int) -> int
    decreases calls.len() - i,
{
    if i >= calls.len() {
        calls.len() as int
    } else if calls[i].0 == index {
        i
    } else {
        slot(calls, index, i + 1)
    }
}

/// The call `index`; an empty one where nothing of it has come.
pub open spec fn call_at(calls: Seq<(usize, chat::CallView)>, index: usize) -> chat::CallView {
    let k = slot(calls, index, 0);
    if 0 <= k < calls.len() {
        calls[k].1
    } else {
        empty_call()
    }
}

/// The calls with one chunk more. The first chunk of a call puts it behind
/// the others.
pub open spec fn after_chunk(calls: Seq<(usize, chat::CallView)>, chunk: ToolCallChunk) -> Seq<
    (usize, chat::CallView),
> {
    let k = slot(calls, chunk.index, 0);
    let call = with_chunk(call_at(calls, chunk.index), chunk);
    if k < calls.len() {
        calls.update(k, (chunk.index, call))
    } else {
        calls.push((chunk.index, call))
    }
}

/// The calls after a list of chunks.
pub open spec fn after_chunks(
    calls: Seq<(usize, chat::CallView)>,
    chunks: Seq<ToolCallChunk>,
) -> Seq<(usize, chat::CallView)>
    decreases chunks.len(),
{
    if chunks.len() == 0 {
        calls
    } else {
        after_chunk(after_chunks(calls, chunks.drop_last()), chunks.last())
    }
}

/// No index occurs twice.
pub open spec fn distinct(calls: Seq<(usize, chat::CallView)>) -> bool {
    forall|i: int, j: int|
        0 <= i < j < calls.len() ==> (#[trigger] calls[i]).0 != (#[trigger] calls[j]).0
}

/// Collects the pieces of tool calls, and turns pieces of a completion into
/// events. The calls stand in the order in which their first pieces came.
pub struct GLMEventMapper {
    calls: Vec<(usize, RawToolCall)>,
}

impl View for GLMEventMapper {
    type V = Seq<(usize, chat::CallView)>;

    closed spec fn view(&self) -> Seq<(usize, chat::CallView)> {
        self.calls@.map_values(|c: (usize, RawToolCall)| (c.0, c.1@))
    }
}

/// What the calls of a choice have become.
pub open spec fn calls_of(calls: Seq<(usize, chat::CallView)>, choice: ChoiceDelta) -> Seq<
    (usize, chat::CallView),
> {
    match choice.delta.tool_calls {
        Some(chunks) => after_chunks(calls, chunks@),
        None => calls,
    }
}

/// The end of a choice hands the tool calls out.
pub open spec fn hands_out(choice: ChoiceDelta) -> bool {
    text::opt_view(choice.finish_reason) == Some("tool_calls"@)
}

/// The events that tell of the end of a choice.
pub open spec fn finish_events(calls: Seq<(usize, chat::CallView)>, choice: ChoiceDelta) -> Seq<
    EventView,
> {
    match text::opt_view(choice.finish_reason) {
        None => Seq::empty(),
        Some(reason) => if reason == "tool_calls"@ {
            calls.map_values(|c: (usize, chat::CallView)| EventView::ToolCall(c.1)).push(
                EventView::Stop(StopReason::ToolUse),
            )
        } else if reason == "length"@ {
            seq![EventView::Stop(StopReason::MaxTokens)]
        } else {
            seq![EventView::Stop(StopReason::EndTurn)]
        },
    }
}

/// The events of what a choice says: its reasoning, and its text unless that
/// is empty.
pub open spec fn spoken_events(choice: ChoiceDelta) -> Seq<EventView> {
    let thinking = match text::opt_view(choice.delta.reasoning_content) {
        Some(t) => seq![EventView::Thinking(t)],
        None => Seq::empty(),
    };
    match text::opt_view(choice.delta.content) {
        Some(t) if t.len() > 0 => thinking.push(EventView::Text(t)),
        _ => thinking,
    }
}

/// The event that tells of token usage.
pub open spec fn usage_events(event: ResponseStreamEvent) -> Seq<EventView> {
    match event.usage {
        Some(u) => seq![
            EventView::UsageUpdate(
                TokenUsage {
                    input_tokens: u.prompt_tokens,
                    output_tokens: u.completion_tokens,
                    cache_creation_input_tokens: 0,
                    cache_read_input_tokens: 0,
                },
            ),
        ],
        None => Seq::empty(),
    }
}

/// The events of a piece of a completion: token usage, and then what its
/// first choice brings.
pub open spec fn mapped_events(
    calls: Seq<(usize, chat::CallView)>,
    event: ResponseStreamEvent,
) -> Seq<EventView> {
    if event.choices@.len() == 0 {
        usage_events(event)
    } else {
        let choice = event.choices@[0];
        usage_events(event) + spoken_events(choice) + finish_events(calls_of(calls, choice), choice)
    }
}

/// The calls after a piece of a completion; none once they were handed out.
pub open spec fn mapped_calls(
    calls: Seq<(usize, chat::CallView)>,
    event: ResponseStreamEvent,
) -> Seq<(usize, chat::CallView)> {
    if event.choices@.len() == 0 {
        calls
    } else if hands_out(event.choices@[0]) {
        Seq::empty()
    } else {
        calls_of(calls, event.choices@[0])
    }
}

proof fn lemma_slot(calls: Seq<(usize, chat::CallView)>, index: usize, i: int)
    requires
        0 <= i <= calls.len(),
    ensures
        i <= slot(calls, index, i) <= calls.len(),
        slot(calls, index, i) < calls.len() ==> calls[slot(calls, index, i)].0 == index,
        forall|k: int| i <= k < slot(calls, index, i) ==> (#[trigger] calls[k]).0 != index,
    decreases calls.len() - i,
{
    if i < calls.len() && calls[i].0 != index {
        lemma_slot(calls, index, i + 1);
    }
}

impl GLMEventMapper {
    /// No call is collected twice.
    pub closed spec fn wf(&self) -> bool {
        distinct(self@)
    }

    /// A mapper that has collected nothing.
    pub fn new() -> (m: GLMEventMapper)
        ensures
            m.wf(),
            m@ == Seq::<(usize, chat::CallView)>::empty(),
    {
        let m = GLMEventMapper { calls: Vec::new() };
        assert(m@ =~= Seq::empty());
        m
    }

    /// Takes the call `index` out, with the place where it stood.
    fn take_call(&mut self, index: usize) -> (r: (RawToolCall, usize))
        ensures
            r.1 == slot(old(self)@, index, 0),
            r.1 <= old(self)@.len(),
            r.0@ == call_at(old(self)@, index),
            final(self)@ == if r.1 < old(self)@.len() {
                old(self)@.remove(r.1 as int)
            } else {
                old(self)@
            },
    {
        let ghost before = self@;
        let mut i: usize = 0;
        while i < self.calls.len() && self.calls[i].0 != index
            invariant
                i <= self.calls@.len(),
                self@ == before,
                before.len() == self.calls@.len(),
                slot(before, index, i as int) == slot(before, index, 0),
            decreases self.calls@.len() - i,
        {
            assert(before[i as int].0 == self.calls@[i as int].0);
            i = i + 1;
        }
        if i < self.calls.len() {
            assert(before[i as int].0 == self.calls@[i as int].0);
            let (_, call) = self.calls.remove(i);
            assert(self@ =~= before.remove(i as int));
            (call, i)
        } else {
            let call = RawToolCall {
                id: String::new(),
                name: String::new(),
                arguments: String::new(),
            };
            assert(call@ == empty_call());
            (call, i)
        }
    }

    /// Takes a chunk of a tool call in.
    fn add_chunk(&mut self, chunk: ToolCallChunk)
        requires
            old(self).wf(),
        ensures
            final(self).wf(),
            final(self)@ == after_chunk(old(self)@, chunk),
    {
        let ghost before = self@;
        let index: usize = chunk.index;
        let ghost whole = chunk;
        let (mut call, at) = self.take_call(index);
        if let Some(id) = chunk.id {
            call.id = id;
        }
        if let Some(function) = chunk.function {
            if let Some(name) = function.name {
                if !name.as_str().is_empty() {
                    call.name = name;
                }
            }
            if let Some(arguments) = function.arguments {
                call.arguments.append(arguments.as_str());
            }
        }
        proof {
            let old_call = call_at(before, index);
            assert(call@.arguments =~= old_call.arguments + chunk_arguments(whole));
            assert(call@ == with_chunk(old_call, whole));
            lemma_slot(before, index, 0);
        }
        let ghost rest = self@;
        let ghost added = (index, call@);
        assert(rest.len() == self.calls@.len());
        self.calls.insert(at, (index, call));
        proof {
            let next = after_chunk(before, whole);
            assert(self@ =~= rest.insert(at as int, added));
            assert(self@ =~= next);
            assert(distinct(next)) by {
                assert forall|i: int, j: int| 0 <= i < j < next.len() implies (#[trigger] next[i]).0
                    != (#[trigger] next[j]).0 by {
                    if at < before.len() {
                        assert(next[i].0 == before[i].0 && next[j].0 == before[j].0);
                    } else if j < before.len() {
                        assert(next[i] == before[i] && next[j] == before[j]);
                    } else {
                        assert(next[i] == before[i]);
                    }
                }
            }
        }
    }

    /// Takes chunks of tool calls in.
    fn add_chunks(&mut self, chunks: Vec<ToolCallChunk>)
        requires
            old(self).wf(),
        ensures
            final(self).wf(),
            final(self)@ == after_chunks(old(self)@, chunks@),
    {
        let ghost all = chunks@;
        let ghost before = self@;
        for chunk in it: chunks.into_iter()
            invariant
                it.seq() == all,
                self.wf(),
                self@ == after_chunks(before, all.take(it.index())),
        {
            let ghost i = it.index();
            assert(all.take(i + 1).drop_last() =~= all.take(i));
            assert(all.take(i + 1).last() == chunk);
            self.add_chunk(chunk);
        }
        assert(all.take(all.len() as int) =~= all);
    }

    /// Hands the tool calls out.
    fn hand_out(&mut self, events: &mut Vec<CompletionEvent>)
        ensures
            final(self).wf(),
            final(self)@ == Seq::<(usize, chat::CallView)>::empty(),
            event_views(final(events)@) == event_views(old(events)@) + old(self)@.map_values(
                |c: (usize, chat::CallView)| EventView::ToolCall(c.1),
            ),
    {
        let ghost handed = self@.map_values(|c: (usize, chat::CallView)| EventView::ToolCall(c.1));
        let ghost start = event_views(events@);
        let mut calls: Vec<(usize, RawToolCall)> = Vec::new();
        std::mem::swap(&mut calls, &mut self.calls);
        assert(self@ =~= Seq::empty());
        let ghost all = calls@;
        assert(start + handed.take(0) =~= start);
        for call in it: calls.into_iter()
            invariant
                it.seq() == all,
                handed.len() == all.len(),
                forall|k: int|
                    0 <= k < all.len() ==> (#[trigger] handed[k]) == EventView::ToolCall(all[k].1@),
                event_views(events@) == start + handed.take(it.index()),
        {
            let ghost i = it.index();
            let ghost before = events@;
            assert(call == all[i]);
            events.push(CompletionEvent::ToolCall(call.1));
            assert(event_views(events@) =~= event_views(before).push(handed[i]));
            assert(start + handed.take(i + 1) =~= (start + handed.take(i)).push(handed[i]));
        }
        assert(handed.take(all.len() as int) =~= handed);
    }

    /// Takes a piece of a completion in, and gives the events that it brings.
    pub fn map_event(&mut self, event: ResponseStreamEvent) -> (events: Vec<CompletionEvent>)
        requires
            old(self).wf(),
        ensures
            final(self).wf(),
            event_views(events@) == mapped_events(old(self)@, event),
            final(self)@ == mapped_calls(old(self)@, event),
            told_text(event_views(events@)) == piece_text(event),
            told_thinking(event_views(events@)) == piece_thinking(event),
    {
        proof {
            law_piece_is_told_whole(self@, event);
        }
        let ghost before = self@;
        let ghost whole = event;
        let mut events: Vec<CompletionEvent> = Vec::new();
        if let Some(usage) = &event.usage {
            events.push(
                CompletionEvent::UsageUpdate(
                    TokenUsage {
                        input_tokens: usage.prompt_tokens,
                        output_tokens: usage.completion_tokens,
                        cache_creation_input_tokens: 0,
                        cache_read_input_tokens: 0,
                    },
                ),
            );
        }
        let ghost usage_part = usage_events(whole);
        assert(event_views(events@) =~= usage_part);
        let mut choices = event.choices;
        if choices.len() == 0 {
            return events;
        }
        let choice = choices.remove(0);
        let ghost chosen = choice;
        assert(chosen == whole.choices@[0]);
        let ghost mut shown = event_views(events@);
        if let Some(text) = choice.delta.reasoning_content {
            events.push(CompletionEvent::Thinking { text });
            assert(event_views(events@) =~= shown.push(EventView::Thinking(text@)));
        }
        proof {
            shown = event_views(events@);
        }
        if let Some(content) = choice.delta.content {
            if !content.as_str().is_empty() {
                events.push(CompletionEvent::Text(content));
                assert(event_views(events@) =~= shown.push(EventView::Text(content@)));
            }
        }
        proof {
            shown = event_views(events@);
            assert(shown =~= usage_part + spoken_events(chosen));
        }
        if let Some(chunks) = choice.delta.tool_calls {
            self.add_chunks(chunks);
        }
        assert(self@ == calls_of(before, chosen));
        let ghost held = self@;
        if let Some(reason) = choice.finish_reason {
            if str_eq(reason.as_str(), "tool_calls") {
                self.hand_out(&mut events);
                let ghost listed = event_views(events@);
                events.push(CompletionEvent::Stop(StopReason::ToolUse));
                assert(event_views(events@) =~= listed.push(EventView::Stop(StopReason::ToolUse)));
            } else if str_eq(reason.as_str(), "length") {
                events.push(CompletionEvent::Stop(StopReason::MaxTokens));
                assert(event_views(events@) =~= shown.push(EventView::Stop(StopReason::MaxTokens)));
            } else {
                events.push(CompletionEvent::Stop(StopReason::EndTurn));
                assert(event_views(events@) =~= shown.push(EventView::Stop(StopReason::EndTurn)));
            }
        }
        assert(event_views(events@) =~= usage_part + spoken_events(chosen) + finish_events(
            held,
            chosen,
        ));
        events
    }
}

// ---- resolved calls ---------------------------------------------------------------------

/// A tool call whose arguments were read, or could not be read.
pub enum ToolUseEvent {
    ToolUse {
        id: String,
        name: String,
        is_input_complete: bool,
        input: serde_json::Value,
        raw_input: String,
    },
    ToolUseJsonParseError {
        id: String,
        tool_name: String,
        raw_input: String,
        json_parse_error: String,
    },
}

/// What a tool call is handed on as, given what its arguments were read as.
pub fn resolve_tool_call(
    call: RawToolCall,
    parsed: Result<serde_json::Value, String>,
) -> (r: ToolUseEvent)
    ensures
        match parsed {
            Ok(value) => r matches ToolUseEvent::ToolUse {
                id,
                name,
                is_input_complete,
                input,
                raw_input,
            } && id@ == call.id@ && name@ == call.name@ && is_input_complete && json::json_of(input)
                == json::json_of(value) && raw_input@ == call.arguments@,
            Err(error) => r matches ToolUseEvent::ToolUseJsonParseError {
                id,
                tool_name,
                raw_input,
                json_parse_error,
            } && id@ == call.id@ && tool_name@ == call.name@ && raw_input@ == call.arguments@
                && json_parse_error@ == error@,
        },
{
    match parsed {
        Ok(input) => ToolUseEvent::ToolUse {
            id: call.id,
            name: call.name,
            is_input_complete: true,
            input,
            raw_input: call.arguments,
        },
        Err(error) => ToolUseEvent::ToolUseJsonParseError {
            id: call.id,
            tool_name: call.name,
            raw_input: call.arguments,
            json_parse_error: error,
        },
    }
}

// ---- laws -------------------------------------------------------------------------------

/// The pieces of arguments that chunks bring for a call, put together.
pub open spec fn joined_arguments(chunks: Seq<ToolCallChunk>, index: usize) -> Seq<char>
    decreases chunks.len(),
{
    if chunks.len() == 0 {
        Seq::empty()
    } else if chunks.last().index == index {
        joined_arguments(chunks.drop_last(), index) + match chunks.last().function {
            Some(f) if f.arguments is Some => f.arguments->0@,
            _ => Seq::empty(),
        }
    } else {
        joined_arguments(chunks.drop_last(), index)
    }
}

proof fn lemma_slot_is(calls: Seq<(usize, chat::CallView)>, index: usize, i: int, k: int)
    requires
        0 <= i <= k < calls.len(),
        calls[k].0 == index,
        forall|j: int| i <= j < k ==> (#[trigger] calls[j]).0 != index,
    ensures
        slot(calls, index, i) == k,
    decreases k - i,
{
    if i < k {
        lemma_slot_is(calls, index, i + 1, k);
    }
}

proof fn lemma_slot_absent(calls: Seq<(usize, chat::CallView)>, index: usize, i: int)
    requires
        0 <= i <= calls.len(),
        forall|j: int| i <= j < calls.len() ==> (#[trigger] calls[j]).0 != index,
    ensures
        slot(calls, index, i) == calls.len(),
    decreases calls.len() - i,
{
    if i < calls.len() {
        lemma_slot_absent(calls, index, i + 1);
    }
}

proof fn lemma_after_chunk(
    calls: Seq<(usize, chat::CallView)>,
    chunk: ToolCallChunk,
    index: usize,
)
    ensures
        call_at(after_chunk(calls, chunk), index) == if index == chunk.index {
            with_chunk(call_at(calls, index), chunk)
        } else {
            call_at(calls, index)
        },
{
    let next = after_chunk(calls, chunk);
    let k = slot(calls, chunk.index, 0);
    lemma_slot(calls, chunk.index, 0);
    lemma_slot(calls, index, 0);
    let m = slot(calls, index, 0);
    assert(forall|j: int| 0 <= j < calls.len() && j != k ==> #[trigger] next[j] == calls[j]);
    if index == chunk.index {
        assert(next[k].0 == index);
        lemma_slot_is(next, index, 0, k);
    } else if m < calls.len() {
        assert(m != k);
        assert forall|j: int| 0 <= j < m implies (#[trigger] next[j]).0 != index by {
            assert(calls[j].0 != index);
        }
        lemma_slot_is(next, index, 0, m);
    } else {
        assert forall|j: int| 0 <= j < next.len() implies (#[trigger] next[j]).0 != index by {
            if j != k {
                assert(calls[j].0 != index);
            }
        }
        lemma_slot_absent(next, index, 0);
    }
}

/// The arguments of a tool call are those that had come, followed by the
/// pieces of its own chunks, in the order in which they came. Chunks of other
/// calls add nothing.
pub proof fn law_arguments_add_up(
    calls: Seq<(usize, chat::CallView)>,
    chunks: Seq<ToolCallChunk>,
    index: usize,
)
    ensures
        call_at(after_chunks(calls, chunks), index).arguments == call_at(calls, index).arguments
            + joined_arguments(chunks, index),
    decreases chunks.len(),
{
    if chunks.len() > 0 {
        law_arguments_add_up(calls, chunks.drop_last(), index);
        lemma_after_chunk(after_chunks(calls, chunks.drop_last()), chunks.last(), index);
    }
    assert(call_at(after_chunks(calls, chunks), index).arguments =~= call_at(
        calls,
        index,
    ).arguments + joined_arguments(chunks, index));
}

/// Once a completion stops for tool use, every collected call has been handed
/// out, each once, before the stop, and none is left.
pub proof fn law_calls_are_handed_out_once(
    calls: Seq<(usize, chat::CallView)>,
    event: ResponseStreamEvent,
    k: int,
)
    requires
        event.choices@.len() > 0,
        hands_out(event.choices@[0]),
        0 <= k < calls_of(calls, event.choices@[0]).len(),
    ensures
        mapped_calls(calls, event).len() == 0,
        mapped_events(calls, event).last() == EventView::Stop(StopReason::ToolUse),
        ({
            let start = usage_events(event).len() + spoken_events(event.choices@[0]).len();
            let held = calls_of(calls, event.choices@[0]);
            &&& mapped_events(calls, event)[start + k] == EventView::ToolCall(held[k].1)
            &&& mapped_events(calls, event).len() == start + held.len() + 1
        }),
{
}

/// The texts of the text events, put together.
pub open spec fn told_text(events: Seq<EventView>) -> Seq<char>
    decreases events.len(),
{
    if events.len() == 0 {
        Seq::empty()
    } else {
        told_text(events.drop_last()) + match events.last() {
            EventView::Text(t) => t,
            _ => Seq::empty(),
        }
    }
}

/// The texts of the thinking events, put together.
pub open spec fn told_thinking(events: Seq<EventView>) -> Seq<char>
    decreases events.len(),
{
    if events.len() == 0 {
        Seq::empty()
    } else {
        told_thinking(events.drop_last()) + match events.last() {
            EventView::Thinking(t) => t,
            _ => Seq::empty(),
        }
    }
}

/// The tool calls that the events tell of, in order.
pub open spec fn told_calls(events: Seq<EventView>) -> Seq<chat::CallView>
    decreases events.len(),
{
    if events.len() == 0 {
        Seq::empty()
    } else {
        match events.last() {
            EventView::ToolCall(c) => told_calls(events.drop_last()).push(c),
            _ => told_calls(events.drop_last()),
        }
    }
}

/// The text that the first choice of a piece brings.
pub open spec fn piece_text(piece: ResponseStreamEvent) -> Seq<char> {
    if piece.choices@.len() > 0 && piece.choices@[0].delta.content is Some {
        piece.choices@[0].delta.content->0@
    } else {
        Seq::empty()
    }
}

/// The reasoning that the first choice of a piece brings.
pub open spec fn piece_thinking(piece: ResponseStreamEvent) -> Seq<char> {
    if piece.choices@.len() > 0 && piece.choices@[0].delta.reasoning_content is Some {
        piece.choices@[0].delta.reasoning_content->0@
    } else {
        Seq::empty()
    }
}

/// The chunks of tool calls that the first choice of a piece brings.
pub open spec fn piece_chunks(piece: ResponseStreamEvent) -> Seq<ToolCallChunk> {
    if piece.choices@.len() > 0 && piece.choices@[0].delta.tool_calls is Some {
        piece.choices@[0].delta.tool_calls->0@
    } else {
        Seq::empty()
    }
}

/// Why the first choice of a piece ends, where it does.
pub open spec fn piece_end(piece: ResponseStreamEvent) -> Option<Seq<char>> {
    if piece.choices@.len() > 0 && piece.choices@[0].finish_reason is Some {
        Some(piece.choices@[0].finish_reason->0@)
    } else {
        None
    }
}

/// The texts of pieces, put together.
pub open spec fn joined_text(pieces: Seq<ResponseStreamEvent>) -> Seq<char>
    decreases pieces.len(),
{
    if pieces.len() == 0 {
        Seq::empty()
    } else {
        joined_text(pieces.drop_last()) + piece_text(pieces.last())
    }
}

/// The reasoning of pieces, put together.
pub open spec fn joined_thinking(pieces: Seq<ResponseStreamEvent>) -> Seq<char>
    decreases pieces.len(),
{
    if pieces.len() == 0 {
        Seq::empty()
    } else {
        joined_thinking(pieces.drop_last()) + piece_thinking(pieces.last())
    }
}

/// The chunks of tool calls of pieces, one after the other.
pub open spec fn joined_chunks(pieces: Seq<ResponseStreamEvent>) -> Seq<ToolCallChunk>
    decreases pieces.len(),
{
    if pieces.len() == 0 {
        Seq::empty()
    } else {
        joined_chunks(pieces.drop_last()) + piece_chunks(pieces.last())
    }
}

/// The calls that a mapper holds after pieces, one after the other.
pub open spec fn run_calls(
    calls: Seq<(usize, chat::CallView)>,
    pieces: Seq<ResponseStreamEvent>,
) -> Seq<(usize, chat::CallView)>
    decreases pieces.len(),
{
    if pieces.len() == 0 {
        calls
    } else {
        mapped_calls(run_calls(calls, pieces.drop_last()), pieces.last())
    }
}

/// The events that a mapper gives for pieces, one after the other.
pub open spec fn run_events(
    calls: Seq<(usize, chat::CallView)>,
    pieces: Seq<ResponseStreamEvent>,
) -> Seq<EventView>
    decreases pieces.len(),
{
    if pieces.len() == 0 {
        Seq::empty()
    } else {
        run_events(calls, pieces.drop_last()) + mapped_events(
            run_calls(calls, pieces.drop_last()),
            pieces.last(),
        )
    }
}

proof fn lemma_told_add(a: Seq<EventView>, b: Seq<EventView>)
    ensures
        told_text(a + b) == told_text(a) + told_text(b),
        told_thinking(a + b) == told_thinking(a) + told_thinking(b),
        told_calls(a + b) == told_calls(a) + told_calls(b),
    decreases b.len(),
{
    if b.len() == 0 {
        assert(a + b =~= a);
        assert(told_text(a) + told_text(b) =~= told_text(a));
        assert(told_thinking(a) + told_thinking(b) =~= told_thinking(a));
        assert(told_calls(a) + told_calls(b) =~= told_calls(a));
    } else {
        lemma_told_add(a, b.drop_last());
        assert((a + b).drop_last() =~= a + b.drop_last());
        assert((a + b).last() == b.last());
        assert(told_text(a + b) =~= told_text(a) + told_text(b));
        assert(told_thinking(a + b) =~= told_thinking(a) + told_thinking(b));
        assert(told_calls(a + b) =~= told_calls(a) + told_calls(b));
    }
}

proof fn lemma_told_one(e: EventView)
    ensures
        told_text(seq![e]) == match e {
            EventView::Text(t) => t,
            _ => Seq::empty(),
        },
        told_thinking(seq![e]) == match e {
            EventView::Thinking(t) => t,
            _ => Seq::empty(),
        },
        told_calls(seq![e]) == match e {
            EventView::ToolCall(c) => seq![c],
            _ => Seq::empty(),
        },
{
    let one = seq![e];
    let none = Seq::<EventView>::empty();
    assert(one.drop_last() =~= none);
    assert(one.last() == e);
    assert(told_text(none) =~= Seq::empty());
    assert(told_thinking(none) =~= Seq::empty());
    assert(told_calls(none) =~= Seq::empty());
    assert(told_text(one) =~= match e {
        EventView::Text(t) => t,
        _ => Seq::empty(),
    });
    assert(told_thinking(one) =~= match e {
        EventView::Thinking(t) => t,
        _ => Seq::empty(),
    });
    assert(told_calls(one) =~= match e {
        EventView::ToolCall(c) => seq![c],
        _ => Seq::empty(),
    });
}

proof fn lemma_told_handed(calls: Seq<(usize, chat::CallView)>)
    ensures
        ({
            let handed = calls.map_values(|c: (usize, chat::CallView)| EventView::ToolCall(c.1));
            &&& told_text(handed) == Seq::<char>::empty()
            &&& told_thinking(handed) == Seq::<char>::empty()
            &&& told_calls(handed) == calls.map_values(|c: (usize, chat::CallView)| c.1)
        }),
    decreases calls.len(),
{
    let f = |c: (usize, chat::CallView)| EventView::ToolCall(c.1);
    let g = |c: (usize, chat::CallView)| c.1;
    let handed = calls.map_values(f);
    if calls.len() > 0 {
        lemma_told_handed(calls.drop_last());
        assert(handed.drop_last() =~= calls.drop_last().map_values(f));
        assert(handed.last() == EventView::ToolCall(calls.last().1));
        assert(calls.map_values(g) =~= calls.drop_last().map_values(g).push(calls.last().1));
        assert(told_text(handed) =~= Seq::empty());
        assert(told_thinking(handed) =~= Seq::empty());
    } else {
        assert(told_calls(handed) =~= calls.map_values(g));
    }
}

/// What the events of one piece tell: its text, whole, its reasoning, whole,
/// and the calls that are held exactly where it ends for tool calls.
pub proof fn law_piece_is_told_whole(
    calls: Seq<(usize, chat::CallView)>,
    piece: ResponseStreamEvent,
)
    ensures
        told_text(mapped_events(calls, piece)) == piece_text(piece),
        told_thinking(mapped_events(calls, piece)) == piece_thinking(piece),
        told_calls(mapped_events(calls, piece)) == if piece_end(piece) == Some("tool_calls"@) {
            after_chunks(calls, piece_chunks(piece)).map_values(
                |c: (usize, chat::CallView)| c.1,
            )
        } else {
            Seq::empty()
        },
        mapped_calls(calls, piece) == if piece_end(piece) == Some("tool_calls"@) {
            Seq::empty()
        } else {
            after_chunks(calls, piece_chunks(piece))
        },
{
    let none = Seq::<EventView>::empty();
    assert(told_text(none) =~= Seq::empty());
    assert(told_thinking(none) =~= Seq::empty());
    assert(told_calls(none) =~= Seq::empty());
    let usage = usage_events(piece);
    if usage.len() > 0 {
        lemma_told_one(usage[0]);
        assert(usage =~= seq![usage[0]]);
    }
    if piece.choices@.len() > 0 {
        let choice = piece.choices@[0];
        let spoken = spoken_events(choice);
        let held = calls_of(calls, choice);
        let end = finish_events(held, choice);
        assert(held == after_chunks(calls, piece_chunks(piece)));
        let think = match choice.delta.reasoning_content {
            Some(t) => seq![EventView::Thinking(t@)],
            None => none,
        };
        let speak = match choice.delta.content {
            Some(t) if t@.len() > 0 => seq![EventView::Text(t@)],
            _ => none,
        };
        assert(spoken =~= think + speak);
        if think.len() > 0 {
            lemma_told_one(think[0]);
        }
        if speak.len() > 0 {
            lemma_told_one(speak[0]);
        }
        lemma_told_add(think, speak);
        lemma_told_add(usage, spoken);
        lemma_told_add(usage + spoken, end);
        if let Some(reason) = choice.finish_reason {
            if reason@ == "tool_calls"@ {
                let handed = held.map_values(
                    |c: (usize, chat::CallView)| EventView::ToolCall(c.1),
                );
                let stop = EventView::Stop(StopReason::ToolUse);
                lemma_told_handed(held);
                lemma_told_one(stop);
                lemma_told_add(handed, seq![stop]);
                assert(end =~= handed + seq![stop]);
            } else {
                lemma_told_one(end[0]);
                assert(end =~= seq![end[0]]);
            }
        }
        assert(told_text(mapped_events(calls, piece)) =~= piece_text(piece));
        assert(told_thinking(mapped_events(calls, piece)) =~= piece_thinking(piece));
    }
}

/// Over any pieces of a completion, the text events together say what the
/// pieces say, character for character, and so do the thinking events.
pub proof fn law_run_is_told_whole(
    calls: Seq<(usize, chat::CallView)>,
    pieces: Seq<ResponseStreamEvent>,
)
    ensures
        told_text(run_events(calls, pieces)) == joined_text(pieces),
        told_thinking(run_events(calls, pieces)) == joined_thinking(pieces),
    decreases pieces.len(),
{
    if pieces.len() > 0 {
        let rest = pieces.drop_last();
        law_run_is_told_whole(calls, rest);
        law_piece_is_told_whole(run_calls(calls, rest), pieces.last());
        lemma_told_add(
            run_events(calls, rest),
            mapped_events(run_calls(calls, rest), pieces.last()),
        );
    }
}

/// A piece that ends its completion brings a stop as its last event, for the
/// reason it gives, and another piece brings none. Token usage comes first,
/// with the numbers that were told, exactly where the piece tells of it.
pub proof fn law_stop_comes_last(calls: Seq<(usize, chat::CallView)>, piece: ResponseStreamEvent)
    ensures
        ({
            let events = mapped_events(calls, piece);
            &&& piece_end(piece) is Some ==> events.len() > 0 && events.last()
                == EventView::Stop(
                if piece_end(piece) == Some("tool_calls"@) {
                    StopReason::ToolUse
                } else if piece_end(piece) == Some("length"@) {
                    StopReason::MaxTokens
                } else {
                    StopReason::EndTurn
                },
            )
            &&& forall|i: int|
                0 <= i < events.len() && (#[trigger] events[i]) is Stop ==> i == events.len() - 1
                    && piece_end(piece) is Some
            &&& forall|i: int|
                0 <= i < events.len() && (#[trigger] events[i]) is UsageUpdate ==> i == 0
                    && piece.usage is Some
            &&& piece.usage matches Some(u) ==> events.len() > 0 && events[0]
                == EventView::UsageUpdate(
                TokenUsage {
                    input_tokens: u.prompt_tokens,
                    output_tokens: u.completion_tokens,
                    cache_creation_input_tokens: 0,
                    cache_read_input_tokens: 0,
                },
            )
        }),
{
    if piece.choices@.len() > 0 {
        let choice = piece.choices@[0];
        let held = calls_of(calls, choice);
        let start = usage_events(piece) + spoken_events(choice);
        let end = finish_events(held, choice);
        let events = mapped_events(calls, piece);
        assert(events == start + end);
        assert forall|i: int| 0 <= i < events.len() && (#[trigger] events[i]) is Stop implies i
            == events.len() - 1 && piece_end(piece) is Some by {
            if i < start.len() {
                assert(events[i] == start[i]);
                if i >= usage_events(piece).len() {
                    assert(start[i] == spoken_events(choice)[i - usage_events(piece).len()]);
                }
            } else {
                assert(events[i] == end[i - start.len()]);
                if i < events.len() - 1 {
                    assert(end[i - start.len()] == EventView::ToolCall(held[i - start.len()].1));
                }
            }
        }
        assert forall|i: int| 0 <= i < events.len() && (#[trigger] events[i]) is UsageUpdate implies i
            == 0 && piece.usage is Some by {
            if i < start.len() {
                assert(events[i] == start[i]);
                if i >= usage_events(piece).len() {
                    assert(start[i] == spoken_events(choice)[i - usage_events(piece).len()]);
                }
            } else {
                assert(events[i] == end[i - start.len()]);
            }
        }
        if piece_end(piece) is Some {
            assert(events.last() == end.last());
        }
        if piece.usage is Some {
            assert(events[0] == usage_events(piece)[0]);
        }
    }
}

/// The id that chunks give the call `index` last.
pub open spec fn last_id(chunks: Seq<ToolCallChunk>, index: usize) -> Option<Seq<char>>
    decreases chunks.len(),
{
    if chunks.len() == 0 {
        None
    } else if chunks.last().index == index && chunks.last().id is Some {
        Some(chunks.last().id->0@)
    } else {
        last_id(chunks.drop_last(), index)
    }
}

/// A chunk names its call.
pub open spec fn gives_name(chunk: ToolCallChunk) -> bool {
    chunk.function matches Some(f) && f.name matches Some(n) && n@.len() > 0
}

/// The name that chunks give the call `index` last.
pub open spec fn last_name(chunks: Seq<ToolCallChunk>, index: usize) -> Option<Seq<char>>
    decreases chunks.len(),
{
    if chunks.len() == 0 {
        None
    } else if chunks.last().index == index && gives_name(chunks.last()) {
        Some(chunks.last().function->0.name->0@)
    } else {
        last_name(chunks.drop_last(), index)
    }
}

/// The indexes of calls in the order in which they first came.
pub open spec fn seen(known: Seq<usize>, chunks: Seq<ToolCallChunk>) -> Seq<usize>
    decreases chunks.len(),
{
    if chunks.len() == 0 {
        known
    } else {
        let before = seen(known, chunks.drop_last());
        if before.contains(chunks.last().index) {
            before
        } else {
            before.push(chunks.last().index)
        }
    }
}

/// The indexes of the calls that are held.
pub open spec fn indexes(calls: Seq<(usize, chat::CallView)>) -> Seq<usize> {
    calls.map_values(|c: (usize, chat::CallView)| c.0)
}

/// The pieces of a tool call make up the call: the id that came last, the name
/// that came last, and all of the arguments in the order in which they came.
/// Chunks of other calls change nothing of it.
pub proof fn law_call_is_put_together(
    calls: Seq<(usize, chat::CallView)>,
    chunks: Seq<ToolCallChunk>,
    index: usize,
)
    ensures
        ({
            let before = call_at(calls, index);
            let after = call_at(after_chunks(calls, chunks), index);
            &&& after.id == match last_id(chunks, index) {
                Some(id) => id,
                None => before.id,
            }
            &&& after.name == match last_name(chunks, index) {
                Some(name) => name,
                None => before.name,
            }
            &&& after.arguments == before.arguments + joined_arguments(chunks, index)
        }),
    decreases chunks.len(),
{
    law_arguments_add_up(calls, chunks, index);
    if chunks.len() > 0 {
        law_call_is_put_together(calls, chunks.drop_last(), index);
        lemma_after_chunk(after_chunks(calls, chunks.drop_last()), chunks.last(), index);
    }
}

/// The calls that are held stand in the order in which they first came, each
/// once, and those that were held stay before the new ones.
pub proof fn law_calls_keep_their_order(
    calls: Seq<(usize, chat::CallView)>,
    chunks: Seq<ToolCallChunk>,
)
    requires
        distinct(calls),
    ensures
        indexes(after_chunks(calls, chunks)) == seen(indexes(calls), chunks),
        distinct(after_chunks(calls, chunks)),
    decreases chunks.len(),
{
    if chunks.len() > 0 {
        let mid = after_chunks(calls, chunks.drop_last());
        let next = after_chunks(calls, chunks);
        let chunk = chunks.last();
        law_calls_keep_their_order(calls, chunks.drop_last());
        lemma_slot(mid, chunk.index, 0);
        let k = slot(mid, chunk.index, 0);
        if k < mid.len() {
            assert(indexes(mid)[k] == chunk.index);
            assert(indexes(mid).contains(chunk.index));
            assert(indexes(next) =~= indexes(mid));
        } else {
            assert(!indexes(mid).contains(chunk.index)) by {
                if indexes(mid).contains(chunk.index) {
                    let j = indexes(mid).index_of(chunk.index);
                    assert(mid[j].0 == chunk.index);
                }
            }
            assert(indexes(next) =~= indexes(mid).push(chunk.index));
        }
        assert forall|i: int, j: int| 0 <= i < j < next.len() implies (#[trigger] next[i]).0 != (
        #[trigger] next[j]).0 by {
            if k < mid.len() {
                assert(next[i].0 == mid[i].0 && next[j].0 == mid[j].0);
            } else if j < mid.len() {
                assert(next[i] == mid[i] && next[j] == mid[j]);
            } else {
                assert(next[i] == mid[i]);
            }
        }
    }
}

proof fn lemma_chunks_add(
    calls: Seq<(usize, chat::CallView)>,
    a: Seq<ToolCallChunk>,
    b: Seq<ToolCallChunk>,
)
    ensures
        after_chunks(after_chunks(calls, a), b) == after_chunks(calls, a + b),
    decreases b.len(),
{
    if b.len() == 0 {
        assert(a + b =~= a);
    } else {
        lemma_chunks_add(calls, a, b.drop_last());
        assert((a + b).drop_last() =~= a + b.drop_last());
        assert((a + b).last() == b.last());
    }
}

/// No piece ends for tool calls.
pub open spec fn goes_on(pieces: Seq<ResponseStreamEvent>) -> bool {
    forall|i: int|
        0 <= i < pieces.len() ==> piece_end(#[trigger] pieces[i]) != Some("tool_calls"@)
}

proof fn lemma_calls_gather(
    calls: Seq<(usize, chat::CallView)>,
    pieces: Seq<ResponseStreamEvent>,
)
    requires
        goes_on(pieces),
    ensures
        run_calls(calls, pieces) == after_chunks(calls, joined_chunks(pieces)),
        told_calls(run_events(calls, pieces)) == Seq::<chat::CallView>::empty(),
    decreases pieces.len(),
{
    if pieces.len() > 0 {
        let rest = pieces.drop_last();
        assert(goes_on(rest)) by {
            assert forall|i: int| 0 <= i < rest.len() implies piece_end(#[trigger] rest[i]) != Some(
                "tool_calls"@,
            ) by {
                assert(rest[i] == pieces[i]);
            }
        }
        lemma_calls_gather(calls, rest);
        let last = pieces[pieces.len() - 1];
        assert(piece_end(last) != Some("tool_calls"@));
        law_piece_is_told_whole(run_calls(calls, rest), last);
        lemma_chunks_add(calls, joined_chunks(rest), piece_chunks(last));
        lemma_told_add(run_events(calls, rest), mapped_events(run_calls(calls, rest), last));
        assert(told_calls(run_events(calls, pieces)) =~= Seq::empty());
    }
}

/// A completion that ends for tool calls hands out every call of which a piece
/// came, in the order in which they first came, each once and whole: with the
/// id and the name that came last, and all of its arguments. Nothing is left
/// for what follows.
pub proof fn law_calls_are_handed_out_whole(pieces: Seq<ResponseStreamEvent>, k: int)
    requires
        pieces.len() > 0,
        goes_on(pieces.drop_last()),
        piece_end(pieces.last()) == Some("tool_calls"@),
    ensures
        ({
            let none = Seq::<(usize, chat::CallView)>::empty();
            let handed = told_calls(run_events(none, pieces));
            let chunks = joined_chunks(pieces);
            let order = seen(Seq::empty(), chunks);
            &&& run_calls(none, pieces).len() == 0
            &&& handed.len() == order.len()
            &&& 0 <= k < order.len() ==> {
                &&& handed[k].arguments == joined_arguments(chunks, order[k])
                &&& handed[k].id == match last_id(chunks, order[k]) {
                    Some(id) => id,
                    None => Seq::empty(),
                }
                &&& handed[k].name == match last_name(chunks, order[k]) {
                    Some(name) => name,
                    None => Seq::empty(),
                }
            }
        }),
{
    let none = Seq::<(usize, chat::CallView)>::empty();
    let rest = pieces.drop_last();
    let last = pieces.last();
    let chunks = joined_chunks(pieces);
    lemma_calls_gather(none, rest);
    lemma_chunks_add(none, joined_chunks(rest), piece_chunks(last));
    law_piece_is_told_whole(run_calls(none, rest), last);
    lemma_told_add(run_events(none, rest), mapped_events(run_calls(none, rest), last));
    let held = after_chunks(none, chunks);
    let handed = told_calls(run_events(none, pieces));
    assert(handed =~= held.map_values(|c: (usize, chat::CallView)| c.1));
    law_calls_keep_their_order(none, chunks);
    assert(indexes(none) =~= Seq::empty());
    let order = seen(Seq::empty(), chunks);
    assert(indexes(held).len() == held.len());
    if 0 <= k < order.len() {
        assert(indexes(held)[k] == held[k].0);
        lemma_slot_is(held, order[k], 0, k);
        law_call_is_put_together(none, chunks, order[k]);
        assert(call_at(none, order[k]) == empty_call());
        assert(handed[k] == call_at(held, order[k]));
        assert(handed[k].arguments =~= joined_arguments(chunks, order[k]));
    }
}

/// The place of an event among those of a piece.
pub open spec fn event_rank(e: EventView) -> int {
    match e {
        EventView::UsageUpdate(_) => 0,
        EventView::Thinking(_) => 1,
        EventView::Text(_) => 2,
        EventView::ToolCall(_) => 3,
        EventView::Stop(_) => 4,
    }
}

/// The reasoning of a piece is told before its text, its text before its calls,
/// and its end after all. Reasoning that comes is told once, if empty too; a
/// text that comes is told once, unless it is empty.
pub proof fn law_events_have_their_order(
    calls: Seq<(usize, chat::CallView)>,
    piece: ResponseStreamEvent,
    i: int,
    j: int,
)
    requires
        0 <= i < j < mapped_events(calls, piece).len(),
    ensures
        ({
            let events = mapped_events(calls, piece);
            &&& event_rank(events[i]) <= event_rank(events[j])
            &&& event_rank(events[i]) == event_rank(events[j]) ==> events[i] is ToolCall
        }),
{
    lemma_ranks(calls, piece);
}

/// Reasoning is told of exactly where a piece brings some, empty or not, and
/// text exactly where it brings one that is not empty.
pub proof fn law_what_comes_is_told(
    calls: Seq<(usize, chat::CallView)>,
    piece: ResponseStreamEvent,
    i: int,
)
    ensures
        ({
            let events = mapped_events(calls, piece);
            let thinks = piece.choices@.len() > 0 && piece.choices@[0].delta.reasoning_content
                is Some;
            let speaks = piece.choices@.len() > 0 && piece.choices@[0].delta.content is Some
                && piece.choices@[0].delta.content->0@.len() > 0;
            let before: int = if piece.usage is Some {
                1
            } else {
                0
            };
            &&& thinks ==> events.len() > before && events[before] is Thinking
            &&& !thinks && 0 <= i < events.len() ==> !(events[i] is Thinking)
            &&& speaks && thinks ==> events.len() > before + 1 && events[before + 1] is Text
            &&& speaks && !thinks ==> events.len() > before && events[before] is Text
            &&& !speaks && 0 <= i < events.len() ==> !(events[i] is Text)
        }),
{
    lemma_ranks(calls, piece);
    if piece.choices@.len() > 0 {
        let choice = piece.choices@[0];
        let u = usage_events(piece);
        let s = spoken_events(choice);
        let f = finish_events(calls_of(calls, choice), choice);
        let events = mapped_events(calls, piece);
        assert(events == u + s + f);
        if 0 <= i < events.len() {
            if i < u.len() {
                assert(events[i] == u[i]);
            } else if i < u.len() + s.len() {
                assert(events[i] == s[i - u.len()]);
            } else {
                assert(events[i] == f[i - u.len() - s.len()]);
                lemma_finish_ranks(calls_of(calls, choice), choice, i - u.len() - s.len());
            }
        }
        if s.len() > 0 {
            assert(events[u.len() as int] == s[0]);
        }
        if s.len() > 1 {
            assert(events[u.len() as int + 1] == s[1]);
        }
    }
}

proof fn lemma_finish_ranks(calls: Seq<(usize, chat::CallView)>, choice: ChoiceDelta, k: int)
    requires
        0 <= k < finish_events(calls, choice).len(),
    ensures
        ({
            let f = finish_events(calls, choice);
            &&& k < f.len() - 1 ==> f[k] is ToolCall
            &&& k == f.len() - 1 ==> f[k] is Stop
        }),
{
    let f = finish_events(calls, choice);
    if text::opt_view(choice.finish_reason) == Some("tool_calls"@) && k < f.len() - 1 {
        assert(f[k] == EventView::ToolCall(calls[k].1));
    }
}

proof fn lemma_ranks(calls: Seq<(usize, chat::CallView)>, piece: ResponseStreamEvent)
    ensures
        forall|i: int, j: int|
            0 <= i < j < mapped_events(calls, piece).len() ==> {
                let a = #[trigger] mapped_events(calls, piece)[i];
                let b = #[trigger] mapped_events(calls, piece)[j];
                &&& event_rank(a) <= event_rank(b)
                &&& event_rank(a) == event_rank(b) ==> a is ToolCall
            },
{
    if piece.choices@.len() > 0 {
        let choice = piece.choices@[0];
        let u = usage_events(piece);
        let s = spoken_events(choice);
        let f = finish_events(calls_of(calls, choice), choice);
        let events = mapped_events(calls, piece);
        assert(events == u + s + f);
        assert forall|i: int, j: int| 0 <= i < j < events.len() implies {
            let a = #[trigger] events[i];
            let b = #[trigger] events[j];
            &&& event_rank(a) <= event_rank(b)
            &&& event_rank(a) == event_rank(b) ==> a is ToolCall
        } by {
            let n = u.len() + s.len();
            if i >= n {
                assert(events[i] == f[i - n]);
                lemma_finish_ranks(calls_of(calls, choice), choice, i - n);
            }
            if j >= n {
                assert(events[j] == f[j - n]);
                lemma_finish_ranks(calls_of(calls, choice), choice, j - n);
            }
            if i < u.len() {
                assert(events[i] == u[i]);
            } else if i < n {
                assert(events[i] == s[i - u.len()]);
            }
            if j < u.len() {
                assert(events[j] == u[j]);
            } else if j < n {
                assert(events[j] == s[j - u.len()]);
            }
        }
    }
}

// ---- what callers see -------------------------------------------------------------------

/// A piece that is mapped is told whole: its text, its reasoning and, where it
/// ends for tool calls, every call that was collected. Then none is left.
pub proof fn law_mapped_piece_is_told(
    m: &mut GLMEventMapper,
    piece: ResponseStreamEvent,
    events: Vec<CompletionEvent>,
)
    requires
        call_ensures(GLMEventMapper::map_event, (m, piece), events),
    ensures
        told_text(event_views(events@)) == piece_text(piece),
        told_thinking(event_views(events@)) == piece_thinking(piece),
        piece_end(piece) == Some("tool_calls"@) ==> {
            &&& told_calls(event_views(events@)) == after_chunks(
                old(m)@,
                piece_chunks(piece),
            ).map_values(|c: (usize, chat::CallView)| c.1)
            &&& final(m)@.len() == 0
        },
        piece_end(piece) != Some("tool_calls"@) ==> {
            &&& told_calls(event_views(events@)).len() == 0
            &&& final(m)@ == after_chunks(old(m)@, piece_chunks(piece))
        },
{
    law_piece_is_told_whole(old(m)@, piece);
}

/// A tool call is handed on with its id, its name and its arguments as they
/// were written, along with what they were read as or why they could not be.
pub proof fn law_call_is_handed_on(
    call: RawToolCall,
    value: serde_json::Value,
    error: String,
    used: ToolUseEvent,
    failed: ToolUseEvent,
)
    requires
        call_ensures(resolve_tool_call, (call, Ok(value)), used),
        call_ensures(resolve_tool_call, (call, Err(error)), failed),
    ensures
        used matches ToolUseEvent::ToolUse { id, name, is_input_complete, input, raw_input } && {
            &&& id@ == call.id@
            &&& name@ == call.name@
            &&& is_input_complete
            &&& json::json_of(input) == json::json_of(value)
            &&& raw_input@ == call.arguments@
        },
        failed matches ToolUseEvent::ToolUseJsonParseError {
            id,
            tool_name,
            raw_input,
            json_parse_error,
        } && {
            &&& id@ == call.id@
            &&& tool_name@ == call.name@
            &&& raw_input@ == call.arguments@
            &&& json_parse_error@ == error@
        },
{
}

} // verus!
