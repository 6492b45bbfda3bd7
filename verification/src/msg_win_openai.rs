//! Demultiplexing a chat-completion stream into one text window per choice.

use crate::event_stream::{cuts, lemma_first_cut, tail, Cut, EventStream};
use crate::json::{items_view, lemma_view_array, Json, JsonValue};
use crate::json_text::{json_parse, json_stored, json_text, parse, render, view_of};
use crate::msg_window::{lemma_release_split, released, retained, MessageWindow};
use crate::number_merge::{merged, NumberMerge};
use crate::text::{same_bytes, starts_with};
use vstd::prelude::*;
use vstd::string::*;
use vstd::utf8::*;

verus! {

/// Which field of a delta a window is collecting.
#[derive(PartialEq, Eq, Clone, Copy, Structural)]
pub enum MsgFlag {
    Unset,
    Content,
    ReasoningContent,
}

impl Default for MsgFlag {
    fn default() -> (r: Self)
        ensures
            r == MsgFlag::Unset,
    {
        MsgFlag::Unset
    }
}

/// The text fields of one delta.
pub struct Delta {
    pub content: Option<String>,
    pub reasoning_content: Option<String>,
}

/// One entry of the `choices` array of an event.
pub struct Choices {
    pub index: i64,
    pub delta: Option<Delta>,
    pub finish_reason: Option<String>,
}

/// The view of a text that may be absent.
pub open spec fn text_view(text: Option<String>) -> Option<Seq<char>> {
    match text {
        Some(s) => Some(s@),
        None => None,
    }
}

/// The view of a `Delta`.
pub struct DeltaView {
    pub content: Option<Seq<char>>,
    pub reasoning_content: Option<Seq<char>>,
}

impl View for Delta {
    type V = DeltaView;

    open spec fn view(&self) -> DeltaView {
        DeltaView {
            content: text_view(self.content),
            reasoning_content: text_view(self.reasoning_content),
        }
    }
}

/// The view of a `Choices`.
pub struct ChoiceView {
    pub index: int,
    pub delta: Option<DeltaView>,
    pub finish_reason: Option<Seq<char>>,
}

impl View for Choices {
    type V = ChoiceView;

    open spec fn view(&self) -> ChoiceView {
        ChoiceView {
            index: self.index as int,
            delta: match self.delta {
                Some(d) => Some(d@),
                None => None,
            },
            finish_reason: text_view(self.finish_reason),
        }
    }
}

impl DeltaView {
    /// The field that the delta carries and its bytes: the content where
    /// that is not empty, else the reasoning content where that is not empty,
    /// else no bytes under `default_flag`.
    pub open spec fn flag_msg(self, default_flag: MsgFlag) -> (MsgFlag, Seq<u8>) {
        if self.content is Some && self.content->0.len() > 0 {
            (MsgFlag::Content, encode_utf8(self.content->0))
        } else if self.reasoning_content is Some && self.reasoning_content->0.len() > 0 {
            (MsgFlag::ReasoningContent, encode_utf8(self.reasoning_content->0))
        } else {
            (default_flag, Seq::empty())
        }
    }
}

impl Delta {
    /// See `DeltaView::flag_msg`.
    pub fn get_flag_msg(&self, default_flag: &MsgFlag) -> (r: (MsgFlag, &[u8]))
        ensures
            r.0 == self@.flag_msg(*default_flag).0,
            r.1@ == self@.flag_msg(*default_flag).1,
    {
        if let Some(msg) = &self.content {
            if !msg.as_str().is_empty() {
                return (MsgFlag::Content, msg.as_str().as_bytes());
            }
        }
        if let Some(msg) = &self.reasoning_content {
            if !msg.as_str().is_empty() {
                return (MsgFlag::ReasoningContent, msg.as_str().as_bytes());
            }
        }
        let none = "";
        proof {
            reveal_strlit("");
            assert(none@ =~= Seq::<char>::empty());
        }
        (*default_flag, none.as_bytes())
    }
}

/// A field that holds a text or nothing: absent and null give `Some(None)`,
/// a string gives its text, any other value is refused with `None`.
pub open spec fn opt_text(field: Option<JsonValue>) -> Option<Option<Seq<char>>> {
    match field {
        None => Some(None),
        Some(JsonValue::Null) => Some(None),
        Some(JsonValue::String(text)) => Some(Some(text)),
        Some(_) => None,
    }
}

/// The delta that `v` holds: `v` must be an object whose `content` and
/// `reasoning_content`, where present, are strings or null.
pub open spec fn delta_of(v: JsonValue) -> Option<DeltaView> {
    let content = opt_text(v.field("content"@));
    let reasoning_content = opt_text(v.field("reasoning_content"@));
    if v is Object && content is Some && reasoning_content is Some {
        Some(DeltaView { content: content->0, reasoning_content: reasoning_content->0 })
    } else {
        None
    }
}

/// The delta of a choice: absent and null give `Some(None)`, an object that
/// holds a delta gives it, any other value is refused with `None`.
pub open spec fn opt_delta(field: Option<JsonValue>) -> Option<Option<DeltaView>> {
    match field {
        None => Some(None),
        Some(JsonValue::Null) => Some(None),
        Some(v) => match delta_of(v) {
            Some(d) => Some(Some(d)),
            None => None,
        },
    }
}

/// The index of a choice: zero where absent, the integer where it is one of
/// 64 signed bits; any other value is refused.
pub open spec fn opt_index(field: Option<JsonValue>) -> Option<int> {
    match field {
        None => Some(0int),
        Some(JsonValue::Int(n)) => Some(n),
        Some(_) => None,
    }
}

/// The choice that `item` holds, or `None` where `item` is no object or one
/// of its fields has the wrong kind.
pub open spec fn choice_of(item: JsonValue) -> Option<ChoiceView> {
    let index = opt_index(item.field("index"@));
    let delta = opt_delta(item.field("delta"@));
    let finish_reason = opt_text(item.field("finish_reason"@));
    if item is Object && index is Some && delta is Some && finish_reason is Some {
        Some(ChoiceView { index: index->0, delta: delta->0, finish_reason: finish_reason->0 })
    } else {
        None
    }
}

/// The view of a choice that may be absent.
pub open spec fn choice_view(choice: Option<Choices>) -> Option<ChoiceView> {
    match choice {
        Some(c) => Some(c@),
        None => None,
    }
}

/// Reads a field that holds a text or nothing: see `opt_text`.
fn read_text(v: &Json, key: &str) -> (r: Option<Option<String>>)
    ensures
        match r {
            Some(text) => opt_text(v@.field(key@)) == Some(text_view(text)),
            None => opt_text(v@.field(key@)) is None,
        },
{
    match v.field(key) {
        None => Some(None),
        Some(Json::Null) => Some(None),
        Some(Json::String(text)) => Some(Some(text.clone())),
        Some(_) => None,
    }
}

/// Reads a delta: see `delta_of`.
fn read_delta(v: &Json) -> (r: Option<Delta>)
    ensures
        match r {
            Some(d) => delta_of(v@) == Some(d@),
            None => delta_of(v@) is None,
        },
{
    match v {
        Json::Object(_) => {},
        _ => {
            return None;
        },
    }
    let content = match read_text(v, "content") {
        Some(text) => text,
        None => {
            return None;
        },
    };
    let reasoning_content = match read_text(v, "reasoning_content") {
        Some(text) => text,
        None => {
            return None;
        },
    };
    Some(Delta { content, reasoning_content })
}

/// Reads one entry of `choices`: see `choice_of`.
pub fn decode_choice(item: &Json) -> (r: Option<Choices>)
    ensures
        choice_view(r) == choice_of(item@),
{
    match item {
        Json::Object(_) => {},
        _ => {
            return None;
        },
    }
    let index = match item.field("index") {
        None => 0,
        Some(Json::Int(n)) => *n,
        Some(_) => {
            return None;
        },
    };
    let delta = match item.field("delta") {
        None => None,
        Some(Json::Null) => None,
        Some(v) => match read_delta(v) {
            Some(d) => Some(d),
            None => {
                return None;
            },
        },
    };
    let finish_reason = match read_text(item, "finish_reason") {
        Some(text) => text,
        None => {
            return None;
        },
    };
    Some(Choices { index, delta, finish_reason })
}

/// The text that `String::from_utf8_lossy` makes of `bytes`.
pub uninterp spec fn utf8_lossy(bytes: Seq<u8>) -> Seq<char>;

/// `String::from_utf8_lossy`: the bytes as text, each invalid sequence
/// replaced by U+FFFD. Valid UTF-8 comes out as the text it encodes.
#[verifier::external_body]
fn lossy_text(bytes: &[u8]) -> (r: String)
    ensures
        r@ == utf8_lossy(bytes@),
        valid_utf8(bytes@) ==> r@ == decode_utf8(bytes@),
{
    String::from_utf8_lossy(bytes).into_owned()
}

/// The JSON value for a text that may be absent: the string, or null.
pub open spec fn text_or_null(text: Option<Seq<char>>) -> JsonValue {
    match text {
        Some(t) => JsonValue::String(t),
        None => JsonValue::Null,
    }
}

/// The delta of `skeleton` with `text` put under the field that `flag`
/// names. Under `Content` the reasoning content is removed; under
/// `ReasoningContent` the content becomes the empty string.
pub open spec fn delta_with(skeleton: JsonValue, flag: MsgFlag, text: Seq<char>) -> JsonValue {
    let delta = match skeleton.field("delta"@) {
        Some(d) => d,
        None => JsonValue::Null,
    };
    match flag {
        MsgFlag::Content => delta.with_field("content"@, JsonValue::String(text)).without_field(
            "reasoning_content"@,
        ),
        MsgFlag::ReasoningContent => delta.with_field(
            "reasoning_content"@,
            JsonValue::String(text),
        ).with_field("content"@, JsonValue::String(Seq::empty())),
        MsgFlag::Unset => delta,
    }
}

/// The choice that is sent out for one segment: `skeleton` with the text
/// of the segment in its delta, and with `finish_reason` set, to null where
/// there is none.
pub open spec fn event_of(
    skeleton: JsonValue,
    flag: MsgFlag,
    text: Seq<char>,
    finish_reason: Option<Seq<char>>,
) -> JsonValue {
    let filled = match flag {
        MsgFlag::Unset => skeleton,
        _ => skeleton.with_field("delta"@, delta_with(skeleton, flag, text)),
    };
    filled.with_field("finish_reason"@, text_or_null(finish_reason))
}

/// The choices that are sent out in the middle of a stream for `segments`.
pub open spec fn events_of(skeleton: JsonValue, segments: Seq<(MsgFlag, Seq<u8>)>) -> Seq<
    JsonValue,
> {
    Seq::new(
        segments.len(),
        |i: int| event_of(skeleton, segments[i].0, utf8_lossy(segments[i].1), None),
    )
}

/// What the buffer of one choice holds.
#[verifier::ext_equal]
pub struct ChoiceState {
    /// The bytes of the field that is being collected.
    pub window: Seq<u8>,
    /// The finished segments that wait to be sent, oldest first.
    pub queue: Seq<(MsgFlag, Seq<u8>)>,
    /// The field that is being collected.
    pub flag: MsgFlag,
    /// The last entry of `choices` seen for this choice.
    pub skeleton: JsonValue,
    /// The last finish reason that came with text.
    pub finish_reason: Option<Seq<char>>,
}

impl ChoiceState {
    /// The buffer of a choice of which nothing was seen yet.
    pub open spec fn empty() -> ChoiceState {
        ChoiceState {
            window: Seq::empty(),
            queue: Seq::empty(),
            flag: MsgFlag::Unset,
            skeleton: JsonValue::Null,
            finish_reason: None,
        }
    }

    /// The buffer after one delta. The skeleton is always taken. Without
    /// bytes nothing else changes. With bytes: the first flag seen is adopted;
    /// under a flag other than the current one the whole window joins the queue under
    /// the flag it was collected for, and the new flag becomes current; the
    /// bytes join the window; a finish reason, where there is one, is kept.
    pub open spec fn update(
        self,
        data: Seq<u8>,
        flag: MsgFlag,
        skeleton: JsonValue,
        finish_reason: Option<Seq<char>>,
    ) -> ChoiceState {
        let current = if self.flag == MsgFlag::Unset {
            flag
        } else {
            self.flag
        };
        if data.len() == 0 {
            ChoiceState { skeleton, ..self }
        } else if current != flag {
            ChoiceState {
                window: data,
                queue: self.queue.push((current, self.window)),
                flag,
                skeleton,
                finish_reason: if finish_reason is Some {
                    finish_reason
                } else {
                    self.finish_reason
                },
            }
        } else {
            ChoiceState {
                window: self.window + data,
                queue: self.queue,
                flag,
                skeleton,
                finish_reason: if finish_reason is Some {
                    finish_reason
                } else {
                    self.finish_reason
                },
            }
        }
    }

    /// The segments that a `pop` sends: the whole queue, then what the
    /// window releases, if that is not empty, under the current flag.
    pub open spec fn pop_segments(self, chars: nat, bytes: nat) -> Seq<(MsgFlag, Seq<u8>)> {
        if released(self.window, chars, bytes).len() > 0 {
            self.queue.push((self.flag, released(self.window, chars, bytes)))
        } else {
            self.queue
        }
    }

    /// The buffer after a `pop`.
    pub open spec fn popped(self, chars: nat, bytes: nat) -> ChoiceState {
        ChoiceState {
            window: retained(self.window, chars, bytes),
            queue: Seq::empty(),
            ..self
        }
    }

    /// The choices that a `pop` sends, none of them with a finish reason.
    pub open spec fn pop_events(self, chars: nat, bytes: nat) -> Seq<JsonValue> {
        events_of(self.skeleton, self.pop_segments(chars, bytes))
    }

    /// The segments that `finish` sends: the whole queue, then the whole
    /// window under the current flag, even where it is empty.
    pub open spec fn finish_segments(self) -> Seq<(MsgFlag, Seq<u8>)> {
        self.queue.push((self.flag, self.window))
    }

    /// The buffer after `finish`.
    pub open spec fn finished(self) -> ChoiceState {
        ChoiceState {
            window: Seq::empty(),
            queue: Seq::empty(),
            flag: MsgFlag::Unset,
            ..self
        }
    }

    /// The choices that `finish` sends: those of the queue without a finish
    /// reason, then that of the window with the finish reason kept.
    pub open spec fn finish_events(self) -> Seq<JsonValue> {
        events_of(self.skeleton, self.queue).push(
            event_of(self.skeleton, self.flag, utf8_lossy(self.window), self.finish_reason),
        )
    }

    /// The buffers that can be rewritten in place: those of the queue, oldest
    /// first, then the window.
    pub open spec fn buffers(self) -> Seq<Seq<u8>> {
        Seq::new(self.queue.len(), |i: int| self.queue[i].1).push(self.window)
    }

    /// The state with buffer `i` of `buffers` replaced by `bytes`.
    pub open spec fn with_buffer(self, i: int, bytes: Seq<u8>) -> ChoiceState {
        if 0 <= i < self.queue.len() {
            ChoiceState { queue: self.queue.update(i, (self.queue[i].0, bytes)), ..self }
        } else {
            ChoiceState { window: bytes, ..self }
        }
    }
}

/// The bytes of the first `n` of `segments` that stand under `flag`, in order.
pub open spec fn bytes_under(segments: Seq<(MsgFlag, Seq<u8>)>, flag: MsgFlag, n: int) -> Seq<u8>
    decreases n,
{
    if n <= 0 || n > segments.len() {
        Seq::empty()
    } else if segments[n - 1].0 == flag {
        bytes_under(segments, flag, n - 1) + segments[n - 1].1
    } else {
        bytes_under(segments, flag, n - 1)
    }
}

impl ChoiceState {
    /// The segments held: the queue, then the window under the current flag.
    pub open spec fn held(self) -> Seq<(MsgFlag, Seq<u8>)> {
        self.queue.push((self.flag, self.window))
    }

    /// All the bytes held under `flag`, in the order in which they came.
    pub open spec fn held_under(self, flag: MsgFlag) -> Seq<u8> {
        bytes_under(self.held(), flag, self.held().len() as int)
    }

    /// True if the window is empty while no flag is set.
    pub open spec fn settled(self) -> bool {
        self.flag == MsgFlag::Unset ==> self.window.len() == 0
    }
}

/// The bytes under a flag among the first `n` segments do not depend on
/// the segments behind them.
proof fn lemma_bytes_under_prefix(
    a: Seq<(MsgFlag, Seq<u8>)>,
    b: Seq<(MsgFlag, Seq<u8>)>,
    flag: MsgFlag,
    n: int,
)
    requires
        0 <= n <= a.len(),
        n <= b.len(),
        forall|k: int| 0 <= k < n ==> a[k] == b[k],
    ensures
        bytes_under(a, flag, n) == bytes_under(b, flag, n),
    decreases n,
{
    if n > 0 {
        lemma_bytes_under_prefix(a, b, flag, n - 1);
    }
}

/// The bytes under a flag of a run of segments with one more behind it.
proof fn lemma_bytes_under_push(
    segments: Seq<(MsgFlag, Seq<u8>)>,
    last: (MsgFlag, Seq<u8>),
    flag: MsgFlag,
)
    ensures
        bytes_under(segments.push(last), flag, segments.len() as int + 1) == bytes_under(
            segments,
            flag,
            segments.len() as int,
        ) + (if last.0 == flag {
            last.1
        } else {
            Seq::empty()
        }),
{
    lemma_bytes_under_prefix(segments.push(last), segments, flag, segments.len() as int);
    assert(bytes_under(segments, flag, segments.len() as int) + Seq::<u8>::empty()
        =~= bytes_under(segments, flag, segments.len() as int));
}

/// A delta adds its bytes under its flag and moves no others: the bytes held
/// under each flag are those held before, followed under the delta's flag by
/// the bytes of the delta. So text of one field is never mixed into a segment
/// of the other: a change of flag closes the segment that was being collected.
pub proof fn lemma_update_keeps(
    state: ChoiceState,
    data: Seq<u8>,
    flag: MsgFlag,
    skeleton: JsonValue,
    finish_reason: Option<Seq<char>>,
    under: MsgFlag,
)
    requires
        state.settled(),
        data.len() > 0 ==> flag != MsgFlag::Unset,
    ensures
        state.update(data, flag, skeleton, finish_reason).settled(),
        state.update(data, flag, skeleton, finish_reason).held_under(under) == state.held_under(
            under,
        ) + (if under == flag {
            data
        } else {
            Seq::empty()
        }),
{
    let after = state.update(data, flag, skeleton, finish_reason);
    lemma_bytes_under_push(state.queue, (state.flag, state.window), under);
    lemma_bytes_under_push(after.queue, (after.flag, after.window), under);
    let kept = bytes_under(state.queue, under, state.queue.len() as int);
    if data.len() == 0 {
        assert(after.held_under(under) =~= state.held_under(under) + Seq::<u8>::empty());
    } else if state.flag != MsgFlag::Unset && state.flag != flag {
        lemma_bytes_under_push(state.queue, (state.flag, state.window), under);
        assert(after.queue == state.held());
        if under == flag {
            assert(after.held_under(under) =~= state.held_under(under) + data);
        } else {
            assert(after.held_under(under) =~= state.held_under(under) + Seq::<u8>::empty());
        }
    } else {
        if under == flag {
            assert(after.held_under(under) =~= state.held_under(under) + data);
        } else {
            assert(after.held_under(under) =~= state.held_under(under) + Seq::<u8>::empty());
        }
    }
}

/// A `pop` loses nothing and sends nothing twice: under each flag, the
/// bytes it sends followed by the bytes still held are the bytes held before.
pub proof fn lemma_pop_keeps(state: ChoiceState, chars: nat, bytes: nat, under: MsgFlag)
    ensures
        state.settled() ==> state.popped(chars, bytes).settled(),
        bytes_under(
            state.pop_segments(chars, bytes),
            under,
            state.pop_segments(chars, bytes).len() as int,
        ) + state.popped(chars, bytes).held_under(under) == state.held_under(under),
{
    let sent = state.pop_segments(chars, bytes);
    let after = state.popped(chars, bytes);
    let out = released(state.window, chars, bytes);
    let kept = retained(state.window, chars, bytes);
    lemma_release_split(state.window, chars, bytes);
    lemma_bytes_under_push(state.queue, (state.flag, state.window), under);
    lemma_bytes_under_push(after.queue, (after.flag, after.window), under);
    lemma_bytes_under_push(state.queue, (state.flag, out), under);
    let queued = bytes_under(state.queue, under, state.queue.len() as int);
    assert(bytes_under(after.queue, under, 0) =~= Seq::<u8>::empty());
    if state.flag == under {
        assert(bytes_under(sent, under, sent.len() as int) =~= queued + out);
        assert(after.held_under(under) =~= kept);
        assert(state.held_under(under) =~= queued + (out + kept));
        assert(bytes_under(sent, under, sent.len() as int) + after.held_under(under)
            =~= state.held_under(under));
    } else {
        assert(bytes_under(sent, under, sent.len() as int) =~= queued);
        assert(after.held_under(under) =~= Seq::<u8>::empty());
        assert(bytes_under(sent, under, sent.len() as int) + after.held_under(under)
            =~= state.held_under(under));
    }
}

/// `finish` sends every byte held, under the flag it was collected for,
/// and leaves nothing behind.
pub proof fn lemma_finish_sends_all(state: ChoiceState, under: MsgFlag)
    ensures
        bytes_under(state.finish_segments(), under, state.finish_segments().len() as int)
            == state.held_under(under),
        state.finished().held_under(under) == Seq::<u8>::empty(),
        state.finished().settled(),
{
    let after = state.finished();
    lemma_bytes_under_push(after.queue, (after.flag, after.window), under);
    assert(bytes_under(after.queue, under, 0) =~= Seq::<u8>::empty());
    assert(after.held_under(under) =~= Seq::<u8>::empty());
}

/// The views of queued segments, one by one.
pub open spec fn queue_view(queue: Seq<(MsgFlag, Vec<u8>)>) -> Seq<(MsgFlag, Seq<u8>)> {
    Seq::new(queue.len(), |i: int| (queue[i].0, queue[i].1@))
}

/// The buffer of one choice: a window for the field that is being
/// collected, and the queue of the segments that were finished by a change
/// of field.
pub struct MessageWindowOpenAi {
    message_window: MessageWindow,
    ret_messages: Vec<(MsgFlag, Vec<u8>)>,
    flag: MsgFlag,
    last_value: Json,
    finish_reason: Option<String>,
}

impl View for MessageWindowOpenAi {
    type V = ChoiceState;

    closed spec fn view(&self) -> ChoiceState {
        ChoiceState {
            window: self.message_window@,
            queue: queue_view(self.ret_messages@),
            flag: self.flag,
            skeleton: self.last_value@,
            finish_reason: text_view(self.finish_reason),
        }
    }
}

impl Default for MessageWindowOpenAi {
    fn default() -> (r: Self)
        ensures
            r@ == ChoiceState::empty(),
    {
        let r = MessageWindowOpenAi {
            message_window: MessageWindow::default(),
            ret_messages: Vec::new(),
            flag: MsgFlag::Unset,
            last_value: Json::Null,
            finish_reason: None,
        };
        assert(r@.queue =~= Seq::empty());
        r
    }
}

impl MessageWindowOpenAi {
    /// The field that is being collected.
    pub fn flag(&self) -> (r: MsgFlag)
        ensures
            r == self@.flag,
    {
        self.flag
    }

    /// Takes in one delta: see `ChoiceState::update`.
    pub fn update(
        &mut self,
        data: &[u8],
        flag: MsgFlag,
        value: &Json,
        finish_reason: &Option<String>,
    )
        ensures
            final(self)@ == old(self)@.update(data@, flag, value@, text_view(*finish_reason)),
    {
        self.last_value = value.clone();
        if data.len() == 0 {
            return ;
        }
        if self.flag == MsgFlag::Unset {
            self.flag = flag;
        }
        if self.flag != flag {
            let last_flag = self.flag;
            self.flag = flag;
            let msg = self.message_window.finish();
            self.ret_messages.push((last_flag, msg));
            assert(queue_view(self.ret_messages@) =~= old(self)@.queue.push((last_flag, msg@)));
        }
        self.message_window.update(data);
        if let Some(fr) = finish_reason {
            self.finish_reason = Some(fr.clone());
        }
        assert(self@.window =~= old(self)@.update(
            data@,
            flag,
            value@,
            text_view(*finish_reason),
        ).window);
    }

    /// The choice that is sent out for one segment: see `event_of`.
    fn gen_value(&self, flag: &MsgFlag, msg: &[u8], finish: bool) -> (r: Json)
        ensures
            r@ == event_of(
                self@.skeleton,
                *flag,
                utf8_lossy(msg@),
                if finish {
                    self@.finish_reason
                } else {
                    None
                },
            ),
    {
        let mut ret = self.last_value.clone();
        match flag {
            MsgFlag::Content => {
                let mut delta = match ret.field("delta") {
                    Some(d) => d.clone(),
                    None => Json::Null,
                };
                delta.set_field("content", Json::String(lossy_text(msg)));
                delta.remove_field("reasoning_content");
                ret.set_field("delta", delta);
            },
            MsgFlag::ReasoningContent => {
                let mut delta = match ret.field("delta") {
                    Some(d) => d.clone(),
                    None => Json::Null,
                };
                delta.set_field("reasoning_content", Json::String(lossy_text(msg)));
                delta.set_field("content", Json::String(String::new()));
                ret.set_field("delta", delta);
            },
            MsgFlag::Unset => {},
        }
        let reason = if finish {
            match &self.finish_reason {
                Some(v) => Json::String(v.clone()),
                None => Json::Null,
            }
        } else {
            Json::Null
        };
        ret.set_field("finish_reason", reason);
        ret
    }

    /// Empties the queue into the choices to send.
    fn messages_to_value(&mut self) -> (r: Vec<Json>)
        ensures
            items_view(r@) == events_of(old(self)@.skeleton, old(self)@.queue),
            final(self)@ == (ChoiceState { queue: Seq::empty(), ..old(self)@ }),
    {
        let mut ret: Vec<Json> = Vec::new();
        let mut queue: Vec<(MsgFlag, Vec<u8>)> = Vec::new();
        core::mem::swap(&mut self.ret_messages, &mut queue);
        assert(self@.queue =~= Seq::empty());
        let mut i: usize = 0;
        while i < queue.len()
            invariant
                i <= queue@.len(),
                ret@.len() == i,
                self@ == (ChoiceState { queue: Seq::empty(), ..old(self)@ }),
                queue_view(queue@) == old(self)@.queue,
                forall|j: int|
                    0 <= j < i ==> ret@[j]@ == #[trigger] events_of(
                        old(self)@.skeleton,
                        old(self)@.queue,
                    )[j],
            decreases queue@.len() - i,
        {
            let value = self.gen_value(&queue[i].0, queue[i].1.as_slice(), false);
            ret.push(value);
            i += 1;
        }
        assert(items_view(ret@) =~= events_of(old(self)@.skeleton, old(self)@.queue));
        ret
    }

    /// Sends the queue and what the window releases: see `ChoiceState::pop_events`.
    pub fn pop(&mut self, char_window_size: usize, byte_window_size: usize) -> (r: Vec<Json>)
        ensures
            items_view(r@) == old(self)@.pop_events(
                char_window_size as nat,
                byte_window_size as nat,
            ),
            final(self)@ == old(self)@.popped(char_window_size as nat, byte_window_size as nat),
    {
        let mut ret = self.messages_to_value();
        let ghost queued = items_view(ret@);
        let msg = self.message_window.pop(char_window_size, byte_window_size);
        if msg.len() > 0 {
            let value = self.gen_value(&self.flag, msg.as_slice(), false);
            ret.push(value);
            assert(items_view(ret@) =~= queued.push(value@));
        }
        assert(items_view(ret@) =~= old(self)@.pop_events(
            char_window_size as nat,
            byte_window_size as nat,
        ));
        ret
    }

    /// Sends the queue and the whole window: see `ChoiceState::finish_events`.
    pub fn finish(&mut self) -> (r: Vec<Json>)
        ensures
            items_view(r@) == old(self)@.finish_events(),
            final(self)@ == old(self)@.finished(),
    {
        let mut ret = self.messages_to_value();
        let ghost queued = items_view(ret@);
        let msg = self.message_window.finish();
        let flag = self.flag;
        self.flag = MsgFlag::Unset;
        let value = self.gen_value(&flag, msg.as_slice(), true);
        ret.push(value);
        assert(items_view(ret@) =~= queued.push(value@));
        ret
    }

    /// The number of segments in the queue.
    pub fn queue_len(&self) -> (r: usize)
        ensures
            r == self@.queue.len(),
    {
        self.ret_messages.len()
    }

    /// The number of buffers that can be rewritten: see `ChoiceState::buffers`.
    pub fn message_count(&self) -> (r: usize)
        requires
            self@.buffers().len() <= usize::MAX,
        ensures
            r == self@.buffers().len(),
    {
        self.ret_messages.len() + 1
    }

    /// Buffer `i` of `ChoiceState::buffers`, for rewriting it in place.
    pub fn message_mut(&mut self, i: usize) -> (r: &mut Vec<u8>)
        requires
            i < old(self)@.buffers().len(),
        ensures
            r@ == old(self)@.buffers()[i as int],
            final(self)@ =~= old(self)@.with_buffer(i as int, final(r)@),
    {
        if i < self.ret_messages.len() {
            &mut self.ret_messages[i].1
        } else {
            self.message_window.message_mut()
        }
    }
}

/// The marker of a data line: `data:`.
pub open spec fn data_marker() -> Seq<u8> {
    "data:".spec_bytes()
}

/// The frame that ends a stream: `data: [DONE]`.
pub open spec fn done_frame() -> Seq<u8> {
    "data: [DONE]".spec_bytes()
}

/// True if `frame` begins with the marker of a data line.
pub open spec fn is_data_line(frame: Seq<u8>) -> bool {
    data_marker().is_prefix_of(frame)
}

/// The bytes of a data line behind its marker.
pub open spec fn payload(frame: Seq<u8>) -> Seq<u8> {
    frame.subrange(data_marker().len() as int, frame.len() as int)
}

/// True if `frame` is an event: a data line whose payload was read as a
/// JSON object.
pub open spec fn is_event(frame: Seq<u8>, decoded: Option<JsonValue>) -> bool {
    is_data_line(frame) && decoded is Some && decoded->0 is Object
}

/// True if `frame` is handed on as it came: it is no event and not the frame
/// that ends a stream.
pub open spec fn passes(frame: Seq<u8>, decoded: Option<JsonValue>) -> bool {
    !is_event(frame, decoded) && !(is_data_line(frame) && frame == done_frame())
}

/// The first position at or after `from` of the buffer of choice `index`,
/// or `choices.len()` if there is none.
pub open spec fn find_choice(choices: Seq<(int, ChoiceState)>, index: int, from: int) -> int
    decreases choices.len() - from,
{
    if from < 0 || from >= choices.len() {
        choices.len() as int
    } else if choices[from].0 == index {
        from
    } else {
        find_choice(choices, index, from + 1)
    }
}

/// The buffers after one entry of `choices`. An entry that holds no choice,
/// or a choice without a delta, changes nothing. Otherwise the buffer of the
/// choice's index, made on first sight behind the others, takes in the delta
/// with the entry as its skeleton.
pub open spec fn absorb_choice(choices: Seq<(int, ChoiceState)>, item: JsonValue) -> Seq<
    (int, ChoiceState),
> {
    let choice = choice_of(item);
    if choice is Some && choice->0.delta is Some {
        let index = choice->0.index;
        let at = find_choice(choices, index, 0);
        let before = if 0 <= at < choices.len() {
            choices[at].1
        } else {
            ChoiceState::empty()
        };
        let flag_msg = choice->0.delta->0.flag_msg(before.flag);
        let after = before.update(flag_msg.1, flag_msg.0, item, choice->0.finish_reason);
        if 0 <= at < choices.len() {
            choices.update(at, (index, after))
        } else {
            choices.push((index, after))
        }
    } else {
        choices
    }
}

/// The buffers after the entries `items[from..]`, taken in one by one.
pub open spec fn absorb_choices(
    choices: Seq<(int, ChoiceState)>,
    items: Seq<JsonValue>,
    from: int,
) -> Seq<(int, ChoiceState)>
    decreases items.len() - from,
{
    if from < 0 || from >= items.len() {
        choices
    } else {
        absorb_choices(absorb_choice(choices, items[from]), items, from + 1)
    }
}

/// What the engine holds.
#[verifier::ext_equal]
pub struct EngineState {
    /// The bytes fed to the framer that are not yet part of a complete frame.
    pub pending: Seq<u8>,
    /// The window of the bytes that are handed on as they came.
    pub base: Seq<u8>,
    /// The buffer of each choice under its index, in the order of first sight.
    pub choices: Seq<(int, ChoiceState)>,
    /// The last event seen.
    pub skeleton: JsonValue,
    /// The usage counters merged since they were last sent.
    pub usage: JsonValue,
}

impl EngineState {
    /// The engine before any input.
    pub open spec fn empty() -> EngineState {
        EngineState {
            pending: Seq::empty(),
            base: Seq::empty(),
            choices: Seq::empty(),
            skeleton: JsonValue::Null,
            usage: JsonValue::Null,
        }
    }

    /// The state after `bytes` were handed on as they came.
    pub open spec fn pass(self, bytes: Seq<u8>) -> EngineState {
        EngineState { base: self.base + bytes, ..self }
    }

    /// The state after the event `event`: it becomes the skeleton, its
    /// `usage`, if it has one, is merged into the counters, and the entries
    /// of its `choices`, if that is an array, go to the buffers.
    pub open spec fn absorb(self, event: JsonValue) -> EngineState {
        EngineState {
            skeleton: event,
            usage: match event.field("usage"@) {
                Some(u) => merged(self.usage, u),
                None => self.usage,
            },
            choices: match event.field("choices"@) {
                Some(JsonValue::Array(items)) => absorb_choices(self.choices, items, 0),
                _ => self.choices,
            },
            ..self
        }
    }

    /// The state after `frame`, whose payload was read as `decoded`: an
    /// event is absorbed, the frame that ends a stream is dropped, any other
    /// frame is handed on as it came.
    pub open spec fn take_frame(self, frame: Seq<u8>, decoded: Option<JsonValue>) -> EngineState {
        if is_event(frame, decoded) {
            self.absorb(decoded->0)
        } else if passes(frame, decoded) {
            self.pass(frame)
        } else {
            self
        }
    }

    /// The state after `frame`.
    pub open spec fn frame_in(self, frame: Seq<u8>) -> EngineState {
        self.take_frame(frame, json_parse(payload(frame)))
    }

    /// The state after the frames of `cs`, one by one.
    pub open spec fn frames_in(self, cs: Seq<Cut>) -> EngineState
        decreases cs.len(),
    {
        if cs.len() == 0 {
            self
        } else {
            self.frame_in(cs[0].frame).frames_in(cs.drop_first())
        }
    }

    /// The state after `data` was pushed. In raw mode the bytes join the base
    /// window. In multiplexed mode they join the bytes of the framer, every
    /// complete frame is taken in, and the framer keeps the rest.
    pub open spec fn push(self, data: Seq<u8>, is_openai: bool) -> EngineState {
        if is_openai {
            (EngineState { pending: tail(self.pending + data), ..self }).frames_in(
                cuts(self.pending + data),
            )
        } else {
            self.pass(data)
        }
    }
}

/// The events of the first `n` batches, one batch after the other.
pub open spec fn join(batches: Seq<Seq<JsonValue>>, n: int) -> Seq<JsonValue>
    decreases n,
{
    if n <= 0 || n > batches.len() {
        Seq::empty()
    } else {
        join(batches, n - 1) + batches[n - 1]
    }
}

/// The record that is sent for one choice: the skeleton of the last event
/// with that choice as its only one, and with `usage`.
pub open spec fn record(skeleton: JsonValue, choice: JsonValue, usage: JsonValue) -> JsonValue {
    skeleton.with_field("choices"@, JsonValue::Array(seq![choice])).with_field("usage"@, usage)
}

/// The records that are sent for `events`: the first carries the usage
/// counters, the others carry null in their place.
pub open spec fn records(skeleton: JsonValue, usage: JsonValue, events: Seq<JsonValue>) -> Seq<
    JsonValue,
> {
    Seq::new(
        events.len(),
        |k: int|
            record(
                skeleton,
                events[k],
                if k == 0 {
                    usage
                } else {
                    JsonValue::Null
                },
            ),
    )
}

/// The bytes of one record: `data: `, the JSON text and an empty line.
pub open spec fn record_bytes(rec: JsonValue) -> Seq<u8> {
    "data: ".spec_bytes() + encode_utf8(json_text(json_stored(rec))) + "\n\n".spec_bytes()
}

/// The bytes of the first `n` records, one after the other.
pub open spec fn records_bytes(recs: Seq<JsonValue>, n: int) -> Seq<u8>
    decreases n,
{
    if n <= 0 || n > recs.len() {
        Seq::empty()
    } else {
        records_bytes(recs, n - 1) + record_bytes(recs[n - 1])
    }
}

/// The record that ends a stream: `data: [DONE]` and an empty line.
pub open spec fn done_record() -> Seq<u8> {
    "data: [DONE]\n\n".spec_bytes()
}

impl EngineState {
    /// The events that each buffer sends on a `pop`.
    pub open spec fn pop_batches(self, chars: nat, bytes: nat) -> Seq<Seq<JsonValue>> {
        Seq::new(self.choices.len(), |i: int| self.choices[i].1.pop_events(chars, bytes))
    }

    /// The events that each buffer sends on `finish`.
    pub open spec fn finish_batches(self) -> Seq<Seq<JsonValue>> {
        Seq::new(self.choices.len(), |i: int| self.choices[i].1.finish_events())
    }

    /// The records of a `pop` in multiplexed mode: one for each event of
    /// each buffer, in the order of the buffers.
    pub open spec fn pop_records(self, chars: nat, bytes: nat) -> Seq<JsonValue> {
        let batches = self.pop_batches(chars, bytes);
        records(self.skeleton, self.usage, join(batches, batches.len() as int))
    }

    /// The records of `finish` in multiplexed mode, before the record that
    /// ends the stream.
    pub open spec fn finish_records(self) -> Seq<JsonValue> {
        let batches = self.finish_batches();
        records(self.skeleton, self.usage, join(batches, batches.len() as int))
    }

    /// The state with the usage counters sent, if `sent` records went out.
    pub open spec fn usage_sent(self, sent: nat) -> EngineState {
        EngineState {
            usage: if sent > 0 {
                JsonValue::Null
            } else {
                self.usage
            },
            ..self
        }
    }

    /// The state after a `pop` in multiplexed mode: every buffer has popped,
    /// and the usage counters are null once a record went out.
    pub open spec fn popped_records(self, chars: nat, bytes: nat) -> EngineState {
        (EngineState {
            choices: Seq::new(
                self.choices.len(),
                |i: int| (self.choices[i].0, self.choices[i].1.popped(chars, bytes)),
            ),
            ..self
        }).usage_sent(self.pop_records(chars, bytes).len())
    }

    /// The state after the records of `finish` went out.
    pub open spec fn finished_records(self) -> EngineState {
        (EngineState {
            choices: Seq::new(
                self.choices.len(),
                |i: int| (self.choices[i].0, self.choices[i].1.finished()),
            ),
            ..self
        }).usage_sent(self.finish_records().len())
    }

    /// The bytes that a `pop` gives. In raw mode: what the base window
    /// releases. In multiplexed mode: the records of the buffers.
    pub open spec fn pop_output(self, chars: nat, bytes: nat, is_openai: bool) -> Seq<u8> {
        if is_openai {
            let recs = self.pop_records(chars, bytes);
            records_bytes(recs, recs.len() as int)
        } else {
            released(self.base, chars, bytes)
        }
    }

    /// The state after a `pop`.
    pub open spec fn popped(self, chars: nat, bytes: nat, is_openai: bool) -> EngineState {
        if is_openai {
            self.popped_records(chars, bytes)
        } else {
            EngineState { base: retained(self.base, chars, bytes), ..self }
        }
    }

    /// The state once the framer was flushed: what it held, if anything, is
    /// taken in as a last frame.
    pub open spec fn flushed(self) -> EngineState {
        if self.pending.len() == 0 {
            self
        } else {
            (EngineState { pending: Seq::empty(), ..self }).frame_in(self.pending)
        }
    }

    /// The bytes that `finish` gives. In raw mode: the whole base window. In
    /// multiplexed mode: the framer is flushed, every buffer sends all it
    /// holds, and the record that ends a stream follows.
    pub open spec fn finish_output(self, is_openai: bool) -> Seq<u8> {
        if is_openai {
            let recs = self.flushed().finish_records();
            records_bytes(recs, recs.len() as int) + done_record()
        } else {
            self.base
        }
    }

    /// The state after `finish`.
    pub open spec fn finished(self, is_openai: bool) -> EngineState {
        if is_openai {
            self.flushed().finished_records()
        } else {
            EngineState { base: Seq::empty(), ..self }
        }
    }
}

/// The buffers of the choices from `from` on that can be rewritten in
/// place, choice after choice.
pub open spec fn choice_buffers(choices: Seq<(int, ChoiceState)>, from: int) -> Seq<Seq<u8>>
    decreases choices.len() - from,
{
    if from < 0 || from >= choices.len() {
        Seq::empty()
    } else {
        choices[from].1.buffers() + choice_buffers(choices, from + 1)
    }
}

/// Where buffer `k` of `choice_buffers(choices, from)` lies: the position
/// of its choice, and its number among the buffers of that choice.
pub open spec fn locate(choices: Seq<(int, ChoiceState)>, from: int, k: int) -> (int, int)
    decreases choices.len() - from,
{
    if from < 0 || from >= choices.len() {
        (choices.len() as int, k)
    } else if k < choices[from].1.buffers().len() {
        (from, k)
    } else {
        locate(choices, from + 1, k - choices[from].1.buffers().len())
    }
}

impl EngineState {
    /// The buffers that can be rewritten in place: the base window, then
    /// those of each choice.
    pub open spec fn buffers(self) -> Seq<Seq<u8>> {
        seq![self.base] + choice_buffers(self.choices, 0)
    }

    /// The state with buffer `i` of `buffers` replaced by `bytes`.
    pub open spec fn with_buffer(self, i: int, bytes: Seq<u8>) -> EngineState {
        let at = locate(self.choices, 0, i - 1);
        if i == 0 {
            EngineState { base: bytes, ..self }
        } else if 0 <= at.0 < self.choices.len() {
            EngineState {
                choices: self.choices.update(
                    at.0,
                    (self.choices[at.0].0, self.choices[at.0].1.with_buffer(at.1, bytes)),
                ),
                ..self
            }
        } else {
            self
        }
    }
}

/// A buffer of `choice_buffers` lies in a choice, at one of its buffers, and
/// holds what that buffer holds.
pub proof fn lemma_locate(choices: Seq<(int, ChoiceState)>, from: int, k: int)
    requires
        0 <= from <= choices.len(),
        0 <= k < choice_buffers(choices, from).len(),
    ensures
        from <= locate(choices, from, k).0 < choices.len(),
        0 <= locate(choices, from, k).1 < choices[locate(choices, from, k).0].1.buffers().len(),
        choice_buffers(choices, from)[k] == choices[locate(choices, from, k).0].1.buffers()[locate(
            choices,
            from,
            k,
        ).1],
    decreases choices.len() - from,
{
    if from < choices.len() && k >= choices[from].1.buffers().len() {
        lemma_locate(choices, from + 1, k - choices[from].1.buffers().len());
    }
}

/// Rewriting the buffer of one choice changes that buffer among
/// `choice_buffers` and no other.
pub proof fn lemma_choice_buffers_update(
    choices: Seq<(int, ChoiceState)>,
    from: int,
    k: int,
    bytes: Seq<u8>,
)
    requires
        0 <= from <= choices.len(),
        0 <= k < choice_buffers(choices, from).len(),
    ensures
        ({
            let at = locate(choices, from, k);
            choice_buffers(
                choices.update(at.0, (choices[at.0].0, choices[at.0].1.with_buffer(at.1, bytes))),
                from,
            ) == choice_buffers(choices, from).update(k, bytes)
        }),
    decreases choices.len() - from,
{
    let at = locate(choices, from, k);
    lemma_locate(choices, from, k);
    let changed = choices.update(at.0, (choices[at.0].0, choices[at.0].1.with_buffer(at.1, bytes)));
    if k >= choices[from].1.buffers().len() {
        let rest = k - choices[from].1.buffers().len();
        lemma_locate(choices, from + 1, rest);
        lemma_choice_buffers_update(choices, from + 1, rest, bytes);
        assert(changed[from] == choices[from]);
        assert(choice_buffers(changed, from) =~= choice_buffers(choices, from).update(k, bytes));
    } else {
        lemma_choice_buffers_unchanged(choices, changed, from + 1);
        assert(choices[from].1.with_buffer(k, bytes).buffers() =~= choices[from].1.buffers().update(
            k,
            bytes,
        ));
        assert(choice_buffers(changed, from) =~= choice_buffers(choices, from).update(k, bytes));
    }
}

/// The buffers from `from` on are the same where the choices from `from` on are.
proof fn lemma_choice_buffers_unchanged(
    a: Seq<(int, ChoiceState)>,
    b: Seq<(int, ChoiceState)>,
    from: int,
)
    requires
        a.len() == b.len(),
        0 <= from,
        forall|j: int| from <= j < a.len() ==> a[j] == b[j],
    ensures
        choice_buffers(a, from) == choice_buffers(b, from),
    decreases a.len() - from,
{
    if from < a.len() {
        lemma_choice_buffers_unchanged(a, b, from + 1);
    }
}

/// Rewriting a buffer changes that buffer and no other: the buffers of
/// the state with buffer `i` replaced are the buffers with entry `i` replaced.
pub proof fn lemma_with_buffer(state: EngineState, i: int, bytes: Seq<u8>)
    requires
        0 <= i < state.buffers().len(),
    ensures
        state.with_buffer(i, bytes).buffers() == state.buffers().update(i, bytes),
{
    if i == 0 {
        assert(state.with_buffer(i, bytes).buffers() =~= state.buffers().update(i, bytes));
    } else {
        lemma_locate(state.choices, 0, i - 1);
        lemma_choice_buffers_update(state.choices, 0, i - 1, bytes);
        assert(state.with_buffer(i, bytes).buffers() =~= state.buffers().update(i, bytes));
    }
}

/// True if no two buffers stand under the same index.
pub open spec fn distinct(choices: Seq<(int, ChoiceState)>) -> bool {
    forall|i: int, j: int| 0 <= i < j < choices.len() ==> choices[i].0 != choices[j].0
}

/// The first buffer of choice `index` at or after `from` stands under
/// `index`, and no buffer between `from` and it does.
pub proof fn lemma_find_choice(choices: Seq<(int, ChoiceState)>, index: int, from: int)
    requires
        0 <= from <= choices.len(),
    ensures
        from <= find_choice(choices, index, from) <= choices.len(),
        find_choice(choices, index, from) < choices.len() ==> choices[find_choice(
            choices,
            index,
            from,
        )].0 == index,
        forall|j: int| from <= j < find_choice(choices, index, from) ==> choices[j].0 != index,
    decreases choices.len() - from,
{
    if from < choices.len() && choices[from].0 != index {
        lemma_find_choice(choices, index, from + 1);
    }
}

/// Every choice keeps one buffer: an entry of `choices` goes to the buffer
/// of its index, and a new buffer is made only for an index not seen before.
pub proof fn lemma_absorb_choice_distinct(choices: Seq<(int, ChoiceState)>, item: JsonValue)
    requires
        distinct(choices),
    ensures
        distinct(absorb_choice(choices, item)),
{
    let choice = choice_of(item);
    if choice is Some && choice->0.delta is Some {
        lemma_find_choice(choices, choice->0.index, 0);
    }
}

/// True if every buffer is settled: see `ChoiceState::settled`.
pub open spec fn all_settled(choices: Seq<(int, ChoiceState)>) -> bool {
    forall|i: int| 0 <= i < choices.len() ==> (#[trigger] choices[i]).1.settled()
}

/// The bytes held under `flag` for choice `index`; none while the choice
/// has no buffer.
pub open spec fn held_for(choices: Seq<(int, ChoiceState)>, index: int, flag: MsgFlag) -> Seq<u8> {
    let at = find_choice(choices, index, 0);
    if 0 <= at < choices.len() {
        choices[at].1.held_under(flag)
    } else {
        Seq::empty()
    }
}

/// The text of a delta is taken in whole, under its field and for its choice:
/// after an entry of `choices` that carries a delta, the bytes held for the
/// entry's index under the delta's field are those held before followed by
/// the bytes of the delta, and what is held under any other field stays.
pub proof fn lemma_absorb_choice_keeps(
    choices: Seq<(int, ChoiceState)>,
    item: JsonValue,
    under: MsgFlag,
)
    requires
        all_settled(choices),
        choice_of(item) is Some,
        choice_of(item)->0.delta is Some,
    ensures
        all_settled(absorb_choice(choices, item)),
        ({
            let choice = choice_of(item)->0;
            let before = held_for(choices, choice.index, under);
            let flag_msg = choice.delta->0.flag_msg(under);
            held_for(absorb_choice(choices, item), choice.index, under) == (if flag_msg.0 == under
                && flag_msg.1.len() > 0 {
                before + flag_msg.1
            } else {
                before
            })
        }),
{
    let choice = choice_of(item)->0;
    let index = choice.index;
    let at = find_choice(choices, index, 0);
    lemma_find_choice(choices, index, 0);
    let state = if 0 <= at < choices.len() {
        choices[at].1
    } else {
        ChoiceState::empty()
    };
    let flag_msg = choice.delta->0.flag_msg(state.flag);
    let after = absorb_choice(choices, item);
    if at >= choices.len() {
        lemma_bytes_under_push(state.queue, (state.flag, state.window), under);
        assert(bytes_under(state.queue, under, 0) =~= Seq::<u8>::empty());
        assert(state.held_under(under) =~= Seq::<u8>::empty());
    }
    lemma_update_keeps(state, flag_msg.1, flag_msg.0, item, choice.finish_reason, under);
    lemma_find_choice_is(after, index, 0, at);
    let sent = choice.delta->0.flag_msg(under);
    assert(flag_msg.1 == sent.1);
    assert(flag_msg.1.len() > 0 ==> flag_msg.0 == sent.0);
    assert(held_for(choices, index, under) + Seq::<u8>::empty() =~= held_for(
        choices,
        index,
        under,
    ));
    assert(Seq::<u8>::empty() + flag_msg.1 =~= flag_msg.1);
}

/// Taking in entries keeps one buffer for each choice.
pub proof fn lemma_absorb_choices_distinct(
    choices: Seq<(int, ChoiceState)>,
    items: Seq<JsonValue>,
    from: int,
)
    requires
        distinct(choices),
    ensures
        distinct(absorb_choices(choices, items, from)),
    decreases items.len() - from,
{
    if 0 <= from < items.len() {
        lemma_absorb_choice_distinct(choices, items[from]);
        lemma_absorb_choices_distinct(absorb_choice(choices, items[from]), items, from + 1);
    }
}

/// Taking in frames keeps one buffer for each choice.
pub proof fn lemma_frames_in_distinct(state: EngineState, cs: Seq<Cut>)
    requires
        distinct(state.choices),
    ensures
        distinct(state.frames_in(cs).choices),
    decreases cs.len(),
{
    if cs.len() > 0 {
        lemma_frame_in_distinct(state, cs[0].frame);
        lemma_frames_in_distinct(state.frame_in(cs[0].frame), cs.drop_first());
    }
}

/// Taking in a frame keeps one buffer for each choice.
pub proof fn lemma_frame_in_distinct(state: EngineState, frame: Seq<u8>)
    requires
        distinct(state.choices),
    ensures
        distinct(state.frame_in(frame).choices),
{
    let decoded = json_parse(payload(frame));
    if is_event(frame, decoded) {
        match decoded->0.field("choices"@) {
            Some(JsonValue::Array(items)) => {
                lemma_absorb_choices_distinct(state.choices, items, 0);
            },
            _ => {},
        }
    }
}

/// Every state that the engine reaches from the empty one holds one buffer for
/// each choice: no operation makes a second buffer for an index.
pub proof fn lemma_one_buffer_each(
    state: EngineState,
    data: Seq<u8>,
    chars: nat,
    bytes: nat,
    is_openai: bool,
    i: int,
)
    requires
        distinct(state.choices),
    ensures
        distinct(EngineState::empty().choices),
        distinct(state.push(data, is_openai).choices),
        distinct(state.popped(chars, bytes, is_openai).choices),
        distinct(state.finished(is_openai).choices),
        distinct(state.with_buffer(i, data).choices),
{
    if is_openai {
        lemma_frames_in_distinct(
            EngineState { pending: tail(state.pending + data), ..state },
            cuts(state.pending + data),
        );
        if state.pending.len() > 0 {
            lemma_frame_in_distinct(EngineState { pending: Seq::empty(), ..state }, state.pending);
        }
    }
}

/// A frame that is no data line is handed on byte for byte: it joins the
/// base window behind the frames handed on before, and nothing else changes.
pub proof fn lemma_passthrough(state: EngineState, frame: Seq<u8>)
    requires
        !is_data_line(frame),
    ensures
        state.frame_in(frame) == state.pass(frame),
        state.frame_in(frame).base == state.base + frame,
{
}

/// After `finish` in multiplexed mode the output ends with the record that
/// ends a stream, and neither the framer nor any buffer holds anything.
pub proof fn lemma_finish_leaves_nothing(state: EngineState)
    ensures
        done_record().is_suffix_of(state.finish_output(true)),
        state.finished(true).pending.len() == 0,
        state.finished(true).choices.len() == state.flushed().choices.len(),
        forall|i: int|
            0 <= i < state.finished(true).choices.len() ==> (#[trigger] state.finished(
                true,
            ).choices[i]).1.window.len() == 0 && state.finished(true).choices[i].1.queue.len()
                == 0,
{
    let out = state.finish_output(true);
    assert(out.subrange(out.len() - done_record().len(), out.len() as int) =~= done_record());
}

/// The records for two runs of events are those for the first run followed by
/// those for the second, which carry the usage counters only where the first
/// run is empty.
proof fn lemma_records_append(
    skeleton: JsonValue,
    usage: JsonValue,
    a: Seq<JsonValue>,
    b: Seq<JsonValue>,
)
    ensures
        records(skeleton, usage, a + b) == records(skeleton, usage, a) + records(
            skeleton,
            if a.len() > 0 {
                JsonValue::Null
            } else {
                usage
            },
            b,
        ),
{
    assert(records(skeleton, usage, a + b) =~= records(skeleton, usage, a) + records(
        skeleton,
        if a.len() > 0 {
            JsonValue::Null
        } else {
            usage
        },
        b,
    ));
}

/// The view of the buffers of the choices, one by one.
pub open spec fn choices_view(windows: Seq<(i64, MessageWindowOpenAi)>) -> Seq<(int, ChoiceState)> {
    Seq::new(windows.len(), |i: int| (windows[i].0 as int, windows[i].1@))
}

/// The engine: a framer, the base window, one buffer for each choice index
/// in the order of first sight, the last event and the usage counters.
pub struct MsgWindow {
    stream_parser: EventStream,
    base_message_window: MessageWindow,
    message_windows: Vec<(i64, MessageWindowOpenAi)>,
    last_value: Json,
    usage: NumberMerge,
}

impl View for MsgWindow {
    type V = EngineState;

    closed spec fn view(&self) -> EngineState {
        EngineState {
            pending: self.stream_parser@,
            base: self.base_message_window@,
            choices: choices_view(self.message_windows@),
            skeleton: self.last_value@,
            usage: self.usage@,
        }
    }
}

impl Default for MsgWindow {
    fn default() -> (r: Self)
        ensures
            r.wf(),
            r@ == EngineState::empty(),
    {
        let r = MsgWindow {
            stream_parser: EventStream::new(),
            base_message_window: MessageWindow::default(),
            message_windows: Vec::new(),
            last_value: Json::Null,
            usage: NumberMerge::default(),
        };
        assert(r@ =~= EngineState::empty());
        r
    }
}

impl MsgWindow {
    /// The framer is well formed.
    pub closed spec fn wf(&self) -> bool {
        self.stream_parser.wf()
    }

    /// The position of the buffer of choice `index`, or the number of buffers.
    fn choice_position(&self, index: i64) -> (at: usize)
        ensures
            at == find_choice(self@.choices, index as int, 0),
            at <= self.message_windows@.len(),
            at < self.message_windows@.len() ==> self.message_windows@[at as int].0 == index,
    {
        let ghost cv = self@.choices;
        let mut i: usize = 0;
        while i < self.message_windows.len()
            invariant
                i <= self.message_windows@.len(),
                cv == choices_view(self.message_windows@),
                forall|j: int| 0 <= j < i ==> cv[j].0 != index as int,
            decreases self.message_windows@.len() - i,
        {
            if self.message_windows[i].0 == index {
                proof {
                    lemma_find_choice_is(cv, index as int, 0, i as int);
                }
                return i;
            }
            i += 1;
        }
        proof {
            lemma_find_choice_is(cv, index as int, 0, i as int);
        }
        i
    }

    /// Takes in one entry of `choices`: see `absorb_choice`.
    fn update_choice(&mut self, item: &Json)
        requires
            old(self).wf(),
        ensures
            final(self).wf(),
            final(self)@ == (EngineState {
                choices: absorb_choice(old(self)@.choices, item@),
                ..old(self)@
            }),
    {
        let ghost before = self@.choices;
        if let Some(c) = decode_choice(item) {
            if let Some(d) = &c.delta {
                assert(choice_of(item@) == Some(c@));
                assert(c@.delta == Some(d@));
                let at = self.choice_position(c.index);
                if at >= self.message_windows.len() {
                    self.message_windows.push((c.index, MessageWindowOpenAi::default()));
                    assert(choices_view(self.message_windows@) =~= before.push(
                        (c.index as int, ChoiceState::empty()),
                    ));
                }
                let ghost grown = choices_view(self.message_windows@);
                let default_flag = self.message_windows[at].1.flag();
                let (flag, msg) = d.get_flag_msg(&default_flag);
                self.message_windows[at].1.update(msg, flag, item, &c.finish_reason);
                assert(choices_view(self.message_windows@) =~= grown.update(
                    at as int,
                    (c.index as int, self.message_windows@[at as int].1@),
                ));
                assert(choices_view(self.message_windows@) =~= absorb_choice(before, item@));
            }
        }
    }

    /// Takes in the event `event`: see `EngineState::absorb`.
    fn update_value(&mut self, event: Json)
        requires
            old(self).wf(),
        ensures
            final(self).wf(),
            final(self)@ == old(self)@.absorb(event@),
    {
        self.last_value = event;
        if let Some(v) = self.last_value.field("usage") {
            self.usage.add(v);
        }
        let items: Vec<Json> = match self.last_value.field("choices") {
            Some(Json::Array(a)) => {
                proof {
                    lemma_view_array(*a);
                }
                clone_items(a)
            },
            _ => Vec::new(),
        };
        let ghost start = self@.choices;
        let mut i: usize = 0;
        while i < items.len()
            invariant
                i <= items@.len(),
                self.wf(),
                self@ == (EngineState { choices: self@.choices, ..old(self)@.absorb(event@) }),
                absorb_choices(start, items_view(items@), 0) == absorb_choices(
                    self@.choices,
                    items_view(items@),
                    i as int,
                ),
            decreases items@.len() - i,
        {
            self.update_choice(&items[i]);
            i += 1;
        }
    }

    /// Takes in the frame `event`, whose payload was read as `decoded`. An
    /// event is absorbed and the frame that ends a stream is dropped: both
    /// give `None`. Any other frame is given back, to be handed on.
    pub fn absorb_event(&mut self, event: Vec<u8>, decoded: Option<Json>) -> (r: Option<Vec<u8>>)
        requires
            old(self).wf(),
        ensures
            final(self).wf(),
            final(self)@ == (if is_event(event@, view_of(decoded)) {
                old(self)@.absorb(decoded->0@)
            } else {
                old(self)@
            }),
            match r {
                Some(frame) => passes(event@, view_of(decoded)) && frame@ == event@,
                None => !passes(event@, view_of(decoded)),
            },
    {
        if !starts_with(event.as_slice(), "data:".as_bytes()) {
            return Some(event);
        }
        match decoded {
            Some(Json::Object(fields)) => {
                self.update_value(Json::Object(fields));
                None
            },
            _ => {
                if same_bytes(event.as_slice(), "data: [DONE]".as_bytes()) {
                    None
                } else {
                    Some(event)
                }
            },
        }
    }

    /// Takes in the frame `event`: the payload of a data line is read as
    /// JSON, and the frame goes to `absorb_event` with what was read.
    pub fn update_event(&mut self, event: Vec<u8>) -> (r: Option<Vec<u8>>)
        requires
            old(self).wf(),
        ensures
            final(self).wf(),
            final(self)@ == (if is_event(event@, json_parse(payload(event@))) {
                old(self)@.absorb(json_parse(payload(event@))->0)
            } else {
                old(self)@
            }),
            match r {
                Some(frame) => passes(event@, json_parse(payload(event@))) && frame@ == event@,
                None => !passes(event@, json_parse(payload(event@))),
            },
    {
        let marker = "data:".as_bytes();
        let decoded = if starts_with(event.as_slice(), marker) {
            parse(vstd::slice::slice_subrange(event.as_slice(), marker.len(), event.len()))
        } else {
            None
        };
        self.absorb_event(event, decoded)
    }

    /// Hands `data` on as it came.
    fn push_base(&mut self, data: &[u8])
        ensures
            final(self).wf() == old(self).wf(),
            final(self)@ == old(self)@.pass(data@),
    {
        self.base_message_window.update(data);
    }

    /// Feeds `data` to the engine: see `EngineState::push`.
    pub fn push(&mut self, data: &[u8], is_openai: bool)
        requires
            old(self).wf(),
        ensures
            final(self).wf(),
            final(self)@ == old(self)@.push(data@, is_openai),
    {
        if is_openai {
            let ghost fed = self@.pending + data@;
            let ghost goal = old(self)@.push(data@, is_openai);
            let mut chunk: Vec<u8> = Vec::new();
            chunk.extend_from_slice(data);
            assert(chunk@ =~= data@);
            self.stream_parser.update(chunk);
            assert(self@.pending == fed);
            loop
                invariant
                    self.wf(),
                    tail(self@.pending) == tail(fed),
                    (EngineState { pending: tail(fed), ..self@ }).frames_in(cuts(self@.pending))
                        == goal,
                ensures
                    self.wf(),
                    self@ == goal,
                decreases self@.pending.len(),
            {
                let ghost before = self@;
                let next = self.stream_parser.next();
                match next {
                    Some(event) => {
                        proof {
                            lemma_first_cut(before.pending);
                            assert(cuts(before.pending).drop_first() =~= cuts(self@.pending));
                        }
                        if let Some(msg) = self.update_event(event) {
                            self.push_base(msg.as_slice());
                        }
                    },
                    None => {
                        assert(cuts(self@.pending) =~= Seq::<Cut>::empty());
                        assert(self@ =~= (EngineState { pending: tail(fed), ..self@ }));
                        break ;
                    },
                }
            }
        } else {
            self.push_base(data);
        }
    }

    /// The number of buffers that can be rewritten in place: see
    /// `EngineState::buffers`.
    pub fn message_count(&self) -> (r: usize)
        requires
            self@.buffers().len() <= usize::MAX,
        ensures
            r == self@.buffers().len(),
    {
        let ghost choices = self@.choices;
        let mut total: usize = 0;
        let mut i: usize = self.message_windows.len();
        while i > 0
            invariant
                i <= self.message_windows@.len(),
                choices == self@.choices,
                choices.len() == self.message_windows@.len(),
                total == choice_buffers(choices, i as int).len(),
                choice_buffers(choices, 0).len() < usize::MAX,
            decreases i,
        {
            i -= 1;
            proof {
                lemma_choice_buffers_grow(choices, i as int);
            }
            total = total + self.message_windows[i].1.queue_len() + 1;
        }
        total + 1
    }

    /// Buffer `i` of `EngineState::buffers`, for rewriting it in place.
    pub fn message_mut(&mut self, i: usize) -> (r: &mut Vec<u8>)
        requires
            i < old(self)@.buffers().len(),
        ensures
            final(self).wf() == old(self).wf(),
            r@ == old(self)@.buffers()[i as int],
            final(self)@ =~= old(self)@.with_buffer(i as int, final(r)@),
    {
        if i == 0 {
            return self.base_message_window.message_mut();
        }
        let ghost choices = self@.choices;
        let mut k: usize = i - 1;
        let mut c: usize = 0;
        proof {
            lemma_locate(choices, 0, k as int);
        }
        while c < self.message_windows.len() && k > self.message_windows[c].1.queue_len()
            invariant
                *self == *old(self),
                choices == self@.choices,
                choices.len() == self.message_windows@.len(),
                c <= choices.len(),
                0 <= k < choice_buffers(choices, c as int).len(),
                locate(choices, 0, i - 1) == locate(choices, c as int, k as int),
                choice_buffers(choices, 0)[i - 1] == choice_buffers(choices, c as int)[k as int],
            decreases self.message_windows@.len() - c,
        {
            k = k - self.message_windows[c].1.queue_len() - 1;
            c += 1;
        }
        proof {
            lemma_locate(choices, c as int, k as int);
        }
        self.message_windows[c].1.message_mut(k)
    }

    /// Turns the events of one buffer into records, behind those of `out`:
    /// the first record takes the usage counters, which are null from then on.
    fn push_records(&mut self, events: Vec<Json>, out: &mut Vec<Json>)
        ensures
            final(self).wf() == old(self).wf(),
            final(self)@ == old(self)@.usage_sent(events@.len()),
            items_view(final(out)@) == items_view(old(out)@) + records(
                old(self)@.skeleton,
                old(self)@.usage,
                items_view(events@),
            ),
    {
        let mut events = events;
        let ghost all = items_view(events@);
        let ghost head = items_view(out@);
        let ghost recs = records(self@.skeleton, self@.usage, all);
        let mut j: usize = 0;
        while j < events.len()
            invariant
                j <= events@.len(),
                events@.len() == all.len(),
                self.wf() == old(self).wf(),
                self@ == old(self)@.usage_sent(j as nat),
                recs == records(old(self)@.skeleton, old(self)@.usage, all),
                forall|k: int| j <= k < events@.len() ==> events@[k]@ == all[k],
                items_view(out@) == head + recs.subrange(0, j as int),
            decreases events@.len() - j,
        {
            let mut event = Json::Null;
            core::mem::swap(&mut events[j], &mut event);
            let usage = self.usage.finish();
            let mut rec = self.last_value.clone();
            let mut only: Vec<Json> = Vec::new();
            only.push(event);
            proof {
                lemma_view_array(only);
                assert(items_view(only@) =~= seq![all[j as int]]);
            }
            rec.set_field("choices", Json::Array(only));
            rec.set_field("usage", usage);
            assert(rec@ == recs[j as int]);
            let ghost sofar = items_view(out@);
            out.push(rec);
            assert(items_view(out@) =~= sofar.push(rec@));
            assert(recs.subrange(0, j + 1) =~= recs.subrange(0, j as int).push(recs[j as int]));
            j += 1;
        }
        assert(recs.subrange(0, j as int) =~= recs);
    }

    /// The records of a `pop` in multiplexed mode, as trees: see
    /// `EngineState::pop_records`.
    pub fn pop_records(&mut self, char_window_size: usize, byte_window_size: usize) -> (r: Vec<
        Json,
    >)
        requires
            old(self).wf(),
        ensures
            final(self).wf(),
            items_view(r@) == old(self)@.pop_records(
                char_window_size as nat,
                byte_window_size as nat,
            ),
            final(self)@ == old(self)@.popped_records(
                char_window_size as nat,
                byte_window_size as nat,
            ),
    {
        let ghost start = self@;
        let ghost batches = start.pop_batches(char_window_size as nat, byte_window_size as nat);
        let mut ret: Vec<Json> = Vec::new();
        let mut i: usize = 0;
        assert(items_view(ret@) =~= records(start.skeleton, start.usage, join(batches, 0)));
        while i < self.message_windows.len()
            invariant
                i <= self.message_windows@.len(),
                self.wf(),
                start == old(self)@,
                batches == start.pop_batches(char_window_size as nat, byte_window_size as nat),
                self@.choices.len() == start.choices.len(),
                forall|k: int|
                    0 <= k < i ==> self@.choices[k] == (
                        start.choices[k].0,
                        start.choices[k].1.popped(char_window_size as nat, byte_window_size as nat),
                    ),
                forall|k: int| i <= k < start.choices.len() ==> self@.choices[k] == start.choices[k],
                self@ == (EngineState { choices: self@.choices, ..start }).usage_sent(
                    join(batches, i as int).len(),
                ),
                items_view(ret@) == records(start.skeleton, start.usage, join(batches, i as int)),
            decreases self.message_windows@.len() - i,
        {
            let ghost sofar = join(batches, i as int);
            let ghost before = self@.choices;
            assert(before.len() == self.message_windows@.len());
            let events = self.message_windows[i].1.pop(char_window_size, byte_window_size);
            proof {
                assert(self@.choices =~= before.update(
                    i as int,
                    (start.choices[i as int].0, start.choices[i as int].1.popped(char_window_size as nat, byte_window_size as nat)),
                ));
                assert(items_view(events@) == batches[i as int]);
                lemma_records_append(start.skeleton, start.usage, sofar, batches[i as int]);
            }
            self.push_records(events, &mut ret);
            assert(self@.choices.len() == self.message_windows@.len());
            i += 1;
        }
        assert(self@ =~= start.popped_records(char_window_size as nat, byte_window_size as nat));
        ret
    }

    /// The records of `finish` in multiplexed mode, as trees, once the framer
    /// was flushed: see `EngineState::finish_records`.
    pub fn finish_records(&mut self) -> (r: Vec<Json>)
        requires
            old(self).wf(),
        ensures
            final(self).wf(),
            items_view(r@) == old(self)@.finish_records(),
            final(self)@ == old(self)@.finished_records(),
    {
        let ghost start = self@;
        let ghost batches = start.finish_batches();
        let mut ret: Vec<Json> = Vec::new();
        let mut i: usize = 0;
        assert(items_view(ret@) =~= records(start.skeleton, start.usage, join(batches, 0)));
        while i < self.message_windows.len()
            invariant
                i <= self.message_windows@.len(),
                self.wf(),
                start == old(self)@,
                batches == start.finish_batches(),
                self@.choices.len() == start.choices.len(),
                forall|k: int|
                    0 <= k < i ==> self@.choices[k] == (
                        start.choices[k].0,
                        start.choices[k].1.finished(),
                    ),
                forall|k: int| i <= k < start.choices.len() ==> self@.choices[k] == start.choices[k],
                self@ == (EngineState { choices: self@.choices, ..start }).usage_sent(
                    join(batches, i as int).len(),
                ),
                items_view(ret@) == records(start.skeleton, start.usage, join(batches, i as int)),
            decreases self.message_windows@.len() - i,
        {
            let ghost sofar = join(batches, i as int);
            let ghost before = self@.choices;
            assert(before.len() == self.message_windows@.len());
            let events = self.message_windows[i].1.finish();
            proof {
                assert(self@.choices =~= before.update(
                    i as int,
                    (start.choices[i as int].0, start.choices[i as int].1.finished()),
                ));
                assert(items_view(events@) == batches[i as int]);
                lemma_records_append(start.skeleton, start.usage, sofar, batches[i as int]);
            }
            self.push_records(events, &mut ret);
            assert(self@.choices.len() == self.message_windows@.len());
            i += 1;
        }
        assert(self@ =~= start.finished_records());
        ret
    }

    /// Releases what is safe to release: see `EngineState::pop_output`.
    pub fn pop(&mut self, char_window_size: usize, byte_window_size: usize, is_openai: bool) -> (r:
        Vec<u8>)
        requires
            old(self).wf(),
        ensures
            final(self).wf(),
            r@ == old(self)@.pop_output(
                char_window_size as nat,
                byte_window_size as nat,
                is_openai,
            ),
            final(self)@ == old(self)@.popped(
                char_window_size as nat,
                byte_window_size as nat,
                is_openai,
            ),
    {
        if !is_openai {
            return self.base_message_window.pop(char_window_size, byte_window_size);
        }
        let recs = self.pop_records(char_window_size, byte_window_size);
        write_records(&recs)
    }

    /// Releases everything: see `EngineState::finish_output`.
    pub fn finish(&mut self, is_openai: bool) -> (r: Vec<u8>)
        requires
            old(self).wf(),
        ensures
            final(self).wf(),
            r@ == old(self)@.finish_output(is_openai),
            final(self)@ == old(self)@.finished(is_openai),
    {
        if !is_openai {
            return self.base_message_window.finish();
        }
        if let Some(event) = self.stream_parser.flush() {
            if let Some(msg) = self.update_event(event) {
                self.push_base(msg.as_slice());
            }
        }
        assert(self@ =~= old(self)@.flushed());
        let recs = self.finish_records();
        let mut ret = write_records(&recs);
        ret.extend_from_slice("data: [DONE]\n\n".as_bytes());
        ret
    }
}

/// The buffers from `from` on are those of choice `from` and those behind it.
proof fn lemma_choice_buffers_grow(choices: Seq<(int, ChoiceState)>, from: int)
    requires
        0 <= from < choices.len(),
    ensures
        choice_buffers(choices, from).len() == choices[from].1.queue.len() + 1 + choice_buffers(
            choices,
            from + 1,
        ).len(),
        choice_buffers(choices, from).len() <= choice_buffers(choices, 0).len(),
    decreases from,
{
    if from > 0 {
        lemma_choice_buffers_grow(choices, from - 1);
    }
}

/// The first buffer of choice `index` is at `at` if it is there and not before.
proof fn lemma_find_choice_is(choices: Seq<(int, ChoiceState)>, index: int, from: int, at: int)
    requires
        0 <= from <= at <= choices.len(),
        at < choices.len() ==> choices[at].0 == index,
        forall|j: int| from <= j < at ==> choices[j].0 != index,
    ensures
        find_choice(choices, index, from) == at,
    decreases at - from,
{
    if from < at {
        lemma_find_choice_is(choices, index, from + 1, at);
    }
}

/// A copy of `items`.
fn clone_items(items: &Vec<Json>) -> (r: Vec<Json>)
    ensures
        items_view(r@) == items_view(items@),
{
    let mut out: Vec<Json> = Vec::new();
    let mut i: usize = 0;
    while i < items.len()
        invariant
            i <= items@.len(),
            out@.len() == i,
            forall|j: int| 0 <= j < i ==> out@[j]@ == items@[j]@,
        decreases items@.len() - i,
    {
        out.push(items[i].clone());
        i += 1;
    }
    assert(items_view(out@) =~= items_view(items@));
    out
}

/// The bytes of `recs`, one record after the other: see `records_bytes`.
pub fn write_records(recs: &Vec<Json>) -> (r: Vec<u8>)
    ensures
        r@ == records_bytes(items_view(recs@), recs@.len() as int),
{
    let mut ret: Vec<u8> = Vec::new();
    let mut i: usize = 0;
    while i < recs.len()
        invariant
            i <= recs@.len(),
            ret@ == records_bytes(items_view(recs@), i as int),
        decreases recs@.len() - i,
    {
        let text = render(&recs[i]);
        ret.extend_from_slice("data: ".as_bytes());
        ret.extend_from_slice(text.as_str().as_bytes());
        ret.extend_from_slice("\n\n".as_bytes());
        assert(ret@ =~= records_bytes(items_view(recs@), i as int) + record_bytes(
            items_view(recs@)[i as int],
        ));
        i += 1;
    }
    ret
}

} // verus!
