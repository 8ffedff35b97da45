//! What the model answers, and what is read in it.
use vstd::prelude::*;
use crate::endpoint::text_result;
use crate::json::{
    json_from_str, json_get, json_read, json_to_string, json_tree, json_written, member, JsonTree,
};
use crate::text::{blank, is_blank, same_text, trim, trimmed};

verus! {

/// A prompt as the model would have it.
#[derive(Clone, Debug, PartialEq, Eq)]
pub struct PromptEnhancement {
    pub likely_understanding: String,
    pub enhanced_prompt: String,
    pub changed: bool,
}

/// The model of a [`PromptEnhancement`].
#[verifier::ext_equal]
pub struct Enhancement {
    pub likely_understanding: Seq<char>,
    pub enhanced_prompt: Seq<char>,
    pub changed: bool,
}

impl View for PromptEnhancement {
    type V = Enhancement;

    open spec fn view(&self) -> Enhancement {
        Enhancement {
            likely_understanding: self.likely_understanding@,
            enhanced_prompt: self.enhanced_prompt@,
            changed: self.changed,
        }
    }
}

/// The model of a result with an enhancement.
pub open spec fn enhancement_result(result: Result<PromptEnhancement, String>) -> Result<
    Enhancement,
    Seq<char>,
> {
    match result {
        Ok(enhancement) => Ok(enhancement@),
        Err(message) => Err(message@),
    }
}

// ---------------------------------------------------------------------------
// The stream of an answer
// ---------------------------------------------------------------------------

/// A part of a message.
#[derive(Clone, Debug, PartialEq, Eq)]
pub enum ContentItem {
    InputText { text: String },
    InputImage,
    OutputText { text: String },
}

/// An item of an answer.
#[derive(Clone, Debug, PartialEq, Eq)]
pub enum ResponseItem {
    Message { content: Vec<ContentItem> },
    Other,
}

/// An event in the stream of an answer.
#[derive(Clone, Debug, PartialEq, Eq)]
pub enum ResponseEvent {
    OutputItemDone { item: ResponseItem },
    OutputTextDelta { delta: String },
    Completed,
    Other,
}

/// The text of a part; an image has none.
pub open spec fn content_text(item: ContentItem) -> Seq<char> {
    match item {
        ContentItem::InputText { text } => text@,
        ContentItem::OutputText { text } => text@,
        ContentItem::InputImage => Seq::empty(),
    }
}

/// The texts of the parts, one after another.
pub open spec fn contents_text(content: Seq<ContentItem>) -> Seq<char>
    decreases content.len(),
{
    if content.len() == 0 {
        Seq::empty()
    } else {
        contents_text(content.drop_last()) + content_text(content.last())
    }
}

/// The text of an item; only a message has one.
pub open spec fn item_text(item: ResponseItem) -> Seq<char> {
    match item {
        ResponseItem::Message { content } => contents_text(content@),
        ResponseItem::Other => Seq::empty(),
    }
}

/// The text of an item; only a message has one.
pub fn response_item_text(item: &ResponseItem) -> (r: String)
    ensures
        r@ == item_text(*item),
{
    let mut out = String::new();
    if let ResponseItem::Message { content } = item {
        let mut i: usize = 0;
        proof {
            assert(content@.take(0) =~= Seq::<ContentItem>::empty());
        }
        while i < content.len()
            invariant
                i <= content@.len(),
                out@ == contents_text(content@.take(i as int)),
            decreases content@.len() - i,
        {
            proof {
                assert(content@.take(i + 1).drop_last() =~= content@.take(i as int));
            }
            let ghost before = out@;
            match &content[i] {
                ContentItem::InputText { text } => out.append(text.as_str()),
                ContentItem::OutputText { text } => out.append(text.as_str()),
                ContentItem::InputImage => {
                    proof {
                        assert(before + Seq::<char>::empty() =~= before);
                    }
                },
            }
            i += 1;
        }
        proof {
            assert(content@.take(content@.len() as int) =~= content@);
        }
    }
    out
}

/// The number of events before the first that completes the answer, or of all events.
pub open spec fn events_before_completion(events: Seq<ResponseEvent>) -> int
    decreases events.len(),
{
    if events.len() == 0 || events[0] is Completed {
        0
    } else {
        1 + events_before_completion(events.drop_first())
    }
}

/// Whether an event completes the answer.
pub open spec fn is_completed(events: Seq<ResponseEvent>) -> bool {
    events_before_completion(events) < events.len()
}

/// The texts of the finished items.
pub open spec fn message_text(events: Seq<ResponseEvent>) -> Seq<char>
    decreases events.len(),
{
    if events.len() == 0 {
        Seq::empty()
    } else {
        match events.last() {
            ResponseEvent::OutputItemDone { item } => message_text(events.drop_last())
                + item_text(item),
            _ => message_text(events.drop_last()),
        }
    }
}

/// The texts that came piece by piece.
pub open spec fn delta_text(events: Seq<ResponseEvent>) -> Seq<char>
    decreases events.len(),
{
    if events.len() == 0 {
        Seq::empty()
    } else {
        match events.last() {
            ResponseEvent::OutputTextDelta { delta } => delta_text(events.drop_last()) + delta@,
            _ => delta_text(events.drop_last()),
        }
    }
}

/// What a completed answer says: the texts of its finished items, or where they are blank the
/// texts that came piece by piece.
pub open spec fn raw_output(events: Seq<ResponseEvent>) -> Seq<char> {
    let read = events.take(events_before_completion(events));
    if is_blank(message_text(read)) {
        trimmed(delta_text(read))
    } else {
        trimmed(message_text(read))
    }
}

/// What an answer says, or the given message where it is not completed or says nothing.
pub open spec fn stream_output(
    events: Seq<ResponseEvent>,
    incomplete: Seq<char>,
    empty: Seq<char>,
) -> Result<Seq<char>, Seq<char>> {
    if !is_completed(events) {
        Err(incomplete)
    } else if raw_output(events).len() == 0 {
        Err(empty)
    } else {
        Ok(raw_output(events))
    }
}

proof fn lemma_completion(events: Seq<ResponseEvent>, k: int)
    requires
        0 <= k <= events.len(),
        forall|i: int| 0 <= i < k ==> !((#[trigger] events[i]) is Completed),
        k < events.len() ==> events[k] is Completed,
    ensures
        events_before_completion(events) == k,
    decreases events.len(),
{
    if k > 0 {
        let rest = events.drop_first();
        assert(!(events[0] is Completed));
        assert forall|i: int| 0 <= i < k - 1 implies !((#[trigger] rest[i]) is Completed) by {
            assert(rest[i] == events[i + 1]);
        }
        if k < events.len() {
            assert(rest[k - 1] == events[k]);
        }
        lemma_completion(rest, k - 1);
    }
}

fn read_stream(events: &Vec<ResponseEvent>, incomplete: &str, empty: &str) -> (r: Result<
    String,
    String,
>)
    ensures
        text_result(r) == stream_output(events@, incomplete@, empty@),
{
    let mut completed = false;
    let mut message = String::new();
    let mut delta = String::new();
    let mut i: usize = 0;
    proof {
        assert(events@.take(0) =~= Seq::<ResponseEvent>::empty());
    }
    while i < events.len() && !completed
        invariant
            i <= events@.len(),
            message@ == message_text(events@.take(i as int)),
            delta@ == delta_text(events@.take(i as int)),
            forall|k: int| 0 <= k < i ==> !((#[trigger] events@[k]) is Completed),
            completed ==> i < events@.len() && events@[i as int] is Completed,
        decreases events@.len() - i + (if completed {
            0int
        } else {
            1int
        }),
    {
        proof {
            assert(events@.take(i + 1).drop_last() =~= events@.take(i as int));
            assert(events@.take(i + 1).last() == events@[i as int]);
        }
        match &events[i] {
            ResponseEvent::OutputItemDone { item } => {
                message.append(response_item_text(item).as_str());
                i += 1;
            },
            ResponseEvent::OutputTextDelta { delta: piece } => {
                delta.append(piece.as_str());
                i += 1;
            },
            ResponseEvent::Completed => {
                completed = true;
            },
            ResponseEvent::Other => {
                i += 1;
            },
        }
    }
    proof {
        lemma_completion(events@, i as int);
    }
    if !completed {
        return Err(incomplete.to_owned());
    }
    let raw = if blank(message.as_str()) {
        trim(delta.as_str())
    } else {
        trim(message.as_str())
    };
    if raw.is_empty() {
        return Err(empty.to_owned());
    }
    Ok(raw.to_owned())
}

// ---------------------------------------------------------------------------
// Answers that are handed on as they are
// ---------------------------------------------------------------------------

/// The likely understanding in a JSON value, or a stand-in.
pub open spec fn understanding_in(tree: JsonTree) -> Seq<char> {
    match member(tree, "likely_understanding"@) {
        Some(JsonTree::Text(text)) => if is_blank(text) {
            "PromptPilot ACE is selecting context."@
        } else {
            trimmed(text)
        },
        _ => "PromptPilot ACE is selecting context."@,
    }
}

/// The enhancement that carries a JSON value.
pub open spec fn carried(tree: JsonTree) -> Enhancement {
    Enhancement {
        likely_understanding: understanding_in(tree),
        enhanced_prompt: json_written(tree),
        changed: true,
    }
}

/// The enhancement that carries the JSON value in a text.
pub open spec fn raw_json(raw_output: Seq<char>) -> Result<Enhancement, Seq<char>> {
    match json_read(raw_output) {
        Ok(tree) => Ok(carried(tree)),
        Err(message) => Err(
            "PromptPilot ACE agent response was not valid JSON: "@ + message,
        ),
    }
}

fn with_heading(heading: &str, message: &str) -> (r: String)
    ensures
        r@ == heading@ + message@,
{
    let mut out = heading.to_owned();
    out.append(message);
    out
}

/// The likely understanding in a JSON value, or a stand-in.
pub fn likely_understanding_in(value: &serde_json::Value) -> (r: String)
    ensures
        r@ == understanding_in(json_tree(*value)),
{
    if let Some(found) = json_get(value, "likely_understanding") {
        if let Some(text) = found.as_str() {
            if !blank(text) {
                return trim(text).to_owned();
            }
        }
    }
    "PromptPilot ACE is selecting context.".to_owned()
}

/// The enhancement that carries the JSON value in a text.
pub fn parse_raw_json(raw_output: &str) -> (r: Result<PromptEnhancement, String>)
    ensures
        enhancement_result(r) == raw_json(raw_output@),
{
    let value = match json_from_str(raw_output) {
        Ok(value) => value,
        Err(message) => {
            return Err(
                with_heading(
                    "PromptPilot ACE agent response was not valid JSON: ",
                    message.as_str(),
                ),
            );
        },
    };
    let likely_understanding = likely_understanding_in(&value);
    match json_to_string(&value) {
        Ok(enhanced_prompt) => Ok(
            PromptEnhancement { likely_understanding, enhanced_prompt, changed: true },
        ),
        Err(message) => Err(
            with_heading(
                "PromptPilot ACE agent response could not be serialized: ",
                message.as_str(),
            ),
        ),
    }
}

/// The enhancement that carries the JSON value that an answer says.
pub open spec fn raw_json_output(events: Seq<ResponseEvent>) -> Result<Enhancement, Seq<char>> {
    match stream_output(
        events,
        "PromptPilot ACE agent stream closed before response.completed"@,
        "PromptPilot ACE agent response was empty"@,
    ) {
        Ok(text) => raw_json(text),
        Err(message) => Err(message),
    }
}

/// The enhancement that carries the JSON value that an answer says.
pub fn parse_raw_json_output(events: &Vec<ResponseEvent>) -> (r: Result<
    PromptEnhancement,
    String,
>)
    ensures
        enhancement_result(r) == raw_json_output(events@),
{
    match read_stream(
        events,
        "PromptPilot ACE agent stream closed before response.completed",
        "PromptPilot ACE agent response was empty",
    ) {
        Ok(text) => parse_raw_json(text.as_str()),
        Err(message) => Err(message),
    }
}

// ---------------------------------------------------------------------------
// Answers with an enhancement
// ---------------------------------------------------------------------------

/// An enhancement as the model wrote it.
#[derive(Clone, Debug, PartialEq, Eq)]
pub struct ModelPromptEnhancement {
    pub likely_understanding: String,
    pub enhanced_prompt: String,
    pub changed: bool,
}

/// The enhancement that the model wrote, without white space around its texts. It counts as
/// changed where the model says so and the prompt is another than the original one.
pub open spec fn model_enhancement(parsed: ModelPromptEnhancement, prompt: Seq<char>) -> Result<
    Enhancement,
    Seq<char>,
> {
    if is_blank(parsed.likely_understanding@) || is_blank(parsed.enhanced_prompt@) {
        Err("prompt enhancement response must include non-empty fields"@)
    } else {
        Ok(
            Enhancement {
                likely_understanding: trimmed(parsed.likely_understanding@),
                enhanced_prompt: trimmed(parsed.enhanced_prompt@),
                changed: parsed.changed && trimmed(parsed.enhanced_prompt@) != prompt,
            },
        )
    }
}

/// The enhancement in what was read of an answer, or what is wrong with it.
pub open spec fn enhancement_json(
    parsed: Result<ModelPromptEnhancement, Seq<char>>,
    prompt: Seq<char>,
) -> Result<Enhancement, Seq<char>> {
    match parsed {
        Ok(parsed) => model_enhancement(parsed, prompt),
        Err(message) => Err(
            "prompt enhancement response was not valid JSON: "@ + message,
        ),
    }
}

/// The model of what was read of an answer.
pub open spec fn parsed_view(parsed: Result<ModelPromptEnhancement, String>) -> Result<
    ModelPromptEnhancement,
    Seq<char>,
> {
    match parsed {
        Ok(parsed) => Ok(parsed),
        Err(message) => Err(message@),
    }
}

/// The enhancement in what was read of an answer; `parsed` is what the answer says, or the text of
/// the error in reading it.
pub fn parse_prompt_enhancement_json(
    parsed: Result<ModelPromptEnhancement, String>,
    original_prompt: &str,
) -> (r: Result<PromptEnhancement, String>)
    ensures
        enhancement_result(r) == enhancement_json(parsed_view(parsed), original_prompt@),
{
    let parsed = match parsed {
        Ok(parsed) => parsed,
        Err(message) => {
            return Err(
                with_heading(
                    "prompt enhancement response was not valid JSON: ",
                    message.as_str(),
                ),
            );
        },
    };
    if blank(parsed.likely_understanding.as_str()) || blank(parsed.enhanced_prompt.as_str()) {
        return Err("prompt enhancement response must include non-empty fields".to_owned());
    }
    let enhanced_prompt = trim(parsed.enhanced_prompt.as_str()).to_owned();
    Ok(
        PromptEnhancement {
            likely_understanding: trim(parsed.likely_understanding.as_str()).to_owned(),
            changed: parsed.changed && !same_text(enhanced_prompt.as_str(), original_prompt),
            enhanced_prompt,
        },
    )
}

/// What an answer with an enhancement says.
pub open spec fn enhancement_output(events: Seq<ResponseEvent>) -> Result<Seq<char>, Seq<char>> {
    stream_output(
        events,
        "prompt enhancement stream closed before response.completed"@,
        "prompt enhancement response was empty"@,
    )
}

/// What an answer with an enhancement says: the JSON to be read by
/// [`parse_prompt_enhancement_json`].
pub fn parse_prompt_enhancement_output(events: &Vec<ResponseEvent>) -> (r: Result<String, String>)
    ensures
        text_result(r) == enhancement_output(events@),
{
    read_stream(
        events,
        "prompt enhancement stream closed before response.completed",
        "prompt enhancement response was empty",
    )
}

/// An enhancement never has blank texts, and one that counts as changed has another prompt than
/// the original one.
pub proof fn law_enhancement(parsed: Result<ModelPromptEnhancement, Seq<char>>, prompt: Seq<char>)
    ensures
        enhancement_json(parsed, prompt) matches Ok(out) ==> {
            &&& !is_blank(out.likely_understanding)
            &&& !is_blank(out.enhanced_prompt)
            &&& out.changed ==> out.enhanced_prompt != prompt
        },
{
    if let Ok(parsed) = parsed {
        crate::text::lemma_trimmed_idempotent(parsed.likely_understanding@);
        crate::text::lemma_trimmed_idempotent(parsed.enhanced_prompt@);
    }
}

proof fn lemma_completion_taken(events: Seq<ResponseEvent>, more: Seq<ResponseEvent>)
    requires
        is_completed(events),
    ensures
        events_before_completion(events + more) == events_before_completion(events),
        0 <= events_before_completion(events),
    decreases events.len(),
{
    if events.len() > 0 && !(events[0] is Completed) {
        assert((events + more).drop_first() =~= events.drop_first() + more);
        lemma_completion_taken(events.drop_first(), more);
    }
}

/// Nothing that comes after the completion of an answer is read.
pub proof fn law_completion_ends_the_answer(
    events: Seq<ResponseEvent>,
    more: Seq<ResponseEvent>,
)
    requires
        is_completed(events),
    ensures
        is_completed(events + more),
        raw_output(events + more) == raw_output(events),
{
    let k = events_before_completion(events);
    lemma_completion_taken(events, more);
    assert((events + more).take(k) =~= events.take(k));
}

// ---------------------------------------------------------------------------
// Laws of answers
// ---------------------------------------------------------------------------

/// What comes in pieces is put together in order: the text of two streams one after another is the
/// text of the one and then that of the other, for finished items, for pieces, and for the parts of
/// a message.
pub proof fn law_texts_add_up(
    a: Seq<ResponseEvent>,
    b: Seq<ResponseEvent>,
    c: Seq<ContentItem>,
    d: Seq<ContentItem>,
)
    ensures
        message_text(a + b) == message_text(a) + message_text(b),
        delta_text(a + b) == delta_text(a) + delta_text(b),
        contents_text(c + d) == contents_text(c) + contents_text(d),
    decreases b.len() + d.len(),
{
    if b.len() > 0 {
        let init = b.drop_last();
        assert((a + b).drop_last() =~= a + init);
        assert((a + b).last() == b.last());
        law_texts_add_up(a, init, c, Seq::empty());
        match b.last() {
            ResponseEvent::OutputItemDone { item } => {
                assert(message_text(a) + message_text(init) + item_text(item) =~= message_text(a)
                    + (message_text(init) + item_text(item)));
            },
            ResponseEvent::OutputTextDelta { delta } => {
                assert(delta_text(a) + delta_text(init) + delta@ =~= delta_text(a) + (delta_text(
                    init,
                ) + delta@));
            },
            _ => {},
        }
    } else {
        assert(a + b =~= a);
        assert(message_text(a) + message_text(b) =~= message_text(a));
        assert(delta_text(a) + delta_text(b) =~= delta_text(a));
    }
    if d.len() > 0 {
        let init = d.drop_last();
        assert((c + d).drop_last() =~= c + init);
        assert((c + d).last() == d.last());
        law_texts_add_up(Seq::empty(), Seq::empty(), c, init);
        assert(contents_text(c) + contents_text(init) + content_text(d.last()) =~= contents_text(c)
            + (contents_text(init) + content_text(d.last())));
    } else {
        assert(c + d =~= c);
        assert(contents_text(c) + contents_text(d) =~= contents_text(c));
    }
}

/// What one event adds: a finished message its texts, a piece itself, and everything else nothing.
pub proof fn law_one_event(content: Vec<ContentItem>, delta: String, text: String)
    ensures
        message_text(
            seq![ResponseEvent::OutputItemDone { item: ResponseItem::Message { content } }],
        ) == contents_text(content@),
        message_text(
            seq![ResponseEvent::OutputItemDone { item: ResponseItem::Other }],
        ).len() == 0,
        message_text(seq![ResponseEvent::OutputTextDelta { delta }]).len() == 0,
        message_text(seq![ResponseEvent::Other]).len() == 0,
        delta_text(seq![ResponseEvent::OutputTextDelta { delta }]) == delta@,
        delta_text(
            seq![ResponseEvent::OutputItemDone { item: ResponseItem::Message { content } }],
        ).len() == 0,
        delta_text(seq![ResponseEvent::Other]).len() == 0,
        contents_text(seq![ContentItem::OutputText { text }]) == text@,
        contents_text(seq![ContentItem::InputText { text }]) == text@,
        contents_text(seq![ContentItem::InputImage]).len() == 0,
{
    let none = Seq::<ResponseEvent>::empty();
    let nothing = Seq::<ContentItem>::empty();
    let a = ResponseEvent::OutputItemDone { item: ResponseItem::Message { content } };
    let b = ResponseEvent::OutputItemDone { item: ResponseItem::Other };
    let c = ResponseEvent::OutputTextDelta { delta };
    assert(seq![a].drop_last() =~= none && seq![b].drop_last() =~= none && seq![c].drop_last()
        =~= none && seq![ResponseEvent::Other].drop_last() =~= none);
    assert(message_text(none) + contents_text(content@) =~= contents_text(content@));
    assert(message_text(none) + Seq::<char>::empty() =~= Seq::<char>::empty());
    assert(delta_text(none) + delta@ =~= delta@);
    let d = ContentItem::OutputText { text };
    let e = ContentItem::InputText { text };
    assert(seq![d].drop_last() =~= nothing && seq![e].drop_last() =~= nothing && seq![
        ContentItem::InputImage,
    ].drop_last() =~= nothing);
    assert(contents_text(nothing) + text@ =~= text@);
}

/// What a stream says. Without a completion it is incomplete. Up to the first completion the finished
/// messages count, without white space around them; where they are blank the pieces count, and where
/// these are blank too the answer is empty. What follows the completion does not count.
pub proof fn law_stream_output(
    read: Seq<ResponseEvent>,
    rest: Seq<ResponseEvent>,
    incomplete: Seq<char>,
    empty: Seq<char>,
)
    requires
        forall|i: int| 0 <= i < read.len() ==> !((#[trigger] read[i]) is Completed),
    ensures
        stream_output(read, incomplete, empty) == Err::<Seq<char>, Seq<char>>(incomplete),
        stream_output(read + seq![ResponseEvent::Completed] + rest, incomplete, empty) == (
        if !is_blank(message_text(read)) {
            Ok::<Seq<char>, Seq<char>>(trimmed(message_text(read)))
        } else if !is_blank(delta_text(read)) {
            Ok(trimmed(delta_text(read)))
        } else {
            Err(empty)
        }),
{
    let all = read + seq![ResponseEvent::Completed] + rest;
    lemma_completion(read, read.len() as int);
    assert forall|i: int| 0 <= i < read.len() implies !((#[trigger] all[i]) is Completed) by {
        assert(all[i] == read[i]);
    }
    assert(all[read.len() as int] is Completed);
    lemma_completion(all, read.len() as int);
    assert(all.take(read.len() as int) =~= read);
}

/// An enhancement is taken exactly where both of its texts say something, without white space around
/// them. It counts as changed exactly where the model says so and the prompt that is left is another
/// than the original one.
pub proof fn law_enhancement_is_taken(parsed: ModelPromptEnhancement, prompt: Seq<char>)
    ensures
        ({
            let out = enhancement_json(Ok(parsed), prompt);
            let says = !is_blank(parsed.likely_understanding@) && !is_blank(
                parsed.enhanced_prompt@,
            );
            &&& says ==> (out matches Ok(e) && e.likely_understanding == trimmed(
                parsed.likely_understanding@,
            ) && e.enhanced_prompt == trimmed(parsed.enhanced_prompt@) && (e.changed <==> (
            parsed.changed && trimmed(parsed.enhanced_prompt@) != prompt)))
            &&& !says ==> out == Err::<Enhancement, Seq<char>>(
                "prompt enhancement response must include non-empty fields"@,
            )
        }),
        forall|message: Seq<char>| #[trigger]
            enhancement_json(Err(message), prompt) == Err::<Enhancement, Seq<char>>(
                "prompt enhancement response was not valid JSON: "@ + message,
            ),
{
}

/// What is handed on as it is: the JSON value itself is the prompt, always as a change, with the
/// understanding that it holds where that is a text that is not blank.
pub proof fn law_raw_json(text: Seq<char>, tree: JsonTree, message: Seq<char>)
    ensures
        json_read(text) == Ok::<JsonTree, Seq<char>>(tree) ==> (raw_json(text) matches Ok(e)
            && e.enhanced_prompt == json_written(tree) && e.changed && e.likely_understanding == (
        match member(tree, "likely_understanding"@) {
            Some(JsonTree::Text(said)) => if is_blank(said) {
                "PromptPilot ACE is selecting context."@
            } else {
                trimmed(said)
            },
            _ => "PromptPilot ACE is selecting context."@,
        })),
        json_read(text) == Err::<JsonTree, Seq<char>>(message) ==> raw_json(text) == Err::<
            Enhancement,
            Seq<char>,
        >("PromptPilot ACE agent response was not valid JSON: "@ + message),
{
}

/// A stream that ends early or says nothing is told of, and what a finished one says is taken: as
/// it is for an enhancement, and as a document for a step of the agent.
pub proof fn law_finished_streams(read: Seq<ResponseEvent>, rest: Seq<ResponseEvent>)
    requires
        forall|i: int| 0 <= i < read.len() ==> !((#[trigger] read[i]) is Completed),
    ensures
        ({
            let all = read + seq![ResponseEvent::Completed] + rest;
            let said = if is_blank(message_text(read)) {
                trimmed(delta_text(read))
            } else {
                trimmed(message_text(read))
            };
            &&& enhancement_output(read) == Err::<Seq<char>, Seq<char>>(
                "prompt enhancement stream closed before response.completed"@,
            )
            &&& raw_json_output(read) == Err::<Enhancement, Seq<char>>(
                "PromptPilot ACE agent stream closed before response.completed"@,
            )
            &&& said.len() == 0 ==> enhancement_output(all) == Err::<Seq<char>, Seq<char>>(
                "prompt enhancement response was empty"@,
            ) && raw_json_output(all) == Err::<Enhancement, Seq<char>>(
                "PromptPilot ACE agent response was empty"@,
            )
            &&& said.len() > 0 ==> enhancement_output(all) == Ok::<Seq<char>, Seq<char>>(said)
                && raw_json_output(all) == raw_json(said)
        }),
{
    law_stream_output(
        read,
        rest,
        "prompt enhancement stream closed before response.completed"@,
        "prompt enhancement response was empty"@,
    );
    law_stream_output(
        read,
        rest,
        "PromptPilot ACE agent stream closed before response.completed"@,
        "PromptPilot ACE agent response was empty"@,
    );
}

} // verus!
