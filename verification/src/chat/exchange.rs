//! Exchanges with the model: what it is shown, and what is kept of its
//! answers.

use vstd::prelude::*;
use crate::chat::rows::copy_option;
use crate::chat::rows::{ChatContextMessage, ContextModel, ConversationModel, ConversationRow};
use crate::chat::rows::{MessageModel, MessageRow};
use crate::chat::snippets;
use crate::chat::snippets::message_name;
use crate::chat::store;
use crate::chat::store::{ChatStore, StoreModel};
use crate::error;
use crate::error::StorageError;
use crate::order;
use crate::rows::{add_rows, copy_rows, keep_rows, select_rows, Copied};
use crate::text;
use crate::text::{empty, is_text, trimmed_string};

verus! {

// ---------------------------------------------------------------------
// Which conversation a request belongs to
// ---------------------------------------------------------------------

/// Whether a message carries a response.
pub open spec fn has_response(id: Seq<char>) -> spec_fn(MessageModel) -> bool {
    |m: MessageModel| m.response_id == id
}

/// The conversation of the latest message with a response. Messages without
/// one are not found.
pub open spec fn conversation_of_response(store: StoreModel, response: Seq<char>) -> Option<
    Seq<char>,
> {
    if response.len() == 0 {
        None
    } else {
        match store::last_of(
            order::sorted(store.messages.filter(has_response(response)), store::by_id()),
        ) {
            Some(m) => Some(m.conversation_id),
            None => None,
        }
    }
}

/// A text without white space around it, unless nothing is left.
pub open spec fn given(s: Option<Seq<char>>) -> Option<Seq<char>> {
    match s {
        Some(t) => if text::trimmed(t).len() > 0 {
            Some(text::trimmed(t))
        } else {
            None
        },
        None => None,
    }
}

/// The conversation that a request belongs to: the one it names, or else
/// the one of the response it follows, or else the one whose own identifier
/// it gives as a response, or else a new one.
pub open spec fn resolved(
    store: StoreModel,
    conversation_id: Option<Seq<char>>,
    previous_response_id: Option<Seq<char>>,
    new_id: Seq<char>,
) -> Seq<char> {
    match given(conversation_id) {
        Some(id) => id,
        None => match given(previous_response_id) {
            Some(response) => match conversation_of_response(store, response) {
                Some(id) => id,
                None => if store::conversation(store, response) is Some {
                    response
                } else {
                    new_id
                },
            },
            None => new_id,
        },
    }
}

fn give(s: &Option<String>) -> (r: Option<String>)
    ensures
        r.deep_view() == given(s.deep_view()),
{
    match s {
        Some(t) => {
            let chars = text::chars_of(t.as_str());
            let trimmed = text::trim(chars.as_slice());
            if trimmed.len() > 0 {
                Some(text::string_of(trimmed))
            } else {
                None
            }
        },
        None => None,
    }
}

impl ChatStore {
    /// Finds the conversation of the latest message with a response.
    pub fn find_conversation_id_by_response_id(&self, response_id: &str) -> (r: Option<String>)
        ensures
            r.deep_view() == conversation_of_response(self.deep_view(), response_id@),
    {
        if text::chars_of(response_id).len() == 0 {
            return None;
        }
        let test = |m: &MessageRow| -> (b: bool)
            ensures
                b == has_response(response_id@)(m.deep_view()),
            { is_text(&m.response_id, response_id) };
        let found = store::sort_messages(
            keep_rows(&self.messages, test, Ghost(has_response(response_id@))),
        );
        proof {
            assert(found.deep_view().len() == found@.len());
        }
        if found.len() == 0 {
            return None;
        }
        let n: usize = found.len() - 1;
        proof {
            assert(found.deep_view()[n as int] == found@[n as int].deep_view());
        }
        Some(found[n].conversation_id.clone())
    }

    /// Tells which conversation a request belongs to. `new_id` is the
    /// identifier that a new conversation gets.
    pub fn resolve_conversation_id(
        &self,
        conversation_id: &Option<String>,
        previous_response_id: &Option<String>,
        new_id: &str,
    ) -> (r: String)
        ensures
            r@ == resolved(
                self.deep_view(),
                conversation_id.deep_view(),
                previous_response_id.deep_view(),
                new_id@,
            ),
    {
        match give(conversation_id) {
            Some(id) => {
                return id;
            },
            None => {},
        }
        match give(previous_response_id) {
            Some(response) => {
                match self.find_conversation_id_by_response_id(response.as_str()) {
                    Some(id) => {
                        return id;
                    },
                    None => {},
                }
                if self.conversation_exists(response.as_str()) {
                    return response;
                }
            },
            None => {},
        }
        new_id.to_string()
    }
}

// ---------------------------------------------------------------------
// What the model is shown
// ---------------------------------------------------------------------

/// Whether the context was compacted at a message.
pub open spec fn is_boundary() -> spec_fn(MessageModel) -> bool {
    |m: MessageModel| m.status == "context_compaction"@
}

/// The identifier of the latest message at which the context was compacted,
/// or the empty text.
pub open spec fn boundary(messages: Seq<MessageModel>) -> Seq<char> {
    match store::last_of(messages.filter(is_boundary())) {
        Some(m) => m.id,
        None => Seq::empty(),
    }
}

/// Whether a message has anything to show: content or, from the assistant,
/// calls of tools or thoughts.
pub open spec fn has_substance(m: MessageModel) -> bool {
    m.content.len() > 0 || (m.role == "assistant"@ && m.tool_calls_json.len() > 0
        && m.tool_calls_json != "[]"@) || (m.role == "assistant"@ && m.thinking.len() > 0)
}

/// Whether a message is an answer that failed.
pub open spec fn is_failed_answer(m: MessageModel) -> bool {
    m.role == "assistant"@ && m.status == "error"@
}

/// A text, unless it is empty or the given one.
pub open spec fn unless(s: Seq<char>, empty_form: Seq<char>) -> Option<Seq<char>> {
    if s.len() == 0 || s == empty_form {
        None
    } else {
        Some(s)
    }
}

/// A message as the model sees it.
pub open spec fn shown(m: MessageModel) -> ContextModel {
    ContextModel {
        role: m.role,
        content: m.content,
        tool_calls_json: unless(m.tool_calls_json, "[]"@),
        tool_results_json: if text::trimmed(m.role) == "tool"@ {
            unless(m.raw_json, "{}"@)
        } else {
            None
        },
        thinking: unless(m.thinking, Seq::empty()),
        thinking_blocks_json: if text::trimmed(m.role) == "assistant"@ {
            unless(m.thinking_blocks_json, "[]"@)
        } else {
            None
        },
    }
}

/// What the model sees of a message, given where the context begins.
pub open spec fn shown_from(start: Seq<char>) -> spec_fn(MessageModel) -> Option<ContextModel> {
    |m: MessageModel|
        if !order::before(m.id, start) && has_substance(m) && !is_failed_answer(m) {
            Some(shown(m))
        } else {
            None
        }
}

/// The context of a conversation: its messages from the latest compaction
/// on, in order, without empty ones and without failed answers. The request
/// of a failed answer stays.
pub open spec fn context_of(store: StoreModel, id: Seq<char>) -> Seq<ContextModel> {
    let messages = store::messages_of(store, id);
    messages.filter_map(shown_from(boundary(messages)))
}

fn text_unless(s: &String, empty_form: &str) -> (r: Option<String>)
    ensures
        r.deep_view() == unless(s@, empty_form@),
{
    if s.as_str().unicode_len() == 0 || is_text(s, empty_form) {
        None
    } else {
        Some(s.clone())
    }
}

fn trims_to(s: &String, what: &str) -> (r: bool)
    ensures
        r == (text::trimmed(s@) == what@),
{
    let chars = text::chars_of(s.as_str());
    text::equals(text::trim(chars.as_slice()), what)
}

fn show(m: &MessageRow) -> (r: ChatContextMessage)
    ensures
        r.deep_view() == shown(m.deep_view()),
{
    proof {
        reveal_strlit("");
        assert(""@ =~= Seq::<char>::empty());
    }
    ChatContextMessage {
        role: m.role.clone(),
        content: m.content.clone(),
        tool_calls_json: text_unless(&m.tool_calls_json, "[]"),
        tool_results_json: if trims_to(&m.role, "tool") {
            text_unless(&m.raw_json, "{}")
        } else {
            None
        },
        thinking: text_unless(&m.thinking, ""),
        thinking_blocks_json: if trims_to(&m.role, "assistant") {
            text_unless(&m.thinking_blocks_json, "[]")
        } else {
            None
        },
    }
}

impl ChatStore {
    /// Loads the context of a conversation.
    pub fn load_context_messages(&self, conversation_id: &str) -> (r: Vec<ChatContextMessage>)
        ensures
            r.deep_view() == context_of(self.deep_view(), conversation_id@),
    {
        let messages = self.conversation_messages(conversation_id);
        let test = |m: &MessageRow| -> (b: bool)
            ensures
                b == is_boundary()(m.deep_view()),
            { is_text(&m.status, "context_compaction") };
        let boundaries = keep_rows(&messages, test, Ghost(is_boundary()));
        proof {
            assert(boundaries.deep_view().len() == boundaries@.len());
        }
        let start: String = if boundaries.len() == 0 {
            String::new()
        } else {
            boundaries[boundaries.len() - 1].id.clone()
        };
        proof {
            if boundaries@.len() > 0 {
                let n = boundaries@.len() - 1;
                assert(boundaries.deep_view()[n] == boundaries@[n].deep_view());
            } else {
                assert(start@ =~= Seq::<char>::empty());
            }
            assert(start@ == boundary(messages.deep_view()));
        }
        let show_from_start = |m: &MessageRow| -> (o: Option<ChatContextMessage>)
            ensures
                o.deep_view() == shown_from(start@)(m.deep_view()),
            {
                let assistant = is_text(&m.role, "assistant");
                let substance = m.content.as_str().unicode_len() > 0 || (assistant
                    && m.tool_calls_json.as_str().unicode_len() > 0 && !is_text(
                    &m.tool_calls_json,
                    "[]",
                )) || (assistant && m.thinking.as_str().unicode_len() > 0);
                let failed = assistant && is_text(&m.status, "error");
                if !store::id_before(&m.id, start.as_str()) && substance && !failed {
                    Some(show(m))
                } else {
                    None
                }
            };
        select_rows(&messages, show_from_start, Ghost(shown_from(start@)))
    }
}

// ---------------------------------------------------------------------
// Keeping an exchange
// ---------------------------------------------------------------------

/// The tokens that a request used.
#[derive(Clone, Copy, Debug)]
pub struct ChatTokenUsage {
    pub input_tokens: i64,
    pub output_tokens: i64,
    pub cache_creation_input_tokens: i64,
    pub cache_read_input_tokens: i64,
}

/// An exchange to keep.
pub struct StoreChatExchangeInput {
    pub conversation_id: String,
    pub request_messages: Vec<ChatContextMessage>,
    pub response_content: String,
    pub response_id: String,
    pub checkpoint_id: String,
    pub model: String,
    /// The configuration that served the exchange; a new conversation stays
    /// bound to it. Empty means that the global one is followed.
    pub api_profile_name: String,
    pub status: String,
    pub interruption_reason: Option<String>,
    pub recovery_outcome: Option<String>,
    pub raw_response_json: String,
    pub token_usage: ChatTokenUsage,
    pub response_thinking: String,
    pub response_thinking_blocks_json: String,
    pub tool_calls_json: String,
    pub directory_id: String,
    pub context_compaction: bool,
    /// Whether the request only continues after a compaction; its messages
    /// are then kept already.
    pub resume_after_compaction: bool,
    pub total_duration_ms: i64,
}

/// The mathematical form of an exchange.
pub struct ExchangeModel {
    pub conversation_id: Seq<char>,
    pub request_messages: Seq<ContextModel>,
    pub response_content: Seq<char>,
    pub response_id: Seq<char>,
    pub checkpoint_id: Seq<char>,
    pub model: Seq<char>,
    pub api_profile_name: Seq<char>,
    pub status: Seq<char>,
    pub interruption_reason: Option<Seq<char>>,
    pub recovery_outcome: Option<Seq<char>>,
    pub raw_response_json: Seq<char>,
    pub token_usage: ChatTokenUsage,
    pub response_thinking: Seq<char>,
    pub response_thinking_blocks_json: Seq<char>,
    pub tool_calls_json: Seq<char>,
    pub directory_id: Seq<char>,
    pub context_compaction: bool,
    pub resume_after_compaction: bool,
    pub total_duration_ms: i64,
}

impl DeepView for StoreChatExchangeInput {
    type V = ExchangeModel;

    open spec fn deep_view(&self) -> ExchangeModel {
        ExchangeModel {
            conversation_id: self.conversation_id@,
            request_messages: self.request_messages.deep_view(),
            response_content: self.response_content@,
            response_id: self.response_id@,
            checkpoint_id: self.checkpoint_id@,
            model: self.model@,
            api_profile_name: self.api_profile_name@,
            status: self.status@,
            interruption_reason: self.interruption_reason.deep_view(),
            recovery_outcome: self.recovery_outcome.deep_view(),
            raw_response_json: self.raw_response_json@,
            token_usage: self.token_usage,
            response_thinking: self.response_thinking@,
            response_thinking_blocks_json: self.response_thinking_blocks_json@,
            tool_calls_json: self.tool_calls_json@,
            directory_id: self.directory_id@,
            context_compaction: self.context_compaction,
            resume_after_compaction: self.resume_after_compaction,
            total_duration_ms: self.total_duration_ms,
        }
    }
}

/// What makes a new row one of its own: its identifier in the table, and
/// the point in time of its name.
pub struct FreshId {
    pub row_id: String,
    pub timestamp: i64,
}

/// The mathematical form of a fresh identifier.
pub struct FreshModel {
    pub row_id: Seq<char>,
    pub timestamp: i64,
}

impl DeepView for FreshId {
    type V = FreshModel;

    open spec fn deep_view(&self) -> FreshModel {
        FreshModel { row_id: self.row_id@, timestamp: self.timestamp }
    }
}

/// What new rows take from their surroundings: identifiers for them, the
/// process, the time, and the values of columns that a new conversation
/// does not set.
pub struct Surroundings {
    pub conversation_row_id: String,
    pub fresh: Vec<FreshId>,
    pub process: u32,
    pub now: String,
    pub blank: ConversationRow,
}

/// The mathematical form of the surroundings.
pub struct SurroundingsModel {
    pub conversation_row_id: Seq<char>,
    pub fresh: Seq<FreshModel>,
    pub process: u32,
    pub now: Seq<char>,
    pub blank: ConversationModel,
}

impl DeepView for Surroundings {
    type V = SurroundingsModel;

    open spec fn deep_view(&self) -> SurroundingsModel {
        SurroundingsModel {
            conversation_row_id: self.conversation_row_id@,
            fresh: self.fresh.deep_view(),
            process: self.process,
            now: self.now@,
            blank: self.blank.deep_view(),
        }
    }
}

/// Whether an exchange is a compaction of the context that succeeded.
pub open spec fn compaction_done(x: ExchangeModel) -> bool {
    x.context_compaction && x.status == "completed"@ && text::trimmed(x.response_content).len() > 0
}

/// The size of the context after an exchange, if the exchange tells it: what
/// the request used or, after a compaction, what the compaction gave.
pub open spec fn context_usage(x: ExchangeModel) -> Option<ChatTokenUsage> {
    if x.status == "error"@ || (x.context_compaction && !compaction_done(x)) {
        None
    } else if compaction_done(x) {
        Some(
            ChatTokenUsage {
                input_tokens: x.token_usage.output_tokens,
                output_tokens: 0,
                cache_creation_input_tokens: 0,
                cache_read_input_tokens: 0,
            },
        )
    } else {
        Some(x.token_usage)
    }
}

/// A new message. Its name carries its place in the exchange.
pub open spec fn message_named(
    m: MessageModel,
    fresh: FreshModel,
    index: nat,
    s: SurroundingsModel,
) -> MessageModel {
    MessageModel {
        id: fresh.row_id,
        message_id: snippets::chat_id(
            "msg"@ + text::decimal(index),
            fresh.timestamp,
            s.process,
        ),
        created_at: s.now,
        ..m
    }
}

/// The message of a request. Messages of the user carry the checkpoint of
/// the request, and messages of tools keep their results.
pub open spec fn request_row(
    x: ExchangeModel,
    s: SurroundingsModel,
    index: int,
) -> MessageModel {
    let m = x.request_messages[index];
    let role = snippets::role_of(m.role);
    message_named(
        MessageModel {
            id: Seq::empty(),
            message_id: Seq::empty(),
            conversation_id: x.conversation_id,
            role,
            content: text::trimmed(m.content),
            model: x.model,
            response_id: Seq::empty(),
            checkpoint_id: if role == "user"@ {
                x.checkpoint_id
            } else {
                Seq::empty()
            },
            status: "sent"@,
            interruption_reason: None,
            recovery_outcome: None,
            raw_json: if role == "tool"@ {
                match m.tool_results_json {
                    Some(r) => r,
                    None => "{}"@,
                }
            } else {
                "{}"@
            },
            thinking: Seq::empty(),
            thinking_blocks_json: "[]"@,
            tool_calls_json: "[]"@,
            created_at: Seq::empty(),
        },
        s.fresh[index],
        index as nat,
        s,
    )
}

/// The message of the answer.
pub open spec fn answer_row(x: ExchangeModel, s: SurroundingsModel, place: int) -> MessageModel {
    message_named(
        MessageModel {
            id: Seq::empty(),
            message_id: Seq::empty(),
            conversation_id: x.conversation_id,
            role: "assistant"@,
            content: text::trimmed(x.response_content),
            model: x.model,
            response_id: x.response_id,
            checkpoint_id: Seq::empty(),
            status: x.status,
            interruption_reason: x.interruption_reason,
            recovery_outcome: x.recovery_outcome,
            raw_json: x.raw_response_json,
            thinking: text::trimmed(x.response_thinking),
            thinking_blocks_json: x.response_thinking_blocks_json,
            tool_calls_json: x.tool_calls_json,
            created_at: Seq::empty(),
        },
        s.fresh[place],
        x.request_messages.len(),
        s,
    )
}

/// The message at which the context was compacted.
pub open spec fn boundary_row(x: ExchangeModel, s: SurroundingsModel) -> MessageModel {
    message_named(
        MessageModel {
            id: Seq::empty(),
            message_id: Seq::empty(),
            conversation_id: x.conversation_id,
            role: "user"@,
            content: text::trimmed(x.response_content),
            model: x.model,
            response_id: x.response_id,
            checkpoint_id: x.checkpoint_id,
            status: "context_compaction"@,
            interruption_reason: None,
            recovery_outcome: None,
            raw_json: x.raw_response_json,
            thinking: Seq::empty(),
            thinking_blocks_json: "[]"@,
            tool_calls_json: "[]"@,
            created_at: Seq::empty(),
        },
        s.fresh[0],
        0,
        s,
    )
}

/// How many messages of a request are kept.
pub open spec fn kept_requests(x: ExchangeModel) -> nat {
    if x.resume_after_compaction {
        0
    } else {
        x.request_messages.len()
    }
}

/// The messages that an exchange adds. A compaction adds its boundary, or
/// nothing where it did not succeed; any other exchange adds its request
/// and the answer.
pub open spec fn new_messages(x: ExchangeModel, s: SurroundingsModel) -> Seq<MessageModel> {
    if compaction_done(x) {
        seq![boundary_row(x, s)]
    } else if x.context_compaction {
        Seq::empty()
    } else {
        Seq::new(kept_requests(x), |i: int| request_row(x, s, i)).push(
            answer_row(x, s, kept_requests(x) as int),
        )
    }
}

/// The identifier of a message of the user.
pub open spec fn user_id() -> spec_fn(MessageModel) -> Option<Seq<char>> {
    |m: MessageModel|
        if m.role == "user"@ {
            Some(m.id)
        } else {
            None
        }
}

/// A conversation that an exchange opens.
pub open spec fn opened(
    x: ExchangeModel,
    s: SurroundingsModel,
    title: Seq<char>,
) -> ConversationModel {
    ConversationModel {
        id: s.conversation_row_id,
        conversation_id: x.conversation_id,
        title,
        summary: title,
        last_message_preview: Seq::empty(),
        message_count: 0,
        model: x.model,
        api_profile_name: x.api_profile_name,
        last_response_id: x.response_id,
        status: "active"@,
        directory_id: x.directory_id,
        forked_from_conversation_id: Seq::empty(),
        fork_message_count: 0,
        created_at: s.now,
        updated_at: s.now,
        ..s.blank
    }
}

/// A text, or else the given one where it is empty.
pub open spec fn or_else(s: Seq<char>, other: Seq<char>) -> Seq<char> {
    if s.len() == 0 {
        other
    } else {
        s
    }
}

/// A conversation after an exchange.
pub open spec fn after_exchange(
    c: ConversationModel,
    x: ExchangeModel,
    s: SurroundingsModel,
    title: Seq<char>,
    messages: Seq<MessageModel>,
) -> ConversationModel {
    let usage = context_usage(x);
    ConversationModel {
        title: or_else(c.title, title),
        summary: or_else(c.summary, title),
        last_message_preview: snippets::snippet(x.response_content, 180),
        message_count: store::message_count(messages, x.conversation_id),
        model: x.model,
        last_response_id: or_else(x.response_id, c.last_response_id),
        status: "active"@,
        directory_id: or_else(c.directory_id, x.directory_id),
        input_tokens: match usage {
            Some(u) => u.input_tokens,
            None => c.input_tokens,
        },
        output_tokens: match usage {
            Some(u) => u.output_tokens,
            None => c.output_tokens,
        },
        cache_creation_input_tokens: match usage {
            Some(u) => u.cache_creation_input_tokens,
            None => c.cache_creation_input_tokens,
        },
        cache_read_input_tokens: match usage {
            Some(u) => u.cache_read_input_tokens,
            None => c.cache_read_input_tokens,
        },
        total_duration_ms: (c.total_duration_ms + x.total_duration_ms) as i64,
        updated_at: s.now,
        ..c
    }
}

/// The store after an exchange: the conversation is opened where it is not
/// there, the messages are added, and the conversation is brought up to
/// date.
pub open spec fn stored(
    store: StoreModel,
    x: ExchangeModel,
    s: SurroundingsModel,
    title: Seq<char>,
) -> StoreModel {
    let messages = store.messages + new_messages(x, s);
    let conversations = if store::conversation(store, x.conversation_id) is Some {
        store.conversations
    } else {
        store.conversations.push(opened(x, s, title))
    };
    StoreModel {
        conversations: conversations.map_values(
            |c: ConversationModel|
                if c.conversation_id == x.conversation_id {
                    after_exchange(c, x, s, title, messages)
                } else {
                    c
                },
        ),
        messages,
        ..store
    }
}

/// Whether the durations of a conversation can be added up.
pub open spec fn durations_fit(store: StoreModel, x: ExchangeModel, s: SurroundingsModel) -> bool {
    &&& i64::MIN <= s.blank.total_duration_ms + x.total_duration_ms <= i64::MAX
    &&& forall|i: int|
        0 <= i < store.conversations.len() && (#[trigger] store.conversations[i]).conversation_id
            == x.conversation_id ==> i64::MIN <= store.conversations[i].total_duration_ms
            + x.total_duration_ms <= i64::MAX
}

fn text_or_else(s: &String, other: &String) -> (r: String)
    ensures
        r@ == or_else(s@, other@),
{
    if s.as_str().unicode_len() == 0 {
        other.clone()
    } else {
        s.clone()
    }
}

fn is_compaction_done(x: &StoreChatExchangeInput) -> (r: bool)
    ensures
        r == compaction_done(x.deep_view()),
{
    x.context_compaction && is_text(&x.status, "completed") && text::trim(
        text::chars_of(x.response_content.as_str()).as_slice(),
    ).len() > 0
}

fn usage_after(x: &StoreChatExchangeInput) -> (r: Option<ChatTokenUsage>)
    ensures
        r == context_usage(x.deep_view()),
{
    let done = is_compaction_done(x);
    if is_text(&x.status, "error") || (x.context_compaction && !done) {
        None
    } else if done {
        Some(
            ChatTokenUsage {
                input_tokens: x.token_usage.output_tokens,
                output_tokens: 0,
                cache_creation_input_tokens: 0,
                cache_read_input_tokens: 0,
            },
        )
    } else {
        Some(x.token_usage)
    }
}

fn write_request(x: &StoreChatExchangeInput, s: &Surroundings, i: usize) -> (r: MessageRow)
    requires
        i < x.request_messages@.len(),
        i < s.fresh@.len(),
    ensures
        r.deep_view() == request_row(x.deep_view(), s.deep_view(), i as int),
{
    let m = &x.request_messages[i];
    let fresh = &s.fresh[i];
    let role = snippets::normalize_role(m.role.as_str());
    let checkpoint_id = if is_text(&role, "user") {
        x.checkpoint_id.clone()
    } else {
        empty()
    };
    let raw_json = if is_text(&role, "tool") {
        match &m.tool_results_json {
            Some(r) => r.clone(),
            None => "{}".to_string(),
        }
    } else {
        "{}".to_string()
    };
    proof {
        assert(x.request_messages.deep_view()[i as int] == m.deep_view());
        assert(s.fresh.deep_view()[i as int] == fresh.deep_view());
    }
    MessageRow {
        id: fresh.row_id.clone(),
        message_id: message_name(i, fresh.timestamp, s.process),
        conversation_id: x.conversation_id.clone(),
        role,
        content: trimmed_string(m.content.as_str()),
        model: x.model.clone(),
        response_id: empty(),
        checkpoint_id,
        status: "sent".to_string(),
        interruption_reason: None,
        recovery_outcome: None,
        raw_json,
        thinking: empty(),
        thinking_blocks_json: "[]".to_string(),
        tool_calls_json: "[]".to_string(),
        created_at: s.now.clone(),
    }
}

fn write_answer(x: &StoreChatExchangeInput, s: &Surroundings, place: usize) -> (r: MessageRow)
    requires
        place < s.fresh@.len(),
    ensures
        r.deep_view() == answer_row(x.deep_view(), s.deep_view(), place as int),
{
    let fresh = &s.fresh[place];
    proof {
        assert(s.fresh.deep_view()[place as int] == fresh.deep_view());
        assert(x.request_messages.deep_view().len() == x.request_messages@.len());
    }
    MessageRow {
        id: fresh.row_id.clone(),
        message_id: message_name(x.request_messages.len(), fresh.timestamp, s.process),
        conversation_id: x.conversation_id.clone(),
        role: "assistant".to_string(),
        content: trimmed_string(x.response_content.as_str()),
        model: x.model.clone(),
        response_id: x.response_id.clone(),
        checkpoint_id: empty(),
        status: x.status.clone(),
        interruption_reason: copy_option(&x.interruption_reason),
        recovery_outcome: copy_option(&x.recovery_outcome),
        raw_json: x.raw_response_json.clone(),
        thinking: trimmed_string(x.response_thinking.as_str()),
        thinking_blocks_json: x.response_thinking_blocks_json.clone(),
        tool_calls_json: x.tool_calls_json.clone(),
        created_at: s.now.clone(),
    }
}

fn write_boundary(x: &StoreChatExchangeInput, s: &Surroundings) -> (r: MessageRow)
    requires
        0 < s.fresh@.len(),
    ensures
        r.deep_view() == boundary_row(x.deep_view(), s.deep_view()),
{
    let fresh = &s.fresh[0];
    proof {
        assert(s.fresh.deep_view()[0] == fresh.deep_view());
    }
    MessageRow {
        id: fresh.row_id.clone(),
        message_id: message_name(0, fresh.timestamp, s.process),
        conversation_id: x.conversation_id.clone(),
        role: "user".to_string(),
        content: trimmed_string(x.response_content.as_str()),
        model: x.model.clone(),
        response_id: x.response_id.clone(),
        checkpoint_id: x.checkpoint_id.clone(),
        status: "context_compaction".to_string(),
        interruption_reason: None,
        recovery_outcome: None,
        raw_json: x.raw_response_json.clone(),
        thinking: empty(),
        thinking_blocks_json: "[]".to_string(),
        tool_calls_json: "[]".to_string(),
        created_at: s.now.clone(),
    }
}

/// Writes the messages that an exchange adds.
fn write_messages(x: &StoreChatExchangeInput, s: &Surroundings) -> (r: Vec<MessageRow>)
    requires
        x.request_messages@.len() < s.fresh@.len(),
    ensures
        r.deep_view() == new_messages(x.deep_view(), s.deep_view()),
{
    let mut r: Vec<MessageRow> = Vec::new();
    if is_compaction_done(x) {
        r.push(write_boundary(x, s));
        proof {
            assert(r.deep_view() =~= seq![boundary_row(x.deep_view(), s.deep_view())]);
        }
        return r;
    }
    if x.context_compaction {
        proof {
            assert(r.deep_view() =~= Seq::<MessageModel>::empty());
        }
        return r;
    }
    let count: usize = if x.resume_after_compaction {
        0
    } else {
        x.request_messages.len()
    };
    let ghost ex = x.deep_view();
    let ghost su = s.deep_view();
    proof {
        assert(ex.request_messages.len() == x.request_messages@.len());
    }
    let mut i: usize = 0;
    while i < count
        invariant
            i <= count <= x.request_messages@.len() < s.fresh@.len(),
            ex == x.deep_view(),
            su == s.deep_view(),
            r@.len() == i,
            forall|j: int| 0 <= j < i ==> (#[trigger] r@[j]).deep_view() == request_row(ex, su, j),
        decreases count - i,
    {
        r.push(write_request(x, s, i));
        i += 1;
    }
    r.push(write_answer(x, s, count));
    proof {
        assert(r.deep_view() =~= new_messages(ex, su));
    }
    r
}

fn open_conversation(x: &StoreChatExchangeInput, s: &Surroundings, title: &String) -> (r:
    ConversationRow)
    ensures
        r.deep_view() == opened(x.deep_view(), s.deep_view(), title@),
{
    let mut c = s.blank.copied();
    c.id = s.conversation_row_id.clone();
    c.conversation_id = x.conversation_id.clone();
    c.title = title.clone();
    c.summary = title.clone();
    c.last_message_preview = empty();
    c.message_count = 0;
    c.model = x.model.clone();
    c.api_profile_name = x.api_profile_name.clone();
    c.last_response_id = x.response_id.clone();
    c.status = "active".to_string();
    c.directory_id = x.directory_id.clone();
    c.forked_from_conversation_id = empty();
    c.fork_message_count = 0;
    c.created_at = s.now.clone();
    c.updated_at = s.now.clone();
    c
}

fn bring_up_to_date(
    c: &ConversationRow,
    x: &StoreChatExchangeInput,
    s: &Surroundings,
    title: &String,
    messages: &Vec<MessageRow>,
) -> (r: ConversationRow)
    requires
        i64::MIN <= c.total_duration_ms + x.total_duration_ms <= i64::MAX,
    ensures
        r.deep_view() == after_exchange(
            c.deep_view(),
            x.deep_view(),
            s.deep_view(),
            title@,
            messages.deep_view(),
        ),
{
    let mut r = c.copied();
    let usage = usage_after(x);
    r.title = text_or_else(&c.title, title);
    r.summary = text_or_else(&c.summary, title);
    r.last_message_preview = snippets::create_snippet(x.response_content.as_str(), 180);
    r.message_count = store::count_messages(messages, x.conversation_id.as_str());
    r.model = x.model.clone();
    r.last_response_id = text_or_else(&x.response_id, &c.last_response_id);
    r.status = "active".to_string();
    r.directory_id = text_or_else(&c.directory_id, &x.directory_id);
    match usage {
        Some(u) => {
            r.input_tokens = u.input_tokens;
            r.output_tokens = u.output_tokens;
            r.cache_creation_input_tokens = u.cache_creation_input_tokens;
            r.cache_read_input_tokens = u.cache_read_input_tokens;
        },
        None => {},
    }
    r.total_duration_ms = c.total_duration_ms + x.total_duration_ms;
    r.updated_at = s.now.clone();
    r
}

impl ChatStore {
    /// Keeps an exchange. `title_source` is the content of the message that
    /// gives a new conversation its title, with the tags in it written out.
    /// The result names the messages of the user that were added.
    pub fn store_chat_exchange(
        &self,
        input: &StoreChatExchangeInput,
        surroundings: &Surroundings,
        title_source: &Option<String>,
    ) -> (r: (ChatStore, Vec<String>))
        requires
            input.request_messages@.len() < surroundings.fresh@.len(),
            durations_fit(self.deep_view(), input.deep_view(), surroundings.deep_view()),
        ensures
            r.0.deep_view() == stored(
                self.deep_view(),
                input.deep_view(),
                surroundings.deep_view(),
                snippets::title_of(title_source.deep_view()),
            ),
            r.1.deep_view() == new_messages(
                input.deep_view(),
                surroundings.deep_view(),
            ).filter_map(user_id()),
    {
        let ghost x = input.deep_view();
        let ghost su = surroundings.deep_view();
        let title = snippets::create_title(title_source);
        let added = write_messages(input, surroundings);
        let messages = add_rows(&self.messages, &added);
        let ghost all = messages.deep_view();
        let mut conversations = copy_rows(&self.conversations);
        let ghost start = conversations.deep_view();
        if !self.conversation_exists(input.conversation_id.as_str()) {
            let row = open_conversation(input, surroundings, &title);
            conversations.push(row);
            proof {
                assert(conversations.deep_view() =~= start.push(row.deep_view()));
            }
        }
        let ghost g = |c: ConversationModel|
            if c.conversation_id == x.conversation_id {
                after_exchange(c, x, su, title@, all)
            } else {
                c
            };
        let ghost before = conversations.deep_view();
        proof {
            assert forall|i: int|
                0 <= i < before.len() && (#[trigger] before[i]).conversation_id
                    == x.conversation_id implies i64::MIN <= before[i].total_duration_ms
                + x.total_duration_ms <= i64::MAX by {
                if i < start.len() {
                    assert(before[i] == start[i]);
                }
            }
        }
        let mut updated: Vec<ConversationRow> = Vec::new();
        let mut i: usize = 0;
        while i < conversations.len()
            invariant
                i <= conversations@.len(),
                x == input.deep_view(),
                su == surroundings.deep_view(),
                all == messages.deep_view(),
                before == conversations.deep_view(),
                forall|i: int|
                    0 <= i < before.len() && (#[trigger] before[i]).conversation_id
                        == x.conversation_id ==> i64::MIN <= before[i].total_duration_ms
                        + x.total_duration_ms <= i64::MAX,
                g == (|c: ConversationModel|
                    if c.conversation_id == x.conversation_id {
                        after_exchange(c, x, su, title@, all)
                    } else {
                        c
                    }),
                updated@.len() == i,
                forall|j: int| 0 <= j < i ==> (#[trigger] updated@[j]).deep_view() == g(before[j]),
            decreases conversations@.len() - i,
        {
            let c = &conversations[i];
            proof {
                assert(before[i as int] == c.deep_view());
            }
            if is_text(&c.conversation_id, input.conversation_id.as_str()) {
                updated.push(bring_up_to_date(c, input, surroundings, &title, &messages));
            } else {
                updated.push(c.copied());
            }
            i += 1;
        }
        let id_of_user = |m: &MessageRow| -> (o: Option<String>)
            ensures
                o.deep_view() == user_id()(m.deep_view()),
            {
                if is_text(&m.role, "user") {
                    Some(m.id.clone())
                } else {
                    None
                }
            };
        let ids = select_rows(&added, id_of_user, Ghost(user_id()));
        proof {
            assert(updated.deep_view() =~= before.map_values(g));
        }
        (
            ChatStore {
                conversations: updated,
                messages,
                sub_agents: copy_rows(&self.sub_agents),
                todos: copy_rows(&self.todos),
            },
            ids,
        )
    }
}

// ---------------------------------------------------------------------
// Keeping a failed exchange
// ---------------------------------------------------------------------

/// A message of a failed request, unless it has no content.
pub open spec fn failed_message() -> spec_fn(ContextModel) -> Option<ContextModel> {
    |m: ContextModel|
        if text::trimmed(m.content).len() > 0 {
            Some(
                ContextModel {
                    role: text::trimmed(m.role),
                    content: text::trimmed(m.content),
                    ..m
                },
            )
        } else {
            None
        }
}

/// What is kept of a failed request.
pub struct FailedRequest {
    pub conversation_id: Option<String>,
    pub previous_response_id: Option<String>,
    pub request_messages: Vec<ChatContextMessage>,
    pub checkpoint_id: String,
    pub model: String,
    pub api_profile_name: String,
    pub directory_id: String,
    pub resume_after_compaction: bool,
    pub error_message: String,
}

/// The mathematical form of a failed request.
pub struct FailedModel {
    pub conversation_id: Option<Seq<char>>,
    pub previous_response_id: Option<Seq<char>>,
    pub request_messages: Seq<ContextModel>,
    pub checkpoint_id: Seq<char>,
    pub model: Seq<char>,
    pub api_profile_name: Seq<char>,
    pub directory_id: Seq<char>,
    pub resume_after_compaction: bool,
    pub error_message: Seq<char>,
}

impl DeepView for FailedRequest {
    type V = FailedModel;

    open spec fn deep_view(&self) -> FailedModel {
        FailedModel {
            conversation_id: self.conversation_id.deep_view(),
            previous_response_id: self.previous_response_id.deep_view(),
            request_messages: self.request_messages.deep_view(),
            checkpoint_id: self.checkpoint_id@,
            model: self.model@,
            api_profile_name: self.api_profile_name@,
            directory_id: self.directory_id@,
            resume_after_compaction: self.resume_after_compaction,
            error_message: self.error_message@,
        }
    }
}

/// The exchange that stands for a failed request: its answer is the error.
pub open spec fn failed_exchange(f: FailedModel, conversation_id: Seq<char>) -> ExchangeModel {
    ExchangeModel {
        conversation_id,
        request_messages: f.request_messages.filter_map(failed_message()),
        response_content: or_else(
            text::trimmed(f.error_message),
            "AI response failed, please try again later."@,
        ),
        response_id: Seq::empty(),
        checkpoint_id: f.checkpoint_id,
        model: f.model,
        api_profile_name: f.api_profile_name,
        status: "error"@,
        interruption_reason: None,
        recovery_outcome: None,
        raw_response_json: "{}"@,
        token_usage: ChatTokenUsage {
            input_tokens: 0,
            output_tokens: 0,
            cache_creation_input_tokens: 0,
            cache_read_input_tokens: 0,
        },
        response_thinking: Seq::empty(),
        response_thinking_blocks_json: "[]"@,
        tool_calls_json: "[]"@,
        directory_id: f.directory_id,
        context_compaction: false,
        resume_after_compaction: f.resume_after_compaction,
        total_duration_ms: 0,
    }
}

fn write_failed(f: &FailedRequest, conversation_id: String) -> (x: StoreChatExchangeInput)
    ensures
        x.deep_view() == failed_exchange(f.deep_view(), conversation_id@),
{
    let keep = |m: &ChatContextMessage| -> (o: Option<ChatContextMessage>)
        ensures
            o.deep_view() == failed_message()(m.deep_view()),
        {
            let content = trimmed_string(m.content.as_str());
            if content.as_str().unicode_len() > 0 {
                Some(
                    ChatContextMessage {
                        role: trimmed_string(m.role.as_str()),
                        content,
                        tool_calls_json: copy_option(&m.tool_calls_json),
                        tool_results_json: copy_option(&m.tool_results_json),
                        thinking: copy_option(&m.thinking),
                        thinking_blocks_json: copy_option(&m.thinking_blocks_json),
                    },
                )
            } else {
                None
            }
        };
    let message = trimmed_string(f.error_message.as_str());
    let fallback = "AI response failed, please try again later.".to_string();
    StoreChatExchangeInput {
        conversation_id,
        request_messages: select_rows(&f.request_messages, keep, Ghost(failed_message())),
        response_content: text_or_else(&message, &fallback),
        response_id: empty(),
        checkpoint_id: f.checkpoint_id.clone(),
        model: f.model.clone(),
        api_profile_name: f.api_profile_name.clone(),
        status: "error".to_string(),
        interruption_reason: None,
        recovery_outcome: None,
        raw_response_json: "{}".to_string(),
        token_usage: ChatTokenUsage {
            input_tokens: 0,
            output_tokens: 0,
            cache_creation_input_tokens: 0,
            cache_read_input_tokens: 0,
        },
        response_thinking: empty(),
        response_thinking_blocks_json: "[]".to_string(),
        tool_calls_json: "[]".to_string(),
        directory_id: f.directory_id.clone(),
        context_compaction: false,
        resume_after_compaction: f.resume_after_compaction,
        total_duration_ms: 0,
    }
}

/// No more values come out than go in.
pub proof fn lemma_filter_map_len<A, B>(s: Seq<A>, f: spec_fn(A) -> Option<B>)
    ensures
        s.filter_map(f).len() <= s.len(),
    decreases s.len(),
{
    if s.len() > 0 {
        lemma_filter_map_len(s.drop_last(), f);
    }
}

impl ChatStore {
    /// Keeps a failed exchange. The result is the store, the conversation,
    /// and the messages of the user that were added, from which the
    /// exchange can be taken back. A request without any content is an
    /// error, unless it continues after a compaction.
    pub fn store_failed_chat_exchange(
        &self,
        request: &FailedRequest,
        surroundings: &Surroundings,
        new_id: &str,
        title_source: &Option<String>,
    ) -> (r: Result<(ChatStore, String, Vec<String>), StorageError>)
        requires
            request.request_messages@.len() < surroundings.fresh@.len(),
        ensures
            ({
                let f = request.deep_view();
                let s = surroundings.deep_view();
                let id = resolved(
                    self.deep_view(),
                    f.conversation_id,
                    f.previous_response_id,
                    new_id@,
                );
                let x = failed_exchange(f, id);
                let refused = x.request_messages.len() == 0 && !f.resume_after_compaction;
                match r {
                    Err(e) => refused && e.deep_view() == error::failure(
                        "Chat message content is required"@,
                    ),
                    Ok((after, conversation, ids)) => !refused && conversation@ == id
                        && after.deep_view() == stored(
                        self.deep_view(),
                        x,
                        s,
                        snippets::title_of(title_source.deep_view()),
                    ) && ids.deep_view() == new_messages(x, s).filter_map(user_id()),
                }
            }),
    {
        let id = self.resolve_conversation_id(
            &request.conversation_id,
            &request.previous_response_id,
            new_id,
        );
        let x = write_failed(request, id.clone());
        proof {
            lemma_filter_map_len(request.request_messages.deep_view(), failed_message());
            assert(x.request_messages.deep_view().len() == x.request_messages@.len());
        }
        if x.request_messages.len() == 0 && !request.resume_after_compaction {
            return Err(StorageError::from_reason("Chat message content is required"));
        }
        let (after, ids) = self.store_chat_exchange(&x, surroundings, title_source);
        Ok((after, id, ids))
    }
}

// ---------------------------------------------------------------------
// Messages of tools
// ---------------------------------------------------------------------

/// A message of a tool that is added by itself.
pub open spec fn tool_row(
    id: Seq<char>,
    content: Seq<char>,
    fresh: FreshModel,
    process: u32,
    now: Seq<char>,
) -> MessageModel {
    MessageModel {
        id: fresh.row_id,
        message_id: snippets::chat_id("msg"@ + text::decimal(0), fresh.timestamp, process),
        conversation_id: id,
        role: "tool"@,
        content: text::trimmed(content),
        model: Seq::empty(),
        response_id: Seq::empty(),
        checkpoint_id: Seq::empty(),
        status: "sent"@,
        interruption_reason: None,
        recovery_outcome: None,
        raw_json: "{}"@,
        thinking: Seq::empty(),
        thinking_blocks_json: "[]"@,
        tool_calls_json: "[]"@,
        created_at: now,
    }
}

/// A conversation with its messages counted anew.
pub open spec fn recounted(messages: Seq<MessageModel>, now: Seq<char>) -> spec_fn(
    ConversationModel,
) -> ConversationModel {
    |c: ConversationModel|
        ConversationModel {
            message_count: store::message_count(messages, c.conversation_id),
            updated_at: now,
            ..c
        }
}

/// The store with a message of a tool. A message without content is not
/// added.
pub open spec fn with_tool_message(
    store: StoreModel,
    id: Seq<char>,
    content: Seq<char>,
    fresh: FreshModel,
    process: u32,
    now: Seq<char>,
) -> StoreModel {
    if text::trimmed(content).len() == 0 {
        store
    } else {
        let messages = store.messages.push(tool_row(id, content, fresh, process, now));
        store::with_conversation(
            StoreModel { messages, ..store },
            id,
            recounted(messages, now),
        )
    }
}

impl ChatStore {
    /// Adds a message of a tool.
    pub fn append_tool_message(
        &self,
        conversation_id: &str,
        content: &str,
        fresh: &FreshId,
        process: u32,
        now: &str,
    ) -> (r: ChatStore)
        ensures
            r.deep_view() == with_tool_message(
                self.deep_view(),
                conversation_id@,
                content@,
                fresh.deep_view(),
                process,
                now@,
            ),
    {
        let chars = text::chars_of(content);
        let trimmed = text::trim(chars.as_slice());
        if trimmed.len() == 0 {
            return self.duplicate();
        }
        let row = MessageRow {
            id: fresh.row_id.clone(),
            message_id: message_name(0, fresh.timestamp, process),
            conversation_id: conversation_id.to_string(),
            role: "tool".to_string(),
            content: text::string_of(trimmed),
            model: empty(),
            response_id: empty(),
            checkpoint_id: empty(),
            status: "sent".to_string(),
            interruption_reason: None,
            recovery_outcome: None,
            raw_json: "{}".to_string(),
            thinking: empty(),
            thinking_blocks_json: "[]".to_string(),
            tool_calls_json: "[]".to_string(),
            created_at: now.to_string(),
        };
        let mut with_message = self.duplicate();
        let ghost before = with_message.messages.deep_view();
        with_message.messages.push(row);
        let ghost messages = with_message.messages.deep_view();
        proof {
            assert(messages =~= before.push(row.deep_view()));
        }
        let recount = |c: &ConversationRow| -> (y: ConversationRow)
            ensures
                y.deep_view() == recounted(with_message.messages.deep_view(), now@)(c.deep_view()),
            {
                let mut y = c.copied();
                y.message_count = store::count_messages(
                    &with_message.messages,
                    c.conversation_id.as_str(),
                );
                y.updated_at = now.to_string();
                y
            };
        with_message.change_conversation(conversation_id, recount, Ghost(recounted(messages, now@)))
    }
}

} // verus!
