//! The chat tables as one value, and questions about it.

use vstd::prelude::*;
use crate::chat::rows::{ConversationModel, ConversationRow, MessageModel, MessageRow};
use crate::chat::rows::{SubAgentModel, SubAgentRow, TodoModel, TodoRow};
use crate::order;
use crate::order::Ranking;
use crate::rows;
use crate::rows::{change_rows, copy_rows, find_row, keep_rows, Copied};
use crate::text;
use crate::text::is_text;

verus! {

/// The rows of the chat tables.
pub struct ChatStore {
    pub conversations: Vec<ConversationRow>,
    pub messages: Vec<MessageRow>,
    pub sub_agents: Vec<SubAgentRow>,
    pub todos: Vec<TodoRow>,
}

/// The mathematical form of the chat tables.
pub struct StoreModel {
    pub conversations: Seq<ConversationModel>,
    pub messages: Seq<MessageModel>,
    pub sub_agents: Seq<SubAgentModel>,
    pub todos: Seq<TodoModel>,
}

impl DeepView for ChatStore {
    type V = StoreModel;

    open spec fn deep_view(&self) -> StoreModel {
        StoreModel {
            conversations: self.conversations.deep_view(),
            messages: self.messages.deep_view(),
            sub_agents: self.sub_agents.deep_view(),
            todos: self.todos.deep_view(),
        }
    }
}

/// A number of rows as the database counts them.
pub open spec fn counted(n: nat) -> i64 {
    if n <= i64::MAX {
        n as i64
    } else {
        i64::MAX
    }
}

pub(crate) fn count_of(n: usize) -> (r: i64)
    ensures
        r == counted(n as nat),
{
    if n as u128 <= 9223372036854775807 {
        n as i64
    } else {
        9223372036854775807
    }
}

// ---------------------------------------------------------------------
// Conversations
// ---------------------------------------------------------------------

/// Whether a conversation has an identifier.
pub open spec fn is_conversation(id: Seq<char>) -> spec_fn(ConversationModel) -> bool {
    |c: ConversationModel| c.conversation_id == id
}

/// The conversation of an identifier.
pub open spec fn conversation(store: StoreModel, id: Seq<char>) -> Option<ConversationModel> {
    rows::first_row(store.conversations, is_conversation(id))
}

/// Whether the conversation of a session has an identifier.
pub open spec fn is_session(id: Seq<char>) -> spec_fn(SubAgentModel) -> bool {
    |s: SubAgentModel| s.conversation_id == id
}

/// The session whose conversation has an identifier.
pub open spec fn session(store: StoreModel, id: Seq<char>) -> Option<SubAgentModel> {
    rows::first_row(store.sub_agents, is_session(id))
}

impl ChatStore {
    /// Finds the conversation of an identifier.
    pub fn find_conversation<'a>(&'a self, id: &str) -> (r: Option<&'a ConversationRow>)
        ensures
            match r {
                Some(c) => conversation(self.deep_view(), id@) == Some(c.deep_view()),
                None => conversation(self.deep_view(), id@) is None,
            },
    {
        let test = |c: &ConversationRow| -> (b: bool)
            ensures
                b == is_conversation(id@)(c.deep_view()),
            { is_text(&c.conversation_id, id) };
        find_row(&self.conversations, test, Ghost(is_conversation(id@)))
    }

    /// Whether there is a conversation of an identifier.
    pub fn conversation_exists(&self, id: &str) -> (r: bool)
        ensures
            r == conversation(self.deep_view(), id@) is Some,
    {
        self.find_conversation(id).is_some()
    }

    /// Finds the session of a sub-agent whose conversation has an
    /// identifier.
    pub fn find_session<'a>(&'a self, id: &str) -> (r: Option<&'a SubAgentRow>)
        ensures
            match r {
                Some(s) => session(self.deep_view(), id@) == Some(s.deep_view()),
                None => session(self.deep_view(), id@) is None,
            },
    {
        let test = |s: &SubAgentRow| -> (b: bool)
            ensures
                b == is_session(id@)(s.deep_view()),
            { is_text(&s.conversation_id, id) };
        find_row(&self.sub_agents, test, Ghost(is_session(id@)))
    }
}

/// A store with one conversation changed.
pub open spec fn with_conversation(
    store: StoreModel,
    id: Seq<char>,
    change: spec_fn(ConversationModel) -> ConversationModel,
) -> StoreModel {
    StoreModel {
        conversations: store.conversations.map_values(
            |c: ConversationModel|
                if c.conversation_id == id {
                    change(c)
                } else {
                    c
                },
        ),
        ..store
    }
}

impl ChatStore {
    /// A copy of the store.
    pub fn duplicate(&self) -> (out: ChatStore)
        ensures
            out.deep_view() == self.deep_view(),
    {
        ChatStore {
            conversations: copy_rows(&self.conversations),
            messages: copy_rows(&self.messages),
            sub_agents: copy_rows(&self.sub_agents),
            todos: copy_rows(&self.todos),
        }
    }

    /// Changes one conversation.
    pub(crate) fn change_conversation<F: Fn(&ConversationRow) -> ConversationRow>(
        &self,
        id: &str,
        f: F,
        Ghost(change): Ghost<spec_fn(ConversationModel) -> ConversationModel>,
    ) -> (out: ChatStore)
        requires
            forall|x: &ConversationRow| #[trigger] call_requires(f, (x,)),
            forall|x: &ConversationRow, y: ConversationRow|
                #[trigger] call_ensures(f, (x,), y) ==> y.deep_view() == change(x.deep_view()),
        ensures
            out.deep_view() == with_conversation(self.deep_view(), id@, change),
    {
        let ghost g = |c: ConversationModel|
            if c.conversation_id == id@ {
                change(c)
            } else {
                c
            };
        let step = |c: &ConversationRow| -> (y: ConversationRow)
            ensures
                y.deep_view() == g(c.deep_view()),
            {
                if is_text(&c.conversation_id, id) {
                    f(c)
                } else {
                    c.copied()
                }
            };
        ChatStore {
            conversations: change_rows(&self.conversations, step, Ghost(g)),
            messages: copy_rows(&self.messages),
            sub_agents: copy_rows(&self.sub_agents),
            todos: copy_rows(&self.todos),
        }
    }
}

// ---------------------------------------------------------------------
// Messages
// ---------------------------------------------------------------------

/// Whether a message belongs to a conversation.
pub open spec fn in_conversation(id: Seq<char>) -> spec_fn(MessageModel) -> bool {
    |m: MessageModel| m.conversation_id == id
}

/// Messages in the order of their identifiers, which is the order in which
/// they were written.
pub open spec fn by_id() -> spec_fn(MessageModel, MessageModel) -> bool {
    |a: MessageModel, b: MessageModel| order::not_after(a.id, b.id)
}

/// The messages of a conversation, in order.
pub open spec fn messages_of(store: StoreModel, id: Seq<char>) -> Seq<MessageModel> {
    order::sorted(store.messages.filter(in_conversation(id)), by_id())
}

/// The number of messages of a conversation.
pub open spec fn message_count(messages: Seq<MessageModel>, id: Seq<char>) -> i64 {
    counted(messages.filter(in_conversation(id)).len())
}

/// The last of a list.
pub open spec fn last_of<M>(s: Seq<M>) -> Option<M> {
    if s.len() == 0 {
        None
    } else {
        Some(s.last())
    }
}

/// Orders messages by identifier.
pub struct ById;

impl Ranking<MessageRow> for ById {
    open spec fn order() -> spec_fn(MessageRow, MessageRow) -> bool {
        |a: MessageRow, b: MessageRow| order::not_after(a.id@, b.id@)
    }

    proof fn laws() {
        let le = Self::order();
        assert forall|a: MessageRow, b: MessageRow| #[trigger] le(a, b) || le(b, a) by {
            order::lemma_before_total(a.id@, b.id@);
        }
        assert forall|a: MessageRow, b: MessageRow, c: MessageRow| #[trigger]
            le(a, b) && #[trigger] le(b, c) implies le(a, c) by {
            order::lemma_not_after_transitive(a.id@, b.id@, c.id@);
        }
    }

    fn in_order(a: &MessageRow, b: &MessageRow) -> (r: bool) {
        let left = text::chars_of(a.id.as_str());
        let right = text::chars_of(b.id.as_str());
        !order::comes_before(right.as_slice(), left.as_slice())
    }
}

/// Whether the identifier of a message comes before another one.
pub(crate) fn id_before(a: &String, b: &str) -> (r: bool)
    ensures
        r == order::before(a@, b@),
{
    order::comes_before(text::chars_of(a.as_str()).as_slice(), text::chars_of(b).as_slice())
}

/// Puts messages in order.
pub(crate) fn sort_messages(messages: Vec<MessageRow>) -> (out: Vec<MessageRow>)
    ensures
        out.deep_view() == order::sorted(messages.deep_view(), by_id()),
{
    let ghost f = |m: MessageRow| m.deep_view();
    proof {
        assert(messages.deep_view() =~= messages@.map_values(f));
        order::lemma_sorted_map(messages@, ById::order(), f, by_id());
    }
    let out = order::sort::<MessageRow, ById>(messages);
    proof {
        assert(out.deep_view() =~= out@.map_values(f));
    }
    out
}

/// The messages of a conversation, in the order of the table.
pub(crate) fn unsorted_messages_of(messages: &Vec<MessageRow>, id: &str) -> (out: Vec<MessageRow>)
    ensures
        out.deep_view() == messages.deep_view().filter(in_conversation(id@)),
{
    let test = |m: &MessageRow| -> (b: bool)
        ensures
            b == in_conversation(id@)(m.deep_view()),
        { is_text(&m.conversation_id, id) };
    keep_rows(messages, test, Ghost(in_conversation(id@)))
}

/// Counts the messages of a conversation.
pub(crate) fn count_messages(messages: &Vec<MessageRow>, id: &str) -> (n: i64)
    ensures
        n == message_count(messages.deep_view(), id@),
{
    let own = unsorted_messages_of(messages, id);
    proof {
        assert(own.deep_view().len() == own@.len());
    }
    count_of(own.len())
}

impl ChatStore {
    /// Lists the messages of a conversation, in order.
    pub fn conversation_messages(&self, id: &str) -> (out: Vec<MessageRow>)
        ensures
            out.deep_view() == messages_of(self.deep_view(), id@),
    {
        sort_messages(unsorted_messages_of(&self.messages, id))
    }
}

/// The order of messages is total.
pub proof fn lemma_by_id_is_order()
    ensures
        order::is_order(by_id()),
{
    let le = by_id();
    assert forall|a: MessageModel, b: MessageModel| #[trigger] le(a, b) || le(b, a) by {
        order::lemma_before_total(a.id, b.id);
    }
    assert forall|a: MessageModel, b: MessageModel, c: MessageModel| #[trigger]
        le(a, b) && #[trigger] le(b, c) implies le(a, c) by {
        order::lemma_not_after_transitive(a.id, b.id, c.id);
    }
}

} // verus!
