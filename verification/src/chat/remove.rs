//! Deleting, truncating and forking conversations.

use vstd::prelude::*;
use crate::chat::exchange::{FreshId, FreshModel};
use crate::chat::rows::{ConversationModel, ConversationRow, MessageModel, MessageRow};
use crate::chat::rows::{SubAgentModel, SubAgentRow, TodoModel, TodoRow};
use crate::chat::snippets;
use crate::chat::snippets::message_name;
use crate::chat::store;
use crate::chat::store::{ChatStore, StoreModel};
use crate::config::has_name;
use crate::order;
use crate::rows;
use crate::rows::{add_rows, copy_rows, keep_rows, select_rows, Copied};
use crate::text;
use crate::text::is_text;

verus! {

// ---------------------------------------------------------------------
// Deleting
// ---------------------------------------------------------------------

/// The conversation of a session that one of the given conversations
/// started.
pub open spec fn child_of(ids: Seq<Seq<char>>) -> spec_fn(SubAgentModel) -> Option<Seq<char>> {
    |s: SubAgentModel|
        if ids.contains(s.parent_conversation_id) {
            Some(s.conversation_id)
        } else {
            None
        }
}

/// The conversations that go when the given ones are deleted: these, and
/// those of the sub-agents that they started.
pub open spec fn targets(sub_agents: Seq<SubAgentModel>, ids: Seq<Seq<char>>) -> Seq<Seq<char>> {
    ids + sub_agents.filter_map(child_of(ids))
}

/// Whether a conversation is none of those that go.
pub open spec fn conversation_stays(gone: Seq<Seq<char>>) -> spec_fn(ConversationModel) -> bool {
    |c: ConversationModel| !gone.contains(c.conversation_id)
}

/// Whether a message belongs to none of the conversations that go.
pub open spec fn message_stays(gone: Seq<Seq<char>>) -> spec_fn(MessageModel) -> bool {
    |m: MessageModel| !gone.contains(m.conversation_id)
}

/// Whether a task belongs to none of the conversations that go.
pub open spec fn todo_stays(gone: Seq<Seq<char>>) -> spec_fn(TodoModel) -> bool {
    |t: TodoModel| !gone.contains(t.session_id)
}

/// Whether a session is of none of the conversations, and was started by
/// none of them.
pub open spec fn session_stays(ids: Seq<Seq<char>>) -> spec_fn(SubAgentModel) -> bool {
    |s: SubAgentModel| !ids.contains(s.parent_conversation_id) && !ids.contains(s.conversation_id)
}

/// The store without the given conversations, those of their sub-agents,
/// and everything that belongs to either.
pub open spec fn deleted(store: StoreModel, ids: Seq<Seq<char>>) -> StoreModel {
    let gone = targets(store.sub_agents, ids);
    StoreModel {
        conversations: store.conversations.filter(conversation_stays(gone)),
        messages: store.messages.filter(message_stays(gone)),
        sub_agents: store.sub_agents.filter(session_stays(ids)),
        todos: store.todos.filter(todo_stays(gone)),
    }
}

impl ChatStore {
    /// Deletes conversations together with those of their sub-agents, their
    /// messages and their tasks.
    pub fn delete_conversations(&self, conversation_ids: &Vec<String>) -> (r: ChatStore)
        ensures
            r.deep_view() == deleted(self.deep_view(), conversation_ids.deep_view()),
    {
        let ids = conversation_ids;
        let child = |s: &SubAgentRow| -> (o: Option<String>)
            ensures
                o.deep_view() == child_of(ids.deep_view())(s.deep_view()),
            {
                if has_name(ids, s.parent_conversation_id.as_str()) {
                    Some(s.conversation_id.clone())
                } else {
                    None
                }
            };
        let children = select_rows(&self.sub_agents, child, Ghost(child_of(ids.deep_view())));
        let gone = add_rows(ids, &children);
        let keep_conversation = |c: &ConversationRow| -> (b: bool)
            ensures
                b == conversation_stays(gone.deep_view())(c.deep_view()),
            { !has_name(&gone, c.conversation_id.as_str()) };
        let keep_message = |m: &MessageRow| -> (b: bool)
            ensures
                b == message_stays(gone.deep_view())(m.deep_view()),
            { !has_name(&gone, m.conversation_id.as_str()) };
        let keep_todo = |t: &TodoRow| -> (b: bool)
            ensures
                b == todo_stays(gone.deep_view())(t.deep_view()),
            { !has_name(&gone, t.session_id.as_str()) };
        let keep_session = |s: &SubAgentRow| -> (b: bool)
            ensures
                b == session_stays(ids.deep_view())(s.deep_view()),
            {
                !has_name(ids, s.parent_conversation_id.as_str()) && !has_name(
                    ids,
                    s.conversation_id.as_str(),
                )
            };
        ChatStore {
            conversations: keep_rows(
                &self.conversations,
                keep_conversation,
                Ghost(conversation_stays(gone.deep_view())),
            ),
            messages: keep_rows(
                &self.messages,
                keep_message,
                Ghost(message_stays(gone.deep_view())),
            ),
            sub_agents: keep_rows(
                &self.sub_agents,
                keep_session,
                Ghost(session_stays(ids.deep_view())),
            ),
            todos: keep_rows(&self.todos, keep_todo, Ghost(todo_stays(gone.deep_view()))),
        }
    }

    /// Deletes one conversation together with those of its sub-agents, its
    /// messages and its tasks.
    pub fn delete_conversation(&self, conversation_id: &str) -> (r: ChatStore)
        ensures
            r.deep_view() == deleted(self.deep_view(), seq![conversation_id@]),
    {
        let mut ids: Vec<String> = Vec::new();
        ids.push(conversation_id.to_string());
        proof {
            assert(ids.deep_view() =~= seq![conversation_id@]);
        }
        self.delete_conversations(&ids)
    }
}

/// Conversations deleted one after the other.
pub open spec fn deleted_in_turn(store: StoreModel, ids: Seq<Seq<char>>) -> StoreModel
    decreases ids.len(),
{
    if ids.len() == 0 {
        store
    } else {
        deleted(deleted_in_turn(store, ids.drop_last()), seq![ids.last()])
    }
}

/// A conversation goes exactly where it is given, or where a given one
/// started the session that it belongs to.
pub proof fn lemma_targets(sub_agents: Seq<SubAgentModel>, ids: Seq<Seq<char>>, x: Seq<char>)
    ensures
        targets(sub_agents, ids).contains(x) == (ids.contains(x) || exists|i: int|
            0 <= i < sub_agents.len() && (#[trigger] sub_agents[i]).conversation_id == x
                && ids.contains(sub_agents[i].parent_conversation_id)),
    decreases sub_agents.len(),
{
    let children = sub_agents.filter_map(child_of(ids));
    let t = targets(sub_agents, ids);
    if t.contains(x) && !ids.contains(x) {
        let k = choose|k: int| 0 <= k < t.len() && t[k] == x;
        assert(k >= ids.len()) by {
            if k < ids.len() {
                assert(ids[k] == x);
            }
        }
        assert(children[k - ids.len()] == x);
        assert(children.contains(x));
        sub_agents.lemma_filter_map_contains(child_of(ids), x);
        let s = choose|s: SubAgentModel| #[trigger] sub_agents.contains(s) && child_of(ids)(s) == Some(x);
        let i = choose|i: int| 0 <= i < sub_agents.len() && sub_agents[i] == s;
        assert(sub_agents[i].conversation_id == x);
    }
    if ids.contains(x) {
        let k = choose|k: int| 0 <= k < ids.len() && ids[k] == x;
        assert(t[k] == x);
    }
    if exists|i: int|
        0 <= i < sub_agents.len() && (#[trigger] sub_agents[i]).conversation_id == x
            && ids.contains(sub_agents[i].parent_conversation_id) {
        let i = choose|i: int|
            0 <= i < sub_agents.len() && (#[trigger] sub_agents[i]).conversation_id == x
                && ids.contains(sub_agents[i].parent_conversation_id);
        lemma_child_listed(sub_agents, ids, i);
        let k = choose|k: int| 0 <= k < children.len() && children[k] == x;
        assert(t[ids.len() + k] == x);
    }
}

proof fn lemma_child_listed(sub_agents: Seq<SubAgentModel>, ids: Seq<Seq<char>>, i: int)
    requires
        0 <= i < sub_agents.len(),
        ids.contains(sub_agents[i].parent_conversation_id),
    ensures
        sub_agents.filter_map(child_of(ids)).contains(sub_agents[i].conversation_id),
    decreases sub_agents.len(),
{
    let f = child_of(ids);
    let front = sub_agents.drop_last();
    let whole = sub_agents.filter_map(f);
    if i == sub_agents.len() - 1 {
        assert(whole.last() == sub_agents[i].conversation_id);
        assert(whole[whole.len() - 1] == sub_agents[i].conversation_id);
    } else {
        assert(front[i] == sub_agents[i]);
        lemma_child_listed(front, ids, i);
        let inner = front.filter_map(f);
        let k = choose|k: int| 0 <= k < inner.len() && inner[k] == sub_agents[i].conversation_id;
        assert(whole[k] == inner[k]);
    }
}

proof fn lemma_kept_session(sub_agents: Seq<SubAgentModel>, ids: Seq<Seq<char>>, s: SubAgentModel)
    ensures
        sub_agents.filter(session_stays(ids)).contains(s) == (sub_agents.contains(s)
            && session_stays(ids)(s)),
{
    let p = session_stays(ids);
    let kept = sub_agents.filter(p);
    if kept.contains(s) {
        sub_agents.lemma_filter_contains_rev(p, s);
        let k = choose|k: int| 0 <= k < kept.len() && kept[k] == s;
        sub_agents.lemma_filter_pred(p, k);
    }
    if sub_agents.contains(s) && p(s) {
        let i = choose|i: int| 0 <= i < sub_agents.len() && sub_agents[i] == s;
        sub_agents.lemma_filter_contains(p, i);
    }
}

proof fn lemma_push_contains(ids: Seq<Seq<char>>, id: Seq<char>, x: Seq<char>)
    ensures
        ids.push(id).contains(x) == (ids.contains(x) || x == id),
        seq![id].contains(x) == (x == id),
{
    if ids.contains(x) {
        let k = choose|k: int| 0 <= k < ids.len() && ids[k] == x;
        assert(ids.push(id)[k] == x);
    }
    if x == id {
        assert(ids.push(id)[ids.len() as int] == x);
        assert(seq![id][0] == x);
    }
}

/// What goes when one more conversation is deleted after others.
proof fn lemma_one_more(store: StoreModel, ids: Seq<Seq<char>>, id: Seq<char>, x: Seq<char>)
    ensures
        targets(store.sub_agents, ids.push(id)).contains(x) == (targets(
            store.sub_agents,
            ids,
        ).contains(x) || targets(deleted(store, ids).sub_agents, seq![id]).contains(x)),
{
    let before = store.sub_agents;
    let after = deleted(store, ids).sub_agents;
    let more = ids.push(id);
    lemma_targets(before, more, x);
    lemma_targets(before, ids, x);
    lemma_targets(after, seq![id], x);
    lemma_push_contains(ids, id, x);
    if exists|i: int|
        0 <= i < before.len() && (#[trigger] before[i]).conversation_id == x && more.contains(
            before[i].parent_conversation_id,
        ) {
        let i = choose|i: int|
            0 <= i < before.len() && (#[trigger] before[i]).conversation_id == x && more.contains(
                before[i].parent_conversation_id,
            );
        let s = before[i];
        lemma_push_contains(ids, id, s.parent_conversation_id);
        if !ids.contains(s.parent_conversation_id) && !ids.contains(x) {
            assert(before.contains(s));
            lemma_kept_session(before, ids, s);
            let k = choose|k: int| 0 <= k < after.len() && after[k] == s;
            assert(after[k].conversation_id == x);
        }
    }
    if exists|i: int|
        0 <= i < after.len() && (#[trigger] after[i]).conversation_id == x && seq![id].contains(
            after[i].parent_conversation_id,
        ) {
        let i = choose|i: int|
            0 <= i < after.len() && (#[trigger] after[i]).conversation_id == x && seq![id].contains(
                after[i].parent_conversation_id,
            );
        let s = after[i];
        lemma_push_contains(ids, id, s.parent_conversation_id);
        assert(after.contains(s));
        lemma_kept_session(before, ids, s);
        let k = choose|k: int| 0 <= k < before.len() && before[k] == s;
        assert(before[k].conversation_id == x);
    }
    if exists|i: int|
        0 <= i < before.len() && (#[trigger] before[i]).conversation_id == x && ids.contains(
            before[i].parent_conversation_id,
        ) {
        let i = choose|i: int|
            0 <= i < before.len() && (#[trigger] before[i]).conversation_id == x && ids.contains(
                before[i].parent_conversation_id,
            );
        lemma_push_contains(ids, id, before[i].parent_conversation_id);
        assert(before[i].conversation_id == x);
    }
}

proof fn lemma_delete_one_more(store: StoreModel, ids: Seq<Seq<char>>, id: Seq<char>)
    ensures
        deleted(deleted(store, ids), seq![id]) == deleted(store, ids.push(id)),
{
    let mid = deleted(store, ids);
    let last = deleted(mid, seq![id]);
    let whole = deleted(store, ids.push(id));
    let gone = targets(store.sub_agents, ids);
    let more = targets(mid.sub_agents, seq![id]);
    let all = targets(store.sub_agents, ids.push(id));
    assert forall|x: Seq<char>| #[trigger]
        all.contains(x) == (gone.contains(x) || more.contains(x)) by {
        lemma_one_more(store, ids, id, x);
    }
    rows::lemma_filter_twice(store.conversations, conversation_stays(gone), conversation_stays(more));
    rows::lemma_filter_agree(
        store.conversations,
        |c: ConversationModel| conversation_stays(gone)(c) && conversation_stays(more)(c),
        conversation_stays(all),
    );
    rows::lemma_filter_twice(store.messages, message_stays(gone), message_stays(more));
    rows::lemma_filter_agree(
        store.messages,
        |m: MessageModel| message_stays(gone)(m) && message_stays(more)(m),
        message_stays(all),
    );
    rows::lemma_filter_twice(store.todos, todo_stays(gone), todo_stays(more));
    rows::lemma_filter_agree(
        store.todos,
        |t: TodoModel| todo_stays(gone)(t) && todo_stays(more)(t),
        todo_stays(all),
    );
    rows::lemma_filter_twice(store.sub_agents, session_stays(ids), session_stays(seq![id]));
    assert forall|i: int| 0 <= i < store.sub_agents.len() implies (session_stays(ids)(
        #[trigger] store.sub_agents[i],
    ) && session_stays(seq![id])(store.sub_agents[i])) == session_stays(ids.push(id))(
        store.sub_agents[i],
    ) by {
        let s = store.sub_agents[i];
        lemma_push_contains(ids, id, s.parent_conversation_id);
        lemma_push_contains(ids, id, s.conversation_id);
    }
    rows::lemma_filter_agree(
        store.sub_agents,
        |s: SubAgentModel| session_stays(ids)(s) && session_stays(seq![id])(s),
        session_stays(ids.push(id)),
    );
}

/// Deleting nothing changes nothing.
pub proof fn law_delete_nothing(store: StoreModel)
    ensures
        deleted(store, Seq::empty()) == store,
{
    let none = Seq::<Seq<char>>::empty();
    let gone = targets(store.sub_agents, none);
    assert forall|x: Seq<char>| !(#[trigger] gone.contains(x)) by {
        lemma_targets(store.sub_agents, none, x);
    }
    rows::lemma_filter_all(store.conversations, conversation_stays(gone));
    rows::lemma_filter_all(store.messages, message_stays(gone));
    rows::lemma_filter_all(store.todos, todo_stays(gone));
    rows::lemma_filter_all(store.sub_agents, session_stays(none));
}

/// Deleting several conversations at once is deleting them one after the
/// other, in any order and with repetitions.
pub proof fn law_batch_delete_is_delete_in_turn(store: StoreModel, ids: Seq<Seq<char>>)
    ensures
        deleted(store, ids) == deleted_in_turn(store, ids),
    decreases ids.len(),
{
    if ids.len() == 0 {
        law_delete_nothing(store);
        assert(ids =~= Seq::<Seq<char>>::empty());
    } else {
        law_batch_delete_is_delete_in_turn(store, ids.drop_last());
        lemma_delete_one_more(store, ids.drop_last(), ids.last());
        assert(ids.drop_last().push(ids.last()) =~= ids);
    }
}

/// Nothing of a deleted conversation is left: no conversation, no message
/// and no task of it or of the sub-agents that it started, and no session
/// that it started or ran in.
pub proof fn law_delete_leaves_nothing(store: StoreModel, ids: Seq<Seq<char>>, x: Seq<char>)
    requires
        targets(store.sub_agents, ids).contains(x),
    ensures
        ({
            let after = deleted(store, ids);
            &&& forall|i: int|
                0 <= i < after.conversations.len() ==> (#[trigger] after.conversations[i]).conversation_id
                    != x
            &&& forall|i: int|
                0 <= i < after.messages.len() ==> (#[trigger] after.messages[i]).conversation_id
                    != x
            &&& forall|i: int|
                0 <= i < after.todos.len() ==> (#[trigger] after.todos[i]).session_id != x
            &&& ids.contains(x) ==> forall|i: int|
                0 <= i < after.sub_agents.len() ==> (#[trigger] after.sub_agents[i]).conversation_id
                    != x && after.sub_agents[i].parent_conversation_id != x
        }),
{
    let gone = targets(store.sub_agents, ids);
    let after = deleted(store, ids);
    assert forall|i: int| 0 <= i < after.conversations.len() implies (
    #[trigger] after.conversations[i]).conversation_id != x by {
        store.conversations.lemma_filter_pred(conversation_stays(gone), i);
    }
    assert forall|i: int| 0 <= i < after.messages.len() implies (
    #[trigger] after.messages[i]).conversation_id != x by {
        store.messages.lemma_filter_pred(message_stays(gone), i);
    }
    assert forall|i: int| 0 <= i < after.todos.len() implies (#[trigger] after.todos[i]).session_id
        != x by {
        store.todos.lemma_filter_pred(todo_stays(gone), i);
    }
    assert forall|i: int| 0 <= i < after.sub_agents.len() && ids.contains(x) implies (
    #[trigger] after.sub_agents[i]).conversation_id != x
        && after.sub_agents[i].parent_conversation_id != x by {
        store.sub_agents.lemma_filter_pred(session_stays(ids), i);
    }
}

// ---------------------------------------------------------------------
// Truncating
// ---------------------------------------------------------------------

/// Whether a message is the one of a conversation with an identifier.
pub open spec fn is_message(id: Seq<char>, message_id: Seq<char>) -> spec_fn(MessageModel) -> bool {
    |m: MessageModel| m.conversation_id == id && m.id == message_id
}

/// Whether a message of a conversation carries a response.
pub open spec fn is_response(id: Seq<char>, response_id: Seq<char>) -> spec_fn(
    MessageModel,
) -> bool {
    |m: MessageModel| m.conversation_id == id && m.response_id == response_id
}

/// Whether a message is a request before a given one.
pub open spec fn is_request_before(target: Seq<char>) -> spec_fn(MessageModel) -> bool {
    |m: MessageModel| order::before(m.id, target) && m.response_id.len() == 0
}

/// The identifier of the request immediately before a message, or the
/// message itself where there is none.
pub open spec fn request_start(store: StoreModel, id: Seq<char>, target: Seq<char>) -> Seq<char> {
    match store::last_of(store::messages_of(store, id).filter(is_request_before(target))) {
        Some(m) => m.id,
        None => target,
    }
}

/// Whether a message stays when a conversation is cut.
pub open spec fn stays_before(id: Seq<char>, from: Seq<char>) -> spec_fn(MessageModel) -> bool {
    |m: MessageModel| m.conversation_id != id || order::before(m.id, from)
}

/// The response of a message that goes when a conversation is cut.
pub open spec fn response_going(id: Seq<char>, from: Seq<char>) -> spec_fn(MessageModel) -> Option<
    Seq<char>,
> {
    |m: MessageModel|
        if m.conversation_id == id && !order::before(m.id, from) && m.response_id.len() > 0 {
            Some(m.response_id)
        } else {
            None
        }
}

/// Whether a task of a conversation belongs to none of the responses.
pub open spec fn todo_stays_in(id: Seq<char>, responses: Seq<Seq<char>>) -> spec_fn(
    TodoModel,
) -> bool {
    |t: TodoModel| t.session_id != id || !responses.contains(t.response_id)
}

/// Whether a message carries a response.
pub open spec fn has_any_response() -> spec_fn(MessageModel) -> bool {
    |m: MessageModel| m.response_id.len() > 0
}

/// A conversation after its messages were cut.
pub open spec fn refreshed(messages: Seq<MessageModel>, id: Seq<char>, now: Seq<char>) -> spec_fn(
    ConversationModel,
) -> ConversationModel {
    let own = order::sorted(messages.filter(store::in_conversation(id)), store::by_id());
    |c: ConversationModel|
        ConversationModel {
            message_count: store::message_count(messages, id),
            last_message_preview: match store::last_of(own) {
                Some(m) => m.content,
                None => Seq::empty(),
            },
            last_response_id: match store::last_of(own.filter(has_any_response())) {
                Some(m) => m.response_id,
                None => Seq::empty(),
            },
            input_tokens: 0,
            output_tokens: 0,
            cache_creation_input_tokens: 0,
            cache_read_input_tokens: 0,
            updated_at: now,
            ..c
        }
}

/// The store with a conversation cut: the messages from the given one on
/// go, and so do the tasks that belong to their responses.
pub open spec fn cut_from(
    store: StoreModel,
    id: Seq<char>,
    from: Seq<char>,
    now: Seq<char>,
) -> StoreModel {
    let messages = store.messages.filter(stays_before(id, from));
    let responses = store.messages.filter_map(response_going(id, from));
    store::with_conversation(
        StoreModel {
            messages,
            todos: store.todos.filter(todo_stays_in(id, responses)),
            ..store
        },
        id,
        refreshed(messages, id, now),
    )
}

/// Where a conversation is cut for a response: at the request before it or,
/// for the boundary of a compaction, at the boundary itself.
pub open spec fn response_cut(store: StoreModel, id: Seq<char>, response_id: Seq<char>) -> Option<
    Seq<char>,
> {
    match rows::first_row(store.messages, is_response(id, response_id)) {
        Some(m) => if m.status == "context_compaction"@ {
            Some(m.id)
        } else {
            Some(request_start(store, id, m.id))
        },
        None => None,
    }
}

/// Where a conversation is cut for a message: an answer goes together with
/// the request before it, any other message is cut at itself.
pub open spec fn message_cut(store: StoreModel, id: Seq<char>, message_id: Seq<char>) -> Option<
    Seq<char>,
> {
    match rows::first_row(store.messages, is_message(id, message_id)) {
        Some(m) => if m.role == "assistant"@ && m.status != "context_compaction"@ {
            Some(request_start(store, id, m.id))
        } else {
            Some(m.id)
        },
        None => None,
    }
}

/// The store with a conversation cut, or unchanged where there is no place
/// to cut it.
pub open spec fn cut_at(
    store: StoreModel,
    id: Seq<char>,
    place: Option<Seq<char>>,
    now: Seq<char>,
) -> StoreModel {
    match place {
        Some(from) => cut_from(store, id, from, now),
        None => store,
    }
}

impl ChatStore {
    /// Finds the request immediately before a message.
    fn preceding_request_id(&self, conversation_id: &str, target_id: &str) -> (r: String)
        ensures
            r@ == request_start(self.deep_view(), conversation_id@, target_id@),
    {
        let test = |m: &MessageRow| -> (b: bool)
            ensures
                b == is_request_before(target_id@)(m.deep_view()),
            {
                store::id_before(&m.id, target_id) && m.response_id.as_str().unicode_len() == 0
            };
        let requests = keep_rows(
            &self.conversation_messages(conversation_id),
            test,
            Ghost(is_request_before(target_id@)),
        );
        proof {
            assert(requests.deep_view().len() == requests@.len());
        }
        if requests.len() == 0 {
            return target_id.to_string();
        }
        let n: usize = requests.len() - 1;
        proof {
            assert(requests.deep_view()[n as int] == requests@[n as int].deep_view());
        }
        requests[n].id.clone()
    }

    /// Cuts a conversation from a message on.
    fn truncate_conversation_from_id(&self, conversation_id: &str, delete_from: &str, now: &str) -> (r:
        ChatStore)
        ensures
            r.deep_view() == cut_from(self.deep_view(), conversation_id@, delete_from@, now@),
    {
        let going = |m: &MessageRow| -> (o: Option<String>)
            ensures
                o.deep_view() == response_going(conversation_id@, delete_from@)(m.deep_view()),
            {
                if is_text(&m.conversation_id, conversation_id) && !store::id_before(
                    &m.id,
                    delete_from,
                ) && m.response_id.as_str().unicode_len() > 0 {
                    Some(m.response_id.clone())
                } else {
                    None
                }
            };
        let responses = select_rows(
            &self.messages,
            going,
            Ghost(response_going(conversation_id@, delete_from@)),
        );
        let keep_todo = |t: &TodoRow| -> (b: bool)
            ensures
                b == todo_stays_in(conversation_id@, responses.deep_view())(t.deep_view()),
            {
                !is_text(&t.session_id, conversation_id) || !has_name(
                    &responses,
                    t.response_id.as_str(),
                )
            };
        let todos = keep_rows(
            &self.todos,
            keep_todo,
            Ghost(todo_stays_in(conversation_id@, responses.deep_view())),
        );
        let keep_message = |m: &MessageRow| -> (b: bool)
            ensures
                b == stays_before(conversation_id@, delete_from@)(m.deep_view()),
            {
                !is_text(&m.conversation_id, conversation_id) || store::id_before(
                    &m.id,
                    delete_from,
                )
            };
        let messages = keep_rows(
            &self.messages,
            keep_message,
            Ghost(stays_before(conversation_id@, delete_from@)),
        );
        let count: i64 = store::count_messages(&messages, conversation_id);
        let own = store::sort_messages(store::unsorted_messages_of(&messages, conversation_id));
        let preview: String = if own.len() == 0 {
            String::new()
        } else {
            own[own.len() - 1].content.clone()
        };
        let responded = |m: &MessageRow| -> (b: bool)
            ensures
                b == has_any_response()(m.deep_view()),
            { m.response_id.as_str().unicode_len() > 0 };
        let answers = keep_rows(&own, responded, Ghost(has_any_response()));
        let response: String = if answers.len() == 0 {
            String::new()
        } else {
            answers[answers.len() - 1].response_id.clone()
        };
        let ghost kept = messages.deep_view();
        let ghost mine = own.deep_view();
        proof {
            assert(mine.len() == own@.len());
            assert(answers.deep_view().len() == answers@.len());
            if own@.len() > 0 {
                assert(mine[own@.len() - 1] == own@[own@.len() - 1].deep_view());
            } else {
                assert(preview@ =~= Seq::<char>::empty());
            }
            if answers@.len() > 0 {
                let k = answers@.len() - 1;
                assert(answers.deep_view()[k] == answers@[k].deep_view());
            } else {
                assert(response@ =~= Seq::<char>::empty());
            }
        }
        let mid = ChatStore {
            conversations: copy_rows(&self.conversations),
            messages,
            sub_agents: copy_rows(&self.sub_agents),
            todos,
        };
        let refresh = |c: &ConversationRow| -> (y: ConversationRow)
            ensures
                y.deep_view() == refreshed(
                    mid.messages.deep_view(),
                    conversation_id@,
                    now@,
                )(c.deep_view()),
            {
                let mut y = c.copied();
                y.message_count = count;
                y.last_message_preview = preview.clone();
                y.last_response_id = response.clone();
                y.input_tokens = 0;
                y.output_tokens = 0;
                y.cache_creation_input_tokens = 0;
                y.cache_read_input_tokens = 0;
                y.updated_at = now.to_string();
                y
            };
        mid.change_conversation(
            conversation_id,
            refresh,
            Ghost(refreshed(mid.messages.deep_view(), conversation_id@, now@)),
        )
    }

    /// Cuts a conversation from the exchange of a response on. An unknown
    /// response changes nothing.
    pub fn truncate_conversation_from_response(
        &self,
        conversation_id: &str,
        response_id: &str,
        now: &str,
    ) -> (r: ChatStore)
        ensures
            r.deep_view() == cut_at(
                self.deep_view(),
                conversation_id@,
                response_cut(self.deep_view(), conversation_id@, response_id@),
                now@,
            ),
    {
        let test = |m: &MessageRow| -> (b: bool)
            ensures
                b == is_response(conversation_id@, response_id@)(m.deep_view()),
            { is_text(&m.conversation_id, conversation_id) && is_text(&m.response_id, response_id) };
        match rows::find_row(
            &self.messages,
            test,
            Ghost(is_response(conversation_id@, response_id@)),
        ) {
            None => self.duplicate(),
            Some(m) => {
                let from = if is_text(&m.status, "context_compaction") {
                    m.id.clone()
                } else {
                    self.preceding_request_id(conversation_id, m.id.as_str())
                };
                self.truncate_conversation_from_id(conversation_id, from.as_str(), now)
            },
        }
    }

    /// Cuts a conversation from a message on. An unknown message changes
    /// nothing.
    pub fn truncate_conversation_from_message(
        &self,
        conversation_id: &str,
        message_id: &str,
        now: &str,
    ) -> (r: ChatStore)
        ensures
            r.deep_view() == cut_at(
                self.deep_view(),
                conversation_id@,
                message_cut(self.deep_view(), conversation_id@, message_id@),
                now@,
            ),
    {
        let test = |m: &MessageRow| -> (b: bool)
            ensures
                b == is_message(conversation_id@, message_id@)(m.deep_view()),
            { is_text(&m.conversation_id, conversation_id) && is_text(&m.id, message_id) };
        match rows::find_row(
            &self.messages,
            test,
            Ghost(is_message(conversation_id@, message_id@)),
        ) {
            None => self.duplicate(),
            Some(m) => {
                let from = if is_text(&m.role, "assistant") && !is_text(
                    &m.status,
                    "context_compaction",
                ) {
                    self.preceding_request_id(conversation_id, m.id.as_str())
                } else {
                    m.id.clone()
                };
                self.truncate_conversation_from_id(conversation_id, from.as_str(), now)
            },
        }
    }
}

proof fn lemma_request_start(store: StoreModel, id: Seq<char>, target: Seq<char>)
    ensures
        order::not_after(request_start(store, id, target), target),
{
    let p = is_request_before(target);
    let requests = store::messages_of(store, id).filter(p);
    order::lemma_before_total(target, target);
    if requests.len() > 0 {
        store::messages_of(store, id).lemma_filter_pred(p, requests.len() - 1);
        order::lemma_before_total(requests.last().id, target);
    }
}

/// Cutting a conversation keeps its messages before the cut, and the
/// messages of all other conversations, as they are; no message from the
/// cut on is left.
pub proof fn law_cut_keeps_what_is_before(
    store: StoreModel,
    id: Seq<char>,
    from: Seq<char>,
    now: Seq<char>,
    m: MessageModel,
)
    ensures
        cut_from(store, id, from, now).messages.contains(m) == (store.messages.contains(m) && (
        m.conversation_id != id || order::before(m.id, from))),
{
    let p = stays_before(id, from);
    let kept = store.messages.filter(p);
    if kept.contains(m) {
        store.messages.lemma_filter_contains_rev(p, m);
        let k = choose|k: int| 0 <= k < kept.len() && kept[k] == m;
        store.messages.lemma_filter_pred(p, k);
    }
    if store.messages.contains(m) && p(m) {
        let i = choose|i: int| 0 <= i < store.messages.len() && store.messages[i] == m;
        store.messages.lemma_filter_contains(p, i);
    }
}

/// Cutting a conversation at a message twice is cutting it once.
pub proof fn law_truncation_is_idempotent(
    store: StoreModel,
    id: Seq<char>,
    message_id: Seq<char>,
    now: Seq<char>,
    later: Seq<char>,
)
    ensures
        ({
            let once = cut_at(store, id, message_cut(store, id, message_id), now);
            cut_at(once, id, message_cut(once, id, message_id), later) == once
        }),
{
    let place = message_cut(store, id, message_id);
    let once = cut_at(store, id, place, now);
    let p = is_message(id, message_id);
    rows::lemma_first_row(store.messages, p);
    rows::lemma_first_row(once.messages, p);
    match place {
        None => {},
        Some(from) => {
            lemma_request_start(store, id, message_id);
            order::lemma_before_total(message_id, message_id);
            assert(!order::before(message_id, from));
            if rows::first_row(once.messages, p) is Some {
                let m = rows::first_row(once.messages, p)->0;
                law_cut_keeps_what_is_before(store, id, from, now, m);
                assert(false);
            }
        },
    }
}

/// Without the message there is nothing to cut.
pub proof fn law_unknown_message_changes_nothing(
    store: StoreModel,
    id: Seq<char>,
    message_id: Seq<char>,
    now: Seq<char>,
)
    requires
        forall|i: int|
            0 <= i < store.messages.len() ==> !((#[trigger] store.messages[i]).conversation_id == id
                && store.messages[i].id == message_id),
    ensures
        cut_at(store, id, message_cut(store, id, message_id), now) == store,
{
    let p = is_message(id, message_id);
    rows::lemma_first_row(store.messages, p);
    if rows::first_row(store.messages, p) is Some {
        let m = rows::first_row(store.messages, p)->0;
        let i = choose|i: int| 0 <= i < store.messages.len() && store.messages[i] == m;
        assert(store.messages[i].id == message_id);
    }
}

// ---------------------------------------------------------------------
// Forking
// ---------------------------------------------------------------------

/// The last message that a fork copies: the one of the given response or,
/// where there is none, no limit.
pub open spec fn fork_limit(store: StoreModel, id: Seq<char>, response_id: Seq<char>) -> Option<
    Seq<char>,
> {
    if response_id.len() == 0 {
        None
    } else {
        match rows::first_row(store.messages, is_response(id, response_id)) {
            Some(m) => Some(m.id),
            None => None,
        }
    }
}

/// Whether a message is not behind a limit.
pub open spec fn up_to(limit: Option<Seq<char>>) -> spec_fn(MessageModel) -> bool {
    |m: MessageModel|
        match limit {
            Some(id) => order::not_after(m.id, id),
            None => true,
        }
}

/// The messages that a fork copies, in order.
pub open spec fn forked_messages(store: StoreModel, id: Seq<char>, response_id: Seq<char>) -> Seq<
    MessageModel,
> {
    store::messages_of(store, id).filter(up_to(fork_limit(store, id, response_id)))
}

/// The surroundings of a fork: the new conversation, identifiers for its
/// rows, the time, and the values of columns that a fork does not copy.
pub struct ForkSurroundings {
    pub conversation_id: String,
    pub conversation_row_id: String,
    pub fresh: Vec<FreshId>,
    pub process: u32,
    pub now: String,
    pub blank: ConversationRow,
    pub blank_message: MessageRow,
}

/// The mathematical form of the surroundings of a fork.
pub struct ForkModel {
    pub conversation_id: Seq<char>,
    pub conversation_row_id: Seq<char>,
    pub fresh: Seq<FreshModel>,
    pub process: u32,
    pub now: Seq<char>,
    pub blank: ConversationModel,
    pub blank_message: MessageModel,
}

impl DeepView for ForkSurroundings {
    type V = ForkModel;

    open spec fn deep_view(&self) -> ForkModel {
        ForkModel {
            conversation_id: self.conversation_id@,
            conversation_row_id: self.conversation_row_id@,
            fresh: self.fresh.deep_view(),
            process: self.process,
            now: self.now@,
            blank: self.blank.deep_view(),
            blank_message: self.blank_message.deep_view(),
        }
    }
}

/// The copy of a message in a fork. Its checkpoint and its signed thoughts
/// are not copied.
pub open spec fn forked_message(m: MessageModel, f: ForkModel, index: int) -> MessageModel {
    MessageModel {
        id: f.fresh[index].row_id,
        message_id: snippets::chat_id(
            "msg"@ + text::decimal(index as nat),
            f.fresh[index].timestamp,
            f.process,
        ),
        conversation_id: f.conversation_id,
        checkpoint_id: f.blank_message.checkpoint_id,
        thinking_blocks_json: f.blank_message.thinking_blocks_json,
        created_at: f.now,
        ..m
    }
}

/// The copies of messages in a fork.
pub open spec fn forked_copies(messages: Seq<MessageModel>, f: ForkModel) -> Seq<MessageModel> {
    Seq::new(messages.len(), |i: int| forked_message(messages[i], f, i))
}

/// The conversation of a fork.
pub open spec fn forked_conversation(
    source: ConversationModel,
    source_id: Seq<char>,
    f: ForkModel,
    messages: Seq<MessageModel>,
) -> ConversationModel {
    let own = order::sorted(
        messages.filter(store::in_conversation(f.conversation_id)),
        store::by_id(),
    );
    ConversationModel {
        id: f.conversation_row_id,
        conversation_id: f.conversation_id,
        title: source.title,
        summary: source.summary,
        last_message_preview: own.last().content,
        message_count: store::message_count(messages, f.conversation_id),
        model: source.model,
        api_profile_name: source.api_profile_name,
        last_response_id: Seq::empty(),
        status: "active"@,
        directory_id: source.directory_id,
        forked_from_conversation_id: source_id,
        fork_message_count: store::message_count(messages, f.conversation_id),
        created_at: f.now,
        updated_at: f.now,
        ..f.blank
    }
}

/// The store after a fork.
pub open spec fn forked(
    store: StoreModel,
    source: ConversationModel,
    source_id: Seq<char>,
    response_id: Seq<char>,
    f: ForkModel,
) -> StoreModel {
    let messages = store.messages + forked_copies(
        forked_messages(store, source_id, response_id),
        f,
    );
    StoreModel {
        conversations: store.conversations.push(
            forked_conversation(source, source_id, f, messages),
        ),
        messages,
        ..store
    }
}

/// Why a conversation could not be forked.
#[derive(Clone, Copy, PartialEq, Eq, Structural, Debug)]
pub enum ForkError {
    /// There is no such conversation.
    NoSource,
    /// There is a conversation of the new identifier already.
    Taken,
    /// The new conversation would have no message, and so no preview.
    NoMessages,
}

/// Whether a fork would have a message.
pub open spec fn fork_has_messages(
    store: StoreModel,
    source_id: Seq<char>,
    response_id: Seq<char>,
    f: ForkModel,
) -> bool {
    (store.messages + forked_copies(forked_messages(store, source_id, response_id), f)).filter(
        store::in_conversation(f.conversation_id),
    ).len() > 0
}

fn copy_messages(messages: &Vec<MessageRow>, f: &ForkSurroundings) -> (r: Vec<MessageRow>)
    requires
        messages@.len() <= f.fresh@.len(),
    ensures
        r.deep_view() == forked_copies(messages.deep_view(), f.deep_view()),
{
    let ghost fm = f.deep_view();
    let mut r: Vec<MessageRow> = Vec::new();
    let mut i: usize = 0;
    while i < messages.len()
        invariant
            i <= messages@.len() <= f.fresh@.len(),
            fm == f.deep_view(),
            r@.len() == i,
            forall|j: int|
                0 <= j < i ==> (#[trigger] r@[j]).deep_view() == forked_message(
                    messages@[j].deep_view(),
                    fm,
                    j,
                ),
        decreases messages@.len() - i,
    {
        let fresh = &f.fresh[i];
        proof {
            assert(fm.fresh[i as int] == fresh.deep_view());
        }
        let mut m = messages[i].copied();
        m.id = fresh.row_id.clone();
        m.message_id = message_name(i, fresh.timestamp, f.process);
        m.conversation_id = f.conversation_id.clone();
        m.checkpoint_id = f.blank_message.checkpoint_id.clone();
        m.thinking_blocks_json = f.blank_message.thinking_blocks_json.clone();
        m.created_at = f.now.clone();
        r.push(m);
        i += 1;
    }
    proof {
        assert(r.deep_view() =~= forked_copies(messages.deep_view(), fm));
    }
    r
}

impl ChatStore {
    /// Lists the messages that a fork copies: those up to the message of a
    /// response, or all of them for the empty or an unknown response.
    pub fn messages_to_fork(&self, source_id: &str, up_to_response_id: &str) -> (r: Vec<MessageRow>)
        ensures
            r.deep_view() == forked_messages(self.deep_view(), source_id@, up_to_response_id@),
    {
        let test = |m: &MessageRow| -> (b: bool)
            ensures
                b == is_response(source_id@, up_to_response_id@)(m.deep_view()),
            {
                is_text(&m.conversation_id, source_id) && is_text(
                    &m.response_id,
                    up_to_response_id,
                )
            };
        let limit: Option<String> = if up_to_response_id.unicode_len() == 0 {
            None
        } else {
            match rows::find_row(
                &self.messages,
                test,
                Ghost(is_response(source_id@, up_to_response_id@)),
            ) {
                Some(m) => Some(m.id.clone()),
                None => None,
            }
        };
        proof {
            assert(limit.deep_view() == fork_limit(
                self.deep_view(),
                source_id@,
                up_to_response_id@,
            ));
        }
        let keep = |m: &MessageRow| -> (b: bool)
            ensures
                b == up_to(limit.deep_view())(m.deep_view()),
            {
                match &limit {
                    Some(id) => !store::id_before(id, m.id.as_str()),
                    None => true,
                }
            };
        keep_rows(&self.conversation_messages(source_id), keep, Ghost(up_to(limit.deep_view())))
    }

    /// Forks a conversation: a new one gets its properties and a copy of
    /// its messages up to the message of a response.
    pub fn fork_conversation(
        &self,
        source_conversation_id: &str,
        up_to_response_id: &str,
        surroundings: &ForkSurroundings,
    ) -> (r: Result<ChatStore, ForkError>)
        requires
            forked_messages(
                self.deep_view(),
                source_conversation_id@,
                up_to_response_id@,
            ).len() <= surroundings.fresh@.len(),
        ensures
            ({
                let store = self.deep_view();
                let f = surroundings.deep_view();
                let id = source_conversation_id@;
                let response = up_to_response_id@;
                match r {
                    Err(ForkError::NoSource) => store::conversation(store, id) is None,
                    Err(ForkError::Taken) => store::conversation(store, id) is Some
                        && store::conversation(store, f.conversation_id) is Some,
                    Err(ForkError::NoMessages) => store::conversation(store, id) is Some
                        && store::conversation(store, f.conversation_id) is None
                        && !fork_has_messages(store, id, response, f),
                    Ok(after) => store::conversation(store, id) is Some && store::conversation(
                        store,
                        f.conversation_id,
                    ) is None && fork_has_messages(store, id, response, f) && after.deep_view()
                        == forked(store, store::conversation(store, id)->0, id, response, f),
                }
            }),
    {
        let source = match self.find_conversation(source_conversation_id) {
            Some(c) => c,
            None => {
                return Err(ForkError::NoSource);
            },
        };
        if self.conversation_exists(surroundings.conversation_id.as_str()) {
            return Err(ForkError::Taken);
        }
        let chosen = self.messages_to_fork(source_conversation_id, up_to_response_id);
        proof {
            assert(chosen.deep_view().len() == chosen@.len());
        }
        let copies = copy_messages(&chosen, surroundings);
        let messages = add_rows(&self.messages, &copies);
        let unsorted = store::unsorted_messages_of(
            &messages,
            surroundings.conversation_id.as_str(),
        );
        proof {
            assert(unsorted.deep_view().len() == unsorted@.len());
            store::lemma_by_id_is_order();
            order::lemma_sorted(unsorted.deep_view(), store::by_id());
        }
        if unsorted.len() == 0 {
            return Err(ForkError::NoMessages);
        }
        let count: i64 = store::count_messages(&messages, surroundings.conversation_id.as_str());
        let own = store::sort_messages(unsorted);
        proof {
            assert(own.deep_view().len() == own@.len());
            let n = own@.len() - 1;
            assert(own.deep_view()[n] == own@[n].deep_view());
        }
        let mut row = surroundings.blank.copied();
        row.id = surroundings.conversation_row_id.clone();
        row.conversation_id = surroundings.conversation_id.clone();
        row.title = source.title.clone();
        row.summary = source.summary.clone();
        row.last_message_preview = own[own.len() - 1].content.clone();
        row.message_count = count;
        row.model = source.model.clone();
        row.api_profile_name = source.api_profile_name.clone();
        row.last_response_id = String::new();
        row.status = "active".to_string();
        row.directory_id = source.directory_id.clone();
        row.forked_from_conversation_id = source_conversation_id.to_string();
        row.fork_message_count = count;
        row.created_at = surroundings.now.clone();
        row.updated_at = surroundings.now.clone();
        let mut conversations = copy_rows(&self.conversations);
        let ghost before = conversations.deep_view();
        conversations.push(row);
        proof {
            assert(row.last_response_id@ =~= Seq::<char>::empty());
            assert(conversations.deep_view() =~= before.push(row.deep_view()));
        }
        Ok(
            ChatStore {
                conversations,
                messages,
                sub_agents: copy_rows(&self.sub_agents),
                todos: copy_rows(&self.todos),
            },
        )
    }
}

/// A fork leaves everything that was there as it is: rows are only added.
pub proof fn law_fork_only_adds(
    store: StoreModel,
    source: ConversationModel,
    source_id: Seq<char>,
    response_id: Seq<char>,
    f: ForkModel,
)
    ensures
        ({
            let after = forked(store, source, source_id, response_id, f);
            &&& store.conversations.is_prefix_of(after.conversations)
            &&& store.messages.is_prefix_of(after.messages)
            &&& after.sub_agents == store.sub_agents
            &&& after.todos == store.todos
        }),
{
    let after = forked(store, source, source_id, response_id, f);
    assert(store.conversations =~= after.conversations.take(store.conversations.len() as int));
    assert(store.messages =~= after.messages.take(store.messages.len() as int));
}

/// The copies in a fork are the chosen messages of its source, one for one
/// and in order, with what they say and how they were answered.
pub proof fn law_fork_copies_content(
    store: StoreModel,
    source_id: Seq<char>,
    response_id: Seq<char>,
    f: ForkModel,
    i: int,
)
    requires
        0 <= i < forked_messages(store, source_id, response_id).len(),
    ensures
        ({
            let chosen = forked_messages(store, source_id, response_id);
            let copies = forked_copies(chosen, f);
            &&& copies.len() == chosen.len()
            &&& copies[i].role == chosen[i].role
            &&& copies[i].content == chosen[i].content
            &&& copies[i].response_id == chosen[i].response_id
            &&& copies[i].status == chosen[i].status
            &&& copies[i].tool_calls_json == chosen[i].tool_calls_json
            &&& chosen[i].conversation_id == source_id
            &&& copies[i].conversation_id == f.conversation_id
        }),
{
    let all = store::messages_of(store, source_id);
    let p = up_to(fork_limit(store, source_id, response_id));
    let chosen = forked_messages(store, source_id, response_id);
    assert(chosen.contains(chosen[i]));
    all.lemma_filter_contains_rev(p, chosen[i]);
    let own = store.messages.filter(store::in_conversation(source_id));
    store::lemma_by_id_is_order();
    order::lemma_sorted(own, store::by_id());
    broadcast use vstd::seq_lib::group_to_multiset_ensures;

    assert(all.to_multiset().contains(chosen[i]));
    assert(own.contains(chosen[i]));
    let k = choose|k: int| 0 <= k < own.len() && own[k] == chosen[i];
    store.messages.lemma_filter_pred(store::in_conversation(source_id), k);
}

} // verus!
