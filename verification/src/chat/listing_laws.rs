//! What lists of conversations and messages hold, and in which order.

use vstd::prelude::*;
use crate::chat::context_laws;
use crate::chat::listing;
use crate::chat::record_laws;
use crate::chat::rows::{ConversationModel, MessageModel, SubAgentModel};
use crate::chat::snippets;
use crate::chat::store;
use crate::chat::store::StoreModel;
use crate::order;
use crate::rows;
use crate::text;
use crate::text_laws;

verus! {

/// Whether no sub-agent runs in a conversation.
pub open spec fn is_main(store: StoreModel, id: Seq<char>) -> bool {
    forall|i: int|
        0 <= i < store.sub_agents.len() ==> (#[trigger] store.sub_agents[i]).conversation_id != id
}

/// Lists of conversations hold those of the directory and the status that
/// were asked for, without those of sub-agents. The conversation that
/// changed last comes first; of several that changed at the same time, the
/// one with the larger identifier.
pub proof fn law_which_conversations_are_listed(
    store: StoreModel,
    directory: Seq<char>,
    status: Seq<char>,
    c: ConversationModel,
    i: int,
    j: int,
)
    ensures
        ({
            let list = listing::own_conversations(store, listing::in_directory(directory, status));
            &&& list.contains(c) <==> store.conversations.contains(c) && c.directory_id
                == directory && c.status == status && is_main(store, c.conversation_id)
            &&& 0 <= i < j < list.len() ==> order::before(list[j].updated_at, list[i].updated_at)
                || (list[j].updated_at == list[i].updated_at && !order::before(
                list[i].id,
                list[j].id,
            ))
        }),
{
    lemma_own(store, listing::in_directory(directory, status), c);
    lemma_own_sorted(store, listing::in_directory(directory, status), i, j);
}

/// Asking for conversations by their identifiers gives those of them that
/// are active and no sub-agent's.
pub proof fn law_conversations_by_ids(store: StoreModel, ids: Seq<Seq<char>>, c: ConversationModel)
    ensures
        listing::own_conversations(store, listing::among(ids)).contains(c)
            <==> store.conversations.contains(c) && ids.contains(c.conversation_id) && c.status
            == "active"@ && is_main(store, c.conversation_id),
{
    lemma_own(store, listing::among(ids), c);
}

proof fn lemma_recent_first_is_order()
    ensures
        order::is_order(listing::recent_first()),
{
    let le = listing::recent_first();
    assert forall|a: ConversationModel, b: ConversationModel| #[trigger] le(a, b) || le(b, a) by {
        listing::lemma_recent_first(a.updated_at, a.id, b.updated_at, b.id, a.updated_at, a.id);
    }
    assert forall|a: ConversationModel, b: ConversationModel, c: ConversationModel| #[trigger]
        le(a, b) && #[trigger] le(b, c) implies le(a, c) by {
        listing::lemma_recent_first(a.updated_at, a.id, b.updated_at, b.id, c.updated_at, c.id);
    }
}

proof fn lemma_own(
    store: StoreModel,
    p: spec_fn(ConversationModel) -> bool,
    c: ConversationModel,
)
    ensures
        listing::own_conversations(store, p).contains(c) <==> store.conversations.contains(c)
            && p(c) && is_main(store, c.conversation_id),
{
    let q = |d: ConversationModel| p(d) && store::session(store, d.conversation_id) is None;
    let kept = store.conversations.filter(q);
    lemma_recent_first_is_order();
    order::lemma_sorted(kept, listing::recent_first());
    rows::lemma_same_values(listing::own_conversations(store, p), kept);
    record_laws::lemma_filter_holds(store.conversations, q, c);
    rows::lemma_first_row(store.sub_agents, store::is_session(c.conversation_id));
    if is_main(store, c.conversation_id) {
        assert forall|i: int| 0 <= i < store.sub_agents.len() implies !store::is_session(
            c.conversation_id,
        )(#[trigger] store.sub_agents[i]) by {}
        record_laws::lemma_no_first(store.sub_agents, store::is_session(c.conversation_id));
    } else {
        let i = choose|i: int|
            0 <= i < store.sub_agents.len() && (#[trigger] store.sub_agents[i]).conversation_id
                == c.conversation_id;
        assert(store::is_session(c.conversation_id)(store.sub_agents[i]));
    }
}

proof fn lemma_own_sorted(
    store: StoreModel,
    p: spec_fn(ConversationModel) -> bool,
    i: int,
    j: int,
)
    ensures
        ({
            let list = listing::own_conversations(store, p);
            0 <= i < j < list.len() ==> order::before(list[j].updated_at, list[i].updated_at) || (
            list[j].updated_at == list[i].updated_at && !order::before(list[i].id, list[j].id))
        }),
{
    let q = |d: ConversationModel| p(d) && store::session(store, d.conversation_id) is None;
    lemma_recent_first_is_order();
    order::lemma_sorted(store.conversations.filter(q), listing::recent_first());
    let list = listing::own_conversations(store, p);
    if 0 <= i < j < list.len() {
        assert(listing::recent_first()(list[i], list[j]));
    }
}

/// A page is the part of a list from an offset on, as long as the limit says
/// or the list goes.
pub proof fn law_pages_are_parts<M>(s: Seq<M>, offset: int, limit: int, i: int)
    requires
        0 <= offset,
        0 <= limit,
    ensures
        ({
            let part = listing::page(s, offset, limit);
            &&& part.len() <= limit
            &&& part.len() == limit || part.len() == s.len() - offset || (part.len() == 0 && offset
                >= s.len())
            &&& 0 <= i < part.len() ==> part[i] == s[offset + i]
        }),
{
}

/// A limit or an offset that is not positive is none: the default limit is
/// taken, and the list from its start.
pub proof fn law_limits_of_pages(n: i32, default: int)
    ensures
        n > 0 ==> listing::limit_or(n, default) == n && listing::offset_of(n) == n,
        n <= 0 ==> listing::limit_or(n, default) == default && listing::offset_of(n) == 0,
{
}

/// What is listed of a conversation are the fields of its row. One of a
/// sub-agent says so, and names its parent and the sub-agent; any other is a
/// main one, with nothing there.
pub proof fn law_records_show_rows(c: ConversationModel, s: SubAgentModel)
    ensures
        ({
            let main = listing::record(c, None);
            let sub = listing::record(c, Some(s));
            let short = listing::listed(c);
            &&& main.conversation_id == c.conversation_id && main.title == c.title
            &&& main.summary == c.summary && main.last_message_preview == c.last_message_preview
            &&& main.message_count == c.message_count && main.model == c.model
            &&& main.api_profile_name == c.api_profile_name && main.status == c.status
            &&& main.directory_id == c.directory_id
            &&& main.forked_from_conversation_id == c.forked_from_conversation_id
            &&& main.fork_message_count == c.fork_message_count
            &&& main.created_at == c.created_at && main.updated_at == c.updated_at
            &&& main.input_tokens == c.input_tokens && main.output_tokens == c.output_tokens
            &&& main.cache_creation_input_tokens == c.cache_creation_input_tokens
            &&& main.cache_read_input_tokens == c.cache_read_input_tokens
            &&& main.total_duration_ms == c.total_duration_ms
            &&& c.emoji is Some ==> Some(main.emoji) == c.emoji
            &&& c.emoji is None ==> main.emoji.len() == 0
            &&& main.conversation_type == "main"@
            &&& main.parent_conversation_id.len() == 0 && main.sub_agent_id.len() == 0
            &&& main.sub_agent_name.len() == 0 && main.sub_agent_status.len() == 0
            &&& main.sub_agent_error.len() == 0
            &&& sub.conversation_type == "sub_agent"@
            &&& sub.parent_conversation_id == s.parent_conversation_id
            &&& sub.sub_agent_id == s.agent_id && sub.sub_agent_name == s.agent_name
            &&& sub.sub_agent_status == s.run_status && sub.sub_agent_error == s.error_message
            &&& sub.conversation_id == c.conversation_id && sub.title == c.title && sub.summary
                == c.summary && sub.message_count == c.message_count && sub.total_duration_ms
                == c.total_duration_ms && sub.input_tokens == c.input_tokens
                && sub.output_tokens == c.output_tokens && sub.emoji == main.emoji
                && sub.cache_creation_input_tokens == c.cache_creation_input_tokens
                && sub.cache_read_input_tokens == c.cache_read_input_tokens && sub.model == c.model
                && sub.created_at == c.created_at && sub.updated_at == c.updated_at && sub.status
                == c.status && sub.directory_id == c.directory_id
            &&& short == (crate::chat::rows::ConversationRecordModel {
                total_duration_ms: 0,
                ..main
            })
        }),
{
}

// ---------------------------------------------------------------------
// Sub-agents
// ---------------------------------------------------------------------

/// Sub-agents are listed in the order in which they started; of several that
/// started at the same time, the one with the smaller identifier first.
pub proof fn law_order_of_sub_agents(store: StoreModel, parents: Seq<Seq<char>>, i: int, j: int)
    ensures
        ({
            let list = order::sorted(
                store.sub_agents.filter(listing::started_by(parents)),
                listing::started_first(),
            );
            &&& listing::sessions_of(store, parents) == list.filter_map(
                listing::session_record(store),
            )
            &&& 0 <= i < j < list.len() ==> order::before(list[i].created_at, list[j].created_at)
                || (list[i].created_at == list[j].created_at && !order::before(
                list[j].id,
                list[i].id,
            ))
        }),
{
    let chosen = store.sub_agents.filter(listing::started_by(parents));
    let first = listing::started_first();
    listing::lemma_started_first();
    order::lemma_sorted(chosen, first);
    let list = order::sorted(chosen, first);
    if 0 <= i < j < list.len() {
        assert(first(list[i], list[j]));
    }
}

/// The sub-agents of parents are those whose session names one of them and
/// whose conversation is there.
pub proof fn law_which_sub_agents_are_listed(
    store: StoreModel,
    parents: Seq<Seq<char>>,
    s: SubAgentModel,
    i: int,
)
    requires
        store.sub_agents.contains(s),
        parents.contains(s.parent_conversation_id),
        0 <= i < store.conversations.len(),
        store.conversations[i].conversation_id == s.conversation_id,
        forall|j: int|
            0 <= j < i ==> (#[trigger] store.conversations[j]).conversation_id
                != s.conversation_id,
    ensures
        listing::sessions_of(store, parents).contains(
            listing::record(store.conversations[i], Some(s)),
        ),
{
    let p = listing::started_by(parents);
    let chosen = store.sub_agents.filter(p);
    let sorted = order::sorted(chosen, listing::started_first());
    listing::lemma_started_first();
    order::lemma_sorted(chosen, listing::started_first());
    rows::lemma_same_values(sorted, chosen);
    record_laws::lemma_filter_holds(store.sub_agents, p, s);
    assert(sorted.contains(s));
    let k = choose|k: int| 0 <= k < sorted.len() && sorted[k] == s;
    assert forall|j: int| 0 <= j < i implies !store::is_conversation(s.conversation_id)(
        #[trigger] store.conversations[j],
    ) by {}
    record_laws::lemma_first_at(
        store.conversations,
        store::is_conversation(s.conversation_id),
        i,
    );
    let r = listing::record(store.conversations[i], Some(s));
    assert(listing::session_record(store)(sorted[k]) == Some(r));
    rows::lemma_filter_map_contains(sorted, listing::session_record(store), r);
}

/// Every sub-agent that is listed was started by one of the parents.
pub proof fn law_no_other_sub_agents_are_listed(
    store: StoreModel,
    parents: Seq<Seq<char>>,
    r: crate::chat::rows::ConversationRecordModel,
)
    requires
        listing::sessions_of(store, parents).contains(r),
    ensures
        parents.contains(r.parent_conversation_id),
        exists|s: SubAgentModel| #[trigger]
            store.sub_agents.contains(s) && s.conversation_id == r.conversation_id
                && s.parent_conversation_id == r.parent_conversation_id && s.run_status
                == r.sub_agent_status,
{
    let p = listing::started_by(parents);
    let chosen = store.sub_agents.filter(p);
    let sorted = order::sorted(chosen, listing::started_first());
    listing::lemma_started_first();
    order::lemma_sorted(chosen, listing::started_first());
    rows::lemma_same_values(sorted, chosen);
    rows::lemma_filter_map_contains(sorted, listing::session_record(store), r);
    let k = choose|k: int|
        0 <= k < sorted.len() && listing::session_record(store)(#[trigger] sorted[k]) == Some(r);
    let s = sorted[k];
    assert(sorted.contains(s));
    record_laws::lemma_filter_holds(store.sub_agents, p, s);
    rows::lemma_first_row(store.conversations, store::is_conversation(s.conversation_id));
}

// ---------------------------------------------------------------------
// Messages
// ---------------------------------------------------------------------

/// What is listed of a message are the fields of its row.
pub proof fn law_messages_show_rows(m: MessageModel)
    ensures
        ({
            let r = listing::listed_message(m);
            &&& r.id == m.id && r.role == m.role && r.content == m.content
            &&& r.thinking == m.thinking && r.status == m.status && r.model == m.model
            &&& r.response_id == m.response_id && r.checkpoint_id == m.checkpoint_id
            &&& r.tool_calls_json == m.tool_calls_json
            &&& r.interruption_reason == m.interruption_reason
            &&& r.recovery_outcome == m.recovery_outcome
            &&& r.created_at == m.created_at
        }),
{
}

/// The messages of a conversation are listed by their identifiers, in
/// ascending order, and they are the rows with its identifier.
pub proof fn law_messages_are_in_order(
    store: StoreModel,
    id: Seq<char>,
    m: MessageModel,
    i: int,
    j: int,
)
    ensures
        ({
            let list = store::messages_of(store, id);
            &&& list.contains(m) <==> store.messages.contains(m) && m.conversation_id == id
            &&& 0 <= i < j < list.len() ==> !order::before(list[j].id, list[i].id)
        }),
{
    context_laws::lemma_own_messages(store, id);
    let list = store::messages_of(store, id);
    if 0 <= i < j < list.len() {
        assert(store::by_id()(list[i], list[j]));
    }
}

/// The messages of the user are those with that role; the place of a
/// compaction is none of them.
pub proof fn law_messages_of_the_user(
    messages: Seq<MessageModel>,
    u: crate::chat::rows::UserMessageModel,
)
    ensures
        messages.filter_map(listing::user_summary()).contains(u) <==> exists|i: int|
            0 <= i < messages.len() && (#[trigger] messages[i]).role == "user"@
                && messages[i].status != "context_compaction"@ && messages[i].id == u.id
                && messages[i].content == u.content && messages[i].created_at == u.created_at,
{
    let f = listing::user_summary();
    rows::lemma_filter_map_contains(messages, f, u);
    if exists|i: int| 0 <= i < messages.len() && f(#[trigger] messages[i]) == Some(u) {
        let i = choose|i: int| 0 <= i < messages.len() && f(#[trigger] messages[i]) == Some(u);
        assert(messages[i].id == u.id);
    }
    if exists|i: int|
        0 <= i < messages.len() && (#[trigger] messages[i]).role == "user"@ && messages[i].status
            != "context_compaction"@ && messages[i].id == u.id && messages[i].content == u.content
            && messages[i].created_at == u.created_at {
        let i = choose|i: int|
            0 <= i < messages.len() && (#[trigger] messages[i]).role == "user"@
                && messages[i].status != "context_compaction"@ && messages[i].id == u.id
                && messages[i].content == u.content && messages[i].created_at == u.created_at;
        assert(f(messages[i]) == Some(u));
    }
}

/// The checkpoints of a conversation are those that messages of the user
/// carry, each once.
pub proof fn law_checkpoints_of_messages(messages: Seq<MessageModel>, id: Seq<char>)
    ensures
        ({
            let ids = listing::distinct(messages.filter_map(listing::checkpoint_of_user()));
            &&& ids.contains(id) <==> id.len() > 0 && exists|i: int|
                0 <= i < messages.len() && (#[trigger] messages[i]).role == "user"@
                    && messages[i].checkpoint_id == id
            &&& ids.no_duplicates()
        }),
{
    let f = listing::checkpoint_of_user();
    let all = messages.filter_map(f);
    rows::lemma_filter_map_contains(messages, f, id);
    lemma_distinct(all, id);
    if exists|i: int| 0 <= i < messages.len() && f(#[trigger] messages[i]) == Some(id) {
        let i = choose|i: int| 0 <= i < messages.len() && f(#[trigger] messages[i]) == Some(id);
        assert(messages[i].checkpoint_id == id);
    }
    if id.len() > 0 && exists|i: int|
        0 <= i < messages.len() && (#[trigger] messages[i]).role == "user"@
            && messages[i].checkpoint_id == id {
        let i = choose|i: int|
            0 <= i < messages.len() && (#[trigger] messages[i]).role == "user"@
                && messages[i].checkpoint_id == id;
        assert(f(messages[i]) == Some(id));
    }
}

proof fn lemma_distinct(s: Seq<Seq<char>>, x: Seq<char>)
    ensures
        listing::distinct(s).contains(x) <==> s.contains(x),
        listing::distinct(s).no_duplicates(),
    decreases s.len(),
{
    if s.len() > 0 {
        let front = s.drop_last();
        let before = listing::distinct(front);
        lemma_distinct(front, x);
        lemma_distinct(front, s.last());
        assert(s.contains(x) <==> front.contains(x) || x == s.last()) by {
            if front.contains(x) {
                let k = choose|k: int| 0 <= k < front.len() && front[k] == x;
                assert(s[k] == x);
            }
            if x == s.last() {
                assert(s[s.len() - 1] == x);
            }
            if s.contains(x) && x != s.last() {
                let k = choose|k: int| 0 <= k < s.len() && s[k] == x;
                assert(front[k] == x);
            }
        }
        if !before.contains(s.last()) {
            let now = before.push(s.last());
            if before.contains(x) {
                let k = choose|k: int| 0 <= k < before.len() && before[k] == x;
                assert(now[k] == x);
            }
            if x == s.last() {
                assert(now[before.len() as int] == x);
            }
            if now.contains(x) && x != s.last() {
                let k = choose|k: int| 0 <= k < now.len() && now[k] == x;
                assert(before[k] == x);
            }
        }
    }
}

/// A page of messages holds the last ones of those before the given message;
/// without one, the last ones of all.
pub proof fn law_pages_of_messages(messages: Seq<MessageModel>, id: Seq<char>, limit: int, i: int)
    requires
        0 <= limit,
    ensures
        ({
            let earlier = listing::before_message(messages, id);
            let part = listing::tail(earlier, limit);
            &&& part.len() <= limit
            &&& part.len() < limit ==> part.len() == earlier.len()
            &&& 0 <= i < part.len() ==> part[i] == earlier[earlier.len() - part.len() + i]
            &&& id.len() == 0 ==> earlier == messages
            &&& id.len() > 0 ==> forall|m: MessageModel| #[trigger]
                earlier.contains(m) <==> messages.contains(m) && order::before(m.id, id)
        }),
{
    let p = |m: MessageModel| id.len() == 0 || order::before(m.id, id);
    if id.len() == 0 {
        rows::lemma_filter_all(messages, p);
    } else {
        assert forall|m: MessageModel| #[trigger]
            listing::before_message(messages, id).contains(m) <==> messages.contains(m)
                && order::before(m.id, id) by {
            record_laws::lemma_filter_holds(messages, p, m);
        }
    }
}

/// The latest result of a tool is that of the last message of a tool in
/// which there is one.
pub proof fn law_latest_result_of_a_tool(
    store: StoreModel,
    id: Seq<char>,
    tool: Seq<char>,
    i: int,
)
    ensures
        ({
            let list = store::messages_of(store, id);
            let found = listing::latest_tool_result(store, id, tool);
            let gives = |m: MessageModel|
                m.role == "tool"@ && snippets::tool_result(m.content, tool) is Some;
            &&& 0 <= i < list.len() && gives(list[i]) && (forall|j: int|
                i < j < list.len() ==> !gives(#[trigger] list[j])) ==> found
                == snippets::tool_result(list[i].content, tool)
            &&& (forall|j: int| 0 <= j < list.len() ==> !gives(#[trigger] list[j]))
                ==> found is None
        }),
{
    let list = store::messages_of(store, id);
    let p = listing::holds_result(tool);
    let gives = |m: MessageModel|
        m.role == "tool"@ && snippets::tool_result(m.content, tool) is Some;
    if 0 <= i < list.len() && gives(list[i]) && (forall|j: int|
        i < j < list.len() ==> !gives(#[trigger] list[j])) {
        lemma_last_kept(list, p, i);
    }
    if forall|j: int| 0 <= j < list.len() ==> !gives(#[trigger] list[j]) {
        assert forall|j: int| 0 <= j < list.len() implies !p(#[trigger] list[j]) by {
            assert(!gives(list[j]));
        }
        crate::chat::laws::lemma_filter_none(list, p);
    }
}

/// The last of what is kept is the last that passes.
proof fn lemma_last_kept<M>(s: Seq<M>, p: spec_fn(M) -> bool, i: int)
    requires
        0 <= i < s.len(),
        p(s[i]),
        forall|j: int| i < j < s.len() ==> !p(#[trigger] s[j]),
    ensures
        s.filter(p).len() > 0,
        s.filter(p).last() == s[i],
    decreases s.len(),
{
    reveal_with_fuel(Seq::filter, 2);
    if i < s.len() - 1 {
        assert(!p(s[s.len() - 1]));
        let front = s.drop_last();
        assert(front[i] == s[i]);
        assert forall|j: int| i < j < front.len() implies !p(#[trigger] front[j]) by {
            assert(front[j] == s[j]);
        }
        lemma_last_kept(front, p, i);
    }
}

// ---------------------------------------------------------------------
// Texts that are shown
// ---------------------------------------------------------------------

/// A text is shown as its words with single spaces between them. A line of
/// words is shown as it is where it is short enough, and else cut, with an
/// ellipsis behind what is left. White space elsewhere makes no difference.
pub proof fn law_snippets_show_words(a: Seq<char>, b: Seq<char>, max_chars: int)
    requires
        0 <= max_chars,
    ensures
        text::words(text::trimmed(a)) == text::words(text::trimmed(b)) ==> snippets::snippet(
            a,
            max_chars,
        ) == snippets::snippet(b, max_chars),
        snippets::is_line(a) && text::trimmed(a) == a && a.len() <= max_chars
            ==> snippets::snippet(a, max_chars) == a,
        snippets::is_line(a) && text::trimmed(a) == a && a.len() > max_chars
            ==> snippets::snippet(a, max_chars) == a.take(max_chars).push('…'),
{
    if snippets::is_line(a) {
        snippets::lemma_line_stays(a);
    }
}

/// A title is a text shown with at most eighty characters; without a text it
/// is that of a new conversation.
pub proof fn law_titles_are_short(source: Seq<char>)
    ensures
        snippets::title_of(Some(source)).len() <= 81,
        snippets::is_line(source) && text::trimmed(source) == source && source.len() <= 80
            ==> snippets::title_of(Some(source)) == source,
        snippets::is_line(source) && text::trimmed(source) == source && source.len() > 80
            ==> snippets::title_of(Some(source)) == source.take(80).push('…'),
        snippets::title_of(None) == seq!['新', '对', '话'],
{
    snippets::law_snippet_length(source, 80);
    law_snippets_show_words(source, source, 80);
    let new = seq!['新', '对', '话'];
    reveal_strlit("新对话");
    assert("新对话"@ =~= new);
    assert(snippets::is_line(new));
    assert(text::trimmed_start(new) == new);
    assert(text::trimmed(new) == new);
    law_snippets_show_words(new, new, 80);
}

// ---------------------------------------------------------------------
// Searching
// ---------------------------------------------------------------------

/// Whether a text holds another, upper and lower case of ASCII letters
/// aside.
pub open spec fn holds_words(s: Seq<char>, q: Seq<char>) -> bool {
    exists|k: int| #[trigger] stands_from(s, q, k)
}

/// Whether a text stands in another at a place, upper and lower case of
/// ASCII letters aside.
pub open spec fn stands_from(s: Seq<char>, q: Seq<char>, k: int) -> bool {
    0 <= k && k + q.len() <= s.len() && forall|i: int|
        0 <= i < q.len() ==> text::ascii_lower(s)[k + i] == #[trigger] text::ascii_lower(q)[i]
}

/// Exchanging a character in a text is exchanging it in its parts.
proof fn lemma_replaced_concat(a: Seq<char>, b: Seq<char>, c: char, by: Seq<char>)
    ensures
        text::replaced(a + b, c, by) == text::replaced(a, c, by) + text::replaced(b, c, by),
    decreases b.len(),
{
    if b.len() == 0 {
        assert(a + b =~= a);
        assert(text::replaced(a, c, by) + text::replaced(b, c, by) =~= text::replaced(a, c, by));
    } else {
        lemma_replaced_concat(a, b.drop_last(), c, by);
        assert((a + b).drop_last() =~= a + b.drop_last());
        assert(text::replaced(a + b, c, by) =~= text::replaced(a, c, by) + text::replaced(
            b,
            c,
            by,
        ));
    }
}

spec fn escaped(q: Seq<char>) -> Seq<char> {
    text::replaced(text::replaced(q, '%', "\\%"@), '_', "\\_"@)
}

proof fn lemma_replaced_one(c: char, d: char, by: Seq<char>)
    ensures
        text::replaced(seq![c], d, by) == (if c == d {
            by
        } else {
            seq![c]
        }),
{
    let s = seq![c];
    assert(s.drop_last() =~= Seq::empty());
    assert(text::replaced(s.drop_last(), d, by) =~= Seq::empty());
    assert(text::replaced(s, d, by) =~= (if c == d {
        by
    } else {
        seq![c]
    }));
}

/// Writing a pattern writes each character on its own.
proof fn lemma_escaped(c: char, rest: Seq<char>)
    ensures
        escaped(seq![c] + rest) == (if c == '%' || c == '_' {
            seq!['\\', c]
        } else {
            seq![c]
        }) + escaped(rest),
        escaped(Seq::empty()) == Seq::<char>::empty(),
{
    reveal_strlit("\\%");
    reveal_strlit("\\_");
    assert("\\%"@ =~= seq!['\\', '%']);
    assert("\\_"@ =~= seq!['\\', '_']);
    let none = Seq::<char>::empty();
    assert(text::replaced(none, '%', "\\%"@) == none);
    assert(text::replaced(none, '_', "\\_"@) == none);
    lemma_replaced_concat(seq![c], rest, '%', "\\%"@);
    lemma_replaced_one(c, '%', "\\%"@);
    let once = text::replaced(rest, '%', "\\%"@);
    if c == '%' {
        lemma_replaced_concat(seq!['\\', '%'], once, '_', "\\_"@);
        assert(seq!['\\', '%'] =~= seq!['\\'] + seq!['%']);
        lemma_replaced_concat(seq!['\\'], seq!['%'], '_', "\\_"@);
        lemma_replaced_one('\\', '_', "\\_"@);
        lemma_replaced_one('%', '_', "\\_"@);
    } else {
        lemma_replaced_concat(seq![c], once, '_', "\\_"@);
        lemma_replaced_one(c, '_', "\\_"@);
    }
}

proof fn lemma_any_text(s: Seq<char>)
    ensures
        snippets::matches_pattern(seq!['%'], s, Some('\\')),
    decreases s.len(),
{
    let p = seq!['%'];
    assert(p.skip(1) =~= Seq::empty());
    if s.len() > 0 {
        lemma_any_text(s.skip(1));
    }
    reveal_with_fuel(snippets::matches_pattern, 2);
}

/// A pattern with a text in front matches what begins with the text.
proof fn lemma_text_in_front(q: Seq<char>, s: Seq<char>)
    requires
        !q.contains('\\'),
    ensures
        snippets::matches_pattern(escaped(q) + seq!['%'], s, Some('\\')) <==> stands_from(s, q, 0),
    decreases q.len(),
{
    let p = escaped(q) + seq!['%'];
    if q.len() == 0 {
        lemma_escaped('a', Seq::empty());
        assert(q =~= Seq::empty());
        assert(p =~= seq!['%']);
        lemma_any_text(s);
    } else {
        let c = q[0];
        let rest = q.skip(1);
        assert(q =~= seq![c] + rest);
        lemma_escaped(c, rest);
        assert(q.contains(c));
        assert(!rest.contains('\\')) by {
            if rest.contains('\\') {
                let k = choose|k: int| 0 <= k < rest.len() && rest[k] == '\\';
                assert(q[k + 1] == '\\');
            }
        }
        let after = escaped(rest) + seq!['%'];
        if s.len() > 0 {
            lemma_text_in_front(rest, s.skip(1));
            lemma_one_more(q, s);
        }
        if c == '%' || c == '_' {
            assert(p[0] == '\\' && p[1] == c);
            assert(p.skip(2) =~= after);
        } else {
            assert(p[0] == c);
            assert(p.skip(1) =~= after);
        }
        if s.len() == 0 {
            assert(!stands_from(s, q, 0));
        }
    }
}

proof fn lemma_one_more(q: Seq<char>, s: Seq<char>)
    requires
        q.len() > 0,
        s.len() > 0,
    ensures
        stands_from(s, q, 0) <==> text::ascii_lower_char(q[0]) == text::ascii_lower_char(s[0])
            && stands_from(s.skip(1), q.skip(1), 0),
{
    let a = text::ascii_lower(q);
    let b = text::ascii_lower(s);
    let c = text::ascii_lower(q.skip(1));
    let d = text::ascii_lower(s.skip(1));
    if stands_from(s, q, 0) {
        assert(a[0] == b[0int + 0]);
        assert forall|i: int| 0 <= i < q.skip(1).len() implies d[0 + i] == #[trigger] c[i] by {
            assert(a[i + 1] == b[0 + (i + 1)]);
            assert(q.skip(1)[i] == q[i + 1]);
            assert(s.skip(1)[i] == s[i + 1]);
        }
    }
    if text::ascii_lower_char(q[0]) == text::ascii_lower_char(s[0]) && stands_from(
        s.skip(1),
        q.skip(1),
        0,
    ) {
        assert forall|i: int| 0 <= i < q.len() implies b[0 + i] == #[trigger] a[i] by {
            if i > 0 {
                assert(c[i - 1] == d[0 + (i - 1)]);
                assert(q.skip(1)[i - 1] == q[i]);
                assert(s.skip(1)[i - 1] == s[i]);
            }
        }
    }
}

/// A pattern with anything in front matches what holds the text somewhere.
proof fn lemma_text_somewhere(q: Seq<char>, s: Seq<char>)
    requires
        !q.contains('\\'),
    ensures
        snippets::matches_pattern(
            seq!['%'] + (escaped(q) + seq!['%']),
            s,
            Some('\\'),
        ) <==> holds_words(s, q),
    decreases s.len(),
{
    let inner = escaped(q) + seq!['%'];
    let p = seq!['%'] + inner;
    assert(p.skip(1) =~= inner);
    assert(p[0] == '%');
    lemma_text_in_front(q, s);
    if s.len() > 0 {
        let rest = s.skip(1);
        lemma_text_somewhere(q, rest);
        assert forall|k: int| 0 <= k implies #[trigger] stands_from(rest, q, k) == stands_from(
            s,
            q,
            k + 1,
        ) by {
            lemma_shifted(q, s, k);
        }
        if holds_words(rest, q) {
            let k = choose|k: int| #[trigger] stands_from(rest, q, k);
            assert(stands_from(s, q, k + 1));
        }
        if holds_words(s, q) && !stands_from(s, q, 0) {
            let k = choose|k: int| #[trigger] stands_from(s, q, k);
            assert(stands_from(rest, q, k - 1));
        }
    } else {
        if holds_words(s, q) {
            let k = choose|k: int| #[trigger] stands_from(s, q, k);
            assert(k == 0);
        }
    }
}

proof fn lemma_shifted(q: Seq<char>, s: Seq<char>, k: int)
    requires
        s.len() > 0,
        0 <= k,
    ensures
        stands_from(s.skip(1), q, k) == stands_from(s, q, k + 1),
{
    let a = text::ascii_lower(q);
    let b = text::ascii_lower(s);
    let d = text::ascii_lower(s.skip(1));
    if stands_from(s.skip(1), q, k) {
        assert forall|i: int| 0 <= i < q.len() implies b[k + 1 + i] == #[trigger] a[i] by {
            assert(d[k + i] == a[i]);
            assert(s.skip(1)[k + i] == s[k + i + 1]);
        }
    }
    if stands_from(s, q, k + 1) {
        assert forall|i: int| 0 <= i < q.len() implies d[k + i] == #[trigger] a[i] by {
            assert(b[k + 1 + i] == a[i]);
            assert(s.skip(1)[k + i] == s[k + i + 1]);
        }
    }
}

proof fn lemma_no_zero(s: Seq<char>)
    requires
        !s.contains('\0'),
    ensures
        snippets::until_zero(s) == s,
    decreases s.len(),
{
    if s.len() > 0 {
        assert(s.contains(s[0]));
        let rest = s.skip(1);
        assert(!rest.contains('\0')) by {
            if rest.contains('\0') {
                let k = choose|k: int| 0 <= k < rest.len() && rest[k] == '\0';
                assert(s[k + 1] == '\0');
            }
        }
        lemma_no_zero(rest);
        assert(snippets::until_zero(s) =~= s);
    } else {
        assert(snippets::until_zero(s) =~= s);
    }
}

proof fn lemma_pattern_has_no_zero(q: Seq<char>)
    requires
        !q.contains('\0'),
    ensures
        !escaped(q).contains('\0'),
    decreases q.len(),
{
    lemma_escaped('a', Seq::empty());
    if q.len() > 0 {
        let c = q[0];
        let rest = q.skip(1);
        assert(q =~= seq![c] + rest);
        assert(q.contains(c));
        lemma_escaped(c, rest);
        assert(!rest.contains('\0')) by {
            if rest.contains('\0') {
                let k = choose|k: int| 0 <= k < rest.len() && rest[k] == '\0';
                assert(q[k + 1] == '\0');
            }
        }
        lemma_pattern_has_no_zero(rest);
        let front = if c == '%' || c == '_' {
            seq!['\\', c]
        } else {
            seq![c]
        };
        if escaped(q).contains('\0') {
            let k = choose|k: int| 0 <= k < escaped(q).len() && escaped(q)[k] == '\0';
            if k >= front.len() {
                assert(escaped(rest)[k - front.len()] == '\0');
            }
        }
    } else {
        assert(q =~= Seq::empty());
    }
}

/// A search finds the texts that hold what is searched, upper and lower case
/// of ASCII letters aside; the wildcards of patterns stand for themselves.
/// This is said of searches without a backslash and of texts without a zero
/// character.
pub proof fn law_search_finds_texts(s: Seq<char>, query: Seq<char>)
    requires
        !s.contains('\0'),
        !query.contains('\0'),
        !query.contains('\\'),
    ensures
        snippets::like(s, snippets::search_pattern(query), Some('\\')) <==> holds_words(s, query),
{
    let p = snippets::search_pattern(query);
    let inner = escaped(query) + seq!['%'];
    reveal_strlit("%");
    assert("%"@ =~= seq!['%']);
    assert(p =~= seq!['%'] + inner);
    lemma_pattern_has_no_zero(query);
    assert(!p.contains('\0')) by {
        if p.contains('\0') {
            let k = choose|k: int| 0 <= k < p.len() && p[k] == '\0';
            if 1 <= k < p.len() - 1 {
                assert(escaped(query)[k - 1] == '\0');
            }
        }
    }
    lemma_no_zero(p);
    lemma_no_zero(s);
    lemma_text_somewhere(query, s);
}

/// A search gives at most fifty conversations: those that are active and no
/// sub-agent's, and that match in the title, the summary, the preview or a
/// message. Each is shown with the fields of its row, and with the part of
/// its last matching message where the match is; where no message with
/// content matches, with the preview.
pub proof fn law_what_a_search_gives(
    store: StoreModel,
    query: Seq<char>,
    c: ConversationModel,
    i: int,
)
    ensures
        ({
            let pattern = snippets::search_pattern(query);
            let hits = listing::own_conversations(store, listing::matches_search(store, pattern));
            let results = listing::search_results(store, query);
            let like = |t: Seq<char>| snippets::like(t, pattern, Some('\\'));
            &&& hits.contains(c) <==> store.conversations.contains(c) && c.status == "active"@
                && is_main(store, c.conversation_id) && (like(c.title) || like(c.summary) || like(
                c.last_message_preview,
            ) || exists|m: MessageModel| #[trigger]
                store.messages.contains(m) && m.conversation_id == c.conversation_id && like(
                    m.content,
                ))
            &&& results.len() <= 50
            &&& hits.len() <= 50 ==> results.len() == hits.len()
            &&& hits.len() > 50 ==> results.len() == 50
            &&& 0 <= i < results.len() ==> {
                let r = results[i];
                let h = hits[i];
                let own = store::messages_of(store, h.conversation_id);
                &&& r.conversation_id == h.conversation_id && r.title == h.title && r.summary
                    == h.summary && r.last_message_preview == h.last_message_preview
                    && r.message_count == h.message_count && r.model == h.model && r.status
                    == h.status && r.directory_id == h.directory_id
                    && r.forked_from_conversation_id == h.forked_from_conversation_id
                    && r.fork_message_count == h.fork_message_count && r.created_at
                    == h.created_at && r.updated_at == h.updated_at && r.input_tokens
                    == h.input_tokens && r.output_tokens == h.output_tokens
                    && r.cache_creation_input_tokens == h.cache_creation_input_tokens
                    && r.cache_read_input_tokens == h.cache_read_input_tokens
                &&& (forall|k: int| 0 <= k < own.len() ==> !like((#[trigger] own[k]).content))
                    ==> r.matched_content == h.last_message_preview
            }
        }),
{
    let pattern = snippets::search_pattern(query);
    let p = listing::matches_search(store, pattern);
    let hits = listing::own_conversations(store, p);
    let q = listing::content_like(pattern);
    lemma_own(store, p, c);
    let own = store::messages_of(store, c.conversation_id);
    context_laws::lemma_own_messages(store, c.conversation_id);
    let found = own.filter(q);
    if found.len() > 0 {
        let m = found[0];
        assert(found.contains(m));
        record_laws::lemma_filter_holds(own, q, m);
        assert(store.messages.contains(m));
    }
    if exists|m: MessageModel| #[trigger]
        store.messages.contains(m) && m.conversation_id == c.conversation_id && snippets::like(
            m.content,
            pattern,
            Some('\\'),
        ) {
        let m = choose|m: MessageModel| #[trigger]
            store.messages.contains(m) && m.conversation_id == c.conversation_id
                && snippets::like(m.content, pattern, Some('\\'));
        assert(own.contains(m));
        record_laws::lemma_filter_holds(own, q, m);
        assert(found.contains(m));
    }
    if 0 <= i < listing::search_results(store, query).len() {
        let h = hits[i];
        let list = store::messages_of(store, h.conversation_id);
        if forall|k: int|
            0 <= k < list.len() ==> !snippets::like(
                (#[trigger] list[k]).content,
                pattern,
                Some('\\'),
            ) {
            crate::chat::laws::lemma_filter_none(list, q);
        }
    }
}

/// What is shown of a match is short. Without a match in the lowered text it
/// is the start of the text. A match that lies beyond what fits in front of
/// it is shown with an ellipsis in front, from as many places before it as
/// leave it in the middle; any other match is shown with the start of the
/// text.
pub proof fn law_what_is_shown_of_a_match(
    content: Seq<char>,
    query: Seq<char>,
    lower: Seq<char>,
    query_lower: Seq<char>,
    at: int,
)
    requires
        text::find_byte(lower, query_lower) == Some(at),
    ensures
        ({
            let shown = snippets::search_snippet(content, query, lower, query_lower);
            let room = 120 - query.len();
            &&& shown.len() <= 122
            &&& room > 0 && 2 * at > room + 1 ==> shown[0] == '…'
            &&& room <= 0 && at > 0 ==> shown[0] == '…'
            &&& room > 0 && 2 * at < room && snippets::is_line(content) && content.len() <= 120
                ==> shown == content
            &&& room > 0 && 2 * at < room && snippets::is_line(content) && content.len() > 120
                ==> shown == content.take(120).push('…')
        }),
{
    if snippets::is_line(content) {
        snippets::lemma_line_stays(content);
    }
    assert(content.skip(0) =~= content);
}

// ---------------------------------------------------------------------
// Identifiers
// ---------------------------------------------------------------------

/// Two identifiers with the same prefix are the same only where they were
/// made at the same time and by the same process. An identifier begins with
/// its prefix and ends with the process.
pub proof fn law_identifiers_are_told_apart(
    prefix: Seq<char>,
    time: i64,
    process: u32,
    time2: i64,
    process2: u32,
)
    ensures
        snippets::chat_id(prefix, time, process) == snippets::chat_id(prefix, time2, process2)
            ==> time == time2 && process == process2,
        text::begins(snippets::chat_id(prefix, time, process), prefix + seq!['-']),
        text::finishes(
            snippets::chat_id(prefix, time, process),
            seq!['-'] + text::decimal(process as nat),
        ),
{
    reveal_strlit("-");
    let x = text::decimal(process as nat);
    let y = text::decimal(process2 as nat);
    let a = snippets::chat_id(prefix, time, process);
    let b = snippets::chat_id(prefix, time2, process2);
    let n = prefix.len() + 1;
    let u = text::signed_decimal(time as int);
    let v = text::signed_decimal(time2 as int);
    assert(a =~= prefix + seq!['-'] + (u + seq!['-'] + x));
    assert(b =~= prefix + seq!['-'] + (v + seq!['-'] + y));
    assert(a.take(n as int) =~= prefix + seq!['-']);
    assert(a.skip(a.len() - (x.len() + 1)) =~= seq!['-'] + x);
    if a == b {
        assert(a.skip(n as int) =~= u + seq!['-'] + x);
        assert(b.skip(n as int) =~= v + seq!['-'] + y);
        text_laws::law_decimal_reads_back(process as nat);
        text_laws::law_decimal_reads_back(process2 as nat);
        lemma_times_agree(time as int, time2 as int, x, y);
    }
}

proof fn lemma_times_agree(a: int, b: int, x: Seq<char>, y: Seq<char>)
    requires
        text::signed_decimal(a) + seq!['-'] + x == text::signed_decimal(b) + seq!['-'] + y,
    ensures
        a == b,
        x == y,
{
    let s = text::signed_decimal(a) + seq!['-'] + x;
    let t = text::signed_decimal(b) + seq!['-'] + y;
    text_laws::law_numbers_are_told_apart(a, b);
    let m = if a < 0 {
        -a
    } else {
        a
    };
    let n = if b < 0 {
        -b
    } else {
        b
    };
    text_laws::law_decimal_reads_back(m as nat);
    text_laws::law_decimal_reads_back(n as nat);
    assert(s[0] == text::signed_decimal(a)[0]);
    assert(t[0] == text::signed_decimal(b)[0]);
    if a >= 0 {
        assert('0' <= text::decimal(m as nat)[0]);
    }
    if b >= 0 {
        assert('0' <= text::decimal(n as nat)[0]);
    }
    assert((a < 0) == (b < 0));
    if a < 0 {
        assert(s.skip(1) =~= text::decimal(m as nat) + seq!['-'] + x);
        assert(t.skip(1) =~= text::decimal(n as nat) + seq!['-'] + y);
    }
    text_laws::law_numbers_end(m as nat, n as nat, '-', x, y);
}

} // verus!
