//! What operations on conversations write, field by field.

use vstd::prelude::*;
use crate::chat::exchange;
use crate::chat::exchange::{ExchangeModel, FailedModel, SurroundingsModel};
use crate::chat::remove;
use crate::chat::remove::ForkModel;
use crate::chat::rows::{ContextModel, ConversationModel, MessageModel, SubAgentModel, TodoModel};
use crate::chat::settings;
use crate::chat::settings::NewSessionModel;
use crate::chat::snippets;
use crate::chat::store;
use crate::chat::store::StoreModel;
use crate::order;
use crate::rows;
use crate::text;

verus! {

// ---------------------------------------------------------------------
// Exchanges
// ---------------------------------------------------------------------

/// An exchange that is no compaction adds a row for each message of its
/// request, unless those are kept already, and one for the answer. Rows of
/// the request are marked as sent, carry no response, and those of the user
/// alone carry the checkpoint. The row of the answer carries what the answer
/// was, and how it ended.
pub proof fn law_exchange_rows(
    store: StoreModel,
    x: ExchangeModel,
    s: SurroundingsModel,
    title: Seq<char>,
    i: int,
)
    requires
        !x.context_compaction,
    ensures
        ({
            let after = exchange::stored(store, x, s, title).messages;
            let n = store.messages.len() as int;
            let kept: int = if x.resume_after_compaction {
                0
            } else {
                x.request_messages.len() as int
            };
            let answer = after.last();
            &&& after.len() == n + kept + 1
            &&& after.take(n) == store.messages
            &&& 0 <= i < kept ==> {
                let row = after[n + i];
                let role = text::trimmed(x.request_messages[i].role);
                &&& row.id == s.fresh[i].row_id
                &&& row.conversation_id == x.conversation_id
                &&& row.content == text::trimmed(x.request_messages[i].content)
                &&& row.model == x.model
                &&& row.response_id.len() == 0
                &&& row.status == "sent"@
                &&& row.interruption_reason is None && row.recovery_outcome is None
                &&& row.created_at == s.now
                &&& row.role == role || (row.role == "user"@ && role != "assistant"@ && role
                    != "system"@ && role != "developer"@ && role != "tool"@)
                &&& row.role == "user"@ ==> row.checkpoint_id == x.checkpoint_id
                &&& row.role != "user"@ ==> row.checkpoint_id.len() == 0
                &&& row.role != "tool"@ ==> row.raw_json == "{}"@
                &&& row.role == "tool"@ && x.request_messages[i].tool_results_json is Some
                    ==> Some(row.raw_json) == x.request_messages[i].tool_results_json
                &&& row.thinking.len() == 0
                &&& row.thinking_blocks_json == "[]"@ && row.tool_calls_json == "[]"@
            }
            &&& answer.id == s.fresh[kept].row_id
            &&& answer.conversation_id == x.conversation_id
            &&& answer.role == "assistant"@
            &&& answer.content == text::trimmed(x.response_content)
            &&& answer.model == x.model
            &&& answer.response_id == x.response_id
            &&& answer.checkpoint_id.len() == 0
            &&& answer.status == x.status
            &&& answer.interruption_reason == x.interruption_reason
            &&& answer.recovery_outcome == x.recovery_outcome
            &&& answer.raw_json == x.raw_response_json
            &&& answer.thinking == text::trimmed(x.response_thinking)
            &&& answer.thinking_blocks_json == x.response_thinking_blocks_json
            &&& answer.tool_calls_json == x.tool_calls_json
            &&& answer.created_at == s.now
        }),
{
    let after = exchange::stored(store, x, s, title).messages;
    assert(after.take(store.messages.len() as int) =~= store.messages);
}

/// A compaction adds one row of the user where it was completed and gave a
/// text: the text, marked as the place where the context begins. Otherwise
/// it adds none.
pub proof fn law_compaction_rows(
    store: StoreModel,
    x: ExchangeModel,
    s: SurroundingsModel,
    title: Seq<char>,
)
    requires
        x.context_compaction,
    ensures
        ({
            let after = exchange::stored(store, x, s, title).messages;
            let n = store.messages.len() as int;
            let content = text::trimmed(x.response_content);
            let row = after.last();
            let done = x.status == "completed"@ && content.len() > 0;
            &&& !done ==> after == store.messages
            &&& done ==> {
                &&& after.len() == n + 1
                &&& after.take(n) == store.messages
                &&& row.conversation_id == x.conversation_id
                &&& row.role == "user"@
                &&& row.content == content
                &&& row.status == "context_compaction"@
                &&& row.model == x.model
                &&& row.response_id == x.response_id
                &&& row.checkpoint_id == x.checkpoint_id
                &&& row.raw_json == x.raw_response_json
                &&& row.id == s.fresh[0].row_id
                &&& row.created_at == s.now
                &&& row.tool_calls_json == "[]"@ && row.thinking.len() == 0
            }
        }),
{
    let after = exchange::stored(store, x, s, title).messages;
    assert(after.take(store.messages.len() as int) =~= store.messages);
}

/// An exchange changes the row of its conversation and no other. A title and
/// a summary stay where there are any; so does the directory. The model and
/// the preview are those of the exchange, and the last response is its
/// response, where it has one. Durations add up. A failed exchange, and a
/// compaction that gave nothing, leave the size of the context; a compaction
/// that gave something sets it to what was given; any other exchange sets it
/// to what was used.
pub proof fn law_conversation_after_exchange(
    store: StoreModel,
    x: ExchangeModel,
    s: SurroundingsModel,
    title: Seq<char>,
    i: int,
)
    requires
        0 <= i < store.conversations.len(),
        exchange::durations_fit(store, x, s),
    ensures
        ({
            let after = exchange::stored(store, x, s, title);
            let c = store.conversations[i];
            let d = after.conversations[i];
            let gave = text::trimmed(x.response_content).len() > 0 && x.status == "completed"@;
            let told = x.status != "error"@ && (!x.context_compaction || gave);
            &&& after.sub_agents == store.sub_agents
            &&& after.todos == store.todos
            &&& c.conversation_id != x.conversation_id ==> d == c
            &&& c.conversation_id == x.conversation_id ==> {
                &&& c.title.len() > 0 ==> d.title == c.title
                &&& c.title.len() == 0 ==> d.title == title
                &&& c.summary.len() > 0 ==> d.summary == c.summary
                &&& c.summary.len() == 0 ==> d.summary == title
                &&& c.directory_id.len() > 0 ==> d.directory_id == c.directory_id
                &&& c.directory_id.len() == 0 ==> d.directory_id == x.directory_id
                &&& x.response_id.len() > 0 ==> d.last_response_id == x.response_id
                &&& x.response_id.len() == 0 ==> d.last_response_id == c.last_response_id
                &&& d.model == x.model
                &&& d.status == "active"@
                &&& d.updated_at == s.now
                &&& d.total_duration_ms == c.total_duration_ms + x.total_duration_ms
                &&& after.messages.filter(
                    |m: MessageModel| m.conversation_id == x.conversation_id,
                ).len() <= i64::MAX ==> d.message_count == after.messages.filter(
                    |m: MessageModel| m.conversation_id == x.conversation_id,
                ).len()
                &&& d.last_message_preview.len() <= 181
                &&& !told ==> d.input_tokens == c.input_tokens && d.output_tokens
                    == c.output_tokens && d.cache_creation_input_tokens
                    == c.cache_creation_input_tokens && d.cache_read_input_tokens
                    == c.cache_read_input_tokens
                &&& told && x.context_compaction ==> d.input_tokens
                    == x.token_usage.output_tokens && d.output_tokens == 0
                    && d.cache_creation_input_tokens == 0 && d.cache_read_input_tokens == 0
                &&& told && !x.context_compaction ==> d.input_tokens
                    == x.token_usage.input_tokens && d.output_tokens
                    == x.token_usage.output_tokens && d.cache_creation_input_tokens
                    == x.token_usage.cache_creation_input_tokens && d.cache_read_input_tokens
                    == x.token_usage.cache_read_input_tokens
                &&& d.id == c.id && d.conversation_id == c.conversation_id && d.created_at
                    == c.created_at && d.api_profile_name == c.api_profile_name
                    && d.forked_from_conversation_id == c.forked_from_conversation_id
                    && d.fork_message_count == c.fork_message_count && d.emoji == c.emoji
                    && d.plan_mode == c.plan_mode && d.goal_mode == c.goal_mode
                    && d.goal_mode_token_budget == c.goal_mode_token_budget
            }
        }),
{
    let after = exchange::stored(store, x, s, title);
    assert(after.conversations[i].conversation_id == store.conversations[i].conversation_id);
    rows::lemma_filter_agree(
        after.messages,
        store::in_conversation(x.conversation_id),
        |m: MessageModel| m.conversation_id == x.conversation_id,
    );
    snippets::law_snippet_length(x.response_content, 180);
    assert("completed"@ != "error"@) by {
        reveal_strlit("completed");
        reveal_strlit("error");
        assert("completed"@.len() != "error"@.len());
    }
}

/// An exchange of a conversation that is not there opens it: one row more,
/// under its identifier, with the given title, bound to the configuration
/// that served the exchange, and no fork of anything.
pub proof fn law_exchange_opens_conversation(
    store: StoreModel,
    x: ExchangeModel,
    s: SurroundingsModel,
    title: Seq<char>,
)
    requires
        forall|i: int|
            0 <= i < store.conversations.len() ==> (#[trigger] store.conversations[i]).conversation_id
                != x.conversation_id,
    ensures
        ({
            let after = exchange::stored(store, x, s, title).conversations;
            let c = after.last();
            &&& after.len() == store.conversations.len() + 1
            &&& c.id == s.conversation_row_id
            &&& c.conversation_id == x.conversation_id
            &&& c.title == title && c.summary == title
            &&& c.model == x.model
            &&& c.api_profile_name == x.api_profile_name
            &&& c.last_response_id == x.response_id
            &&& c.status == "active"@
            &&& c.directory_id == x.directory_id
            &&& c.forked_from_conversation_id.len() == 0 && c.fork_message_count == 0
            &&& c.created_at == s.now && c.updated_at == s.now
            &&& c.emoji == s.blank.emoji && c.plan_mode == s.blank.plan_mode && c.goal_mode
                == s.blank.goal_mode
        }),
{
    rows::lemma_first_row(store.conversations, store::is_conversation(x.conversation_id));
    if store::conversation(store, x.conversation_id) is Some {
        let c = store::conversation(store, x.conversation_id)->0;
        let i = choose|i: int| 0 <= i < store.conversations.len() && store.conversations[i] == c;
        assert(store.conversations[i].conversation_id == x.conversation_id);
    }
}

/// A failed request is kept as an exchange without a response that used
/// nothing and took no time: its answer is the error, or a general text
/// where that is blank, and says that it is one. Blank messages of the
/// request are left out, the others keep their order.
pub proof fn law_failed_request(f: FailedModel, id: Seq<char>)
    ensures
        ({
            let x = exchange::failed_exchange(f, id);
            let blank = text::trimmed(f.error_message).len() == 0;
            &&& x.conversation_id == id
            &&& x.status == "error"@
            &&& x.response_id.len() == 0
            &&& blank ==> x.response_content == "AI response failed, please try again later."@
            &&& !blank ==> x.response_content == text::trimmed(f.error_message)
            &&& x.token_usage.input_tokens == 0 && x.token_usage.output_tokens == 0
            &&& x.token_usage.cache_creation_input_tokens == 0
            &&& x.token_usage.cache_read_input_tokens == 0
            &&& x.total_duration_ms == 0
            &&& !x.context_compaction
            &&& x.resume_after_compaction == f.resume_after_compaction
            &&& x.checkpoint_id == f.checkpoint_id && x.model == f.model
            &&& x.api_profile_name == f.api_profile_name && x.directory_id == f.directory_id
            &&& x.tool_calls_json == "[]"@ && x.raw_response_json == "{}"@
            &&& x.response_thinking.len() == 0 && x.response_thinking_blocks_json == "[]"@
            &&& x.interruption_reason is None && x.recovery_outcome is None
            &&& (forall|i: int|
                0 <= i < f.request_messages.len() ==> text::trimmed(
                    (#[trigger] f.request_messages[i]).content,
                ).len() > 0) ==> {
                &&& x.request_messages.len() == f.request_messages.len()
                &&& forall|i: int|
                    0 <= i < f.request_messages.len() ==> (#[trigger] x.request_messages[i]).content
                        == text::trimmed(f.request_messages[i].content)
                        && x.request_messages[i].role == text::trimmed(f.request_messages[i].role)
                        && x.request_messages[i].tool_results_json
                        == f.request_messages[i].tool_results_json
            }
            &&& forall|c: ContextModel| #[trigger]
                x.request_messages.contains(c) ==> c.content.len() > 0
        }),
{
    let x = exchange::failed_exchange(f, id);
    let all = f.request_messages;
    let g = exchange::failed_message();
    assert forall|c: ContextModel| #[trigger] x.request_messages.contains(c) implies c.content.len()
        > 0 by {
        rows::lemma_filter_map_contains(all, g, c);
    }
    if forall|i: int|
        0 <= i < all.len() ==> text::trimmed((#[trigger] all[i]).content).len() > 0 {
        lemma_all_given(all, g);
    }
}

/// Where every value gives something, each gives its own.
pub proof fn lemma_all_given<A, B>(s: Seq<A>, f: spec_fn(A) -> Option<B>)
    requires
        forall|i: int| 0 <= i < s.len() ==> f(#[trigger] s[i]) is Some,
    ensures
        s.filter_map(f).len() == s.len(),
        forall|i: int| 0 <= i < s.len() ==> Some(#[trigger] s.filter_map(f)[i]) == f(s[i]),
    decreases s.len(),
{
    reveal_with_fuel(Seq::filter_map, 2);
    if s.len() > 0 {
        let front = s.drop_last();
        assert forall|i: int| 0 <= i < front.len() implies f(#[trigger] front[i]) is Some by {
            assert(front[i] == s[i]);
        }
        lemma_all_given(front, f);
        assert(f(s[s.len() - 1]) is Some);
        assert(s.filter_map(f) == front.filter_map(f).push(f(s.last())->0));
        assert forall|i: int| 0 <= i < s.len() implies Some(#[trigger] s.filter_map(f)[i]) == f(
            s[i],
        ) by {
            if i < front.len() {
                assert(s.filter_map(f)[i] == front.filter_map(f)[i]);
                assert(front[i] == s[i]);
            }
        }
    }
}

/// A message of a tool is added with its content without white space around
/// it, and counted; a blank one changes nothing.
pub proof fn law_tool_message_is_added(
    store: StoreModel,
    id: Seq<char>,
    content: Seq<char>,
    fresh: exchange::FreshModel,
    process: u32,
    now: Seq<char>,
    i: int,
)
    requires
        0 <= i < store.conversations.len(),
    ensures
        ({
            let after = exchange::with_tool_message(store, id, content, fresh, process, now);
            let row = after.messages.last();
            let c = store.conversations[i];
            let d = after.conversations[i];
            &&& text::trimmed(content).len() == 0 ==> after == store
            &&& text::trimmed(content).len() > 0 ==> {
                &&& after.messages.len() == store.messages.len() + 1
                &&& after.messages.drop_last() == store.messages
                &&& row.id == fresh.row_id
                &&& row.conversation_id == id
                &&& row.role == "tool"@
                &&& row.content == text::trimmed(content)
                &&& row.status == "sent"@
                &&& row.created_at == now
                &&& row.response_id.len() == 0 && row.checkpoint_id.len() == 0
                &&& c.conversation_id != id ==> d == c
                &&& c.conversation_id == id ==> d.updated_at == now && d == (ConversationModel {
                    message_count: d.message_count,
                    updated_at: d.updated_at,
                    ..c
                })
                &&& c.conversation_id == id && after.messages.filter(
                    |m: MessageModel| m.conversation_id == id,
                ).len() <= i64::MAX ==> d.message_count == after.messages.filter(
                    |m: MessageModel| m.conversation_id == id,
                ).len()
                &&& after.todos == store.todos && after.sub_agents == store.sub_agents
            }
        }),
{
    let after = exchange::with_tool_message(store, id, content, fresh, process, now);
    rows::lemma_filter_agree(
        after.messages,
        store::in_conversation(id),
        |m: MessageModel| m.conversation_id == id,
    );
    if text::trimmed(content).len() > 0 {
        assert(after.messages.drop_last() =~= store.messages);
    }
}

// ---------------------------------------------------------------------
// Finding the conversation and the title
// ---------------------------------------------------------------------

/// A request goes to the conversation that it names, white space around the
/// name aside. Without a name it goes to the conversation of the last
/// message with the response that it follows; without such a message to the
/// conversation whose identifier it gave as a response; else to a new one.
pub proof fn law_where_a_request_goes(
    store: StoreModel,
    named: Option<Seq<char>>,
    follows: Option<Seq<char>>,
    new_id: Seq<char>,
    i: int,
    k: int,
)
    ensures
        ({
            let to = exchange::resolved(store, named, follows, new_id);
            let name = text::trimmed(named->0);
            let response = text::trimmed(follows->0);
            let unnamed = named is None || name.len() == 0;
            let follows_none = follows is None || response.len() == 0;
            let no_message = forall|j: int|
                0 <= j < store.messages.len() ==> (#[trigger] store.messages[j]).response_id
                    != response;
            &&& !unnamed ==> to == name
            &&& unnamed && follows_none ==> to == new_id
            &&& unnamed && !follows_none && 0 <= i < store.messages.len()
                && store.messages[i].response_id == response && (forall|j: int|
                0 <= j < store.messages.len() && j != i && (
                #[trigger] store.messages[j]).response_id == response ==> order::before(
                    store.messages[j].id,
                    store.messages[i].id,
                )) ==> to == store.messages[i].conversation_id
            &&& unnamed && !follows_none && no_message && 0 <= k < store.conversations.len()
                && store.conversations[k].conversation_id == response ==> to == response
            &&& unnamed && !follows_none && no_message && (forall|j: int|
                0 <= j < store.conversations.len() ==> (
                #[trigger] store.conversations[j]).conversation_id != response) ==> to == new_id
        }),
{
    let response = text::trimmed(follows->0);
    let p = exchange::has_response(response);
    let found = store.messages.filter(p);
    let sorted = order::sorted(found, store::by_id());
    store::lemma_by_id_is_order();
    order::lemma_sorted(found, store::by_id());
    rows::lemma_same_values(sorted, found);
    if sorted.len() > 0 {
        let m = sorted.last();
        assert(sorted.contains(m)) by {
            assert(sorted[sorted.len() - 1] == m);
        }
        assert(found.contains(m));
        store.messages.lemma_filter_contains_rev(p, m);
        let j = choose|j: int| 0 <= j < store.messages.len() && store.messages[j] == m;
        let q = choose|q: int| 0 <= q < found.len() && found[q] == m;
        store.messages.lemma_filter_pred(p, q);
        assert(store.messages[j].response_id == response);
        if 0 <= i < store.messages.len() && store.messages[i].response_id == response && j != i
            && order::before(store.messages[j].id, store.messages[i].id) {
            store.messages.lemma_filter_contains(p, i);
            assert(sorted.contains(store.messages[i]));
            let t = choose|t: int| 0 <= t < sorted.len() && sorted[t] == store.messages[i];
            let last = sorted.len() - 1;
            if t < last {
                assert(store::by_id()(sorted[t], sorted[last]));
            }
            order::lemma_before_total(m.id, m.id);
        }
    } else {
        if 0 <= i < store.messages.len() && store.messages[i].response_id == response {
            store.messages.lemma_filter_contains(p, i);
            assert(sorted.contains(store.messages[i]));
        }
    }
    rows::lemma_first_row(store.conversations, store::is_conversation(response));
    if 0 <= k < store.conversations.len() && store.conversations[k].conversation_id == response {
        assert(store::is_conversation(response)(store.conversations[k]));
    }
    if store::conversation(store, response) is Some {
        let c = store::conversation(store, response)->0;
        let j = choose|j: int| 0 <= j < store.conversations.len() && store.conversations[j] == c;
        assert(store.conversations[j].conversation_id == response);
    }
}

/// The title of a conversation comes from the first message of the user that
/// is not blank; where the user said nothing, from the first message that is
/// not blank; without any there is no source.
pub proof fn law_where_a_title_comes_from(messages: Seq<ContextModel>, i: int)
    ensures
        ({
            let source = snippets::title_source(messages);
            let blank = |j: int| text::trimmed(messages[j].content).len() == 0;
            let others = |j: int|
                ({
                    let r = text::trimmed(messages[j].role);
                    r == "assistant"@ || r == "system"@ || r == "developer"@ || r == "tool"@
                });
            &&& 0 <= i < messages.len() && !blank(i) && !others(i) && (forall|j: int|
                0 <= j < i ==> #[trigger] blank(j) || others(j)) ==> source == Some(messages[i])
            &&& 0 <= i < messages.len() && !blank(i) && (forall|j: int|
                0 <= j < messages.len() ==> #[trigger] blank(j) || others(j)) && (forall|j: int|
                0 <= j < i ==> #[trigger] blank(j)) ==> source == Some(messages[i])
            &&& (forall|j: int| 0 <= j < messages.len() ==> #[trigger] blank(j)) ==> source is None
        }),
{
    let blank = |j: int| text::trimmed(messages[j].content).len() == 0;
    let others = |j: int|
        ({
            let r = text::trimmed(messages[j].role);
            r == "assistant"@ || r == "system"@ || r == "developer"@ || r == "tool"@
        });
    lemma_role_words();
    assert forall|j: int| 0 <= j < messages.len() implies snippets::has_user_content()(
        #[trigger] messages[j],
    ) == (!blank(j) && !others(j)) by {}
    assert forall|j: int| 0 <= j < messages.len() implies snippets::has_content()(
        #[trigger] messages[j],
    ) == !blank(j) by {}
    if 0 <= i < messages.len() && !blank(i) && !others(i) && (forall|j: int|
        0 <= j < i ==> #[trigger] blank(j) || others(j)) {
        assert forall|j: int| 0 <= j < i implies !snippets::has_user_content()(
            #[trigger] messages[j],
        ) by {
            assert(blank(j) || others(j));
        }
        lemma_first_at(messages, snippets::has_user_content(), i);
    }
    if forall|j: int| 0 <= j < messages.len() ==> #[trigger] blank(j) || others(j) {
        assert forall|j: int| 0 <= j < messages.len() implies !snippets::has_user_content()(
            #[trigger] messages[j],
        ) by {
            assert(blank(j) || others(j));
        }
        lemma_no_first(messages, snippets::has_user_content());
        if 0 <= i < messages.len() && !blank(i) && (forall|j: int|
            0 <= j < i ==> #[trigger] blank(j)) {
            assert forall|j: int| 0 <= j < i implies !snippets::has_content()(
                #[trigger] messages[j],
            ) by {
                assert(blank(j));
            }
            lemma_first_at(messages, snippets::has_content(), i);
        }
    }
    if forall|j: int| 0 <= j < messages.len() ==> #[trigger] blank(j) {
        assert forall|j: int| 0 <= j < messages.len() implies !snippets::has_user_content()(
            #[trigger] messages[j],
        ) by {
            assert(blank(j));
        }
        assert forall|j: int| 0 <= j < messages.len() implies !snippets::has_content()(
            #[trigger] messages[j],
        ) by {
            assert(blank(j));
        }
        lemma_no_first(messages, snippets::has_user_content());
        lemma_no_first(messages, snippets::has_content());
    }
}

proof fn lemma_role_words()
    ensures
        "user"@ != "assistant"@,
        "user"@ != "system"@,
        "user"@ != "developer"@,
        "user"@ != "tool"@,
{
    reveal_strlit("user");
    reveal_strlit("assistant");
    reveal_strlit("system");
    reveal_strlit("developer");
    reveal_strlit("tool");
    assert("user"@.len() == 4);
    assert("tool"@[0] == 't');
    assert("user"@[0] == 'u');
}

/// The first row is the one before which none passes.
pub proof fn lemma_first_at<M>(s: Seq<M>, p: spec_fn(M) -> bool, i: int)
    requires
        0 <= i < s.len(),
        p(s[i]),
        forall|j: int| 0 <= j < i ==> !p(#[trigger] s[j]),
    ensures
        rows::first_row(s, p) == Some(s[i]),
    decreases s.len(),
{
    if i > 0 {
        assert(!p(s[0]));
        let rest = s.skip(1);
        assert(rest[i - 1] == s[i]);
        assert forall|j: int| 0 <= j < i - 1 implies !p(#[trigger] rest[j]) by {
            assert(rest[j] == s[j + 1]);
        }
        lemma_first_at(rest, p, i - 1);
    }
}

/// Without a row that passes there is no first one.
pub proof fn lemma_no_first<M>(s: Seq<M>, p: spec_fn(M) -> bool)
    requires
        forall|j: int| 0 <= j < s.len() ==> !p(#[trigger] s[j]),
    ensures
        rows::first_row(s, p) is None,
    decreases s.len(),
{
    if s.len() > 0 {
        let rest = s.skip(1);
        assert forall|j: int| 0 <= j < rest.len() implies !p(#[trigger] rest[j]) by {
            assert(rest[j] == s[j + 1]);
        }
        lemma_no_first(rest, p);
    }
}

// ---------------------------------------------------------------------
// Settings
// ---------------------------------------------------------------------

/// A setting of a conversation changes the rows of that conversation, in the
/// fields that it is about, and touches their time; all other rows and
/// tables stay.
pub proof fn law_settings_change_their_fields(
    store: StoreModel,
    id: Seq<char>,
    value: Seq<char>,
    now: Seq<char>,
    i: int,
)
    requires
        0 <= i < store.conversations.len(),
    ensures
        ({
            let c = store.conversations[i];
            let titled = store::with_conversation(store, id, settings::with_title(value, now));
            let summed = store::with_conversation(store, id, settings::with_summary(value, now));
            let marked = store::with_conversation(store, id, settings::with_emoji(value, now));
            let kept = store::with_conversation(store, id, settings::with_status(value, now));
            let bound = store::with_conversation(store, id, settings::with_profile(value, now));
            let rest_stays = |t: StoreModel|
                t.messages == store.messages && t.sub_agents == store.sub_agents && t.todos
                    == store.todos && t.conversations.len() == store.conversations.len();
            &&& rest_stays(titled) && rest_stays(summed) && rest_stays(marked) && rest_stays(kept)
                && rest_stays(bound)
            &&& c.conversation_id != id ==> titled.conversations[i] == c
                && summed.conversations[i] == c && marked.conversations[i] == c
                && kept.conversations[i] == c && bound.conversations[i] == c
            &&& c.conversation_id == id ==> {
                &&& titled.conversations[i] == (ConversationModel {
                    title: value,
                    summary: value,
                    updated_at: now,
                    ..c
                })
                &&& summed.conversations[i] == (ConversationModel {
                    summary: value,
                    updated_at: now,
                    ..c
                })
                &&& marked.conversations[i] == (ConversationModel {
                    emoji: Some(value),
                    updated_at: now,
                    ..c
                })
                &&& kept.conversations[i] == (ConversationModel {
                    status: value,
                    updated_at: now,
                    ..c
                })
                &&& bound.conversations[i] == (ConversationModel {
                    api_profile_name: value,
                    updated_at: now,
                    ..c
                })
            }
        }),
{
}

/// A conversation is either pinned or active: pinned for the word `pin`,
/// white space around it aside, and active for anything else.
pub proof fn law_statuses_of_conversations(status: Seq<char>)
    ensures
        text::trimmed(status) == "pin"@ ==> settings::conversation_status(status) == "pin"@,
        text::trimmed(status) != "pin"@ ==> settings::conversation_status(status) == "active"@,
{
}

/// The modes of a conversation are those of its row, where a number other
/// than zero switches one on. Setting a mode writes one or zero, and leaves
/// the modes that were not given and everything else of the row.
pub proof fn law_modes_are_numbers(
    store: StoreModel,
    id: Seq<char>,
    modes: settings::ConversationModes,
    row_id: Seq<char>,
    blank: ConversationModel,
    i: int,
)
    requires
        0 <= i < store.conversations.len(),
    ensures
        ({
            let after = settings::modes_set(store, id, modes, row_id, blank);
            let c = store.conversations[i];
            let d = after.conversations[i];
            &&& after.messages == store.messages && after.sub_agents == store.sub_agents
                && after.todos == store.todos
            &&& c.conversation_id != id ==> d == c
            &&& c.conversation_id == id ==> {
                &&& modes.plan_mode == Some(true) ==> d.plan_mode == Some(1i64)
                &&& modes.plan_mode == Some(false) ==> d.plan_mode == Some(0i64)
                &&& modes.plan_mode is None ==> d.plan_mode == c.plan_mode
                &&& modes.goal_mode == Some(true) ==> d.goal_mode == Some(1i64)
                &&& modes.goal_mode == Some(false) ==> d.goal_mode == Some(0i64)
                &&& modes.goal_mode is None ==> d.goal_mode == c.goal_mode
                &&& modes.goal_mode_token_budget is Some ==> d.goal_mode_token_budget
                    == modes.goal_mode_token_budget
                &&& modes.goal_mode_token_budget is None ==> d.goal_mode_token_budget
                    == c.goal_mode_token_budget
                &&& d == (ConversationModel {
                    plan_mode: d.plan_mode,
                    goal_mode: d.goal_mode,
                    goal_mode_token_budget: d.goal_mode_token_budget,
                    ..c
                })
            }
        }),
{
    rows::lemma_first_row(store.conversations, store::is_conversation(id));
    if store.conversations[i].conversation_id == id {
        assert(store::is_conversation(id)(store.conversations[i]));
    }
}

/// The modes that are read are those of the first row of the conversation.
pub proof fn law_modes_are_read(store: StoreModel, id: Seq<char>, i: int)
    requires
        0 <= i < store.conversations.len(),
        store.conversations[i].conversation_id == id,
        forall|j: int|
            0 <= j < i ==> (#[trigger] store.conversations[j]).conversation_id != id,
    ensures
        ({
            let modes = settings::modes_of(store, id);
            let c = store.conversations[i];
            &&& modes.plan_mode == Some(c.plan_mode is Some && c.plan_mode->0 != 0)
            &&& modes.goal_mode == Some(c.goal_mode is Some && c.goal_mode->0 != 0)
            &&& modes.goal_mode_token_budget == c.goal_mode_token_budget
            &&& text::trimmed(c.api_profile_name).len() > 0 ==> settings::bound_profile(store, id)
                == Some(c.api_profile_name)
            &&& text::trimmed(c.api_profile_name).len() == 0 ==> settings::bound_profile(
                store,
                id,
            ) is None
        }),
{
    assert forall|j: int| 0 <= j < i implies !store::is_conversation(id)(
        #[trigger] store.conversations[j],
    ) by {}
    lemma_first_at(store.conversations, store::is_conversation(id), i);
}

// ---------------------------------------------------------------------
// Sub-agents
// ---------------------------------------------------------------------

/// The words for how a session ended are taken as they are, white space
/// around them aside; any other word says that it is running.
pub proof fn law_run_states(status: Seq<char>)
    ensures
        ({
            let s = text::trimmed(status);
            let ended = s == "completed"@ || s == "failed"@ || s == "cancelled"@;
            &&& ended ==> settings::run_status_of(status) == s
            &&& !ended ==> settings::run_status_of(status) == "running"@
        }),
{
}

/// Cancelling ends the sessions that are running and touches no other;
/// setting the state of a session touches that session alone.
pub proof fn law_sessions_end(
    sub_agents: Seq<SubAgentModel>,
    id: Seq<char>,
    status: Seq<char>,
    message: Seq<char>,
    now: Seq<char>,
    i: int,
)
    requires
        0 <= i < sub_agents.len(),
    ensures
        ({
            let s = sub_agents[i];
            let stopped = sub_agents.map_values(settings::cancelled(now));
            let set = sub_agents.map_values(settings::with_run_status(id, status, message, now));
            &&& stopped.len() == sub_agents.len() && set.len() == sub_agents.len()
            &&& stopped[i].run_status != "running"@
            &&& s.run_status != "running"@ ==> stopped[i] == s
            &&& s.run_status == "running"@ ==> stopped[i] == (SubAgentModel {
                run_status: "cancelled"@,
                error_message: stopped[i].error_message,
                updated_at: now,
                ..s
            }) && stopped[i].error_message.len() == 0
            &&& s.conversation_id != id ==> set[i] == s
            &&& s.conversation_id == id ==> set[i] == (SubAgentModel {
                run_status: status,
                error_message: message,
                updated_at: now,
                ..s
            })
        }),
{
    assert("cancelled"@ != "running"@) by {
        reveal_strlit("cancelled");
        reveal_strlit("running");
        assert("cancelled"@.len() != "running"@.len());
    }
}

/// The sessions that cancelling ends are counted: each running one, once,
/// and no other. Afterwards there is none.
pub proof fn law_cancelled_sessions_are_counted(
    sub_agents: Seq<SubAgentModel>,
    s: SubAgentModel,
    now: Seq<char>,
)
    ensures
        Seq::<SubAgentModel>::empty().filter(settings::is_running()).len() == 0,
        sub_agents.push(s).filter(settings::is_running()).len() == sub_agents.filter(
            settings::is_running(),
        ).len() + (if s.run_status == "running"@ {
            1int
        } else {
            0
        }),
        sub_agents.map_values(settings::cancelled(now)).filter(settings::is_running()).len() == 0,
{
    reveal(Seq::filter);
    let p = settings::is_running();
    assert(sub_agents.push(s).drop_last() =~= sub_agents);
    let after = sub_agents.map_values(settings::cancelled(now));
    assert forall|i: int| 0 <= i < after.len() implies !p(#[trigger] after[i]) by {
        reveal_strlit("cancelled");
        reveal_strlit("running");
        assert("cancelled"@.len() != "running"@.len());
    }
    crate::chat::laws::lemma_filter_none(after, p);
}

/// A session of a sub-agent starts as running, without an error, under its
/// parent, and its conversation is empty, active and no fork; texts are
/// taken without white space around them.
pub proof fn law_sessions_start(n: NewSessionModel, blank: ConversationModel)
    ensures
        ({
            let c = settings::session_conversation(n, blank);
            let s = settings::session_row(n);
            &&& s.conversation_id == n.conversation_id && c.conversation_id == n.conversation_id
            &&& s.id == n.session_row_id && c.id == n.conversation_row_id
            &&& s.parent_conversation_id == text::trimmed(n.parent_conversation_id)
            &&& s.agent_id == text::trimmed(n.agent_id)
            &&& s.agent_name == text::trimmed(n.agent_name)
            &&& s.run_status == "running"@
            &&& s.error_message.len() == 0
            &&& s.created_at == n.now && s.updated_at == n.now
            &&& c.title == text::trimmed(n.title) && c.summary == text::trimmed(n.title)
            &&& c.model == text::trimmed(n.model)
            &&& c.api_profile_name == text::trimmed(n.api_profile_name)
            &&& c.directory_id == text::trimmed(n.directory_id)
            &&& c.status == "active"@
            &&& c.message_count == 0 && c.last_message_preview.len() == 0
            &&& c.last_response_id.len() == 0
            &&& c.forked_from_conversation_id.len() == 0 && c.fork_message_count == 0
            &&& c.created_at == n.now && c.updated_at == n.now
        }),
{
}

// ---------------------------------------------------------------------
// Deleting, cutting and forking
// ---------------------------------------------------------------------

/// What is kept of a list is what it holds and passes.
pub proof fn lemma_filter_holds<M>(s: Seq<M>, p: spec_fn(M) -> bool, m: M)
    ensures
        s.filter(p).contains(m) <==> s.contains(m) && p(m),
{
    let kept = s.filter(p);
    if kept.contains(m) {
        s.lemma_filter_contains_rev(p, m);
        let k = choose|k: int| 0 <= k < kept.len() && kept[k] == m;
        s.lemma_filter_pred(p, k);
    }
    if s.contains(m) && p(m) {
        let i = choose|i: int| 0 <= i < s.len() && s[i] == m;
        s.lemma_filter_contains(p, i);
    }
}

/// Whether a conversation goes when others are deleted: it is one of them,
/// or one of them started it as a sub-agent.
pub open spec fn goes_along(store: StoreModel, ids: Seq<Seq<char>>, id: Seq<char>) -> bool {
    ids.contains(id) || exists|s: SubAgentModel| #[trigger]
        store.sub_agents.contains(s) && s.conversation_id == id && ids.contains(
            s.parent_conversation_id,
        )
}

/// Deleting conversations takes their rows, messages and tasks, and those of
/// the sub-agents that they started, and every session that belongs to them
/// or that they started. All else stays.
pub proof fn law_what_deleting_takes(
    store: StoreModel,
    ids: Seq<Seq<char>>,
    c: ConversationModel,
    m: MessageModel,
    t: TodoModel,
    s: SubAgentModel,
)
    ensures
        ({
            let after = remove::deleted(store, ids);
            &&& after.conversations.contains(c) <==> store.conversations.contains(c)
                && !goes_along(store, ids, c.conversation_id)
            &&& after.messages.contains(m) <==> store.messages.contains(m) && !goes_along(
                store,
                ids,
                m.conversation_id,
            )
            &&& after.todos.contains(t) <==> store.todos.contains(t) && !goes_along(
                store,
                ids,
                t.session_id,
            )
            &&& after.sub_agents.contains(s) <==> store.sub_agents.contains(s) && !ids.contains(
                s.conversation_id,
            ) && !ids.contains(s.parent_conversation_id)
        }),
{
    let gone = remove::targets(store.sub_agents, ids);
    lemma_filter_holds(store.conversations, remove::conversation_stays(gone), c);
    lemma_filter_holds(store.messages, remove::message_stays(gone), m);
    lemma_filter_holds(store.todos, remove::todo_stays(gone), t);
    lemma_filter_holds(store.sub_agents, remove::session_stays(ids), s);
    lemma_goes_along(store, ids, c.conversation_id);
    lemma_goes_along(store, ids, m.conversation_id);
    lemma_goes_along(store, ids, t.session_id);
}

proof fn lemma_goes_along(store: StoreModel, ids: Seq<Seq<char>>, id: Seq<char>)
    ensures
        remove::targets(store.sub_agents, ids).contains(id) <==> goes_along(store, ids, id),
{
    let children = store.sub_agents.filter_map(remove::child_of(ids));
    rows::lemma_concat_contains(ids, children, id);
    rows::lemma_filter_map_contains(store.sub_agents, remove::child_of(ids), id);
    if children.contains(id) {
        let i = choose|i: int|
            0 <= i < store.sub_agents.len() && remove::child_of(ids)(
                #[trigger] store.sub_agents[i],
            ) == Some(id);
        assert(store.sub_agents.contains(store.sub_agents[i]));
    }
    if exists|s: SubAgentModel| #[trigger]
        store.sub_agents.contains(s) && s.conversation_id == id && ids.contains(
            s.parent_conversation_id,
        ) {
        let s = choose|s: SubAgentModel| #[trigger]
            store.sub_agents.contains(s) && s.conversation_id == id && ids.contains(
                s.parent_conversation_id,
            );
        let i = choose|i: int| 0 <= i < store.sub_agents.len() && store.sub_agents[i] == s;
        assert(remove::child_of(ids)(store.sub_agents[i]) == Some(id));
    }
}

/// Cutting a conversation brings its row up to date: the size of the context
/// is unknown, the messages that are left are counted, the preview is the
/// content of the last of them, and the last response the last that is left.
/// Rows of other conversations stay, and of the tasks those go that belong
/// to a response that was cut off in this conversation.
pub proof fn law_cut_brings_up_to_date(
    store: StoreModel,
    id: Seq<char>,
    from: Seq<char>,
    now: Seq<char>,
    i: int,
    t: TodoModel,
)
    requires
        0 <= i < store.conversations.len(),
    ensures
        ({
            let after = remove::cut_from(store, id, from, now);
            let c = store.conversations[i];
            let d = after.conversations[i];
            let left = store::messages_of(after, id);
            &&& after.sub_agents == store.sub_agents
            &&& c.conversation_id != id ==> d == c
            &&& c.conversation_id == id ==> {
                &&& d.input_tokens == 0 && d.output_tokens == 0
                &&& d.cache_creation_input_tokens == 0 && d.cache_read_input_tokens == 0
                &&& d.updated_at == now
                &&& left.len() == 0 ==> d.last_message_preview.len() == 0
                &&& left.len() > 0 ==> d.last_message_preview == left.last().content
                &&& left.len() <= i64::MAX ==> d.message_count == left.len()
                &&& left.len() > 0 && left.last().response_id.len() > 0 ==> d.last_response_id
                    == left.last().response_id
                &&& (forall|k: int|
                    0 <= k < left.len() ==> (#[trigger] left[k]).response_id.len() == 0)
                    ==> d.last_response_id.len() == 0
                &&& d.title == c.title && d.summary == c.summary && d.status == c.status
                    && d.model == c.model && d.total_duration_ms == c.total_duration_ms
                    && d.directory_id == c.directory_id && d.created_at == c.created_at
            }
            &&& after.todos.contains(t) <==> store.todos.contains(t) && !(t.session_id == id
                && exists|m: MessageModel| #[trigger]
                store.messages.contains(m) && m.conversation_id == id && !order::before(m.id, from)
                    && m.response_id.len() > 0 && m.response_id == t.response_id)
        }),
{
    let after = remove::cut_from(store, id, from, now);
    let left = store::messages_of(after, id);
    let own = after.messages.filter(store::in_conversation(id));
    store::lemma_by_id_is_order();
    order::lemma_sorted(own, store::by_id());
    broadcast use vstd::seq_lib::group_to_multiset_ensures;

    assert(left.len() == own.len());
    let q = remove::has_any_response();
    let answered = left.filter(q);
    if left.len() > 0 && left.last().response_id.len() > 0 {
        reveal_with_fuel(Seq::filter, 2);
        assert(answered.last() == left.last());
    }
    if forall|k: int| 0 <= k < left.len() ==> (#[trigger] left[k]).response_id.len() == 0 {
        crate::chat::laws::lemma_filter_none(left, q);
    }
    let g = remove::response_going(id, from);
    let responses = store.messages.filter_map(g);
    lemma_filter_holds(store.todos, remove::todo_stays_in(id, responses), t);
    rows::lemma_filter_map_contains(store.messages, g, t.response_id);
    if responses.contains(t.response_id) {
        let k = choose|k: int|
            0 <= k < store.messages.len() && g(#[trigger] store.messages[k]) == Some(
                t.response_id,
            );
        assert(store.messages.contains(store.messages[k]));
    }
    if exists|m: MessageModel| #[trigger]
        store.messages.contains(m) && m.conversation_id == id && !order::before(m.id, from)
            && m.response_id.len() > 0 && m.response_id == t.response_id {
        let m = choose|m: MessageModel| #[trigger]
            store.messages.contains(m) && m.conversation_id == id && !order::before(m.id, from)
                && m.response_id.len() > 0 && m.response_id == t.response_id;
        let k = choose|k: int| 0 <= k < store.messages.len() && store.messages[k] == m;
        assert(g(store.messages[k]) == Some(t.response_id));
    }
}

/// A request starts at the latest message without a response before the
/// given one, and at that one where there is none.
proof fn lemma_start_of_request(store: StoreModel, id: Seq<char>, m: MessageModel, k: int)
    ensures
        ({
            let place = remove::request_start(store, id, m.id);
            let is_request = |n: MessageModel|
                store.messages.contains(n) && n.conversation_id == id && n.response_id.len() == 0
                    && order::before(n.id, m.id);
            let r = store.messages[k];
            &&& (forall|n: MessageModel| !#[trigger] is_request(n)) ==> place == m.id
            &&& 0 <= k < store.messages.len() && is_request(r) && (forall|n: MessageModel| #[trigger]
                is_request(n) ==> order::not_after(n.id, r.id)) ==> place == r.id
        }),
{
    let q = remove::is_request_before(m.id);
    let own = store.messages.filter(store::in_conversation(id));
    let all = store::messages_of(store, id);
    let found = all.filter(q);
    let is_request = |n: MessageModel|
        store.messages.contains(n) && n.conversation_id == id && n.response_id.len() == 0
            && order::before(n.id, m.id);
    store::lemma_by_id_is_order();
    order::lemma_sorted(own, store::by_id());
    rows::lemma_same_values(all, own);
    assert forall|n: MessageModel| #[trigger] found.contains(n) <==> is_request(n) by {
        lemma_filter_holds(all, q, n);
        lemma_filter_holds(store.messages, store::in_conversation(id), n);
    }
    if found.len() > 0 {
        let last = found.last();
        assert(found.contains(last)) by {
            assert(found[found.len() - 1] == last);
        }
        assert(is_request(last));
        let r = store.messages[k];
        if 0 <= k < store.messages.len() && is_request(r) && (forall|n: MessageModel| #[trigger]
            is_request(n) ==> order::not_after(n.id, r.id)) {
            assert(found.contains(r));
            let x = choose|x: int| 0 <= x < found.len() && found[x] == r;
            crate::chat::context_laws::lemma_filter_ordered(all, q);
            if x < found.len() - 1 {
                assert(store::by_id()(found[x], found[found.len() - 1]));
            }
            order::lemma_before_total(r.id, last.id);
            order::lemma_before_total(last.id, r.id);
        }
    } else {
        let r = store.messages[k];
        if 0 <= k < store.messages.len() && is_request(r) {
            assert(found.contains(r));
        }
    }
}

/// Cutting a conversation at a message of the user, or at the place of a
/// compaction, takes that message and what comes after it. Cutting it at an
/// answer takes the request of the answer along: everything from the latest
/// message without a response before the answer on.
pub proof fn law_where_a_cut_is_made(store: StoreModel, id: Seq<char>, i: int, k: int)
    requires
        0 <= i < store.messages.len(),
        store.messages[i].conversation_id == id,
        forall|j: int|
            0 <= j < i ==> !((#[trigger] store.messages[j]).conversation_id == id
                && store.messages[j].id == store.messages[i].id),
    ensures
        ({
            let m = store.messages[i];
            let place = remove::message_cut(store, id, m.id);
            let answer = m.role == "assistant"@ && m.status != "context_compaction"@;
            let is_request = |n: MessageModel|
                store.messages.contains(n) && n.conversation_id == id && n.response_id.len() == 0
                    && order::before(n.id, m.id);
            let r = store.messages[k];
            &&& place is Some
            &&& !answer ==> place == Some(m.id)
            &&& answer && (forall|n: MessageModel| !#[trigger] is_request(n)) ==> place == Some(
                m.id,
            )
            &&& answer && 0 <= k < store.messages.len() && is_request(r) && (forall|
                n: MessageModel,
            | #[trigger]
                is_request(n) ==> order::not_after(n.id, r.id)) ==> place == Some(r.id)
        }),
{
    let m = store.messages[i];
    let p = remove::is_message(id, m.id);
    assert(p(store.messages[i]));
    assert forall|j: int| 0 <= j < i implies !p(#[trigger] store.messages[j]) by {}
    lemma_first_at(store.messages, p, i);
    lemma_start_of_request(store, id, m, k);
}

/// Cutting a conversation at a response takes the request of the response
/// along, and at the place of a compaction what comes from there on.
pub proof fn law_where_a_response_is_cut(store: StoreModel, id: Seq<char>, i: int, k: int)
    requires
        0 <= i < store.messages.len(),
        store.messages[i].conversation_id == id,
        forall|j: int|
            0 <= j < i ==> !((#[trigger] store.messages[j]).conversation_id == id
                && store.messages[j].response_id == store.messages[i].response_id),
    ensures
        ({
            let m = store.messages[i];
            let place = remove::response_cut(store, id, m.response_id);
            let is_request = |n: MessageModel|
                store.messages.contains(n) && n.conversation_id == id && n.response_id.len() == 0
                    && order::before(n.id, m.id);
            let r = store.messages[k];
            &&& place is Some
            &&& m.status == "context_compaction"@ ==> place == Some(m.id)
            &&& m.status != "context_compaction"@ && (forall|n: MessageModel|
                !#[trigger] is_request(n)) ==> place == Some(m.id)
            &&& m.status != "context_compaction"@ && 0 <= k < store.messages.len() && is_request(r)
                && (forall|n: MessageModel| #[trigger]
                is_request(n) ==> order::not_after(n.id, r.id)) ==> place == Some(r.id)
        }),
{
    let m = store.messages[i];
    let p = remove::is_response(id, m.response_id);
    assert(p(store.messages[i]));
    assert forall|j: int| 0 <= j < i implies !p(#[trigger] store.messages[j]) by {}
    lemma_first_at(store.messages, p, i);
    lemma_start_of_request(store, id, m, k);
}

/// Nothing is cut where no message of the conversation is the one, or has
/// the response, that was named.
pub proof fn law_nothing_to_cut(store: StoreModel, id: Seq<char>, named: Seq<char>, now: Seq<char>)
    ensures
        (forall|j: int|
            0 <= j < store.messages.len() ==> !((#[trigger] store.messages[j]).conversation_id == id
                && store.messages[j].response_id == named)) ==> remove::cut_at(
            store,
            id,
            remove::response_cut(store, id, named),
            now,
        ) == store,
        (forall|j: int|
            0 <= j < store.messages.len() ==> !((#[trigger] store.messages[j]).conversation_id == id
                && store.messages[j].id == named)) ==> remove::cut_at(
            store,
            id,
            remove::message_cut(store, id, named),
            now,
        ) == store,
{
    if forall|j: int|
        0 <= j < store.messages.len() ==> !((#[trigger] store.messages[j]).conversation_id == id
            && store.messages[j].response_id == named) {
        let p = remove::is_response(id, named);
        assert forall|j: int| 0 <= j < store.messages.len() implies !p(
            #[trigger] store.messages[j],
        ) by {}
        lemma_no_first(store.messages, p);
    }
    if forall|j: int|
        0 <= j < store.messages.len() ==> !((#[trigger] store.messages[j]).conversation_id == id
            && store.messages[j].id == named) {
        let p = remove::is_message(id, named);
        assert forall|j: int| 0 <= j < store.messages.len() implies !p(
            #[trigger] store.messages[j],
        ) by {}
        lemma_no_first(store.messages, p);
    }
}

/// A fork takes the messages of its source up to the given response, all of
/// them where no response is given or none of them carries it.
pub proof fn law_what_a_fork_takes(
    store: StoreModel,
    id: Seq<char>,
    response: Seq<char>,
    i: int,
    m: MessageModel,
)
    ensures
        ({
            let taken = remove::forked_messages(store, id, response);
            let all = response.len() == 0 || forall|j: int|
                0 <= j < store.messages.len() ==> !((
                #[trigger] store.messages[j]).conversation_id == id
                    && store.messages[j].response_id == response);
            &&& all ==> (taken.contains(m) <==> store.messages.contains(m) && m.conversation_id
                == id)
            &&& response.len() > 0 && 0 <= i < store.messages.len()
                && store.messages[i].conversation_id == id && store.messages[i].response_id
                == response && (forall|j: int|
                0 <= j < i ==> !((#[trigger] store.messages[j]).conversation_id == id
                    && store.messages[j].response_id == response)) ==> (taken.contains(m)
                <==> store.messages.contains(m) && m.conversation_id == id && order::not_after(
                m.id,
                store.messages[i].id,
            ))
        }),
{
    let p = remove::is_response(id, response);
    let limit = remove::up_to(remove::fork_limit(store, id, response));
    let own = store.messages.filter(store::in_conversation(id));
    let all = store::messages_of(store, id);
    store::lemma_by_id_is_order();
    order::lemma_sorted(own, store::by_id());
    rows::lemma_same_values(all, own);
    lemma_filter_holds(all, limit, m);
    lemma_filter_holds(store.messages, store::in_conversation(id), m);
    if response.len() > 0 {
        if forall|j: int|
            0 <= j < store.messages.len() ==> !((#[trigger] store.messages[j]).conversation_id
                == id && store.messages[j].response_id == response) {
            assert forall|j: int| 0 <= j < store.messages.len() implies !p(
                #[trigger] store.messages[j],
            ) by {}
            lemma_no_first(store.messages, p);
        }
        if 0 <= i < store.messages.len() && p(store.messages[i]) && (forall|j: int|
            0 <= j < i ==> !((#[trigger] store.messages[j]).conversation_id == id
                && store.messages[j].response_id == response)) {
            assert forall|j: int| 0 <= j < i implies !p(#[trigger] store.messages[j]) by {}
            lemma_first_at(store.messages, p, i);
        }
    }
}

/// A fork is a new conversation: active, named and set up as its source, and
/// pointing to it, with every copied message counted, and without a last
/// response. A copy keeps all of the message but for its identity, its time,
/// its checkpoint and its blocks of thoughts.
pub proof fn law_what_a_fork_is(
    store: StoreModel,
    source: ConversationModel,
    source_id: Seq<char>,
    response: Seq<char>,
    f: ForkModel,
    i: int,
)
    ensures
        ({
            let after = remove::forked(store, source, source_id, response, f);
            let taken = remove::forked_messages(store, source_id, response);
            let c = after.conversations.last();
            let n = store.messages.len() as int;
            &&& after.conversations.len() == store.conversations.len() + 1
            &&& after.messages.len() == n + taken.len()
            &&& c.id == f.conversation_row_id && c.conversation_id == f.conversation_id
            &&& c.title == source.title && c.summary == source.summary
            &&& c.model == source.model && c.api_profile_name == source.api_profile_name
            &&& c.directory_id == source.directory_id
            &&& c.status == "active"@
            &&& c.last_response_id.len() == 0
            &&& c.forked_from_conversation_id == source_id
            &&& c.fork_message_count == c.message_count
            &&& c.created_at == f.now && c.updated_at == f.now
            &&& store::messages_of(after, f.conversation_id).len() > 0 ==> c.last_message_preview
                == store::messages_of(after, f.conversation_id).last().content
            &&& 0 <= i < taken.len() ==> after.messages[n + i] == (MessageModel {
                id: f.fresh[i].row_id,
                message_id: after.messages[n + i].message_id,
                conversation_id: f.conversation_id,
                checkpoint_id: f.blank_message.checkpoint_id,
                thinking_blocks_json: f.blank_message.thinking_blocks_json,
                created_at: f.now,
                ..taken[i]
            })
        }),
{
}

} // verus!
