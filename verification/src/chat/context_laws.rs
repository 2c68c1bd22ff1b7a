//! What the model is shown of a conversation, in terms of the fields of the
//! exchanges that were kept.

use vstd::prelude::*;
use crate::chat::exchange;
use crate::chat::exchange::{ExchangeModel, SurroundingsModel};
use crate::chat::laws;
use crate::chat::laws::ids_are_new;
use crate::chat::rows::{ContextModel, MessageModel};
use crate::chat::snippets;
use crate::chat::store;
use crate::chat::store::StoreModel;
use crate::order;
use crate::rows;
use crate::text;

verus! {

/// The messages of a conversation are those of the table with its
/// identifier.
pub proof fn lemma_own_messages(store: StoreModel, id: Seq<char>)
    ensures
        forall|m: MessageModel| #[trigger]
            store::messages_of(store, id).contains(m) <==> store.messages.contains(m)
                && m.conversation_id == id,
        order::ordered(store::messages_of(store, id), store::by_id()),
{
    let p = store::in_conversation(id);
    let own = store.messages.filter(p);
    store::lemma_by_id_is_order();
    order::lemma_sorted(own, store::by_id());
    rows::lemma_same_values(store::messages_of(store, id), own);
    assert forall|m: MessageModel| #[trigger]
        store::messages_of(store, id).contains(m) <==> store.messages.contains(m)
            && m.conversation_id == id by {
        if own.contains(m) {
            store.messages.lemma_filter_contains_rev(p, m);
            let k = choose|k: int| 0 <= k < own.len() && own[k] == m;
            store.messages.lemma_filter_pred(p, k);
        }
        if store.messages.contains(m) && m.conversation_id == id {
            let k = choose|k: int| 0 <= k < store.messages.len() && store.messages[k] == m;
            store.messages.lemma_filter_contains(p, k);
        }
    }
}

/// Whether a message was compacted away: a compaction of its conversation
/// came after it.
pub open spec fn is_compacted_away(store: StoreModel, m: MessageModel) -> bool {
    exists|b: MessageModel| #[trigger]
        store.messages.contains(b) && b.conversation_id == m.conversation_id && b.status
            == "context_compaction"@ && order::before(m.id, b.id)
}

proof fn lemma_boundary(store: StoreModel, id: Seq<char>, m: MessageModel)
    requires
        m.conversation_id == id,
    ensures
        order::before(m.id, exchange::boundary(store::messages_of(store, id)))
            <==> is_compacted_away(store, m),
{
    let own = store::messages_of(store, id);
    let p = exchange::is_boundary();
    let marks = own.filter(p);
    lemma_own_messages(store, id);
    if marks.len() == 0 {
        if is_compacted_away(store, m) {
            let b = choose|b: MessageModel| #[trigger]
                store.messages.contains(b) && b.conversation_id == m.conversation_id && b.status
                    == "context_compaction"@ && order::before(m.id, b.id);
            assert(own.contains(b));
            let k = choose|k: int| 0 <= k < own.len() && own[k] == b;
            own.lemma_filter_contains(p, k);
        }
    } else {
        let last = marks.last();
        let n = marks.len() - 1;
        assert(marks[n] == last);
        own.lemma_filter_pred(p, n);
        assert(marks.contains(last));
        own.lemma_filter_contains_rev(p, last);
        assert(own.contains(last));
        if is_compacted_away(store, m) {
            let b = choose|b: MessageModel| #[trigger]
                store.messages.contains(b) && b.conversation_id == m.conversation_id && b.status
                    == "context_compaction"@ && order::before(m.id, b.id);
            assert(own.contains(b));
            let k = choose|k: int| 0 <= k < own.len() && own[k] == b;
            own.lemma_filter_contains(p, k);
            let j = choose|j: int| 0 <= j < marks.len() && marks[j] == b;
            lemma_filter_ordered(own, p);
            if j < n {
                assert(store::by_id()(marks[j], marks[n]));
            }
            order::lemma_before_total(b.id, last.id);
            if order::before(b.id, last.id) {
                order::lemma_before_transitive(m.id, b.id, last.id);
            }
        }
    }
}

/// What is kept of an ordered list is ordered.
pub proof fn lemma_filter_ordered(s: Seq<MessageModel>, p: spec_fn(MessageModel) -> bool)
    requires
        order::ordered(s, store::by_id()),
    ensures
        order::ordered(s.filter(p), store::by_id()),
    decreases s.len(),
{
    reveal_with_fuel(Seq::filter, 2);
    if s.len() > 0 {
        let front = s.drop_last();
        lemma_filter_ordered(front, p);
        let kept = front.filter(p);
        if p(s.last()) {
            let out = kept.push(s.last());
            assert forall|i: int, j: int| 0 <= i < j < out.len() implies store::by_id()(
                #[trigger] out[i],
                #[trigger] out[j],
            ) by {
                assert(kept[i] == out[i]);
                if j < kept.len() {
                    assert(kept[j] == out[j]);
                } else {
                    assert(kept.contains(kept[i]));
                    front.lemma_filter_contains_rev(p, kept[i]);
                    let k = choose|k: int| 0 <= k < front.len() && front[k] == kept[i];
                    assert(s[k] == front[k]);
                    assert(store::by_id()(s[k], s[s.len() - 1]));
                }
            }
        }
    }
}

/// Whether a message is shown as a part of the context: the role and the
/// content as they are, calls of tools and thoughts where there are any, the
/// results of tools with the role `tool` alone, and blocks of thoughts with
/// the role `assistant` alone.
pub open spec fn reads_as(m: MessageModel, c: ContextModel) -> bool {
    let has_calls = m.tool_calls_json.len() > 0 && m.tool_calls_json != "[]"@;
    let has_results = text::trimmed(m.role) == "tool"@ && m.raw_json.len() > 0 && m.raw_json
        != "{}"@;
    let has_blocks = text::trimmed(m.role) == "assistant"@ && m.thinking_blocks_json.len() > 0
        && m.thinking_blocks_json != "[]"@;
    &&& c.role == m.role
    &&& c.content == m.content
    &&& has_calls ==> c.tool_calls_json == Some(m.tool_calls_json)
    &&& !has_calls ==> c.tool_calls_json is None
    &&& has_results ==> c.tool_results_json == Some(m.raw_json)
    &&& !has_results ==> c.tool_results_json is None
    &&& m.thinking.len() > 0 ==> c.thinking == Some(m.thinking)
    &&& m.thinking.len() == 0 ==> c.thinking is None
    &&& has_blocks ==> c.thinking_blocks_json == Some(m.thinking_blocks_json)
    &&& !has_blocks ==> c.thinking_blocks_json is None
}

/// Whether a message says something: it has content or, from the assistant,
/// calls of tools or thoughts.
pub open spec fn says_something(m: MessageModel) -> bool {
    m.content.len() > 0 || (m.role == "assistant"@ && (m.thinking.len() > 0 || (
    m.tool_calls_json.len() > 0 && m.tool_calls_json != "[]"@)))
}

/// The context of a conversation holds its messages from the latest
/// compaction on that say something, but for answers that failed, and
/// nothing else.
pub proof fn law_what_the_model_is_shown(store: StoreModel, id: Seq<char>, c: ContextModel)
    ensures
        exchange::context_of(store, id).contains(c) <==> exists|m: MessageModel| #[trigger]
            store.messages.contains(m) && m.conversation_id == id && says_something(m) && !(m.role
                == "assistant"@ && m.status == "error"@) && !is_compacted_away(store, m)
                && reads_as(m, c),
{
    let own = store::messages_of(store, id);
    let f = exchange::shown_from(exchange::boundary(own));
    lemma_own_messages(store, id);
    rows::lemma_filter_map_contains(own, f, c);
    reveal_strlit("");
    if exists|i: int| 0 <= i < own.len() && f(#[trigger] own[i]) == Some(c) {
        let i = choose|i: int| 0 <= i < own.len() && f(#[trigger] own[i]) == Some(c);
        let m = own[i];
        assert(own.contains(m));
        lemma_boundary(store, id, m);
        assert(store.messages.contains(m));
        assert(reads_as(m, c));
    }
    if exists|m: MessageModel| #[trigger]
        store.messages.contains(m) && m.conversation_id == id && says_something(m) && !(m.role
            == "assistant"@ && m.status == "error"@) && !is_compacted_away(store, m) && reads_as(
            m,
            c,
        ) {
        let m = choose|m: MessageModel| #[trigger]
            store.messages.contains(m) && m.conversation_id == id && says_something(m) && !(m.role
                == "assistant"@ && m.status == "error"@) && !is_compacted_away(store, m)
                && reads_as(m, c);
        assert(own.contains(m));
        let i = choose|i: int| 0 <= i < own.len() && own[i] == m;
        lemma_boundary(store, id, m);
        assert(exchange::shown(m) == c);
        assert(f(own[i]) == Some(c));
    }
}

// ---------------------------------------------------------------------
// What is read back of an exchange
// ---------------------------------------------------------------------

/// New messages are within the context.
proof fn lemma_new_are_shown(store: StoreModel, id: Seq<char>, s: SurroundingsModel, j: int)
    requires
        ids_are_new(store, id, s),
        0 <= j < s.fresh.len(),
    ensures
        !order::before(s.fresh[j].row_id, exchange::boundary(store::messages_of(store, id))),
{
    let own = store::messages_of(store, id);
    let p = exchange::is_boundary();
    let marks = own.filter(p);
    lemma_own_messages(store, id);
    if marks.len() > 0 {
        let last = marks.last();
        assert(marks.contains(last)) by {
            assert(marks[marks.len() - 1] == last);
        }
        own.lemma_filter_contains_rev(p, last);
        assert(own.contains(last));
        let k = choose|k: int| 0 <= k < store.messages.len() && store.messages[k] == last;
        assert(order::before(store.messages[k].id, s.fresh[j].row_id));
        order::lemma_before_total(last.id, s.fresh[j].row_id);
    }
}

/// Whether an exchange is an ordinary one: no compaction of the context.
pub open spec fn is_ordinary(x: ExchangeModel) -> bool {
    !x.context_compaction && x.status != "context_compaction"@
}

proof fn lemma_words_differ()
    ensures
        "assistant"@ != "tool"@,
        "user"@ != "tool"@,
        "user"@ != "assistant"@,
        "sent"@ != "error"@,
        "sent"@ != "context_compaction"@,
        "assistant"@.len() == 9,
        text::trimmed("assistant"@) == "assistant"@,
        text::trimmed("user"@) == "user"@,
        text::trimmed("tool"@) == "tool"@,
        text::trimmed("system"@) == "system"@,
        text::trimmed("developer"@) == "developer"@,
{
    reveal_strlit("assistant");
    reveal_strlit("tool");
    reveal_strlit("user");
    reveal_strlit("system");
    reveal_strlit("developer");
    reveal_strlit("sent");
    reveal_strlit("error");
    reveal_strlit("context_compaction");
    assert("sent"@.len() != "error"@.len());
    assert("sent"@.len() != "context_compaction"@.len());
    assert("user"@[0] != "tool"@[0]);
}

/// After an ordinary exchange the context is what it was, and then what the
/// exchange added. Its last part is the answer, where that did not fail and
/// says something: the role `assistant`, the content and the thoughts
/// without white space around them, and the calls of tools and the blocks of
/// thoughts as they were given, where there are any.
pub proof fn law_answer_is_read_back(
    store: StoreModel,
    x: ExchangeModel,
    s: SurroundingsModel,
    title: Seq<char>,
)
    requires
        ids_are_new(store, x.conversation_id, s),
        x.request_messages.len() < s.fresh.len(),
        is_ordinary(x),
        x.status != "error"@,
    ensures
        ({
            let old_context = exchange::context_of(store, x.conversation_id);
            let context = exchange::context_of(
                exchange::stored(store, x, s, title),
                x.conversation_id,
            );
            let content = text::trimmed(x.response_content);
            let thoughts = text::trimmed(x.response_thinking);
            let has_calls = x.tool_calls_json.len() > 0 && x.tool_calls_json != "[]"@;
            let has_blocks = x.response_thinking_blocks_json.len() > 0
                && x.response_thinking_blocks_json != "[]"@;
            &&& old_context.len() <= context.len()
            &&& context.take(old_context.len() as int) == old_context
            &&& content.len() > 0 || thoughts.len() > 0 || has_calls ==> {
                let answer = context.last();
                &&& old_context.len() < context.len()
                &&& answer.role == "assistant"@
                &&& answer.content == content
                &&& has_calls ==> answer.tool_calls_json == Some(x.tool_calls_json)
                &&& !has_calls ==> answer.tool_calls_json is None
                &&& thoughts.len() > 0 ==> answer.thinking == Some(thoughts)
                &&& thoughts.len() == 0 ==> answer.thinking is None
                &&& has_blocks ==> answer.thinking_blocks_json == Some(
                    x.response_thinking_blocks_json,
                )
                &&& !has_blocks ==> answer.thinking_blocks_json is None
                &&& answer.tool_results_json is None
            }
        }),
{
    let id = x.conversation_id;
    let f = exchange::shown_from(exchange::boundary(store::messages_of(store, id)));
    let k = exchange::kept_requests(x) as int;
    let answer = exchange::answer_row(x, s, k);
    let requests = Seq::new(exchange::kept_requests(x), |i: int| exchange::request_row(x, s, i));
    let new = exchange::new_messages(x, s);
    let old_context = exchange::context_of(store, id);
    let context = exchange::context_of(exchange::stored(store, x, s, title), id);
    laws::law_exchange_extends_context(store, x, s, title);
    lemma_new_are_shown(store, id, s, k);
    lemma_words_differ();
    assert(new =~= requests + seq![answer]);
    laws::lemma_filter_map_concat(requests, seq![answer], f);
    Seq::lemma_filter_map_singleton(answer, f);
    assert(context == old_context + (requests.filter_map(f) + seq![answer].filter_map(f)));
    assert(context.take(old_context.len() as int) =~= old_context);
    if f(answer) is Some {
        assert(seq![answer].filter_map(f) == seq![exchange::shown(answer)]);
        assert(context.last() == exchange::shown(answer));
    }
}

/// Whether a role is one of those that a message keeps.
pub open spec fn is_kept_role(role: Seq<char>) -> bool {
    role == "assistant"@ || role == "system"@ || role == "developer"@ || role == "tool"@
}

/// What a request says is read back after an ordinary exchange, message by
/// message and in order, where each of them has content: its content without
/// white space around it, under its role or, where that is none of those
/// that are kept, as the user's. The results of tools come with messages of
/// tools alone, and nothing else of a request is shown.
pub proof fn law_request_is_read_back(
    store: StoreModel,
    x: ExchangeModel,
    s: SurroundingsModel,
    title: Seq<char>,
    i: int,
)
    requires
        ids_are_new(store, x.conversation_id, s),
        x.request_messages.len() < s.fresh.len(),
        is_ordinary(x),
        !x.resume_after_compaction,
        forall|j: int|
            0 <= j < x.request_messages.len() ==> text::trimmed(
                (#[trigger] x.request_messages[j]).content,
            ).len() > 0,
        0 <= i < x.request_messages.len(),
    ensures
        ({
            let n = exchange::context_of(store, x.conversation_id).len() as int;
            let context = exchange::context_of(
                exchange::stored(store, x, s, title),
                x.conversation_id,
            );
            let m = x.request_messages[i];
            let role = text::trimmed(m.role);
            let c = context[n + i];
            &&& n + x.request_messages.len() <= context.len()
            &&& is_kept_role(role) ==> c.role == role
            &&& !is_kept_role(role) ==> c.role == "user"@
            &&& c.content == text::trimmed(m.content)
            &&& role == "tool"@ && m.tool_results_json is Some && m.tool_results_json->0.len() > 0
                && m.tool_results_json->0 != "{}"@ ==> c.tool_results_json == m.tool_results_json
            &&& role == "tool"@ && m.tool_results_json is None ==> c.tool_results_json is None
            &&& role != "tool"@ ==> c.tool_results_json is None
            &&& c.tool_calls_json is None
            &&& c.thinking is None
            &&& c.thinking_blocks_json is None
        }),
{
    let id = x.conversation_id;
    let start = exchange::boundary(store::messages_of(store, id));
    let f = exchange::shown_from(start);
    let answer = exchange::answer_row(x, s, x.request_messages.len() as int);
    let requests = Seq::new(
        x.request_messages.len(),
        |j: int| exchange::request_row(x, s, j),
    );
    let new = exchange::new_messages(x, s);
    laws::law_exchange_extends_context(store, x, s, title);
    lemma_words_differ();
    assert(new =~= requests + seq![answer]);
    laws::lemma_filter_map_concat(requests, seq![answer], f);
    assert forall|j: int| 0 <= j < requests.len() implies f(#[trigger] requests[j]) == Some(
        exchange::shown(requests[j]),
    ) by {
        lemma_new_are_shown(store, id, s, j);
        assert(text::trimmed(x.request_messages[j].content).len() > 0);
    }
    lemma_all_shown(requests, f);
    let row = requests[i];
    assert(row == exchange::request_row(x, s, i));
    assert(snippets::role_of(x.request_messages[i].role) == row.role);
    reveal_strlit("[]");
    reveal_strlit("{}");
    reveal_strlit("");
}

/// Where every value gives something, each gives its own.
proof fn lemma_all_shown(s: Seq<MessageModel>, f: spec_fn(MessageModel) -> Option<ContextModel>)
    requires
        forall|j: int|
            0 <= j < s.len() ==> f(#[trigger] s[j]) == Some(exchange::shown(s[j])),
    ensures
        s.filter_map(f).len() == s.len(),
        forall|j: int| 0 <= j < s.len() ==> #[trigger] s.filter_map(f)[j] == exchange::shown(s[j]),
    decreases s.len(),
{
    reveal_with_fuel(Seq::filter_map, 2);
    if s.len() > 0 {
        let front = s.drop_last();
        assert forall|j: int| 0 <= j < front.len() implies f(#[trigger] front[j]) == Some(
            exchange::shown(front[j]),
        ) by {
            assert(front[j] == s[j]);
        }
        lemma_all_shown(front, f);
        assert(f(s[s.len() - 1]) == Some(exchange::shown(s[s.len() - 1])));
        assert(s.filter_map(f) == front.filter_map(f).push(exchange::shown(s.last())));
    }
}

} // verus!
