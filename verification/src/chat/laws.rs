//! What holds of conversations across operations.

use vstd::prelude::*;
use crate::chat::exchange;
use crate::chat::exchange::{ExchangeModel, FailedModel, SurroundingsModel};
use crate::chat::listing;
use crate::chat::remove;
use crate::chat::rows::{ContextModel, ConversationRecordModel, MessageModel, SubAgentModel};
use crate::chat::snippets;
use crate::chat::store;
use crate::chat::store::StoreModel;
use crate::order;
use crate::rows;

verus! {

/// Whether the identifiers for new messages come after those of all
/// messages of a conversation, in order, each once.
pub open spec fn ids_are_new(store: StoreModel, id: Seq<char>, s: SurroundingsModel) -> bool {
    &&& forall|i: int, j: int|
        0 <= i < store.messages.len() && 0 <= j < s.fresh.len()
            && store.messages[i].conversation_id == id ==> order::before(
            (#[trigger] store.messages[i]).id,
            (#[trigger] s.fresh[j]).row_id,
        )
    &&& forall|i: int, j: int|
        0 <= i < j < s.fresh.len() ==> order::before(
            (#[trigger] s.fresh[i]).row_id,
            (#[trigger] s.fresh[j]).row_id,
        )
}

/// What two lists one behind the other give is what each gives.
pub proof fn lemma_filter_map_concat<A, B>(a: Seq<A>, b: Seq<A>, f: spec_fn(A) -> Option<B>)
    ensures
        (a + b).filter_map(f) == a.filter_map(f) + b.filter_map(f),
    decreases b.len(),
{
    if b.len() == 0 {
        assert(a + b =~= a);
        assert(a.filter_map(f) + b.filter_map(f) =~= a.filter_map(f));
    } else {
        lemma_filter_map_concat(a, b.drop_last(), f);
        assert((a + b).drop_last() =~= a + b.drop_last());
        assert((a + b).filter_map(f) =~= a.filter_map(f) + b.filter_map(f));
    }
}

/// What is kept of two lists one behind the other is what is kept of each.
pub proof fn lemma_filter_concat<A>(a: Seq<A>, b: Seq<A>, p: spec_fn(A) -> bool)
    ensures
        (a + b).filter(p) == a.filter(p) + b.filter(p),
    decreases b.len(),
{
    reveal_with_fuel(Seq::filter, 2);
    if b.len() == 0 {
        assert(a + b =~= a);
        assert(a.filter(p) + b.filter(p) =~= a.filter(p));
    } else {
        lemma_filter_concat(a, b.drop_last(), p);
        assert((a + b).drop_last() =~= a + b.drop_last());
        assert((a + b).filter(p) =~= a.filter(p) + b.filter(p));
    }
}

/// A test that nothing passes keeps nothing.
pub proof fn lemma_filter_none<A>(s: Seq<A>, p: spec_fn(A) -> bool)
    requires
        forall|i: int| 0 <= i < s.len() ==> !p(#[trigger] s[i]),
    ensures
        s.filter(p) == Seq::<A>::empty(),
    decreases s.len(),
{
    reveal_with_fuel(Seq::filter, 2);
    if s.len() > 0 {
        assert forall|i: int| 0 <= i < s.drop_last().len() implies !p(
            #[trigger] s.drop_last()[i],
        ) by {
            assert(s.drop_last()[i] == s[i]);
        }
        lemma_filter_none(s.drop_last(), p);
        assert(!p(s[s.len() - 1]));
    } else {
        assert(s.filter(p) =~= Seq::<A>::empty());
    }
}

/// The new messages belong to the conversation, have new identifiers and
/// are in order.
proof fn lemma_new_messages(store: StoreModel, x: ExchangeModel, s: SurroundingsModel)
    requires
        ids_are_new(store, x.conversation_id, s),
        x.request_messages.len() < s.fresh.len(),
    ensures
        ({
            let new = exchange::new_messages(x, s);
            &&& forall|i: int|
                0 <= i < new.len() ==> i < s.fresh.len() && (#[trigger] new[i]).id
                    == s.fresh[i].row_id && new[i].conversation_id == x.conversation_id
            &&& order::ordered(new, store::by_id())
            &&& forall|i: int, j: int|
                0 <= i < store.messages.len() && 0 <= j < new.len()
                    && store.messages[i].conversation_id == x.conversation_id ==> store::by_id()(
                    #[trigger] store.messages[i],
                    #[trigger] new[j],
                )
        }),
{
    let new = exchange::new_messages(x, s);
    assert forall|i: int, j: int| 0 <= i < j < new.len() implies store::by_id()(
        #[trigger] new[i],
        #[trigger] new[j],
    ) by {
        order::lemma_before_total(s.fresh[i].row_id, s.fresh[j].row_id);
    }
    assert forall|i: int, j: int|
        0 <= i < store.messages.len() && 0 <= j < new.len() && store.messages[i].conversation_id
            == x.conversation_id implies store::by_id()(
        #[trigger] store.messages[i],
        #[trigger] new[j],
    ) by {
        order::lemma_before_total(store.messages[i].id, s.fresh[j].row_id);
    }
}

/// The messages of the conversation after an exchange are those it had,
/// with the new ones behind them.
pub proof fn law_exchange_appends(
    store: StoreModel,
    x: ExchangeModel,
    s: SurroundingsModel,
    title: Seq<char>,
)
    requires
        ids_are_new(store, x.conversation_id, s),
        x.request_messages.len() < s.fresh.len(),
    ensures
        store::messages_of(exchange::stored(store, x, s, title), x.conversation_id)
            == store::messages_of(store, x.conversation_id) + exchange::new_messages(x, s),
{
    let new = exchange::new_messages(x, s);
    let p = store::in_conversation(x.conversation_id);
    lemma_new_messages(store, x, s);
    lemma_filter_concat(store.messages, new, p);
    rows::lemma_filter_all(new, p);
    let own = store.messages.filter(p);
    assert forall|i: int, j: int| 0 <= i < own.len() && 0 <= j < new.len() implies store::by_id()(
        #[trigger] own[i],
        #[trigger] new[j],
    ) by {
        assert(own.contains(own[i]));
        store.messages.lemma_filter_contains_rev(p, own[i]);
        store.messages.lemma_filter_pred(p, i);
        let k = choose|k: int| 0 <= k < store.messages.len() && store.messages[k] == own[i];
        assert(store::by_id()(store.messages[k], new[j]));
    }
    store::lemma_by_id_is_order();
    order::lemma_sorted_append(own, new, store::by_id());
}

/// After an exchange the model sees what it saw before, and then what the
/// exchange added, as long as the exchange is no compaction.
pub proof fn law_exchange_extends_context(
    store: StoreModel,
    x: ExchangeModel,
    s: SurroundingsModel,
    title: Seq<char>,
)
    requires
        ids_are_new(store, x.conversation_id, s),
        x.request_messages.len() < s.fresh.len(),
        !exchange::compaction_done(x),
        x.status != "context_compaction"@,
    ensures
        ({
            let before = store::messages_of(store, x.conversation_id);
            exchange::context_of(exchange::stored(store, x, s, title), x.conversation_id)
                == exchange::context_of(store, x.conversation_id) + exchange::new_messages(
                x,
                s,
            ).filter_map(exchange::shown_from(exchange::boundary(before)))
        }),
{
    let before = store::messages_of(store, x.conversation_id);
    let new = exchange::new_messages(x, s);
    law_exchange_appends(store, x, s, title);
    assert forall|i: int| 0 <= i < new.len() implies !exchange::is_boundary()(#[trigger] new[i]) by {
        if i < exchange::kept_requests(x) {
            assert("sent"@ != "context_compaction"@) by {
                reveal_strlit("sent");
                reveal_strlit("context_compaction");
                assert("sent"@.len() != "context_compaction"@.len());
            }
        }
    }
    lemma_filter_concat(before, new, exchange::is_boundary());
    lemma_filter_none(new, exchange::is_boundary());
    assert(before.filter(exchange::is_boundary()) + Seq::<MessageModel>::empty()
        =~= before.filter(exchange::is_boundary()));
    lemma_filter_map_concat(before, new, exchange::shown_from(exchange::boundary(before)));
}

/// After a compaction that succeeded the model sees its result and nothing
/// else.
pub proof fn law_compaction_replaces_context(
    store: StoreModel,
    x: ExchangeModel,
    s: SurroundingsModel,
    title: Seq<char>,
)
    requires
        ids_are_new(store, x.conversation_id, s),
        x.request_messages.len() < s.fresh.len(),
        exchange::compaction_done(x),
    ensures
        exchange::context_of(exchange::stored(store, x, s, title), x.conversation_id) == seq![
            exchange::shown(exchange::boundary_row(x, s)),
        ],
{
    let before = store::messages_of(store, x.conversation_id);
    let row = exchange::boundary_row(x, s);
    let new = exchange::new_messages(x, s);
    law_exchange_appends(store, x, s, title);
    lemma_new_messages(store, x, s);
    lemma_filter_concat(before, new, exchange::is_boundary());
    rows::lemma_filter_all(new, exchange::is_boundary());
    let marks = before.filter(exchange::is_boundary()) + new;
    assert(marks.last() == row);
    let f = exchange::shown_from(row.id);
    lemma_filter_map_concat(before, new, f);
    assert forall|i: int| 0 <= i < before.len() implies f(#[trigger] before[i]) is None by {
        let own = store.messages.filter(store::in_conversation(x.conversation_id));
        store::lemma_by_id_is_order();
        order::lemma_sorted(own, store::by_id());
        broadcast use vstd::seq_lib::group_to_multiset_ensures;

        assert(before.contains(before[i]));
        assert(before.to_multiset().contains(before[i]));
        assert(own.to_multiset().contains(before[i]));
        assert(own.contains(before[i]));
        store.messages.lemma_filter_contains_rev(
            store::in_conversation(x.conversation_id),
            before[i],
        );
        let k = choose|k: int| 0 <= k < store.messages.len() && store.messages[k] == before[i];
        assert(order::before(store.messages[k].id, s.fresh[0].row_id));
    }
    lemma_filter_map_none(before, f);
    order::lemma_before_total(row.id, row.id);
    assert("user"@ != "assistant"@) by {
        reveal_strlit("user");
        reveal_strlit("assistant");
        assert("user"@.len() != "assistant"@.len());
    }
    assert(f(row) == Some(exchange::shown(row)));
    Seq::lemma_filter_map_singleton(row, f);
    assert(new.filter_map(f) =~= seq![exchange::shown(row)]);
    assert(Seq::<ContextModel>::empty() + seq![exchange::shown(row)] =~= seq![
        exchange::shown(row),
    ]);
}

/// Where no value gives anything, nothing is given.
pub proof fn lemma_filter_map_none<A, B>(s: Seq<A>, f: spec_fn(A) -> Option<B>)
    requires
        forall|i: int| 0 <= i < s.len() ==> f(#[trigger] s[i]) is None,
    ensures
        s.filter_map(f) == Seq::<B>::empty(),
    decreases s.len(),
{
    if s.len() > 0 {
        assert forall|i: int| 0 <= i < s.drop_last().len() implies f(
            #[trigger] s.drop_last()[i],
        ) is None by {
            assert(s.drop_last()[i] == s[i]);
        }
        lemma_filter_map_none(s.drop_last(), f);
        assert(f(s[s.len() - 1]) is None);
    }
}

/// A compaction that did not succeed leaves the messages and the size of
/// the context as they were.
pub proof fn law_failed_compaction_keeps_context(
    store: StoreModel,
    x: ExchangeModel,
    s: SurroundingsModel,
    title: Seq<char>,
    i: int,
)
    requires
        x.context_compaction,
        !exchange::compaction_done(x),
        0 <= i < store.conversations.len(),
    ensures
        ({
            let after = exchange::stored(store, x, s, title);
            &&& after.messages == store.messages
            &&& after.conversations[i].input_tokens == store.conversations[i].input_tokens
            &&& after.conversations[i].output_tokens == store.conversations[i].output_tokens
            &&& after.conversations[i].cache_creation_input_tokens
                == store.conversations[i].cache_creation_input_tokens
            &&& after.conversations[i].cache_read_input_tokens
                == store.conversations[i].cache_read_input_tokens
        }),
{
    assert(store.messages + exchange::new_messages(x, s) =~= store.messages);
}

/// Cutting a conversation at the first message that an exchange added
/// leaves the messages as they were before it. The responses that go are
/// those of the exchange.
proof fn lemma_cut_takes_back(
    store: StoreModel,
    x: ExchangeModel,
    s: SurroundingsModel,
    title: Seq<char>,
    now: Seq<char>,
)
    requires
        ids_are_new(store, x.conversation_id, s),
        x.request_messages.len() < s.fresh.len(),
        exchange::new_messages(x, s).len() > 0,
    ensures
        ({
            let new = exchange::new_messages(x, s);
            let after = exchange::stored(store, x, s, title);
            let id = x.conversation_id;
            let back = remove::cut_from(after, id, new[0].id, now);
            let gone = new.filter_map(remove::response_going(id, new[0].id));
            back.messages == store.messages && back.todos == store.todos.filter(
                remove::todo_stays_in(id, gone),
            )
        }),
{
    let new = exchange::new_messages(x, s);
    let after = exchange::stored(store, x, s, title);
    let id = x.conversation_id;
    let first = new[0].id;
    lemma_new_messages(store, x, s);
    assert(after.messages == store.messages + new);
    let q = remove::stays_before(id, first);
    lemma_filter_concat(store.messages, new, q);
    assert forall|i: int| 0 <= i < store.messages.len() implies q(#[trigger] store.messages[i]) by {
        if store.messages[i].conversation_id == id {
            assert(order::before(store.messages[i].id, s.fresh[0].row_id));
        }
    }
    rows::lemma_filter_all(store.messages, q);
    assert forall|i: int| 0 <= i < new.len() implies !q(#[trigger] new[i]) by {
        order::lemma_before_total(new[i].id, first);
        if i > 0 {
            assert(order::before(s.fresh[0].row_id, s.fresh[i].row_id));
        }
    }
    lemma_filter_none(new, q);
    assert(store.messages + Seq::<MessageModel>::empty() =~= store.messages);
    let g = remove::response_going(id, first);
    lemma_filter_map_concat(store.messages, new, g);
    assert forall|i: int| 0 <= i < store.messages.len() implies g(
        #[trigger] store.messages[i],
    ) is None by {
        if store.messages[i].conversation_id == id {
            assert(order::before(store.messages[i].id, s.fresh[0].row_id));
        }
    }
    lemma_filter_map_none(store.messages, g);
    assert(Seq::<Seq<char>>::empty() + new.filter_map(g) =~= new.filter_map(g));
}

/// A failed exchange can be taken back: cutting the conversation at the
/// first message that it added, where that is one of the user, leaves the
/// messages and the tasks as they were before it.
pub proof fn law_failed_exchange_can_be_taken_back(
    store: StoreModel,
    x: ExchangeModel,
    s: SurroundingsModel,
    title: Seq<char>,
    now: Seq<char>,
)
    requires
        ids_are_new(store, x.conversation_id, s),
        x.request_messages.len() < s.fresh.len(),
        !x.context_compaction,
        x.response_id.len() == 0,
        exchange::new_messages(x, s)[0].role == "user"@,
    ensures
        ({
            let after = exchange::stored(store, x, s, title);
            let first = exchange::new_messages(x, s)[0].id;
            let back = remove::cut_at(
                after,
                x.conversation_id,
                remove::message_cut(after, x.conversation_id, first),
                now,
            );
            back.messages == store.messages && back.todos == store.todos
        }),
{
    let new = exchange::new_messages(x, s);
    let after = exchange::stored(store, x, s, title);
    let id = x.conversation_id;
    let first = new[0].id;
    lemma_new_messages(store, x, s);
    assert(after.messages == store.messages + new);
    let p = remove::is_message(id, first);
    rows::lemma_first_row(after.messages, p);
    assert(after.messages[store.messages.len() as int] == new[0]);
    assert(p(after.messages[store.messages.len() as int]));
    let m = rows::first_row(after.messages, p)->0;
    let k = choose|k: int| 0 <= k < after.messages.len() && after.messages[k] == m;
    assert("user"@ != "assistant"@) by {
        reveal_strlit("user");
        reveal_strlit("assistant");
        assert("user"@.len() != "assistant"@.len());
    }
    if k < store.messages.len() {
        assert(store.messages[k] == m);
        assert(order::before(store.messages[k].id, s.fresh[0].row_id));
        order::lemma_before_total(first, first);
    } else {
        let j = k - store.messages.len();
        assert(new[j] == m);
        if j > 0 {
            assert(order::before(s.fresh[0].row_id, s.fresh[j].row_id));
            order::lemma_before_total(first, first);
        }
    }
    assert(m == new[0]);
    lemma_cut_takes_back(store, x, s, title, now);
    let g = remove::response_going(id, first);
    lemma_filter_map_none(new, g);
    let gone = new.filter_map(g);
    assert(gone =~= Seq::<Seq<char>>::empty());
    rows::lemma_filter_all(store.todos, remove::todo_stays_in(id, gone));
}

/// What is kept of a request that failed can be taken back by the first
/// message that is named for it, where the request begins with a message of
/// the user.
pub proof fn law_failed_request_can_be_taken_back(
    store: StoreModel,
    f: FailedModel,
    id: Seq<char>,
    s: SurroundingsModel,
    title: Seq<char>,
    now: Seq<char>,
)
    requires
        ids_are_new(store, id, s),
        f.request_messages.len() < s.fresh.len(),
        !f.resume_after_compaction,
        exchange::failed_exchange(f, id).request_messages.len() > 0,
        snippets::role_of(exchange::failed_exchange(f, id).request_messages[0].role) == "user"@,
    ensures
        ({
            let x = exchange::failed_exchange(f, id);
            let after = exchange::stored(store, x, s, title);
            let ids = exchange::new_messages(x, s).filter_map(exchange::user_id());
            let back = remove::cut_at(after, id, remove::message_cut(after, id, ids[0]), now);
            &&& ids.len() > 0
            &&& back.messages == store.messages
            &&& back.todos == store.todos
            &&& store::messages_of(back, id) == store::messages_of(store, id)
        }),
{
    let x = exchange::failed_exchange(f, id);
    let new = exchange::new_messages(x, s);
    exchange::lemma_filter_map_len(f.request_messages, exchange::failed_message());
    law_failed_exchange_can_be_taken_back(store, x, s, title, now);
    lemma_first_named(new, exchange::user_id());
}

/// The first value counts where it gives something.
proof fn lemma_first_named<A, B>(s: Seq<A>, f: spec_fn(A) -> Option<B>)
    requires
        s.len() > 0,
        f(s[0]) is Some,
    ensures
        s.filter_map(f).len() > 0,
        Some(s.filter_map(f)[0]) == f(s[0]),
    decreases s.len(),
{
    let rest = s.skip(1);
    assert(s =~= seq![s[0]] + rest);
    lemma_filter_map_concat(seq![s[0]], rest, f);
    Seq::lemma_filter_map_singleton(s[0], f);
}

/// Whether an exchange is an ordinary one with one message of request, and
/// its response is new to the conversation.
pub open spec fn is_plain_exchange(store: StoreModel, x: ExchangeModel) -> bool {
    &&& x.request_messages.len() == 1
    &&& !x.context_compaction
    &&& !x.resume_after_compaction
    &&& x.status != "context_compaction"@
    &&& x.response_id.len() > 0
    &&& forall|i: int|
        0 <= i < store.messages.len() && (#[trigger] store.messages[i]).conversation_id
            == x.conversation_id ==> store.messages[i].response_id != x.response_id
}

/// The response of an exchange is found at its answer.
proof fn lemma_response_found(
    store: StoreModel,
    x: ExchangeModel,
    s: SurroundingsModel,
    title: Seq<char>,
)
    requires
        is_plain_exchange(store, x),
    ensures
        rows::first_row(
            exchange::stored(store, x, s, title).messages,
            remove::is_response(x.conversation_id, x.response_id),
        ) == Some(exchange::answer_row(x, s, 1)),
        exchange::new_messages(x, s) == seq![
            exchange::request_row(x, s, 0),
            exchange::answer_row(x, s, 1),
        ],
{
    let new = exchange::new_messages(x, s);
    let all = exchange::stored(store, x, s, title).messages;
    let request = exchange::request_row(x, s, 0);
    let answer = exchange::answer_row(x, s, 1);
    assert(new =~= seq![request, answer]);
    assert(all == store.messages + new);
    let p = remove::is_response(x.conversation_id, x.response_id);
    rows::lemma_first_row(all, p);
    let n = store.messages.len() as int;
    assert(all[n + 1] == answer);
    assert(p(all[n + 1]));
    let m = rows::first_row(all, p)->0;
    let k = choose|k: int| 0 <= k < all.len() && all[k] == m;
    if k < n {
        assert(store.messages[k] == m);
    } else {
        assert(new[k - n] == m);
    }
}

/// The exchange begins at its request.
proof fn lemma_request_found(
    store: StoreModel,
    x: ExchangeModel,
    s: SurroundingsModel,
    title: Seq<char>,
)
    requires
        ids_are_new(store, x.conversation_id, s),
        1 < s.fresh.len(),
        is_plain_exchange(store, x),
    ensures
        remove::request_start(
            exchange::stored(store, x, s, title),
            x.conversation_id,
            exchange::answer_row(x, s, 1).id,
        ) == exchange::request_row(x, s, 0).id,
{
    let id = x.conversation_id;
    let new = exchange::new_messages(x, s);
    let request = exchange::request_row(x, s, 0);
    let answer = exchange::answer_row(x, s, 1);
    lemma_response_found(store, x, s, title);
    law_exchange_appends(store, x, s, title);
    let q = remove::is_request_before(answer.id);
    let own = store::messages_of(store, id);
    assert(order::before(s.fresh[0].row_id, s.fresh[1].row_id));
    order::lemma_before_total(answer.id, answer.id);
    assert(q(request));
    assert(!q(answer));
    rows::lemma_filter_all(seq![request], q);
    lemma_filter_none(seq![answer], q);
    lemma_filter_concat(seq![request], seq![answer], q);
    assert(seq![request] + seq![answer] =~= new);
    assert(new.filter(q) =~= seq![request]);
    lemma_filter_concat(own, new, q);
    let requests = own.filter(q) + seq![request];
    assert(requests.last() == request);
}

/// Taking an exchange back takes its response.
proof fn lemma_response_goes(store: StoreModel, x: ExchangeModel, s: SurroundingsModel)
    requires
        ids_are_new(store, x.conversation_id, s),
        1 < s.fresh.len(),
        is_plain_exchange(store, x),
    ensures
        exchange::new_messages(x, s).filter_map(
            remove::response_going(x.conversation_id, exchange::request_row(x, s, 0).id),
        ) == seq![x.response_id],
{
    let request = exchange::request_row(x, s, 0);
    let answer = exchange::answer_row(x, s, 1);
    let new = exchange::new_messages(x, s);
    assert(new =~= seq![request] + seq![answer]);
    let g = remove::response_going(x.conversation_id, request.id);
    assert(order::before(s.fresh[0].row_id, s.fresh[1].row_id));
    order::lemma_before_total(answer.id, request.id);
    assert(g(request) is None);
    assert(g(answer) == Some(x.response_id));
    lemma_filter_map_concat(seq![request], seq![answer], g);
    Seq::lemma_filter_map_singleton(request, g);
    Seq::lemma_filter_map_singleton(answer, g);
    assert(new.filter_map(g) =~= seq![x.response_id]);
}

/// An exchange with one message of request can be taken back by its
/// response: cutting the conversation there takes the request along, and
/// leaves the messages as they were before the exchange. Tasks go only
/// where they belong to the response.
pub proof fn law_exchange_can_be_taken_back(
    store: StoreModel,
    x: ExchangeModel,
    s: SurroundingsModel,
    title: Seq<char>,
    now: Seq<char>,
)
    requires
        ids_are_new(store, x.conversation_id, s),
        1 < s.fresh.len(),
        is_plain_exchange(store, x),
    ensures
        ({
            let after = exchange::stored(store, x, s, title);
            let id = x.conversation_id;
            let back = remove::cut_at(
                after,
                id,
                remove::response_cut(after, id, x.response_id),
                now,
            );
            &&& back.messages == store.messages
            &&& store::messages_of(back, id) == store::messages_of(store, id)
            &&& back.todos == store.todos.filter(remove::todo_stays_in(id, seq![x.response_id]))
        }),
{
    let after = exchange::stored(store, x, s, title);
    let id = x.conversation_id;
    let request = exchange::request_row(x, s, 0);
    lemma_response_found(store, x, s, title);
    lemma_request_found(store, x, s, title);
    assert(remove::response_cut(after, id, x.response_id) == Some(request.id));
    assert(exchange::new_messages(x, s)[0] == request);
    lemma_cut_takes_back(store, x, s, title, now);
    lemma_response_goes(store, x, s);
}

// ---------------------------------------------------------------------
// Sub-agents
// ---------------------------------------------------------------------

/// The group of a parent.
pub open spec fn group_of(
    groups: Seq<(Seq<char>, Seq<ConversationRecordModel>)>,
    parent: Seq<char>,
) -> Option<Seq<ConversationRecordModel>>
    decreases groups.len(),
{
    if groups.len() == 0 {
        None
    } else if groups[0].0 == parent {
        Some(groups[0].1)
    } else {
        group_of(groups.skip(1), parent)
    }
}

/// Whether no parent has two groups.
pub open spec fn parents_differ(groups: Seq<(Seq<char>, Seq<ConversationRecordModel>)>) -> bool {
    forall|i: int, j: int|
        0 <= i < j < groups.len() ==> (#[trigger] groups[i]).0 != (#[trigger] groups[j]).0
}

/// The records of a parent.
pub open spec fn of_parent(parent: Seq<char>) -> spec_fn(ConversationRecordModel) -> bool {
    |r: ConversationRecordModel| r.parent_conversation_id == parent
}

proof fn lemma_with_record(
    groups: Seq<(Seq<char>, Seq<ConversationRecordModel>)>,
    r: ConversationRecordModel,
    parent: Seq<char>,
)
    requires
        parents_differ(groups),
    ensures
        parents_differ(listing::with_record(groups, r)),
        forall|i: int|
            0 <= i < listing::with_record(groups, r).len() ==> (#[trigger] listing::with_record(
                groups,
                r,
            )[i]).0 == r.parent_conversation_id || exists|k: int|
                0 <= k < groups.len() && (#[trigger] groups[k]).0 == listing::with_record(
                    groups,
                    r,
                )[i].0,
        group_of(listing::with_record(groups, r), parent) == (if parent
            != r.parent_conversation_id {
            group_of(groups, parent)
        } else {
            match group_of(groups, parent) {
                Some(g) => Some(g.push(r)),
                None => Some(seq![r]),
            }
        }),
    decreases groups.len(),
{
    let now = listing::with_record(groups, r);
    if groups.len() == 0 {
        let none = Seq::<(Seq<char>, Seq<ConversationRecordModel>)>::empty();
        assert(now.skip(1) =~= none);
        assert(group_of(none, parent) is None);
    } else if groups[0].0 == r.parent_conversation_id {
        assert(now.skip(1) =~= groups.skip(1));
        assert forall|i: int| 0 <= i < now.len() implies (#[trigger] now[i]).0
            == groups[i].0 by {}
    } else {
        let rest = groups.skip(1);
        let inner = listing::with_record(rest, r);
        assert forall|i: int, j: int| 0 <= i < j < rest.len() implies (#[trigger] rest[i]).0 != (
        #[trigger] rest[j]).0 by {
            assert(groups[i + 1].0 != groups[j + 1].0);
        }
        lemma_with_record(rest, r, parent);
        assert(now =~= seq![groups[0]] + inner);
        assert(now.skip(1) =~= inner);
        assert forall|i: int| 0 <= i < inner.len() implies (#[trigger] inner[i]).0
            != groups[0].0 by {
            if inner[i].0 != r.parent_conversation_id {
                let k = choose|k: int| 0 <= k < rest.len() && (#[trigger] rest[k]).0 == inner[i].0;
                assert(groups[0].0 != groups[k + 1].0);
            }
        }
        assert forall|i: int, j: int| 0 <= i < j < now.len() implies (#[trigger] now[i]).0 != (
        #[trigger] now[j]).0 by {
            assert(now[j] == inner[j - 1]);
            if i > 0 {
                assert(now[i] == inner[i - 1]);
            }
        }
        assert forall|i: int| 0 <= i < now.len() implies (#[trigger] now[i]).0
            == r.parent_conversation_id || exists|k: int|
            0 <= k < groups.len() && (#[trigger] groups[k]).0 == now[i].0 by {
            if i == 0 {
                assert(groups[0].0 == now[0].0);
            } else if inner[i - 1].0 != r.parent_conversation_id {
                let k = choose|k: int|
                    0 <= k < rest.len() && (#[trigger] rest[k]).0 == inner[i - 1].0;
                assert(groups[k + 1].0 == now[i].0);
            }
        }
    }
}

proof fn lemma_grouped(records: Seq<ConversationRecordModel>, parent: Seq<char>)
    ensures
        parents_differ(listing::grouped(records)),
        ({
            let own = records.filter(of_parent(parent));
            group_of(listing::grouped(records), parent) == (if own.len() == 0 {
                None
            } else {
                Some(own)
            })
        }),
    decreases records.len(),
{
    reveal(Seq::filter);
    if records.len() > 0 {
        let front = records.drop_last();
        lemma_grouped(front, parent);
        lemma_with_record(listing::grouped(front), records.last(), parent);
        let own = front.filter(of_parent(parent));
        if records.last().parent_conversation_id == parent && own.len() == 0 {
            assert(own.push(records.last()) =~= seq![records.last()]);
        }
    }
}

/// Testing what comes out is testing what goes in, where the tests agree.
proof fn lemma_filter_map_filter<A, B>(
    s: Seq<A>,
    f: spec_fn(A) -> Option<B>,
    p: spec_fn(A) -> bool,
    q: spec_fn(B) -> bool,
)
    requires
        forall|a: A| #[trigger] f(a) is Some ==> q(f(a)->0) == p(a),
    ensures
        s.filter_map(f).filter(q) == s.filter(p).filter_map(f),
    decreases s.len(),
{
    broadcast use Seq::lemma_filter_push;

    if s.len() == 0 {
        reveal(Seq::filter);
        assert(s.filter_map(f).filter(q) =~= s.filter(p).filter_map(f));
    } else {
        let front = s.drop_last();
        let last = s.last();
        lemma_filter_map_filter(front, f, p, q);
        assert(s =~= front + seq![last]);
        assert(s =~= front.push(last));
        lemma_filter_map_concat(front, seq![last], f);
        Seq::lemma_filter_map_singleton(last, f);
        let kept = front.filter(p);
        if p(last) {
            assert(s.filter(p) == kept.push(last));
            assert(kept.push(last) =~= kept + seq![last]);
            lemma_filter_map_concat(kept, seq![last], f);
        } else {
            assert(s.filter(p) == kept);
        }
        match f(last) {
            Some(b) => {
                assert(front.filter_map(f) + seq![b] =~= front.filter_map(f).push(b));
                assert(front.filter_map(f).filter(q) + seq![b] =~= front.filter_map(f).filter(
                    q,
                ).push(b));
            },
            None => {
                assert(front.filter_map(f) + Seq::<B>::empty() =~= front.filter_map(f));
                assert(kept.filter_map(f) + Seq::<B>::empty() =~= kept.filter_map(f));
            },
        }
    }
}

/// The lists by parents are the lists of each parent: every parent that was
/// asked for has the list that asking for it alone gives, unless that is
/// empty, and nobody else has one.
pub proof fn law_lists_by_parents(store: StoreModel, parents: Seq<Seq<char>>, parent: Seq<char>)
    ensures
        ({
            let groups = listing::grouped(listing::sessions_of(store, parents));
            let alone = listing::sessions_of(store, seq![parent]);
            &&& parents_differ(groups)
            &&& group_of(groups, parent) == (if parents.contains(parent) && alone.len() > 0 {
                Some(alone)
            } else {
                None
            })
        }),
{
    let by = listing::started_first();
    let f = listing::session_record(store);
    let all = store.sub_agents.filter(listing::started_by(parents));
    let own = |s: SubAgentModel| s.parent_conversation_id == parent;
    let records = listing::sessions_of(store, parents);
    lemma_grouped(records, parent);
    listing::lemma_started_first();
    lemma_filter_map_filter(order::sorted(all, by), f, own, of_parent(parent));
    order::lemma_sorted_filter(all, by, own);
    rows::lemma_filter_twice(store.sub_agents, listing::started_by(parents), own);
    let both = |s: SubAgentModel| listing::started_by(parents)(s) && own(s);
    if parents.contains(parent) {
        assert forall|i: int| 0 <= i < store.sub_agents.len() implies both(
            #[trigger] store.sub_agents[i],
        ) == listing::started_by(seq![parent])(store.sub_agents[i]) by {
            assert(seq![parent].contains(parent)) by {
                assert(seq![parent][0] == parent);
            }
        }
        rows::lemma_filter_agree(store.sub_agents, both, listing::started_by(seq![parent]));
    } else {
        assert forall|i: int| 0 <= i < store.sub_agents.len() implies !both(
            #[trigger] store.sub_agents[i],
        ) by {}
        lemma_filter_none(store.sub_agents, both);
        assert(order::sorted(Seq::<SubAgentModel>::empty(), by) =~= Seq::empty());
        assert(Seq::<SubAgentModel>::empty().filter_map(f) =~= Seq::empty());
    }
}

} // verus!
