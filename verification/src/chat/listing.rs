//! Lists of conversations and messages.

use vstd::prelude::*;
use crate::chat::rows::copy_option;
use crate::chat::rows::{ChatConversationRecord, ChatMessageRecord, ConversationModel};
use crate::chat::rows::{ConversationRecordModel, ConversationRow, ConversationSearchResult};
use crate::chat::rows::{MessageModel, MessageRecordModel, MessageRow, SearchResultModel};
use crate::chat::rows::{SubAgentModel, SubAgentRow, UserMessageModel, UserMessageSummary};
use crate::chat::snippets;
use crate::chat::store;
use crate::chat::store::{ChatStore, StoreModel};
use crate::config::has_name;
use crate::order;
use crate::order::Ranking;
use crate::rows;
use crate::rows::{keep_rows, select_rows, Copied};
use crate::text;
use crate::text::{empty, is_text};

verus! {

// ---------------------------------------------------------------------
// Records
// ---------------------------------------------------------------------

/// An optional text, or the empty one.
pub open spec fn text_or_empty(s: Option<Seq<char>>) -> Seq<char> {
    match s {
        Some(t) => t,
        None => Seq::empty(),
    }
}

/// A conversation as it is listed, together with the session that it
/// belongs to, if it is that of a sub-agent.
pub open spec fn record(c: ConversationModel, session: Option<SubAgentModel>) -> ConversationRecordModel {
    ConversationRecordModel {
        conversation_id: c.conversation_id,
        title: c.title,
        summary: c.summary,
        last_message_preview: c.last_message_preview,
        message_count: c.message_count,
        model: c.model,
        api_profile_name: c.api_profile_name,
        status: c.status,
        directory_id: c.directory_id,
        forked_from_conversation_id: c.forked_from_conversation_id,
        fork_message_count: c.fork_message_count,
        created_at: c.created_at,
        updated_at: c.updated_at,
        input_tokens: c.input_tokens,
        output_tokens: c.output_tokens,
        cache_creation_input_tokens: c.cache_creation_input_tokens,
        cache_read_input_tokens: c.cache_read_input_tokens,
        conversation_type: if session is Some {
            "sub_agent"@
        } else {
            "main"@
        },
        parent_conversation_id: match session {
            Some(s) => s.parent_conversation_id,
            None => Seq::empty(),
        },
        sub_agent_id: match session {
            Some(s) => s.agent_id,
            None => Seq::empty(),
        },
        sub_agent_name: match session {
            Some(s) => s.agent_name,
            None => Seq::empty(),
        },
        sub_agent_status: match session {
            Some(s) => s.run_status,
            None => Seq::empty(),
        },
        sub_agent_error: match session {
            Some(s) => s.error_message,
            None => Seq::empty(),
        },
        total_duration_ms: c.total_duration_ms,
        emoji: text_or_empty(c.emoji),
    }
}

/// A conversation in a list of conversations, which does not show durations.
pub open spec fn listed(c: ConversationModel) -> ConversationRecordModel {
    ConversationRecordModel { total_duration_ms: 0, ..record(c, None) }
}

/// Makes a record of a conversation.
pub fn map_chat_conversation_row(c: &ConversationRow, session: Option<&SubAgentRow>) -> (r:
    ChatConversationRecord)
    ensures
        r.deep_view() == record(
            c.deep_view(),
            match session {
                Some(s) => Some(s.deep_view()),
                None => None,
            },
        ),
{
    let emoji = match &c.emoji {
        Some(e) => e.clone(),
        None => empty(),
    };
    let mut r = ChatConversationRecord {
        conversation_id: c.conversation_id.clone(),
        title: c.title.clone(),
        summary: c.summary.clone(),
        last_message_preview: c.last_message_preview.clone(),
        message_count: c.message_count,
        model: c.model.clone(),
        api_profile_name: c.api_profile_name.clone(),
        status: c.status.clone(),
        directory_id: c.directory_id.clone(),
        forked_from_conversation_id: c.forked_from_conversation_id.clone(),
        fork_message_count: c.fork_message_count,
        created_at: c.created_at.clone(),
        updated_at: c.updated_at.clone(),
        input_tokens: c.input_tokens,
        output_tokens: c.output_tokens,
        cache_creation_input_tokens: c.cache_creation_input_tokens,
        cache_read_input_tokens: c.cache_read_input_tokens,
        conversation_type: "main".to_string(),
        parent_conversation_id: empty(),
        sub_agent_id: empty(),
        sub_agent_name: empty(),
        sub_agent_status: empty(),
        sub_agent_error: empty(),
        total_duration_ms: c.total_duration_ms,
        emoji,
    };
    match session {
        Some(s) => {
            r.conversation_type = "sub_agent".to_string();
            r.parent_conversation_id = s.parent_conversation_id.clone();
            r.sub_agent_id = s.agent_id.clone();
            r.sub_agent_name = s.agent_name.clone();
            r.sub_agent_status = s.run_status.clone();
            r.sub_agent_error = s.error_message.clone();
        },
        None => {},
    }
    r
}

fn list_row(c: &ConversationRow) -> (r: ChatConversationRecord)
    ensures
        r.deep_view() == listed(c.deep_view()),
{
    let mut r = map_chat_conversation_row(c, None);
    r.total_duration_ms = 0;
    r
}

// ---------------------------------------------------------------------
// The order of conversations
// ---------------------------------------------------------------------

/// The conversations that changed last come first; of two that changed at
/// the same time, the one with the greater identifier.
pub open spec fn recent_first() -> spec_fn(ConversationModel, ConversationModel) -> bool {
    |a: ConversationModel, b: ConversationModel|
        order::before(b.updated_at, a.updated_at) || (a.updated_at == b.updated_at
            && order::not_after(b.id, a.id))
}

/// Orders conversations by their last change.
pub struct RecentFirst;

/// Later comes first, and the larger identifier where the times agree; this
/// is an order.
pub proof fn lemma_recent_first(a: Seq<char>, i: Seq<char>, b: Seq<char>, j: Seq<char>, c: Seq<char>, k: Seq<char>)
    ensures
        (order::before(b, a) || (a == b && order::not_after(j, i))) || (order::before(a, b) || (b
            == a && order::not_after(i, j))),
        (order::before(b, a) || (a == b && order::not_after(j, i))) && (order::before(c, b) || (b
            == c && order::not_after(k, j))) ==> (order::before(c, a) || (a == c
            && order::not_after(k, i))),
{
    order::lemma_before_total(a, b);
    order::lemma_before_total(i, j);
    if order::before(b, a) && order::before(c, b) {
        order::lemma_before_transitive(c, b, a);
    }
    if order::not_after(j, i) && order::not_after(k, j) {
        order::lemma_not_after_transitive(k, j, i);
    }
}

impl Ranking<ConversationRow> for RecentFirst {
    open spec fn order() -> spec_fn(ConversationRow, ConversationRow) -> bool {
        |a: ConversationRow, b: ConversationRow|
            order::before(b.updated_at@, a.updated_at@) || (a.updated_at@ == b.updated_at@
                && order::not_after(b.id@, a.id@))
    }

    proof fn laws() {
        let le = Self::order();
        assert forall|a: ConversationRow, b: ConversationRow| #[trigger] le(a, b) || le(b, a) by {
            lemma_recent_first(a.updated_at@, a.id@, b.updated_at@, b.id@, a.updated_at@, a.id@);
        }
        assert forall|a: ConversationRow, b: ConversationRow, c: ConversationRow| #[trigger]
            le(a, b) && #[trigger] le(b, c) implies le(a, c) by {
            lemma_recent_first(a.updated_at@, a.id@, b.updated_at@, b.id@, c.updated_at@, c.id@);
        }
    }

    fn in_order(a: &ConversationRow, b: &ConversationRow) -> (r: bool) {
        let left = text::chars_of(a.updated_at.as_str());
        let right = text::chars_of(b.updated_at.as_str());
        order::comes_before(right.as_slice(), left.as_slice()) || (text::same(
            left.as_slice(),
            right.as_slice(),
        ) && !store::id_before(&a.id, b.id.as_str()))
    }
}

fn sort_conversations(conversations: Vec<ConversationRow>) -> (out: Vec<ConversationRow>)
    ensures
        out.deep_view() == order::sorted(conversations.deep_view(), recent_first()),
{
    let ghost f = |c: ConversationRow| c.deep_view();
    proof {
        assert(conversations.deep_view() =~= conversations@.map_values(f));
        order::lemma_sorted_map(conversations@, RecentFirst::order(), f, recent_first());
    }
    let out = order::sort::<ConversationRow, RecentFirst>(conversations);
    proof {
        assert(out.deep_view() =~= out@.map_values(f));
    }
    out
}

// ---------------------------------------------------------------------
// Lists of conversations
// ---------------------------------------------------------------------

/// The conversations with a property that are not those of sub-agents, the
/// latest first.
pub open spec fn own_conversations(
    store: StoreModel,
    p: spec_fn(ConversationModel) -> bool,
) -> Seq<ConversationModel> {
    order::sorted(
        store.conversations.filter(
            |c: ConversationModel| p(c) && store::session(store, c.conversation_id) is None,
        ),
        recent_first(),
    )
}

/// The records of conversations.
pub open spec fn listed_all(conversations: Seq<ConversationModel>) -> Seq<ConversationRecordModel> {
    conversations.map_values(|c: ConversationModel| listed(c))
}

/// Whether a conversation is one of a directory, with the given status.
pub open spec fn in_directory(directory: Seq<char>, status: Seq<char>) -> spec_fn(
    ConversationModel,
) -> bool {
    |c: ConversationModel| c.directory_id == directory && c.status == status
}

/// Whether a conversation is active and has one of the identifiers.
pub open spec fn among(ids: Seq<Seq<char>>) -> spec_fn(ConversationModel) -> bool {
    |c: ConversationModel| ids.contains(c.conversation_id) && c.status == "active"@
}

fn list_rows(conversations: &Vec<ConversationRow>) -> (r: Vec<ChatConversationRecord>)
    ensures
        r.deep_view() == listed_all(conversations.deep_view()),
{
    let mut r: Vec<ChatConversationRecord> = Vec::new();
    let mut i: usize = 0;
    while i < conversations.len()
        invariant
            i <= conversations@.len(),
            r@.len() == i,
            forall|j: int|
                0 <= j < i ==> (#[trigger] r@[j]).deep_view() == listed(
                    conversations@[j].deep_view(),
                ),
        decreases conversations@.len() - i,
    {
        r.push(list_row(&conversations[i]));
        i += 1;
    }
    proof {
        assert(r.deep_view() =~= listed_all(conversations.deep_view()));
    }
    r
}

/// A page of conversations, with the number of all of them.
pub struct ChatConversationPage {
    pub items: Vec<ChatConversationRecord>,
    pub total: usize,
}

/// The part of a list from an offset on, up to a limit.
pub open spec fn page<M>(s: Seq<M>, offset: int, limit: int) -> Seq<M> {
    if offset >= s.len() {
        Seq::empty()
    } else if offset + limit >= s.len() {
        s.skip(offset)
    } else {
        s.subrange(offset, offset + limit)
    }
}

/// A limit, or the default where it is not positive.
pub open spec fn limit_or(limit: i32, default: int) -> int {
    if limit > 0 {
        limit as int
    } else {
        default
    }
}

/// An offset; a negative one is none.
pub open spec fn offset_of(offset: i32) -> int {
    if offset > 0 {
        offset as int
    } else {
        0
    }
}

/// One page and the next make the page of both, and a page that is large
/// enough is the whole list: paging loses nothing and repeats nothing.
pub proof fn law_pages_join<M>(s: Seq<M>, offset: int, one: int, next: int)
    requires
        0 <= offset,
        0 <= one,
        0 <= next,
    ensures
        page(s, offset, one) + page(s, offset + one, next) == page(s, offset, one + next),
        offset == 0 && one >= s.len() ==> page(s, offset, one) == s,
{
    assert(page(s, offset, one) + page(s, offset + one, next) =~= page(s, offset, one + next));
    if offset == 0 && one >= s.len() {
        assert(page(s, offset, one) =~= s);
    }
}

impl ChatStore {
    /// The conversations with a property that are not those of sub-agents.
    fn own<F: Fn(&ConversationRow) -> bool>(
        &self,
        f: F,
        Ghost(p): Ghost<spec_fn(ConversationModel) -> bool>,
    ) -> (out: Vec<ConversationRow>)
        requires
            forall|x: &ConversationRow| #[trigger] call_requires(f, (x,)),
            forall|x: &ConversationRow, y: bool|
                #[trigger] call_ensures(f, (x,), y) ==> y == p(x.deep_view()),
        ensures
            out.deep_view() == own_conversations(self.deep_view(), p),
    {
        let ghost q = |c: ConversationModel|
            p(c) && store::session(self.deep_view(), c.conversation_id) is None;
        let test = |c: &ConversationRow| -> (b: bool)
            ensures
                b == q(c.deep_view()),
            { f(c) && self.find_session(c.conversation_id.as_str()).is_none() };
        sort_conversations(keep_rows(&self.conversations, test, Ghost(q)))
    }

    fn own_in_directory(&self, directory_id: &str, status: &str) -> (out: Vec<ConversationRow>)
        ensures
            out.deep_view() == own_conversations(
                self.deep_view(),
                in_directory(directory_id@, status@),
            ),
    {
        let test = |c: &ConversationRow| -> (b: bool)
            ensures
                b == in_directory(directory_id@, status@)(c.deep_view()),
            { is_text(&c.directory_id, directory_id) && is_text(&c.status, status) };
        self.own(test, Ghost(in_directory(directory_id@, status@)))
    }

    /// Lists the active conversations of a directory.
    pub fn list_chat_conversations(&self, directory_id: &str) -> (r: Vec<ChatConversationRecord>)
        ensures
            r.deep_view() == listed_all(
                own_conversations(self.deep_view(), in_directory(directory_id@, "active"@)),
            ),
    {
        list_rows(&self.own_in_directory(directory_id, "active"))
    }

    /// Lists the pinned conversations of a directory.
    pub fn list_pinned_conversations(&self, directory_id: &str) -> (r: Vec<ChatConversationRecord>)
        ensures
            r.deep_view() == listed_all(
                own_conversations(self.deep_view(), in_directory(directory_id@, "pin"@)),
            ),
    {
        list_rows(&self.own_in_directory(directory_id, "pin"))
    }

    /// Lists one page of the active conversations of a directory: 20 of
    /// them, unless a limit is given.
    pub fn list_chat_conversations_paginated(
        &self,
        directory_id: &str,
        limit: i32,
        offset: i32,
    ) -> (r: ChatConversationPage)
        ensures
            ({
                let all = own_conversations(
                    self.deep_view(),
                    in_directory(directory_id@, "active"@),
                );
                &&& r.total == all.len()
                &&& r.items.deep_view() == listed_all(
                    page(all, offset_of(offset), limit_or(limit, 20)),
                )
            }),
    {
        let all = self.own_in_directory(directory_id, "active");
        let ghost whole = all.deep_view();
        proof {
            assert(whole.len() == all@.len());
        }
        let total: usize = all.len();
        let from: usize = if offset > 0 {
            offset as usize
        } else {
            0
        };
        let size: usize = if limit > 0 {
            limit as usize
        } else {
            20
        };
        let mut items: Vec<ConversationRow> = Vec::new();
        let mut i: usize = from;
        while i < total && items.len() < size
            invariant
                whole == all.deep_view(),
                total == all@.len(),
                from <= i,
                i <= total || i == from,
                items@.len() == i - from,
                items@.len() <= size,
                forall|j: int|
                    0 <= j < items@.len() ==> (#[trigger] items@[j]).deep_view() == whole[from + j],
            decreases total - i,
        {
            proof {
                assert(whole[i as int] == all@[i as int].deep_view());
            }
            items.push(all[i].copied());
            i += 1;
        }
        proof {
            assert(items.deep_view() =~= page(whole, from as int, size as int));
        }
        ChatConversationPage { items: list_rows(&items), total }
    }

    /// Lists the active conversations of the given identifiers, of all
    /// directories.
    pub fn list_chat_conversations_by_ids(&self, conversation_ids: &Vec<String>) -> (r: Vec<
        ChatConversationRecord,
    >)
        ensures
            r.deep_view() == listed_all(
                own_conversations(self.deep_view(), among(conversation_ids.deep_view())),
            ),
    {
        let test = |c: &ConversationRow| -> (b: bool)
            ensures
                b == among(conversation_ids.deep_view())(c.deep_view()),
            {
                has_name(conversation_ids, c.conversation_id.as_str()) && is_text(
                    &c.status,
                    "active",
                )
            };
        list_rows(&self.own(test, Ghost(among(conversation_ids.deep_view()))))
    }

    /// Reads one conversation.
    pub fn get_chat_conversation(&self, conversation_id: &str) -> (r: Option<ChatConversationRecord>)
        ensures
            r.deep_view() == (match store::conversation(self.deep_view(), conversation_id@) {
                Some(c) => Some(record(c, store::session(self.deep_view(), conversation_id@))),
                None => None,
            }),
    {
        match self.find_conversation(conversation_id) {
            Some(c) => Some(map_chat_conversation_row(c, self.find_session(conversation_id))),
            None => None,
        }
    }
}

// ---------------------------------------------------------------------
// Searching
// ---------------------------------------------------------------------

/// Whether the content of a message matches a pattern.
pub open spec fn content_like(pattern: Seq<char>) -> spec_fn(MessageModel) -> bool {
    |m: MessageModel| snippets::like(m.content, pattern, Some('\\'))
}

/// The latest message of a conversation whose content matches.
pub open spec fn matching_message(
    store: StoreModel,
    id: Seq<char>,
    pattern: Seq<char>,
) -> Option<MessageModel> {
    store::last_of(store::messages_of(store, id).filter(content_like(pattern)))
}

/// Whether a conversation matches: by its title, its summary, its preview
/// or one of its messages.
pub open spec fn matches_search(store: StoreModel, pattern: Seq<char>) -> spec_fn(
    ConversationModel,
) -> bool {
    |c: ConversationModel|
        c.status == "active"@ && (snippets::like(c.title, pattern, Some('\\')) || snippets::like(
            c.summary,
            pattern,
            Some('\\'),
        ) || snippets::like(c.last_message_preview, pattern, Some('\\')) || matching_message(
            store,
            c.conversation_id,
            pattern,
        ) is Some)
}

/// What a search shows of a message with content.
pub open spec fn shown_match(content: Seq<char>, query: Seq<char>) -> Seq<char> {
    snippets::search_snippet(content, query, text::lowercase(content), text::lowercase(query))
}

/// What a search shows of a conversation: the part of the latest matching
/// message around the match or, without one, the preview.
pub open spec fn found(
    store: StoreModel,
    c: ConversationModel,
    query: Seq<char>,
) -> SearchResultModel {
    let content = match matching_message(store, c.conversation_id, snippets::search_pattern(query)) {
        Some(m) => m.content,
        None => Seq::empty(),
    };
    SearchResultModel {
        conversation_id: c.conversation_id,
        title: c.title,
        summary: c.summary,
        last_message_preview: c.last_message_preview,
        message_count: c.message_count,
        model: c.model,
        status: c.status,
        directory_id: c.directory_id,
        forked_from_conversation_id: c.forked_from_conversation_id,
        fork_message_count: c.fork_message_count,
        created_at: c.created_at,
        updated_at: c.updated_at,
        input_tokens: c.input_tokens,
        output_tokens: c.output_tokens,
        cache_creation_input_tokens: c.cache_creation_input_tokens,
        cache_read_input_tokens: c.cache_read_input_tokens,
        matched_content: if content.len() == 0 {
            c.last_message_preview
        } else {
            shown_match(content, query)
        },
    }
}

/// What a search finds: the 50 latest conversations that match.
pub open spec fn search_results(store: StoreModel, query: Seq<char>) -> Seq<SearchResultModel> {
    page(
        own_conversations(store, matches_search(store, snippets::search_pattern(query))),
        0,
        50,
    ).map_values(|c: ConversationModel| found(store, c, query))
}

impl ChatStore {
    fn find_match(&self, id: &str, pattern: &[char]) -> (r: Option<String>)
        ensures
            r.deep_view() == (match matching_message(self.deep_view(), id@, pattern@) {
                Some(m) => Some(m.content),
                None => None,
            }),
    {
        let test = |m: &MessageRow| -> (b: bool)
            ensures
                b == content_like(pattern@)(m.deep_view()),
            { snippets::is_like(m.content.as_str(), pattern, Some('\\')) };
        let hits = keep_rows(&self.conversation_messages(id), test, Ghost(content_like(pattern@)));
        proof {
            assert(hits.deep_view().len() == hits@.len());
        }
        if hits.len() == 0 {
            return None;
        }
        let n: usize = hits.len() - 1;
        proof {
            assert(hits.deep_view()[n as int] == hits@[n as int].deep_view());
        }
        Some(hits[n].content.clone())
    }

    fn show_found(&self, c: &ConversationRow, query: &str, pattern: &Vec<char>) -> (r:
        ConversationSearchResult)
        requires
            pattern@ == snippets::search_pattern(query@),
        ensures
            r.deep_view() == found(self.deep_view(), c.deep_view(), query@),
    {
        let content = match self.find_match(c.conversation_id.as_str(), pattern.as_slice()) {
            Some(s) => s,
            None => empty(),
        };
        let matched_content = if content.as_str().unicode_len() == 0 {
            c.last_message_preview.clone()
        } else {
            snippets::create_search_snippet(content.as_str(), query)
        };
        ConversationSearchResult {
            conversation_id: c.conversation_id.clone(),
            title: c.title.clone(),
            summary: c.summary.clone(),
            last_message_preview: c.last_message_preview.clone(),
            message_count: c.message_count,
            model: c.model.clone(),
            status: c.status.clone(),
            directory_id: c.directory_id.clone(),
            forked_from_conversation_id: c.forked_from_conversation_id.clone(),
            fork_message_count: c.fork_message_count,
            created_at: c.created_at.clone(),
            updated_at: c.updated_at.clone(),
            input_tokens: c.input_tokens,
            output_tokens: c.output_tokens,
            cache_creation_input_tokens: c.cache_creation_input_tokens,
            cache_read_input_tokens: c.cache_read_input_tokens,
            matched_content,
        }
    }

    /// Searches the conversations.
    pub fn search_chat_conversations(&self, query: &str) -> (r: Vec<ConversationSearchResult>)
        ensures
            r.deep_view() == search_results(self.deep_view(), query@),
    {
        let pattern = snippets::make_search_pattern(query);
        let test = |c: &ConversationRow| -> (b: bool)
            ensures
                b == matches_search(self.deep_view(), pattern@)(c.deep_view()),
            {
                let p = pattern.as_slice();
                is_text(&c.status, "active") && (snippets::is_like(
                    c.title.as_str(),
                    p,
                    Some('\\'),
                ) || snippets::is_like(c.summary.as_str(), p, Some('\\')) || snippets::is_like(
                    c.last_message_preview.as_str(),
                    p,
                    Some('\\'),
                ) || self.find_match(c.conversation_id.as_str(), p).is_some())
            };
        let all = self.own(test, Ghost(matches_search(self.deep_view(), pattern@)));
        let ghost whole = all.deep_view();
        let mut r: Vec<ConversationSearchResult> = Vec::new();
        let mut i: usize = 0;
        while i < all.len() && i < 50
            invariant
                i <= all@.len(),
                i <= 50,
                whole == all.deep_view(),
                pattern@ == snippets::search_pattern(query@),
                r@.len() == i,
                forall|j: int|
                    0 <= j < i ==> (#[trigger] r@[j]).deep_view() == found(
                        self.deep_view(),
                        whole[j],
                        query@,
                    ),
            decreases all@.len() - i,
        {
            proof {
                assert(whole[i as int] == all@[i as int].deep_view());
            }
            r.push(self.show_found(&all[i], query, &pattern));
            i += 1;
        }
        proof {
            assert(whole.len() == all@.len());
            assert(r.deep_view() =~= search_results(self.deep_view(), query@));
        }
        r
    }
}

// ---------------------------------------------------------------------
// Sub-agents
// ---------------------------------------------------------------------

/// The sessions that started first come first; of two that started at the
/// same time, the one with the lesser identifier.
pub open spec fn started_first() -> spec_fn(SubAgentModel, SubAgentModel) -> bool {
    |a: SubAgentModel, b: SubAgentModel|
        order::before(a.created_at, b.created_at) || (a.created_at == b.created_at
            && order::not_after(a.id, b.id))
}

/// Sessions can be ordered by their start.
pub proof fn lemma_started_first()
    ensures
        order::is_order(started_first()),
{
    let le = started_first();
    assert forall|a: SubAgentModel, b: SubAgentModel| #[trigger] le(a, b) || le(b, a) by {
        lemma_recent_first(b.created_at, b.id, a.created_at, a.id, a.created_at, a.id);
    }
    assert forall|a: SubAgentModel, b: SubAgentModel, c: SubAgentModel| #[trigger]
        le(a, b) && #[trigger] le(b, c) implies le(a, c) by {
        lemma_recent_first(c.created_at, c.id, b.created_at, b.id, a.created_at, a.id);
    }
}

/// Orders sessions by their start.
pub struct StartedFirst;

impl Ranking<SubAgentRow> for StartedFirst {
    open spec fn order() -> spec_fn(SubAgentRow, SubAgentRow) -> bool {
        |a: SubAgentRow, b: SubAgentRow|
            order::before(a.created_at@, b.created_at@) || (a.created_at@ == b.created_at@
                && order::not_after(a.id@, b.id@))
    }

    proof fn laws() {
        let le = Self::order();
        assert forall|a: SubAgentRow, b: SubAgentRow| #[trigger] le(a, b) || le(b, a) by {
            lemma_recent_first(b.created_at@, b.id@, a.created_at@, a.id@, a.created_at@, a.id@);
        }
        assert forall|a: SubAgentRow, b: SubAgentRow, c: SubAgentRow| #[trigger]
            le(a, b) && #[trigger] le(b, c) implies le(a, c) by {
            lemma_recent_first(c.created_at@, c.id@, b.created_at@, b.id@, a.created_at@, a.id@);
        }
    }

    fn in_order(a: &SubAgentRow, b: &SubAgentRow) -> (r: bool) {
        let left = text::chars_of(a.created_at.as_str());
        let right = text::chars_of(b.created_at.as_str());
        order::comes_before(left.as_slice(), right.as_slice()) || (text::same(
            left.as_slice(),
            right.as_slice(),
        ) && !store::id_before(&b.id, a.id.as_str()))
    }
}

fn sort_sessions(sessions: Vec<SubAgentRow>) -> (out: Vec<SubAgentRow>)
    ensures
        out.deep_view() == order::sorted(sessions.deep_view(), started_first()),
{
    let ghost f = |s: SubAgentRow| s.deep_view();
    proof {
        assert(sessions.deep_view() =~= sessions@.map_values(f));
        order::lemma_sorted_map(sessions@, StartedFirst::order(), f, started_first());
    }
    let out = order::sort::<SubAgentRow, StartedFirst>(sessions);
    proof {
        assert(out.deep_view() =~= out@.map_values(f));
    }
    out
}

/// The record of a session, where its conversation is there.
pub open spec fn session_record(store: StoreModel) -> spec_fn(SubAgentModel) -> Option<
    ConversationRecordModel,
> {
    |s: SubAgentModel|
        match store::conversation(store, s.conversation_id) {
            Some(c) => Some(record(c, Some(s))),
            None => None,
        }
}

/// Whether a session was started by one of the conversations.
pub open spec fn started_by(parents: Seq<Seq<char>>) -> spec_fn(SubAgentModel) -> bool {
    |s: SubAgentModel| parents.contains(s.parent_conversation_id)
}

/// The records of the sessions that conversations started.
pub open spec fn sessions_of(store: StoreModel, parents: Seq<Seq<char>>) -> Seq<
    ConversationRecordModel,
> {
    order::sorted(store.sub_agents.filter(started_by(parents)), started_first()).filter_map(
        session_record(store),
    )
}

/// Records grouped by parent, the parents in the order in which they occur
/// first.
pub open spec fn grouped(records: Seq<ConversationRecordModel>) -> Seq<
    (Seq<char>, Seq<ConversationRecordModel>),
>
    decreases records.len(),
{
    if records.len() == 0 {
        Seq::empty()
    } else {
        with_record(grouped(records.drop_last()), records.last())
    }
}

/// Groups with one more record.
pub open spec fn with_record(
    groups: Seq<(Seq<char>, Seq<ConversationRecordModel>)>,
    r: ConversationRecordModel,
) -> Seq<(Seq<char>, Seq<ConversationRecordModel>)>
    decreases groups.len(),
{
    if groups.len() == 0 {
        seq![(r.parent_conversation_id, seq![r])]
    } else if groups[0].0 == r.parent_conversation_id {
        groups.update(0, (groups[0].0, groups[0].1.push(r)))
    } else {
        seq![groups[0]] + with_record(groups.skip(1), r)
    }
}

fn add_record(
    groups: &mut Vec<(String, Vec<ChatConversationRecord>)>,
    r: ChatConversationRecord,
)
    ensures
        final(groups).deep_view() == with_record(old(groups).deep_view(), r.deep_view()),
{
    let ghost all = groups.deep_view();
    let ghost rec = r.deep_view();
    let mut i: usize = 0;
    proof {
        assert(all.skip(0) =~= all);
        assert(all.take(0) + with_record(all.skip(0), rec) =~= with_record(all, rec));
    }
    while i < groups.len()
        invariant
            i <= groups@.len(),
            *groups == *old(groups),
            all == groups.deep_view(),
            rec == r.deep_view(),
            with_record(all, rec) == all.take(i as int) + with_record(all.skip(i as int), rec),
        decreases groups@.len() - i,
    {
        let ghost rest = all.skip(i as int);
        proof {
            assert(rest[0] == all[i as int]);
            assert(all[i as int] == (groups@[i as int].0@, groups@[i as int].1.deep_view()));
        }
        if is_text(&groups[i].0, r.parent_conversation_id.as_str()) {
            let ghost before = groups@[i as int].1.deep_view();
            groups[i].1.push(r);
            proof {
                assert(groups@[i as int].1.deep_view() =~= before.push(rec));
                assert(groups.deep_view() =~= all.take(i as int) + rest.update(
                    0,
                    (rest[0].0, rest[0].1.push(rec)),
                ));
            }
            return;
        }
        proof {
            assert(rest.skip(1) =~= all.skip(i + 1));
            assert(all.take(i as int) + (seq![rest[0]] + with_record(rest.skip(1), rec))
                =~= all.take(i + 1) + with_record(all.skip(i + 1), rec));
        }
        i += 1;
    }
    let mut group: Vec<ChatConversationRecord> = Vec::new();
    let parent = r.parent_conversation_id.clone();
    group.push(r);
    proof {
        assert(group.deep_view() =~= seq![rec]);
    }
    groups.push((parent, group));
    proof {
        assert(all.take(i as int) =~= all);
        assert(all.skip(i as int) =~= Seq::<(Seq<char>, Seq<ConversationRecordModel>)>::empty());
        assert(groups.deep_view() =~= all + seq![(rec.parent_conversation_id, seq![rec])]);
    }
}

impl ChatStore {
    fn list_sessions(&self, parents: &Vec<String>) -> (r: Vec<ChatConversationRecord>)
        ensures
            r.deep_view() == sessions_of(self.deep_view(), parents.deep_view()),
    {
        let test = |s: &SubAgentRow| -> (b: bool)
            ensures
                b == started_by(parents.deep_view())(s.deep_view()),
            { has_name(parents, s.parent_conversation_id.as_str()) };
        let sessions = sort_sessions(
            keep_rows(&self.sub_agents, test, Ghost(started_by(parents.deep_view()))),
        );
        let show = |s: &SubAgentRow| -> (o: Option<ChatConversationRecord>)
            ensures
                o.deep_view() == session_record(self.deep_view())(s.deep_view()),
            {
                match self.find_conversation(s.conversation_id.as_str()) {
                    Some(c) => Some(map_chat_conversation_row(c, Some(s))),
                    None => None,
                }
            };
        select_rows(&sessions, show, Ghost(session_record(self.deep_view())))
    }

    /// Lists the conversations of the sub-agents that a conversation
    /// started.
    pub fn list_sub_agent_conversations(&self, parent_conversation_id: &str) -> (r: Vec<
        ChatConversationRecord,
    >)
        ensures
            r.deep_view() == sessions_of(self.deep_view(), seq![parent_conversation_id@]),
    {
        let mut parents: Vec<String> = Vec::new();
        parents.push(parent_conversation_id.to_string());
        proof {
            assert(parents.deep_view() =~= seq![parent_conversation_id@]);
        }
        self.list_sessions(&parents)
    }

    /// Lists the conversations of the sub-agents that several conversations
    /// started, for each of them.
    pub fn list_sub_agent_conversations_by_parents(
        &self,
        parent_conversation_ids: &Vec<String>,
    ) -> (r: Vec<(String, Vec<ChatConversationRecord>)>)
        ensures
            r.deep_view() == grouped(
                sessions_of(self.deep_view(), parent_conversation_ids.deep_view()),
            ),
    {
        let records = self.list_sessions(parent_conversation_ids);
        let ghost all = records.deep_view();
        let mut groups: Vec<(String, Vec<ChatConversationRecord>)> = Vec::new();
        proof {
            assert(groups.deep_view() =~= grouped(all.take(0)));
        }
        let mut i: usize = 0;
        while i < records.len()
            invariant
                i <= records@.len(),
                all == records.deep_view(),
                groups.deep_view() == grouped(all.take(i as int)),
            decreases records@.len() - i,
        {
            proof {
                assert(all.take(i + 1).drop_last() =~= all.take(i as int));
                assert(all.take(i + 1).last() == records@[i as int].deep_view());
            }
            add_record(&mut groups, records[i].copied());
            i += 1;
        }
        proof {
            assert(all.take(i as int) =~= all);
        }
        groups
    }
}

// ---------------------------------------------------------------------
// Lists of messages
// ---------------------------------------------------------------------

/// A message as it is listed.
pub open spec fn listed_message(m: MessageModel) -> MessageRecordModel {
    MessageRecordModel {
        id: m.id,
        role: m.role,
        content: m.content,
        thinking: m.thinking,
        status: m.status,
        model: m.model,
        response_id: m.response_id,
        checkpoint_id: m.checkpoint_id,
        tool_calls_json: m.tool_calls_json,
        interruption_reason: m.interruption_reason,
        recovery_outcome: m.recovery_outcome,
        created_at: m.created_at,
    }
}

/// The records of messages.
pub open spec fn listed_messages(messages: Seq<MessageModel>) -> Seq<MessageRecordModel> {
    messages.map_values(|m: MessageModel| listed_message(m))
}

/// A message of the user in short. The markers of compactions are none.
pub open spec fn user_summary() -> spec_fn(MessageModel) -> Option<UserMessageModel> {
    |m: MessageModel|
        if m.role == "user"@ && m.status != "context_compaction"@ {
            Some(UserMessageModel { id: m.id, content: m.content, created_at: m.created_at })
        } else {
            None
        }
}

fn list_message(m: &MessageRow) -> (r: ChatMessageRecord)
    ensures
        r.deep_view() == listed_message(m.deep_view()),
{
    ChatMessageRecord {
        id: m.id.clone(),
        role: m.role.clone(),
        content: m.content.clone(),
        thinking: m.thinking.clone(),
        status: m.status.clone(),
        model: m.model.clone(),
        response_id: m.response_id.clone(),
        checkpoint_id: m.checkpoint_id.clone(),
        tool_calls_json: m.tool_calls_json.clone(),
        interruption_reason: copy_option(&m.interruption_reason),
        recovery_outcome: copy_option(&m.recovery_outcome),
        created_at: m.created_at.clone(),
    }
}

/// A page of messages. `total` counts all messages of the conversation,
/// `has_more` tells whether there are earlier ones than the page, and
/// `checkpoint_ids` names the checkpoints of the whole conversation.
pub struct ChatMessagePage {
    pub items: Vec<ChatMessageRecord>,
    pub total: usize,
    pub has_more: bool,
    pub checkpoint_ids: Vec<String>,
}

/// The messages before a given one, or all of them for the empty
/// identifier.
pub open spec fn before_message(messages: Seq<MessageModel>, id: Seq<char>) -> Seq<MessageModel> {
    messages.filter(|m: MessageModel| id.len() == 0 || order::before(m.id, id))
}

/// The last messages of a list, up to a limit.
pub open spec fn tail<M>(s: Seq<M>, limit: int) -> Seq<M> {
    if s.len() > limit {
        s.skip(s.len() - limit)
    } else {
        s
    }
}

/// Whether messages are in the order of identifiers that differ.
pub open spec fn ids_increase(messages: Seq<MessageModel>) -> bool {
    forall|i: int, j: int|
        0 <= i < j < messages.len() ==> order::before(
            (#[trigger] messages[i]).id,
            (#[trigger] messages[j]).id,
        )
}

/// The messages before a given one come first.
proof fn lemma_earlier_come_first(messages: Seq<MessageModel>, id: Seq<char>)
    requires
        ids_increase(messages),
    ensures
        before_message(messages, id).len() <= messages.len(),
        before_message(messages, id) == messages.take(before_message(messages, id).len() as int),
    decreases messages.len(),
{
    let p = |m: MessageModel| id.len() == 0 || order::before(m.id, id);
    let e = messages.filter(p);
    reveal(Seq::filter);
    if messages.len() > 0 {
        let front = messages.drop_last();
        lemma_earlier_come_first(front, id);
        if p(messages.last()) {
            assert forall|i: int| 0 <= i < front.len() implies p(#[trigger] front[i]) by {
                assert(front[i] == messages[i]);
                if id.len() > 0 {
                    order::lemma_before_transitive(messages[i].id, messages.last().id, id);
                }
            }
            rows::lemma_filter_all(front, p);
            assert(e =~= messages);
        } else {
            assert(e == front.filter(p));
            assert(front.take(e.len() as int) =~= messages.take(e.len() as int));
        }
    }
    assert(messages.take(e.len() as int) =~= e);
}

/// Reading back page by page: the messages before the first one of a page,
/// and the page itself, are the messages that the page was taken from.
pub proof fn law_message_pages_join(messages: Seq<MessageModel>, id: Seq<char>, limit: int)
    requires
        ids_increase(messages),
        0 < limit < before_message(messages, id).len(),
        tail(before_message(messages, id), limit)[0].id.len() > 0,
    ensures
        ({
            let earlier = before_message(messages, id);
            let shown = tail(earlier, limit);
            before_message(messages, shown[0].id) + shown == earlier
        }),
{
    let earlier = before_message(messages, id);
    let shown = tail(earlier, limit);
    let from = earlier.len() - limit;
    let first = shown[0].id;
    let rest = before_message(messages, first);
    lemma_earlier_come_first(messages, id);
    lemma_earlier_come_first(messages, first);
    assert(messages[from] == earlier[from]);
    assert(first == messages[from].id);
    let p = |m: MessageModel| first.len() == 0 || order::before(m.id, first);
    order::lemma_before_total(first, first);
    if rest.len() > from {
        assert(rest[from] == messages[from]);
        messages.lemma_filter_pred(p, from);
    }
    if rest.len() < from {
        let k = rest.len() as int;
        assert(p(messages[k]));
        messages.lemma_filter_contains(p, k);
        assert(rest.contains(messages[k]));
        let j = choose|j: int| 0 <= j < rest.len() && rest[j] == messages[k];
        assert(messages[j] == messages[k]);
        order::lemma_before_total(messages[k].id, messages[k].id);
    }
    assert(rest + shown =~= earlier);
}

/// What is passed to get a page: nothing for the latest, and then the first
/// message of the page before.
pub open spec fn cursor_of(messages: Seq<MessageModel>, limit: int, page: nat) -> Seq<char>
    decreases page,
{
    if page == 0 {
        Seq::empty()
    } else {
        tail(before_message(messages, cursor_of(messages, limit, (page - 1) as nat)), limit)[0].id
    }
}

/// The messages on a page, counted from the latest.
pub open spec fn message_page(messages: Seq<MessageModel>, limit: int, page: nat) -> Seq<
    MessageModel,
> {
    tail(before_message(messages, cursor_of(messages, limit, page)), limit)
}

/// Whether there is more before a page.
pub open spec fn has_page_before(messages: Seq<MessageModel>, limit: int, page: nat) -> bool {
    before_message(messages, cursor_of(messages, limit, page)).len() > limit
}

/// The first pages, put together in the order of the messages.
pub open spec fn pages_read(messages: Seq<MessageModel>, limit: int, pages: nat) -> Seq<
    MessageModel,
>
    decreases pages,
{
    if pages == 0 {
        Seq::empty()
    } else {
        message_page(messages, limit, (pages - 1) as nat) + pages_read(
            messages,
            limit,
            (pages - 1) as nat,
        )
    }
}

/// Without a message to stop before, all messages are there.
proof fn lemma_no_cursor(messages: Seq<MessageModel>)
    ensures
        before_message(messages, Seq::empty()) == messages,
{
    let none = Seq::<char>::empty();
    rows::lemma_filter_all(messages, |m: MessageModel| none.len() == 0 || order::before(m.id, none));
}

proof fn lemma_one_page_more(messages: Seq<MessageModel>, id: Seq<char>, limit: int)
    requires
        ids_increase(messages),
        forall|i: int| 0 <= i < messages.len() ==> (#[trigger] messages[i]).id.len() > 0,
        0 < limit < before_message(messages, id).len(),
    ensures
        ({
            let earlier = before_message(messages, id);
            let shown = tail(earlier, limit);
            before_message(messages, shown[0].id) + shown == earlier
        }),
{
    let earlier = before_message(messages, id);
    lemma_earlier_come_first(messages, id);
    assert(tail(earlier, limit)[0] == messages[earlier.len() - limit]);
    law_message_pages_join(messages, id, limit);
}

proof fn lemma_parts_join<M>(a: Seq<M>, b: Seq<M>, c: Seq<M>)
    ensures
        a + (b + c) == (a + b) + c,
{
    assert(a + (b + c) =~= (a + b) + c);
}

proof fn lemma_pages_so_far(messages: Seq<MessageModel>, limit: int, pages: nat)
    requires
        ids_increase(messages),
        forall|i: int| 0 <= i < messages.len() ==> (#[trigger] messages[i]).id.len() > 0,
        0 < limit,
        forall|k: nat| k < pages ==> #[trigger] has_page_before(messages, limit, k),
    ensures
        before_message(messages, cursor_of(messages, limit, pages)) + pages_read(
            messages,
            limit,
            pages,
        ) == messages,
    decreases pages,
{
    if pages == 0 {
        lemma_no_cursor(messages);
        assert(messages + Seq::<MessageModel>::empty() =~= messages);
    } else {
        let last = (pages - 1) as nat;
        assert(has_page_before(messages, limit, last));
        lemma_pages_so_far(messages, limit, last);
        lemma_one_page_more(messages, cursor_of(messages, limit, last), limit);
        lemma_parts_join(
            before_message(messages, cursor_of(messages, limit, pages)),
            message_page(messages, limit, last),
            pages_read(messages, limit, last),
        );
    }
}

/// Reading page by page until there is no more before a page gives all
/// messages, in order, each once. A page with more before it is full.
pub proof fn law_pages_are_all_messages(messages: Seq<MessageModel>, limit: int, last: nat)
    requires
        ids_increase(messages),
        forall|i: int| 0 <= i < messages.len() ==> (#[trigger] messages[i]).id.len() > 0,
        0 < limit,
        forall|k: nat| k < last ==> #[trigger] has_page_before(messages, limit, k),
        !has_page_before(messages, limit, last),
    ensures
        pages_read(messages, limit, last + 1) == messages,
        forall|k: nat| k < last ==> (#[trigger] message_page(messages, limit, k)).len() == limit,
        message_page(messages, limit, last).len() <= limit,
{
    lemma_pages_so_far(messages, limit, last);
    assert forall|k: nat| k < last implies (#[trigger] message_page(messages, limit, k)).len()
        == limit by {
        assert(has_page_before(messages, limit, k));
    }
}

/// The checkpoint that a message of the user carries.
pub open spec fn checkpoint_of_user() -> spec_fn(MessageModel) -> Option<Seq<char>> {
    |m: MessageModel|
        if m.role == "user"@ && m.checkpoint_id.len() > 0 {
            Some(m.checkpoint_id)
        } else {
            None
        }
}

/// A list with every value only where it occurs first.
pub open spec fn distinct(s: Seq<Seq<char>>) -> Seq<Seq<char>>
    decreases s.len(),
{
    if s.len() == 0 {
        Seq::empty()
    } else {
        let before = distinct(s.drop_last());
        if before.contains(s.last()) {
            before
        } else {
            before.push(s.last())
        }
    }
}

/// Drops repeated values.
pub(crate) fn drop_repeats(s: &Vec<String>) -> (r: Vec<String>)
    ensures
        r.deep_view() == distinct(s.deep_view()),
{
    let ghost all = s.deep_view();
    let mut r: Vec<String> = Vec::new();
    proof {
        assert(r.deep_view() =~= distinct(all.take(0)));
    }
    let mut i: usize = 0;
    while i < s.len()
        invariant
            i <= s@.len(),
            all == s.deep_view(),
            r.deep_view() == distinct(all.take(i as int)),
        decreases s@.len() - i,
    {
        let ghost before = r.deep_view();
        proof {
            assert(all.take(i + 1).drop_last() =~= all.take(i as int));
            assert(all.take(i + 1).last() == s@[i as int]@);
        }
        if !has_name(&r, s[i].as_str()) {
            let x = s[i].clone();
            r.push(x);
            proof {
                assert(r.deep_view() =~= before.push(x@));
            }
        }
        i += 1;
    }
    proof {
        assert(all.take(i as int) =~= all);
    }
    r
}

impl ChatStore {
    /// Lists the messages of a conversation.
    pub fn list_chat_messages(&self, conversation_id: &str) -> (r: Vec<ChatMessageRecord>)
        ensures
            r.deep_view() == listed_messages(
                store::messages_of(self.deep_view(), conversation_id@),
            ),
    {
        let messages = self.conversation_messages(conversation_id);
        let mut r: Vec<ChatMessageRecord> = Vec::new();
        let mut i: usize = 0;
        while i < messages.len()
            invariant
                i <= messages@.len(),
                r@.len() == i,
                forall|j: int|
                    0 <= j < i ==> (#[trigger] r@[j]).deep_view() == listed_message(
                        messages@[j].deep_view(),
                    ),
            decreases messages@.len() - i,
        {
            r.push(list_message(&messages[i]));
            i += 1;
        }
        proof {
            assert(r.deep_view() =~= listed_messages(messages.deep_view()));
        }
        r
    }

    /// Lists the messages of the user in a conversation, in short.
    pub fn list_user_messages(&self, conversation_id: &str) -> (r: Vec<UserMessageSummary>)
        ensures
            r.deep_view() == store::messages_of(self.deep_view(), conversation_id@).filter_map(
                user_summary(),
            ),
    {
        let show = |m: &MessageRow| -> (o: Option<UserMessageSummary>)
            ensures
                o.deep_view() == user_summary()(m.deep_view()),
            {
                if is_text(&m.role, "user") && !is_text(&m.status, "context_compaction") {
                    Some(
                        UserMessageSummary {
                            id: m.id.clone(),
                            content: m.content.clone(),
                            created_at: m.created_at.clone(),
                        },
                    )
                } else {
                    None
                }
            };
        select_rows(&self.conversation_messages(conversation_id), show, Ghost(user_summary()))
    }

    /// Lists one page of the messages of a conversation: the last ones
    /// before a message, 10 of them unless a limit is given.
    pub fn list_chat_messages_paginated(
        &self,
        conversation_id: &str,
        before_message_id: &str,
        limit: i32,
    ) -> (r: ChatMessagePage)
        ensures
            ({
                let all = store::messages_of(self.deep_view(), conversation_id@);
                let earlier = before_message(all, before_message_id@);
                &&& r.items.deep_view() == listed_messages(tail(earlier, limit_or(limit, 10)))
                &&& r.total == self.deep_view().messages.filter(
                    store::in_conversation(conversation_id@),
                ).len()
                &&& r.has_more == (earlier.len() > limit_or(limit, 10) && limit < i32::MAX)
                &&& r.checkpoint_ids.deep_view() == distinct(all.filter_map(checkpoint_of_user()))
            }),
    {
        let own = store::unsorted_messages_of(&self.messages, conversation_id);
        proof {
            assert(own.deep_view().len() == own@.len());
        }
        let total: usize = own.len();
        let all = store::sort_messages(own);
        let ghost p = |m: MessageModel|
            before_message_id@.len() == 0 || order::before(m.id, before_message_id@);
        let test = |m: &MessageRow| -> (b: bool)
            ensures
                b == p(m.deep_view()),
            {
                before_message_id.unicode_len() == 0 || store::id_before(&m.id, before_message_id)
            };
        let earlier = keep_rows(&all, test, Ghost(p));
        let ghost whole = earlier.deep_view();
        proof {
            assert(whole.len() == earlier@.len());
            assert(whole == before_message(all.deep_view(), before_message_id@));
        }
        let size: usize = if limit > 0 {
            limit as usize
        } else {
            10
        };
        let cut = earlier.len() > size;
        let has_more = cut && limit < 2147483647;
        let from: usize = if cut {
            earlier.len() - size
        } else {
            0
        };
        let mut items: Vec<ChatMessageRecord> = Vec::new();
        let mut i: usize = from;
        while i < earlier.len()
            invariant
                from <= i <= earlier@.len(),
                whole == earlier.deep_view(),
                items@.len() == i - from,
                forall|j: int|
                    0 <= j < items@.len() ==> (#[trigger] items@[j]).deep_view() == listed_message(
                        whole[from + j],
                    ),
            decreases earlier@.len() - i,
        {
            proof {
                assert(whole[i as int] == earlier@[i as int].deep_view());
            }
            items.push(list_message(&earlier[i]));
            i += 1;
        }
        proof {
            assert(items.deep_view() =~= listed_messages(tail(whole, size as int)));
        }
        let checkpoint = |m: &MessageRow| -> (o: Option<String>)
            ensures
                o.deep_view() == checkpoint_of_user()(m.deep_view()),
            {
                if is_text(&m.role, "user") && m.checkpoint_id.as_str().unicode_len() > 0 {
                    Some(m.checkpoint_id.clone())
                } else {
                    None
                }
            };
        let checkpoints = select_rows(&all, checkpoint, Ghost(checkpoint_of_user()));
        ChatMessagePage { items, total, has_more, checkpoint_ids: drop_repeats(&checkpoints) }
    }

    /// Finds the latest result of a tool in a conversation.
    pub fn find_latest_tool_result(&self, conversation_id: &str, tool_name: &str) -> (r: Option<
        String,
    >)
        ensures
            r.deep_view() == latest_tool_result(self.deep_view(), conversation_id@, tool_name@),
    {
        let test = |m: &MessageRow| -> (b: bool)
            ensures
                b == holds_result(tool_name@)(m.deep_view()),
            {
                is_text(&m.role, "tool") && snippets::extract_tool_result(
                    m.content.as_str(),
                    tool_name,
                ).is_some()
            };
        let hits = keep_rows(
            &self.conversation_messages(conversation_id),
            test,
            Ghost(holds_result(tool_name@)),
        );
        proof {
            assert(hits.deep_view().len() == hits@.len());
        }
        if hits.len() == 0 {
            return None;
        }
        let n: usize = hits.len() - 1;
        proof {
            assert(hits.deep_view()[n as int] == hits@[n as int].deep_view());
        }
        snippets::extract_tool_result(hits[n].content.as_str(), tool_name)
    }
}

/// Whether a message holds a result of a tool.
pub open spec fn holds_result(tool: Seq<char>) -> spec_fn(MessageModel) -> bool {
    |m: MessageModel| m.role == "tool"@ && snippets::tool_result(m.content, tool) is Some
}

/// The result of a tool in the latest message that holds one.
pub open spec fn latest_tool_result(store: StoreModel, id: Seq<char>, tool: Seq<char>) -> Option<
    Seq<char>,
> {
    match store::last_of(store::messages_of(store, id).filter(holds_result(tool))) {
        Some(m) => snippets::tool_result(m.content, tool),
        None => None,
    }
}

} // verus!
