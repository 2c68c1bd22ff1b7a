//! Properties of conversations, and the sessions of sub-agents.

use vstd::prelude::*;
use crate::chat::rows::{ConversationModel, ConversationRow, SubAgentModel, SubAgentRow};
use crate::chat::store;
use crate::chat::store::{ChatStore, StoreModel};
use crate::rows::{change_rows, copy_rows, keep_rows, Copied};
use crate::text;
use crate::text::{empty, is_text, trimmed_string};

verus! {

// ---------------------------------------------------------------------
// Titles and marks
// ---------------------------------------------------------------------

/// A conversation with another summary.
pub open spec fn with_summary(summary: Seq<char>, now: Seq<char>) -> spec_fn(
    ConversationModel,
) -> ConversationModel {
    |c: ConversationModel| ConversationModel { summary, updated_at: now, ..c }
}

/// A conversation with another title, which is also its summary.
pub open spec fn with_title(title: Seq<char>, now: Seq<char>) -> spec_fn(
    ConversationModel,
) -> ConversationModel {
    |c: ConversationModel| ConversationModel { title, summary: title, updated_at: now, ..c }
}

/// A conversation with another emoji.
pub open spec fn with_emoji(emoji: Seq<char>, now: Seq<char>) -> spec_fn(
    ConversationModel,
) -> ConversationModel {
    |c: ConversationModel| ConversationModel { emoji: Some(emoji), updated_at: now, ..c }
}

/// A conversation with another status.
pub open spec fn with_status(status: Seq<char>, now: Seq<char>) -> spec_fn(
    ConversationModel,
) -> ConversationModel {
    |c: ConversationModel| ConversationModel { status, updated_at: now, ..c }
}

/// A conversation bound to another configuration.
pub open spec fn with_profile(profile: Seq<char>, now: Seq<char>) -> spec_fn(
    ConversationModel,
) -> ConversationModel {
    |c: ConversationModel| ConversationModel { api_profile_name: profile, updated_at: now, ..c }
}

/// The status that a conversation can have: pinned or active.
pub open spec fn conversation_status(status: Seq<char>) -> Seq<char> {
    if text::trimmed(status) == "pin"@ {
        "pin"@
    } else {
        "active"@
    }
}

impl ChatStore {
    /// Changes the summary of a conversation. An empty one changes nothing.
    pub fn update_conversation_summary(&self, conversation_id: &str, summary: &str, now: &str) -> (r:
        ChatStore)
        ensures
            r.deep_view() == (if text::trimmed(summary@).len() == 0 {
                self.deep_view()
            } else {
                store::with_conversation(
                    self.deep_view(),
                    conversation_id@,
                    with_summary(text::trimmed(summary@), now@),
                )
            }),
    {
        let trimmed = trimmed_string(summary);
        if trimmed.as_str().unicode_len() == 0 {
            return self.duplicate();
        }
        let change = |c: &ConversationRow| -> (y: ConversationRow)
            ensures
                y.deep_view() == with_summary(trimmed@, now@)(c.deep_view()),
            {
                let mut y = c.copied();
                y.summary = trimmed.clone();
                y.updated_at = now.to_string();
                y
            };
        self.change_conversation(conversation_id, change, Ghost(with_summary(trimmed@, now@)))
    }

    /// Renames a conversation. An empty name changes nothing.
    pub fn rename_conversation(&self, conversation_id: &str, title: &str, now: &str) -> (r:
        ChatStore)
        ensures
            r.deep_view() == (if text::trimmed(title@).len() == 0 {
                self.deep_view()
            } else {
                store::with_conversation(
                    self.deep_view(),
                    conversation_id@,
                    with_title(text::trimmed(title@), now@),
                )
            }),
    {
        let trimmed = trimmed_string(title);
        if trimmed.as_str().unicode_len() == 0 {
            return self.duplicate();
        }
        let change = |c: &ConversationRow| -> (y: ConversationRow)
            ensures
                y.deep_view() == with_title(trimmed@, now@)(c.deep_view()),
            {
                let mut y = c.copied();
                y.title = trimmed.clone();
                y.summary = trimmed.clone();
                y.updated_at = now.to_string();
                y
            };
        self.change_conversation(conversation_id, change, Ghost(with_title(trimmed@, now@)))
    }

    /// Changes the emoji of a conversation.
    pub fn update_conversation_emoji(&self, conversation_id: &str, emoji: &str, now: &str) -> (r:
        ChatStore)
        ensures
            r.deep_view() == store::with_conversation(
                self.deep_view(),
                conversation_id@,
                with_emoji(text::trimmed(emoji@), now@),
            ),
    {
        let trimmed = trimmed_string(emoji);
        let change = |c: &ConversationRow| -> (y: ConversationRow)
            ensures
                y.deep_view() == with_emoji(trimmed@, now@)(c.deep_view()),
            {
                let mut y = c.copied();
                y.emoji = Some(trimmed.clone());
                y.updated_at = now.to_string();
                y
            };
        self.change_conversation(conversation_id, change, Ghost(with_emoji(trimmed@, now@)))
    }

    /// Changes the status of a conversation.
    pub fn update_conversation_status(&self, conversation_id: &str, status: &str, now: &str) -> (r:
        ChatStore)
        ensures
            r.deep_view() == store::with_conversation(
                self.deep_view(),
                conversation_id@,
                with_status(conversation_status(status@), now@),
            ),
    {
        let trimmed = trimmed_string(status);
        let normalized = if is_text(&trimmed, "pin") {
            "pin".to_string()
        } else {
            "active".to_string()
        };
        let change = |c: &ConversationRow| -> (y: ConversationRow)
            ensures
                y.deep_view() == with_status(normalized@, now@)(c.deep_view()),
            {
                let mut y = c.copied();
                y.status = normalized.clone();
                y.updated_at = now.to_string();
                y
            };
        self.change_conversation(conversation_id, change, Ghost(with_status(normalized@, now@)))
    }

    /// Binds a conversation to another configuration. The empty name unbinds
    /// it.
    pub fn update_conversation_api_profile(
        &self,
        conversation_id: &str,
        profile_name: &str,
        now: &str,
    ) -> (r: ChatStore)
        ensures
            r.deep_view() == store::with_conversation(
                self.deep_view(),
                conversation_id@,
                with_profile(text::trimmed(profile_name@), now@),
            ),
    {
        let trimmed = trimmed_string(profile_name);
        let change = |c: &ConversationRow| -> (y: ConversationRow)
            ensures
                y.deep_view() == with_profile(trimmed@, now@)(c.deep_view()),
            {
                let mut y = c.copied();
                y.api_profile_name = trimmed.clone();
                y.updated_at = now.to_string();
                y
            };
        self.change_conversation(conversation_id, change, Ghost(with_profile(trimmed@, now@)))
    }

    /// Tells which configuration a conversation is bound to, if it is there
    /// and bound to one.
    pub fn get_conversation_api_profile(&self, conversation_id: &str) -> (r: Option<String>)
        ensures
            r.deep_view() == bound_profile(self.deep_view(), conversation_id@),
    {
        match self.find_conversation(conversation_id) {
            Some(c) => {
                let chars = text::chars_of(c.api_profile_name.as_str());
                if text::trim(chars.as_slice()).len() == 0 {
                    None
                } else {
                    Some(c.api_profile_name.clone())
                }
            },
            None => None,
        }
    }
}

/// The configuration that a conversation is bound to.
pub open spec fn bound_profile(store: StoreModel, id: Seq<char>) -> Option<Seq<char>> {
    match store::conversation(store, id) {
        Some(c) => if text::trimmed(c.api_profile_name).len() == 0 {
            None
        } else {
            Some(c.api_profile_name)
        },
        None => None,
    }
}

// ---------------------------------------------------------------------
// Modes
// ---------------------------------------------------------------------

/// The modes of a conversation. A conversation that is not there has none;
/// one that never set a mode has it off. Without a budget the global one is
/// followed.
#[derive(Clone, Copy, Debug)]
pub struct ConversationModes {
    pub plan_mode: Option<bool>,
    pub goal_mode: Option<bool>,
    pub goal_mode_token_budget: Option<i64>,
}

/// Whether a stored flag is on.
pub open spec fn flag_on(flag: Option<i64>) -> bool {
    match flag {
        Some(n) => n != 0,
        None => false,
    }
}

/// The modes of a conversation.
pub open spec fn modes_of(store: StoreModel, id: Seq<char>) -> ConversationModes {
    match store::conversation(store, id) {
        Some(c) => ConversationModes {
            plan_mode: Some(flag_on(c.plan_mode)),
            goal_mode: Some(flag_on(c.goal_mode)),
            goal_mode_token_budget: c.goal_mode_token_budget,
        },
        None => ConversationModes {
            plan_mode: None,
            goal_mode: None,
            goal_mode_token_budget: None,
        },
    }
}

/// The stored form of a flag.
pub open spec fn flag_of(mode: Option<bool>) -> Option<i64> {
    match mode {
        Some(true) => Some(1),
        Some(false) => Some(0),
        None => None,
    }
}

/// The first value, or else the second.
pub open spec fn first_given(a: Option<i64>, b: Option<i64>) -> Option<i64> {
    match a {
        Some(n) => Some(n),
        None => b,
    }
}

/// A conversation with the given modes set; modes that are not given stay.
pub open spec fn with_modes(modes: ConversationModes) -> spec_fn(
    ConversationModel,
) -> ConversationModel {
    |c: ConversationModel|
        ConversationModel {
            plan_mode: first_given(flag_of(modes.plan_mode), c.plan_mode),
            goal_mode: first_given(flag_of(modes.goal_mode), c.goal_mode),
            goal_mode_token_budget: first_given(
                modes.goal_mode_token_budget,
                c.goal_mode_token_budget,
            ),
            ..c
        }
}

/// The store with modes set. A conversation that is not there is created
/// with them.
pub open spec fn modes_set(
    store: StoreModel,
    id: Seq<char>,
    modes: ConversationModes,
    row_id: Seq<char>,
    blank: ConversationModel,
) -> StoreModel {
    if store::conversation(store, id) is Some {
        store::with_conversation(store, id, with_modes(modes))
    } else {
        StoreModel {
            conversations: store.conversations.push(
                ConversationModel {
                    id: row_id,
                    conversation_id: id,
                    plan_mode: flag_of(modes.plan_mode),
                    goal_mode: flag_of(modes.goal_mode),
                    goal_mode_token_budget: modes.goal_mode_token_budget,
                    ..blank
                },
            ),
            ..store
        }
    }
}

fn write_flag(mode: Option<bool>) -> (r: Option<i64>)
    ensures
        r == flag_of(mode),
{
    match mode {
        Some(true) => Some(1),
        Some(false) => Some(0),
        None => None,
    }
}

fn give_first(a: Option<i64>, b: Option<i64>) -> (r: Option<i64>)
    ensures
        r == first_given(a, b),
{
    match a {
        Some(n) => Some(n),
        None => b,
    }
}

fn read_flag(flag: Option<i64>) -> (r: bool)
    ensures
        r == flag_on(flag),
{
    match flag {
        Some(n) => n != 0,
        None => false,
    }
}

impl ChatStore {
    /// Reads the modes of a conversation.
    pub fn get_conversation_modes(&self, conversation_id: &str) -> (r: ConversationModes)
        ensures
            r == modes_of(self.deep_view(), conversation_id@),
    {
        match self.find_conversation(conversation_id) {
            Some(c) => ConversationModes {
                plan_mode: Some(read_flag(c.plan_mode)),
                goal_mode: Some(read_flag(c.goal_mode)),
                goal_mode_token_budget: c.goal_mode_token_budget,
            },
            None => ConversationModes {
                plan_mode: None,
                goal_mode: None,
                goal_mode_token_budget: None,
            },
        }
    }

    /// Sets modes of a conversation. `row_id` and `blank` are for a
    /// conversation that is not there yet.
    pub fn set_conversation_modes(
        &self,
        conversation_id: &str,
        modes: ConversationModes,
        row_id: &str,
        blank: &ConversationRow,
    ) -> (r: ChatStore)
        ensures
            r.deep_view() == modes_set(
                self.deep_view(),
                conversation_id@,
                modes,
                row_id@,
                blank.deep_view(),
            ),
    {
        if self.conversation_exists(conversation_id) {
            let change = |c: &ConversationRow| -> (y: ConversationRow)
                ensures
                    y.deep_view() == with_modes(modes)(c.deep_view()),
                {
                    let mut y = c.copied();
                    y.plan_mode = give_first(write_flag(modes.plan_mode), c.plan_mode);
                    y.goal_mode = give_first(write_flag(modes.goal_mode), c.goal_mode);
                    y.goal_mode_token_budget = give_first(
                        modes.goal_mode_token_budget,
                        c.goal_mode_token_budget,
                    );
                    y
                };
            return self.change_conversation(conversation_id, change, Ghost(with_modes(modes)));
        }
        let mut row = blank.copied();
        row.id = row_id.to_string();
        row.conversation_id = conversation_id.to_string();
        row.plan_mode = write_flag(modes.plan_mode);
        row.goal_mode = write_flag(modes.goal_mode);
        row.goal_mode_token_budget = modes.goal_mode_token_budget;
        let mut out = self.duplicate();
        let ghost before = out.conversations.deep_view();
        out.conversations.push(row);
        proof {
            assert(out.conversations.deep_view() =~= before.push(row.deep_view()));
        }
        out
    }
}

// ---------------------------------------------------------------------
// Sub-agents
// ---------------------------------------------------------------------

/// The status of a session, from the one reported; an unknown one counts as
/// running.
pub open spec fn run_status_of(status: Seq<char>) -> Seq<char> {
    let s = text::trimmed(status);
    if s == "completed"@ || s == "failed"@ || s == "cancelled"@ {
        s
    } else {
        "running"@
    }
}

/// A session with another status.
pub open spec fn with_run_status(
    id: Seq<char>,
    status: Seq<char>,
    message: Seq<char>,
    now: Seq<char>,
) -> spec_fn(SubAgentModel) -> SubAgentModel {
    |s: SubAgentModel|
        if s.conversation_id == id {
            SubAgentModel { run_status: status, error_message: message, updated_at: now, ..s }
        } else {
            s
        }
}

/// Whether a session is running.
pub open spec fn is_running() -> spec_fn(SubAgentModel) -> bool {
    |s: SubAgentModel| s.run_status == "running"@
}

/// A session that was running, cancelled.
pub open spec fn cancelled(now: Seq<char>) -> spec_fn(SubAgentModel) -> SubAgentModel {
    |s: SubAgentModel|
        if s.run_status == "running"@ {
            SubAgentModel {
                run_status: "cancelled"@,
                error_message: Seq::empty(),
                updated_at: now,
                ..s
            }
        } else {
            s
        }
}

/// What is known of a new session.
pub struct NewSession {
    pub conversation_id: String,
    pub parent_conversation_id: String,
    pub agent_id: String,
    pub agent_name: String,
    pub directory_id: String,
    pub api_profile_name: String,
    pub model: String,
    pub title: String,
    pub conversation_row_id: String,
    pub session_row_id: String,
    pub now: String,
}

/// The mathematical form of a new session.
pub struct NewSessionModel {
    pub conversation_id: Seq<char>,
    pub parent_conversation_id: Seq<char>,
    pub agent_id: Seq<char>,
    pub agent_name: Seq<char>,
    pub directory_id: Seq<char>,
    pub api_profile_name: Seq<char>,
    pub model: Seq<char>,
    pub title: Seq<char>,
    pub conversation_row_id: Seq<char>,
    pub session_row_id: Seq<char>,
    pub now: Seq<char>,
}

impl DeepView for NewSession {
    type V = NewSessionModel;

    open spec fn deep_view(&self) -> NewSessionModel {
        NewSessionModel {
            conversation_id: self.conversation_id@,
            parent_conversation_id: self.parent_conversation_id@,
            agent_id: self.agent_id@,
            agent_name: self.agent_name@,
            directory_id: self.directory_id@,
            api_profile_name: self.api_profile_name@,
            model: self.model@,
            title: self.title@,
            conversation_row_id: self.conversation_row_id@,
            session_row_id: self.session_row_id@,
            now: self.now@,
        }
    }
}

/// The conversation of a new session.
pub open spec fn session_conversation(
    n: NewSessionModel,
    blank: ConversationModel,
) -> ConversationModel {
    ConversationModel {
        id: n.conversation_row_id,
        conversation_id: n.conversation_id,
        title: text::trimmed(n.title),
        summary: text::trimmed(n.title),
        last_message_preview: Seq::empty(),
        message_count: 0,
        model: text::trimmed(n.model),
        api_profile_name: text::trimmed(n.api_profile_name),
        last_response_id: Seq::empty(),
        status: "active"@,
        directory_id: text::trimmed(n.directory_id),
        forked_from_conversation_id: Seq::empty(),
        fork_message_count: 0,
        created_at: n.now,
        updated_at: n.now,
        ..blank
    }
}

/// The row of a new session. It runs.
pub open spec fn session_row(n: NewSessionModel) -> SubAgentModel {
    SubAgentModel {
        id: n.session_row_id,
        conversation_id: n.conversation_id,
        parent_conversation_id: text::trimmed(n.parent_conversation_id),
        agent_id: text::trimmed(n.agent_id),
        agent_name: text::trimmed(n.agent_name),
        run_status: "running"@,
        error_message: Seq::empty(),
        created_at: n.now,
        updated_at: n.now,
    }
}

impl ChatStore {
    /// Opens a session of a sub-agent with a conversation of its own. There
    /// must be no conversation of its identifier yet; otherwise the result
    /// is none.
    pub fn create_sub_agent_session(&self, session: &NewSession, blank: &ConversationRow) -> (r:
        Option<ChatStore>)
        ensures
            match r {
                Some(after) => store::conversation(
                    self.deep_view(),
                    session.conversation_id@,
                ) is None && after.deep_view() == (StoreModel {
                    conversations: self.deep_view().conversations.push(
                        session_conversation(session.deep_view(), blank.deep_view()),
                    ),
                    sub_agents: self.deep_view().sub_agents.push(
                        session_row(session.deep_view()),
                    ),
                    ..self.deep_view()
                }),
                None => store::conversation(self.deep_view(), session.conversation_id@) is Some,
            },
    {
        if self.conversation_exists(session.conversation_id.as_str()) {
            return None;
        }
        let mut row = blank.copied();
        row.id = session.conversation_row_id.clone();
        row.conversation_id = session.conversation_id.clone();
        row.title = trimmed_string(session.title.as_str());
        row.summary = trimmed_string(session.title.as_str());
        row.last_message_preview = empty();
        row.message_count = 0;
        row.model = trimmed_string(session.model.as_str());
        row.api_profile_name = trimmed_string(session.api_profile_name.as_str());
        row.last_response_id = empty();
        row.status = "active".to_string();
        row.directory_id = trimmed_string(session.directory_id.as_str());
        row.forked_from_conversation_id = empty();
        row.fork_message_count = 0;
        row.created_at = session.now.clone();
        row.updated_at = session.now.clone();
        let agent = SubAgentRow {
            id: session.session_row_id.clone(),
            conversation_id: session.conversation_id.clone(),
            parent_conversation_id: trimmed_string(session.parent_conversation_id.as_str()),
            agent_id: trimmed_string(session.agent_id.as_str()),
            agent_name: trimmed_string(session.agent_name.as_str()),
            run_status: "running".to_string(),
            error_message: empty(),
            created_at: session.now.clone(),
            updated_at: session.now.clone(),
        };
        let mut out = self.duplicate();
        let ghost conversations = out.conversations.deep_view();
        let ghost sub_agents = out.sub_agents.deep_view();
        out.conversations.push(row);
        out.sub_agents.push(agent);
        proof {
            assert(out.conversations.deep_view() =~= conversations.push(row.deep_view()));
            assert(out.sub_agents.deep_view() =~= sub_agents.push(agent.deep_view()));
        }
        Some(out)
    }

    /// Changes the status of a session.
    pub fn update_sub_agent_session_status(
        &self,
        conversation_id: &str,
        run_status: &str,
        error_message: &str,
        now: &str,
    ) -> (r: ChatStore)
        ensures
            r.deep_view() == (StoreModel {
                sub_agents: self.deep_view().sub_agents.map_values(
                    with_run_status(
                        conversation_id@,
                        run_status_of(run_status@),
                        text::trimmed(error_message@),
                        now@,
                    ),
                ),
                ..self.deep_view()
            }),
    {
        let trimmed = trimmed_string(run_status);
        let status = if is_text(&trimmed, "completed") || is_text(&trimmed, "failed") || is_text(
            &trimmed,
            "cancelled",
        ) {
            trimmed
        } else {
            "running".to_string()
        };
        let message = trimmed_string(error_message);
        let change = |s: &SubAgentRow| -> (y: SubAgentRow)
            ensures
                y.deep_view() == with_run_status(conversation_id@, status@, message@, now@)(
                    s.deep_view(),
                ),
            {
                let mut y = s.copied();
                if is_text(&s.conversation_id, conversation_id) {
                    y.run_status = status.clone();
                    y.error_message = message.clone();
                    y.updated_at = now.to_string();
                }
                y
            };
        let sub_agents = change_rows(
            &self.sub_agents,
            change,
            Ghost(with_run_status(conversation_id@, status@, message@, now@)),
        );
        ChatStore {
            conversations: copy_rows(&self.conversations),
            messages: copy_rows(&self.messages),
            sub_agents,
            todos: copy_rows(&self.todos),
        }
    }

    /// Cancels the sessions that are running, and counts them.
    pub fn cancel_running_sub_agent_sessions(&self, now: &str) -> (r: (ChatStore, usize))
        ensures
            r.0.deep_view() == (StoreModel {
                sub_agents: self.deep_view().sub_agents.map_values(cancelled(now@)),
                ..self.deep_view()
            }),
            r.1 == self.deep_view().sub_agents.filter(is_running()).len(),
    {
        let test = |s: &SubAgentRow| -> (b: bool)
            ensures
                b == is_running()(s.deep_view()),
            { is_text(&s.run_status, "running") };
        let running = keep_rows(&self.sub_agents, test, Ghost(is_running()));
        proof {
            assert(running.deep_view().len() == running@.len());
        }
        let change = |s: &SubAgentRow| -> (y: SubAgentRow)
            ensures
                y.deep_view() == cancelled(now@)(s.deep_view()),
            {
                let mut y = s.copied();
                if is_text(&s.run_status, "running") {
                    y.run_status = "cancelled".to_string();
                    y.error_message = empty();
                    y.updated_at = now.to_string();
                }
                y
            };
        let sub_agents = change_rows(&self.sub_agents, change, Ghost(cancelled(now@)));
        (
            ChatStore {
                conversations: copy_rows(&self.conversations),
                messages: copy_rows(&self.messages),
                sub_agents,
                todos: copy_rows(&self.todos),
            },
            running.len(),
        )
    }
}

// ---------------------------------------------------------------------
// Laws
// ---------------------------------------------------------------------

/// What is read of the modes is what was set: a mode that was given has the
/// given value, one that was not given keeps the one it had, and a
/// conversation that was not there has it off.
pub proof fn law_modes_read_back(
    store: StoreModel,
    id: Seq<char>,
    modes: ConversationModes,
    row_id: Seq<char>,
    blank: ConversationModel,
)
    ensures
        ({
            let before = modes_of(store, id);
            let after = modes_of(modes_set(store, id, modes, row_id, blank), id);
            &&& after.plan_mode is Some && after.goal_mode is Some
            &&& modes.plan_mode is Some ==> after.plan_mode == modes.plan_mode
            &&& modes.goal_mode is Some ==> after.goal_mode == modes.goal_mode
            &&& modes.goal_mode_token_budget is Some ==> after.goal_mode_token_budget
                == modes.goal_mode_token_budget
            &&& modes.plan_mode is None ==> after.plan_mode == Some(before.plan_mode == Some(true))
            &&& modes.goal_mode is None ==> after.goal_mode == Some(before.goal_mode == Some(true))
            &&& modes.goal_mode_token_budget is None ==> after.goal_mode_token_budget
                == before.goal_mode_token_budget
        }),
{
    let p = store::is_conversation(id);
    if store::conversation(store, id) is Some {
        lemma_changed_first(store.conversations, id, with_modes(modes));
    } else {
        crate::rows::lemma_first_row(store.conversations, p);
        let row = ConversationModel {
            id: row_id,
            conversation_id: id,
            plan_mode: flag_of(modes.plan_mode),
            goal_mode: flag_of(modes.goal_mode),
            goal_mode_token_budget: modes.goal_mode_token_budget,
            ..blank
        };
        lemma_pushed_first(store.conversations, row, p);
    }
}

/// The first row of a list to which a matching row was added, where no row
/// matched before.
pub proof fn lemma_pushed_first<M>(s: Seq<M>, x: M, p: spec_fn(M) -> bool)
    requires
        p(x),
        forall|i: int| 0 <= i < s.len() ==> !p(#[trigger] s[i]),
    ensures
        crate::rows::first_row(s.push(x), p) == Some(x),
    decreases s.len(),
{
    if s.len() > 0 {
        assert(s.push(x).skip(1) =~= s.skip(1).push(x));
        assert forall|i: int| 0 <= i < s.skip(1).len() implies !p(#[trigger] s.skip(1)[i]) by {
            assert(s.skip(1)[i] == s[i + 1]);
        }
        lemma_pushed_first(s.skip(1), x, p);
    }
}

/// The first conversation of an identifier, after a change that keeps
/// identifiers.
pub proof fn lemma_changed_first(
    s: Seq<ConversationModel>,
    id: Seq<char>,
    change: spec_fn(ConversationModel) -> ConversationModel,
)
    requires
        forall|c: ConversationModel| (#[trigger] change(c)).conversation_id == c.conversation_id,
    ensures
        crate::rows::first_row(
            s.map_values(
                |c: ConversationModel|
                    if c.conversation_id == id {
                        change(c)
                    } else {
                        c
                    },
            ),
            store::is_conversation(id),
        ) == (match crate::rows::first_row(s, store::is_conversation(id)) {
            Some(c) => Some(change(c)),
            None => None,
        }),
    decreases s.len(),
{
    let g = |c: ConversationModel|
        if c.conversation_id == id {
            change(c)
        } else {
            c
        };
    if s.len() > 0 {
        assert(s.map_values(g).skip(1) =~= s.skip(1).map_values(g));
        lemma_changed_first(s.skip(1), id, change);
    }
}

/// A profile that a conversation was bound to is the one that is read; the
/// empty one unbinds it.
pub proof fn law_profile_reads_back(
    store: StoreModel,
    id: Seq<char>,
    profile: Seq<char>,
    now: Seq<char>,
)
    requires
        store::conversation(store, id) is Some,
    ensures
        bound_profile(
            store::with_conversation(store, id, with_profile(text::trimmed(profile), now)),
            id,
        ) == (if text::trimmed(text::trimmed(profile)).len() == 0 {
            None
        } else {
            Some(text::trimmed(profile))
        }),
{
    lemma_changed_first(
        store.conversations,
        id,
        with_profile(text::trimmed(profile), now),
    );
}

} // verus!
