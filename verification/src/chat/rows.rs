//! The rows of the chat tables, and what is shown of them.

use vstd::prelude::*;
use crate::rows::Copied;

verus! {

/// A copy of an optional string.
pub(crate) fn copy_option(s: &Option<String>) -> (out: Option<String>)
    ensures
        out.deep_view() == s.deep_view(),
{
    match s {
        Some(v) => Some(v.clone()),
        None => None,
    }
}

/// A conversation. The flags of its modes are 0, 1 or absent.
pub struct ConversationRow {
    pub id: String,
    pub conversation_id: String,
    pub title: String,
    pub summary: String,
    pub last_message_preview: String,
    pub message_count: i64,
    pub model: String,
    pub api_profile_name: String,
    pub last_response_id: String,
    pub status: String,
    pub directory_id: String,
    pub forked_from_conversation_id: String,
    pub fork_message_count: i64,
    pub created_at: String,
    pub updated_at: String,
    pub input_tokens: i64,
    pub output_tokens: i64,
    pub cache_creation_input_tokens: i64,
    pub cache_read_input_tokens: i64,
    pub total_duration_ms: i64,
    pub emoji: Option<String>,
    pub plan_mode: Option<i64>,
    pub goal_mode: Option<i64>,
    pub goal_mode_token_budget: Option<i64>,
}

/// The mathematical form of a conversation.
pub struct ConversationModel {
    pub id: Seq<char>,
    pub conversation_id: Seq<char>,
    pub title: Seq<char>,
    pub summary: Seq<char>,
    pub last_message_preview: Seq<char>,
    pub message_count: i64,
    pub model: Seq<char>,
    pub api_profile_name: Seq<char>,
    pub last_response_id: Seq<char>,
    pub status: Seq<char>,
    pub directory_id: Seq<char>,
    pub forked_from_conversation_id: Seq<char>,
    pub fork_message_count: i64,
    pub created_at: Seq<char>,
    pub updated_at: Seq<char>,
    pub input_tokens: i64,
    pub output_tokens: i64,
    pub cache_creation_input_tokens: i64,
    pub cache_read_input_tokens: i64,
    pub total_duration_ms: i64,
    pub emoji: Option<Seq<char>>,
    pub plan_mode: Option<i64>,
    pub goal_mode: Option<i64>,
    pub goal_mode_token_budget: Option<i64>,
}

impl DeepView for ConversationRow {
    type V = ConversationModel;

    open spec fn deep_view(&self) -> ConversationModel {
        ConversationModel {
            id: self.id@,
            conversation_id: self.conversation_id@,
            title: self.title@,
            summary: self.summary@,
            last_message_preview: self.last_message_preview@,
            message_count: self.message_count,
            model: self.model@,
            api_profile_name: self.api_profile_name@,
            last_response_id: self.last_response_id@,
            status: self.status@,
            directory_id: self.directory_id@,
            forked_from_conversation_id: self.forked_from_conversation_id@,
            fork_message_count: self.fork_message_count,
            created_at: self.created_at@,
            updated_at: self.updated_at@,
            input_tokens: self.input_tokens,
            output_tokens: self.output_tokens,
            cache_creation_input_tokens: self.cache_creation_input_tokens,
            cache_read_input_tokens: self.cache_read_input_tokens,
            total_duration_ms: self.total_duration_ms,
            emoji: self.emoji.deep_view(),
            plan_mode: self.plan_mode,
            goal_mode: self.goal_mode,
            goal_mode_token_budget: self.goal_mode_token_budget,
        }
    }
}

impl Copied for ConversationRow {
    fn copied(&self) -> (out: Self) {
        ConversationRow {
            id: self.id.clone(),
            conversation_id: self.conversation_id.clone(),
            title: self.title.clone(),
            summary: self.summary.clone(),
            last_message_preview: self.last_message_preview.clone(),
            message_count: self.message_count,
            model: self.model.clone(),
            api_profile_name: self.api_profile_name.clone(),
            last_response_id: self.last_response_id.clone(),
            status: self.status.clone(),
            directory_id: self.directory_id.clone(),
            forked_from_conversation_id: self.forked_from_conversation_id.clone(),
            fork_message_count: self.fork_message_count,
            created_at: self.created_at.clone(),
            updated_at: self.updated_at.clone(),
            input_tokens: self.input_tokens,
            output_tokens: self.output_tokens,
            cache_creation_input_tokens: self.cache_creation_input_tokens,
            cache_read_input_tokens: self.cache_read_input_tokens,
            total_duration_ms: self.total_duration_ms,
            emoji: copy_option(&self.emoji),
            plan_mode: self.plan_mode,
            goal_mode: self.goal_mode,
            goal_mode_token_budget: self.goal_mode_token_budget,
        }
    }
}

/// A message of a conversation.
pub struct MessageRow {
    pub id: String,
    pub message_id: String,
    pub conversation_id: String,
    pub role: String,
    pub content: String,
    pub model: String,
    pub response_id: String,
    pub checkpoint_id: String,
    pub status: String,
    pub interruption_reason: Option<String>,
    pub recovery_outcome: Option<String>,
    pub raw_json: String,
    pub thinking: String,
    pub thinking_blocks_json: String,
    pub tool_calls_json: String,
    pub created_at: String,
}

/// The mathematical form of a message.
pub struct MessageModel {
    pub id: Seq<char>,
    pub message_id: Seq<char>,
    pub conversation_id: Seq<char>,
    pub role: Seq<char>,
    pub content: Seq<char>,
    pub model: Seq<char>,
    pub response_id: Seq<char>,
    pub checkpoint_id: Seq<char>,
    pub status: Seq<char>,
    pub interruption_reason: Option<Seq<char>>,
    pub recovery_outcome: Option<Seq<char>>,
    pub raw_json: Seq<char>,
    pub thinking: Seq<char>,
    pub thinking_blocks_json: Seq<char>,
    pub tool_calls_json: Seq<char>,
    pub created_at: Seq<char>,
}

impl DeepView for MessageRow {
    type V = MessageModel;

    open spec fn deep_view(&self) -> MessageModel {
        MessageModel {
            id: self.id@,
            message_id: self.message_id@,
            conversation_id: self.conversation_id@,
            role: self.role@,
            content: self.content@,
            model: self.model@,
            response_id: self.response_id@,
            checkpoint_id: self.checkpoint_id@,
            status: self.status@,
            interruption_reason: self.interruption_reason.deep_view(),
            recovery_outcome: self.recovery_outcome.deep_view(),
            raw_json: self.raw_json@,
            thinking: self.thinking@,
            thinking_blocks_json: self.thinking_blocks_json@,
            tool_calls_json: self.tool_calls_json@,
            created_at: self.created_at@,
        }
    }
}

impl Copied for MessageRow {
    fn copied(&self) -> (out: Self) {
        MessageRow {
            id: self.id.clone(),
            message_id: self.message_id.clone(),
            conversation_id: self.conversation_id.clone(),
            role: self.role.clone(),
            content: self.content.clone(),
            model: self.model.clone(),
            response_id: self.response_id.clone(),
            checkpoint_id: self.checkpoint_id.clone(),
            status: self.status.clone(),
            interruption_reason: copy_option(&self.interruption_reason),
            recovery_outcome: copy_option(&self.recovery_outcome),
            raw_json: self.raw_json.clone(),
            thinking: self.thinking.clone(),
            thinking_blocks_json: self.thinking_blocks_json.clone(),
            tool_calls_json: self.tool_calls_json.clone(),
            created_at: self.created_at.clone(),
        }
    }
}

/// The session of a sub-agent: its own conversation, and the one that
/// started it.
pub struct SubAgentRow {
    pub id: String,
    pub conversation_id: String,
    pub parent_conversation_id: String,
    pub agent_id: String,
    pub agent_name: String,
    pub run_status: String,
    pub error_message: String,
    pub created_at: String,
    pub updated_at: String,
}

/// The mathematical form of a session.
pub struct SubAgentModel {
    pub id: Seq<char>,
    pub conversation_id: Seq<char>,
    pub parent_conversation_id: Seq<char>,
    pub agent_id: Seq<char>,
    pub agent_name: Seq<char>,
    pub run_status: Seq<char>,
    pub error_message: Seq<char>,
    pub created_at: Seq<char>,
    pub updated_at: Seq<char>,
}

impl DeepView for SubAgentRow {
    type V = SubAgentModel;

    open spec fn deep_view(&self) -> SubAgentModel {
        SubAgentModel {
            id: self.id@,
            conversation_id: self.conversation_id@,
            parent_conversation_id: self.parent_conversation_id@,
            agent_id: self.agent_id@,
            agent_name: self.agent_name@,
            run_status: self.run_status@,
            error_message: self.error_message@,
            created_at: self.created_at@,
            updated_at: self.updated_at@,
        }
    }
}

impl Copied for SubAgentRow {
    fn copied(&self) -> (out: Self) {
        SubAgentRow {
            id: self.id.clone(),
            conversation_id: self.conversation_id.clone(),
            parent_conversation_id: self.parent_conversation_id.clone(),
            agent_id: self.agent_id.clone(),
            agent_name: self.agent_name.clone(),
            run_status: self.run_status.clone(),
            error_message: self.error_message.clone(),
            created_at: self.created_at.clone(),
            updated_at: self.updated_at.clone(),
        }
    }
}

/// An entry of the list of tasks of a conversation.
pub struct TodoRow {
    pub key: i64,
    pub session_id: String,
    pub response_id: String,
}

/// The mathematical form of a task.
pub struct TodoModel {
    pub key: i64,
    pub session_id: Seq<char>,
    pub response_id: Seq<char>,
}

impl DeepView for TodoRow {
    type V = TodoModel;

    open spec fn deep_view(&self) -> TodoModel {
        TodoModel {
            key: self.key,
            session_id: self.session_id@,
            response_id: self.response_id@,
        }
    }
}

impl Copied for TodoRow {
    fn copied(&self) -> (out: Self) {
        TodoRow {
            key: self.key,
            session_id: self.session_id.clone(),
            response_id: self.response_id.clone(),
        }
    }
}

/// A message as the model sees it.
pub struct ChatContextMessage {
    pub role: String,
    pub content: String,
    pub tool_calls_json: Option<String>,
    pub tool_results_json: Option<String>,
    pub thinking: Option<String>,
    pub thinking_blocks_json: Option<String>,
}

/// The mathematical form of a context message.
pub struct ContextModel {
    pub role: Seq<char>,
    pub content: Seq<char>,
    pub tool_calls_json: Option<Seq<char>>,
    pub tool_results_json: Option<Seq<char>>,
    pub thinking: Option<Seq<char>>,
    pub thinking_blocks_json: Option<Seq<char>>,
}

impl DeepView for ChatContextMessage {
    type V = ContextModel;

    open spec fn deep_view(&self) -> ContextModel {
        ContextModel {
            role: self.role@,
            content: self.content@,
            tool_calls_json: self.tool_calls_json.deep_view(),
            tool_results_json: self.tool_results_json.deep_view(),
            thinking: self.thinking.deep_view(),
            thinking_blocks_json: self.thinking_blocks_json.deep_view(),
        }
    }
}

impl Copied for ChatContextMessage {
    fn copied(&self) -> (out: Self) {
        ChatContextMessage {
            role: self.role.clone(),
            content: self.content.clone(),
            tool_calls_json: copy_option(&self.tool_calls_json),
            tool_results_json: copy_option(&self.tool_results_json),
            thinking: copy_option(&self.thinking),
            thinking_blocks_json: copy_option(&self.thinking_blocks_json),
        }
    }
}

/// A conversation as it is listed.
pub struct ChatConversationRecord {
    pub conversation_id: String,
    pub title: String,
    pub summary: String,
    pub last_message_preview: String,
    pub message_count: i64,
    pub model: String,
    pub api_profile_name: String,
    pub status: String,
    pub directory_id: String,
    pub forked_from_conversation_id: String,
    pub fork_message_count: i64,
    pub created_at: String,
    pub updated_at: String,
    pub input_tokens: i64,
    pub output_tokens: i64,
    pub cache_creation_input_tokens: i64,
    pub cache_read_input_tokens: i64,
    pub conversation_type: String,
    pub parent_conversation_id: String,
    pub sub_agent_id: String,
    pub sub_agent_name: String,
    pub sub_agent_status: String,
    pub sub_agent_error: String,
    pub total_duration_ms: i64,
    pub emoji: String,
}

/// The mathematical form of a listed conversation.
pub struct ConversationRecordModel {
    pub conversation_id: Seq<char>,
    pub title: Seq<char>,
    pub summary: Seq<char>,
    pub last_message_preview: Seq<char>,
    pub message_count: i64,
    pub model: Seq<char>,
    pub api_profile_name: Seq<char>,
    pub status: Seq<char>,
    pub directory_id: Seq<char>,
    pub forked_from_conversation_id: Seq<char>,
    pub fork_message_count: i64,
    pub created_at: Seq<char>,
    pub updated_at: Seq<char>,
    pub input_tokens: i64,
    pub output_tokens: i64,
    pub cache_creation_input_tokens: i64,
    pub cache_read_input_tokens: i64,
    pub conversation_type: Seq<char>,
    pub parent_conversation_id: Seq<char>,
    pub sub_agent_id: Seq<char>,
    pub sub_agent_name: Seq<char>,
    pub sub_agent_status: Seq<char>,
    pub sub_agent_error: Seq<char>,
    pub total_duration_ms: i64,
    pub emoji: Seq<char>,
}

impl DeepView for ChatConversationRecord {
    type V = ConversationRecordModel;

    open spec fn deep_view(&self) -> ConversationRecordModel {
        ConversationRecordModel {
            conversation_id: self.conversation_id@,
            title: self.title@,
            summary: self.summary@,
            last_message_preview: self.last_message_preview@,
            message_count: self.message_count,
            model: self.model@,
            api_profile_name: self.api_profile_name@,
            status: self.status@,
            directory_id: self.directory_id@,
            forked_from_conversation_id: self.forked_from_conversation_id@,
            fork_message_count: self.fork_message_count,
            created_at: self.created_at@,
            updated_at: self.updated_at@,
            input_tokens: self.input_tokens,
            output_tokens: self.output_tokens,
            cache_creation_input_tokens: self.cache_creation_input_tokens,
            cache_read_input_tokens: self.cache_read_input_tokens,
            conversation_type: self.conversation_type@,
            parent_conversation_id: self.parent_conversation_id@,
            sub_agent_id: self.sub_agent_id@,
            sub_agent_name: self.sub_agent_name@,
            sub_agent_status: self.sub_agent_status@,
            sub_agent_error: self.sub_agent_error@,
            total_duration_ms: self.total_duration_ms,
            emoji: self.emoji@,
        }
    }
}

impl Copied for ChatConversationRecord {
    fn copied(&self) -> (out: Self) {
        ChatConversationRecord {
            conversation_id: self.conversation_id.clone(),
            title: self.title.clone(),
            summary: self.summary.clone(),
            last_message_preview: self.last_message_preview.clone(),
            message_count: self.message_count,
            model: self.model.clone(),
            api_profile_name: self.api_profile_name.clone(),
            status: self.status.clone(),
            directory_id: self.directory_id.clone(),
            forked_from_conversation_id: self.forked_from_conversation_id.clone(),
            fork_message_count: self.fork_message_count,
            created_at: self.created_at.clone(),
            updated_at: self.updated_at.clone(),
            input_tokens: self.input_tokens,
            output_tokens: self.output_tokens,
            cache_creation_input_tokens: self.cache_creation_input_tokens,
            cache_read_input_tokens: self.cache_read_input_tokens,
            conversation_type: self.conversation_type.clone(),
            parent_conversation_id: self.parent_conversation_id.clone(),
            sub_agent_id: self.sub_agent_id.clone(),
            sub_agent_name: self.sub_agent_name.clone(),
            sub_agent_status: self.sub_agent_status.clone(),
            sub_agent_error: self.sub_agent_error.clone(),
            total_duration_ms: self.total_duration_ms,
            emoji: self.emoji.clone(),
        }
    }
}

/// A message as it is listed.
pub struct ChatMessageRecord {
    pub id: String,
    pub role: String,
    pub content: String,
    pub thinking: String,
    pub status: String,
    pub model: String,
    pub response_id: String,
    pub checkpoint_id: String,
    pub tool_calls_json: String,
    pub interruption_reason: Option<String>,
    pub recovery_outcome: Option<String>,
    pub created_at: String,
}

/// The mathematical form of a listed message.
pub struct MessageRecordModel {
    pub id: Seq<char>,
    pub role: Seq<char>,
    pub content: Seq<char>,
    pub thinking: Seq<char>,
    pub status: Seq<char>,
    pub model: Seq<char>,
    pub response_id: Seq<char>,
    pub checkpoint_id: Seq<char>,
    pub tool_calls_json: Seq<char>,
    pub interruption_reason: Option<Seq<char>>,
    pub recovery_outcome: Option<Seq<char>>,
    pub created_at: Seq<char>,
}

impl DeepView for ChatMessageRecord {
    type V = MessageRecordModel;

    open spec fn deep_view(&self) -> MessageRecordModel {
        MessageRecordModel {
            id: self.id@,
            role: self.role@,
            content: self.content@,
            thinking: self.thinking@,
            status: self.status@,
            model: self.model@,
            response_id: self.response_id@,
            checkpoint_id: self.checkpoint_id@,
            tool_calls_json: self.tool_calls_json@,
            interruption_reason: self.interruption_reason.deep_view(),
            recovery_outcome: self.recovery_outcome.deep_view(),
            created_at: self.created_at@,
        }
    }
}

impl Copied for ChatMessageRecord {
    fn copied(&self) -> (out: Self) {
        ChatMessageRecord {
            id: self.id.clone(),
            role: self.role.clone(),
            content: self.content.clone(),
            thinking: self.thinking.clone(),
            status: self.status.clone(),
            model: self.model.clone(),
            response_id: self.response_id.clone(),
            checkpoint_id: self.checkpoint_id.clone(),
            tool_calls_json: self.tool_calls_json.clone(),
            interruption_reason: copy_option(&self.interruption_reason),
            recovery_outcome: copy_option(&self.recovery_outcome),
            created_at: self.created_at.clone(),
        }
    }
}

/// A message of the user in short.
pub struct UserMessageSummary {
    pub id: String,
    pub content: String,
    pub created_at: String,
}

/// The mathematical form of a message in short.
pub struct UserMessageModel {
    pub id: Seq<char>,
    pub content: Seq<char>,
    pub created_at: Seq<char>,
}

impl DeepView for UserMessageSummary {
    type V = UserMessageModel;

    open spec fn deep_view(&self) -> UserMessageModel {
        UserMessageModel {
            id: self.id@,
            content: self.content@,
            created_at: self.created_at@,
        }
    }
}

impl Copied for UserMessageSummary {
    fn copied(&self) -> (out: Self) {
        UserMessageSummary {
            id: self.id.clone(),
            content: self.content.clone(),
            created_at: self.created_at.clone(),
        }
    }
}

/// A conversation that a search found.
pub struct ConversationSearchResult {
    pub conversation_id: String,
    pub title: String,
    pub summary: String,
    pub last_message_preview: String,
    pub message_count: i64,
    pub model: String,
    pub status: String,
    pub directory_id: String,
    pub forked_from_conversation_id: String,
    pub fork_message_count: i64,
    pub created_at: String,
    pub updated_at: String,
    pub input_tokens: i64,
    pub output_tokens: i64,
    pub cache_creation_input_tokens: i64,
    pub cache_read_input_tokens: i64,
    pub matched_content: String,
}

/// The mathematical form of a search result.
pub struct SearchResultModel {
    pub conversation_id: Seq<char>,
    pub title: Seq<char>,
    pub summary: Seq<char>,
    pub last_message_preview: Seq<char>,
    pub message_count: i64,
    pub model: Seq<char>,
    pub status: Seq<char>,
    pub directory_id: Seq<char>,
    pub forked_from_conversation_id: Seq<char>,
    pub fork_message_count: i64,
    pub created_at: Seq<char>,
    pub updated_at: Seq<char>,
    pub input_tokens: i64,
    pub output_tokens: i64,
    pub cache_creation_input_tokens: i64,
    pub cache_read_input_tokens: i64,
    pub matched_content: Seq<char>,
}

impl DeepView for ConversationSearchResult {
    type V = SearchResultModel;

    open spec fn deep_view(&self) -> SearchResultModel {
        SearchResultModel {
            conversation_id: self.conversation_id@,
            title: self.title@,
            summary: self.summary@,
            last_message_preview: self.last_message_preview@,
            message_count: self.message_count,
            model: self.model@,
            status: self.status@,
            directory_id: self.directory_id@,
            forked_from_conversation_id: self.forked_from_conversation_id@,
            fork_message_count: self.fork_message_count,
            created_at: self.created_at@,
            updated_at: self.updated_at@,
            input_tokens: self.input_tokens,
            output_tokens: self.output_tokens,
            cache_creation_input_tokens: self.cache_creation_input_tokens,
            cache_read_input_tokens: self.cache_read_input_tokens,
            matched_content: self.matched_content@,
        }
    }
}

impl Copied for ConversationSearchResult {
    fn copied(&self) -> (out: Self) {
        ConversationSearchResult {
            conversation_id: self.conversation_id.clone(),
            title: self.title.clone(),
            summary: self.summary.clone(),
            last_message_preview: self.last_message_preview.clone(),
            message_count: self.message_count,
            model: self.model.clone(),
            status: self.status.clone(),
            directory_id: self.directory_id.clone(),
            forked_from_conversation_id: self.forked_from_conversation_id.clone(),
            fork_message_count: self.fork_message_count,
            created_at: self.created_at.clone(),
            updated_at: self.updated_at.clone(),
            input_tokens: self.input_tokens,
            output_tokens: self.output_tokens,
            cache_creation_input_tokens: self.cache_creation_input_tokens,
            cache_read_input_tokens: self.cache_read_input_tokens,
            matched_content: self.matched_content.clone(),
        }
    }
}

} // verus!
