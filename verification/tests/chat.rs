use rusqlite::Connection;
use snow_storage::chat::exchange::{
    ChatTokenUsage, FailedRequest, FreshId, StoreChatExchangeInput, Surroundings,
};
use snow_storage::chat::remove::{ForkError, ForkSurroundings};
use snow_storage::chat::rows::{ChatContextMessage, ChatConversationRecord, ConversationRow, MessageRow, SubAgentRow, TodoRow};
use snow_storage::chat::settings::{ConversationModes, NewSession};
use snow_storage::chat::snippets;
use snow_storage::chat::store::ChatStore;

fn s(x: &str) -> String {
    x.to_string()
}

fn conversation(id: &str) -> ConversationRow {
    ConversationRow {
        id: format!("r-{id}"),
        conversation_id: s(id),
        title: s(""),
        summary: s(""),
        last_message_preview: s(""),
        message_count: 0,
        model: s(""),
        api_profile_name: s(""),
        last_response_id: s(""),
        status: s("active"),
        directory_id: s(""),
        forked_from_conversation_id: s(""),
        fork_message_count: 0,
        created_at: s(""),
        updated_at: s(""),
        input_tokens: 0,
        output_tokens: 0,
        cache_creation_input_tokens: 0,
        cache_read_input_tokens: 0,
        total_duration_ms: 0,
        emoji: None,
        plan_mode: None,
        goal_mode: None,
        goal_mode_token_budget: None,
    }
}

fn message(id: &str, conversation: &str, role: &str, content: &str) -> MessageRow {
    MessageRow {
        id: s(id),
        message_id: format!("m-{id}"),
        conversation_id: s(conversation),
        role: s(role),
        content: s(content),
        model: s(""),
        response_id: s(""),
        checkpoint_id: s(""),
        status: s("sent"),
        interruption_reason: None,
        recovery_outcome: None,
        raw_json: s("{}"),
        thinking: s(""),
        thinking_blocks_json: s("[]"),
        tool_calls_json: s("[]"),
        created_at: s(""),
    }
}

fn session(conversation: &str, parent: &str) -> SubAgentRow {
    SubAgentRow {
        id: format!("a-{conversation}"),
        conversation_id: s(conversation),
        parent_conversation_id: s(parent),
        agent_id: s("agent"),
        agent_name: s("Agent"),
        run_status: s("running"),
        error_message: s(""),
        created_at: s(""),
        updated_at: s(""),
    }
}

fn store(conversations: Vec<ConversationRow>, messages: Vec<MessageRow>) -> ChatStore {
    ChatStore { conversations, messages, sub_agents: vec![], todos: vec![] }
}

fn context(role: &str, content: &str) -> ChatContextMessage {
    ChatContextMessage {
        role: s(role),
        content: s(content),
        tool_calls_json: None,
        tool_results_json: None,
        thinking: None,
        thinking_blocks_json: None,
    }
}

fn exchange(conversation: &str, request: Vec<ChatContextMessage>, answer: &str) -> StoreChatExchangeInput {
    StoreChatExchangeInput {
        conversation_id: s(conversation),
        request_messages: request,
        response_content: s(answer),
        response_id: s("resp"),
        checkpoint_id: s("cp"),
        model: s("model"),
        api_profile_name: s("profile"),
        status: s("completed"),
        interruption_reason: None,
        recovery_outcome: None,
        raw_response_json: s("{}"),
        token_usage: ChatTokenUsage {
            input_tokens: 10,
            output_tokens: 20,
            cache_creation_input_tokens: 3,
            cache_read_input_tokens: 4,
        },
        response_thinking: s(""),
        response_thinking_blocks_json: s("[]"),
        tool_calls_json: s("[]"),
        directory_id: s("dir"),
        context_compaction: false,
        resume_after_compaction: false,
        total_duration_ms: 5,
    }
}

fn surroundings(first: u32, n: u32) -> Surroundings {
    Surroundings {
        conversation_row_id: s("c-row"),
        fresh: (0..n)
            .map(|i| FreshId { row_id: format!("{:04}", first + i), timestamp: (first + i) as i64 })
            .collect(),
        process: 255,
        now: s("2024-05-01 10:00:00"),
        blank: conversation("blank"),
    }
}

#[test]
fn an_exchange_makes_a_conversation() {
    let empty = store(vec![], vec![]);
    let input = exchange("c", vec![context("user", "  Hello \n there ")], "Hi!");
    let (after, ids) = empty.store_chat_exchange(&input, &surroundings(1, 2), &Some(s("  Hello \n there ")));
    assert_eq!(ids, vec![after.messages[0].id.clone()]);
    let c = after.find_conversation("c").unwrap();
    assert_eq!(c.title, "Hello there");
    assert_eq!(c.last_message_preview, "Hi!");
    assert_eq!(c.message_count, 2);
    assert_eq!((c.input_tokens, c.output_tokens), (10, 20));
    assert_eq!(c.api_profile_name, "profile");
    assert_eq!(c.last_response_id, "resp");
    assert_eq!(c.total_duration_ms, 5);
    assert_eq!(after.messages[0].checkpoint_id, "cp");
    assert_eq!(after.messages[1].role, "assistant");
    assert_eq!(after.messages[1].status, "completed");
    let loaded = after.load_context_messages("c");
    assert_eq!(loaded.len(), 2);
    assert_eq!(loaded[1].content, "Hi!");
}

#[test]
fn a_second_exchange_only_adds() {
    let empty = store(vec![], vec![]);
    let (one, _) = empty.store_chat_exchange(
        &exchange("c", vec![context("user", "a")], "b"),
        &surroundings(1, 2),
        &Some(s("a")),
    );
    let (two, _) = one.store_chat_exchange(
        &exchange("c", vec![context("tool", "t"), context("user", "d")], "e"),
        &surroundings(3, 3),
        &Some(s("d")),
    );
    assert_eq!(two.messages.len(), 5);
    assert_eq!(two.find_conversation("c").unwrap().title, "a");
    let contents: Vec<String> = two.load_context_messages("c").into_iter().map(|m| m.content).collect();
    assert_eq!(contents, vec![s("a"), s("b"), s("t"), s("d"), s("e")]);
}

#[test]
fn compaction_replaces_the_context() {
    let empty = store(vec![], vec![]);
    let (one, _) = empty.store_chat_exchange(
        &exchange("c", vec![context("user", "a")], "b"),
        &surroundings(1, 2),
        &Some(s("a")),
    );
    let mut input = exchange("c", vec![context("user", "compact")], "summary");
    input.context_compaction = true;
    let (two, ids) = one.store_chat_exchange(&input, &surroundings(3, 1), &Some(s("compact")));
    assert_eq!(ids.len(), 1);
    let loaded = two.load_context_messages("c");
    assert_eq!(loaded.len(), 1);
    assert_eq!((loaded[0].role.as_str(), loaded[0].content.as_str()), ("user", "summary"));
    let c = two.find_conversation("c").unwrap();
    assert_eq!((c.input_tokens, c.output_tokens), (20, 0));
    // An empty summary changes no message and no context.
    let mut input = exchange("c", vec![context("user", "compact")], " ");
    input.context_compaction = true;
    let (three, ids) = one.store_chat_exchange(&input, &surroundings(3, 0), &Some(s("compact")));
    assert!(ids.is_empty());
    assert_eq!(three.messages.len(), 2);
    assert_eq!(three.find_conversation("c").unwrap().input_tokens, 10);
}

fn failed_request(content: &str, error: &str) -> FailedRequest {
    FailedRequest {
        conversation_id: Some(s("c")),
        previous_response_id: None,
        request_messages: vec![context(" user ", content)],
        checkpoint_id: s("cp"),
        model: s("m"),
        api_profile_name: s("p"),
        directory_id: s("d"),
        resume_after_compaction: false,
        error_message: s(error),
    }
}

#[test]
fn a_failed_exchange_can_be_taken_back() {
    let start = store(vec![conversation("c")], vec![message("0001", "c", "user", "old")]);
    let (after, id, users) = start
        .store_failed_chat_exchange(&failed_request(" ask ", " "), &surroundings(10, 2), "new", &Some(s("ask")))
        .unwrap();
    assert_eq!(id, "c");
    assert_eq!(users.len(), 1);
    assert_eq!(after.messages.len(), 3);
    assert_eq!(after.messages[1].content, "ask");
    assert_eq!(after.messages[1].role, "user");
    assert_eq!(after.messages[2].content, "AI response failed, please try again later.");
    assert_eq!(after.messages[2].status, "error");
    let contents: Vec<String> = after.load_context_messages("c").into_iter().map(|m| m.content).collect();
    assert_eq!(contents, vec![s("old"), s("ask")]);
    let back = after.truncate_conversation_from_message("c", &users[0], "later");
    assert_eq!(back.messages.len(), 1);
    assert_eq!(back.messages[0].content, "old");
    let e = start
        .store_failed_chat_exchange(&failed_request("  ", "x"), &surroundings(10, 2), "new", &None)
        .err()
        .unwrap();
    assert_eq!(e.reason, "Chat message content is required");
}

#[test]
fn conversations_are_resolved_by_the_last_response() {
    let mut c = conversation("c");
    c.last_response_id = s("r9");
    let mut answer = message("0002", "c", "assistant", "x");
    answer.response_id = s("r1");
    let st = store(vec![c], vec![answer]);
    assert_eq!(st.resolve_conversation_id(&Some(s(" given ")), &None, "new"), "given");
    assert_eq!(st.resolve_conversation_id(&Some(s(" ")), &Some(s("r1")), "new"), "c");
    assert_eq!(st.resolve_conversation_id(&None, &Some(s("c")), "new"), "c");
    assert_eq!(st.resolve_conversation_id(&None, &Some(s("none")), "new"), "new");
    assert_eq!(st.resolve_conversation_id(&None, &None, "new"), "new");
    assert_eq!(st.find_conversation_id_by_response_id("r1").as_deref(), Some("c"));
    assert_eq!(st.find_conversation_id_by_response_id(""), None);
}

#[test]
fn titles_and_snippets_are_cut() {
    assert_eq!(snippets::create_snippet("  a \n b  ", 10), "a b");
    assert_eq!(snippets::create_snippet("abcdef", 3), "abc…");
    assert_eq!(snippets::create_snippet("abc", 3), "abc");
    assert_eq!(snippets::create_title(&None), "新对话");
    let long = "x".repeat(81);
    assert_eq!(snippets::create_title(&Some(long)), format!("{}…", "x".repeat(80)));
    assert_eq!(snippets::normalize_role(" system "), "system");
    assert_eq!(snippets::normalize_role("other"), "user");
    let messages = vec![context("assistant", "a"), context("user", " "), context("user", "u")];
    assert_eq!(snippets::find_title_source(&messages).unwrap().content, "u");
    let messages = vec![context("assistant", " "), context("tool", "t")];
    assert_eq!(snippets::find_title_source(&messages).unwrap().content, "t");
}

#[test]
fn search_snippets_show_the_match() {
    let content = format!("{} NEEDLE {}", "a".repeat(100), "b".repeat(100));
    let shown = snippets::create_search_snippet(&content, "needle");
    assert!(shown.starts_with('…') && shown.ends_with('…'));
    assert!(shown.contains("NEEDLE"));
    assert_eq!(snippets::create_search_snippet("short Text", "text"), "short Text");
}

#[test]
fn tool_results_are_found_in_a_message() {
    let read = |content: &str, tool: &str| snippets::extract_tool_result(content, tool);
    assert_eq!(read("[Tool: bash]\nline1\n\nline2", "bash").as_deref(), Some("line1\n\nline2"));
    let two = "[Tool: bash]\none\n\n[Tool: grep#7]\na\n\nb\n\n[Tool: bash#2]\nthree";
    assert_eq!(read(two, "bash").as_deref(), Some("three"));
    assert_eq!(read(two, "grep").as_deref(), Some("a\n\nb"));
    assert_eq!(read(two, "gre"), None);
    assert_eq!(read("before\n\n[Tool:x]\ny", "x").as_deref(), Some("y"));
    assert_eq!(read("[Tool: open", "open"), None);
    assert_eq!(read("[Tool result: read]\nfirst", "read"), None);
    assert_eq!(read("", "read"), None);
}

#[test]
fn the_latest_result_of_a_tool_is_found() {
    let st = store(
        vec![conversation("c")],
        vec![
            message("0001", "c", "tool", "[Tool: bash]\nok"),
            message("0002", "c", "tool", "[Tool: grep]\nfound bash"),
            message("0003", "c", "assistant", "[Tool: bash]\nno tool"),
            message("0004", "d", "tool", "[Tool: bash]\nelsewhere"),
        ],
    );
    assert_eq!(st.find_latest_tool_result("c", "bash").as_deref(), Some("ok"));
    assert_eq!(st.find_latest_tool_result("c", "grep").as_deref(), Some("found bash"));
    assert_eq!(st.find_latest_tool_result("c", "write"), None);
}

#[test]
fn snippets_stay_snippets() {
    let once = snippets::create_snippet("  a \n b\tc  d", 5);
    assert_eq!(once, "a b c…");
    assert_eq!(snippets::create_snippet(&once, 5), once);
    let once = snippets::create_snippet("ab cd", 3);
    assert_eq!(once, "ab …");
    assert_eq!(snippets::create_snippet(&once, 3), once);
}

#[test]
fn chat_ids_hold_time_and_process() {
    assert_eq!(snippets::chat_id_at("conv", 255, 16), "conv-255-16");
    assert_eq!(snippets::timestamp_of(Some(7), 9), 7);
    assert_eq!(snippets::timestamp_of(None, 9), 9000);
    assert_eq!(snippets::timestamp_of(None, i64::MAX), -1000);
    let id = snippets::create_chat_id("conv", 1);
    assert!(id.starts_with("conv-") && id.ends_with("-1"));
    assert!(id.len() > 12);
}

#[test]
fn deleting_takes_sub_agents_along() {
    let mut st = store(
        vec![conversation("p"), conversation("k"), conversation("o")],
        vec![message("1", "p", "user", "a"), message("2", "k", "user", "b"), message("3", "o", "user", "c")],
    );
    st.sub_agents = vec![session("k", "p")];
    st.todos = vec![
        TodoRow { key: 1, session_id: s("k"), response_id: s("") },
        TodoRow { key: 2, session_id: s("o"), response_id: s("") },
    ];
    let after = st.delete_conversation("p");
    assert_eq!(after.conversations.len(), 1);
    assert_eq!(after.messages.len(), 1);
    assert!(after.sub_agents.is_empty());
    assert_eq!(after.todos.len(), 1);
    let batch = st.delete_conversations(&vec![s("p"), s("o"), s("p")]);
    assert!(batch.conversations.is_empty() && batch.messages.is_empty() && batch.todos.is_empty());
    let none = st.delete_conversations(&vec![]);
    assert_eq!(none.conversations.len(), 3);
}

#[test]
fn truncation_takes_the_request_along() {
    let mut answer = message("0002", "c", "assistant", "b");
    answer.response_id = s("r1");
    let mut next = message("0004", "c", "assistant", "d");
    next.response_id = s("r2");
    let st = store(
        vec![conversation("c")],
        vec![message("0001", "c", "user", "a"), answer, message("0003", "c", "user", "c"), next],
    );
    let cut = st.truncate_conversation_from_response("c", "r2", "now");
    assert_eq!(cut.messages.len(), 2);
    let c = cut.find_conversation("c").unwrap();
    assert_eq!(c.message_count, 2);
    assert_eq!(c.updated_at, "now");
    let again = cut.truncate_conversation_from_response("c", "r2", "later");
    assert_eq!(again.find_conversation("c").unwrap().updated_at, "now");
    let all = st.truncate_conversation_from_message("c", "0001", "now");
    assert!(all.messages.is_empty());
    let same = st.truncate_conversation_from_message("c", "nope", "now");
    assert_eq!(same.messages.len(), 4);
}

#[test]
fn a_fork_copies_messages_up_to_a_response() {
    let mut answer = message("0002", "c", "assistant", "b");
    answer.response_id = s("r1");
    let mut source = conversation("c");
    source.title = s("T");
    let st = store(
        vec![source],
        vec![message("0001", "c", "user", "a"), answer, message("0003", "c", "user", "later")],
    );
    let around = |id: &str| ForkSurroundings {
        conversation_id: s(id),
        conversation_row_id: s("row"),
        fresh: (0..3).map(|i| FreshId { row_id: format!("1{i:03}"), timestamp: i }).collect(),
        process: 1,
        now: s("now"),
        blank: conversation("blank"),
        blank_message: message("", "", "", ""),
    };
    let forked = st.fork_conversation("c", "r1", &around("f")).ok().unwrap();
    assert_eq!(forked.messages.len(), 5);
    let f = forked.find_conversation("f").unwrap();
    assert_eq!(f.forked_from_conversation_id, "c");
    assert_eq!(f.fork_message_count, 2);
    let copied: Vec<String> = forked.conversation_messages("f").into_iter().map(|m| m.content).collect();
    assert_eq!(copied, vec![s("a"), s("b")]);
    assert!(matches!(st.fork_conversation("x", "r1", &around("f")), Err(ForkError::NoSource)));
    assert!(matches!(st.fork_conversation("c", "r1", &around("c")), Err(ForkError::Taken)));
    let empty = store(vec![conversation("c")], vec![]);
    assert!(matches!(empty.fork_conversation("c", "r1", &around("f")), Err(ForkError::NoMessages)));
}

#[test]
fn settings_read_back() {
    let st = store(vec![conversation("c")], vec![]);
    let modes = ConversationModes { plan_mode: Some(true), goal_mode: None, goal_mode_token_budget: Some(9) };
    let set = st.set_conversation_modes("c", modes, "row", &conversation("blank"));
    let got = set.get_conversation_modes("c");
    assert_eq!((got.plan_mode, got.goal_mode, got.goal_mode_token_budget), (Some(true), Some(false), Some(9)));
    let profiled = st.update_conversation_api_profile("c", "  fast ", "now");
    assert_eq!(profiled.get_conversation_api_profile("c"), Some(s("fast")));
    let named = st.rename_conversation("c", "Name", "now");
    assert_eq!(named.find_conversation("c").unwrap().title, "Name");
    let faced = st.update_conversation_emoji("c", "😀", "now");
    assert_eq!(faced.find_conversation("c").unwrap().emoji.as_deref(), Some("😀"));
    let pinned = st.update_conversation_status("c", " pin ", "now");
    assert_eq!(pinned.find_conversation("c").unwrap().status, "pin");
    let plain = pinned.update_conversation_status("c", "archived", "now");
    assert_eq!(plain.find_conversation("c").unwrap().status, "active");
    let told = st.update_conversation_summary("c", "S", "now");
    assert_eq!(told.find_conversation("c").unwrap().summary, "S");
}

#[test]
fn sub_agents_are_started_and_cancelled() {
    let st = store(vec![conversation("p")], vec![]);
    let new = NewSession {
        conversation_id: s("k"),
        parent_conversation_id: s("p"),
        agent_id: s("a"),
        agent_name: s("A"),
        directory_id: s("d"),
        api_profile_name: s(""),
        model: s("m"),
        title: s("t"),
        conversation_row_id: s("r1"),
        session_row_id: s("r2"),
        now: s("now"),
    };
    let with = st.create_sub_agent_session(&new, &conversation("blank")).unwrap();
    assert_eq!(with.sub_agents[0].run_status, "running");
    let listed = with.list_sub_agent_conversations("p");
    assert_eq!(listed.len(), 1);
    assert_eq!(listed[0].sub_agent_name, "A");
    assert!(with.list_chat_conversations("d").is_empty());
    let (cancelled, n) = with.cancel_running_sub_agent_sessions("later");
    assert_eq!(n, 1);
    assert_ne!(cancelled.sub_agents[0].run_status, "running");
    let (_, n) = cancelled.cancel_running_sub_agent_sessions("later");
    assert_eq!(n, 0);
    let by = with.list_sub_agent_conversations_by_parents(&vec![s("p")]);
    assert_eq!(by.len(), 1);
    assert_eq!(by[0].1.len(), 1);
}

// The same questions, asked of the database with the statements that the
// program sends it.

fn database(st: &ChatStore) -> Connection {
    let db = Connection::open_in_memory().unwrap();
    db.execute_batch(
        "CREATE TABLE chat_conversations (id TEXT PRIMARY KEY, conversation_id TEXT UNIQUE, title TEXT, summary TEXT, last_message_preview TEXT, status TEXT, directory_id TEXT, updated_at TEXT);
         CREATE TABLE chat_messages (id TEXT PRIMARY KEY, conversation_id TEXT, role TEXT, content TEXT, status TEXT, thinking TEXT, tool_calls_json TEXT, response_id TEXT, checkpoint_id TEXT);
         CREATE TABLE sub_agent_sessions (conversation_id TEXT, parent_conversation_id TEXT);
         CREATE TABLE todo_items (key INTEGER PRIMARY KEY, session_id TEXT);",
    )
    .unwrap();
    for c in &st.conversations {
        db.execute(
            "INSERT INTO chat_conversations VALUES (?1,?2,?3,?4,?5,?6,?7,?8)",
            (&c.id, &c.conversation_id, &c.title, &c.summary, &c.last_message_preview, &c.status, &c.directory_id, &c.updated_at),
        )
        .unwrap();
    }
    for m in &st.messages {
        db.execute(
            "INSERT INTO chat_messages VALUES (?1,?2,?3,?4,?5,?6,?7,?8,?9)",
            (&m.id, &m.conversation_id, &m.role, &m.content, &m.status, &m.thinking, &m.tool_calls_json, &m.response_id, &m.checkpoint_id),
        )
        .unwrap();
    }
    for a in &st.sub_agents {
        db.execute("INSERT INTO sub_agent_sessions VALUES (?1,?2)", (&a.conversation_id, &a.parent_conversation_id))
            .unwrap();
    }
    for t in &st.todos {
        db.execute("INSERT INTO todo_items VALUES (?1,?2)", (t.key, &t.session_id)).unwrap();
    }
    db
}

fn column(db: &Connection, sql: &str, args: &[&str]) -> Vec<String> {
    let mut st = db.prepare(sql).unwrap();
    let rows = st.query_map(rusqlite::params_from_iter(args.iter()), |r| r.get::<_, String>(0)).unwrap();
    rows.map(|r| r.unwrap()).collect()
}

struct Dice(u64);

impl Dice {
    fn roll(&mut self, n: u64) -> usize {
        self.0 = self.0.wrapping_mul(6364136223846793005).wrapping_add(1442695040888963407);
        ((self.0 >> 33) % n) as usize
    }
}

fn random_store(seed: u64) -> ChatStore {
    let mut d = Dice(seed);
    let words = ["", "hello", "50%", "a_b", "HELLO world", "x", "Ünï", "back\\slash", "a\nb"];
    let mut st = store(vec![], vec![]);
    for i in 0..5 {
        let mut c = conversation(&format!("c{i}"));
        c.title = s(words[d.roll(9)]);
        c.summary = s(words[d.roll(9)]);
        c.last_message_preview = s(words[d.roll(9)]);
        c.status = s(["active", "archived", "pinned"][d.roll(3)]);
        c.directory_id = s(["d1", "d2"][d.roll(2)]);
        c.updated_at = format!("2024-01-0{}", 1 + d.roll(3));
        st.conversations.push(c);
    }
    for i in 0..14 {
        let role = ["user", "assistant", "tool"][d.roll(3)];
        let mut m = message(&format!("{i:03}"), &format!("c{}", d.roll(5)), role, words[d.roll(9)]);
        m.status = s(["sent", "completed", "error", "context_compaction"][d.roll(4)]);
        m.thinking = s(["", "hm"][d.roll(2)]);
        m.tool_calls_json = s(["[]", "", "[1]"][d.roll(3)]);
        m.response_id = s(["", "r1", "r2"][d.roll(3)]);
        m.checkpoint_id = s(["", "k1", "k2"][d.roll(3)]);
        st.messages.push(m);
    }
    for _ in 0..d.roll(3) {
        let child = format!("c{}", d.roll(5));
        if !st.sub_agents.iter().any(|a| a.conversation_id == child) {
            st.sub_agents.push(session(&child, &format!("c{}", d.roll(5))));
        }
    }
    for k in 0..4 {
        st.todos.push(TodoRow { key: k, session_id: format!("c{}", d.roll(5)), response_id: s("") });
    }
    st
}

#[test]
fn context_is_what_the_database_selects() {
    let sql = "SELECT content FROM chat_messages
        WHERE conversation_id = ?1
          AND id >= COALESCE((SELECT id FROM chat_messages WHERE conversation_id = ?1
                AND status = 'context_compaction' ORDER BY id DESC LIMIT 1), '')
          AND (content <> '' OR (role = 'assistant' AND tool_calls_json <> '' AND tool_calls_json <> '[]')
               OR (role = 'assistant' AND thinking <> ''))
          AND NOT (role = 'assistant' AND status = 'error')
          AND NOT (role = 'user' AND EXISTS (
                SELECT 1 FROM chat_messages nxt
                 WHERE nxt.conversation_id = chat_messages.conversation_id
                   AND nxt.id > chat_messages.id
                   AND nxt.id = (SELECT MIN(id) FROM chat_messages
                        WHERE conversation_id = chat_messages.conversation_id AND id > chat_messages.id)
                   AND nxt.role = 'assistant' AND nxt.status = 'error'))
        ORDER BY id ASC";
    for seed in 0..60 {
        let st = random_store(seed);
        let db = database(&st);
        for i in 0..5 {
            let id = format!("c{i}");
            let ours: Vec<String> = st.load_context_messages(&id).into_iter().map(|m| m.content).collect();
            assert_eq!(ours, column(&db, sql, &[&id]), "seed {seed} {id}");
        }
    }
}

#[test]
fn search_finds_what_the_database_finds() {
    let sql = "SELECT conversation.conversation_id FROM chat_conversations AS conversation
        WHERE conversation.status = 'active'
          AND NOT EXISTS (SELECT 1 FROM sub_agent_sessions AS sub_agent
                WHERE sub_agent.conversation_id = conversation.conversation_id)
          AND (conversation.title LIKE ?1 ESCAPE '\\' OR conversation.summary LIKE ?1 ESCAPE '\\'
               OR conversation.last_message_preview LIKE ?1 ESCAPE '\\'
               OR EXISTS (SELECT 1 FROM chat_messages AS message
                    WHERE message.conversation_id = conversation.conversation_id
                      AND message.content LIKE ?1 ESCAPE '\\'))
        ORDER BY conversation.updated_at DESC, conversation.id DESC LIMIT 50";
    for seed in 0..40 {
        let st = random_store(seed);
        let db = database(&st);
        for query in ["", "hello", "%", "_", "0%", "Ü", "ü", "WORLD", "\\", "k\\s", "zzz"] {
            let pattern = format!("%{}%", query.replace('%', "\\%").replace('_', "\\_"));
            let ours: Vec<String> =
                st.search_chat_conversations(query).into_iter().map(|c| c.conversation_id).collect();
            assert_eq!(ours, column(&db, sql, &[&pattern]), "seed {seed} {query}");
        }
    }
}

#[test]
fn like_is_that_of_the_database() {
    let db = Connection::open_in_memory().unwrap();
    let texts = ["", "a", "A", "ab", "a%b", "a_b", "aXXb", "ß", "İ", "back\\slash", "x\ny", "50% off", "zero\0tail"];
    let patterns = ["%", "", "a", "A%", "%b", "a_b", "a\\_b", "a\\%b", "%\\\\%", "_", "%%", "ß", "%\n%", "\\", "50\\% %", "zero"];
    for t in texts {
        for p in patterns {
            let chars: Vec<char> = p.chars().collect();
            let theirs: bool =
                db.query_row("SELECT ?1 LIKE ?2 ESCAPE '\\'", (&t, &p), |r| r.get(0)).unwrap();
            assert_eq!(snippets::is_like(t, &chars, Some('\\')), theirs, "{t:?} {p:?}");
            let plain: bool = db.query_row("SELECT ?1 LIKE ?2", (&t, &p), |r| r.get(0)).unwrap();
            assert_eq!(snippets::is_like(t, &chars, None), plain, "{t:?} {p:?}");
        }
    }
}

#[test]
fn pages_of_messages_are_those_of_the_database() {
    let sql = "SELECT id FROM chat_messages WHERE conversation_id = ?1 AND (?2 = '' OR id < ?2) ORDER BY id DESC LIMIT ?3";
    for seed in 0..30 {
        let st = random_store(seed);
        let db = database(&st);
        for (before, limit) in [("", 2), ("005", 1), ("005", 0), ("", 100), ("x", 3)] {
            let page = st.list_chat_messages_paginated("c1", before, limit);
            let safe = if limit > 0 { limit } else { 10 };
            let mut theirs = column(&db, sql, &["c1", before, &(safe + 1).to_string()]);
            let more = theirs.len() > safe as usize;
            theirs.truncate(safe as usize);
            theirs.reverse();
            let ours: Vec<String> = page.items.iter().map(|m| m.id.clone()).collect();
            assert_eq!(ours, theirs);
            assert_eq!(page.has_more, more);
            let count = column(&db, "SELECT CAST(COUNT(*) AS TEXT) FROM chat_messages WHERE conversation_id = ?1", &["c1"]);
            assert_eq!(page.total.to_string(), count[0]);
        }
    }
}

#[test]
fn pages_of_conversations_are_those_of_the_database() {
    let sql = "SELECT conversation_id FROM chat_conversations AS conversation
        WHERE directory_id = ?1 AND status = 'active'
          AND NOT EXISTS (SELECT 1 FROM sub_agent_sessions AS sub_agent
                WHERE sub_agent.conversation_id = conversation.conversation_id)
        ORDER BY updated_at DESC, id DESC LIMIT ?2 OFFSET ?3";
    for seed in 0..40 {
        let st = random_store(seed);
        let db = database(&st);
        for (limit, offset) in [(2, 0), (1, 1), (0, 0), (5, -3), (3, 2)] {
            let safe = if limit > 0 { limit } else { 20 };
            let from = if offset > 0 { offset } else { 0 };
            let theirs = column(&db, sql, &["d1", &safe.to_string(), &from.to_string()]);
            let page = st.list_chat_conversations_paginated("d1", limit, offset);
            let ours: Vec<String> = page.items.iter().map(|c| c.conversation_id.clone()).collect();
            assert_eq!(ours, theirs, "seed {seed}");
        }
    }
}

#[test]
fn deleting_leaves_what_the_database_leaves() {
    for seed in 0..40 {
        let st = random_store(seed);
        let db = database(&st);
        let after = st.delete_conversation("c2");
        let mut targets = vec![s("c2")];
        targets.extend(column(&db, "SELECT conversation_id FROM sub_agent_sessions WHERE parent_conversation_id = ?1", &["c2"]));
        for t in &targets {
            db.execute("DELETE FROM chat_messages WHERE conversation_id = ?1", (&t,)).unwrap();
            db.execute("DELETE FROM todo_items WHERE session_id = ?1", (&t,)).unwrap();
        }
        db.execute("DELETE FROM sub_agent_sessions WHERE parent_conversation_id = ?1 OR conversation_id = ?1", ("c2",))
            .unwrap();
        for t in targets.iter().rev() {
            db.execute("DELETE FROM chat_conversations WHERE conversation_id = ?1", (&t,)).unwrap();
        }
        let ours: Vec<String> = after.messages.iter().map(|m| m.id.clone()).collect();
        assert_eq!(ours, column(&db, "SELECT id FROM chat_messages ORDER BY id", &[]));
        let ours: Vec<String> = after.conversations.iter().map(|c| c.conversation_id.clone()).collect();
        assert_eq!(ours, column(&db, "SELECT conversation_id FROM chat_conversations ORDER BY conversation_id", &[]));
        let ours: Vec<String> = after.todos.iter().map(|t| t.key.to_string()).collect();
        assert_eq!(ours, column(&db, "SELECT CAST(key AS TEXT) FROM todo_items ORDER BY key", &[]));
        assert_eq!(
            after.sub_agents.len().to_string(),
            column(&db, "SELECT CAST(COUNT(*) AS TEXT) FROM sub_agent_sessions", &[])[0]
        );
    }
}

#[test]
fn results_of_tools_are_added() {
    let st = store(vec![conversation("c")], vec![message("1", "c", "user", "q")]);
    let fresh = FreshId { row_id: s("2"), timestamp: 7 };
    let same = st.append_tool_message("c", " \n", &fresh, 9, "now");
    assert_eq!(same.messages.len(), 1);
    let st = st.append_tool_message("c", " [Tool: t]\nr ", &fresh, 9, "now");
    let m = &st.messages[1];
    assert_eq!((m.id.as_str(), m.message_id.as_str()), ("2", "msg0-7-9"));
    assert_eq!((m.role.as_str(), m.content.as_str(), m.status.as_str()), ("tool", "[Tool: t]\nr", "sent"));
    assert_eq!(st.conversations[0].message_count, 2);
    assert_eq!(st.conversations[0].updated_at, "now");
    assert_eq!(st.find_latest_tool_result("c", "t").as_deref(), Some("r"));
}

#[test]
fn messages_are_listed_in_order() {
    let mut boundary = message("3", "c", "user", "handoff");
    boundary.status = s("context_compaction");
    let st = store(
        vec![conversation("c")],
        vec![message("2", "c", "assistant", "a"), message("1", "c", "user", "q"), boundary, message("0", "d", "user", "x")],
    );
    let ids: Vec<String> = st.list_chat_messages("c").into_iter().map(|m| m.id).collect();
    assert_eq!(ids, vec!["1", "2", "3"]);
    let users: Vec<String> = st.list_user_messages("c").into_iter().map(|m| m.content).collect();
    assert_eq!(users, vec!["q"]);
}

#[test]
fn conversations_are_listed_by_status_and_identifier() {
    let mut pinned = conversation("p");
    pinned.status = s("pin");
    let mut st = store(vec![conversation("a"), pinned, conversation("b"), conversation("sub")], vec![]);
    st.sub_agents.push(session("sub", "a"));
    let ids = |records: Vec<snow_storage::chat::rows::ChatConversationRecord>| {
        records.into_iter().map(|r| r.conversation_id).collect::<Vec<_>>()
    };
    assert_eq!(ids(st.list_chat_conversations("")), vec!["b", "a"]);
    assert_eq!(ids(st.list_pinned_conversations("")), vec!["p"]);
    assert_eq!(ids(st.list_chat_conversations_by_ids(&vec![s("a"), s("p"), s("sub"), s("x")])), vec!["a"]);
    let sub = st.get_chat_conversation("sub").unwrap();
    assert_eq!(sub.parent_conversation_id, "a");
    assert_eq!(sub.sub_agent_status, "running");
    assert!(st.get_chat_conversation("x").is_none());
    let st = st.update_sub_agent_session_status("sub", " failed ", " why ", "now");
    assert_eq!(st.sub_agents[0].run_status, "failed");
    assert_eq!(st.sub_agents[0].error_message, "why");
    let st = st.update_sub_agent_session_status("sub", "odd", "", "now");
    assert_eq!(st.sub_agents[0].run_status, "running");
}

#[test]
fn pages_join_to_the_whole() {
    let st = store(
        (0..7).map(|i| conversation(&format!("c{i}"))).collect(),
        (0..7).map(|i| message(&format!("{i}"), "c0", "user", "q")).collect(),
    );
    let whole: Vec<String> = st.list_chat_conversations("").into_iter().map(|c| c.conversation_id).collect();
    let mut read = vec![];
    for offset in [0, 3, 6] {
        let page = st.list_chat_conversations_paginated("", 3, offset);
        assert_eq!(page.total, 7);
        read.extend(page.items.into_iter().map(|c| c.conversation_id));
    }
    assert_eq!(read, whole);
    let mut before = s("");
    let mut read: Vec<String> = vec![];
    loop {
        let page = st.list_chat_messages_paginated("c0", &before, 3);
        let ids: Vec<String> = page.items.into_iter().map(|m| m.id).collect();
        before = ids[0].clone();
        read = ids.into_iter().chain(read).collect();
        if !page.has_more {
            break;
        }
    }
    assert_eq!(read, vec!["0", "1", "2", "3", "4", "5", "6"]);
}

#[test]
fn an_exchange_is_taken_back_by_its_response() {
    let empty = store(vec![], vec![message("0000", "other", "user", "stays")]);
    let mut first = exchange("c", vec![context("user", "a")], "b");
    first.response_id = s("r1");
    let (one, _) = empty.store_chat_exchange(&first, &surroundings(1, 2), &Some(s("a")));
    let mut second = exchange("c", vec![context("user", "d")], "e");
    second.response_id = s("r2");
    let (two, _) = one.store_chat_exchange(&second, &surroundings(3, 2), &Some(s("d")));
    assert_eq!(two.messages.len(), 5);
    let back = two.truncate_conversation_from_response("c", "r2", "now");
    let ids = |st: &ChatStore| -> Vec<String> { st.messages.iter().map(|m| m.id.clone()).collect() };
    assert_eq!(ids(&back), ids(&one));
}

#[test]
fn lists_by_parents_are_those_of_each_parent() {
    let mut st = store(["p", "q", "k1", "k2", "k3"].iter().map(|c| conversation(c)).collect(), vec![]);
    st.sub_agents = vec![session("k1", "p"), session("k2", "q"), session("k3", "p"), session("gone", "p")];
    let parents = vec![s("q"), s("none"), s("p"), s("q")];
    let by = st.list_sub_agent_conversations_by_parents(&parents);
    assert_eq!(by.len(), 2);
    for (parent, records) in by {
        let alone = st.list_sub_agent_conversations(&parent);
        let ids = |r: &Vec<ChatConversationRecord>| -> Vec<String> {
            r.iter().map(|c| c.conversation_id.clone()).collect()
        };
        assert!(!alone.is_empty());
        assert_eq!(ids(&records), ids(&alone));
    }
    assert!(st.list_sub_agent_conversations("none").is_empty());
}
