use rusqlite::types::Value;
use rusqlite::{params_from_iter, Connection};
use snow_storage::config;
use snow_storage::config::backup;
use snow_storage::config::backup::BackupStep;
use snow_storage::config::export;
use snow_storage::config::export::ConfigBundle;
use snow_storage::config::import;
use snow_storage::config::job::{
    delete_missing_rows, delete_missing_settings, ConfigImport, ImportAction, ImportEvent, Place,
};
use snow_storage::config::json;
use snow_storage::config::json::Json;
use snow_storage::config::redact;
use snow_storage::config::sql;
use snow_storage::config::sql::SqlValue;
use snow_storage::error::ErrorStatus;

const MARK: &str = "__SNOWAPP_REDACTED__";

fn names(list: &[&str]) -> Vec<String> {
    list.iter().map(|s| s.to_string()).collect()
}

fn text(s: &str) -> Json {
    Json::Str(s.to_string())
}

fn object(fields: Vec<(&str, Json)>) -> Json {
    let mut out: Vec<(String, Json)> = Vec::new();
    for (k, v) in fields {
        json::set(&mut out, k.to_string(), v);
    }
    Json::Object(out)
}

fn show(v: &Json) -> String {
    match v {
        Json::Null => "null".to_string(),
        Json::Bool(b) => b.to_string(),
        Json::Int(n) => n.to_string(),
        Json::UInt(n) => n.to_string(),
        Json::Float(s) => s.clone(),
        Json::Str(s) => format!("'{s}'"),
        Json::Array(items) => {
            format!("[{}]", items.iter().map(show).collect::<Vec<_>>().join(","))
        }
        Json::Object(fields) => format!(
            "{{{}}}",
            fields.iter().map(|(k, v)| format!("{k}:{}", show(v))).collect::<Vec<_>>().join(",")
        ),
    }
}

#[test]
fn sections_are_read_and_checked() {
    assert_eq!(
        config::parse_sections("[\"theme\",\"mcp\",\"theme\"]").unwrap(),
        names(&["mcp", "theme"])
    );
    let e = config::parse_sections("[]").unwrap_err();
    assert_eq!(e.status, ErrorStatus::InvalidArg);
    assert_eq!(e.reason, "At least one data-management section is required");
    let e = config::parse_sections("[\"nope\"]").unwrap_err();
    assert_eq!(e.reason, "Unknown data-management section: nope");
    let e = config::parse_sections("{").unwrap_err();
    assert!(e.reason.starts_with("Invalid data-management sections: "));
    let e = config::check_sections(Err("bad".to_string())).unwrap_err();
    assert_eq!(e.reason, "Invalid data-management sections: bad");
}

#[test]
fn settings_belong_to_sections() {
    for (code, section) in [
        ("theme_settings", "theme"),
        ("keyboard_shortcuts", "keyboard-shortcuts"),
        ("hooks_global", "hooks"),
        ("hooks_project_1", "hooks"),
        ("mcp_global_scope", "mcp"),
        ("project_mcp_x", "mcp"),
        ("project_skills_scope_1", "skills"),
        ("codebase_settings", "model-settings"),
        ("privacy_settings", "model-settings"),
        ("anything", "system-settings"),
    ] {
        assert_eq!(config::setting_section(code), section);
    }
}

#[test]
fn tables_follow_the_sections() {
    assert_eq!(config::table_names(&names(&["theme"])), names(&["system_settings"]));
    assert_eq!(
        config::table_names(&names(&["api-config", "plugins"])),
        names(&[
            "api_configs",
            "system_settings",
            "custom_header_schemes",
            "plugins",
            "plugin_marketplaces",
            "plugin_components"
        ])
    );
    assert!(!config::table_allowed("chat_messages", &names(&["theme"])));
    assert!(config::is_sensitive_column("vision_api_key"));
    assert!(config::is_device_only_column("origin_path"));
    assert!(!config::is_device_only_column("paths"));
}

#[test]
fn secrets_and_device_values_are_hidden() {
    for key in ["openai_API_KEY", "accessToken", "Password2", "my_secret", "Authorization", "cookies", "ENV", "headers"] {
        assert!(redact::key_is_secret(key), "{key}");
    }
    for key in ["tokens", "environment", "header", "name"] {
        assert!(!redact::key_is_secret(key), "{key}");
    }
    for key in ["path", "cachePath", "workspace_id", "sshHost", "credential"] {
        assert!(redact::key_is_device_only(key), "{key}");
    }
    let value = object(vec![
        ("name", text("x")),
        ("api_key", text("k")),
        ("nested", Json::Array(vec![object(vec![("token", text("t")), ("path", text("/p"))])])),
    ]);
    assert_eq!(
        show(&redact::sanitize_json(&value, &None, false)),
        format!("{{api_key:'{MARK}',name:'x',nested:[{{path:'{MARK}',token:'{MARK}'}}]}}")
    );
    assert_eq!(
        show(&redact::sanitize_json(&value, &None, true)),
        format!("{{api_key:'k',name:'x',nested:[{{path:'{MARK}',token:'t'}}]}}")
    );
}

#[test]
fn sanitizing_twice_changes_nothing_more() {
    let value = object(vec![("secret", Json::Int(1)), ("a", object(vec![("env", Json::Null)]))]);
    let once = redact::sanitize_json(&value, &None, false);
    let twice = redact::sanitize_json(&once, &None, false);
    assert_eq!(show(&once), show(&twice));
}

#[test]
fn hidden_values_come_back_from_what_is_there() {
    let existing = object(vec![
        ("keep", Json::Int(1)),
        ("secret", text("s")),
        ("deep", object(vec![("token", text("t")), ("n", Json::Int(1))])),
    ]);
    let incoming = object(vec![
        ("secret", text(MARK)),
        ("deep", object(vec![("token", text(MARK)), ("n", Json::Int(2))])),
        ("new", Json::Bool(true)),
    ]);
    assert_eq!(
        show(&redact::merge_redacted(&existing, &incoming)),
        "{deep:{n:2,token:'t'},keep:1,new:true,secret:'s'}"
    );
    assert!(redact::contains_redacted(&incoming));
    assert!(!redact::contains_redacted(&existing));
    assert_eq!(show(&redact::merge_redacted(&Json::Int(3), &text(MARK))), "3");
    assert_eq!(show(&redact::merge_redacted(&Json::Int(3), &Json::Null)), "null");
}

#[test]
fn a_hidden_key_that_is_not_there_stays_out() {
    let merged = redact::merge_redacted(&object(vec![]), &object(vec![("secret", text(MARK))]));
    assert_eq!(show(&merged), "{}");
}

#[test]
fn database_values_have_a_json_form() {
    assert_eq!(show(&sql::sql_value_to_json(&SqlValue::Null)), "null");
    assert_eq!(show(&sql::sql_value_to_json(&SqlValue::Integer(-4))), "-4");
    assert_eq!(show(&sql::sql_value_to_json(&SqlValue::Blob(vec![0, 255, 16]))), "'base64:AP8Q'");
    assert_eq!(show(&sql::sql_value_to_json(&SqlValue::Real(None))), "null");
    match sql::json_to_sql_value(&text("base64:AP8Q")) {
        Ok(SqlValue::Blob(b)) => assert_eq!(b, vec![0, 255, 16]),
        _ => panic!("a blob"),
    }
    match sql::json_to_sql_value(&text("base64:base64:AP8Q")) {
        Ok(SqlValue::Blob(b)) => assert_eq!(b, vec![0, 255, 16]),
        _ => panic!("a blob"),
    }
    let e = sql::json_to_sql_value(&text("base64:?")).err().unwrap();
    assert!(e.reason.starts_with("Invalid configuration blob: "));
    match sql::json_to_sql_value(&Json::Bool(true)) {
        Ok(SqlValue::Integer(n)) => assert_eq!(n, 1),
        _ => panic!("a number"),
    }
    let e = sql::json_to_sql_value(&Json::Array(vec![])).err().unwrap();
    assert_eq!(e.reason, "Configuration import values must be scalar");
}

#[test]
fn exported_values_are_imported_again() {
    let again = |column: &str, value: SqlValue, secrets: bool| {
        import::reimport_value("plugins", column, &value, "", secrets, &None).ok().unwrap()
    };
    match again("icon", SqlValue::Blob(vec![1, 2, 3, 4]), false) {
        Some(SqlValue::Blob(b)) => assert_eq!(b, vec![1, 2, 3, 4]),
        _ => panic!("the blob again"),
    }
    match again("name", SqlValue::Text("a".to_string()), false) {
        Some(SqlValue::Text(t)) => assert_eq!(t, "a"),
        _ => panic!("the text again"),
    }
    assert!(again("source_path", SqlValue::Text("/home".to_string()), true).is_none());
    assert!(again("api_key", SqlValue::Text("k".to_string()), false).is_none());
    match again("api_key", SqlValue::Text("k".to_string()), true) {
        Some(SqlValue::Text(t)) => assert_eq!(t, "k"),
        _ => panic!("the secret again"),
    }
}

#[test]
fn the_marker_is_not_imported() {
    let empty = import::take_marker("system_settings", "setting_value", &None).ok().unwrap();
    match empty {
        Some(Json::Str(s)) => assert_eq!(s, ""),
        _ => panic!("the empty text"),
    }
    assert!(import::take_marker("api_configs", "api_key", &None).ok().unwrap().is_none());
    let current = Some(vec![("setting_value".to_string(), text("{}"))]);
    assert!(import::take_marker("system_settings", "setting_value", &current).ok().unwrap().is_none());
}

#[test]
fn exported_rows_are_cleaned() {
    let row = vec![
        ("id".to_string(), SqlValue::Integer(7)),
        ("api_key".to_string(), SqlValue::Text("k".to_string())),
        ("source_path".to_string(), SqlValue::Text("/home".to_string())),
        ("config_json".to_string(), SqlValue::Text("{\"token\":\"t\",\"b\":[1,2.5]}".to_string())),
        ("other_json".to_string(), SqlValue::Text("not json".to_string())),
    ];
    let shown = export::export_row("api_configs", &names(&["api-config"]), false, &row).unwrap();
    assert_eq!(
        show(&shown),
        format!("{{config_json:'{{\"b\":[1,2.5],\"token\":\"{MARK}\"}}',id:7,other_json:'not json'}}")
    );
    let shown = export::export_row("api_configs", &names(&["api-config"]), true, &row).unwrap();
    assert_eq!(
        show(&shown),
        "{api_key:'k',config_json:'{\"b\":[1,2.5],\"token\":\"t\"}',id:7,other_json:'not json'}"
    );
}

#[test]
fn settings_of_other_sections_are_not_exported() {
    let row = |code: &str, value: &str| {
        vec![
            ("setting_code".to_string(), SqlValue::Text(code.to_string())),
            ("setting_value".to_string(), SqlValue::Text(value.to_string())),
        ]
    };
    let rows = vec![
        row("theme_settings", "{\"a\":1}"),
        row("keyboard_shortcuts", "{}"),
        row("upload_dir", "/x"),
    ];
    let out = export::read_table_rows("system_settings", &names(&["theme"]), false, &rows).unwrap();
    assert_eq!(out.len(), 1);
    assert_eq!(show(&out[0]), "{setting_code:'theme_settings',setting_value:'{\"a\":1}'}");
    let out =
        export::read_table_rows("system_settings", &names(&["system-settings"]), true, &rows).unwrap();
    assert_eq!(show(&out[0]), format!("{{setting_code:'upload_dir',setting_value:'{MARK}'}}"));
}

#[test]
fn bundles_are_checked() {
    let bundle = |version: i64, sections: &[&str]| ConfigBundle {
        format_version: version,
        schema_version: 1,
        sections: names(sections),
        contains_secrets: false,
        tables: vec![],
    };
    assert!(import::check_bundle(&bundle(1, &["theme", "mcp"]), &names(&["mcp"])).is_ok());
    let e = import::check_bundle(&bundle(2, &[]), &names(&["mcp"])).unwrap_err();
    assert_eq!(e.reason, "Unsupported configuration format version: 2");
    let e = import::check_bundle(&bundle(1, &["odd"]), &names(&["mcp"])).unwrap_err();
    assert_eq!(e.reason, "Unknown configuration section: odd");
    let e = import::check_bundle(&bundle(1, &["theme"]), &names(&["mcp"])).unwrap_err();
    assert_eq!(e.reason, "Configuration package does not contain selected section: mcp");
    let e = import::check_schema(5, 4).unwrap_err();
    assert_eq!(e.reason, "Configuration package schema 5 is newer than supported schema 4");
    assert!(import::check_schema(4, 4).is_ok());
    assert!(import::check_import_size("{}").is_ok());
    let large = "x".repeat(32 * 1024 * 1024 + 1);
    let e = import::check_import_size(&large).unwrap_err();
    assert_eq!(e.reason, "Configuration package is too large");
    let prompt = vec![vec![("content".to_string(), SqlValue::Text(large))]];
    let e = export::export_config_data(1, names(&["prompts"]), true, &vec![vec![], prompt]).unwrap_err();
    assert_eq!(e.reason, "Configuration export exceeds the size limit");
}

#[test]
fn tables_need_a_primary_key() {
    let (columns, primary) = import::table_columns(
        "plugins",
        &vec![("a".to_string(), 0), ("b".to_string(), 1), ("c".to_string(), 2)],
    )
    .unwrap();
    assert_eq!(columns, names(&["a", "b", "c"]));
    assert_eq!(primary, "b");
    let e = import::table_columns("plugins", &vec![("a".to_string(), 0)]).unwrap_err();
    assert_eq!(e.reason, "Configuration table plugins has no usable primary key");
    let e = import::table_columns("other", &vec![("a".to_string(), 1)]).unwrap_err();
    assert_eq!(e.reason, "Configuration table is not allowed: other");
    assert_eq!(import::conflict_column("api_configs", "id"), "profile_name");
    assert_eq!(import::conflict_column("plugins", "id"), "id");
}

#[test]
fn marker_never_reaches_the_database() {
    let columns = names(&["setting_code", "setting_value", "note"]);
    let fields = match object(vec![
        ("setting_code", text("a_dir")),
        ("setting_value", text(MARK)),
        ("note", text(MARK)),
    ]) {
        Json::Object(f) => f,
        _ => unreachable!(),
    };
    let given = import::collect_values("system_settings", &fields, &columns, &None).unwrap();
    assert_eq!(given.len(), 2);
    match &given[1].1 {
        SqlValue::Text(s) => assert_eq!(s, ""),
        _ => panic!("a text"),
    }
}

#[test]
fn removing_rows_keeps_those_of_the_package() {
    let rows = vec![object(vec![("id", Json::Int(1))]), object(vec![("id", text("b"))])];
    let s = delete_missing_rows("plugins", &rows, "id").unwrap();
    assert_eq!(s.sql, "DELETE FROM \"plugins\" WHERE \"id\" NOT IN (?, ?)");
    assert_eq!(s.params.len(), 2);
    let s = delete_missing_rows("plugins", &vec![], "id").unwrap();
    assert_eq!(s.sql, "DELETE FROM \"plugins\"");
    let kept = object(vec![("setting_code", text("theme_settings"))]);
    let gone = delete_missing_settings(
        &names(&["theme_settings", "hooks_global", "hooks_project_1", "other"]),
        &vec![kept],
        &names(&["hooks", "theme"]),
    );
    assert_eq!(gone, names(&["hooks_global", "hooks_project_1"]));
}

fn to_db(v: &SqlValue) -> Value {
    match v {
        SqlValue::Null => Value::Null,
        SqlValue::Integer(n) => Value::Integer(*n),
        SqlValue::Real(Some(s)) => Value::Real(s.parse().unwrap()),
        SqlValue::Real(None) => Value::Null,
        SqlValue::Text(s) => Value::Text(s.clone()),
        SqlValue::Blob(b) => Value::Blob(b.clone()),
    }
}

fn from_db(v: Value) -> SqlValue {
    match v {
        Value::Null => SqlValue::Null,
        Value::Integer(n) => SqlValue::Integer(n),
        Value::Real(x) => SqlValue::Real(if x.is_finite() { Some(format!("{x:?}")) } else { None }),
        Value::Text(s) => SqlValue::Text(s),
        Value::Blob(b) => SqlValue::Blob(b),
    }
}

/// Performs an import on a database.
fn run_import(db: &Connection, job: &ConfigImport) -> Result<(), String> {
    let mut place = Place::Start;
    let mut event = ImportEvent::Started;
    loop {
        let (next, action) = job.apply_config_data(place, event).map_err(|e| e.reason)?;
        place = next;
        event = match action {
            ImportAction::ReadColumns { table } => {
                let mut s = db.prepare(&format!("PRAGMA table_info(\"{table}\")")).unwrap();
                let rows: Vec<(String, i64)> = s
                    .query_map([], |r| Ok((r.get(1)?, r.get(5)?)))
                    .unwrap()
                    .map(|r| r.unwrap())
                    .collect();
                ImportEvent::Columns(rows)
            }
            ImportAction::ReadRow { sql, key, .. } => {
                let mut s = db.prepare(&sql).unwrap();
                let columns: Vec<String> =
                    s.column_names().map(|c| c.to_string()).collect();
                let mut rows = s.query(params_from_iter([to_db(&key)])).unwrap();
                let row = rows.next().unwrap().map(|r| {
                    columns
                        .iter()
                        .enumerate()
                        .map(|(i, c)| (c.clone(), from_db(r.get(i).unwrap())))
                        .collect::<Vec<_>>()
                });
                ImportEvent::Row(row)
            }
            ImportAction::Execute { statement, .. } => {
                db.execute(&statement.sql, params_from_iter(statement.params.iter().map(to_db)))
                    .map_err(|e| e.to_string())?;
                ImportEvent::Executed
            }
            ImportAction::ReadSettingCodes => {
                let mut s = db.prepare("SELECT setting_code FROM system_settings").unwrap();
                let codes: Vec<String> =
                    s.query_map([], |r| r.get(0)).unwrap().map(|r| r.unwrap()).collect();
                ImportEvent::SettingCodes(codes)
            }
            ImportAction::Commit => return Ok(()),
        };
    }
}

fn database() -> Connection {
    let db = Connection::open_in_memory().unwrap();
    db.execute_batch(
        "CREATE TABLE system_settings (id INTEGER PRIMARY KEY, setting_code TEXT UNIQUE, setting_value TEXT);
         CREATE TABLE plugins (id TEXT PRIMARY KEY, name TEXT, source_path TEXT NOT NULL, manifest_path TEXT NOT NULL);
         INSERT INTO system_settings (setting_code, setting_value) VALUES ('theme_settings', '{\"path\":\"/p\",\"c\":1}');
         INSERT INTO system_settings (setting_code, setting_value) VALUES ('upload_dir', '/mine');
         INSERT INTO plugins VALUES ('old', 'Old', '/s', '/m');",
    )
    .unwrap();
    db
}

fn setting(db: &Connection, code: &str) -> Option<String> {
    db.query_row("SELECT setting_value FROM system_settings WHERE setting_code = ?1", [code], |r| {
        r.get(0)
    })
    .ok()
}

#[test]
fn an_import_writes_rows_and_keeps_what_was_hidden() {
    let db = database();
    let bundle = ConfigBundle {
        format_version: 1,
        schema_version: 0,
        sections: names(&["plugins", "system-settings", "theme"]),
        contains_secrets: false,
        tables: vec![
            (
                "plugins".to_string(),
                vec![object(vec![("id", text("new")), ("name", text("New")), ("source_path", text("/evil"))])],
            ),
            (
                "system_settings".to_string(),
                vec![
                    object(vec![("setting_code", text("upload_dir")), ("setting_value", text(MARK))]),
                    object(vec![("setting_code", text("language")), ("setting_value", text("de"))]),
                    object(vec![("setting_code", text("theme_settings")), ("setting_value", text("{\"c\":2}"))]),
                ],
            ),
        ],
    };
    let job = ConfigImport::begin(bundle, names(&["plugins", "system-settings"]), true).ok().unwrap();
    run_import(&db, &job).unwrap();
    assert_eq!(setting(&db, "upload_dir").as_deref(), Some("/mine"));
    assert_eq!(setting(&db, "language").as_deref(), Some("de"));
    // The theme was not selected.
    assert_eq!(setting(&db, "theme_settings").as_deref(), Some("{\"path\":\"/p\",\"c\":1}"));
    let row: (String, String) = db
        .query_row("SELECT name, source_path FROM plugins WHERE id = 'new'", [], |r| {
            Ok((r.get(0)?, r.get(1)?))
        })
        .unwrap();
    assert_eq!(row, ("New".to_string(), String::new()));
    let count: i64 = db.query_row("SELECT COUNT(*) FROM plugins", [], |r| r.get(0)).unwrap();
    assert_eq!(count, 1);
}

#[test]
fn a_setting_outside_the_package_is_refused() {
    let db = database();
    let bundle = ConfigBundle {
        format_version: 1,
        schema_version: 0,
        sections: names(&["theme"]),
        contains_secrets: false,
        tables: vec![(
            "system_settings".to_string(),
            vec![object(vec![("setting_code", text("hooks_global")), ("setting_value", text("x"))])],
        )],
    };
    let job = ConfigImport::begin(bundle, names(&["theme"]), false).ok().unwrap();
    assert_eq!(
        run_import(&db, &job).unwrap_err(),
        "System setting is outside the package sections: hooks_global"
    );
}

#[test]
fn a_table_outside_the_package_is_refused() {
    let db = database();
    let bundle = ConfigBundle {
        format_version: 1,
        schema_version: 0,
        sections: names(&["theme"]),
        contains_secrets: false,
        tables: vec![("plugins".to_string(), vec![])],
    };
    let job = ConfigImport::begin(bundle, names(&["theme"]), false).ok().unwrap();
    assert_eq!(
        run_import(&db, &job).unwrap_err(),
        "Configuration table is outside the package sections: plugins"
    );
}

#[test]
fn backups_are_checked() {
    assert_eq!(backup::quick_check_database("ok").unwrap(), "ok");
    let e = backup::quick_check_database("row 1 missing").unwrap_err();
    assert_eq!(e.reason, "SQLite quick_check failed: row 1 missing");
    assert!(backup::online_backup("/a/b.db", "/a/c.db").is_ok());
    // A path that starts at the directory itself is another path.
    assert!(backup::online_backup("./a", "a").is_ok());
    assert!(backup::online_backup("./a", ".//a").is_err());
    let e = backup::online_backup("/a/b.db", "/a//./b.db").unwrap_err();
    assert_eq!(e.reason, "Online backup destination must differ from source");
    assert_eq!(
        backup::remove_database_sidecars("/b.db"),
        names(&["/b.db-wal", "/b.db-shm", "/b.db-journal"])
    );
    let step = |dest: Option<&str>, size: Option<u64>, with: bool| {
        backup::create_database_online_backup(
            "/b".to_string(),
            3,
            10,
            with,
            dest.map(|d| d.to_string()),
            size,
        )
    };
    assert!(matches!(step(None, None, false), Ok(BackupStep::Done(_))));
    let e = step(None, None, true).err().unwrap();
    assert_eq!(e.reason, "Archive destination is required when enabled");
    match step(Some("/c"), None, true) {
        Ok(BackupStep::CopyArchive { destination }) => assert_eq!(destination, "/c"),
        _ => panic!("the archive is next"),
    }
    match step(Some("/c"), Some(4), true) {
        Ok(BackupStep::Done(info)) => {
            assert_eq!(info.archive_database_path.as_deref(), Some("/c"));
            assert_eq!(info.archive_database_size_bytes, Some(4));
            assert_eq!(info.schema_version, 3);
        }
        _ => panic!("done"),
    }
}

#[test]
fn packages_hold_the_tables_of_their_sections() {
    let sections = names(&["mcp", "prompts"]);
    assert_eq!(
        config::table_names(&sections),
        names(&["system_settings", "system_prompts", "mcp_server_configs"])
    );
    let prompt = vec![("id".to_string(), SqlValue::Integer(1))];
    let bundle =
        export::make_bundle(3, names(&["mcp", "prompts"]), true, &vec![vec![], vec![prompt], vec![]]).unwrap();
    assert_eq!((bundle.format_version, bundle.schema_version), (1, 3));
    assert!(bundle.contains_secrets);
    assert_eq!(bundle.sections, sections);
    let shown: Vec<(&str, usize)> = bundle.tables.iter().map(|(n, rows)| (n.as_str(), rows.len())).collect();
    assert_eq!(shown, vec![("mcp_server_configs", 0), ("system_prompts", 1), ("system_settings", 0)]);
    let encoded = export::write_bundle(bundle).unwrap();
    assert_eq!(
        encoded,
        "{\"formatVersion\":1,\"schemaVersion\":3,\"sections\":[\"mcp\",\"prompts\"],\"containsSecrets\":true,\
         \"tables\":{\"mcp_server_configs\":[],\"system_prompts\":[{\"id\":1}],\"system_settings\":[]}}"
    );
    assert!(json::read_json(&encoded).is_ok());
    assert!(json::read_json("{").is_err());
}

#[test]
fn secrets_do_not_show_in_an_export() {
    let stored = |key: &str, path: &str| {
        vec![
            vec![vec![
                ("id".to_string(), SqlValue::Integer(1)),
                ("api_key".to_string(), SqlValue::Text(key.to_string())),
                ("source_path".to_string(), SqlValue::Text(path.to_string())),
            ]],
            vec![],
            vec![],
        ]
    };
    let sections = || names(&["api-config"]);
    let export = |key: &str, path: &str, secrets: bool| {
        export::export_config_data(1, sections(), secrets, &stored(key, path)).unwrap()
    };
    assert_eq!(export("one", "/a", false), export("two", "/b", false));
    assert_eq!(export("one", "/a", true), export("one", "/b", true));
    assert_ne!(export("one", "/a", true), export("two", "/a", true));
    assert!(!export("one", "/a", false).contains("one"));
}
