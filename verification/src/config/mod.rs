//! Exporting and importing the configuration.

pub mod backup;
pub mod export;
pub mod import;
pub mod job;
pub mod json;
pub mod laws;
pub mod package_laws;
pub mod redact;
pub mod sql;
pub mod statements;

use vstd::prelude::*;
use crate::config::json::parse_list;
use crate::error;
use crate::error::{ErrorModel, StorageError};
use crate::git::discover::is_one_of;
use crate::order;
use crate::text;

verus! {

/// The version of the package format.
pub const CONFIG_FORMAT_VERSION: i64 = 1;

/// The largest size of a package, in bytes.
pub const MAX_CONFIG_BYTES: usize = 33_554_432;

/// The largest number of rows in a package.
pub const MAX_CONFIG_ROWS: usize = 50_000;

/// The sections into which the configuration is divided.
pub open spec fn known_sections() -> Seq<Seq<char>> {
    seq![
        "api-config"@,
        "model-settings"@,
        "system-settings"@,
        "mcp"@,
        "prompts"@,
        "hooks"@,
        "sub-agents"@,
        "keyboard-shortcuts"@,
        "theme"@,
        "skills"@,
        "plugins"@,
    ]
}

/// Whether there is a section of this name.
pub fn is_known_section(name: &str) -> (r: bool)
    ensures
        r == known_sections().contains(name@),
{
    let chars = text::chars_of(name);
    let list: [&str; 11] = [
        "api-config",
        "model-settings",
        "system-settings",
        "mcp",
        "prompts",
        "hooks",
        "sub-agents",
        "keyboard-shortcuts",
        "theme",
        "skills",
        "plugins",
    ];
    proof {
        assert(Seq::new(list@.len(), |i: int| list@[i]@) =~= known_sections());
    }
    is_one_of(chars.as_slice(), list.as_slice())
}

/// The tables that hold the configuration.
pub open spec fn config_tables() -> Seq<Seq<char>> {
    seq![
        "api_configs"@,
        "system_settings"@,
        "system_prompts"@,
        "custom_header_schemes"@,
        "mcp_server_configs"@,
        "plugins"@,
        "plugin_marketplaces"@,
        "plugin_components"@,
        "sub_agent_configs"@,
        "sensitive_command_configs"@,
    ]
}

// ---------------------------------------------------------------------
// Sets of sections
// ---------------------------------------------------------------------

/// A set of names, kept in order, with one more name.
pub open spec fn with_name(names: Seq<Seq<char>>, name: Seq<char>) -> Seq<Seq<char>>
    decreases names.len(),
{
    if names.len() == 0 || order::before(names.last(), name) {
        names.push(name)
    } else if names.last() == name {
        names
    } else {
        with_name(names.drop_last(), name).push(names.last())
    }
}

/// The set of the given names, in order.
pub open spec fn name_set(names: Seq<Seq<char>>) -> Seq<Seq<char>>
    decreases names.len(),
{
    if names.len() == 0 {
        Seq::empty()
    } else {
        with_name(name_set(names.drop_last()), names.last())
    }
}

/// A set of names holds what was put into it, and its names stay in order,
/// each once.
pub proof fn lemma_with_name(names: Seq<Seq<char>>, name: Seq<char>)
    requires
        forall|i: int, j: int| 0 <= i < j < names.len() ==> order::before(names[i], names[j]),
    ensures
        forall|x: Seq<char>|
            #[trigger] with_name(names, name).contains(x) == (names.contains(x) || x == name),
        forall|i: int, j: int|
            0 <= i < j < with_name(names, name).len() ==> order::before(
                #[trigger] with_name(names, name)[i],
                #[trigger] with_name(names, name)[j],
            ),
    decreases names.len(),
{
    let r = with_name(names, name);
    if names.len() == 0 || order::before(names.last(), name) {
        assert forall|x: Seq<char>| #[trigger] r.contains(x) == (names.contains(x) || x == name) by {
            if names.contains(x) {
                let k = choose|k: int| 0 <= k < names.len() && names[k] == x;
                assert(r[k] == x);
            }
            if x == name {
                assert(r[names.len() as int] == x);
            }
        }
        assert forall|i: int, j: int| 0 <= i < j < r.len() implies order::before(r[i], r[j]) by {
            if j == names.len() && i < names.len() - 1 {
                order::lemma_before_transitive(names[i], names[names.len() - 1], name);
            }
        }
    } else if names.last() == name {
        assert(names[names.len() - 1] == name);
    } else {
        let front = names.drop_last();
        let inner = with_name(front, name);
        lemma_with_name(front, name);
        order::lemma_before_total(names.last(), name);
        assert forall|x: Seq<char>| #[trigger] r.contains(x) == (names.contains(x) || x == name) by {
            if r.contains(x) {
                let k = choose|k: int| 0 <= k < r.len() && r[k] == x;
                if k < inner.len() {
                    assert(inner.contains(x)) by {
                        assert(inner[k] == x);
                    }
                    if x != name {
                        let m = choose|m: int| 0 <= m < front.len() && front[m] == x;
                        assert(names[m] == x);
                    }
                } else {
                    assert(names[names.len() - 1] == x);
                }
            }
            if names.contains(x) {
                let k = choose|k: int| 0 <= k < names.len() && names[k] == x;
                if k < front.len() {
                    assert(front[k] == x);
                    assert(inner.contains(x));
                    let m = choose|m: int| 0 <= m < inner.len() && inner[m] == x;
                    assert(r[m] == x);
                } else {
                    assert(r[inner.len() as int] == x);
                }
            }
            if x == name {
                assert(inner.contains(x));
                let m = choose|m: int| 0 <= m < inner.len() && inner[m] == x;
                assert(r[m] == x);
            }
        }
        assert forall|i: int, j: int| 0 <= i < j < r.len() implies order::before(r[i], r[j]) by {
            if j == inner.len() {
                assert(inner.contains(inner[i]));
                if inner[i] != name {
                    let m = choose|m: int| 0 <= m < front.len() && front[m] == inner[i];
                    assert(names[m] == inner[i]);
                    assert(order::before(names[m], names[names.len() - 1]));
                }
            } else {
                assert(order::before(inner[i], inner[j]));
            }
        }
    }
}

/// A set holds the names it was made of, in order, each once.
pub proof fn law_name_set(names: Seq<Seq<char>>)
    ensures
        forall|x: Seq<char>| #[trigger] name_set(names).contains(x) == names.contains(x),
        forall|i: int, j: int|
            0 <= i < j < name_set(names).len() ==> order::before(
                #[trigger] name_set(names)[i],
                #[trigger] name_set(names)[j],
            ),
    decreases names.len(),
{
    if names.len() > 0 {
        law_name_set(names.drop_last());
        lemma_with_name(name_set(names.drop_last()), names.last());
        let front = names.drop_last();
        assert forall|x: Seq<char>| #[trigger] name_set(names).contains(x) == names.contains(x) by {
            if names.contains(x) && x != names.last() {
                let k = choose|k: int| 0 <= k < names.len() && names[k] == x;
                assert(front[k] == x);
            }
            if front.contains(x) {
                let k = choose|k: int| 0 <= k < front.len() && front[k] == x;
                assert(names[k] == x);
            }
            if x == names.last() {
                assert(names[names.len() - 1] == x);
            }
        }
    }
}

/// Adds a name to a set.
pub fn add_name(names: &mut Vec<String>, name: &String)
    ensures
        final(names).deep_view() == with_name(old(names).deep_view(), name@),
{
    let wanted = text::chars_of(name.as_str());
    let ghost all = names.deep_view();
    let mut n: usize = names.len();
    proof {
        assert(all.take(n as int) =~= all);
        assert(with_name(all, name@) =~= with_name(all.take(n as int), name@) + all.skip(n as int));
    }
    while n > 0
        invariant
            n <= names@.len(),
            wanted@ == name@,
            *names == *old(names),
            all == names.deep_view(),
            with_name(all, name@) == with_name(all.take(n as int), name@) + all.skip(n as int),
        decreases n,
    {
        let this = text::chars_of(names[n - 1].as_str());
        let ghost front = all.take(n as int);
        proof {
            assert(front.drop_last() =~= all.take(n - 1));
            assert(front.last() == this@);
        }
        if order::comes_before(this.as_slice(), wanted.as_slice()) {
            names.insert(n, name.clone());
            proof {
                assert(names.deep_view() =~= front.push(name@) + all.skip(n as int));
            }
            return;
        }
        if text::same(this.as_slice(), wanted.as_slice()) {
            proof {
                assert(front + all.skip(n as int) =~= all);
            }
            return;
        }
        proof {
            let rest = with_name(front.drop_last(), name@);
            assert(rest.push(front.last()) + all.skip(n as int) =~= rest + all.skip(n - 1));
        }
        n -= 1;
    }
    names.insert(0, name.clone());
    proof {
        assert(names.deep_view() =~= all.take(0).push(name@) + all.skip(0));
    }
}

/// The set of the given names.
pub fn set_of_names(names: &Vec<String>) -> (r: Vec<String>)
    ensures
        r.deep_view() == name_set(names.deep_view()),
{
    let mut r: Vec<String> = Vec::new();
    let ghost all = names.deep_view();
    proof {
        assert(r.deep_view() =~= name_set(all.take(0)));
    }
    let mut i: usize = 0;
    while i < names.len()
        invariant
            i <= names@.len(),
            all == names.deep_view(),
            r.deep_view() == name_set(all.take(i as int)),
        decreases names@.len() - i,
    {
        proof {
            assert(all.take(i + 1).drop_last() =~= all.take(i as int));
            assert(all.take(i + 1).last() == names@[i as int]@);
        }
        add_name(&mut r, &names[i]);
        i += 1;
    }
    proof {
        assert(all.take(i as int) =~= all);
    }
    r
}

/// Whether a list of strings holds a string.
pub fn has_name(names: &Vec<String>, name: &str) -> (r: bool)
    ensures
        r == names.deep_view().contains(name@),
{
    crate::git::actions::holds_text(names, text::chars_of(name).as_slice())
}

// ---------------------------------------------------------------------
// The sections asked for
// ---------------------------------------------------------------------

/// The first name that is no section.
pub open spec fn first_unknown(names: Seq<Seq<char>>) -> Option<Seq<char>>
    decreases names.len(),
{
    if names.len() == 0 {
        None
    } else if !known_sections().contains(names[0]) {
        Some(names[0])
    } else {
        first_unknown(names.skip(1))
    }
}

/// Finds the first name that is no section.
pub fn find_unknown(names: &Vec<String>) -> (r: Option<usize>)
    ensures
        match r {
            Some(i) => i < names@.len() && first_unknown(names.deep_view()) == Some(names@[i as int]@),
            None => first_unknown(names.deep_view()) is None,
        },
{
    let ghost all = names.deep_view();
    proof {
        assert(all.skip(0) =~= all);
    }
    let mut i: usize = 0;
    while i < names.len()
        invariant
            i <= names@.len(),
            all == names.deep_view(),
            first_unknown(all) == first_unknown(all.skip(i as int)),
        decreases names@.len() - i,
    {
        proof {
            assert(all.skip(i as int)[0] == names@[i as int]@);
            assert(all.skip(i as int).skip(1) =~= all.skip(i + 1));
        }
        if !is_known_section(names[i].as_str()) {
            return Some(i);
        }
        i += 1;
    }
    None
}

/// The sections asked for: at least one, and known ones only.
pub open spec fn requested_sections(list: Result<Seq<Seq<char>>, Seq<char>>) -> Result<
    Seq<Seq<char>>,
    ErrorModel,
> {
    match list {
        Err(m) => Err(error::invalid("Invalid data-management sections: "@ + m)),
        Ok(names) => if names.len() == 0 {
            Err(error::invalid("At least one data-management section is required"@))
        } else {
            match first_unknown(names) {
                Some(name) => Err(error::invalid("Unknown data-management section: "@ + name)),
                None => Ok(name_set(names)),
            }
        },
    }
}

/// An argument error with a text behind its message.
pub(crate) fn invalid_with(message: &str, detail: &str) -> (e: StorageError)
    ensures
        e.deep_view() == error::invalid(message@ + detail@),
{
    let mut reason = message.to_string();
    reason.append(detail);
    StorageError::invalid_arg(reason.as_str())
}

/// Checks the sections asked for, once they are read.
pub fn check_sections(list: Result<Vec<String>, String>) -> (r: Result<Vec<String>, StorageError>)
    ensures
        error::result_view(r) == requested_sections(error::result_view(list)),
{
    match list {
        Err(m) => Err(invalid_with("Invalid data-management sections: ", m.as_str())),
        Ok(names) => {
            if names.len() == 0 {
                return Err(
                    StorageError::invalid_arg("At least one data-management section is required"),
                );
            }
            match find_unknown(&names) {
                Some(i) => Err(
                    invalid_with("Unknown data-management section: ", names[i].as_str()),
                ),
                None => Ok(set_of_names(&names)),
            }
        },
    }
}

/// Reads the sections asked for from their JSON form.
pub fn parse_sections(raw: &str) -> (r: Result<Vec<String>, StorageError>)
    ensures
        error::result_view(r) == requested_sections(json::parsed_list(raw@)),
{
    check_sections(parse_list(raw))
}

// ---------------------------------------------------------------------
// Which section and table a value belongs to
// ---------------------------------------------------------------------

/// The section of a system setting.
pub open spec fn section_of(code: Seq<char>) -> Seq<char> {
    if code == "theme_settings"@ {
        "theme"@
    } else if code == "keyboard_shortcuts"@ {
        "keyboard-shortcuts"@
    } else if code == "hooks_global"@ || text::begins(code, "hooks_project_"@) {
        "hooks"@
    } else if code == "mcp_global_scope"@ || text::begins(code, "project_mcp_"@) {
        "mcp"@
    } else if text::begins(code, "project_skills_scope_"@) {
        "skills"@
    } else if code == "codebase_settings"@ || code == "privacy_settings"@ {
        "model-settings"@
    } else {
        "system-settings"@
    }
}

/// Tells the section of a system setting.
pub fn setting_section(setting_code: &str) -> (r: &'static str)
    ensures
        r@ == section_of(setting_code@),
{
    let code = text::chars_of(setting_code);
    let c = code.as_slice();
    if text::equals(c, "theme_settings") {
        "theme"
    } else if text::equals(c, "keyboard_shortcuts") {
        "keyboard-shortcuts"
    } else if text::equals(c, "hooks_global") || text::starts_with(c, "hooks_project_") {
        "hooks"
    } else if text::equals(c, "mcp_global_scope") || text::starts_with(c, "project_mcp_") {
        "mcp"
    } else if text::starts_with(c, "project_skills_scope_") {
        "skills"
    } else if text::equals(c, "codebase_settings") || text::equals(c, "privacy_settings") {
        "model-settings"
    } else {
        "system-settings"
    }
}

/// Every system setting belongs to a known section.
pub proof fn law_settings_have_sections(code: Seq<char>)
    ensures
        known_sections().contains(section_of(code)),
{
    let k = known_sections();
    assert(k[1] == "model-settings"@ && k[2] == "system-settings"@ && k[3] == "mcp"@ && k[5]
        == "hooks"@ && k[7] == "keyboard-shortcuts"@ && k[8] == "theme"@ && k[9] == "skills"@);
}

/// The section that a table belongs to. System settings are divided by
/// setting, so their table belongs to none.
pub open spec fn table_section(table: Seq<char>) -> Option<Seq<char>> {
    if table == "api_configs"@ || table == "custom_header_schemes"@ {
        Some("api-config"@)
    } else if table == "system_prompts"@ {
        Some("prompts"@)
    } else if table == "mcp_server_configs"@ {
        Some("mcp"@)
    } else if table == "sub_agent_configs"@ {
        Some("sub-agents"@)
    } else if table == "plugins"@ || table == "plugin_marketplaces"@ || table
        == "plugin_components"@ {
        Some("plugins"@)
    } else if table == "sensitive_command_configs"@ {
        Some("system-settings"@)
    } else {
        None
    }
}

/// Whether a table takes part when the given sections are chosen.
pub open spec fn allowed(table: Seq<char>, sections: Seq<Seq<char>>) -> bool {
    table == "system_settings"@ || match table_section(table) {
        Some(section) => sections.contains(section),
        None => false,
    }
}

/// Whether a table takes part when the given sections are chosen.
pub fn table_allowed(table: &str, sections: &Vec<String>) -> (r: bool)
    ensures
        r == allowed(table@, sections.deep_view()),
{
    let chars = text::chars_of(table);
    let t = chars.as_slice();
    if text::equals(t, "system_settings") {
        return true;
    }
    let section: &str = if text::equals(t, "api_configs") || text::equals(
        t,
        "custom_header_schemes",
    ) {
        "api-config"
    } else if text::equals(t, "system_prompts") {
        "prompts"
    } else if text::equals(t, "mcp_server_configs") {
        "mcp"
    } else if text::equals(t, "sub_agent_configs") {
        "sub-agents"
    } else if text::equals(t, "plugins") || text::equals(t, "plugin_marketplaces") || text::equals(
        t,
        "plugin_components",
    ) {
        "plugins"
    } else if text::equals(t, "sensitive_command_configs") {
        "system-settings"
    } else {
        return false;
    };
    has_name(sections, section)
}

/// Only the tables of the configuration ever take part.
pub proof fn law_allowed_tables(table: Seq<char>, sections: Seq<Seq<char>>)
    ensures
        allowed(table, sections) ==> config_tables().contains(table),
{
    let t = config_tables();
    assert(t[0] == "api_configs"@ && t[1] == "system_settings"@ && t[2] == "system_prompts"@ && t[3]
        == "custom_header_schemes"@ && t[4] == "mcp_server_configs"@ && t[5] == "plugins"@ && t[6]
        == "plugin_marketplaces"@ && t[7] == "plugin_components"@ && t[8] == "sub_agent_configs"@
        && t[9] == "sensitive_command_configs"@);
}

/// The tables that take part when the given sections are chosen.
pub open spec fn tables_of(sections: Seq<Seq<char>>) -> Seq<Seq<char>> {
    config_tables().filter(|table: Seq<char>| allowed(table, sections))
}

/// The tables that take part when the given sections are chosen.
pub fn table_names(sections: &Vec<String>) -> (r: Vec<String>)
    ensures
        r.deep_view() == tables_of(sections.deep_view()),
{
    let list: [&str; 10] = [
        "api_configs",
        "system_settings",
        "system_prompts",
        "custom_header_schemes",
        "mcp_server_configs",
        "plugins",
        "plugin_marketplaces",
        "plugin_components",
        "sub_agent_configs",
        "sensitive_command_configs",
    ];
    let ghost p = |table: Seq<char>| allowed(table, sections.deep_view());
    let ghost all = config_tables();
    let mut r: Vec<String> = Vec::new();
    proof {
        assert(r.deep_view() =~= all.take(0).filter(p));
    }
    let mut i: usize = 0;
    while i < 10
        invariant
            i <= 10,
            all == config_tables(),
            all.len() == 10,
            list@.len() == 10,
            p == (|table: Seq<char>| allowed(table, sections.deep_view())),
            forall|j: int| 0 <= j < 10 ==> #[trigger] list@[j]@ == all[j],
            r.deep_view() == all.take(i as int).filter(p),
        decreases 10 - i,
    {
        let ghost before = r.deep_view();
        proof {
            assert(all.take(i + 1).drop_last() =~= all.take(i as int));
            assert(list@[i as int]@ == all[i as int]);
            reveal_with_fuel(Seq::filter, 2);
        }
        if table_allowed(list[i], sections) {
            r.push(list[i].to_string());
            proof {
                assert(r.deep_view() =~= before.push(all[i as int]));
            }
        }
        i += 1;
    }
    proof {
        assert(all.take(10) =~= all);
    }
    r
}

/// Whether a column holds a secret.
pub open spec fn sensitive_column(column: Seq<char>) -> bool {
    column == "api_key"@ || column == "vision_api_key"@ || column == "env_json"@ || column
        == "headers_json"@
}

/// Whether a column has a meaning on this device alone.
pub open spec fn device_column(column: Seq<char>) -> bool {
    column == "source_path"@ || column == "manifest_path"@ || column == "cache_path"@ || column
        == "target_path"@ || column == "origin_path"@ || column == "path"@
}

/// Whether a column holds a secret.
pub fn is_sensitive_column(column: &str) -> (r: bool)
    ensures
        r == sensitive_column(column@),
{
    let chars = text::chars_of(column);
    let c = chars.as_slice();
    text::equals(c, "api_key") || text::equals(c, "vision_api_key") || text::equals(c, "env_json")
        || text::equals(c, "headers_json")
}

/// Whether a column has a meaning on this device alone.
pub fn is_device_only_column(column: &str) -> (r: bool)
    ensures
        r == device_column(column@),
{
    let chars = text::chars_of(column);
    let c = chars.as_slice();
    text::equals(c, "source_path") || text::equals(c, "manifest_path") || text::equals(
        c,
        "cache_path",
    ) || text::equals(c, "target_path") || text::equals(c, "origin_path") || text::equals(c, "path")
}

} // verus!
