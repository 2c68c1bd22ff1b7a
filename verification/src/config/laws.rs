//! What holds of configuration that is exported and imported.

use vstd::prelude::*;
use crate::config;
use crate::config::export;
use crate::config::export::{ConfigBundleModel, FieldsModel};
use crate::config::import;
use crate::config::job;
use crate::config::json;
use crate::config::json::JsonModel;
use crate::config::redact;
use crate::config::sql;
use crate::config::sql::SqlModel;
use crate::error::ErrorModel;
use crate::order;
use crate::text;
use crate::text_laws;

verus! {

// ---------------------------------------------------------------------
// Which names are hidden
// ---------------------------------------------------------------------

/// Whether a text spells a word of small ASCII letters and signs, in capital
/// letters or small ones.
pub open spec fn spells(s: Seq<char>, word: Seq<char>) -> bool {
    s.len() == word.len() && forall|i: int|
        0 <= i < s.len() ==> #[trigger] s[i] == word[i] || (65 <= s[i] as int <= 90 && s[i] as int
            + 32 == word[i] as int)
}

/// Whether a word is spelled somewhere in a name.
pub open spec fn spells_within(name: Seq<char>, word: Seq<char>) -> bool {
    exists|a: Seq<char>, w: Seq<char>, b: Seq<char>|
        #![trigger a + w + b]
        name == a + w + b && spells(w, word)
}

/// Whether a word is spelled at the end of a name.
pub open spec fn spells_last(name: Seq<char>, word: Seq<char>) -> bool {
    exists|a: Seq<char>, w: Seq<char>| name == #[trigger] (a + w) && spells(w, word)
}

/// Whether a word has no capital letter.
pub open spec fn is_small(word: Seq<char>) -> bool {
    forall|i: int| 0 <= i < word.len() ==> !(65 <= (#[trigger] word[i]) as int <= 90)
}

proof fn lemma_spells(s: Seq<char>, word: Seq<char>)
    requires
        is_small(word),
    ensures
        spells(s, word) <==> text::ascii_lower(s) == word,
{
    let low = text::ascii_lower(s);
    if spells(s, word) {
        assert forall|i: int| 0 <= i < s.len() implies low[i] == word[i] by {
            text_laws::law_ascii_lower(s, i);
            let small = word[i];
            assert(!(65 <= small as int <= 90));
            assert(s[i] == small || (65 <= s[i] as int <= 90 && s[i] as int + 32 == small as int));
        }
        assert(low =~= word);
    }
    if low == word {
        assert forall|i: int| 0 <= i < s.len() implies #[trigger] s[i] == word[i] || (65
            <= s[i] as int <= 90 && s[i] as int + 32 == word[i] as int) by {
            text_laws::law_ascii_lower(s, i);
        }
    }
}

proof fn lemma_lower_parts(a: Seq<char>, b: Seq<char>)
    ensures
        text::ascii_lower(a + b) == text::ascii_lower(a) + text::ascii_lower(b),
{
    assert(text::ascii_lower(a + b) =~= text::ascii_lower(a) + text::ascii_lower(b));
}

proof fn lemma_spells_within(name: Seq<char>, word: Seq<char>)
    requires
        is_small(word),
    ensures
        spells_within(name, word) <==> text::occurs(text::ascii_lower(name), word),
        spells_last(name, word) <==> text::finishes(text::ascii_lower(name), word),
{
    let low = text::ascii_lower(name);
    text_laws::law_occurrences(low, word);
    if spells_within(name, word) {
        let (a, w, b) = choose|a: Seq<char>, w: Seq<char>, b: Seq<char>|
            #![trigger a + w + b]
            name == a + w + b && spells(w, word);
        lemma_spells(w, word);
        lemma_lower_parts(a + w, b);
        lemma_lower_parts(a, w);
        assert(low == text::ascii_lower(a) + word + text::ascii_lower(b));
    }
    if text::occurs(low, word) {
        let i = choose|i: int| text::stands_at(low, word, i);
        let n = word.len() as int;
        let a = name.take(i);
        let w = name.subrange(i, i + n);
        let b = name.skip(i + n);
        assert(name =~= a + w + b);
        assert(text::ascii_lower(w) =~= low.subrange(i, i + n));
        lemma_spells(w, word);
    }
    if spells_last(name, word) {
        let (a, w) = choose|a: Seq<char>, w: Seq<char>|
            name == #[trigger] (a + w) && spells(w, word);
        lemma_spells(w, word);
        lemma_lower_parts(a, w);
        assert(low == text::ascii_lower(a) + word);
    }
    if text::finishes(low, word) {
        let k = low.len() - word.len();
        let a = name.take(k);
        let w = name.skip(k);
        assert(name =~= a + w);
        assert(text::ascii_lower(w) =~= low.skip(k));
        lemma_spells(w, word);
    }
}

/// Whether the name of a field tells that it holds a secret.
pub open spec fn tells_secret(name: Seq<char>) -> bool {
    ||| spells_within(name, "api_key"@)
    ||| spells_last(name, "token"@)
    ||| spells_within(name, "password"@)
    ||| spells_within(name, "secret"@)
    ||| spells_within(name, "authorization"@)
    ||| spells_within(name, "cookie"@)
    ||| spells(name, "env"@)
    ||| spells(name, "headers"@)
}

/// Whether the name of a field tells that its value means something on this
/// device alone.
pub open spec fn tells_device(name: Seq<char>) -> bool {
    ||| spells_last(name, "path"@)
    ||| spells_within(name, "workspace"@)
    ||| spells_within(name, "ssh"@)
    ||| spells_within(name, "credential"@)
}

proof fn lemma_words_are_small()
    ensures
        is_small("api_key"@),
        is_small("token"@),
        is_small("password"@),
        is_small("secret"@),
        is_small("authorization"@),
        is_small("cookie"@),
        is_small("env"@),
        is_small("headers"@),
        is_small("path"@),
        is_small("workspace"@),
        is_small("ssh"@),
        is_small("credential"@),
{
    reveal_strlit("api_key");
    reveal_strlit("token");
    reveal_strlit("password");
    reveal_strlit("secret");
    reveal_strlit("authorization");
    reveal_strlit("cookie");
    reveal_strlit("env");
    reveal_strlit("headers");
    reveal_strlit("path");
    reveal_strlit("workspace");
    reveal_strlit("ssh");
    reveal_strlit("credential");
}

/// The names under which values are hidden: a secret is told by a word
/// anywhere in the name, in capital letters or small ones, or by a word at
/// its end, or by the whole name; no other name tells one.
pub proof fn law_which_names_are_hidden(name: Seq<char>)
    ensures
        redact::secret_key(name) <==> tells_secret(name),
        redact::device_key(name) <==> tells_device(name),
{
    lemma_words_are_small();
    lemma_spells_within(name, "api_key"@);
    lemma_spells_within(name, "token"@);
    lemma_spells_within(name, "password"@);
    lemma_spells_within(name, "secret"@);
    lemma_spells_within(name, "authorization"@);
    lemma_spells_within(name, "cookie"@);
    lemma_spells(name, "env"@);
    lemma_spells(name, "headers"@);
    lemma_spells_within(name, "path"@);
    lemma_spells_within(name, "workspace"@);
    lemma_spells_within(name, "ssh"@);
    lemma_spells_within(name, "credential"@);
    let low = text::ascii_lower(name);
    if low == "path"@ {
        assert(low.skip(0) =~= low);
    }
}

/// Whether a field of this name is hidden in an export.
pub open spec fn is_hidden_name(name: Seq<char>, include_secrets: bool) -> bool {
    tells_device(name) || (tells_secret(name) && !include_secrets)
}

/// The value that stands somewhere in a value: at each step the position of
/// a field or of an item.
pub open spec fn value_at(v: JsonModel, steps: Seq<int>) -> Option<JsonModel>
    decreases steps.len(),
{
    if steps.len() == 0 {
        Some(v)
    } else {
        match v {
            JsonModel::Object(fields) => if 0 <= steps[0] < fields.len() {
                value_at(fields[steps[0]].1, steps.skip(1))
            } else {
                None
            },
            JsonModel::Array(items) => if 0 <= steps[0] < items.len() {
                value_at(items[steps[0]], steps.skip(1))
            } else {
                None
            },
            _ => None,
        }
    }
}

/// Whether steps lead through no field whose name is hidden.
pub open spec fn leads_openly(v: JsonModel, steps: Seq<int>, include_secrets: bool) -> bool
    decreases steps.len(),
{
    steps.len() == 0 || match v {
        JsonModel::Object(fields) => 0 <= steps[0] < fields.len() && !is_hidden_name(
            fields[steps[0]].0,
            include_secrets,
        ) && leads_openly(fields[steps[0]].1, steps.skip(1), include_secrets),
        JsonModel::Array(items) => 0 <= steps[0] < items.len() && leads_openly(
            items[steps[0]],
            steps.skip(1),
            include_secrets,
        ),
        _ => false,
    }
}

proof fn lemma_sanitized_field(fields: FieldsModel, include_secrets: bool, i: int)
    ensures
        redact::sanitized_fields(fields, include_secrets).len() == fields.len(),
        0 <= i < fields.len() ==> redact::sanitized_fields(fields, include_secrets)[i] == (
            fields[i].0,
            redact::sanitized(fields[i].1, Some(fields[i].0), include_secrets),
        ),
    decreases fields.len(),
{
    if fields.len() > 0 {
        lemma_sanitized_field(fields.drop_last(), include_secrets, i);
    }
}

proof fn lemma_sanitized_item(items: Seq<JsonModel>, include_secrets: bool, i: int)
    ensures
        redact::sanitized_items(items, include_secrets).len() == items.len(),
        0 <= i < items.len() ==> redact::sanitized_items(items, include_secrets)[i]
            == redact::sanitized(items[i], None, include_secrets),
    decreases items.len(),
{
    if items.len() > 0 {
        lemma_sanitized_item(items.drop_last(), include_secrets, i);
    }
}

/// Hiding takes place at every depth, and nowhere else. Wherever a value
/// stands that no hidden name leads to, the same place of the result holds
/// it: a simple value as it is, a list with as many items, an object with
/// the same names. A field there whose name is hidden holds the marker.
pub proof fn law_hiding_reaches_every_depth(v: JsonModel, steps: Seq<int>, include_secrets: bool)
    requires
        leads_openly(v, steps, include_secrets),
        value_at(v, steps) is Some,
    ensures
        ({
            let clean = redact::sanitized(v, None, include_secrets);
            match (value_at(v, steps)->0, value_at(clean, steps)) {
                (JsonModel::Object(fields), Some(JsonModel::Object(shown))) => {
                    &&& shown.len() == fields.len()
                    &&& forall|i: int|
                        0 <= i < fields.len() ==> (#[trigger] shown[i]).0 == fields[i].0 && (
                        is_hidden_name(fields[i].0, include_secrets) ==> shown[i].1
                            == JsonModel::Str("__SNOWAPP_REDACTED__"@))
                },
                (JsonModel::Array(items), Some(JsonModel::Array(shown))) => shown.len()
                    == items.len(),
                (JsonModel::Object(_), _) => false,
                (JsonModel::Array(_), _) => false,
                (simple, shown) => shown == Some(simple),
            }
        }),
    decreases steps.len(),
{
    let clean = redact::sanitized(v, None, include_secrets);
    if steps.len() == 0 {
        match v {
            JsonModel::Object(fields) => {
                let shown = redact::sanitized_fields(fields, include_secrets);
                lemma_sanitized_field(fields, include_secrets, 0);
                assert forall|i: int| 0 <= i < fields.len() implies (#[trigger] shown[i]).0
                    == fields[i].0 && (is_hidden_name(fields[i].0, include_secrets) ==> shown[i].1
                    == JsonModel::Str("__SNOWAPP_REDACTED__"@)) by {
                    lemma_sanitized_field(fields, include_secrets, i);
                    law_which_names_are_hidden(fields[i].0);
                }
            },
            JsonModel::Array(items) => lemma_sanitized_item(items, include_secrets, 0),
            _ => {},
        }
    } else {
        let i = steps[0];
        match v {
            JsonModel::Object(fields) => {
                lemma_sanitized_field(fields, include_secrets, i);
                law_which_names_are_hidden(fields[i].0);
                law_hiding_reaches_every_depth(fields[i].1, steps.skip(1), include_secrets);
                assert(redact::sanitized(fields[i].1, Some(fields[i].0), include_secrets)
                    == redact::sanitized(fields[i].1, None, include_secrets));
            },
            JsonModel::Array(items) => {
                lemma_sanitized_item(items, include_secrets, i);
                law_hiding_reaches_every_depth(items[i], steps.skip(1), include_secrets);
            },
            _ => {},
        }
    }
}

/// A value counts as holding a hidden one exactly where the marker stands
/// somewhere in it.
pub proof fn law_marker_is_found(v: JsonModel)
    ensures
        redact::redacted_in(v) <==> exists|steps: Seq<int>|
            #[trigger] value_at(v, steps) == Some(JsonModel::Str("__SNOWAPP_REDACTED__"@)),
    decreases v,
{
    let m = Some(JsonModel::Str("__SNOWAPP_REDACTED__"@));
    match v {
        JsonModel::Object(fields) => lemma_marker_in_fields(v, fields, fields.len() as int),
        JsonModel::Array(items) => lemma_marker_in_items(v, items, items.len() as int),
        _ => {
            if redact::redacted_in(v) {
                assert(value_at(v, Seq::empty()) == m);
            }
            if exists|steps: Seq<int>| #[trigger] value_at(v, steps) == m {
                let steps = choose|steps: Seq<int>| #[trigger] value_at(v, steps) == m;
                assert(steps.len() == 0);
            }
        },
    }
}

proof fn lemma_marker_in_fields(v: JsonModel, fields: FieldsModel, n: int)
    requires
        v == JsonModel::Object(fields),
        0 <= n <= fields.len(),
    ensures
        redact::redacted_in_fields(fields.take(n)) <==> exists|steps: Seq<int>|
            #[trigger] value_at(v, steps) == Some(JsonModel::Str("__SNOWAPP_REDACTED__"@))
                && steps[0] < n,
        n == fields.len() ==> fields.take(n) == fields,
    decreases v, n,
{
    let m = Some(JsonModel::Str("__SNOWAPP_REDACTED__"@));
    assert(n == fields.len() ==> fields.take(n) =~= fields);
    if n > 0 {
        lemma_marker_in_fields(v, fields, n - 1);
        assert(fields.take(n).drop_last() =~= fields.take(n - 1));
        assert(fields.take(n).last() == fields[n - 1]);
        let child = fields[n - 1].1;
        assert(decreases_to!(v => fields));
        assert(decreases_to!(fields => fields[n - 1]));
        assert(decreases_to!(fields[n - 1] => fields[n - 1].1));
        law_marker_is_found(child);
        if redact::redacted_in(child) {
            let rest = choose|steps: Seq<int>| #[trigger] value_at(child, steps) == m;
            let steps = seq![n - 1] + rest;
            assert(steps.skip(1) =~= rest);
            assert(value_at(v, steps) == m);
        }
        if exists|steps: Seq<int>| #[trigger] value_at(v, steps) == m && steps[0] < n {
            let steps = choose|steps: Seq<int>| #[trigger] value_at(v, steps) == m && steps[0] < n;
            if steps[0] == n - 1 {
                assert(value_at(child, steps.skip(1)) == m);
            }
        }
    } else {
        if exists|steps: Seq<int>| #[trigger] value_at(v, steps) == m && steps[0] < n {
            let steps = choose|steps: Seq<int>| #[trigger] value_at(v, steps) == m && steps[0] < n;
            assert(steps.len() > 0);
        }
    }
    if n == fields.len() && exists|steps: Seq<int>| #[trigger] value_at(v, steps) == m {
        let steps = choose|steps: Seq<int>| #[trigger] value_at(v, steps) == m;
        assert(steps.len() > 0 && steps[0] < n);
    }
}

proof fn lemma_marker_in_items(v: JsonModel, items: Seq<JsonModel>, n: int)
    requires
        v == JsonModel::Array(items),
        0 <= n <= items.len(),
    ensures
        redact::redacted_in_items(items.take(n)) <==> exists|steps: Seq<int>|
            #[trigger] value_at(v, steps) == Some(JsonModel::Str("__SNOWAPP_REDACTED__"@))
                && steps[0] < n,
        n == items.len() ==> items.take(n) == items,
    decreases v, n,
{
    let m = Some(JsonModel::Str("__SNOWAPP_REDACTED__"@));
    assert(n == items.len() ==> items.take(n) =~= items);
    if n > 0 {
        lemma_marker_in_items(v, items, n - 1);
        assert(items.take(n).drop_last() =~= items.take(n - 1));
        assert(items.take(n).last() == items[n - 1]);
        let child = items[n - 1];
        assert(decreases_to!(v => items));
        assert(decreases_to!(items => items[n - 1]));
        law_marker_is_found(child);
        if redact::redacted_in(child) {
            let rest = choose|steps: Seq<int>| #[trigger] value_at(child, steps) == m;
            let steps = seq![n - 1] + rest;
            assert(steps.skip(1) =~= rest);
            assert(value_at(v, steps) == m);
        }
        if exists|steps: Seq<int>| #[trigger] value_at(v, steps) == m && steps[0] < n {
            let steps = choose|steps: Seq<int>| #[trigger] value_at(v, steps) == m && steps[0] < n;
            if steps[0] == n - 1 {
                assert(value_at(child, steps.skip(1)) == m);
            }
        }
    } else {
        if exists|steps: Seq<int>| #[trigger] value_at(v, steps) == m && steps[0] < n {
            let steps = choose|steps: Seq<int>| #[trigger] value_at(v, steps) == m && steps[0] < n;
            assert(steps.len() > 0);
        }
    }
    if n == items.len() && exists|steps: Seq<int>| #[trigger] value_at(v, steps) == m {
        let steps = choose|steps: Seq<int>| #[trigger] value_at(v, steps) == m;
        assert(steps.len() > 0 && steps[0] < n);
    }
}

// ---------------------------------------------------------------------
// Sections and tables
// ---------------------------------------------------------------------

/// Whether a code begins with a text.
pub open spec fn starts(code: Seq<char>, front: Seq<char>) -> bool {
    exists|rest: Seq<char>| code == #[trigger] (front + rest)
}

proof fn lemma_starts(code: Seq<char>, front: Seq<char>)
    ensures
        starts(code, front) <==> text::begins(code, front),
{
    text_laws::law_occurrences(code, front);
}

/// The names of the sections of settings have different lengths.
proof fn lemma_sections_differ()
    ensures
        "theme"@.len() == 5,
        "keyboard-shortcuts"@.len() == 18,
        "hooks"@.len() == 5,
        "mcp"@.len() == 3,
        "skills"@.len() == 6,
        "model-settings"@.len() == 14,
        "system-settings"@.len() == 15,
        "hooks"@ != "theme"@,
{
    reveal_strlit("theme");
    reveal_strlit("keyboard-shortcuts");
    reveal_strlit("hooks");
    reveal_strlit("mcp");
    reveal_strlit("skills");
    reveal_strlit("model-settings");
    reveal_strlit("system-settings");
    assert("theme"@[0] == 't');
    assert("hooks"@[0] == 'h');
}

/// No code counts for two sections.
proof fn lemma_codes_differ(code: Seq<char>)
    ensures
        code == "theme_settings"@ ==> code[0] == 't',
        code == "keyboard_shortcuts"@ ==> code[0] == 'k',
        code == "hooks_global"@ ==> code[0] == 'h',
        text::begins(code, "hooks_project_"@) ==> code[0] == 'h',
        code == "mcp_global_scope"@ ==> code[0] == 'm',
        text::begins(code, "project_mcp_"@) ==> code[0] == 'p' && code[2] == 'o' && code[8] == 'm',
        text::begins(code, "project_skills_scope_"@) ==> code[0] == 'p' && code[2] == 'o' && code[8]
            == 's',
        code == "codebase_settings"@ ==> code[0] == 'c',
        code == "privacy_settings"@ ==> code[0] == 'p' && code[2] == 'i',
{
    reveal_strlit("theme_settings");
    reveal_strlit("keyboard_shortcuts");
    reveal_strlit("hooks_global");
    reveal_strlit("hooks_project_");
    reveal_strlit("mcp_global_scope");
    reveal_strlit("project_mcp_");
    reveal_strlit("project_skills_scope_");
    reveal_strlit("codebase_settings");
    reveal_strlit("privacy_settings");
    if text::begins(code, "hooks_project_"@) {
        assert(code.take(14)[0] == 'h');
    }
    if text::begins(code, "project_mcp_"@) {
        assert(code.take(12)[0] == 'p' && code.take(12)[8] == 'm' && code.take(12)[2] == 'o');
    }
    if text::begins(code, "project_skills_scope_"@) {
        assert(code.take(21)[0] == 'p' && code.take(21)[8] == 's' && code.take(21)[2] == 'o');
    }
}

/// The section of a system setting is told by its code: a whole code, or how
/// it begins. Every other setting is one of the system.
pub proof fn law_sections_of_settings(code: Seq<char>)
    ensures
        config::section_of(code) == "theme"@ <==> code == "theme_settings"@,
        config::section_of(code) == "keyboard-shortcuts"@ <==> code == "keyboard_shortcuts"@,
        config::section_of(code) == "hooks"@ <==> code == "hooks_global"@ || starts(
            code,
            "hooks_project_"@,
        ),
        config::section_of(code) == "mcp"@ <==> code == "mcp_global_scope"@ || starts(
            code,
            "project_mcp_"@,
        ),
        config::section_of(code) == "skills"@ <==> starts(code, "project_skills_scope_"@),
        config::section_of(code) == "model-settings"@ <==> code == "codebase_settings"@ || code
            == "privacy_settings"@,
        config::section_of(code) == "system-settings"@ <==> !(code == "theme_settings"@ || code
            == "keyboard_shortcuts"@ || code == "hooks_global"@ || code == "mcp_global_scope"@
            || code == "codebase_settings"@ || code == "privacy_settings"@ || starts(
            code,
            "hooks_project_"@,
        ) || starts(code, "project_mcp_"@) || starts(code, "project_skills_scope_"@)),
{
    lemma_starts(code, "hooks_project_"@);
    lemma_starts(code, "project_mcp_"@);
    lemma_starts(code, "project_skills_scope_"@);
    lemma_sections_differ();
    lemma_codes_differ(code);
}

/// Each table takes part with its section; that of the system settings takes
/// part always, since settings are told apart one by one.
pub proof fn law_tables_of_sections(table: Seq<char>, sections: Seq<Seq<char>>)
    ensures
        config::allowed(table, sections) <==> {
            ||| table == "system_settings"@
            ||| sections.contains("api-config"@) && (table == "api_configs"@ || table
                == "custom_header_schemes"@)
            ||| sections.contains("prompts"@) && table == "system_prompts"@
            ||| sections.contains("mcp"@) && table == "mcp_server_configs"@
            ||| sections.contains("sub-agents"@) && table == "sub_agent_configs"@
            ||| sections.contains("plugins"@) && (table == "plugins"@ || table
                == "plugin_marketplaces"@ || table == "plugin_components"@)
            ||| sections.contains("system-settings"@) && table == "sensitive_command_configs"@
        },
        config::tables_of(sections).contains(table) <==> config::allowed(table, sections),
{
    reveal_strlit("api_configs");
    reveal_strlit("custom_header_schemes");
    reveal_strlit("system_prompts");
    reveal_strlit("mcp_server_configs");
    reveal_strlit("sub_agent_configs");
    reveal_strlit("plugins");
    reveal_strlit("plugin_marketplaces");
    reveal_strlit("plugin_components");
    reveal_strlit("sensitive_command_configs");
    assert("api_configs"@.len() == 11);
    assert("custom_header_schemes"@.len() == 21);
    assert("system_prompts"@.len() == 14);
    assert("mcp_server_configs"@.len() == 18);
    assert("sub_agent_configs"@.len() == 17 && "sub_agent_configs"@[0] == 's');
    assert("plugins"@.len() == 7);
    assert("plugin_marketplaces"@.len() == 19);
    assert("plugin_components"@.len() == 17 && "plugin_components"@[0] == 'p');
    assert("sensitive_command_configs"@.len() == 25);
    config::law_allowed_tables(table, sections);
    let p = |t: Seq<char>| config::allowed(t, sections);
    let all = config::config_tables();
    let names = config::tables_of(sections);
    if names.contains(table) {
        let i = choose|i: int| 0 <= i < names.len() && names[i] == table;
        all.lemma_filter_pred(p, i);
    }
    if config::allowed(table, sections) {
        let i = choose|i: int| 0 <= i < all.len() && all[i] == table;
        all.lemma_filter_contains(p, i);
    }
}

/// Whether there is a section of this name.
pub open spec fn is_section(name: Seq<char>) -> bool {
    ||| name == "api-config"@
    ||| name == "model-settings"@
    ||| name == "system-settings"@
    ||| name == "mcp"@
    ||| name == "prompts"@
    ||| name == "hooks"@
    ||| name == "sub-agents"@
    ||| name == "keyboard-shortcuts"@
    ||| name == "theme"@
    ||| name == "skills"@
    ||| name == "plugins"@
}

proof fn lemma_known(name: Seq<char>)
    ensures
        config::known_sections().contains(name) <==> is_section(name),
{
    let all = config::known_sections();
    assert(all[0] == "api-config"@);
    assert(all[1] == "model-settings"@);
    assert(all[2] == "system-settings"@);
    assert(all[3] == "mcp"@);
    assert(all[4] == "prompts"@);
    assert(all[5] == "hooks"@);
    assert(all[6] == "sub-agents"@);
    assert(all[7] == "keyboard-shortcuts"@);
    assert(all[8] == "theme"@);
    assert(all[9] == "skills"@);
    assert(all[10] == "plugins"@);
    if all.contains(name) {
        let i = choose|i: int| 0 <= i < all.len() && all[i] == name;
        assert(0 <= i < 11);
    }
}

/// No name of a list is unknown where each is that of a section.
pub proof fn lemma_first_unknown(names: Seq<Seq<char>>)
    ensures
        config::first_unknown(names) is None <==> forall|i: int|
            0 <= i < names.len() ==> is_section(#[trigger] names[i]),
    decreases names.len(),
{
    if names.len() > 0 {
        lemma_known(names[0]);
        lemma_first_unknown(names.skip(1));
        if config::first_unknown(names) is None {
            assert forall|i: int| 0 <= i < names.len() implies is_section(#[trigger] names[i]) by {
                if i > 0 {
                    assert(names.skip(1)[i - 1] == names[i]);
                }
            }
        }
        if forall|i: int| 0 <= i < names.len() ==> is_section(#[trigger] names[i]) {
            assert(is_section(names[0]));
            assert forall|i: int| 0 <= i < names.skip(1).len() implies is_section(
                #[trigger] names.skip(1)[i],
            ) by {
                assert(names.skip(1)[i] == names[i + 1]);
            }
        }
    }
}

proof fn lemma_first_missing(names: Seq<Seq<char>>, set: Seq<Seq<char>>)
    ensures
        import::first_missing(names, set) is None <==> forall|i: int|
            0 <= i < names.len() ==> set.contains(#[trigger] names[i]),
    decreases names.len(),
{
    if names.len() > 0 {
        lemma_first_missing(names.skip(1), set);
        if import::first_missing(names, set) is None {
            assert forall|i: int| 0 <= i < names.len() implies set.contains(#[trigger] names[i]) by {
                if i > 0 {
                    assert(names.skip(1)[i - 1] == names[i]);
                }
            }
        }
        if forall|i: int| 0 <= i < names.len() ==> set.contains(#[trigger] names[i]) {
            assert(set.contains(names[0]));
            assert forall|i: int| 0 <= i < names.skip(1).len() implies set.contains(
                #[trigger] names.skip(1)[i],
            ) by {
                assert(names.skip(1)[i] == names[i + 1]);
            }
        }
    }
}

/// A package is accepted exactly where its format is the known one, all of
/// its sections exist, it has every section asked for, and it has no more
/// than fifty thousand rows.
pub proof fn law_which_packages_are_accepted(
    bundle: ConfigBundleModel,
    requested: Seq<Seq<char>>,
)
    ensures
        import::bundle_error(bundle, requested) is None <==> {
            &&& bundle.format_version == 1
            &&& forall|i: int|
                0 <= i < bundle.sections.len() ==> is_section(#[trigger] bundle.sections[i])
            &&& forall|i: int|
                0 <= i < requested.len() ==> bundle.sections.contains(#[trigger] requested[i])
            &&& import::total_rows(bundle.tables) <= 50000
        },
{
    let set = config::name_set(bundle.sections);
    config::law_name_set(bundle.sections);
    lemma_first_unknown(set);
    lemma_first_missing(requested, set);
    if forall|i: int| 0 <= i < set.len() ==> is_section(#[trigger] set[i]) {
        assert forall|i: int| 0 <= i < bundle.sections.len() implies is_section(
            #[trigger] bundle.sections[i],
        ) by {
            assert(bundle.sections.contains(bundle.sections[i]));
            assert(set.contains(bundle.sections[i]));
            let k = choose|k: int| 0 <= k < set.len() && set[k] == bundle.sections[i];
            assert(is_section(set[k]));
        }
    }
    if forall|i: int|
        0 <= i < bundle.sections.len() ==> is_section(#[trigger] bundle.sections[i]) {
        assert forall|i: int| 0 <= i < set.len() implies is_section(#[trigger] set[i]) by {
            assert(set.contains(set[i]));
            assert(bundle.sections.contains(set[i]));
            let k = choose|k: int|
                0 <= k < bundle.sections.len() && bundle.sections[k] == set[i];
            assert(is_section(bundle.sections[k]));
        }
    }
    if forall|i: int| 0 <= i < requested.len() ==> set.contains(#[trigger] requested[i]) {
        assert forall|i: int| 0 <= i < requested.len() implies bundle.sections.contains(
            #[trigger] requested[i],
        ) by {
            assert(set.contains(requested[i]));
        }
    }
    if forall|i: int|
        0 <= i < requested.len() ==> bundle.sections.contains(#[trigger] requested[i]) {
        assert forall|i: int| 0 <= i < requested.len() implies set.contains(
            #[trigger] requested[i],
        ) by {
            assert(bundle.sections.contains(requested[i]));
        }
    }
}

/// The rows of a package are those of all its tables.
pub proof fn law_rows_are_counted(
    tables: Seq<(Seq<char>, Seq<JsonModel>)>,
    name: Seq<char>,
    rows: Seq<JsonModel>,
)
    ensures
        import::total_rows(Seq::empty()) == 0,
        import::total_rows(tables.push((name, rows))) == import::total_rows(tables) + rows.len(),
{
    assert(tables.push((name, rows)).drop_last() =~= tables);
}

// ---------------------------------------------------------------------
// What is exported
// ---------------------------------------------------------------------

/// Whether a column holds a secret.
pub open spec fn is_secret_column(column: Seq<char>) -> bool {
    ||| column == "api_key"@
    ||| column == "vision_api_key"@
    ||| column == "env_json"@
    ||| column == "headers_json"@
}

/// Whether a name ends with a text.
pub open spec fn ends(name: Seq<char>, back: Seq<char>) -> bool {
    exists|front: Seq<char>| name == #[trigger] (front + back)
}

/// What an export shows of a value. Columns of a device are never shown, and
/// columns of secrets only where secrets are asked for. The value of a
/// setting that names a directory is the marker. JSON text is shown with its
/// hidden fields replaced; every other value is shown as it is.
pub proof fn law_what_is_exported(
    table: Seq<char>,
    column: Seq<char>,
    value: JsonModel,
    code: Seq<char>,
    include_secrets: bool,
)
    ensures
        ({
            let shown = export::exported_value(table, column, value, code, include_secrets);
            let setting = table == "system_settings"@ && column == "setting_value"@;
            if crate::config::statements::is_of_device(column) || (is_secret_column(column)
                && !include_secrets) {
                shown is None
            } else if setting && ends(code, "_dir"@) {
                shown == Some(JsonModel::Str("__SNOWAPP_REDACTED__"@))
            } else {
                match value {
                    JsonModel::Str(raw) if setting || ends(column, "_json"@) => {
                        match json::parsed(raw) {
                            Ok(v) => {
                                &&& json::printed(
                                    redact::sanitized(v, None, include_secrets),
                                ) matches Ok(clean) ==> shown == Some(JsonModel::Str(clean))
                                &&& json::printed(
                                    redact::sanitized(v, None, include_secrets),
                                ) is Err ==> shown == Some(value)
                            },
                            Err(_) => shown == Some(value),
                        }
                    },
                    _ => shown == Some(value),
                }
            }
        }),
{
    text_laws::law_occurrences(code, "_dir"@);
    text_laws::law_occurrences(column, "_json"@);
}

proof fn lemma_put_lookup(fields: FieldsModel, name: Seq<char>, value: JsonModel, other: Seq<char>)
    requires
        json::names_in_order(fields),
    ensures
        json::names_in_order(json::put(fields, name, value)),
        forall|i: int|
            0 <= i < json::put(fields, name, value).len() ==> (#[trigger] json::put(
                fields,
                name,
                value,
            )[i]).0 == name || exists|k: int|
                0 <= k < fields.len() && (#[trigger] fields[k]).0 == json::put(fields, name, value)[i].0,
        json::lookup(json::put(fields, name, value), other) == (if other == name {
            Some(value)
        } else {
            json::lookup(fields, other)
        }),
    decreases fields.len(),
{
    let out = json::put(fields, name, value);
    if fields.len() == 0 {
    } else {
        let last = fields.last();
        let front = fields.drop_last();
        order::lemma_before_total(last.0, name);
        assert(json::names_in_order(front)) by {
            assert forall|i: int, j: int| 0 <= i < j < front.len() implies order::before(
                (#[trigger] front[i]).0,
                (#[trigger] front[j]).0,
            ) by {
                assert(order::before(fields[i].0, fields[j].0));
            }
        }
        if order::before(last.0, name) {
            assert forall|i: int, j: int| 0 <= i < j < out.len() implies order::before(
                (#[trigger] out[i]).0,
                (#[trigger] out[j]).0,
            ) by {
                if j < fields.len() {
                    assert(order::before(fields[i].0, fields[j].0));
                } else if i < fields.len() - 1 {
                    assert(order::before(fields[i].0, fields[fields.len() - 1].0));
                    order::lemma_before_transitive(fields[i].0, last.0, name);
                }
            }
            assert forall|i: int| 0 <= i < out.len() implies (#[trigger] out[i]).0 == name || exists|
                k: int,
            |
                0 <= k < fields.len() && (#[trigger] fields[k]).0 == out[i].0 by {
                if i < fields.len() {
                    assert(fields[i].0 == out[i].0);
                }
            }
            assert(out.drop_last() =~= fields);
        } else if last.0 == name {
            assert(out.drop_last() =~= front);
            assert forall|i: int, j: int| 0 <= i < j < out.len() implies order::before(
                (#[trigger] out[i]).0,
                (#[trigger] out[j]).0,
            ) by {
                assert(order::before(fields[i].0, fields[j].0));
            }
            assert forall|i: int| 0 <= i < out.len() implies (#[trigger] out[i]).0 == name || exists|
                k: int,
            |
                0 <= k < fields.len() && (#[trigger] fields[k]).0 == out[i].0 by {
                assert(fields[i].0 == out[i].0);
            }
        } else {
            lemma_put_lookup(front, name, value, other);
            let inner = json::put(front, name, value);
            assert(out.drop_last() =~= inner);
            assert forall|i: int, j: int| 0 <= i < j < out.len() implies order::before(
                (#[trigger] out[i]).0,
                (#[trigger] out[j]).0,
            ) by {
                if j == inner.len() {
                    if inner[i].0 != name {
                        let k = choose|k: int|
                            0 <= k < front.len() && (#[trigger] front[k]).0 == inner[i].0;
                        assert(order::before(fields[k].0, fields[fields.len() - 1].0));
                    }
                } else {
                    assert(order::before(inner[i].0, inner[j].0));
                }
            }
            assert forall|i: int| 0 <= i < out.len() implies (#[trigger] out[i]).0 == name || exists|
                k: int,
            |
                0 <= k < fields.len() && (#[trigger] fields[k]).0 == out[i].0 by {
                if i < inner.len() {
                    if inner[i].0 != name {
                        let k = choose|k: int|
                            0 <= k < front.len() && (#[trigger] front[k]).0 == inner[i].0;
                        assert(fields[k].0 == out[i].0);
                    }
                } else {
                    assert(fields[fields.len() - 1].0 == out[i].0);
                }
            }
        }
    }
}

/// A field that is set is found with its value, and every other field with
/// the value that it had.
pub proof fn law_fields_are_set(
    fields: FieldsModel,
    name: Seq<char>,
    value: JsonModel,
    other: Seq<char>,
)
    requires
        json::names_in_order(fields),
    ensures
        json::names_in_order(json::put(fields, name, value)),
        json::lookup(json::put(fields, name, value), name) == Some(value),
        other != name ==> json::lookup(json::put(fields, name, value), other) == json::lookup(
            fields,
            other,
        ),
{
    lemma_put_lookup(fields, name, value, other);
    lemma_put_lookup(fields, name, value, name);
}

proof fn lemma_row_object(row: Seq<(Seq<char>, SqlModel)>, i: int)
    requires
        crate::config::statements::columns_differ(row),
    ensures
        json::names_in_order(export::row_object(row)),
        0 <= i < row.len() ==> json::lookup(export::row_object(row), row[i].0) == Some(
            sql::json_form(row[i].1),
        ),
    decreases row.len(),
{
    if row.len() > 0 {
        let front = row.drop_last();
        assert(crate::config::statements::columns_differ(front)) by {
            assert forall|a: int, b: int| 0 <= a < b < front.len() implies (#[trigger] front[a]).0
                != (#[trigger] front[b]).0 by {
                assert(row[a].0 != row[b].0);
            }
        }
        lemma_row_object(front, i);
        let at = if 0 <= i < row.len() { row[i].0 } else { row.last().0 };
        lemma_put_lookup(
            export::row_object(front),
            row.last().0,
            sql::json_form(row.last().1),
            at,
        );
        if 0 <= i < front.len() {
            assert(front[i] == row[i]);
            assert(row[i].0 != row[row.len() - 1].0);
        }
    }
}

proof fn lemma_chosen_lookup(
    fields: FieldsModel,
    g: spec_fn((Seq<char>, JsonModel)) -> Option<(Seq<char>, JsonModel)>,
    name: Seq<char>,
)
    requires
        forall|f: (Seq<char>, JsonModel)| #[trigger]
            g(f) matches Some(x) ==> x.0 == f.0,
        json::names_in_order(fields),
    ensures
        json::lookup(fields.filter_map(g), name) == (match json::lookup(fields, name) {
            Some(v) => match g((name, v)) {
                Some(x) => Some(x.1),
                None => None,
            },
            None => None,
        }),
    decreases fields.len(),
{
    reveal_with_fuel(Seq::filter_map, 2);
    if fields.len() > 0 {
        let front = fields.drop_last();
        let last = fields.last();
        assert(json::names_in_order(front)) by {
            assert forall|i: int, j: int| 0 <= i < j < front.len() implies order::before(
                (#[trigger] front[i]).0,
                (#[trigger] front[j]).0,
            ) by {
                assert(order::before(fields[i].0, fields[j].0));
            }
        }
        lemma_chosen_lookup(front, g, name);
        let before = front.filter_map(g);
        let out = fields.filter_map(g);
        match g(last) {
            Some(x) => {
                assert(out == before.push(x));
                assert(out.drop_last() =~= before);
                assert(last == (last.0, last.1));
            },
            None => {
                assert(out == before);
                if last.0 == name {
                    assert(last == (name, last.1));
                }
            },
        }
        if last.0 == name {
            assert(last == (name, last.1));
            lemma_not_in_front(fields, name);
        }
    }
}

proof fn lemma_not_in_front(fields: FieldsModel, name: Seq<char>)
    requires
        json::names_in_order(fields),
        fields.len() > 0,
        fields.last().0 == name,
    ensures
        json::lookup(fields.drop_last(), name) is None,
{
    let front = fields.drop_last();
    assert forall|i: int| 0 <= i < front.len() implies (#[trigger] front[i]).0 != name by {
        assert(order::before(fields[i].0, fields[fields.len() - 1].0));
        order::lemma_before_total(fields[i].0, name);
    }
    lemma_lookup_none(front, name);
}

proof fn lemma_lookup_none(fields: FieldsModel, name: Seq<char>)
    requires
        forall|i: int| 0 <= i < fields.len() ==> (#[trigger] fields[i]).0 != name,
    ensures
        json::lookup(fields, name) is None,
    decreases fields.len(),
{
    if fields.len() > 0 {
        assert(fields[fields.len() - 1].0 != name);
        assert forall|i: int| 0 <= i < fields.drop_last().len() implies (
        #[trigger] fields.drop_last()[i]).0 != name by {
            assert(fields[i].0 != name);
        }
        lemma_lookup_none(fields.drop_last(), name);
    }
}

/// An exported row is an object with a field for every column that is shown,
/// under the name of the column. Every row is exported, but for a system
/// setting whose section was not chosen.
pub proof fn law_rows_are_exported(
    table: Seq<char>,
    sections: Seq<Seq<char>>,
    include_secrets: bool,
    row: Seq<(Seq<char>, SqlModel)>,
    i: int,
)
    requires
        crate::config::statements::columns_differ(row),
        0 <= i < row.len(),
    ensures
        ({
            let code = json::text_field(export::row_object(row), "setting_code"@);
            match export::exported_row(table, sections, include_secrets, row) {
                None => table == "system_settings"@ && !sections.contains(config::section_of(code)),
                Some(JsonModel::Object(fields)) => {
                    &&& table == "system_settings"@ ==> sections.contains(config::section_of(code))
                    &&& json::lookup(fields, row[i].0) == export::exported_value(
                        table,
                        row[i].0,
                        sql::json_form(row[i].1),
                        code,
                        include_secrets,
                    )
                },
                _ => false,
            }
        }),
        row[i].0 == "setting_code"@ ==> json::text_field(export::row_object(row), "setting_code"@)
            == (match row[i].1 {
            SqlModel::Text(s) => s,
            SqlModel::Blob(b) => "base64:"@ + sql::base64_text(b),
            _ => Seq::empty(),
        }),
{
    lemma_row_object(row, i);
    let fields = export::row_object(row);
    let code = json::text_field(fields, "setting_code"@);
    let g = |f: (Seq<char>, JsonModel)|
        match export::exported_value(table, f.0, f.1, code, include_secrets) {
            Some(v) => Some((f.0, v)),
            None => None,
        };
    assert(export::exported_fields(table, fields, code, include_secrets) == fields.filter_map(g));
    lemma_chosen_lookup(fields, g, row[i].0);
}

// ---------------------------------------------------------------------
// Merging
// ---------------------------------------------------------------------

/// Merging goes field by field: a field that is not incoming, or comes
/// hidden, keeps its value; a new field is added; a field on both sides is
/// merged in turn.
pub proof fn law_merging_goes_by_field(
    existing: FieldsModel,
    incoming: FieldsModel,
    name: Seq<char>,
)
    requires
        json::names_in_order(existing),
        json::names_in_order(incoming),
    ensures
        json::names_in_order(redact::merged_fields(existing, incoming)),
        json::lookup(redact::merged_fields(existing, incoming), name) == (match json::lookup(
            incoming,
            name,
        ) {
            None => json::lookup(existing, name),
            Some(v) => if v == JsonModel::Str("__SNOWAPP_REDACTED__"@) {
                json::lookup(existing, name)
            } else {
                match json::lookup(existing, name) {
                    Some(old) => Some(redact::merged(old, v)),
                    None => Some(v),
                }
            },
        }),
    decreases incoming.len(),
{
    if incoming.len() > 0 {
        let front = incoming.drop_last();
        let last = incoming.last();
        assert(json::names_in_order(front)) by {
            assert forall|i: int, j: int| 0 <= i < j < front.len() implies order::before(
                (#[trigger] front[i]).0,
                (#[trigger] front[j]).0,
            ) by {
                assert(order::before(incoming[i].0, incoming[j].0));
            }
        }
        law_merging_goes_by_field(existing, front, name);
        law_merging_goes_by_field(existing, front, last.0);
        lemma_not_in_front(incoming, last.0);
        let so_far = redact::merged_fields(existing, front);
        if last.1 != redact::marker() {
            let value = match json::lookup(so_far, last.0) {
                Some(before) => redact::merged(before, last.1),
                None => last.1,
            };
            lemma_put_lookup(so_far, last.0, value, name);
        }
    }
}

// ---------------------------------------------------------------------
// Settings that are removed, tables and rows that are visited
// ---------------------------------------------------------------------

/// Replacing removes exactly the settings of the sections asked for that the
/// package has no row for.
pub proof fn law_which_settings_are_removed(
    existing: Seq<Seq<char>>,
    rows: Seq<JsonModel>,
    requested: Seq<Seq<char>>,
    code: Seq<char>,
)
    ensures
        job::codes_to_remove(existing, rows, requested).contains(code) <==> {
            &&& existing.contains(code)
            &&& requested.contains(config::section_of(code))
            &&& !exists|i: int|
                0 <= i < rows.len() && (#[trigger] rows[i] matches JsonModel::Object(fields)
                    && json::lookup(fields, "setting_code"@) == Some(JsonModel::Str(code)))
        },
{
    let p = |c: Seq<char>|
        requested.contains(config::section_of(c)) && !job::package_codes(rows).contains(c);
    let out = job::codes_to_remove(existing, rows, requested);
    assert(out == existing.filter(p));
    let f = |row: JsonModel| json::as_text(job::field_of(row, "setting_code"@));
    assert(job::package_codes(rows) == rows.filter_map(f));
    crate::rows::lemma_filter_map_contains(rows, f, code);
    if out.contains(code) {
        let i = choose|i: int| 0 <= i < out.len() && out[i] == code;
        existing.lemma_filter_pred(p, i);
        assert(existing.filter(p).contains(code));
        existing.lemma_filter_contains_rev(p, code);
    }
    if existing.contains(code) && p(code) {
        let i = choose|i: int| 0 <= i < existing.len() && existing[i] == code;
        existing.lemma_filter_contains(p, i);
    }
    if job::package_codes(rows).contains(code) {
        let i = choose|i: int| 0 <= i < rows.len() && f(#[trigger] rows[i]) == Some(code);
        assert(rows[i] is Object);
    }
    if exists|i: int|
        0 <= i < rows.len() && (#[trigger] rows[i] matches JsonModel::Object(fields)
            && json::lookup(fields, "setting_code"@) == Some(JsonModel::Str(code))) {
        let i = choose|i: int|
            0 <= i < rows.len() && (#[trigger] rows[i] matches JsonModel::Object(fields)
                && json::lookup(fields, "setting_code"@) == Some(JsonModel::Str(code)));
        assert(f(rows[i]) == Some(code));
    }
}

/// No table that was asked for is passed over: an import goes to the next
/// one, and ends only behind the last. It goes on as long as the tables
/// belong to sections of the package.
pub proof fn law_no_table_is_passed_over(job: job::ConfigImportModel, t: int, k: int)
    requires
        0 <= t <= k < job.tables.len(),
        config::allowed(job.tables[k].0, job.requested),
        forall|j: int|
            t <= j <= k ==> config::allowed((#[trigger] job.tables[j]).0, job.package_sections),
    ensures
        job::at_table(job, t) is Ok,
        job::at_table(job, t)->Ok_0.0 matches job::PlaceModel::Columns { table } && t <= table <= k
            && config::allowed(job.tables[table].0, job.requested),
        job::at_table(job, t)->Ok_0.1 == (job::ImportActionModel::ReadColumns {
            table: job.tables[job::at_table(job, t)->Ok_0.0->Columns_table].0,
        }),
    decreases k - t,
{
    assert(config::allowed(job.tables[t].0, job.package_sections));
    if !config::allowed(job.tables[t].0, job.requested) {
        law_no_table_is_passed_over(job, t + 1, k);
    }
}

/// Whether a row of a package is a system setting of a section that was not
/// asked for.
pub open spec fn is_not_asked_for(job: job::ConfigImportModel, t: int, r: int) -> bool {
    job.tables[t].0 == "system_settings"@ && (job.tables[t].1[r] matches JsonModel::Object(fields)
        && !job.requested.contains(
        config::section_of(json::text_field(fields, "setting_code"@)),
    ))
}

/// The column by which rows of a table are told apart: one of its own for
/// some tables, or else the primary key.
pub open spec fn key_column(table: Seq<char>, primary: Seq<char>) -> Seq<char> {
    if table == "system_settings"@ {
        "setting_code"@
    } else if table == "api_configs"@ {
        "profile_name"@
    } else if table == "system_prompts"@ {
        "prompt_id"@
    } else if table == "custom_header_schemes"@ {
        "scheme_id"@
    } else if table == "mcp_server_configs"@ {
        "server_id"@
    } else {
        primary
    }
}

/// Whether a row of a package can be taken: it is an object, holds a value
/// in its key column that the database can hold, and a setting belongs to a
/// section of the package.
pub open spec fn is_sound_row(
    job: job::ConfigImportModel,
    t: int,
    r: int,
    primary: Seq<char>,
) -> bool {
    job.tables[t].1[r] matches JsonModel::Object(fields) && {
        &&& json::lookup(fields, key_column(job.tables[t].0, primary)) is Some
        &&& sql::sql_form(
            json::lookup(fields, key_column(job.tables[t].0, primary))->0,
        ) is Ok
        &&& job.tables[t].0 == "system_settings"@ ==> job.package_sections.contains(
            config::section_of(json::text_field(fields, "setting_code"@)),
        )
    }
}

/// No row is passed over but settings of sections that were not asked for:
/// the import looks up the next row by the value of its key column.
pub proof fn law_no_row_is_passed_over(
    job: job::ConfigImportModel,
    t: int,
    r: int,
    k: int,
    columns: Seq<Seq<char>>,
    primary: Seq<char>,
)
    requires
        0 <= t < job.tables.len(),
        0 <= r <= k < job.tables[t].1.len(),
        !is_not_asked_for(job, t, k),
        forall|j: int| r <= j <= k ==> #[trigger] is_sound_row(job, t, j, primary),
    ensures
        ({
            let step = job::at_row(job, t, r, columns, primary);
            let table = job.tables[t].0;
            let key = key_column(table, primary);
            &&& step is Ok
            &&& step->Ok_0.0 is Row
            &&& step->Ok_0.0->Row_table == t
            &&& r <= step->Ok_0.0->Row_row <= k
            &&& step->Ok_0.0->Row_columns == columns
            &&& step->Ok_0.0->Row_primary == primary
            &&& !is_not_asked_for(job, t, step->Ok_0.0->Row_row)
            &&& step->Ok_0.1 == (job::ImportActionModel::ReadRow {
                table,
                sql: "SELECT * FROM \""@ + table + "\" WHERE \""@ + key + "\" = ?1 LIMIT 1"@,
                key: sql::sql_form(
                    json::lookup(job.tables[t].1[step->Ok_0.0->Row_row]->Object_0, key)->0,
                )->Ok_0,
            })
        }),
    decreases k - r,
{
    assert(is_sound_row(job, t, r, primary));
    if is_not_asked_for(job, t, r) {
        law_no_row_is_passed_over(job, t, r + 1, k, columns, primary);
    }
}

/// Behind its last row a table is done, unless it is to be replaced: then
/// rows that the package does not hold are removed, for system settings one
/// by one.
pub proof fn law_replacing_removes(
    job: job::ConfigImportModel,
    t: int,
    columns: Seq<Seq<char>>,
    primary: Seq<char>,
)
    requires
        0 <= t < job.tables.len(),
    ensures
        ({
            let step = job::at_row(job, t, job.tables[t].1.len() as int, columns, primary);
            let table = job.tables[t].0;
            if !job.replace_selected {
                step == job::at_table(job, t + 1)
            } else if table == "system_settings"@ {
                step is Ok && step->Ok_0.1 is ReadSettingCodes
            } else {
                match job::removal(table, job.tables[t].1, primary) {
                    Ok(statement) => step is Ok && step->Ok_0.1 == (
                    job::ImportActionModel::Execute { table, statement }),
                    Err(e) => step == Err::<
                        (job::PlaceModel, job::ImportActionModel),
                        ErrorModel,
                    >(e),
                }
            }
        }),
{
}

/// A row that was asked for is written, whether the table has it already or
/// not: the next action is the statement for the values that the row gives.
pub proof fn law_rows_are_written(
    job: job::ConfigImportModel,
    t: int,
    r: int,
    columns: Seq<Seq<char>>,
    primary: Seq<char>,
    current: Option<Seq<(Seq<char>, SqlModel)>>,
    values: Seq<(Seq<char>, SqlModel)>,
)
    requires
        0 <= t < job.tables.len(),
        0 <= r < job.tables[t].1.len(),
        job.tables[t].1[r] is Object,
        import::row_values(
            job.tables[t].0,
            job.tables[t].1[r]->Object_0,
            columns,
            match current {
                Some(row) => Some(export::row_object(row)),
                None => None,
            },
        ) == Ok::<Seq<(Seq<char>, SqlModel)>, ErrorModel>(values),
        values.len() > 0,
    ensures
        ({
            let step = job::next_step(
                job,
                job::PlaceModel::Row { table: t, row: r, columns, primary },
                job::ImportEventModel::Row(current),
            );
            let table = job.tables[t].0;
            let identity = key_column(table, primary);
            &&& step is Ok
            &&& step->Ok_0.1 is Execute
            &&& step->Ok_0.1->Execute_table == table
            &&& step->Ok_0.1->statement.sql == crate::config::statements::upsert_sql(
                crate::config::statements::meant(table, identity, values),
            )
            &&& step->Ok_0.1->statement.params == crate::config::statements::values_of(table, values)
        }),
{
    let table = job.tables[t].0;
    crate::config::statements::law_upsert_reads_as_meant(
        table,
        import::identity_column(table, primary),
        values,
    );
    assert(import::with_demanded(table, values).len() >= values.len());
}

} // verus!
