//! Rules for commands that need a second look.

use vstd::prelude::*;
use crate::text;

verus! {

/// A rule: a regular expression for commands, and what it is about.
pub struct SensitiveCommandConfig {
    pub command_id: String,
    pub pattern: String,
    pub description: String,
    pub enabled: bool,
}

/// The mathematical form of a rule.
pub struct RuleModel {
    pub command_id: Seq<char>,
    pub pattern: Seq<char>,
    pub description: Seq<char>,
    pub enabled: bool,
}

impl DeepView for SensitiveCommandConfig {
    type V = RuleModel;

    open spec fn deep_view(&self) -> RuleModel {
        RuleModel {
            command_id: self.command_id@,
            pattern: self.pattern@,
            description: self.description@,
            enabled: self.enabled,
        }
    }
}

/// A text that is about to be run: a command, or the content of a script
/// together with where it lies.
pub struct Candidate {
    pub text: String,
    pub source: Option<String>,
}

/// The mathematical form of a text that is about to be run.
pub struct CandidateModel {
    pub text: Seq<char>,
    pub source: Option<Seq<char>>,
}

impl DeepView for Candidate {
    type V = CandidateModel;

    open spec fn deep_view(&self) -> CandidateModel {
        CandidateModel { text: self.text@, source: self.source.deep_view() }
    }
}

/// A rule that a text met.
pub struct SensitiveCommandMatchResult {
    pub command_id: String,
    pub pattern: String,
    pub description: String,
}

/// The mathematical form of a rule that was met.
pub struct MatchModel {
    pub command_id: Seq<char>,
    pub pattern: Seq<char>,
    pub description: Seq<char>,
}

impl DeepView for SensitiveCommandMatchResult {
    type V = MatchModel;

    open spec fn deep_view(&self) -> MatchModel {
        MatchModel {
            command_id: self.command_id@,
            pattern: self.pattern@,
            description: self.description@,
        }
    }
}

/// Whether a text holds a match for a regular expression; none where the
/// expression is malformed.
pub uninterp spec fn expression_matches(pattern: Seq<char>, haystack: Seq<char>) -> Option<bool>;

/// `regex::Regex::new` and `regex::Regex::is_match`: whether there is a
/// match for the expression anywhere in the text, and nothing where the
/// expression is refused. The answer depends on the two texts alone; which
/// texts match which expressions is not stated.
#[verifier::external_body]
fn matches_expression(pattern: &str, haystack: &str) -> (r: Option<bool>)
    ensures
        r == expression_matches(pattern@, haystack@),
{
    regex::Regex::new(pattern).ok().map(|expression| expression.is_match(haystack))
}

/// What was found so far: the matches, and for which rules and sources.
pub struct FoundModel {
    pub matches: Seq<MatchModel>,
    pub seen: Seq<(Seq<char>, Option<Seq<char>>)>,
}

/// What a match says it is about. For a script it says where that lies.
pub open spec fn described(description: Seq<char>, source: Option<Seq<char>>) -> Seq<char> {
    match source {
        Some(path) => description + " (via script "@ + path + ")"@,
        None => description,
    }
}

/// What was found after one more rule was held against a text.
pub open spec fn found_one(
    found: FoundModel,
    rule: RuleModel,
    candidate: CandidateModel,
    hit: bool,
) -> FoundModel {
    let key = (rule.command_id, candidate.source);
    if !rule.enabled || !hit || found.seen.contains(key) {
        found
    } else {
        FoundModel {
            matches: found.matches.push(
                MatchModel {
                    command_id: rule.command_id,
                    pattern: rule.pattern,
                    description: described(rule.description, candidate.source),
                },
            ),
            seen: found.seen.push(key),
        }
    }
}

/// What was found after the first rules were held against a text.
pub open spec fn found_in_text(
    found: FoundModel,
    rules: Seq<RuleModel>,
    candidate: CandidateModel,
    hits: Seq<bool>,
    n: int,
) -> FoundModel
    decreases n,
{
    if n <= 0 {
        found
    } else {
        found_one(
            found_in_text(found, rules, candidate, hits, n - 1),
            rules[n - 1],
            candidate,
            hits[n - 1],
        )
    }
}

/// What was found after the rules were held against the first texts.
/// `hits` tells for every text and rule whether the text holds a match.
pub open spec fn found_in_all(
    rules: Seq<RuleModel>,
    candidates: Seq<CandidateModel>,
    hits: Seq<Seq<bool>>,
    n: int,
) -> FoundModel
    decreases n,
{
    if n <= 0 {
        FoundModel { matches: Seq::empty(), seen: Seq::empty() }
    } else {
        found_in_text(
            found_in_all(rules, candidates, hits, n - 1),
            rules,
            candidates[n - 1],
            hits[n - 1],
            rules.len() as int,
        )
    }
}

/// For every text and rule whether the text holds a match. A malformed rule
/// matches nothing.
pub open spec fn hits_of(rules: Seq<RuleModel>, candidates: Seq<CandidateModel>) -> Seq<Seq<bool>> {
    Seq::new(
        candidates.len(),
        |i: int|
            Seq::new(
                rules.len(),
                |j: int| expression_matches(rules[j].pattern, candidates[i].text) == Some(true),
            ),
    )
}

/// Whether rule and source were found before.
fn was_seen(seen: &Vec<(String, Option<String>)>, command_id: &str, source: &Option<String>) -> (r:
    bool)
    ensures
        r == seen.deep_view().contains((command_id@, source.deep_view())),
{
    let ghost all = seen.deep_view();
    let wanted = text::chars_of(command_id);
    let mut i: usize = 0;
    while i < seen.len()
        invariant
            i <= seen@.len(),
            all == seen.deep_view(),
            wanted@ == command_id@,
            forall|j: int| 0 <= j < i ==> all[j] != (command_id@, source.deep_view()),
        decreases seen@.len() - i,
    {
        proof {
            assert(all[i as int] == seen@[i as int].deep_view());
        }
        let same_source = match (&seen[i].1, source) {
            (Some(a), Some(b)) => {
                let left = text::chars_of(a.as_str());
                text::equals(left.as_slice(), b.as_str())
            },
            (None, None) => true,
            _ => false,
        };
        if same_source && text::equals(wanted.as_slice(), seen[i].0.as_str()) {
            proof {
                assert(all[i as int] == (command_id@, source.deep_view()));
            }
            return true;
        }
        i += 1;
    }
    false
}

/// The matches of texts, given for every text and rule whether the text
/// holds a match. A rule is reported once for a source.
pub fn collect_matches(
    configs: &Vec<SensitiveCommandConfig>,
    candidates: &Vec<Candidate>,
    hits: &Vec<Vec<bool>>,
) -> (out: Vec<SensitiveCommandMatchResult>)
    requires
        hits@.len() == candidates@.len(),
        forall|i: int| 0 <= i < hits@.len() ==> (#[trigger] hits@[i])@.len() == configs@.len(),
    ensures
        out.deep_view() == found_in_all(
            configs.deep_view(),
            candidates.deep_view(),
            hits.deep_view(),
            candidates@.len() as int,
        ).matches,
{
    let ghost rules = configs.deep_view();
    let ghost texts = candidates.deep_view();
    let ghost table = hits.deep_view();
    let mut out: Vec<SensitiveCommandMatchResult> = Vec::new();
    let mut seen: Vec<(String, Option<String>)> = Vec::new();
    let mut i: usize = 0;
    proof {
        assert(out.deep_view() =~= Seq::empty());
        assert(seen.deep_view() =~= Seq::empty());
    }
    while i < candidates.len()
        invariant
            i <= candidates@.len() == hits@.len(),
            rules == configs.deep_view(),
            texts == candidates.deep_view(),
            table == hits.deep_view(),
            forall|i: int| 0 <= i < hits@.len() ==> (#[trigger] hits@[i])@.len() == configs@.len(),
            found_in_all(rules, texts, table, i as int) == (FoundModel {
                matches: out.deep_view(),
                seen: seen.deep_view(),
            }),
        decreases candidates@.len() - i,
    {
        let candidate = &candidates[i];
        let row = &hits[i];
        let ghost start = found_in_all(rules, texts, table, i as int);
        let ghost flags = table[i as int];
        proof {
            assert(texts[i as int] == candidate.deep_view());
            assert(table[i as int] == row.deep_view());
        }
        let mut j: usize = 0;
        while j < configs.len()
            invariant
                j <= configs@.len() == row@.len(),
                rules == configs.deep_view(),
                flags == row.deep_view(),
                found_in_text(start, rules, candidate.deep_view(), flags, j as int) == (FoundModel {
                    matches: out.deep_view(),
                    seen: seen.deep_view(),
                }),
            decreases configs@.len() - j,
        {
            let config = &configs[j];
            let ghost shown = out.deep_view();
            let ghost known = seen.deep_view();
            proof {
                assert(rules[j as int] == config.deep_view());
                assert(flags[j as int] == row@[j as int]);
            }
            if config.enabled && row[j] && !was_seen(
                &seen,
                config.command_id.as_str(),
                &candidate.source,
            ) {
                let source = match &candidate.source {
                    Some(path) => Some(path.clone()),
                    None => None,
                };
                let mut description = config.description.clone();
                match &source {
                    Some(path) => {
                        description.append(" (via script ");
                        description.append(path.as_str());
                        description.append(")");
                    },
                    None => {},
                }
                let found = SensitiveCommandMatchResult {
                    command_id: config.command_id.clone(),
                    pattern: config.pattern.clone(),
                    description,
                };
                let key = (config.command_id.clone(), source);
                out.push(found);
                seen.push(key);
                proof {
                    assert(out.deep_view() =~= shown.push(found.deep_view()));
                    assert(seen.deep_view() =~= known.push(key.deep_view()));
                }
            }
            j += 1;
        }
        i += 1;
    }
    out
}

/// Holds the rules against the texts that are about to be run. A malformed
/// rule is passed over, so that it cannot stop the others.
pub fn check_sensitive_command_match(
    configs: &Vec<SensitiveCommandConfig>,
    candidates: &Vec<Candidate>,
) -> (out: Vec<SensitiveCommandMatchResult>)
    ensures
        out.deep_view() == found_in_all(
            configs.deep_view(),
            candidates.deep_view(),
            hits_of(configs.deep_view(), candidates.deep_view()),
            candidates@.len() as int,
        ).matches,
{
    let ghost rules = configs.deep_view();
    let ghost texts = candidates.deep_view();
    let mut hits: Vec<Vec<bool>> = Vec::new();
    let mut i: usize = 0;
    while i < candidates.len()
        invariant
            i <= candidates@.len(),
            rules == configs.deep_view(),
            texts == candidates.deep_view(),
            hits@.len() == i,
            forall|k: int|
                0 <= k < i ==> (#[trigger] hits@[k])@.len() == configs@.len() && hits@[k]@
                    == hits_of(rules, texts)[k],
        decreases candidates@.len() - i,
    {
        let mut row: Vec<bool> = Vec::new();
        let mut j: usize = 0;
        while j < configs.len()
            invariant
                i < candidates@.len(),
                j <= configs@.len(),
                rules == configs.deep_view(),
                texts == candidates.deep_view(),
                row@.len() == j,
                forall|k: int|
                    0 <= k < j ==> #[trigger] row@[k] == (expression_matches(
                        rules[k].pattern,
                        texts[i as int].text,
                    ) == Some(true)),
            decreases configs@.len() - j,
        {
            proof {
                assert(rules[j as int] == configs@[j as int].deep_view());
                assert(texts[i as int] == candidates@[i as int].deep_view());
            }
            let answer = matches_expression(
                configs[j].pattern.as_str(),
                candidates[i].text.as_str(),
            );
            let hit = match answer {
                Some(b) => b,
                None => false,
            };
            row.push(hit);
            j += 1;
        }
        proof {
            assert(row@ =~= hits_of(rules, texts)[i as int]);
        }
        hits.push(row);
        i += 1;
    }
    proof {
        assert(hits.deep_view() =~= hits_of(rules, texts)) by {
            assert forall|k: int| 0 <= k < hits@.len() implies #[trigger] hits.deep_view()[k]
                == hits_of(rules, texts)[k] by {
                assert(hits.deep_view()[k] == hits@[k].deep_view());
                assert(hits@[k].deep_view() =~= hits@[k]@);
            }
        }
    }
    collect_matches(configs, candidates, &hits)
}

/// Whether a rule stands once for a source among what was found.
pub open spec fn found_once(found: FoundModel) -> bool {
    found.seen.no_duplicates() && found.seen.len() == found.matches.len() && forall|i: int|
        0 <= i < found.matches.len() ==> (#[trigger] found.matches[i]).command_id
            == found.seen[i].0
}

proof fn lemma_found_once(
    found: FoundModel,
    rules: Seq<RuleModel>,
    candidate: CandidateModel,
    hits: Seq<bool>,
    n: int,
)
    requires
        found_once(found),
    ensures
        found_once(found_in_text(found, rules, candidate, hits, n)),
    decreases n,
{
    if n > 0 {
        lemma_found_once(found, rules, candidate, hits, n - 1);
    }
}

/// A rule is reported at most once for a source.
pub proof fn law_rule_is_reported_once(
    rules: Seq<RuleModel>,
    candidates: Seq<CandidateModel>,
    hits: Seq<Seq<bool>>,
    n: int,
)
    ensures
        found_once(found_in_all(rules, candidates, hits, n)),
    decreases n,
{
    if n > 0 {
        law_rule_is_reported_once(rules, candidates, hits, n - 1);
        lemma_found_once(
            found_in_all(rules, candidates, hits, n - 1),
            rules,
            candidates[n - 1],
            hits[n - 1],
            rules.len() as int,
        );
    }
}

proof fn lemma_seen_stays(
    found: FoundModel,
    rules: Seq<RuleModel>,
    candidate: CandidateModel,
    hits: Seq<bool>,
    i: int,
    n: int,
    key: (Seq<char>, Option<Seq<char>>),
)
    requires
        0 <= i <= n,
        found_in_text(found, rules, candidate, hits, i).seen.contains(key),
    ensures
        found_in_text(found, rules, candidate, hits, n).seen.contains(key),
    decreases n - i,
{
    if i < n {
        lemma_seen_stays(found, rules, candidate, hits, i, n - 1, key);
        let before = found_in_text(found, rules, candidate, hits, n - 1).seen;
        let now = found_in_text(found, rules, candidate, hits, n).seen;
        let k = choose|k: int| 0 <= k < before.len() && before[k] == key;
        assert(now[k] == key);
    }
}

proof fn lemma_seen_stays_in_all(
    rules: Seq<RuleModel>,
    candidates: Seq<CandidateModel>,
    hits: Seq<Seq<bool>>,
    i: int,
    n: int,
    key: (Seq<char>, Option<Seq<char>>),
)
    requires
        0 <= i <= n,
        found_in_all(rules, candidates, hits, i).seen.contains(key),
    ensures
        found_in_all(rules, candidates, hits, n).seen.contains(key),
    decreases n - i,
{
    if i < n {
        lemma_seen_stays_in_all(rules, candidates, hits, i, n - 1, key);
        lemma_seen_stays(
            found_in_all(rules, candidates, hits, n - 1),
            rules,
            candidates[n - 1],
            hits[n - 1],
            0,
            rules.len() as int,
            key,
        );
    }
}

/// A rule that is switched on and met by a text is reported for the source
/// of the text, whatever the other rules are.
pub proof fn law_no_match_is_lost(
    rules: Seq<RuleModel>,
    candidates: Seq<CandidateModel>,
    hits: Seq<Seq<bool>>,
    i: int,
    j: int,
)
    requires
        0 <= i < candidates.len(),
        0 <= j < rules.len(),
        rules[j].enabled,
        hits[i][j],
    ensures
        found_in_all(rules, candidates, hits, candidates.len() as int).seen.contains(
            (rules[j].command_id, candidates[i].source),
        ),
{
    let start = found_in_all(rules, candidates, hits, i);
    let key = (rules[j].command_id, candidates[i].source);
    let before = found_in_text(start, rules, candidates[i], hits[i], j);
    let now = found_in_text(start, rules, candidates[i], hits[i], j + 1);
    assert(now == found_one(before, rules[j], candidates[i], hits[i][j]));
    if !before.seen.contains(key) {
        assert(now.seen[before.seen.len() as int] == key);
    }
    lemma_seen_stays(start, rules, candidates[i], hits[i], j + 1, rules.len() as int, key);
    lemma_seen_stays_in_all(rules, candidates, hits, i + 1, candidates.len() as int, key);
}

} // verus!
