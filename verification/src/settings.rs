//! Index-wide configuration: field roles, ranking-rule order, stop words,
//! synonyms and typo tolerance. Ranking rules are supplied as names and
//! parsed against a fixed vocabulary; sort-direction rules are per-query and
//! excluded from the static list.

use vstd::prelude::*;

use crate::value::copy_strings;

verus! {

/// A named stage of the engine's result-ordering pipeline.
#[derive(Clone, Copy, PartialEq, Eq, Structural, Debug)]
pub enum RankingRule {
    Words,
    Typo,
    Proximity,
    Attribute,
    Sort,
    Exactness,
}

pub open spec fn rule_name_view(r: RankingRule) -> Seq<char> {
    match r {
        RankingRule::Words => "words"@,
        RankingRule::Typo => "typo"@,
        RankingRule::Proximity => "proximity"@,
        RankingRule::Attribute => "attribute"@,
        RankingRule::Sort => "sort"@,
        RankingRule::Exactness => "exactness"@,
    }
}

pub open spec fn parse_rule_view(s: Seq<char>) -> Option<RankingRule> {
    if s == "words"@ {
        Some(RankingRule::Words)
    } else if s == "typo"@ {
        Some(RankingRule::Typo)
    } else if s == "proximity"@ {
        Some(RankingRule::Proximity)
    } else if s == "attribute"@ {
        Some(RankingRule::Attribute)
    } else if s == "sort"@ {
        Some(RankingRule::Sort)
    } else if s == "exactness"@ {
        Some(RankingRule::Exactness)
    } else {
        None
    }
}

/// The canonical name of a ranking rule.
pub fn ranking_rule_name(r: RankingRule) -> (s: String)
    ensures
        s@ == rule_name_view(r),
{
    match r {
        RankingRule::Words => "words".to_string(),
        RankingRule::Typo => "typo".to_string(),
        RankingRule::Proximity => "proximity".to_string(),
        RankingRule::Attribute => "attribute".to_string(),
        RankingRule::Sort => "sort".to_string(),
        RankingRule::Exactness => "exactness".to_string(),
    }
}

/// Parses a ranking-rule name against the fixed vocabulary.
pub fn parse_ranking_rule(name: &String) -> (r: Option<RankingRule>)
    ensures
        r == parse_rule_view(name@),
{
    let words = "words".to_string();
    let typo = "typo".to_string();
    let proximity = "proximity".to_string();
    let attribute = "attribute".to_string();
    let sort = "sort".to_string();
    let exactness = "exactness".to_string();
    if *name == words {
        Some(RankingRule::Words)
    } else if *name == typo {
        Some(RankingRule::Typo)
    } else if *name == proximity {
        Some(RankingRule::Proximity)
    } else if *name == attribute {
        Some(RankingRule::Attribute)
    } else if *name == sort {
        Some(RankingRule::Sort)
    } else if *name == exactness {
        Some(RankingRule::Exactness)
    } else {
        None
    }
}

/// Parsing a rule's canonical name yields the rule back.
pub proof fn lemma_rule_name_round_trip(r: RankingRule)
    ensures
        parse_rule_view(rule_name_view(r)) == Some(r),
{
    reveal_strlit("words");
    reveal_strlit("typo");
    reveal_strlit("proximity");
    reveal_strlit("attribute");
    reveal_strlit("sort");
    reveal_strlit("exactness");
    assert("words"@[0] == 'w');
    assert("typo"@[0] == 't');
    assert("proximity"@[0] == 'p');
    assert("attribute"@[0] == 'a');
    assert("sort"@[0] == 's');
    assert("exactness"@[0] == 'e');
}

/// A name that parses is the canonical name of what it parses to.
pub proof fn lemma_parse_then_name(s: Seq<char>)
    ensures
        parse_rule_view(s) matches Some(r) ==> rule_name_view(r) == s,
{
}

/// A word and its list of equivalents.
#[derive(Debug, PartialEq, Eq)]
pub struct Synonyms {
    pub word: String,
    pub synonyms: Vec<String>,
}

/// The full per-index configuration. Callers supply the whole desired value
/// each time: an absent primary key or searchable-field list resets that
/// facet to the engine default, it does not mean "leave unchanged".
#[derive(Debug, PartialEq, Eq)]
pub struct MimirIndexSettings {
    pub primary_key: Option<String>,
    pub searchable_fields: Option<Vec<String>>,
    pub filterable_fields: Vec<String>,
    pub sortable_fields: Vec<String>,
    pub ranking_rules: Vec<String>,
    pub stop_words: Vec<String>,
    pub synonyms: Vec<Synonyms>,
    pub typos_enabled: bool,
    pub min_word_size_for_one_typo: u8,
    pub min_word_size_for_two_typos: u8,
    pub disallow_typos_on_words: Vec<String>,
    pub disallow_typos_on_fields: Vec<String>,
}

/// Mathematical shape of [`MimirIndexSettings`].
#[verifier::ext_equal]
pub struct SettingsView {
    pub primary_key: Option<Seq<char>>,
    pub searchable_fields: Option<Seq<Seq<char>>>,
    pub filterable_fields: Seq<Seq<char>>,
    pub sortable_fields: Seq<Seq<char>>,
    pub ranking_rules: Seq<Seq<char>>,
    pub stop_words: Seq<Seq<char>>,
    pub synonyms: Seq<(Seq<char>, Seq<Seq<char>>)>,
    pub typos_enabled: bool,
    pub min_word_size_for_one_typo: u8,
    pub min_word_size_for_two_typos: u8,
    pub disallow_typos_on_words: Seq<Seq<char>>,
    pub disallow_typos_on_fields: Seq<Seq<char>>,
}

pub open spec fn opt_str_view(o: Option<String>) -> Option<Seq<char>> {
    match o {
        Some(s) => Some(s@),
        None => None,
    }
}

pub open spec fn opt_strs_view(o: Option<Vec<String>>) -> Option<Seq<Seq<char>>> {
    match o {
        Some(v) => Some(v.deep_view()),
        None => None,
    }
}

pub open spec fn synonyms_view(v: Vec<Synonyms>) -> Seq<(Seq<char>, Seq<Seq<char>>)> {
    Seq::new(v@.len(), |i: int| (v@[i].word@, v@[i].synonyms.deep_view()))
}

impl View for MimirIndexSettings {
    type V = SettingsView;

    open spec fn view(&self) -> SettingsView {
        SettingsView {
            primary_key: opt_str_view(self.primary_key),
            searchable_fields: opt_strs_view(self.searchable_fields),
            filterable_fields: self.filterable_fields.deep_view(),
            sortable_fields: self.sortable_fields.deep_view(),
            ranking_rules: self.ranking_rules.deep_view(),
            stop_words: self.stop_words.deep_view(),
            synonyms: synonyms_view(self.synonyms),
            typos_enabled: self.typos_enabled,
            min_word_size_for_one_typo: self.min_word_size_for_one_typo,
            min_word_size_for_two_typos: self.min_word_size_for_two_typos,
            disallow_typos_on_words: self.disallow_typos_on_words.deep_view(),
            disallow_typos_on_fields: self.disallow_typos_on_fields.deep_view(),
        }
    }
}

/// The committed form of the configuration: ranking rules parsed into the
/// fixed vocabulary. The primary-key designation lives on the index itself.
#[derive(Debug)]
pub struct StoredSettings {
    pub searchable_fields: Option<Vec<String>>,
    pub filterable_fields: Vec<String>,
    pub sortable_fields: Vec<String>,
    pub ranking_rules: Vec<RankingRule>,
    pub stop_words: Vec<String>,
    pub synonyms: Vec<Synonyms>,
    pub typos_enabled: bool,
    pub min_word_size_for_one_typo: u8,
    pub min_word_size_for_two_typos: u8,
    pub disallow_typos_on_words: Vec<String>,
    pub disallow_typos_on_fields: Vec<String>,
}

/// Mathematical shape of [`StoredSettings`].
#[verifier::ext_equal]
pub struct StoredSettingsView {
    pub searchable_fields: Option<Seq<Seq<char>>>,
    pub filterable_fields: Seq<Seq<char>>,
    pub sortable_fields: Seq<Seq<char>>,
    pub ranking_rules: Seq<RankingRule>,
    pub stop_words: Seq<Seq<char>>,
    pub synonyms: Seq<(Seq<char>, Seq<Seq<char>>)>,
    pub typos_enabled: bool,
    pub min_word_size_for_one_typo: u8,
    pub min_word_size_for_two_typos: u8,
    pub disallow_typos_on_words: Seq<Seq<char>>,
    pub disallow_typos_on_fields: Seq<Seq<char>>,
}

impl View for StoredSettings {
    type V = StoredSettingsView;

    open spec fn view(&self) -> StoredSettingsView {
        StoredSettingsView {
            searchable_fields: opt_strs_view(self.searchable_fields),
            filterable_fields: self.filterable_fields.deep_view(),
            sortable_fields: self.sortable_fields.deep_view(),
            ranking_rules: self.ranking_rules@,
            stop_words: self.stop_words.deep_view(),
            synonyms: synonyms_view(self.synonyms),
            typos_enabled: self.typos_enabled,
            min_word_size_for_one_typo: self.min_word_size_for_one_typo,
            min_word_size_for_two_typos: self.min_word_size_for_two_typos,
            disallow_typos_on_words: self.disallow_typos_on_words.deep_view(),
            disallow_typos_on_fields: self.disallow_typos_on_fields.deep_view(),
        }
    }
}

/// The engine defaults: all fields searchable, nothing filterable or
/// sortable, the six static ranking rules in their canonical order, typo
/// tolerance on with thresholds five and nine.
pub open spec fn default_stored_settings_view() -> StoredSettingsView {
    StoredSettingsView {
        searchable_fields: None,
        filterable_fields: Seq::empty(),
        sortable_fields: Seq::empty(),
        ranking_rules: seq![
            RankingRule::Words,
            RankingRule::Typo,
            RankingRule::Proximity,
            RankingRule::Attribute,
            RankingRule::Sort,
            RankingRule::Exactness,
        ],
        stop_words: Seq::empty(),
        synonyms: Seq::empty(),
        typos_enabled: true,
        min_word_size_for_one_typo: 5,
        min_word_size_for_two_typos: 9,
        disallow_typos_on_words: Seq::empty(),
        disallow_typos_on_fields: Seq::empty(),
    }
}

impl StoredSettings {
    pub fn engine_default() -> (r: StoredSettings)
        ensures
            r@ == default_stored_settings_view(),
    {
        let r = StoredSettings {
            searchable_fields: None,
            filterable_fields: Vec::new(),
            sortable_fields: Vec::new(),
            ranking_rules: vec![
                RankingRule::Words,
                RankingRule::Typo,
                RankingRule::Proximity,
                RankingRule::Attribute,
                RankingRule::Sort,
                RankingRule::Exactness,
            ],
            stop_words: Vec::new(),
            synonyms: Vec::new(),
            typos_enabled: true,
            min_word_size_for_one_typo: 5,
            min_word_size_for_two_typos: 9,
            disallow_typos_on_words: Vec::new(),
            disallow_typos_on_fields: Vec::new(),
        };
        proof {
            assert(r@ =~= default_stored_settings_view());
        }
        r
    }
}

/// What a supplied list of ranking-rule names parses to, or `None` if any
/// name falls outside the vocabulary.
pub open spec fn parse_rules_view(names: Seq<Seq<char>>) -> Option<Seq<RankingRule>>
    decreases names.len(),
{
    if names.len() == 0 {
        Some(Seq::empty())
    } else {
        match (parse_rule_view(names[0]), parse_rules_view(names.drop_first())) {
            (Some(r), Some(rest)) => Some(seq![r] + rest),
            _ => None,
        }
    }
}

pub proof fn lemma_parse_rules_all(names: Seq<Seq<char>>, rules: Seq<RankingRule>)
    requires
        names.len() == rules.len(),
        forall|j: int| 0 <= j < names.len() ==> parse_rule_view(names[j]) == Some(rules[j]),
    ensures
        parse_rules_view(names) == Some(rules),
    decreases names.len(),
{
    if names.len() == 0 {
        assert(rules =~= Seq::<RankingRule>::empty());
    } else {
        lemma_parse_rules_all(names.drop_first(), rules.drop_first());
        assert(rules =~= seq![rules[0]] + rules.drop_first());
    }
}

pub proof fn lemma_parse_rules_fails(names: Seq<Seq<char>>, k: int)
    requires
        0 <= k < names.len(),
        parse_rule_view(names[k]) is None,
    ensures
        parse_rules_view(names) is None,
    decreases names.len(),
{
    if k > 0 {
        lemma_parse_rules_fails(names.drop_first(), k - 1);
    }
}

pub proof fn lemma_parse_rules_index(names: Seq<Seq<char>>, i: int)
    requires
        parse_rules_view(names) is Some,
        0 <= i < names.len(),
    ensures
        parse_rules_view(names).unwrap().len() == names.len(),
        parse_rule_view(names[i]) == Some(parse_rules_view(names).unwrap()[i]),
    decreases names.len(),
{
    if names.len() > 0 {
        if parse_rules_view(names.drop_first()) is Some {
            if i > 0 {
                lemma_parse_rules_index(names.drop_first(), i - 1);
            } else {
                lemma_parse_rules_len(names.drop_first());
            }
        }
    }
}

pub proof fn lemma_parse_rules_len(names: Seq<Seq<char>>)
    requires
        parse_rules_view(names) is Some,
    ensures
        parse_rules_view(names).unwrap().len() == names.len(),
    decreases names.len(),
{
    if names.len() > 0 {
        lemma_parse_rules_len(names.drop_first());
    }
}

/// Names the supplied rule list back: parsing a name list and rendering the
/// canonical names returns the list unchanged, for every list inside the
/// vocabulary.
pub proof fn lemma_rules_round_trip(names: Seq<Seq<char>>)
    requires
        parse_rules_view(names) is Some,
    ensures
        parse_rules_view(names).unwrap().map_values(|r: RankingRule| rule_name_view(r))
            =~= names,
{
    let parsed = parse_rules_view(names).unwrap();
    lemma_parse_rules_len(names);
    assert forall|i: int| 0 <= i < names.len() implies rule_name_view(parsed[i])
        == names[i] by {
        lemma_parse_rules_index(names, i);
        lemma_parse_then_name(names[i]);
    }
}

/// What the configuration reads back as: every facet as committed, ranking
/// rules rendered under their canonical names.
pub open spec fn read_settings_view(pk: Option<Seq<char>>, st: StoredSettingsView)
    -> SettingsView {
    SettingsView {
        primary_key: pk,
        searchable_fields: st.searchable_fields,
        filterable_fields: st.filterable_fields,
        sortable_fields: st.sortable_fields,
        ranking_rules: st.ranking_rules.map_values(|r: RankingRule| rule_name_view(r)),
        stop_words: st.stop_words,
        synonyms: st.synonyms,
        typos_enabled: st.typos_enabled,
        min_word_size_for_one_typo: st.min_word_size_for_one_typo,
        min_word_size_for_two_typos: st.min_word_size_for_two_typos,
        disallow_typos_on_words: st.disallow_typos_on_words,
        disallow_typos_on_fields: st.disallow_typos_on_fields,
    }
}

/// What committing a full configuration value stores, when its ranking-rule
/// names all parse.
pub open spec fn apply_settings_view(s: SettingsView) -> StoredSettingsView {
    StoredSettingsView {
        searchable_fields: s.searchable_fields,
        filterable_fields: s.filterable_fields,
        sortable_fields: s.sortable_fields,
        ranking_rules: parse_rules_view(s.ranking_rules).unwrap(),
        stop_words: s.stop_words,
        synonyms: s.synonyms,
        typos_enabled: s.typos_enabled,
        min_word_size_for_one_typo: s.min_word_size_for_one_typo,
        min_word_size_for_two_typos: s.min_word_size_for_two_typos,
        disallow_typos_on_words: s.disallow_typos_on_words,
        disallow_typos_on_fields: s.disallow_typos_on_fields,
    }
}

/// Committing a configuration and reading it back yields the value that was
/// sent, facet for facet, for every value whose ranking-rule names lie in
/// the vocabulary.
pub proof fn lemma_settings_round_trip(s: SettingsView)
    requires
        parse_rules_view(s.ranking_rules) is Some,
    ensures
        read_settings_view(s.primary_key, apply_settings_view(s)) =~= s,
{
    lemma_rules_round_trip(s.ranking_rules);
}

pub fn copy_opt_strings(v: &Option<Vec<String>>) -> (r: Option<Vec<String>>)
    ensures
        opt_strs_view(r) == opt_strs_view(*v),
{
    match v {
        Some(inner) => Some(copy_strings(inner)),
        None => None,
    }
}

pub fn copy_synonyms(v: &Vec<Synonyms>) -> (r: Vec<Synonyms>)
    ensures
        synonyms_view(r) == synonyms_view(*v),
{
    let mut out: Vec<Synonyms> = Vec::new();
    let mut k: usize = 0;
    while k < v.len()
        invariant
            k <= v.len(),
            out.len() == k,
            forall|j: int| 0 <= j < k ==> out@[j].word@ == v@[j].word@
                && out@[j].synonyms.deep_view() == v@[j].synonyms.deep_view(),
        decreases v.len() - k,
    {
        let entry = Synonyms { word: v[k].word.clone(), synonyms: copy_strings(&v[k].synonyms) };
        out.push(entry);
        k = k + 1;
    }
    proof {
        assert(synonyms_view(out) =~= synonyms_view(*v));
    }
    out
}

/// The canonical names of a committed rule list, in order.
pub fn rule_names(rules: &Vec<RankingRule>) -> (r: Vec<String>)
    ensures
        r.deep_view() == rules@.map_values(|x: RankingRule| rule_name_view(x)),
{
    let mut out: Vec<String> = Vec::new();
    let mut k: usize = 0;
    while k < rules.len()
        invariant
            k <= rules.len(),
            out.len() == k,
            forall|j: int| 0 <= j < k ==> out@[j]@ == rule_name_view(rules@[j]),
        decreases rules.len() - k,
    {
        out.push(ranking_rule_name(rules[k]));
        k = k + 1;
    }
    proof {
        assert(out.deep_view() =~= rules@.map_values(|x: RankingRule| rule_name_view(x)));
    }
    out
}

} // verus!
