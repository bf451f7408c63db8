//! The query executor's two modes. Fancy search builds a request for the
//! external ranked-search pipeline (which parses its own filter
//! representation, handed through as an opaque parsed value); direct search
//! drives the engine's native primitive: filter, sort, offset and limit over
//! the committed records. Free-text relevance (tokenization, typo handling,
//! ranking) belongs to the engine and is out of scope here: the committed
//! model treats a free-text query as selecting every record, and the request
//! carries the text through unchanged.

use vstd::prelude::*;

use crate::filter::{compile_view, cond_tree_view, filter_view, Condition, CondTreeView, ConditionView, Filter, FilterCondition};
use crate::index::Index;
use crate::value::{doc_view, lookup_field, value_view, DataValue, DocView, Document, ValueView};

verus! {

broadcast use vstd::std_specs::vec::group_vec_axioms;

/// Policy for under-matched free-text queries in the ranked pipeline.
#[derive(Debug, PartialEq, Eq)]
pub enum MatchingStrategy {
    Last,
    All,
}

/// The same policy as the engine's native search primitive names it.
#[derive(Debug, PartialEq, Eq)]
pub enum TermsMatchingStrategy {
    Last,
    All,
}

/// One sort criterion of the direct mode: a field, ascending or descending.
#[derive(Debug, PartialEq, Eq)]
pub enum SortBy {
    Asc(String),
    Desc(String),
}

/// The engine's form of a sort criterion: a field reference with direction.
#[derive(Debug, PartialEq, Eq)]
pub enum EngineAscDesc {
    Asc(String),
    Desc(String),
}

/// The ranked pipeline's form of the matching strategy.
#[derive(Debug, PartialEq, Eq)]
pub enum EngineMatchingStrategy {
    Last,
    All,
}

/// The engine's native form of the matching strategy.
#[derive(Debug, PartialEq, Eq)]
pub enum EngineTermsMatchingStrategy {
    Last,
    All,
}

impl MatchingStrategy {
    /// The ranked pipeline's name for this strategy.
    pub fn to_engine(&self) -> (r: EngineMatchingStrategy)
        ensures
            *self is Last <==> r is Last,
            *self is All <==> r is All,
    {
        match self {
            MatchingStrategy::Last => EngineMatchingStrategy::Last,
            MatchingStrategy::All => EngineMatchingStrategy::All,
        }
    }
}

impl TermsMatchingStrategy {
    /// The engine's name for this strategy.
    pub fn to_engine(&self) -> (r: EngineTermsMatchingStrategy)
        ensures
            *self is Last <==> r is Last,
            *self is All <==> r is All,
    {
        match self {
            TermsMatchingStrategy::Last => EngineTermsMatchingStrategy::Last,
            TermsMatchingStrategy::All => EngineTermsMatchingStrategy::All,
        }
    }
}

/// The engine's form of the sort criteria, order and direction kept.
pub fn sort_criteria_to_engine(criteria: &Vec<SortBy>) -> (r: Vec<EngineAscDesc>)
    ensures
        r@.len() == criteria@.len(),
        forall|i: int| 0 <= i < criteria@.len() ==> ((#[trigger] criteria@[i]) is Asc <==> (
        #[trigger] r@[i]) is Asc),
        forall|i: int| 0 <= i < criteria@.len() ==> match ((#[trigger] criteria@[i]), r@[i]) {
            (SortBy::Asc(f), EngineAscDesc::Asc(g)) => f@ == g@,
            (SortBy::Desc(f), EngineAscDesc::Desc(g)) => f@ == g@,
            _ => false,
        },
{
    let mut out: Vec<EngineAscDesc> = Vec::new();
    let mut k: usize = 0;
    while k < criteria.len()
        invariant
            k <= criteria.len(),
            out.len() == k,
            forall|i: int| 0 <= i < k ==> match ((#[trigger] criteria@[i]), out@[i]) {
                (SortBy::Asc(f), EngineAscDesc::Asc(g)) => f@ == g@,
                (SortBy::Desc(f), EngineAscDesc::Desc(g)) => f@ == g@,
                _ => false,
            },
        decreases criteria.len() - k,
    {
        let item = match &criteria[k] {
            SortBy::Asc(f) => EngineAscDesc::Asc(f.clone()),
            SortBy::Desc(f) => EngineAscDesc::Desc(f.clone()),
        };
        out.push(item);
        k = k + 1;
    }
    out
}

/// A caller's search request: free text, pagination, field selections,
/// rendering markers, a filter, sort criteria and result-detail toggles.
pub struct Query {
    pub query: String,
    pub offset: Option<usize>,
    pub limit: Option<usize>,
    pub attributes_to_retrieve: Option<Vec<String>>,
    pub attributes_to_crop: Option<Vec<String>>,
    pub crop_length: Option<usize>,
    pub attributes_to_highlight: Option<Vec<String>>,
    pub show_matches_position: Option<bool>,
    pub show_ranking_score: Option<bool>,
    pub show_ranking_score_details: Option<bool>,
    pub filter: Option<String>,
    pub sort: Option<Vec<String>>,
    pub facets: Option<Vec<String>>,
    pub highlight_pre_tag: Option<String>,
    pub highlight_post_tag: Option<String>,
    pub crop_marker: Option<String>,
    pub matching_strategy: Option<MatchingStrategy>,
    pub attributes_to_search_on: Option<Vec<String>>,
}

/// The request handed to the external ranked-search pipeline, every default
/// filled in. The filter travels as the pipeline's own parsed representation,
/// not through the filter compiler.
pub struct SearchRequest {
    pub q: Option<String>,
    pub offset: usize,
    pub limit: usize,
    pub attributes_to_retrieve: Option<Vec<String>>,
    pub attributes_to_crop: Option<Vec<String>>,
    pub crop_length: usize,
    pub attributes_to_highlight: Option<Vec<String>>,
    pub show_matches_position: bool,
    pub show_ranking_score: bool,
    pub show_ranking_score_details: bool,
    pub filter: Option<serde_json::Value>,
    pub sort: Option<Vec<String>>,
    pub facets: Option<Vec<String>>,
    pub highlight_pre_tag: String,
    pub highlight_post_tag: String,
    pub crop_marker: String,
    pub matching_strategy: EngineMatchingStrategy,
    pub attributes_to_search_on: Option<Vec<String>>,
}

/// The ranked pipeline's read-only feature toggles; this layer runs with
/// every one of them off.
pub struct FeatureFlags {
    pub score_details: bool,
    pub vector_store: bool,
    pub metrics: bool,
    pub export_reports: bool,
}

/// The feature-flag bundle handed to every ranked search.
pub fn ranked_search_features() -> (r: FeatureFlags)
    ensures
        !r.score_details,
        !r.vector_store,
        !r.metrics,
        !r.export_reports,
{
    FeatureFlags { score_details: false, vector_store: false, metrics: false, export_reports: false }
}

/// serde_json's parsed JSON value: the ranked pipeline's own filter
/// representation, held opaquely and never inspected here.
#[verifier::external_type_specification]
#[verifier::external_body]
pub struct ExSerdeValue(serde_json::Value);

/// Whether a string is a well-formed document of the pipeline's filter
/// representation; decided by the text alone.
pub uninterp spec fn json_parses(s: Seq<char>) -> bool;

/// Relies on serde_json::from_str::<serde_json::Value>: parses the text into
/// the pipeline's own filter representation, succeeding exactly on
/// well-formed documents; the value is carried through opaquely.
#[verifier::external_body]
fn parse_filter_text(s: &String) -> (r: Option<serde_json::Value>)
    ensures
        r is Some <==> json_parses(s@),
{
    serde_json::from_str(s).ok()
}

impl Query {
    /// Builds the ranked-search request: limit 10000, crop length 10,
    /// highlight tags `<em>`/`</em>`, crop marker `...` and the `Last`
    /// strategy where the caller left the choice open; a filter string that
    /// is not a well-formed document of the pipeline's representation is
    /// dropped rather than failing the search.
    pub fn build_search_request(self) -> (r: SearchRequest)
        ensures
            r.q == Some(self.query),
            r.offset == (match self.offset {
                Some(o) => o,
                None => 0,
            }),
            r.limit == (match self.limit {
                Some(l) => l,
                None => 10000,
            }),
            r.attributes_to_retrieve == self.attributes_to_retrieve,
            r.attributes_to_crop == self.attributes_to_crop,
            r.crop_length == (match self.crop_length {
                Some(c) => c,
                None => 10,
            }),
            r.attributes_to_highlight == self.attributes_to_highlight,
            r.show_matches_position == (self.show_matches_position == Some(true)),
            r.show_ranking_score == (self.show_ranking_score == Some(true)),
            r.show_ranking_score_details == (self.show_ranking_score_details == Some(true)),
            r.filter is Some <==> (self.filter matches Some(f) && json_parses(f@)),
            r.sort == self.sort,
            r.facets == self.facets,
            r.highlight_pre_tag@ == (match self.highlight_pre_tag {
                Some(t) => t@,
                None => "<em>"@,
            }),
            r.highlight_post_tag@ == (match self.highlight_post_tag {
                Some(t) => t@,
                None => "</em>"@,
            }),
            r.crop_marker@ == (match self.crop_marker {
                Some(m) => m@,
                None => "..."@,
            }),
            r.matching_strategy is All <==> self.matching_strategy == Some(
                MatchingStrategy::All,
            ),
            r.attributes_to_search_on == self.attributes_to_search_on,
    {
        let filter = match &self.filter {
            Some(text) => parse_filter_text(text),
            None => None,
        };
        let matching_strategy = match &self.matching_strategy {
            Some(MatchingStrategy::All) => EngineMatchingStrategy::All,
            Some(MatchingStrategy::Last) => EngineMatchingStrategy::Last,
            None => EngineMatchingStrategy::Last,
        };
        SearchRequest {
            q: Some(self.query),
            offset: match self.offset {
                Some(o) => o,
                None => 0,
            },
            limit: match self.limit {
                Some(l) => l,
                None => 10000,
            },
            attributes_to_retrieve: self.attributes_to_retrieve,
            attributes_to_crop: self.attributes_to_crop,
            crop_length: match self.crop_length {
                Some(c) => c,
                None => 10,
            },
            attributes_to_highlight: self.attributes_to_highlight,
            show_matches_position: match self.show_matches_position {
                Some(b) => b,
                None => false,
            },
            show_ranking_score: match self.show_ranking_score {
                Some(b) => b,
                None => false,
            },
            show_ranking_score_details: match self.show_ranking_score_details {
                Some(b) => b,
                None => false,
            },
            filter,
            sort: self.sort,
            facets: self.facets,
            highlight_pre_tag: match self.highlight_pre_tag {
                Some(t) => t,
                None => "<em>".to_string(),
            },
            highlight_post_tag: match self.highlight_post_tag {
                Some(t) => t,
                None => "</em>".to_string(),
            },
            crop_marker: match self.crop_marker {
                Some(m) => m,
                None => "...".to_string(),
            },
            matching_strategy,
            attributes_to_search_on: self.attributes_to_search_on,
        }
    }
}

/// Merges one ranked hit into a single result record carrying both the raw
/// document and its formatted (highlighted or cropped) rendering.
pub fn merge_hit(document: Document, formatted: Document) -> (r: Document)
    ensures
        r@ == seq![
            ("document"@, ValueView::Obj(document@)),
            ("formatted"@, ValueView::Obj(formatted@)),
        ],
{
    let mut merged = Document::new();
    let doc_value = DataValue::Obj(document.fields);
    let fmt_value = DataValue::Obj(formatted.fields);
    proof {
        assert(value_view(doc_value)->Obj_0 =~= doc_view(document));
        assert(value_view(doc_value) =~= ValueView::Obj(doc_view(document)));
        assert(value_view(fmt_value)->Obj_0 =~= doc_view(formatted));
        assert(value_view(fmt_value) =~= ValueView::Obj(doc_view(formatted)));
    }
    merged.push_field("document".to_string(), doc_value);
    merged.push_field("formatted".to_string(), fmt_value);
    proof {
        assert(merged@ =~= seq![
            ("document"@, ValueView::Obj(document@)),
            ("formatted"@, ValueView::Obj(formatted@)),
        ]);
    }
    merged
}


/// The numeric reading of one character.
pub open spec fn digit_val(c: char) -> Option<int> {
    if '0' <= c <= '9' {
        Some(c as int - '0' as int)
    } else {
        None
    }
}

/// The numeric reading of a digit string, most significant first.
pub open spec fn digits_val(s: Seq<char>) -> Option<int>
    decreases s.len(),
{
    if s.len() == 0 {
        None
    } else if s.len() == 1 {
        digit_val(s[0])
    } else {
        match (digits_val(s.drop_last()), digit_val(s.last())) {
            (Some(h), Some(d)) => Some(h * 10 + d),
            _ => None,
        }
    }
}

/// The integer a literal denotes: an optional leading minus, then digits.
pub open spec fn parse_int_view(s: Seq<char>) -> Option<int> {
    if s.len() > 0 && s[0] == '-' {
        match digits_val(s.drop_first()) {
            Some(v) => Some(-v),
            None => None,
        }
    } else {
        digits_val(s)
    }
}

/// The engine's numeric typing of a literal operand: the denoted integer
/// when it is machine-representable. Comparisons against a literal outside
/// that range match nothing.
pub open spec fn lit_int_view(s: Seq<char>) -> Option<int> {
    match parse_int_view(s) {
        Some(v) => if i64::MIN <= v <= i64::MAX {
            Some(v)
        } else {
            None
        },
        None => None,
    }
}

pub proof fn lemma_digits_val_nonneg(s: Seq<char>)
    ensures
        digits_val(s) matches Some(v) ==> v >= 0,
    decreases s.len(),
{
    if s.len() > 1 {
        lemma_digits_val_nonneg(s.drop_last());
    }
}

pub proof fn lemma_digits_val_bad(s: Seq<char>, j: int)
    requires
        0 <= j < s.len(),
        digit_val(s[j]) is None,
    ensures
        digits_val(s) is None,
    decreases s.len(),
{
    if s.len() > 1 {
        if j < s.len() - 1 {
            lemma_digits_val_bad(s.drop_last(), j);
        }
    }
}

/// Parses a string-encoded integer literal into a machine integer, exactly
/// when it denotes one in range.
pub fn parse_int(s: &String) -> (r: Option<i64>)
    ensures
        match r {
            Some(v) => lit_int_view(s@) == Some(v as int),
            None => lit_int_view(s@) is None,
        },
{
    let st = s.as_str();
    let n = st.unicode_len();
    if n == 0 {
        return None;
    }
    let neg = st.get_char(0) == '-';
    let start: usize = if neg {
        1
    } else {
        0
    };
    let ghost digits = if neg {
        s@.drop_first()
    } else {
        s@
    };
    if n == start {
        proof {
            assert(s@.subrange(start as int, n as int) =~= Seq::<char>::empty());
            assert(digits =~= Seq::<char>::empty());
        }
        return None;
    }
    let mut acc: i128 = 0;
    let mut over: bool = false;
    let mut k: usize = start;
    while k < n
        invariant
            start <= k <= n,
            st@ == s@,
            n == s@.len(),
            start == 1 <==> (s@.len() > 0 && s@[0] == '-'),
            start == 0 || start == 1,
            neg <==> start == 1,
            digits == (if neg {
                s@.drop_first()
            } else {
                s@
            }),
            !over && k > start ==> digits_val(s@.subrange(start as int, k as int)) == Some(
                acc as int,
            ) && 0 <= acc <= i64::MAX as i128 + 1,
            !over && k == start ==> acc == 0,
            over ==> (digits_val(s@.subrange(start as int, k as int)) matches Some(v) && v
                > i64::MAX as int + 1),
        decreases n - k,
    {
        let c = st.get_char(k);
        let ghost pre = s@.subrange(start as int, k as int);
        let ghost cur = s@.subrange(start as int, k as int + 1);
        proof {
            assert(cur.drop_last() =~= pre);
            assert(cur.last() == s@[k as int]);
            assert(cur.len() == k + 1 - start);
        }
        if c < '0' || c > '9' {
            proof {
                assert(digit_val(s@[k as int]) is None);
                let full = s@.subrange(start as int, n as int);
                assert(full[k - start] == s@[k as int]);
                lemma_digits_val_bad(full, k - start);
                assert(digits =~= full);
            }
            return None;
        }
        let d: i128 = (c as u32 - '0' as u32) as i128;
        proof {
            assert(digit_val(s@[k as int]) == Some(d as int));
            if k > start {
            } else {
                assert(cur.len() == 1);
                assert(digits_val(cur) == digit_val(s@[k as int]));
            }
            lemma_digits_val_nonneg(pre);
        }
        if over {
            proof {
                let v = digits_val(pre).unwrap();
                assert(digits_val(cur) == Some(v * 10 + d as int));
                assert(v * 10 + d as int > i64::MAX as int + 1) by (nonlinear_arith)
                    requires
                        v > i64::MAX as int + 1,
                        d as int >= 0,
                ;
            }
        } else {
            let next: i128 = acc * 10 + d;
            proof {
                if k > start {
                    assert(digits_val(cur) == Some(acc as int * 10 + d as int));
                }
            }
            if next > i64::MAX as i128 + 1 {
                over = true;
            } else {
                acc = next;
            }
        }
        k = k + 1;
    }
    proof {
        assert(s@.subrange(start as int, n as int) =~= digits);
    }
    if over {
        return None;
    }
    if neg {
        if acc <= i64::MAX as i128 {
            Some(-(acc as i64))
        } else {
            proof {
                assert(acc == i64::MAX as i128 + 1);
                assert(parse_int_view(s@) == Some(-(acc as int)));
                assert(-(acc as int) == i64::MIN as int);
            }
            Some(i64::MIN)
        }
    } else {
        if acc <= i64::MAX as i128 {
            Some(acc as i64)
        } else {
            None
        }
    }
}

/// The numeric value of a committed field, when it holds one.
pub open spec fn field_num(fv: Option<ValueView>) -> Option<int> {
    match fv {
        Some(ValueView::Int(n)) => Some(n),
        _ => None,
    }
}

/// Equality of a committed field against a literal operand: strings compare
/// as text, numbers compare against the literal's numeric reading; absent
/// fields and other shapes never equal a literal.
pub open spec fn value_equals_lit(fv: Option<ValueView>, lit: Seq<char>) -> bool {
    match fv {
        Some(ValueView::Str(s)) => s == lit,
        Some(ValueView::Int(n)) => lit_int_view(lit) == Some(n),
        _ => false,
    }
}

/// The engine's evaluation of one field-scoped condition against the value
/// the document carries for that field.
pub open spec fn eval_leaf(fv: Option<ValueView>, op: ConditionView) -> bool {
    match op {
        ConditionView::GreaterThan(l) => match (field_num(fv), lit_int_view(l)) {
            (Some(n), Some(v)) => n > v,
            _ => false,
        },
        ConditionView::GreaterThanOrEqual(l) => match (field_num(fv), lit_int_view(l)) {
            (Some(n), Some(v)) => n >= v,
            _ => false,
        },
        ConditionView::LowerThan(l) => match (field_num(fv), lit_int_view(l)) {
            (Some(n), Some(v)) => n < v,
            _ => false,
        },
        ConditionView::LowerThanOrEqual(l) => match (field_num(fv), lit_int_view(l)) {
            (Some(n), Some(v)) => n <= v,
            _ => false,
        },
        ConditionView::Equal(l) => value_equals_lit(fv, l),
        ConditionView::NotEqual(l) => !value_equals_lit(fv, l),
        ConditionView::Between { from, to } => match (
            field_num(fv),
            lit_int_view(from),
            lit_int_view(to),
        ) {
            (Some(n), Some(a), Some(b)) => a <= n && n <= b,
            _ => false,
        },
        ConditionView::Exists => fv is Some,
        ConditionView::Null => fv == Some(ValueView::Null),
        ConditionView::Empty => match fv {
            Some(ValueView::Str(s)) => s.len() == 0,
            Some(ValueView::Arr(a)) => a.len() == 0,
            Some(ValueView::Obj(o)) => o.len() == 0,
            _ => false,
        },
    }
}

/// Evaluation of a compiled condition tree against one document.
pub open spec fn eval_cond(c: CondTreeView, d: DocView) -> bool
    decreases c,
{
    match c {
        CondTreeView::Or(cs) => eval_any(cs, d),
        CondTreeView::And(cs) => eval_all(cs, d),
        CondTreeView::Not(sub) => !eval_cond(*sub, d),
        CondTreeView::In { fid, els } => eval_in(lookup_field(d, fid), els),
        CondTreeView::Condition { fid, op } => eval_leaf(lookup_field(d, fid), op),
    }
}

pub open spec fn eval_any(cs: Seq<CondTreeView>, d: DocView) -> bool
    decreases cs,
{
    if cs.len() == 0 {
        false
    } else {
        eval_cond(cs[0], d) || eval_any(cs.drop_first(), d)
    }
}

pub open spec fn eval_all(cs: Seq<CondTreeView>, d: DocView) -> bool
    decreases cs,
{
    if cs.len() == 0 {
        true
    } else {
        eval_cond(cs[0], d) && eval_all(cs.drop_first(), d)
    }
}

pub open spec fn eval_in(fv: Option<ValueView>, els: Seq<Seq<char>>) -> bool
    decreases els.len(),
{
    if els.len() == 0 {
        false
    } else {
        value_equals_lit(fv, els[0]) || eval_in(fv, els.drop_first())
    }
}

fn field_num_exec(fv: Option<&DataValue>) -> (r: Option<i64>)
    ensures
        ({
            let fvv = match fv {
                Some(v) => Some(v@),
                None => None,
            };
            match r {
                Some(n) => field_num(fvv) == Some(n as int),
                None => field_num(fvv) is None,
            }
        }),
{
    match fv {
        Some(DataValue::Int(n)) => Some(*n),
        _ => None,
    }
}

fn value_equals_lit_exec(fv: Option<&DataValue>, lit: &String) -> (r: bool)
    ensures
        r == value_equals_lit(
            match fv {
                Some(v) => Some(v@),
                None => None,
            },
            lit@,
        ),
{
    match fv {
        Some(DataValue::Str(s)) => *s == *lit,
        Some(DataValue::Int(n)) => {
            let parsed = parse_int(lit);
            match parsed {
                Some(v) => v == *n,
                None => false,
            }
        }
        _ => false,
    }
}

/// Evaluates a compiled condition tree against one document, exactly as the
/// engine's native search primitive reads it.
pub fn eval_filter_condition(c: &FilterCondition, d: &Document) -> (r: bool)
    ensures
        r == eval_cond(cond_tree_view(*c), d@),
    decreases *c,
{
    match c {
        FilterCondition::Or(cs) => {
            let ghost views = cond_tree_view(*c)->Or_0;
            proof {
                assert(views.skip(0) =~= views);
            }
            let mut k: usize = 0;
            while k < cs.len()
                invariant
                    *c == FilterCondition::Or(*cs),
                    views == cond_tree_view(*c)->Or_0,
                    views.len() == cs.len(),
                    k <= cs.len(),
                    eval_any(views, d@) == eval_any(views.skip(k as int), d@),
                decreases cs.len() - k,
            {
                let ghost rest = views.skip(k as int);
                proof {
                    assert(rest[0] == views[k as int]);
                    assert(views[k as int] == cond_tree_view(cs@[k as int]));
                    assert(rest.drop_first() =~= views.skip(k as int + 1));
                    let vv = *c;
                    assert(vv->Or_0 == *cs);
                    assert(decreases_to!(vv => vv->Or_0));
                    assert(decreases_to!(vv->Or_0 => vv->Or_0@));
                    assert(decreases_to!(vv->Or_0@ => vv->Or_0@[k as int]));
                    assert(decreases_to!(*c => cs@[k as int]));
                }
                let hit = eval_filter_condition(&cs[k], d);
                if hit {
                    proof {
                        assert(eval_any(rest, d@));
                    }
                    return true;
                }
                k = k + 1;
            }
            proof {
                assert(views.skip(cs.len() as int) =~= Seq::<CondTreeView>::empty());
            }
            false
        }
        FilterCondition::And(cs) => {
            let ghost views = cond_tree_view(*c)->And_0;
            proof {
                assert(views.skip(0) =~= views);
            }
            let mut k: usize = 0;
            while k < cs.len()
                invariant
                    *c == FilterCondition::And(*cs),
                    views == cond_tree_view(*c)->And_0,
                    views.len() == cs.len(),
                    k <= cs.len(),
                    eval_all(views, d@) == eval_all(views.skip(k as int), d@),
                decreases cs.len() - k,
            {
                let ghost rest = views.skip(k as int);
                proof {
                    assert(rest[0] == views[k as int]);
                    assert(views[k as int] == cond_tree_view(cs@[k as int]));
                    assert(rest.drop_first() =~= views.skip(k as int + 1));
                    let vv = *c;
                    assert(vv->And_0 == *cs);
                    assert(decreases_to!(vv => vv->And_0));
                    assert(decreases_to!(vv->And_0 => vv->And_0@));
                    assert(decreases_to!(vv->And_0@ => vv->And_0@[k as int]));
                    assert(decreases_to!(*c => cs@[k as int]));
                }
                let hit = eval_filter_condition(&cs[k], d);
                if !hit {
                    proof {
                        assert(!eval_all(rest, d@));
                    }
                    return false;
                }
                k = k + 1;
            }
            proof {
                assert(views.skip(cs.len() as int) =~= Seq::<CondTreeView>::empty());
            }
            true
        }
        FilterCondition::Not(sub) => {
            let inner = eval_filter_condition(sub, d);
            !inner
        }
        FilterCondition::In { fid, els } => {
            let fv = d.get_field(fid);
            let ghost fvv = match fv {
                Some(v) => Some(v@),
                None => None,
            };
            let ghost elvs = els.deep_view();
            proof {
                assert(elvs.skip(0) =~= elvs);
            }
            let mut k: usize = 0;
            while k < els.len()
                invariant
                    k <= els.len(),
                    cond_tree_view(*c) == (CondTreeView::In { fid: fid@, els: elvs }),
                    elvs == els.deep_view(),
                    elvs.len() == els.len(),
                    fvv == lookup_field(d@, fid@),
                    fv matches Some(v) ==> fvv == Some(v@),
                    fv is None ==> fvv is None,
                    eval_in(fvv, elvs) == eval_in(fvv, elvs.skip(k as int)),
                decreases els.len() - k,
            {
                let ghost rest = elvs.skip(k as int);
                proof {
                    assert(rest[0] == elvs[k as int]);
                    assert(elvs[k as int] == els@[k as int]@);
                    assert(rest.drop_first() =~= elvs.skip(k as int + 1));
                }
                let hit = value_equals_lit_exec(fv, &els[k]);
                if hit {
                    proof {
                        assert(eval_in(fvv, rest));
                    }
                    return true;
                }
                k = k + 1;
            }
            proof {
                assert(elvs.skip(els.len() as int) =~= Seq::<Seq<char>>::empty());
            }
            false
        }
        FilterCondition::Condition { fid, op } => {
            let fv = d.get_field(fid);
            match op {
                Condition::GreaterThan(l) => {
                    let n = field_num_exec(fv);
                    let v = parse_int(l);
                    match (n, v) {
                        (Some(n), Some(v)) => n > v,
                        _ => false,
                    }
                }
                Condition::GreaterThanOrEqual(l) => {
                    let n = field_num_exec(fv);
                    let v = parse_int(l);
                    match (n, v) {
                        (Some(n), Some(v)) => n >= v,
                        _ => false,
                    }
                }
                Condition::LowerThan(l) => {
                    let n = field_num_exec(fv);
                    let v = parse_int(l);
                    match (n, v) {
                        (Some(n), Some(v)) => n < v,
                        _ => false,
                    }
                }
                Condition::LowerThanOrEqual(l) => {
                    let n = field_num_exec(fv);
                    let v = parse_int(l);
                    match (n, v) {
                        (Some(n), Some(v)) => n <= v,
                        _ => false,
                    }
                }
                Condition::Equal(l) => value_equals_lit_exec(fv, l),
                Condition::NotEqual(l) => !value_equals_lit_exec(fv, l),
                Condition::Between { from, to } => {
                    let n = field_num_exec(fv);
                    let a = parse_int(from);
                    let b = parse_int(to);
                    match (n, a, b) {
                        (Some(n), Some(a), Some(b)) => a <= n && n <= b,
                        _ => false,
                    }
                }
                Condition::Exists => fv.is_some(),
                Condition::Null => match fv {
                    Some(DataValue::Null) => true,
                    _ => false,
                },
                Condition::Empty => match fv {
                    Some(DataValue::Str(s)) => {
                        let st = s.as_str();
                        st.unicode_len() == 0
                    }
                    Some(DataValue::Arr(a)) => a.len() == 0,
                    Some(DataValue::Obj(o)) => o.len() == 0,
                    _ => false,
                },
            }
        }
    }
}

/// Whether one document passes the (optional) compiled filter.
pub open spec fn cond_matches(f: Option<CondTreeView>, d: DocView) -> bool {
    match f {
        Some(c) => eval_cond(c, d),
        None => true,
    }
}

/// The committed records that pass the filter, in storage order.
pub open spec fn matched_docs(entries: Seq<(Seq<char>, DocView)>, f: Option<CondTreeView>)
    -> Seq<DocView>
    decreases entries.len(),
{
    if entries.len() == 0 {
        Seq::empty()
    } else {
        let rest = matched_docs(entries.drop_first(), f);
        if cond_matches(f, entries[0].1) {
            seq![entries[0].1] + rest
        } else {
            rest
        }
    }
}

/// The numeric sort key a document carries for a field; records without a
/// numeric value at the field order after those with one.
pub open spec fn doc_sort_key(d: DocView, field: Seq<char>) -> Option<int> {
    field_num(lookup_field(d, field))
}

pub open spec fn key_leq(asc: bool, x: Option<int>, y: Option<int>) -> bool {
    match (x, y) {
        (Some(a), Some(b)) => if asc {
            a <= b
        } else {
            b <= a
        },
        (Some(a), None) => true,
        (None, Some(b)) => false,
        (None, None) => true,
    }
}

/// Lexicographic document order over the criteria list.
pub open spec fn doc_leq(a: DocView, b: DocView, crits: Seq<(bool, Seq<char>)>) -> bool
    decreases crits.len(),
{
    if crits.len() == 0 {
        true
    } else {
        let ka = doc_sort_key(a, crits[0].1);
        let kb = doc_sort_key(b, crits[0].1);
        if ka == kb {
            doc_leq(a, b, crits.drop_first())
        } else {
            key_leq(crits[0].0, ka, kb)
        }
    }
}

pub open spec fn sort_views(crits: Vec<SortBy>) -> Seq<(bool, Seq<char>)> {
    Seq::new(crits@.len(), |i: int| match crits@[i] {
        SortBy::Asc(f) => (true, f@),
        SortBy::Desc(f) => (false, f@),
    })
}

/// Where a record lands among already-ordered records: before the first one
/// it does not come after.
pub open spec fn insert_sorted(d: DocView, s: Seq<DocView>, crits: Seq<(bool, Seq<char>)>)
    -> Seq<DocView>
    decreases s.len(),
{
    if s.len() == 0 {
        seq![d]
    } else if doc_leq(d, s[0], crits) {
        seq![d] + s
    } else {
        seq![s[0]] + insert_sorted(d, s.drop_first(), crits)
    }
}

/// Insertion sort, record by record in storage order.
pub open spec fn sort_fold(
    acc: Seq<DocView>,
    rest: Seq<DocView>,
    crits: Seq<(bool, Seq<char>)>,
) -> Seq<DocView>
    decreases rest.len(),
{
    if rest.len() == 0 {
        acc
    } else {
        sort_fold(insert_sorted(rest[0], acc, crits), rest.drop_first(), crits)
    }
}

pub open spec fn sort_docs(s: Seq<DocView>, crits: Seq<(bool, Seq<char>)>) -> Seq<DocView> {
    sort_fold(Seq::empty(), s, crits)
}

pub proof fn lemma_insert_sorted_at(
    d: DocView,
    s: Seq<DocView>,
    crits: Seq<(bool, Seq<char>)>,
    pos: int,
)
    requires
        0 <= pos <= s.len(),
        forall|j: int| 0 <= j < pos ==> !doc_leq(d, #[trigger] s[j], crits),
        pos < s.len() ==> doc_leq(d, s[pos], crits),
    ensures
        insert_sorted(d, s, crits) =~= s.subrange(0, pos) + seq![d] + s.subrange(
            pos,
            s.len() as int,
        ),
    decreases s.len(),
{
    if s.len() == 0 {
        assert(s.subrange(0, 0) =~= Seq::<DocView>::empty());
    } else if doc_leq(d, s[0], crits) {
        assert(pos == 0);
        assert(s.subrange(0, s.len() as int) =~= s);
    } else {
        assert(pos > 0);
        assert forall|j: int| 0 <= j < pos - 1 implies !doc_leq(
            d,
            #[trigger] s.drop_first()[j],
            crits,
        ) by {
            assert(s.drop_first()[j] == s[j + 1]);
        }
        lemma_insert_sorted_at(d, s.drop_first(), crits, pos - 1);
    }
}

fn doc_leq_exec(a: &Document, b: &Document, crits: &Vec<SortBy>) -> (r: bool)
    ensures
        r == doc_leq(a@, b@, sort_views(*crits)),
{
    let ghost cv = sort_views(*crits);
    proof {
        assert(cv.skip(0) =~= cv);
    }
    let mut k: usize = 0;
    while k < crits.len()
        invariant
            k <= crits.len(),
            cv == sort_views(*crits),
            cv.len() == crits.len(),
            doc_leq(a@, b@, cv) == doc_leq(a@, b@, cv.skip(k as int)),
        decreases crits.len() - k,
    {
        let ghost rest = cv.skip(k as int);
        proof {
            assert(rest[0] == cv[k as int]);
            assert(rest.drop_first() =~= cv.skip(k as int + 1));
        }
        let (asc, field): (bool, &String) = match &crits[k] {
            SortBy::Asc(f) => (true, f),
            SortBy::Desc(f) => (false, f),
        };
        let ka = field_num_exec(a.get_field(field));
        let kb = field_num_exec(b.get_field(field));
        proof {
            assert(cv[k as int].0 == asc && cv[k as int].1 == field@);
        }
        let equal = match (&ka, &kb) {
            (Some(x), Some(y)) => *x == *y,
            (None, None) => true,
            _ => false,
        };
        if !equal {
            let r = match (ka, kb) {
                (Some(x), Some(y)) => if asc {
                    x <= y
                } else {
                    y <= x
                },
                (Some(_), None) => true,
                (None, Some(_)) => false,
                (None, None) => true,
            };
            return r;
        }
        k = k + 1;
    }
    proof {
        assert(cv.skip(crits.len() as int) =~= Seq::<(bool, Seq<char>)>::empty());
    }
    true
}

fn insert_doc(out: &mut Vec<Document>, d: Document, crits: &Vec<SortBy>)
    ensures
        crate::index::docs_views(*final(out)) == insert_sorted(
            d@,
            crate::index::docs_views(*old(out)),
            sort_views(*crits),
        ),
{
    let ghost sv = crate::index::docs_views(*old(out));
    let ghost cv = sort_views(*crits);
    let mut pos: usize = 0;
    let mut found = false;
    while pos < out.len() && !found
        invariant
            pos <= out.len(),
            *out == *old(out),
            sv == crate::index::docs_views(*out),
            cv == sort_views(*crits),
            forall|j: int| 0 <= j < pos ==> !doc_leq(d@, #[trigger] sv[j], cv),
            found ==> pos < out.len() && doc_leq(d@, sv[pos as int], cv),
        decreases out.len() - pos, (if found { 0int } else { 1int }),
    {
        let le = doc_leq_exec(&d, &out[pos], crits);
        proof {
            assert(sv[pos as int] == doc_view(out@[pos as int]));
        }
        if le {
            found = true;
        } else {
            pos = pos + 1;
        }
    }
    proof {
        lemma_insert_sorted_at(d@, sv, cv, pos as int);
    }
    let mut rebuilt: Vec<Document> = Vec::new();
    let mut k: usize = 0;
    while k < pos
        invariant
            k <= pos <= out.len(),
            sv == crate::index::docs_views(*out),
            rebuilt.len() == k,
            forall|j: int| 0 <= j < k ==> doc_view(rebuilt@[j]) == sv[j],
        decreases pos - k,
    {
        let c = out[k].duplicate();
        rebuilt.push(c);
        k = k + 1;
    }
    rebuilt.push(d);
    let mut k2: usize = pos;
    while k2 < out.len()
        invariant
            pos <= k2 <= out.len(),
            sv == crate::index::docs_views(*out),
            rebuilt.len() == k2 + 1,
            forall|j: int| 0 <= j < pos ==> doc_view(rebuilt@[j]) == sv[j],
            doc_view(rebuilt@[pos as int]) == d@,
            forall|j: int| pos < j <= k2 ==> doc_view(rebuilt@[j]) == sv[j - 1],
        decreases out.len() - k2,
    {
        let c = out[k2].duplicate();
        rebuilt.push(c);
        k2 = k2 + 1;
    }
    *out = rebuilt;
    proof {
        assert(crate::index::docs_views(*out) =~= sv.subrange(0, pos as int) + seq![d@]
            + sv.subrange(pos as int, sv.len() as int));
    }
}


/// Adjacent ordering of a record sequence under the criteria list.
pub open spec fn sorted_docs(s: Seq<DocView>, crits: Seq<(bool, Seq<char>)>) -> bool {
    forall|i: int| 0 <= i < s.len() - 1 ==> doc_leq(#[trigger] s[i], s[i + 1], crits)
}

/// The document order is total: of any two records, one comes no later than
/// the other.
pub proof fn lemma_doc_leq_total(a: DocView, b: DocView, crits: Seq<(bool, Seq<char>)>)
    ensures
        doc_leq(a, b, crits) || doc_leq(b, a, crits),
    decreases crits.len(),
{
    if crits.len() > 0 {
        let ka = doc_sort_key(a, crits[0].1);
        let kb = doc_sort_key(b, crits[0].1);
        if ka == kb {
            lemma_doc_leq_total(a, b, crits.drop_first());
        }
    }
}

pub proof fn lemma_insert_sorted_ordered(
    d: DocView,
    s: Seq<DocView>,
    crits: Seq<(bool, Seq<char>)>,
)
    requires
        sorted_docs(s, crits),
    ensures
        sorted_docs(insert_sorted(d, s, crits), crits),
        insert_sorted(d, s, crits).to_multiset() == s.push(d).to_multiset(),
    decreases s.len(),
{
    broadcast use vstd::seq_lib::group_to_multiset_ensures;

    let u = insert_sorted(d, s, crits);
    if s.len() == 0 {
        assert(u =~= seq![d]);
        assert(u =~= Seq::<DocView>::empty().push(d));
        assert(Seq::<DocView>::empty().push(d).to_multiset() =~= s.push(d).to_multiset());
    } else if doc_leq(d, s[0], crits) {
        assert(u == seq![d] + s);
        assert forall|i: int| 0 <= i < u.len() - 1 implies doc_leq(
            #[trigger] u[i],
            u[i + 1],
            crits,
        ) by {
            if i == 0 {
                assert(u[0] == d && u[1] == s[0]);
            } else {
                assert(u[i] == s[i - 1] && u[i + 1] == s[i]);
                lemma_doc_leq_chain_trivial(s, crits, i - 1);
            }
        }
        lemma_multiset_prepend(d, s);
    } else {
        assert forall|i: int| 0 <= i < s.drop_first().len() - 1 implies doc_leq(
            #[trigger] s.drop_first()[i],
            s.drop_first()[i + 1],
            crits,
        ) by {
            assert(s.drop_first()[i] == s[i + 1] && s.drop_first()[i + 1] == s[i + 2]);
        }
        lemma_insert_sorted_ordered(d, s.drop_first(), crits);
        let ur = insert_sorted(d, s.drop_first(), crits);
        assert(u == seq![s[0]] + ur);
        assert forall|i: int| 0 <= i < u.len() - 1 implies doc_leq(
            #[trigger] u[i],
            u[i + 1],
            crits,
        ) by {
            if i == 0 {
                assert(u[0] == s[0]);
                assert(u[1] == ur[0]);
                if s.drop_first().len() == 0 {
                    assert(ur =~= seq![d]);
                    lemma_doc_leq_total(d, s[0], crits);
                } else if doc_leq(d, s.drop_first()[0], crits) {
                    assert(ur[0] == d);
                    lemma_doc_leq_total(d, s[0], crits);
                } else {
                    assert(ur[0] == s.drop_first()[0]);
                    assert(s.drop_first()[0] == s[1]);
                }
            } else {
                assert(u[i] == ur[i - 1] && u[i + 1] == ur[i]);
            }
        }
        lemma_multiset_prepend(s[0], ur);
        lemma_multiset_prepend(s[0], s.drop_first());
        assert(seq![s[0]] + s.drop_first() =~= s);
        assert(u.to_multiset() =~= s.push(d).to_multiset()) by {
            assert(u.to_multiset() == ur.to_multiset().insert(s[0]));
            assert(ur.to_multiset() == s.drop_first().push(d).to_multiset());
            assert(s.drop_first().push(d).to_multiset() == s.drop_first().to_multiset().insert(
                d,
            ));
            assert(s.push(d).to_multiset() == s.to_multiset().insert(d));
            assert(s.to_multiset() == s.drop_first().to_multiset().insert(s[0]));
            assert(s.drop_first().to_multiset().insert(d).insert(s[0])
                =~= s.drop_first().to_multiset().insert(s[0]).insert(d));
        }
    }
}

proof fn lemma_doc_leq_chain_trivial(s: Seq<DocView>, crits: Seq<(bool, Seq<char>)>, i: int)
    requires
        sorted_docs(s, crits),
        0 <= i < s.len() - 1,
    ensures
        doc_leq(s[i], s[i + 1], crits),
{
}

proof fn lemma_multiset_prepend(d: DocView, s: Seq<DocView>)
    ensures
        (seq![d] + s).to_multiset() == s.to_multiset().insert(d),
    decreases s.len(),
{
    broadcast use vstd::seq_lib::group_to_multiset_ensures;

    if s.len() == 0 {
        assert(seq![d] + s =~= Seq::<DocView>::empty().push(d));
        assert(Seq::<DocView>::empty().push(d).to_multiset() =~= s.to_multiset().insert(d));
    } else {
        let u = seq![d] + s;
        assert(u.drop_last() =~= seq![d] + s.drop_last());
        lemma_multiset_prepend(d, s.drop_last());
        assert(u == u.drop_last().push(u.last()));
        assert(s == s.drop_last().push(s.last()));
        assert(u.last() == s.last());
        assert(u.to_multiset() == u.drop_last().to_multiset().insert(u.last()));
        assert(s.to_multiset() == s.drop_last().to_multiset().insert(s.last()));
        assert(s.drop_last().to_multiset().insert(d).insert(s.last())
            =~= s.drop_last().to_multiset().insert(s.last()).insert(d));
    }
}

/// The direct mode's ordering model is a sort: its output is ordered under
/// the criteria and holds exactly the records that went in.
pub proof fn lemma_sort_docs_is_a_sort(s: Seq<DocView>, crits: Seq<(bool, Seq<char>)>)
    ensures
        sorted_docs(sort_docs(s, crits), crits),
        sort_docs(s, crits).to_multiset() == s.to_multiset(),
{
    broadcast use vstd::seq_lib::group_to_multiset_ensures;

    lemma_sort_fold_ordered(Seq::empty(), s, crits);
    assert(Seq::<DocView>::empty().to_multiset().len() == 0);
    assert(Seq::<DocView>::empty().to_multiset() =~= vstd::multiset::Multiset::<DocView>::empty());
    assert(Seq::<DocView>::empty().to_multiset().add(s.to_multiset()) =~= s.to_multiset());
}

proof fn lemma_sort_fold_ordered(
    acc: Seq<DocView>,
    rest: Seq<DocView>,
    crits: Seq<(bool, Seq<char>)>,
)
    requires
        sorted_docs(acc, crits),
    ensures
        sorted_docs(sort_fold(acc, rest, crits), crits),
        sort_fold(acc, rest, crits).to_multiset() == acc.to_multiset().add(rest.to_multiset()),
    decreases rest.len(),
{
    broadcast use vstd::seq_lib::group_to_multiset_ensures;

    if rest.len() == 0 {
        assert(acc.to_multiset().add(rest.to_multiset()) =~= acc.to_multiset());
    } else {
        lemma_insert_sorted_ordered(rest[0], acc, crits);
        let acc1 = insert_sorted(rest[0], acc, crits);
        lemma_sort_fold_ordered(acc1, rest.drop_first(), crits);
        assert(acc1.to_multiset() == acc.push(rest[0]).to_multiset());
        assert(rest == seq![rest[0]] + rest.drop_first());
        lemma_multiset_prepend(rest[0], rest.drop_first());
        assert(acc.push(rest[0]).to_multiset() == acc.to_multiset().insert(rest[0]));
        assert(acc.to_multiset().insert(rest[0]).add(rest.drop_first().to_multiset())
            =~= acc.to_multiset().add(rest.drop_first().to_multiset().insert(rest[0])));
    }
}
/// Drives the engine's native search primitive against the committed
/// records: the compiled filter restricts, the criteria order, then the
/// offset/limit window is cut. The limit defaults to the maximum
/// representable value; results reconstruct each record inside the same
/// snapshot the search ran in. The free-text query and matching strategy
/// ride along for the engine's tokenized matching, which is outside this
/// model: here every committed record is a text match.
pub fn search_documents(
    index: &Index,
    query: Option<String>,
    limit: Option<u32>,
    offset: Option<u32>,
    sort_criteria: Option<Vec<SortBy>>,
    filter: Option<Filter>,
    matching_strategy: Option<TermsMatchingStrategy>,
) -> (r: Vec<Document>)
    ensures
        ({
            let fv = match filter {
                Some(f) => Some(compile_view(filter_view(f))),
                None => None::<CondTreeView>,
            };
            let matched = matched_docs(index.entries(), fv);
            let sorted = match sort_criteria {
                Some(c) => sort_docs(matched, sort_views(c)),
                None => matched,
            };
            let off: int = match offset {
                Some(o) => o as int,
                None => 0,
            };
            let lim: int = match limit {
                Some(l) => l as int,
                None => u32::MAX as int,
            };
            let lo: int = if off < sorted.len() {
                off
            } else {
                sorted.len() as int
            };
            let hi: int = if off + lim < sorted.len() {
                off + lim
            } else {
                sorted.len() as int
            };
            crate::index::docs_views(r) == sorted.subrange(lo, hi)
        }),
{
    let ghost fv = if filter is Some {
        Some(compile_view(filter_view(filter->Some_0)))
    } else {
        None::<CondTreeView>
    };
    let compiled: Option<FilterCondition> = match &filter {
        Some(f) => Some(f.compile()),
        None => None,
    };
    let ghost full = index.entries();
    let mut matched: Vec<Document> = Vec::new();
    proof {
        assert(full.skip(0) =~= full);
        assert(crate::index::docs_views(matched) =~= Seq::<DocView>::empty());
        assert(Seq::<DocView>::empty() + matched_docs(full, fv) =~= matched_docs(full, fv));
    }
    let mut k: usize = 0;
    while k < index.docs.len()
        invariant
            k <= index.docs.len(),
            full == index.entries(),
            full.len() == index.docs.len(),
            (compiled matches Some(cc) ==> fv == Some(cond_tree_view(cc))) && (
            compiled is None ==> fv is None),
            matched_docs(full, fv) == crate::index::docs_views(matched) + matched_docs(
                full.skip(k as int),
                fv,
            ),
        decreases index.docs.len() - k,
    {
        let ghost pre = crate::index::docs_views(matched);
        let ghost rest = full.skip(k as int);
        proof {
            assert(rest[0] == full[k as int]);
            assert(full[k as int].1 == doc_view(index.docs@[k as int].1));
            assert(rest.drop_first() =~= full.skip(k as int + 1));
        }
        let hit = match &compiled {
            Some(cc) => eval_filter_condition(cc, &index.docs[k].1),
            None => true,
        };
        if hit {
            let d = index.docs[k].1.duplicate();
            matched.push(d);
            proof {
                assert(crate::index::docs_views(matched) =~= pre.push(rest[0].1));
                assert(pre.push(rest[0].1) + matched_docs(rest.drop_first(), fv) =~= pre + (
                seq![rest[0].1] + matched_docs(rest.drop_first(), fv)));
            }
        }
        k = k + 1;
    }
    proof {
        assert(full.skip(index.docs.len() as int) =~= Seq::<(Seq<char>, DocView)>::empty());
        assert(crate::index::docs_views(matched) + Seq::<DocView>::empty()
            =~= crate::index::docs_views(matched));
    }
    let ghost mviews = crate::index::docs_views(matched);

    let sorted: Vec<Document> = match &sort_criteria {
        Some(crits) => {
            let ghost cv = sort_views(*crits);
            let mut out: Vec<Document> = Vec::new();
            proof {
                assert(mviews.skip(0) =~= mviews);
                assert(crate::index::docs_views(out) =~= Seq::<DocView>::empty());
            }
            let mut k2: usize = 0;
            while k2 < matched.len()
                invariant
                    k2 <= matched.len(),
                    cv == sort_views(*crits),
                    mviews == crate::index::docs_views(matched),
                    mviews.len() == matched.len(),
                    sort_docs(mviews, cv) == sort_fold(
                        crate::index::docs_views(out),
                        mviews.skip(k2 as int),
                        cv,
                    ),
                decreases matched.len() - k2,
            {
                let ghost rest = mviews.skip(k2 as int);
                proof {
                    assert(rest[0] == mviews[k2 as int]);
                    assert(mviews[k2 as int] == doc_view(matched@[k2 as int]));
                    assert(rest.drop_first() =~= mviews.skip(k2 as int + 1));
                }
                let d = matched[k2].duplicate();
                insert_doc(&mut out, d, crits);
                k2 = k2 + 1;
            }
            proof {
                assert(mviews.skip(matched.len() as int) =~= Seq::<DocView>::empty());
            }
            out
        }
        None => matched,
    };
    let ghost sviews = match sort_criteria {
        Some(c) => sort_docs(mviews, sort_views(c)),
        None => mviews,
    };
    proof {
        assert(sviews == crate::index::docs_views(sorted));
    }

    let n = sorted.len();
    let off: usize = match offset {
        Some(o) => o as usize,
        None => 0,
    };
    let lo: usize = if off < n {
        off
    } else {
        n
    };
    let cap: usize = match limit {
        Some(l) => l as usize,
        None => u32::MAX as usize,
    };
    let avail = n - lo;
    let take: usize = if cap < avail {
        cap
    } else {
        avail
    };
    let mut out: Vec<Document> = Vec::new();
    let mut i: usize = 0;
    while i < take
        invariant
            i <= take,
            lo + take <= n,
            n == sorted.len(),
            sviews == crate::index::docs_views(sorted),
            sviews.len() == n,
            out.len() == i,
            forall|j: int| 0 <= j < i ==> doc_view(out@[j]) == sviews[lo + j],
        decreases take - i,
    {
        let d = sorted[lo + i].duplicate();
        out.push(d);
        i = i + 1;
    }
    proof {
        let offs: int = match offset {
            Some(o) => o as int,
            None => 0,
        };
        let lims: int = match limit {
            Some(l) => l as int,
            None => u32::MAX as int,
        };
        let lospec: int = if offs < sviews.len() {
            offs
        } else {
            sviews.len() as int
        };
        let hispec: int = if offs + lims < sviews.len() {
            offs + lims
        } else {
            sviews.len() as int
        };
        if limit is None {
            assert(lims == u32::MAX as int);
        }
        assert(lospec == lo as int);
        assert(hispec == lo + take);
        assert(crate::index::docs_views(out) =~= sviews.subrange(lospec, hispec));
    }
    out
}
} // verus!
