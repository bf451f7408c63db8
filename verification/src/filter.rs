//! The filter-expression compiler: a recursive, structure-preserving, total
//! mapping from the caller-facing boolean predicate tree to the engine's
//! native condition tree. No normalization or simplification is performed;
//! the output tree is isomorphic to the input tree.

use vstd::prelude::*;

use crate::value::copy_strings;

verus! {

broadcast use vstd::std_specs::vec::group_vec_axioms;

/// A boolean predicate tree over document fields. Leaf operands are
/// string-encoded literals; numeric typing is resolved by the engine's value
/// comparator at evaluation time, not here.
#[derive(Debug, PartialEq, Eq)]
pub enum Filter {
    Or(Vec<Filter>),
    And(Vec<Filter>),
    Not(Box<Filter>),
    InValues { field: String, values: Vec<String> },
    GreaterThan { field: String, value: String },
    GreaterThanOrEqual { field: String, value: String },
    Equal { field: String, value: String },
    NotEqual { field: String, value: String },
    LessThan { field: String, value: String },
    LessThanOrEqual { field: String, value: String },
    Between { field: String, from: String, to: String },
    Exists { field: String },
    IsNull { field: String },
    IsEmpty { field: String },
}

/// A field-scoped operator of the engine's native condition tree.
#[derive(Debug, PartialEq, Eq)]
pub enum Condition {
    GreaterThan(String),
    GreaterThanOrEqual(String),
    Equal(String),
    NotEqual(String),
    LowerThan(String),
    LowerThanOrEqual(String),
    Between { from: String, to: String },
    Exists,
    Null,
    Empty,
}

/// The engine's native condition tree: disjunction and conjunction nodes,
/// negation, set membership, and field-scoped conditions.
#[derive(Debug, PartialEq, Eq)]
pub enum FilterCondition {
    Or(Vec<FilterCondition>),
    And(Vec<FilterCondition>),
    Not(Box<FilterCondition>),
    In { fid: String, els: Vec<String> },
    Condition { fid: String, op: Condition },
}

/// Mathematical shape of a [`Filter`].
#[verifier::ext_equal]
pub enum FilterView {
    Or(Seq<FilterView>),
    And(Seq<FilterView>),
    Not(Box<FilterView>),
    InValues { field: Seq<char>, values: Seq<Seq<char>> },
    GreaterThan { field: Seq<char>, value: Seq<char> },
    GreaterThanOrEqual { field: Seq<char>, value: Seq<char> },
    Equal { field: Seq<char>, value: Seq<char> },
    NotEqual { field: Seq<char>, value: Seq<char> },
    LessThan { field: Seq<char>, value: Seq<char> },
    LessThanOrEqual { field: Seq<char>, value: Seq<char> },
    Between { field: Seq<char>, from: Seq<char>, to: Seq<char> },
    Exists { field: Seq<char> },
    IsNull { field: Seq<char> },
    IsEmpty { field: Seq<char> },
}

/// Mathematical shape of a [`Condition`].
#[verifier::ext_equal]
pub enum ConditionView {
    GreaterThan(Seq<char>),
    GreaterThanOrEqual(Seq<char>),
    Equal(Seq<char>),
    NotEqual(Seq<char>),
    LowerThan(Seq<char>),
    LowerThanOrEqual(Seq<char>),
    Between { from: Seq<char>, to: Seq<char> },
    Exists,
    Null,
    Empty,
}

/// Mathematical shape of a [`FilterCondition`].
#[verifier::ext_equal]
pub enum CondTreeView {
    Or(Seq<CondTreeView>),
    And(Seq<CondTreeView>),
    Not(Box<CondTreeView>),
    In { fid: Seq<char>, els: Seq<Seq<char>> },
    Condition { fid: Seq<char>, op: ConditionView },
}

pub open spec fn filter_view(f: Filter) -> FilterView
    decreases f,
{
    match f {
        Filter::Or(fs) => FilterView::Or(
            Seq::new(fs@.len(), |i: int| if 0 <= i < fs@.len() {
                filter_view(fs@[i])
            } else {
                FilterView::Or(Seq::empty())
            }),
        ),
        Filter::And(fs) => FilterView::And(
            Seq::new(fs@.len(), |i: int| if 0 <= i < fs@.len() {
                filter_view(fs@[i])
            } else {
                FilterView::Or(Seq::empty())
            }),
        ),
        Filter::Not(sub) => FilterView::Not(Box::new(filter_view(*sub))),
        Filter::InValues { field, values } => FilterView::InValues {
            field: field@,
            values: values.deep_view(),
        },
        Filter::GreaterThan { field, value } => FilterView::GreaterThan {
            field: field@,
            value: value@,
        },
        Filter::GreaterThanOrEqual { field, value } => FilterView::GreaterThanOrEqual {
            field: field@,
            value: value@,
        },
        Filter::Equal { field, value } => FilterView::Equal { field: field@, value: value@ },
        Filter::NotEqual { field, value } => FilterView::NotEqual {
            field: field@,
            value: value@,
        },
        Filter::LessThan { field, value } => FilterView::LessThan {
            field: field@,
            value: value@,
        },
        Filter::LessThanOrEqual { field, value } => FilterView::LessThanOrEqual {
            field: field@,
            value: value@,
        },
        Filter::Between { field, from, to } => FilterView::Between {
            field: field@,
            from: from@,
            to: to@,
        },
        Filter::Exists { field } => FilterView::Exists { field: field@ },
        Filter::IsNull { field } => FilterView::IsNull { field: field@ },
        Filter::IsEmpty { field } => FilterView::IsEmpty { field: field@ },
    }
}

pub open spec fn condition_view(c: Condition) -> ConditionView {
    match c {
        Condition::GreaterThan(v) => ConditionView::GreaterThan(v@),
        Condition::GreaterThanOrEqual(v) => ConditionView::GreaterThanOrEqual(v@),
        Condition::Equal(v) => ConditionView::Equal(v@),
        Condition::NotEqual(v) => ConditionView::NotEqual(v@),
        Condition::LowerThan(v) => ConditionView::LowerThan(v@),
        Condition::LowerThanOrEqual(v) => ConditionView::LowerThanOrEqual(v@),
        Condition::Between { from, to } => ConditionView::Between { from: from@, to: to@ },
        Condition::Exists => ConditionView::Exists,
        Condition::Null => ConditionView::Null,
        Condition::Empty => ConditionView::Empty,
    }
}

pub open spec fn cond_tree_view(c: FilterCondition) -> CondTreeView
    decreases c,
{
    match c {
        FilterCondition::Or(cs) => CondTreeView::Or(
            Seq::new(cs@.len(), |i: int| if 0 <= i < cs@.len() {
                cond_tree_view(cs@[i])
            } else {
                CondTreeView::Or(Seq::empty())
            }),
        ),
        FilterCondition::And(cs) => CondTreeView::And(
            Seq::new(cs@.len(), |i: int| if 0 <= i < cs@.len() {
                cond_tree_view(cs@[i])
            } else {
                CondTreeView::Or(Seq::empty())
            }),
        ),
        FilterCondition::Not(sub) => CondTreeView::Not(Box::new(cond_tree_view(*sub))),
        FilterCondition::In { fid, els } => CondTreeView::In {
            fid: fid@,
            els: els.deep_view(),
        },
        FilterCondition::Condition { fid, op } => CondTreeView::Condition {
            fid: fid@,
            op: condition_view(op),
        },
    }
}

/// The compilation, stated once at the mathematical level: each variant of
/// the predicate grammar has exactly one image, arity and order preserved.
pub open spec fn compile_view(f: FilterView) -> CondTreeView
    decreases f,
{
    match f {
        FilterView::Or(fs) => CondTreeView::Or(
            Seq::new(fs.len(), |i: int| if 0 <= i < fs.len() {
                compile_view(fs[i])
            } else {
                CondTreeView::Or(Seq::empty())
            }),
        ),
        FilterView::And(fs) => CondTreeView::And(
            Seq::new(fs.len(), |i: int| if 0 <= i < fs.len() {
                compile_view(fs[i])
            } else {
                CondTreeView::Or(Seq::empty())
            }),
        ),
        FilterView::Not(sub) => CondTreeView::Not(Box::new(compile_view(*sub))),
        FilterView::InValues { field, values } => CondTreeView::In { fid: field, els: values },
        FilterView::GreaterThan { field, value } => CondTreeView::Condition {
            fid: field,
            op: ConditionView::GreaterThan(value),
        },
        FilterView::GreaterThanOrEqual { field, value } => CondTreeView::Condition {
            fid: field,
            op: ConditionView::GreaterThanOrEqual(value),
        },
        FilterView::Equal { field, value } => CondTreeView::Condition {
            fid: field,
            op: ConditionView::Equal(value),
        },
        FilterView::NotEqual { field, value } => CondTreeView::Condition {
            fid: field,
            op: ConditionView::NotEqual(value),
        },
        FilterView::LessThan { field, value } => CondTreeView::Condition {
            fid: field,
            op: ConditionView::LowerThan(value),
        },
        FilterView::LessThanOrEqual { field, value } => CondTreeView::Condition {
            fid: field,
            op: ConditionView::LowerThanOrEqual(value),
        },
        FilterView::Between { field, from, to } => CondTreeView::Condition {
            fid: field,
            op: ConditionView::Between { from, to },
        },
        FilterView::Exists { field } => CondTreeView::Condition {
            fid: field,
            op: ConditionView::Exists,
        },
        FilterView::IsNull { field } => CondTreeView::Condition {
            fid: field,
            op: ConditionView::Null,
        },
        FilterView::IsEmpty { field } => CondTreeView::Condition {
            fid: field,
            op: ConditionView::Empty,
        },
    }
}

/// The inverse reading of a compiled tree, used to state that compilation
/// loses no structure.
pub open spec fn decompile_view(c: CondTreeView) -> FilterView
    decreases c,
{
    match c {
        CondTreeView::Or(cs) => FilterView::Or(
            Seq::new(cs.len(), |i: int| if 0 <= i < cs.len() {
                decompile_view(cs[i])
            } else {
                FilterView::Or(Seq::empty())
            }),
        ),
        CondTreeView::And(cs) => FilterView::And(
            Seq::new(cs.len(), |i: int| if 0 <= i < cs.len() {
                decompile_view(cs[i])
            } else {
                FilterView::Or(Seq::empty())
            }),
        ),
        CondTreeView::Not(sub) => FilterView::Not(Box::new(decompile_view(*sub))),
        CondTreeView::In { fid, els } => FilterView::InValues { field: fid, values: els },
        CondTreeView::Condition { fid, op } => match op {
            ConditionView::GreaterThan(v) => FilterView::GreaterThan { field: fid, value: v },
            ConditionView::GreaterThanOrEqual(v) => FilterView::GreaterThanOrEqual {
                field: fid,
                value: v,
            },
            ConditionView::Equal(v) => FilterView::Equal { field: fid, value: v },
            ConditionView::NotEqual(v) => FilterView::NotEqual { field: fid, value: v },
            ConditionView::LowerThan(v) => FilterView::LessThan { field: fid, value: v },
            ConditionView::LowerThanOrEqual(v) => FilterView::LessThanOrEqual {
                field: fid,
                value: v,
            },
            ConditionView::Between { from, to } => FilterView::Between { field: fid, from, to },
            ConditionView::Exists => FilterView::Exists { field: fid },
            ConditionView::Null => FilterView::IsNull { field: fid },
            ConditionView::Empty => FilterView::IsEmpty { field: fid },
        },
    }
}

/// Compilation is structure-preserving: reading the compiled tree back yields
/// the input tree, for every tree of the predicate grammar.
pub proof fn lemma_compile_round_trip(f: FilterView)
    ensures
        decompile_view(compile_view(f)) == f,
    decreases f,
{
    match f {
        FilterView::Or(fs) => {
            assert forall|i: int| 0 <= i < fs.len() implies decompile_view(
                compile_view(fs[i]),
            ) == fs[i] by {
                lemma_compile_round_trip(fs[i]);
            }
            assert(decompile_view(compile_view(f))->Or_0 =~= fs);
            assert(decompile_view(compile_view(f)) =~= f);
        }
        FilterView::And(fs) => {
            assert forall|i: int| 0 <= i < fs.len() implies decompile_view(
                compile_view(fs[i]),
            ) == fs[i] by {
                lemma_compile_round_trip(fs[i]);
            }
            assert(decompile_view(compile_view(f))->And_0 =~= fs);
            assert(decompile_view(compile_view(f)) =~= f);
        }
        FilterView::Not(sub) => {
            lemma_compile_round_trip(*sub);
        }
        _ => {},
    }
}

fn create_condition(s: String, cond: Condition) -> (r: FilterCondition)
    ensures
        cond_tree_view(r) == (CondTreeView::Condition { fid: s@, op: condition_view(cond) }),
{
    FilterCondition::Condition { fid: s, op: cond }
}

impl Filter {
    /// Compiles the predicate tree into the engine's native condition tree.
    /// Pure and total over the grammar: order and arity of `Or`/`And` are
    /// kept, each leaf maps to exactly one field-scoped condition.
    pub fn compile(&self) -> (r: FilterCondition)
        ensures
            cond_tree_view(r) == compile_view(filter_view(*self)),
        decreases *self,
    {
        match self {
            Filter::Or(fs) => {
                let mut out: Vec<FilterCondition> = Vec::new();
                let mut k: usize = 0;
                while k < fs.len()
                    invariant
                        *self == Filter::Or(*fs),
                        k <= fs.len(),
                        out.len() == k,
                        forall|j: int| 0 <= j < k ==> cond_tree_view(out@[j]) == compile_view(
                            filter_view(fs@[j]),
                        ),
                    decreases fs.len() - k,
                {
                    proof {
                        let vv = *self;
                        assert(vv->Or_0 == *fs);
                        assert(decreases_to!(vv => vv->Or_0));
                        assert(decreases_to!(vv->Or_0 => vv->Or_0@));
                        assert(decreases_to!(vv->Or_0@ => vv->Or_0@[k as int]));
                        assert(decreases_to!(*self => fs@[k as int]));
                    }
                    let c = fs[k].compile();
                    out.push(c);
                    k = k + 1;
                }
                let r = FilterCondition::Or(out);
                proof {
                    assert(cond_tree_view(r)->Or_0 =~= compile_view(filter_view(*self))->Or_0);
                    assert(cond_tree_view(r) =~= compile_view(filter_view(*self)));
                }
                r
            }
            Filter::And(fs) => {
                let mut out: Vec<FilterCondition> = Vec::new();
                let mut k: usize = 0;
                while k < fs.len()
                    invariant
                        *self == Filter::And(*fs),
                        k <= fs.len(),
                        out.len() == k,
                        forall|j: int| 0 <= j < k ==> cond_tree_view(out@[j]) == compile_view(
                            filter_view(fs@[j]),
                        ),
                    decreases fs.len() - k,
                {
                    proof {
                        let vv = *self;
                        assert(vv->And_0 == *fs);
                        assert(decreases_to!(vv => vv->And_0));
                        assert(decreases_to!(vv->And_0 => vv->And_0@));
                        assert(decreases_to!(vv->And_0@ => vv->And_0@[k as int]));
                        assert(decreases_to!(*self => fs@[k as int]));
                    }
                    let c = fs[k].compile();
                    out.push(c);
                    k = k + 1;
                }
                let r = FilterCondition::And(out);
                proof {
                    assert(cond_tree_view(r)->And_0 =~= compile_view(filter_view(*self))->And_0);
                    assert(cond_tree_view(r) =~= compile_view(filter_view(*self)));
                }
                r
            }
            Filter::Not(sub) => {
                let c = sub.compile();
                FilterCondition::Not(Box::new(c))
            }
            Filter::InValues { field, values } => FilterCondition::In {
                fid: field.clone(),
                els: copy_strings(values),
            },
            Filter::GreaterThan { field, value } => create_condition(
                field.clone(),
                Condition::GreaterThan(value.clone()),
            ),
            Filter::GreaterThanOrEqual { field, value } => create_condition(
                field.clone(),
                Condition::GreaterThanOrEqual(value.clone()),
            ),
            Filter::Equal { field, value } => create_condition(
                field.clone(),
                Condition::Equal(value.clone()),
            ),
            Filter::NotEqual { field, value } => create_condition(
                field.clone(),
                Condition::NotEqual(value.clone()),
            ),
            Filter::LessThan { field, value } => create_condition(
                field.clone(),
                Condition::LowerThan(value.clone()),
            ),
            Filter::LessThanOrEqual { field, value } => create_condition(
                field.clone(),
                Condition::LowerThanOrEqual(value.clone()),
            ),
            Filter::Between { field, from, to } => create_condition(
                field.clone(),
                Condition::Between { from: from.clone(), to: to.clone() },
            ),
            Filter::Exists { field } => create_condition(field.clone(), Condition::Exists),
            Filter::IsNull { field } => create_condition(field.clone(), Condition::Null),
            Filter::IsEmpty { field } => create_condition(field.clone(), Condition::Empty),
        }
    }
}

} // verus!
