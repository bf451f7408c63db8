//! The document data model: loosely-typed structured values and documents.
//!
//! A document is an ordered mapping from field names to structured values.
//! Numbers are modeled as 64-bit signed integers; the engine's value typing
//! for richer numeric forms lives outside this library.

use vstd::prelude::*;

verus! {

broadcast use vstd::std_specs::vec::group_vec_axioms;

/// Mathematical shape of a structured value.
#[verifier::ext_equal]
pub enum ValueView {
    Null,
    Bool(bool),
    Int(int),
    Str(Seq<char>),
    Arr(Seq<ValueView>),
    Obj(Seq<(Seq<char>, ValueView)>),
}

/// A structured field value: string, number, bool, null, array or nested object.
#[derive(Debug, PartialEq, Eq)]
pub enum DataValue {
    Null,
    Bool(bool),
    Int(i64),
    Str(String),
    Arr(Vec<DataValue>),
    Obj(Vec<(String, DataValue)>),
}

/// An ordered mapping from field name to value. Exactly one field, the
/// primary key, identifies the document within an index.
#[derive(Debug, PartialEq, Eq)]
pub struct Document {
    pub fields: Vec<(String, DataValue)>,
}

/// Mathematical shape of a document: its field list, names as character
/// sequences and values as [`ValueView`]s.
pub type DocView = Seq<(Seq<char>, ValueView)>;

pub open spec fn value_view(v: DataValue) -> ValueView
    decreases v,
{
    match v {
        DataValue::Null => ValueView::Null,
        DataValue::Bool(b) => ValueView::Bool(b),
        DataValue::Int(i) => ValueView::Int(i as int),
        DataValue::Str(s) => ValueView::Str(s@),
        DataValue::Arr(items) => ValueView::Arr(
            Seq::new(items@.len(), |i: int| if 0 <= i < items@.len() {
                value_view(items@[i])
            } else {
                ValueView::Null
            }),
        ),
        DataValue::Obj(fields) => ValueView::Obj(
            Seq::new(fields@.len(), |i: int| if 0 <= i < fields@.len() {
                (fields@[i].0@, value_view(fields@[i].1))
            } else {
                (Seq::<char>::empty(), ValueView::Null)
            }),
        ),
    }
}

pub open spec fn doc_view(d: Document) -> DocView {
    Seq::new(d.fields@.len(), |i: int| (d.fields@[i].0@, value_view(d.fields@[i].1)))
}

impl View for DataValue {
    type V = ValueView;

    open spec fn view(&self) -> ValueView {
        value_view(*self)
    }
}

impl View for Document {
    type V = DocView;

    open spec fn view(&self) -> DocView {
        doc_view(*self)
    }
}

/// The value of the first field of `fields` named `name`, if any.
pub open spec fn lookup_field(fields: DocView, name: Seq<char>) -> Option<ValueView>
    decreases fields.len(),
{
    if fields.len() == 0 {
        None
    } else if fields[0].0 == name {
        Some(fields[0].1)
    } else {
        lookup_field(fields.drop_first(), name)
    }
}

pub proof fn lemma_lookup_field_found(fields: DocView, name: Seq<char>, k: int)
    requires
        0 <= k < fields.len(),
        fields[k].0 == name,
        forall|j: int| 0 <= j < k ==> fields[j].0 != name,
    ensures
        lookup_field(fields, name) == Some(fields[k].1),
    decreases k,
{
    if k > 0 {
        lemma_lookup_field_found(fields.drop_first(), name, k - 1);
    }
}

pub proof fn lemma_lookup_field_none(fields: DocView, name: Seq<char>)
    requires
        forall|j: int| 0 <= j < fields.len() ==> fields[j].0 != name,
    ensures
        lookup_field(fields, name) is None,
    decreases fields.len(),
{
    if fields.len() > 0 {
        lemma_lookup_field_none(fields.drop_first(), name);
    }
}

pub fn copy_strings(v: &Vec<String>) -> (r: Vec<String>)
    ensures
        r.deep_view() == v.deep_view(),
{
    let mut out: Vec<String> = Vec::new();
    let mut k: usize = 0;
    while k < v.len()
        invariant
            k <= v.len(),
            out.len() == k,
            forall|j: int| 0 <= j < k ==> out@[j]@ == v@[j]@,
        decreases v.len() - k,
    {
        out.push(v[k].clone());
        k = k + 1;
    }
    proof {
        assert(out.deep_view() =~= v.deep_view());
    }
    out
}

impl DataValue {
    /// A structurally equal copy of the value.
    pub fn duplicate(&self) -> (r: DataValue)
        ensures
            r@ == self@,
        decreases *self,
    {
        match self {
            DataValue::Null => DataValue::Null,
            DataValue::Bool(b) => DataValue::Bool(*b),
            DataValue::Int(i) => DataValue::Int(*i),
            DataValue::Str(s) => DataValue::Str(s.clone()),
            DataValue::Arr(items) => {
                let mut out: Vec<DataValue> = Vec::new();
                let mut k: usize = 0;
                while k < items.len()
                    invariant
                        *self == DataValue::Arr(*items),
                        k <= items.len(),
                        out.len() == k,
                        forall|j: int| 0 <= j < k ==> value_view(out@[j]) == value_view(
                            items@[j],
                        ),
                    decreases items.len() - k,
                {
                    proof {
                        let vv = *self;
                        assert(vv->Arr_0 == *items);
                        assert(decreases_to!(vv => vv->Arr_0));
                        assert(decreases_to!(vv->Arr_0 => vv->Arr_0@));
                        assert(decreases_to!(vv->Arr_0@ => vv->Arr_0@[k as int]));
                        assert(decreases_to!(*self => items@[k as int]));
                    }
                    let c = items[k].duplicate();
                    out.push(c);
                    k = k + 1;
                }
                proof {
                    let lv = value_view(DataValue::Arr(out));
                    let rv = value_view(*self);
                    assert(lv->Arr_0 =~= rv->Arr_0);
                    assert(lv =~= rv);
                }
                DataValue::Arr(out)
            }
            DataValue::Obj(fields) => {
                let mut out: Vec<(String, DataValue)> = Vec::new();
                let mut k: usize = 0;
                while k < fields.len()
                    invariant
                        *self == DataValue::Obj(*fields),
                        k <= fields.len(),
                        out.len() == k,
                        forall|j: int| 0 <= j < k ==> out@[j].0@ == fields@[j].0@
                            && value_view(out@[j].1) == value_view(fields@[j].1),
                    decreases fields.len() - k,
                {
                    proof {
                        let vv = *self;
                        assert(vv->Obj_0 == *fields);
                        assert(decreases_to!(vv => vv->Obj_0));
                        assert(decreases_to!(vv->Obj_0 => vv->Obj_0@));
                        assert(decreases_to!(vv->Obj_0@ => vv->Obj_0@[k as int]));
                        assert(decreases_to!(vv->Obj_0@[k as int] => vv->Obj_0@[k as int].1));
                        assert(decreases_to!(*self => fields@[k as int].1));
                    }
                    let name = fields[k].0.clone();
                    let c = fields[k].1.duplicate();
                    out.push((name, c));
                    k = k + 1;
                }
                proof {
                    let lv = value_view(DataValue::Obj(out));
                    let rv = value_view(*self);
                    assert(lv->Obj_0 =~= rv->Obj_0);
                    assert(lv =~= rv);
                }
                DataValue::Obj(out)
            }
        }
    }
}

impl Document {
    pub fn new() -> (r: Document)
        ensures
            r@ == Seq::<(Seq<char>, ValueView)>::empty(),
    {
        let d = Document { fields: Vec::new() };
        proof {
            assert(d@ =~= Seq::<(Seq<char>, ValueView)>::empty());
        }
        d
    }

    /// Appends a field; fields keep their insertion order.
    pub fn push_field(&mut self, name: String, value: DataValue)
        ensures
            final(self)@ == old(self)@.push((name@, value@)),
    {
        self.fields.push((name, value));
        proof {
            assert(final(self)@ =~= old(self)@.push((name@, value@)));
        }
    }

    /// A structurally equal copy of the document.
    pub fn duplicate(&self) -> (r: Document)
        ensures
            r@ == self@,
    {
        let mut out: Vec<(String, DataValue)> = Vec::new();
        let mut k: usize = 0;
        while k < self.fields.len()
            invariant
                k <= self.fields.len(),
                out.len() == k,
                forall|j: int| 0 <= j < k ==> out@[j].0@ == self.fields@[j].0@ && value_view(
                    out@[j].1,
                ) == value_view(self.fields@[j].1),
            decreases self.fields.len() - k,
        {
            let name = self.fields[k].0.clone();
            let c = self.fields[k].1.duplicate();
            out.push((name, c));
            k = k + 1;
        }
        let r = Document { fields: out };
        proof {
            assert(r@ =~= self@);
        }
        r
    }

    /// The value of the first field named `name`, if any.
    pub fn get_field(&self, name: &String) -> (r: Option<&DataValue>)
        ensures
            match r {
                Some(v) => lookup_field(self@, name@) == Some(v@),
                None => lookup_field(self@, name@) is None,
            },
    {
        let mut k: usize = 0;
        while k < self.fields.len()
            invariant
                k <= self.fields.len(),
                forall|j: int| 0 <= j < k ==> self@[j].0 != name@,
            decreases self.fields.len() - k,
        {
            if self.fields[k].0 == *name {
                proof {
                    lemma_lookup_field_found(self@, name@, k as int);
                }
                return Some(&self.fields[k].1);
            }
            k = k + 1;
        }
        proof {
            lemma_lookup_field_none(self@, name@);
        }
        None
    }
}

} // verus!
