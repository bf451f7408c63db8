//! The committed state of one index and its transactional document pipeline.
//!
//! Every mutation below works on a candidate copy of the committed entries
//! and installs it with a single assignment on success: that assignment is
//! the model of the write transaction's commit. On any error the candidate
//! is dropped and the committed state is untouched, so no reader ever sees a
//! partial mutation, and `set_documents` in particular can never expose the
//! intermediate empty state between its clear and its add.

use vstd::prelude::*;
use vstd::pervasive::VecAdditionalExecFns;

use crate::error::Error;
use crate::settings::{
    MimirIndexSettings, StoredSettings, StoredSettingsView, RankingRule,
    default_stored_settings_view, opt_str_view, parse_ranking_rule, parse_rule_view,
    parse_rules_view, rule_names, read_settings_view, apply_settings_view,
    copy_opt_strings, copy_synonyms,
    lemma_parse_rules_fails, lemma_parse_rules_all,
};
use crate::value::{
    copy_strings, doc_view, lookup_field, DocView, Document, ValueView, DataValue,
    lemma_lookup_field_found, lemma_lookup_field_none,
};

verus! {

broadcast use vstd::std_specs::vec::group_vec_axioms;

/// One committed record: its external identifier and its document.
pub type EntryView = (Seq<char>, DocView);

/// The committed document set in the engine's internal storage order.
pub type EntriesView = Seq<EntryView>;

pub open spec fn entries_view(docs: Vec<(String, Document)>) -> EntriesView {
    Seq::new(docs@.len(), |i: int| (docs@[i].0@, doc_view(docs@[i].1)))
}

pub open spec fn docs_views(docs: Vec<Document>) -> Seq<DocView> {
    Seq::new(docs@.len(), |i: int| doc_view(docs@[i]))
}

/// The document stored under an external identifier: the identifier map
/// composed with the document store.
pub open spec fn lookup_entry(entries: EntriesView, id: Seq<char>) -> Option<DocView>
    decreases entries.len(),
{
    if entries.len() == 0 {
        None
    } else if entries[0].0 == id {
        Some(entries[0].1)
    } else {
        lookup_entry(entries.drop_first(), id)
    }
}

pub proof fn lemma_lookup_entry_found(entries: EntriesView, id: Seq<char>, k: int)
    requires
        0 <= k < entries.len(),
        entries[k].0 == id,
        forall|j: int| 0 <= j < k ==> entries[j].0 != id,
    ensures
        lookup_entry(entries, id) == Some(entries[k].1),
    decreases k,
{
    if k > 0 {
        lemma_lookup_entry_found(entries.drop_first(), id, k - 1);
    }
}

pub proof fn lemma_lookup_entry_none(entries: EntriesView, id: Seq<char>)
    requires
        forall|j: int| 0 <= j < entries.len() ==> entries[j].0 != id,
    ensures
        lookup_entry(entries, id) is None,
    decreases entries.len(),
{
    if entries.len() > 0 {
        lemma_lookup_entry_none(entries.drop_first(), id);
    }
}

/// Replaces the record stored under `id`, or appends one if `id` is new.
pub open spec fn upsert_entry(entries: EntriesView, id: Seq<char>, d: DocView) -> EntriesView
    decreases entries.len(),
{
    if entries.len() == 0 {
        seq![(id, d)]
    } else if entries[0].0 == id {
        seq![(id, d)] + entries.drop_first()
    } else {
        seq![entries[0]] + upsert_entry(entries.drop_first(), id, d)
    }
}

pub proof fn lemma_upsert_found(entries: EntriesView, id: Seq<char>, d: DocView, k: int)
    requires
        0 <= k < entries.len(),
        entries[k].0 == id,
        forall|j: int| 0 <= j < k ==> entries[j].0 != id,
    ensures
        upsert_entry(entries, id, d) =~= entries.update(k, (id, d)),
    decreases k,
{
    if k == 0 {
        assert(seq![(id, d)] + entries.drop_first() =~= entries.update(0, (id, d)));
    } else {
        lemma_upsert_found(entries.drop_first(), id, d, k - 1);
        assert(entries.update(k, (id, d)).drop_first() =~= entries.drop_first().update(
            k - 1,
            (id, d),
        ));
        assert(seq![entries[0]] + upsert_entry(entries.drop_first(), id, d) =~= entries.update(
            k,
            (id, d),
        ));
    }
}

pub proof fn lemma_upsert_fresh(entries: EntriesView, id: Seq<char>, d: DocView)
    requires
        forall|j: int| 0 <= j < entries.len() ==> entries[j].0 != id,
    ensures
        upsert_entry(entries, id, d) =~= entries.push((id, d)),
    decreases entries.len(),
{
    if entries.len() > 0 {
        lemma_upsert_fresh(entries.drop_first(), id, d);
        assert(seq![entries[0]] + upsert_entry(entries.drop_first(), id, d) =~= entries.push(
            (id, d),
        ));
    }
}

/// The external identifier a document carries for the primary key `pk`:
/// the string value of its first field named `pk`, if such a field exists
/// and holds a string.
pub open spec fn doc_id_of(d: DocView, pk: Seq<char>) -> Option<Seq<char>> {
    match lookup_field(d, pk) {
        Some(ValueView::Str(s)) => Some(s),
        _ => None,
    }
}

/// Every record of the batch carries a string value for the primary key.
pub open spec fn batch_ok(batch: Seq<DocView>, pk: Seq<char>) -> bool {
    forall|i: int| 0 <= i < batch.len() ==> doc_id_of(#[trigger] batch[i], pk) is Some
}

/// Indexes a batch record by record, in order: each record replaces the
/// committed record with the same external identifier, or is appended.
pub open spec fn apply_batch(entries: EntriesView, batch: Seq<DocView>, pk: Seq<char>)
    -> EntriesView
    decreases batch.len(),
{
    if batch.len() == 0 {
        entries
    } else {
        apply_batch(
            upsert_entry(entries, doc_id_of(batch[0], pk).unwrap(), batch[0]),
            batch.drop_first(),
            pk,
        )
    }
}

/// The primary key a batch is indexed under: the committed designation if
/// one exists, otherwise the engine's inference from the first record of
/// the batch (the field named `id`).
pub open spec fn effective_pkey(cur: Option<Seq<char>>, batch: Seq<DocView>)
    -> Option<Seq<char>> {
    match cur {
        Some(p) => Some(p),
        None => if batch.len() > 0 && lookup_field(batch[0], "id"@) is Some {
            Some("id"@)
        } else {
            None
        },
    }
}

/// The engine's verdict on the first offending record of a batch, if any:
/// the two-stage pipeline reports these as user-data errors even though the
/// enclosing batch step itself is accepted.
pub open spec fn first_doc_error(batch: Seq<DocView>, pk: Seq<char>) -> Option<Error>
    decreases batch.len(),
{
    if batch.len() == 0 {
        None
    } else {
        match lookup_field(batch[0], pk) {
            None => Some(Error::DocumentMissingPrimaryKey),
            Some(v) => if !(v is Str) {
                Some(Error::InvalidPrimaryKeyValue)
            } else {
                first_doc_error(batch.drop_first(), pk)
            },
        }
    }
}

/// The verdict on an `add` or `set` batch: `None` means the batch commits.
pub open spec fn batch_outcome(cur_pk: Option<Seq<char>>, batch: Seq<DocView>)
    -> Option<Error> {
    if batch.len() == 0 {
        None
    } else {
        match effective_pkey(cur_pk, batch) {
            None => Some(Error::NoPrimaryKeyCandidate),
            Some(pk) => first_doc_error(batch, pk),
        }
    }
}

pub proof fn lemma_first_doc_error_none(batch: Seq<DocView>, pk: Seq<char>)
    requires
        first_doc_error(batch, pk) is None,
    ensures
        batch_ok(batch, pk),
    decreases batch.len(),
{
    if batch.len() > 0 {
        lemma_first_doc_error_none(batch.drop_first(), pk);
        assert forall|i: int| 0 <= i < batch.len() implies doc_id_of(
            #[trigger] batch[i],
            pk,
        ) is Some by {
            if i > 0 {
                assert(batch.drop_first()[i - 1] == batch[i]);
            }
        }
    }
}

/// No two committed records share an external identifier.
pub open spec fn unique_ids(entries: EntriesView) -> bool {
    forall|i: int, j: int| 0 <= i < j < entries.len() ==> (#[trigger] entries[i]).0 != (
    #[trigger] entries[j]).0
}

pub proof fn lemma_upsert_keys(entries: EntriesView, id: Seq<char>, d: DocView, j: int)
    requires
        0 <= j < upsert_entry(entries, id, d).len(),
    ensures
        upsert_entry(entries, id, d)[j].0 == id || exists|m: int|
            0 <= m < entries.len() && (#[trigger] entries[m]).0 == upsert_entry(
                entries,
                id,
                d,
            )[j].0,
    decreases entries.len(),
{
    if entries.len() == 0 {
    } else if entries[0].0 == id {
        if j > 0 {
            assert(entries[j] == entries.drop_first()[j - 1]);
        }
    } else {
        if j > 0 {
            lemma_upsert_keys(entries.drop_first(), id, d, j - 1);
            let u = upsert_entry(entries, id, d);
            let ur = upsert_entry(entries.drop_first(), id, d);
            assert(u[j] == ur[j - 1]);
            if ur[j - 1].0 != id {
                let m = choose|m: int|
                    0 <= m < entries.drop_first().len()
                        && (#[trigger] entries.drop_first()[m]).0 == ur[j - 1].0;
                assert(entries[m + 1].0 == u[j].0);
            }
        }
    }
}

pub proof fn lemma_upsert_unique(entries: EntriesView, id: Seq<char>, d: DocView)
    requires
        unique_ids(entries),
    ensures
        unique_ids(upsert_entry(entries, id, d)),
    decreases entries.len(),
{
    let u = upsert_entry(entries, id, d);
    if entries.len() == 0 {
    } else if entries[0].0 == id {
        assert forall|i: int, j: int| 0 <= i < j < u.len() implies (#[trigger] u[i]).0 != (
        #[trigger] u[j]).0 by {
            assert(u[j] == entries.drop_first()[j - 1]);
            assert(entries[j] == entries.drop_first()[j - 1]);
            if i > 0 {
                assert(u[i] == entries[i]);
            }
        }
    } else {
        lemma_upsert_unique(entries.drop_first(), id, d);
        let ur = upsert_entry(entries.drop_first(), id, d);
        assert forall|i: int, j: int| 0 <= i < j < u.len() implies (#[trigger] u[i]).0 != (
        #[trigger] u[j]).0 by {
            if i == 0 {
                lemma_upsert_keys(entries.drop_first(), id, d, j - 1);
                assert(u[j] == ur[j - 1]);
                if ur[j - 1].0 != id {
                    let m = choose|m: int|
                        0 <= m < entries.drop_first().len() && (
                        #[trigger] entries.drop_first()[m]).0 == ur[j - 1].0;
                    assert(entries[m + 1].0 == ur[j - 1].0);
                }
            } else {
                assert(u[i] == ur[i - 1] && u[j] == ur[j - 1]);
            }
        }
    }
}

pub proof fn lemma_apply_batch_unique(entries: EntriesView, batch: Seq<DocView>, pk: Seq<char>)
    requires
        unique_ids(entries),
    ensures
        unique_ids(apply_batch(entries, batch, pk)),
    decreases batch.len(),
{
    if batch.len() > 0 {
        lemma_upsert_unique(entries, doc_id_of(batch[0], pk).unwrap(), batch[0]);
        lemma_apply_batch_unique(
            upsert_entry(entries, doc_id_of(batch[0], pk).unwrap(), batch[0]),
            batch.drop_first(),
            pk,
        );
    }
}

/// Entries left after deleting a set of external identifiers; unknown
/// identifiers are silently ignored.
pub open spec fn id_in(ids: Seq<Seq<char>>, key: Seq<char>) -> bool {
    exists|j: int| 0 <= j < ids.len() && ids[j] == key
}

pub open spec fn remove_ids(entries: EntriesView, ids: Seq<Seq<char>>) -> EntriesView
    decreases entries.len(),
{
    if entries.len() == 0 {
        Seq::empty()
    } else {
        let rest = remove_ids(entries.drop_first(), ids);
        if id_in(ids, entries[0].0) {
            rest
        } else {
            seq![entries[0]] + rest
        }
    }
}


pub proof fn lemma_remove_ids_keys(entries: EntriesView, ids: Seq<Seq<char>>, j: int)
    requires
        0 <= j < remove_ids(entries, ids).len(),
    ensures
        exists|m: int| 0 <= m < entries.len() && (#[trigger] entries[m]).0 == remove_ids(
            entries,
            ids,
        )[j].0,
    decreases entries.len(),
{
    if entries.len() > 0 {
        let rest = remove_ids(entries.drop_first(), ids);
        if id_in(ids, entries[0].0) {
            lemma_remove_ids_keys(entries.drop_first(), ids, j);
            let m = choose|m: int|
                0 <= m < entries.drop_first().len()
                    && (#[trigger] entries.drop_first()[m]).0 == rest[j].0;
            assert(entries[m + 1].0 == remove_ids(entries, ids)[j].0);
        } else {
            if j > 0 {
                lemma_remove_ids_keys(entries.drop_first(), ids, j - 1);
                let m = choose|m: int|
                    0 <= m < entries.drop_first().len()
                        && (#[trigger] entries.drop_first()[m]).0 == rest[j - 1].0;
                assert(entries[m + 1].0 == remove_ids(entries, ids)[j].0);
            }
        }
    }
}

pub proof fn lemma_remove_ids_unique(entries: EntriesView, ids: Seq<Seq<char>>)
    requires
        unique_ids(entries),
    ensures
        unique_ids(remove_ids(entries, ids)),
    decreases entries.len(),
{
    if entries.len() > 0 {
        lemma_remove_ids_unique(entries.drop_first(), ids);
        let out = remove_ids(entries, ids);
        let rest = remove_ids(entries.drop_first(), ids);
        if !id_in(ids, entries[0].0) {
            assert forall|i: int, j: int| 0 <= i < j < out.len() implies (
            #[trigger] out[i]).0 != (#[trigger] out[j]).0 by {
                if i == 0 {
                    lemma_remove_ids_keys(entries.drop_first(), ids, j - 1);
                    let m = choose|m: int|
                        0 <= m < entries.drop_first().len()
                            && (#[trigger] entries.drop_first()[m]).0 == rest[j - 1].0;
                    assert(entries[m + 1].0 == out[j].0);
                } else {
                    assert(out[i] == rest[i - 1] && out[j] == rest[j - 1]);
                }
            }
        }
    }
}

/// Deleting only unknown identifiers removes nothing: the committed entries,
/// and so the document count, are unchanged.
pub proof fn lemma_delete_unknown(entries: EntriesView, ids: Seq<Seq<char>>)
    requires
        forall|i: int| 0 <= i < entries.len() ==> !id_in(ids, (#[trigger] entries[i]).0),
    ensures
        remove_ids(entries, ids) =~= entries,
    decreases entries.len(),
{
    if entries.len() > 0 {
        assert forall|i: int| 0 <= i < entries.drop_first().len() implies !id_in(
            ids,
            (#[trigger] entries.drop_first()[i]).0,
        ) by {
            assert(entries.drop_first()[i] == entries[i + 1]);
        }
        lemma_delete_unknown(entries.drop_first(), ids);
        assert(seq![entries[0]] + entries.drop_first() =~= entries);
    }
}

fn duplicate_entries(docs: &Vec<(String, Document)>) -> (r: Vec<(String, Document)>)
    ensures
        entries_view(r) == entries_view(*docs),
{
    let mut out: Vec<(String, Document)> = Vec::new();
    let mut k: usize = 0;
    while k < docs.len()
        invariant
            k <= docs.len(),
            out.len() == k,
            forall|j: int| 0 <= j < k ==> out@[j].0@ == docs@[j].0@ && doc_view(out@[j].1)
                == doc_view(docs@[j].1),
        decreases docs.len() - k,
    {
        let id = docs[k].0.clone();
        let d = docs[k].1.duplicate();
        out.push((id, d));
        k = k + 1;
    }
    proof {
        assert(entries_view(out) =~= entries_view(*docs));
    }
    out
}

fn find_entry(docs: &Vec<(String, Document)>, id: &String) -> (r: Option<usize>)
    ensures
        match r {
            Some(k) => k < docs.len() && entries_view(*docs)[k as int].0 == id@ && forall|j: int|
                0 <= j < k ==> entries_view(*docs)[j].0 != id@,
            None => forall|j: int| 0 <= j < docs.len() ==> entries_view(*docs)[j].0 != id@,
        },
{
    let mut k: usize = 0;
    while k < docs.len()
        invariant
            k <= docs.len(),
            forall|j: int| 0 <= j < k ==> docs@[j].0@ != id@,
        decreases docs.len() - k,
    {
        if docs[k].0 == *id {
            return Some(k);
        }
        k = k + 1;
    }
    None
}

fn contains_id(ids: &Vec<String>, key: &String) -> (r: bool)
    ensures
        r == id_in(ids.deep_view(), key@),
{
    let mut k: usize = 0;
    while k < ids.len()
        invariant
            k <= ids.len(),
            forall|j: int| 0 <= j < k ==> ids@[j]@ != key@,
        decreases ids.len() - k,
    {
        if ids[k] == *key {
            proof {
                assert(ids.deep_view()[k as int] == key@);
            }
            return true;
        }
        k = k + 1;
    }
    proof {
        assert forall|j: int| 0 <= j < ids.deep_view().len() implies ids.deep_view()[j]
            != key@ by {
            assert(ids.deep_view()[j] == ids@[j]@);
        }
    }
    false
}

/// Serializes the batch record by record and runs the engine indexing step
/// against the candidate entries. On the first offending record the batch is
/// rejected; the caller then discards the candidate.
fn index_batch(
    cand: &mut Vec<(String, Document)>,
    documents: &Vec<Document>,
    pk: &String,
) -> (r: Result<(), Error>)
    ensures
        match r {
            Ok(()) => first_doc_error(docs_views(*documents), pk@) is None && entries_view(
                *final(cand),
            ) == apply_batch(entries_view(*old(cand)), docs_views(*documents), pk@),
            Err(e) => first_doc_error(docs_views(*documents), pk@) == Some(e),
        },
{
    let ghost bviews = docs_views(*documents);
    let ghost orig = entries_view(*cand);
    proof {
        assert(bviews.skip(0) =~= bviews);
    }
    let mut k: usize = 0;
    while k < documents.len()
        invariant
            k <= documents.len(),
            bviews == docs_views(*documents),
            bviews.len() == documents.len(),
            apply_batch(orig, bviews, pk@) == apply_batch(
                entries_view(*cand),
                bviews.skip(k as int),
                pk@,
            ),
            first_doc_error(bviews, pk@) == first_doc_error(bviews.skip(k as int), pk@),
        decreases documents.len() - k,
    {
        let ghost pre = entries_view(*cand);
        let ghost rest = bviews.skip(k as int);
        proof {
            assert(rest[0] == bviews[k as int]);
            assert(bviews[k as int] == doc_view(documents@[k as int]));
            assert(rest.drop_first() =~= bviews.skip(k as int + 1));
        }
        let doc = &documents[k];
        let looked = doc.get_field(pk);
        match looked {
            None => {
                proof {
                    assert(first_doc_error(rest, pk@) == Some(Error::DocumentMissingPrimaryKey));
                }
                return Err(Error::DocumentMissingPrimaryKey);
            }
            Some(v) => match v {
                DataValue::Str(s) => {
                    let id = s.clone();
                    let d = doc.duplicate();
                    let ghost idv = id@;
                    let ghost dv = d@;
                    proof {
                        assert(v@ == ValueView::Str(idv));
                        assert(lookup_field(rest[0], pk@) == Some(ValueView::Str(idv)));
                        assert(doc_id_of(rest[0], pk@) == Some(idv));
                        assert(dv == rest[0]);
                    }
                    let found = find_entry(cand, &id);
                    match found {
                        Some(pos) => {
                            cand.set(pos, (id, d));
                            proof {
                                assert(entries_view(*cand) =~= pre.update(
                                    pos as int,
                                    (idv, dv),
                                ));
                                lemma_upsert_found(pre, idv, dv, pos as int);
                            }
                        }
                        None => {
                            cand.push((id, d));
                            proof {
                                assert(entries_view(*cand) =~= pre.push((idv, dv)));
                                lemma_upsert_fresh(pre, idv, dv);
                            }
                        }
                    }
                    proof {
                        assert(entries_view(*cand) == upsert_entry(pre, idv, dv));
                        assert(apply_batch(pre, rest, pk@) == apply_batch(
                            upsert_entry(pre, idv, dv),
                            rest.drop_first(),
                            pk@,
                        ));
                        assert(first_doc_error(rest, pk@) == first_doc_error(
                            rest.drop_first(),
                            pk@,
                        ));
                    }
                    k = k + 1;
                }
                _ => {
                    proof {
                        assert(lookup_field(rest[0], pk@) == Some(v@));
                        assert(!(v@ is Str));
                        assert(first_doc_error(rest, pk@) == Some(Error::InvalidPrimaryKeyValue));
                    }
                    return Err(Error::InvalidPrimaryKeyValue);
                }
            },
        }
    }
    proof {
        assert(bviews.skip(documents.len() as int) =~= Seq::<DocView>::empty());
    }
    Ok(())
}


pub proof fn lemma_upsert_lookup_same(entries: EntriesView, id: Seq<char>, d: DocView)
    ensures
        lookup_entry(upsert_entry(entries, id, d), id) == Some(d),
    decreases entries.len(),
{
    if entries.len() == 0 {
    } else if entries[0].0 == id {
    } else {
        lemma_upsert_lookup_same(entries.drop_first(), id, d);
        let u = seq![entries[0]] + upsert_entry(entries.drop_first(), id, d);
        assert(u.drop_first() =~= upsert_entry(entries.drop_first(), id, d));
    }
}

pub proof fn lemma_upsert_lookup_other(entries: EntriesView, id: Seq<char>, d: DocView, q: Seq<char>)
    requires
        q != id,
    ensures
        lookup_entry(upsert_entry(entries, id, d), q) == lookup_entry(entries, q),
    decreases entries.len(),
{
    reveal_with_fuel(lookup_entry, 3);
    reveal_with_fuel(upsert_entry, 3);
    if entries.len() == 0 {
        let u = seq![(id, d)];
        assert(upsert_entry(entries, id, d) == u);
        assert(u[0] == (id, d));
        assert(u.drop_first() =~= Seq::<EntryView>::empty());
    } else if entries[0].0 == id {
        let u = seq![(id, d)] + entries.drop_first();
        assert(upsert_entry(entries, id, d) == u);
        assert(u[0] == (id, d));
        assert(u.drop_first() =~= entries.drop_first());
    } else {
        lemma_upsert_lookup_other(entries.drop_first(), id, d, q);
        let u = seq![entries[0]] + upsert_entry(entries.drop_first(), id, d);
        assert(upsert_entry(entries, id, d) == u);
        assert(u[0] == entries[0]);
        assert(u.drop_first() =~= upsert_entry(entries.drop_first(), id, d));
    }
}

pub proof fn lemma_apply_batch_lookup_other(
    entries: EntriesView,
    batch: Seq<DocView>,
    pk: Seq<char>,
    q: Seq<char>,
)
    requires
        batch_ok(batch, pk),
        forall|j: int| 0 <= j < batch.len() ==> doc_id_of(#[trigger] batch[j], pk) != Some(q),
    ensures
        lookup_entry(apply_batch(entries, batch, pk), q) == lookup_entry(entries, q),
    decreases batch.len(),
{
    if batch.len() > 0 {
        let id0 = doc_id_of(batch[0], pk).unwrap();
        let e1 = upsert_entry(entries, id0, batch[0]);
        assert(id0 != q);
        lemma_upsert_lookup_other(entries, id0, batch[0], q);
        assert forall|j: int| 0 <= j < batch.drop_first().len() implies doc_id_of(
            #[trigger] batch.drop_first()[j],
            pk,
        ) != Some(q) by {
            assert(batch.drop_first()[j] == batch[j + 1]);
        }
        lemma_apply_batch_lookup_other(e1, batch.drop_first(), pk, q);
    }
}

/// No two records of the batch carry the same identifier.
pub open spec fn distinct_batch_ids(batch: Seq<DocView>, pk: Seq<char>) -> bool {
    forall|i: int, j: int| 0 <= i < j < batch.len() ==> doc_id_of(#[trigger] batch[i], pk)
        != doc_id_of(#[trigger] batch[j], pk)
}

/// Adding a batch with a consistent primary-key field and then looking a
/// record up under its identifier returns that record, for every record of
/// the batch.
pub proof fn lemma_add_then_get(
    entries: EntriesView,
    batch: Seq<DocView>,
    pk: Seq<char>,
    i: int,
)
    requires
        batch_ok(batch, pk),
        distinct_batch_ids(batch, pk),
        0 <= i < batch.len(),
    ensures
        lookup_entry(apply_batch(entries, batch, pk), doc_id_of(batch[i], pk).unwrap())
            == Some(batch[i]),
    decreases batch.len(),
{
    let id0 = doc_id_of(batch[0], pk).unwrap();
    let e1 = upsert_entry(entries, id0, batch[0]);
    assert forall|j: int| 0 <= j < batch.drop_first().len() implies doc_id_of(
        #[trigger] batch.drop_first()[j],
        pk,
    ) is Some by {
        assert(batch.drop_first()[j] == batch[j + 1]);
    }
    assert forall|i2: int, j2: int|
        0 <= i2 < j2 < batch.drop_first().len() implies doc_id_of(
        #[trigger] batch.drop_first()[i2],
        pk,
    ) != doc_id_of(#[trigger] batch.drop_first()[j2], pk) by {
        assert(batch.drop_first()[i2] == batch[i2 + 1]);
        assert(batch.drop_first()[j2] == batch[j2 + 1]);
    }
    if i == 0 {
        lemma_upsert_lookup_same(entries, id0, batch[0]);
        assert forall|j: int| 0 <= j < batch.drop_first().len() implies doc_id_of(
            #[trigger] batch.drop_first()[j],
            pk,
        ) != Some(id0) by {
            assert(batch.drop_first()[j] == batch[j + 1]);
        }
        lemma_apply_batch_lookup_other(e1, batch.drop_first(), pk, id0);
    } else {
        lemma_add_then_get(e1, batch.drop_first(), pk, i - 1);
        assert(batch.drop_first()[i - 1] == batch[i]);
    }
}

/// Replacing the whole document set with a batch of distinct identifiers
/// commits exactly the batch: the records come out one-for-one, keyed under
/// their own identifiers, with nothing left of the prior content.
pub proof fn lemma_apply_batch_fresh(entries: EntriesView, batch: Seq<DocView>, pk: Seq<char>)
    requires
        batch_ok(batch, pk),
        distinct_batch_ids(batch, pk),
        forall|m: int, j: int| 0 <= m < entries.len() && 0 <= j < batch.len() ==> Some(
            (#[trigger] entries[m]).0,
        ) != doc_id_of(#[trigger] batch[j], pk),
    ensures
        apply_batch(entries, batch, pk) =~= entries + Seq::new(
            batch.len(),
            |i: int| (doc_id_of(batch[i], pk).unwrap(), batch[i]),
        ),
    decreases batch.len(),
{
    if batch.len() == 0 {
        assert(entries + Seq::new(0, |i: int| (doc_id_of(batch[i], pk).unwrap(), batch[i]))
            =~= entries);
    } else {
        let id0 = doc_id_of(batch[0], pk).unwrap();
        assert forall|j: int| 0 <= j < entries.len() implies (#[trigger] entries[j]).0
            != id0 by {
            assert(Some(entries[j].0) != doc_id_of(batch[0], pk));
        }
        lemma_upsert_fresh(entries, id0, batch[0]);
        let e1 = entries.push((id0, batch[0]));
        let rest = batch.drop_first();
        assert forall|j: int| 0 <= j < rest.len() implies doc_id_of(
            #[trigger] rest[j],
            pk,
        ) is Some by {
            assert(rest[j] == batch[j + 1]);
        }
        assert forall|i2: int, j2: int| 0 <= i2 < j2 < rest.len() implies doc_id_of(
            #[trigger] rest[i2],
            pk,
        ) != doc_id_of(#[trigger] rest[j2], pk) by {
            assert(rest[i2] == batch[i2 + 1]);
            assert(rest[j2] == batch[j2 + 1]);
        }
        assert forall|m: int, j: int|
            0 <= m < e1.len() && 0 <= j < rest.len() implies Some((#[trigger] e1[m]).0)
            != doc_id_of(#[trigger] rest[j], pk) by {
            assert(rest[j] == batch[j + 1]);
            if m < entries.len() {
                assert(e1[m] == entries[m]);
            } else {
                assert(e1[m].0 == id0);
                assert(doc_id_of(batch[0], pk) != doc_id_of(batch[j + 1], pk));
            }
        }
        lemma_apply_batch_fresh(e1, rest, pk);
        assert(apply_batch(entries, batch, pk) =~= entries + Seq::new(
            batch.len(),
            |i: int| (doc_id_of(batch[i], pk).unwrap(), batch[i]),
        )) by {
            let lhs = e1 + Seq::new(rest.len(), |i: int| (doc_id_of(rest[i], pk).unwrap(), rest[i]));
            let rhs = entries + Seq::new(
                batch.len(),
                |i: int| (doc_id_of(batch[i], pk).unwrap(), batch[i]),
            );
            assert(apply_batch(entries, batch, pk) == apply_batch(e1, rest, pk));
            assert forall|n: int| 0 <= n < lhs.len() implies lhs[n] == rhs[n] by {
                if n > entries.len() {
                    assert(rest[n - entries.len() - 1] == batch[n - entries.len()]);
                }
            }
            assert(lhs =~= rhs);
        }
    }
}

/// Replace-all on any index yields exactly the batch, in batch order.
pub proof fn lemma_set_exact(batch: Seq<DocView>, pk: Seq<char>)
    requires
        batch_ok(batch, pk),
        distinct_batch_ids(batch, pk),
    ensures
        apply_batch(Seq::<EntryView>::empty(), batch, pk) =~= Seq::new(
            batch.len(),
            |i: int| (doc_id_of(batch[i], pk).unwrap(), batch[i]),
        ),
{
    lemma_apply_batch_fresh(Seq::<EntryView>::empty(), batch, pk);
    assert(Seq::<EntryView>::empty() + Seq::new(
        batch.len(),
        |i: int| (doc_id_of(batch[i], pk).unwrap(), batch[i]),
    ) =~= Seq::new(batch.len(), |i: int| (doc_id_of(batch[i], pk).unwrap(), batch[i])));
}

/// An index: one primary-key designation, one settings value, and the set of
/// committed documents, keyed by external identifier.
#[derive(Debug)]
pub struct Index {
    pub primary_key: Option<String>,
    pub settings: StoredSettings,
    pub docs: Vec<(String, Document)>,
}


pub proof fn lemma_wf_same_docs(a: Index, b: Index)
    requires
        a.wf(),
        a.docs == b.docs,
    ensures
        b.wf(),
{
    assert(b.entries() =~= a.entries());
    assert forall|i: int, j: int| 0 <= i < j < b.entries().len() implies (
    #[trigger] b.entries()[i]).0 != (#[trigger] b.entries()[j]).0 by {
        assert(a.entries()[i].0 != a.entries()[j].0);
    }
}

impl Index {
    pub open spec fn entries(self) -> EntriesView {
        entries_view(self.docs)
    }

    pub open spec fn pkey_view(self) -> Option<Seq<char>> {
        opt_str_view(self.primary_key)
    }

    pub open spec fn stored(self) -> StoredSettingsView {
        self.settings@
    }

    /// Internal consistency of the committed state: the identifier map is
    /// injective. A record reached through the map therefore always exists
    /// in the store, so the missing-record invariant violation is excluded
    /// rather than handled.
    pub open spec fn wf(self) -> bool {
        unique_ids(self.entries())
    }

    /// A fresh index: no documents, no primary key, engine-default settings.
    pub fn create() -> (r: Index)
        ensures
            r.entries() == Seq::<EntryView>::empty(),
            r.pkey_view() is None,
            r.stored() == default_stored_settings_view(),
            r.wf(),
    {
        let r = Index {
            primary_key: None,
            settings: StoredSettings::engine_default(),
            docs: Vec::new(),
        };
        proof {
            assert(r.entries() =~= Seq::<EntryView>::empty());
        }
        r
    }


    /// Appends a batch to the existing content inside one write transaction.
    /// The batch step and the engine's per-record validation are both
    /// checked: on the first offending record the whole batch is rejected
    /// and nothing is committed.
    pub fn add_documents(&mut self, documents: Vec<Document>) -> (r: Result<(), Error>)
        requires
            old(self).wf(),
        ensures
            final(self).wf(),
            final(self).stored() == old(self).stored(),
            r is Ok <==> batch_outcome(old(self).pkey_view(), docs_views(documents)) is None,
            match r {
                Ok(()) => if documents@.len() == 0 {
                    *final(self) == *old(self)
                } else {
                    let pk = effective_pkey(old(self).pkey_view(), docs_views(documents));
                    &&& pk is Some
                    &&& batch_ok(docs_views(documents), pk.unwrap())
                    &&& final(self).entries() == apply_batch(
                        old(self).entries(),
                        docs_views(documents),
                        pk.unwrap(),
                    )
                    &&& final(self).pkey_view() == pk
                },
                Err(e) => *final(self) == *old(self) && batch_outcome(
                    old(self).pkey_view(),
                    docs_views(documents),
                ) == Some(e),
            },
    {
        if documents.len() == 0 {
            return Ok(());
        }
        let pk: String = match &self.primary_key {
            Some(p) => p.clone(),
            None => {
                let idname = "id".to_string();
                let inferred = documents[0].get_field(&idname);
                match inferred {
                    Some(_) => idname,
                    None => {
                        proof {
                            assert(docs_views(documents)[0] == doc_view(documents@[0]));
                        }
                        return Err(Error::NoPrimaryKeyCandidate);
                    }
                }
            }
        };
        proof {
            assert(docs_views(documents)[0] == doc_view(documents@[0]));
            assert(effective_pkey(old(self).pkey_view(), docs_views(documents)) == Some(pk@));
        }
        let mut cand = duplicate_entries(&self.docs);
        let outcome = index_batch(&mut cand, &documents, &pk);
        match outcome {
            Ok(()) => {
                self.docs = cand;
                self.primary_key = Some(pk);
                proof {
                    lemma_first_doc_error_none(docs_views(documents), final(self).pkey_view().unwrap());
                    lemma_apply_batch_unique(
                        old(self).entries(),
                        docs_views(documents),
                        final(self).pkey_view().unwrap(),
                    );
                }
                Ok(())
            }
            Err(e) => Err(e),
        }
    }

    /// Replaces the whole document set with the batch, atomically: the clear
    /// and the add share one write transaction, committed with one
    /// assignment, so no reader can observe the intermediate empty state.
    pub fn set_documents(&mut self, documents: Vec<Document>) -> (r: Result<(), Error>)
        requires
            old(self).wf(),
        ensures
            final(self).wf(),
            final(self).stored() == old(self).stored(),
            r is Ok <==> batch_outcome(old(self).pkey_view(), docs_views(documents)) is None,
            match r {
                Ok(()) => if documents@.len() == 0 {
                    final(self).entries() == Seq::<EntryView>::empty() && final(self).pkey_view()
                        == old(self).pkey_view()
                } else {
                    let pk = effective_pkey(old(self).pkey_view(), docs_views(documents));
                    &&& pk is Some
                    &&& batch_ok(docs_views(documents), pk.unwrap())
                    &&& final(self).entries() == apply_batch(
                        Seq::<EntryView>::empty(),
                        docs_views(documents),
                        pk.unwrap(),
                    )
                    &&& final(self).pkey_view() == pk
                },
                Err(e) => *final(self) == *old(self) && batch_outcome(
                    old(self).pkey_view(),
                    docs_views(documents),
                ) == Some(e),
            },
    {
        if documents.len() == 0 {
            self.docs = Vec::new();
            proof {
                assert(final(self).entries() =~= Seq::<EntryView>::empty());
            }
            return Ok(());
        }
        let pk: String = match &self.primary_key {
            Some(p) => p.clone(),
            None => {
                let idname = "id".to_string();
                let inferred = documents[0].get_field(&idname);
                match inferred {
                    Some(_) => idname,
                    None => {
                        proof {
                            assert(docs_views(documents)[0] == doc_view(documents@[0]));
                        }
                        return Err(Error::NoPrimaryKeyCandidate);
                    }
                }
            }
        };
        proof {
            assert(docs_views(documents)[0] == doc_view(documents@[0]));
            assert(effective_pkey(old(self).pkey_view(), docs_views(documents)) == Some(pk@));
        }
        let mut cand: Vec<(String, Document)> = Vec::new();
        proof {
            assert(entries_view(cand) =~= Seq::<EntryView>::empty());
        }
        let outcome = index_batch(&mut cand, &documents, &pk);
        match outcome {
            Ok(()) => {
                self.docs = cand;
                self.primary_key = Some(pk);
                proof {
                    lemma_first_doc_error_none(docs_views(documents), final(self).pkey_view().unwrap());
                    lemma_apply_batch_unique(
                        Seq::<EntryView>::empty(),
                        docs_views(documents),
                        final(self).pkey_view().unwrap(),
                    );
                }
                Ok(())
            }
            Err(e) => Err(e),
        }
    }

    /// Deletes by external identifier; unknown identifiers are silently
    /// ignored. Always commits.
    pub fn delete_documents(&mut self, document_ids: Vec<String>) -> (r: Result<(), Error>)
        requires
            old(self).wf(),
        ensures
            final(self).wf(),
            r is Ok,
            final(self).entries() == remove_ids(old(self).entries(), document_ids.deep_view()),
            final(self).pkey_view() == old(self).pkey_view(),
            final(self).stored() == old(self).stored(),
    {
        let ghost full = self.entries();
        let ghost idsv = document_ids.deep_view();
        let mut kept: Vec<(String, Document)> = Vec::new();
        proof {
            assert(full.skip(0) =~= full);
            assert(entries_view(kept) =~= Seq::<EntryView>::empty());
            assert(Seq::<EntryView>::empty() + remove_ids(full, idsv) =~= remove_ids(full, idsv));
        }
        let mut k: usize = 0;
        while k < self.docs.len()
            invariant
                k <= self.docs.len(),
                *self == *old(self),
                full == self.entries(),
                idsv == document_ids.deep_view(),
                remove_ids(full, idsv) == entries_view(kept) + remove_ids(
                    full.skip(k as int),
                    idsv,
                ),
            decreases self.docs.len() - k,
        {
            let ghost pre = entries_view(kept);
            let ghost rest = full.skip(k as int);
            proof {
                assert(rest[0] == full[k as int]);
                assert(rest.drop_first() =~= full.skip(k as int + 1));
            }
            let hit = contains_id(&document_ids, &self.docs[k].0);
            if !hit {
                let id = self.docs[k].0.clone();
                let d = self.docs[k].1.duplicate();
                kept.push((id, d));
                proof {
                    assert(entries_view(kept) =~= pre.push(rest[0]));
                    assert(pre.push(rest[0]) + remove_ids(rest.drop_first(), idsv) =~= pre + (
                    seq![rest[0]] + remove_ids(rest.drop_first(), idsv)));
                }
            }
            k = k + 1;
        }
        proof {
            assert(full.skip(self.docs.len() as int) =~= Seq::<EntryView>::empty());
            assert(entries_view(kept) + Seq::<EntryView>::empty() =~= entries_view(kept));
            lemma_remove_ids_unique(full, idsv);
        }
        self.docs = kept;
        Ok(())
    }

    /// Clears the whole document set, preserving the settings and the
    /// primary-key designation.
    pub fn delete_all_documents(&mut self) -> (r: Result<(), Error>)
        ensures
            r is Ok,
            final(self).wf(),
            final(self).entries() == Seq::<EntryView>::empty(),
            final(self).pkey_view() == old(self).pkey_view(),
            final(self).stored() == old(self).stored(),
    {
        self.docs = Vec::new();
        proof {
            assert(final(self).entries() =~= Seq::<EntryView>::empty());
        }
        Ok(())
    }

    /// Point lookup by external identifier. Absence is a normal outcome, not
    /// an error; a record reached through the identifier map always exists
    /// in the store (see [`Index::wf`]).
    pub fn get_document(&self, document_id: String) -> (r: Option<Document>)
        ensures
            match r {
                Some(d) => lookup_entry(self.entries(), document_id@) == Some(d@),
                None => lookup_entry(self.entries(), document_id@) is None,
            },
    {
        let found = find_entry(&self.docs, &document_id);
        match found {
            Some(pos) => {
                proof {
                    lemma_lookup_entry_found(self.entries(), document_id@, pos as int);
                }
                Some(self.docs[pos].1.duplicate())
            }
            None => {
                proof {
                    lemma_lookup_entry_none(self.entries(), document_id@);
                }
                None
            }
        }
    }

    /// Every committed document, in the engine's internal storage order.
    pub fn get_all_documents(&self) -> (r: Vec<Document>)
        ensures
            r@.len() == self.entries().len(),
            forall|i: int| 0 <= i < r@.len() ==> doc_view(r@[i]) == self.entries()[i].1,
    {
        let mut out: Vec<Document> = Vec::new();
        let mut k: usize = 0;
        while k < self.docs.len()
            invariant
                k <= self.docs.len(),
                out.len() == k,
                forall|j: int| 0 <= j < k ==> doc_view(out@[j]) == self.entries()[j].1,
            decreases self.docs.len() - k,
        {
            let d = self.docs[k].1.duplicate();
            out.push(d);
            k = k + 1;
        }
        out
    }

    /// Reads every configuration facet from the committed state; ranking
    /// rules come back under their canonical names.
    pub fn get_settings(&self) -> (r: MimirIndexSettings)
        ensures
            r@ == read_settings_view(self.pkey_view(), self.stored()),
    {
        let primary_key = match &self.primary_key {
            Some(p) => Some(p.clone()),
            None => None,
        };
        let r = MimirIndexSettings {
            primary_key,
            searchable_fields: copy_opt_strings(&self.settings.searchable_fields),
            filterable_fields: copy_strings(&self.settings.filterable_fields),
            sortable_fields: copy_strings(&self.settings.sortable_fields),
            ranking_rules: rule_names(&self.settings.ranking_rules),
            stop_words: copy_strings(&self.settings.stop_words),
            synonyms: copy_synonyms(&self.settings.synonyms),
            typos_enabled: self.settings.typos_enabled,
            min_word_size_for_one_typo: self.settings.min_word_size_for_one_typo,
            min_word_size_for_two_typos: self.settings.min_word_size_for_two_typos,
            disallow_typos_on_words: copy_strings(&self.settings.disallow_typos_on_words),
            disallow_typos_on_fields: copy_strings(&self.settings.disallow_typos_on_fields),
        };
        proof {
            assert(r@ =~= read_settings_view(self.pkey_view(), self.stored()));
        }
        r
    }

    /// Applies every facet inside one write transaction: present values are
    /// set, an absent primary key or searchable-field list resets the facet
    /// to the engine default. A ranking-rule name outside the vocabulary is
    /// rejected before anything is committed, and the primary-key
    /// designation cannot change while documents exist.
    pub fn set_settings(&mut self, settings: MimirIndexSettings) -> (r: Result<(), Error>)
        requires
            old(self).wf(),
        ensures
            final(self).wf(),
            r is Ok <==> (parse_rules_view(settings@.ranking_rules) is Some && (old(self).entries().len() > 0 ==> settings@.primary_key == old(self).pkey_view())),
            match r {
                Ok(()) => final(self).stored() == apply_settings_view(settings@) && final(self).pkey_view() == settings@.primary_key && final(self).entries() == old(self).entries(),
                Err(e) => *final(self) == *old(self) && match e {
                    Error::UnknownRankingRule { name } => parse_rule_view(name@) is None
                        && id_in(settings@.ranking_rules, name@),
                    Error::PrimaryKeyCannotChange => parse_rules_view(
                        settings@.ranking_rules,
                    ) is Some && old(self).entries().len() > 0 && settings@.primary_key != old(self).pkey_view(),
                    _ => false,
                },
            },
    {
        let MimirIndexSettings {
            primary_key,
            searchable_fields,
            filterable_fields,
            sortable_fields,
            ranking_rules,
            stop_words,
            synonyms,
            typos_enabled,
            min_word_size_for_one_typo,
            min_word_size_for_two_typos,
            disallow_typos_on_words,
            disallow_typos_on_fields,
        } = settings;

        let mut rules: Vec<RankingRule> = Vec::new();
        let mut k: usize = 0;
        while k < ranking_rules.len()
            invariant
                k <= ranking_rules.len(),
                rules.len() == k,
                *self == *old(self),
                old(self).wf(),
                ranking_rules.deep_view() == settings@.ranking_rules,
                forall|j: int| 0 <= j < k ==> parse_rule_view(ranking_rules@[j]@) == Some(
                    rules@[j],
                ),
            decreases ranking_rules.len() - k,
        {
            let parsed = parse_ranking_rule(&ranking_rules[k]);
            match parsed {
                Some(rule) => {
                    rules.push(rule);
                }
                None => {
                    proof {
                        assert(settings@.ranking_rules.len() == ranking_rules@.len());
                        assert(settings@.ranking_rules[k as int] == ranking_rules@[k as int]@);
                        lemma_parse_rules_fails(settings@.ranking_rules, k as int);
                        lemma_wf_same_docs(*old(self), *self);
                    }
                    return Err(Error::UnknownRankingRule { name: ranking_rules[k].clone() });
                }
            }
            k = k + 1;
        }
        proof {
            assert forall|j: int| 0 <= j < settings@.ranking_rules.len() implies parse_rule_view(
                #[trigger] settings@.ranking_rules[j],
            ) == Some(rules@[j]) by {
                assert(settings@.ranking_rules[j] == ranking_rules@[j]@);
            }
            lemma_parse_rules_all(settings@.ranking_rules, rules@);
        }

        if self.docs.len() > 0 {
            let same = match (&self.primary_key, &primary_key) {
                (None, None) => true,
                (Some(a), Some(b)) => *a == *b,
                _ => false,
            };
            if !same {
                proof {
                    lemma_wf_same_docs(*old(self), *self);
                }
                return Err(Error::PrimaryKeyCannotChange);
            }
        }

        self.primary_key = primary_key;
        self.settings = StoredSettings {
            searchable_fields,
            filterable_fields,
            sortable_fields,
            ranking_rules: rules,
            stop_words,
            synonyms,
            typos_enabled,
            min_word_size_for_one_typo,
            min_word_size_for_two_typos,
            disallow_typos_on_words,
            disallow_typos_on_fields,
        };
        proof {
            assert(final(self).stored() =~= apply_settings_view(settings@));
            assert(final(self).entries() =~= old(self).entries());
        }
        Ok(())
    }

    /// The committed document count, as a fresh read transaction sees it.
    pub fn number_of_documents(&self) -> (r: u64)
        ensures
            r == self.entries().len(),
    {
        self.docs.len() as u64
    }
}

} // verus!
