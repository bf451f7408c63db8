//! Dump and restore: a whole-index snapshot as a (settings, documents) pair.
//! The storage environment around these calls — open the directory, and
//! always close and wait before reporting any error — is the I/O edge's
//! duty; the snapshot itself is taken from and applied to the committed
//! state, settings first, then the documents as one replace-all batch.

use vstd::prelude::*;

use crate::error::Error;
use crate::index::{apply_batch, batch_outcome, docs_views, effective_pkey, EntryView, Index};
use crate::settings::{
    apply_settings_view, parse_rules_view, read_settings_view, MimirIndexSettings,
};
use crate::value::{doc_view, Document};

verus! {

/// A transportable whole-index snapshot: its settings and every committed
/// document. No partial or incremental form exists.
pub type Dump = (MimirIndexSettings, Vec<Document>);

/// Reads the snapshot: the settings value first, then every committed
/// document in storage order.
pub fn create_dump(index: &Index) -> (d: Dump)
    ensures
        d.0@ == read_settings_view(index.pkey_view(), index.stored()),
        d.1@.len() == index.entries().len(),
        forall|i: int| 0 <= i < d.1@.len() ==> doc_view(d.1@[i]) == index.entries()[i].1,
{
    let settings = index.get_settings();
    let documents = index.get_all_documents();
    (settings, documents)
}

/// Rebuilds an index from a snapshot: a fresh index, the snapshot's settings,
/// then its documents as one atomic replace-all. Any error propagates after
/// the caller's close/wait, with nothing partially applied to the result.
pub fn import_dump(dump: Dump) -> (r: Result<Index, Error>)
    ensures
        ({
            let (settings, documents) = dump;
            let rules_ok = parse_rules_view(settings@.ranking_rules) is Some;
            let outcome = batch_outcome(settings@.primary_key, docs_views(documents));
            match r {
                Ok(idx) => {
                    &&& rules_ok
                    &&& outcome is None
                    &&& idx.wf()
                    &&& idx.stored() == apply_settings_view(settings@)
                    &&& (if documents@.len() == 0 {
                        idx.entries() == Seq::<EntryView>::empty() && idx.pkey_view()
                            == settings@.primary_key
                    } else {
                        let pk = effective_pkey(settings@.primary_key, docs_views(documents));
                        &&& idx.entries() == apply_batch(
                            Seq::<EntryView>::empty(),
                            docs_views(documents),
                            pk.unwrap(),
                        )
                        &&& idx.pkey_view() == pk
                    })
                },
                Err(e) => {
                    &&& (!rules_ok || outcome is Some)
                    &&& (rules_ok ==> outcome == Some(e))
                },
            }
        }),
{
    let (settings, documents) = dump;
    let mut index = Index::create();
    let applied = index.set_settings(settings);
    match applied {
        Ok(()) => {}
        Err(e) => {
            return Err(e);
        }
    }
    let loaded = index.set_documents(documents);
    match loaded {
        Ok(()) => Ok(index),
        Err(e) => Err(e),
    }
}

} // verus!
