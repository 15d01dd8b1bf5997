//! A timestamp that may be missing, as a field of a document: the
//! text of the timestamp, or null.

use vstd::prelude::*;
use crate::document::{Doc, Document};
use crate::error::Error;
use crate::export_datetime::{doc_of_stamp, stamp_of_doc};
use crate::timestamp::Timestamp;

verus! {

/// What a document holds for such a field: nothing where it is null,
/// else the timestamp that it writes. The outer `None` says that the
/// document is neither.
pub open spec fn opt_stamp_of_doc(doc: Doc) -> Option<Option<Timestamp>> {
    match doc {
        Doc::Null => Some(None),
        _ => match stamp_of_doc(doc) {
            Some(t) => Some(Some(t)),
            None => None,
        },
    }
}

/// The document for such a field.
pub open spec fn doc_of_opt_stamp(date: Option<Timestamp>) -> Doc {
    match date {
        Some(t) => doc_of_stamp(t),
        None => Doc::Null,
    }
}

/// Writes a timestamp that may be missing as a document.
pub fn serialize(date: &Option<Timestamp>) -> (doc: Document)
    requires
        date matches Some(t) ==> t.wf(),
    ensures
        doc@ == doc_of_opt_stamp(*date),
{
    match date {
        Some(t) => crate::export_datetime::serialize(t),
        None => Document::Null,
    }
}

/// Reads a timestamp that may be missing from a document. Anything
/// but null and a text in the task store's format is `Error::Format`.
pub fn deserialize(doc: &Document) -> (r: Result<Option<Timestamp>, Error>)
    ensures
        match r {
            Ok(date) => opt_stamp_of_doc(doc@) == Some(date) && (date matches Some(t) ==> t.wf()),
            Err(e) => e == Error::Format && opt_stamp_of_doc(doc@) is None,
        },
{
    match doc {
        Document::Null => Ok(None),
        _ => match crate::export_datetime::deserialize(doc) {
            Ok(t) => Ok(Some(t)),
            Err(e) => Err(e),
        },
    }
}

/// Such a field is read back from the document it was written to.
pub proof fn lemma_serialize_then_deserialize(date: Option<Timestamp>)
    requires
        date matches Some(t) ==> t.wf(),
    ensures
        opt_stamp_of_doc(doc_of_opt_stamp(date)) == Some(date),
{
    if let Some(t) = date {
        crate::export_datetime::lemma_serialize_then_deserialize(t);
    }
}

} // verus!
