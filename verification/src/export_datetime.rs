//! A timestamp as a field of a document: a text in the task store's
//! format.

use vstd::prelude::*;
use crate::document::{Doc, Document};
use crate::error::Error;
use crate::timestamp::{text_timestamp, timestamp_text, Timestamp};

verus! {

/// The timestamp that a document holds: the document is a text, and
/// the text writes a timestamp.
pub open spec fn stamp_of_doc(doc: Doc) -> Option<Timestamp> {
    match doc {
        Doc::Text(s) => text_timestamp(s),
        _ => None,
    }
}

/// The document that holds a timestamp.
pub open spec fn doc_of_stamp(date: Timestamp) -> Doc {
    Doc::Text(timestamp_text(date))
}

/// Writes a timestamp as a document.
pub fn serialize(date: &Timestamp) -> (doc: Document)
    requires
        date.wf(),
    ensures
        doc@ == doc_of_stamp(*date),
{
    Document::Text(date.format())
}

/// Reads a timestamp from a document. Anything but a text in the
/// task store's format is `Error::Format`.
pub fn deserialize(doc: &Document) -> (r: Result<Timestamp, Error>)
    ensures
        match r {
            Ok(t) => stamp_of_doc(doc@) == Some(t) && t.wf(),
            Err(e) => e == Error::Format && stamp_of_doc(doc@) is None,
        },
{
    match doc {
        Document::Text(s) => Timestamp::parse(s.as_str()),
        _ => Err(Error::Format),
    }
}

/// A timestamp is read back from the document it was written to.
pub proof fn lemma_serialize_then_deserialize(date: Timestamp)
    requires
        date.wf(),
    ensures
        stamp_of_doc(doc_of_stamp(date)) == Some(date),
{
    crate::timestamp::lemma_format_then_parse(date);
}

} // verus!
