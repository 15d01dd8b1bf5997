//! Reading the fields of a record by their keys.
//!
//! A field may be missing, and most may be null instead. Each reader
//! here says what a record holds under a key for one kind of field, and
//! refuses what is of another kind.

use vstd::prelude::*;
use crate::document::{entries_view, find, lemma_view_unfold, lookup, Doc, Document, Entries, Numeral, NumeralView};
use crate::error::Error;
use crate::opt_export_datetime::opt_stamp_of_doc;
use crate::text::{text_view, texts_view};
use crate::timestamp::Timestamp;

verus! {

/// The text under `key`, where a missing entry and null hold none.
/// The outer `None` says that the entry holds something else.
pub open spec fn opt_text(e: Entries, key: Seq<char>) -> Option<Option<Seq<char>>> {
    match lookup(e, key) {
        None => Some(None),
        Some(Doc::Null) => Some(None),
        Some(Doc::Text(t)) => Some(Some(t)),
        Some(_) => None,
    }
}

/// The number under `key`, where a missing entry and null hold none.
pub open spec fn opt_number(e: Entries, key: Seq<char>) -> Option<Option<NumeralView>> {
    match lookup(e, key) {
        None => Some(None),
        Some(Doc::Null) => Some(None),
        Some(Doc::Number(n)) => Some(Some(n)),
        Some(_) => None,
    }
}

/// The timestamp under `key`, where a missing entry and null hold none.
pub open spec fn opt_stamp(e: Entries, key: Seq<char>) -> Option<Option<Timestamp>> {
    match lookup(e, key) {
        None => Some(None),
        Some(doc) => opt_stamp_of_doc(doc),
    }
}

/// The text under `key`, which has to be there.
pub open spec fn req_text(e: Entries, key: Seq<char>) -> Option<Seq<char>> {
    match opt_text(e, key) {
        Some(Some(t)) => Some(t),
        _ => None,
    }
}

/// The number under `key`, which has to be there.
pub open spec fn req_number(e: Entries, key: Seq<char>) -> Option<NumeralView> {
    match opt_number(e, key) {
        Some(Some(n)) => Some(n),
        _ => None,
    }
}

/// The timestamp under `key`, which has to be there.
pub open spec fn req_stamp(e: Entries, key: Seq<char>) -> Option<Timestamp> {
    match opt_stamp(e, key) {
        Some(Some(t)) => Some(t),
        _ => None,
    }
}

/// The texts of a list, if it holds texts only.
pub open spec fn texts_of(items: Seq<Doc>) -> Option<Seq<Seq<char>>> {
    if forall|i: int| 0 <= i < items.len() ==> #[trigger] items[i] is Text {
        Some(Seq::new(items.len(), |i: int| items[i]->Text_0))
    } else {
        None
    }
}

/// The list of texts under `key`, where a missing entry holds the
/// empty list. Null is no list.
pub open spec fn text_list(e: Entries, key: Seq<char>) -> Option<Seq<Seq<char>>> {
    match lookup(e, key) {
        None => Some(Seq::empty()),
        Some(Doc::List(items)) => texts_of(items),
        Some(_) => None,
    }
}

/// The view of a number that may be missing.
pub open spec fn number_view(n: Option<Numeral>) -> Option<NumeralView> {
    match n {
        Some(n) => Some(n@),
        None => None,
    }
}

/// Reads the text under `key`, if there is one.
pub fn read_opt_text(entries: &Vec<(String, Document)>, key: &str) -> (r: Result<
    Option<String>,
    Error,
>)
    ensures
        match r {
            Ok(v) => opt_text(entries_view(entries@), key@) == Some(text_view(v)),
            Err(e) => e == Error::Format && opt_text(entries_view(entries@), key@) is None,
        },
{
    match find(entries, key) {
        None => Ok(None),
        Some(Document::Null) => Ok(None),
        Some(Document::Text(t)) => Ok(Some(t.clone())),
        Some(_) => Err(Error::Format),
    }
}

/// Reads the text under `key`.
pub fn read_text(entries: &Vec<(String, Document)>, key: &str) -> (r: Result<String, Error>)
    ensures
        match r {
            Ok(v) => req_text(entries_view(entries@), key@) == Some(v@),
            Err(e) => e == Error::Format && req_text(entries_view(entries@), key@) is None,
        },
{
    match read_opt_text(entries, key) {
        Ok(Some(t)) => Ok(t),
        _ => Err(Error::Format),
    }
}

/// Reads the number under `key`, if there is one.
pub fn read_opt_number(entries: &Vec<(String, Document)>, key: &str) -> (r: Result<
    Option<Numeral>,
    Error,
>)
    ensures
        match r {
            Ok(v) => opt_number(entries_view(entries@), key@) == Some(number_view(v)),
            Err(e) => e == Error::Format && opt_number(entries_view(entries@), key@) is None,
        },
{
    match find(entries, key) {
        None => Ok(None),
        Some(Document::Null) => Ok(None),
        Some(Document::Number(n)) => Ok(Some(n.duplicate())),
        Some(_) => Err(Error::Format),
    }
}

/// Reads the number under `key`.
pub fn read_number(entries: &Vec<(String, Document)>, key: &str) -> (r: Result<Numeral, Error>)
    ensures
        match r {
            Ok(v) => req_number(entries_view(entries@), key@) == Some(v@),
            Err(e) => e == Error::Format && req_number(entries_view(entries@), key@) is None,
        },
{
    match read_opt_number(entries, key) {
        Ok(Some(n)) => Ok(n),
        _ => Err(Error::Format),
    }
}

/// Reads the timestamp under `key`, if there is one.
pub fn read_opt_stamp(entries: &Vec<(String, Document)>, key: &str) -> (r: Result<
    Option<Timestamp>,
    Error,
>)
    ensures
        match r {
            Ok(v) => opt_stamp(entries_view(entries@), key@) == Some(v) && (v matches Some(t)
                ==> t.wf()),
            Err(e) => e == Error::Format && opt_stamp(entries_view(entries@), key@) is None,
        },
{
    match find(entries, key) {
        None => Ok(None),
        Some(doc) => crate::opt_export_datetime::deserialize(doc),
    }
}

/// Reads the timestamp under `key`.
pub fn read_stamp(entries: &Vec<(String, Document)>, key: &str) -> (r: Result<Timestamp, Error>)
    ensures
        match r {
            Ok(v) => req_stamp(entries_view(entries@), key@) == Some(v) && v.wf(),
            Err(e) => e == Error::Format && req_stamp(entries_view(entries@), key@) is None,
        },
{
    match read_opt_stamp(entries, key) {
        Ok(Some(t)) => Ok(t),
        _ => Err(Error::Format),
    }
}

/// Reads the list of texts under `key`; a missing entry is the empty
/// list.
pub fn read_text_list(entries: &Vec<(String, Document)>, key: &str) -> (r: Result<
    Vec<String>,
    Error,
>)
    ensures
        match r {
            Ok(v) => text_list(entries_view(entries@), key@) == Some(texts_view(v@)),
            Err(e) => e == Error::Format && text_list(entries_view(entries@), key@) is None,
        },
{
    let items = match find(entries, key) {
        None => {
            let out: Vec<String> = Vec::new();
            assert(texts_view(out@) =~= Seq::<Seq<char>>::empty());
            return Ok(out);
        },
        Some(doc) => {
            proof {
                lemma_view_unfold(*doc);
            }
            match doc {
                Document::List(items) => items,
                _ => {
                    return Err(Error::Format);
                },
            }
        },
    };
    let ghost docs = crate::document::items_view(items@);
    let mut out: Vec<String> = Vec::new();
    let mut i: usize = 0;
    while i < items.len()
        invariant
            i <= items.len(),
            out.len() == i,
            docs == crate::document::items_view(items@),
            lookup(entries_view(entries@), key@) == Some(Doc::List(docs)),
            forall|j: int| 0 <= j < i ==> #[trigger] docs[j] == Doc::Text(out@[j]@),
        decreases items.len() - i,
    {
        match &items[i] {
            Document::Text(t) => {
                out.push(t.clone());
            },
            _ => {
                assert(!(docs[i as int] is Text));
                return Err(Error::Format);
            },
        }
        i += 1;
    }
    proof {
        assert(texts_of(docs) is Some);
        assert(texts_of(docs)->0 =~= texts_view(out@));
    }
    Ok(out)
}

} // verus!
