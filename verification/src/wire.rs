//! Bytes and text on the wire: the three outside formats that carry
//! documents and tokens.
//!
//! Nothing in this module is proved. Each function calls into an
//! outside crate, and its contract is taken on trust from that crate's
//! source. The results are named rather than described: a contract
//! here says that a call returns what the name stands for, and adds
//! only the few facts that the rest of the library builds on.

use vstd::prelude::*;
use vstd::utf8::encode_utf8;
use serde_json::Value;
use crate::document::{Doc, Document, Numeral, NumeralView};

verus! {

/// `serde_json::Value`, the tree that both outside readers fill. It is
/// only passed along here; the library works on `Document`.
#[verifier::external_type_specification]
#[verifier::external_body]
pub struct ExValue(serde_json::Value);

/// `serde_json::Number`, a number inside such a tree.
#[verifier::external_type_specification]
#[verifier::external_body]
pub struct ExNumber(serde_json::Number);

/// The document that `serde_json::from_slice` reads from `bytes` as a
/// `serde_json::Value`, if it reads one.
pub uninterp spec fn json_document(bytes: Seq<u8>) -> Option<Doc>;

/// The bytes that `serde_json::to_vec` writes for `doc`, if it can be
/// written.
pub uninterp spec fn json_bytes(doc: Doc) -> Option<Seq<u8>>;

/// The document that `rmp_serde::from_read` reads from `bytes` as a
/// `serde_json::Value`, if it reads one.
pub uninterp spec fn packed_document(bytes: Seq<u8>) -> Option<Doc>;

/// The bytes that `rmp_serde::to_vec` writes for `doc`, if it can be
/// written.
pub uninterp spec fn packed_bytes(doc: Doc) -> Option<Seq<u8>>;

/// The text that `base64::encode` gives for `bytes`.
pub uninterp spec fn armored_text(bytes: Seq<u8>) -> Seq<char>;

/// The bytes that `base64::decode` reads from `text`, if it accepts it.
pub uninterp spec fn armored_bytes(text: Seq<char>) -> Option<Seq<u8>>;

/// Whether `text` takes less than four gibibytes: a longer one does
/// not fit the length field of a packed text.
pub open spec fn short(text: Seq<char>) -> bool {
    encode_utf8(text).len() <= 0xffff_ffff
}

/// A record of one entry whose value is a whole number from zero up or
/// a text: the shape in which a token is packed.
pub open spec fn plain_entry(doc: Doc) -> bool {
    &&& doc matches Doc::Record(entries)
    &&& entries.len() == 1
    &&& short(entries[0].0)
    &&& match entries[0].1 {
        Doc::Number(NumeralView::Unsigned(_)) => true,
        Doc::Text(t) => short(t),
        _ => false,
    }
}

/// A character of the base64 alphabet, or the padding sign.
pub open spec fn armor_char(c: char) -> bool {
    ||| 'A' <= c <= 'Z'
    ||| 'a' <= c <= 'z'
    ||| '0' <= c <= '9'
    ||| c == '+'
    ||| c == '/'
    ||| c == '='
}

/// Turns a `serde_json::Number` into the library's: by `as_u64`, else
/// by `as_i64`, else by the text that its `Display` prints. Nothing is
/// claimed of the result.
#[verifier::external_body]
fn number_of(n: serde_json::Number) -> Numeral {
    match (n.as_u64(), n.as_i64()) {
        (Some(u), _) => Numeral::Unsigned(u),
        (None, Some(i)) => Numeral::Negative(i),
        (None, None) => Numeral::Real(n.to_string()),
    }
}

/// Turns a `serde_json::Value` into a `Document`, variant by variant;
/// a map's entries come in the order in which the map hands them out.
/// Nothing is claimed of the result.
#[verifier::external_body]
fn document_of(value: Value) -> Document {
    match value {
        Value::Null => Document::Null,
        Value::Bool(b) => Document::Bool(b),
        Value::Number(n) => Document::Number(number_of(n)),
        Value::String(s) => Document::Text(s),
        Value::Array(a) => Document::List(a.into_iter().map(document_of).collect()),
        Value::Object(m) => Document::Record(
            m.into_iter().map(|(k, v)| (k, document_of(v))).collect(),
        ),
    }
}

/// Turns the library's number into a `serde_json::Value`. The text of
/// a `Real` is read by `serde_json::from_str`, which may refuse it.
/// Nothing is claimed of the result.
#[verifier::external_body]
fn value_of_number(n: &Numeral) -> Option<Value> {
    match n {
        Numeral::Unsigned(u) => Some(Value::from(*u)),
        Numeral::Negative(i) => Some(Value::from(*i)),
        Numeral::Real(t) => serde_json::from_str::<serde_json::Number>(t).ok().map(Value::Number),
    }
}

/// Turns a `Document` into a `serde_json::Value`, variant by variant;
/// where a number cannot be converted, nothing can. Nothing is claimed
/// of the result.
#[verifier::external_body]
fn value_of(doc: &Document) -> Option<Value> {
    match doc {
        Document::Null => Some(Value::Null),
        Document::Bool(b) => Some(Value::Bool(*b)),
        Document::Number(n) => value_of_number(n),
        Document::Text(s) => Some(Value::String(s.clone())),
        Document::List(v) => v.iter().map(value_of).collect::<Option<_>>().map(Value::Array),
        Document::Record(v) => v.iter().map(|(k, d)| Some((k.clone(), value_of(d)?)))
            .collect::<Option<_>>().map(Value::Object),
    }
}

/// `serde_json::from_slice`, reading a `serde_json::Value`. The
/// contract only names the result: the same bytes give the same
/// document, and `None` where the bytes are no JSON text.
#[verifier::external_body]
pub(crate) fn read_json(bytes: &[u8]) -> (r: Option<Document>)
    ensures
        json_document(bytes@) == match r {
            Some(d) => Some(d@),
            None => None,
        },
{
    serde_json::from_slice::<Value>(bytes).ok().map(document_of)
}

/// `serde_json::to_vec`, writing the `serde_json::Value` made from
/// `doc`. The contract only names the result. Keys come out sorted,
/// and of entries with one key the last is written.
#[verifier::external_body]
pub(crate) fn write_json(doc: &Document) -> (r: Option<Vec<u8>>)
    ensures
        json_bytes(doc@) == match r {
            Some(b) => Some(b@),
            None => None,
        },
{
    serde_json::to_vec(&value_of(doc)?).ok()
}

/// `rmp_serde::from_read`, reading a `serde_json::Value` from
/// MessagePack. The contract only names the result.
#[verifier::external_body]
pub(crate) fn unpack(bytes: &[u8]) -> (r: Option<Document>)
    ensures
        packed_document(bytes@) == match r {
            Some(d) => Some(d@),
            None => None,
        },
{
    rmp_serde::from_read::<&[u8], Value>(bytes).ok().map(document_of)
}

/// `rmp_serde::to_vec`, writing the `serde_json::Value` made from
/// `doc` as MessagePack. It gives nothing where the document cannot be
/// converted or where the writer finds no memory: so no success is
/// promised. Beside the name the contract claims two facts of what was
/// written for a record of one entry, with a whole number or a text
/// under a key, and both texts short enough for their length fields:
/// it is not empty, since the marker of the map comes first, and it is
/// read back by `unpack` as that record.
#[verifier::external_body]
pub(crate) fn pack(doc: &Document) -> (r: Option<Vec<u8>>)
    ensures
        packed_bytes(doc@) == match r {
            Some(b) => Some(b@),
            None => None,
        },
        r matches Some(b) ==> plain_entry(doc@) ==> b@.len() > 0 && packed_document(b@) == Some(
            doc@,
        ),
{
    rmp_serde::to_vec(&value_of(doc)?).ok()
}

/// `base64::encode`: the standard alphabet, with padding. It panics
/// where the length of the text would overflow, which `requires`
/// leaves out. Beside the name the contract claims that the text has
/// four characters for every three bytes, begun or full, that it holds
/// characters of the alphabet and padding only, and that
/// `base64::decode` reads the same bytes back from it.
#[verifier::external_body]
pub(crate) fn armor(bytes: &[u8]) -> (text: String)
    requires
        bytes@.len() / 3 * 4 + 4 <= usize::MAX,
    ensures
        text@ == armored_text(bytes@),
        text@.len() == (bytes@.len() + 2) / 3 * 4,
        armored_bytes(text@) == Some(bytes@),
        forall|i: int| 0 <= i < text@.len() ==> armor_char(#[trigger] text@[i]),
{
    base64::encode(bytes)
}

/// `base64::decode`: the standard alphabet, with padding. It panics
/// where sizing its buffer would overflow, which `requires` leaves
/// out. The contract only names the result: `None` where the text is
/// no base64.
#[verifier::external_body]
pub(crate) fn unarmor(text: &str) -> (r: Option<Vec<u8>>)
    requires
        encode_utf8(text@).len() + 8 <= usize::MAX,
    ensures
        armored_bytes(text@) == match r {
            Some(b) => Some(b@),
            None => None,
        },
{
    base64::decode(text).ok()
}

} // verus!
