//! Self-describing documents: what a task store's export and a token
//! hold once their bytes have been read.
//!
//! A document is plain data. Reading and writing the bytes is left to
//! the `wire` module; everything that looks into a document is here or
//! builds on what is here.

use vstd::prelude::*;
use vstd::utf8::encode_utf8_decode_utf8;

verus! {

/// A number of a document. A whole number is held as it is; any other
/// is held by its decimal text, so that it comes out as it went in.
#[derive(Debug, PartialEq, Eq)]
pub enum Numeral {
    /// A whole number from zero up.
    Unsigned(u64),
    /// A whole number below zero.
    Negative(i64),
    /// A number with a fraction or an exponent, by its decimal text.
    Real(String),
}

/// What a `Numeral` is, in contracts.
pub enum NumeralView {
    Unsigned(u64),
    Negative(i64),
    Real(Seq<char>),
}

impl View for Numeral {
    type V = NumeralView;

    open spec fn view(&self) -> NumeralView {
        match self {
            Numeral::Unsigned(u) => NumeralView::Unsigned(*u),
            Numeral::Negative(i) => NumeralView::Negative(*i),
            Numeral::Real(t) => NumeralView::Real(t@),
        }
    }
}

/// A document: a scalar, a list of documents, or a record whose
/// entries pair a key with a document.
#[derive(Debug, PartialEq, Eq)]
pub enum Document {
    Null,
    Bool(bool),
    Number(Numeral),
    Text(String),
    List(Vec<Document>),
    Record(Vec<(String, Document)>),
}

/// What a `Document` is, in contracts.
pub enum Doc {
    Null,
    Bool(bool),
    Number(NumeralView),
    Text(Seq<char>),
    List(Seq<Doc>),
    Record(Seq<(Seq<char>, Doc)>),
}

/// The entries of a record, in contracts.
pub type Entries = Seq<(Seq<char>, Doc)>;

/// What a document is, in contracts: the same tree, over sequences.
pub open spec fn doc_of(d: Document) -> Doc
    decreases d,
{
    match d {
        Document::Null => Doc::Null,
        Document::Bool(b) => Doc::Bool(b),
        Document::Number(n) => Doc::Number(n@),
        Document::Text(s) => Doc::Text(s@),
        Document::List(v) => Doc::List(
            Seq::new(
                v@.len(),
                |i: int|
                    if 0 <= i < v@.len() {
                        doc_of(v@[i])
                    } else {
                        Doc::Null
                    },
            ),
        ),
        Document::Record(v) => Doc::Record(
            Seq::new(
                v@.len(),
                |i: int|
                    if 0 <= i < v@.len() {
                        (v@[i].0@, doc_of(v@[i].1))
                    } else {
                        (Seq::empty(), Doc::Null)
                    },
            ),
        ),
    }
}

impl View for Document {
    type V = Doc;

    open spec fn view(&self) -> Doc {
        doc_of(*self)
    }
}

/// The view of a list's items.
pub open spec fn items_view(v: Seq<Document>) -> Seq<Doc> {
    Seq::new(v.len(), |i: int| v[i]@)
}

/// The view of a record's entries.
pub open spec fn entries_view(v: Seq<(String, Document)>) -> Entries {
    Seq::new(v.len(), |i: int| (v[i].0@, v[i].1@))
}

/// A list's view is the view of its items, a record's that of its entries.
pub proof fn lemma_view_unfold(d: Document)
    ensures
        d matches Document::List(v) ==> d@ == Doc::List(items_view(v@)),
        d matches Document::Record(v) ==> d@ == Doc::Record(entries_view(v@)),
{
    match d {
        Document::List(v) => {
            assert(d@->List_0 =~= items_view(v@));
        },
        Document::Record(v) => {
            assert(d@->Record_0 =~= entries_view(v@));
        },
        _ => {},
    }
}

/// The document under `key`: that of the first entry with this key.
pub open spec fn lookup(entries: Entries, key: Seq<char>) -> Option<Doc>
    decreases entries.len(),
{
    if entries.len() == 0 {
        None
    } else if entries[0].0 == key {
        Some(entries[0].1)
    } else {
        lookup(entries.skip(1), key)
    }
}

/// Whether some entry has this key.
pub open spec fn has_key(entries: Entries, key: Seq<char>) -> bool {
    exists|i: int| 0 <= i < entries.len() && #[trigger] entries[i].0 == key
}

/// The keys of a record, as a set.
pub open spec fn key_set(entries: Entries) -> Set<Seq<char>> {
    Set::new(|k: Seq<char>| has_key(entries, k))
}

/// `lookup` finds a document exactly for the keys that occur.
pub proof fn lemma_lookup_has_key(entries: Entries, key: Seq<char>)
    ensures
        lookup(entries, key) is Some <==> has_key(entries, key),
    decreases entries.len(),
{
    if entries.len() == 0 {
    } else if entries[0].0 == key {
    } else {
        let rest = entries.skip(1);
        lemma_lookup_has_key(rest, key);
        if has_key(rest, key) {
            let i = choose|i: int| 0 <= i < rest.len() && #[trigger] rest[i].0 == key;
            assert(entries[i + 1].0 == key);
        }
        if has_key(entries, key) {
            let i = choose|i: int| 0 <= i < entries.len() && #[trigger] entries[i].0 == key;
            assert(rest[i - 1].0 == key);
        }
    }
}

/// Whether two texts hold the same characters.
pub fn same_text(a: &str, b: &str) -> (r: bool)
    ensures
        r == (a@ == b@),
{
    let x = a.as_bytes();
    let y = b.as_bytes();
    proof {
        encode_utf8_decode_utf8(a@);
        encode_utf8_decode_utf8(b@);
    }
    if x.len() != y.len() {
        return false;
    }
    let mut i: usize = 0;
    while i < x.len()
        invariant
            i <= x.len(),
            x.len() == y.len(),
            x@ == vstd::utf8::encode_utf8(a@),
            y@ == vstd::utf8::encode_utf8(b@),
            forall|j: int| 0 <= j < i ==> x@[j] == y@[j],
        decreases x.len() - i,
    {
        if x[i] != y[i] {
            return false;
        }
        i += 1;
    }
    assert(x@ =~= y@);
    true
}

/// Looks a key up among the entries of a record.
pub fn find<'a>(entries: &'a Vec<(String, Document)>, key: &str) -> (r: Option<&'a Document>)
    ensures
        r matches Some(d) ==> lookup(entries_view(entries@), key@) == Some(d@),
        r is None ==> lookup(entries_view(entries@), key@) is None,
{
    let ghost all = entries_view(entries@);
    let mut i: usize = 0;
    assert(all.skip(0) =~= all);
    while i < entries.len()
        invariant
            i <= entries.len(),
            all == entries_view(entries@),
            lookup(all, key@) == lookup(all.skip(i as int), key@),
        decreases entries.len() - i,
    {
        let entry = &entries[i];
        proof {
            assert(all.skip(i as int)[0] == all[i as int]);
            assert(all.skip(i as int).skip(1) =~= all.skip(i + 1));
        }
        if same_text(entry.0.as_str(), key) {
            return Some(&entry.1);
        }
        i += 1;
    }
    proof {
        assert(all.skip(i as int).len() == 0);
    }
    None
}

impl Numeral {
    /// A copy of this number.
    pub fn duplicate(&self) -> (r: Numeral)
        ensures
            r@ == self@,
    {
        match self {
            Numeral::Unsigned(u) => Numeral::Unsigned(*u),
            Numeral::Negative(i) => Numeral::Negative(*i),
            Numeral::Real(t) => Numeral::Real(t.clone()),
        }
    }
}

impl Document {
    /// A copy of this document, with everything it holds.
    pub fn duplicate(&self) -> (r: Document)
        ensures
            r@ == self@,
        decreases self,
    {
        match self {
            Document::Null => Document::Null,
            Document::Bool(b) => Document::Bool(*b),
            Document::Number(n) => Document::Number(n.duplicate()),
            Document::Text(s) => Document::Text(s.clone()),
            Document::List(v) => {
                let mut out: Vec<Document> = Vec::new();
                let mut i: usize = 0;
                while i < v.len()
                    invariant
                        i <= v.len(),
                        out.len() == i,
                        self == Document::List(*v),
                        forall|j: int| 0 <= j < i ==> out@[j]@ == v@[j]@,
                    decreases v.len() - i,
                {
                    assert(*self is List && self->List_0 == *v);
                    assert(decreases_to!(*self => self->List_0));
                    assert(decreases_to!(*v => v[i as int]));
                    assert(decreases_to!(*self => v[i as int]));
                    let item = v[i].duplicate();
                    out.push(item);
                    i += 1;
                }
                let r = Document::List(out);
                proof {
                    lemma_view_unfold(r);
                    lemma_view_unfold(*self);
                    assert(items_view(out@) =~= items_view(v@));
                }
                r
            },
            Document::Record(v) => {
                let mut out: Vec<(String, Document)> = Vec::new();
                let mut i: usize = 0;
                while i < v.len()
                    invariant
                        i <= v.len(),
                        out.len() == i,
                        self == Document::Record(*v),
                        forall|j: int|
                            0 <= j < i ==> out@[j].0@ == v@[j].0@ && out@[j].1@ == v@[j].1@,
                    decreases v.len() - i,
                {
                    assert(*self is Record && self->Record_0 == *v);
                    assert(decreases_to!(*self => self->Record_0));
                    assert(decreases_to!(*v => v[i as int]));
                    assert(decreases_to!(v[i as int] => v[i as int].1));
                    assert(decreases_to!(*self => v[i as int].1));
                    let value = v[i].1.duplicate();
                    out.push((v[i].0.clone(), value));
                    i += 1;
                }
                let r = Document::Record(out);
                proof {
                    lemma_view_unfold(r);
                    lemma_view_unfold(*self);
                    assert(entries_view(out@) =~= entries_view(v@));
                }
                r
            },
        }
    }
}

} // verus!
