//! Action tokens: what the user meant, carried from one invocation to
//! the next.
//!
//! A token travels as a document of one entry: the key names the kind
//! of the token, the value is what it carries. This module maps tokens
//! to such documents and back; the bytes are the `rofi` module's part.

use vstd::prelude::*;
use vstd::utf8::{encode_utf8, is_ascii_chars, is_ascii_chars_encode_utf8};
use crate::document::{entries_view, lemma_view_unfold, same_text, Doc, Document, Numeral, NumeralView};
use crate::error::Error;

verus! {

/// What an invocation is to resume with.
#[derive(Debug, PartialEq, Eq)]
pub enum Info {
    /// A task was picked from the list; its operations are shown next.
    Choose(u16),
    /// Begin work on the task of this number.
    Start(u16),
    /// End work on it.
    Stop(u16),
    /// Mark it completed.
    Done(u16),
    /// Open it in an editor.
    Edit(u16),
    /// Add a task with this description.
    Create(String),
}

/// What an `Info` is, in contracts.
pub enum InfoView {
    Choose(u16),
    Start(u16),
    Stop(u16),
    Done(u16),
    Edit(u16),
    Create(Seq<char>),
}

impl View for Info {
    type V = InfoView;

    open spec fn view(&self) -> InfoView {
        match self {
            Info::Choose(id) => InfoView::Choose(*id),
            Info::Start(id) => InfoView::Start(*id),
            Info::Stop(id) => InfoView::Stop(*id),
            Info::Done(id) => InfoView::Done(*id),
            Info::Edit(id) => InfoView::Edit(*id),
            Info::Create(text) => InfoView::Create(text@),
        }
    }
}

impl InfoView {
    /// The key under which a token of this kind travels.
    pub open spec fn tag(self) -> Seq<char> {
        match self {
            InfoView::Choose(_) => "Choose"@,
            InfoView::Start(_) => "Start"@,
            InfoView::Stop(_) => "Stop"@,
            InfoView::Done(_) => "Done"@,
            InfoView::Edit(_) => "Edit"@,
            InfoView::Create(_) => "Create"@,
        }
    }

    /// What the token carries, as a document.
    pub open spec fn payload(self) -> Doc {
        match self {
            InfoView::Choose(id) | InfoView::Start(id) | InfoView::Stop(id) | InfoView::Done(id)
            | InfoView::Edit(id) => Doc::Number(NumeralView::Unsigned(id as u64)),
            InfoView::Create(text) => Doc::Text(text),
        }
    }

    /// The number of the task that the token speaks of, if it speaks of one.
    pub open spec fn task(self) -> Option<u16> {
        match self {
            InfoView::Choose(id) | InfoView::Start(id) | InfoView::Stop(id) | InfoView::Done(id)
            | InfoView::Edit(id) => Some(id),
            InfoView::Create(_) => None,
        }
    }
}

/// The document in which a token travels.
pub open spec fn doc_of_token(info: InfoView) -> Doc {
    Doc::Record(seq![(info.tag(), info.payload())])
}

/// A task number, read from a document: a whole number that fits.
pub open spec fn task_number(doc: Doc) -> Option<u16> {
    match doc {
        Doc::Number(NumeralView::Unsigned(n)) => if n <= 0xffff {
            Some(n as u16)
        } else {
            None
        },
        _ => None,
    }
}

/// The token with this key and this value, if the key names a kind of
/// token and the value is what that kind carries.
pub open spec fn token_of_entry(key: Seq<char>, value: Doc) -> Option<InfoView> {
    if key == "Choose"@ {
        match task_number(value) {
            Some(id) => Some(InfoView::Choose(id)),
            None => None,
        }
    } else if key == "Start"@ {
        match task_number(value) {
            Some(id) => Some(InfoView::Start(id)),
            None => None,
        }
    } else if key == "Stop"@ {
        match task_number(value) {
            Some(id) => Some(InfoView::Stop(id)),
            None => None,
        }
    } else if key == "Done"@ {
        match task_number(value) {
            Some(id) => Some(InfoView::Done(id)),
            None => None,
        }
    } else if key == "Edit"@ {
        match task_number(value) {
            Some(id) => Some(InfoView::Edit(id)),
            None => None,
        }
    } else if key == "Create"@ {
        match value {
            Doc::Text(text) => Some(InfoView::Create(text)),
            _ => None,
        }
    } else {
        None
    }
}

/// The token that a document stands for: the document is a record of
/// exactly one entry, and that entry is a token's.
pub open spec fn token_of_doc(doc: Doc) -> Option<InfoView> {
    match doc {
        Doc::Record(entries) => if entries.len() == 1 {
            token_of_entry(entries[0].0, entries[0].1)
        } else {
            None
        },
        _ => None,
    }
}

/// The six keys differ from one another.
pub proof fn lemma_tags_differ()
    ensures
        "Choose"@ != "Start"@,
        "Choose"@ != "Stop"@,
        "Choose"@ != "Done"@,
        "Choose"@ != "Edit"@,
        "Choose"@ != "Create"@,
        "Start"@ != "Stop"@,
        "Start"@ != "Done"@,
        "Start"@ != "Edit"@,
        "Start"@ != "Create"@,
        "Stop"@ != "Done"@,
        "Stop"@ != "Edit"@,
        "Stop"@ != "Create"@,
        "Done"@ != "Edit"@,
        "Done"@ != "Create"@,
        "Edit"@ != "Create"@,
{
    reveal_strlit("Choose");
    reveal_strlit("Start");
    reveal_strlit("Stop");
    reveal_strlit("Done");
    reveal_strlit("Edit");
    reveal_strlit("Create");
    assert("Choose"@[1] == 'h');
    assert("Create"@[1] == 'r');
    assert("Start"@.len() == 5);
    assert("Stop"@.len() == 4);
    assert("Stop"@[0] == 'S');
    assert("Done"@[0] == 'D');
    assert("Edit"@[0] == 'E');
}

/// Each of the six keys takes as many bytes as it has characters, six
/// at most.
pub proof fn lemma_tag_bytes(info: InfoView)
    ensures
        encode_utf8(info.tag()).len() <= 6,
{
    reveal_strlit("Choose");
    reveal_strlit("Start");
    reveal_strlit("Stop");
    reveal_strlit("Done");
    reveal_strlit("Edit");
    reveal_strlit("Create");
    let tag = info.tag();
    assert(is_ascii_chars(tag));
    is_ascii_chars_encode_utf8(tag);
}

/// Every token is read back from the document it travels in.
pub proof fn lemma_token_document_round_trip(info: InfoView)
    ensures
        token_of_doc(doc_of_token(info)) == Some(info),
{
    lemma_tags_differ();
}

/// Two tokens that travel in the same document are the same token.
pub proof fn lemma_token_document_injective(a: InfoView, b: InfoView)
    requires
        doc_of_token(a) == doc_of_token(b),
    ensures
        a == b,
{
    lemma_token_document_round_trip(a);
    lemma_token_document_round_trip(b);
}

impl Info {
    /// The number of the task that this token speaks of. A token that
    /// adds a task speaks of none: that is `Error::InvalidInput`.
    pub fn task_id(&self) -> (r: Result<u16, Error>)
        ensures
            r == match self@.task() {
                Some(id) => Ok::<u16, Error>(id),
                None => Err(Error::InvalidInput),
            },
    {
        match self {
            Info::Choose(id) | Info::Start(id) | Info::Stop(id) | Info::Done(id) | Info::Edit(
                id,
            ) => Ok(*id),
            Info::Create(_) => Err(Error::InvalidInput),
        }
    }

    /// A copy of this token.
    pub fn duplicate(&self) -> (r: Info)
        ensures
            r@ == self@,
    {
        match self {
            Info::Choose(id) => Info::Choose(*id),
            Info::Start(id) => Info::Start(*id),
            Info::Stop(id) => Info::Stop(*id),
            Info::Done(id) => Info::Done(*id),
            Info::Edit(id) => Info::Edit(*id),
            Info::Create(text) => Info::Create(text.clone()),
        }
    }

    /// The key under which this token travels.
    pub fn tag(&self) -> (r: &'static str)
        ensures
            r@ == self@.tag(),
    {
        match self {
            Info::Choose(_) => "Choose",
            Info::Start(_) => "Start",
            Info::Stop(_) => "Stop",
            Info::Done(_) => "Done",
            Info::Edit(_) => "Edit",
            Info::Create(_) => "Create",
        }
    }

    /// The document in which this token travels.
    pub fn to_document(&self) -> (doc: Document)
        ensures
            doc@ == doc_of_token(self@),
    {
        let value = match self {
            Info::Choose(id) | Info::Start(id) | Info::Stop(id) | Info::Done(id) | Info::Edit(
                id,
            ) => Document::Number(Numeral::Unsigned(*id as u64)),
            Info::Create(text) => Document::Text(text.clone()),
        };
        let mut entries: Vec<(String, Document)> = Vec::new();
        entries.push((self.tag().to_owned(), value));
        let doc = Document::Record(entries);
        proof {
            lemma_view_unfold(doc);
            assert(entries_view(entries@) =~= seq![(self@.tag(), self@.payload())]);
        }
        doc
    }

    /// Reads a token from the document it travels in. Whatever is not
    /// a record of one entry, with one of the six keys and a value of
    /// the kind that belongs to the key, is no token.
    pub fn from_document(doc: &Document) -> (r: Option<Info>)
        ensures
            token_of_doc(doc@) == match r {
                Some(info) => Some(info@),
                None => None,
            },
    {
        proof {
            lemma_view_unfold(*doc);
            lemma_tags_differ();
        }
        match doc {
            Document::Record(entries) => {
                if entries.len() != 1 {
                    return None;
                }
                let key = entries[0].0.as_str();
                let value = &entries[0].1;
                assert(entries_view(entries@)[0] == (key@, value@));
                if same_text(key, "Create") {
                    match value {
                        Document::Text(text) => Some(Info::Create(text.clone())),
                        _ => None,
                    }
                } else {
                    let id = match value {
                        Document::Number(Numeral::Unsigned(n)) => {
                            if *n <= 0xffff {
                                *n as u16
                            } else {
                                return None;
                            }
                        },
                        _ => {
                            return None;
                        },
                    };
                    assert(task_number(value@) == Some(id));
                    if same_text(key, "Choose") {
                        Some(Info::Choose(id))
                    } else if same_text(key, "Start") {
                        Some(Info::Start(id))
                    } else if same_text(key, "Stop") {
                        Some(Info::Stop(id))
                    } else if same_text(key, "Done") {
                        Some(Info::Done(id))
                    } else if same_text(key, "Edit") {
                        Some(Info::Edit(id))
                    } else {
                        None
                    }
                }
            },
            _ => None,
        }
    }
}

} // verus!
