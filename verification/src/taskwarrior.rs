//! Task records, as the task store exports them and takes them in.
//!
//! A record is read from a document, changed in the few fields that an
//! operation sets, and written back whole. What the library does not
//! know of a record it keeps as it found it.

use vstd::prelude::*;
use crate::command::{add_call, edit_call, import_call, Call};
use crate::document::{
    entries_view, find, has_key, items_view, lemma_view_unfold, lookup, same_text, Doc, Document,
    Entries, Numeral, NumeralView,
};
use crate::error::Error;
use crate::export_datetime::doc_of_stamp;
use crate::fields::{
    number_view, opt_number, opt_stamp, opt_text, read_number, read_opt_number, read_opt_stamp,
    read_opt_text, read_stamp, read_text, read_text_list, req_number, req_stamp, req_text,
    text_list,
};
use crate::text::{text_view, texts_view};
use crate::timestamp::Timestamp;
use crate::token::task_number;
use crate::wire::{json_bytes, json_document, read_json, write_json};

verus! {

/// Where a task stands.
#[derive(Clone, Copy, Debug, PartialEq, Eq, Structural)]
pub enum Status {
    Pending,
    Waiting,
    Deleted,
    Completed,
    Recurring,
}

/// The status that a tag of the task store names.
pub open spec fn status_of_tag(tag: Seq<char>) -> Option<Status> {
    if tag == "pending"@ {
        Some(Status::Pending)
    } else if tag == "waiting"@ {
        Some(Status::Waiting)
    } else if tag == "deleted"@ {
        Some(Status::Deleted)
    } else if tag == "completed"@ {
        Some(Status::Completed)
    } else if tag == "recurring"@ {
        Some(Status::Recurring)
    } else {
        None
    }
}

impl Status {
    /// The tag by which the task store names this status.
    pub open spec fn tag(self) -> Seq<char> {
        match self {
            Status::Pending => "pending"@,
            Status::Waiting => "waiting"@,
            Status::Deleted => "deleted"@,
            Status::Completed => "completed"@,
            Status::Recurring => "recurring"@,
        }
    }

    /// The one letter that shows this status in a list.
    pub open spec fn letter(self) -> Seq<char> {
        match self {
            Status::Pending => "p"@,
            Status::Waiting => "w"@,
            Status::Deleted => "X"@,
            Status::Completed => "C"@,
            Status::Recurring => "r"@,
        }
    }

    /// The tag by which the task store names this status.
    pub fn name(&self) -> (r: &'static str)
        ensures
            r@ == self.tag(),
    {
        match self {
            Status::Pending => "pending",
            Status::Waiting => "waiting",
            Status::Deleted => "deleted",
            Status::Completed => "completed",
            Status::Recurring => "recurring",
        }
    }

    /// The status that a tag names, if it names one.
    pub fn from_name(tag: &str) -> (r: Option<Status>)
        ensures
            r == status_of_tag(tag@),
    {
        if same_text(tag, "pending") {
            Some(Status::Pending)
        } else if same_text(tag, "waiting") {
            Some(Status::Waiting)
        } else if same_text(tag, "deleted") {
            Some(Status::Deleted)
        } else if same_text(tag, "completed") {
            Some(Status::Completed)
        } else if same_text(tag, "recurring") {
            Some(Status::Recurring)
        } else {
            None
        }
    }

    /// The one letter that shows this status in a list: `p`, `w`, `X`,
    /// `C` or `r`.
    pub fn to_string(&self) -> (r: String)
        ensures
            r@ == self.letter(),
    {
        match self {
            Status::Pending => "p".to_owned(),
            Status::Waiting => "w".to_owned(),
            Status::Deleted => "X".to_owned(),
            Status::Completed => "C".to_owned(),
            Status::Recurring => "r".to_owned(),
        }
    }
}

/// The five tags differ, so each status is read back from its tag.
pub proof fn lemma_status_tag(status: Status)
    ensures
        status_of_tag(status.tag()) == Some(status),
{
    reveal_strlit("pending");
    reveal_strlit("waiting");
    reveal_strlit("deleted");
    reveal_strlit("completed");
    reveal_strlit("recurring");
    assert("pending"@.len() == 7 && "pending"@[0] == 'p');
    assert("waiting"@.len() == 7 && "waiting"@[0] == 'w');
    assert("deleted"@.len() == 7 && "deleted"@[0] == 'd');
    assert("completed"@.len() == 9 && "completed"@[0] == 'c');
    assert("recurring"@.len() == 9 && "recurring"@[0] == 'r');
}

/// A note on a task, with the time it was made.
#[derive(Debug, PartialEq, Eq)]
pub struct Annotation {
    pub entry: Timestamp,
    pub description: String,
}

/// What an `Annotation` is, in contracts.
pub struct AnnotationView {
    pub entry: Timestamp,
    pub description: Seq<char>,
}

impl View for Annotation {
    type V = AnnotationView;

    open spec fn view(&self) -> AnnotationView {
        AnnotationView { entry: self.entry, description: self.description@ }
    }
}

/// The views of a list of annotations.
pub open spec fn annotations_view(v: Seq<Annotation>) -> Seq<AnnotationView> {
    Seq::new(v.len(), |i: int| v[i]@)
}

/// Which of the fields that may hold nothing the record carried
/// all the same: as null, or as an empty list. A field that holds
/// something is written in any case; one that holds nothing is written
/// where this says that the record carried it.
#[derive(Clone, Copy, Debug, PartialEq, Eq, Structural)]
pub struct Carried {
    pub project: bool,
    pub mask: bool,
    pub imask: bool,
    pub parent: bool,
    pub recur: bool,
    pub tags: bool,
    pub annotations: bool,
}

/// One task of the task store.
#[derive(Debug, PartialEq, Eq)]
pub struct Task {
    /// The number under which the task store lists the task now.
    pub id: u16,
    pub description: String,
    pub status: Status,
    pub project: Option<String>,
    pub start: Option<Timestamp>,
    pub due: Option<Timestamp>,
    pub end: Option<Timestamp>,
    pub entry: Timestamp,
    pub modified: Timestamp,
    pub until: Option<Timestamp>,
    pub mask: Option<String>,
    pub imask: Option<Numeral>,
    pub parent: Option<String>,
    pub recur: Option<String>,
    pub tags: Vec<String>,
    pub uuid: String,
    /// The task store's score for the task. It is only read here.
    pub urgency: Numeral,
    pub annotations: Vec<Annotation>,
    /// Which of the fields that may hold nothing the record carried.
    pub carried: Carried,
    /// The entries of the record that the library gives no meaning to,
    /// as they were read. A record is read with each key once; of
    /// entries with one key only the first is written.
    pub extra: Vec<(String, Document)>,
}

/// What a `Task` is, in contracts.
pub struct TaskView {
    pub id: u16,
    pub description: Seq<char>,
    pub status: Status,
    pub project: Option<Seq<char>>,
    pub start: Option<Timestamp>,
    pub due: Option<Timestamp>,
    pub end: Option<Timestamp>,
    pub entry: Timestamp,
    pub modified: Timestamp,
    pub until: Option<Timestamp>,
    pub mask: Option<Seq<char>>,
    pub imask: Option<NumeralView>,
    pub parent: Option<Seq<char>>,
    pub recur: Option<Seq<char>>,
    pub tags: Seq<Seq<char>>,
    pub uuid: Seq<char>,
    pub urgency: NumeralView,
    pub annotations: Seq<AnnotationView>,
    pub carried: Carried,
    pub extra: Entries,
}

impl View for Task {
    type V = TaskView;

    open spec fn view(&self) -> TaskView {
        TaskView {
            id: self.id,
            description: self.description@,
            status: self.status,
            project: text_view(self.project),
            start: self.start,
            due: self.due,
            end: self.end,
            entry: self.entry,
            modified: self.modified,
            until: self.until,
            mask: text_view(self.mask),
            imask: number_view(self.imask),
            parent: text_view(self.parent),
            recur: text_view(self.recur),
            tags: texts_view(self.tags@),
            uuid: self.uuid@,
            urgency: self.urgency@,
            annotations: annotations_view(self.annotations@),
            carried: self.carried,
            extra: entries_view(self.extra@),
        }
    }
}

/// The views of a list of tasks.
pub open spec fn tasks_view(v: Seq<Task>) -> Seq<TaskView> {
    Seq::new(v.len(), |i: int| v[i]@)
}

/// Whether a timestamp that may be missing is a date and a time.
pub open spec fn stamp_ok(t: Option<Timestamp>) -> bool {
    t matches Some(t) ==> t.wf()
}

/// Whether every key of `e` is one that the library gives a meaning to.
pub open spec fn all_named(e: Entries) -> bool {
    forall|i: int| 0 <= i < e.len() ==> is_named(#[trigger] e[i].0)
}

/// Whether no key of `e` is one that the library gives a meaning to.
pub open spec fn none_named(e: Entries) -> bool {
    forall|i: int| 0 <= i < e.len() ==> !is_named(#[trigger] e[i].0)
}

impl TaskView {
    /// Whether the task is as a record is read: among the entries
    /// that are only kept no key occurs twice and none is the key of a
    /// known field, and every field that holds something counts as
    /// carried.
    pub open spec fn settled(self) -> bool {
        &&& none_named(self.extra)
        &&& distinct_keys(self.extra)
        &&& (self.project is Some ==> self.carried.project)
        &&& (self.mask is Some ==> self.carried.mask)
        &&& (self.imask is Some ==> self.carried.imask)
        &&& (self.parent is Some ==> self.carried.parent)
        &&& (self.recur is Some ==> self.carried.recur)
        &&& (self.tags.len() > 0 ==> self.carried.tags)
        &&& (self.annotations.len() > 0 ==> self.carried.annotations)
    }

    /// Whether every timestamp of the record is a date and a time.
    pub open spec fn wf(self) -> bool {
        &&& stamp_ok(self.start)
        &&& stamp_ok(self.due)
        &&& stamp_ok(self.end)
        &&& self.entry.wf()
        &&& self.modified.wf()
        &&& stamp_ok(self.until)
        &&& forall|i: int| 0 <= i < self.annotations.len() ==> (#[trigger] self.annotations[i]).entry.wf()
    }
}

/// Whether the library gives a meaning to the entry of this key.
pub open spec fn is_named(key: Seq<char>) -> bool {
    ||| key == "id"@
    ||| key == "description"@
    ||| key == "status"@
    ||| key == "project"@
    ||| key == "start"@
    ||| key == "due"@
    ||| key == "end"@
    ||| key == "entry"@
    ||| key == "modified"@
    ||| key == "until"@
    ||| key == "mask"@
    ||| key == "imask"@
    ||| key == "parent"@
    ||| key == "recur"@
    ||| key == "tags"@
    ||| key == "uuid"@
    ||| key == "urgency"@
    ||| key == "annotations"@
}

/// Whether no key occurs twice among the entries.
pub open spec fn distinct_keys(e: Entries) -> bool {
    forall|i: int, j: int| 0 <= i < j < e.len() ==> (#[trigger] e[i]).0 != (#[trigger] e[j]).0
}

/// The entries that are kept beside the known fields, in their order:
/// those whose key the library gives no meaning to, and of entries
/// with one key the first.
pub open spec fn kept(e: Entries) -> Entries
    decreases e.len(),
{
    if e.len() == 0 {
        e
    } else if is_named(e.last().0) || has_key(e.drop_last(), e.last().0) {
        kept(e.drop_last())
    } else {
        kept(e.drop_last()).push(e.last())
    }
}

/// Which of the fields that may hold nothing a record carries.
pub open spec fn carried_of(e: Entries) -> Carried {
    Carried {
        project: lookup(e, "project"@) is Some,
        mask: lookup(e, "mask"@) is Some,
        imask: lookup(e, "imask"@) is Some,
        parent: lookup(e, "parent"@) is Some,
        recur: lookup(e, "recur"@) is Some,
        tags: lookup(e, "tags"@) is Some,
        annotations: lookup(e, "annotations"@) is Some,
    }
}

/// The number of the task in a record.
pub open spec fn id_of(e: Entries) -> Option<u16> {
    match lookup(e, "id"@) {
        Some(doc) => task_number(doc),
        None => None,
    }
}

/// The status in a record.
pub open spec fn status_of(e: Entries) -> Option<Status> {
    match req_text(e, "status"@) {
        Some(tag) => status_of_tag(tag),
        None => None,
    }
}

/// The annotation that a document holds: a record with the time under
/// `entry` and the note under `description`. Other entries are passed
/// over.
pub open spec fn annotation_of(doc: Doc) -> Option<AnnotationView> {
    match doc {
        Doc::Record(e) => if req_stamp(e, "entry"@) is Some && req_text(e, "description"@) is Some {
            Some(
                AnnotationView {
                    entry: req_stamp(e, "entry"@)->0,
                    description: req_text(e, "description"@)->0,
                },
            )
        } else {
            None
        },
        _ => None,
    }
}

/// The annotations of a list, if it holds annotations only.
pub open spec fn annotations_of(items: Seq<Doc>) -> Option<Seq<AnnotationView>> {
    if forall|i: int| 0 <= i < items.len() ==> annotation_of(#[trigger] items[i]) is Some {
        Some(Seq::new(items.len(), |i: int| annotation_of(items[i])->0))
    } else {
        None
    }
}

/// The annotations of a record, where a missing entry holds none.
pub open spec fn annotation_list(e: Entries) -> Option<Seq<AnnotationView>> {
    match lookup(e, "annotations"@) {
        None => Some(Seq::empty()),
        Some(Doc::List(items)) => annotations_of(items),
        Some(_) => None,
    }
}

/// Whether every field of a record can be read.
pub open spec fn fields_ok(e: Entries) -> bool {
    &&& id_of(e) is Some
    &&& req_text(e, "description"@) is Some
    &&& status_of(e) is Some
    &&& opt_text(e, "project"@) is Some
    &&& opt_stamp(e, "start"@) is Some
    &&& opt_stamp(e, "due"@) is Some
    &&& opt_stamp(e, "end"@) is Some
    &&& req_stamp(e, "entry"@) is Some
    &&& req_stamp(e, "modified"@) is Some
    &&& opt_stamp(e, "until"@) is Some
    &&& opt_text(e, "mask"@) is Some
    &&& opt_number(e, "imask"@) is Some
    &&& opt_text(e, "parent"@) is Some
    &&& opt_text(e, "recur"@) is Some
    &&& text_list(e, "tags"@) is Some
    &&& req_text(e, "uuid"@) is Some
    &&& req_number(e, "urgency"@) is Some
    &&& annotation_list(e) is Some
}

/// The fields of a record, each as its reader gives it.
pub open spec fn fields_of(e: Entries) -> TaskView {
    TaskView {
        id: id_of(e)->0,
        description: req_text(e, "description"@)->0,
        status: status_of(e)->0,
        project: opt_text(e, "project"@)->0,
        start: opt_stamp(e, "start"@)->0,
        due: opt_stamp(e, "due"@)->0,
        end: opt_stamp(e, "end"@)->0,
        entry: req_stamp(e, "entry"@)->0,
        modified: req_stamp(e, "modified"@)->0,
        until: opt_stamp(e, "until"@)->0,
        mask: opt_text(e, "mask"@)->0,
        imask: opt_number(e, "imask"@)->0,
        parent: opt_text(e, "parent"@)->0,
        recur: opt_text(e, "recur"@)->0,
        tags: text_list(e, "tags"@)->0,
        uuid: req_text(e, "uuid"@)->0,
        urgency: req_number(e, "urgency"@)->0,
        annotations: annotation_list(e)->0,
        carried: carried_of(e),
        extra: kept(e),
    }
}

/// The task that a document holds, if it holds one: a record in which
/// every field that has to be there is there, and every field that is
/// there is of its kind.
pub open spec fn record_of_doc(doc: Doc) -> Option<TaskView> {
    match doc {
        Doc::Record(e) => if fields_ok(e) {
            Some(fields_of(e))
        } else {
            None
        },
        _ => None,
    }
}

/// One entry.
pub open spec fn one(key: Seq<char>, value: Doc) -> Entries {
    seq![(key, value)]
}

/// One entry for a value that is there, none for one that is not.
pub open spec fn maybe(key: Seq<char>, value: Option<Doc>) -> Entries {
    match value {
        Some(v) => seq![(key, v)],
        None => Seq::empty(),
    }
}

/// What is written for a text that may be missing: the text; null
/// where there is none and the record carried the field; nothing
/// otherwise.
pub open spec fn text_doc(text: Option<Seq<char>>, carried: bool) -> Option<Doc> {
    match text {
        Some(t) => Some(Doc::Text(t)),
        None => if carried {
            Some(Doc::Null)
        } else {
            None
        },
    }
}

/// What is written for a number that may be missing: the number; null
/// where there is none and the record carried the field; nothing
/// otherwise.
pub open spec fn number_doc(n: Option<NumeralView>, carried: bool) -> Option<Doc> {
    match n {
        Some(n) => Some(Doc::Number(n)),
        None => if carried {
            Some(Doc::Null)
        } else {
            None
        },
    }
}

/// The document of a timestamp, if the timestamp is there.
pub open spec fn stamp_doc(t: Option<Timestamp>) -> Option<Doc> {
    match t {
        Some(t) => Some(doc_of_stamp(t)),
        None => None,
    }
}

/// The list of texts, as a document.
pub open spec fn texts_doc(texts: Seq<Seq<char>>) -> Doc {
    Doc::List(Seq::new(texts.len(), |i: int| Doc::Text(texts[i])))
}

/// What is written for a list of texts: the list, where it holds a
/// text or the record carried the field; nothing otherwise.
pub open spec fn tags_doc(texts: Seq<Seq<char>>, carried: bool) -> Option<Doc> {
    if texts.len() > 0 || carried {
        Some(texts_doc(texts))
    } else {
        None
    }
}

/// An annotation, as a document.
pub open spec fn doc_of_annotation(a: AnnotationView) -> Doc {
    Doc::Record(seq![("entry"@, doc_of_stamp(a.entry)), ("description"@, Doc::Text(a.description))])
}

/// The list of annotations, as a document.
pub open spec fn notes_doc(notes: Seq<AnnotationView>) -> Doc {
    Doc::List(Seq::new(notes.len(), |i: int| doc_of_annotation(notes[i])))
}

/// What is written for the annotations: the list, where it holds an
/// annotation or the record carried the field; nothing otherwise.
pub open spec fn annotations_doc(notes: Seq<AnnotationView>, carried: bool) -> Option<Doc> {
    if notes.len() > 0 || carried {
        Some(notes_doc(notes))
    } else {
        None
    }
}

/// The entries that the library writes for the fields it knows. A
/// timestamp that is not there gets no entry. Any other field that
/// holds nothing gets an entry exactly where the record carried it:
/// null for a text or a number, an empty list for a list.
pub open spec fn named_entries(t: TaskView) -> Entries {
    one("id"@, Doc::Number(NumeralView::Unsigned(t.id as u64)))
    + one("description"@, Doc::Text(t.description))
    + one("status"@, Doc::Text(t.status.tag()))
    + maybe("project"@, text_doc(t.project, t.carried.project))
    + maybe("start"@, stamp_doc(t.start))
    + maybe("due"@, stamp_doc(t.due))
    + maybe("end"@, stamp_doc(t.end))
    + one("entry"@, doc_of_stamp(t.entry))
    + one("modified"@, doc_of_stamp(t.modified))
    + maybe("until"@, stamp_doc(t.until))
    + maybe("mask"@, text_doc(t.mask, t.carried.mask))
    + maybe("imask"@, number_doc(t.imask, t.carried.imask))
    + maybe("parent"@, text_doc(t.parent, t.carried.parent))
    + maybe("recur"@, text_doc(t.recur, t.carried.recur))
    + maybe("tags"@, tags_doc(t.tags, t.carried.tags))
    + one("uuid"@, Doc::Text(t.uuid))
    + one("urgency"@, Doc::Number(t.urgency))
    + maybe("annotations"@, annotations_doc(t.annotations, t.carried.annotations))
}

/// The entries of the record that is written for a task: those of the
/// fields that the library knows, then those that it only keeps. Of
/// the kept ones, any that bears the key of a known field is left out,
/// and of those with one key all but the first: so each key is written
/// once, and a known field wins over a kept entry of its name.
pub open spec fn entries_of_record(t: TaskView) -> Entries {
    named_entries(t) + kept(t.extra)
}

/// The document that is written for a task.
pub open spec fn doc_of_record(t: TaskView) -> Doc {
    Doc::Record(entries_of_record(t))
}

/// Whether the library gives a meaning to the entry of this key.
pub fn is_named_key(key: &str) -> (r: bool)
    ensures
        r == is_named(key@),
{
    same_text(key, "id") || same_text(key, "description") || same_text(key, "status") || same_text(
        key,
        "project",
    ) || same_text(key, "start") || same_text(key, "due") || same_text(key, "end") || same_text(
        key,
        "entry",
    ) || same_text(key, "modified") || same_text(key, "until") || same_text(key, "mask")
        || same_text(key, "imask") || same_text(key, "parent") || same_text(key, "recur")
        || same_text(key, "tags") || same_text(key, "uuid") || same_text(key, "urgency")
        || same_text(key, "annotations")
}

/// Reads the number of the task.
fn read_id(entries: &Vec<(String, Document)>) -> (r: Result<u16, Error>)
    ensures
        match r {
            Ok(v) => id_of(entries_view(entries@)) == Some(v),
            Err(e) => e == Error::Format && id_of(entries_view(entries@)) is None,
        },
{
    match find(entries, "id") {
        Some(Document::Number(Numeral::Unsigned(n))) => {
            if *n <= 0xffff {
                Ok(*n as u16)
            } else {
                Err(Error::Format)
            }
        },
        _ => Err(Error::Format),
    }
}

/// Reads the status.
fn read_status(entries: &Vec<(String, Document)>) -> (r: Result<Status, Error>)
    ensures
        match r {
            Ok(v) => status_of(entries_view(entries@)) == Some(v),
            Err(e) => e == Error::Format && status_of(entries_view(entries@)) is None,
        },
{
    let tag = read_text(entries, "status")?;
    match Status::from_name(tag.as_str()) {
        Some(status) => Ok(status),
        None => Err(Error::Format),
    }
}

/// Whether one of the first `upto` entries has this key.
fn occurs(entries: &Vec<(String, Document)>, upto: usize, key: &str) -> (r: bool)
    requires
        upto <= entries.len(),
    ensures
        r == has_key(entries_view(entries@).take(upto as int), key@),
{
    let ghost front = entries_view(entries@).take(upto as int);
    let mut j: usize = 0;
    while j < upto
        invariant
            j <= upto <= entries.len(),
            front == entries_view(entries@).take(upto as int),
            forall|i: int| 0 <= i < j ==> (#[trigger] front[i]).0 != key@,
        decreases upto - j,
    {
        if same_text(entries[j].0.as_str(), key) {
            assert(front[j as int].0 == key@);
            return true;
        }
        j += 1;
    }
    false
}

/// Copies the entries that are kept beside the known fields.
fn keep(entries: &Vec<(String, Document)>) -> (r: Vec<(String, Document)>)
    ensures
        entries_view(r@) == kept(entries_view(entries@)),
{
    let ghost all = entries_view(entries@);
    let mut out: Vec<(String, Document)> = Vec::new();
    let mut i: usize = 0;
    assert(all.take(0) =~= Seq::<(Seq<char>, Doc)>::empty());
    assert(entries_view(out@) =~= kept(all.take(0)));
    while i < entries.len()
        invariant
            i <= entries.len(),
            all == entries_view(entries@),
            entries_view(out@) == kept(all.take(i as int)),
        decreases entries.len() - i,
    {
        let entry = &entries[i];
        proof {
            assert(all.take(i + 1).drop_last() =~= all.take(i as int));
            assert(all.take(i + 1).last() == (entry.0@, entry.1@));
        }
        if !is_named_key(entry.0.as_str()) && !occurs(entries, i, entry.0.as_str()) {
            let ghost before = entries_view(out@);
            out.push((entry.0.clone(), entry.1.duplicate()));
            assert(entries_view(out@) =~= before.push((entry.0@, entry.1@)));
        }
        i += 1;
    }
    assert(all.take(i as int) =~= all);
    out
}

/// Says which of the fields that may hold nothing a record carries.
fn read_carried(entries: &Vec<(String, Document)>) -> (r: Carried)
    ensures
        r == carried_of(entries_view(entries@)),
{
    Carried {
        project: find(entries, "project").is_some(),
        mask: find(entries, "mask").is_some(),
        imask: find(entries, "imask").is_some(),
        parent: find(entries, "parent").is_some(),
        recur: find(entries, "recur").is_some(),
        tags: find(entries, "tags").is_some(),
        annotations: find(entries, "annotations").is_some(),
    }
}

impl Annotation {
    /// Reads an annotation from a document.
    pub fn from_document(doc: &Document) -> (r: Result<Annotation, Error>)
        ensures
            match r {
                Ok(a) => annotation_of(doc@) == Some(a@) && a.entry.wf(),
                Err(e) => e == Error::Format && annotation_of(doc@) is None,
            },
    {
        proof {
            lemma_view_unfold(*doc);
        }
        match doc {
            Document::Record(entries) => {
                let entry = read_stamp(entries, "entry")?;
                let description = read_text(entries, "description")?;
                Ok(Annotation { entry, description })
            },
            _ => Err(Error::Format),
        }
    }
}

/// Reads the annotations of a record; a missing entry holds none.
fn read_annotations(entries: &Vec<(String, Document)>) -> (r: Result<Vec<Annotation>, Error>)
    ensures
        match r {
            Ok(v) => annotation_list(entries_view(entries@)) == Some(annotations_view(v@))
                && forall|i: int| 0 <= i < v.len() ==> (#[trigger] v@[i]).entry.wf(),
            Err(e) => e == Error::Format && annotation_list(entries_view(entries@)) is None,
        },
{
    let items = match find(entries, "annotations") {
        None => {
            let out: Vec<Annotation> = Vec::new();
            assert(annotations_view(out@) =~= Seq::<AnnotationView>::empty());
            return Ok(out);
        },
        Some(doc) => {
            proof {
                lemma_view_unfold(*doc);
            }
            match doc {
                Document::List(items) => items,
                _ => {
                    return Err(Error::Format);
                },
            }
        },
    };
    let ghost docs = items_view(items@);
    let mut out: Vec<Annotation> = Vec::new();
    let mut i: usize = 0;
    while i < items.len()
        invariant
            i <= items.len(),
            out.len() == i,
            docs == items_view(items@),
            lookup(entries_view(entries@), "annotations"@) == Some(Doc::List(docs)),
            forall|j: int| 0 <= j < i ==> annotation_of(#[trigger] docs[j]) == Some(out@[j]@),
            forall|j: int| 0 <= j < i ==> (#[trigger] out@[j]).entry.wf(),
        decreases items.len() - i,
    {
        match Annotation::from_document(&items[i]) {
            Ok(a) => {
                out.push(a);
            },
            Err(e) => {
                assert(annotation_of(docs[i as int]) is None);
                return Err(e);
            },
        }
        i += 1;
    }
    proof {
        assert(annotations_of(docs) is Some);
        assert(annotations_of(docs)->0 =~= annotations_view(out@));
    }
    Ok(out)
}

impl Task {
    /// Whether every timestamp of the record is a date and a time.
    pub open spec fn wf(&self) -> bool {
        self@.wf()
    }

    /// Reads a task from a document of the task store.
    ///
    /// The number, the description, the status, the times of entry and
    /// of the last change, the identifier and the score have to be
    /// there; the other fields may be missing. A field that is there
    /// and is not of its kind is `Error::Format`, as is a document
    /// that is no record. Entries under other keys are kept as they
    /// are, the first of each key, and the task remembers which of the
    /// fields that hold nothing the record carried.
    #[verifier::rlimit(40)]
    pub fn from_document(doc: &Document) -> (r: Result<Task, Error>)
        ensures
            match r {
                Ok(task) => record_of_doc(doc@) == Some(task@) && task.wf() && task@.settled(),
                Err(e) => e == Error::Format && record_of_doc(doc@) is None,
            },
    {
        proof {
            lemma_view_unfold(*doc);
        }
        let entries = match doc {
            Document::Record(entries) => entries,
            _ => {
                return Err(Error::Format);
            },
        };
        let id = read_id(entries)?;
        let description = read_text(entries, "description")?;
        let status = read_status(entries)?;
        let project = read_opt_text(entries, "project")?;
        let start = read_opt_stamp(entries, "start")?;
        let due = read_opt_stamp(entries, "due")?;
        let end = read_opt_stamp(entries, "end")?;
        let entry = read_stamp(entries, "entry")?;
        let modified = read_stamp(entries, "modified")?;
        let until = read_opt_stamp(entries, "until")?;
        let mask = read_opt_text(entries, "mask")?;
        let imask = read_opt_number(entries, "imask")?;
        let parent = read_opt_text(entries, "parent")?;
        let recur = read_opt_text(entries, "recur")?;
        let tags = read_text_list(entries, "tags")?;
        let uuid = read_text(entries, "uuid")?;
        let urgency = read_number(entries, "urgency")?;
        let annotations = read_annotations(entries)?;
        let carried = read_carried(entries);
        let extra = keep(entries);
        let task = Task {
            id,
            description,
            status,
            project,
            start,
            due,
            end,
            entry,
            modified,
            until,
            mask,
            imask,
            parent,
            recur,
            tags,
            uuid,
            urgency,
            annotations,
            carried,
            extra,
        };
        proof {
            let e = entries_view(entries@);
            assert(fields_ok(e));
            assert(task@ == fields_of(e));
            crate::fidelity::lemma_read_is_settled(e);
            assert forall|i: int| 0 <= i < task@.annotations.len() implies (
            #[trigger] task@.annotations[i]).entry.wf() by {
                assert(task.annotations@[i].entry.wf());
            }
        }
        Ok(task)
    }
}

/// The view of a document that may be missing.
pub open spec fn opt_doc_view(doc: Option<Document>) -> Option<Doc> {
    match doc {
        Some(d) => Some(d@),
        None => None,
    }
}

/// Appends one entry.
fn put(out: &mut Vec<(String, Document)>, key: &str, value: Document)
    ensures
        entries_view(final(out)@) == entries_view(old(out)@) + one(key@, value@),
{
    out.push((key.to_owned(), value));
    assert(entries_view(out@) =~= entries_view(old(out)@) + one(key@, value@));
}

/// Appends one entry, if there is a value for it.
fn put_opt(out: &mut Vec<(String, Document)>, key: &str, value: Option<Document>)
    ensures
        entries_view(final(out)@) == entries_view(old(out)@) + maybe(key@, opt_doc_view(value)),
{
    match value {
        Some(v) => {
            out.push((key.to_owned(), v));
            assert(entries_view(out@) =~= entries_view(old(out)@) + maybe(
                key@,
                opt_doc_view(value),
            ));
        },
        None => {
            assert(entries_view(out@) =~= entries_view(old(out)@) + maybe(
                key@,
                opt_doc_view(value),
            ));
        },
    }
}

/// What is written for a text that may be missing.
fn opt_text_document(text: &Option<String>, carried: bool) -> (r: Option<Document>)
    ensures
        opt_doc_view(r) == text_doc(text_view(*text), carried),
{
    match text {
        Some(t) => Some(Document::Text(t.clone())),
        None => if carried {
            Some(Document::Null)
        } else {
            None
        },
    }
}

/// What is written for a number that may be missing.
fn opt_number_document(n: &Option<Numeral>, carried: bool) -> (r: Option<Document>)
    ensures
        opt_doc_view(r) == number_doc(number_view(*n), carried),
{
    match n {
        Some(n) => Some(Document::Number(n.duplicate())),
        None => if carried {
            Some(Document::Null)
        } else {
            None
        },
    }
}

/// The document of a timestamp, if the timestamp is there.
fn opt_stamp_document(t: &Option<Timestamp>) -> (r: Option<Document>)
    requires
        stamp_ok(*t),
    ensures
        opt_doc_view(r) == stamp_doc(*t),
{
    match t {
        Some(t) => Some(crate::export_datetime::serialize(t)),
        None => None,
    }
}

/// The list of texts, as a document.
fn texts_document(texts: &Vec<String>) -> (r: Document)
    ensures
        r@ == texts_doc(texts_view(texts@)),
{
    let mut items: Vec<Document> = Vec::new();
    let mut i: usize = 0;
    while i < texts.len()
        invariant
            i <= texts.len(),
            items.len() == i,
            forall|j: int| 0 <= j < i ==> (#[trigger] items@[j])@ == Doc::Text(texts@[j]@),
        decreases texts.len() - i,
    {
        items.push(Document::Text(texts[i].clone()));
        i += 1;
    }
    let r = Document::List(items);
    proof {
        lemma_view_unfold(r);
        assert(items_view(items@) =~= texts_doc(texts_view(texts@))->List_0);
    }
    r
}

impl Annotation {
    /// Writes the annotation as a document.
    pub fn to_document(&self) -> (r: Document)
        requires
            self.entry.wf(),
        ensures
            r@ == doc_of_annotation(self@),
    {
        let mut entries: Vec<(String, Document)> = Vec::new();
        entries.push(("entry".to_owned(), crate::export_datetime::serialize(&self.entry)));
        entries.push(("description".to_owned(), Document::Text(self.description.clone())));
        let r = Document::Record(entries);
        proof {
            lemma_view_unfold(r);
            assert(entries_view(entries@) =~= doc_of_annotation(self@)->Record_0);
        }
        r
    }

    /// A copy of this annotation.
    pub fn duplicate(&self) -> (r: Annotation)
        ensures
            r@ == self@,
    {
        Annotation { entry: self.entry, description: self.description.clone() }
    }
}

/// What is written for the annotations.
fn annotations_document(notes: &Vec<Annotation>, carried: bool) -> (r: Option<Document>)
    requires
        forall|i: int| 0 <= i < notes.len() ==> (#[trigger] notes@[i]).entry.wf(),
    ensures
        opt_doc_view(r) == annotations_doc(annotations_view(notes@), carried),
{
    if notes.len() == 0 && !carried {
        return None;
    }
    let mut items: Vec<Document> = Vec::new();
    let mut i: usize = 0;
    while i < notes.len()
        invariant
            i <= notes.len(),
            items.len() == i,
            forall|j: int| 0 <= j < notes.len() ==> (#[trigger] notes@[j]).entry.wf(),
            forall|j: int| 0 <= j < i ==> (#[trigger] items@[j])@ == doc_of_annotation(notes@[j]@),
        decreases notes.len() - i,
    {
        items.push(notes[i].to_document());
        i += 1;
    }
    let r = Document::List(items);
    proof {
        lemma_view_unfold(r);
        assert(items_view(items@) =~= notes_doc(annotations_view(notes@))->List_0);
    }
    Some(r)
}

impl Task {
    /// Writes the task as a document for the task store.
    ///
    /// The fields that the library knows come first, then the entries
    /// that it only keeps. A timestamp that is not there gets no entry;
    /// any other field that holds nothing gets one exactly where the
    /// record carried it. Each key is written once.
    #[verifier::rlimit(40)]
    pub fn to_document(&self) -> (r: Document)
        requires
            self.wf(),
        ensures
            r@ == doc_of_record(self@),
            distinct_keys(entries_of_record(self@)),
    {
        let mut out: Vec<(String, Document)> = Vec::new();
        assert(entries_view(out@) =~= Seq::<(Seq<char>, Doc)>::empty());
        put(&mut out, "id", Document::Number(Numeral::Unsigned(self.id as u64)));
        assert(entries_view(out@) =~= one(
            "id"@,
            Doc::Number(NumeralView::Unsigned(self.id as u64)),
        ));
        put(&mut out, "description", Document::Text(self.description.clone()));
        put(&mut out, "status", Document::Text(self.status.name().to_owned()));
        put_opt(&mut out, "project", opt_text_document(&self.project, self.carried.project));
        put_opt(&mut out, "start", opt_stamp_document(&self.start));
        put_opt(&mut out, "due", opt_stamp_document(&self.due));
        put_opt(&mut out, "end", opt_stamp_document(&self.end));
        put(&mut out, "entry", crate::export_datetime::serialize(&self.entry));
        put(&mut out, "modified", crate::export_datetime::serialize(&self.modified));
        put_opt(&mut out, "until", opt_stamp_document(&self.until));
        put_opt(&mut out, "mask", opt_text_document(&self.mask, self.carried.mask));
        put_opt(&mut out, "imask", opt_number_document(&self.imask, self.carried.imask));
        put_opt(&mut out, "parent", opt_text_document(&self.parent, self.carried.parent));
        put_opt(&mut out, "recur", opt_text_document(&self.recur, self.carried.recur));
        let tags = if self.tags.len() > 0 || self.carried.tags {
            Some(texts_document(&self.tags))
        } else {
            None
        };
        put_opt(&mut out, "tags", tags);
        put(&mut out, "uuid", Document::Text(self.uuid.clone()));
        put(&mut out, "urgency", Document::Number(self.urgency.duplicate()));
        proof {
            assert forall|i: int| 0 <= i < self.annotations.len() implies (
            #[trigger] self.annotations@[i]).entry.wf() by {
                assert(self@.annotations[i].entry.wf());
            }
        }
        put_opt(
            &mut out,
            "annotations",
            annotations_document(&self.annotations, self.carried.annotations),
        );
        assert(entries_view(out@) == named_entries(self@));
        let mut kept = keep(&self.extra);
        let ghost named = entries_view(out@);
        let ghost rest = entries_view(kept@);
        out.append(&mut kept);
        assert(entries_view(out@) =~= named + rest);
        let r = Document::Record(out);
        proof {
            lemma_view_unfold(r);
            crate::fidelity::lemma_written_once(self@);
        }
        r
    }
}

/// The tasks that a document lists, if it is a list of tasks.
pub open spec fn records_of_doc(doc: Doc) -> Option<Seq<TaskView>> {
    match doc {
        Doc::List(items) => if forall|i: int|
            0 <= i < items.len() ==> record_of_doc(#[trigger] items[i]) is Some {
            Some(Seq::new(items.len(), |i: int| record_of_doc(items[i])->0))
        } else {
            None
        },
        _ => None,
    }
}

/// The tasks that an export lists, if it is one: the bytes are a JSON
/// text, and the text is a list of tasks.
pub open spec fn records_of_bytes(bytes: Seq<u8>) -> Option<Seq<TaskView>> {
    match json_document(bytes) {
        Some(doc) => records_of_doc(doc),
        None => None,
    }
}

/// The record that is handed to the task store for a task, if it can
/// be written.
pub open spec fn bytes_of_record(t: TaskView) -> Option<Seq<u8>> {
    json_bytes(doc_of_record(t))
}

/// A copy of a text that may be missing.
fn copy_opt_text(text: &Option<String>) -> (r: Option<String>)
    ensures
        text_view(r) == text_view(*text),
{
    match text {
        Some(t) => Some(t.clone()),
        None => None,
    }
}

/// A copy of a list of texts.
fn copy_texts(texts: &Vec<String>) -> (r: Vec<String>)
    ensures
        texts_view(r@) == texts_view(texts@),
{
    let mut out: Vec<String> = Vec::new();
    let mut i: usize = 0;
    while i < texts.len()
        invariant
            i <= texts.len(),
            out.len() == i,
            forall|j: int| 0 <= j < i ==> (#[trigger] out@[j])@ == texts@[j]@,
        decreases texts.len() - i,
    {
        out.push(texts[i].clone());
        i += 1;
    }
    assert(texts_view(out@) =~= texts_view(texts@));
    out
}

/// A copy of a list of annotations.
fn copy_annotations(notes: &Vec<Annotation>) -> (r: Vec<Annotation>)
    ensures
        annotations_view(r@) == annotations_view(notes@),
{
    let mut out: Vec<Annotation> = Vec::new();
    let mut i: usize = 0;
    while i < notes.len()
        invariant
            i <= notes.len(),
            out.len() == i,
            forall|j: int| 0 <= j < i ==> (#[trigger] out@[j])@ == notes@[j]@,
        decreases notes.len() - i,
    {
        out.push(notes[i].duplicate());
        i += 1;
    }
    assert(annotations_view(out@) =~= annotations_view(notes@));
    out
}

/// A copy of a list of entries.
fn copy_entries(entries: &Vec<(String, Document)>) -> (r: Vec<(String, Document)>)
    ensures
        entries_view(r@) == entries_view(entries@),
{
    let mut out: Vec<(String, Document)> = Vec::new();
    let mut i: usize = 0;
    while i < entries.len()
        invariant
            i <= entries.len(),
            out.len() == i,
            forall|j: int|
                0 <= j < i ==> (#[trigger] out@[j]).0@ == entries@[j].0@ && out@[j].1@
                    == entries@[j].1@,
        decreases entries.len() - i,
    {
        out.push((entries[i].0.clone(), entries[i].1.duplicate()));
        i += 1;
    }
    assert(entries_view(out@) =~= entries_view(entries@));
    out
}

impl Task {
    /// A copy of the record.
    pub fn duplicate(&self) -> (r: Task)
        ensures
            r@ == self@,
    {
        Task {
            id: self.id,
            description: self.description.clone(),
            status: self.status,
            project: copy_opt_text(&self.project),
            start: self.start,
            due: self.due,
            end: self.end,
            entry: self.entry,
            modified: self.modified,
            until: self.until,
            mask: copy_opt_text(&self.mask),
            imask: match &self.imask {
                Some(n) => Some(n.duplicate()),
                None => None,
            },
            parent: copy_opt_text(&self.parent),
            recur: copy_opt_text(&self.recur),
            tags: copy_texts(&self.tags),
            uuid: self.uuid.clone(),
            urgency: self.urgency.duplicate(),
            annotations: copy_annotations(&self.annotations),
            carried: self.carried,
            extra: copy_entries(&self.extra),
        }
    }

    /// Reads the tasks of a document that lists tasks. One item that
    /// is no task makes the whole list `Error::Format`.
    pub fn list_from_document(doc: &Document) -> (r: Result<Vec<Task>, Error>)
        ensures
            match r {
                Ok(tasks) => records_of_doc(doc@) == Some(tasks_view(tasks@)) && forall|i: int|
                    0 <= i < tasks.len() ==> (#[trigger] tasks@[i]).wf() && tasks@[i]@.settled(),
                Err(e) => e == Error::Format && records_of_doc(doc@) is None,
            },
    {
        proof {
            lemma_view_unfold(*doc);
        }
        let items = match doc {
            Document::List(items) => items,
            _ => {
                return Err(Error::Format);
            },
        };
        let ghost docs = items_view(items@);
        let mut out: Vec<Task> = Vec::new();
        let mut i: usize = 0;
        while i < items.len()
            invariant
                i <= items.len(),
                out.len() == i,
                docs == items_view(items@),
                doc@ == Doc::List(docs),
                forall|j: int| 0 <= j < i ==> record_of_doc(#[trigger] docs[j]) == Some(out@[j]@),
                forall|j: int| 0 <= j < i ==> (#[trigger] out@[j]).wf() && out@[j]@.settled(),
            decreases items.len() - i,
        {
            match Task::from_document(&items[i]) {
                Ok(task) => {
                    out.push(task);
                },
                Err(e) => {
                    assert(record_of_doc(docs[i as int]) is None);
                    return Err(e);
                },
            }
            i += 1;
        }
        proof {
            assert(records_of_doc(doc@) is Some);
            assert(records_of_doc(doc@)->0 =~= tasks_view(out@));
        }
        Ok(out)
    }

    /// Reads the tasks that the export command printed. Bytes that are
    /// no JSON text, or no list of tasks, are `Error::Format`.
    pub fn all_tasks(exported: &[u8]) -> (r: Result<Vec<Task>, Error>)
        ensures
            match r {
                Ok(tasks) => records_of_bytes(exported@) == Some(tasks_view(tasks@))
                    && forall|i: int|
                    0 <= i < tasks.len() ==> (#[trigger] tasks@[i]).wf() && tasks@[i]@.settled(),
                Err(e) => e == Error::Format && records_of_bytes(exported@) is None,
            },
    {
        match read_json(exported) {
            Some(doc) => Task::list_from_document(&doc),
            None => Err(Error::Format),
        }
    }

    /// Reads the task that the export command printed for one number:
    /// the first of the list. An empty list says that the task store
    /// has no such task, `Error::NotFound`; bytes that are no list of
    /// tasks are `Error::Format`.
    pub fn from_id(exported: &[u8]) -> (r: Result<Task, Error>)
        ensures
            match r {
                Ok(task) => records_of_bytes(exported@) matches Some(tasks) && tasks.len() > 0
                    && task@ == tasks[0] && task.wf() && task@.settled(),
                Err(e) => match records_of_bytes(exported@) {
                    Some(tasks) => e == Error::NotFound && tasks.len() == 0,
                    None => e == Error::Format,
                },
            },
    {
        let mut tasks = Task::all_tasks(exported)?;
        if tasks.len() == 0 {
            return Err(Error::NotFound);
        }
        let ghost all = tasks_view(tasks@);
        assert(all[0] == tasks@[0]@);
        Ok(tasks.remove(0))
    }

    /// Reads exactly one task from bytes: the first of the list that
    /// they hold. An empty list is `Error::Format` here, as are bytes
    /// that are no list of tasks.
    pub fn decode_one(bytes: &[u8]) -> (r: Result<Task, Error>)
        ensures
            match r {
                Ok(task) => records_of_bytes(bytes@) matches Some(tasks) && tasks.len() > 0
                    && task@ == tasks[0] && task.wf() && task@.settled(),
                Err(e) => e == Error::Format && !(records_of_bytes(bytes@) matches Some(tasks)
                    && tasks.len() > 0),
            },
    {
        match Task::from_id(bytes) {
            Ok(task) => Ok(task),
            Err(_) => Err(Error::Format),
        }
    }

    /// The command that adds a task with this description. No record
    /// is made here: the task store makes it.
    pub fn create(name: String) -> (call: Call)
        ensures
            call@ == add_call(name@),
    {
        Call::add(name)
    }

    /// The task with `start` set to `now`.
    pub fn started(&self, now: Timestamp) -> (r: Task)
        ensures
            r@ == (TaskView { start: Some(now), ..self@ }),
    {
        let mut r = self.duplicate();
        r.start = Some(now);
        r
    }

    /// The task without a `start`.
    pub fn stopped(&self) -> (r: Task)
        ensures
            r@ == (TaskView { start: None, ..self@ }),
    {
        let mut r = self.duplicate();
        r.start = None;
        r
    }

    /// The task with the status `Completed`.
    pub fn completed(&self) -> (r: Task)
        ensures
            r@ == (TaskView { status: Status::Completed, ..self@ }),
    {
        let mut r = self.duplicate();
        r.status = Status::Completed;
        r
    }

    /// Writes the task as the JSON text of one record.
    /// `Error::Format` says that the record could not be written.
    pub fn encode(&self) -> (r: Result<Vec<u8>, Error>)
        requires
            self.wf(),
        ensures
            match r {
                Ok(bytes) => bytes_of_record(self@) == Some(bytes@),
                Err(e) => e == Error::Format && bytes_of_record(self@) is None,
            },
    {
        let doc = self.to_document();
        match write_json(&doc) {
            Some(bytes) => Ok(bytes),
            None => Err(Error::Format),
        }
    }

    /// The command that hands the whole record back to the task store.
    /// `Error::Format` says that the record could not be written.
    pub fn update(&self) -> (r: Result<Call, Error>)
        requires
            self.wf(),
        ensures
            match r {
                Ok(call) => bytes_of_record(self@) matches Some(bytes) && call@ == import_call(
                    bytes,
                ),
                Err(e) => e == Error::Format && bytes_of_record(self@) is None,
            },
    {
        Ok(Call::import(self.encode()?))
    }

    /// Begins work on the task: the command that hands back the record
    /// with `start` set to `now`, and every other field as it is.
    pub fn start(&self, now: Timestamp) -> (r: Result<Call, Error>)
        requires
            self.wf(),
            now.wf(),
        ensures
            match r {
                Ok(call) => bytes_of_record(TaskView { start: Some(now), ..self@ }) matches Some(
                    bytes,
                ) && call@ == import_call(bytes),
                Err(e) => e == Error::Format && bytes_of_record(
                    TaskView { start: Some(now), ..self@ },
                ) is None,
            },
    {
        self.started(now).update()
    }

    /// Ends work on the task: the command that hands back the record
    /// without `start`, and every other field as it is.
    pub fn stop(&self) -> (r: Result<Call, Error>)
        requires
            self.wf(),
        ensures
            match r {
                Ok(call) => bytes_of_record(TaskView { start: None, ..self@ }) matches Some(bytes)
                    && call@ == import_call(bytes),
                Err(e) => e == Error::Format && bytes_of_record(TaskView { start: None, ..self@ })
                    is None,
            },
    {
        self.stopped().update()
    }

    /// Completes the task: the command that hands back the record with
    /// the status `Completed`, and every other field as it is.
    pub fn done(&self) -> (r: Result<Call, Error>)
        requires
            self.wf(),
        ensures
            match r {
                Ok(call) => bytes_of_record(TaskView { status: Status::Completed, ..self@ })
                    matches Some(bytes) && call@ == import_call(bytes),
                Err(e) => e == Error::Format && bytes_of_record(
                    TaskView { status: Status::Completed, ..self@ },
                ) is None,
            },
    {
        self.completed().update()
    }

    /// The command that opens the task in an editor. The record is not
    /// changed, and the editor is not waited for.
    pub fn edit(&self) -> (call: Call)
        ensures
            call@ == edit_call(self.id),
    {
        Call::edit(self.id)
    }
}

} // verus!
