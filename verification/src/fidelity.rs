//! What a record keeps when it is read and written back.
//!
//! These are statements about the two models `record_of_doc` and
//! `doc_of_record`, which `Task::from_document` and `Task::to_document`
//! compute. They hold of every record that can be read, and of every
//! task that is written.

use vstd::prelude::*;
use crate::document::{has_key, key_set, lemma_lookup_has_key, lookup, Doc, Entries, NumeralView};
use crate::export_datetime::doc_of_stamp;
use crate::fields::{
    opt_number, opt_stamp, opt_text, req_number, req_stamp, req_text, text_list, texts_of,
};
use crate::taskwarrior::{
    all_named, annotation_list, annotation_of, annotations_doc, annotations_of, distinct_keys,
    doc_of_annotation, doc_of_record, entries_of_record, fields_of, fields_ok, id_of, is_named,
    kept, lemma_status_tag, maybe, named_entries, none_named, notes_doc, number_doc, one,
    record_of_doc, stamp_doc, status_of, tags_doc, text_doc, texts_doc, AnnotationView, TaskView,
};
use crate::timestamp::{lemma_format_then_parse, Timestamp};

verus! {

/// A key is borne by two lists of entries, one after the other,
/// exactly if one of them bears it.
pub proof fn lemma_has_key_concat(a: Entries, b: Entries, k: Seq<char>)
    ensures
        has_key(a + b, k) <==> has_key(a, k) || has_key(b, k),
{
    let c = a + b;
    if has_key(c, k) {
        let i = choose|i: int| 0 <= i < c.len() && #[trigger] c[i].0 == k;
        if i < a.len() {
            assert(a[i].0 == k);
        } else {
            assert(b[i - a.len()].0 == k);
        }
    }
    if has_key(a, k) {
        let i = choose|i: int| 0 <= i < a.len() && #[trigger] a[i].0 == k;
        assert(c[i].0 == k);
    }
    if has_key(b, k) {
        let i = choose|i: int| 0 <= i < b.len() && #[trigger] b[i].0 == k;
        assert(c[i + a.len()].0 == k);
    }
}

/// After one more entry, the keys are those before and the new one.
pub proof fn lemma_has_key_one(a: Entries, key: Seq<char>, value: Doc, k: Seq<char>)
    ensures
        has_key(a + one(key, value), k) <==> has_key(a, k) || k == key,
        all_named(a) && is_named(key) ==> all_named(a + one(key, value)),
{
    lemma_has_key_concat(a, one(key, value), k);
    let b = one(key, value);
    assert(b[0].0 == key);
    if has_key(b, k) {
        let i = choose|i: int| 0 <= i < b.len() && #[trigger] b[i].0 == k;
        assert(i == 0);
    }
    if all_named(a) && is_named(key) {
        let c = a + b;
        assert forall|i: int| 0 <= i < c.len() implies is_named(#[trigger] c[i].0) by {
            if i < a.len() {
                assert(c[i] == a[i]);
            } else {
                assert(c[i] == b[0]);
            }
        }
    }
}

/// After an entry that is written only where there is a value, the
/// keys are those before, and the new one where there is a value.
pub proof fn lemma_has_key_maybe(a: Entries, key: Seq<char>, value: Option<Doc>, k: Seq<char>)
    ensures
        has_key(a + maybe(key, value), k) <==> has_key(a, k) || (k == key && value is Some),
        all_named(a) && is_named(key) ==> all_named(a + maybe(key, value)),
{
    match value {
        Some(v) => {
            lemma_has_key_one(a, key, v, k);
            assert(maybe(key, value) == one(key, v));
        },
        None => {
            assert(a + maybe(key, value) =~= a);
        },
    }
}

/// Whether the entry of a known field is written for a task.
pub open spec fn emits(t: TaskView, key: Seq<char>) -> bool {
    ||| key == "id"@
    ||| key == "description"@
    ||| key == "status"@
    ||| key == "project"@ && (t.project is Some || t.carried.project)
    ||| key == "start"@ && t.start is Some
    ||| key == "due"@ && t.due is Some
    ||| key == "end"@ && t.end is Some
    ||| key == "entry"@
    ||| key == "modified"@
    ||| key == "until"@ && t.until is Some
    ||| key == "mask"@ && (t.mask is Some || t.carried.mask)
    ||| key == "imask"@ && (t.imask is Some || t.carried.imask)
    ||| key == "parent"@ && (t.parent is Some || t.carried.parent)
    ||| key == "recur"@ && (t.recur is Some || t.carried.recur)
    ||| key == "tags"@ && (t.tags.len() > 0 || t.carried.tags)
    ||| key == "uuid"@
    ||| key == "urgency"@
    ||| key == "annotations"@ && (t.annotations.len() > 0 || t.carried.annotations)
}

/// The entries written for the known fields bear known keys only, and
/// exactly those that `emits` says.
#[verifier::rlimit(40)]
pub proof fn lemma_named_entries_keys(t: TaskView, k: Seq<char>)
    ensures
        all_named(named_entries(t)),
        has_key(named_entries(t), k) <==> emits(t, k),
{
    let p1 = one("id"@, Doc::Number(NumeralView::Unsigned(t.id as u64)));
    let p0 = Seq::<(Seq<char>, Doc)>::empty();
    assert(p0 + p1 =~= p1);
    lemma_has_key_one(p0, "id"@, p1[0].1, k);
    let p2 = p1 + one("description"@, Doc::Text(t.description));
    lemma_has_key_one(p1, "description"@, Doc::Text(t.description), k);
    let p3 = p2 + one("status"@, Doc::Text(t.status.tag()));
    lemma_has_key_one(p2, "status"@, Doc::Text(t.status.tag()), k);
    let p4 = p3 + maybe("project"@, text_doc(t.project, t.carried.project));
    lemma_has_key_maybe(p3, "project"@, text_doc(t.project, t.carried.project), k);
    let p5 = p4 + maybe("start"@, stamp_doc(t.start));
    lemma_has_key_maybe(p4, "start"@, stamp_doc(t.start), k);
    let p6 = p5 + maybe("due"@, stamp_doc(t.due));
    lemma_has_key_maybe(p5, "due"@, stamp_doc(t.due), k);
    let p7 = p6 + maybe("end"@, stamp_doc(t.end));
    lemma_has_key_maybe(p6, "end"@, stamp_doc(t.end), k);
    let p8 = p7 + one("entry"@, doc_of_stamp(t.entry));
    lemma_has_key_one(p7, "entry"@, doc_of_stamp(t.entry), k);
    let p9 = p8 + one("modified"@, doc_of_stamp(t.modified));
    lemma_has_key_one(p8, "modified"@, doc_of_stamp(t.modified), k);
    let p10 = p9 + maybe("until"@, stamp_doc(t.until));
    lemma_has_key_maybe(p9, "until"@, stamp_doc(t.until), k);
    let p11 = p10 + maybe("mask"@, text_doc(t.mask, t.carried.mask));
    lemma_has_key_maybe(p10, "mask"@, text_doc(t.mask, t.carried.mask), k);
    let p12 = p11 + maybe("imask"@, number_doc(t.imask, t.carried.imask));
    lemma_has_key_maybe(p11, "imask"@, number_doc(t.imask, t.carried.imask), k);
    let p13 = p12 + maybe("parent"@, text_doc(t.parent, t.carried.parent));
    lemma_has_key_maybe(p12, "parent"@, text_doc(t.parent, t.carried.parent), k);
    let p14 = p13 + maybe("recur"@, text_doc(t.recur, t.carried.recur));
    lemma_has_key_maybe(p13, "recur"@, text_doc(t.recur, t.carried.recur), k);
    let p15 = p14 + maybe("tags"@, tags_doc(t.tags, t.carried.tags));
    lemma_has_key_maybe(p14, "tags"@, tags_doc(t.tags, t.carried.tags), k);
    let p16 = p15 + one("uuid"@, Doc::Text(t.uuid));
    lemma_has_key_one(p15, "uuid"@, Doc::Text(t.uuid), k);
    let p17 = p16 + one("urgency"@, Doc::Number(t.urgency));
    lemma_has_key_one(p16, "urgency"@, Doc::Number(t.urgency), k);
    let p18 = p17 + maybe("annotations"@, annotations_doc(t.annotations, t.carried.annotations));
    lemma_has_key_maybe(
        p17,
        "annotations"@,
        annotations_doc(t.annotations, t.carried.annotations),
        k,
    );
    assert(p18 == named_entries(t));
}

/// Whether the entry at `i` is the first of its key.
pub open spec fn first_of_key(e: Entries, i: int) -> bool {
    0 <= i < e.len() && forall|j: int| 0 <= j < i ==> (#[trigger] e[j]).0 != e[i].0
}

/// Among the entries that are kept no key is one of a known field and
/// none occurs twice; a key is among them exactly if it occurred and
/// the library does not know it.
pub proof fn lemma_kept_keys(e: Entries)
    ensures
        none_named(kept(e)),
        distinct_keys(kept(e)),
        forall|k: Seq<char>| has_key(kept(e), k) <==> has_key(e, k) && !is_named(k),
    decreases e.len(),
{
    if e.len() > 0 {
        let front = e.drop_last();
        let last = e.last();
        lemma_kept_keys(front);
        let u = kept(e);
        let uf = kept(front);
        let pushed = !is_named(last.0) && !has_key(front, last.0);
        assert forall|k: Seq<char>| has_key(u, k) <==> has_key(e, k) && !is_named(k) by {
            if has_key(u, k) {
                let i = choose|i: int| 0 <= i < u.len() && #[trigger] u[i].0 == k;
                if i < uf.len() {
                    assert(uf[i].0 == k);
                    assert(has_key(uf, k));
                    let j = choose|j: int| 0 <= j < front.len() && #[trigger] front[j].0 == k;
                    assert(e[j].0 == k);
                } else {
                    assert(e[e.len() - 1].0 == k);
                }
            }
            if has_key(e, k) && !is_named(k) {
                let j = choose|j: int| 0 <= j < e.len() && #[trigger] e[j].0 == k;
                if j < front.len() {
                    assert(front[j].0 == k);
                    assert(has_key(front, k));
                    let i = choose|i: int| 0 <= i < uf.len() && #[trigger] uf[i].0 == k;
                    assert(u[i].0 == k);
                } else {
                    assert(k == last.0);
                    if has_key(front, k) {
                        let i = choose|i: int| 0 <= i < uf.len() && #[trigger] uf[i].0 == k;
                        assert(u[i].0 == k);
                    } else {
                        assert(u[u.len() - 1].0 == k);
                    }
                }
            }
        }
        assert forall|i: int, j: int| 0 <= i < j < u.len() implies (#[trigger] u[i]).0 != (
        #[trigger] u[j]).0 by {
            if j < uf.len() {
                assert(uf[i].0 != uf[j].0);
            } else {
                assert(pushed);
                assert(uf[i].0 == u[i].0);
                if u[i].0 == last.0 {
                    assert(has_key(uf, last.0));
                }
            }
        }
    }
}

/// Each entry that is kept is the first entry of its key.
pub proof fn lemma_kept_first(e: Entries, p: int)
    requires
        0 <= p < kept(e).len(),
    ensures
        exists|i: int| first_of_key(e, i) && #[trigger] e[i] == kept(e)[p],
    decreases e.len(),
{
    if e.len() > 0 {
        let front = e.drop_last();
        let uf = kept(front);
        if p < uf.len() {
            lemma_kept_first(front, p);
            let i = choose|i: int| first_of_key(front, i) && #[trigger] front[i] == uf[p];
            assert forall|j: int| 0 <= j < i implies (#[trigger] e[j]).0 != e[i].0 by {
                assert(front[j].0 != front[i].0);
            }
            assert(first_of_key(e, i) && e[i] == kept(e)[p]);
        } else {
            let i = e.len() - 1;
            assert forall|j: int| 0 <= j < i implies (#[trigger] e[j]).0 != e[i].0 by {
                if e[j].0 == e[i].0 {
                    assert(front[j].0 == e.last().0);
                }
            }
            assert(first_of_key(e, i) && e[i] == kept(e)[p]);
        }
    }
}

/// Entries without a known key and without a key twice are all kept.
pub proof fn lemma_kept_settled(e: Entries)
    requires
        none_named(e),
        distinct_keys(e),
    ensures
        kept(e) == e,
    decreases e.len(),
{
    if e.len() > 0 {
        let front = e.drop_last();
        assert(!is_named(e[e.len() - 1].0));
        assert forall|i: int| 0 <= i < front.len() implies !is_named(#[trigger] front[i].0) by {
            assert(front[i] == e[i]);
        }
        assert forall|i: int, j: int| 0 <= i < j < front.len() implies (#[trigger] front[i]).0 != (
        #[trigger] front[j]).0 by {
            assert(front[i] == e[i] && front[j] == e[j]);
        }
        if has_key(front, e.last().0) {
            let i = choose|i: int| 0 <= i < front.len() && #[trigger] front[i].0 == e.last().0;
            assert(e[i].0 == e[e.len() - 1].0);
        }
        lemma_kept_settled(front);
        assert(front.push(e.last()) =~= e);
    }
}

/// Of entries whose keys the library all knows, none is kept.
pub proof fn lemma_kept_of_named(e: Entries)
    requires
        all_named(e),
    ensures
        kept(e) == Seq::<(Seq<char>, Doc)>::empty(),
    decreases e.len(),
{
    if e.len() > 0 {
        assert(is_named(e[e.len() - 1].0));
        assert forall|i: int| 0 <= i < e.drop_last().len() implies is_named(
            #[trigger] e.drop_last()[i].0,
        ) by {
            assert(e.drop_last()[i] == e[i]);
        }
        lemma_kept_of_named(e.drop_last());
    } else {
        assert(e =~= Seq::<(Seq<char>, Doc)>::empty());
    }
}

/// Behind entries whose keys the library all knows, the same entries
/// are kept as without them.
pub proof fn lemma_kept_after_named(a: Entries, b: Entries)
    requires
        all_named(a),
    ensures
        kept(a + b) == kept(b),
    decreases b.len(),
{
    if b.len() == 0 {
        assert(a + b =~= a);
        lemma_kept_of_named(a);
        assert(kept(b) =~= Seq::<(Seq<char>, Doc)>::empty());
    } else {
        let front = b.drop_last();
        let last = b.last();
        lemma_kept_after_named(a, front);
        assert((a + b).drop_last() =~= a + front);
        assert((a + b).last() == last);
        lemma_has_key_concat(a, front, last.0);
        if has_key(a, last.0) {
            let i = choose|i: int| 0 <= i < a.len() && #[trigger] a[i].0 == last.0;
            assert(is_named(a[i].0));
        }
    }
}

/// Looking a key up finds the first entry that has it.
pub proof fn lemma_lookup_first(e: Entries, i: int)
    requires
        first_of_key(e, i),
    ensures
        lookup(e, e[i].0) == Some(e[i].1),
    decreases i,
{
    if i > 0 {
        assert(e[0].0 != e[i].0);
        let rest = e.skip(1);
        assert(rest[i - 1] == e[i]);
        assert forall|j: int| 0 <= j < i - 1 implies (#[trigger] rest[j]).0 != rest[i - 1].0 by {
            assert(rest[j] == e[j + 1]);
        }
        lemma_lookup_first(rest, i - 1);
    }
}

/// Under a key that the library does not know, the entries that are
/// kept hold what the entries held.
pub proof fn lemma_kept_lookup(e: Entries, k: Seq<char>)
    requires
        !is_named(k),
    ensures
        lookup(kept(e), k) == lookup(e, k),
{
    lemma_kept_keys(e);
    lemma_lookup_has_key(e, k);
    lemma_lookup_has_key(kept(e), k);
    if has_key(e, k) {
        let u = kept(e);
        let p = choose|p: int| 0 <= p < u.len() && #[trigger] u[p].0 == k;
        lemma_kept_first(e, p);
        let i = choose|i: int| first_of_key(e, i) && #[trigger] e[i] == u[p];
        lemma_lookup_first(e, i);
        assert(first_of_key(u, p));
        lemma_lookup_first(u, p);
    }
}

/// The length and the first character of each key that the library
/// knows. No two keys agree in both, so the keys differ.
pub proof fn lemma_known_keys()
    ensures
        "id"@.len() == 2,
        "description"@.len() == 11 && "description"@[0] == 'd',
        "status"@.len() == 6 && "status"@[0] == 's',
        "project"@.len() == 7 && "project"@[0] == 'p',
        "start"@.len() == 5 && "start"@[0] == 's',
        "due"@.len() == 3 && "due"@[0] == 'd',
        "end"@.len() == 3 && "end"@[0] == 'e',
        "entry"@.len() == 5 && "entry"@[0] == 'e',
        "modified"@.len() == 8,
        "until"@.len() == 5 && "until"@[0] == 'u',
        "mask"@.len() == 4 && "mask"@[0] == 'm',
        "imask"@.len() == 5 && "imask"@[0] == 'i',
        "parent"@.len() == 6 && "parent"@[0] == 'p',
        "recur"@.len() == 5 && "recur"@[0] == 'r',
        "tags"@.len() == 4 && "tags"@[0] == 't',
        "uuid"@.len() == 4 && "uuid"@[0] == 'u',
        "urgency"@.len() == 7 && "urgency"@[0] == 'u',
        "annotations"@.len() == 11 && "annotations"@[0] == 'a',
{
    reveal_strlit("id");
    reveal_strlit("description");
    reveal_strlit("status");
    reveal_strlit("project");
    reveal_strlit("start");
    reveal_strlit("due");
    reveal_strlit("end");
    reveal_strlit("entry");
    reveal_strlit("modified");
    reveal_strlit("until");
    reveal_strlit("mask");
    reveal_strlit("imask");
    reveal_strlit("parent");
    reveal_strlit("recur");
    reveal_strlit("tags");
    reveal_strlit("uuid");
    reveal_strlit("urgency");
    reveal_strlit("annotations");
}

/// Looking a key up in two lists of entries, one after the other,
/// finds what the first holds under it, else what the second holds.
pub proof fn lemma_lookup_concat(a: Entries, b: Entries, k: Seq<char>)
    ensures
        lookup(a + b, k) == if lookup(a, k) is Some {
            lookup(a, k)
        } else {
            lookup(b, k)
        },
    decreases a.len(),
{
    if a.len() == 0 {
        assert(a + b =~= b);
    } else {
        assert((a + b)[0] == a[0]);
        assert((a + b).skip(1) =~= a.skip(1) + b);
        lemma_lookup_concat(a.skip(1), b, k);
    }
}

/// Looking a key up behind one more entry.
pub proof fn lemma_lookup_one(a: Entries, key: Seq<char>, value: Doc, k: Seq<char>)
    ensures
        lookup(a + one(key, value), k) == if lookup(a, k) is Some {
            lookup(a, k)
        } else if k == key {
            Some(value)
        } else {
            None
        },
{
    lemma_lookup_concat(a, one(key, value), k);
    let b = one(key, value);
    assert(b[0] == (key, value));
    assert(lookup(b.skip(1), k) is None);
}

/// Looking a key up behind an entry that is written only where there
/// is a value.
pub proof fn lemma_lookup_maybe(a: Entries, key: Seq<char>, value: Option<Doc>, k: Seq<char>)
    ensures
        lookup(a + maybe(key, value), k) == if lookup(a, k) is Some {
            lookup(a, k)
        } else if k == key {
            value
        } else {
            None
        },
{
    match value {
        Some(v) => {
            lemma_lookup_one(a, key, v, k);
            assert(maybe(key, value) == one(key, v));
        },
        None => {
            assert(a + maybe(key, value) =~= a);
        },
    }
}

/// What is written for a task under the key of a known field, if
/// anything is.
pub open spec fn written(t: TaskView, k: Seq<char>) -> Option<Doc> {
    if k == "id"@ {
        Some(Doc::Number(NumeralView::Unsigned(t.id as u64)))
    } else if k == "description"@ {
        Some(Doc::Text(t.description))
    } else if k == "status"@ {
        Some(Doc::Text(t.status.tag()))
    } else if k == "project"@ {
        text_doc(t.project, t.carried.project)
    } else if k == "start"@ {
        stamp_doc(t.start)
    } else if k == "due"@ {
        stamp_doc(t.due)
    } else if k == "end"@ {
        stamp_doc(t.end)
    } else if k == "entry"@ {
        Some(doc_of_stamp(t.entry))
    } else if k == "modified"@ {
        Some(doc_of_stamp(t.modified))
    } else if k == "until"@ {
        stamp_doc(t.until)
    } else if k == "mask"@ {
        text_doc(t.mask, t.carried.mask)
    } else if k == "imask"@ {
        number_doc(t.imask, t.carried.imask)
    } else if k == "parent"@ {
        text_doc(t.parent, t.carried.parent)
    } else if k == "recur"@ {
        text_doc(t.recur, t.carried.recur)
    } else if k == "tags"@ {
        tags_doc(t.tags, t.carried.tags)
    } else if k == "uuid"@ {
        Some(Doc::Text(t.uuid))
    } else if k == "urgency"@ {
        Some(Doc::Number(t.urgency))
    } else if k == "annotations"@ {
        annotations_doc(t.annotations, t.carried.annotations)
    } else {
        None
    }
}

/// Under the key of a known field, the record that is written for a
/// task holds what `written` says, whatever the entries that are only
/// kept hold: a known field wins over a kept entry of its name.
#[verifier::rlimit(40)]
pub proof fn lemma_lookup_written(t: TaskView, k: Seq<char>)
    requires
        is_named(k),
    ensures
        lookup(entries_of_record(t), k) == written(t, k),
{
    lemma_known_keys();
    let p0 = Seq::<(Seq<char>, Doc)>::empty();
    let p1 = one("id"@, Doc::Number(NumeralView::Unsigned(t.id as u64)));
    assert(p0 + p1 =~= p1);
    lemma_lookup_one(p0, "id"@, p1[0].1, k);
    let p2 = p1 + one("description"@, Doc::Text(t.description));
    lemma_lookup_one(p1, "description"@, Doc::Text(t.description), k);
    let p3 = p2 + one("status"@, Doc::Text(t.status.tag()));
    lemma_lookup_one(p2, "status"@, Doc::Text(t.status.tag()), k);
    let p4 = p3 + maybe("project"@, text_doc(t.project, t.carried.project));
    lemma_lookup_maybe(p3, "project"@, text_doc(t.project, t.carried.project), k);
    let p5 = p4 + maybe("start"@, stamp_doc(t.start));
    lemma_lookup_maybe(p4, "start"@, stamp_doc(t.start), k);
    let p6 = p5 + maybe("due"@, stamp_doc(t.due));
    lemma_lookup_maybe(p5, "due"@, stamp_doc(t.due), k);
    let p7 = p6 + maybe("end"@, stamp_doc(t.end));
    lemma_lookup_maybe(p6, "end"@, stamp_doc(t.end), k);
    let p8 = p7 + one("entry"@, doc_of_stamp(t.entry));
    lemma_lookup_one(p7, "entry"@, doc_of_stamp(t.entry), k);
    let p9 = p8 + one("modified"@, doc_of_stamp(t.modified));
    lemma_lookup_one(p8, "modified"@, doc_of_stamp(t.modified), k);
    let p10 = p9 + maybe("until"@, stamp_doc(t.until));
    lemma_lookup_maybe(p9, "until"@, stamp_doc(t.until), k);
    let p11 = p10 + maybe("mask"@, text_doc(t.mask, t.carried.mask));
    lemma_lookup_maybe(p10, "mask"@, text_doc(t.mask, t.carried.mask), k);
    let p12 = p11 + maybe("imask"@, number_doc(t.imask, t.carried.imask));
    lemma_lookup_maybe(p11, "imask"@, number_doc(t.imask, t.carried.imask), k);
    let p13 = p12 + maybe("parent"@, text_doc(t.parent, t.carried.parent));
    lemma_lookup_maybe(p12, "parent"@, text_doc(t.parent, t.carried.parent), k);
    let p14 = p13 + maybe("recur"@, text_doc(t.recur, t.carried.recur));
    lemma_lookup_maybe(p13, "recur"@, text_doc(t.recur, t.carried.recur), k);
    let p15 = p14 + maybe("tags"@, tags_doc(t.tags, t.carried.tags));
    lemma_lookup_maybe(p14, "tags"@, tags_doc(t.tags, t.carried.tags), k);
    let p16 = p15 + one("uuid"@, Doc::Text(t.uuid));
    lemma_lookup_one(p15, "uuid"@, Doc::Text(t.uuid), k);
    let p17 = p16 + one("urgency"@, Doc::Number(t.urgency));
    lemma_lookup_one(p16, "urgency"@, Doc::Number(t.urgency), k);
    let p18 = p17 + maybe("annotations"@, annotations_doc(t.annotations, t.carried.annotations));
    lemma_lookup_maybe(
        p17,
        "annotations"@,
        annotations_doc(t.annotations, t.carried.annotations),
        k,
    );
    assert(p18 == named_entries(t));
    assert(lookup(p18, k) == written(t, k));
    lemma_lookup_concat(p18, kept(t.extra), k);
    lemma_kept_keys(t.extra);
    lemma_lookup_has_key(kept(t.extra), k);
}

/// Under a key that the library does not know, the record that is
/// written for a task holds what the task keeps under it.
pub proof fn lemma_lookup_kept(t: TaskView, k: Seq<char>)
    requires
        !is_named(k),
    ensures
        lookup(entries_of_record(t), k) == lookup(t.extra, k),
{
    lemma_named_entries_keys(t, k);
    lemma_lookup_has_key(named_entries(t), k);
    lemma_lookup_concat(named_entries(t), kept(t.extra), k);
    lemma_kept_lookup(t.extra, k);
}

/// A record that is read and written back holds under every key that
/// the library gives no meaning to what it held before.
pub proof fn lemma_unknown_values_kept(e: Entries, k: Seq<char>)
    requires
        fields_ok(e),
        !is_named(k),
    ensures
        lookup(entries_of_record(fields_of(e)), k) == lookup(e, k),
{
    let t = fields_of(e);
    lemma_lookup_kept(t, k);
    lemma_kept_lookup(e, k);
}

/// A record that is read and written back keeps the entries that the
/// library gives no meaning to: the first of each key, with what it
/// holds, in their order.
pub proof fn lemma_unknown_entries_kept(e: Entries)
    requires
        fields_ok(e),
    ensures
        kept(entries_of_record(fields_of(e))) == kept(e),
{
    let t = fields_of(e);
    lemma_kept_keys(e);
    lemma_kept_settled(kept(e));
    lemma_named_entries_keys(t, Seq::empty());
    lemma_kept_after_named(named_entries(t), kept(t.extra));
}

/// The first entry of a key that the library does not know is kept.
pub proof fn lemma_kept_holds(e: Entries, i: int)
    requires
        first_of_key(e, i),
        !is_named(e[i].0),
    ensures
        kept(e).contains(e[i]),
    decreases e.len(),
{
    let front = e.drop_last();
    if i < e.len() - 1 {
        assert(front[i] == e[i]);
        assert forall|j: int| 0 <= j < i implies (#[trigger] front[j]).0 != front[i].0 by {
            assert(front[j] == e[j]);
        }
        lemma_kept_holds(front, i);
        let p = choose|p: int| 0 <= p < kept(front).len() && kept(front)[p] == e[i];
        assert(kept(e)[p] == e[i]);
    } else {
        if has_key(front, e.last().0) {
            let j = choose|j: int| 0 <= j < front.len() && #[trigger] front[j].0 == e.last().0;
            assert(e[j].0 == e[i].0);
        }
        assert(kept(e)[kept(e).len() - 1] == e[i]);
    }
}

/// Whether no timestamp that may be missing is there as null. Such a
/// one is left out when the record is written, as the task store
/// leaves out what it has no time for.
pub open spec fn no_null_stamp(e: Entries) -> bool {
    &&& lookup(e, "start"@) != Some(Doc::Null)
    &&& lookup(e, "due"@) != Some(Doc::Null)
    &&& lookup(e, "end"@) != Some(Doc::Null)
    &&& lookup(e, "until"@) != Some(Doc::Null)
}

/// For a record that can be read and has no null timestamp, a known
/// field is written back exactly if the record had it.
pub proof fn lemma_named_keys_kept(e: Entries, k: Seq<char>)
    requires
        fields_ok(e),
        no_null_stamp(e),
        is_named(k),
    ensures
        emits(fields_of(e), k) <==> has_key(e, k),
{
    lemma_known_keys();
    lemma_lookup_has_key(e, k);
}

/// A record that is read and written back has the keys it was read
/// with, unless it held null for a timestamp.
pub proof fn lemma_key_set_kept(e: Entries)
    requires
        fields_ok(e),
        no_null_stamp(e),
    ensures
        key_set(entries_of_record(fields_of(e))) == key_set(e),
{
    let t = fields_of(e);
    let out = entries_of_record(t);
    assert forall|k: Seq<char>| has_key(out, k) <==> has_key(e, k) by {
        lemma_has_key_concat(named_entries(t), kept(t.extra), k);
        lemma_named_entries_keys(t, k);
        lemma_kept_keys(e);
        lemma_kept_keys(kept(e));
        if is_named(k) {
            lemma_named_keys_kept(e, k);
        } else {
            assert(!emits(t, k));
        }
    }
    assert(key_set(out) =~= key_set(e));
}

/// A task that is read from a record is settled.
pub proof fn lemma_read_is_settled(e: Entries)
    requires
        fields_ok(e),
    ensures
        fields_of(e).settled(),
{
    lemma_kept_keys(e);
    let t = fields_of(e);
    if t.tags.len() > 0 {
        assert(lookup(e, "tags"@) is Some);
    }
    if t.annotations.len() > 0 {
        assert(lookup(e, "annotations"@) is Some);
    }
}

/// The place of a known key among the entries that are written, and
/// one place behind them for any other key.
pub open spec fn slot(k: Seq<char>) -> int {
    if k == "id"@ {
        0
    } else if k == "description"@ {
        1
    } else if k == "status"@ {
        2
    } else if k == "project"@ {
        3
    } else if k == "start"@ {
        4
    } else if k == "due"@ {
        5
    } else if k == "end"@ {
        6
    } else if k == "entry"@ {
        7
    } else if k == "modified"@ {
        8
    } else if k == "until"@ {
        9
    } else if k == "mask"@ {
        10
    } else if k == "imask"@ {
        11
    } else if k == "parent"@ {
        12
    } else if k == "recur"@ {
        13
    } else if k == "tags"@ {
        14
    } else if k == "uuid"@ {
        15
    } else if k == "urgency"@ {
        16
    } else if k == "annotations"@ {
        17
    } else {
        18
    }
}

/// Whether the keys stand in the order of their places, each place
/// below `bound`.
pub open spec fn ascending(e: Entries, bound: int) -> bool {
    &&& forall|i: int| 0 <= i < e.len() ==> slot((#[trigger] e[i]).0) < bound
    &&& forall|i: int, j: int|
        0 <= i < j < e.len() ==> slot((#[trigger] e[i]).0) < slot((#[trigger] e[j]).0)
}

/// Behind keys of lower places, one more key of the next place, or
/// none, keeps the order.
pub proof fn lemma_ascending_maybe(
    p: Entries,
    key: Seq<char>,
    value: Option<Doc>,
    place: int,
)
    requires
        ascending(p, place),
        slot(key) == place,
    ensures
        ascending(p + maybe(key, value), place + 1),
{
    let q = p + maybe(key, value);
    assert forall|i: int| 0 <= i < q.len() implies slot((#[trigger] q[i]).0) < place + 1 by {
        if i < p.len() {
            assert(q[i] == p[i]);
        }
    }
    assert forall|i: int, j: int| 0 <= i < j < q.len() implies slot((#[trigger] q[i]).0) < slot(
        (#[trigger] q[j]).0,
    ) by {
        assert(q[i] == p[i]);
        if j < p.len() {
            assert(q[j] == p[j]);
        }
    }
}

/// The entries that are written for the known fields stand in the
/// order of their places.
#[verifier::rlimit(40)]
pub proof fn lemma_named_ascending(t: TaskView)
    ensures
        ascending(named_entries(t), 18),
{
    lemma_known_keys();
    let p0 = Seq::<(Seq<char>, Doc)>::empty();
    let id = Doc::Number(NumeralView::Unsigned(t.id as u64));
    let p1 = one("id"@, id);
    assert(p0 + maybe("id"@, Some(id)) =~= p1);
    lemma_ascending_maybe(p0, "id"@, Some(id), 0);
    let p2 = p1 + one("description"@, Doc::Text(t.description));
    lemma_ascending_maybe(p1, "description"@, Some(Doc::Text(t.description)), 1);
    let p3 = p2 + one("status"@, Doc::Text(t.status.tag()));
    lemma_ascending_maybe(p2, "status"@, Some(Doc::Text(t.status.tag())), 2);
    let p4 = p3 + maybe("project"@, text_doc(t.project, t.carried.project));
    lemma_ascending_maybe(p3, "project"@, text_doc(t.project, t.carried.project), 3);
    let p5 = p4 + maybe("start"@, stamp_doc(t.start));
    lemma_ascending_maybe(p4, "start"@, stamp_doc(t.start), 4);
    let p6 = p5 + maybe("due"@, stamp_doc(t.due));
    lemma_ascending_maybe(p5, "due"@, stamp_doc(t.due), 5);
    let p7 = p6 + maybe("end"@, stamp_doc(t.end));
    lemma_ascending_maybe(p6, "end"@, stamp_doc(t.end), 6);
    let p8 = p7 + one("entry"@, doc_of_stamp(t.entry));
    lemma_ascending_maybe(p7, "entry"@, Some(doc_of_stamp(t.entry)), 7);
    let p9 = p8 + one("modified"@, doc_of_stamp(t.modified));
    lemma_ascending_maybe(p8, "modified"@, Some(doc_of_stamp(t.modified)), 8);
    let p10 = p9 + maybe("until"@, stamp_doc(t.until));
    lemma_ascending_maybe(p9, "until"@, stamp_doc(t.until), 9);
    let p11 = p10 + maybe("mask"@, text_doc(t.mask, t.carried.mask));
    lemma_ascending_maybe(p10, "mask"@, text_doc(t.mask, t.carried.mask), 10);
    let p12 = p11 + maybe("imask"@, number_doc(t.imask, t.carried.imask));
    lemma_ascending_maybe(p11, "imask"@, number_doc(t.imask, t.carried.imask), 11);
    let p13 = p12 + maybe("parent"@, text_doc(t.parent, t.carried.parent));
    lemma_ascending_maybe(p12, "parent"@, text_doc(t.parent, t.carried.parent), 12);
    let p14 = p13 + maybe("recur"@, text_doc(t.recur, t.carried.recur));
    lemma_ascending_maybe(p13, "recur"@, text_doc(t.recur, t.carried.recur), 13);
    let p15 = p14 + maybe("tags"@, tags_doc(t.tags, t.carried.tags));
    lemma_ascending_maybe(p14, "tags"@, tags_doc(t.tags, t.carried.tags), 14);
    let p16 = p15 + one("uuid"@, Doc::Text(t.uuid));
    lemma_ascending_maybe(p15, "uuid"@, Some(Doc::Text(t.uuid)), 15);
    let p17 = p16 + one("urgency"@, Doc::Number(t.urgency));
    lemma_ascending_maybe(p16, "urgency"@, Some(Doc::Number(t.urgency)), 16);
    let p18 = p17 + maybe("annotations"@, annotations_doc(t.annotations, t.carried.annotations));
    lemma_ascending_maybe(
        p17,
        "annotations"@,
        annotations_doc(t.annotations, t.carried.annotations),
        17,
    );
    assert(p18 == named_entries(t));
}

/// In the record that is written for a task each key occurs once,
/// whatever the task keeps beside its known fields.
pub proof fn lemma_written_once(t: TaskView)
    ensures
        distinct_keys(entries_of_record(t)),
{
    let a = named_entries(t);
    let b = kept(t.extra);
    let out = a + b;
    lemma_named_ascending(t);
    lemma_named_entries_keys(t, Seq::empty());
    lemma_kept_keys(t.extra);
    assert forall|i: int, j: int| 0 <= i < j < out.len() implies (#[trigger] out[i]).0 != (
    #[trigger] out[j]).0 by {
        if j < a.len() {
            assert(out[i] == a[i] && out[j] == a[j]);
            assert(slot(a[i].0) < slot(a[j].0));
        } else if i < a.len() {
            assert(out[i] == a[i] && out[j] == b[j - a.len()]);
            assert(is_named(a[i].0));
            assert(!is_named(b[j - a.len()].0));
        } else {
            assert(out[i] == b[i - a.len()] && out[j] == b[j - a.len()]);
        }
    }
}

/// An annotation is read back from the document it was written to.
pub proof fn lemma_annotation_read_back(a: AnnotationView)
    requires
        a.entry.wf(),
    ensures
        annotation_of(doc_of_annotation(a)) == Some(a),
{
    lemma_known_keys();
    let first = one("entry"@, doc_of_stamp(a.entry));
    let e = first + one("description"@, Doc::Text(a.description));
    assert(e =~= doc_of_annotation(a)->Record_0);
    let p0 = Seq::<(Seq<char>, Doc)>::empty();
    assert(p0 + first =~= first);
    lemma_lookup_one(p0, "entry"@, doc_of_stamp(a.entry), "entry"@);
    lemma_lookup_one(p0, "entry"@, doc_of_stamp(a.entry), "description"@);
    lemma_lookup_one(first, "description"@, Doc::Text(a.description), "entry"@);
    lemma_lookup_one(first, "description"@, Doc::Text(a.description), "description"@);
    lemma_format_then_parse(a.entry);
}

/// A timestamp that may be missing is read back from what is written
/// for it.
pub proof fn lemma_stamp_read_back(t: Option<Timestamp>)
    requires
        t matches Some(stamp) ==> stamp.wf(),
    ensures
        match stamp_doc(t) {
            None => t is None,
            Some(doc) => crate::opt_export_datetime::opt_stamp_of_doc(doc) == Some(t),
        },
{
    if let Some(stamp) = t {
        lemma_format_then_parse(stamp);
    }
}

/// The texts of a task are read back from the record that is written
/// for it.
pub proof fn lemma_texts_read_back(t: TaskView)
    ensures
        req_text(entries_of_record(t), "description"@) == Some(t.description),
        req_text(entries_of_record(t), "uuid"@) == Some(t.uuid),
        opt_text(entries_of_record(t), "project"@) == Some(t.project),
        opt_text(entries_of_record(t), "mask"@) == Some(t.mask),
        opt_text(entries_of_record(t), "parent"@) == Some(t.parent),
        opt_text(entries_of_record(t), "recur"@) == Some(t.recur),
{
    lemma_known_keys();
    lemma_lookup_written(t, "description"@);
    lemma_lookup_written(t, "uuid"@);
    lemma_lookup_written(t, "project"@);
    lemma_lookup_written(t, "mask"@);
    lemma_lookup_written(t, "parent"@);
    lemma_lookup_written(t, "recur"@);
}

/// The number, the status and the numbers of a task are read back from
/// the record that is written for it.
pub proof fn lemma_numbers_read_back(t: TaskView)
    ensures
        id_of(entries_of_record(t)) == Some(t.id),
        status_of(entries_of_record(t)) == Some(t.status),
        opt_number(entries_of_record(t), "imask"@) == Some(t.imask),
        req_number(entries_of_record(t), "urgency"@) == Some(t.urgency),
{
    lemma_known_keys();
    lemma_status_tag(t.status);
    lemma_lookup_written(t, "id"@);
    lemma_lookup_written(t, "status"@);
    lemma_lookup_written(t, "imask"@);
    lemma_lookup_written(t, "urgency"@);
}

/// The timestamps of a task are read back from the record that is
/// written for it.
pub proof fn lemma_stamps_read_back(t: TaskView)
    requires
        t.wf(),
    ensures
        opt_stamp(entries_of_record(t), "start"@) == Some(t.start),
        opt_stamp(entries_of_record(t), "due"@) == Some(t.due),
        opt_stamp(entries_of_record(t), "end"@) == Some(t.end),
        opt_stamp(entries_of_record(t), "until"@) == Some(t.until),
        req_stamp(entries_of_record(t), "entry"@) == Some(t.entry),
        req_stamp(entries_of_record(t), "modified"@) == Some(t.modified),
{
    lemma_known_keys();
    lemma_stamp_read_back(t.start);
    lemma_stamp_read_back(t.due);
    lemma_stamp_read_back(t.end);
    lemma_stamp_read_back(t.until);
    lemma_format_then_parse(t.entry);
    lemma_format_then_parse(t.modified);
    lemma_lookup_written(t, "start"@);
    lemma_lookup_written(t, "due"@);
    lemma_lookup_written(t, "end"@);
    lemma_lookup_written(t, "until"@);
    lemma_lookup_written(t, "entry"@);
    lemma_lookup_written(t, "modified"@);
}

/// The tags and the annotations of a task are read back from the
/// record that is written for it.
pub proof fn lemma_lists_read_back(t: TaskView)
    requires
        t.wf(),
    ensures
        text_list(entries_of_record(t), "tags"@) == Some(t.tags),
        annotation_list(entries_of_record(t)) == Some(t.annotations),
{
    lemma_known_keys();
    lemma_lookup_written(t, "tags"@);
    lemma_lookup_written(t, "annotations"@);
    let e = entries_of_record(t);
    assert(text_list(e, "tags"@) == Some(t.tags)) by {
        if tags_doc(t.tags, t.carried.tags) is Some {
            let items = texts_doc(t.tags)->List_0;
            assert(texts_of(items) is Some);
            assert(texts_of(items)->0 =~= t.tags);
        } else {
            assert(t.tags =~= Seq::<Seq<char>>::empty());
        }
    }
    assert(annotation_list(e) == Some(t.annotations)) by {
        if annotations_doc(t.annotations, t.carried.annotations) is Some {
            let items = notes_doc(t.annotations)->List_0;
            assert forall|i: int| 0 <= i < items.len() implies annotation_of(
                #[trigger] items[i],
            ) == Some(t.annotations[i]) by {
                lemma_annotation_read_back(t.annotations[i]);
            }
            assert(annotations_of(items) is Some);
            assert(annotations_of(items)->0 =~= t.annotations);
        } else {
            assert(t.annotations =~= Seq::<AnnotationView>::empty());
        }
    }
}

/// A settled task is read back from the record that is written for
/// it, provided its timestamps are dates and times.
pub proof fn lemma_record_read_back(t: TaskView)
    requires
        t.wf(),
        t.settled(),
    ensures
        record_of_doc(doc_of_record(t)) == Some(t),
{
    let e = entries_of_record(t);
    lemma_texts_read_back(t);
    lemma_numbers_read_back(t);
    lemma_stamps_read_back(t);
    lemma_lists_read_back(t);
    lemma_known_keys();
    lemma_lookup_written(t, "project"@);
    lemma_lookup_written(t, "mask"@);
    lemma_lookup_written(t, "imask"@);
    lemma_lookup_written(t, "parent"@);
    lemma_lookup_written(t, "recur"@);
    lemma_lookup_written(t, "tags"@);
    lemma_lookup_written(t, "annotations"@);
    assert(crate::taskwarrior::carried_of(e) == t.carried);
    lemma_named_entries_keys(t, Seq::empty());
    lemma_kept_settled(t.extra);
    lemma_kept_after_named(named_entries(t), kept(t.extra));
    assert(kept(e) == t.extra);
    assert(fields_ok(e));
    assert(fields_of(e) == t);
}

} // verus!
