//! The menus that the launcher shows, and the step that an invocation
//! leads to.
//!
//! The first menu lists the pending tasks, highest score first, each
//! row carrying the token that picks its task. Picking a task shows its
//! operations, each row carrying the token of one operation on it.

use vstd::prelude::*;
use crate::command::{add_call, edit_call, export_call, Call, CallView};
use crate::error::Error;
use crate::rofi::{info_prefix, info_string, text_of_token, Invocation, InvocationView, Retv, RetvView};
use crate::table::{format_columns, table_text, Line, Sheet};
use crate::taskwarrior::{bytes_of_record, records_of_bytes, tasks_view, Status, Task, TaskView};
use crate::text::texts_view;
use crate::timestamp::Timestamp;
use crate::token::{Info, InfoView};
use crate::urgency::score;

verus! {

/// The heading that says that a key has no operation.
pub open spec fn no_key_heading() -> Seq<char> {
    "No binding for that key"@
}

/// The row format of the menu of operations: the key, the operation,
/// and after a null byte the row's metadata.
pub open spec fn options_format() -> Seq<char> {
    "{:>} {:<}\0{:<}"@
}

/// Adds the heading that says that a key has no operation.
pub fn warn_no_key(table: &mut Sheet)
    ensures
        final(table).format() == old(table).format(),
        final(table).lines() == old(table).lines().push(Line::Heading(no_key_heading())),
{
    table.add_heading("No binding for that key");
}

/// The row of one operation: its key, its name, and the metadata that
/// carries its token.
pub open spec fn option_line(key: Seq<char>, name: Seq<char>, info: InfoView) -> Option<Line> {
    match text_of_token(info) {
        Some(text) => Some(Line::Cells(seq![key, name, info_prefix() + text])),
        None => None,
    }
}

/// The four rows of the menu of operations on a task.
pub open spec fn option_lines(id: u16) -> Option<Seq<Line>> {
    if option_line("Alt-1"@, "Start"@, InfoView::Start(id)) is Some && option_line(
        "Alt-2"@,
        "Stop"@,
        InfoView::Stop(id),
    ) is Some && option_line("Alt-3"@, "Done"@, InfoView::Done(id)) is Some && option_line(
        "Alt-4"@,
        "Edit"@,
        InfoView::Edit(id),
    ) is Some {
        Some(
            seq![
                option_line("Alt-1"@, "Start"@, InfoView::Start(id))->0,
                option_line("Alt-2"@, "Stop"@, InfoView::Stop(id))->0,
                option_line("Alt-3"@, "Done"@, InfoView::Done(id))->0,
                option_line("Alt-4"@, "Edit"@, InfoView::Edit(id))->0,
            ],
        )
    } else {
        None
    }
}

/// The menu of operations on a task, as text, or why there is none:
/// `Error::InvalidInput` where one of the four tokens cannot be
/// written, `Error::Format` where the table does not take the row
/// format with three columns.
pub open spec fn options_text(id: u16) -> Result<Seq<char>, Error> {
    match option_lines(id) {
        None => Err(Error::InvalidInput),
        Some(lines) => if format_columns(options_format()) == Some(3nat) {
            Ok(table_text(options_format(), lines))
        } else {
            Err(Error::Format)
        },
    }
}

/// The characters of a text that was returned, or the error.
pub open spec fn result_text(r: Result<String, Error>) -> Result<Seq<char>, Error> {
    match r {
        Ok(text) => Ok(text@),
        Err(e) => Err(e),
    }
}

/// The cells of one operation's row.
fn option_row(key: &str, name: &str, info: Info) -> (r: Result<Vec<String>, Error>)
    ensures
        match r {
            Ok(cells) => cells.len() == 3 && option_line(key@, name@, info@) == Some(
                Line::Cells(texts_view(cells@)),
            ),
            Err(e) => e == Error::InvalidInput && option_line(key@, name@, info@) is None,
        },
{
    let meta = info_string(info)?;
    let mut cells: Vec<String> = Vec::new();
    cells.push(key.to_owned());
    cells.push(name.to_owned());
    cells.push(meta);
    assert(texts_view(cells@) =~= seq![key@, name@, info_prefix() + text_of_token(info@)->0]);
    Ok(cells)
}

/// The menu of operations on the task of a number: four rows, to
/// start, to stop, to complete and to edit it, as the text to print.
///
/// `Error::InvalidInput` says that one of the four tokens could not be
/// written, `Error::Format` that the table did not take the row format.
pub fn options_list(id: u16) -> (r: Result<String, Error>)
    ensures
        result_text(r) == options_text(id),
{
    let start = option_row("Alt-1", "Start", Info::Start(id))?;
    let stop = option_row("Alt-2", "Stop", Info::Stop(id))?;
    let done = option_row("Alt-3", "Done", Info::Done(id))?;
    let edit = option_row("Alt-4", "Edit", Info::Edit(id))?;
    let mut table = match Sheet::new("{:>} {:<}\0{:<}") {
        Some(table) => table,
        None => {
            return Err(Error::Format);
        },
    };
    if table.column_count() != 3 {
        return Err(Error::Format);
    }
    table.add_row(&start);
    table.add_row(&stop);
    table.add_row(&done);
    table.add_row(&edit);
    assert(table.lines() =~= option_lines(id)->0);
    Ok(table.text())
}

/// Whether the task with the index `i` comes before that with the
/// index `j` in the list: it has the higher score, or the same score
/// and the lower index.
pub open spec fn precedes(tasks: Seq<TaskView>, i: int, j: int) -> bool {
    score(tasks[i].urgency) > score(tasks[j].urgency) || (score(tasks[i].urgency) == score(
        tasks[j].urgency,
    ) && i < j)
}

/// Whether `order` lists the pending tasks, each once, highest score
/// first, and tasks of one score in the order in which they came.
pub open spec fn listing_order(tasks: Seq<TaskView>, order: Seq<int>) -> bool {
    &&& forall|k: int|
        0 <= k < order.len() ==> 0 <= #[trigger] order[k] < tasks.len() && tasks[order[k]].status
            == Status::Pending
    &&& forall|i: int|
        0 <= i < tasks.len() && (#[trigger] tasks[i]).status == Status::Pending
            ==> order.contains(i)
    &&& forall|a: int, b: int|
        0 <= a < b < order.len() ==> precedes(tasks, #[trigger] order[a], #[trigger] order[b])
}

/// Two orders of one list agree up to any place that both have.
pub proof fn lemma_listing_order_prefix(tasks: Seq<TaskView>, a: Seq<int>, b: Seq<int>, k: int)
    requires
        listing_order(tasks, a),
        listing_order(tasks, b),
        0 <= k <= a.len(),
        k <= b.len(),
    ensures
        forall|j: int| 0 <= j < k ==> a[j] == b[j],
    decreases k,
{
    if k > 0 {
        lemma_listing_order_prefix(tasks, a, b, k - 1);
        let x = a[k - 1];
        let y = b[k - 1];
        assert(b.contains(x));
        assert(a.contains(y));
        let p = choose|p: int| 0 <= p < b.len() && b[p] == x;
        let q = choose|q: int| 0 <= q < a.len() && a[q] == y;
        if p < k - 1 {
            assert(a[p] == b[p]);
            assert(precedes(tasks, a[p], a[k - 1]));
        } else if q < k - 1 {
            assert(a[q] == b[q]);
            assert(precedes(tasks, b[q], b[k - 1]));
        } else if p > k - 1 && q > k - 1 {
            assert(precedes(tasks, b[k - 1], b[p]));
            assert(precedes(tasks, a[k - 1], a[q]));
        }
    }
}

/// There is one order of the list only: `listing_order` says which
/// tasks are listed, and the place of each.
pub proof fn lemma_listing_order_unique(tasks: Seq<TaskView>, a: Seq<int>, b: Seq<int>)
    requires
        listing_order(tasks, a),
        listing_order(tasks, b),
    ensures
        a == b,
{
    if a.len() <= b.len() {
        lemma_listing_order_prefix(tasks, a, b, a.len() as int);
        if a.len() < b.len() {
            let y = b[a.len() as int];
            assert(a.contains(y));
            let q = choose|q: int| 0 <= q < a.len() && a[q] == y;
            assert(precedes(tasks, b[q], b[a.len() as int]));
        }
    } else {
        lemma_listing_order_prefix(tasks, a, b, b.len() as int);
        let x = a[b.len() as int];
        assert(b.contains(x));
        let p = choose|p: int| 0 <= p < b.len() && b[p] == x;
        assert(precedes(tasks, a[p], a[b.len() as int]));
    }
    assert(a =~= b);
}

/// The indices of a list, as whole numbers.
pub open spec fn indices_view(order: Seq<usize>) -> Seq<int> {
    Seq::new(order.len(), |k: int| order[k] as int)
}

/// Whether, by these scores, the index `x` comes before the index `y`.
pub open spec fn ahead(scores: Seq<i128>, x: int, y: int) -> bool {
    scores[x] > scores[y] || (scores[x] == scores[y] && x < y)
}

/// Whether `order` holds indices below `bound`, each before the next.
pub open spec fn in_order(scores: Seq<i128>, order: Seq<usize>, bound: int) -> bool {
    &&& forall|k: int| 0 <= k < order.len() ==> 0 <= #[trigger] order[k] < bound
    &&& forall|a: int, b: int|
        0 <= a < b < order.len() ==> ahead(scores, #[trigger] order[a] as int, #[trigger] order[b] as int)
}

/// Puts the index `i`, which is above all that `order` holds, into its
/// place: behind every index of no lower score.
#[verifier::rlimit(40)]
fn insert_in_order(order: &mut Vec<usize>, scores: &Vec<i128>, i: usize)
    requires
        i < scores.len(),
        in_order(scores@, old(order)@, i as int),
    ensures
        in_order(scores@, final(order)@, i + 1),
        final(order)@.contains(i),
        forall|j: usize| old(order)@.contains(j) ==> final(order)@.contains(j),
        forall|k: int|
            0 <= k < final(order)@.len() ==> #[trigger] final(order)@[k] == i || old(order)@.contains(
                final(order)@[k],
            ),
{
    let mine = scores[i];
    let mut at: usize = 0;
    while at < order.len() && scores[order[at]] >= mine
        invariant
            at <= order.len(),
            i < scores.len(),
            mine == scores@[i as int],
            forall|k: int| 0 <= k < order.len() ==> 0 <= #[trigger] order@[k] < i,
            forall|k: int| 0 <= k < at ==> scores@[#[trigger] order@[k] as int] >= mine,
        decreases order.len() - at,
    {
        at += 1;
    }
    let ghost before = order@;
    order.insert(at, i);
    proof {
        let after = order@;
        assert(after == before.insert(at as int, i));
        assert(after[at as int] == i);
        assert forall|k: int| 0 <= k < after.len() implies #[trigger] after[k] == i
            || before.contains(after[k]) by {
            if k < at {
                assert(after[k] == before[k]);
            } else if k > at {
                assert(after[k] == before[k - 1]);
            }
        }
        assert forall|j: usize| before.contains(j) implies after.contains(j) by {
            let k = choose|k: int| 0 <= k < before.len() && before[k] == j;
            if k < at {
                assert(after[k] == before[k]);
            } else {
                assert(after[k + 1] == before[k]);
            }
        }
        assert forall|k: int| 0 <= k < after.len() implies 0 <= #[trigger] after[k] < i + 1 by {
            if k < at {
                assert(after[k] == before[k]);
            } else if k > at {
                assert(after[k] == before[k - 1]);
            }
        }
        assert forall|a: int, b: int| 0 <= a < b < after.len() implies ahead(
            scores@,
            #[trigger] after[a] as int,
            #[trigger] after[b] as int,
        ) by {
            if b < at {
                assert(after[a] == before[a] && after[b] == before[b]);
            } else if a < at && b == at {
                assert(after[a] == before[a]);
            } else if a < at && b > at {
                assert(after[a] == before[a] && after[b] == before[b - 1]);
            } else if a == at {
                assert(after[b] == before[b - 1]);
                if b - 1 > at {
                    assert(ahead(scores@, before[at as int] as int, before[b - 1] as int));
                }
            } else {
                assert(after[a] == before[a - 1] && after[b] == before[b - 1]);
            }
        }
    }
}

/// Puts the pending tasks in the order of the list: highest score
/// first, tasks of one score in the order in which they came. The
/// result holds their indices.
#[verifier::rlimit(40)]
pub fn pending_by_urgency(tasks: &Vec<Task>) -> (order: Vec<usize>)
    ensures
        listing_order(tasks_view(tasks@), indices_view(order@)),
{
    let ghost all = tasks_view(tasks@);
    let mut scores: Vec<i128> = Vec::new();
    let mut i: usize = 0;
    while i < tasks.len()
        invariant
            i <= tasks.len(),
            scores.len() == i,
            all == tasks_view(tasks@),
            forall|j: int| 0 <= j < i ==> #[trigger] scores@[j] == score(all[j].urgency),
        decreases tasks.len() - i,
    {
        scores.push(tasks[i].urgency.score());
        i += 1;
    }
    let mut order: Vec<usize> = Vec::new();
    let mut i: usize = 0;
    while i < tasks.len()
        invariant
            i <= tasks.len(),
            scores.len() == tasks.len(),
            all == tasks_view(tasks@),
            in_order(scores@, order@, i as int),
            forall|k: int|
                0 <= k < order.len() ==> all[#[trigger] order@[k] as int].status == Status::Pending,
            forall|j: int|
                0 <= j < i && (#[trigger] all[j]).status == Status::Pending ==> order@.contains(
                    j as usize,
                ),
        decreases tasks.len() - i,
    {
        if matches!(tasks[i].status, Status::Pending) {
            let ghost before = order@;
            insert_in_order(&mut order, &scores, i);
            proof {
                assert forall|j: int|
                    0 <= j < i + 1 && (#[trigger] all[j]).status
                        == Status::Pending implies order@.contains(j as usize) by {
                    if j < i {
                        assert(before.contains(j as usize));
                    }
                }
            }
        }
        i += 1;
    }
    proof {
        let view = indices_view(order@);
        assert forall|j: int|
            0 <= j < all.len() && (#[trigger] all[j]).status == Status::Pending implies view.contains(
            j,
        ) by {
            assert(order@.contains(j as usize));
            let k = choose|k: int| 0 <= k < order@.len() && order@[k] == j as usize;
            assert(view[k] == j);
        }
        assert forall|a: int, b: int| 0 <= a < b < view.len() implies precedes(
            all,
            #[trigger] view[a],
            #[trigger] view[b],
        ) by {
            assert(ahead(scores@, order@[a] as int, order@[b] as int));
            assert(scores@[order@[a] as int] == score(all[order@[a] as int].urgency));
            assert(scores@[order@[b] as int] == score(all[order@[b] as int].urgency));
        }
        assert forall|k: int| 0 <= k < view.len() implies 0 <= #[trigger] view[k] < all.len()
            && all[view[k]].status == Status::Pending by {
            assert(all[order@[k] as int].status == Status::Pending);
        }
    }
    order
}

/// The row format of the list of tasks as the launcher shows it: the
/// project, the description, and after a null byte the row's metadata.
pub open spec fn menu_format() -> Seq<char> {
    "{:>}\u{239c}{:<}\0{:<}"@
}

/// The row format of the list of tasks where no launcher shows it.
pub open spec fn plain_format() -> Seq<char> {
    "{:>}  {:<}  {:<}"@
}

/// The row of a task in the list: its project, or a blank where it has
/// none, its description, and the metadata that carries the token which
/// picks it.
pub open spec fn task_line(t: TaskView) -> Option<Line> {
    match text_of_token(InfoView::Choose(t.id)) {
        Some(text) => Some(
            Line::Cells(
                seq![
                    match t.project {
                        Some(p) => p,
                        None => " "@,
                    },
                    t.description,
                    info_prefix() + text,
                ],
            ),
        ),
        None => None,
    }
}

/// The rows of the tasks with these indices, if each has one.
pub open spec fn task_lines(tasks: Seq<TaskView>, order: Seq<int>) -> Option<Seq<Line>> {
    if forall|k: int| 0 <= k < order.len() ==> task_line(tasks[#[trigger] order[k]]) is Some {
        Some(Seq::new(order.len(), |k: int| task_line(tasks[order[k]])->0))
    } else {
        None
    }
}

/// Whether `lines` are the rows of the list of these tasks: one for
/// each pending task, highest score first, tasks of one score in the
/// order in which they came.
pub open spec fn listed(tasks: Seq<TaskView>, lines: Seq<Line>) -> bool {
    exists|order: Seq<int>|
        listing_order(tasks, order) && #[trigger] task_lines(tasks, order) == Some(lines)
}

/// Whether the token of some pending task cannot be written.
pub open spec fn unlistable(tasks: Seq<TaskView>) -> bool {
    exists|i: int|
        0 <= i < tasks.len() && (#[trigger] tasks[i]).status == Status::Pending && task_line(
            tasks[i],
        ) is None
}

/// The rows of a list, as lines of a table.
pub open spec fn rows_view(rows: Seq<Vec<String>>) -> Seq<Line> {
    Seq::new(rows.len(), |k: int| Line::Cells(texts_view(rows[k]@)))
}

/// The cells of a task's row.
fn task_row(task: &Task) -> (r: Result<Vec<String>, Error>)
    ensures
        match r {
            Ok(cells) => cells.len() == 3 && task_line(task@) == Some(
                Line::Cells(texts_view(cells@)),
            ),
            Err(e) => e == Error::InvalidInput && task_line(task@) is None,
        },
{
    let meta = info_string(Info::Choose(task.id))?;
    let mut cells: Vec<String> = Vec::new();
    match &task.project {
        Some(p) => cells.push(p.clone()),
        None => cells.push(" ".to_owned()),
    }
    cells.push(task.description.clone());
    cells.push(meta);
    assert(texts_view(cells@) =~= task_line(task@)->0->Cells_0);
    Ok(cells)
}

/// The rows of the list of tasks: one for each pending task, highest
/// score first, tasks of one score in the order in which they came,
/// each of three cells. `Error::InvalidInput` says that the token of a
/// pending task could not be written.
#[verifier::rlimit(40)]
pub fn listing(tasks: &Vec<Task>) -> (r: Result<Vec<Vec<String>>, Error>)
    ensures
        match r {
            Ok(rows) => {
                &&& forall|k: int| 0 <= k < rows.len() ==> (#[trigger] rows@[k]).len() == 3
                &&& listed(tasks_view(tasks@), rows_view(rows@))
            },
            Err(e) => e == Error::InvalidInput && unlistable(tasks_view(tasks@)),
        },
{
    let order = pending_by_urgency(tasks);
    let ghost all = tasks_view(tasks@);
    let ghost places = indices_view(order@);
    let mut rows: Vec<Vec<String>> = Vec::new();
    let mut k: usize = 0;
    while k < order.len()
        invariant
            k <= order.len(),
            rows.len() == k,
            all == tasks_view(tasks@),
            places == indices_view(order@),
            listing_order(all, places),
            forall|j: int| 0 <= j < k ==> (#[trigger] rows@[j]).len() == 3,
            forall|j: int|
                0 <= j < k ==> task_line(all[#[trigger] places[j]]) == Some(
                    Line::Cells(texts_view(rows@[j]@)),
                ),
        decreases order.len() - k,
    {
        let i = order[k];
        assert(places[k as int] == i);
        assert(0 <= places[k as int] < all.len() && all[places[k as int]].status
            == Status::Pending);
        assert(all[i as int] == tasks@[i as int]@);
        match task_row(&tasks[i]) {
            Ok(cells) => {
                rows.push(cells);
            },
            Err(e) => {
                assert(all[i as int].status == Status::Pending && task_line(all[i as int])
                    is None);
                return Err(e);
            },
        }
        k += 1;
    }
    proof {
        assert(task_lines(all, places) is Some);
        assert(task_lines(all, places)->0 =~= rows_view(rows@));
    }
    Ok(rows)
}

/// What `all_tasks` leaves in the table and returns, by what the
/// export command printed and the table it was handed.
pub open spec fn all_tasks_result(
    exported: Seq<u8>,
    held: Seq<Line>,
    format: Seq<char>,
    lines: Seq<Line>,
    r: Result<Seq<char>, Error>,
) -> bool {
    match records_of_bytes(exported) {
        None => r == Err::<Seq<char>, Error>(Error::Format) && lines == held,
        Some(tasks) => if format_columns(format) != Some(3nat) {
            r == Err::<Seq<char>, Error>(Error::Format) && lines == held
        } else if unlistable(tasks) {
            r == Err::<Seq<char>, Error>(Error::InvalidInput) && lines == held
        } else {
            &&& lines.len() >= held.len()
            &&& lines.take(held.len() as int) == held
            &&& listed(tasks, lines.skip(held.len() as int))
            &&& r == Ok::<Seq<char>, Error>(table_text(format, lines))
        },
    }
}

/// No order of the list has a row for each task where the token of
/// some pending task cannot be written.
pub proof fn lemma_listed_or_unlistable(tasks: Seq<TaskView>, lines: Seq<Line>)
    requires
        listed(tasks, lines),
    ensures
        !unlistable(tasks),
{
    let order = choose|order: Seq<int>|
        listing_order(tasks, order) && #[trigger] task_lines(tasks, order) == Some(lines);
    if unlistable(tasks) {
        let i = choose|i: int|
            0 <= i < tasks.len() && (#[trigger] tasks[i]).status == Status::Pending && task_line(
                tasks[i],
            ) is None;
        assert(order.contains(i));
        let k = choose|k: int| 0 <= k < order.len() && order[k] == i;
        assert(task_line(tasks[order[k]]) is Some);
    }
}

/// Adds the list of tasks to a table of three columns, and prints it.
///
/// `exported` is what the export command printed. The rows are those
/// of `listing`, behind whatever the table held. `Error::Format` says
/// that `exported` is no list of tasks or that the table has not three
/// columns, `Error::InvalidInput` that the token of a pending task
/// could not be written; the table is then left as it was.
#[verifier::rlimit(40)]
pub fn all_tasks(table: &mut Sheet, exported: &[u8]) -> (r: Result<String, Error>)
    ensures
        final(table).format() == old(table).format(),
        all_tasks_result(
            exported@,
            old(table).lines(),
            old(table).format(),
            final(table).lines(),
            result_text(r),
        ),
{
    let tasks = Task::all_tasks(exported)?;
    if table.column_count() != 3 {
        return Err(Error::Format);
    }
    let ghost all = tasks_view(tasks@);
    let rows = match listing(&tasks) {
        Ok(rows) => rows,
        Err(e) => {
            return Err(e);
        },
    };
    let ghost lines = rows_view(rows@);
    let ghost held = table.lines();
    proof {
        lemma_listed_or_unlistable(all, lines);
    }
    let n = rows.len();
    let mut k: usize = 0;
    assert(held + lines.take(0) =~= held);
    while k < n
        invariant
            k <= n,
            n == rows.len(),
            lines == rows_view(rows@),
            forall|j: int| 0 <= j < rows.len() ==> (#[trigger] rows@[j]).len() == 3,
            table.format() == old(table).format(),
            format_columns(old(table).format()) == Some(3nat),
            table.lines() == held + lines.take(k as int),
        decreases n - k,
    {
        assert(rows@[k as int].len() == 3);
        table.add_row(&rows[k]);
        proof {
            assert(lines.take(k + 1) =~= lines.take(k as int).push(lines[k as int]));
            assert(table.lines() =~= held + lines.take(k + 1));
        }
        k += 1;
    }
    let text = table.text();
    proof {
        assert(lines.take(n as int) =~= lines);
        let now = table.lines();
        assert(now.take(held.len() as int) =~= held);
        assert(now.skip(held.len() as int) =~= lines);
    }
    Ok(text)
}

/// The list of tasks as text: a table of the launcher's row format,
/// or of the plain one, with the heading that says that a key has no
/// operation, or without, and the rows of `listing`.
///
/// `Error::Format` says that the table did not take the row format
/// with three columns or that `exported` is no list of tasks,
/// `Error::InvalidInput` that the token of a pending task could not be
/// written.
pub fn show_list(plain: bool, warn: bool, exported: &[u8]) -> (r: Result<String, Error>)
    ensures
        format_columns(list_format(plain)) is None ==> r == Err::<String, Error>(Error::Format),
        format_columns(list_format(plain)) is Some ==> exists|lines: Seq<Line>|
            #[trigger] all_tasks_result(
                exported@,
                list_head(warn),
                list_format(plain),
                lines,
                result_text(r),
            ),
{
    let table = if plain {
        Sheet::new("{:>}  {:<}  {:<}")
    } else {
        Sheet::new("{:>}\u{239c}{:<}\0{:<}")
    };
    let mut table = match table {
        Some(table) => table,
        None => {
            return Err(Error::Format);
        },
    };
    if warn {
        warn_no_key(&mut table);
    }
    assert(table.lines() =~= list_head(warn));
    let r = all_tasks(&mut table, exported);
    assert(all_tasks_result(
        exported@,
        list_head(warn),
        list_format(plain),
        table.lines(),
        result_text(r),
    ));
    r
}

/// The row format of the list of tasks.
pub open spec fn list_format(plain: bool) -> Seq<char> {
    if plain {
        plain_format()
    } else {
        menu_format()
    }
}

/// What stands above the rows of the list of tasks.
pub open spec fn list_head(warn: bool) -> Seq<Line> {
    if warn {
        seq![Line::Heading(no_key_heading())]
    } else {
        Seq::empty()
    }
}

/// What can be done to a task.
#[derive(Clone, Copy, Debug, PartialEq, Eq, Structural)]
pub enum Operation {
    Start,
    Stop,
    Done,
    Edit,
}

/// What an invocation leads to: what the caller is to do next.
#[derive(Debug, PartialEq, Eq)]
pub enum Step {
    /// Print this text, the menu of operations.
    Show(String),
    /// Run the command, which exports all tasks, and print what
    /// `show_list` makes of its output, in the plain format or not,
    /// with the warning or not.
    List { call: Call, plain: bool, warn: bool },
    /// Run the command, which exports one task, and hand its output
    /// to `apply` with the operation.
    Fetch { call: Call, operation: Operation },
    /// Run the command. Nothing follows.
    Run(Call),
}

/// What a `Step` is, in contracts.
pub enum StepView {
    Show(Seq<char>),
    List { call: CallView, plain: bool, warn: bool },
    Fetch { call: CallView, operation: Operation },
    Run(CallView),
}

impl View for Step {
    type V = StepView;

    open spec fn view(&self) -> StepView {
        match self {
            Step::Show(text) => StepView::Show(text@),
            Step::List { call, plain, warn } => StepView::List {
                call: call@,
                plain: *plain,
                warn: *warn,
            },
            Step::Fetch { call, operation } => StepView::Fetch {
                call: call@,
                operation: *operation,
            },
            Step::Run(call) => StepView::Run(call@),
        }
    }
}

/// The step that was returned, in contracts, or the error.
pub open spec fn result_step(r: Result<Step, Error>) -> Result<StepView, Error> {
    match r {
        Ok(step) => Ok(step@),
        Err(e) => Err(e),
    }
}

/// The command that was returned, in contracts, or the error.
pub open spec fn result_call(r: Result<Call, Error>) -> Result<CallView, Error> {
    match r {
        Ok(call) => Ok(call@),
        Err(e) => Err(e),
    }
}

/// The step that fetches a task for an operation.
pub open spec fn fetch_step(id: u16, operation: Operation) -> StepView {
    StepView::Fetch { call: export_call(Some(id)), operation }
}

/// The step that lists the tasks.
pub open spec fn list_step(plain: bool, warn: bool) -> StepView {
    StepView::List { call: export_call(None), plain, warn }
}

/// The step that a token leads to: the menu of operations for a task
/// that was picked, the fetch for an operation on a task, the command
/// that adds a task.
pub open spec fn step_of_token(info: InfoView) -> Result<StepView, Error> {
    match info {
        InfoView::Choose(id) => match options_text(id) {
            Ok(text) => Ok(StepView::Show(text)),
            Err(e) => Err(e),
        },
        InfoView::Start(id) => Ok(fetch_step(id, Operation::Start)),
        InfoView::Stop(id) => Ok(fetch_step(id, Operation::Stop)),
        InfoView::Done(id) => Ok(fetch_step(id, Operation::Done)),
        InfoView::Edit(id) => Ok(fetch_step(id, Operation::Edit)),
        InfoView::Create(name) => Ok(StepView::Run(add_call(name))),
    }
}

/// The operation that a key binding stands for: the first four
/// bindings start, stop, complete and edit.
pub open spec fn operation_of_key(key: u8) -> Option<Operation> {
    if key == 0 {
        Some(Operation::Start)
    } else if key == 1 {
        Some(Operation::Stop)
    } else if key == 2 {
        Some(Operation::Done)
    } else if key == 3 {
        Some(Operation::Edit)
    } else {
        None
    }
}

/// The step that an invocation leads to.
///
/// Before any menu the tasks are listed. A chosen row leads where its
/// token leads; typed text adds a task. A key binding with an
/// operation is that operation on the task of the chosen row's token;
/// any other key lists the tasks under a warning. Where a token is
/// needed and none came, or it names no task, that is
/// `Error::InvalidInput`.
pub open spec fn step_of(invocation: InvocationView) -> Result<StepView, Error> {
    match invocation.how {
        RetvView::Initial => Ok(list_step(false, false)),
        RetvView::Entry(_) => match invocation.info {
            Some(info) => step_of_token(info),
            None => Err(Error::InvalidInput),
        },
        RetvView::Custom(name) => Ok(StepView::Run(add_call(name))),
        RetvView::Key(binding) => match operation_of_key(binding.key) {
            None => Ok(list_step(false, true)),
            Some(operation) => match invocation.info {
                None => Err(Error::InvalidInput),
                Some(info) => match info.task() {
                    Some(id) => Ok(fetch_step(id, operation)),
                    None => Err(Error::InvalidInput),
                },
            },
        },
    }
}

/// The command that adds a task with this description.
pub fn add_task(name: String) -> (call: Call)
    ensures
        call@ == add_call(name@),
{
    Task::create(name)
}

/// The step that a token leads to.
pub fn act_on_task(info: Info) -> (r: Result<Step, Error>)
    ensures
        result_step(r) == step_of_token(info@),
{
    match info {
        Info::Choose(id) => {
            let text = options_list(id)?;
            Ok(Step::Show(text))
        },
        Info::Start(id) => Ok(
            Step::Fetch { call: Call::export(Some(id)), operation: Operation::Start },
        ),
        Info::Stop(id) => Ok(
            Step::Fetch { call: Call::export(Some(id)), operation: Operation::Stop },
        ),
        Info::Done(id) => Ok(
            Step::Fetch { call: Call::export(Some(id)), operation: Operation::Done },
        ),
        Info::Edit(id) => Ok(
            Step::Fetch { call: Call::export(Some(id)), operation: Operation::Edit },
        ),
        Info::Create(name) => Ok(Step::Run(add_task(name))),
    }
}

/// The operation that a key binding stands for, if it stands for one.
pub fn key_operation(key: u8) -> (r: Option<Operation>)
    ensures
        r == operation_of_key(key),
{
    if key == 0 {
        Some(Operation::Start)
    } else if key == 1 {
        Some(Operation::Stop)
    } else if key == 2 {
        Some(Operation::Done)
    } else if key == 3 {
        Some(Operation::Edit)
    } else {
        None
    }
}

/// The step that an invocation leads to.
pub fn dispatch(invocation: Invocation) -> (r: Result<Step, Error>)
    ensures
        result_step(r) == step_of(invocation@),
{
    let Invocation { outside: _, info, how } = invocation;
    match how {
        Retv::Initial => Ok(Step::List { call: Call::export(None), plain: false, warn: false }),
        Retv::Entry(_) => match info {
            Some(info) => act_on_task(info),
            None => Err(Error::InvalidInput),
        },
        Retv::Custom(name) => Ok(Step::Run(add_task(name))),
        Retv::Key(binding) => match key_operation(binding.key) {
            None => Ok(Step::List { call: Call::export(None), plain: false, warn: true }),
            Some(operation) => match info {
                None => Err(Error::InvalidInput),
                Some(info) => {
                    let id = info.task_id()?;
                    Ok(Step::Fetch { call: Call::export(Some(id)), operation })
                },
            },
        },
    }
}

/// The step for a start without the launcher: the tasks are listed in
/// the plain format.
pub fn fallback() -> (step: Step)
    ensures
        step@ == list_step(true, false),
{
    Step::List { call: Call::export(None), plain: true, warn: false }
}

/// The step that a start of the program leads to, by what reading the
/// invocation gave. Where the launcher's strings were missing, the
/// program was started by hand, and the tasks are listed in the plain
/// format; any other error ends the invocation.
pub open spec fn first_step(read: Result<InvocationView, Error>) -> Result<StepView, Error> {
    match read {
        Ok(invocation) => step_of(invocation),
        Err(Error::Config) => Ok(list_step(true, false)),
        Err(e) => Err(e),
    }
}

/// The invocation that was read, in contracts, or the error.
pub open spec fn result_invocation(r: Result<Invocation, Error>) -> Result<InvocationView, Error> {
    match r {
        Ok(invocation) => Ok(invocation@),
        Err(e) => Err(e),
    }
}

/// The step that a start of the program leads to.
pub fn begin(read: Result<Invocation, Error>) -> (r: Result<Step, Error>)
    ensures
        result_step(r) == first_step(result_invocation(read)),
{
    match read {
        Ok(invocation) => dispatch(invocation),
        Err(Error::Config) => Ok(fallback()),
        Err(e) => Err(e),
    }
}

/// The command that an operation on a task comes to, if the record
/// that it hands back can be written. To edit hands no record back.
pub open spec fn applied(operation: Operation, t: TaskView, now: Timestamp) -> Option<CallView> {
    match operation {
        Operation::Start => match bytes_of_record(TaskView { start: Some(now), ..t }) {
            Some(bytes) => Some(crate::command::import_call(bytes)),
            None => None,
        },
        Operation::Stop => match bytes_of_record(TaskView { start: None, ..t }) {
            Some(bytes) => Some(crate::command::import_call(bytes)),
            None => None,
        },
        Operation::Done => match bytes_of_record(TaskView { status: Status::Completed, ..t }) {
            Some(bytes) => Some(crate::command::import_call(bytes)),
            None => None,
        },
        Operation::Edit => Some(edit_call(t.id)),
    }
}

/// What an operation comes to, by what the export command printed for
/// the task: `Error::Format` where that is no list of tasks,
/// `Error::NotFound` where the list is empty, else the command for the
/// first task of the list, or `Error::Format` where its record cannot
/// be written.
pub open spec fn apply_result(operation: Operation, exported: Seq<u8>, now: Timestamp) -> Result<
    CallView,
    Error,
> {
    match records_of_bytes(exported) {
        None => Err(Error::Format),
        Some(tasks) => if tasks.len() == 0 {
            Err(Error::NotFound)
        } else {
            match applied(operation, tasks[0], now) {
                Some(call) => Ok(call),
                None => Err(Error::Format),
            }
        },
    }
}

/// Applies an operation to the task that the export command printed:
/// the command that carries it out. `now` is the time that beginning
/// work sets.
pub fn apply(operation: Operation, exported: &[u8], now: Timestamp) -> (r: Result<Call, Error>)
    requires
        now.wf(),
    ensures
        result_call(r) == apply_result(operation, exported@, now),
{
    let task = Task::from_id(exported)?;
    match operation {
        Operation::Start => task.start(now),
        Operation::Stop => task.stop(),
        Operation::Done => task.done(),
        Operation::Edit => Ok(task.edit()),
    }
}

} // verus!
