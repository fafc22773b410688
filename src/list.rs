//! The list controller: an in-memory snapshot of the tasks in id order, the
//! selected row, the direction of the last vertical move, and the scroll
//! offset of the window through which the list is shown.
use vstd::prelude::*;

use crate::key::Key;
use crate::task::{Content, Task};

verus! {

/// The direction of a vertical move.
#[derive(Clone, Copy, Debug, PartialEq, Eq, Structural)]
pub enum Direction {
    Up,
    Down,
}

/// What a key asks of the list, for the caller to carry out where the store
/// or the text editor is involved.
#[derive(Clone, Copy, Debug, PartialEq, Eq, Structural)]
pub enum Command {
    Quit,
    /// The selection moved up (it stays at the top).
    SelectUp,
    /// The selection moved down (it stays at the bottom).
    SelectDown,
    /// Swap the selected task with the one before it.
    MoveUp,
    /// Swap the selected task with the one after it.
    MoveDown,
    /// Edit the selected task's text.
    Edit,
    /// Write a new task.
    Add,
    /// Open the date editor on the selected task's due date.
    PickDate,
    /// Remove the selected task's due date.
    ClearDate,
    /// Flip the selected task's done flag.
    ToggleDone,
    /// Delete the selected task.
    Delete,
    /// The key means nothing here.
    Nothing,
}

/// The rows of the list that are on screen: `from..to`, with row
/// `highlight` of that slice shown as selected.
#[derive(Clone, Copy, Debug, PartialEq, Eq, Structural)]
pub struct Window {
    pub from: usize,
    pub to: usize,
    pub highlight: usize,
}

/// What a list controller holds, as mathematical values.
pub struct ListModel {
    pub tasks: Seq<Task>,
    pub current: int,
    pub direction: Direction,
    pub scroll: int,
}

/// The command that a key stands for.
pub open spec fn command_of(key: Key) -> Command {
    if key == Key::F(1) {
        Command::Quit
    } else if key == Key::Char('k') {
        Command::SelectUp
    } else if key == Key::Char('K') {
        Command::MoveUp
    } else if key == Key::Char('j') {
        Command::SelectDown
    } else if key == Key::Char('J') {
        Command::MoveDown
    } else if key == Key::Char('a') {
        Command::Edit
    } else if key == Key::Char('A') {
        Command::Add
    } else if key == Key::Char('s') {
        Command::PickDate
    } else if key == Key::Char('S') {
        Command::ClearDate
    } else if key == Key::Char('d') {
        Command::ToggleDone
    } else if key == Key::Char('D') {
        Command::Delete
    } else {
        Command::Nothing
    }
}

/// The selection after one move up: one row up, stopping at the top.
pub open spec fn index_up(current: int) -> int {
    if current > 0 {
        current - 1
    } else {
        0
    }
}

/// The selection after one move down in a list of `len` rows: one row down,
/// stopping at the bottom.
pub open spec fn index_down(current: int, len: int) -> int {
    if current + 1 < len {
        current + 1
    } else {
        current
    }
}

/// A selection index brought back into a list of `len` rows: past the end it
/// becomes the last row (row 0 of an empty list).
pub open spec fn clamp_index(current: int, len: int) -> int {
    if current >= len {
        if len > 0 {
            len - 1
        } else {
            0
        }
    } else {
        current
    }
}

/// The scroll offset for a list of `len` rows seen through `height` rows.
/// Moving up, the window follows the selection as soon as it leaves the top
/// edge; moving down, as soon as it leaves the bottom edge.
pub open spec fn scroll_after(current: int, direction: Direction, scroll: int, len: int, height: int) -> int {
    if len <= height {
        0
    } else if direction == Direction::Up {
        if current < scroll {
            current
        } else if current >= scroll + height {
            current - height + 1
        } else {
            scroll
        }
    } else {
        if current < scroll + height {
            scroll
        } else if current >= height {
            current - height + 1
        } else {
            scroll
        }
    }
}

/// The window for a scroll offset, a selection and a list of `len` rows seen
/// through `height` rows.
pub open spec fn window_of(current: int, scroll: int, len: int, height: int) -> (int, int, int) {
    (
        if scroll < len - 1 { scroll } else if len > 0 { len - 1 } else { 0 },
        if scroll + height < len { scroll + height } else { len },
        if current > scroll { current - scroll } else { 0 },
    )
}

/// The new scroll offset; see `scroll_after`.
pub fn compute_scroll(current: usize, direction: Direction, scroll: usize, len: usize, height: usize) -> (r: usize)
    requires
        len == 0 || current < len,
    ensures
        r as int == scroll_after(current as int, direction, scroll as int, len as int, height as int),
{
    if len <= height {
        0
    } else {
        match direction {
            Direction::Up => {
                if current < scroll {
                    current
                } else if current - scroll >= height {
                    current - height + 1
                } else {
                    scroll
                }
            },
            Direction::Down => {
                if current < scroll || current - scroll < height {
                    scroll
                } else if current >= height {
                    current - height + 1
                } else {
                    scroll
                }
            },
        }
    }
}

/// The rows on screen for a scroll offset; see `window_of`.
pub fn compute_window(current: usize, scroll: usize, len: usize, height: usize) -> (r: Window)
    ensures
        (r.from as int, r.to as int, r.highlight as int) == window_of(
            current as int,
            scroll as int,
            len as int,
            height as int,
        ),
{
    let last = if len > 0 {
        len - 1
    } else {
        0
    };
    let from = if scroll < last {
        scroll
    } else {
        last
    };
    let to = if scroll < len && height < len - scroll {
        scroll + height
    } else {
        len
    };
    let highlight = if current > scroll {
        current - scroll
    } else {
        0
    };
    Window { from, to, highlight }
}

/// Whenever the list is longer than the window, the new scroll offset puts
/// the selection inside the window, provided that the last move was up or
/// that the selection was not above the window before.
pub proof fn lemma_scroll_shows_selection(current: int, direction: Direction, scroll: int, len: int, height: int)
    requires
        0 <= current < len,
        0 <= scroll,
        1 <= height < len,
        direction == Direction::Up || scroll <= current,
    ensures
        scroll_after(current, direction, scroll, len, height) <= current < scroll_after(
            current,
            direction,
            scroll,
            len,
            height,
        ) + height,
        0 <= scroll_after(current, direction, scroll, len, height),
{
}

/// The window never reaches past the list and never starts after it ends.
pub proof fn lemma_window_in_list(current: int, scroll: int, len: int, height: int)
    requires
        0 <= scroll,
        0 <= height,
        0 <= len,
    ensures
        0 <= window_of(current, scroll, len, height).0 <= window_of(current, scroll, len, height).1 <= len,
{
}

/// Ids strictly ascending: the order in which tasks are shown.
pub open spec fn ids_ascending(tasks: Seq<Task>) -> bool {
    forall|i: int, j: int| 0 <= i < j < tasks.len() ==> tasks[i].id < tasks[j].id
}

/// No two tasks share an id, as the store guarantees.
pub open spec fn ids_distinct(tasks: Seq<Task>) -> bool {
    forall|i: int, j: int| 0 <= i < j < tasks.len() ==> tasks[i].id != tasks[j].id
}

/// Some task of `tasks` has id `id`.
pub open spec fn has_id(tasks: Seq<Task>, id: i64) -> bool {
    exists|i: int| 0 <= i < tasks.len() && #[trigger] tasks[i].id == id
}

/// `r` is the snapshot that the listing `s` gives: its tasks in ascending id
/// order, one task per id. Every task of `r` is one of `s`, every id of `s`
/// is in `r`, and where the ids of `s` are distinct, `r` holds exactly the
/// tasks of `s`.
pub open spec fn snapshot_of(s: Seq<Task>, r: Seq<Task>) -> bool {
    &&& ids_ascending(r)
    &&& forall|i: int| 0 <= i < r.len() ==> s.contains(#[trigger] r[i])
    &&& forall|k: int| 0 <= k < s.len() ==> has_id(r, #[trigger] s[k].id)
    &&& ids_distinct(s) ==> r.to_multiset() == s.to_multiset()
}

/// The first row of an id-ordered list whose id is not below `id`.
fn insert_position(tasks: &Vec<Task>, id: i64) -> (p: usize)
    requires
        ids_ascending(tasks@),
    ensures
        p <= tasks.len(),
        forall|j: int| 0 <= j < p ==> tasks@[j].id < id,
        forall|j: int| p <= j < tasks.len() ==> tasks@[j].id >= id,
{
    let mut p: usize = 0;
    while p < tasks.len() && tasks[p].id < id
        invariant
            ids_ascending(tasks@),
            p <= tasks.len(),
            forall|j: int| 0 <= j < p ==> tasks@[j].id < id,
        decreases tasks.len() - p,
    {
        p = p + 1;
    }
    proof {
        if p < tasks.len() {
            assert forall|j: int| p <= j < tasks.len() implies tasks@[j].id >= id by {
                if j > p {
                    assert(tasks@[p as int].id < tasks@[j].id);
                }
            }
        }
    }
    p
}

/// The tasks of a listing in ascending id order, one task per id.
pub fn sort_by_id(tasks: Vec<Task>) -> (r: Vec<Task>)
    ensures
        snapshot_of(tasks@, r@),
{
    broadcast use vstd::seq_lib::group_to_multiset_ensures;

    let ghost orig = tasks@;
    let ghost n = tasks@.len() as int;
    let mut input = tasks;
    let mut out: Vec<Task> = Vec::new();
    while input.len() > 0
        invariant
            orig.len() == n,
            input.len() <= n,
            input@ == orig.subrange(0, input.len() as int),
            ids_ascending(out@),
            forall|i: int|
                0 <= i < out.len() ==> orig.subrange(input.len() as int, n).contains(
                    #[trigger] out@[i],
                ),
            forall|k: int| input.len() <= k < n ==> has_id(out@, #[trigger] orig[k].id),
            ids_distinct(orig) ==> out@.to_multiset() == orig.subrange(input.len() as int, n).to_multiset(),
        decreases input.len(),
    {
        let ghost old_out = out@;
        let t = input.pop().unwrap();
        let m = input.len();
        let ghost rest = orig.subrange(m as int + 1, n);
        let ghost here = orig.subrange(m as int, n);
        proof {
            assert(t == orig[m as int]);
            assert(input@ =~= orig.subrange(0, m as int));
            assert(here =~= rest.insert(0, t));
            assert forall|x: int| 0 <= x < rest.len() implies here[x + 1] == rest[x] by {}
        }
        let p = insert_position(&out, t.id);
        if p < out.len() && out[p].id == t.id {
            proof {
                assert(rest.contains(out@[p as int]));
                if ids_distinct(orig) {
                    let x = choose|x: int| 0 <= x < rest.len() && rest[x] == out@[p as int];
                    assert(orig[m as int + 1 + x] == rest[x]);
                    assert(orig[m as int].id != orig[m as int + 1 + x].id);
                }
                assert forall|i: int| 0 <= i < out.len() implies here.contains(#[trigger] out@[i]) by {
                    assert(rest.contains(out@[i]));
                    let x = choose|x: int| 0 <= x < rest.len() && rest[x] == out@[i];
                    assert(here[x + 1] == out@[i]);
                }
                assert forall|k: int| m <= k < n implies has_id(out@, #[trigger] orig[k].id) by {
                    if k == m {
                        assert(out@[p as int].id == orig[k].id);
                    }
                }
            }
        } else {
            out.insert(p, t);
            proof {
                assert(out@ == old_out.insert(p as int, t));
                assert forall|j: int| p <= j < old_out.len() implies old_out[j].id > t.id by {
                    if j > p {
                        assert(old_out[p as int].id < old_out[j].id);
                    }
                }
                assert forall|i: int, j: int| 0 <= i < j < out.len() implies out@[i].id < out@[j].id by {
                    if j < p {
                    } else if j == p {
                    } else if i < p {
                        assert(out@[j] == old_out[j - 1]);
                    } else if i == p {
                        assert(out@[j] == old_out[j - 1]);
                    } else {
                        assert(out@[j] == old_out[j - 1]);
                        assert(out@[i] == old_out[i - 1]);
                    }
                }
                assert forall|i: int| 0 <= i < out.len() implies here.contains(#[trigger] out@[i]) by {
                    if i == p {
                        assert(here[0] == t);
                    } else {
                        let oi = if i < p { i } else { i - 1 };
                        assert(out@[i] == old_out[oi]);
                        assert(rest.contains(old_out[oi]));
                        let x = choose|x: int| 0 <= x < rest.len() && rest[x] == old_out[oi];
                        assert(here[x + 1] == out@[i]);
                    }
                }
                assert forall|k: int| m <= k < n implies has_id(out@, #[trigger] orig[k].id) by {
                    if k == m {
                        assert(out@[p as int].id == orig[k].id);
                    } else {
                        assert(has_id(old_out, orig[k].id));
                        let i0 = choose|i: int| 0 <= i < old_out.len() && #[trigger] old_out[i].id == orig[k].id;
                        if i0 < p {
                            assert(out@[i0].id == orig[k].id);
                        } else {
                            assert(out@[i0 + 1].id == orig[k].id);
                        }
                    }
                }
                if ids_distinct(orig) {
                    vstd::seq_lib::to_multiset_insert(old_out, p as int, t);
                    vstd::seq_lib::to_multiset_insert(rest, 0, t);
                }
            }
        }
    }
    proof {
        assert(orig.subrange(0, n) =~= orig);
    }
    out
}

/// The list controller.
pub struct TaskList {
    tasks: Vec<Task>,
    current: usize,
    direction: Direction,
    scroll: usize,
}

impl View for TaskList {
    type V = ListModel;

    closed spec fn view(&self) -> ListModel {
        ListModel {
            tasks: self.tasks@,
            current: self.current as int,
            direction: self.direction,
            scroll: self.scroll as int,
        }
    }
}

/// The list after one key press; see `command_of` for what it asks of the
/// caller.
pub open spec fn list_step(m: ListModel, key: Key) -> ListModel {
    let c = command_of(key);
    if c == Command::SelectUp {
        ListModel { current: index_up(m.current), direction: Direction::Up, ..m }
    } else if c == Command::SelectDown {
        ListModel { current: index_down(m.current, m.tasks.len() as int), direction: Direction::Down, ..m }
    } else if c == Command::MoveUp {
        ListModel { direction: Direction::Up, ..m }
    } else if c == Command::MoveDown {
        ListModel { direction: Direction::Down, ..m }
    } else {
        m
    }
}

impl ListModel {
    /// The selection is a row of the list, or 0 for an empty list, and the
    /// tasks are in ascending id order.
    pub open spec fn wf(self) -> bool {
        &&& 0 <= self.current
        &&& 0 <= self.scroll
        &&& (self.tasks.len() == 0 ==> self.current == 0)
        &&& (self.tasks.len() > 0 ==> self.current < self.tasks.len())
        &&& ids_ascending(self.tasks)
    }
}

impl TaskList {
    #[verifier::type_invariant]
    spec fn inv(&self) -> bool {
        self@.wf()
    }

    /// An empty list, scrolled to the top, last moved down.
    pub fn new() -> (r: Self)
        ensures
            r@ == (ListModel {
                tasks: Seq::empty(),
                current: 0,
                direction: Direction::Down,
                scroll: 0,
            }),
    {
        TaskList { tasks: Vec::new(), current: 0, direction: Direction::Down, scroll: 0 }
    }

    /// The snapshot's tasks.
    pub fn tasks(&self) -> (r: &Vec<Task>)
        ensures
            r@ == self@.tasks,
    {
        &self.tasks
    }

    /// The index of the selected row.
    pub fn current(&self) -> (r: usize)
        ensures
            r == self@.current,
            self@.wf(),
    {
        proof {
            use_type_invariant(self);
        }
        self.current
    }

    /// The direction of the last vertical move.
    pub fn direction(&self) -> (r: Direction)
        ensures
            r == self@.direction,
    {
        self.direction
    }

    /// The scroll offset that the last layout computed.
    pub fn scroll(&self) -> (r: usize)
        ensures
            r == self@.scroll,
    {
        self.scroll
    }

    /// The selected task; none in an empty list.
    pub fn selected(&self) -> (r: Option<&Task>)
        ensures
            r.is_some() == (self@.tasks.len() > 0),
            r matches Some(t) ==> *t == self@.tasks[self@.current],
    {
        proof {
            use_type_invariant(self);
        }
        if self.current < self.tasks.len() {
            Some(&self.tasks[self.current])
        } else {
            None
        }
    }

    /// Replaces the snapshot with `tasks`, as the store lists them after a
    /// change, put in ascending id order. A selection past the new end moves
    /// to the last row.
    pub fn refresh(&mut self, tasks: Vec<Task>)
        ensures
            snapshot_of(tasks@, final(self)@.tasks),
            final(self)@ == (ListModel {
                tasks: final(self)@.tasks,
                current: clamp_index(old(self)@.current, final(self)@.tasks.len() as int),
                ..old(self)@
            }),
    {
        proof {
            use_type_invariant(&*self);
        }
        let tasks = sort_by_id(tasks);
        let len = tasks.len();
        let current = if self.current >= len {
            if len > 0 {
                len - 1
            } else {
                0
            }
        } else {
            self.current
        };
        *self = TaskList { tasks, current, direction: self.direction, scroll: self.scroll };
    }

    /// Replaces the snapshot after a task was added (in ascending id order,
    /// as `refresh` does), and selects the row after the old last one, the
    /// new task's (or the last row, if the list did not grow).
    pub fn refresh_after_insert(&mut self, tasks: Vec<Task>)
        ensures
            snapshot_of(tasks@, final(self)@.tasks),
            final(self)@ == (ListModel {
                tasks: final(self)@.tasks,
                current: clamp_index(old(self)@.tasks.len() as int, final(self)@.tasks.len() as int),
                ..old(self)@
            }),
    {
        proof {
            use_type_invariant(&*self);
        }
        let tasks = sort_by_id(tasks);
        let len = tasks.len();
        let old_len = self.tasks.len();
        let current = if old_len >= len {
            if len > 0 {
                len - 1
            } else {
                0
            }
        } else {
            old_len
        };
        *self = TaskList { tasks, current, direction: self.direction, scroll: self.scroll };
    }

    /// Handles a key of the list: moves the selection for `k` and `j`,
    /// records the direction of `k`, `K`, `j` and `J`, and returns what the
    /// key asks for.
    pub fn handle_key_press_event(&mut self, key: Key) -> (r: Command)
        ensures
            r == command_of(key),
            final(self)@ == list_step(old(self)@, key),
    {
        proof {
            use_type_invariant(&*self);
        }
        let len = self.tasks.len();
        let cur = self.current;
        let command = match key {
            Key::F(1) => Command::Quit,
            Key::Char('k') => Command::SelectUp,
            Key::Char('K') => Command::MoveUp,
            Key::Char('j') => Command::SelectDown,
            Key::Char('J') => Command::MoveDown,
            Key::Char('a') => Command::Edit,
            Key::Char('A') => Command::Add,
            Key::Char('s') => Command::PickDate,
            Key::Char('S') => Command::ClearDate,
            Key::Char('d') => Command::ToggleDone,
            Key::Char('D') => Command::Delete,
            _ => Command::Nothing,
        };
        match command {
            Command::SelectUp => {
                if cur > 0 {
                    self.current = cur - 1;
                }
                self.direction = Direction::Up;
            },
            Command::SelectDown => {
                if cur + 1 < len {
                    self.current = cur + 1;
                }
                self.direction = Direction::Down;
            },
            Command::MoveUp => {
                self.direction = Direction::Up;
            },
            Command::MoveDown => {
                self.direction = Direction::Down;
            },
            _ => {},
        }
        command
    }

    /// Recomputes the scroll offset for a window of `height` rows and
    /// returns the rows on screen.
    pub fn layout(&mut self, height: usize) -> (r: Window)
        ensures
            final(self)@ == (ListModel {
                scroll: scroll_after(
                    old(self)@.current,
                    old(self)@.direction,
                    old(self)@.scroll,
                    old(self)@.tasks.len() as int,
                    height as int,
                ),
                ..old(self)@
            }),
            (r.from as int, r.to as int, r.highlight as int) == window_of(
                final(self)@.current,
                final(self)@.scroll,
                final(self)@.tasks.len() as int,
                height as int,
            ),
    {
        proof {
            use_type_invariant(&*self);
        }
        let len = self.tasks.len();
        self.scroll = compute_scroll(self.current, self.direction, self.scroll, len, height);
        compute_window(self.current, self.scroll, len, height)
    }

    /// Swaps the selected task's place with `neighbor`, the task next to it
    /// in direction `direction` that the store found: returns the two records
    /// to store, each with the other's id and its own content, and moves the
    /// selection one row that way so that it follows the moved task. In an
    /// empty list nothing happens.
    pub fn swap_with(&mut self, direction: Direction, neighbor: Task) -> (r: Option<(Task, Task)>)
        ensures
            old(self)@.tasks.len() == 0 ==> r is None && final(self)@ == old(self)@,
            old(self)@.tasks.len() > 0 ==> {
                let sel = old(self)@.tasks[old(self)@.current];
                &&& r == Some((Task { id: neighbor.id, ..sel }, Task { id: sel.id, ..neighbor }))
                &&& final(self)@ == (ListModel {
                    current: if direction == Direction::Up {
                        index_up(old(self)@.current)
                    } else {
                        index_down(old(self)@.current, old(self)@.tasks.len() as int)
                    },
                    ..old(self)@
                })
            },
    {
        proof {
            use_type_invariant(&*self);
        }
        if self.current >= self.tasks.len() {
            return None;
        }
        let moved = self.tasks[self.current].with_id(neighbor.id);
        let mut other = neighbor;
        other.id = self.tasks[self.current].id;
        match direction {
            Direction::Up => {
                if self.current > 0 {
                    self.current = self.current - 1;
                }
            },
            Direction::Down => {
                if self.current + 1 < self.tasks.len() {
                    self.current = self.current + 1;
                }
            },
        }
        Some((moved, other))
    }

    /// The selected task with its done flag flipped, to store.
    pub fn toggled_current(&self) -> (r: Option<Task>)
        ensures
            r.is_some() == (self@.tasks.len() > 0),
            r matches Some(t) ==> {
                let sel = self@.tasks[self@.current];
                t == Task { done: !sel.done, ..sel }
            },
    {
        proof {
            use_type_invariant(self);
        }
        if self.current >= self.tasks.len() {
            return None;
        }
        let mut t = self.tasks[self.current].with_id(self.tasks[self.current].id);
        t.done = !t.done;
        Some(t)
    }

    /// The selected task with a new subject and body, to store.
    pub fn edited_current(&self, content: Content) -> (r: Option<Task>)
        ensures
            r.is_some() == (self@.tasks.len() > 0),
            r matches Some(t) ==> {
                let sel = self@.tasks[self@.current];
                t == Task { subject: content.subject, body: content.body, ..sel }
            },
    {
        proof {
            use_type_invariant(self);
        }
        if self.current >= self.tasks.len() {
            return None;
        }
        let mut t = self.tasks[self.current].with_id(self.tasks[self.current].id);
        t.subject = content.subject;
        t.body = content.body;
        Some(t)
    }

    /// The selected task with a new due date (empty for none), to store.
    pub fn dated_current(&self, due: String) -> (r: Option<Task>)
        ensures
            r.is_some() == (self@.tasks.len() > 0),
            r matches Some(t) ==> {
                let sel = self@.tasks[self@.current];
                t == Task { due, ..sel }
            },
    {
        proof {
            use_type_invariant(self);
        }
        if self.current >= self.tasks.len() {
            return None;
        }
        let mut t = self.tasks[self.current].with_id(self.tasks[self.current].id);
        t.due = due;
        Some(t)
    }
}

/// Deleting the last of `n` tasks moves the selection from row `n - 1` to
/// row `n - 2`, or to row 0 when the list becomes empty.
pub proof fn lemma_delete_last_moves_selection(n: int)
    requires
        n >= 1,
    ensures
        clamp_index(n - 1, n - 1) == if n >= 2 { n - 2 } else { 0 },
{
}

} // verus!
