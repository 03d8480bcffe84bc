use vstd::prelude::*;
use crate::todo::{Todo, TodoView};

verus! {

/// What a store is, mathematically: its tasks in display order and the id
/// that the next added task receives.
pub struct TodoListView {
    pub tasks: Seq<TodoView>,
    pub next_id: u32,
}

/// Ids strictly increase along the sequence (so they are also unique).
pub open spec fn ids_ascending(s: Seq<TodoView>) -> bool {
    forall|i: int, j: int| 0 <= i < j < s.len() ==> s[i].id < s[j].id
}

/// Some task of `s` has the given id.
pub open spec fn has_id(s: Seq<TodoView>, id: u32) -> bool {
    exists|i: int| 0 <= i < s.len() && s[i].id == id
}

/// Keeps the tasks whose id is below `id`.
pub open spec fn id_below(id: u32) -> spec_fn(TodoView) -> bool {
    |x: TodoView| x.id < id
}

/// Keeps the tasks whose id is above `id`.
pub open spec fn id_above(id: u32) -> spec_fn(TodoView) -> bool {
    |x: TodoView| x.id > id
}

/// Keeps the tasks whose id is not `id`.
pub open spec fn id_other_than(id: u32) -> spec_fn(TodoView) -> bool {
    |x: TodoView| x.id != id
}

/// `t` put in its place by id: the tasks with smaller ids, then `t`, then
/// the tasks with larger ids. A task with the same id as `t` is replaced.
pub open spec fn put(s: Seq<TodoView>, t: TodoView) -> Seq<TodoView> {
    s.filter(id_below(t.id)) + seq![t] + s.filter(id_above(t.id))
}

/// Each item of `items` put in place in turn, starting from `s`; of two
/// items with one id the later one stays.
pub open spec fn put_all(s: Seq<TodoView>, items: Seq<TodoView>) -> Seq<TodoView>
    decreases items.len(),
{
    if items.len() == 0 {
        s
    } else {
        put(put_all(s, items.drop_last()), items.last())
    }
}

/// The tasks in the same order, the `i`-th of them with id `i + 1`.
pub open spec fn renumbered(s: Seq<TodoView>) -> Seq<TodoView> {
    Seq::new(s.len(), |i: int| TodoView { id: (i + 1) as u32, title: s[i].title, completed: s[i].completed })
}

/// The task with the given id marked done; the others as they are.
pub open spec fn marked_done(s: Seq<TodoView>, id: u32) -> Seq<TodoView> {
    s.map_values(|x: TodoView| if x.id == id { TodoView { id: x.id, title: x.title, completed: true } } else { x })
}

/// The fresh store: no task, and ids allocated from 1.
pub open spec fn empty_store() -> TodoListView {
    TodoListView { tasks: Seq::empty(), next_id: 1 }
}

/// The task that `add` creates in store `v`.
pub open spec fn new_task(v: TodoListView, title: Seq<char>) -> TodoView {
    TodoView { id: v.next_id, title, completed: false }
}

/// The store after `add(title)`.
pub open spec fn added(v: TodoListView, title: Seq<char>) -> TodoListView {
    TodoListView { tasks: put(v.tasks, new_task(v, title)), next_id: (v.next_id + 1) as u32 }
}

/// The store after `list()`: ids compacted to 1..=N, the counter at N + 1.
pub open spec fn listed(v: TodoListView) -> TodoListView {
    TodoListView { tasks: renumbered(v.tasks), next_id: (v.tasks.len() + 1) as u32 }
}

/// The store after `complete(id)`.
pub open spec fn completed(v: TodoListView, id: u32) -> TodoListView {
    TodoListView { tasks: marked_done(v.tasks, id), next_id: v.next_id }
}

/// The store after `remove(id)`.
pub open spec fn removed(v: TodoListView, id: u32) -> TodoListView {
    TodoListView { tasks: v.tasks.filter(id_other_than(id)), next_id: v.next_id }
}

/// The store after loading `items`: they replace the tasks, and the counter
/// is left as it was.
pub open spec fn loaded(v: TodoListView, items: Seq<TodoView>) -> TodoListView {
    TodoListView { tasks: put_all(Seq::empty(), items), next_id: v.next_id }
}

impl TodoListView {
    /// Well-formed: ids strictly ascending, so each id names at most one task.
    pub open spec fn wf(self) -> bool {
        ids_ascending(self.tasks)
    }
}

/// The views of a sequence of tasks.
pub open spec fn views_of(v: Seq<Todo>) -> Seq<TodoView> {
    v.map_values(|t: Todo| t@)
}

/// A filter that keeps every element gives the sequence back.
pub proof fn lemma_filter_keeps_all(s: Seq<TodoView>, f: spec_fn(TodoView) -> bool)
    requires
        forall|i: int| 0 <= i < s.len() ==> f(s[i]),
    ensures
        s.filter(f) == s,
    decreases s.len(),
{
    reveal(Seq::filter);
    if s.len() > 0 {
        lemma_filter_keeps_all(s.drop_last(), f);
        assert(s.drop_last().push(s.last()) =~= s);
    }
}

/// A filter that keeps no element gives the empty sequence.
pub proof fn lemma_filter_keeps_none(s: Seq<TodoView>, f: spec_fn(TodoView) -> bool)
    requires
        forall|i: int| 0 <= i < s.len() ==> !f(s[i]),
    ensures
        s.filter(f) == Seq::<TodoView>::empty(),
    decreases s.len(),
{
    reveal(Seq::filter);
    if s.len() > 0 {
        lemma_filter_keeps_none(s.drop_last(), f);
    }
}

/// Filtering `a + b` where every element of `a` is kept and none of `b`.
proof fn lemma_filter_front(a: Seq<TodoView>, b: Seq<TodoView>, f: spec_fn(TodoView) -> bool)
    requires
        forall|i: int| 0 <= i < a.len() ==> f(a[i]),
        forall|i: int| 0 <= i < b.len() ==> !f(b[i]),
    ensures
        (a + b).filter(f) == a,
{
    Seq::filter_distributes_over_add(a, b, f);
    lemma_filter_keeps_all(a, f);
    lemma_filter_keeps_none(b, f);
    assert(a + Seq::<TodoView>::empty() =~= a);
}

/// Filtering `a + b` where no element of `a` is kept and every one of `b`.
proof fn lemma_filter_back(a: Seq<TodoView>, b: Seq<TodoView>, f: spec_fn(TodoView) -> bool)
    requires
        forall|i: int| 0 <= i < a.len() ==> !f(a[i]),
        forall|i: int| 0 <= i < b.len() ==> f(b[i]),
    ensures
        (a + b).filter(f) == b,
{
    Seq::filter_distributes_over_add(a, b, f);
    lemma_filter_keeps_none(a, f);
    lemma_filter_keeps_all(b, f);
    assert(Seq::<TodoView>::empty() + b =~= b);
}

/// The tasks of `s` split at `p` and `q`: ids below `id` before `p`, equal to
/// it from `p` to `q`, above it from `q` on.
pub open spec fn split_by_id(s: Seq<TodoView>, id: u32, p: int, q: int) -> bool {
    &&& 0 <= p <= q <= s.len()
    &&& forall|i: int| 0 <= i < p ==> s[i].id < id
    &&& forall|i: int| p <= i < q ==> s[i].id == id
    &&& forall|i: int| q <= i < s.len() ==> s[i].id > id
}

proof fn lemma_split_below(s: Seq<TodoView>, id: u32, p: int, q: int)
    requires
        split_by_id(s, id, p, q),
    ensures
        s.filter(id_below(id)) == s.subrange(0, p),
{
    let a = s.subrange(0, p);
    let bc = s.subrange(p, s.len() as int);
    assert(s =~= a + bc);
    lemma_filter_front(a, bc, id_below(id));
}

proof fn lemma_split_above(s: Seq<TodoView>, id: u32, p: int, q: int)
    requires
        split_by_id(s, id, p, q),
    ensures
        s.filter(id_above(id)) == s.subrange(q, s.len() as int),
{
    let ab = s.subrange(0, q);
    let c = s.subrange(q, s.len() as int);
    assert(s =~= ab + c);
    lemma_filter_back(ab, c, id_above(id));
}

proof fn lemma_split_other(s: Seq<TodoView>, id: u32, p: int, q: int)
    requires
        split_by_id(s, id, p, q),
    ensures
        s.filter(id_other_than(id)) == s.subrange(0, p) + s.subrange(q, s.len() as int),
{
    let a = s.subrange(0, p);
    let b = s.subrange(p, q);
    let c = s.subrange(q, s.len() as int);
    let bc = s.subrange(p, s.len() as int);
    assert(s =~= a + bc);
    assert(bc =~= b + c);
    lemma_filter_back(b, c, id_other_than(id));
    Seq::filter_distributes_over_add(a, bc, id_other_than(id));
    lemma_filter_keeps_all(a, id_other_than(id));
}

/// Where `id` would stand in an ascending `s`: `p` is the first index whose
/// id is not below `id`, and `q` skips the task with that id if there is one.
pub proof fn lemma_split_at(s: Seq<TodoView>, id: u32, p: int, q: int)
    requires
        ids_ascending(s),
        0 <= p <= s.len(),
        forall|i: int| 0 <= i < p ==> s[i].id < id,
        forall|i: int| p <= i < s.len() ==> s[i].id >= id,
        q == (if p < s.len() && s[p].id == id { p + 1 } else { p }),
    ensures
        split_by_id(s, id, p, q),
        s.filter(id_below(id)) == s.subrange(0, p),
        s.filter(id_above(id)) == s.subrange(q, s.len() as int),
        s.filter(id_other_than(id)) == s.subrange(0, p) + s.subrange(q, s.len() as int),
        has_id(s, id) <==> q == p + 1,
{
    assert forall|i: int| q <= i < s.len() implies s[i].id > id by {
        if i == p {
            assert(s[p].id != id);
        } else {
            assert(s[p].id < s[i].id);
        }
    }
    lemma_split_below(s, id, p, q);
    lemma_split_above(s, id, p, q);
    lemma_split_other(s, id, p, q);
    if has_id(s, id) {
        let k = choose|k: int| 0 <= k < s.len() && s[k].id == id;
        if k > p {
            assert(s[p].id < s[k].id);
        }
    }
}

/// Putting a task into an ascending sequence keeps it ascending.
pub proof fn lemma_put_ascending(s: Seq<TodoView>, t: TodoView)
    requires
        ids_ascending(s),
    ensures
        ids_ascending(put(s, t)),
{
    let p = s.filter(id_below(t.id)).len();
    let below = s.filter(id_below(t.id));
    let above = s.filter(id_above(t.id));
    broadcast use Seq::lemma_filter_pred;
    assert forall|i: int, j: int| 0 <= i < j < below.len() implies below[i].id < below[j].id by {
        lemma_filter_subsequence(s, id_below(t.id), i, j);
    }
    assert forall|i: int, j: int| 0 <= i < j < above.len() implies above[i].id < above[j].id by {
        lemma_filter_subsequence(s, id_above(t.id), i, j);
    }
    let r = put(s, t);
    assert forall|i: int, j: int| 0 <= i < j < r.len() implies r[i].id < r[j].id by {
        if j < p {
        } else if j == p {
            assert(id_below(t.id)(below[i]));
        } else if i < p {
            assert(id_below(t.id)(below[i]));
            assert(id_above(t.id)(above[j - p - 1]));
        } else if i == p {
            assert(id_above(t.id)(above[j - p - 1]));
        } else {
        }
    }
}

/// Two elements of a filter keep their order from the original sequence,
/// so in an ascending sequence their ids stay ascending.
pub proof fn lemma_filter_subsequence(s: Seq<TodoView>, f: spec_fn(TodoView) -> bool, i: int, j: int)
    requires
        ids_ascending(s),
        0 <= i < j < s.filter(f).len(),
    ensures
        s.filter(f)[i].id < s.filter(f)[j].id,
    decreases s.len(),
{
    reveal(Seq::filter);
    let rest = s.drop_last();
    assert(ids_ascending(rest));
    if f(s.last()) && j == s.filter(f).len() - 1 {
        assert(rest.filter(f).contains(s.filter(f)[i])) by {
            assert(s.filter(f)[i] == rest.filter(f)[i]);
        }
        let k = choose|k: int| 0 <= k < rest.filter(f).len() && rest.filter(f)[k] == s.filter(f)[i];
        lemma_filter_in_seq(rest, f, k);
    } else {
        lemma_filter_subsequence(rest, f, i, j);
    }
}

/// Each element of a filter is an element of the sequence.
pub proof fn lemma_filter_in_seq(s: Seq<TodoView>, f: spec_fn(TodoView) -> bool, k: int)
    requires
        0 <= k < s.filter(f).len(),
    ensures
        exists|m: int| 0 <= m < s.len() && s[m] == s.filter(f)[k],
    decreases s.len(),
{
    reveal(Seq::filter);
    let rest = s.drop_last();
    if f(s.last()) && k == s.filter(f).len() - 1 {
        assert(s[s.len() - 1] == s.filter(f)[k]);
    } else {
        lemma_filter_in_seq(rest, f, k);
        let m = choose|m: int| 0 <= m < rest.len() && rest[m] == rest.filter(f)[k];
        assert(s[m] == s.filter(f)[k]);
    }
}

/// The store: tasks kept in ascending id order, and the id counter. The
/// constructor and every operation keep `@.wf()`: ids strictly ascending.
pub struct TodoList {
    todos: Vec<Todo>,
    next_id: u32,
}

impl View for TodoList {
    type V = TodoListView;

    closed spec fn view(&self) -> TodoListView {
        TodoListView { tasks: views_of(self.todos@), next_id: self.next_id }
    }
}

impl TodoList {
    /// An empty store whose first task gets id 1.
    pub fn new() -> (r: TodoList)
        ensures
            r@ == empty_store(),
            r@.wf(),
    {
        let r = TodoList { todos: Vec::new(), next_id: 1 };
        assert(r@.tasks =~= Seq::<TodoView>::empty());
        r
    }

    /// The id that the next added task receives.
    pub fn next_id(&self) -> (r: u32)
        ensures
            r == self@.next_id,
    {
        self.next_id
    }

    /// How many tasks the store holds.
    pub fn len(&self) -> (r: usize)
        ensures
            r == self@.tasks.len(),
    {
        self.todos.len()
    }

    /// The first index whose id is not below `id`.
    fn position(&self, id: u32) -> (p: usize)
        requires
            self@.wf(),
        ensures
            p <= self@.tasks.len(),
            forall|i: int| 0 <= i < p ==> self@.tasks[i].id < id,
            forall|i: int| p <= i < self@.tasks.len() ==> self@.tasks[i].id >= id,
    {
        let ghost s = self@.tasks;
        let mut p: usize = 0;
        while p < self.todos.len() && self.todos[p].id < id
            invariant
                s == self@.tasks,
                s == views_of(self.todos@),
                ids_ascending(s),
                p <= s.len(),
                forall|i: int| 0 <= i < p ==> s[i].id < id,
            decreases s.len() - p,
        {
            p += 1;
        }
        assert forall|i: int| p <= i < s.len() implies s[i].id >= id by {
            if i > p {
                assert(s[p as int].id < s[i].id);
            }
        }
        p
    }

    /// Puts `t` in its place by id, replacing a task with the same id.
    fn put_task(&mut self, t: Todo)
        requires
            old(self)@.wf(),
        ensures
            final(self)@.wf(),
            final(self)@.tasks == put(old(self)@.tasks, t@),
            final(self)@.next_id == old(self)@.next_id,
    {
        let ghost s = self@.tasks;
        let ghost tv = t@;
        let p = self.position(t.id);
        let q: usize = if p < self.todos.len() && self.todos[p].id == t.id { p + 1 } else { p };
        proof {
            lemma_split_at(s, tv.id, p as int, q as int);
            lemma_put_ascending(s, tv);
        }
        if q > p {
            self.todos.remove(p);
        }
        self.todos.insert(p, t);
        assert(self@.tasks =~= put(s, tv));
    }

    /// Adds a task with the next id; it is not done yet. A task that holds
    /// that id already is replaced.
    pub fn add(&mut self, title: &str) -> (r: Todo)
        requires
            old(self)@.wf(),
            old(self)@.next_id < u32::MAX,
        ensures
            final(self)@.wf(),
            final(self)@ == added(old(self)@, title@),
            r@ == new_task(old(self)@, title@),
    {
        let id = self.next_id;
        self.put_task(Todo::new(id, title));
        self.next_id = id + 1;
        Todo::new(id, title)
    }

    /// Marks the task with the given id done; tells whether there was one.
    /// Without such a task the store is left as it is.
    pub fn complete(&mut self, id: u32) -> (found: bool)
        requires
            old(self)@.wf(),
        ensures
            final(self)@.wf(),
            found == has_id(old(self)@.tasks, id),
            final(self)@ == completed(old(self)@, id),
            !found ==> final(self)@ == old(self)@,
    {
        let ghost s = self@.tasks;
        let p = self.position(id);
        let found = p < self.todos.len() && self.todos[p].id == id;
        let q: usize = if found { p + 1 } else { p };
        proof {
            lemma_split_at(s, id, p as int, q as int);
        }
        if found {
            let mut t = self.todos.remove(p);
            t.completed = true;
            self.todos.insert(p, t);
        }
        assert(self@.tasks =~= marked_done(s, id));
        found
    }

    /// Deletes the task with the given id; without one, nothing changes.
    pub fn remove(&mut self, id: u32)
        requires
            old(self)@.wf(),
        ensures
            final(self)@.wf(),
            final(self)@ == removed(old(self)@, id),
            !has_id(old(self)@.tasks, id) ==> final(self)@ == old(self)@,
    {
        let ghost s = self@.tasks;
        let p = self.position(id);
        let q: usize = if p < self.todos.len() && self.todos[p].id == id { p + 1 } else { p };
        proof {
            lemma_split_at(s, id, p as int, q as int);
        }
        if q > p {
            self.todos.remove(p);
        }
        assert(self@.tasks =~= s.filter(id_other_than(id)));
        assert(!has_id(s, id) ==> s.subrange(0, p as int) + s.subrange(q as int, s.len() as int) =~= s);
    }
}

impl TodoList {
    /// Compacts the ids: the tasks keep their order and get ids 1..=N, and
    /// the counter moves to N + 1.
    pub fn renumber_ids(&mut self)
        requires
            old(self)@.wf(),
            old(self)@.tasks.len() < u32::MAX,
        ensures
            final(self)@.wf(),
            final(self)@ == listed(old(self)@),
    {
        let ghost s = self@.tasks;
        let n = self.todos.len();
        let mut out: Vec<Todo> = Vec::new();
        let mut i: usize = 0;
        while i < n
            invariant
                n == self.todos.len(),
                n < u32::MAX,
                s == views_of(self.todos@),
                i <= n,
                views_of(out@) =~= renumbered(s).take(i as int),
            decreases n - i,
        {
            let t = &self.todos[i];
            let c = Todo { id: (i + 1) as u32, title: t.title.clone(), completed: t.completed };
            assert(c@ == renumbered(s)[i as int]);
            let ghost before = views_of(out@);
            out.push(c);
            assert(views_of(out@) =~= before.push(c@));
            assert(renumbered(s).take(i + 1) =~= renumbered(s).take(i as int).push(c@));
            i += 1;
        }
        self.todos = out;
        self.next_id = (n + 1) as u32;
        assert(self@.tasks =~= renumbered(s));
    }

    /// Compacts the ids (as `renumber_ids` does) and hands out the tasks in
    /// display order.
    pub fn list(&mut self) -> (r: Vec<Todo>)
        requires
            old(self)@.wf(),
            old(self)@.tasks.len() < u32::MAX,
        ensures
            final(self)@.wf(),
            final(self)@ == listed(old(self)@),
            views_of(r@) == final(self)@.tasks,
    {
        self.renumber_ids();
        self.todos()
    }

    /// A copy of the tasks in display order: what is persisted.
    pub fn todos(&self) -> (r: Vec<Todo>)
        ensures
            views_of(r@) == self@.tasks,
    {
        let n = self.todos.len();
        let mut out: Vec<Todo> = Vec::new();
        let mut i: usize = 0;
        while i < n
            invariant
                n == self.todos.len(),
                i <= n,
                views_of(out@) =~= self@.tasks.take(i as int),
            decreases n - i,
        {
            let t = &self.todos[i];
            let c = Todo { id: t.id, title: t.title.clone(), completed: t.completed };
            assert(c@ == self@.tasks[i as int]);
            let ghost before = views_of(out@);
            out.push(c);
            assert(views_of(out@) =~= before.push(c@));
            assert(self@.tasks.take(i + 1) =~= self@.tasks.take(i as int).push(c@));
            i += 1;
        }
        assert(self@.tasks.take(n as int) =~= self@.tasks);
        out
    }

    /// Replaces the tasks with `items`, each put in place by its id; of two
    /// items with one id the later stays. The id counter is left as it was.
    pub fn load(&mut self, items: Vec<Todo>)
        requires
            old(self)@.wf(),
        ensures
            final(self)@.wf(),
            final(self)@ == loaded(old(self)@, views_of(items@)),
    {
        let ghost iv = views_of(items@);
        self.todos = Vec::new();
        assert(self@.tasks =~= Seq::<TodoView>::empty());
        let mut rest = items;
        let ghost done = 0int;
        while rest.len() > 0
            invariant
                self@.wf(),
                0 <= done <= iv.len(),
                views_of(rest@) =~= iv.skip(done),
                self@.tasks == put_all(Seq::empty(), iv.take(done)),
                self@.next_id == old(self)@.next_id,
            decreases rest.len(),
        {
            assert(views_of(rest@).len() == rest@.len());
            assert(iv.skip(done)[0] == iv[done]);
            assert(views_of(rest@)[0] == iv[done]);
            let ghost before = rest@;
            let t = rest.remove(0);
            assert(views_of(rest@) =~= views_of(before).skip(1));
            proof {
                assert(iv.take(done + 1).drop_last() =~= iv.take(done));
                assert(iv[done] == t@);
                done = done + 1;
            }
            self.put_task(t);
        }
        assert(iv.take(iv.len() as int) =~= iv);
    }
}

} // verus!
