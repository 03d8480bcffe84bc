use vstd::prelude::*;
use crate::store::{
    added, completed, empty_store, has_id, id_above, id_below, id_other_than, ids_ascending,
    lemma_filter_keeps_all, lemma_filter_keeps_none, listed, loaded, put, put_all, removed,
    renumbered, TodoListView,
};
use crate::todo::TodoView;

verus! {

/// The store after `add` of each title in turn.
pub open spec fn added_all(v: TodoListView, titles: Seq<Seq<char>>) -> TodoListView
    decreases titles.len(),
{
    if titles.len() == 0 {
        v
    } else {
        added(added_all(v, titles.drop_last()), titles.last())
    }
}

/// A task put after all tasks with smaller ids lands at the end.
proof fn lemma_put_at_end(s: Seq<TodoView>, t: TodoView)
    requires
        forall|i: int| 0 <= i < s.len() ==> s[i].id < t.id,
    ensures
        put(s, t) == s.push(t),
{
    lemma_filter_keeps_all(s, id_below(t.id));
    lemma_filter_keeps_none(s, id_above(t.id));
    assert(s + seq![t] + Seq::<TodoView>::empty() =~= s.push(t));
}

/// Adding titles one after another to a fresh store creates ids 1, 2, 3, ...
/// in that order: the task of the `i`-th title has id `i + 1`, and the
/// counter ends one past the last.
pub proof fn law_add_ids_increase(titles: Seq<Seq<char>>)
    requires
        titles.len() < u32::MAX,
    ensures
        added_all(empty_store(), titles).tasks == Seq::new(
            titles.len(),
            |i: int| TodoView { id: (i + 1) as u32, title: titles[i], completed: false },
        ),
        added_all(empty_store(), titles).next_id == titles.len() + 1,
    decreases titles.len(),
{
    if titles.len() == 0 {
        assert(added_all(empty_store(), titles).tasks =~= Seq::new(
            titles.len(),
            |i: int| TodoView { id: (i + 1) as u32, title: titles[i], completed: false },
        ));
    } else {
        let rest = titles.drop_last();
        law_add_ids_increase(rest);
        let before = added_all(empty_store(), rest);
        let t = TodoView { id: before.next_id, title: titles.last(), completed: false };
        lemma_put_at_end(before.tasks, t);
        assert(added_all(empty_store(), titles).tasks =~= Seq::new(
            titles.len(),
            |i: int| TodoView { id: (i + 1) as u32, title: titles[i], completed: false },
        ));
    }
}

/// After `list` the ids are exactly 1..=N in ascending order, whatever ids
/// the tasks had before, and the counter is N + 1.
pub proof fn law_list_dense(v: TodoListView)
    requires
        v.tasks.len() < u32::MAX,
    ensures
        listed(v).tasks.len() == v.tasks.len(),
        forall|i: int| 0 <= i < v.tasks.len() ==> #[trigger] listed(v).tasks[i].id == i + 1,
        ids_ascending(listed(v).tasks),
        listed(v).next_id == v.tasks.len() + 1,
{
}

/// Listing twice in a row gives the same store as listing once.
pub proof fn law_list_idempotent(v: TodoListView)
    requires
        v.tasks.len() < u32::MAX,
    ensures
        listed(listed(v)) == listed(v),
{
    assert(renumbered(renumbered(v.tasks)) =~= renumbered(v.tasks));
}

/// `complete` of an id that no task holds leaves the store as it is.
pub proof fn law_complete_absent(v: TodoListView, id: u32)
    requires
        !has_id(v.tasks, id),
    ensures
        completed(v, id) == v,
{
    assert(completed(v, id).tasks =~= v.tasks);
}

/// `remove` of an id that no task holds leaves the store as it is.
pub proof fn law_remove_absent(v: TodoListView, id: u32)
    requires
        !has_id(v.tasks, id),
    ensures
        removed(v, id) == v,
{
    lemma_filter_keeps_all(v.tasks, id_other_than(id));
}

/// Putting the tasks of an ascending sequence, in order, into an empty
/// sequence rebuilds it.
proof fn lemma_put_all_ascending(s: Seq<TodoView>)
    requires
        ids_ascending(s),
    ensures
        put_all(Seq::empty(), s) == s,
    decreases s.len(),
{
    if s.len() > 0 {
        let rest = s.drop_last();
        assert(ids_ascending(rest));
        lemma_put_all_ascending(rest);
        lemma_put_at_end(rest, s.last());
        assert(rest.push(s.last()) =~= s);
    }
}

/// Loading the tasks that a well-formed store hands out (its snapshot)
/// into any store, a fresh one included, reproduces exactly those tasks;
/// the counter of the loading store is kept.
pub proof fn law_save_load(saved: TodoListView, target: TodoListView)
    requires
        saved.wf(),
    ensures
        loaded(target, saved.tasks).tasks == saved.tasks,
        loaded(target, saved.tasks).next_id == target.next_id,
{
    lemma_put_all_ascending(saved.tasks);
}

} // verus!
