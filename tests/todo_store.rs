use little_todo::{Todo, TodoList};

fn ids(v: &[Todo]) -> Vec<u32> {
    v.iter().map(|t| t.id).collect()
}

fn triples(v: &[Todo]) -> Vec<(u32, String, bool)> {
    v.iter().map(|t| (t.id, t.title.clone(), t.completed)).collect()
}

fn todo(id: u32, title: &str, completed: bool) -> Todo {
    Todo { id, title: title.to_string(), completed }
}

#[test]
fn new_todo_is_not_done() {
    let t = Todo::new(7, "Read");
    assert_eq!(t.id, 7);
    assert_eq!(t.title, "Read");
    assert!(!t.completed);
}

#[test]
fn new_store_is_empty() {
    let s = TodoList::new();
    assert_eq!(s.len(), 0);
    assert_eq!(s.next_id(), 1);
    assert!(s.todos().is_empty());
}

#[test]
fn add_ids_increase_from_one() {
    let mut s = TodoList::new();
    let a = s.add("a");
    let b = s.add("b");
    let c = s.add("c");
    assert_eq!((a.id, b.id, c.id), (1, 2, 3));
    assert_eq!(a.title, "a");
    assert!(!c.completed);
    assert_eq!(ids(&s.todos()), vec![1, 2, 3]);
    assert_eq!(s.next_id(), 4);
}

#[test]
fn list_is_dense_after_removals() {
    let mut s = TodoList::new();
    for t in ["a", "b", "c", "d", "e"] {
        s.add(t);
    }
    s.remove(1);
    s.remove(3);
    s.remove(5);
    assert_eq!(ids(&s.todos()), vec![2, 4]);
    let out = s.list();
    assert_eq!(triples(&out), vec![(1, "b".to_string(), false), (2, "d".to_string(), false)]);
    assert_eq!(s.next_id(), 3);
    assert_eq!(s.add("f").id, 3);
}

#[test]
fn list_twice_is_the_same() {
    let mut s = TodoList::new();
    s.add("a");
    s.add("b");
    s.add("c");
    s.remove(2);
    s.complete(3);
    let first = triples(&s.list());
    let second = triples(&s.list());
    assert_eq!(first, second);
    assert_eq!(first, vec![(1, "a".to_string(), false), (2, "c".to_string(), true)]);
}

#[test]
fn complete_absent_id_changes_nothing() {
    let mut s = TodoList::new();
    s.add("a");
    s.add("b");
    let before = triples(&s.todos());
    assert!(!s.complete(9));
    assert_eq!(triples(&s.todos()), before);
    assert_eq!(s.next_id(), 3);
}

#[test]
fn complete_twice_stays_done() {
    let mut s = TodoList::new();
    s.add("a");
    assert!(s.complete(1));
    assert!(s.complete(1));
    assert_eq!(triples(&s.todos()), vec![(1, "a".to_string(), true)]);
}

#[test]
fn remove_absent_id_changes_nothing() {
    let mut s = TodoList::new();
    s.add("a");
    s.add("b");
    let before = triples(&s.todos());
    s.remove(0);
    s.remove(3);
    assert_eq!(triples(&s.todos()), before);
    assert_eq!(s.next_id(), 3);
}

#[test]
fn remove_waits_for_list_to_renumber() {
    let mut s = TodoList::new();
    s.add("a");
    s.add("b");
    s.add("c");
    s.remove(1);
    s.remove(3);
    assert_eq!(triples(&s.todos()), vec![(2, "b".to_string(), false)]);

    let mut t = TodoList::new();
    t.add("a");
    t.add("b");
    t.add("c");
    t.remove(1);
    t.list();
    t.remove(3);
    assert_eq!(triples(&t.todos()), vec![(1, "b".to_string(), false), (2, "c".to_string(), false)]);
}

#[test]
fn save_then_load_round_trip() {
    let mut s = TodoList::new();
    s.add("a");
    s.add("b");
    s.add("c");
    s.complete(2);
    s.remove(1);
    let saved = s.todos();
    let mut fresh = TodoList::new();
    fresh.load(saved);
    assert_eq!(triples(&fresh.todos()), triples(&s.todos()));
    assert_eq!(fresh.next_id(), 1);
}

#[test]
fn load_keeps_the_counter_so_add_can_replace() {
    let mut s = TodoList::new();
    s.load(vec![todo(2, "b", false), todo(1, "a", true)]);
    assert_eq!(triples(&s.todos()), vec![(1, "a".to_string(), true), (2, "b".to_string(), false)]);
    assert_eq!(s.next_id(), 1);
    s.add("new");
    assert_eq!(triples(&s.todos()), vec![(1, "new".to_string(), false), (2, "b".to_string(), false)]);
    assert_eq!(s.next_id(), 2);
}

#[test]
fn load_later_item_with_same_id_wins() {
    let mut s = TodoList::new();
    s.add("old");
    s.load(vec![todo(5, "x", false), todo(5, "y", true)]);
    assert_eq!(triples(&s.todos()), vec![(5, "y".to_string(), true)]);
    assert_eq!(s.next_id(), 2);
}

#[test]
fn scenario_milk_and_dog() {
    let mut s = TodoList::new();
    assert_eq!(s.add("Buy milk").id, 1);
    assert_eq!(s.add("Walk dog").id, 2);
    assert!(s.complete(1));
    assert_eq!(triples(&s.todos())[0], (1, "Buy milk".to_string(), true));
    s.remove(1);
    assert_eq!(triples(&s.todos()), vec![(2, "Walk dog".to_string(), false)]);
    let out = s.list();
    assert_eq!(ids(&out), vec![1]);
    let lines: Vec<String> = out.iter().map(|t| t.line()).collect();
    assert_eq!(lines, vec!["1: [ ] Walk dog".to_string()]);
}

#[test]
fn scenario_empty_list() {
    let mut s = TodoList::new();
    let out = s.list();
    assert!(out.is_empty());
    assert_eq!(s.next_id(), 1);
}

#[test]
fn line_shows_done_mark() {
    assert_eq!(todo(12, "Pay rent", true).line(), "12: [X] Pay rent");
    assert_eq!(todo(0, "", false).line(), "0: [ ] ");
    assert_eq!(todo(4294967295, "max", false).line(), "4294967295: [ ] max");
    assert_eq!(todo(10, "ten", false).line(), "10: [ ] ten");
}
