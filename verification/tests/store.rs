use kuebiko::protocol::LabConfig;
use kuebiko::store::{Store, LAB_LIMIT};

fn config(objective: &str) -> LabConfig {
    LabConfig {
        workspace: "/lab".to_string(),
        program: "/lab/a.out".to_string(),
        args: vec!["1".to_string()],
        debugger: "gdb".to_string(),
        python: "python3".to_string(),
        objective: objective.to_string(),
    }
}

fn ids(store: &Store) -> Vec<String> {
    store.list().into_iter().map(|lab| lab.id).collect()
}

#[test]
fn a_lab_that_was_put_is_found() {
    let mut store = Store::new();
    assert!(store.get("a").is_none());
    store.put("a".to_string(), config("x"), None, 1);
    store.put("b".to_string(), config("y"), Some("t".to_string()), 2);
    let lab = store.get("b").unwrap();
    assert_eq!(lab.id, "b");
    assert_eq!(lab.config, config("y"));
    assert_eq!(lab.thread_id.as_deref(), Some("t"));
    assert_eq!(lab.updated_at, 2);
    assert_eq!(store.get("a").unwrap().config.objective, "x");
    assert!(store.get("c").is_none());
}

#[test]
fn the_latest_lab_comes_first() {
    let mut store = Store::new();
    for id in ["a", "b", "c"] {
        store.put(id.to_string(), config(id), None, 0);
    }
    assert_eq!(ids(&store), ["c", "b", "a"]);
    store.put("a".to_string(), config("again"), None, 9);
    assert_eq!(ids(&store), ["a", "c", "b"]);
    assert_eq!(store.get("a").unwrap().config.objective, "again");
}

#[test]
fn no_more_than_twenty_labs_are_kept() {
    let mut store = Store::new();
    for i in 0..25 {
        store.put(i.to_string(), config("x"), None, i);
    }
    assert_eq!(LAB_LIMIT, 20);
    assert_eq!(store.list().len(), 20);
    assert!(store.get("4").is_none());
    assert!(store.get("5").is_some());
    assert_eq!(ids(&store)[0], "24");
}

#[test]
fn putting_twice_is_putting_once() {
    let mut store = Store::new();
    for i in 0..20 {
        store.put(i.to_string(), config("x"), None, i);
    }
    let before = ids(&store);
    store.put("19".to_string(), config("x"), None, 19);
    assert_eq!(ids(&store), before);
}

#[test]
fn a_lab_that_is_used_again_pushes_none_out() {
    let mut store = Store::new();
    for i in 0..20 {
        store.put(i.to_string(), config("x"), None, i);
    }
    store.put("7".to_string(), config("again"), None, 99);
    assert_eq!(store.list().len(), LAB_LIMIT);
    for i in 0..20u64 {
        let lab = store.get(&i.to_string()).unwrap();
        assert_eq!(lab.updated_at, if i == 7 { 99 } else { i });
    }
    let others = (0..20).rev().filter(|i| *i != 7);
    let expected: Vec<String> = [7].into_iter().chain(others).map(|i| i.to_string()).collect();
    assert_eq!(ids(&store), expected);
    store.put("20".to_string(), config("x"), None, 100);
    assert!(store.get("0").is_none());
    assert!(store.get("1").is_some());
}
