use tusk::codec::{decode, encode};
use tusk::error::StoreError;
use tusk::lifecycle::{create, load};
use tusk::registry::{get_current_store_path, StoreRegistry};
use tusk::status::{parse_status, Status, DEFAULT_STATUS};
use tusk::store::{Filter, Store};

fn fresh_store() -> Store {
    let bytes = create(None).unwrap();
    load(Some(&bytes)).unwrap()
}

fn ids(tasks: &[tusk::store::Task]) -> Vec<i32> {
    tasks.iter().map(|t| t.task_id()).collect()
}

#[test]
fn concrete_workflow_scenario() {
    let mut store = fresh_store();
    let id = store.add_task("write spec".to_string(), DEFAULT_STATUS);
    assert_eq!(id, 1);
    assert_eq!(store.get_task(1).unwrap().status(), Status::Backlog);
    assert_eq!(store.update_status(1, "Doing"), Ok(()));
    assert_eq!(store.get_task(1).unwrap().status(), Status::Doing);
    assert_eq!(store.update_status(1, "Done"), Ok(()));
    assert_eq!(
        store.update_status(1, "Todo"),
        Err(StoreError::InvalidTransition {
            task_id: 1,
            current: Status::Done,
            requested: "Todo".to_string(),
        })
    );
    assert_eq!(store.get_task(1).unwrap().status(), Status::Done);
    assert!(ids(&store.list_tasks(Filter::Active)).is_empty());
    assert_eq!(ids(&store.list_tasks(Filter::All)), vec![1]);
}

#[test]
fn minted_ids_strictly_increase() {
    let mut store = Store::new();
    let mut previous = 0;
    for i in 0..5 {
        let id = store.add_task(format!("task {}", i), Status::Todo);
        assert!(id > previous);
        previous = id;
    }
    assert_eq!(ids(&store.list_tasks(Filter::All)), vec![1, 2, 3, 4, 5]);
    assert_eq!(store.counter(), 5);
    assert_eq!(store.len(), 5);
}

#[test]
fn save_then_load_round_trips() {
    let mut store = Store::new();
    store.add_task("first".to_string(), Status::Backlog);
    store.add_task("zweite Aufgabe: grüße".to_string(), Status::Blocked);
    store.add_task(String::new(), Status::Rejected);
    let bytes = encode(&store);
    let back = decode(&bytes).unwrap();
    assert_eq!(back.counter(), 3);
    assert_eq!(back.len(), 3);
    for i in 0..3 {
        let a = store.task_at(i);
        let b = back.task_at(i);
        assert_eq!(a.task_id(), b.task_id());
        assert_eq!(a.status(), b.status());
        assert_eq!(a.title(), b.title());
    }
    assert_eq!(back.task_at(1).title(), "zweite Aufgabe: grüße");
}

#[test]
fn encoding_of_one_task_is_exact() {
    let mut store = Store::new();
    store.add_task("hi".to_string(), Status::Doing);
    let bytes = encode(&store);
    assert_eq!(
        bytes,
        vec![
            b'T', b'U', b'S', b'K', 1, 0, 0, 0, 1, 0, 0, 0, 2, 2, 0, 0, 0, 0, 0, 0, 0, b'h', b'i'
        ]
    );
}

#[test]
fn empty_store_encoding_is_exact() {
    let bytes = create(None).unwrap();
    assert_eq!(bytes, vec![b'T', b'U', b'S', b'K', 0, 0, 0, 0]);
}

#[test]
fn create_over_existing_store_is_refused() {
    let mut store = Store::new();
    store.add_task("keep me".to_string(), Status::Todo);
    let bytes = encode(&store);
    let original = bytes.clone();
    assert_eq!(create(Some(&bytes)), Err(StoreError::StoreAlreadyExists));
    assert_eq!(bytes, original);
}

#[test]
fn create_over_invalid_content_starts_empty() {
    let bytes = create(Some(b"not a store")).unwrap();
    assert_eq!(bytes, vec![b'T', b'U', b'S', b'K', 0, 0, 0, 0]);
}

#[test]
fn load_of_missing_store_fails() {
    assert!(matches!(load(None), Err(StoreError::StoreNotFound)));
}

#[test]
fn load_of_corrupt_store_fails() {
    assert!(matches!(load(Some(b"TUSX\0\0\0\0")), Err(StoreError::StoreCorrupt)));
    assert!(matches!(load(Some(b"TUS")), Err(StoreError::StoreCorrupt)));
    // a task header cut short
    assert!(matches!(
        load(Some(&[b'T', b'U', b'S', b'K', 1, 0, 0, 0, 1, 0])),
        Err(StoreError::StoreCorrupt)
    ));
}

#[test]
fn load_rejects_invalid_utf8_title() {
    let bytes = vec![
        b'T', b'U', b'S', b'K', 1, 0, 0, 0, 1, 0, 0, 0, 0, 1, 0, 0, 0, 0, 0, 0, 0, 0xff,
    ];
    assert!(matches!(decode(&bytes), Err(StoreError::StoreCorrupt)));
}

#[test]
fn load_rejects_unknown_status_code() {
    let bytes = vec![b'T', b'U', b'S', b'K', 1, 0, 0, 0, 1, 0, 0, 0, 9, 0, 0, 0, 0, 0, 0, 0, 0];
    assert!(matches!(decode(&bytes), Err(StoreError::StoreCorrupt)));
}

#[test]
fn load_rejects_id_above_counter() {
    let bytes = vec![b'T', b'U', b'S', b'K', 1, 0, 0, 0, 2, 0, 0, 0, 0, 0, 0, 0, 0, 0, 0, 0, 0];
    assert!(matches!(decode(&bytes), Err(StoreError::StoreCorrupt)));
}

#[test]
fn load_rejects_repeated_id() {
    let bytes = vec![
        b'T', b'U', b'S', b'K', 3, 0, 0, 0, //
        2, 0, 0, 0, 0, 0, 0, 0, 0, 0, 0, 0, 0, //
        2, 0, 0, 0, 1, 0, 0, 0, 0, 0, 0, 0, 0,
    ];
    assert!(matches!(decode(&bytes), Err(StoreError::StoreCorrupt)));
}

#[test]
fn load_accepts_ids_with_gaps() {
    let bytes = vec![
        b'T', b'U', b'S', b'K', 7, 0, 0, 0, //
        2, 0, 0, 0, 0, 0, 0, 0, 0, 0, 0, 0, 0, //
        5, 0, 0, 0, 4, 1, 0, 0, 0, 0, 0, 0, 0, b'x',
    ];
    let store = decode(&bytes).unwrap();
    assert_eq!(store.counter(), 7);
    assert_eq!(ids(&store.list_tasks(Filter::All)), vec![2, 5]);
    assert_eq!(ids(&store.list_tasks(Filter::Active)), vec![2]);
    assert_eq!(store.get_task(5).unwrap().title(), "x");
}

#[test]
fn terminal_statuses_refuse_every_transition() {
    for terminal in ["Done", "Rejected"] {
        let mut store = Store::new();
        store.add_task("t".to_string(), Status::Todo);
        assert_eq!(store.update_status(1, terminal), Ok(()));
        for target in ["Backlog", "Todo", "Doing", "Blocked", "Done", "Rejected"] {
            assert!(matches!(
                store.update_status(1, target),
                Err(StoreError::InvalidTransition { task_id: 1, .. })
            ));
            assert_eq!(store.get_task(1).unwrap().status(), parse_status(terminal).unwrap());
        }
    }
}

#[test]
fn unknown_status_name_is_invalid_transition() {
    let mut store = Store::new();
    store.add_task("t".to_string(), Status::Todo);
    assert_eq!(
        store.update_status(1, "Finished"),
        Err(StoreError::InvalidTransition {
            task_id: 1,
            current: Status::Todo,
            requested: "Finished".to_string(),
        })
    );
    assert_eq!(store.get_task(1).unwrap().status(), Status::Todo);
}

#[test]
fn missing_task_is_reported() {
    let mut store = Store::new();
    store.add_task("t".to_string(), Status::Todo);
    assert_eq!(store.update_status(2, "Doing"), Err(StoreError::TaskNotFound { task_id: 2 }));
    assert_eq!(
        store.update_title(7, "x".to_string()),
        Err(StoreError::TaskNotFound { task_id: 7 })
    );
    assert!(store.get_task(0).is_none());
}

#[test]
fn non_terminal_moves_are_free() {
    let mut store = Store::new();
    store.add_task("t".to_string(), Status::Blocked);
    assert_eq!(store.update_status(1, "backlog"), Ok(()));
    assert_eq!(store.get_task(1).unwrap().status(), Status::Backlog);
    assert_eq!(store.update_status(1, "Rejected"), Ok(()));
    assert_eq!(store.get_task(1).unwrap().status(), Status::Rejected);
}

#[test]
fn update_title_overwrites_only_that_task() {
    let mut store = Store::new();
    store.add_task("one".to_string(), Status::Todo);
    store.add_task("two".to_string(), Status::Todo);
    assert_eq!(store.update_title(2, "deux".to_string()), Ok(()));
    assert_eq!(store.get_task(1).unwrap().title(), "one");
    assert_eq!(store.get_task(2).unwrap().title(), "deux");
    assert_eq!(store.get_task(2).unwrap().task_id(), 2);
}

#[test]
fn status_names_parse() {
    assert_eq!(parse_status("Backlog"), Some(Status::Backlog));
    assert_eq!(parse_status("todo"), Some(Status::Todo));
    assert_eq!(parse_status("Doing"), Some(Status::Doing));
    assert_eq!(parse_status("blocked"), Some(Status::Blocked));
    assert_eq!(parse_status("Done"), Some(Status::Done));
    assert_eq!(parse_status("rejected"), Some(Status::Rejected));
    assert_eq!(parse_status("DONE"), None);
    assert_eq!(parse_status(""), None);
    assert_eq!(Status::Blocked.name(), "Blocked");
    assert!(Status::Done.is_terminal());
    assert!(!Status::Doing.is_terminal());
    assert!(Status::Todo.can_move_to(Status::Done));
    assert!(!Status::Rejected.can_move_to(Status::Todo));
}

#[test]
fn status_codes_round_trip() {
    for s in [Status::Backlog, Status::Todo, Status::Doing, Status::Blocked, Status::Done, Status::Rejected] {
        assert_eq!(Status::from_code(s.code()), Some(s));
    }
    assert_eq!(Status::from_code(6), None);
}

#[test]
fn switch_then_view_reports_new_path() {
    let mut registry = StoreRegistry::from_config(None);
    assert_eq!(get_current_store_path(&registry), "./default.tusk");
    registry.set_active_path("/tmp/b.tusk".to_string());
    assert_eq!(get_current_store_path(&registry), "/tmp/b.tusk");
    assert_eq!(registry.resolve(None), "/tmp/b.tusk");
}

#[test]
fn explicit_store_overrides_once() {
    let registry = StoreRegistry::from_config(Some("/tmp/a.tusk".to_string()));
    assert_eq!(registry.resolve(Some("/tmp/c.tusk".to_string())), "/tmp/c.tusk");
    assert_eq!(registry.resolve(None), "/tmp/a.tusk");
    assert_eq!(get_current_store_path(&registry), "/tmp/a.tusk");
}

#[test]
fn empty_config_record_means_default() {
    let registry = StoreRegistry::from_config(Some(String::new()));
    assert_eq!(get_current_store_path(&registry), "./default.tusk");
    assert_eq!(get_current_store_path(&StoreRegistry::new()), "./default.tusk");
}

#[test]
fn id_space_limit_is_visible() {
    let store = Store::new();
    assert!(store.has_room());
}
