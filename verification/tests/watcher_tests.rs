use buruma::constants::{EventType, KeeperState};
use buruma::watcher::{WatchedEvent, WatcherManager};

fn data_changed(path: &str) -> WatchedEvent {
    WatchedEvent {
        keep_state: KeeperState::SyncConnected,
        event_type: EventType::NodeDataChanged,
        path: path.to_string(),
    }
}

#[test]
fn data_watcher_fires_exactly_once() {
    let mut m = WatcherManager::new(false);
    m.register_data_watcher("/w".to_string(), 7).unwrap();

    let fired = m.find_need_triggered_watchers(&data_changed("/w"));
    assert_eq!(fired, vec![7]);

    // the drain is final: the same event again invokes nothing
    let fired_again = m.find_need_triggered_watchers(&data_changed("/w"));
    assert!(fired_again.is_empty());
}

#[test]
fn registration_is_idempotent_per_path_and_handle() {
    let mut m = WatcherManager::new(false);
    m.register_data_watcher("/w".to_string(), 7).unwrap();
    m.register_data_watcher("/w".to_string(), 7).unwrap();
    let fired = m.find_need_triggered_watchers(&data_changed("/w"));
    assert_eq!(fired, vec![7]);
}

#[test]
fn events_fire_only_their_path() {
    let mut m = WatcherManager::new(false);
    m.register_data_watcher("/a".to_string(), 1).unwrap();
    m.register_data_watcher("/b".to_string(), 2).unwrap();
    let fired = m.find_need_triggered_watchers(&data_changed("/b"));
    assert_eq!(fired, vec![2]);
    let fired = m.find_need_triggered_watchers(&data_changed("/a"));
    assert_eq!(fired, vec![1]);
}

#[test]
fn recursive_watcher_fires_on_self_and_descendants() {
    let mut m = WatcherManager::new(false);
    m.register_persistent_watcher("/a".to_string(), 9, true).unwrap();

    assert_eq!(m.find_need_triggered_watchers(&data_changed("/a")), vec![9]);
    assert_eq!(m.find_need_triggered_watchers(&data_changed("/a/b")), vec![9]);
    assert_eq!(m.find_need_triggered_watchers(&data_changed("/a/b/c")), vec![9]);
    // a sibling whose name merely begins with the same letters is no descendant
    assert!(m.find_need_triggered_watchers(&data_changed("/ab")).is_empty());
    // persistent entries survive every firing
    assert_eq!(m.find_need_triggered_watchers(&data_changed("/a")), vec![9]);
}

#[test]
fn root_recursive_watcher_sees_everything() {
    let mut m = WatcherManager::new(false);
    m.register_persistent_watcher("/".to_string(), 4, true).unwrap();
    assert_eq!(m.find_need_triggered_watchers(&data_changed("/")), vec![4]);
    assert_eq!(m.find_need_triggered_watchers(&data_changed("/x")), vec![4]);
    assert_eq!(m.find_need_triggered_watchers(&data_changed("/x/y")), vec![4]);
}

#[test]
fn persistent_watcher_fires_without_draining() {
    let mut m = WatcherManager::new(false);
    m.register_persistent_watcher("/p".to_string(), 5, false).unwrap();
    assert_eq!(m.find_need_triggered_watchers(&data_changed("/p")), vec![5]);
    assert_eq!(m.find_need_triggered_watchers(&data_changed("/p")), vec![5]);
    // a plain persistent watcher is not recursive
    assert!(m.find_need_triggered_watchers(&data_changed("/p/q")).is_empty());
}

#[test]
fn deletion_drains_all_one_shot_kinds() {
    let mut m = WatcherManager::new(false);
    m.register_data_watcher("/n".to_string(), 1).unwrap();
    m.register_exists_watcher("/n".to_string(), 2).unwrap();
    m.register_child_watcher("/n".to_string(), 3).unwrap();
    let ev = WatchedEvent {
        keep_state: KeeperState::SyncConnected,
        event_type: EventType::NodeDeleted,
        path: "/n".to_string(),
    };
    let fired = m.find_need_triggered_watchers(&ev);
    assert_eq!(fired, vec![1, 2, 3]);
    assert!(m.find_need_triggered_watchers(&data_changed("/n")).is_empty());
}

#[test]
fn children_changed_drains_only_child_watchers() {
    let mut m = WatcherManager::new(false);
    m.register_data_watcher("/n".to_string(), 1).unwrap();
    m.register_child_watcher("/n".to_string(), 3).unwrap();
    let ev = WatchedEvent {
        keep_state: KeeperState::SyncConnected,
        event_type: EventType::NodeChildrenChanged,
        path: "/n".to_string(),
    };
    assert_eq!(m.find_need_triggered_watchers(&ev), vec![3]);
    // the data watcher is still armed
    assert_eq!(m.find_need_triggered_watchers(&data_changed("/n")), vec![1]);
}

#[test]
fn connection_event_fires_all_and_obeys_reset_policy() {
    // with the reset disabled flag set, a non-synced state drains and
    // fires the one-shots; persistent watchers fire and are kept
    let mut m = WatcherManager::new(true);
    m.register_data_watcher("/a".to_string(), 1).unwrap();
    m.register_persistent_watcher("/a".to_string(), 2, false).unwrap();
    let ev = WatchedEvent {
        keep_state: KeeperState::Disconnected,
        event_type: EventType::NoEvent,
        path: String::new(),
    };
    assert_eq!(m.find_need_triggered_watchers(&ev), vec![1, 2]);
    // the one-shot table was cleared, the persistent entry kept
    assert_eq!(m.find_need_triggered_watchers(&data_changed("/a")), vec![2]);

    // without the flag, one-shots stay registered and silent
    let mut m = WatcherManager::new(false);
    m.register_data_watcher("/a".to_string(), 1).unwrap();
    m.register_persistent_watcher("/a".to_string(), 2, false).unwrap();
    let ev = WatchedEvent {
        keep_state: KeeperState::Disconnected,
        event_type: EventType::NoEvent,
        path: String::new(),
    };
    assert_eq!(m.find_need_triggered_watchers(&ev), vec![2]);
    // the one-shot watcher is still armed for its real node event
    assert_eq!(m.find_need_triggered_watchers(&data_changed("/a")), vec![1, 2]);

    // a synced connection event never drains one-shots, whatever the flag
    let mut m = WatcherManager::new(true);
    m.register_data_watcher("/a".to_string(), 1).unwrap();
    let ev = WatchedEvent {
        keep_state: KeeperState::SyncConnected,
        event_type: EventType::NoEvent,
        path: String::new(),
    };
    assert!(m.find_need_triggered_watchers(&ev).is_empty());
    assert_eq!(m.find_need_triggered_watchers(&data_changed("/a")), vec![1]);
}
