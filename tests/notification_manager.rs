use hubox::cache::RequestCache;
use hubox::manager::NotificationManager;
use hubox::types::{
    CustomState, HuBoxNotification, Owner, Repository, StorageData, Subject,
};

fn repo(owner: &str, name: &str) -> Repository {
    Repository {
        full_name: format!("{}/{}", owner, name),
        owner: Owner {
            login: owner.to_string(),
        },
        name: name.to_string(),
    }
}

fn subject(subject_type: &str, url: Option<&str>) -> Subject {
    Subject {
        title: "Test".to_string(),
        subject_type: subject_type.to_string(),
        url: url.map(|value| value.to_string()),
        latest_comment_url: None,
    }
}

fn notification(
    id: &str,
    updated_at: &str,
    unread: bool,
    is_read: Option<bool>,
    is_done: Option<bool>,
) -> HuBoxNotification {
    HuBoxNotification {
        id: id.to_string(),
        reason: "assign".to_string(),
        repository: repo("octo", "hub"),
        subject: subject("Issue", None),
        updated_at: updated_at.to_string(),
        unread,
        url: "https://api.github.com/notifications/threads/1".to_string(),
        is_read,
        is_done,
        priority: None,
        last_viewed_at: None,
    }
}

fn test_manager(storage: StorageData) -> NotificationManager {
    NotificationManager::new(storage, RequestCache::new())
}

#[test]
fn merge_preserves_existing_custom_state() {
    let mut storage = StorageData::default();
    let mut existing = notification("1", "2024-01-01T00:00:00Z", true, Some(true), Some(true));
    existing.priority = Some(2);
    existing.last_viewed_at = Some(100);
    storage.notifications.push(existing);

    let mut manager = test_manager(storage);
    let api = vec![notification("1", "2024-02-01T00:00:00Z", false, None, None)];

    manager.merge_notifications(api);

    let merged = manager
        .storage
        .notifications
        .iter()
        .find(|n| n.id == "1")
        .expect("merged notification");

    assert_eq!(merged.updated_at, "2024-02-01T00:00:00Z");
    assert_eq!(merged.is_read, Some(true));
    assert_eq!(merged.is_done, Some(true));
    assert_eq!(merged.priority, Some(2));
    assert_eq!(merged.last_viewed_at, Some(100));
}

#[test]
fn merge_applies_custom_states_when_missing() {
    let mut storage = StorageData::default();
    storage.custom_states.insert(
        "2".to_string(),
        CustomState {
            is_read: true,
            is_done: false,
            priority: 3,
            last_viewed_at: 200,
        },
    );

    let mut manager = test_manager(storage);
    let api = vec![notification("2", "2024-03-01T00:00:00Z", true, None, None)];

    manager.merge_notifications(api);

    let merged = manager
        .storage
        .notifications
        .iter()
        .find(|n| n.id == "2")
        .expect("merged notification");

    assert_eq!(merged.is_read, Some(true));
    assert_eq!(merged.is_done, Some(false));
    assert_eq!(merged.priority, Some(3));
    assert_eq!(merged.last_viewed_at, Some(200));
}

#[test]
fn recalculate_inbox_preserves_and_fills_active_batch() {
    let mut storage = StorageData::default();
    storage.max_active = 2;
    storage.active_batch_ids = vec!["n2".to_string(), "n4".to_string()];
    storage.notifications = vec![
        notification("n1", "2024-01-01T00:00:00Z", true, None, None),
        notification("n2", "2024-01-02T00:00:00Z", true, None, None),
        notification("n3", "2024-01-03T00:00:00Z", true, None, None),
        notification("n4", "2024-01-04T00:00:00Z", true, None, Some(true)),
    ];

    let mut manager = test_manager(storage);
    manager.recalculate_inbox();

    assert_eq!(manager.storage.active_batch_ids, vec!["n2", "n3"]);
}

#[test]
fn get_in_progress_sorts_by_updated_at() {
    let mut storage = StorageData::default();
    storage.active_batch_ids = vec!["a", "b"].iter().map(|id| id.to_string()).collect();
    storage.notifications = vec![
        notification("a", "2024-01-01T00:00:00Z", true, None, None),
        notification("b", "2024-02-01T00:00:00Z", true, None, None),
    ];

    let manager = test_manager(storage);
    let result = manager.get_in_progress();

    assert_eq!(result.len(), 2);
    assert_eq!(result[0].id, "b");
    assert_eq!(result[1].id, "a");
}

#[test]
fn parse_subject_url_extracts_owner_repo_number() {
    let storage = StorageData::default();
    let manager = test_manager(storage);

    let mut notif = notification("x", "2024-01-01T00:00:00Z", true, None, None);
    notif.subject = subject(
        "Issue",
        Some("https://api.github.com/repos/acme/hub/issues/123"),
    );

    let (owner, repo, number) = manager.parse_subject_url(&notif).expect("parsed");
    assert_eq!(owner, "acme");
    assert_eq!(repo, "hub");
    assert_eq!(number, 123);
}

#[test]
fn get_stats_counts_notification_states() {
    let mut storage = StorageData::default();
    storage.active_batch_ids = vec!["a".to_string(), "b".to_string()];
    storage.notifications = vec![
        notification("a", "2024-01-01T00:00:00Z", true, Some(false), Some(false)),
        notification("b", "2024-01-02T00:00:00Z", false, Some(true), Some(true)),
        notification("c", "2024-01-03T00:00:00Z", true, None, Some(true)),
    ];

    let manager = test_manager(storage);
    let stats = manager.get_stats();

    assert_eq!(stats.total, 3);
    assert_eq!(stats.unread, 2);
    assert_eq!(stats.app_unread, 1);
    assert_eq!(stats.done, 2);
    assert_eq!(stats.in_progress, 2);
    assert_eq!(stats.is_online, true);
}
