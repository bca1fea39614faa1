use hubox::cache::{get_cached_response, set_cached_response, RequestCache, CACHE_TTL_MS};
use hubox::manager::{DetailError, NotificationManager, SubjectKind};
use hubox::session::AppSession;
use hubox::subject_url::{parse_u32, split_at_char, SubjectUrlError};
use hubox::types::{
    CustomState, HuBoxNotification, Owner, Repository, StorageData, Subject,
};

fn item(id: &str, updated_at: &str, is_done: Option<bool>) -> HuBoxNotification {
    HuBoxNotification {
        id: id.to_string(),
        reason: "mention".to_string(),
        repository: Repository {
            full_name: "acme/hub".to_string(),
            owner: Owner {
                login: "acme".to_string(),
            },
            name: "hub".to_string(),
        },
        subject: Subject {
            title: "Title".to_string(),
            subject_type: "Issue".to_string(),
            url: None,
            latest_comment_url: None,
        },
        updated_at: updated_at.to_string(),
        unread: true,
        url: "https://api.github.com/notifications/threads/9".to_string(),
        is_read: None,
        is_done,
        priority: None,
        last_viewed_at: None,
    }
}

fn with_subject(mut n: HuBoxNotification, kind: &str, url: Option<&str>) -> HuBoxNotification {
    n.subject.subject_type = kind.to_string();
    n.subject.url = url.map(|u| u.to_string());
    n
}

fn manager_with(notifications: Vec<HuBoxNotification>, active: &[&str], max: usize) -> NotificationManager {
    let mut storage = StorageData::default();
    storage.notifications = notifications;
    storage.active_batch_ids = active.iter().map(|s| s.to_string()).collect();
    storage.max_active = max;
    NotificationManager::new(storage, RequestCache::new())
}

fn ids(v: &[HuBoxNotification]) -> Vec<String> {
    v.iter().map(|n| n.id.clone()).collect()
}

#[test]
fn default_snapshot_is_empty_with_capacity_ten() {
    let s = StorageData::default();
    assert!(s.notifications.is_empty());
    assert!(s.active_batch_ids.is_empty());
    assert_eq!(s.custom_states.len(), 0);
    assert_eq!(s.last_sync, 0);
    assert_eq!(s.max_active, 10);
}

#[test]
fn merge_drops_ids_absent_from_remote() {
    let mut m = manager_with(vec![item("old", "2024-01-01T00:00:00Z", None)], &[], 10);
    m.merge_notifications(vec![item("new", "2024-01-02T00:00:00Z", None)]);
    assert_eq!(ids(&m.storage.notifications), vec!["new"]);
    assert_eq!(m.storage.notifications[0].is_read, None);
}

#[test]
fn merge_prefers_prior_record_over_custom_state() {
    let mut prior = item("1", "2024-01-01T00:00:00Z", Some(false));
    prior.priority = Some(5);
    let mut m = manager_with(vec![prior], &[], 10);
    m.storage.custom_states.insert(
        "1".to_string(),
        CustomState { is_read: true, is_done: true, priority: 9, last_viewed_at: 7 },
    );
    m.merge_notifications(vec![item("1", "2024-01-05T00:00:00Z", None)]);
    let n = &m.storage.notifications[0];
    assert_eq!(n.updated_at, "2024-01-05T00:00:00Z");
    assert_eq!(n.is_done, Some(false));
    assert_eq!(n.priority, Some(5));
    assert_eq!(n.is_read, None);
}

#[test]
fn merging_same_remote_list_twice_is_stable() {
    let mut m = manager_with(vec![item("a", "2024-01-01T00:00:00Z", Some(true))], &["a"], 2);
    m.storage.custom_states.insert(
        "b".to_string(),
        CustomState { is_read: true, is_done: false, priority: 1, last_viewed_at: 3 },
    );
    let remote = vec![
        item("a", "2024-01-02T00:00:00Z", None),
        item("b", "2024-01-03T00:00:00Z", None),
        item("c", "2024-01-04T00:00:00Z", None),
    ];
    m.sync(Ok(remote.clone()), 1000).unwrap();
    let first = m.storage.clone();
    m.sync(Ok(remote), 2000).unwrap();
    assert_eq!(format!("{:?}", first.notifications), format!("{:?}", m.storage.notifications));
    assert_eq!(first.active_batch_ids, m.storage.active_batch_ids);
    assert_eq!(m.storage.active_batch_ids, vec!["c", "b"]);
    assert_eq!(m.storage.last_sync, 2000);
}

#[test]
fn failed_fetch_goes_offline_and_keeps_snapshot() {
    let mut m = manager_with(vec![item("a", "2024-01-01T00:00:00Z", None)], &["a"], 10);
    let r = m.sync(Err("Failed to fetch notifications: 500".to_string()), 5);
    assert_eq!(r, Err("Failed to fetch notifications: 500".to_string()));
    assert!(!m.is_online);
    assert_eq!(ids(&m.storage.notifications), vec!["a"]);
    assert_eq!(m.storage.last_sync, 0);
    assert!(!m.get_stats().is_online);
}

#[test]
fn sync_records_given_time() {
    let mut m = manager_with(vec![], &[], 10);
    m.sync(Ok(vec![item("a", "2024-01-01T00:00:00Z", None)]), 1_700_000_000_000).unwrap();
    assert_eq!(m.storage.last_sync, 1_700_000_000_000);
    assert_eq!(m.storage.active_batch_ids, vec!["a"]);
    assert!(m.is_online);
}

#[test]
fn merge_keeps_one_record_per_id_last_wins() {
    let mut m = manager_with(vec![], &[], 10);
    m.merge_notifications(vec![
        item("x", "2024-01-01T00:00:00Z", None),
        item("y", "2024-01-02T00:00:00Z", None),
        item("x", "2024-01-03T00:00:00Z", None),
    ]);
    assert_eq!(ids(&m.storage.notifications), vec!["y", "x"]);
    assert_eq!(m.storage.notifications[1].updated_at, "2024-01-03T00:00:00Z");
}

#[test]
fn active_view_sorted_newest_first_regardless_of_storage_order() {
    let m = manager_with(
        vec![
            item("x", "2024-03-01T00:00:00Z", None),
            item("y", "2024-05-01T00:00:00Z", None),
            item("z", "2024-01-01T00:00:00Z", None),
            item("w", "2024-04-01T00:00:00Z", None),
        ],
        &["z", "x", "y"],
        10,
    );
    assert_eq!(ids(&m.get_in_progress()), vec!["y", "x", "z"]);
}

#[test]
fn equal_timestamps_keep_list_order() {
    let m = manager_with(
        vec![
            item("p", "2024-01-01T00:00:00Z", None),
            item("q", "2024-02-01T00:00:00Z", None),
            item("r", "2024-01-01T00:00:00Z", None),
        ],
        &[],
        10,
    );
    assert_eq!(ids(&m.get_all()), vec!["q", "p", "r"]);
}

#[test]
fn done_view_lists_only_done_items() {
    let m = manager_with(
        vec![
            item("a", "2024-01-01T00:00:00Z", Some(true)),
            item("b", "2024-01-02T00:00:00Z", None),
            item("c", "2024-01-03T00:00:00Z", Some(true)),
            item("d", "2024-01-04T00:00:00Z", Some(false)),
        ],
        &[],
        10,
    );
    assert_eq!(ids(&m.get_done()), vec!["c", "a"]);
}

#[test]
fn expansion_adds_ten_and_keeps_active_ids() {
    let mut notifications = Vec::new();
    for i in 0..15 {
        notifications.push(item(&format!("n{:02}", i), &format!("2024-01-{:02}T00:00:00Z", i + 1), None));
    }
    let mut m = manager_with(notifications, &["n00", "n01"], 2);
    m.recalculate_inbox();
    assert_eq!(m.storage.active_batch_ids, vec!["n00", "n01"]);
    m.expand_inbox();
    assert_eq!(m.storage.max_active, 12);
    assert_eq!(m.storage.active_batch_ids.len(), 12);
    assert_eq!(&m.storage.active_batch_ids[..3], &["n00", "n01", "n14"]);
    assert_eq!(m.storage.active_batch_ids[11], "n05");
}

#[test]
fn mark_as_read_sets_overlay_and_custom_state() {
    let mut n = item("a", "2024-01-01T00:00:00Z", None);
    n.priority = Some(4);
    let mut m = manager_with(vec![n], &["a"], 10);
    assert!(m.mark_as_read("a", 1234));
    assert_eq!(m.storage.notifications[0].is_read, Some(true));
    assert_eq!(m.storage.notifications[0].last_viewed_at, Some(1234));
    assert_eq!(
        m.storage.custom_states.get("a"),
        Some(&CustomState { is_read: true, is_done: false, priority: 4, last_viewed_at: 1234 })
    );
    assert_eq!(m.get_stats().app_unread, 0);
}

#[test]
fn mark_as_read_unknown_id_changes_nothing() {
    let mut m = manager_with(vec![item("a", "2024-01-01T00:00:00Z", None)], &["a"], 10);
    assert!(!m.mark_as_read("zzz", 5));
    assert_eq!(m.storage.notifications[0].is_read, None);
    assert_eq!(m.storage.custom_states.len(), 0);
}


#[test]
fn mark_as_done_backfills_the_freed_slot() {
    let mut m = manager_with(
        vec![
            item("a", "2024-01-01T00:00:00Z", None),
            item("b", "2024-01-02T00:00:00Z", None),
            item("c", "2024-01-03T00:00:00Z", None),
        ],
        &["b", "a"],
        2,
    );
    assert!(m.mark_as_done("b"));
    assert_eq!(m.storage.active_batch_ids, vec!["a", "c"]);
    assert_eq!(m.storage.notifications[1].is_done, Some(true));
    assert_eq!(m.storage.notifications[1].is_read, Some(true));
    assert_eq!(
        m.storage.custom_states.get("b"),
        Some(&CustomState { is_read: true, is_done: true, priority: 0, last_viewed_at: 0 })
    );
    assert!(!m.mark_as_done("nope"));
}

#[test]
fn stats_in_progress_matches_active_set() {
    let m = manager_with(
        vec![
            item("a", "2024-01-01T00:00:00Z", None),
            item("b", "2024-01-02T00:00:00Z", None),
        ],
        &["a", "b"],
        10,
    );
    let s = m.get_stats();
    assert_eq!(s.in_progress, 2);
    assert_eq!(s.app_unread, 2);
    assert_eq!(s.unread, 2);
    assert_eq!(s.done, 0);
    assert_eq!(s.total, 2);
}

#[test]
fn cache_entry_fresh_until_ttl() {
    let mut cache = RequestCache::new();
    let t: i64 = 1_700_000_000_000;
    set_cached_response(&mut cache, "https://x/y".to_string(), "body".to_string(), t);
    assert_eq!(get_cached_response(&cache, "https://x/y", t + 299_999), Some("body".to_string()));
    assert_eq!(get_cached_response(&cache, "https://x/y", t + 300_000), None);
    assert_eq!(get_cached_response(&cache, "https://x/y", t + 900_000), None);
    assert_eq!(get_cached_response(&cache, "https://x/z", t), None);
    assert_eq!(CACHE_TTL_MS, 300_000);
}

#[test]
fn cache_store_overwrites_entry() {
    let mut cache = RequestCache::new();
    set_cached_response(&mut cache, "k".to_string(), "one".to_string(), 0);
    set_cached_response(&mut cache, "k".to_string(), "two".to_string(), 400_000);
    assert_eq!(cache.len(), 1);
    assert_eq!(get_cached_response(&cache, "k", 400_001), Some("two".to_string()));
}

#[test]
fn cache_extreme_times_do_not_overflow() {
    let mut cache = RequestCache::new();
    set_cached_response(&mut cache, "k".to_string(), "v".to_string(), i64::MIN);
    assert_eq!(get_cached_response(&cache, "k", i64::MAX), None);
    set_cached_response(&mut cache, "k".to_string(), "v".to_string(), i64::MAX);
    assert_eq!(get_cached_response(&cache, "k", i64::MIN), Some("v".to_string()));
}

#[test]
fn detail_request_resolves_issue_and_pull_request() {
    let issue = with_subject(item("i", "2024-01-01T00:00:00Z", None), "Issue", Some("https://api.github.com/repos/acme/hub/issues/7"));
    let pr = with_subject(item("p", "2024-01-01T00:00:00Z", None), "PullRequest", Some("https://api.github.com/repos/o/r/pulls/+42"));
    let other = with_subject(item("o", "2024-01-01T00:00:00Z", None), "Release", Some("https://api.github.com/repos/o/r/releases/1"));
    let m = manager_with(vec![issue, pr, other], &[], 10);
    let d = m.detail_request("i").unwrap();
    assert_eq!((d.owner.as_str(), d.repo.as_str(), d.number, d.kind), ("acme", "hub", 7, SubjectKind::Issue));
    let d = m.detail_request("p").unwrap();
    assert_eq!((d.owner.as_str(), d.repo.as_str(), d.number, d.kind), ("o", "r", 42, SubjectKind::PullRequest));
    let d = m.detail_request("o").unwrap();
    assert_eq!(d.kind, SubjectKind::Other);
    let details = d.into_details(None, None, Some(vec![]));
    assert!(details.comments.is_none());
}

#[test]
fn detail_request_errors() {
    let none = item("n", "2024-01-01T00:00:00Z", None);
    let short = with_subject(item("s", "2024-01-01T00:00:00Z", None), "Issue", Some("https://api.github.com/issues/7"));
    let bad = with_subject(item("b", "2024-01-01T00:00:00Z", None), "Issue", Some("https://api.github.com/repos/a/b/issues/x7"));
    let big = with_subject(item("g", "2024-01-01T00:00:00Z", None), "Issue", Some("https://api.github.com/repos/a/b/issues/4294967296"));
    let m = manager_with(vec![none, short, bad, big], &[], 10);
    assert_eq!(m.detail_request("missing").unwrap_err(), DetailError::NotFound);
    assert_eq!(m.detail_request("n").unwrap_err(), DetailError::BadSubjectUrl(SubjectUrlError::MissingUrl));
    assert_eq!(m.detail_request("s").unwrap_err(), DetailError::BadSubjectUrl(SubjectUrlError::InvalidFormat));
    assert_eq!(m.detail_request("b").unwrap_err(), DetailError::BadSubjectUrl(SubjectUrlError::InvalidNumber));
    assert_eq!(m.detail_request("g").unwrap_err(), DetailError::BadSubjectUrl(SubjectUrlError::InvalidNumber));
    assert_eq!(DetailError::NotFound.message(), "Notification not found");
}

#[test]
fn parse_u32_matches_std() {
    for s in ["0", "+5", "4294967295", "4294967296", "", "+", "-1", "12a", "007", "99999999999999999999"] {
        assert_eq!(parse_u32(s), s.parse::<u32>().ok(), "{}", s);
    }
}

#[test]
fn split_matches_std() {
    for s in ["", "/", "a//b/", "https://api.github.com/repos/acme/hub/issues/123", "x"] {
        let expected: Vec<String> = s.split('/').map(|p| p.to_string()).collect();
        assert_eq!(split_at_char(s, '/'), expected);
    }
}

#[test]
fn session_without_manager_answers_empty_or_error() {
    let mut s = AppSession::new();
    assert!(s.get_in_progress().is_empty());
    assert!(s.get_all_notifications().is_empty());
    assert!(s.get_done_notifications().is_empty());
    let st = s.get_stats();
    assert_eq!((st.total, st.in_progress, st.last_sync, st.is_online), (0, 0, 0, false));
    assert_eq!(s.mark_as_read("a", 1), Err("Manager not initialized".to_string()));
    assert_eq!(s.mark_as_done("a"), Err("Manager not initialized".to_string()));
    assert_eq!(s.expand_inbox(), Err("Manager not initialized".to_string()));
    assert_eq!(s.detail_request("a").unwrap_err(), "Manager not initialized");
    assert_eq!(
        s.sync_notifications(Ok(vec![item("a", "2024-01-01T00:00:00Z", None)]), 1),
        Err("Manager not initialized".to_string())
    );
    assert!(!s.is_initialized());
}

#[test]
fn session_forwards_to_manager() {
    let mut s = AppSession::new();
    s.initialize(manager_with(vec![item("a", "2024-01-01T00:00:00Z", None)], &[], 1));
    assert!(s.is_initialized());
    assert_eq!(s.sync_notifications(Ok(vec![item("b", "2024-01-02T00:00:00Z", None)]), 10), Ok(()));
    assert_eq!(ids(&s.get_in_progress()), vec!["b"]);
    assert_eq!(s.mark_as_done("b"), Ok(true));
    assert_eq!(ids(&s.get_done_notifications()), vec!["b"]);
    assert_eq!(s.mark_as_read("zz", 10), Ok(false));
    assert_eq!(s.detail_request("zz").unwrap_err(), "Notification not found");
    assert_eq!(s.expand_inbox(), Ok(()));
    assert_eq!(s.manager.as_ref().unwrap().storage.max_active, 11);
    s.manager.as_mut().unwrap().storage.max_active = usize::MAX;
    assert_eq!(s.expand_inbox(), Err("Inbox capacity cannot grow further".to_string()));
    assert_eq!(s.sync_notifications(Err("boom".to_string()), 20), Err("boom".to_string()));
    assert!(!s.get_stats().is_online);
    s.clear();
    assert!(!s.is_initialized());
}
