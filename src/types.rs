use vstd::prelude::*;

use crate::keyed::KeyedList;

verus! {

/// Copies an optional string, the copy equal to the given one.
pub fn duplicate_opt_string(s: &Option<String>) -> (r: Option<String>)
    ensures
        r == *s,
{
    match s {
        Some(v) => Some(v.clone()),
        None => None,
    }
}

#[derive(Debug, Clone)]
pub struct Owner {
    pub login: String,
}

impl Owner {
    pub fn duplicate(&self) -> (r: Self)
        ensures
            r == *self,
    {
        Owner { login: self.login.clone() }
    }
}

#[derive(Debug, Clone)]
pub struct Repository {
    pub full_name: String,
    pub owner: Owner,
    pub name: String,
}

impl Repository {
    pub fn duplicate(&self) -> (r: Self)
        ensures
            r == *self,
    {
        Repository {
            full_name: self.full_name.clone(),
            owner: self.owner.duplicate(),
            name: self.name.clone(),
        }
    }
}

#[derive(Debug, Clone)]
pub struct Subject {
    pub title: String,
    pub subject_type: String,
    pub url: Option<String>,
    pub latest_comment_url: Option<String>,
}

impl Subject {
    pub fn duplicate(&self) -> (r: Self)
        ensures
            r == *self,
    {
        Subject {
            title: self.title.clone(),
            subject_type: self.subject_type.clone(),
            url: duplicate_opt_string(&self.url),
            latest_comment_url: duplicate_opt_string(&self.latest_comment_url),
        }
    }
}

/// One notification thread: server-origin fields plus the app's own overlay
/// (`is_read`, `is_done`, `priority`, `last_viewed_at`).
#[derive(Debug, Clone)]
pub struct HuBoxNotification {
    pub id: String,
    pub reason: String,
    pub repository: Repository,
    pub subject: Subject,
    pub updated_at: String,
    pub unread: bool,
    pub url: String,
    pub is_read: Option<bool>,
    pub is_done: Option<bool>,
    pub priority: Option<i32>,
    pub last_viewed_at: Option<i64>,
}

impl HuBoxNotification {
    /// Marked done by the user.
    pub open spec fn done(self) -> bool {
        self.is_done == Some(true)
    }

    /// Marked read by the user.
    pub open spec fn read(self) -> bool {
        self.is_read == Some(true)
    }

    /// The same server-origin record carrying the given overlay fields.
    pub open spec fn with_overlay(
        self,
        is_read: Option<bool>,
        is_done: Option<bool>,
        priority: Option<i32>,
        last_viewed_at: Option<i64>,
    ) -> Self {
        HuBoxNotification { is_read, is_done, priority, last_viewed_at, ..self }
    }

    pub fn duplicate(&self) -> (r: Self)
        ensures
            r == *self,
    {
        HuBoxNotification {
            id: self.id.clone(),
            reason: self.reason.clone(),
            repository: self.repository.duplicate(),
            subject: self.subject.duplicate(),
            updated_at: self.updated_at.clone(),
            unread: self.unread,
            url: self.url.clone(),
            is_read: self.is_read,
            is_done: self.is_done,
            priority: self.priority,
            last_viewed_at: self.last_viewed_at,
        }
    }
}

#[derive(Debug, Clone)]
pub struct User {
    pub login: String,
    pub avatar_url: String,
}

#[derive(Debug, Clone)]
pub struct Comment {
    pub id: i64,
    pub user: User,
    pub body: String,
    pub created_at: String,
    pub updated_at: String,
}

/// A JSON document as serde_json holds it; carried through unread.
#[verifier::external_type_specification]
#[verifier::external_body]
pub struct ExJsonValue(serde_json::Value);

/// A notification with what the remote side returned about its subject.
#[derive(Debug, Clone)]
pub struct NotificationDetails {
    pub notification: HuBoxNotification,
    pub comments: Option<Vec<Comment>>,
    pub issue: Option<serde_json::Value>,
    pub pull_request: Option<serde_json::Value>,
}

#[derive(Debug, Clone, Copy, PartialEq, Eq)]
pub struct NotificationStats {
    pub total: usize,
    pub unread: usize,
    pub app_unread: usize,
    pub done: usize,
    pub in_progress: usize,
    pub last_sync: i64,
    pub is_online: bool,
}

/// Overlay fields remembered for an id independently of its notification record.
#[derive(Debug, Clone, Copy, PartialEq, Eq)]
pub struct CustomState {
    pub is_read: bool,
    pub is_done: bool,
    pub priority: i32,
    pub last_viewed_at: i64,
}

#[derive(Debug, Clone)]
pub struct CacheEntry {
    pub response: String,
    pub timestamp: i64,
}

/// Overlay fields remembered per notification id.
pub type CustomStates = KeyedList<CustomState>;

/// Capacity of the active set before any expansion.
pub const DEFAULT_MAX_ACTIVE: usize = 10;

/// The persisted snapshot: all notifications, the curated active set, the
/// remembered overlay fields, the time of the last sync and the capacity.
#[derive(Debug, Clone)]
pub struct StorageData {
    pub notifications: Vec<HuBoxNotification>,
    pub active_batch_ids: Vec<String>,
    pub custom_states: CustomStates,
    pub last_sync: i64,
    pub max_active: usize,
}

impl Default for StorageData {
    fn default() -> (r: Self)
        ensures
            r.notifications@.len() == 0,
            r.active_batch_ids@.len() == 0,
            r.custom_states@ == Map::<Seq<char>, CustomState>::empty(),
            r.last_sync == 0,
            r.max_active == DEFAULT_MAX_ACTIVE,
    {
        StorageData {
            notifications: Vec::new(),
            active_batch_ids: Vec::new(),
            custom_states: KeyedList::new(),
            last_sync: 0,
            max_active: DEFAULT_MAX_ACTIVE,
        }
    }
}

} // verus!
