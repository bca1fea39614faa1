use vstd::prelude::*;

use crate::cache::RequestCache;
use crate::inbox::{
    active_ids_eligible, active_set_wf, curate, curated, ids_of, in_batch, is_done,
    lemma_curated_idempotent, lemma_curated_wf, lemma_curation_keeps_active, lemma_only_len,
    lemma_only_members, only, select_done, select_in_batch,
};
use crate::reconcile::{
    first_index, has_id, index_of_id, lemma_merge_idempotent, lemma_merge_ids, merge_lists, merged,
    unique_ids,
};
use crate::subject_url::{parse_subject_url, subject_target, url_error_text, SubjectUrlError};
use crate::timeline::{is_newest_first, lemma_newest_first_sorted, newest_first, sort_newest_first};
use crate::types::{
    Comment, CustomState, HuBoxNotification, NotificationDetails, NotificationStats, StorageData,
};

verus! {

/// How much one expansion raises the capacity of the active set.
pub const EXPANSION_STEP: usize = 10;

pub open spec fn is_unread() -> spec_fn(HuBoxNotification) -> bool {
    |n: HuBoxNotification| n.unread
}

pub open spec fn is_not_read() -> spec_fn(HuBoxNotification) -> bool {
    |n: HuBoxNotification| !n.read()
}

/// The active view: notifications whose id is in the active set, newest first.
pub open spec fn in_progress_view(s: StorageData) -> Seq<HuBoxNotification> {
    newest_first(only(s.notifications@, in_batch(ids_of(s.active_batch_ids@))))
}

/// The counters that the stats report for a snapshot.
pub open spec fn stats_of(s: StorageData, is_online: bool) -> NotificationStats {
    NotificationStats {
        total: s.notifications@.len() as usize,
        unread: only(s.notifications@, is_unread()).len() as usize,
        app_unread: only(in_progress_view(s), is_not_read()).len() as usize,
        done: only(s.notifications@, is_done()).len() as usize,
        in_progress: s.active_batch_ids@.len() as usize,
        last_sync: s.last_sync,
        is_online,
    }
}

/// The snapshot with its active set recomputed.
pub open spec fn recurated(s: StorageData, active: Seq<String>) -> bool {
    ids_of(active) == curated(s.notifications@, ids_of(s.active_batch_ids@), s.max_active as nat)
}

/// A notification marked read at time `now`.
pub open spec fn read_at(n: HuBoxNotification, now: i64) -> HuBoxNotification {
    n.with_overlay(Some(true), n.is_done, n.priority, Some(now))
}

/// A notification marked done (and so read).
pub open spec fn done_now(n: HuBoxNotification) -> HuBoxNotification {
    n.with_overlay(Some(true), Some(true), n.priority, n.last_viewed_at)
}

pub open spec fn unwrap_bool(o: Option<bool>) -> bool {
    match o {
        Some(b) => b,
        None => false,
    }
}

pub open spec fn unwrap_i32(o: Option<i32>) -> i32 {
    match o {
        Some(v) => v,
        None => 0,
    }
}

pub open spec fn unwrap_i64(o: Option<i64>) -> i64 {
    match o {
        Some(v) => v,
        None => 0,
    }
}

/// The active view is sorted newest first, whatever the order of the stored
/// list, and holds exactly the stored notifications whose id is active.
pub proof fn lemma_in_progress_sorted(s: StorageData)
    ensures
        is_newest_first(in_progress_view(s)),
        in_progress_view(s).to_multiset() == only(
            s.notifications@,
            in_batch(ids_of(s.active_batch_ids@)),
        ).to_multiset(),
{
    lemma_newest_first_sorted(only(s.notifications@, in_batch(ids_of(s.active_batch_ids@))));
}

/// Applying the same fetched list twice in a row leaves the notifications
/// and the active set as the first application left them (only the time of
/// the last sync moves), when the list names each id once.
pub proof fn lemma_sync_idempotent(s: StorageData, remote: Seq<HuBoxNotification>)
    requires
        unique_ids(remote),
    ensures
        ({
            let notifs = merged(s.notifications@, s.custom_states@, remote);
            let active = curated(notifs, ids_of(s.active_batch_ids@), s.max_active as nat);
            &&& merged(notifs, s.custom_states@, remote) == notifs
            &&& curated(merged(notifs, s.custom_states@, remote), active, s.max_active as nat)
                == active
        }),
{
    let notifs = merged(s.notifications@, s.custom_states@, remote);
    lemma_merge_idempotent(s.notifications@, s.custom_states@, remote);
    lemma_curated_idempotent(notifs, ids_of(s.active_batch_ids@), s.max_active as nat);
}

/// Expanding the inbox raises the capacity by `EXPANSION_STEP`, and the
/// recomputed active set keeps every active id in its place, as long as each
/// active id names a notification not marked done; from an active set with
/// no repeated id within the old capacity it keeps all the active-set
/// invariants at the new capacity.
pub proof fn lemma_expansion_keeps_active(s: StorageData)
    requires
        s.max_active <= usize::MAX - EXPANSION_STEP,
        active_ids_eligible(s.notifications@, ids_of(s.active_batch_ids@)),
    ensures
        ({
            let before = ids_of(s.active_batch_ids@);
            let after = curated(
                s.notifications@,
                before,
                (s.max_active + EXPANSION_STEP) as nat,
            );
            &&& after.len() >= before.len()
            &&& forall|i: int| 0 <= i < before.len() ==> #[trigger] after[i] == before[i]
            &&& (before.no_duplicates() && before.len() <= s.max_active) ==> active_set_wf(
                s.notifications@,
                after,
                (s.max_active + EXPANSION_STEP) as nat,
            )
        }),
{
    let before = ids_of(s.active_batch_ids@);
    if before.no_duplicates() && before.len() <= s.max_active {
        lemma_curated_wf(s.notifications@, before, (s.max_active + EXPANSION_STEP) as nat);
    }
    lemma_curation_keeps_active(
        s.notifications@,
        ids_of(s.active_batch_ids@),
        (s.max_active + EXPANSION_STEP) as nat,
    );
}

proof fn lemma_only_unique(s: Seq<HuBoxNotification>, p: spec_fn(HuBoxNotification) -> bool)
    requires
        unique_ids(s),
    ensures
        unique_ids(only(s, p)),
    decreases s.len(),
{
    if s.len() > 0 {
        let t = s.drop_last();
        assert forall|i: int, j: int|
            0 <= i < t.len() && 0 <= j < t.len() && i != j implies (#[trigger] t[i]).id@ != (
            #[trigger] t[j]).id@ by {
            assert(t[i] == s[i]);
            assert(t[j] == s[j]);
        }
        lemma_only_unique(t, p);
        lemma_only_members(t, p);
        let q = only(t, p);
        if p(s.last()) {
            let r = q.push(s.last());
            assert forall|i: int, j: int|
                0 <= i < r.len() && 0 <= j < r.len() && i != j implies (#[trigger] r[i]).id@ != (
                #[trigger] r[j]).id@ by {
                if i < q.len() && j < q.len() {
                    assert(r[i] == q[i] && r[j] == q[j]);
                } else if i < q.len() {
                    let k = choose|k: int| 0 <= k < t.len() && t[k] == q[i];
                    assert(s[k] == q[i]);
                    assert(s[s.len() - 1] == r[j]);
                } else {
                    let k = choose|k: int| 0 <= k < t.len() && t[k] == q[j];
                    assert(s[k] == q[j]);
                    assert(s[s.len() - 1] == r[i]);
                }
            }
        }
    }
}

/// The stats count the active set as `in_progress`, and never count more
/// active notifications unread by the app than that, when no two stored
/// notifications share an id.
pub proof fn lemma_stats_consistent(s: StorageData, is_online: bool)
    requires
        unique_ids(s.notifications@),
    ensures
        stats_of(s, is_online).in_progress == s.active_batch_ids@.len(),
        stats_of(s, is_online).app_unread <= stats_of(s, is_online).in_progress,
{
    let active = ids_of(s.active_batch_ids@);
    let members = only(s.notifications@, in_batch(active));
    let view = in_progress_view(s);
    assert(s.active_batch_ids.len() == s.active_batch_ids@.len());
    lemma_newest_first_sorted(members);
    lemma_only_len(view, is_not_read());
    lemma_only_unique(s.notifications@, in_batch(active));
    lemma_only_members(s.notifications@, in_batch(active));
    let member_ids = members.map_values(|n: HuBoxNotification| n.id@);
    assert(member_ids.no_duplicates()) by {
        assert forall|i: int, j: int|
            0 <= i < member_ids.len() && 0 <= j < member_ids.len() && i != j implies member_ids[i]
            != member_ids[j] by {
            assert(members[i].id@ != members[j].id@);
        }
    }
    member_ids.unique_seq_to_set();
    active.lemma_cardinality_of_set();
    assert(member_ids.to_set().subset_of(active.to_set())) by {
        assert forall|x: Seq<char>| member_ids.to_set().contains(x) implies active.to_set().contains(
            x,
        ) by {
            let k = choose|k: int| 0 <= k < member_ids.len() && member_ids[k] == x;
            assert(in_batch(active)(members[k]));
        }
    }
    vstd::seq_lib::seq_to_set_is_finite(active);
    vstd::set_lib::lemma_len_subset(member_ids.to_set(), active.to_set());
}

/// What a details lookup asks the remote side for.
#[derive(Debug, Clone, Copy, PartialEq, Eq)]
pub enum SubjectKind {
    Issue,
    PullRequest,
    Other,
}

pub open spec fn kind_of(subject_type: Seq<char>) -> SubjectKind {
    if subject_type == "Issue"@ {
        SubjectKind::Issue
    } else if subject_type == "PullRequest"@ {
        SubjectKind::PullRequest
    } else {
        SubjectKind::Other
    }
}

/// A resolved details lookup: the notification and where its subject lives.
#[derive(Debug, Clone)]
pub struct DetailRequest {
    pub notification: HuBoxNotification,
    pub owner: String,
    pub repo: String,
    pub number: u32,
    pub kind: SubjectKind,
}

/// Why a details lookup could not be resolved.
#[derive(Debug, Clone, Copy, PartialEq, Eq)]
pub enum DetailError {
    NotFound,
    BadSubjectUrl(SubjectUrlError),
}

/// The text that reports a details lookup error.
pub open spec fn detail_error_text(e: DetailError) -> Seq<char> {
    match e {
        DetailError::NotFound => "Notification not found"@,
        DetailError::BadSubjectUrl(u) => url_error_text(u),
    }
}

/// `r` is what a details lookup of `id` answers over `notifs`: not found
/// without a notification of that id, else the resolution of the first such
/// notification's subject URL.
pub open spec fn detail_resolved(
    notifs: Seq<HuBoxNotification>,
    id: Seq<char>,
    r: Result<DetailRequest, DetailError>,
) -> bool {
    match first_index(notifs, id) {
        None => r == Err::<DetailRequest, DetailError>(DetailError::NotFound),
        Some(j) => {
            let n = notifs[j];
            match subject_target(n.subject.url) {
                Err(e) => r == Err::<DetailRequest, DetailError>(DetailError::BadSubjectUrl(e)),
                Ok((owner, repo, number)) => match r {
                    Ok(d) => d.notification == n && d.owner@ == owner && d.repo@ == repo
                        && d.number == number && d.kind == kind_of(n.subject.subject_type@),
                    Err(_) => false,
                },
            }
        },
    }
}

impl DetailError {
    pub fn message(&self) -> (r: String)
        ensures
            r@ == detail_error_text(*self),
    {
        match self {
            DetailError::NotFound => "Notification not found".to_owned(),
            DetailError::BadSubjectUrl(e) => e.message(),
        }
    }
}

impl DetailRequest {
    /// The details answer for this request from what the fetches returned:
    /// an issue body only for an issue, a pull request body only for a pull
    /// request, comments for either, and nothing fetched for another kind.
    pub fn into_details(
        self,
        issue: Option<serde_json::Value>,
        pull_request: Option<serde_json::Value>,
        comments: Option<Vec<Comment>>,
    ) -> (r: NotificationDetails)
        ensures
            r.notification == self.notification,
            r.issue == (if self.kind == SubjectKind::Issue {
                issue
            } else {
                None
            }),
            r.pull_request == (if self.kind == SubjectKind::PullRequest {
                pull_request
            } else {
                None
            }),
            r.comments == (if self.kind == SubjectKind::Other {
                None
            } else {
                comments
            }),
    {
        let (issue, pull_request, comments) = match self.kind {
            SubjectKind::Issue => (issue, None, comments),
            SubjectKind::PullRequest => (None, pull_request, comments),
            SubjectKind::Other => (None, None, None),
        };
        NotificationDetails { notification: self.notification, comments, issue, pull_request }
    }
}

/// The session's state: the snapshot, the response cache and whether the
/// last fetch succeeded.
#[derive(Debug, Clone)]
pub struct NotificationManager {
    pub storage: StorageData,
    pub cache: RequestCache,
    pub is_online: bool,
}

/// `after` is `before` having taken the outcome `fetched` of a fetch made at
/// time `now`, and `r` is what that answers: a list is merged, the active set
/// recomputed and `now` recorded as the last sync; an error leaves the
/// snapshot as it was, marks the session offline and is handed back.
pub open spec fn fetch_applied(
    before: NotificationManager,
    after: NotificationManager,
    fetched: Result<Vec<HuBoxNotification>, String>,
    r: Result<(), String>,
    now: i64,
) -> bool {
    &&& after.cache == before.cache
    &&& match fetched {
        Ok(api) => {
            &&& r is Ok
            &&& after.is_online
            &&& after.storage.notifications@ == merged(
                before.storage.notifications@,
                before.storage.custom_states@,
                api@,
            )
            &&& ids_of(after.storage.active_batch_ids@) == curated(
                after.storage.notifications@,
                ids_of(before.storage.active_batch_ids@),
                before.storage.max_active as nat,
            )
            &&& after.storage.last_sync == now
            &&& after.storage.custom_states == before.storage.custom_states
            &&& after.storage.max_active == before.storage.max_active
        },
        Err(e) => {
            &&& r == Err::<(), String>(e)
            &&& !after.is_online
            &&& after.storage == before.storage
        },
    }
}

/// `after` is `before` with notification `id` marked done (and read), its
/// overlay remembered in the custom states and the active set recomputed to
/// fill the freed slot; unchanged when no notification has that id.
pub open spec fn marked_done(before: NotificationManager, after: NotificationManager, id: Seq<char>) -> bool {
    match first_index(before.storage.notifications@, id) {
        None => after == before,
        Some(j) => {
            let n = before.storage.notifications@[j];
            let notifs = before.storage.notifications@.update(j, done_now(n));
            &&& after.storage.notifications@ == notifs
            &&& after.storage.custom_states@ == before.storage.custom_states@.insert(
                id,
                CustomState {
                    is_read: true,
                    is_done: true,
                    priority: unwrap_i32(n.priority),
                    last_viewed_at: unwrap_i64(n.last_viewed_at),
                },
            )
            &&& ids_of(after.storage.active_batch_ids@) == curated(
                notifs,
                ids_of(before.storage.active_batch_ids@),
                before.storage.max_active as nat,
            )
            &&& after.storage.last_sync == before.storage.last_sync
            &&& after.storage.max_active == before.storage.max_active
            &&& after.cache == before.cache
            &&& after.is_online == before.is_online
        },
    }
}

/// `after` is `before` with the capacity raised by `EXPANSION_STEP` and the
/// active set recomputed at the new capacity.
pub open spec fn expanded(before: NotificationManager, after: NotificationManager) -> bool {
    &&& after.storage.max_active == before.storage.max_active + EXPANSION_STEP
    &&& ids_of(after.storage.active_batch_ids@) == curated(
        before.storage.notifications@,
        ids_of(before.storage.active_batch_ids@),
        after.storage.max_active as nat,
    )
    &&& after.storage.notifications == before.storage.notifications
    &&& after.storage.custom_states == before.storage.custom_states
    &&& after.storage.last_sync == before.storage.last_sync
    &&& after.cache == before.cache
    &&& after.is_online == before.is_online
}

/// `after` is `before` with notification `id` marked read at time `now` and
/// its overlay remembered in the custom states; unchanged when no
/// notification has that id.
pub open spec fn marked_read(
    before: NotificationManager,
    after: NotificationManager,
    id: Seq<char>,
    now: i64,
) -> bool {
    match first_index(before.storage.notifications@, id) {
        None => after == before,
        Some(j) => {
            let n = before.storage.notifications@[j];
            &&& after.storage.notifications@ == before.storage.notifications@.update(
                j,
                read_at(n, now),
            )
            &&& after.storage.custom_states@ == before.storage.custom_states@.insert(
                id,
                CustomState {
                    is_read: true,
                    is_done: unwrap_bool(n.is_done),
                    priority: unwrap_i32(n.priority),
                    last_viewed_at: now,
                },
            )
            &&& after.storage.active_batch_ids == before.storage.active_batch_ids
            &&& after.storage.last_sync == before.storage.last_sync
            &&& after.storage.max_active == before.storage.max_active
            &&& after.cache == before.cache
            &&& after.is_online == before.is_online
        },
    }
}

impl NotificationManager {
    /// A session over a loaded snapshot and cache, online until a fetch fails.
    pub fn new(storage: StorageData, cache: RequestCache) -> (r: Self)
        ensures
            r.storage == storage,
            r.cache == cache,
            r.is_online,
    {
        NotificationManager { storage, cache, is_online: true }
    }

    pub fn storage(&self) -> (r: &StorageData)
        ensures
            *r == self.storage,
    {
        &self.storage
    }

    /// Replace the notification list by the merge of `api_notifications` into it.
    pub fn merge_notifications(&mut self, api_notifications: Vec<HuBoxNotification>)
        ensures
            final(self).storage.notifications@ == merged(
                old(self).storage.notifications@,
                old(self).storage.custom_states@,
                api_notifications@,
            ),
            unique_ids(final(self).storage.notifications@),
            forall|k: int|
                0 <= k < api_notifications@.len() ==> has_id(
                    final(self).storage.notifications@,
                    #[trigger] api_notifications@[k].id@,
                ),
            forall|m: int|
                0 <= m < final(self).storage.notifications@.len() ==> has_id(
                    api_notifications@,
                    #[trigger] final(self).storage.notifications@[m].id@,
                ),
            final(self).storage.active_batch_ids == old(self).storage.active_batch_ids,
            final(self).storage.custom_states == old(self).storage.custom_states,
            final(self).storage.last_sync == old(self).storage.last_sync,
            final(self).storage.max_active == old(self).storage.max_active,
            final(self).cache == old(self).cache,
            final(self).is_online == old(self).is_online,
    {
        let merged_list = merge_lists(
            &self.storage.notifications,
            &self.storage.custom_states,
            &api_notifications,
        );
        self.storage.notifications = merged_list;
        proof {
            lemma_merge_ids(
                old(self).storage.notifications@,
                old(self).storage.custom_states@,
                api_notifications@,
            );
        }
    }

    /// Recompute the active set from the notification list.
    pub fn recalculate_inbox(&mut self)
        ensures
            recurated(old(self).storage, final(self).storage.active_batch_ids@),
            final(self).storage.notifications == old(self).storage.notifications,
            final(self).storage.custom_states == old(self).storage.custom_states,
            final(self).storage.last_sync == old(self).storage.last_sync,
            final(self).storage.max_active == old(self).storage.max_active,
            final(self).cache == old(self).cache,
            final(self).is_online == old(self).is_online,
    {
        let next = curate(
            &self.storage.notifications,
            &self.storage.active_batch_ids,
            self.storage.max_active,
        );
        self.storage.active_batch_ids = next;
    }

    /// Take the outcome of a fetch made at time `now`: a list is merged, the
    /// active set recomputed and `now` recorded as the last sync; an error
    /// leaves the snapshot as it was, marks the session offline and is handed back.
    pub fn sync(&mut self, fetched: Result<Vec<HuBoxNotification>, String>, now: i64) -> (r:
        Result<(), String>)
        ensures
            fetch_applied(*old(self), *final(self), fetched, r, now),
    {
        match fetched {
            Ok(api) => {
                self.is_online = true;
                self.merge_notifications(api);
                self.recalculate_inbox();
                self.storage.last_sync = now;
                Ok(())
            },
            Err(e) => {
                self.is_online = false;
                Err(e)
            },
        }
    }

    /// The active notifications, newest first.
    pub fn get_in_progress(&self) -> (r: Vec<HuBoxNotification>)
        ensures
            r@ == in_progress_view(self.storage),
    {
        let members = select_in_batch(&self.storage.notifications, &self.storage.active_batch_ids);
        sort_newest_first(&members)
    }

    /// All notifications, newest first.
    pub fn get_all(&self) -> (r: Vec<HuBoxNotification>)
        ensures
            r@ == newest_first(self.storage.notifications@),
    {
        sort_newest_first(&self.storage.notifications)
    }

    /// The notifications marked done, newest first.
    pub fn get_done(&self) -> (r: Vec<HuBoxNotification>)
        ensures
            r@ == newest_first(only(self.storage.notifications@, is_done())),
    {
        let done = select_done(&self.storage.notifications);
        sort_newest_first(&done)
    }

    /// Resolve the notification `id` and its subject URL for a details fetch.
    pub fn detail_request(&self, id: &str) -> (r: Result<DetailRequest, DetailError>)
        ensures
            detail_resolved(self.storage.notifications@, id@, r),
    {
        let j = match index_of_id(&self.storage.notifications, id) {
            Some(j) => j,
            None => return Err(DetailError::NotFound),
        };
        let notification = self.storage.notifications[j].duplicate();
        let (owner, repo, number) = match parse_subject_url(&notification) {
            Ok(t) => t,
            Err(e) => return Err(DetailError::BadSubjectUrl(e)),
        };
        let kind = if crate::text::str_eq(notification.subject.subject_type.as_str(), "Issue") {
            SubjectKind::Issue
        } else if crate::text::str_eq(notification.subject.subject_type.as_str(), "PullRequest") {
            SubjectKind::PullRequest
        } else {
            SubjectKind::Other
        };
        Ok(DetailRequest { notification, owner, repo, number, kind })
    }

    /// Resolve the subject of a notification into owner, repository and number.
    pub fn parse_subject_url(&self, notification: &HuBoxNotification) -> (r: Result<
        (String, String, u32),
        SubjectUrlError,
    >)
        ensures
            match r {
                Ok((owner, repo, number)) => subject_target(notification.subject.url) == Ok::<
                    (Seq<char>, Seq<char>, u32),
                    SubjectUrlError,
                >((owner@, repo@, number)),
                Err(e) => subject_target(notification.subject.url) == Err::<
                    (Seq<char>, Seq<char>, u32),
                    SubjectUrlError,
                >(e),
            },
    {
        parse_subject_url(notification)
    }

    /// Mark notification `id` read at time `now` and remember its overlay in
    /// the custom states. Returns whether such a notification exists; when
    /// none does, nothing changes.
    pub fn mark_as_read(&mut self, id: &str, now: i64) -> (r: bool)
        ensures
            r == (first_index(old(self).storage.notifications@, id@) is Some),
            marked_read(*old(self), *final(self), id@, now),
    {
        match index_of_id(&self.storage.notifications, id) {
            None => false,
            Some(j) => {
                let mut n = self.storage.notifications[j].duplicate();
                n.is_read = Some(true);
                n.last_viewed_at = Some(now);
                let state = CustomState {
                    is_read: true,
                    is_done: match n.is_done {
                        Some(b) => b,
                        None => false,
                    },
                    priority: match n.priority {
                        Some(p) => p,
                        None => 0,
                    },
                    last_viewed_at: now,
                };
                self.storage.notifications.set(j, n);
                self.storage.custom_states.insert(id.to_owned(), state);
                true
            },
        }
    }

    /// Mark notification `id` done (and read), remember its overlay in the
    /// custom states and recompute the active set to fill the freed slot.
    /// Returns whether such a notification exists; when none does, nothing
    /// changes.
    pub fn mark_as_done(&mut self, id: &str) -> (r: bool)
        ensures
            r == (first_index(old(self).storage.notifications@, id@) is Some),
            marked_done(*old(self), *final(self), id@),
    {
        match index_of_id(&self.storage.notifications, id) {
            None => false,
            Some(j) => {
                let mut n = self.storage.notifications[j].duplicate();
                n.is_done = Some(true);
                n.is_read = Some(true);
                let state = CustomState {
                    is_read: true,
                    is_done: true,
                    priority: match n.priority {
                        Some(p) => p,
                        None => 0,
                    },
                    last_viewed_at: match n.last_viewed_at {
                        Some(t) => t,
                        None => 0,
                    },
                };
                self.storage.notifications.set(j, n);
                self.storage.custom_states.insert(id.to_owned(), state);
                self.recalculate_inbox();
                true
            },
        }
    }

    /// Raise the capacity of the active set by `EXPANSION_STEP` and recompute it.
    pub fn expand_inbox(&mut self)
        requires
            old(self).storage.max_active <= usize::MAX - EXPANSION_STEP,
        ensures
            expanded(*old(self), *final(self)),
    {
        self.storage.max_active = self.storage.max_active + EXPANSION_STEP;
        self.recalculate_inbox();
    }

    /// Counters for display.
    pub fn get_stats(&self) -> (r: NotificationStats)
        ensures
            r == stats_of(self.storage, self.is_online),
    {
        let notifs = &self.storage.notifications;
        let mut unread: usize = 0;
        let mut done: usize = 0;
        let mut i: usize = 0;
        while i < notifs.len()
            invariant
                i <= notifs@.len(),
                unread == only(notifs@.take(i as int), is_unread()).len(),
                done == only(notifs@.take(i as int), is_done()).len(),
            decreases notifs@.len() - i,
        {
            proof {
                assert(notifs@.take(i + 1).drop_last() =~= notifs@.take(i as int));
                lemma_only_len(notifs@.take(i as int), is_unread());
                lemma_only_len(notifs@.take(i as int), is_done());
            }
            if notifs[i].unread {
                unread = unread + 1;
            }
            if notifs[i].is_done == Some(true) {
                done = done + 1;
            }
            i = i + 1;
        }
        assert(notifs@.take(i as int) =~= notifs@);
        let active = self.get_in_progress();
        let mut app_unread: usize = 0;
        let mut k: usize = 0;
        while k < active.len()
            invariant
                k <= active@.len(),
                app_unread == only(active@.take(k as int), is_not_read()).len(),
            decreases active@.len() - k,
        {
            proof {
                assert(active@.take(k + 1).drop_last() =~= active@.take(k as int));
                lemma_only_len(active@.take(k as int), is_not_read());
            }
            if active[k].is_read != Some(true) {
                app_unread = app_unread + 1;
            }
            k = k + 1;
        }
        assert(active@.take(k as int) =~= active@);
        NotificationStats {
            total: notifs.len(),
            unread,
            app_unread,
            done,
            in_progress: self.storage.active_batch_ids.len(),
            last_sync: self.storage.last_sync,
            is_online: self.is_online,
        }
    }
}

} // verus!
