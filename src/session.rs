use vstd::prelude::*;

use crate::inbox::{is_done, only};
use crate::manager::{
    detail_error_text, detail_resolved, expanded, fetch_applied, in_progress_view, marked_done,
    marked_read, stats_of, DetailError, DetailRequest, NotificationManager, EXPANSION_STEP,
};
use crate::reconcile::first_index;
use crate::timeline::newest_first;
use crate::types::{HuBoxNotification, NotificationStats};

verus! {

/// The error a mutation or a details lookup answers without a session.
pub open spec fn not_initialized() -> Seq<char> {
    "Manager not initialized"@
}

/// The error an expansion answers when the capacity cannot grow.
pub open spec fn capacity_exhausted() -> Seq<char> {
    "Inbox capacity cannot grow further"@
}

/// The stats answered without a session.
pub open spec fn empty_stats() -> NotificationStats {
    NotificationStats {
        total: 0,
        unread: 0,
        app_unread: 0,
        done: 0,
        in_progress: 0,
        last_sync: 0,
        is_online: false,
    }
}

/// What the command layer holds: no session before a credential is accepted
/// (and after it is deleted), else one authenticated session. Queries answer
/// empty without a session; mutations fail.
#[derive(Debug, Clone)]
pub struct AppSession {
    pub manager: Option<NotificationManager>,
}

impl AppSession {
    pub fn new() -> (r: Self)
        ensures
            r.manager is None,
    {
        AppSession { manager: None }
    }

    pub fn is_initialized(&self) -> (r: bool)
        ensures
            r == self.manager is Some,
    {
        self.manager.is_some()
    }

    /// Install a new session, replacing any previous one.
    pub fn initialize(&mut self, manager: NotificationManager)
        ensures
            final(self).manager == Some(manager),
    {
        self.manager = Some(manager);
    }

    /// Discard the session.
    pub fn clear(&mut self)
        ensures
            final(self).manager is None,
    {
        self.manager = None;
    }

    /// Take the outcome of a fetch made at time `now`; without a session this
    /// fails.
    pub fn sync_notifications(
        &mut self,
        fetched: Result<Vec<HuBoxNotification>, String>,
        now: i64,
    ) -> (r: Result<(), String>)
        ensures
            match old(self).manager {
                None => (r matches Err(e) && e@ == not_initialized()) && final(self).manager is None,
                Some(m) => match final(self).manager {
                    Some(m2) => fetch_applied(m, m2, fetched, r, now),
                    None => false,
                },
            },
    {
        match &mut self.manager {
            None => Err("Manager not initialized".to_owned()),
            Some(m) => m.sync(fetched, now),
        }
    }

    pub fn get_in_progress(&self) -> (r: Vec<HuBoxNotification>)
        ensures
            r@ == match self.manager {
                Some(m) => in_progress_view(m.storage),
                None => Seq::<HuBoxNotification>::empty(),
            },
    {
        match &self.manager {
            Some(m) => m.get_in_progress(),
            None => Vec::new(),
        }
    }

    pub fn get_all_notifications(&self) -> (r: Vec<HuBoxNotification>)
        ensures
            r@ == match self.manager {
                Some(m) => newest_first(m.storage.notifications@),
                None => Seq::<HuBoxNotification>::empty(),
            },
    {
        match &self.manager {
            Some(m) => m.get_all(),
            None => Vec::new(),
        }
    }

    pub fn get_done_notifications(&self) -> (r: Vec<HuBoxNotification>)
        ensures
            r@ == match self.manager {
                Some(m) => newest_first(only(m.storage.notifications@, is_done())),
                None => Seq::<HuBoxNotification>::empty(),
            },
    {
        match &self.manager {
            Some(m) => m.get_done(),
            None => Vec::new(),
        }
    }

    pub fn get_stats(&self) -> (r: NotificationStats)
        ensures
            r == match self.manager {
                Some(m) => stats_of(m.storage, m.is_online),
                None => empty_stats(),
            },
    {
        match &self.manager {
            Some(m) => m.get_stats(),
            None => NotificationStats {
                total: 0,
                unread: 0,
                app_unread: 0,
                done: 0,
                in_progress: 0,
                last_sync: 0,
                is_online: false,
            },
        }
    }

    /// Resolve a details lookup, or say why it cannot be made.
    pub fn detail_request(&self, id: &str) -> (r: Result<DetailRequest, String>)
        ensures
            match self.manager {
                None => (r matches Err(e) && e@ == not_initialized()),
                Some(m) => exists|x: Result<DetailRequest, DetailError>|
                    detail_resolved(m.storage.notifications@, id@, x) && match (x, r) {
                        (Ok(d), Ok(d2)) => d2 == d,
                        (Err(e), Err(s)) => s@ == detail_error_text(e),
                        _ => false,
                    },
            },
    {
        match &self.manager {
            None => Err("Manager not initialized".to_owned()),
            Some(m) => match m.detail_request(id) {
                Ok(d) => Ok(d),
                Err(e) => Err(e.message()),
            },
        }
    }

    /// Mark `id` read at time `now`; answers whether it was found.
    pub fn mark_as_read(&mut self, id: &str, now: i64) -> (r: Result<bool, String>)
        ensures
            match old(self).manager {
                None => (r matches Err(e) && e@ == not_initialized()) && final(self).manager is None,
                Some(m) => match (r, final(self).manager) {
                    (Ok(found), Some(m2)) => found == (first_index(
                        m.storage.notifications@,
                        id@,
                    ) is Some) && marked_read(m, m2, id@, now),
                    _ => false,
                },
            },
    {
        match &mut self.manager {
            None => Err("Manager not initialized".to_owned()),
            Some(m) => Ok(m.mark_as_read(id, now)),
        }
    }

    /// Mark `id` done; answers whether it was found.
    pub fn mark_as_done(&mut self, id: &str) -> (r: Result<bool, String>)
        ensures
            match old(self).manager {
                None => (r matches Err(e) && e@ == not_initialized()) && final(self).manager is None,
                Some(m) => match (r, final(self).manager) {
                    (Ok(found), Some(m2)) => found == (first_index(
                        m.storage.notifications@,
                        id@,
                    ) is Some) && marked_done(m, m2, id@),
                    _ => false,
                },
            },
    {
        match &mut self.manager {
            None => Err("Manager not initialized".to_owned()),
            Some(m) => Ok(m.mark_as_done(id)),
        }
    }

    /// Expand the inbox, unless there is no session or the capacity cannot grow.
    pub fn expand_inbox(&mut self) -> (r: Result<(), String>)
        ensures
            match old(self).manager {
                None => (r matches Err(e) && e@ == not_initialized()) && final(self).manager is None,
                Some(m) => if m.storage.max_active > usize::MAX - EXPANSION_STEP {
                    (r matches Err(e) && e@ == capacity_exhausted()) && final(self).manager == Some(m)
                } else {
                    r is Ok && match final(self).manager {
                        Some(m2) => expanded(m, m2),
                        None => false,
                    }
                },
            },
    {
        match &mut self.manager {
            None => Err("Manager not initialized".to_owned()),
            Some(m) => {
                if m.storage.max_active > usize::MAX - EXPANSION_STEP {
                    Err("Inbox capacity cannot grow further".to_owned())
                } else {
                    m.expand_inbox();
                    Ok(())
                }
            },
        }
    }
}

} // verus!
