//! The pool of upstream sessions: atomic pick-and-reserve, release, health
//! demotion and operator edits, over the rows of the session table.

use vstd::prelude::*;
use crate::text::{append_str, chars_of, new_id, string_from_chars, str_eq};

verus! {

/// Concurrent tasks one session may carry.
pub const SESSION_CAP: u32 = 2;

/// One upstream session.
#[derive(Debug)]
pub struct SessionInfo {
    pub id: String,
    pub label: String,
    /// The upstream cookie token; shown masked.
    pub session_id: String,
    pub enabled: bool,
    pub healthy: bool,
    pub active_tasks: u32,
    pub total_tasks: u32,
    pub success_count: u32,
    pub fail_count: u32,
    /// Time of the last pick, in seconds.
    pub last_used_at: Option<u64>,
    pub last_error: Option<String>,
    pub created_at: u64,
    pub updated_at: u64,
}

/// A session row as plain values.
pub ghost struct SessionView {
    pub id: Seq<char>,
    pub label: Seq<char>,
    pub session_id: Seq<char>,
    pub enabled: bool,
    pub healthy: bool,
    pub active_tasks: u32,
    pub total_tasks: u32,
    pub success_count: u32,
    pub fail_count: u32,
    pub last_used_at: Option<u64>,
    pub last_error: Option<Seq<char>>,
    pub created_at: u64,
    pub updated_at: u64,
}

/// View of an optional string.
pub open spec fn opt_view(o: Option<String>) -> Option<Seq<char>> {
    match o {
        Some(s) => Some(s@),
        None => None,
    }
}

impl View for SessionInfo {
    type V = SessionView;

    open spec fn view(&self) -> SessionView {
        SessionView {
            id: self.id@,
            label: self.label@,
            session_id: self.session_id@,
            enabled: self.enabled,
            healthy: self.healthy,
            active_tasks: self.active_tasks,
            total_tasks: self.total_tasks,
            success_count: self.success_count,
            fail_count: self.fail_count,
            last_used_at: self.last_used_at,
            last_error: opt_view(self.last_error),
            created_at: self.created_at,
            updated_at: self.updated_at,
        }
    }
}

/// A copy of an optional string.
pub fn copy_opt(o: &Option<String>) -> (r: Option<String>)
    ensures
        opt_view(r) == opt_view(*o),
{
    match o {
        Some(s) => Some(s.clone()),
        None => None,
    }
}

/// Masked form of a cookie token: the first eight and last four characters
/// around `...`, or `****` for a token of eight characters or fewer.
pub open spec fn masked_token(t: Seq<char>) -> Seq<char> {
    if t.len() > 8 {
        t.subrange(0, 8) + "..."@ + t.subrange(t.len() - 4, t.len() as int)
    } else {
        "****"@
    }
}

impl SessionInfo {
    /// A field-by-field copy.
    pub fn duplicate(&self) -> (r: Self)
        ensures
            r@ == self@,
    {
        SessionInfo {
            id: self.id.clone(),
            label: self.label.clone(),
            session_id: self.session_id.clone(),
            enabled: self.enabled,
            healthy: self.healthy,
            active_tasks: self.active_tasks,
            total_tasks: self.total_tasks,
            success_count: self.success_count,
            fail_count: self.fail_count,
            last_used_at: self.last_used_at,
            last_error: copy_opt(&self.last_error),
            created_at: self.created_at,
            updated_at: self.updated_at,
        }
    }

    /// The same row with the cookie token masked for display.
    pub fn masked(&self) -> (r: Self)
        ensures
            r@ == (SessionView { session_id: masked_token(self.session_id@), ..self@ }),
    {
        let t = chars_of(self.session_id.as_str());
        let n = t.len();
        let m = if n > 8 {
            let mut v: Vec<char> = Vec::new();
            let mut i: usize = 0;
            while i < 8
                invariant
                    n == t@.len(),
                    n > 8,
                    i <= 8,
                    v@ == t@.subrange(0, i as int),
                decreases 8 - i,
            {
                v.push(t[i]);
                i += 1;
                assert(v@ =~= t@.subrange(0, i as int));
            }
            append_str(&mut v, "...");
            let ghost head = v@;
            let mut j: usize = n - 4;
            while j < n
                invariant
                    n == t@.len(),
                    n > 8,
                    n - 4 <= j <= n,
                    v@ == head + t@.subrange(n - 4, j as int),
                decreases n - j,
            {
                v.push(t[j]);
                j += 1;
                assert(v@ =~= head + t@.subrange(n - 4, j as int));
            }
            string_from_chars(&v)
        } else {
            "****".to_owned()
        };
        let mut r = self.duplicate();
        r.session_id = m;
        r
    }
}

/// Whether a session may take one more task.
pub open spec fn eligible(s: SessionView) -> bool {
    s.enabled && s.healthy && s.active_tasks < SESSION_CAP
}

/// Order of last use: never-used sessions come first.
pub open spec fn used_no_later(a: Option<u64>, b: Option<u64>) -> bool {
    match (a, b) {
        (None, _) => true,
        (Some(_), None) => false,
        (Some(x), Some(y)) => x <= y,
    }
}

/// One more, held at the top of the range.
pub open spec fn bump(x: u32) -> u32 {
    if x < u32::MAX { (x + 1) as u32 } else { x }
}

/// One less, held at zero.
pub open spec fn drop_one(x: u32) -> u32 {
    if x > 0 { (x - 1) as u32 } else { 0 }
}

/// A session after it was picked at `now`.
pub open spec fn after_pick(s: SessionView, now: u64) -> SessionView {
    SessionView {
        active_tasks: (s.active_tasks + 1) as u32,
        last_used_at: Some(now),
        updated_at: now,
        ..s
    }
}

/// A session after a task on it ended.
pub open spec fn after_release(s: SessionView, success: bool, error: Option<Seq<char>>) -> SessionView {
    SessionView {
        active_tasks: drop_one(s.active_tasks),
        total_tasks: bump(s.total_tasks),
        success_count: if success { bump(s.success_count) } else { s.success_count },
        fail_count: if success { s.fail_count } else { bump(s.fail_count) },
        last_error: if error is Some { error } else { s.last_error },
        ..s
    }
}

/// Whether `new` is `old` with `f` applied to every row whose id is `id`.
pub open spec fn updated_where(
    old: Seq<SessionView>,
    new: Seq<SessionView>,
    id: Seq<char>,
    f: spec_fn(SessionView) -> SessionView,
) -> bool {
    new.len() == old.len() && forall|i: int| 0 <= i < old.len() ==> #[trigger] new[i] == if old[i].id == id {
        f(old[i])
    } else {
        old[i]
    }
}

/// Whether some row has the id.
pub open spec fn has_id(rows: Seq<SessionView>, id: Seq<char>) -> bool {
    exists|i: int| 0 <= i < rows.len() && #[trigger] rows[i].id == id
}

/// Sum of the active-task counters.
pub open spec fn total_active(rows: Seq<SessionView>) -> int
    decreases rows.len(),
{
    if rows.len() == 0 { 0 } else { total_active(rows.drop_last()) + rows.last().active_tasks }
}

/// The session table and the operations on it, each one atomic.
pub struct SessionPool {
    sessions: Vec<SessionInfo>,
}

impl SessionPool {
    /// The rows, in table order.
    pub closed spec fn view_rows(&self) -> Seq<SessionView> {
        rows_view(self.sessions@)
    }

    /// No row carries more tasks than the cap.
    pub open spec fn wf(&self) -> bool {
        forall|i: int| 0 <= i < self.view_rows().len() ==> (#[trigger] self.view_rows()[i]).active_tasks <= SESSION_CAP
    }

    /// Index of the eligible row least recently used, if any.
    fn best_row(&self) -> (r: Option<usize>)
        ensures
            match r {
                None => forall|j: int| 0 <= j < self.view_rows().len() ==> !eligible(#[trigger] self.view_rows()[j]),
                Some(b) => b < self.view_rows().len() && eligible(self.view_rows()[b as int])
                    && forall|j: int| 0 <= j < self.view_rows().len() && eligible(#[trigger] self.view_rows()[j])
                        ==> used_no_later(self.view_rows()[b as int].last_used_at, self.view_rows()[j].last_used_at),
            },
    {
        let ghost rows = self.view_rows();
        let mut best: Option<usize> = None;
        let mut i: usize = 0;
        while i < self.sessions.len()
            invariant
                rows == self.view_rows(),
                rows.len() == self.sessions@.len(),
                i <= rows.len(),
                match best {
                    None => forall|j: int| 0 <= j < i ==> !eligible(#[trigger] rows[j]),
                    Some(b) => b < i && eligible(rows[b as int])
                        && forall|j: int| 0 <= j < i && eligible(#[trigger] rows[j])
                            ==> used_no_later(rows[b as int].last_used_at, rows[j].last_used_at),
                },
            decreases rows.len() - i,
        {
            let s = &self.sessions[i];
            assert(rows[i as int] == s@);
            if s.enabled && s.healthy && s.active_tasks < SESSION_CAP {
                let better = match best {
                    None => true,
                    Some(b) => {
                        let cur = &self.sessions[b];
                        assert(rows[b as int] == cur@);
                        match (s.last_used_at, cur.last_used_at) {
                            (None, Some(_)) => true,
                            (Some(x), Some(y)) => x < y,
                            _ => false,
                        }
                    },
                };
                if better {
                    best = Some(i);
                }
            }
            i += 1;
        }
        best
    }

    /// Reserves the eligible session used least recently: its active count
    /// goes up by one and its last use becomes `now`. With no eligible
    /// session nothing changes.
    pub fn pick_session(&mut self, now: u64) -> (r: Option<SessionInfo>)
        ensures
            old(self).wf() ==> final(self).wf(),
            match r {
                None => final(self).view_rows() == old(self).view_rows()
                    && forall|j: int| 0 <= j < old(self).view_rows().len() ==> !eligible(#[trigger] old(self).view_rows()[j]),
                Some(s) => exists|i: int| 0 <= i < old(self).view_rows().len()
                    && eligible(old(self).view_rows()[i])
                    && (forall|j: int| 0 <= j < old(self).view_rows().len() && eligible(#[trigger] old(self).view_rows()[j])
                        ==> used_no_later(old(self).view_rows()[i].last_used_at, old(self).view_rows()[j].last_used_at))
                    && final(self).view_rows() == old(self).view_rows().update(i, after_pick(old(self).view_rows()[i], now))
                    && s@ == after_pick(old(self).view_rows()[i], now),
            },
    {
        match self.best_row() {
            None => None,
            Some(b) => {
                let ghost old_rows = self.view_rows();
                let mut row = self.sessions[b].duplicate();
                row.active_tasks = row.active_tasks + 1;
                row.last_used_at = Some(now);
                row.updated_at = now;
                let out = row.duplicate();
                self.sessions.set(b, row);
                assert(self.view_rows() =~= old_rows.update(b as int, after_pick(old_rows[b as int], now)));
                Some(out)
            },
        }
    }

    /// Reserving is done by `pick_session`; nothing is left to record.
    pub fn mark_active(&self, _session_id: &str) {
    }

    /// Applies `op` to every row whose id is `id`; tells whether one was there.
    fn update_rows(&mut self, id: &str, op: RowOp) -> (r: bool)
        ensures
            updated_where(old(self).view_rows(), final(self).view_rows(), id@, |s: SessionView| apply_op(op, s)),
            r == has_id(old(self).view_rows(), id@),
    {
        let ghost old_rows = self.view_rows();
        let mut found = false;
        let mut i: usize = 0;
        while i < self.sessions.len()
            invariant
                self.view_rows().len() == old_rows.len(),
                self.sessions@.len() == old_rows.len(),
                i <= old_rows.len(),
                forall|j: int| 0 <= j < i ==> #[trigger] self.view_rows()[j] == if old_rows[j].id == id@ {
                    apply_op(op, old_rows[j])
                } else {
                    old_rows[j]
                },
                forall|j: int| i <= j < old_rows.len() ==> #[trigger] self.view_rows()[j] == old_rows[j],
                found == exists|j: int| 0 <= j < i && #[trigger] old_rows[j].id == id@,
            decreases old_rows.len() - i,
        {
            assert(self.view_rows()[i as int] == self.sessions@[i as int]@);
            if str_eq(self.sessions[i].id.as_str(), id) {
                let mut row = self.sessions[i].duplicate();
                match &op {
                    RowOp::Release { success, error } => {
                        row.active_tasks = if row.active_tasks > 0 { row.active_tasks - 1 } else { 0 };
                        row.total_tasks = if row.total_tasks < u32::MAX { row.total_tasks + 1 } else { row.total_tasks };
                        if *success {
                            row.success_count = if row.success_count < u32::MAX { row.success_count + 1 } else { row.success_count };
                        } else {
                            row.fail_count = if row.fail_count < u32::MAX { row.fail_count + 1 } else { row.fail_count };
                        }
                        if let Some(e) = error {
                            row.last_error = Some(e.clone());
                        }
                    },
                    RowOp::Demote => {
                        row.healthy = false;
                    },
                    RowOp::Toggle { enabled } => {
                        row.enabled = *enabled;
                        if *enabled {
                            row.healthy = true;
                        }
                    },
                }
                let ghost before = self.view_rows();
                self.sessions.set(i, row);
                assert(self.view_rows() =~= before.update(i as int, apply_op(op, old_rows[i as int])));
                found = true;
            }
            i += 1;
        }
        assert(self.view_rows().len() == old_rows.len());
        found
    }

    /// Ends one task on the session: its active count goes down (not below
    /// zero), the total and the success or failure counter go up, and a
    /// given error becomes its last error.
    pub fn release_session(&mut self, session_id: &str, success: bool, error: Option<&str>)
        ensures
            updated_where(old(self).view_rows(), final(self).view_rows(), session_id@,
                |s: SessionView| after_release(s, success, match error { Some(e) => Some(e@), None => None })),
            old(self).wf() ==> final(self).wf(),
    {
        let e = match error {
            Some(t) => Some(t.to_owned()),
            None => None,
        };
        let op = RowOp::Release { success, error: e };
        self.update_rows(session_id, op);
        proof { self.lemma_cap_kept(*old(self), session_id@, op); }
    }

    /// Marks the session unhealthy after an authorization failure.
    pub fn mark_unhealthy(&mut self, session_id: &str)
        ensures
            updated_where(old(self).view_rows(), final(self).view_rows(), session_id@,
                |s: SessionView| SessionView { healthy: false, ..s }),
            old(self).wf() ==> final(self).wf(),
    {
        self.update_rows(session_id, RowOp::Demote);
        proof { self.lemma_cap_kept(*old(self), session_id@, RowOp::Demote); }
    }

    /// Enables or disables a session; enabling also restores its health.
    /// Tells whether the session exists.
    pub fn toggle_session(&mut self, id: &str, enabled: bool) -> (r: bool)
        ensures
            updated_where(old(self).view_rows(), final(self).view_rows(), id@,
                |s: SessionView| SessionView { enabled, healthy: if enabled { true } else { s.healthy }, ..s }),
            r == has_id(old(self).view_rows(), id@),
            old(self).wf() ==> final(self).wf(),
    {
        let r = self.update_rows(id, RowOp::Toggle { enabled });
        proof { self.lemma_cap_kept(*old(self), id@, RowOp::Toggle { enabled }); }
        r
    }

    /// No row operation raises an active count above the cap.
    proof fn lemma_cap_kept(&self, before: Self, id: Seq<char>, op: RowOp)
        requires
            updated_where(before.view_rows(), self.view_rows(), id, |s: SessionView| apply_op(op, s)),
        ensures
            before.wf() ==> self.wf(),
    {
        if before.wf() {
            assert forall|i: int| 0 <= i < self.view_rows().len() implies
                (#[trigger] self.view_rows()[i]).active_tasks <= SESSION_CAP by {
                assert(before.view_rows()[i].active_tasks <= SESSION_CAP);
            }
        }
    }

    /// Replaces the rows with those read from the store.
    pub fn load_sessions(&mut self, rows: Vec<SessionInfo>)
        ensures
            final(self).view_rows() == rows_view(rows@),
    {
        self.sessions = rows;
    }

    /// An id that no row holds: a random one, lengthened with `-` past every
    /// stored id in the unlikely case that it is taken.
    fn fresh_id(&self) -> (r: String)
        ensures
            forall|i: int| 0 <= i < self.view_rows().len() ==> (#[trigger] self.view_rows()[i]).id != r@,
    {
        let cand = new_id();
        let cv = chars_of(cand.as_str());
        let mut taken = false;
        let mut longest: usize = 0;
        let mut i: usize = 0;
        while i < self.sessions.len()
            invariant
                i <= self.sessions@.len(),
                self.view_rows().len() == self.sessions@.len(),
                cv@ == cand@,
                !taken ==> forall|k: int| 0 <= k < i ==> (#[trigger] self.view_rows()[k]).id != cand@,
                forall|k: int| 0 <= k < i ==> (#[trigger] self.view_rows()[k]).id.len() <= longest,
            decreases self.sessions@.len() - i,
        {
            assert(self.view_rows()[i as int] == self.sessions@[i as int]@);
            let idv = chars_of(self.sessions[i].id.as_str());
            if crate::text::seq_eq(&idv, &cv) {
                taken = true;
            }
            if idv.len() > longest {
                longest = idv.len();
            }
            i += 1;
        }
        if !taken {
            return cand;
        }
        let mut v = cv;
        while v.len() <= longest
            invariant
                forall|k: int| 0 <= k < self.view_rows().len() ==> (#[trigger] self.view_rows()[k]).id.len() <= longest,
            decreases longest + 1 - v@.len(),
        {
            v.push('-');
        }
        string_from_chars(&v)
    }

    /// Adds an enabled, healthy, unused session under a fresh id.
    pub fn add_session(&mut self, label: &str, upstream_token: &str, now: u64) -> (r: SessionInfo)
        ensures
            r@ == (SessionView {
                id: r@.id,
                label: label@,
                session_id: upstream_token@,
                enabled: true,
                healthy: true,
                active_tasks: 0,
                total_tasks: 0,
                success_count: 0,
                fail_count: 0,
                last_used_at: None,
                last_error: None,
                created_at: now,
                updated_at: now,
            }),
            final(self).view_rows() == old(self).view_rows().push(r@),
            forall|i: int| 0 <= i < old(self).view_rows().len() ==> (#[trigger] old(self).view_rows()[i]).id != r@.id,
            old(self).wf() ==> final(self).wf(),
    {
        let row = SessionInfo {
            id: self.fresh_id(),
            label: label.to_owned(),
            session_id: upstream_token.to_owned(),
            enabled: true,
            healthy: true,
            active_tasks: 0,
            total_tasks: 0,
            success_count: 0,
            fail_count: 0,
            last_used_at: None,
            last_error: None,
            created_at: now,
            updated_at: now,
        };
        let out = row.duplicate();
        self.sessions.push(row);
        assert(self.view_rows() =~= old(self).view_rows().push(out@));
        out
    }

    /// Deletes every row with the id; tells whether one was there.
    pub fn remove_session(&mut self, id: &str) -> (r: bool)
        ensures
            final(self).view_rows() == old(self).view_rows().filter(other_id(id@)),
            r == has_id(old(self).view_rows(), id@),
            old(self).wf() ==> final(self).wf(),
    {
        let ghost rows = self.view_rows();
        let ghost pred = other_id(id@);
        let mut kept: Vec<SessionInfo> = Vec::new();
        let mut found = false;
        let mut i: usize = 0;
        while i < self.sessions.len()
            invariant
                rows == self.view_rows(),
                rows.len() == self.sessions@.len(),
                i <= rows.len(),
                pred == other_id(id@),
                rows_view(kept@) == rows.subrange(0, i as int).filter(pred),
                old(self).wf() ==> forall|k: int| 0 <= k < kept@.len() ==> (#[trigger] kept@[k])@.active_tasks <= SESSION_CAP,
                found == exists|j: int| 0 <= j < i && #[trigger] rows[j].id == id@,
            decreases rows.len() - i,
        {
            assert(rows[i as int] == self.sessions@[i as int]@);
            assert(rows.subrange(0, i + 1).drop_last() =~= rows.subrange(0, i as int));
            proof {
                reveal(Seq::filter);
                let sub = rows.subrange(0, i + 1);
                assert(sub.last() == rows[i as int]);
                assert(pred(rows[i as int]) == (rows[i as int].id != id@));
                assert(sub.filter(pred) == if pred(sub.last()) {
                    sub.drop_last().filter(pred).push(sub.last())
                } else {
                    sub.drop_last().filter(pred)
                });
            }
            if str_eq(self.sessions[i].id.as_str(), id) {
                found = true;
                assert(rows[i as int].id == id@);
                assert(rows.subrange(0, i + 1).filter(pred) == rows.subrange(0, i as int).filter(pred));
            } else {
                assert(rows[i as int].id != id@);
                let ghost before = rows_view(kept@);
                let d = self.sessions[i].duplicate();
                assert(d@ == rows[i as int]);
                kept.push(d);
                assert(rows_view(kept@) =~= before.push(rows[i as int]));
                assert(rows.subrange(0, i + 1).filter(pred) == rows.subrange(0, i as int).filter(pred).push(rows[i as int]));
            }
            i += 1;
        }
        assert(rows.subrange(0, rows.len() as int) =~= rows);
        self.sessions = kept;
        proof {
            if old(self).wf() {
                assert forall|k: int| 0 <= k < self.view_rows().len() implies
                    (#[trigger] self.view_rows()[k]).active_tasks <= SESSION_CAP by {
                    assert(self.view_rows()[k] == self.sessions@[k]@);
                }
            }
        }
        found
    }

    /// A copy of every row, in table order.
    pub fn list_sessions(&self) -> (r: Vec<SessionInfo>)
        ensures
            rows_view(r@) == self.view_rows(),
    {
        let mut out: Vec<SessionInfo> = Vec::new();
        let mut i: usize = 0;
        while i < self.sessions.len()
            invariant
                i <= self.sessions@.len(),
                rows_view(out@) == self.view_rows().subrange(0, i as int),
            decreases self.sessions@.len() - i,
        {
            let ghost prev = rows_view(out@);
            let d = self.sessions[i].duplicate();
            assert(d@ == self.view_rows()[i as int]);
            out.push(d);
            assert(rows_view(out@) =~= prev.push(self.view_rows()[i as int]));
            assert(self.view_rows().subrange(0, i + 1) =~= self.view_rows().subrange(0, i as int).push(self.view_rows()[i as int]));
            i += 1;
            assert(rows_view(out@) =~= self.view_rows().subrange(0, i as int));
        }
        assert(self.view_rows().subrange(0, i as int) =~= self.view_rows());
        out
    }

    /// An empty pool.
    pub fn new() -> (r: Self)
        ensures
            r.view_rows() == Seq::<SessionView>::empty(),
            r.wf(),
    {
        let r = SessionPool { sessions: Vec::new() };
        assert(r.view_rows() =~= Seq::<SessionView>::empty());
        r
    }
}

/// A change to one session row.
pub enum RowOp {
    Release { success: bool, error: Option<String> },
    Demote,
    Toggle { enabled: bool },
}

/// A row after a change.
pub open spec fn apply_op(op: RowOp, s: SessionView) -> SessionView {
    match op {
        RowOp::Release { success, error } => after_release(s, success, opt_view(error)),
        RowOp::Demote => SessionView { healthy: false, ..s },
        RowOp::Toggle { enabled } => SessionView { enabled, healthy: if enabled { true } else { s.healthy }, ..s },
    }
}

/// When no row carries more tasks than the cap, all rows together carry at
/// most the cap times the number of rows.
pub proof fn lemma_active_bounded(rows: Seq<SessionView>)
    requires
        forall|i: int| 0 <= i < rows.len() ==> (#[trigger] rows[i]).active_tasks <= SESSION_CAP,
    ensures
        total_active(rows) <= rows.len() * SESSION_CAP,
    decreases rows.len(),
{
    if rows.len() > 0 {
        let p = rows.drop_last();
        assert forall|i: int| 0 <= i < p.len() implies (#[trigger] p[i]).active_tasks <= SESSION_CAP by {
            assert(p[i] == rows[i]);
        }
        lemma_active_bounded(p);
        assert(rows.last().active_tasks <= SESSION_CAP);
    }
}

/// A session after a run of successful picks (`true`) and releases (`false`).
pub open spec fn after_events(s: SessionView, evs: Seq<bool>, now: u64) -> SessionView
    decreases evs.len(),
{
    if evs.len() == 0 {
        s
    } else {
        let p = after_events(s, evs.drop_last(), now);
        if evs.last() { after_pick(p, now) } else { after_release(p, true, None) }
    }
}

/// Number of entries of a run equal to `b`.
pub open spec fn count_of(evs: Seq<bool>, b: bool) -> int
    decreases evs.len(),
{
    if evs.len() == 0 { 0 } else { count_of(evs.drop_last(), b) + if evs.last() == b { 1int } else { 0int } }
}

/// Over a run of picks and releases on one session, where every pick found
/// the session below the cap and every release had a task to end, the
/// active count is the starting count plus the picks minus the releases;
/// once every pick was released from an idle start, the count is zero again.
pub proof fn lemma_picks_balance(s: SessionView, evs: Seq<bool>, now: u64)
    requires
        forall|k: int| 0 <= k < evs.len() ==> (#[trigger] evs[k] ==>
            s.active_tasks + count_of(evs.subrange(0, k), true) - count_of(evs.subrange(0, k), false) < SESSION_CAP),
        forall|k: int| 0 <= k < evs.len() ==> (!#[trigger] evs[k] ==>
            s.active_tasks + count_of(evs.subrange(0, k), true) - count_of(evs.subrange(0, k), false) > 0),
    ensures
        after_events(s, evs, now).active_tasks == s.active_tasks + count_of(evs, true) - count_of(evs, false),
        s.active_tasks == 0 && count_of(evs, true) == count_of(evs, false) ==> after_events(s, evs, now).active_tasks == 0,
    decreases evs.len(),
{
    if evs.len() > 0 {
        let pre = evs.drop_last();
        let n = evs.len() - 1;
        assert forall|k: int| 0 <= k < pre.len() implies (#[trigger] pre[k] ==>
            s.active_tasks + count_of(pre.subrange(0, k), true) - count_of(pre.subrange(0, k), false) < SESSION_CAP) by {
            assert(pre.subrange(0, k) =~= evs.subrange(0, k));
            assert(pre[k] == evs[k]);
        }
        assert forall|k: int| 0 <= k < pre.len() implies (!#[trigger] pre[k] ==>
            s.active_tasks + count_of(pre.subrange(0, k), true) - count_of(pre.subrange(0, k), false) > 0) by {
            assert(pre.subrange(0, k) =~= evs.subrange(0, k));
            assert(pre[k] == evs[k]);
        }
        lemma_picks_balance(s, pre, now);
        assert(evs.subrange(0, n) =~= pre);
        if evs[n] {
            assert(s.active_tasks + count_of(pre, true) - count_of(pre, false) < SESSION_CAP);
        } else {
            assert(s.active_tasks + count_of(pre, true) - count_of(pre, false) > 0);
        }
    }
}

/// Views of a sequence of rows.
pub open spec fn rows_view(v: Seq<SessionInfo>) -> Seq<SessionView> {
    v.map_values(|s: SessionInfo| s@)
}

/// Rows whose id differs from `id`.
pub open spec fn other_id(id: Seq<char>) -> spec_fn(SessionView) -> bool {
    |s: SessionView| s.id != id
}

} // verus!
