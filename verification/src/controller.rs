//! The session controller: owns the ordered session log, the pointer to the
//! currently open session, the selected calendar date, the row-selection
//! cursor, the note-editing sub-state and the cached per-date totals.
//!
//! Every operation keeps the single-open invariant: exactly one session in
//! the store is open, and it is the current one.

use vstd::prelude::*;
use crate::session::{Session, SessionType, SessionView, MAX_TIMESTAMP};
use crate::clock::{local_day_of, now_timestamp};
use crate::strutil::{chars_to_string, str_chars};

verus! {

/// Which session a note edit will be committed to.
#[derive(Clone, Copy, Debug, PartialEq, Eq, Structural)]
pub enum NoteTarget {
    /// The currently open session.
    Current,
    /// A history row, resolved to its absolute store index.
    History(usize),
}

/// The modal input sub-state: either normal key handling, or editing a
/// note into a buffer for a resolved target.
pub enum InputMode {
    Normal,
    EditingNote { target: NoteTarget, buffer: Vec<char> },
}

pub struct App {
    /// The ordered session log, insertion order = creation order.
    pub sessions: Vec<Session>,
    /// Day number of the local calendar date each session started on,
    /// parallel to `sessions`.
    pub start_days: Vec<i64>,
    /// Index of the currently open session.
    pub current: usize,
    pub input_mode: InputMode,
    /// Day number of the calendar date shown in the history view.
    pub selected_date: i64,
    /// Row-selection cursor into the displayed (filtered, reversed) rows.
    pub selected_row: Option<usize>,
    /// Cached work total for the selected date, in seconds.
    pub cached_work: i128,
    /// Cached break total for the selected date, in seconds.
    pub cached_break: i128,
    /// Frame counter for the companion animation.
    pub animation_index: usize,
}

/// All sessions of a log are well-formed.
pub open spec fn all_wf(ss: Seq<SessionView>) -> bool {
    forall|i: int| 0 <= i < ss.len() ==> (#[trigger] ss[i]).wf()
}

/// `cur` is a valid index, the session there is open, and every other
/// session is closed.
pub open spec fn open_exactly_at(ss: Seq<SessionView>, cur: int) -> bool {
    &&& 0 <= cur < ss.len()
    &&& ss[cur].is_open()
    &&& forall|i: int| 0 <= i < ss.len() && i != cur ==> !(#[trigger] ss[i]).is_open()
}

/// The given session closed at `now`; the end never precedes the start.
pub open spec fn close_view(v: SessionView, now: int) -> SessionView {
    SessionView {
        end_time: Some(if now >= v.start_time { now } else { v.start_time }),
        ..v
    }
}

/// A session of the given kind freshly opened at `now`, with an empty note.
pub open spec fn fresh_view(kind: SessionType, now: int) -> SessionView {
    SessionView { start_time: now, end_time: None, session_type: kind, note: Seq::empty() }
}

/// Sum, in seconds as of `now`, of the durations of the sessions of the
/// given kind whose start day equals `date`.
pub open spec fn kind_dur_sum(
    ss: Seq<SessionView>,
    days: Seq<i64>,
    date: i64,
    kind: SessionType,
    now: int,
) -> int
    decreases ss.len(),
{
    if ss.len() == 0 || days.len() == 0 {
        0
    } else {
        let here = if days.last() == date && ss.last().session_type == kind {
            ss.last().duration_at(now)
        } else {
            0
        };
        here + kind_dur_sum(ss.drop_last(), days.drop_last(), date, kind, now)
    }
}

/// Store indices of the sessions whose start day equals `date`, most
/// recent first: the order the history view displays them in.
pub open spec fn rev_date_indices(days: Seq<i64>, date: i64) -> Seq<int>
    decreases days.len(),
{
    if days.len() == 0 {
        Seq::empty()
    } else if days.last() == date {
        seq![days.len() - 1] + rev_date_indices(days.drop_last(), date)
    } else {
        rev_date_indices(days.drop_last(), date)
    }
}

/// How one controller state follows another when a session of `kind` is
/// started at time `now` on local day `today`: the open session is closed,
/// a fresh one is appended and becomes current, the cache is refreshed,
/// and the rest of the state is untouched.
pub open spec fn start_post(pre: App, post: App, kind: SessionType, now: i64, today: i64) -> bool {
    &&& post.sessions.deep_view() == pre.sessions.deep_view().update(
        pre.current as int,
        close_view(pre.sessions.deep_view()[pre.current as int], now as int),
    ).push(fresh_view(kind, now as int))
    &&& post.start_days@ == pre.start_days@.push(today)
    &&& post.current == pre.sessions@.len()
    &&& post.input_mode is Normal
    &&& post.selected_date == pre.selected_date
    &&& post.selected_row == pre.selected_row
    &&& post.animation_index == pre.animation_index
    &&& post.cached_work == kind_dur_sum(
        post.sessions.deep_view(),
        post.start_days@,
        pre.selected_date,
        SessionType::Work,
        now as int,
    )
    &&& post.cached_break == kind_dur_sum(
        post.sessions.deep_view(),
        post.start_days@,
        pre.selected_date,
        SessionType::Break,
        now as int,
    )
}

impl App {
    /// Kind of the currently open session.
    pub open spec fn current_kind(&self) -> SessionType {
        self.sessions.deep_view()[self.current as int].session_type
    }

    /// The controller's well-formedness: sessions and start days run in
    /// parallel, all sessions are well-formed, exactly the current one is
    /// open, and a history note edit targets a real row.
    pub open spec fn inv(&self) -> bool {
        &&& self.start_days@.len() == self.sessions@.len()
        &&& all_wf(self.sessions.deep_view())
        &&& open_exactly_at(self.sessions.deep_view(), self.current as int)
        &&& match self.input_mode {
            InputMode::EditingNote { target: NoteTarget::History(idx), .. } =>
                idx < self.sessions@.len(),
            _ => true,
        }
    }

    /// The currently open session.
    pub fn get_active_session(&self) -> (r: &Session)
        requires
            self.inv(),
        ensures
            r@ == self.sessions.deep_view()[self.current as int],
    {
        &self.sessions[self.current]
    }

    /// Closes the open session at `now` (its end never set before its
    /// start), appends a fresh open session of `kind` started at `now` on
    /// local day `today`, makes it current, and refreshes the cached
    /// totals for the selected date.
    pub fn start_new_session_at(&mut self, kind: SessionType, now: i64, today: i64)
        requires
            old(self).inv(),
            old(self).input_mode is Normal,
            0 <= now <= MAX_TIMESTAMP,
        ensures
            final(self).inv(),
            start_post(*old(self), *final(self), kind, now, today),
            final(self).current_kind() == kind,
            final(self).sessions@.len() == old(self).sessions@.len() + 1,
    {
        let ghost pre = *self;
        if self.sessions[self.current].end_time.is_none() {
            let end = if now >= self.sessions[self.current].start_time {
                now
            } else {
                self.sessions[self.current].start_time
            };
            self.sessions[self.current].end_time = Some(end);
        }
        let fresh = Session {
            start_time: now,
            end_time: None,
            session_type: kind,
            note: String::new(),
        };
        self.sessions.push(fresh);
        self.start_days.push(today);
        self.current = self.sessions.len() - 1;
        proof {
            assert(self.sessions.deep_view() =~= pre.sessions.deep_view().update(
                pre.current as int,
                close_view(pre.sessions.deep_view()[pre.current as int], now as int),
            ).push(fresh_view(kind, now as int)));
        }
        self.update_stats_cache_at(now);
    }

    /// Recomputes the cached work and break totals for the selected date,
    /// as of `now`.
    pub fn update_stats_cache_at(&mut self, now: i64)
        requires
            old(self).start_days@.len() == old(self).sessions@.len(),
            all_wf(old(self).sessions.deep_view()),
            0 <= now <= MAX_TIMESTAMP,
        ensures
            *final(self) == (App {
                cached_work: final(self).cached_work,
                cached_break: final(self).cached_break,
                ..*old(self)
            }),
            final(self).cached_work == kind_dur_sum(
                old(self).sessions.deep_view(),
                old(self).start_days@,
                old(self).selected_date,
                SessionType::Work,
                now as int,
            ),
            final(self).cached_break == kind_dur_sum(
                old(self).sessions.deep_view(),
                old(self).start_days@,
                old(self).selected_date,
                SessionType::Break,
                now as int,
            ),
    {
        let (w, b) = daily_totals(&self.sessions, &self.start_days, self.selected_date, now);
        self.cached_work = w;
        self.cached_break = b;
    }
}

/// The kind the space-bar toggle switches to: Work and Break alternate,
/// and Idle starts Work.
pub open spec fn toggle_kind(k: SessionType) -> SessionType {
    match k {
        SessionType::Work => SessionType::Break,
        SessionType::Break => SessionType::Work,
        SessionType::Idle => SessionType::Work,
    }
}

/// Which store index a selected display row resolves to, if any: row `t`
/// of the reverse-chronological view of the sessions on `date`.
pub open spec fn resolve_spec(days: Seq<i64>, date: i64, sel: Option<usize>) -> Option<int> {
    match sel {
        None => None,
        Some(t) => if (t as int) < rev_date_indices(days, date).len() {
            Some(rev_date_indices(days, date)[t as int])
        } else {
            None
        },
    }
}

/// Every display index points into the store.
pub proof fn lemma_rev_date_indices_bounds(days: Seq<i64>, date: i64)
    ensures
        forall|k: int|
            0 <= k < rev_date_indices(days, date).len() ==> 0 <= #[trigger] rev_date_indices(
                days,
                date,
            )[k] < days.len(),
    decreases days.len(),
{
    if days.len() == 0 {
    } else {
        lemma_rev_date_indices_bounds(days.drop_last(), date);
        let rec = rev_date_indices(days, date);
        let tailrec = rev_date_indices(days.drop_last(), date);
        if days.last() == date {
            assert forall|k: int| 0 <= k < rec.len() implies 0 <= #[trigger] rec[k]
                < days.len() by {
                if k == 0 {
                    assert(rec[k] == days.len() - 1);
                } else {
                    assert(rec[k] == tailrec[k - 1]);
                    assert(0 <= tailrec[k - 1] < days.drop_last().len());
                }
            }
        } else {
            assert forall|k: int| 0 <= k < rec.len() implies 0 <= #[trigger] rec[k]
                < days.len() by {
                assert(rec[k] == tailrec[k]);
                assert(0 <= tailrec[k] < days.drop_last().len());
            }
        }
    }
}

impl App {
    /// Starts a session of the kind the toggle table gives: Work while on
    /// Break or Idle, Break while working.
    pub fn toggle_work_break_at(&mut self, now: i64, today: i64)
        requires
            old(self).inv(),
            old(self).input_mode is Normal,
            0 <= now <= MAX_TIMESTAMP,
        ensures
            final(self).inv(),
            start_post(
                *old(self),
                *final(self),
                toggle_kind(old(self).current_kind()),
                now,
                today,
            ),
            final(self).current_kind() == toggle_kind(old(self).current_kind()),
            final(self).sessions@.len() == old(self).sessions@.len() + 1,
    {
        match self.sessions[self.current].session_type {
            SessionType::Work => self.start_new_session_at(SessionType::Break, now, today),
            SessionType::Break => self.start_new_session_at(SessionType::Work, now, today),
            SessionType::Idle => self.start_new_session_at(SessionType::Work, now, today),
        }
    }

    /// Stops tracking: starts an Idle session unless the current one is
    /// already Idle, in which case nothing changes (Idle is a sink state).
    pub fn stop_working_at(&mut self, now: i64, today: i64)
        requires
            old(self).inv(),
            old(self).input_mode is Normal,
            0 <= now <= MAX_TIMESTAMP,
        ensures
            final(self).inv(),
            old(self).current_kind() != SessionType::Idle ==> start_post(
                *old(self),
                *final(self),
                SessionType::Idle,
                now,
                today,
            ) && final(self).sessions@.len() == old(self).sessions@.len() + 1,
            old(self).current_kind() == SessionType::Idle ==> *final(self) == *old(self),
            final(self).current_kind() == SessionType::Idle,
    {
        if self.sessions[self.current].session_type != SessionType::Idle {
            self.start_new_session_at(SessionType::Idle, now, today);
        }
    }

    /// Boots the controller from an already-recovered (all closed) session
    /// log: appends a fresh open Idle session started at `now`, makes it
    /// current, selects `today`, and computes the cached totals.
    pub fn new_at(loaded: Vec<Session>, loaded_days: Vec<i64>, now: i64, today: i64) -> (r: App)
        requires
            loaded_days@.len() == loaded@.len(),
            all_wf(loaded.deep_view()),
            forall|i: int|
                0 <= i < loaded@.len() ==> !(#[trigger] loaded.deep_view()[i]).is_open(),
            0 <= now <= MAX_TIMESTAMP,
        ensures
            r.inv(),
            r.sessions.deep_view() == loaded.deep_view().push(
                fresh_view(SessionType::Idle, now as int),
            ),
            r.start_days@ == loaded_days@.push(today),
            r.current == loaded@.len(),
            r.input_mode is Normal,
            r.selected_date == today,
            r.selected_row is None,
            r.animation_index == 0,
            r.cached_work == kind_dur_sum(
                r.sessions.deep_view(),
                r.start_days@,
                today,
                SessionType::Work,
                now as int,
            ),
            r.cached_break == kind_dur_sum(
                r.sessions.deep_view(),
                r.start_days@,
                today,
                SessionType::Break,
                now as int,
            ),
    {
        let ghost loaded_views = loaded.deep_view();
        let mut sessions = loaded;
        let mut start_days = loaded_days;
        let idle = Session {
            start_time: now,
            end_time: None,
            session_type: SessionType::Idle,
            note: String::new(),
        };
        let current = sessions.len();
        sessions.push(idle);
        start_days.push(today);
        proof {
            assert(sessions.deep_view() =~= loaded_views.push(
                fresh_view(SessionType::Idle, now as int),
            ));
        }
        let mut app = App {
            sessions,
            start_days,
            current,
            input_mode: InputMode::Normal,
            selected_date: today,
            selected_row: None,
            cached_work: 0,
            cached_break: 0,
            animation_index: 0,
        };
        app.update_stats_cache_at(now);
        app
    }

    /// The store index the selected display row points at, if the
    /// selection resolves to a row of the selected date's view.
    pub fn resolve_selected(&self) -> (r: Option<usize>)
        requires
            self.inv(),
        ensures
            match r {
                Some(ri) => resolve_spec(self.start_days@, self.selected_date, self.selected_row)
                    == Some(ri as int) && ri < self.sessions@.len(),
                None => resolve_spec(self.start_days@, self.selected_date, self.selected_row)
                    is None,
            },
    {
        match self.selected_row {
            None => None,
            Some(t) => {
                let idxs = date_indices(&self.start_days, self.selected_date);
                if t < idxs.len() {
                    proof {
                        lemma_rev_date_indices_bounds(self.start_days@, self.selected_date);
                    }
                    Some(idxs[t])
                } else {
                    None
                }
            },
        }
    }
}

/// Store indices of the sessions whose start day equals `date`, most
/// recent first: the rows the history view displays, top to bottom.
pub fn date_indices(days: &Vec<i64>, date: i64) -> (r: Vec<usize>)
    ensures
        r@.len() == rev_date_indices(days@, date).len(),
        forall|k: int|
            0 <= k < r@.len() ==> r@[k] as int == #[trigger] rev_date_indices(days@, date)[k],
{
    let mut r: Vec<usize> = Vec::new();
    let ghost mut m: Seq<int> = Seq::empty();
    let mut i: usize = days.len();
    proof {
        assert(days@.take(i as int) =~= days@);
        assert(m + rev_date_indices(days@.take(i as int), date) =~= rev_date_indices(
            days@,
            date,
        ));
    }
    while i > 0
        invariant
            i <= days@.len(),
            m.len() == r@.len(),
            forall|k: int| 0 <= k < r@.len() ==> r@[k] as int == #[trigger] m[k],
            rev_date_indices(days@, date) == m + rev_date_indices(days@.take(i as int), date),
        decreases i,
    {
        let ghost m_pre = m;
        i = i - 1;
        proof {
            assert(days@.take(i as int + 1).drop_last() =~= days@.take(i as int));
            assert(days@.take(i as int + 1).last() == days@[i as int]);
        }
        if days[i] == date {
            r.push(i);
            proof {
                m = m.push(i as int);
                assert((m_pre + seq![i as int]) + rev_date_indices(days@.take(i as int), date)
                    =~= m_pre + (seq![i as int] + rev_date_indices(days@.take(i as int), date)));
                assert(m =~= m_pre + seq![i as int]);
            }
        }
    }
    proof {
        assert(days@.take(0) =~= Seq::<i64>::empty());
        assert(m + rev_date_indices(days@.take(0), date) =~= m);
    }
    r
}

/// How one controller state follows another when the selected history row
/// is deleted as of `now`: nothing changes unless the selection resolves
/// to a closed (non-current) session; that one leaves the store, the
/// current index keeps pointing at the same logical session, the row
/// selection resets and the cache is refreshed.
pub open spec fn delete_post(pre: App, post: App, now: i64) -> bool {
    match resolve_spec(pre.start_days@, pre.selected_date, pre.selected_row) {
        None => post == pre,
        Some(ri) => if ri == pre.current as int {
            post == pre
        } else {
            &&& post.sessions.deep_view() == pre.sessions.deep_view().remove(ri)
            &&& post.start_days@ == pre.start_days@.remove(ri)
            &&& post.current as int == if ri < pre.current as int {
                pre.current as int - 1
            } else {
                pre.current as int
            }
            &&& post.selected_row is None
            &&& post.input_mode is Normal
            &&& post.selected_date == pre.selected_date
            &&& post.animation_index == pre.animation_index
            &&& post.cached_work == kind_dur_sum(
                post.sessions.deep_view(),
                post.start_days@,
                pre.selected_date,
                SessionType::Work,
                now as int,
            )
            &&& post.cached_break == kind_dur_sum(
                post.sessions.deep_view(),
                post.start_days@,
                pre.selected_date,
                SessionType::Break,
                now as int,
            )
        },
    }
}

impl App {
    /// Deletes the history entry the row selection points at. Refuses (as
    /// a no-op) when nothing is selected, the selection does not resolve,
    /// or the resolved entry is the currently open session.
    pub fn delete_selected_entry_at(&mut self, now: i64)
        requires
            old(self).inv(),
            old(self).input_mode is Normal,
            0 <= now <= MAX_TIMESTAMP,
        ensures
            final(self).inv(),
            delete_post(*old(self), *final(self), now),
    {
        let ghost pre = *self;
        let resolved = self.resolve_selected();
        match resolved {
            None => {},
            Some(ri) => {
                if ri != self.current {
                    let _removed = self.sessions.remove(ri);
                    let _removed_day = self.start_days.remove(ri);
                    if ri < self.current {
                        self.current = self.current - 1;
                    }
                    self.selected_row = None;
                    proof {
                        assert(self.sessions.deep_view() =~= pre.sessions.deep_view().remove(
                            ri as int,
                        ));
                        assert forall|j: int|
                            0 <= j < self.sessions.deep_view().len() && j != self.current as int
                            implies !(#[trigger] self.sessions.deep_view()[j]).is_open() by {
                            if j < ri as int {
                                assert(self.sessions.deep_view()[j] == pre.sessions.deep_view()[j]);
                            } else {
                                assert(self.sessions.deep_view()[j] == pre.sessions.deep_view()[j
                                    + 1]);
                            }
                        }
                        assert(all_wf(self.sessions.deep_view()));
                    }
                    self.update_stats_cache_at(now);
                }
            },
        }
    }

    /// Opens the note editor for the currently open session; the buffer
    /// starts from that session's note.
    pub fn begin_edit_current(&mut self)
        requires
            old(self).inv(),
            old(self).input_mode is Normal,
        ensures
            final(self).inv(),
            final(self).input_mode matches InputMode::EditingNote { target, buffer }
                && target == NoteTarget::Current
                && buffer@ == old(self).sessions.deep_view()[old(self).current as int].note,
            *final(self) == (App { input_mode: final(self).input_mode, ..*old(self) }),
    {
        let buffer = str_chars(self.sessions[self.current].note.as_str());
        self.input_mode = InputMode::EditingNote { target: NoteTarget::Current, buffer };
    }

    /// Opens the note editor for the selected history row, if the
    /// selection resolves; the buffer starts from that session's note.
    pub fn begin_edit_selected(&mut self)
        requires
            old(self).inv(),
            old(self).input_mode is Normal,
        ensures
            final(self).inv(),
            match resolve_spec(
                old(self).start_days@,
                old(self).selected_date,
                old(self).selected_row,
            ) {
                None => *final(self) == *old(self),
                Some(ri) => final(self).input_mode matches InputMode::EditingNote {
                    target,
                    buffer,
                } && target == NoteTarget::History(ri as usize)
                    && buffer@ == old(self).sessions.deep_view()[ri].note
                    && *final(self) == (App { input_mode: final(self).input_mode, ..*old(self) }),
            },
    {
        let resolved = self.resolve_selected();
        match resolved {
            None => {},
            Some(ri) => {
                let buffer = str_chars(self.sessions[ri].note.as_str());
                self.input_mode = InputMode::EditingNote {
                    target: NoteTarget::History(ri),
                    buffer,
                };
            },
        }
    }

    /// Appends a character to the note-editing buffer; outside the editor
    /// this is a no-op.
    pub fn push_input_char(&mut self, c: char)
        requires
            old(self).inv(),
        ensures
            final(self).inv(),
            old(self).input_mode matches InputMode::EditingNote { target, buffer }
                ==> final(self).input_mode matches InputMode::EditingNote {
                target: t2,
                buffer: b2,
            } && t2 == target && b2@ == buffer@.push(c),
            old(self).input_mode is Normal ==> *final(self) == *old(self),
            *final(self) == (App { input_mode: final(self).input_mode, ..*old(self) }),
    {
        match &mut self.input_mode {
            InputMode::Normal => {},
            InputMode::EditingNote { target: _, buffer } => {
                buffer.push(c);
            },
        }
    }

    /// Removes the last character of the note-editing buffer, if any;
    /// outside the editor this is a no-op.
    pub fn pop_input_char(&mut self)
        requires
            old(self).inv(),
        ensures
            final(self).inv(),
            old(self).input_mode matches InputMode::EditingNote { target, buffer }
                ==> final(self).input_mode matches InputMode::EditingNote {
                target: t2,
                buffer: b2,
            } && t2 == target && b2@ == (if buffer@.len() > 0 {
                buffer@.drop_last()
            } else {
                buffer@
            }),
            old(self).input_mode is Normal ==> *final(self) == *old(self),
            *final(self) == (App { input_mode: final(self).input_mode, ..*old(self) }),
    {
        match &mut self.input_mode {
            InputMode::Normal => {},
            InputMode::EditingNote { target: _, buffer } => {
                if buffer.len() > 0 {
                    let _ = buffer.pop();
                }
            },
        }
    }

    /// Commits the note editor: the buffer replaces the target session's
    /// note wholesale and the controller returns to normal mode. Outside
    /// the editor only the mode (already normal) is touched.
    pub fn save_note(&mut self)
        requires
            old(self).inv(),
        ensures
            final(self).inv(),
            final(self).input_mode is Normal,
            old(self).input_mode is Normal ==> *final(self) == *old(self),
            old(self).input_mode matches InputMode::EditingNote { target, buffer } ==> {
                let idx = match target {
                    NoteTarget::Current => old(self).current as int,
                    NoteTarget::History(i) => i as int,
                };
                &&& final(self).sessions.deep_view() == old(self).sessions.deep_view().update(
                    idx,
                    SessionView {
                        note: buffer@,
                        ..old(self).sessions.deep_view()[idx]
                    },
                )
                &&& *final(self) == (App {
                    sessions: final(self).sessions,
                    input_mode: final(self).input_mode,
                    ..*old(self)
                })
            },
    {
        let ghost pre = *self;
        let mut mode = InputMode::Normal;
        core::mem::swap(&mut mode, &mut self.input_mode);
        match mode {
            InputMode::Normal => {},
            InputMode::EditingNote { target, buffer } => {
                let idx = match target {
                    NoteTarget::Current => self.current,
                    NoteTarget::History(i) => i,
                };
                self.sessions[idx].note = chars_to_string(buffer);
                proof {
                    assert(self.sessions.deep_view() =~= pre.sessions.deep_view().update(
                        idx as int,
                        SessionView { note: self.sessions.deep_view()[idx as int].note, ..pre.sessions.deep_view()[idx as int] },
                    ));
                }
            },
        }
    }

    /// Discards the note editor without committing the buffer.
    pub fn cancel_edit(&mut self)
        requires
            old(self).inv(),
        ensures
            final(self).inv(),
            final(self).input_mode is Normal,
            *final(self) == (App { input_mode: final(self).input_mode, ..*old(self) }),
    {
        self.input_mode = InputMode::Normal;
    }

    /// Moves the row selection down one displayed row, wrapping to the
    /// top; with no selection (or no rows) it lands on the first row.
    pub fn select_next(&mut self)
        requires
            old(self).inv(),
        ensures
            final(self).inv(),
            *final(self) == (App { selected_row: final(self).selected_row, ..*old(self) }),
            ({
                let count = rev_date_indices(old(self).start_days@, old(self).selected_date).len();
                match old(self).selected_row {
                    None => final(self).selected_row == Some(0usize),
                    Some(i) => final(self).selected_row == Some(
                        (if count == 0 || i as int >= count - 1 {
                            0usize
                        } else {
                            (i + 1) as usize
                        }),
                    ),
                }
            }),
    {
        let idxs = date_indices(&self.start_days, self.selected_date);
        let count = idxs.len();
        let next: usize = match self.selected_row {
            None => 0,
            Some(i) => {
                if count == 0 {
                    0
                } else if i >= count - 1 {
                    0
                } else {
                    i + 1
                }
            },
        };
        self.selected_row = Some(next);
    }

    /// Moves the row selection up one displayed row, wrapping to the
    /// bottom; with no selection (or no rows) it lands on the first row.
    pub fn select_prev(&mut self)
        requires
            old(self).inv(),
        ensures
            final(self).inv(),
            *final(self) == (App { selected_row: final(self).selected_row, ..*old(self) }),
            ({
                let count = rev_date_indices(old(self).start_days@, old(self).selected_date).len();
                match old(self).selected_row {
                    None => final(self).selected_row == Some(0usize),
                    Some(i) => final(self).selected_row == Some(
                        (if count == 0 {
                            0usize
                        } else if i == 0 {
                            (count - 1) as usize
                        } else {
                            (i - 1) as usize
                        }),
                    ),
                }
            }),
    {
        let idxs = date_indices(&self.start_days, self.selected_date);
        let count = idxs.len();
        let prev: usize = match self.selected_row {
            None => 0,
            Some(i) => {
                if count == 0 {
                    0
                } else if i == 0 {
                    count - 1
                } else {
                    i - 1
                }
            },
        };
        self.selected_row = Some(prev);
    }

    /// Clears the row selection.
    pub fn clear_selection(&mut self)
        requires
            old(self).inv(),
        ensures
            final(self).inv(),
            final(self).selected_row is None,
            *final(self) == (App { selected_row: final(self).selected_row, ..*old(self) }),
    {
        self.selected_row = None;
    }

    /// Advances the animation frame (modulo the frame count) and, when the
    /// selected date is `today`, refreshes the cached totals so a running
    /// session's growing duration stays live.
    pub fn on_tick_at(&mut self, now: i64, today: i64, frame_count: usize)
        requires
            old(self).inv(),
            0 <= now <= MAX_TIMESTAMP,
            0 < frame_count,
            old(self).animation_index < frame_count,
        ensures
            final(self).inv(),
            final(self).animation_index == (old(self).animation_index + 1) % (
            frame_count as int),
            final(self).animation_index < frame_count,
            old(self).selected_date == today ==> final(self).cached_work == kind_dur_sum(
                old(self).sessions.deep_view(),
                old(self).start_days@,
                old(self).selected_date,
                SessionType::Work,
                now as int,
            ) && final(self).cached_break == kind_dur_sum(
                old(self).sessions.deep_view(),
                old(self).start_days@,
                old(self).selected_date,
                SessionType::Break,
                now as int,
            ),
            old(self).selected_date != today ==> final(self).cached_work == old(self).cached_work
                && final(self).cached_break == old(self).cached_break,
            *final(self) == (App {
                animation_index: final(self).animation_index,
                cached_work: final(self).cached_work,
                cached_break: final(self).cached_break,
                ..*old(self)
            }),
    {
        proof {
            if self.animation_index == frame_count - 1 {
                vstd::arithmetic::div_mod::lemma_mod_self_0(frame_count as int);
            } else {
                vstd::arithmetic::div_mod::lemma_small_mod(
                    (self.animation_index + 1) as nat,
                    frame_count as nat,
                );
            }
        }
        self.animation_index = if self.animation_index >= frame_count - 1 {
            0
        } else {
            self.animation_index + 1
        };
        if self.selected_date == today {
            self.update_stats_cache_at(now);
        }
    }

    /// Shifts the selected calendar date by `delta` days, resets the row
    /// selection (it is scoped per date), and recomputes the cached totals
    /// for the new date.
    pub fn change_date_at(&mut self, delta: i64, now: i64)
        requires
            old(self).inv(),
            0 <= now <= MAX_TIMESTAMP,
            i64::MIN <= old(self).selected_date + delta <= i64::MAX,
        ensures
            final(self).inv(),
            final(self).selected_date == old(self).selected_date + delta,
            final(self).selected_row is None,
            final(self).cached_work == kind_dur_sum(
                old(self).sessions.deep_view(),
                old(self).start_days@,
                final(self).selected_date,
                SessionType::Work,
                now as int,
            ),
            final(self).cached_break == kind_dur_sum(
                old(self).sessions.deep_view(),
                old(self).start_days@,
                final(self).selected_date,
                SessionType::Break,
                now as int,
            ),
            *final(self) == (App {
                selected_date: final(self).selected_date,
                selected_row: final(self).selected_row,
                cached_work: final(self).cached_work,
                cached_break: final(self).cached_break,
                ..*old(self)
            }),
    {
        self.selected_date = self.selected_date + delta;
        self.selected_row = None;
        self.update_stats_cache_at(now);
    }
}

impl App {
    /// Boots the controller from an already-recovered (all closed) session
    /// log, reading the clock and local calendar for the fresh Idle
    /// session and the initially selected date.
    pub fn new(loaded: Vec<Session>) -> (r: App)
        requires
            all_wf(loaded.deep_view()),
            forall|i: int|
                0 <= i < loaded@.len() ==> !(#[trigger] loaded.deep_view()[i]).is_open(),
        ensures
            r.inv(),
            r.sessions.deep_view().len() == loaded@.len() + 1,
            forall|i: int|
                0 <= i < loaded@.len() ==> r.sessions.deep_view()[i] == loaded.deep_view()[i],
            r.sessions.deep_view().last().session_type == SessionType::Idle,
            r.sessions.deep_view().last().is_open(),
            r.sessions.deep_view().last().note == Seq::<char>::empty(),
            r.current == loaded@.len(),
            r.input_mode is Normal,
            r.selected_row is None,
            r.animation_index == 0,
    {
        let mut days: Vec<i64> = Vec::new();
        let mut i: usize = 0;
        let n = loaded.len();
        while i < n
            invariant
                n == loaded@.len(),
                i <= n,
                days@.len() == i,
            decreases n - i,
        {
            days.push(local_day_of(loaded[i].start_time));
            i = i + 1;
        }
        let now = now_timestamp();
        let today = local_day_of(now);
        App::new_at(loaded, days, now, today)
    }

    /// Closes the open session and starts a fresh one of `kind` at the
    /// current wall-clock time, on the current local day.
    pub fn start_new_session(&mut self, kind: SessionType)
        requires
            old(self).inv(),
            old(self).input_mode is Normal,
        ensures
            final(self).inv(),
            exists|now: i64, today: i64|
                0 <= now <= MAX_TIMESTAMP && #[trigger] start_post(
                    *old(self),
                    *final(self),
                    kind,
                    now,
                    today,
                ),
            final(self).current_kind() == kind,
            final(self).sessions@.len() == old(self).sessions@.len() + 1,
    {
        let now = now_timestamp();
        let today = local_day_of(now);
        self.start_new_session_at(kind, now, today);
    }

    /// The space-bar toggle at the current wall-clock time: Work and Break
    /// alternate, and Idle starts Work.
    pub fn toggle_work_break(&mut self)
        requires
            old(self).inv(),
            old(self).input_mode is Normal,
        ensures
            final(self).inv(),
            exists|now: i64, today: i64|
                0 <= now <= MAX_TIMESTAMP && #[trigger] start_post(
                    *old(self),
                    *final(self),
                    toggle_kind(old(self).current_kind()),
                    now,
                    today,
                ),
            final(self).current_kind() == toggle_kind(old(self).current_kind()),
            final(self).sessions@.len() == old(self).sessions@.len() + 1,
    {
        let now = now_timestamp();
        let today = local_day_of(now);
        self.toggle_work_break_at(now, today);
    }

    /// Stops tracking at the current wall-clock time; a no-op while
    /// already Idle.
    pub fn stop_working(&mut self)
        requires
            old(self).inv(),
            old(self).input_mode is Normal,
        ensures
            final(self).inv(),
            old(self).current_kind() != SessionType::Idle ==> exists|now: i64, today: i64|
                0 <= now <= MAX_TIMESTAMP && #[trigger] start_post(
                    *old(self),
                    *final(self),
                    SessionType::Idle,
                    now,
                    today,
                ),
            old(self).current_kind() != SessionType::Idle ==> final(self).sessions@.len() == old(
                self,
            ).sessions@.len() + 1,
            old(self).current_kind() == SessionType::Idle ==> *final(self) == *old(self),
            final(self).current_kind() == SessionType::Idle,
    {
        let now = now_timestamp();
        let today = local_day_of(now);
        self.stop_working_at(now, today);
    }

    /// Deletes the selected history entry as of the current wall-clock
    /// time (the time only enters the refreshed totals).
    pub fn delete_selected_entry(&mut self)
        requires
            old(self).inv(),
            old(self).input_mode is Normal,
        ensures
            final(self).inv(),
            exists|now: i64|
                0 <= now <= MAX_TIMESTAMP && #[trigger] delete_post(
                    *old(self),
                    *final(self),
                    now,
                ),
    {
        let now = now_timestamp();
        self.delete_selected_entry_at(now);
    }

    /// The periodic tick: advances the animation frame and keeps the
    /// totals of a selected current date live.
    pub fn on_tick(&mut self, frame_count: usize)
        requires
            old(self).inv(),
            0 < frame_count,
            old(self).animation_index < frame_count,
        ensures
            final(self).inv(),
            final(self).animation_index == (old(self).animation_index + 1) % (
            frame_count as int),
            final(self).animation_index < frame_count,
            *final(self) == (App {
                animation_index: final(self).animation_index,
                cached_work: final(self).cached_work,
                cached_break: final(self).cached_break,
                ..*old(self)
            }),
    {
        let now = now_timestamp();
        let today = local_day_of(now);
        self.on_tick_at(now, today, frame_count);
    }

    /// Shifts the selected date by `delta` days at the current wall-clock
    /// time.
    pub fn change_date(&mut self, delta: i64)
        requires
            old(self).inv(),
            i64::MIN <= old(self).selected_date + delta <= i64::MAX,
        ensures
            final(self).inv(),
            final(self).selected_date == old(self).selected_date + delta,
            final(self).selected_row is None,
            *final(self) == (App {
                selected_date: final(self).selected_date,
                selected_row: final(self).selected_row,
                cached_work: final(self).cached_work,
                cached_break: final(self).cached_break,
                ..*old(self)
            }),
    {
        let now = now_timestamp();
        self.change_date_at(delta, now);
    }

    /// Recomputes the cached totals at the current wall-clock time.
    pub fn update_stats_cache(&mut self)
        requires
            old(self).inv(),
        ensures
            final(self).inv(),
            exists|now: i64|
                0 <= now <= MAX_TIMESTAMP && final(self).cached_work == kind_dur_sum(
                    old(self).sessions.deep_view(),
                    old(self).start_days@,
                    old(self).selected_date,
                    SessionType::Work,
                    now as int,
                ) && #[trigger] (final(self).cached_break) == kind_dur_sum(
                    old(self).sessions.deep_view(),
                    old(self).start_days@,
                    old(self).selected_date,
                    SessionType::Break,
                    now as int,
                ),
            *final(self) == (App {
                cached_work: final(self).cached_work,
                cached_break: final(self).cached_break,
                ..*old(self)
            }),
    {
        let now = now_timestamp();
        self.update_stats_cache_at(now);
    }
}

/// Law: in a well-formed controller exactly one session of the store is
/// open, and it is the current one. Every operation keeps `inv`, so this
/// holds after any sequence of them.
pub proof fn lemma_single_open(app: App)
    requires
        app.inv(),
    ensures
        forall|i: int|
            0 <= i < app.sessions.deep_view().len()
                ==> ((#[trigger] app.sessions.deep_view()[i]).is_open()
                <==> i == app.current as int),
{
}

/// Work and break totals, in seconds as of `now`, over the sessions whose
/// start day equals `date`. Idle time is counted in neither total.
pub fn daily_totals(sessions: &Vec<Session>, days: &Vec<i64>, date: i64, now: i64) -> (r: (
    i128,
    i128,
))
    requires
        days@.len() == sessions@.len(),
        all_wf(sessions.deep_view()),
        0 <= now <= MAX_TIMESTAMP,
    ensures
        r.0 == kind_dur_sum(sessions.deep_view(), days@, date, SessionType::Work, now as int),
        r.1 == kind_dur_sum(sessions.deep_view(), days@, date, SessionType::Break, now as int),
        0 <= r.0,
        0 <= r.1,
{
    let ghost ssv = sessions.deep_view();
    let mut work: i128 = 0;
    let mut brk: i128 = 0;
    let n = sessions.len();
    let mut i: usize = 0;
    while i < n
        invariant
            n == sessions@.len(),
            days@.len() == sessions@.len(),
            ssv == sessions.deep_view(),
            all_wf(ssv),
            0 <= now <= MAX_TIMESTAMP,
            i <= n,
            work == kind_dur_sum(
                ssv.take(i as int),
                days@.take(i as int),
                date,
                SessionType::Work,
                now as int,
            ),
            brk == kind_dur_sum(
                ssv.take(i as int),
                days@.take(i as int),
                date,
                SessionType::Break,
                now as int,
            ),
            0 <= work,
            work <= (i as int) * (MAX_TIMESTAMP as int),
            0 <= brk,
            brk <= (i as int) * (MAX_TIMESTAMP as int),
        decreases n - i,
    {
        proof {
            assert(ssv.take(i as int + 1).drop_last() =~= ssv.take(i as int));
            assert(days@.take(i as int + 1).drop_last() =~= days@.take(i as int));
            assert(ssv[i as int].wf());
            vstd::arithmetic::mul::lemma_mul_inequality(
                i as int + 1,
                0x1_0000_0000_0000_0000,
                MAX_TIMESTAMP as int,
            );
        }
        if days[i] == date {
            let d = sessions[i].duration(now);
            match sessions[i].session_type {
                SessionType::Work => { work = work + d as i128 },
                SessionType::Break => { brk = brk + d as i128 },
                SessionType::Idle => {},
            }
        }
        i = i + 1;
    }
    proof {
        assert(ssv.take(n as int) =~= ssv);
        assert(days@.take(n as int) =~= days@);
    }
    (work, brk)
}


} // verus!
