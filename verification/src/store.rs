//! The session store's persistence logic: serialising the ordered log,
//! parsing it back, and the load-time recovery of sessions left open by
//! the previous run.

use vstd::prelude::*;
use vstd::string::StringExecFns;
use crate::session::{Session, SessionView, MAX_TIMESTAMP};
use crate::codec::{decode_sessions, enc_sessions, encode_sessions, lemma_codec_round_trip,
    p_sessions};
use crate::controller::all_wf;
use crate::clock::now_timestamp;

verus! {

/// An open session older than this many seconds at load time is treated
/// as abandoned.
pub const STALE_SECONDS: i64 = 86_400;

/// The text appended to the note of a session that was auto-closed as
/// stale.
pub open spec fn stale_marker() -> Seq<char> {
    " [Auto-closed: Stale]"@
}

/// The persisted text could not be parsed.
#[derive(Clone, Copy, Debug, PartialEq, Eq, Structural)]
pub enum PersistenceError {
    Malformed,
}

/// What load-time recovery makes of one session: a closed session stands;
/// an open one older than the stale limit is zeroed (end set to its own
/// start) and its note flagged; a younger one is closed at `now` (never
/// before its start).
pub open spec fn recover_view(v: SessionView, now: int) -> SessionView {
    if v.is_open() {
        if now - v.start_time > STALE_SECONDS as int {
            SessionView { end_time: Some(v.start_time), note: v.note + stale_marker(), ..v }
        } else {
            SessionView {
                end_time: Some(
                    if now >= v.start_time {
                        now
                    } else {
                        v.start_time
                    },
                ),
                ..v
            }
        }
    } else {
        v
    }
}

/// Recovery over a whole log.
pub open spec fn recover_all(ss: Seq<SessionView>, now: int) -> Seq<SessionView> {
    Seq::new(ss.len(), |i: int| recover_view(ss[i], now))
}

/// Closes every session left open, as `recover_view` says.
pub fn recover_sessions(sessions: &mut Vec<Session>, now: i64)
    requires
        all_wf(old(sessions).deep_view()),
        0 <= now <= MAX_TIMESTAMP,
    ensures
        final(sessions).deep_view() == recover_all(old(sessions).deep_view(), now as int),
        all_wf(final(sessions).deep_view()),
        forall|i: int|
            0 <= i < final(sessions).deep_view().len()
                ==> !(#[trigger] final(sessions).deep_view()[i]).is_open(),
{
    let ghost orig = sessions.deep_view();
    let n = sessions.len();
    let mut i: usize = 0;
    while i < n
        invariant
            n == sessions@.len(),
            i <= n,
            sessions@.len() == orig.len(),
            all_wf(orig),
            0 <= now <= MAX_TIMESTAMP,
            forall|j: int|
                0 <= j < i ==> #[trigger] sessions.deep_view()[j] == recover_view(
                    orig[j],
                    now as int,
                ),
            forall|j: int| i <= j < n ==> #[trigger] sessions.deep_view()[j] == orig[j],
        decreases n - i,
    {
        let ghost pre = sessions.deep_view();
        proof {
            assert(sessions.deep_view()[i as int] == orig[i as int]);
            assert(orig[i as int].wf());
            assert(sessions@[i as int]@ == sessions.deep_view()[i as int]);
        }
        if sessions[i].end_time.is_none() {
            let start = sessions[i].start_time;
            if now - start > STALE_SECONDS {
                sessions[i].end_time = Some(start);
                let mut note = sessions[i].note.clone();
                note.append(" [Auto-closed: Stale]");
                sessions[i].note = note;
                proof {
                    assert(sessions@[i as int]@ == sessions.deep_view()[i as int]);
                    assert(sessions.deep_view()[i as int].end_time == Some(start as int));
                    assert(sessions.deep_view()[i as int].note == orig[i as int].note
                        + stale_marker());
                    assert(sessions.deep_view()[i as int].start_time == orig[
                        i as int].start_time);
                    assert(sessions.deep_view()[i as int].session_type == orig[
                        i as int].session_type);
                }
            } else {
                let end = if now >= start {
                    now
                } else {
                    start
                };
                sessions[i].end_time = Some(end);
            }
            proof {
                assert(sessions.deep_view()[i as int] == recover_view(orig[i as int], now as int));
                assert(forall|j: int|
                    0 <= j < n && j != i ==> #[trigger] sessions.deep_view()[j] == pre[j]);
            }
        }
        i = i + 1;
    }
    proof {
        assert(sessions.deep_view() =~= recover_all(orig, now as int));
        assert forall|j: int| 0 <= j < sessions.deep_view().len() implies (#[trigger] sessions
            .deep_view()[j]).wf() && !sessions.deep_view()[j].is_open() by {
            assert(orig[j].wf());
            assert(sessions.deep_view()[j] == recover_view(orig[j], now as int));
        }
    }
}

/// The full ordered log as the text that is persisted.
pub fn save_sessions(sessions: &Vec<Session>) -> (r: String)
    requires
        all_wf(sessions.deep_view()),
    ensures
        r@ == enc_sessions(sessions.deep_view()),
{
    encode_sessions(sessions)
}

/// What a successful load yields: nothing persisted gives the empty log;
/// otherwise the parsed log after recovery at `now`.
pub open spec fn load_ok(text: Option<Seq<char>>, vs: Seq<SessionView>, now: int) -> bool {
    match text {
        None => vs == Seq::<SessionView>::empty(),
        Some(t) => match p_sessions(t) {
            Some(pvs) => vs == recover_all(pvs, now),
            None => false,
        },
    }
}

pub open spec fn text_view(text: Option<&str>) -> Option<Seq<char>> {
    match text {
        Some(s) => Some(s@),
        None => None,
    }
}

/// Loads the log from the persisted text (`None` where no state was ever
/// written), recovering open sessions as of `now`. Fails exactly when
/// text is present that the format does not produce.
pub fn load_sessions_at(text: Option<&str>, now: i64) -> (r: Result<
    Vec<Session>,
    PersistenceError,
>)
    requires
        0 <= now <= MAX_TIMESTAMP,
    ensures
        match r {
            Ok(vs) => load_ok(text_view(text), vs.deep_view(), now as int) && all_wf(
                vs.deep_view(),
            ) && forall|i: int|
                0 <= i < vs.deep_view().len() ==> !(#[trigger] vs.deep_view()[i]).is_open(),
            Err(_) => text matches Some(s) && p_sessions(s@) is None,
        },
{
    match text {
        None => {
            let vs: Vec<Session> = Vec::new();
            proof {
                assert(vs.deep_view() =~= Seq::<SessionView>::empty());
            }
            Ok(vs)
        },
        Some(s) => match decode_sessions(s) {
            None => Err(PersistenceError::Malformed),
            Some(mut vs) => {
                recover_sessions(&mut vs, now);
                Ok(vs)
            },
        },
    }
}

/// Loads the log as of the current wall-clock time.
pub fn load_sessions(text: Option<&str>) -> (r: Result<Vec<Session>, PersistenceError>)
    ensures
        match r {
            Ok(vs) => all_wf(vs.deep_view()) && (forall|i: int|
                0 <= i < vs.deep_view().len() ==> !(#[trigger] vs.deep_view()[i]).is_open())
                && exists|now: i64|
                0 <= now <= MAX_TIMESTAMP && #[trigger] load_ok(
                    text_view(text),
                    vs.deep_view(),
                    now as int,
                ),
            Err(_) => text matches Some(s) && p_sessions(s@) is None,
        },
{
    let now = now_timestamp();
    load_sessions_at(text, now)
}

/// The law of persistence: saving a log of closed sessions and loading
/// the text back gives the same log, whatever the clock reads — recovery
/// never touches a closed session.
pub proof fn lemma_save_load_round_trip(ss: Seq<SessionView>, now: int)
    requires
        all_wf(ss),
        forall|i: int| 0 <= i < ss.len() ==> !(#[trigger] ss[i]).is_open(),
    ensures
        p_sessions(enc_sessions(ss)) == Some(ss),
        recover_all(ss, now) == ss,
        load_ok(Some(enc_sessions(ss)), ss, now),
{
    lemma_codec_round_trip(ss);
    assert(recover_all(ss, now) =~= ss);
}

} // verus!
