use worklog::controller::{daily_totals, date_indices, App, InputMode, NoteTarget};
use worklog::format::format_duration_str;
use worklog::session::{Session, SessionType};
use worklog::store::{load_sessions, load_sessions_at, save_sessions, PersistenceError};

fn closed(start: i64, end: i64, kind: SessionType, note: &str) -> Session {
    Session { start_time: start, end_time: Some(end), session_type: kind, note: note.to_string() }
}

fn open(start: i64, kind: SessionType, note: &str) -> Session {
    Session { start_time: start, end_time: None, session_type: kind, note: note.to_string() }
}

fn open_indices(app: &App) -> Vec<usize> {
    app.sessions
        .iter()
        .enumerate()
        .filter(|(_, s)| s.end_time.is_none())
        .map(|(i, _)| i)
        .collect()
}

#[test]
fn labels() {
    assert_eq!(SessionType::Work.label(), "WORKING");
    assert_eq!(SessionType::Break.label(), "ON BREAK");
    assert_eq!(SessionType::Idle.label(), "IDLE");
}

#[test]
fn duration_closed_and_open() {
    let s = closed(100, 160, SessionType::Work, "");
    assert_eq!(s.duration(1_000), 60);
    let o = open(100, SessionType::Work, "");
    assert_eq!(o.duration(160), 60);
    // an open session started after `now` counts as zero
    assert_eq!(o.duration(50), 0);
}

#[test]
fn toggle_transition_table() {
    // boot on an empty store: one open Idle session
    let mut app = App::new_at(Vec::new(), Vec::new(), 1_000, 10);
    assert_eq!(app.sessions.len(), 1);
    assert_eq!(app.sessions[app.current].session_type, SessionType::Idle);

    app.toggle_work_break_at(1_100, 10);
    assert_eq!(app.sessions[app.current].session_type, SessionType::Work);
    assert_eq!(app.sessions.len(), 2);

    app.toggle_work_break_at(1_200, 10);
    assert_eq!(app.sessions[app.current].session_type, SessionType::Break);
    assert_eq!(app.sessions.len(), 3);

    app.stop_working_at(1_300, 10);
    assert_eq!(app.sessions[app.current].session_type, SessionType::Idle);
    assert_eq!(app.sessions.len(), 4);

    // stopping while Idle is a no-op: no new session
    app.stop_working_at(1_400, 10);
    assert_eq!(app.sessions[app.current].session_type, SessionType::Idle);
    assert_eq!(app.sessions.len(), 4);
}

#[test]
fn single_open_after_any_sequence() {
    let mut app = App::new_at(Vec::new(), Vec::new(), 1_000, 10);
    app.toggle_work_break_at(1_010, 10);
    app.toggle_work_break_at(1_020, 10);
    app.stop_working_at(1_030, 10);
    app.start_new_session_at(SessionType::Work, 1_040, 10);
    app.stop_working_at(1_050, 10);
    app.stop_working_at(1_060, 10);
    let open = open_indices(&app);
    assert_eq!(open, vec![app.current]);
}

#[test]
fn closing_never_precedes_start() {
    let mut app = App::new_at(Vec::new(), Vec::new(), 1_000, 10);
    // a clock that ran backwards: the closed session ends at its own start
    app.toggle_work_break_at(900, 10);
    assert_eq!(app.sessions[0].end_time, Some(1_000));
}

#[test]
fn stale_recovery_on_load() {
    let now: i64 = 100 * 86_400;
    let stale = open(now - 25 * 3_600, SessionType::Work, "late");
    let young = open(now - 3_600, SessionType::Break, "fresh");
    let text = save_sessions(&vec![stale, young]);
    let loaded = load_sessions_at(Some(text.as_str()), now).unwrap();
    assert_eq!(loaded.len(), 2);
    // older than 24 h: zeroed and flagged
    assert_eq!(loaded[0].end_time, Some(now - 25 * 3_600));
    assert_eq!(loaded[0].note, "late [Auto-closed: Stale]");
    // younger: closed at `now`, note untouched
    assert_eq!(loaded[1].end_time, Some(now));
    assert_eq!(loaded[1].note, "fresh");
}

#[test]
fn stale_boundary_is_strict() {
    let now: i64 = 10 * 86_400;
    // exactly 24 h old: closed normally, not flagged
    let at_limit = open(now - 86_400, SessionType::Work, "x");
    let over_limit = open(now - 86_401, SessionType::Work, "y");
    let text = save_sessions(&vec![at_limit, over_limit]);
    let loaded = load_sessions_at(Some(text.as_str()), now).unwrap();
    assert_eq!(loaded[0].end_time, Some(now));
    assert_eq!(loaded[0].note, "x");
    assert_eq!(loaded[1].end_time, Some(now - 86_401));
    assert_eq!(loaded[1].note, "y [Auto-closed: Stale]");
}

#[test]
fn aggregate_excludes_idle() {
    let day: i64 = 42;
    let sessions = vec![
        closed(1_000, 1_000 + 30 * 60, SessionType::Work, ""),
        closed(3_000, 3_000 + 10 * 60, SessionType::Break, ""),
        closed(5_000, 5_000 + 5 * 60, SessionType::Idle, ""),
    ];
    let days = vec![day, day, day];
    let (work, brk) = daily_totals(&sessions, &days, day, 10_000);
    assert_eq!(work, 30 * 60);
    assert_eq!(brk, 10 * 60);
}

#[test]
fn aggregate_only_counts_the_selected_date() {
    let sessions = vec![
        closed(1_000, 1_600, SessionType::Work, ""),
        closed(2_000, 2_600, SessionType::Work, ""),
    ];
    let days = vec![7, 8];
    let (work, brk) = daily_totals(&sessions, &days, 7, 10_000);
    assert_eq!(work, 600);
    assert_eq!(brk, 0);
}

#[test]
fn aggregate_open_session_grows_with_now() {
    let sessions = vec![open(1_000, SessionType::Work, "")];
    let days = vec![3];
    let (w1, _) = daily_totals(&sessions, &days, 3, 1_060);
    let (w2, _) = daily_totals(&sessions, &days, 3, 1_120);
    assert_eq!(w1, 60);
    assert_eq!(w2, 120);
}

#[test]
fn display_order_is_reverse_chronological() {
    let days = vec![5, 6, 5, 5];
    let idxs = date_indices(&days, 5);
    assert_eq!(idxs, vec![3, 2, 0]);
    assert_eq!(date_indices(&days, 9), Vec::<usize>::new());
}

#[test]
fn delete_mapping() {
    let day: i64 = 10;
    // creation order [A, B]; boot appends open C
    let a = closed(1_000, 1_100, SessionType::Work, "A");
    let b = closed(1_200, 1_300, SessionType::Break, "B");
    let mut app = App::new_at(vec![a, b], vec![day, day], 1_400, day);
    assert_eq!(app.sessions.len(), 3);
    assert_eq!(app.current, 2);

    // displayed order is [C, B, A]; row 0 is the open session: refused
    app.selected_row = Some(0);
    app.delete_selected_entry_at(1_500);
    assert_eq!(app.sessions.len(), 3);

    // row 1 is B: removed, C stays current
    app.selected_row = Some(1);
    app.delete_selected_entry_at(1_500);
    assert_eq!(app.sessions.len(), 2);
    assert_eq!(app.sessions[0].note, "A");
    assert!(app.sessions[1].end_time.is_none());
    assert_eq!(app.current, 1);
    assert_eq!(app.selected_row, None);
}

#[test]
fn delete_with_no_selection_is_a_no_op() {
    let mut app = App::new_at(Vec::new(), Vec::new(), 1_000, 10);
    app.delete_selected_entry_at(1_100);
    assert_eq!(app.sessions.len(), 1);
    app.selected_row = Some(4);
    app.delete_selected_entry_at(1_200);
    assert_eq!(app.sessions.len(), 1);
}

#[test]
fn save_load_round_trip() {
    let sessions = vec![
        closed(0, 1, SessionType::Work, ""),
        closed(1_000, 2_000, SessionType::Break, "plain note"),
        closed(3_000, 4_000, SessionType::Idle, "with \"quotes\" and \\backslash\\"),
        closed(99_999_999_998, 99_999_999_999, SessionType::Work, "edge of time"),
    ];
    let text = save_sessions(&sessions);
    let loaded = load_sessions_at(Some(text.as_str()), 50_000).unwrap();
    assert_eq!(loaded.len(), sessions.len());
    for (s, l) in sessions.iter().zip(loaded.iter()) {
        assert_eq!(s.start_time, l.start_time);
        assert_eq!(s.end_time, l.end_time);
        assert_eq!(s.session_type, l.session_type);
        assert_eq!(s.note, l.note);
    }
}

#[test]
fn encoded_text_is_exact() {
    let sessions = vec![closed(7, 99, SessionType::Work, "hi")];
    let text = save_sessions(&sessions);
    assert_eq!(
        text,
        "[{\"start_time\":00000000007,\"end_time\":00000000099,\"session_type\":\"Work\",\"note\":\"hi\"}]"
    );
    let empty = save_sessions(&Vec::new());
    assert_eq!(empty, "[]");
}

#[test]
fn malformed_text_is_refused() {
    assert!(matches!(
        load_sessions_at(Some("garbage"), 1_000),
        Err(PersistenceError::Malformed)
    ));
    assert!(matches!(
        load_sessions_at(Some("[{\"start_time\":1}]"), 1_000),
        Err(PersistenceError::Malformed)
    ));
    // an end before its start is malformed, not silently accepted
    assert!(matches!(
        load_sessions_at(
            Some(
                "[{\"start_time\":00000000099,\"end_time\":00000000007,\"session_type\":\"Work\",\"note\":\"\"}]"
            ),
            1_000
        ),
        Err(PersistenceError::Malformed)
    ));
}

#[test]
fn missing_state_loads_empty() {
    assert!(load_sessions_at(None, 1_000).unwrap().is_empty());
    let loaded = load_sessions_at(Some("[]"), 1_000).unwrap();
    assert!(loaded.is_empty());
    let clocked = load_sessions(None).unwrap();
    assert!(clocked.is_empty());
}

#[test]
fn note_editing_commits_the_buffer() {
    let mut app = App::new_at(Vec::new(), Vec::new(), 1_000, 10);
    app.begin_edit_current();
    assert!(matches!(app.input_mode, InputMode::EditingNote { .. }));
    for c in "memo".chars() {
        app.push_input_char(c);
    }
    app.pop_input_char();
    app.save_note();
    assert!(matches!(app.input_mode, InputMode::Normal));
    assert_eq!(app.sessions[app.current].note, "mem");
}

#[test]
fn note_editing_cancel_discards_the_buffer() {
    let mut app = App::new_at(Vec::new(), Vec::new(), 1_000, 10);
    app.begin_edit_current();
    app.push_input_char('x');
    app.cancel_edit();
    assert!(matches!(app.input_mode, InputMode::Normal));
    assert_eq!(app.sessions[app.current].note, "");
}

#[test]
fn note_editing_targets_a_history_row() {
    let day: i64 = 10;
    let a = closed(1_000, 1_100, SessionType::Work, "old");
    let mut app = App::new_at(vec![a], vec![day], 1_400, day);
    // displayed rows: [current, A]; select A and edit it
    app.selected_row = Some(1);
    app.begin_edit_selected();
    match &app.input_mode {
        InputMode::EditingNote { target, buffer } => {
            assert_eq!(*target, NoteTarget::History(0));
            assert_eq!(buffer.iter().collect::<String>(), "old");
        }
        InputMode::Normal => panic!("editor did not open"),
    }
    app.push_input_char('!');
    app.save_note();
    assert_eq!(app.sessions[0].note, "old!");
}

#[test]
fn selection_wraps_both_ways() {
    let day: i64 = 10;
    let a = closed(1_000, 1_100, SessionType::Work, "");
    let b = closed(1_200, 1_300, SessionType::Break, "");
    let mut app = App::new_at(vec![a, b], vec![day, day], 1_400, day);
    // three displayed rows
    app.select_next();
    assert_eq!(app.selected_row, Some(0));
    app.select_next();
    assert_eq!(app.selected_row, Some(1));
    app.select_next();
    assert_eq!(app.selected_row, Some(2));
    app.select_next();
    assert_eq!(app.selected_row, Some(0));
    app.select_prev();
    assert_eq!(app.selected_row, Some(2));
    app.clear_selection();
    assert_eq!(app.selected_row, None);
}

#[test]
fn change_date_resets_selection_and_totals() {
    let day: i64 = 10;
    let a = closed(1_000, 1_600, SessionType::Work, "");
    let mut app = App::new_at(vec![a], vec![day], 2_000, day);
    assert_eq!(app.cached_work, 600);
    app.selected_row = Some(0);
    app.change_date_at(-1, 2_000);
    assert_eq!(app.selected_date, day - 1);
    assert_eq!(app.selected_row, None);
    assert_eq!(app.cached_work, 0);
    app.change_date_at(1, 2_000);
    assert_eq!(app.cached_work, 600);
}

#[test]
fn tick_advances_animation_and_live_totals() {
    let day: i64 = 10;
    let mut app = App::new_at(Vec::new(), Vec::new(), 1_000, day);
    app.start_new_session_at(SessionType::Work, 1_000, day);
    let w0 = app.cached_work;
    app.on_tick_at(1_060, day, 4);
    assert_eq!(app.animation_index, 1);
    assert_eq!(app.cached_work, w0 + 60);
    app.on_tick_at(1_120, day, 4);
    app.on_tick_at(1_180, day, 4);
    app.on_tick_at(1_240, day, 4);
    assert_eq!(app.animation_index, 0);
    // a historical date is not recomputed on tick
    app.change_date_at(-1, 1_240);
    app.on_tick_at(1_300, day, 4);
    assert_eq!(app.cached_work, 0);
}

#[test]
fn boot_with_the_real_clock() {
    let mut app = App::new(Vec::new());
    assert_eq!(app.sessions.len(), 1);
    assert!(app.sessions[0].end_time.is_none());
    assert_eq!(app.sessions[0].session_type, SessionType::Idle);
    app.toggle_work_break();
    assert_eq!(app.sessions[app.current].session_type, SessionType::Work);
    assert_eq!(open_indices(&app), vec![app.current]);
}

#[test]
fn cache_matches_recomputation_after_mutations() {
    let day: i64 = 10;
    let a = closed(1_000, 1_600, SessionType::Work, "");
    let mut app = App::new_at(vec![a], vec![day], 2_000, day);
    app.start_new_session_at(SessionType::Break, 2_000, day);
    let (w, b) = daily_totals(&app.sessions, &app.start_days, day, 2_000);
    assert_eq!((app.cached_work, app.cached_break), (w, b));
    app.selected_row = Some(2);
    app.delete_selected_entry_at(2_500);
    let (w2, b2) = daily_totals(&app.sessions, &app.start_days, day, 2_500);
    assert_eq!((app.cached_work, app.cached_break), (w2, b2));
}

#[test]
fn duration_formatting() {
    assert_eq!(format_duration_str(0), "00:00:00");
    assert_eq!(format_duration_str(61), "00:01:01");
    assert_eq!(format_duration_str(3_661), "01:01:01");
    assert_eq!(format_duration_str(59), "00:00:59");
    // hours grow past two digits when they must
    assert_eq!(format_duration_str(100 * 3_600 + 2 * 60 + 3), "100:02:03");
}
