use worklog::app_manager::AppManager;
use worklog::app_state::{
    CommandState, ConfirmOpen, SessionEditState, SessionFieldEditState, SessionInputState,
    SessionModifyState, TagInputState,
};
use worklog::control_keys::{get_controls, key_to_char, Key};
use worklog::io::{ColorType, DrawCmd, Out, Vector2};
use worklog::timestamp::Timestamp;

fn ts(year: u32, month: u32, day: u32, hour: u32, minute: u32, second: u32) -> Timestamp {
    Timestamp { year, month, day, hour, minute, second }
}

fn fresh() -> AppManager {
    AppManager::new(vec![], vec![]).expect("empty logs load")
}

fn type_text(m: &mut AppManager, text: &str, now: Timestamp) {
    for c in text.chars() {
        m.update(Key::Char(c), now);
    }
}

#[test]
fn empty_store_start_and_end_one_session() {
    let mut m = fresh();
    m.tag_buffer = "work".to_string();
    m.try_store_tag();
    assert_eq!(m.tags, vec!["work".to_string()]);

    m.description_buffer = "write spec".to_string();
    let t0 = ts(2024, 3, 5, 10, 0, 0);
    m.try_start_new_session(t0);
    assert_eq!(m.sessions.len(), 1);
    assert!(m.sessions[0].is_running());
    assert_eq!(m.database_handler.session_lines().len(), 0);

    let t1 = ts(2024, 3, 5, 11, 0, 0);
    m.end_running_session(t1);
    assert_eq!(m.sessions[0].end, Some(t1));
    assert_eq!(
        m.database_handler.session_lines(),
        &vec!["05-03-2024;write spec;work;10:00:00;11:00:00;".to_string()]
    );
}

#[test]
fn two_persisted_sessions_delete_first() {
    let lines = vec![
        "01-03-2024;one;work;09:00:00;10:00:00;".to_string(),
        "02-03-2024;two;work;09:00:00;10:00:00;".to_string(),
    ];
    let mut m = AppManager::new(lines, vec!["work".to_string()]).expect("consistent logs load");
    assert_eq!(m.sessions.len(), 2);
    m.selected_session_index = 0;
    m.delete_selected_session();
    assert_eq!(m.sessions.len(), 1);
    assert_eq!(m.sessions[0].description, "two");
    assert_eq!(
        m.database_handler.session_lines(),
        &vec!["02-03-2024;two;work;09:00:00;10:00:00;".to_string()]
    );
}

#[test]
fn edit_description_only_and_rewrite() {
    let lines = vec![
        "01-03-2024;one;work;09:00:00;10:00:00;".to_string(),
        "02-03-2024;two;work;09:00:00;10:00:00;".to_string(),
    ];
    let mut m = AppManager::new(lines, vec!["work".to_string()]).expect("consistent logs load");
    let now = ts(2024, 3, 5, 12, 0, 0);

    m.update(Key::Char('e'), now);
    // select the first (oldest) session
    m.update(Key::Down, now);
    assert_eq!(m.selected_session_index, 0);
    m.update(Key::Enter, now);
    assert!(matches!(
        m.state,
        CommandState::Modify(SessionModifyState::Edit(SessionEditState::EditFields(
            SessionFieldEditState::Browse
        )))
    ));
    // cursor: Date -> Description, then edit the field
    m.update(Key::Right, now);
    m.update(Key::Enter, now);
    for _ in 0.."one".len() {
        m.update(Key::Backspace, now);
    }
    type_text(&mut m, "refactor", now);
    m.update(Key::Enter, now); // commit the field into the buffer
    m.update(Key::Esc, now); // leave: pending changes ask for confirmation
    assert!(matches!(
        m.state,
        CommandState::Modify(SessionModifyState::Edit(SessionEditState::Confirm))
    ));
    m.update(Key::Char('y'), now);
    assert!(matches!(m.state, CommandState::Idle));

    assert_eq!(m.sessions[0].description, "refactor");
    assert_eq!(m.sessions[0].tag, "work");
    assert_eq!(m.sessions[0].start, ts(2024, 3, 1, 9, 0, 0));
    assert_eq!(m.sessions[0].end, Some(ts(2024, 3, 1, 10, 0, 0)));
    assert_eq!(m.sessions[1].description, "two");
    assert_eq!(
        m.database_handler.session_lines(),
        &vec![
            "01-03-2024;refactor;work;09:00:00;10:00:00;".to_string(),
            "02-03-2024;two;work;09:00:00;10:00:00;".to_string(),
        ]
    );
}

#[test]
fn starting_over_a_running_session_asks_then_persists_it() {
    let mut m = fresh();
    m.tag_buffer = "work".to_string();
    m.try_store_tag();
    m.description_buffer = "first".to_string();
    let t0 = ts(2024, 3, 5, 10, 0, 0);
    m.try_start_new_session(t0);
    assert!(m.is_last_session_still_running());

    let now = ts(2024, 3, 5, 11, 0, 0);
    m.update(Key::Char('n'), now);
    type_text(&mut m, "second", now);
    m.update(Key::Enter, now);
    assert!(matches!(
        m.state,
        CommandState::New(SessionInputState::Description(ConfirmOpen::Yes))
    ));
    assert_eq!(m.database_handler.session_lines().len(), 0);

    m.update(Key::Char('y'), now);
    assert!(matches!(m.state, CommandState::Idle));
    assert_eq!(m.sessions.len(), 2);
    assert_eq!(m.sessions[0].end, Some(now));
    assert_eq!(m.sessions[1].description, "second");
    assert!(m.sessions[1].is_running());
    // exactly the ended session is persisted
    assert_eq!(
        m.database_handler.session_lines(),
        &vec!["05-03-2024;first;work;10:00:00;11:00:00;".to_string()]
    );
}

#[test]
fn store_tag_rejections_change_nothing() {
    let mut m = fresh();
    m.tag_buffer = "work".to_string();
    m.try_store_tag();
    let selected = m.get_selected_tag_index();

    m.tag_buffer = "".to_string();
    m.try_store_tag();
    assert_eq!(m.tags.len(), 1);
    assert_eq!(m.get_selected_tag_index(), selected);

    m.tag_buffer = "  ".to_string();
    m.try_store_tag();
    assert_eq!(m.tags.len(), 1);
    assert_eq!(m.get_selected_tag_index(), selected);

    m.tag_buffer = "work".to_string();
    m.try_store_tag();
    assert_eq!(m.tags.len(), 1);
    assert_eq!(m.get_selected_tag_index(), selected);
    assert_eq!(m.database_handler.tag_lines(), &vec!["work".to_string()]);
}

#[test]
fn start_rejected_without_description_or_tag() {
    let mut m = fresh();
    let t0 = ts(2024, 3, 5, 10, 0, 0);
    m.description_buffer = "something".to_string();
    m.try_start_new_session(t0); // no tag selected yet
    assert_eq!(m.sessions.len(), 0);

    m.tag_buffer = "work".to_string();
    m.try_store_tag();
    m.description_buffer = "   ".to_string();
    m.try_start_new_session(t0); // blank description
    assert_eq!(m.sessions.len(), 0);
}

#[test]
fn continue_copies_description_and_tag() {
    let lines = vec!["01-03-2024;one;work;09:00:00;10:00:00;".to_string()];
    let mut m = AppManager::new(lines, vec!["work".to_string()]).expect("consistent logs load");
    let now = ts(2024, 3, 5, 12, 0, 0);
    m.update(Key::Char('c'), now);
    assert!(matches!(
        m.state,
        CommandState::Modify(SessionModifyState::Continue(ConfirmOpen::No))
    ));
    m.update(Key::Enter, now);
    m.update(Key::Char('y'), now);
    assert!(matches!(m.state, CommandState::Idle));
    assert_eq!(m.sessions.len(), 2);
    assert_eq!(m.sessions[1].description, "one");
    assert_eq!(m.sessions[1].tag, "work");
    assert_eq!(m.sessions[1].start, now);
    assert!(m.sessions[1].is_running());
}

#[test]
fn quitting_ends_the_running_session() {
    let mut m = fresh();
    m.tag_buffer = "work".to_string();
    m.try_store_tag();
    m.description_buffer = "task".to_string();
    m.try_start_new_session(ts(2024, 3, 5, 10, 0, 0));
    let now = ts(2024, 3, 5, 10, 30, 0);
    m.update(Key::Char('q'), now);
    assert!(matches!(m.state, CommandState::Quitting));
    m.update(Key::Char('y'), now);
    assert!(!m.running);
    assert_eq!(m.sessions[0].end, Some(now));
    assert_eq!(m.database_handler.session_lines().len(), 1);
}

#[test]
fn end_request_needs_a_running_session() {
    let mut m = fresh();
    let now = ts(2024, 3, 5, 10, 0, 0);
    m.update(Key::Char(' '), now);
    assert!(matches!(m.state, CommandState::Idle));
}

#[test]
fn unbound_keys_are_ignored() {
    let lines = vec!["01-03-2024;one;work;09:00:00;10:00:00;".to_string()];
    let mut m = AppManager::new(lines, vec!["work".to_string()]).expect("consistent logs load");
    let now = ts(2024, 3, 5, 12, 0, 0);
    m.update(Key::Char('z'), now);
    m.update(Key::Up, now);
    m.update(Key::Tab, now);
    assert!(matches!(m.state, CommandState::Idle));
    assert_eq!(m.sessions.len(), 1);
}

#[test]
fn new_session_via_tag_creation_flow() {
    let mut m = fresh();
    let now = ts(2024, 3, 5, 10, 0, 0);
    m.update(Key::Char('n'), now);
    type_text(&mut m, "task", now);
    m.update(Key::Tab, now);
    assert!(matches!(
        m.state,
        CommandState::New(SessionInputState::Tag(TagInputState::Select))
    ));
    m.update(Key::Char('n'), now);
    type_text(&mut m, "fun", now);
    m.update(Key::Enter, now); // stores the tag, back to the description
    assert_eq!(m.tags, vec!["fun".to_string()]);
    m.update(Key::Enter, now); // no session runs: starts at once
    assert!(matches!(m.state, CommandState::Idle));
    assert_eq!(m.sessions.len(), 1);
    assert_eq!(m.sessions[0].tag, "fun");
    assert!(m.sessions[0].is_running());
}

#[test]
fn separator_keystrokes_are_filtered() {
    let mut m = fresh();
    let now = ts(2024, 3, 5, 10, 0, 0);
    m.update(Key::Char('n'), now);
    type_text(&mut m, "a;b", now);
    assert_eq!(m.description_buffer, "ab");
}

#[test]
fn load_refuses_corrupt_or_inconsistent_logs() {
    // corrupt session line
    assert!(AppManager::new(vec!["junk".to_string()], vec![]).is_none());
    // session tag absent from the registry
    assert!(AppManager::new(
        vec!["01-03-2024;one;work;09:00:00;10:00:00;".to_string()],
        vec!["other".to_string()],
    )
    .is_none());
    // duplicate tags
    assert!(AppManager::new(vec![], vec!["work".to_string(), "work".to_string()]).is_none());
    // untrimmed tag
    assert!(AppManager::new(vec![], vec![" work".to_string()]).is_none());
    // blank lines alone are repaired, not fatal
    let m = AppManager::new(
        vec!["".to_string(), "01-03-2024;one;work;09:00:00;10:00:00;".to_string()],
        vec!["work".to_string(), "".to_string()],
    )
    .expect("blank lines are compacted away");
    assert_eq!(m.sessions.len(), 1);
    assert_eq!(m.tags.len(), 1);
}

#[test]
fn load_selects_the_last_sessions_tag() {
    let lines = vec![
        "01-03-2024;one;work;09:00:00;10:00:00;".to_string(),
        "02-03-2024;two;fun;09:00:00;10:00:00;".to_string(),
    ];
    let m = AppManager::new(lines, vec!["work".to_string(), "fun".to_string()])
        .expect("consistent logs load");
    assert_eq!(m.get_selected_tag_index(), 1);
}

#[test]
fn tag_selection_cycles_within_bounds() {
    let mut m = AppManager::new(vec![], vec![]).expect("empty logs load");
    for name in ["a", "b", "c"] {
        m.tag_buffer = name.to_string();
        m.try_store_tag();
    }
    let now = ts(2024, 3, 5, 10, 0, 0);
    m.update(Key::Char('n'), now);
    m.update(Key::Tab, now);
    assert_eq!(m.temp_tag_index, 2);
    m.update(Key::Down, now);
    assert_eq!(m.temp_tag_index, 2);
    m.update(Key::Up, now);
    m.update(Key::Up, now);
    m.update(Key::Up, now);
    assert_eq!(m.temp_tag_index, 0);
    m.update(Key::Enter, now);
    assert_eq!(m.get_selected_tag_index(), 0);
}

#[test]
fn controls_and_key_labels() {
    let controls = get_controls();
    assert_eq!(controls.len(), 6);
    assert_eq!(controls[0].key, Key::Char('n'));
    assert_eq!(controls[0].description, "new");
    assert_eq!(controls[4].description, "end");
    assert_eq!(key_to_char(Key::Char('q')), "q");
    assert_eq!(key_to_char(Key::Char(' ')), "SPACE");
}

#[test]
fn render_queue_drains_and_color_stacks_balance() {
    let mut out = Out::new();
    out.push_color(ColorType::Foreground, 15);
    out.draw_at("hello", &Vector2::new(2, 3));
    out.pop_color(ColorType::Foreground);
    out.check_color_stacks();
    let cmds = out.render();
    assert_eq!(cmds.len(), 4);
    assert!(matches!(cmds[0], DrawCmd::SetColor(ColorType::Foreground, Some(15))));
    assert!(matches!(cmds[1], DrawCmd::MoveTo(Vector2 { x: 2, y: 3 })));
    assert!(matches!(&cmds[2], DrawCmd::Print(s) if s == "hello"));
    assert!(matches!(cmds[3], DrawCmd::SetColor(ColorType::Foreground, None)));
    assert_eq!(out.render().len(), 0);
}
