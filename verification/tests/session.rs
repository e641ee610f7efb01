use zellaunch::parser::ParsedTask;
use zellaunch::resolver::ResolvedLaunch;
use zellaunch::session::{Event, Input, Key, State, Update};
use zellaunch::worker::{TaskOption, TaskRunner};

fn strings(items: &[&str]) -> Vec<String> {
    items.iter().map(|s| s.to_string()).collect()
}

fn launch(command: &str, args: &[&str]) -> ResolvedLaunch {
    ResolvedLaunch { command: command.to_string(), args: strings(args) }
}

fn deploy_catalog() -> Vec<TaskOption> {
    vec![TaskOption {
        task: "deploy".to_string(),
        runner: TaskRunner::Npm,
        command: "npm".to_string(),
        args: strings(&["run", "deploy"]),
    }]
}

fn typed(text: &str) -> Input {
    let mut input = Input::default();
    for c in text.chars() {
        input.push(c);
    }
    input
}

fn type_line(state: &mut State, text: &str) {
    for c in text.chars() {
        let update = state.update(Event::Key(Key::Char(c)));
        assert_eq!(update, Update { render: true, launches: vec![], hide: false });
    }
}

#[test]
fn new_input_is_empty() {
    let input = Input::default();
    assert_eq!(input.to_string(), "");
    assert_eq!(input.cursor_position(), 0);
}

#[test]
fn push_appends_at_the_end() {
    let input = typed("ls -l");
    assert_eq!(input.to_string(), "ls -l");
    assert_eq!(input.cursor_position(), 5);
}

#[test]
fn push_inserts_at_the_cursor() {
    let mut input = typed("lsl");
    input.move_cursor(-1);
    input.push(' ');
    input.push('-');
    assert_eq!(input.to_string(), "ls -l");
    assert_eq!(input.cursor_position(), 4);
    input.move_cursor(-4);
    input.push('>');
    assert_eq!(input.to_string(), ">ls -l");
    assert_eq!(input.cursor_position(), 1);
}

#[test]
fn cursor_counts_characters() {
    let mut input = typed("häß");
    assert_eq!(input.cursor_position(), 3);
    input.move_cursor(-1);
    input.push('ö');
    assert_eq!(input.to_string(), "häöß");
    assert_eq!(input.pop(), Some('ö'));
    assert_eq!(input.pop(), Some('ä'));
    assert_eq!(input.to_string(), "hß");
    assert_eq!(input.cursor_position(), 1);
}

#[test]
fn pop_removes_the_character_before_the_cursor() {
    let mut input = typed("abc");
    assert_eq!(input.pop(), Some('c'));
    assert_eq!(input.to_string(), "ab");
    assert_eq!(input.cursor_position(), 2);
    input.move_cursor(-1);
    assert_eq!(input.pop(), Some('a'));
    assert_eq!(input.to_string(), "b");
    assert_eq!(input.cursor_position(), 0);
}

#[test]
fn pop_at_the_start_changes_nothing() {
    let mut input = Input::default();
    assert_eq!(input.pop(), None);
    let mut input = typed("ab");
    input.move_cursor(-2);
    assert_eq!(input.pop(), None);
    assert_eq!(input.to_string(), "ab");
    assert_eq!(input.cursor_position(), 0);
}

#[test]
fn clear_empties_the_line() {
    let mut input = typed("abc");
    input.clear();
    assert_eq!(input.to_string(), "");
    assert_eq!(input.cursor_position(), 0);
}

#[test]
fn move_cursor_stays_inside_the_text() {
    let mut input = typed("abc");
    input.move_cursor(1);
    assert_eq!(input.cursor_position(), 3);
    input.move_cursor(-4);
    assert_eq!(input.cursor_position(), 3);
    input.move_cursor(-3);
    assert_eq!(input.cursor_position(), 0);
    input.move_cursor(-1);
    assert_eq!(input.cursor_position(), 0);
    input.move_cursor(2);
    assert_eq!(input.cursor_position(), 2);
    input.move_cursor(2);
    assert_eq!(input.cursor_position(), 2);
    input.move_cursor(isize::MAX);
    assert_eq!(input.cursor_position(), 2);
    input.move_cursor(isize::MIN);
    assert_eq!(input.cursor_position(), 2);
    input.move_cursor(0);
    assert_eq!(input.cursor_position(), 2);
    assert_eq!(input.to_string(), "abc");
}

#[test]
fn iter_reads_the_line() {
    let input = typed("2 x; ls");
    let requests = input.iter().collect();
    assert_eq!(
        requests,
        vec![
            ParsedTask { index: Some(2), command: None, args: vec!["x"] },
            ParsedTask { index: None, command: Some("ls"), args: vec![] },
        ]
    );
}

#[test]
fn new_session_is_empty() {
    let state = State::default();
    assert_eq!(state.input().to_string(), "");
    assert_eq!(state.input().cursor_position(), 0);
    assert_eq!(state.options(), &Vec::<TaskOption>::new());
    assert_eq!(state.launch_tasks(), vec![]);
}

#[test]
fn characters_and_backspace_edit_the_line() {
    let mut state = State::default();
    type_line(&mut state, "lsx");
    let update = state.update(Event::Key(Key::Backspace));
    assert_eq!(update, Update { render: true, launches: vec![], hide: false });
    assert_eq!(state.input().to_string(), "ls");
    assert_eq!(state.input().cursor_position(), 2);
}

#[test]
fn backspace_on_an_empty_line_changes_nothing() {
    let mut state = State::default();
    let update = state.update(Event::Key(Key::Backspace));
    assert_eq!(update, Update { render: true, launches: vec![], hide: false });
    assert_eq!(state.input().to_string(), "");
}

#[test]
fn new_catalog_replaces_the_old_one_and_leaves_the_line() {
    let mut state = State::default();
    type_line(&mut state, "1");
    let update = state.update(Event::CustomMessage(deploy_catalog()));
    assert_eq!(update, Update { render: true, launches: vec![], hide: false });
    assert_eq!(state.options(), &deploy_catalog());
    assert_eq!(state.input().to_string(), "1");
    let update = state.update(Event::CustomMessage(vec![]));
    assert_eq!(update, Update { render: true, launches: vec![], hide: false });
    assert_eq!(state.options(), &Vec::<TaskOption>::new());
    assert_eq!(state.input().to_string(), "1");
}

#[test]
fn newline_launches_the_line_and_hides() {
    let mut state = State::default();
    state.update(Event::CustomMessage(deploy_catalog()));
    type_line(&mut state, "1 --staging");
    assert_eq!(state.launch_tasks(), vec![launch("npm", &["run", "deploy", "--staging"])]);
    let update = state.update(Event::Key(Key::Char('\n')));
    assert_eq!(
        update,
        Update {
            render: true,
            launches: vec![launch("npm", &["run", "deploy", "--staging"])],
            hide: true,
        }
    );
    assert_eq!(state.input().to_string(), "");
    assert_eq!(state.input().cursor_position(), 0);
    assert_eq!(state.options(), &deploy_catalog());
}

#[test]
fn newline_launches_in_the_order_of_the_line() {
    let mut state = State::default();
    state.update(Event::CustomMessage(deploy_catalog()));
    type_line(&mut state, "echo 'hi there'; 1");
    let update = state.update(Event::Key(Key::Char('\n')));
    assert_eq!(
        update.launches,
        vec![launch("echo", &["hi there"]), launch("npm", &["run", "deploy"])]
    );
    assert!(update.hide);
}

#[test]
fn index_before_any_catalog_launches_nothing() {
    let mut state = State::default();
    type_line(&mut state, "1; ls");
    let update = state.update(Event::Key(Key::Char('\n')));
    assert_eq!(update, Update { render: true, launches: vec![launch("ls", &[])], hide: true });
}

#[test]
fn escape_clears_and_hides_without_launching() {
    let mut state = State::default();
    state.update(Event::CustomMessage(deploy_catalog()));
    type_line(&mut state, "1");
    let update = state.update(Event::Key(Key::Esc));
    assert_eq!(update, Update { render: true, launches: vec![], hide: true });
    assert_eq!(state.input().to_string(), "");
    assert_eq!(state.options(), &deploy_catalog());
}

#[test]
fn other_events_change_nothing() {
    let mut state = State::default();
    state.update(Event::CustomMessage(deploy_catalog()));
    type_line(&mut state, "1");
    let update = state.update(Event::Key(Key::Other));
    assert_eq!(update, Update { render: false, launches: vec![], hide: false });
    let update = state.update(Event::Other);
    assert_eq!(update, Update { render: false, launches: vec![], hide: false });
    assert_eq!(state.input().to_string(), "1");
    assert_eq!(state.options(), &deploy_catalog());
}

#[test]
fn the_session_can_be_used_again_after_a_submission() {
    let mut state = State::default();
    type_line(&mut state, "ls");
    state.update(Event::Key(Key::Char('\n')));
    type_line(&mut state, "pwd");
    let update = state.update(Event::Key(Key::Char('\n')));
    assert_eq!(update.launches, vec![launch("pwd", &[])]);
}

#[test]
fn render_numbers_the_catalog_from_one() {
    let mut state = State::default();
    assert_eq!(state.render(), vec!["Task:".to_string(), String::new()]);
    let mut catalog = deploy_catalog();
    catalog.push(TaskOption {
        task: "bin/run.sh".to_string(),
        runner: TaskRunner::Shell,
        command: "./bin/run.sh".to_string(),
        args: vec![],
    });
    state.update(Event::CustomMessage(catalog));
    type_line(&mut state, "2 -v");
    assert_eq!(
        state.render(),
        strings(&["1 - deploy (npm)", "2 - bin/run.sh", "Task:", "2 -v"])
    );
}

#[test]
fn render_counts_beyond_nine() {
    let mut catalog = Vec::new();
    for i in 0..12 {
        catalog.push(TaskOption {
            task: format!("t{}", i),
            runner: TaskRunner::Just,
            command: "just".to_string(),
            args: vec![format!("t{}", i)],
        });
    }
    let mut state = State::default();
    state.update(Event::CustomMessage(catalog));
    let lines = state.render();
    assert_eq!(lines.len(), 14);
    assert_eq!(lines[8], "9 - t8 (just)");
    assert_eq!(lines[9], "10 - t9 (just)");
    assert_eq!(lines[11], "12 - t11 (just)");
}
