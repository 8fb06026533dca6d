use blackwin_htop::dashboard::{command_for, App, Command};
use blackwin_htop::event::{Debouncer, Event, InputMode, InputState, Key, DEBOUNCE_MS};
use blackwin_htop::process::{filtered, sorted, Process, ProcessList, SortField};
use blackwin_htop::text::{contains_chars, folded_contains, str_lt};

fn row(pid: u32, name: &str, cpu: u32, mem: u64) -> Process {
    Process { pid, name: name.to_string(), cpu_usage: cpu, memory_usage: mem }
}

fn pids(list: &ProcessList) -> Vec<u32> {
    list.processes().iter().map(|p| p.pid).collect()
}

fn scenario_table() -> ProcessList {
    let mut list = ProcessList::new();
    list.update(vec![row(11, "b", 1000, 50), row(10, "a", 9000, 100)]);
    list
}

#[test]
fn scenario_sort_by_cpu_then_name() {
    let mut list = scenario_table();
    assert_eq!(list.sort_field(), SortField::Cpu);
    assert_eq!(pids(&list), vec![10, 11]);
    list.set_sort_field(SortField::Name);
    assert_eq!(pids(&list), vec![10, 11]);
}

#[test]
fn scenario_filter_clamps_selection() {
    let mut list = scenario_table();
    list.move_selection(1);
    assert_eq!(list.selected_index(), 1);
    list.filter("b");
    assert_eq!(pids(&list), vec![11]);
    assert_eq!(list.selected_index(), 0);
}

#[test]
fn scenario_empty_table_move() {
    let mut list = ProcessList::new();
    list.move_selection(-5);
    assert_eq!(list.selected_index(), 0);
    assert_eq!(list.selected_pid(), None);
}

#[test]
fn scenario_search_session_commits_filter() {
    let mut app = App::new();
    app.update(vec![row(1, "foo", 0, 1), row(2, "bar", 0, 1), row(3, "FooBar", 0, 1)]);
    assert_eq!(app.handle_input(Key::F(3)), None);
    assert_eq!(app.input_state.mode, InputMode::Search);
    assert_eq!(app.input_state.search_input, "");
    for c in "foo".chars() {
        app.handle_input(Key::Char(c));
    }
    assert_eq!(app.input_state.search_input, "foo");
    app.handle_input(Key::Enter);
    assert_eq!(app.input_state.mode, InputMode::Normal);
    assert_eq!(app.input_state.search_input, "foo");
    let mut shown: Vec<u32> = app.process_list.processes().iter().map(|p| p.pid).collect();
    shown.sort();
    assert_eq!(shown, vec![1, 3]);
}

#[test]
fn selection_stays_in_range() {
    let mut list = scenario_table();
    for d in [5, -100, 3, i32::MAX, i32::MIN, 1, -1, 10, -10] {
        list.move_selection(d);
        assert!(list.selected_index() < 2);
    }
    list.move_selection(i32::MAX);
    assert_eq!(list.selected_index(), 1);
    list.move_selection(i32::MIN);
    assert_eq!(list.selected_index(), 0);
    list.move_to_end();
    assert_eq!(list.selected_index(), 1);
    list.move_to_start();
    assert_eq!(list.selected_index(), 0);
}

#[test]
fn sorting_twice_keeps_order() {
    let snapshot = vec![row(3, "c", 500, 7), row(1, "a", 500, 9), row(2, "b", 700, 7), row(4, "d", 500, 1)];
    let once = sorted(snapshot, SortField::Cpu);
    let once_pids: Vec<u32> = once.iter().map(|p| p.pid).collect();
    assert_eq!(once_pids, vec![2, 3, 1, 4]);
    let twice = sorted(once, SortField::Cpu);
    let twice_pids: Vec<u32> = twice.iter().map(|p| p.pid).collect();
    assert_eq!(twice_pids, once_pids);
}

#[test]
fn sort_keys_directions() {
    let snapshot = || vec![row(3, "cc", 5, 7), row(1, "b", 9, 9), row(2, "ab", 7, 8)];
    let by = |f| sorted(snapshot(), f).iter().map(|p| p.pid).collect::<Vec<u32>>();
    assert_eq!(by(SortField::Pid), vec![1, 2, 3]);
    assert_eq!(by(SortField::Name), vec![2, 1, 3]);
    assert_eq!(by(SortField::Cpu), vec![1, 2, 3]);
    assert_eq!(by(SortField::Memory), vec![1, 2, 3]);
}

#[test]
fn filtering_twice_is_filtering_once() {
    let snapshot = vec![row(1, "Alpha", 0, 0), row(2, "beta", 0, 0), row(3, "ALPHABET", 0, 0)];
    let once = filtered(snapshot, "alp");
    let once_pids: Vec<u32> = once.iter().map(|p| p.pid).collect();
    assert_eq!(once_pids, vec![1, 3]);
    let twice = filtered(once, "alp");
    let twice_pids: Vec<u32> = twice.iter().map(|p| p.pid).collect();
    assert_eq!(twice_pids, once_pids);
}

#[test]
fn filter_persists_across_refresh() {
    let mut list = ProcessList::new();
    list.filter("SH");
    list.update(vec![row(1, "bash", 1, 1), row(2, "vim", 2, 2), row(3, "zsh", 3, 3)]);
    assert_eq!(pids(&list), vec![3, 1]);
}

#[test]
fn empty_filter_matches_everything() {
    let kept = filtered(vec![row(1, "a", 0, 0), row(2, "", 0, 0)], "");
    assert_eq!(kept.len(), 2);
}

#[test]
fn debounce_drops_close_keys() {
    let mut d = Debouncer::new(0, DEBOUNCE_MS);
    assert!(d.accept(200));
    assert!(!d.accept(300));
    assert!(d.accept(350));
    assert!(d.accept(500));
    assert!(!d.accept(649));
}

#[test]
fn debounce_first_key_waits_from_start() {
    let mut d = Debouncer::new(1000, 150);
    assert!(!d.accept(1100));
    assert!(!d.accept(900));
    assert!(d.accept(1150));
}

#[test]
fn input_machine_normal_never_consumes() {
    let mut s = InputState::default();
    assert!(!s.handle_input(Key::Char('x')));
    assert!(!s.handle_input(Key::Esc));
    assert_eq!(s.mode, InputMode::Normal);
    assert_eq!(s.search_input, "");
}

#[test]
fn input_machine_search_keys() {
    let mut s = InputState::default();
    s.enter_search_mode();
    assert!(s.handle_input(Key::Char('a')));
    assert!(s.handle_input(Key::Char('b')));
    assert!(s.handle_input(Key::Backspace));
    assert_eq!(s.search_input, "a");
    assert!(s.handle_input(Key::Backspace));
    assert!(s.handle_input(Key::Backspace));
    assert_eq!(s.search_input, "");
    assert!(!s.handle_input(Key::Up));
    assert_eq!(s.mode, InputMode::Search);
    assert!(s.handle_input(Key::Char('z')));
    assert!(s.handle_input(Key::Esc));
    assert_eq!(s.mode, InputMode::Normal);
    assert_eq!(s.search_input, "");
}

#[test]
fn enter_search_mode_resets_buffer() {
    let mut s = InputState::default();
    s.enter_search_mode();
    s.handle_input(Key::Char('q'));
    s.enter_search_mode();
    assert_eq!(s.mode, InputMode::Search);
    assert_eq!(s.search_input, "");
}

#[test]
fn key_bindings() {
    assert_eq!(command_for(Key::Char('q')), Command::Quit);
    assert_eq!(command_for(Key::F(3)), Command::Search);
    assert_eq!(command_for(Key::PageUp), Command::Move(-10));
    assert_eq!(command_for(Key::Char('M')), Command::Sort(SortField::Memory));
    assert_eq!(command_for(Key::F(9)), Command::Kill);
    assert_eq!(command_for(Key::Char('x')), Command::Nothing);
}

#[test]
fn app_kill_and_quit() {
    let mut app = App::new();
    assert_eq!(app.handle_input(Key::F(9)), None);
    app.update(vec![row(7, "a", 10, 1), row(8, "b", 20, 1)]);
    assert_eq!(app.handle_input(Key::F(9)), Some(8));
    app.handle_input(Key::Down);
    assert_eq!(app.handle_input(Key::F(9)), Some(7));
    app.handle_input(Key::Char('p'));
    assert_eq!(app.process_list.sort_field(), SortField::Pid);
    assert!(!app.should_quit);
    app.handle_input(Key::Char('Q'));
    assert!(app.should_quit);
}

#[test]
fn string_helpers() {
    assert!(str_lt("ab", "b"));
    assert!(str_lt("a", "ab"));
    assert!(!str_lt("b", "b"));
    assert!(contains_chars(&vec!['x', 'a', 'b'], &vec!['a', 'b']));
    assert!(!contains_chars(&vec!['a'], &vec!['a', 'b']));
    assert!(folded_contains("systemd", "temd"));
    assert!(!folded_contains("systemd", "TEMD"));
}

#[test]
fn search_mode_blocks_navigation() {
    let mut app = App::new();
    app.update(vec![row(1, "a", 20, 1), row(2, "b", 10, 1)]);
    app.handle_input(Key::F(3));
    assert_eq!(app.handle_input(Key::Down), None);
    assert_eq!(app.process_list.selected_index(), 0);
    assert_eq!(app.handle_input(Key::F(9)), None);
    assert_eq!(app.input_state.mode, InputMode::Search);
    app.handle_input(Key::Enter);
    app.handle_input(Key::Down);
    assert_eq!(app.process_list.selected_index(), 1);
}

#[test]
fn wider_query_brings_rows_back() {
    let mut app = App::new();
    app.update(vec![row(1, "cargo", 30, 1), row(2, "cat", 20, 1), row(3, "vim", 10, 1)]);
    app.handle_input(Key::F(3));
    app.handle_input(Key::Char('c'));
    app.handle_input(Key::Char('a'));
    app.handle_input(Key::Char('r'));
    assert_eq!(pids(&app.process_list), vec![1]);
    app.handle_input(Key::Backspace);
    assert_eq!(pids(&app.process_list), vec![1, 2]);
    app.handle_input(Key::Backspace);
    assert_eq!(pids(&app.process_list), vec![1, 2]);
    app.process_list.filter("");
    assert_eq!(pids(&app.process_list), vec![1, 2, 3]);
}

#[test]
fn forwarded_key_events() {
    let mut d = Debouncer::new(0, DEBOUNCE_MS);
    let close = d.forward_keys(&vec![(200, Key::Char('a')), (300, Key::Char('b'))]);
    assert_eq!(close, vec![Event::Input(Key::Char('a'))]);
    let mut d = Debouncer::new(0, DEBOUNCE_MS);
    let apart = d.forward_keys(&vec![(200, Key::Char('a')), (400, Key::Char('b'))]);
    assert_eq!(apart, vec![Event::Input(Key::Char('a')), Event::Input(Key::Char('b'))]);
    let mut d = Debouncer::new(0, DEBOUNCE_MS);
    assert_eq!(d.on_key(100, Key::Enter), None);
    assert_eq!(d.on_key(150, Key::Enter), Some(Event::Input(Key::Enter)));
}

#[test]
fn chars_in_order() {
    assert_eq!(blackwin_htop::text::chars_of("héllo"), vec!['h', 'é', 'l', 'l', 'o']);
}
