use bench_tools::screens::{
    axis_label, clamp_selection, comparison_key, lang_hue, monitor_hue, monitor_hue_of_lower, monitor_key,
    select_next, select_prev, series_positions, Action, ComparisonView, Hue, Key, MonitorState, Screen, ViewMode,
};

fn names(v: &[&str]) -> Vec<String> {
    v.iter().map(|s| s.to_string()).collect()
}

#[test]
fn selection_moves() {
    assert_eq!(select_next(0, 3), 1);
    assert_eq!(select_next(2, 3), 0);
    assert_eq!(select_next(5, 0), 5);
    assert_eq!(select_prev(0, 3), 2);
    assert_eq!(select_prev(2, 3), 1);
    assert_eq!(select_prev(4, 0), 4);
    for count in 1..6usize {
        for s in 0..count {
            assert_eq!(select_prev(select_next(s, count), count), s);
            assert_eq!(select_next(select_prev(s, count), count), s);
        }
    }
    assert_eq!(clamp_selection(5, 3), 2);
    assert_eq!(clamp_selection(5, 0), 0);
    assert_eq!(clamp_selection(1, 3), 1);
    assert_eq!(clamp_selection(3, 3), 2);
}

#[test]
fn comparison_colours() {
    assert_eq!(lang_hue("C"), Hue::Cyan);
    assert_eq!(lang_hue("C++"), Hue::Yellow);
    assert_eq!(lang_hue("Rust"), Hue::Red);
    assert_eq!(lang_hue("Java"), Hue::Green);
    assert_eq!(lang_hue("Python"), Hue::Blue);
    assert_eq!(lang_hue("Go"), Hue::Gray);
    assert_eq!(lang_hue("rust"), Hue::Gray);
}

#[test]
fn monitor_colours() {
    assert_eq!(monitor_hue("C (clang)"), Hue::Cyan);
    assert_eq!(monitor_hue("C"), Hue::Cyan);
    assert_eq!(monitor_hue("C (gcc)"), Hue::Green);
    assert_eq!(monitor_hue("C++ (gcc)"), Hue::Green);
    assert_eq!(monitor_hue("g++"), Hue::Green);
    assert_eq!(monitor_hue("C++ (clang)"), Hue::Yellow);
    assert_eq!(monitor_hue("Rust"), Hue::Red);
    assert_eq!(monitor_hue("JAVA"), Hue::Magenta);
    assert_eq!(monitor_hue("Python"), Hue::Blue);
    assert_eq!(monitor_hue("C#"), Hue::Rgb(200, 100, 255));
    assert_eq!(monitor_hue("Go"), Hue::White);
    assert_eq!(monitor_hue_of_lower("RUST"), Hue::White);
    assert_eq!(monitor_hue_of_lower("rust"), Hue::Red);
}

#[test]
fn comparison_keys() {
    let mut v = ComparisonView { selected: 0, show_bars: false };
    assert_eq!(comparison_key(&mut v, Key::Down, 3), Action::Nothing);
    assert_eq!(v.selected, 1);
    assert_eq!(comparison_key(&mut v, Key::Char('j'), 3), Action::Nothing);
    assert_eq!(comparison_key(&mut v, Key::Char('j'), 3), Action::Nothing);
    assert_eq!(v.selected, 0);
    assert_eq!(comparison_key(&mut v, Key::Char('k'), 3), Action::Nothing);
    assert_eq!(v.selected, 2);
    assert_eq!(comparison_key(&mut v, Key::Up, 0), Action::Nothing);
    assert_eq!(v.selected, 2);
    assert_eq!(comparison_key(&mut v, Key::Tab, 3), Action::Nothing);
    assert!(v.show_bars);
    assert_eq!(comparison_key(&mut v, Key::Char('R'), 3), Action::Refresh);
    assert_eq!(comparison_key(&mut v, Key::Char('r'), 3), Action::Run);
    assert_eq!(comparison_key(&mut v, Key::Char('q'), 3), Action::Quit);
    assert_eq!(comparison_key(&mut v, Key::Esc, 3), Action::Quit);
    assert_eq!(comparison_key(&mut v, Key::Char('x'), 3), Action::Nothing);
    assert_eq!((v.selected, v.show_bars), (2, true));
}

#[test]
fn monitor_starts_on_the_graph() {
    let s = MonitorState::new();
    assert!(matches!(s.view, Screen::Main));
    assert_eq!(s.view_mode, ViewMode::Graph);
    assert_eq!((s.selected_batch, s.selected_row), (0, 0));
    assert_eq!(s.batches.len(), 9);
}

#[test]
fn monitor_main_screen_keys() {
    let rows = names(&["Sort", "Hash", "Sort", "Matrix"]);
    let mut s = MonitorState::new();
    assert_eq!(monitor_key(&mut s, Key::Char('2'), &rows), Action::Nothing);
    assert_eq!(s.view_mode, ViewMode::Table);
    monitor_key(&mut s, Key::Tab, &rows);
    assert_eq!(s.view_mode, ViewMode::Stats);
    monitor_key(&mut s, Key::BackTab, &rows);
    assert_eq!(s.view_mode, ViewMode::Graph);
    monitor_key(&mut s, Key::Char('1'), &rows);
    assert_eq!(s.view_mode, ViewMode::Graph);
    monitor_key(&mut s, Key::Char('k'), &rows);
    assert_eq!(s.selected_row, 3);
    monitor_key(&mut s, Key::Down, &rows);
    assert_eq!(s.selected_row, 0);
    monitor_key(&mut s, Key::Down, &rows);
    assert_eq!(s.selected_row, 1);
    // grouped rows: Hash, Matrix, Sort, Sort
    monitor_key(&mut s, Key::Enter, &rows);
    match &s.view {
        Screen::Detail { test_name } => assert_eq!(test_name, "Matrix"),
        _ => panic!("expected the detail screen"),
    }
    monitor_key(&mut s, Key::Enter, &rows);
    match &s.view {
        Screen::Stats { test_name } => assert_eq!(test_name, "Matrix"),
        _ => panic!("expected the statistics screen"),
    }
    assert_eq!(monitor_key(&mut s, Key::Char('x'), &rows), Action::Nothing);
    monitor_key(&mut s, Key::Esc, &rows);
    assert!(matches!(s.view, Screen::Main));
    monitor_key(&mut s, Key::Char('3'), &rows);
    match &s.view {
        Screen::Stats { test_name } => assert_eq!(test_name, "Matrix"),
        _ => panic!("expected the statistics screen"),
    }
    monitor_key(&mut s, Key::Char('q'), &rows);
    assert!(matches!(s.view, Screen::Main));
    assert_eq!(monitor_key(&mut s, Key::Char('R'), &rows), Action::Refresh);
    assert_eq!(monitor_key(&mut s, Key::Char('r'), &rows), Action::Run);
    assert_eq!(monitor_key(&mut s, Key::Char('q'), &rows), Action::Quit);
    assert_eq!(monitor_key(&mut s, Key::Esc, &rows), Action::Quit);
}

#[test]
fn monitor_without_rows_stays_put() {
    let mut s = MonitorState::new();
    let none: Vec<String> = vec![];
    monitor_key(&mut s, Key::Enter, &none);
    assert!(matches!(s.view, Screen::Main));
    monitor_key(&mut s, Key::Down, &none);
    assert_eq!(s.selected_row, 0);
    monitor_key(&mut s, Key::Up, &none);
    assert_eq!(s.selected_row, 0);
}

#[test]
fn monitor_selection_screen_keys() {
    let rows: Vec<String> = vec![];
    let mut s = MonitorState::new();
    monitor_key(&mut s, Key::Char('s'), &rows);
    assert!(matches!(s.view, Screen::Select));
    monitor_key(&mut s, Key::Char(' '), &rows);
    assert!(s.batches[0].enabled);
    monitor_key(&mut s, Key::Up, &rows);
    assert_eq!(s.selected_batch, 8);
    monitor_key(&mut s, Key::Char(' '), &rows);
    assert!(s.batches[8].enabled);
    monitor_key(&mut s, Key::Char('j'), &rows);
    assert_eq!(s.selected_batch, 0);
    monitor_key(&mut s, Key::Char('n'), &rows);
    assert!(s.batches.iter().all(|b| !b.enabled));
    monitor_key(&mut s, Key::Char('a'), &rows);
    assert!(s.batches.iter().all(|b| b.enabled));
    assert_eq!(monitor_key(&mut s, Key::Char('r'), &rows), Action::Run);
    assert!(matches!(s.view, Screen::Select));
    monitor_key(&mut s, Key::Esc, &rows);
    assert!(matches!(s.view, Screen::Main));
    assert_eq!(s.batches[4].name, "C++ (gcc)");
}

#[test]
fn monitor_running_screen_only_quits() {
    let rows: Vec<String> = vec![];
    let mut s = MonitorState::new();
    s.view = Screen::Running { current: "c-sort".to_string(), completed: vec![] };
    assert_eq!(monitor_key(&mut s, Key::Esc, &rows), Action::Nothing);
    assert_eq!(monitor_key(&mut s, Key::Char('q'), &rows), Action::Quit);
}

#[test]
fn comparison_selection_stays_in_list() {
    let keys = [Key::Down, Key::Char('j'), Key::Up, Key::Char('k'), Key::Tab, Key::Char('x'), Key::Down, Key::Up];
    for count in 1..5usize {
        for start in 0..count {
            let mut v = ComparisonView { selected: start, show_bars: false };
            for k in keys {
                comparison_key(&mut v, k, count);
                assert!(v.selected < count);
            }
        }
    }
    let mut v = ComparisonView { selected: usize::MAX, show_bars: false };
    assert_eq!(comparison_key(&mut v, Key::Down, 0), Action::Nothing);
    assert_eq!(v.selected, usize::MAX);
}

#[test]
fn axis_labels() {
    assert_eq!(axis_label("Sort"), "Sort");
    assert_eq!(axis_label("12345678"), "12345678");
    assert_eq!(axis_label("Matrix Mult"), "Matrix..");
    assert_eq!(axis_label("ééé-abcd"), "ééé..");
}

#[test]
fn language_positions() {
    let langs = names(&["C", "Rust", "C", "C", "Java", "Rust"]);
    assert_eq!(series_positions(&langs), vec![0, 0, 1, 2, 0, 1]);
    assert!(series_positions(&vec![]).is_empty());
}
