//! The decisions behind the two terminal screens: how a selection moves,
//! which colour a language is drawn in, and what each key does.

use vstd::prelude::*;
use crate::strutil::{contains_text, text_contains};
use vstd::string::StringSliceAdditionalSpecFns;
use vstd::utf8::{decode_utf8, is_char_boundary};
use crate::names::{views, grouped_row_name, test_name_at_row, row_count};
use crate::tasks::{TestBatch, default_batches, toggle_batch, set_all_batches, with_enabled, batch_view, batch_table};

verus! {

/// A key press, as the screens read it.
#[derive(Clone, Copy, PartialEq, Eq, Structural, Debug)]
pub enum Key {
    Char(char),
    Esc,
    Enter,
    Tab,
    BackTab,
    Up,
    Down,
    Other,
}

/// What a key press asks of the program that runs the screen.
#[derive(Clone, Copy, PartialEq, Eq, Structural, Debug)]
pub enum Action {
    Nothing,
    Quit,
    Run,
    Refresh,
}

/// The colour a language is drawn in.
#[derive(Clone, Copy, PartialEq, Eq, Structural, Debug)]
pub enum Hue {
    Cyan,
    Yellow,
    Red,
    Green,
    Blue,
    Magenta,
    Gray,
    White,
    Rgb(u8, u8, u8),
}

/// The row after `selected` in a list of `count`, going round from the
/// last to the first; an empty list keeps the selection.
pub open spec fn next_index(selected: int, count: int) -> int {
    if count > 0 {
        (selected + 1) % count
    } else {
        selected
    }
}

/// The row before `selected` in a list of `count`, going round from the
/// first to the last; an empty list keeps the selection.
pub open spec fn prev_index(selected: int, count: int) -> int {
    if count == 0 {
        selected
    } else if selected == 0 {
        count - 1
    } else {
        selected - 1
    }
}

/// Moving down and then up, or up and then down, comes back to the row
/// one started from.
pub proof fn selection_moves_undo(selected: int, count: int)
    requires
        0 <= selected < count,
    ensures
        prev_index(next_index(selected, count), count) == selected,
        next_index(prev_index(selected, count), count) == selected,
{
    if selected + 1 < count {
        vstd::arithmetic::div_mod::lemma_small_mod((selected + 1) as nat, count as nat);
    } else {
        vstd::arithmetic::div_mod::lemma_mod_self_0(count);
    }
    if selected == 0 {
        vstd::arithmetic::div_mod::lemma_mod_self_0(count);
    } else {
        vstd::arithmetic::div_mod::lemma_small_mod(selected as nat, count as nat);
    }
}

/// Moving a selection inside a non-empty list keeps it inside the list.
pub proof fn selection_stays_in_list(selected: int, count: int)
    requires
        0 <= selected < count,
    ensures
        0 <= next_index(selected, count) < count,
        0 <= prev_index(selected, count) < count,
{
    vstd::arithmetic::div_mod::lemma_mod_bound(selected + 1, count);
}

/// Moves a selection one row down.
pub fn select_next(selected: usize, count: usize) -> (r: usize)
    requires
        count > 0 ==> selected < usize::MAX,
    ensures
        r == next_index(selected as int, count as int),
{
    if count > 0 {
        (selected + 1) % count
    } else {
        selected
    }
}

/// Moves a selection one row up.
pub fn select_prev(selected: usize, count: usize) -> (r: usize)
    ensures
        r == prev_index(selected as int, count as int),
{
    if count == 0 {
        selected
    } else if selected == 0 {
        count - 1
    } else {
        selected - 1
    }
}

/// Keeps a selection inside a list of `count` rows: past the end it moves
/// to the last row, or to 0 when the list is empty.
pub fn clamp_selection(selected: usize, count: usize) -> (r: usize)
    ensures
        r == (if selected < count {
            selected as int
        } else if count == 0 {
            0
        } else {
            count - 1
        }),
{
    if selected >= count {
        count.saturating_sub(1)
    } else {
        selected
    }
}

/// The colour of a language in the comparison table.
pub open spec fn lang_hue_spec(lang: Seq<char>) -> Hue {
    if lang == "C"@ {
        Hue::Cyan
    } else if lang == "C++"@ {
        Hue::Yellow
    } else if lang == "Rust"@ {
        Hue::Red
    } else if lang == "Java"@ {
        Hue::Green
    } else if lang == "Python"@ {
        Hue::Blue
    } else {
        Hue::Gray
    }
}

/// Whether two texts are the same.
fn same_text(a: &str, b: &str) -> (r: bool)
    ensures
        r == (a@ == b@),
{
    broadcast use vstd::string::group_string_axioms;
    let x = a.to_string();
    let y = b.to_string();
    x == y
}

/// The colour of a language in the comparison table: one per known
/// language, gray for the rest.
pub fn lang_hue(lang: &str) -> (h: Hue)
    ensures
        h == lang_hue_spec(lang@),
{
    if same_text(lang, "C") {
        Hue::Cyan
    } else if same_text(lang, "C++") {
        Hue::Yellow
    } else if same_text(lang, "Rust") {
        Hue::Red
    } else if same_text(lang, "Java") {
        Hue::Green
    } else if same_text(lang, "Python") {
        Hue::Blue
    } else {
        Hue::Gray
    }
}

/// What `str::to_lowercase` gives for a text.
pub uninterp spec fn lowercase(s: Seq<char>) -> Seq<char>;

/// `str::to_lowercase` of std: the text with each character replaced by
/// its Unicode lower-case mapping. The result is named by `lowercase`; no
/// clause says what that mapping is.
#[verifier::external_body]
fn to_lowercase(s: &str) -> (r: String)
    ensures
        r@ == lowercase(s@),
{
    s.to_lowercase()
}

/// The colour of a batch in the monitor, from its lower-cased name.
pub open spec fn monitor_hue_spec(lower: Seq<char>) -> Hue {
    if contains_text(lower, "c (clang"@) || lower == "c"@ {
        Hue::Cyan
    } else if contains_text(lower, "c (gcc"@) || contains_text(lower, "c++ (gcc"@) || contains_text(
        lower,
        "g++"@,
    ) {
        Hue::Green
    } else if contains_text(lower, "c++"@) {
        Hue::Yellow
    } else if contains_text(lower, "rust"@) {
        Hue::Red
    } else if contains_text(lower, "java"@) {
        Hue::Magenta
    } else if contains_text(lower, "python"@) {
        Hue::Blue
    } else if contains_text(lower, "c#"@) {
        Hue::Rgb(200, 100, 255)
    } else {
        Hue::White
    }
}

/// The monitor's colour for a name that is already in lower case.
pub fn monitor_hue_of_lower(lower: &str) -> (h: Hue)
    ensures
        h == monitor_hue_spec(lower@),
{
    if text_contains(lower, "c (clang") || same_text(lower, "c") {
        Hue::Cyan
    } else if text_contains(lower, "c (gcc") || text_contains(lower, "c++ (gcc") || text_contains(
        lower,
        "g++",
    ) {
        Hue::Green
    } else if text_contains(lower, "c++") {
        Hue::Yellow
    } else if text_contains(lower, "rust") {
        Hue::Red
    } else if text_contains(lower, "java") {
        Hue::Magenta
    } else if text_contains(lower, "python") {
        Hue::Blue
    } else if text_contains(lower, "c#") {
        Hue::Rgb(200, 100, 255)
    } else {
        Hue::White
    }
}

/// The monitor's colour for a batch or language name, matched on its
/// lower-case form.
pub fn monitor_hue(lang: &str) -> (h: Hue)
    ensures
        h == monitor_hue_spec(lowercase(lang@)),
{
    let lower = to_lowercase(lang);
    monitor_hue_of_lower(lower.as_str())
}

/// The comparison screen: which benchmark is selected, and whether the
/// bar chart of that benchmark is shown in place of the table.
pub struct ComparisonView {
    pub selected: usize,
    pub show_bars: bool,
}

/// `key` is the character `a`.
pub open spec fn is_char(key: Key, a: char) -> bool {
    key == Key::Char(a)
}

/// What a key does on the comparison screen, with `tests` benchmarks listed:
/// the screen after it, and what it asks for.
pub open spec fn comparison_step(v: ComparisonView, key: Key, tests: int) -> (ComparisonView, Action) {
    if key == Key::Esc || is_char(key, 'q') {
        (v, Action::Quit)
    } else if key == Key::Down || is_char(key, 'j') {
        (ComparisonView { selected: next_index(v.selected as int, tests) as usize, ..v }, Action::Nothing)
    } else if key == Key::Up || is_char(key, 'k') {
        (ComparisonView { selected: prev_index(v.selected as int, tests) as usize, ..v }, Action::Nothing)
    } else if key == Key::Tab {
        (ComparisonView { show_bars: !v.show_bars, ..v }, Action::Nothing)
    } else if is_char(key, 'R') {
        (v, Action::Refresh)
    } else if is_char(key, 'r') {
        (v, Action::Run)
    } else {
        (v, Action::Nothing)
    }
}

/// Applies a key to the comparison screen and says what it asks for.
pub fn comparison_key(v: &mut ComparisonView, key: Key, tests: usize) -> (a: Action)
    requires
        (key == Key::Down || is_char(key, 'j')) && tests > 0 ==> old(v).selected < usize::MAX,
    ensures
        (*final(v), a) == comparison_step(*old(v), key, tests as int),
        tests > 0 && old(v).selected < tests ==> final(v).selected < tests,
{
    if key == Key::Esc || key == Key::Char('q') {
        Action::Quit
    } else if key == Key::Down || key == Key::Char('j') {
        v.selected = select_next(v.selected, tests);
        Action::Nothing
    } else if key == Key::Up || key == Key::Char('k') {
        v.selected = select_prev(v.selected, tests);
        Action::Nothing
    } else if key == Key::Tab {
        v.show_bars = !v.show_bars;
        Action::Nothing
    } else if key == Key::Char('R') {
        Action::Refresh
    } else if key == Key::Char('r') {
        Action::Run
    } else {
        Action::Nothing
    }
}

/// How the monitor shows its results.
#[derive(Clone, Copy, PartialEq, Eq, Structural, Debug)]
pub enum ViewMode {
    Graph,
    Table,
    Detail,
    Stats,
}

/// The monitor's screens.
pub enum Screen {
    Main,
    Select,
    Detail { test_name: String },
    Stats { test_name: String },
    Running { current: String, completed: Vec<String> },
}

/// The mode the tab key moves to.
pub open spec fn next_mode(m: ViewMode) -> ViewMode {
    match m {
        ViewMode::Graph => ViewMode::Table,
        ViewMode::Table => ViewMode::Stats,
        ViewMode::Stats => ViewMode::Graph,
        ViewMode::Detail => ViewMode::Graph,
    }
}

/// The state of the monitor's screen.
pub struct MonitorState {
    pub view: Screen,
    pub view_mode: ViewMode,
    pub selected_batch: usize,
    pub selected_row: usize,
    pub batches: Vec<TestBatch>,
}

impl MonitorState {
    /// There is a batch, the selected batch is one of them, and the row
    /// selection can move down.
    pub open spec fn wf(&self) -> bool {
        &&& 0 < self.batches@.len()
        &&& self.selected_batch < self.batches@.len()
        &&& self.selected_row < usize::MAX
    }

    /// The monitor as it starts: the main screen as a graph, the first
    /// batch and row selected, and the default batches.
    pub fn new() -> (s: Self)
        ensures
            s.wf(),
            s.view is Main,
            s.view_mode == ViewMode::Graph,
            s.selected_batch == 0,
            s.selected_row == 0,
            s.batches@.map_values(|b: TestBatch| batch_view(b)) == batch_table(),
    {
        let batches = default_batches();
        proof {
            assert(batches@.map_values(|b: TestBatch| batch_view(b)).len() == 9);
        }
        MonitorState { view: Screen::Main, view_mode: ViewMode::Graph, selected_batch: 0, selected_row: 0, batches }
    }
}

/// `s1` is `s0` with only its screen changed.
pub open spec fn only_view_changed(s0: MonitorState, s1: MonitorState) -> bool {
    &&& s1.view_mode == s0.view_mode
    &&& s1.selected_batch == s0.selected_batch
    &&& s1.selected_row == s0.selected_row
    &&& s1.batches == s0.batches
}

/// What a key does on the main screen, where `names` are the test names
/// of the statistics rows in the order they were read.
pub open spec fn main_step(s0: MonitorState, key: Key, names: Seq<Seq<char>>, s1: MonitorState, a: Action) -> bool {
    if key == Key::Esc || is_char(key, 'q') {
        s1 == s0 && a == Action::Quit
    } else if is_char(key, 'r') {
        s1 == s0 && a == Action::Run
    } else if is_char(key, 's') {
        s1 == MonitorState { view: Screen::Select, ..s0 } && a == Action::Nothing
    } else if is_char(key, 'R') {
        s1 == s0 && a == Action::Refresh
    } else if is_char(key, '1') {
        s1 == MonitorState { view_mode: ViewMode::Graph, ..s0 } && a == Action::Nothing
    } else if is_char(key, '2') {
        s1 == MonitorState { view_mode: ViewMode::Table, ..s0 } && a == Action::Nothing
    } else if is_char(key, '3') || key == Key::Enter {
        &&& a == Action::Nothing
        &&& if s0.selected_row < names.len() {
            &&& only_view_changed(s0, s1)
            &&& if key == Key::Enter {
                s1.view matches Screen::Detail { test_name } && test_name@ == grouped_row_name(names, s0.selected_row as int)
            } else {
                s1.view matches Screen::Stats { test_name } && test_name@ == grouped_row_name(names, s0.selected_row as int)
            }
        } else {
            s1 == s0
        }
    } else if key == Key::Tab || key == Key::BackTab {
        s1 == MonitorState { view_mode: next_mode(s0.view_mode), ..s0 } && a == Action::Nothing
    } else if key == Key::Down || is_char(key, 'j') {
        s1 == MonitorState { selected_row: next_index(s0.selected_row as int, names.len() as int) as usize, ..s0 }
            && a == Action::Nothing
    } else if key == Key::Up || is_char(key, 'k') {
        s1 == MonitorState { selected_row: prev_index(s0.selected_row as int, names.len() as int) as usize, ..s0 }
            && a == Action::Nothing
    } else {
        s1 == s0 && a == Action::Nothing
    }
}

/// What a key does on the batch selection screen.
pub open spec fn select_step(s0: MonitorState, key: Key, s1: MonitorState, a: Action) -> bool {
    let bs = s0.batches@;
    let i = s0.selected_batch as int;
    if key == Key::Esc || is_char(key, 'q') {
        s1 == MonitorState { view: Screen::Main, ..s0 } && a == Action::Nothing
    } else if is_char(key, ' ') {
        &&& s1.batches@ == bs.update(i, with_enabled(bs[i], !bs[i].enabled))
        &&& s1.view is Select
        &&& s1.view_mode == s0.view_mode
        &&& s1.selected_batch == s0.selected_batch
        &&& s1.selected_row == s0.selected_row
        &&& a == Action::Nothing
    } else if is_char(key, 'r') {
        s1 == s0 && a == Action::Run
    } else if key == Key::Down || is_char(key, 'j') {
        s1 == MonitorState { selected_batch: next_index(i, bs.len() as int) as usize, ..s0 } && a == Action::Nothing
    } else if key == Key::Up || is_char(key, 'k') {
        s1 == MonitorState { selected_batch: prev_index(i, bs.len() as int) as usize, ..s0 } && a == Action::Nothing
    } else if is_char(key, 'a') || is_char(key, 'n') {
        &&& s1.batches@ == bs.map_values(|b: TestBatch| with_enabled(b, is_char(key, 'a')))
        &&& s1.view is Select
        &&& s1.view_mode == s0.view_mode
        &&& s1.selected_batch == s0.selected_batch
        &&& s1.selected_row == s0.selected_row
        &&& a == Action::Nothing
    } else {
        s1 == s0 && a == Action::Nothing
    }
}

/// What a key does on any of the monitor's screens.
pub open spec fn monitor_step(s0: MonitorState, key: Key, names: Seq<Seq<char>>, s1: MonitorState, a: Action) -> bool {
    match s0.view {
        Screen::Main => main_step(s0, key, names, s1, a),
        Screen::Select => select_step(s0, key, s1, a),
        Screen::Detail { test_name } => if key == Key::Esc || is_char(key, 'q') {
            s1 == MonitorState { view: Screen::Main, ..s0 } && a == Action::Nothing
        } else if key == Key::Enter {
            &&& only_view_changed(s0, s1)
            &&& s1.view matches Screen::Stats { test_name: t } && t@ == test_name@
            &&& a == Action::Nothing
        } else {
            s1 == s0 && a == Action::Nothing
        },
        Screen::Stats { .. } => if key == Key::Esc || is_char(key, 'q') {
            s1 == MonitorState { view: Screen::Main, ..s0 } && a == Action::Nothing
        } else {
            s1 == s0 && a == Action::Nothing
        },
        Screen::Running { .. } => if is_char(key, 'q') {
            s1 == s0 && a == Action::Quit
        } else {
            s1 == s0 && a == Action::Nothing
        },
    }
}

/// `new` is one place after `old` in a list of `n` (down), or one place
/// before it (up), going round from one end to the other.
pub open spec fn moved_by_one(old: int, new: int, n: int, down: bool) -> bool {
    if down {
        if old + 1 < n {
            new == old + 1
        } else {
            new == 0
        }
    } else {
        if old > 0 {
            new == old - 1
        } else {
            new == n - 1
        }
    }
}

/// On every screen the vim keys act as the arrows: `j` does what Down does,
/// and `k` what Up does.
pub proof fn vim_keys_are_arrows(
    s0: MonitorState,
    names: Seq<Seq<char>>,
    s1: MonitorState,
    a: Action,
    v: ComparisonView,
    tests: int,
)
    ensures
        monitor_step(s0, Key::Char('j'), names, s1, a) == monitor_step(s0, Key::Down, names, s1, a),
        monitor_step(s0, Key::Char('k'), names, s1, a) == monitor_step(s0, Key::Up, names, s1, a),
        comparison_step(v, Key::Char('j'), tests) == comparison_step(v, Key::Down, tests),
        comparison_step(v, Key::Char('k'), tests) == comparison_step(v, Key::Up, tests),
{
}

/// The arrows move the selection by one place, going round at the ends,
/// and change nothing else: the row on the main screen, the batch on the
/// selection screen, the benchmark on the comparison screen.
pub proof fn arrows_move_by_one(
    s0: MonitorState,
    names: Seq<Seq<char>>,
    key: Key,
    s1: MonitorState,
    a: Action,
    v: ComparisonView,
    tests: int,
)
    requires
        key == Key::Down || key == Key::Up,
        names.len() <= usize::MAX,
        s0.batches@.len() <= usize::MAX,
        tests <= usize::MAX,
    ensures
        s0.view is Main && s0.selected_row < names.len() && monitor_step(s0, key, names, s1, a) ==> {
            &&& moved_by_one(s0.selected_row as int, s1.selected_row as int, names.len() as int, key == Key::Down)
            &&& s1.view == s0.view
            &&& s1.view_mode == s0.view_mode
            &&& s1.selected_batch == s0.selected_batch
            &&& s1.batches == s0.batches
            &&& a == Action::Nothing
        },
        s0.view is Select && s0.wf() && monitor_step(s0, key, names, s1, a) ==> {
            &&& moved_by_one(
                s0.selected_batch as int,
                s1.selected_batch as int,
                s0.batches@.len() as int,
                key == Key::Down,
            )
            &&& s1.view == s0.view
            &&& s1.view_mode == s0.view_mode
            &&& s1.selected_row == s0.selected_row
            &&& s1.batches == s0.batches
            &&& a == Action::Nothing
        },
        0 <= v.selected < tests ==> {
            &&& moved_by_one(
                v.selected as int,
                comparison_step(v, key, tests).0.selected as int,
                tests,
                key == Key::Down,
            )
            &&& comparison_step(v, key, tests).0.show_bars == v.show_bars
            &&& comparison_step(v, key, tests).1 == Action::Nothing
        },
{
    if s0.selected_row < names.len() {
        let r = s0.selected_row as int;
        let n = names.len() as int;
        if r + 1 < n {
            vstd::arithmetic::div_mod::lemma_small_mod((r + 1) as nat, n as nat);
        } else {
            vstd::arithmetic::div_mod::lemma_mod_self_0(n);
        }
    }
    if s0.wf() {
        let r = s0.selected_batch as int;
        let n = s0.batches@.len() as int;
        if r + 1 < n {
            vstd::arithmetic::div_mod::lemma_small_mod((r + 1) as nat, n as nat);
        } else {
            vstd::arithmetic::div_mod::lemma_mod_self_0(n);
        }
    }
    if 0 <= v.selected < tests {
        let r = v.selected as int;
        if r + 1 < tests {
            vstd::arithmetic::div_mod::lemma_small_mod((r + 1) as nat, tests as nat);
        } else {
            vstd::arithmetic::div_mod::lemma_mod_self_0(tests);
        }
    }
}

/// Applies a key to the monitor's screen and says what it asks for.
/// `names` are the test names of the statistics rows, in the order they
/// were read.
pub fn monitor_key(state: &mut MonitorState, key: Key, names: &Vec<String>) -> (a: Action)
    requires
        old(state).wf(),
    ensures
        final(state).wf(),
        monitor_step(*old(state), key, views(names@), *final(state), a),
{
    let quit = key == Key::Esc || key == Key::Char('q');
    let down = key == Key::Down || key == Key::Char('j');
    let up = key == Key::Up || key == Key::Char('k');
    match &state.view {
        Screen::Main => {
            if quit {
                Action::Quit
            } else if key == Key::Char('r') {
                Action::Run
            } else if key == Key::Char('s') {
                state.view = Screen::Select;
                Action::Nothing
            } else if key == Key::Char('R') {
                Action::Refresh
            } else if key == Key::Char('1') {
                state.view_mode = ViewMode::Graph;
                Action::Nothing
            } else if key == Key::Char('2') {
                state.view_mode = ViewMode::Table;
                Action::Nothing
            } else if key == Key::Char('3') || key == Key::Enter {
                if row_count(names) > 0 {
                    match test_name_at_row(names, state.selected_row) {
                        Some(name) => {
                            if key == Key::Enter {
                                state.view = Screen::Detail { test_name: name };
                            } else {
                                state.view = Screen::Stats { test_name: name };
                            }
                        },
                        None => {},
                    }
                }
                Action::Nothing
            } else if key == Key::Tab || key == Key::BackTab {
                state.view_mode = match state.view_mode {
                    ViewMode::Graph => ViewMode::Table,
                    ViewMode::Table => ViewMode::Stats,
                    ViewMode::Stats => ViewMode::Graph,
                    ViewMode::Detail => ViewMode::Graph,
                };
                Action::Nothing
            } else if down {
                let count = row_count(names);
                state.selected_row = select_next(state.selected_row, count);
                Action::Nothing
            } else if up {
                let count = row_count(names);
                state.selected_row = select_prev(state.selected_row, count);
                Action::Nothing
            } else {
                Action::Nothing
            }
        },
        Screen::Detail { test_name } => {
            if quit {
                state.view = Screen::Main;
            } else if key == Key::Enter {
                let t = test_name.clone();
                state.view = Screen::Stats { test_name: t };
            }
            Action::Nothing
        },
        Screen::Stats { .. } => {
            if quit {
                state.view = Screen::Main;
            }
            Action::Nothing
        },
        Screen::Select => {
            if quit {
                state.view = Screen::Main;
                Action::Nothing
            } else if key == Key::Char(' ') {
                toggle_batch(&mut state.batches, state.selected_batch);
                Action::Nothing
            } else if key == Key::Char('r') {
                Action::Run
            } else if down {
                state.selected_batch = select_next(state.selected_batch, state.batches.len());
                Action::Nothing
            } else if up {
                state.selected_batch = select_prev(state.selected_batch, state.batches.len());
                Action::Nothing
            } else if key == Key::Char('a') {
                set_all_batches(&mut state.batches, true);
                Action::Nothing
            } else if key == Key::Char('n') {
                set_all_batches(&mut state.batches, false);
                Action::Nothing
            } else {
                Action::Nothing
            }
        },
        Screen::Running { .. } => {
            if key == Key::Char('q') {
                Action::Quit
            } else {
                Action::Nothing
            }
        },
    }
}

/// A test name as the graph's axis shows it: a name of more than eight
/// bytes is cut to its first six bytes, and `..` is put after them.
pub fn axis_label(name: &str) -> (label: String)
    requires
        name.spec_bytes().len() > 8 ==> is_char_boundary(name.spec_bytes(), 6),
    ensures
        name.spec_bytes().len() > 8 ==> label@ == decode_utf8(name.spec_bytes().subrange(0, 6)).push('.').push('.'),
        name.spec_bytes().len() <= 8 ==> label@ == name@,
{
    broadcast use vstd::string::group_string_axioms;
    let bytes = name.as_bytes();
    if bytes.len() > 8 {
        let (head, _) = name.split_at(6);
        proof {
            vstd::utf8::encode_utf8_decode_utf8(head@);
            assert(head.spec_bytes() == vstd::utf8::encode_utf8(head@));
            assert(head.spec_bytes() =~= name.spec_bytes().subrange(0, 6));
            assert(decode_utf8(name.spec_bytes().subrange(0, 6)) == head@);
        }
        let mut label = head.to_string();
        crate::strutil::push_char(&mut label, '.');
        crate::strutil::push_char(&mut label, '.');
        label
    } else {
        name.to_string()
    }
}

/// How many of the entries before position `k` of `langs` are the same
/// language as entry `k`: the entry's place along its language's line in
/// the graph.
pub open spec fn earlier_count(langs: Seq<Seq<char>>, k: int) -> nat {
    langs.take(k).filter(|x: Seq<char>| x == langs[k]).len()
}

/// For each entry of `langs`, its place among the entries of its language.
pub fn series_positions(langs: &Vec<String>) -> (pos: Vec<usize>)
    ensures
        pos@.len() == langs@.len(),
        forall|k: int| 0 <= k < langs@.len() ==> #[trigger] pos@[k] == earlier_count(views(langs@), k),
{
    let ghost lv = views(langs@);
    let mut pos: Vec<usize> = Vec::new();
    let mut k: usize = 0;
    while k < langs.len()
        invariant
            k <= langs@.len(),
            lv == views(langs@),
            pos@.len() == k,
            forall|t: int| 0 <= t < k ==> #[trigger] pos@[t] == earlier_count(lv, t),
        decreases langs@.len() - k,
    {
        let ghost pred = |x: Seq<char>| x == lv[k as int];
        let mut count: usize = 0;
        let mut j: usize = 0;
        while j < k
            invariant
                j <= k < langs@.len(),
                lv == views(langs@),
                pred == (|x: Seq<char>| x == lv[k as int]),
                count <= j,
                count == lv.take(j as int).filter(pred).len(),
            decreases k - j,
        {
            proof {
                assert(lv.take(j + 1) =~= lv.take(j as int).push(lv[j as int]));
                lv.take(j as int).lemma_filter_push(lv[j as int], pred);
                assert(lv[j as int] == langs@[j as int]@);
                assert(lv[k as int] == langs@[k as int]@);
            }
            if langs[j] == langs[k] {
                count = count + 1;
            }
            j = j + 1;
        }
        pos.push(count);
        k = k + 1;
    }
    pos
}

} // verus!
