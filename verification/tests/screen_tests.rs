use logutil::keys::{KeyCode, KeyInput};
use logutil::settings::{Settings, SettingsAction, CliArgs, InputType};
use logutil::file_settings::{FileSettings, FileSettingsAction, FileSettingsRequest, data_row_at};
use logutil::file_selector::{FileItem, FileSelector, FileSelectorAction, SelectorRequest, directory_listing, entry_item};
use logutil::app::{AppConfig, AppState, AppEffect, tab_names_for};
use logutil::tab_manager::TabManager;
use logutil::sparkline::SparklineTab;
use logutil::tui_manager::TuiManager;
use std::path::PathBuf;

fn key(code: KeyCode) -> KeyInput {
    KeyInput { code, ctrl: false, shift: false }
}

fn args() -> CliArgs {
    CliArgs {
        file: Some(PathBuf::from("/var/log/access.log")),
        regex: "^(\\S+)".to_string(),
        date_format: "%d/%b/%Y".to_string(),
        count: -1,
        top: 7,
        show_urls: true,
        show_ips: false,
        log_to_file: false,
        enable_security: true,
        enable_performance: false,
        enable_errors: true,
        enable_bots: false,
        enable_sparkline: true,
        enable_heatmap: false,
    }
}

fn same_args(a: &CliArgs, b: &CliArgs) -> bool {
    a.file == b.file && a.regex == b.regex && a.date_format == b.date_format && a.count == b.count && a.top == b.top
        && a.show_urls == b.show_urls && a.show_ips == b.show_ips && a.log_to_file == b.log_to_file
        && a.enable_security == b.enable_security && a.enable_performance == b.enable_performance
        && a.enable_errors == b.enable_errors && a.enable_bots == b.enable_bots
        && a.enable_sparkline == b.enable_sparkline && a.enable_heatmap == b.enable_heatmap
}

#[test]
fn settings_give_back_the_arguments_they_started_with() {
    let s = Settings::new_with_args(PathBuf::from("/var/log/access.log"), &args());
    assert_eq!(s.settings().len(), 13);
    assert_eq!(s.settings()[0].value, "-1");
    assert_eq!(s.settings()[3].value, "7");
    assert_eq!(s.settings()[4].value, "true");
    assert!(matches!(s.settings()[1].input_type, InputType::Regex));
    assert!(same_args(&s.get_cli_args(), &args()));
}

#[test]
fn editing_a_setting() {
    let mut s = Settings::new_with_args(PathBuf::from("f.log"), &args());
    assert!(matches!(s.handle_input(key(KeyCode::Enter)), SettingsAction::Continue));
    assert!(s.input_mode());
    assert_eq!(s.current_input(), "-1");
    s.handle_input(key(KeyCode::Backspace));
    s.handle_input(key(KeyCode::Backspace));
    s.handle_input(key(KeyCode::Char('2')));
    s.handle_input(key(KeyCode::Char('5')));
    s.handle_input(key(KeyCode::Enter));
    assert!(!s.input_mode());
    assert_eq!(s.get_cli_args().count, 25);
    s.handle_input(key(KeyCode::Enter));
    s.handle_input(key(KeyCode::Char('x')));
    s.handle_input(key(KeyCode::Esc));
    assert_eq!(s.get_cli_args().count, 25);
    assert!(matches!(s.handle_input(KeyInput { code: KeyCode::Char('c'), ctrl: true, shift: false }), SettingsAction::Exit));
}

#[test]
fn toggling_and_starting() {
    let mut s = Settings::new_with_args(PathBuf::from("f.log"), &args());
    for _ in 0..4 {
        s.handle_input(key(KeyCode::Down));
    }
    assert_eq!(s.selected_index(), 4);
    s.handle_input(key(KeyCode::Enter));
    assert!(!s.get_cli_args().show_urls);
    s.handle_input(key(KeyCode::Enter));
    assert!(s.get_cli_args().show_urls);
    for _ in 0..20 {
        s.handle_input(key(KeyCode::Down));
    }
    assert_eq!(s.selected_index(), 14);
    match s.handle_input(key(KeyCode::Enter)) {
        SettingsAction::StartAnalysis(a) => assert_eq!(a.file, Some(PathBuf::from("f.log"))),
        _ => panic!("expected the analysis to start"),
    }
    assert!(matches!(s.handle_input(key(KeyCode::Esc)), SettingsAction::Back));
}

fn file(name: &str) -> FileItem {
    FileItem { name: name.to_string(), path: PathBuf::from(name), is_dir: false, is_file: true, is_parent: false, size: Some(1), modified: None }
}

fn dir(name: &str) -> FileItem {
    FileItem { name: name.to_string(), path: PathBuf::from(name), is_dir: true, is_file: false, is_parent: false, size: None, modified: None }
}

#[test]
fn listings_put_the_parent_then_folders_then_files_by_name() {
    let items = vec![file("b.log"), dir("zeta"), file("a.log"), dir("alpha"), file("B.log")];
    let listing = directory_listing(Some(PathBuf::from("/")), items);
    let names: Vec<&str> = listing.iter().map(|i| i.name.as_str()).collect();
    assert_eq!(names, vec!["..", "alpha", "zeta", "B.log", "a.log", "b.log"]);
    assert!(listing[0].is_parent);
    assert!(entry_item(".".to_string(), PathBuf::from("."), true, None, None).is_none());
    assert_eq!(entry_item("..".to_string(), PathBuf::from(".."), true, None, None).unwrap().name, ".. (Parent Directory)");
    assert_eq!(entry_item("x".to_string(), PathBuf::from("x"), false, Some(5), None).unwrap().size, Some(5));
}

#[test]
fn file_selector_navigation() {
    let items = vec![dir("d"), file("a"), file("b")];
    let mut sel = FileSelector::with_listing(PathBuf::from("/"), items);
    sel.handle_input(key(KeyCode::End));
    assert_eq!(sel.selected_index(), 2);
    match sel.handle_input(key(KeyCode::Enter)) {
        (FileSelectorAction::FileSelected(p), SelectorRequest::Stay) => assert_eq!(p, PathBuf::from("b")),
        _ => panic!("expected a file"),
    }
    sel.handle_input(key(KeyCode::PageUp));
    assert_eq!(sel.selected_index(), 0);
    assert!(matches!(sel.handle_input(key(KeyCode::Enter)), (FileSelectorAction::Continue, SelectorRequest::OpenDirectory(_))));
    assert!(matches!(sel.handle_input(key(KeyCode::Char('q'))).0, FileSelectorAction::Cancel));
    assert!(matches!(sel.handle_input(KeyInput { code: KeyCode::Char('c'), ctrl: true, shift: false }).0, FileSelectorAction::Exit));
    sel.handle_input(key(KeyCode::PageDown));
    assert_eq!(sel.selected_index(), 2);
}

#[test]
fn start_screen_flow() {
    let mut a = args();
    a.file = None;
    let mut fs = FileSettings::new_with_args(&a, PathBuf::from("/logs"), vec![dir("old"), file("x.log")]);
    fs.handle_input(key(KeyCode::Down));
    assert_eq!(fs.selected_file(), Some(&PathBuf::from("x.log")));
    match fs.handle_input(key(KeyCode::Enter)) {
        (None, FileSettingsRequest::StartIfExists { path, missing }) => {
            assert_eq!(path, PathBuf::from("x.log"));
            assert_eq!(missing, "Selected file does not exist!");
        },
        _ => panic!("expected a start request"),
    }
    assert!(same_args(&fs.get_cli_args(), &CliArgs { file: Some(PathBuf::from("x.log")), ..args() }));
    fs.handle_input(key(KeyCode::Up));
    assert_eq!(fs.selected_file(), None);
    assert!(matches!(fs.handle_input(key(KeyCode::Enter)), (None, FileSettingsRequest::OpenDirectory(_))));
    assert_eq!(fs.current_path(), &PathBuf::from("old"));
    fs.show_directory(PathBuf::from("old"), vec![]);
    fs.handle_input(key(KeyCode::Tab));
    assert_eq!(fs.active_panel(), 1);
    for _ in 0..13 {
        fs.handle_input(key(KeyCode::Down));
    }
    match fs.handle_input(key(KeyCode::Enter)) {
        (None, FileSettingsRequest::Warn(m)) => assert_eq!(m, "Please select a file first!"),
        _ => panic!("expected a warning"),
    }
    assert!(matches!(fs.handle_input(KeyInput { code: KeyCode::Char('c'), ctrl: true, shift: false }).0, Some(FileSettingsAction::Exit)));
}

#[test]
fn start_screen_mouse() {
    let mut fs = FileSettings::new_with_args(&args(), PathBuf::from("/logs"), vec![file("a.log"), file("b.log")]);
    assert!(matches!(fs.click_file_row(1), FileSettingsRequest::Stay));
    assert_eq!(fs.selected_file(), Some(&PathBuf::from("b.log")));
    fs.set_active_panel(1);
    fs.click_setting_row(5);
    assert!(fs.get_cli_args().show_ips);
    fs.click_setting_row(2);
    assert!(fs.input_mode());
    let mut fs2 = FileSettings::new_with_args(&args(), PathBuf::from("/logs"), vec![file("a.log"), file("b.log")]);
    assert!(matches!(fs2.click_setting_row(13), FileSettingsRequest::StartIfExists { .. }));
    fs2.scroll_down();
    assert_eq!(fs2.selected_file_index(), 1);
    assert_eq!(fs2.selected_file(), Some(&PathBuf::from("b.log")));
    fs2.scroll_up();
    assert_eq!(fs2.selected_file_index(), 0);
}

#[test]
fn tabs_follow_the_configuration_and_keys() {
    let cfg = AppConfig { enable_security: true, enable_performance: false, enable_errors: false, enable_bots: true, enable_sparkline: true, enable_heatmap: false };
    assert_eq!(tab_names_for(&cfg), vec!["Overview", "Requests", "Detailed", "Sparkline", "Security", "Bots"]);
    let mut app = AppState::new(&cfg);
    assert!(matches!(app.handle_input(key(KeyCode::Enter)), AppEffect::CopyFromTab(0)));
    app.handle_input(key(KeyCode::Char('t')));
    app.handle_input(key(KeyCode::Char('t')));
    app.handle_input(key(KeyCode::Char('t')));
    assert_eq!(app.tab_manager().current_tab_name(), Some("Sparkline"));
    assert!(matches!(app.handle_input(key(KeyCode::Enter)), AppEffect::Nothing));
    assert!(matches!(app.handle_input(key(KeyCode::Down)), AppEffect::ForwardToTab(3)));
    app.handle_input(KeyInput { code: KeyCode::Tab, ctrl: false, shift: true });
    assert_eq!(app.tab_manager().current_tab(), 2);
    app.handle_input(key(KeyCode::BackTab));
    app.handle_input(key(KeyCode::BackTab));
    app.handle_input(key(KeyCode::BackTab));
    assert_eq!(app.tab_manager().current_tab(), 5);
    assert!(!app.should_quit());
    app.handle_input(key(KeyCode::Char('q')));
    assert!(app.should_quit());
}

#[test]
fn tab_manager_wraps_around() {
    let mut tm = TabManager::new(vec!["A".to_string(), "B".to_string(), "C".to_string()]);
    assert_eq!(tm.current_tab_name(), Some("A"));
    tm.previous_tab();
    assert_eq!(tm.current_tab(), 2);
    tm.next_tab();
    assert_eq!(tm.current_tab(), 0);
    for _ in 0..3 {
        tm.next_tab();
    }
    assert_eq!(tm.current_tab(), 0);
    let mut empty = TabManager::new(vec![]);
    empty.next_tab();
    assert_eq!(empty.current_tab(), 0);
    assert_eq!(empty.current_tab_name(), None);
    assert_eq!(tm.tab_names().len(), 3);
}

#[test]
fn sparkline_figures() {
    let _tab = SparklineTab::new();
    let _ui = TuiManager::new();
    let data = SparklineTab::plotted_counts(&vec![(0, 3), (1, 5), (2, 1)], 2);
    assert_eq!(data, vec![3, 5]);
    assert_eq!(SparklineTab::plot_title(&data).unwrap(), "📈 Requests Sparkline (Total: 8, Avg: 4, Max: 5)");
    assert!(SparklineTab::plot_title(&vec![]).is_none());
}

#[test]
fn a_double_click_on_a_file_starts_its_analysis() {
    let items = vec![dir("logs"), file("access.log")];
    let mut fs = FileSettings::new_with_args(&args(), PathBuf::from("/var"), items);
    fs.click_file_row(1);
    match fs.double_click_file() {
        FileSettingsRequest::StartIfExists { path, missing } => {
            assert_eq!(path, PathBuf::from("access.log"));
            assert_eq!(missing, "Selected file does not exist!");
        }
        _ => panic!("expected a start"),
    }
    fs.click_file_row(0);
    assert!(matches!(fs.double_click_file(), FileSettingsRequest::Stay));
}

#[test]
fn esc_in_the_file_selector_goes_to_the_parent_then_cancels() {
    let with_parent = directory_listing(Some(PathBuf::from("/")), vec![file("a.log")]);
    let mut sel = FileSelector::with_listing(PathBuf::from("/var"), with_parent);
    assert!(matches!(sel.handle_input(key(KeyCode::Esc)), (FileSelectorAction::Continue, SelectorRequest::OpenParent)));
    let mut top = FileSelector::with_listing(PathBuf::from("/"), vec![file("a.log")]);
    assert!(matches!(top.handle_input(key(KeyCode::Esc)), (FileSelectorAction::Cancel, SelectorRequest::Stay)));
}

#[test]
fn the_settings_table_shows_check_boxes_and_the_start_row() {
    let fs = FileSettings::new_with_args(&args(), PathBuf::from("/logs"), vec![file("x.log")]);
    let rows = fs.settings_rows();
    assert_eq!(rows.len(), 14);
    assert_eq!(rows[0], ("Count".to_string(), "-1".to_string()));
    assert_eq!(rows[4].1, "[x]");
    assert_eq!(rows[5].1, "[ ]");
    assert_eq!(rows[13], ("▶ Start Analysis".to_string(), String::new()));
    let none = FileSettings::new_with_args(&CliArgs { file: None, ..args() }, PathBuf::from("/logs"), vec![]);
    assert_eq!(none.settings_rows().len(), 13);
}

#[test]
fn a_click_finds_the_data_row_two_lines_into_the_table() {
    assert_eq!(data_row_at(10, 8, 9), None);
    assert_eq!(data_row_at(10, 8, 11), None);
    assert_eq!(data_row_at(10, 8, 12), Some(0));
    assert_eq!(data_row_at(10, 8, 17), Some(5));
    assert_eq!(data_row_at(10, 8, 18), None);
}
