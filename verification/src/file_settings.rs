//! The start screen: a file list on the left, the settings on the right, and the
//! keyboard and mouse handling that moves between them and starts an analysis.
use vstd::prelude::*;
use std::path::PathBuf;
use crate::keys::{KeyCode, KeyInput, is_interrupt};
use crate::text::{chars_of, string_of, push_chars, push_str, parse_bool};
pub use crate::file_selector::FileItem;
pub use crate::settings::{CliArgs, InputType, Setting};
use crate::file_selector::size_text;
use crate::settings::{
    settings_from_args, setting_values, setting_types, values_of, types_of,
    names_of, descriptions_of, setting_names, setting_descriptions,
    args_match, cli_args_from, toggled, set_value, toggle_at, edit_step, EditModel,
};

verus! {

/// A size in bytes as text, for the size column of the file list.
pub fn format_size(bytes: u64) -> (r: String)
    ensures
        r@ == size_text(bytes as nat),
{
    crate::file_selector::format_size(bytes)
}

/// What the start screen asks for after a key press or a click.
#[derive(Debug)]
pub enum FileSettingsAction {
    StartAnalysis(CliArgs),
    Exit,
}

/// What the start screen asks the caller to do: read a directory (the one now
/// shown), go to the parent directory, start the analysis of `path` if that file
/// exists (showing `missing` otherwise), or show a warning.
pub enum FileSettingsRequest {
    Stay,
    OpenDirectory(PathBuf),
    OpenParent,
    StartIfExists { path: PathBuf, missing: String },
    Warn(String),
}

/// The state of the start screen.
pub struct FsModel {
    pub dir: PathBuf,
    pub rows: Seq<FileItem>,
    pub file_sel: int,
    pub chosen: Option<PathBuf>,
    pub values: Seq<Seq<char>>,
    pub setting_sel: int,
    pub editing: bool,
    pub input: Seq<char>,
    pub panel: int,
}

/// The warning shown when there is no file to analyse.
pub open spec fn no_file_message() -> Seq<char> {
    "Please select a file first!"@
}

/// The warning shown when the chosen file has disappeared.
pub open spec fn missing_file_message() -> Seq<char> {
    "Selected file does not exist!"@
}

/// The file chosen after the file selection moves to row `i`: that row's file if it
/// is one, else the file chosen before.
pub open spec fn chosen_after(rows: Seq<FileItem>, i: int, before: Option<PathBuf>) -> Option<PathBuf> {
    if 0 <= i < rows.len() && rows[i].is_file { Some(rows[i].path) } else { before }
}

/// The start screen.
pub struct FileSettings {
    current_path: PathBuf,
    file_items: Vec<FileItem>,
    selected_file_index: usize,
    selected_file: Option<PathBuf>,
    settings: Vec<Setting>,
    selected_setting_index: usize,
    input_mode: bool,
    current_input: Vec<char>,
    active_panel: usize,
}

impl FileSettings {
    /// The screen's state.
    pub closed spec fn model(&self) -> FsModel {
        FsModel {
            dir: self.current_path,
            rows: self.file_items@,
            file_sel: self.selected_file_index as int,
            chosen: self.selected_file,
            values: values_of(self.settings@),
            setting_sel: self.selected_setting_index as int,
            editing: self.input_mode,
            input: self.current_input@,
            panel: self.active_panel as int,
        }
    }

    /// Thirteen settings of fixed kinds; the active panel is 0 (files) or 1
    /// (settings); the setting selection stays within two rows past the last setting.
    pub closed spec fn wf(&self) -> bool {
        &&& self.settings@.len() == 13
        &&& types_of(self.settings@) == setting_types()
        &&& self.active_panel <= 1
        &&& self.selected_setting_index <= 14
    }

    /// The settings' names, in order.
    pub closed spec fn names(&self) -> Seq<Seq<char>> {
        names_of(self.settings@)
    }

    /// The settings' descriptions, in order.
    pub closed spec fn descriptions(&self) -> Seq<Seq<char>> {
        descriptions_of(self.settings@)
    }

    /// The start screen in `current_path`, listing `items`, with the file and the
    /// setting values of `cli_args`; the file list is active, first rows selected.
    pub fn new_with_args(cli_args: &CliArgs, current_path: PathBuf, items: Vec<FileItem>) -> (r: Self)
        ensures
            r.wf(),
            r.model() == (FsModel {
                dir: current_path,
                rows: items@,
                file_sel: 0,
                chosen: cli_args.file,
                values: setting_values(*cli_args),
                setting_sel: 0,
                editing: false,
                input: Seq::empty(),
                panel: 0,
            }),
            r.names() == setting_names(),
            r.descriptions() == setting_descriptions(),
    {
        let settings = settings_from_args(cli_args);
        let r = FileSettings {
            current_path,
            file_items: items,
            selected_file_index: 0,
            selected_file: match &cli_args.file {
                Some(f) => Some(f.clone()),
                None => None,
            },
            settings,
            selected_setting_index: 0,
            input_mode: false,
            current_input: Vec::new(),
            active_panel: 0,
        };
        assert(types_of(r.settings@) =~= setting_types());
        assert(values_of(r.settings@) =~= setting_values(*cli_args));
        assert(names_of(r.settings@) =~= setting_names());
        assert(descriptions_of(r.settings@) =~= setting_descriptions());
        r
    }

    /// Shows `items`, the rows of `path`, with the first row selected.
    pub fn show_directory(&mut self, path: PathBuf, items: Vec<FileItem>)
        requires
            old(self).wf(),
        ensures
            final(self).wf(),
            final(self).names() == old(self).names(),
            final(self).descriptions() == old(self).descriptions(),
            final(self).model() == (FsModel { dir: path, rows: items@, file_sel: 0, ..old(self).model() }),
    {
        self.current_path = path;
        self.file_items = items;
        self.selected_file_index = 0;
    }

    /// Moves to the directory `path` (whose rows the caller reads next): the chosen
    /// file is dropped.
    pub fn enter_directory(&mut self, path: PathBuf)
        requires
            old(self).wf(),
        ensures
            final(self).wf(),
            final(self).names() == old(self).names(),
            final(self).descriptions() == old(self).descriptions(),
            final(self).model() == (FsModel { dir: path, chosen: None, ..old(self).model() }),
    {
        self.current_path = path;
        self.selected_file = None;
    }

    /// The arguments of the analysis: the chosen file and the settings' values.
    pub fn get_cli_args(&self) -> (r: CliArgs)
        requires
            self.wf(),
        ensures
            args_match(r, self.model().values, self.model().chosen),
    {
        let file = match &self.selected_file {
            Some(f) => Some(f.clone()),
            None => None,
        };
        cli_args_from(&self.settings, file)
    }

    fn update_selected_file(&mut self)
        ensures
            final(self).model() == (FsModel {
                chosen: chosen_after(old(self).model().rows, old(self).model().file_sel, old(self).model().chosen),
                ..old(self).model()
            }),
            final(self).settings == old(self).settings,
            final(self).active_panel == old(self).active_panel,
    {
        if self.selected_file_index < self.file_items.len() {
            if self.file_items[self.selected_file_index].is_file {
                self.selected_file = Some(self.file_items[self.selected_file_index].path.clone());
            }
        }
    }

    /// The request for the start row: start the analysis of the chosen file if it
    /// exists, or warn that there is none.
    fn start_request(&self) -> (r: FileSettingsRequest)
        ensures
            match self.model().chosen {
                Some(f) => r matches FileSettingsRequest::StartIfExists { path, missing }
                    && path == f && missing@ == no_file_message(),
                None => r matches FileSettingsRequest::Warn(m) && m@ == no_file_message(),
            },
    {
        match &self.selected_file {
            Some(f) => FileSettingsRequest::StartIfExists {
                path: f.clone(),
                missing: String::from_str("Please select a file first!"),
            },
            None => FileSettingsRequest::Warn(String::from_str("Please select a file first!")),
        }
    }

    /// Handles a key press: while a value is edited, the keys edit it; otherwise
    /// Tab and the arrows move between and within the panels, Enter opens a folder,
    /// picks a file and asks to start, starts from the settings' last row, or
    /// toggles or edits a setting, h asks for the parent folder, Control-C quits.
    pub fn handle_input(&mut self, key: KeyInput) -> (r: (Option<FileSettingsAction>, FileSettingsRequest))
        requires
            old(self).wf(),
        ensures
            final(self).wf(),
            final(self).names() == old(self).names(),
            final(self).descriptions() == old(self).descriptions(),
            old(self).model().editing ==> {
                let (m, quit) = edit_step(
                    EditModel {
                        values: old(self).model().values,
                        selected: old(self).model().setting_sel,
                        editing: true,
                        input: old(self).model().input,
                    },
                    key,
                );
                &&& final(self).model() == (FsModel { values: m.values, editing: m.editing, input: m.input, ..old(self).model() })
                &&& (if quit { r.0 matches Some(FileSettingsAction::Exit) } else { r.0 is None })
                &&& r.1 is Stay
            },
            !old(self).model().editing ==> navigation(old(self).model(), key, final(self).model(), r.0, r.1),
    {
        if self.input_mode {
            self.handle_input_mode(key)
        } else {
            self.handle_navigation_mode(key)
        }
    }

    fn handle_input_mode(&mut self, key: KeyInput) -> (r: (Option<FileSettingsAction>, FileSettingsRequest))
        requires
            old(self).wf(),
            old(self).input_mode,
        ensures
            final(self).wf(),
            final(self).names() == old(self).names(),
            final(self).descriptions() == old(self).descriptions(),
            ({
                let (m, quit) = edit_step(
                    EditModel {
                        values: old(self).model().values,
                        selected: old(self).model().setting_sel,
                        editing: true,
                        input: old(self).model().input,
                    },
                    key,
                );
                &&& final(self).model() == (FsModel { values: m.values, editing: m.editing, input: m.input, ..old(self).model() })
                &&& (if quit { r.0 matches Some(FileSettingsAction::Exit) } else { r.0 is None })
                &&& r.1 is Stay
            }),
    {
        match key.code {
            KeyCode::Enter => {
                let i = self.selected_setting_index;
                if i < self.settings.len() {
                    let text = string_of(self.current_input.as_slice());
                    set_value(&mut self.settings, i, text);
                }
                self.input_mode = false;
                self.current_input = Vec::new();
                assert(self.current_input@ =~= Seq::<char>::empty());
                (None, FileSettingsRequest::Stay)
            },
            KeyCode::Esc => {
                self.input_mode = false;
                self.current_input = Vec::new();
                assert(self.current_input@ =~= Seq::<char>::empty());
                (None, FileSettingsRequest::Stay)
            },
            KeyCode::Char(c) => {
                if key.ctrl && c == 'c' {
                    (Some(FileSettingsAction::Exit), FileSettingsRequest::Stay)
                } else {
                    self.current_input.push(c);
                    (None, FileSettingsRequest::Stay)
                }
            },
            KeyCode::Backspace => {
                if self.current_input.len() > 0 {
                    self.current_input.pop();
                }
                (None, FileSettingsRequest::Stay)
            },
            _ => (None, FileSettingsRequest::Stay),
        }
    }

    fn handle_navigation_mode(&mut self, key: KeyInput) -> (r: (Option<FileSettingsAction>, FileSettingsRequest))
        requires
            old(self).wf(),
            !old(self).input_mode,
        ensures
            final(self).wf(),
            final(self).names() == old(self).names(),
            final(self).descriptions() == old(self).descriptions(),
            navigation(old(self).model(), key, final(self).model(), r.0, r.1),
    {
        match key.code {
            KeyCode::Tab | KeyCode::Right | KeyCode::Left => {
                self.active_panel = if self.active_panel == 0 { 1 } else { 0 };
                (None, FileSettingsRequest::Stay)
            },
            KeyCode::Up => {
                if self.active_panel == 0 {
                    if self.selected_file_index > 0 {
                        self.selected_file_index = self.selected_file_index - 1;
                        self.selected_file = None;
                        self.update_selected_file();
                    }
                } else if self.selected_setting_index > 0 {
                    self.selected_setting_index = self.selected_setting_index - 1;
                }
                (None, FileSettingsRequest::Stay)
            },
            KeyCode::Down => {
                if self.active_panel == 0 {
                    let len = self.file_items.len();
                    let last: usize = if len > 0 { len - 1 } else { 0 };
                    if self.selected_file_index < last {
                        self.selected_file_index = self.selected_file_index + 1;
                        self.selected_file = None;
                        self.update_selected_file();
                    }
                } else {
                    let max_index = if self.selected_file.is_some() { self.settings.len() } else { self.settings.len() - 1 };
                    if self.selected_setting_index <= max_index {
                        self.selected_setting_index = self.selected_setting_index + 1;
                    }
                }
                (None, FileSettingsRequest::Stay)
            },
            KeyCode::Enter => {
                if self.active_panel == 0 {
                    if self.selected_file_index < self.file_items.len() {
                        let i = self.selected_file_index;
                        if self.file_items[i].is_parent || self.file_items[i].is_dir {
                            let path = self.file_items[i].path.clone();
                            self.current_path = self.file_items[i].path.clone();
                            self.selected_file = None;
                            (None, FileSettingsRequest::OpenDirectory(path))
                        } else if self.file_items[i].is_file {
                            let path = self.file_items[i].path.clone();
                            self.selected_file = Some(self.file_items[i].path.clone());
                            (None, FileSettingsRequest::StartIfExists {
                                path,
                                missing: String::from_str("Selected file does not exist!"),
                            })
                        } else {
                            (None, FileSettingsRequest::Stay)
                        }
                    } else {
                        (None, FileSettingsRequest::Stay)
                    }
                } else {
                    if self.selected_setting_index >= self.settings.len() {
                        return (None, self.start_request());
                    }
                    let i = self.selected_setting_index;
                    assert(types_of(self.settings@)[i as int] == self.settings@[i as int].input_type);
                    if self.settings[i].input_type == InputType::Boolean {
                        toggle_at(&mut self.settings, i);
                    } else {
                        self.current_input = chars_of(self.settings[i].value.as_str());
                        self.input_mode = true;
                    }
                    (None, FileSettingsRequest::Stay)
                }
            },
            KeyCode::Char(c) => {
                if c == 'h' && self.active_panel == 0 {
                    (None, FileSettingsRequest::OpenParent)
                } else if c == 'c' && key.ctrl {
                    (Some(FileSettingsAction::Exit), FileSettingsRequest::Stay)
                } else {
                    (None, FileSettingsRequest::Stay)
                }
            },
            _ => (None, FileSettingsRequest::Stay),
        }
    }

    /// Makes panel `panel` (0: files, 1: settings) active, as a click in it does.
    pub fn set_active_panel(&mut self, panel: usize)
        requires
            old(self).wf(),
            panel <= 1,
        ensures
            final(self).wf(),
            final(self).names() == old(self).names(),
            final(self).descriptions() == old(self).descriptions(),
            final(self).model() == (FsModel { panel: panel as int, ..old(self).model() }),
    {
        self.active_panel = panel;
    }

    /// Scrolls the active panel up by one row (the file list also picks the file
    /// under the selection).
    pub fn scroll_up(&mut self)
        requires
            old(self).wf(),
        ensures
            final(self).wf(),
            final(self).names() == old(self).names(),
            final(self).descriptions() == old(self).descriptions(),
            ({
                let o = old(self).model();
                if o.panel == 0 {
                    if o.file_sel > 0 {
                        final(self).model() == (FsModel {
                            file_sel: o.file_sel - 1,
                            chosen: chosen_after(o.rows, o.file_sel - 1, o.chosen),
                            ..o
                        })
                    } else {
                        final(self).model() == o
                    }
                } else {
                    final(self).model() == (FsModel { setting_sel: if o.setting_sel > 0 { o.setting_sel - 1 } else { o.setting_sel }, ..o })
                }
            }),
    {
        if self.active_panel == 0 {
            if self.selected_file_index > 0 {
                self.selected_file_index = self.selected_file_index - 1;
                self.update_selected_file();
            }
        } else if self.selected_setting_index > 0 {
            self.selected_setting_index = self.selected_setting_index - 1;
        }
    }

    /// Scrolls the active panel down by one row, within the rows shown (the start
    /// row counts only when a file is chosen).
    pub fn scroll_down(&mut self)
        requires
            old(self).wf(),
        ensures
            final(self).wf(),
            final(self).names() == old(self).names(),
            final(self).descriptions() == old(self).descriptions(),
            ({
                let o = old(self).model();
                if o.panel == 0 {
                    if o.file_sel + 1 < o.rows.len() {
                        final(self).model() == (FsModel {
                            file_sel: o.file_sel + 1,
                            chosen: chosen_after(o.rows, o.file_sel + 1, o.chosen),
                            ..o
                        })
                    } else {
                        final(self).model() == o
                    }
                } else {
                    let max = if o.chosen is Some { 13 } else { 12int };
                    final(self).model() == (FsModel { setting_sel: if o.setting_sel < max { o.setting_sel + 1 } else { o.setting_sel }, ..o })
                }
            }),
    {
        if self.active_panel == 0 {
            let len = self.file_items.len();
            let last: usize = if len > 0 { len - 1 } else { 0 };
            if self.selected_file_index < last {
                self.selected_file_index = self.selected_file_index + 1;
                self.update_selected_file();
            }
        } else {
            let max_index = if self.selected_file.is_some() { self.settings.len() } else { self.settings.len() - 1 };
            if self.selected_setting_index < max_index {
                self.selected_setting_index = self.selected_setting_index + 1;
            }
        }
    }

    /// A click on row `row` of the file list: selects it; a folder is opened (the
    /// caller reads it), a file is chosen.
    pub fn click_file_row(&mut self, row: usize) -> (r: FileSettingsRequest)
        requires
            old(self).wf(),
        ensures
            final(self).wf(),
            final(self).names() == old(self).names(),
            final(self).descriptions() == old(self).descriptions(),
            ({
                let o = old(self).model();
                if row < o.rows.len() {
                    let it = o.rows[row as int];
                    if it.is_parent || it.is_dir {
                        final(self).model() == (FsModel { file_sel: row as int, dir: it.path, chosen: None, ..o })
                            && (r matches FileSettingsRequest::OpenDirectory(p) && p == it.path)
                    } else if it.is_file {
                        final(self).model() == (FsModel { file_sel: row as int, chosen: Some(it.path), ..o })
                            && r is Stay
                    } else {
                        final(self).model() == (FsModel { file_sel: row as int, ..o }) && r is Stay
                    }
                } else {
                    final(self).model() == o && r is Stay
                }
            }),
    {
        if row < self.file_items.len() {
            self.selected_file_index = row;
            if self.file_items[row].is_parent || self.file_items[row].is_dir {
                let path = self.file_items[row].path.clone();
                self.current_path = self.file_items[row].path.clone();
                self.selected_file = None;
                FileSettingsRequest::OpenDirectory(path)
            } else if self.file_items[row].is_file {
                self.selected_file = Some(self.file_items[row].path.clone());
                FileSettingsRequest::Stay
            } else {
                FileSettingsRequest::Stay
            }
        } else {
            FileSettingsRequest::Stay
        }
    }

    /// A second click on the file list soon after the first: when the selected row is
    /// a file, the analysis of that file starts if it exists (else the caller warns
    /// that it does not).
    pub fn double_click_file(&self) -> (r: FileSettingsRequest)
        ensures
            ({
                let o = self.model();
                if 0 <= o.file_sel < o.rows.len() && o.rows[o.file_sel].is_file {
                    r matches FileSettingsRequest::StartIfExists { path, missing }
                        && path == o.rows[o.file_sel].path && missing@ == missing_file_message()
                } else {
                    r is Stay
                }
            }),
    {
        if self.selected_file_index < self.file_items.len() && self.file_items[self.selected_file_index].is_file {
            FileSettingsRequest::StartIfExists {
                path: self.file_items[self.selected_file_index].path.clone(),
                missing: String::from_str("Selected file does not exist!"),
            }
        } else {
            FileSettingsRequest::Stay
        }
    }

    /// A click on row `row` of the settings: a setting is selected and toggled or
    /// edited; the start row and the row after it ask to start the analysis.
    pub fn click_setting_row(&mut self, row: usize) -> (r: FileSettingsRequest)
        requires
            old(self).wf(),
        ensures
            final(self).wf(),
            final(self).names() == old(self).names(),
            final(self).descriptions() == old(self).descriptions(),
            ({
                let o = old(self).model();
                if row < 13 {
                    let n = FsModel { setting_sel: row as int, ..o };
                    &&& r is Stay
                    &&& if setting_types()[row as int] == InputType::Boolean {
                        final(self).model() == (FsModel { values: o.values.update(row as int, toggled(o.values[row as int])), ..n })
                    } else {
                        final(self).model() == (FsModel { input: o.values[row as int], editing: true, ..n })
                    }
                } else if row == 13 || row == 14 {
                    &&& final(self).model() == o
                    &&& match o.chosen {
                        Some(f) => r matches FileSettingsRequest::StartIfExists { path, missing }
                            && path == f && missing@ == no_file_message(),
                        None => r matches FileSettingsRequest::Warn(m) && m@ == no_file_message(),
                    }
                } else {
                    final(self).model() == o && r is Stay
                }
            }),
    {
        if row < self.settings.len() {
            self.selected_setting_index = row;
            assert(types_of(self.settings@)[row as int] == self.settings@[row as int].input_type);
            if self.settings[row].input_type == InputType::Boolean {
                toggle_at(&mut self.settings, row);
            } else {
                self.current_input = chars_of(self.settings[row].value.as_str());
                self.input_mode = true;
            }
            FileSettingsRequest::Stay
        } else if row == self.settings.len() || row == self.settings.len() + 1 {
            self.start_request()
        } else {
            FileSettingsRequest::Stay
        }
    }

    /// The directory shown.
    pub fn current_path(&self) -> (r: &PathBuf)
        ensures
            *r == self.model().dir,
    {
        &self.current_path
    }

    /// The rows of the file list.
    pub fn file_items(&self) -> (r: &Vec<FileItem>)
        ensures
            r@ == self.model().rows,
    {
        &self.file_items
    }

    /// The selected row of the file list.
    pub fn selected_file_index(&self) -> (r: usize)
        ensures
            r == self.model().file_sel,
    {
        self.selected_file_index
    }

    /// The chosen file.
    pub fn selected_file(&self) -> (r: Option<&PathBuf>)
        ensures
            match r {
                Some(p) => self.model().chosen == Some(*p),
                None => self.model().chosen is None,
            },
    {
        match &self.selected_file {
            Some(p) => Some(p),
            None => None,
        }
    }

    /// The settings, in display order.
    pub fn settings(&self) -> (r: &Vec<Setting>)
        requires
            self.wf(),
        ensures
            values_of(r@) == self.model().values,
            names_of(r@) == self.names(),
            descriptions_of(r@) == self.descriptions(),
            types_of(r@) == setting_types(),
    {
        &self.settings
    }

    /// The selected row of the settings.
    pub fn selected_setting_index(&self) -> (r: usize)
        ensures
            r == self.model().setting_sel,
    {
        self.selected_setting_index
    }

    /// Whether a value is being edited.
    pub fn input_mode(&self) -> (r: bool)
        ensures
            r == self.model().editing,
    {
        self.input_mode
    }

    /// The text typed so far.
    pub fn current_input(&self) -> (r: String)
        ensures
            r@ == self.model().input,
    {
        string_of(self.current_input.as_slice())
    }

    /// The active panel: 0 for the file list, 1 for the settings.
    pub fn active_panel(&self) -> (r: usize)
        ensures
            r == self.model().panel,
    {
        self.active_panel
    }
}

/// What the value column of the settings table shows for setting `i`: a check box
/// for an on/off setting, the text being typed (followed by a cursor) for the setting
/// being edited in the settings panel, and the value otherwise.
pub open spec fn shown_value(m: FsModel, i: int) -> Seq<char> {
    if setting_types()[i] == InputType::Boolean {
        if m.values[i] == "true"@ { "[x]"@ } else { "[ ]"@ }
    } else if m.editing && i == m.setting_sel && m.panel == 1 {
        m.input + " █"@
    } else {
        m.values[i]
    }
}

/// The rows of the settings table: each setting's name with its shown value, then
/// the row that starts the analysis when a file is chosen.
pub open spec fn settings_table(m: FsModel, names: Seq<Seq<char>>) -> Seq<(Seq<char>, Seq<char>)> {
    let rows = Seq::new(names.len(), |i: int| (names[i], shown_value(m, i)));
    if m.chosen is Some { rows.push(("▶ Start Analysis"@, Seq::empty())) } else { rows }
}

/// The view of a table of text pairs.
pub open spec fn pairs_view(r: Seq<(String, String)>) -> Seq<(Seq<char>, Seq<char>)> {
    r.map_values(|p: (String, String)| (p.0@, p.1@))
}

/// The data row of a table under the screen line `y`, when the table's area starts at
/// line `top` and is `height` lines high and the first data row is two lines in.
pub open spec fn row_under(top: u16, height: u16, y: u16) -> Option<usize> {
    if top + 2 <= y && y < top + height { Some((y - top - 2) as usize) } else { None }
}

/// The data row of a table under the screen line `y` (see `row_under`).
pub fn data_row_at(top: u16, height: u16, y: u16) -> (r: Option<usize>)
    ensures
        r == row_under(top, height, y),
{
    if y >= top && y - top >= 2 && y - top < height {
        Some((y - top - 2) as usize)
    } else {
        None
    }
}

impl FileSettings {
    /// The rows of the settings table (see `settings_table`).
    pub fn settings_rows(&self) -> (r: Vec<(String, String)>)
        requires
            self.wf(),
        ensures
            pairs_view(r@) == settings_table(self.model(), self.names()),
    {
        let ghost m = self.model();
        let ghost full = Seq::new(self.names().len(), |i: int| (self.names()[i], shown_value(m, i)));
        let mut r: Vec<(String, String)> = Vec::new();
        let mut i: usize = 0;
        while i < self.settings.len()
            invariant
                self.wf(),
                m == self.model(),
                full == Seq::new(self.names().len(), |i: int| (self.names()[i], shown_value(m, i))),
                i <= self.settings@.len(),
                pairs_view(r@) == full.take(i as int),
            decreases self.settings.len() - i,
        {
            let s = &self.settings[i];
            assert(types_of(self.settings@)[i as int] == s.input_type);
            let value = if s.input_type == InputType::Boolean {
                let on = match parse_bool(chars_of(s.value.as_str()).as_slice()) {
                    Some(b) => b,
                    None => false,
                };
                if on { String::from_str("[x]") } else { String::from_str("[ ]") }
            } else if self.input_mode && i == self.selected_setting_index && self.active_panel == 1 {
                let mut v: Vec<char> = Vec::new();
                push_chars(&mut v, self.current_input.as_slice());
                push_str(&mut v, " █");
                string_of(v.as_slice())
            } else {
                s.value.clone()
            };
            let ghost prev = r@;
            r.push((s.name.clone(), value));
            proof {
                assert(values_of(self.settings@)[i as int] == s.value@);
                assert(names_of(self.settings@)[i as int] == s.name@);
                assert(pairs_view(r@) =~= pairs_view(prev).push((s.name@, value@)));
                assert(full.take(i as int + 1) =~= full.take(i as int).push(full[i as int]));
            }
            i += 1;
        }
        assert(full.take(i as int) =~= full);
        if self.selected_file.is_some() {
            let ghost prev = r@;
            r.push((String::from_str("▶ Start Analysis"), String::new()));
            assert(pairs_view(r@) =~= pairs_view(prev).push(("▶ Start Analysis"@, Seq::empty())));
        }
        r
    }
}

/// What a key does on the start screen when no value is being edited; `n` is the
/// state after the key, `a` and `q` what the screen answers.
pub open spec fn navigation(o: FsModel, k: KeyInput, n: FsModel, a: Option<FileSettingsAction>, q: FileSettingsRequest) -> bool {
    match k.code {
        KeyCode::Tab | KeyCode::Right | KeyCode::Left =>
            n == (FsModel { panel: if o.panel == 0 { 1 } else { 0 }, ..o }) && a is None && q is Stay,
        KeyCode::Up => a is None && q is Stay && if o.panel == 0 {
            if o.file_sel > 0 {
                n == (FsModel { file_sel: o.file_sel - 1, chosen: chosen_after(o.rows, o.file_sel - 1, None), ..o })
            } else {
                n == o
            }
        } else {
            n == (FsModel { setting_sel: if o.setting_sel > 0 { o.setting_sel - 1 } else { o.setting_sel }, ..o })
        },
        KeyCode::Down => a is None && q is Stay && if o.panel == 0 {
            if o.file_sel + 1 < o.rows.len() {
                n == (FsModel { file_sel: o.file_sel + 1, chosen: chosen_after(o.rows, o.file_sel + 1, None), ..o })
            } else {
                n == o
            }
        } else {
            let max = if o.chosen is Some { 13 } else { 12int };
            n == (FsModel { setting_sel: if o.setting_sel <= max { o.setting_sel + 1 } else { o.setting_sel }, ..o })
        },
        KeyCode::Enter => a is None && if o.panel == 0 {
            if 0 <= o.file_sel < o.rows.len() {
                let it = o.rows[o.file_sel];
                if it.is_parent || it.is_dir {
                    n == (FsModel { dir: it.path, chosen: None, ..o }) && (q matches FileSettingsRequest::OpenDirectory(p) && p == it.path)
                } else if it.is_file {
                    n == (FsModel { chosen: Some(it.path), ..o })
                        && (q matches FileSettingsRequest::StartIfExists { path, missing } && path == it.path
                            && missing@ == missing_file_message())
                } else {
                    n == o && q is Stay
                }
            } else {
                n == o && q is Stay
            }
        } else if o.setting_sel >= 13 {
            n == o && match o.chosen {
                Some(f) => q matches FileSettingsRequest::StartIfExists { path, missing } && path == f
                    && missing@ == no_file_message(),
                None => q matches FileSettingsRequest::Warn(m) && m@ == no_file_message(),
            }
        } else if setting_types()[o.setting_sel] == InputType::Boolean {
            n == (FsModel { values: o.values.update(o.setting_sel, toggled(o.values[o.setting_sel])), ..o }) && q is Stay
        } else {
            n == (FsModel { input: o.values[o.setting_sel], editing: true, ..o }) && q is Stay
        },
        KeyCode::Char(c) => if c == 'h' && o.panel == 0 {
            n == o && a is None && q is OpenParent
        } else if is_interrupt(k) {
            n == o && (a matches Some(FileSettingsAction::Exit)) && q is Stay
        } else {
            n == o && a is None && q is Stay
        },
        _ => n == o && a is None && q is Stay,
    }
}

} // verus!
