//! The settings screen shown before an analysis starts: thirteen settings read from
//! the command line, edited with the keyboard, and turned back into arguments.
use vstd::prelude::*;
use std::path::PathBuf;
use crate::keys::{KeyCode, KeyInput, is_interrupt};
use crate::text::{
    chars_of, string_of, decimal, signed_decimal, bool_text, u64_to_string, isize_to_string,
    bool_to_string, parse_isize, parse_isize_spec, parse_usize, parse_usize_spec, parse_bool,
    parse_bool_spec,
};

verus! {

/// `PathBuf` clones hold the same path.
pub assume_specification[ <std::path::PathBuf as core::clone::Clone>::clone ](p: &PathBuf) -> (r: PathBuf)
    ensures
        r == *p,
;

/// How a setting is edited.
#[derive(Clone, Copy, Debug, PartialEq, Eq, Structural)]
pub enum InputType {
    Number,
    Text,
    Boolean,
    Regex,
}

/// One setting: its name, current value, description and editing kind.
#[derive(Clone)]
pub struct Setting {
    pub name: String,
    pub value: String,
    pub description: String,
    pub input_type: InputType,
}

/// The arguments of an analysis.
#[derive(Debug, Clone)]
pub struct CliArgs {
    pub file: Option<PathBuf>,
    pub regex: String,
    pub date_format: String,
    pub count: isize,
    pub top: usize,
    pub show_urls: bool,
    pub show_ips: bool,
    pub log_to_file: bool,
    pub enable_security: bool,
    pub enable_performance: bool,
    pub enable_errors: bool,
    pub enable_bots: bool,
    pub enable_sparkline: bool,
    pub enable_heatmap: bool,
}

/// What the settings screen asks for after a key press.
#[derive(Debug)]
pub enum SettingsAction {
    Continue,
    Back,
    StartAnalysis(CliArgs),
    Exit,
}

/// The names of the settings, in display order.
pub open spec fn setting_names() -> Seq<Seq<char>> {
    seq![
        "Count"@,
        "Regex Pattern"@,
        "Date Format"@,
        "Top N"@,
        "Show URLs"@,
        "Show IPs"@,
        "Log to File"@,
        "Enable Security"@,
        "Enable Performance"@,
        "Enable Errors"@,
        "Enable Bots"@,
        "Enable Sparkline"@,
        "Enable Heatmap"@,
    ]
}

/// The descriptions of the settings, in display order.
pub open spec fn setting_descriptions() -> Seq<Seq<char>> {
    seq![
        "Number of lines to read from the end of the file (0 to start from the end, -1 to read the entire file)"@,
        "Regular expression to parse the log entries"@,
        "Date format to parse the log entries"@,
        "Number of top entries to display"@,
        "Show top URLs in console"@,
        "Show top IPs in console"@,
        "Enable logging to a file"@,
        "Enable Security tab (detect suspicious activity, attacks, etc.)"@,
        "Enable Performance tab (monitor response times, slow requests)"@,
        "Enable Errors tab (track error codes and failed requests)"@,
        "Enable Bots tab (detect bot activity and user agents)"@,
        "Enable Sparkline tab (show request trends over time)"@,
        "Enable Heatmap tab (show request distribution by time)"@,
    ]
}

/// How each setting is edited, in display order.
pub open spec fn setting_types() -> Seq<InputType> {
    seq![
        InputType::Number,
        InputType::Regex,
        InputType::Text,
        InputType::Number,
        InputType::Boolean,
        InputType::Boolean,
        InputType::Boolean,
        InputType::Boolean,
        InputType::Boolean,
        InputType::Boolean,
        InputType::Boolean,
        InputType::Boolean,
        InputType::Boolean,
    ]
}

/// The values the settings start with, given the command-line arguments.
pub open spec fn setting_values(a: CliArgs) -> Seq<Seq<char>> {
    seq![
        signed_decimal(a.count as int),
        a.regex@,
        a.date_format@,
        decimal(a.top as nat),
        bool_text(a.show_urls),
        bool_text(a.show_ips),
        bool_text(a.log_to_file),
        bool_text(a.enable_security),
        bool_text(a.enable_performance),
        bool_text(a.enable_errors),
        bool_text(a.enable_bots),
        bool_text(a.enable_sparkline),
        bool_text(a.enable_heatmap),
    ]
}

/// The settings, in display order, with the values of the command-line arguments.
#[verifier::rlimit(40)]
pub fn settings_from_args(a: &CliArgs) -> (r: Vec<Setting>)
    ensures
        r@.len() == 13,
        forall|i: int| 0 <= i < 13 ==> (#[trigger] r@[i]).name@ == setting_names()[i]
            && r@[i].value@ == setting_values(*a)[i]
            && r@[i].description@ == setting_descriptions()[i]
            && r@[i].input_type == setting_types()[i],
{
    let mut v: Vec<Setting> = Vec::new();
    v.push(Setting { name: String::from_str("Count"), value: isize_to_string(a.count), description: String::from_str("Number of lines to read from the end of the file (0 to start from the end, -1 to read the entire file)"), input_type: InputType::Number });
    v.push(Setting { name: String::from_str("Regex Pattern"), value: a.regex.clone(), description: String::from_str("Regular expression to parse the log entries"), input_type: InputType::Regex });
    v.push(Setting { name: String::from_str("Date Format"), value: a.date_format.clone(), description: String::from_str("Date format to parse the log entries"), input_type: InputType::Text });
    v.push(Setting { name: String::from_str("Top N"), value: u64_to_string(a.top as u64), description: String::from_str("Number of top entries to display"), input_type: InputType::Number });
    v.push(Setting { name: String::from_str("Show URLs"), value: bool_to_string(a.show_urls), description: String::from_str("Show top URLs in console"), input_type: InputType::Boolean });
    v.push(Setting { name: String::from_str("Show IPs"), value: bool_to_string(a.show_ips), description: String::from_str("Show top IPs in console"), input_type: InputType::Boolean });
    v.push(Setting { name: String::from_str("Log to File"), value: bool_to_string(a.log_to_file), description: String::from_str("Enable logging to a file"), input_type: InputType::Boolean });
    v.push(Setting { name: String::from_str("Enable Security"), value: bool_to_string(a.enable_security), description: String::from_str("Enable Security tab (detect suspicious activity, attacks, etc.)"), input_type: InputType::Boolean });
    v.push(Setting { name: String::from_str("Enable Performance"), value: bool_to_string(a.enable_performance), description: String::from_str("Enable Performance tab (monitor response times, slow requests)"), input_type: InputType::Boolean });
    v.push(Setting { name: String::from_str("Enable Errors"), value: bool_to_string(a.enable_errors), description: String::from_str("Enable Errors tab (track error codes and failed requests)"), input_type: InputType::Boolean });
    v.push(Setting { name: String::from_str("Enable Bots"), value: bool_to_string(a.enable_bots), description: String::from_str("Enable Bots tab (detect bot activity and user agents)"), input_type: InputType::Boolean });
    v.push(Setting { name: String::from_str("Enable Sparkline"), value: bool_to_string(a.enable_sparkline), description: String::from_str("Enable Sparkline tab (show request trends over time)"), input_type: InputType::Boolean });
    v.push(Setting { name: String::from_str("Enable Heatmap"), value: bool_to_string(a.enable_heatmap), description: String::from_str("Enable Heatmap tab (show request distribution by time)"), input_type: InputType::Boolean });
    v
}

/// The values of `s`, in order.
pub open spec fn values_of(s: Seq<Setting>) -> Seq<Seq<char>> {
    s.map_values(|x: Setting| x.value@)
}

/// The names of `s`, in order.
pub open spec fn names_of(s: Seq<Setting>) -> Seq<Seq<char>> {
    s.map_values(|x: Setting| x.name@)
}

/// The descriptions of `s`, in order.
pub open spec fn descriptions_of(s: Seq<Setting>) -> Seq<Seq<char>> {
    s.map_values(|x: Setting| x.description@)
}

/// The kinds of `s`, in order.
pub open spec fn types_of(s: Seq<Setting>) -> Seq<InputType> {
    s.map_values(|x: Setting| x.input_type)
}

/// A parsed value, or a default when it does not parse.
pub open spec fn or_else<T>(o: Option<T>, d: T) -> T {
    match o {
        Some(v) => v,
        None => d,
    }
}

/// `a` holds the arguments that the setting values `v` (in display order) give for
/// the file `file`: a value that does not parse gives 0 lines, 10 top entries, or
/// a disabled flag.
pub open spec fn args_match(a: CliArgs, v: Seq<Seq<char>>, file: Option<PathBuf>) -> bool {
    &&& a.file == file
    &&& a.regex@ == v[1]
    &&& a.date_format@ == v[2]
    &&& a.count == or_else(parse_isize_spec(v[0]), 0)
    &&& a.top == or_else(parse_usize_spec(v[3]), 10)
    &&& a.show_urls == or_else(parse_bool_spec(v[4]), false)
    &&& a.show_ips == or_else(parse_bool_spec(v[5]), false)
    &&& a.log_to_file == or_else(parse_bool_spec(v[6]), false)
    &&& a.enable_security == or_else(parse_bool_spec(v[7]), false)
    &&& a.enable_performance == or_else(parse_bool_spec(v[8]), false)
    &&& a.enable_errors == or_else(parse_bool_spec(v[9]), false)
    &&& a.enable_bots == or_else(parse_bool_spec(v[10]), false)
    &&& a.enable_sparkline == or_else(parse_bool_spec(v[11]), false)
    &&& a.enable_heatmap == or_else(parse_bool_spec(v[12]), false)
}

fn flag_at(settings: &Vec<Setting>, i: usize) -> (r: bool)
    requires
        i < settings@.len(),
    ensures
        r == or_else(parse_bool_spec(values_of(settings@)[i as int]), false),
{
    match parse_bool(chars_of(settings[i].value.as_str()).as_slice()) {
        Some(b) => b,
        None => false,
    }
}

/// The arguments the values of `settings` give for the file `file`.
pub fn cli_args_from(settings: &Vec<Setting>, file: Option<PathBuf>) -> (r: CliArgs)
    requires
        settings@.len() >= 13,
    ensures
        args_match(r, values_of(settings@), file),
{
    let count = match parse_isize(chars_of(settings[0].value.as_str()).as_slice()) {
        Some(n) => n,
        None => 0,
    };
    let top = match parse_usize(chars_of(settings[3].value.as_str()).as_slice()) {
        Some(n) => n,
        None => 10,
    };
    CliArgs {
        file,
        regex: settings[1].value.clone(),
        date_format: settings[2].value.clone(),
        count,
        top,
        show_urls: flag_at(settings, 4),
        show_ips: flag_at(settings, 5),
        log_to_file: flag_at(settings, 6),
        enable_security: flag_at(settings, 7),
        enable_performance: flag_at(settings, 8),
        enable_errors: flag_at(settings, 9),
        enable_bots: flag_at(settings, 10),
        enable_sparkline: flag_at(settings, 11),
        enable_heatmap: flag_at(settings, 12),
    }
}

/// The value a boolean setting takes when toggled: "false" after "true", else "true".
pub open spec fn toggled(v: Seq<char>) -> Seq<char> {
    if v == "true"@ { "false"@ } else { "true"@ }
}

/// A number written with `n.to_string()` reads back, with `parse::<isize>()`, as itself.
proof fn lemma_signed_reads_back(n: isize)
    ensures
        parse_isize_spec(signed_decimal(n as int)) == Some(n),
{
    if n < 0 {
        let m = (-(n as int)) as nat;
        crate::text::law_decimal_reads_back(m);
        let s = signed_decimal(n as int);
        assert(s.skip(1) =~= decimal(m));
        assert(s[0] == '-');
    } else {
        crate::text::law_decimal_reads_back(n as nat);
        let s = decimal(n as nat);
        assert(crate::text::is_digit(s[0]));
    }
}

/// A boolean written with `b.to_string()` reads back, with `parse::<bool>()`, as itself.
proof fn lemma_bool_reads_back(b: bool)
    ensures
        parse_bool_spec(bool_text(b)) == Some(b),
{
    reveal_strlit("true");
    reveal_strlit("false");
    assert("true"@ != "false"@) by {
        assert("true"@.len() != "false"@.len());
    }
}

/// The settings built from the command-line arguments give those arguments back:
/// every value written into a setting is read back as itself.
pub proof fn law_settings_give_back_arguments(a: CliArgs, file: PathBuf)
    requires
        a.file == Some(file),
    ensures
        args_match(a, setting_values(a), Some(file)),
{
    lemma_signed_reads_back(a.count);
    crate::text::law_decimal_reads_back(a.top as nat);
    lemma_bool_reads_back(a.show_urls);
    lemma_bool_reads_back(a.show_ips);
    lemma_bool_reads_back(a.log_to_file);
    lemma_bool_reads_back(a.enable_security);
    lemma_bool_reads_back(a.enable_performance);
    lemma_bool_reads_back(a.enable_errors);
    lemma_bool_reads_back(a.enable_bots);
    lemma_bool_reads_back(a.enable_sparkline);
    lemma_bool_reads_back(a.enable_heatmap);
    let v = setting_values(a);
    assert(parse_usize_spec(v[3]) == Some(a.top));
}

/// Toggling a boolean setting twice gives back its value, when it reads as a boolean.
pub proof fn law_toggle_twice(v: Seq<char>)
    requires
        v == "true"@ || v == "false"@,
    ensures
        toggled(toggled(v)) == v,
{
    reveal_strlit("true");
    reveal_strlit("false");
    assert("true"@ != "false"@) by {
        assert("true"@.len() != "false"@.len());
    }
}

/// Toggles the boolean setting `s`.
pub fn toggle(s: &mut Setting)
    ensures
        final(s).value@ == toggled(old(s).value@),
        final(s).name == old(s).name,
        final(s).description == old(s).description,
        final(s).input_type == old(s).input_type,
{
    let is_true = match parse_bool(chars_of(s.value.as_str()).as_slice()) {
        Some(b) => b,
        None => false,
    };
    s.value = if is_true { String::from_str("false") } else { String::from_str("true") };
}

/// Stores `value` in setting `i`.
pub fn set_value(v: &mut Vec<Setting>, i: usize, value: String)
    requires
        i < old(v)@.len(),
    ensures
        values_of(final(v)@) == values_of(old(v)@).update(i as int, value@),
        types_of(final(v)@) == types_of(old(v)@),
        names_of(final(v)@) == names_of(old(v)@),
        descriptions_of(final(v)@) == descriptions_of(old(v)@),
        final(v)@.len() == old(v)@.len(),
{
    let mut s = v.remove(i);
    s.value = value;
    v.insert(i, s);
    assert(names_of(v@) =~= names_of(old(v)@));
    assert(descriptions_of(v@) =~= descriptions_of(old(v)@));
    assert(values_of(v@) =~= values_of(old(v)@).update(i as int, value@));
    assert(types_of(v@) =~= types_of(old(v)@));
}

/// Toggles boolean setting `i`.
pub fn toggle_at(v: &mut Vec<Setting>, i: usize)
    requires
        i < old(v)@.len(),
    ensures
        values_of(final(v)@) == values_of(old(v)@).update(i as int, toggled(values_of(old(v)@)[i as int])),
        types_of(final(v)@) == types_of(old(v)@),
        names_of(final(v)@) == names_of(old(v)@),
        descriptions_of(final(v)@) == descriptions_of(old(v)@),
        final(v)@.len() == old(v)@.len(),
{
    let mut s = v.remove(i);
    toggle(&mut s);
    v.insert(i, s);
    assert(names_of(v@) =~= names_of(old(v)@));
    assert(descriptions_of(v@) =~= descriptions_of(old(v)@));
    assert(values_of(v@) =~= values_of(old(v)@).update(i as int, toggled(values_of(old(v)@)[i as int])));
    assert(types_of(v@) =~= types_of(old(v)@));
}

/// The state of a line being typed: the settings' values, the selected row, whether
/// a value is being edited, and the text typed so far.
pub struct EditModel {
    pub values: Seq<Seq<char>>,
    pub selected: int,
    pub editing: bool,
    pub input: Seq<char>,
}

/// What a key does while a value is being edited: Enter stores the text in the
/// selected setting, Esc drops it, Control-C quits, a character is typed, Backspace
/// erases the last one. The flag says whether the program should quit.
pub open spec fn edit_step(m: EditModel, k: KeyInput) -> (EditModel, bool) {
    match k.code {
        KeyCode::Enter => (EditModel {
            values: if 0 <= m.selected < m.values.len() { m.values.update(m.selected, m.input) } else { m.values },
            editing: false,
            input: Seq::empty(),
            ..m
        }, false),
        KeyCode::Esc => (EditModel { editing: false, input: Seq::empty(), ..m }, false),
        KeyCode::Char(c) => if is_interrupt(k) {
            (m, true)
        } else {
            (EditModel { input: m.input.push(c), ..m }, false)
        },
        KeyCode::Backspace => (EditModel {
            input: if m.input.len() > 0 { m.input.drop_last() } else { m.input },
            ..m
        }, false),
        _ => (m, false),
    }
}

/// The settings screen.
pub struct Settings {
    selected_file: PathBuf,
    settings: Vec<Setting>,
    selected_index: usize,
    input_mode: bool,
    current_input: Vec<char>,
}

/// The result kinds of a key press on the settings screen.
pub enum Step {
    Continue,
    Back,
    Start,
    Exit,
}

/// What a key does on the settings screen when no value is being edited: Up and
/// Down move the selection (Down can reach two rows past the last setting), Enter
/// starts the analysis from the row after the settings, toggles a boolean setting,
/// or starts editing another; Esc goes back; Control-C quits.
pub open spec fn navigate_step(m: EditModel, types: Seq<InputType>, k: KeyInput) -> (EditModel, Step) {
    match k.code {
        KeyCode::Up => (EditModel { selected: if m.selected > 0 { m.selected - 1 } else { m.selected }, ..m }, Step::Continue),
        KeyCode::Down => (EditModel { selected: if m.selected <= m.values.len() { m.selected + 1 } else { m.selected }, ..m }, Step::Continue),
        KeyCode::Enter => if m.selected >= m.values.len() {
            (m, Step::Start)
        } else if types[m.selected] == InputType::Boolean {
            (EditModel { values: m.values.update(m.selected, toggled(m.values[m.selected])), ..m }, Step::Continue)
        } else {
            (EditModel { input: m.values[m.selected], editing: true, ..m }, Step::Continue)
        },
        KeyCode::Esc => (m, Step::Back),
        KeyCode::Char(c) => if is_interrupt(k) { (m, Step::Exit) } else { (m, Step::Continue) },
        _ => (m, Step::Continue),
    }
}

/// What a key does on the settings screen.
pub open spec fn settings_step(m: EditModel, types: Seq<InputType>, k: KeyInput) -> (EditModel, Step) {
    if m.editing {
        let (n, quit) = edit_step(m, k);
        (n, if quit { Step::Exit } else { Step::Continue })
    } else {
        navigate_step(m, types, k)
    }
}

impl Settings {
    /// There are thirteen settings of fixed kinds; the selection stays within two
    /// rows past the last setting.
    pub closed spec fn wf(&self) -> bool {
        &&& self.settings@.len() == 13
        &&& types_of(self.settings@) == setting_types()
        &&& self.selected_index <= 14
    }

    /// The settings' names, in order.
    pub closed spec fn names(&self) -> Seq<Seq<char>> {
        names_of(self.settings@)
    }

    /// The settings' descriptions, in order.
    pub closed spec fn descriptions(&self) -> Seq<Seq<char>> {
        descriptions_of(self.settings@)
    }

    /// The screen's state.
    pub closed spec fn model(&self) -> EditModel {
        EditModel {
            values: values_of(self.settings@),
            selected: self.selected_index as int,
            editing: self.input_mode,
            input: self.current_input@,
        }
    }

    /// The file the analysis will read.
    pub closed spec fn file(&self) -> PathBuf {
        self.selected_file
    }

    /// The settings screen for `selected_file`, with the values of `cli_args`, the
    /// first row selected.
    pub fn new_with_args(selected_file: PathBuf, cli_args: &CliArgs) -> (r: Self)
        ensures
            r.wf(),
            r.model() == (EditModel { values: setting_values(*cli_args), selected: 0, editing: false, input: Seq::empty() }),
            r.file() == selected_file,
            r.names() == setting_names(),
            r.descriptions() == setting_descriptions(),
    {
        let settings = settings_from_args(cli_args);
        let r = Settings {
            selected_file,
            settings,
            selected_index: 0,
            input_mode: false,
            current_input: Vec::new(),
        };
        assert(types_of(r.settings@) =~= setting_types());
        assert(values_of(r.settings@) =~= setting_values(*cli_args));
        assert(names_of(r.settings@) =~= setting_names());
        assert(descriptions_of(r.settings@) =~= setting_descriptions());
        r
    }

    /// Handles a key press.
    pub fn handle_input(&mut self, key: KeyInput) -> (r: SettingsAction)
        requires
            old(self).wf(),
        ensures
            final(self).wf(),
            final(self).names() == old(self).names(),
            final(self).descriptions() == old(self).descriptions(),
            final(self).model() == settings_step(old(self).model(), setting_types(), key).0,
            final(self).file() == old(self).file(),
            match settings_step(old(self).model(), setting_types(), key).1 {
                Step::Continue => r is Continue,
                Step::Back => r is Back,
                Step::Exit => r is Exit,
                Step::Start => r matches SettingsAction::StartAnalysis(a)
                    && args_match(a, old(self).model().values, Some(old(self).file())),
            },
    {
        if self.input_mode {
            self.handle_input_mode(key)
        } else {
            self.handle_navigation_mode(key)
        }
    }

    fn handle_input_mode(&mut self, key: KeyInput) -> (r: SettingsAction)
        requires
            old(self).wf(),
            old(self).input_mode,
        ensures
            final(self).wf(),
            final(self).names() == old(self).names(),
            final(self).descriptions() == old(self).descriptions(),
            final(self).model() == edit_step(old(self).model(), key).0,
            final(self).file() == old(self).file(),
            if edit_step(old(self).model(), key).1 { r is Exit } else { r is Continue },
    {
        match key.code {
            KeyCode::Enter => {
                let i = self.selected_index;
                if i < self.settings.len() {
                    let text = string_of(self.current_input.as_slice());
                    set_value(&mut self.settings, i, text);
                }
                self.input_mode = false;
                self.current_input = Vec::new();
                assert(self.current_input@ =~= Seq::<char>::empty());
                SettingsAction::Continue
            },
            KeyCode::Esc => {
                self.input_mode = false;
                self.current_input = Vec::new();
                assert(self.current_input@ =~= Seq::<char>::empty());
                SettingsAction::Continue
            },
            KeyCode::Char(c) => {
                if key.ctrl && c == 'c' {
                    SettingsAction::Exit
                } else {
                    self.current_input.push(c);
                    SettingsAction::Continue
                }
            },
            KeyCode::Backspace => {
                if self.current_input.len() > 0 {
                    self.current_input.pop();
                }
                SettingsAction::Continue
            },
            _ => SettingsAction::Continue,
        }
    }

    fn handle_navigation_mode(&mut self, key: KeyInput) -> (r: SettingsAction)
        requires
            old(self).wf(),
            !old(self).input_mode,
        ensures
            final(self).wf(),
            final(self).names() == old(self).names(),
            final(self).descriptions() == old(self).descriptions(),
            final(self).model() == navigate_step(old(self).model(), setting_types(), key).0,
            final(self).file() == old(self).file(),
            match navigate_step(old(self).model(), setting_types(), key).1 {
                Step::Continue => r is Continue,
                Step::Back => r is Back,
                Step::Exit => r is Exit,
                Step::Start => r matches SettingsAction::StartAnalysis(a)
                    && args_match(a, old(self).model().values, Some(old(self).file())),
            },
    {
        match key.code {
            KeyCode::Up => {
                if self.selected_index > 0 {
                    self.selected_index = self.selected_index - 1;
                }
                SettingsAction::Continue
            },
            KeyCode::Down => {
                if self.selected_index <= self.settings.len() {
                    self.selected_index = self.selected_index + 1;
                }
                SettingsAction::Continue
            },
            KeyCode::Enter => {
                if self.selected_index >= self.settings.len() {
                    return SettingsAction::StartAnalysis(self.get_cli_args());
                }
                let i = self.selected_index;
                assert(types_of(self.settings@)[i as int] == self.settings@[i as int].input_type);
                if self.settings[i].input_type == InputType::Boolean {
                    toggle_at(&mut self.settings, i);
                } else {
                    self.current_input = chars_of(self.settings[i].value.as_str());
                    self.input_mode = true;
                }
                SettingsAction::Continue
            },
            KeyCode::Esc => SettingsAction::Back,
            KeyCode::Char(c) => {
                if key.ctrl && c == 'c' {
                    SettingsAction::Exit
                } else {
                    SettingsAction::Continue
                }
            },
            _ => SettingsAction::Continue,
        }
    }

    /// The arguments the current values give, for the selected file.
    pub fn get_cli_args(&self) -> (r: CliArgs)
        requires
            self.wf(),
        ensures
            args_match(r, self.model().values, Some(self.file())),
    {
        cli_args_from(&self.settings, Some(self.selected_file.clone()))
    }

    /// The settings, in display order.
    pub fn settings(&self) -> (r: &Vec<Setting>)
        ensures
            values_of(r@) == self.model().values,
    {
        &self.settings
    }

    /// The selected row.
    pub fn selected_index(&self) -> (r: usize)
        ensures
            r == self.model().selected,
    {
        self.selected_index
    }

    /// Whether a value is being edited.
    pub fn input_mode(&self) -> (r: bool)
        ensures
            r == self.model().editing,
    {
        self.input_mode
    }

    /// The text typed so far.
    pub fn current_input(&self) -> (r: String)
        ensures
            r@ == self.model().input,
    {
        string_of(self.current_input.as_slice())
    }

    /// The file the analysis will read.
    pub fn selected_file(&self) -> (r: &PathBuf)
        ensures
            *r == self.file(),
    {
        &self.selected_file
    }
}

} // verus!
