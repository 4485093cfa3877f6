//! The state of the interface, and how keys change it.

use crate::config::{
    default_config, owned_bytes, Config, ConfigLocation, ConfigLocationView, ConfigView,
};
use crate::keys::{
    is_enter, key_char, letter_of, ERR, KEY_BACKSPACE, KEY_BS, KEY_CR, KEY_DEL, KEY_DOWN, KEY_END,
    KEY_ENTER, KEY_ESC, KEY_HOME, KEY_LEFT, KEY_LF, KEY_RIGHT, KEY_SPACE, KEY_UP,
};
use crate::snapshots::{groups_view, SnapshotGroups};
use crate::text::{text_of, to_text, trim, trimmed};
use std::rc::Rc;
use vstd::prelude::*;

verus! {

// ---------------------------------------------------------------------------
// State

/// How long status messages stay, in nanoseconds.
pub const STATUS_SHORT: u64 = 3_000_000_000;

pub const STATUS_MEDIUM: u64 = 5_000_000_000;

pub const STATUS_LONG: u64 = 10_000_000_000;

pub const STATUS_RESULT: u64 = 15_000_000_000;

pub const STATUS_CRITICAL: u64 = 60_000_000_000;

/// Number of entries of the settings screen.
pub const SETTINGS_COUNT: usize = 5;

/// What the interface shows.
#[derive(Debug, Clone, Copy, PartialEq, Eq, Structural)]
pub enum Screen {
    Main,
    Settings,
}

/// A message shown for a while. Times are nanoseconds since some fixed moment.
#[derive(Debug)]
pub struct Status {
    pub message: String,
    pub since: u64,
    pub lasting: u64,
}

/// A status as text.
pub struct StatusView {
    pub message: Seq<char>,
    pub since: u64,
    pub lasting: u64,
}

/// The text of an optional status.
pub open spec fn status_view(status: Option<Status>) -> Option<StatusView> {
    match status {
        Some(s) => Some(StatusView { message: s.message@, since: s.since, lasting: s.lasting }),
        None => None,
    }
}

/// Whether a status is still to be shown at the time `now`.
pub open spec fn is_current(status: StatusView, now: u64) -> bool {
    now < status.since + status.lasting
}

/// The interface.
#[derive(Debug)]
pub struct App {
    pub config: Config,
    /// Where the configuration is saved.
    pub config_path: Vec<u8>,
    /// Where it was read from, when that is somewhere else (an old location).
    pub config_read_from: Option<Vec<u8>>,
    /// uid/gid to give a config written as root into the invoking user's home.
    pub config_owner: Option<(u32, u32)>,
    pub screen: Screen,
    pub selected_row: usize,
    pub selected_col: usize,
    pub status: Option<Status>,
    pub reboot_needed: bool,
    /// The snapshots last read; None when they must be read again.
    pub snapshots_cache: Option<Rc<SnapshotGroups>>,
}

/// The interface, as values that contracts speak of.
pub struct AppView {
    pub config: ConfigView,
    pub config_path: Seq<u8>,
    pub config_read_from: Option<Seq<u8>>,
    pub config_owner: Option<(u32, u32)>,
    pub screen: Screen,
    pub selected_row: usize,
    pub selected_col: usize,
    pub status: Option<StatusView>,
    pub reboot_needed: bool,
    pub snapshots_cache: Option<Seq<(Seq<char>, Seq<Seq<char>>)>>,
}

/// The groups behind the cache.
pub open spec fn cache_view(cache: Option<Rc<SnapshotGroups>>) -> Option<
    Seq<(Seq<char>, Seq<Seq<char>>)>,
> {
    match cache {
        Some(groups) => Some(groups_view(groups@)),
        None => None,
    }
}

impl View for App {
    type V = AppView;

    open spec fn view(&self) -> AppView {
        AppView {
            config: self.config@,
            config_path: self.config_path@,
            config_read_from: owned_bytes(self.config_read_from),
            config_owner: self.config_owner,
            screen: self.screen,
            selected_row: self.selected_row,
            selected_col: self.selected_col,
            status: status_view(self.status),
            reboot_needed: self.reboot_needed,
            snapshots_cache: cache_view(self.snapshots_cache),
        }
    }
}

impl AppView {
    /// The interface at the start.
    pub open spec fn initial(location: ConfigLocationView, owner: Option<(u32, u32)>) -> AppView {
        AppView {
            config: default_config(),
            config_path: location.path,
            config_read_from: location.read_from,
            config_owner: owner,
            screen: Screen::Main,
            selected_row: 0,
            selected_col: 0,
            status: None,
            reboot_needed: false,
            snapshots_cache: None,
        }
    }

    /// The interface with another status message.
    pub open spec fn with_status(self, message: Seq<char>, lasting: u64, now: u64) -> AppView {
        AppView { status: Some(StatusView { message, since: now, lasting }), ..self }
    }

    /// The file that the configuration is read from.
    pub open spec fn source(self) -> Seq<u8> {
        match self.config_read_from {
            Some(old_path) => old_path,
            None => self.config_path,
        }
    }

    /// The interface with the configuration that was read, if it could be.
    pub open spec fn loaded(self, saved: Option<ConfigView>) -> AppView {
        match saved {
            Some(config) => AppView { config, ..self },
            None => self,
        }
    }

    /// The interface after its configuration has been saved to `config_path`,
    /// or could not be.
    pub open spec fn written(self, saved: bool) -> AppView {
        if saved {
            AppView { config_read_from: None, ..self }
        } else {
            self
        }
    }

    /// The interface without a message that has been shown long enough.
    pub open spec fn with_expired_status(self, now: u64) -> AppView {
        AppView {
            status: match self.status {
                Some(s) => if is_current(s, now) {
                    Some(s)
                } else {
                    None
                },
                None => None,
            },
            ..self
        }
    }

    /// The interface with snapshots to be read again.
    pub open spec fn stale(self) -> AppView {
        AppView { snapshots_cache: None, ..self }
    }
}

impl App {
    /// The interface at the start, with the default configuration.
    pub fn new(location: ConfigLocation, config_owner: Option<(u32, u32)>) -> (app: Self)
        ensures
            app@ == AppView::initial(location@, config_owner),
    {
        App {
            config: Config::default(),
            config_path: location.path,
            config_read_from: location.read_from,
            config_owner,
            screen: Screen::Main,
            selected_row: 0,
            selected_col: 0,
            status: None,
            reboot_needed: false,
            snapshots_cache: None,
        }
    }

    /// The file to read the configuration from.
    pub fn config_source(&self) -> (path: &Vec<u8>)
        ensures
            path@ == self@.source(),
    {
        match &self.config_read_from {
            Some(old) => old,
            None => &self.config_path,
        }
    }

    /// Takes over the configuration that was read; one that could not be read
    /// leaves the defaults.
    pub fn load_config(&mut self, saved: Option<Config>)
        ensures
            final(self)@ == old(self)@.loaded(
                match saved {
                    Some(config) => Some(config@),
                    None => None,
                },
            ),
    {
        if let Some(config) = saved {
            self.config = config;
        }
    }

    /// The configuration has been saved, or could not be: once it is under its
    /// current name, the old location no longer matters.
    pub fn config_written(&mut self, saved: bool)
        ensures
            final(self)@ == old(self)@.written(saved),
    {
        if saved {
            self.config_read_from = None;
        }
    }

    /// The snapshots in the cache, unless they must be read again.
    pub fn snapshots_cached(&self) -> (groups: Option<Rc<SnapshotGroups>>)
        ensures
            cache_view(groups) == self@.snapshots_cache,
    {
        match &self.snapshots_cache {
            Some(groups) => Some(Rc::clone(groups)),
            None => None,
        }
    }

    /// Keeps the snapshots that were read.
    pub fn store_snapshots(&mut self, groups: SnapshotGroups) -> (shared: Rc<SnapshotGroups>)
        ensures
            final(self)@ == (AppView {
                snapshots_cache: Some(groups_view(groups@)),
                ..old(self)@
            }),
            groups_view(shared@) == groups_view(groups@),
    {
        let fresh = Rc::new(groups);
        self.snapshots_cache = Some(Rc::clone(&fresh));
        fresh
    }

    /// Has the snapshots read again at the next access.
    pub fn invalidate_snapshots(&mut self)
        ensures
            final(self)@ == old(self)@.stale(),
    {
        self.snapshots_cache = None;
    }

    /// Shows a message for a while.
    pub fn set_status(&mut self, message: &str, lasting: u64, now: u64)
        ensures
            final(self)@ == old(self)@.with_status(message@, lasting, now),
    {
        self.status = Some(Status { message: message.to_owned(), since: now, lasting });
    }

    /// Drops a message that has been shown long enough.
    pub fn expire_status(&mut self, now: u64)
        ensures
            final(self)@ == old(self)@.with_expired_status(now),
    {
        let current = match &self.status {
            Some(s) => now < s.since || now - s.since < s.lasting,
            None => false,
        };
        if !current {
            self.status = None;
        }
    }
}

/// Saving keeps the settings and where they are saved. Once they are saved,
/// they are read from there, and reading the saved ones changes nothing; while
/// they could not be saved, everything is as before.
pub proof fn law_saved_settings_are_read_back(v: AppView, saved: bool)
    ensures
        v.written(saved).config == v.config,
        v.written(saved).config_path == v.config_path,
        saved ==> v.written(saved).source() == v.config_path,
        saved ==> v.written(saved).loaded(Some(v.config)) == v.written(saved),
        !saved ==> v.written(saved) == v,
{
}

// ---------------------------------------------------------------------------
// The main screen

/// `n` but at most `count` - 1; 0 when there is nothing to select.
pub open spec fn clamped(n: usize, count: nat) -> usize {
    if count == 0 {
        0
    } else if n < count {
        n
    } else {
        (count - 1) as usize
    }
}

/// How many snapshots the group at `col` has.
pub open spec fn rows_in(groups: Seq<(String, Vec<String>)>, col: usize) -> nat {
    if col < groups.len() {
        groups[col as int].1@.len()
    } else {
        0
    }
}

impl AppView {
    /// The interface with its selection inside the groups: the lists change
    /// after a refresh, a purge or a restore, and a selection outside them
    /// would be invisible.
    pub open spec fn within(self, groups: Seq<(String, Vec<String>)>) -> AppView {
        let col = clamped(self.selected_col, groups.len());
        AppView {
            selected_col: col,
            selected_row: clamped(self.selected_row, rows_in(groups, col)),
            ..self
        }
    }
}

/// What a key on the main screen asks for, beyond what it changes at once.
#[derive(Debug, Clone, Copy, PartialEq, Eq, Structural)]
pub enum MainAction {
    Nothing,
    Restore,
    Reboot,
    Purge,
    CleanBroken,
    CreateSnapshot,
}

/// What a key on the main screen asks for.
pub open spec fn main_action(key: i32) -> MainAction {
    if is_enter(key) {
        MainAction::Restore
    } else {
        match letter_of(key) {
            Some('h') => MainAction::Reboot,
            Some('p') => MainAction::Purge,
            Some('b') => MainAction::CleanBroken,
            Some('i') => MainAction::CreateSnapshot,
            _ => MainAction::Nothing,
        }
    }
}

impl AppView {
    /// The interface after a key on the main screen: the arrows, Home and End
    /// move the selection, 's' opens the settings, 'r' has the snapshots read
    /// again.
    pub open spec fn after_main_key(
        self,
        groups: Seq<(String, Vec<String>)>,
        key: i32,
        now: u64,
    ) -> AppView {
        let v = self.within(groups);
        if key == KEY_UP {
            AppView {
                selected_row: if v.selected_row > 0 {
                    (v.selected_row - 1) as usize
                } else {
                    0
                },
                ..v
            }
        } else if key == KEY_DOWN {
            (AppView { selected_row: (v.selected_row + 1) as usize, ..v }).within(groups)
        } else if key == KEY_LEFT {
            (AppView {
                selected_col: if v.selected_col > 0 {
                    (v.selected_col - 1) as usize
                } else {
                    0
                },
                ..v
            }).within(groups)
        } else if key == KEY_RIGHT {
            (AppView { selected_col: (v.selected_col + 1) as usize, ..v }).within(groups)
        } else if key == KEY_HOME {
            AppView { selected_row: 0, ..v }
        } else if key == KEY_END {
            AppView { selected_row: clamped(usize::MAX, rows_in(groups, v.selected_col)), ..v }
        } else if letter_of(key) == Some('s') {
            AppView { screen: Screen::Settings, selected_row: 0, ..v }
        } else if letter_of(key) == Some('r') {
            v.stale().with_status("Snapshots refreshed"@, STATUS_SHORT, now)
        } else {
            v
        }
    }
}

impl App {
    /// Brings the selection back inside the groups.
    pub fn clamp_selection(&mut self, groups: &SnapshotGroups)
        ensures
            final(self)@ == old(self)@.within(groups@),
    {
        let cols: usize = groups.len();
        if cols == 0 {
            self.selected_col = 0;
        } else if self.selected_col >= cols {
            self.selected_col = cols - 1;
        }
        let rows: usize = if self.selected_col < cols {
            groups[self.selected_col].1.len()
        } else {
            0
        };
        if rows == 0 {
            self.selected_row = 0;
        } else if self.selected_row >= rows {
            self.selected_row = rows - 1;
        }
    }

    /// A key on the main screen.
    pub fn handle_main_input(&mut self, groups: &SnapshotGroups, key: i32, now: u64) -> (action:
        MainAction)
        ensures
            final(self)@ == old(self)@.after_main_key(groups@, key, now),
            action == main_action(key),
    {
        self.clamp_selection(groups);
        proof {
            assert(groups.len() <= usize::MAX);
            if self.selected_col < groups@.len() {
                assert(groups@[self.selected_col as int].1.len() <= usize::MAX);
            }
        }
        if key == KEY_UP {
            if self.selected_row > 0 {
                self.selected_row = self.selected_row - 1;
            }
            MainAction::Nothing
        } else if key == KEY_DOWN {
            self.selected_row = self.selected_row + 1;
            self.clamp_selection(groups);
            MainAction::Nothing
        } else if key == KEY_LEFT {
            if self.selected_col > 0 {
                self.selected_col = self.selected_col - 1;
            }
            self.clamp_selection(groups);
            MainAction::Nothing
        } else if key == KEY_RIGHT {
            self.selected_col = self.selected_col + 1;
            self.clamp_selection(groups);
            MainAction::Nothing
        } else if key == KEY_HOME {
            self.selected_row = 0;
            MainAction::Nothing
        } else if key == KEY_END {
            self.selected_row = usize::MAX;
            self.clamp_selection(groups);
            MainAction::Nothing
        } else if key == KEY_LF || key == KEY_CR || key == KEY_ENTER {
            MainAction::Restore
        } else {
            match key_char(key) {
                Some('s') => {
                    self.screen = Screen::Settings;
                    self.selected_row = 0;
                    MainAction::Nothing
                },
                Some('r') => {
                    self.invalidate_snapshots();
                    self.set_status("Snapshots refreshed", STATUS_SHORT, now);
                    MainAction::Nothing
                },
                Some('h') => MainAction::Reboot,
                Some('p') => MainAction::Purge,
                Some('b') => MainAction::CleanBroken,
                Some('i') => MainAction::CreateSnapshot,
                _ => MainAction::Nothing,
            }
        }
    }
}

/// Whether the selection is on a snapshot, or at the start when there is none.
pub open spec fn selection_is_valid(v: AppView, groups: Seq<(String, Vec<String>)>) -> bool {
    &&& groups.len() > 0 ==> v.selected_col < groups.len()
    &&& groups.len() == 0 ==> v.selected_col == 0
    &&& rows_in(groups, v.selected_col) > 0 ==> v.selected_row < rows_in(groups, v.selected_col)
    &&& rows_in(groups, v.selected_col) == 0 ==> v.selected_row == 0
}

/// Whatever key is pressed, the selection stays on a snapshot: the cursor
/// never leaves the lists.
pub proof fn law_selection_stays_on_a_snapshot(
    v: AppView,
    groups: Seq<(String, Vec<String>)>,
    key: i32,
    now: u64,
)
    requires
        groups.len() <= usize::MAX,
        forall|i: int| 0 <= i < groups.len() ==> #[trigger] groups[i].1@.len() <= usize::MAX,
    ensures
        selection_is_valid(v.after_main_key(groups, key, now), groups),
{
    let c = v.within(groups);
    if c.selected_col < groups.len() {
        assert(groups[c.selected_col as int].1@.len() <= usize::MAX);
    }
    let right = clamped((c.selected_col + 1) as usize, groups.len());
    if right < groups.len() {
        assert(groups[right as int].1@.len() <= usize::MAX);
    }
    let left = clamped(
        if c.selected_col > 0 {
            (c.selected_col - 1) as usize
        } else {
            0
        },
        groups.len(),
    );
    if left < groups.len() {
        assert(groups[left as int].1@.len() <= usize::MAX);
    }
}

// ---------------------------------------------------------------------------
// The settings screen

/// What a key on the settings screen asks for, beyond what it changes at once.
#[derive(Debug, Clone, Copy, PartialEq, Eq, Structural)]
pub enum SettingsAction {
    Nothing,
    Edit,
    Toggle,
    Save,
}

/// What a key on the settings screen asks for in a row: Enter edits a path and
/// turns a switch.
pub open spec fn settings_action(key: i32, row: usize) -> SettingsAction {
    if is_enter(key) {
        match path_setting_at(row) {
            Some(_) => SettingsAction::Edit,
            None => SettingsAction::Toggle,
        }
    } else if key == KEY_SPACE {
        SettingsAction::Toggle
    } else if letter_of(key) == Some('s') {
        SettingsAction::Save
    } else {
        SettingsAction::Nothing
    }
}

/// A setting that is a path.
#[derive(Debug, Clone, Copy, PartialEq, Eq, Structural)]
pub enum PathSetting {
    BtrPoolDir,
    SnapshotsDir,
}

/// A setting that is on or off.
#[derive(Debug, Clone, Copy, PartialEq, Eq, Structural)]
pub enum Switch {
    AutoCleanup,
    ConfirmActions,
    ShowTimestamps,
}

/// The path setting in a row.
pub open spec fn path_setting_at(row: usize) -> Option<PathSetting> {
    if row == 0 {
        Some(PathSetting::BtrPoolDir)
    } else if row == 1 {
        Some(PathSetting::SnapshotsDir)
    } else {
        None
    }
}

/// The switch in a row.
pub open spec fn switch_at(row: usize) -> Option<Switch> {
    if row == 2 {
        Some(Switch::AutoCleanup)
    } else if row == 3 {
        Some(Switch::ConfirmActions)
    } else if row == 4 {
        Some(Switch::ShowTimestamps)
    } else {
        None
    }
}

/// The value of a switch.
pub open spec fn switch_value(config: ConfigView, switch: Switch) -> bool {
    match switch {
        Switch::AutoCleanup => config.auto_cleanup,
        Switch::ConfirmActions => config.confirm_actions,
        Switch::ShowTimestamps => config.show_timestamps,
    }
}

/// A configuration with one switch set.
pub open spec fn with_switch(config: ConfigView, switch: Switch, value: bool) -> ConfigView {
    match switch {
        Switch::AutoCleanup => ConfigView { auto_cleanup: value, ..config },
        Switch::ConfirmActions => ConfigView { confirm_actions: value, ..config },
        Switch::ShowTimestamps => ConfigView { show_timestamps: value, ..config },
    }
}

/// The name of a switch in messages.
pub open spec fn switch_name(switch: Switch) -> Seq<char> {
    match switch {
        Switch::AutoCleanup => "Auto cleanup"@,
        Switch::ConfirmActions => "Confirm actions"@,
        Switch::ShowTimestamps => "Show timestamps"@,
    }
}

/// The value of a path setting.
pub open spec fn path_value(config: ConfigView, setting: PathSetting) -> Seq<char> {
    match setting {
        PathSetting::BtrPoolDir => config.btr_pool_dir,
        PathSetting::SnapshotsDir => config.snapshots_dir,
    }
}

/// A configuration with one path set.
pub open spec fn with_path(config: ConfigView, setting: PathSetting, path: Seq<char>) -> ConfigView {
    match setting {
        PathSetting::BtrPoolDir => ConfigView { btr_pool_dir: path, ..config },
        PathSetting::SnapshotsDir => ConfigView { snapshots_dir: path, ..config },
    }
}

/// The name of a path setting in messages.
pub open spec fn path_setting_name(setting: PathSetting) -> Seq<char> {
    match setting {
        PathSetting::BtrPoolDir => "btr_pool_dir"@,
        PathSetting::SnapshotsDir => "snapshots_dir"@,
    }
}

/// "Yes" or "No".
pub open spec fn yes_no(flag: bool) -> Seq<char> {
    if flag {
        "Yes"@
    } else {
        "No"@
    }
}

/// Spells a switch's value.
pub fn yes_or_no(flag: bool) -> (word: &'static str)
    ensures
        word@ == yes_no(flag),
{
    if flag {
        "Yes"
    } else {
        "No"
    }
}

/// The name of a path setting.
pub fn path_setting_label(setting: PathSetting) -> (name: &'static str)
    ensures
        name@ == path_setting_name(setting),
{
    match setting {
        PathSetting::BtrPoolDir => "btr_pool_dir",
        PathSetting::SnapshotsDir => "snapshots_dir",
    }
}

/// The name of a switch.
pub fn switch_label(switch: Switch) -> (name: &'static str)
    ensures
        name@ == switch_name(switch),
{
    match switch {
        Switch::AutoCleanup => "Auto cleanup",
        Switch::ConfirmActions => "Confirm actions",
        Switch::ShowTimestamps => "Show timestamps",
    }
}

impl AppView {
    /// The interface after a key on the settings screen: the arrows move
    /// between its entries, ESC goes back.
    pub open spec fn after_settings_key(self, key: i32) -> AppView {
        if key == KEY_UP {
            AppView {
                selected_row: if self.selected_row > 0 {
                    (self.selected_row - 1) as usize
                } else {
                    0
                },
                ..self
            }
        } else if key == KEY_DOWN {
            AppView {
                selected_row: if self.selected_row + 1 < SETTINGS_COUNT {
                    (self.selected_row + 1) as usize
                } else {
                    (SETTINGS_COUNT - 1) as usize
                },
                ..self
            }
        } else if key == KEY_ESC {
            AppView { screen: Screen::Main, selected_row: 0, ..self }
        } else {
            self
        }
    }

    /// The interface after the selected switch, if a switch is selected, has
    /// been turned.
    pub open spec fn toggled(self) -> AppView {
        match switch_at(self.selected_row) {
            Some(switch) => AppView {
                config: with_switch(self.config, switch, !switch_value(self.config, switch)),
                ..self
            },
            None => self,
        }
    }

    /// The interface after a switch has been turned and the configuration
    /// saved, or not.
    pub open spec fn switch_saved(self, switch: Switch, saved: bool, now: u64) -> AppView {
        let news = switch_name(switch) + ": "@ + yes_no(switch_value(self.config, switch));
        if saved {
            self.with_status(news, STATUS_MEDIUM, now)
        } else {
            self.with_status(news + " (could NOT save the config file)"@, STATUS_LONG, now)
        }
    }

    /// The end of an edit: the new path, if there is one, goes into its
    /// setting.
    pub open spec fn after_edit(
        self,
        setting: PathSetting,
        confirmed: bool,
        input: Seq<char>,
        now: u64,
    ) -> (AppView, Option<Seq<char>>) {
        if confirmed && trim(input).len() > 0 {
            (
                (AppView { config: with_path(self.config, setting, trim(input)), ..self }).stale(),
                Some(trim(input)),
            )
        } else {
            (self.with_status("Edit cancelled"@, STATUS_SHORT, now), None)
        }
    }

    /// The interface after a path has been set and the configuration saved, or
    /// not.
    pub open spec fn path_saved(
        self,
        setting: PathSetting,
        saved: bool,
        exists: bool,
        now: u64,
    ) -> AppView {
        let news = "Updated "@ + path_setting_name(setting);
        if !saved {
            self.with_status(news + " but could NOT save the config file"@, STATUS_LONG, now)
        } else if exists {
            self.with_status(news, STATUS_MEDIUM, now)
        } else {
            self.with_status(news + " (WARNING: path does not exist)"@, STATUS_LONG, now)
        }
    }
}

impl App {
    /// A key on the settings screen.
    pub fn handle_settings_input(&mut self, key: i32) -> (action: SettingsAction)
        ensures
            final(self)@ == old(self)@.after_settings_key(key),
            action == settings_action(key, old(self)@.selected_row),
    {
        if key == KEY_UP {
            if self.selected_row > 0 {
                self.selected_row = self.selected_row - 1;
            }
            SettingsAction::Nothing
        } else if key == KEY_DOWN {
            if self.selected_row < SETTINGS_COUNT - 1 {
                self.selected_row = self.selected_row + 1;
            } else {
                self.selected_row = SETTINGS_COUNT - 1;
            }
            SettingsAction::Nothing
        } else if key == KEY_LF || key == KEY_CR || key == KEY_ENTER {
            match self.edited_setting() {
                Some(_) => SettingsAction::Edit,
                None => SettingsAction::Toggle,
            }
        } else if key == KEY_SPACE {
            SettingsAction::Toggle
        } else if key == KEY_ESC {
            self.screen = Screen::Main;
            self.selected_row = 0;
            SettingsAction::Nothing
        } else {
            match key_char(key) {
                Some('s') => SettingsAction::Save,
                _ => SettingsAction::Nothing,
            }
        }
    }

    /// The path setting to edit; none when the selected entry is not a path.
    pub fn edited_setting(&self) -> (setting: Option<PathSetting>)
        ensures
            setting == path_setting_at(self@.selected_row),
    {
        if self.selected_row == 0 {
            Some(PathSetting::BtrPoolDir)
        } else if self.selected_row == 1 {
            Some(PathSetting::SnapshotsDir)
        } else {
            None
        }
    }

    /// The value of a path setting.
    pub fn setting_value(&self, setting: PathSetting) -> (value: &String)
        ensures
            value@ == path_value(self@.config, setting),
    {
        match setting {
            PathSetting::BtrPoolDir => &self.config.btr_pool_dir,
            PathSetting::SnapshotsDir => &self.config.snapshots_dir,
        }
    }

    /// Turns the selected switch. The caller then saves the configuration and
    /// reports with `switch_saved`.
    pub fn toggle_setting(&mut self) -> (turned: Option<Switch>)
        ensures
            final(self)@ == old(self)@.toggled(),
            turned == switch_at(old(self)@.selected_row),
    {
        if self.selected_row == 2 {
            self.config.auto_cleanup = !self.config.auto_cleanup;
            Some(Switch::AutoCleanup)
        } else if self.selected_row == 3 {
            self.config.confirm_actions = !self.config.confirm_actions;
            Some(Switch::ConfirmActions)
        } else if self.selected_row == 4 {
            self.config.show_timestamps = !self.config.show_timestamps;
            Some(Switch::ShowTimestamps)
        } else {
            None
        }
    }

    /// Says what a switch was turned to, and whether that could be saved.
    pub fn switch_saved(&mut self, switch: Switch, saved: bool, now: u64)
        ensures
            final(self)@ == old(self)@.switch_saved(switch, saved, now),
    {
        let value = match switch {
            Switch::AutoCleanup => self.config.auto_cleanup,
            Switch::ConfirmActions => self.config.confirm_actions,
            Switch::ShowTimestamps => self.config.show_timestamps,
        };
        let mut news = switch_label(switch).to_owned();
        news.append(": ");
        news.append(yes_or_no(value));
        if saved {
            self.set_status(news.as_str(), STATUS_MEDIUM, now);
        } else {
            news.append(" (could NOT save the config file)");
            self.set_status(news.as_str(), STATUS_LONG, now);
        }
    }

    /// Says whether the configuration could be saved.
    pub fn settings_saved(&mut self, saved: bool, now: u64)
        ensures
            final(self)@ == if saved {
                old(self)@.with_status("Configuration saved"@, STATUS_MEDIUM, now)
            } else {
                old(self)@.with_status("Error: failed to save configuration"@, STATUS_LONG, now)
            },
    {
        if saved {
            self.set_status("Configuration saved", STATUS_MEDIUM, now);
        } else {
            self.set_status("Error: failed to save configuration", STATUS_LONG, now);
        }
    }

    /// Ends the editing of a path: a confirmed one that is not blank becomes
    /// the setting, and is returned; the caller then saves the configuration
    /// and reports with `path_saved`.
    pub fn finish_edit(
        &mut self,
        setting: PathSetting,
        confirmed: bool,
        input: &[char],
        now: u64,
    ) -> (new_path: Option<String>)
        ensures
            match new_path {
                Some(path) => confirmed && path@ == trim(input@) && path@.len() > 0
                    && final(self)@ == (AppView {
                    config: with_path(old(self)@.config, setting, path@),
                    ..old(self)@
                }).stale(),
                None => (!confirmed || trim(input@).len() == 0) && final(self)@ == old(
                    self,
                )@.with_status("Edit cancelled"@, STATUS_SHORT, now),
            },
            (final(self)@, text_of(new_path)) == old(self)@.after_edit(
                setting,
                confirmed,
                input@,
                now,
            ),
    {
        let entered = trimmed(input);
        if !confirmed || entered.len() == 0 {
            self.set_status("Edit cancelled", STATUS_SHORT, now);
            return None;
        }
        let path = to_text(entered);
        match setting {
            PathSetting::BtrPoolDir => {
                self.config.btr_pool_dir = path.clone();
            },
            PathSetting::SnapshotsDir => {
                self.config.snapshots_dir = path.clone();
            },
        }
        self.invalidate_snapshots();
        Some(path)
    }

    /// Says that a path was set, and whether it could be saved and exists.
    pub fn path_saved(&mut self, setting: PathSetting, saved: bool, exists: bool, now: u64)
        ensures
            final(self)@ == old(self)@.path_saved(setting, saved, exists, now),
    {
        let mut news = "Updated ".to_owned();
        news.append(path_setting_label(setting));
        if !saved {
            news.append(" but could NOT save the config file");
            self.set_status(news.as_str(), STATUS_LONG, now);
        } else if exists {
            self.set_status(news.as_str(), STATUS_MEDIUM, now);
        } else {
            news.append(" (WARNING: path does not exist)");
            self.set_status(news.as_str(), STATUS_LONG, now);
        }
    }
}

/// The line of text being entered.
#[derive(Debug)]
pub struct LineEditor {
    pub input: Vec<char>,
}

/// What a key does to the line being entered.
pub open spec fn edited(input: Seq<char>, key: i32) -> Seq<char> {
    if key == KEY_BACKSPACE || key == KEY_DEL || key == KEY_BS {
        if input.len() > 0 {
            input.drop_last()
        } else {
            input
        }
    } else if 32 <= key < 127 {
        input.push(key as char)
    } else {
        input
    }
}

/// Whether a key ends the entering of a line, and whether it confirms it.
pub open spec fn ends_edit(key: i32) -> Option<bool> {
    if is_enter(key) {
        Some(true)
    } else if key == KEY_ESC {
        Some(false)
    } else {
        None
    }
}

impl LineEditor {
    /// Nothing entered yet.
    pub fn new() -> (editor: Self)
        ensures
            editor.input@ == Seq::<char>::empty(),
    {
        LineEditor { input: Vec::new() }
    }

    /// A key while a line is entered. Returns whether the line is confirmed,
    /// once that is decided.
    pub fn press(&mut self, key: i32) -> (ended: Option<bool>)
        ensures
            ended == ends_edit(key),
            final(self).input@ == if ended is Some {
                old(self).input@
            } else {
                edited(old(self).input@, key)
            },
    {
        if key == KEY_LF || key == KEY_CR || key == KEY_ENTER {
            return Some(true);
        }
        if key == KEY_ESC {
            return Some(false);
        }
        let ghost before = self.input@;
        if key == KEY_BACKSPACE || key == KEY_DEL || key == KEY_BS {
            let _ = self.input.pop();
            proof {
                if before.len() > 0 {
                    assert(self.input@ =~= before.drop_last());
                }
            }
        } else if 32 <= key && key < 127 {
            self.input.push(key as u8 as char);
        }
        None
    }
}

/// Turning a switch twice leaves the configuration as it was.
pub proof fn law_toggling_twice_changes_nothing(v: AppView)
    ensures
        v.toggled().toggled() == v,
{
}

/// A typed character and a backspace undo each other.
pub proof fn law_backspace_undoes_a_character(input: Seq<char>, key: i32, back: i32)
    requires
        32 <= key < 127,
        back == KEY_BACKSPACE || back == KEY_DEL || back == KEY_BS,
    ensures
        edited(edited(input, key), back) == input,
{
    assert(input.push(key as char).drop_last() =~= input);
}

/// The selection on the settings screen stays on one of its entries.
pub proof fn law_settings_selection_stays_in_range(v: AppView, key: i32)
    requires
        v.selected_row < SETTINGS_COUNT,
    ensures
        v.after_settings_key(key).selected_row < SETTINGS_COUNT,
{
}

// ---------------------------------------------------------------------------
// Keys

/// Where a key goes.
#[derive(Debug, Clone, Copy, PartialEq, Eq, Structural)]
pub enum Route {
    /// No key was pressed.
    Nowhere,
    Quit,
    Main,
    Settings,
}

/// Where a key goes: 'q' quits, any other belongs to the screen that is shown.
pub open spec fn route_of(screen: Screen, key: i32) -> Route {
    if key == ERR {
        Route::Nowhere
    } else if letter_of(key) == Some('q') {
        Route::Quit
    } else {
        match screen {
            Screen::Main => Route::Main,
            Screen::Settings => Route::Settings,
        }
    }
}

impl App {
    /// Where a key goes.
    pub fn route(&self, key: i32) -> (route: Route)
        ensures
            route == route_of(self@.screen, key),
    {
        if key == ERR {
            return Route::Nowhere;
        }
        match key_char(key) {
            Some('q') => Route::Quit,
            _ => match self.screen {
                Screen::Main => Route::Main,
                Screen::Settings => Route::Settings,
            },
        }
    }
}

/// Every key but 'q' works on the main screen even without snapshots: the
/// settings, where a wrong path is mended, can always be reached.
pub proof fn law_settings_can_be_reached(v: AppView, key: i32, now: u64)
    requires
        letter_of(key) == Some('s'),
    ensures
        route_of(Screen::Main, key) == Route::Main,
        v.after_main_key(Seq::empty(), key, now).screen == Screen::Settings,
{
}

// ---------------------------------------------------------------------------
// What keys and messages do, said of the state itself

/// The view of the interface shows its fields.
pub proof fn law_view_of_the_interface_shows_its_fields(app: App, status: Status, config: Config)
    ensures
        app@.config == app.config@,
        app@.config_path == app.config_path@,
        app.config_read_from is None ==> app@.config_read_from is None,
        app.config_read_from matches Some(path) ==> app@.config_read_from == Some(path@),
        app@.config_owner == app.config_owner,
        app@.screen == app.screen,
        app@.selected_row == app.selected_row,
        app@.selected_col == app.selected_col,
        app.status is None ==> app@.status is None,
        app.status matches Some(status) ==> app@.status == Some(
            StatusView { message: status.message@, since: status.since, lasting: status.lasting },
        ),
        app@.reboot_needed == app.reboot_needed,
        app.snapshots_cache is None ==> app@.snapshots_cache is None,
        app.snapshots_cache matches Some(groups) ==> app@.snapshots_cache == Some(
            groups_view(groups@),
        ),
        config@.btr_pool_dir == config.btr_pool_dir@,
        config@.snapshots_dir == config.snapshots_dir@,
        config@.auto_cleanup == config.auto_cleanup,
        config@.confirm_actions == config.confirm_actions,
        config@.show_timestamps == config.show_timestamps,
        config@.theme == config.theme@,
{
}

/// The interface begins on the main screen, at the first snapshot, with the
/// default settings, nothing to say and nothing read.
pub proof fn law_interface_begins_afresh(location: ConfigLocationView, owner: Option<(u32, u32)>)
    ensures
        ({
            let v = AppView::initial(location, owner);
            &&& v.config == default_config()
            &&& v.config_path == location.path
            &&& v.config_read_from == location.read_from
            &&& v.config_owner == owner
            &&& v.screen == Screen::Main
            &&& v.selected_row == 0
            &&& v.selected_col == 0
            &&& v.status is None
            &&& !v.reboot_needed
            &&& v.snapshots_cache is None
        }),
{
}

/// A message is shown from the moment it is set, for as long as it is meant to
/// last, and replaces the one before; nothing else changes.
pub proof fn law_messages_last_their_time(
    v: AppView,
    message: Seq<char>,
    lasting: u64,
    now: u64,
    later: u64,
)
    ensures
        ({
            let said = v.with_status(message, lasting, now);
            &&& (AppView { status: v.status, ..said }) == v
            &&& said.status == Some(StatusView { message, since: now, lasting })
            &&& later - now < lasting ==> said.with_expired_status(later) == said
            &&& later - now >= lasting ==> said.with_expired_status(later) == (AppView {
                status: None,
                ..v
            })
        }),
        v.status is None ==> v.with_expired_status(later) == v,
        STATUS_SHORT == 3 * 1_000_000_000,
        STATUS_MEDIUM == 5 * 1_000_000_000,
        STATUS_LONG == 10 * 1_000_000_000,
        STATUS_RESULT == 15 * 1_000_000_000,
        STATUS_CRITICAL == 60 * 1_000_000_000,
{
}

/// What is stale is read again, and nothing else changes; what was read of the
/// settings replaces them, and without any they stay.
pub proof fn law_stale_and_loaded_change_one_thing(v: AppView, config: ConfigView)
    ensures
        v.stale().snapshots_cache is None,
        (AppView { snapshots_cache: v.snapshots_cache, ..v.stale() }) == v,
        v.loaded(Some(config)).config == config,
        (AppView { config: v.config, ..v.loaded(Some(config)) }) == v,
        v.loaded(None) == v,
        v.written(true).config_read_from is None,
        (AppView { config_read_from: v.config_read_from, ..v.written(true) }) == v,
        v.config_read_from is None ==> v.source() == v.config_path,
        v.config_read_from matches Some(old) ==> v.source() == old,
{
}

/// How many snapshots a column has, said of the groups.
pub proof fn law_columns_have_their_snapshots(groups: Seq<(String, Vec<String>)>, col: usize)
    ensures
        col < groups.len() ==> rows_in(groups, col) == groups[col as int].1@.len(),
        col >= groups.len() ==> rows_in(groups, col) == 0,
{
}

/// A selection on a snapshot stays where it is; one that is off the lists comes
/// back to the nearest snapshot. Nothing else changes.
pub proof fn law_selection_is_kept_on_the_lists(v: AppView, groups: Seq<(String, Vec<String>)>)
    requires
        groups.len() <= usize::MAX,
        forall|i: int| 0 <= i < groups.len() ==> #[trigger] groups[i].1@.len() <= usize::MAX,
    ensures
        ({
            let w = v.within(groups);
            let col = w.selected_col as int;
            &&& (AppView { selected_col: v.selected_col, selected_row: v.selected_row, ..w }) == v
            &&& v.selected_col < groups.len() ==> col == v.selected_col
            &&& v.selected_col >= groups.len() > 0 ==> col == groups.len() - 1
            &&& groups.len() == 0 ==> col == 0 && w.selected_row == 0
            &&& groups.len() > 0 && v.selected_row < groups[col].1@.len() ==> w.selected_row
                == v.selected_row
            &&& groups.len() > 0 && v.selected_row >= groups[col].1@.len() > 0 ==> w.selected_row
                == groups[col].1@.len() - 1
            &&& groups.len() > 0 && groups[col].1@.len() == 0 ==> w.selected_row == 0
        }),
{
    let col = v.within(groups).selected_col as int;
    if col < groups.len() {
        assert(groups[col].1@.len() <= usize::MAX);
    }
}

/// The arrows go one snapshot or one column further, as far as there is one;
/// Home and End go to the ends of the column. `v` has a snapshot selected.
pub proof fn law_arrows_move_the_selection(
    v: AppView,
    groups: Seq<(String, Vec<String>)>,
    now: u64,
)
    requires
        groups.len() <= usize::MAX,
        forall|i: int|
            0 <= i < groups.len() ==> 0 < #[trigger] groups[i].1@.len() <= usize::MAX,
        v.selected_col < groups.len(),
        v.selected_row < groups[v.selected_col as int].1@.len(),
    ensures
        ({
            let rows = groups[v.selected_col as int].1@.len();
            let (row, col) = (v.selected_row as int, v.selected_col as int);
            let up = v.after_main_key(groups, 259, now);
            let down = v.after_main_key(groups, 258, now);
            let left = v.after_main_key(groups, 260, now);
            let right = v.after_main_key(groups, 261, now);
            let home = v.after_main_key(groups, 262, now);
            let end = v.after_main_key(groups, 360, now);
            &&& up == (AppView { selected_row: up.selected_row, ..v })
            &&& up.selected_row == if row > 0 {
                row - 1
            } else {
                0
            }
            &&& down == (AppView { selected_row: down.selected_row, ..v })
            &&& down.selected_row == if row + 1 < rows {
                row + 1
            } else {
                row
            }
            &&& home == (AppView { selected_row: 0, ..v })
            &&& end == (AppView { selected_row: end.selected_row, ..v })
            &&& end.selected_row == rows - 1
            &&& left == (AppView {
                selected_col: left.selected_col,
                selected_row: left.selected_row,
                ..v
            })
            &&& left.selected_col == if col > 0 {
                col - 1
            } else {
                0
            }
            &&& right == (AppView {
                selected_col: right.selected_col,
                selected_row: right.selected_row,
                ..v
            })
            &&& right.selected_col == if col + 1 < groups.len() {
                col + 1
            } else {
                col
            }
            &&& row < groups[left.selected_col as int].1@.len() ==> left.selected_row == row
            &&& row < groups[right.selected_col as int].1@.len() ==> right.selected_row == row
            &&& row >= groups[left.selected_col as int].1@.len() ==> left.selected_row
                == groups[left.selected_col as int].1@.len() - 1
            &&& row >= groups[right.selected_col as int].1@.len() ==> right.selected_row
                == groups[right.selected_col as int].1@.len() - 1
        }),
{
    assert(0 < groups[v.selected_col as int].1@.len() <= usize::MAX);
    if v.selected_col > 0 {
        assert(0 < groups[v.selected_col - 1].1@.len() <= usize::MAX);
    }
    if v.selected_col + 1 < groups.len() {
        assert(0 < groups[v.selected_col + 1].1@.len() <= usize::MAX);
    }
}

/// On the main screen S opens the settings, R reads the snapshots again, and
/// any other key but the arrows, Home and End only keeps the selection on the
/// lists.
pub proof fn law_other_keys_of_the_main_screen(
    v: AppView,
    groups: Seq<(String, Vec<String>)>,
    key: i32,
    now: u64,
)
    requires
        !(258 <= key <= 262) && key != 360,
    ensures
        key == 's' as int || key == 'S' as int ==> v.after_main_key(groups, key, now) == (AppView {
            screen: Screen::Settings,
            selected_row: 0,
            ..v.within(groups)
        }),
        key == 'r' as int || key == 'R' as int ==> v.after_main_key(groups, key, now) == (AppView {
            snapshots_cache: None,
            status: Some(
                StatusView {
                    message: "Snapshots refreshed"@,
                    since: now,
                    lasting: 3_000_000_000,
                },
            ),
            ..v.within(groups)
        }),
        key != 's' as int && key != 'S' as int && key != 'r' as int && key != 'R' as int
            ==> v.after_main_key(groups, key, now) == v.within(groups),
{
}

/// Each key of the main screen asks for one thing: Enter for a restore, H for a
/// reboot, P for a purge, B for a cleanup, I for new snapshots, and any other
/// for nothing.
pub proof fn law_keys_ask_for_actions(key: i32)
    ensures
        main_action(key) == MainAction::Restore <==> key == 10 || key == 13 || key == 343,
        main_action(key) == MainAction::Reboot <==> key == 'h' as int || key == 'H' as int,
        main_action(key) == MainAction::Purge <==> key == 'p' as int || key == 'P' as int,
        main_action(key) == MainAction::CleanBroken <==> key == 'b' as int || key == 'B' as int,
        main_action(key) == MainAction::CreateSnapshot <==> key == 'i' as int || key == 'I' as int,
{
}

/// Q leaves from either screen; without a key nothing happens; any other key
/// goes to the screen that is shown.
pub proof fn law_keys_go_to_their_screen(screen: Screen, key: i32)
    ensures
        route_of(screen, key) == Route::Nowhere <==> key == -1,
        route_of(screen, key) == Route::Quit <==> key == 'q' as int || key == 'Q' as int,
        route_of(screen, key) == Route::Main ==> screen == Screen::Main,
        route_of(screen, key) == Route::Settings ==> screen == Screen::Settings,
{
}

/// The settings are the two paths and then the three switches, one in a row.
pub proof fn law_settings_have_their_rows(row: usize)
    ensures
        path_setting_at(row) == Some(PathSetting::BtrPoolDir) <==> row == 0,
        path_setting_at(row) == Some(PathSetting::SnapshotsDir) <==> row == 1,
        switch_at(row) == Some(Switch::AutoCleanup) <==> row == 2,
        switch_at(row) == Some(Switch::ConfirmActions) <==> row == 3,
        switch_at(row) == Some(Switch::ShowTimestamps) <==> row == 4,
        SETTINGS_COUNT == 5,
{
}

/// On the settings screen Enter edits a path and turns a switch, the space bar
/// turns a switch, S saves, and any other key asks for nothing.
pub proof fn law_keys_ask_for_settings(key: i32, row: usize)
    ensures
        settings_action(key, row) == SettingsAction::Edit <==> (key == 10 || key == 13 || key
            == 343) && row <= 1,
        settings_action(key, row) == SettingsAction::Toggle <==> key == 32 || (key == 10 || key
            == 13 || key == 343) && row > 1,
        settings_action(key, row) == SettingsAction::Save <==> key == 's' as int || key
            == 'S' as int,
{
}

/// On the settings screen the arrows go up and down the entries, Escape goes
/// back to the main screen, and no other key changes anything.
pub proof fn law_keys_move_among_the_settings(v: AppView, key: i32)
    requires
        v.selected_row < 5,
    ensures
        key == 259 ==> v.after_settings_key(key) == (AppView {
            selected_row: if v.selected_row > 0 {
                (v.selected_row - 1) as usize
            } else {
                0
            },
            ..v
        }),
        key == 258 ==> v.after_settings_key(key) == (AppView {
            selected_row: if v.selected_row < 4 {
                (v.selected_row + 1) as usize
            } else {
                4
            },
            ..v
        }),
        key == 27 ==> v.after_settings_key(key) == (AppView {
            screen: Screen::Main,
            selected_row: 0,
            ..v
        }),
        key != 259 && key != 258 && key != 27 ==> v.after_settings_key(key) == v,
{
}

/// Turning a switch turns the one in the selected row and nothing else; in a
/// row without a switch nothing is turned.
pub proof fn law_the_selected_switch_is_turned(v: AppView)
    ensures
        ({
            let c = v.toggled().config;
            &&& (AppView { config: v.config, ..v.toggled() }) == v
            &&& (c.auto_cleanup != v.config.auto_cleanup) == (v.selected_row == 2)
            &&& (c.confirm_actions != v.config.confirm_actions) == (v.selected_row == 3)
            &&& (c.show_timestamps != v.config.show_timestamps) == (v.selected_row == 4)
            &&& c.btr_pool_dir == v.config.btr_pool_dir
            &&& c.snapshots_dir == v.config.snapshots_dir
            &&& c.theme == v.config.theme
        }),
{
}

/// A new path goes into its own setting and into no other, and is what that
/// setting then holds.
pub proof fn law_a_path_goes_into_its_setting(
    config: ConfigView,
    setting: PathSetting,
    path: Seq<char>,
)
    ensures
        ({
            let c = with_path(config, setting, path);
            &&& path_value(c, setting) == path
            &&& setting == PathSetting::BtrPoolDir ==> c == (ConfigView {
                btr_pool_dir: path,
                ..config
            })
            &&& setting == PathSetting::SnapshotsDir ==> c == (ConfigView {
                snapshots_dir: path,
                ..config
            })
        }),
        path_value(config, PathSetting::BtrPoolDir) == config.btr_pool_dir,
        path_value(config, PathSetting::SnapshotsDir) == config.snapshots_dir,
{
}

/// What is said of a switch names it and its new value, and warns if it could
/// not be saved.
pub proof fn law_switches_are_reported(v: AppView, switch: Switch, saved: bool, now: u64)
    ensures
        ({
            let on = match switch {
                Switch::AutoCleanup => v.config.auto_cleanup,
                Switch::ConfirmActions => v.config.confirm_actions,
                Switch::ShowTimestamps => v.config.show_timestamps,
            };
            let name = match switch {
                Switch::AutoCleanup => "Auto cleanup"@,
                Switch::ConfirmActions => "Confirm actions"@,
                Switch::ShowTimestamps => "Show timestamps"@,
            };
            let news = name + ": "@ + if on {
                "Yes"@
            } else {
                "No"@
            };
            let said = v.switch_saved(switch, saved, now);
            &&& (AppView { status: v.status, ..said }) == v
            &&& saved ==> said.status == Some(
                StatusView { message: news, since: now, lasting: 5_000_000_000 },
            )
            &&& !saved ==> said.status == Some(
                StatusView {
                    message: news + " (could NOT save the config file)"@,
                    since: now,
                    lasting: 10_000_000_000,
                },
            )
        }),
{
}

/// What is said of a new path names the setting, and warns if it could not be
/// saved or leads nowhere.
pub proof fn law_paths_are_reported(
    v: AppView,
    setting: PathSetting,
    saved: bool,
    exists: bool,
    now: u64,
)
    ensures
        ({
            let news = "Updated "@ + match setting {
                PathSetting::BtrPoolDir => "btr_pool_dir"@,
                PathSetting::SnapshotsDir => "snapshots_dir"@,
            };
            let said = v.path_saved(setting, saved, exists, now);
            &&& (AppView { status: v.status, ..said }) == v
            &&& saved && exists ==> said.status == Some(
                StatusView { message: news, since: now, lasting: 5_000_000_000 },
            )
            &&& saved && !exists ==> said.status == Some(
                StatusView {
                    message: news + " (WARNING: path does not exist)"@,
                    since: now,
                    lasting: 10_000_000_000,
                },
            )
            &&& !saved ==> said.status == Some(
                StatusView {
                    message: news + " but could NOT save the config file"@,
                    since: now,
                    lasting: 10_000_000_000,
                },
            )
        }),
{
}

/// An edit puts what was typed, without white space around it, into the
/// setting, and has the snapshots read again; one that is given up or holds
/// nothing leaves everything as it was but the message.
pub proof fn law_edits_are_kept_if_confirmed(
    v: AppView,
    setting: PathSetting,
    confirmed: bool,
    input: Seq<char>,
    now: u64,
)
    ensures
        ({
            let (w, path) = v.after_edit(setting, confirmed, input, now);
            &&& path is Some <==> confirmed && trim(input).len() > 0
            &&& path is Some ==> path == Some(trim(input)) && w == (AppView {
                config: with_path(v.config, setting, trim(input)),
                snapshots_cache: None,
                ..v
            })
            &&& path is None ==> w == (AppView {
                status: Some(
                    StatusView {
                        message: "Edit cancelled"@,
                        since: now,
                        lasting: 3_000_000_000,
                    },
                ),
                ..v
            })
        }),
{
}

/// In a line being edited, printable ASCII is added at the end, the three codes
/// of backspace take the last character away, Enter and Escape end the edit, and
/// nothing else changes it.
pub proof fn law_typing_edits_the_line(input: Seq<char>, key: i32)
    ensures
        32 <= key <= 126 ==> edited(input, key) == input.push(key as char),
        (key == 8 || key == 127 || key == 263) && input.len() > 0 ==> edited(input, key)
            == input.drop_last(),
        (key == 8 || key == 127 || key == 263) && input.len() == 0 ==> edited(input, key) == input,
        !(32 <= key <= 126) && key != 8 && key != 127 && key != 263 ==> edited(input, key)
            == input,
        ends_edit(key) == Some(true) <==> key == 10 || key == 13 || key == 343,
        ends_edit(key) == Some(false) <==> key == 27,
{
}

/// The words for on and off.
pub proof fn law_switches_are_yes_or_no(switch: Switch, setting: PathSetting)
    ensures
        yes_no(true) == "Yes"@,
        yes_no(false) == "No"@,
        switch_name(Switch::AutoCleanup) == "Auto cleanup"@,
        switch_name(Switch::ConfirmActions) == "Confirm actions"@,
        switch_name(Switch::ShowTimestamps) == "Show timestamps"@,
        path_setting_name(PathSetting::BtrPoolDir) == "btr_pool_dir"@,
        path_setting_name(PathSetting::SnapshotsDir) == "snapshots_dir"@,
{
}

} // verus!
