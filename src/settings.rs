//! The application's settings and the store that holds them.
use vstd::prelude::*;

verus! {

/// The default root path: none chosen.
pub fn default_root_path() -> (r: String)
    ensures
        r@ == Seq::<char>::empty(),
{
    String::new()
}

/// The default autosave interval, in milliseconds.
pub fn default_autosave_ms() -> (r: u64)
    ensures
        r == 10_000,
{
    10_000
}

/// The persisted settings.
#[derive(Debug, Clone)]
pub struct AppSettings {
    pub default_root_path: String,
    pub autosave_ms: u64,
}

/// The settings are the defaults: no root path, autosave every ten seconds.
pub open spec fn is_default(s: AppSettings) -> bool {
    s.default_root_path@ == Seq::<char>::empty() && s.autosave_ms == 10_000
}

/// Two settings hold the same values.
pub open spec fn same_settings(a: AppSettings, b: AppSettings) -> bool {
    a.default_root_path@ == b.default_root_path@ && a.autosave_ms == b.autosave_ms
}

impl Default for AppSettings {
    fn default() -> (r: AppSettings)
        ensures
            is_default(r),
    {
        AppSettings { default_root_path: default_root_path(), autosave_ms: default_autosave_ms() }
    }
}

impl AppSettings {
    /// A field-by-field copy.
    pub fn duplicate(&self) -> (r: AppSettings)
        ensures
            same_settings(r, *self),
    {
        AppSettings {
            default_root_path: self.default_root_path.clone(),
            autosave_ms: self.autosave_ms,
        }
    }

    /// Decides what loading yields from what was read and decoded: the
    /// stored settings where there were any, else the defaults, which are
    /// then to be written back (the flag).
    pub fn from_stored(stored: Option<AppSettings>) -> (r: (AppSettings, bool))
        ensures
            stored is Some ==> same_settings(r.0, stored->0) && !r.1,
            stored is None ==> is_default(r.0) && r.1,
    {
        match stored {
            Some(s) => (s, false),
            None => (AppSettings::default(), true),
        }
    }
}

/// The settings of a running application, held for whoever needs them.
pub struct SettingsState {
    settings: AppSettings,
}

impl SettingsState {
    /// The settings held.
    pub closed spec fn current(&self) -> AppSettings {
        self.settings
    }

    /// A store holding `settings`, as loaded.
    pub fn new(settings: AppSettings) -> (r: SettingsState)
        ensures
            r.current() == settings,
    {
        SettingsState { settings }
    }

    /// Runs `f` on the settings held and returns what it returns.
    pub fn with_settings<F: FnOnce(&AppSettings) -> R, R>(&self, f: F) -> (r: R)
        requires
            f.requires((&self.current(),)),
        ensures
            f.ensures((&self.current(),), r),
    {
        f(&self.settings)
    }

    /// The default root path held.
    pub fn default_root_path(&self) -> (r: String)
        ensures
            r@ == self.current().default_root_path@,
    {
        self.settings.default_root_path.clone()
    }

    /// The autosave interval held.
    pub fn autosave_ms(&self) -> (r: u64)
        ensures
            r == self.current().autosave_ms,
    {
        self.settings.autosave_ms
    }

    /// A copy of all the settings held.
    pub fn all(&self) -> (r: AppSettings)
        ensures
            same_settings(r, self.current()),
    {
        self.settings.duplicate()
    }

    /// Replaces the default root path, leaving the rest as it was.
    pub fn set_default_root_path(&mut self, path: String)
        ensures
            final(self).current().default_root_path == path,
            final(self).current().autosave_ms == old(self).current().autosave_ms,
    {
        self.settings.default_root_path = path;
    }

    /// Replaces the autosave interval, leaving the rest as it was.
    pub fn set_autosave_ms(&mut self, ms: u64)
        ensures
            final(self).current().autosave_ms == ms,
            final(self).current().default_root_path == old(self).current().default_root_path,
    {
        self.settings.autosave_ms = ms;
    }
}

} // verus!
