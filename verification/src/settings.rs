//! The settings of the application: where they are stored and where the
//! journals are.

use vstd::prelude::*;
use std::path::PathBuf;

verus! {

/// The settings that are saved: the directory of the journals.
#[derive(Debug, Clone)]
pub struct SettingsData {
    pub journals_path: PathBuf,
}

/// The settings together with the path of the file that stores them.
#[derive(Debug, Clone)]
pub struct Settings {
    path: PathBuf,
    settings: SettingsData,
}

/// What settings hold: the file that stores them and the journals directory.
pub struct SettingsView {
    pub path: PathBuf,
    pub journals_path: PathBuf,
}

impl View for Settings {
    type V = SettingsView;

    closed spec fn view(&self) -> SettingsView {
        SettingsView { path: self.path, journals_path: self.settings.journals_path }
    }
}

/// Reading the journals directory gives back what was last set, and setting
/// it leaves the file of the settings where it was.
pub proof fn lemma_set_then_get(s: SettingsView, p: PathBuf)
    ensures
        (SettingsView { journals_path: p, ..s }).journals_path == p,
        (SettingsView { journals_path: p, ..s }).path == s.path,
{
}

impl Settings {
    /// Settings stored at `path` with the values `settings`.
    pub fn new(path: PathBuf, settings: SettingsData) -> (s: Settings)
        ensures
            s@.path == path,
            s@.journals_path == settings.journals_path,
    {
        Settings { path, settings }
    }

    /// The directory of the journals.
    pub fn journals_path(&self) -> (p: PathBuf)
        ensures
            p == self@.journals_path,
    {
        self.settings.journals_path.clone()
    }

    /// Sets the directory of the journals.
    pub fn set_journals_path(&mut self, path: PathBuf)
        ensures
            final(self)@ == (SettingsView { journals_path: path, ..old(self)@ }),
    {
        self.settings.journals_path = path;
    }

    /// The path of the file that stores the settings.
    pub fn path(&self) -> (p: PathBuf)
        ensures
            p == self@.path,
    {
        self.path.clone()
    }

    /// The values that are saved.
    pub fn data(&self) -> (d: &SettingsData)
        ensures
            d.journals_path == self@.journals_path,
    {
        &self.settings
    }
}

} // verus!
