//! The settings of the backup tool and how a run changes them.

use crate::error::BackupError;
use crate::retention::Timestamp;
use vstd::prelude::*;

verus! {

/// The number of days that backups are kept where nothing else is set.
pub const DEFAULT_RETENTION_DAYS: u32 = 7;

/// The number of hours between two scheduled backups where nothing else is
/// set.
pub const DEFAULT_BACKUP_INTERVAL_HOURS: u32 = 6;

/// The settings.
#[derive(Debug, PartialEq, Eq)]
pub struct Config {
    /// Whether the tool has been set up.
    pub initialized: bool,
    /// The address of the remote repository, once there is one.
    pub github_repo: Option<String>,
    /// When the last backup was made, if any was.
    pub last_backup: Option<Timestamp>,
    /// The retention period, in days.
    pub retention_days: u32,
    /// The time between two scheduled backups, in hours.
    pub backup_interval_hours: u32,
}

impl Default for Config {
    /// The settings before the tool is set up.
    fn default() -> (config: Config)
        ensures
            !config.initialized,
            config.github_repo is None,
            config.last_backup is None,
            config.retention_days == DEFAULT_RETENTION_DAYS,
            config.backup_interval_hours == DEFAULT_BACKUP_INTERVAL_HOURS,
    {
        Config {
            initialized: false,
            github_repo: None,
            last_backup: None,
            retention_days: DEFAULT_RETENTION_DAYS,
            backup_interval_hours: DEFAULT_BACKUP_INTERVAL_HOURS,
        }
    }
}

impl Config {
    /// The settings in force: those that were stored, or the default ones
    /// where none were.
    pub fn load(stored: Option<Config>) -> (config: Config)
        ensures
            stored matches Some(found) ==> config == found,
            stored is None ==> {
                &&& !config.initialized
                &&& config.github_repo is None
                &&& config.last_backup is None
                &&& config.retention_days == DEFAULT_RETENTION_DAYS
                &&& config.backup_interval_hours == DEFAULT_BACKUP_INTERVAL_HOURS
            },
    {
        match stored {
            Some(found) => found,
            None => Config::default(),
        }
    }

    /// Whether backups can be made: only once the tool is set up.
    pub fn require_initialized(&self) -> (res: Result<(), BackupError>)
        ensures
            self.initialized ==> res is Ok,
            !self.initialized ==> res == Err::<(), BackupError>(BackupError::NotInitialized),
    {
        if self.initialized {
            Ok(())
        } else {
            Err(BackupError::NotInitialized)
        }
    }

    /// Records that the tool has been set up, with the remote repository
    /// where there is one. The other settings stay.
    pub fn set_initialized(&mut self, github_repo: Option<String>)
        ensures
            final(self).initialized,
            final(self).github_repo == github_repo,
            final(self).last_backup == old(self).last_backup,
            final(self).retention_days == old(self).retention_days,
            final(self).backup_interval_hours == old(self).backup_interval_hours,
    {
        self.initialized = true;
        self.github_repo = github_repo;
    }

    /// Records that a backup was made at `now`. The other settings stay.
    pub fn update_last_backup(&mut self, now: Timestamp)
        ensures
            final(self).last_backup == Some(now),
            final(self).initialized == old(self).initialized,
            final(self).github_repo == old(self).github_repo,
            final(self).retention_days == old(self).retention_days,
            final(self).backup_interval_hours == old(self).backup_interval_hours,
    {
        self.last_backup = Some(now);
    }
}

} // verus!
