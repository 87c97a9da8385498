use vstd::prelude::*;

use crate::cli::GroupBy;
use crate::period::{PeriodInput, PresetPeriod};

verus! {

/// The name of the application, for its directories.
pub const APP_NAME: &'static str = "boat";

/// The environment variable that names the configuration file.
pub const CONFIG_VAR: &'static str = "BOAT_CONFIG";

/// The file name of the configuration.
pub const DEFAULT_CONFIG_PATH: &'static str = "config.toml";

/// The file name of the database, beside the configuration.
pub const DEFAULT_DB_FILE: &'static str = "boat.db";

/// The output format of the commands.
#[derive(Clone, Copy, Debug, PartialEq, Eq, Structural)]
pub enum OutputFormat {
    Plain,
    Json,
    Csv,
}

impl Default for OutputFormat {
    fn default() -> (r: Self)
        ensures
            r == OutputFormat::Plain,
    {
        OutputFormat::Plain
    }
}

/// Configuration values for the new command.
pub struct NewCommandConfig {
    /// Start the new activity automatically.
    pub auto_start: bool,
}

/// Configuration values for the start command.
pub struct StartCommandConfig {
    /// Create and start an activity named by a handle that is not an id.
    pub quick_start: bool,
}

/// Configuration values for the cancel command.
pub struct CancelCommandConfig {
    /// Ask before cancelling the current activity.
    pub confirm: bool,
}

/// Configuration values for the pause command.
pub struct PauseCommandConfig;

/// Configuration values for the modify command.
pub struct ModifyCommandConfig;

/// Configuration values for the edit command.
pub struct EditCommandConfig {
    /// Restrict to entries of this period.
    pub period: Option<PeriodInput>,
    /// Put instruction comments in the edited file.
    pub show_instructions: bool,
    /// Put activity definitions in the edited file.
    pub show_activity_definitions: bool,
    /// Ask before applying changes.
    pub confirm: bool,
}

/// Configuration values for the delete command.
pub struct DeleteCommandConfig {
    /// Ask before deleting an activity and its logs.
    pub confirm: bool,
}

/// Configuration values for the get command.
pub struct GetCommandConfig;

/// Configuration values for the list command.
pub struct ListCommandConfig {
    /// Restrict to entries of this period.
    pub period: Option<PeriodInput>,
    /// Group the listed logs so.
    pub group_by: Option<GroupBy>,
}

/// Configuration values for the report command.
pub struct ReportCommandConfig {
    /// Restrict to entries of this period.
    pub period: Option<PeriodInput>,
    /// The columns to show.
    pub fields: Option<Vec<String>>,
}

/// Configuration values of the commands.
pub struct CommandsConfig {
    pub new: NewCommandConfig,
    pub start: StartCommandConfig,
    pub cancel: CancelCommandConfig,
    pub edit: EditCommandConfig,
    pub delete: DeleteCommandConfig,
    pub list: ListCommandConfig,
    pub report: ReportCommandConfig,
}

/// The configuration of the application.
pub struct Configuration {
    /// Path of the SQLite database file.
    pub database_path: String,
    /// Default period of the commands.
    pub period: Option<PeriodInput>,
    /// Default output format.
    pub format: OutputFormat,
    /// Configuration values of the commands.
    pub commands: CommandsConfig,
}

/// The directory part of a path, as `std::path::Path::parent` gives it.
pub uninterp spec fn std_path_parent(p: Seq<char>) -> Option<Seq<char>>;

/// A path joined to a directory, as `std::path::Path::join` gives it.
pub uninterp spec fn std_path_join(dir: Seq<char>, file: Seq<char>) -> Seq<char>;

/// std's `Path::parent` on a path given as text: the path without its last
/// component, none for a root, a prefix or the empty path. What it gives is
/// named, not written out.
#[verifier::external_body]
fn path_parent(p: &str) -> (r: Option<String>)
    ensures
        match (r, std_path_parent(p@)) {
            (Some(x), Some(y)) => x@ == y,
            (None, None) => true,
            _ => false,
        },
{
    std::path::Path::new(p).parent().map(|q| q.to_string_lossy().into_owned())
}

/// std's `Path::join` of two paths given as text. What it gives is named,
/// not written out.
#[verifier::external_body]
fn path_join(dir: &str, file: &str) -> (r: String)
    ensures
        r@ == std_path_join(dir@, file@),
{
    std::path::Path::new(dir).join(file).to_string_lossy().into_owned()
}

impl Configuration {
    /// Whether this is the default configuration, its database `db` beside
    /// the configuration file: all time as the period, plain output, quick
    /// start on, confirmations asked, listings of this month grouped by day,
    /// reports of today.
    pub open spec fn is_default_with(&self, db: Seq<char>) -> bool {
        &&& self.database_path@ == db
        &&& self.period == Some(PeriodInput::Preset(PresetPeriod::AllTime))
        &&& self.format == OutputFormat::Plain
        &&& !self.commands.new.auto_start
        &&& self.commands.start.quick_start
        &&& self.commands.cancel.confirm
        &&& self.commands.edit.period is None
        &&& self.commands.edit.show_instructions
        &&& self.commands.edit.show_activity_definitions
        &&& self.commands.edit.confirm
        &&& self.commands.delete.confirm
        &&& self.commands.list.period == Some(PeriodInput::Preset(PresetPeriod::ThisMonth))
        &&& self.commands.list.group_by == Some(GroupBy::Day)
        &&& self.commands.report.period == Some(PeriodInput::Preset(PresetPeriod::Today))
        &&& self.commands.report.fields is None
    }

    /// The default configuration for the configuration file `config_file`:
    /// the database `boat.db` in the file's directory; an error when the
    /// path has no directory.
    pub fn create_default(config_file: &str) -> (r: Result<Configuration, String>)
        ensures
            match std_path_parent(config_file@) {
                Some(dir) => r matches Ok(c) && c.is_default_with(std_path_join(dir, "boat.db"@)),
                None => r matches Err(e) && e@ == "config file should have a parent directory"@,
            },
    {
        let dir = match path_parent(config_file) {
            Some(d) => d,
            None => return Err(String::from_str("config file should have a parent directory")),
        };
        let database_path = path_join(dir.as_str(), DEFAULT_DB_FILE);
        Ok(
            Configuration {
                database_path,
                period: Some(PeriodInput::Preset(PresetPeriod::AllTime)),
                format: OutputFormat::Plain,
                commands: CommandsConfig {
                    new: NewCommandConfig { auto_start: false },
                    start: StartCommandConfig { quick_start: true },
                    cancel: CancelCommandConfig { confirm: true },
                    edit: EditCommandConfig {
                        period: None,
                        show_instructions: true,
                        show_activity_definitions: true,
                        confirm: true,
                    },
                    delete: DeleteCommandConfig { confirm: true },
                    list: ListCommandConfig {
                        period: Some(PeriodInput::Preset(PresetPeriod::ThisMonth)),
                        group_by: Some(GroupBy::Day),
                    },
                    report: ReportCommandConfig { period: Some(PeriodInput::Preset(PresetPeriod::Today)), fields: None },
                },
            },
        )
    }
}

} // verus!
