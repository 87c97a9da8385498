use vstd::prelude::*;

use crate::models::Id;
use crate::period::PeriodInput;

verus! {

/// How listed logs are grouped.
#[derive(Clone, Copy, Debug, PartialEq, Eq, Structural)]
pub enum GroupBy {
    Ungrouped,
    Day,
    Week,
    Month,
    Year,
}

impl Default for GroupBy {
    fn default() -> (r: Self)
        ensures
            r == GroupBy::Ungrouped,
    {
        GroupBy::Ungrouped
    }
}

/// How listed entries are sorted.
#[derive(Clone, Copy, Debug, PartialEq, Eq, Structural)]
pub enum SortBy {
    Unsorted,
}

impl Default for SortBy {
    fn default() -> (r: Self)
        ensures
            r == SortBy::Unsorted,
    {
        SortBy::Unsorted
    }
}

/// Arguments of the commands that filter activities: `list` and `report`.
pub struct FilterActivitiesArgs {
    pub period: Option<PeriodInput>,
    pub group_by: Option<GroupBy>,
    pub use_json_format: bool,
    pub filter_by_tags: Option<Vec<String>>,
    pub fields: Option<Vec<String>>,
}

/// Arguments of the command that lists stored objects.
pub struct ListArgs {
    pub use_json_format: bool,
}

/// Arguments of the command that prints the current activity.
pub struct PrintActivityArgs {
    pub use_json_format: bool,
}

impl Default for PrintActivityArgs {
    fn default() -> (r: Self)
        ensures
            !r.use_json_format,
    {
        PrintActivityArgs { use_json_format: false }
    }
}

/// Arguments of the command that starts an activity: an id, or the name of
/// an activity to create.
pub struct StartActivityArgs {
    pub activity_handle: String,
}

/// Arguments of the commands that select one activity by id.
pub struct SelectActivityArgs {
    pub activity_id: Id,
}

/// Arguments of the command that creates an activity.
pub struct CreateActivityArgs {
    pub name: String,
    pub description: Option<String>,
    pub tags: Vec<String>,
    pub auto_start: bool,
    pub no_auto_start: bool,
    pub use_json_format: bool,
}

/// The new values of an activity; at least one is given.
pub struct UpdateGroup {
    pub name: Option<String>,
    pub description: Option<String>,
    pub tags: Option<Vec<String>>,
}

/// Arguments of the command that modifies an activity.
pub struct ModifyActivityArgs {
    pub id: Id,
    pub update: UpdateGroup,
    pub confirm: bool,
    pub no_confirm: bool,
}

/// Arguments of the command that cancels the current activity.
pub struct CancelActivityArgs {
    pub confirm: bool,
    pub no_confirm: bool,
}

/// Arguments of the command that deletes an activity.
pub struct DeleteActivityArgs {
    pub id: Id,
    pub confirm: bool,
    pub no_confirm: bool,
}

/// Arguments of the command that edits logs as text.
pub struct EditLogsArgs {
    pub period: Option<PeriodInput>,
    pub show_instructions: bool,
    pub hide_instructions: bool,
    pub show_activity_definitions: bool,
    pub hide_activity_definitions: bool,
    pub confirm: bool,
    pub no_confirm: bool,
}

} // verus!
