//! The state of a log viewer: what it shows and how it is sorted.

use vstd::prelude::*;

verus! {

/// What the viewer is doing.
#[derive(Clone, Copy, Debug, PartialEq, Eq, Structural)]
pub enum Mode {
    Auth,
    Normal,
    Search,
    Limit,
    Details,
}

/// Which index the viewer shows.
#[derive(Clone, Copy, Debug, PartialEq, Eq, Structural)]
pub enum IndexType {
    Logs,
    ContainerLogs,
}

impl IndexType {
    /// The title of the index.
    pub open spec fn title(self) -> Seq<char> {
        match self {
            IndexType::Logs => "Sensor Logs"@,
            IndexType::ContainerLogs => "Container Logs"@,
        }
    }

    /// The title under which the viewer shows the index.
    pub fn display_name(&self) -> (name: &str)
        ensures
            name@ == self.title(),
    {
        match self {
            IndexType::Logs => "Sensor Logs",
            IndexType::ContainerLogs => "Container Logs",
        }
    }
}

/// The column by which the entries are sorted.
#[derive(Clone, Copy, Debug, PartialEq, Eq, Structural)]
pub enum SortField {
    Timestamp,
    Level,
    Device,
    Temperature,
    Humidity,
}

/// The direction in which the entries are sorted.
#[derive(Clone, Copy, Debug, PartialEq, Eq, Structural)]
pub enum SortDirection {
    Ascending,
    Descending,
}

/// How the entries are sorted.
#[derive(Clone, Copy, Debug)]
pub struct SortState {
    pub field: SortField,
    pub direction: SortDirection,
}

impl Default for SortState {
    /// Newest entries first.
    fn default() -> (state: SortState)
        ensures
            state.field == SortField::Timestamp,
            state.direction == SortDirection::Descending,
    {
        SortState { field: SortField::Timestamp, direction: SortDirection::Descending }
    }
}

} // verus!
