//! Retained source streams of a snapshot capture.
use vstd::prelude::*;

verus! {

#[derive(Debug, Clone, Copy, PartialEq, Eq, Structural)]
pub enum Stream {
    People,
    Users,
    Stages,
    CustomFields,
    Notes,
    NoteDetail,
    TasksOpen,
    TasksCompleted,
}

pub open spec fn stream_name(stream: Stream) -> Seq<char> {
    match stream {
        Stream::People => "people"@,
        Stream::Users => "users"@,
        Stream::Stages => "stages"@,
        Stream::CustomFields => "custom_fields"@,
        Stream::Notes => "notes"@,
        Stream::NoteDetail => "note_detail"@,
        Stream::TasksOpen => "tasks_open"@,
        Stream::TasksCompleted => "tasks_completed"@,
    }
}

impl Stream {
    /// The stream's name in capture inputs.
    pub fn as_str(self) -> (name: &'static str)
        ensures
            name@ == stream_name(self),
    {
        match self {
            Stream::People => "people",
            Stream::Users => "users",
            Stream::Stages => "stages",
            Stream::CustomFields => "custom_fields",
            Stream::Notes => "notes",
            Stream::NoteDetail => "note_detail",
            Stream::TasksOpen => "tasks_open",
            Stream::TasksCompleted => "tasks_completed",
        }
    }
}

} // verus!
