use vstd::prelude::*;

verus! {

/// One item of the multiplexed stream a supervised process produces:
/// a line of standard output, a line of standard error, or the process's
/// termination with its exit code, when the operating system reports one.
pub enum OutputEvent {
    StdoutLine(Vec<u8>),
    StderrLine(Vec<u8>),
    Terminated(Option<i32>),
}

/// The mathematical model of an `OutputEvent`.
pub enum OutputEventModel {
    StdoutLine(Seq<u8>),
    StderrLine(Seq<u8>),
    Terminated(Option<i32>),
}

impl View for OutputEvent {
    type V = OutputEventModel;

    open spec fn view(&self) -> OutputEventModel {
        match self {
            OutputEvent::StdoutLine(b) => OutputEventModel::StdoutLine(b@),
            OutputEvent::StderrLine(b) => OutputEventModel::StderrLine(b@),
            OutputEvent::Terminated(c) => OutputEventModel::Terminated(*c),
        }
    }
}

/// One topic event published towards the consumer. `exit_code` carries the
/// whole payload field: `None` means the field is absent, `Some(c)` means it
/// is present and holds `c`, itself optional since the operating system may
/// not report a code.
pub enum PublishedEvent {
    Progress { script: String, label: String, current: i32, max: i32 },
    Output { script: String, output: String },
    ErrorLine { script: String, error: String },
    Complete { script: String, success: bool, exit_code: Option<Option<i32>> },
}

/// The mathematical model of a `PublishedEvent`.
pub enum EventModel {
    Progress { script: Seq<char>, label: Seq<char>, current: i32, max: i32 },
    Output { script: Seq<char>, output: Seq<char> },
    ErrorLine { script: Seq<char>, error: Seq<char> },
    Complete { script: Seq<char>, success: bool, exit_code: Option<Option<i32>> },
}

impl View for PublishedEvent {
    type V = EventModel;

    open spec fn view(&self) -> EventModel {
        match self {
            PublishedEvent::Progress { script, label, current, max } => EventModel::Progress {
                script: script@,
                label: label@,
                current: *current,
                max: *max,
            },
            PublishedEvent::Output { script, output } => EventModel::Output {
                script: script@,
                output: output@,
            },
            PublishedEvent::ErrorLine { script, error } => EventModel::ErrorLine {
                script: script@,
                error: error@,
            },
            PublishedEvent::Complete { script, success, exit_code } => EventModel::Complete {
                script: script@,
                success: *success,
                exit_code: *exit_code,
            },
        }
    }
}

/// The models of a sequence of published events.
pub open spec fn views_of(s: Seq<PublishedEvent>) -> Seq<EventModel> {
    s.map_values(|e: PublishedEvent| e@)
}

/// The models of a sequence of stream events.
pub open spec fn models_of(s: Seq<OutputEvent>) -> Seq<OutputEventModel> {
    s.map_values(|e: OutputEvent| e@)
}

} // verus!
