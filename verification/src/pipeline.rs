//! The pipeline of one image: encode, call the endpoint, log the answer.
//!
//! The pipeline decides; its driver does the outside work. The driver reads
//! and encodes the file, then hands each outcome to `step` and performs the
//! action that comes back, until a report ends the pipeline.

use crate::record::{csv_record, log_row};
use crate::request::{compact_json, json_object, request_body, response_text, PAYLOAD_FIELD};
use vstd::prelude::*;
use vstd::utf8::encode_utf8;

verus! {

/// How far an image has come.
#[derive(Clone, Copy, Debug, PartialEq, Eq, Structural)]
pub enum Stage {
    /// Found by discovery; its file is yet to be read and encoded.
    Discovered,
    /// Encoded; the request is on its way.
    Encoded,
    /// Answered with a JSON document; the row is yet to be written.
    Responded,
    /// The row is in the log.
    Logged,
    /// Given up; the failure was reported.
    Failed,
}

/// Why an image was given up.
#[derive(Debug, PartialEq, Eq)]
pub enum Failure {
    /// The image file could not be opened.
    Open,
    /// The image file could not be read to its end.
    Read,
    /// The task that was to encode the file did not finish.
    Task { detail: String },
    /// The request could not be sent.
    Send,
    /// The answer could not be read as JSON.
    Parse,
    /// The row could not be written or flushed.
    Log { detail: String },
}

/// What the outside world did for the pipeline.
#[derive(Debug, PartialEq, Eq)]
pub enum Event {
    /// The file was read and encoded as this base64 text.
    Encoded { text: String },
    /// The endpoint answered with this body.
    Answered { body: Vec<u8> },
    /// The row was appended to the log and flushed.
    Written,
    /// The work at hand failed.
    Failed { failure: Failure },
}

/// What the driver is to do next.
#[derive(Debug, PartialEq, Eq)]
pub enum Action {
    /// Nothing: the event did not move the pipeline.
    Idle,
    /// Post this body to the endpoint.
    Send { body: Vec<u8> },
    /// Append this row to the log and flush it.
    Append { row: Vec<u8> },
    /// Report the image as processed. The pipeline has ended.
    Succeed,
    /// Report the image as failed. The pipeline has ended.
    Fail { failure: Failure },
}

/// An action with its bytes as a sequence.
pub enum ActionView {
    Idle,
    Send { body: Seq<u8> },
    Append { row: Seq<u8> },
    Succeed,
    Fail { failure: Failure },
}

impl View for Action {
    type V = ActionView;

    open spec fn view(&self) -> ActionView {
        match *self {
            Action::Idle => ActionView::Idle,
            Action::Send { body } => ActionView::Send { body: body@ },
            Action::Append { row } => ActionView::Append { row: row@ },
            Action::Succeed => ActionView::Succeed,
            Action::Fail { failure } => ActionView::Fail { failure },
        }
    }
}

impl Failure {
    /// The words of the report.
    pub open spec fn words(&self) -> Seq<char> {
        match *self {
            Failure::Open => "Failed to open image file"@,
            Failure::Read => "Failed to read image file"@,
            Failure::Task { detail } => detail@,
            Failure::Send => "Failed to send request to API"@,
            Failure::Parse => "Failed to parse API response"@,
            Failure::Log { detail } => detail@,
        }
    }

    /// The detail that a report of this failure carries.
    pub fn message(&self) -> (text: String)
        ensures
            text@ == self.words(),
    {
        match self {
            Failure::Open => "Failed to open image file".to_owned(),
            Failure::Read => "Failed to read image file".to_owned(),
            Failure::Task { detail } => detail.clone(),
            Failure::Send => "Failed to send request to API".to_owned(),
            Failure::Parse => "Failed to parse API response".to_owned(),
            Failure::Log { detail } => detail.clone(),
        }
    }
}

/// A stage that no event leaves.
pub open spec fn is_terminal(stage: Stage) -> bool {
    stage == Stage::Logged || stage == Stage::Failed
}

/// The stage that follows `stage` on an answer whose body was read as
/// `text`.
pub open spec fn stage_on_answer(stage: Stage, text: Option<Seq<char>>) -> Stage {
    if stage != Stage::Encoded {
        stage
    } else if text is Some {
        Stage::Responded
    } else {
        Stage::Failed
    }
}

/// The action that an answer calls for.
pub open spec fn action_on_answer(path: Seq<char>, stage: Stage, text: Option<Seq<char>>)
    -> ActionView {
    if stage != Stage::Encoded {
        ActionView::Idle
    } else {
        match text {
            Some(t) => ActionView::Append { row: csv_record(encode_utf8(path), encode_utf8(t)) },
            None => ActionView::Fail { failure: Failure::Parse },
        }
    }
}

/// The stage that follows `stage` on `event`. An event that does not belong
/// to the stage leaves it as it is; a failure ends any pipeline that has
/// not ended.
pub open spec fn next_stage(stage: Stage, event: Event) -> Stage {
    match event {
        Event::Encoded { text } => if stage == Stage::Discovered {
            Stage::Encoded
        } else {
            stage
        },
        Event::Answered { body } => stage_on_answer(stage, compact_json(body@)),
        Event::Written => if stage == Stage::Responded {
            Stage::Logged
        } else {
            stage
        },
        Event::Failed { failure } => if is_terminal(stage) {
            stage
        } else {
            Stage::Failed
        },
    }
}

/// The action that `event` calls for at `stage`, for the image at `path`.
pub open spec fn reaction(path: Seq<char>, stage: Stage, event: Event) -> ActionView {
    match event {
        Event::Encoded { text } => if stage == Stage::Discovered {
            ActionView::Send { body: json_object(PAYLOAD_FIELD@, text@) }
        } else {
            ActionView::Idle
        },
        Event::Answered { body } => action_on_answer(path, stage, compact_json(body@)),
        Event::Written => if stage == Stage::Responded {
            ActionView::Succeed
        } else {
            ActionView::Idle
        },
        Event::Failed { failure } => if is_terminal(stage) {
            ActionView::Idle
        } else {
            ActionView::Fail { failure }
        },
    }
}

/// The pipeline of the image at one path.
pub struct Pipeline {
    path: String,
    stage: Stage,
}

impl Pipeline {
    /// The path of the image, as it is written to the log.
    pub closed spec fn path(&self) -> Seq<char> {
        self.path@
    }

    /// How far the image has come.
    pub closed spec fn stage(&self) -> Stage {
        self.stage
    }

    /// The pipeline of a discovered image.
    pub fn new(path: String) -> (pipeline: Pipeline)
        ensures
            pipeline.path() == path@,
            pipeline.stage() == Stage::Discovered,
    {
        Pipeline { path, stage: Stage::Discovered }
    }

    /// How far the image has come.
    pub fn current(&self) -> (stage: Stage)
        ensures
            stage == self.stage(),
    {
        self.stage
    }

    /// Whether the pipeline has ended, in the log or in failure.
    pub fn has_ended(&self) -> (ended: bool)
        ensures
            ended == is_terminal(self.stage()),
    {
        self.stage == Stage::Logged || self.stage == Stage::Failed
    }

    /// Takes the endpoint's answer as it was read: the compact text of a
    /// JSON document, or `None` for a body that is none. On a request in
    /// flight, a document becomes the row to append and anything else ends
    /// the pipeline as a parse failure. At any other stage nothing happens.
    pub fn answer(&mut self, text: Option<String>) -> (action: Action)
        ensures
            final(self).path() == old(self).path(),
            final(self).stage() == stage_on_answer(
                old(self).stage(),
                match text {
                    Some(t) => Some(t@),
                    None => None,
                },
            ),
            action@ == action_on_answer(
                old(self).path(),
                old(self).stage(),
                match text {
                    Some(t) => Some(t@),
                    None => None,
                },
            ),
    {
        if self.stage != Stage::Encoded {
            return Action::Idle;
        }
        match text {
            Some(t) => {
                let row = log_row(self.path.as_str(), t.as_str());
                self.stage = Stage::Responded;
                Action::Append { row }
            },
            None => {
                self.stage = Stage::Failed;
                Action::Fail { failure: Failure::Parse }
            },
        }
    }

    /// Moves the pipeline on by one event and says what to do next.
    pub fn step(&mut self, event: Event) -> (action: Action)
        ensures
            final(self).path() == old(self).path(),
            final(self).stage() == next_stage(old(self).stage(), event),
            action@ == reaction(old(self).path(), old(self).stage(), event),
    {
        match event {
            Event::Encoded { text } => {
                if self.stage == Stage::Discovered {
                    let body = request_body(text.as_str());
                    self.stage = Stage::Encoded;
                    Action::Send { body }
                } else {
                    Action::Idle
                }
            },
            Event::Answered { body } => {
                let text = response_text(body.as_slice());
                self.answer(text)
            },
            Event::Written => {
                if self.stage == Stage::Responded {
                    self.stage = Stage::Logged;
                    Action::Succeed
                } else {
                    Action::Idle
                }
            },
            Event::Failed { failure } => {
                if self.stage == Stage::Logged || self.stage == Stage::Failed {
                    Action::Idle
                } else {
                    self.stage = Stage::Failed;
                    Action::Fail { failure }
                }
            },
        }
    }
}

/// The stage of a pipeline that has taken these events, in this order,
/// since its image was discovered.
pub open spec fn stage_after(events: Seq<Event>) -> Stage
    decreases events.len(),
{
    if events.len() == 0 {
        Stage::Discovered
    } else {
        next_stage(stage_after(events.drop_last()), events.last())
    }
}

/// The action that the last of these events called for.
pub open spec fn last_action(path: Seq<char>, events: Seq<Event>) -> ActionView
    recommends
        events.len() > 0,
{
    reaction(path, stage_after(events.drop_last()), events.last())
}

/// How often the pipeline reported success while it took these events.
pub open spec fn successes(path: Seq<char>, events: Seq<Event>) -> nat
    decreases events.len(),
{
    if events.len() == 0 {
        0
    } else if last_action(path, events) is Succeed {
        successes(path, events.drop_last()) + 1
    } else {
        successes(path, events.drop_last())
    }
}

/// How often the pipeline reported failure while it took these events.
pub open spec fn failures(path: Seq<char>, events: Seq<Event>) -> nat
    decreases events.len(),
{
    if events.len() == 0 {
        0
    } else if last_action(path, events) is Fail {
        failures(path, events.drop_last()) + 1
    } else {
        failures(path, events.drop_last())
    }
}

/// How often the pipeline asked for a row to be appended while it took
/// these events.
pub open spec fn rows(path: Seq<char>, events: Seq<Event>) -> nat
    decreases events.len(),
{
    if events.len() == 0 {
        0
    } else if last_action(path, events) is Append {
        rows(path, events.drop_last()) + 1
    } else {
        rows(path, events.drop_last())
    }
}

/// A pipeline that has ended stays as it is: no event moves it and none
/// calls for an action, so nothing is tried again.
pub proof fn lemma_end_is_final(path: Seq<char>, stage: Stage, event: Event)
    requires
        is_terminal(stage),
    ensures
        next_stage(stage, event) == stage,
        reaction(path, stage, event) == ActionView::Idle,
{
}

/// Every image gets one report and no more. Whatever events a pipeline
/// takes, it reports success once if it ends in the log and never
/// otherwise, it reports failure once if it ends in failure and never
/// otherwise, and until it ends it reports nothing. It asks for a row at
/// most once, and a pipeline that ends in the log has asked for one.
pub proof fn lemma_one_outcome(path: Seq<char>, events: Seq<Event>)
    ensures
        successes(path, events) == (if stage_after(events) == Stage::Logged {
            1nat
        } else {
            0nat
        }),
        failures(path, events) == (if stage_after(events) == Stage::Failed {
            1nat
        } else {
            0nat
        }),
        rows(path, events) <= 1,
        stage_after(events) == Stage::Logged || stage_after(events) == Stage::Responded ==> rows(
            path,
            events,
        ) == 1,
        stage_after(events) == Stage::Discovered || stage_after(events) == Stage::Encoded ==> rows(
            path,
            events,
        ) == 0,
    decreases events.len(),
{
    if events.len() > 0 {
        lemma_one_outcome(path, events.drop_last());
    }
}

} // verus!
