//! What happens after each outside step of loading the configuration and of
//! a session in the browser: which message is shown, and whether the work
//! goes on.
//!
//! The caller performs each step and reports how it went; these functions
//! decide the rest.
use vstd::prelude::*;

verus! {

/// The label in front of a message.
#[derive(Clone, Copy, Debug, PartialEq, Eq, Structural)]
pub enum Label {
    /// "[info]"
    Info,
    /// "[warn]"
    Warn,
    /// "[error]"
    Error,
    /// "[Error]"
    ErrorTitle,
}

/// The colour of a label.
#[derive(Clone, Copy, Debug, PartialEq, Eq, Structural)]
pub enum Tint {
    Green,
    Yellow,
    Red,
}

/// A message for the user.
#[derive(Clone, Debug, PartialEq, Eq)]
pub struct Notice {
    pub label: Label,
    pub tint: Tint,
    pub text: String,
}

/// A message, with its text as a character sequence.
pub struct NoticeView {
    pub label: Label,
    pub tint: Tint,
    pub text: Seq<char>,
}

impl View for Notice {
    type V = NoticeView;

    open spec fn view(&self) -> NoticeView {
        NoticeView { label: self.label, tint: self.tint, text: self.text@ }
    }
}

/// The view of an optional message.
pub open spec fn notice_view(n: Option<Notice>) -> Option<NoticeView> {
    match n {
        Some(n) => Some(n@),
        None => None,
    }
}

/// The message with this label, colour and text.
pub open spec fn message(label: Label, tint: Tint, text: Seq<char>) -> NoticeView {
    NoticeView { label, tint, text }
}

/// The text of a label.
pub open spec fn spec_label_text(label: Label) -> Seq<char> {
    match label {
        Label::Info => "[info]"@,
        Label::Warn => "[warn]"@,
        Label::Error => "[error]"@,
        Label::ErrorTitle => "[Error]"@,
    }
}

impl Label {
    /// The text of the label.
    pub fn text(&self) -> (r: String)
        ensures
            r@ == spec_label_text(*self),
    {
        match self {
            Label::Info => String::from_str("[info]"),
            Label::Warn => String::from_str("[warn]"),
            Label::Error => String::from_str("[error]"),
            Label::ErrorTitle => String::from_str("[Error]"),
        }
    }
}

fn notice(label: Label, tint: Tint, text: &str) -> (r: Notice)
    ensures
        r@ == message(label, tint, text@),
{
    Notice { label, tint, text: String::from_str(text) }
}

/// The steps of loading the configuration.
#[derive(Clone, Copy, Debug, PartialEq, Eq, Structural)]
pub enum LoadStage {
    /// Reading the configuration file.
    Read,
    /// Reading the configuration from the file's text.
    Parse,
}

/// What loading does next.
#[derive(Clone, Copy, Debug, PartialEq, Eq, Structural)]
pub enum LoadNext {
    /// Read the configuration from the file's text.
    Parse,
    /// Use the configuration that was read.
    Use,
    /// Ask for a new configuration and save it.
    Reinitialize,
}

/// What loading does after `stage` went as `ok` says.
pub open spec fn spec_load_next(stage: LoadStage, ok: bool) -> LoadNext {
    match (stage, ok) {
        (LoadStage::Read, true) => LoadNext::Parse,
        (LoadStage::Parse, true) => LoadNext::Use,
        (_, false) => LoadNext::Reinitialize,
    }
}

/// The message shown after `stage` went as `ok` says.
pub open spec fn spec_load_notice(stage: LoadStage, ok: bool) -> Option<NoticeView> {
    match (stage, ok) {
        (LoadStage::Read, false) => Some(
            message(Label::Warn, Tint::Yellow, "No config file found, try to initialize"@),
        ),
        (LoadStage::Parse, false) => Some(
            message(Label::Warn, Tint::Yellow, "Bad config, try to initialize"@),
        ),
        (_, true) => None,
    }
}

/// Decides what loading the configuration does after `stage` went as `ok`
/// says: the message to show, and what comes next.
pub fn load_step(stage: LoadStage, ok: bool) -> (r: (Option<Notice>, LoadNext))
    ensures
        notice_view(r.0) == spec_load_notice(stage, ok),
        r.1 == spec_load_next(stage, ok),
{
    if ok {
        match stage {
            LoadStage::Read => (None, LoadNext::Parse),
            LoadStage::Parse => (None, LoadNext::Use),
        }
    } else {
        match stage {
            LoadStage::Read => (
                Some(notice(Label::Warn, Tint::Yellow, "No config file found, try to initialize")),
                LoadNext::Reinitialize,
            ),
            LoadStage::Parse => (
                Some(notice(Label::Warn, Tint::Yellow, "Bad config, try to initialize")),
                LoadNext::Reinitialize,
            ),
        }
    }
}

/// The steps of a session whose outcome decides what happens next.
#[derive(Clone, Copy, Debug, PartialEq, Eq, Structural)]
pub enum Stage {
    /// Starting the Chrome driver.
    StartDriver,
    /// Telling the browser where the Chrome binary is.
    CheckChrome,
    /// Connecting to the Chrome driver.
    ConnectDriver,
    /// Going to the course system after logging in.
    Redirect,
    /// Finding the row that the user picked.
    PickCourse,
    /// Clicking the button that chooses the course.
    ClickChoose,
    /// Clicking the button that confirms the choice.
    Confirm,
}

/// How a step went.
#[derive(Clone, Debug, PartialEq, Eq)]
pub enum Outcome {
    Done,
    /// It failed, for the reason given.
    Failed(String),
}

/// What the session does next.
#[derive(Clone, Copy, Debug, PartialEq, Eq, Structural)]
pub enum Next {
    /// Go on to this step.
    Go(Stage),
    /// Go on to the end of the session: close the browser.
    Finish,
    /// End the session here.
    Stop,
}

/// The position of a step in the session.
pub open spec fn stage_rank(stage: Stage) -> nat {
    match stage {
        Stage::StartDriver => 0,
        Stage::CheckChrome => 1,
        Stage::ConnectDriver => 2,
        Stage::Redirect => 3,
        Stage::PickCourse => 4,
        Stage::ClickChoose => 5,
        Stage::Confirm => 6,
    }
}

/// What the session does after `stage` went as `ok` says.
pub open spec fn spec_next(stage: Stage, ok: bool) -> Next {
    match stage {
        Stage::StartDriver => Next::Go(Stage::CheckChrome),
        Stage::CheckChrome => if ok { Next::Go(Stage::ConnectDriver) } else { Next::Stop },
        Stage::ConnectDriver => if ok { Next::Go(Stage::Redirect) } else { Next::Stop },
        Stage::Redirect => if ok { Next::Go(Stage::PickCourse) } else { Next::Stop },
        Stage::PickCourse => if ok { Next::Go(Stage::ClickChoose) } else { Next::Stop },
        Stage::ClickChoose => Next::Go(Stage::Confirm),
        Stage::Confirm => Next::Finish,
    }
}

/// The message shown after `stage` went as `outcome` says; a failure's
/// reason is shown only for the Chrome driver. A driver that started is
/// not announced: the run goes straight on to checking Chrome.
pub open spec fn spec_notice(stage: Stage, outcome: Outcome) -> Option<NoticeView> {
    match (stage, outcome) {
        (Stage::StartDriver, Outcome::Done) => None,
        (Stage::StartDriver, Outcome::Failed(reason)) => Some(
            message(Label::Error, Tint::Red, "Can't start Chrome driver because "@ + reason@),
        ),
        (Stage::CheckChrome, Outcome::Done) => None,
        (Stage::CheckChrome, Outcome::Failed(_)) => Some(
            message(Label::ErrorTitle, Tint::Red, "Failed to find chrome binary"@),
        ),
        (Stage::ConnectDriver, Outcome::Done) => None,
        (Stage::ConnectDriver, Outcome::Failed(_)) => Some(
            message(Label::ErrorTitle, Tint::Red, "Failed to connect chrome driver"@),
        ),
        (Stage::Redirect, Outcome::Done) => Some(
            message(Label::Info, Tint::Green, "Redirect to https://bykc.buaa.edu.cn"@),
        ),
        (Stage::Redirect, Outcome::Failed(_)) => Some(
            message(Label::Error, Tint::Green, "Redirect failed"@),
        ),
        (Stage::PickCourse, Outcome::Done) => None,
        (Stage::PickCourse, Outcome::Failed(_)) => Some(
            message(Label::Error, Tint::Red, "Invalid input. It is out of range"@),
        ),
        (Stage::ClickChoose, Outcome::Done) => None,
        (Stage::ClickChoose, Outcome::Failed(_)) => Some(
            message(Label::Error, Tint::Green, "Choose failed"@),
        ),
        (Stage::Confirm, Outcome::Done) => Some(
            message(Label::Info, Tint::Green, "Choose success"@),
        ),
        (Stage::Confirm, Outcome::Failed(_)) => Some(
            message(Label::Error, Tint::Green, "Choose failed"@),
        ),
    }
}

/// A decision of the session: the message to show, and what comes next.
pub struct Step {
    pub notice: Option<Notice>,
    pub next: Next,
}

/// Decides what the session does after `stage` went as `outcome` says.
pub fn advance(stage: Stage, outcome: Outcome) -> (r: Step)
    ensures
        notice_view(r.notice) == spec_notice(stage, outcome),
        r.next == spec_next(stage, outcome is Done),
{
    match stage {
        Stage::StartDriver => {
            let notice = match outcome {
                Outcome::Done => None,
                Outcome::Failed(reason) => {
                    let text = String::from_str("Can't start Chrome driver because ").concat(
                        reason.as_str(),
                    );
                    Some(Notice { label: Label::Error, tint: Tint::Red, text })
                },
            };
            Step { notice, next: Next::Go(Stage::CheckChrome) }
        },
        Stage::CheckChrome => match outcome {
            Outcome::Done => Step { notice: None, next: Next::Go(Stage::ConnectDriver) },
            Outcome::Failed(_) => Step {
                notice: Some(notice(Label::ErrorTitle, Tint::Red, "Failed to find chrome binary")),
                next: Next::Stop,
            },
        },
        Stage::ConnectDriver => match outcome {
            Outcome::Done => Step { notice: None, next: Next::Go(Stage::Redirect) },
            Outcome::Failed(_) => Step {
                notice: Some(
                    notice(Label::ErrorTitle, Tint::Red, "Failed to connect chrome driver"),
                ),
                next: Next::Stop,
            },
        },
        Stage::Redirect => match outcome {
            Outcome::Done => Step {
                notice: Some(
                    notice(Label::Info, Tint::Green, "Redirect to https://bykc.buaa.edu.cn"),
                ),
                next: Next::Go(Stage::PickCourse),
            },
            Outcome::Failed(_) => Step {
                notice: Some(notice(Label::Error, Tint::Green, "Redirect failed")),
                next: Next::Stop,
            },
        },
        Stage::PickCourse => match outcome {
            Outcome::Done => Step { notice: None, next: Next::Go(Stage::ClickChoose) },
            Outcome::Failed(_) => Step {
                notice: Some(
                    notice(Label::Error, Tint::Red, "Invalid input. It is out of range"),
                ),
                next: Next::Stop,
            },
        },
        Stage::ClickChoose => match outcome {
            Outcome::Done => Step { notice: None, next: Next::Go(Stage::Confirm) },
            Outcome::Failed(_) => Step {
                notice: Some(notice(Label::Error, Tint::Green, "Choose failed")),
                next: Next::Go(Stage::Confirm),
            },
        },
        Stage::Confirm => match outcome {
            Outcome::Done => Step {
                notice: Some(notice(Label::Info, Tint::Green, "Choose success")),
                next: Next::Finish,
            },
            Outcome::Failed(_) => Step {
                notice: Some(notice(Label::Error, Tint::Green, "Choose failed")),
                next: Next::Finish,
            },
        },
    }
}

/// A session only ever moves forward, so it ends after at most one pass
/// through its steps.
pub proof fn lemma_session_moves_forward(stage: Stage, ok: bool)
    ensures
        spec_next(stage, ok) matches Next::Go(s) ==> stage_rank(s) == stage_rank(stage) + 1,
{
}

/// A step that went well never ends the session early, and a session that
/// is not stopped reaches its end: the browser is closed.
pub proof fn lemma_stops_only_on_failure(stage: Stage)
    ensures
        spec_next(stage, true) != Next::Stop,
        spec_next(stage, true) == Next::Finish <==> stage == Stage::Confirm,
{
}

/// A failure ends the session exactly at the steps without which it cannot
/// go on: the browser, the connection, the course system and the picked row.
pub proof fn lemma_failures_that_stop(stage: Stage)
    ensures
        spec_next(stage, false) == Next::Stop <==> (stage == Stage::CheckChrome || stage
            == Stage::ConnectDriver || stage == Stage::Redirect || stage == Stage::PickCourse),
{
}

/// When every step goes well, the only messages a session shows are the
/// redirect to the course system and the success of the choice; in
/// particular nothing is shown between the setting and the check of Chrome.
pub proof fn lemma_successes_shown(stage: Stage)
    ensures
        spec_notice(stage, Outcome::Done) is Some <==> (stage == Stage::Redirect || stage
            == Stage::Confirm),
{
}

/// Every step that stops the session says why.
pub proof fn lemma_stop_is_explained(stage: Stage, outcome: Outcome)
    ensures
        spec_next(stage, outcome is Done) == Next::Stop ==> spec_notice(stage, outcome) is Some,
{
}

/// Loading either uses what it read or asks again, and says why it asks.
pub proof fn lemma_load_reinitializes_on_failure(stage: LoadStage, ok: bool)
    ensures
        spec_load_next(stage, ok) == LoadNext::Reinitialize <==> !ok,
        spec_load_notice(stage, ok) is Some <==> !ok,
{
}

} // verus!
