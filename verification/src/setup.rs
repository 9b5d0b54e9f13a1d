use vstd::prelude::*;

use crate::config::{MasterCfg, MasterCfgView};

verus! {

/// Where the setting up of fetching stands.
#[derive(Clone, Copy, Debug, PartialEq, Eq, Structural)]
pub enum SetupState {
    /// Nothing was asked yet.
    Start,
    /// The operator is asked whether to overwrite the saved course.
    ConfirmingCourse,
    /// The operator is asked for the course.
    EnteringCourse,
    /// The token is looked up where it is kept.
    LookingUpToken,
    /// The operator is asked whether to overwrite the token that is kept.
    ConfirmingToken,
    /// The operator is asked for the token.
    EnteringToken,
    /// The token is put where it is kept.
    StoringToken,
    /// The configuration is to be written; nothing more follows.
    Finished,
    /// The setting up was given up.
    Failed,
}

/// What happened since the last step.
#[derive(Debug)]
pub enum SetupEvent {
    /// The setting up begins.
    Begin,
    /// The operator answered yes or no, or skipped the question.
    Confirmed(Option<bool>),
    /// The operator entered a text.
    Entered(String),
    /// A token is kept already.
    TokenFound,
    /// No token is kept.
    TokenMissing,
    /// More than one token is kept.
    TokenAmbiguous,
    /// Whether a token is kept could not be found out.
    TokenUnreadable,
    /// The token was put where it is kept.
    TokenStored,
}

/// A `SetupEvent` as plain values.
pub enum SetupEventView {
    Begin,
    Confirmed(Option<bool>),
    Entered(Seq<char>),
    TokenFound,
    TokenMissing,
    TokenAmbiguous,
    TokenUnreadable,
    TokenStored,
}

impl View for SetupEvent {
    type V = SetupEventView;

    open spec fn view(&self) -> SetupEventView {
        match *self {
            SetupEvent::Begin => SetupEventView::Begin,
            SetupEvent::Confirmed(answer) => SetupEventView::Confirmed(answer),
            SetupEvent::Entered(text) => SetupEventView::Entered(text@),
            SetupEvent::TokenFound => SetupEventView::TokenFound,
            SetupEvent::TokenMissing => SetupEventView::TokenMissing,
            SetupEvent::TokenAmbiguous => SetupEventView::TokenAmbiguous,
            SetupEvent::TokenUnreadable => SetupEventView::TokenUnreadable,
            SetupEvent::TokenStored => SetupEventView::TokenStored,
        }
    }
}

/// What to do next.
#[derive(Debug)]
pub enum SetupAction {
    /// Ask whether to overwrite the saved course.
    ConfirmCourseOverwrite,
    /// Ask for the course.
    AskCourseId,
    /// Look the token up.
    LookUpToken,
    /// Ask whether to overwrite the token that is kept.
    ConfirmTokenOverwrite,
    /// Ask for the token.
    AskToken,
    /// Keep this token.
    StoreToken(String),
    /// Write the configuration.
    WriteConfig,
    /// Give up.
    Fail,
}

/// A `SetupAction` as plain values.
pub enum SetupActionView {
    ConfirmCourseOverwrite,
    AskCourseId,
    LookUpToken,
    ConfirmTokenOverwrite,
    AskToken,
    StoreToken(Seq<char>),
    WriteConfig,
    Fail,
}

impl View for SetupAction {
    type V = SetupActionView;

    open spec fn view(&self) -> SetupActionView {
        match *self {
            SetupAction::ConfirmCourseOverwrite => SetupActionView::ConfirmCourseOverwrite,
            SetupAction::AskCourseId => SetupActionView::AskCourseId,
            SetupAction::LookUpToken => SetupActionView::LookUpToken,
            SetupAction::ConfirmTokenOverwrite => SetupActionView::ConfirmTokenOverwrite,
            SetupAction::AskToken => SetupActionView::AskToken,
            SetupAction::StoreToken(token) => SetupActionView::StoreToken(token@),
            SetupAction::WriteConfig => SetupActionView::WriteConfig,
            SetupAction::Fail => SetupActionView::Fail,
        }
    }
}

/// Whether an answer says yes: a skipped question counts as no.
pub open spec fn says_yes(answer: Option<bool>) -> bool {
    answer == Some(true)
}

/// The step that follows: the next state and what to do. A saved course is
/// kept unless the operator agrees to overwrite it, a kept token likewise;
/// a course or token that is missing is asked for; the configuration is
/// written at the end. An event that the state does not wait for, and a
/// failed lookup, give the setting up up.
pub open spec fn next_step(state: SetupState, event: SetupEventView, master: MasterCfgView) -> (
    SetupState,
    SetupActionView,
) {
    match (state, event) {
        (SetupState::Start, SetupEventView::Begin) => if master.moodle_course_id is Some {
            (SetupState::ConfirmingCourse, SetupActionView::ConfirmCourseOverwrite)
        } else {
            (SetupState::EnteringCourse, SetupActionView::AskCourseId)
        },
        (SetupState::ConfirmingCourse, SetupEventView::Confirmed(answer)) => if says_yes(answer) {
            (SetupState::EnteringCourse, SetupActionView::AskCourseId)
        } else {
            (SetupState::LookingUpToken, SetupActionView::LookUpToken)
        },
        (SetupState::EnteringCourse, SetupEventView::Entered(_)) => (
            SetupState::LookingUpToken,
            SetupActionView::LookUpToken,
        ),
        (SetupState::LookingUpToken, SetupEventView::TokenMissing) => (
            SetupState::EnteringToken,
            SetupActionView::AskToken,
        ),
        (SetupState::LookingUpToken, SetupEventView::TokenFound) => (
            SetupState::ConfirmingToken,
            SetupActionView::ConfirmTokenOverwrite,
        ),
        (SetupState::ConfirmingToken, SetupEventView::Confirmed(answer)) => if says_yes(answer) {
            (SetupState::EnteringToken, SetupActionView::AskToken)
        } else {
            (SetupState::Finished, SetupActionView::WriteConfig)
        },
        (SetupState::EnteringToken, SetupEventView::Entered(token)) => (
            SetupState::StoringToken,
            SetupActionView::StoreToken(token),
        ),
        (SetupState::StoringToken, SetupEventView::TokenStored) => (
            SetupState::Finished,
            SetupActionView::WriteConfig,
        ),
        _ => (SetupState::Failed, SetupActionView::Fail),
    }
}

/// The configuration after a step: the course that was entered is saved in
/// it, nothing else changes.
pub open spec fn configured(state: SetupState, event: SetupEventView, master: MasterCfgView) -> MasterCfgView {
    match (state, event) {
        (SetupState::EnteringCourse, SetupEventView::Entered(course)) => MasterCfgView {
            moodle_course_id: Some(course),
            ..master
        },
        _ => master,
    }
}

/// Takes one step of setting up fetching.
pub fn setup_step(state: SetupState, event: SetupEvent, master: &mut MasterCfg) -> (r: (
    SetupState,
    SetupAction,
))
    ensures
        (r.0, r.1@) == next_step(state, event@, old(master)@),
        final(master)@ == configured(state, event@, old(master)@),
{
    match (state, event) {
        (SetupState::Start, SetupEvent::Begin) => {
            if master.moodle_course_id.is_some() {
                (SetupState::ConfirmingCourse, SetupAction::ConfirmCourseOverwrite)
            } else {
                (SetupState::EnteringCourse, SetupAction::AskCourseId)
            }
        },
        (SetupState::ConfirmingCourse, SetupEvent::Confirmed(answer)) => {
            if matches!(answer, Some(true)) {
                (SetupState::EnteringCourse, SetupAction::AskCourseId)
            } else {
                (SetupState::LookingUpToken, SetupAction::LookUpToken)
            }
        },
        (SetupState::EnteringCourse, SetupEvent::Entered(course)) => {
            master.moodle_course_id = Some(course);
            (SetupState::LookingUpToken, SetupAction::LookUpToken)
        },
        (SetupState::LookingUpToken, SetupEvent::TokenMissing) => (
            SetupState::EnteringToken,
            SetupAction::AskToken,
        ),
        (SetupState::LookingUpToken, SetupEvent::TokenFound) => (
            SetupState::ConfirmingToken,
            SetupAction::ConfirmTokenOverwrite,
        ),
        (SetupState::ConfirmingToken, SetupEvent::Confirmed(answer)) => {
            if matches!(answer, Some(true)) {
                (SetupState::EnteringToken, SetupAction::AskToken)
            } else {
                (SetupState::Finished, SetupAction::WriteConfig)
            }
        },
        (SetupState::EnteringToken, SetupEvent::Entered(token)) => (
            SetupState::StoringToken,
            SetupAction::StoreToken(token),
        ),
        (SetupState::StoringToken, SetupEvent::TokenStored) => (
            SetupState::Finished,
            SetupAction::WriteConfig,
        ),
        _ => (SetupState::Failed, SetupAction::Fail),
    }
}

/// Setting up never asks again what it settled: from `Finished` and from
/// `Failed` every event gives the setting up up, and the configuration is
/// changed by no step but the entering of the course.
pub proof fn lemma_setup_ends(state: SetupState, event: SetupEventView, master: MasterCfgView)
    requires
        state == SetupState::Finished || state == SetupState::Failed,
    ensures
        next_step(state, event, master) == (SetupState::Failed, SetupActionView::Fail),
        configured(state, event, master) == master,
{
}

} // verus!
