//! How a lab is started, and how its kernel is replaced: step by step, as each step turns out.

use crate::codex::{CodexCommand, CodexCommandView};
use crate::config::{config_error_text, validate_config, validated, ConfigProbe};
use crate::protocol::{
    KernelEvent, KernelEventView, LabConfig, LabConfigView, LabStatusView, ServerMessage,
    ServerMessageView,
};
use crate::server::{
    is_lab_id, new_lab_id, request_error_text, running, running_status, starting, starting_status,
    RequestError,
};
use crate::text::{copy_opt, opt_view};
use vstd::prelude::*;

verus! {

/// How far the start of a lab has come.
#[derive(Debug, Clone, Copy, PartialEq, Eq, Structural)]
pub enum StartStage {
    Validating,
    StoppingPrevious,
    Announcing,
    SpawningDebugger,
    SpawningKernel,
    StoppingDebugger,
    Configuring,
    Saving,
    Installing,
    AnnouncingRunning,
    Over,
}

/// What is to be done next for a lab to start.
#[derive(Debug)]
pub enum StartAction {
    /// Stop the lab that is running.
    StopPrevious,
    /// Tell the clients.
    Announce(ServerMessage),
    /// Launch the debugger.
    SpawnDebugger,
    /// Launch the kernel.
    SpawnKernel,
    /// Stop the debugger that was launched.
    StopDebugger,
    /// Hand the request to the tutor.
    Configure(CodexCommand),
    /// Save the lab.
    Save,
    /// Make the lab the one that is running.
    Install,
    /// Nothing; the lab has started.
    Succeed,
    /// Nothing; the lab has not started, for the given reason.
    Fail(String),
}

/// `StartAction` over mathematical values.
pub enum StartActionView {
    StopPrevious,
    Announce(ServerMessageView),
    SpawnDebugger,
    SpawnKernel,
    StopDebugger,
    Configure(CodexCommandView),
    Save,
    Install,
    Succeed,
    Fail(Seq<char>),
}

impl View for StartAction {
    type V = StartActionView;

    open spec fn view(&self) -> StartActionView {
        match *self {
            StartAction::StopPrevious => StartActionView::StopPrevious,
            StartAction::Announce(message) => StartActionView::Announce(message@),
            StartAction::SpawnDebugger => StartActionView::SpawnDebugger,
            StartAction::SpawnKernel => StartActionView::SpawnKernel,
            StartAction::StopDebugger => StartActionView::StopDebugger,
            StartAction::Configure(command) => StartActionView::Configure(command@),
            StartAction::Save => StartActionView::Save,
            StartAction::Install => StartActionView::Install,
            StartAction::Succeed => StartActionView::Succeed,
            StartAction::Fail(reason) => StartActionView::Fail(reason@),
        }
    }
}

/// The start of a lab.
#[derive(Debug)]
pub struct LabStart {
    pub id: String,
    pub config: LabConfig,
    pub thread_id: Option<String>,
    pub stage: StartStage,
    pub reason: String,
}

/// `LabStart` over mathematical values.
#[verifier::ext_equal]
pub struct LabStartView {
    pub id: Seq<char>,
    pub config: LabConfigView,
    pub thread_id: Option<Seq<char>>,
    pub stage: StartStage,
    pub reason: Seq<char>,
}

impl View for LabStart {
    type V = LabStartView;

    open spec fn view(&self) -> LabStartView {
        LabStartView {
            id: self.id@,
            config: self.config@,
            thread_id: opt_view(self.thread_id),
            stage: self.stage,
            reason: self.reason@,
        }
    }
}

/// How a step turned out: well, or not, for a reason.
pub open spec fn outcome_view(outcome: Result<(), String>) -> Option<Seq<char>> {
    match outcome {
        Ok(()) => None,
        Err(reason) => Some(reason@),
    }
}

impl LabStartView {
    /// The start at another stage.
    pub open spec fn at(self, stage: StartStage) -> LabStartView {
        LabStartView { stage, ..self }
    }

    /// The request that sets the tutor up for the lab.
    pub open spec fn configuration(self) -> CodexCommandView {
        CodexCommandView::Configure {
            cwd: self.config.workspace,
            objective: self.config.objective,
            resume_thread: self.thread_id,
        }
    }

    /// What is to be done next, and how far the start has come by it, where the step before
    /// turned out well.
    pub open spec fn proceeded(self) -> (LabStartView, StartActionView) {
        match self.stage {
            StartStage::Validating => (
                self.at(StartStage::StoppingPrevious),
                StartActionView::StopPrevious,
            ),
            StartStage::StoppingPrevious => (
                self.at(StartStage::Announcing),
                StartActionView::Announce(
                    ServerMessageView::LabStatus(starting_status(self.config)),
                ),
            ),
            StartStage::Announcing => (
                self.at(StartStage::SpawningDebugger),
                StartActionView::SpawnDebugger,
            ),
            StartStage::SpawningDebugger => (
                self.at(StartStage::SpawningKernel),
                StartActionView::SpawnKernel,
            ),
            StartStage::SpawningKernel => (
                self.at(StartStage::Configuring),
                StartActionView::Configure(self.configuration()),
            ),
            StartStage::StoppingDebugger => (
                self.at(StartStage::Over),
                StartActionView::Fail(self.reason),
            ),
            StartStage::Configuring => (self.at(StartStage::Saving), StartActionView::Save),
            StartStage::Saving => (self.at(StartStage::Installing), StartActionView::Install),
            StartStage::Installing => (
                self.at(StartStage::AnnouncingRunning),
                StartActionView::Announce(
                    ServerMessageView::LabStatus(running_status(self.id, self.config)),
                ),
            ),
            StartStage::AnnouncingRunning | StartStage::Over => (
                self.at(StartStage::Over),
                StartActionView::Succeed,
            ),
        }
    }

    /// What is to be done next, and how far the start has come by it. A debugger that was
    /// launched is stopped where the kernel cannot be launched.
    pub open spec fn advanced(self, outcome: Option<Seq<char>>) -> (LabStartView, StartActionView) {
        match (self.stage, outcome) {
            (StartStage::SpawningKernel, Some(reason)) => (
                LabStartView { stage: StartStage::StoppingDebugger, reason, ..self },
                StartActionView::StopDebugger,
            ),
            (StartStage::Validating, Some(reason))
            | (StartStage::SpawningDebugger, Some(reason))
            | (StartStage::Configuring, Some(reason))
            | (StartStage::Saving, Some(reason)) => (
                self.at(StartStage::Over),
                StartActionView::Fail(reason),
            ),
            _ => self.proceeded(),
        }
    }
}

impl LabStart {
    /// The start of a lab, before anything is done for it. A lab that was not saved before gets a
    /// new identifier.
    pub fn new(config: LabConfig, existing_id: Option<String>, thread_id: Option<String>) -> (r:
        Self)
        ensures
            match existing_id {
                Some(id) => r.id@ == id@,
                None => is_lab_id(r.id@),
            },
            r.config == config,
            r.thread_id == thread_id,
            r.stage == StartStage::Validating,
            r.reason@ == Seq::<char>::empty(),
    {
        let id = match existing_id {
            Some(id) => id,
            None => new_lab_id(),
        };
        LabStart { id, config, thread_id, stage: StartStage::Validating, reason: String::new() }
    }

    /// Puts the paths that were found into the configuration, and says how that turned out. Where
    /// something is missing, the configuration stays as it was.
    pub fn validate(&mut self, probe: ConfigProbe) -> (r: Result<(), String>)
        ensures
            match validated(old(self)@.config, probe) {
                Ok(config) => r is Ok && final(self)@ == (LabStartView { config, ..old(self)@ }),
                Err(error) => outcome_view(r) == Some(config_error_text(error)) && final(self)@
                    == old(self)@,
            },
    {
        match validate_config(&mut self.config, probe) {
            Ok(()) => Ok(()),
            Err(error) => Err(error.message().to_owned()),
        }
    }

    /// Takes in how the last step turned out, and says what is to be done next. What comes first
    /// is whether the configuration is valid.
    pub fn advance(&mut self, outcome: Result<(), String>) -> (r: StartAction)
        requires
            old(self).stage != StartStage::Over,
        ensures
            (final(self)@, r@) == old(self)@.advanced(outcome_view(outcome)),
    {
        let stage = self.stage;
        if let Err(reason) = outcome {
            match stage {
                StartStage::SpawningKernel => {
                    self.stage = StartStage::StoppingDebugger;
                    self.reason = reason;
                    return StartAction::StopDebugger;
                },
                StartStage::Validating
                | StartStage::SpawningDebugger
                | StartStage::Configuring
                | StartStage::Saving => {
                    self.stage = StartStage::Over;
                    return StartAction::Fail(reason);
                },
                _ => {},
            }
        }
        match stage {
            StartStage::Validating => {
                self.stage = StartStage::StoppingPrevious;
                StartAction::StopPrevious
            },
            StartStage::StoppingPrevious => {
                self.stage = StartStage::Announcing;
                StartAction::Announce(ServerMessage::LabStatus(starting(&self.config)))
            },
            StartStage::Announcing => {
                self.stage = StartStage::SpawningDebugger;
                StartAction::SpawnDebugger
            },
            StartStage::SpawningDebugger => {
                self.stage = StartStage::SpawningKernel;
                StartAction::SpawnKernel
            },
            StartStage::SpawningKernel => {
                self.stage = StartStage::Configuring;
                StartAction::Configure(
                    CodexCommand::Configure {
                        cwd: self.config.workspace.clone(),
                        objective: self.config.objective.clone(),
                        resume_thread: copy_opt(&self.thread_id),
                    },
                )
            },
            StartStage::StoppingDebugger => {
                self.stage = StartStage::Over;
                StartAction::Fail(self.reason.clone())
            },
            StartStage::Configuring => {
                self.stage = StartStage::Saving;
                StartAction::Save
            },
            StartStage::Saving => {
                self.stage = StartStage::Installing;
                StartAction::Install
            },
            StartStage::Installing => {
                self.stage = StartStage::AnnouncingRunning;
                StartAction::Announce(ServerMessage::LabStatus(running(&self.id, &self.config)))
            },
            StartStage::AnnouncingRunning | StartStage::Over => {
                self.stage = StartStage::Over;
                StartAction::Succeed
            },
        }
    }
}

/// What is done for a lab to start, by how each step turns out. The steps behind the last outcome
/// are not taken.
pub open spec fn course(start: LabStartView, outcomes: Seq<Option<Seq<char>>>) -> Seq<
    StartActionView,
>
    decreases outcomes.len(),
{
    if outcomes.len() == 0 || start.stage == StartStage::Over {
        seq![]
    } else {
        let (next, action) = start.advanced(outcomes[0]);
        seq![action] + course(next, outcomes.skip(1))
    }
}

/// How many steps are left at most.
pub open spec fn steps_left(stage: StartStage) -> nat {
    match stage {
        StartStage::Validating => 9,
        StartStage::StoppingPrevious => 8,
        StartStage::Announcing => 7,
        StartStage::SpawningDebugger => 6,
        StartStage::SpawningKernel => 5,
        StartStage::StoppingDebugger => 1,
        StartStage::Configuring => 4,
        StartStage::Saving => 3,
        StartStage::Installing => 2,
        StartStage::AnnouncingRunning => 1,
        StartStage::Over => 0,
    }
}

/// A start comes to an end: each step leaves fewer steps to take, and the last says whether the
/// lab has started.
pub proof fn law_start_comes_to_an_end(start: LabStartView, outcome: Option<Seq<char>>)
    requires
        start.stage != StartStage::Over,
    ensures
        ({
            let (next, action) = start.advanced(outcome);
            &&& steps_left(next.stage) < steps_left(start.stage)
            &&& next.stage == StartStage::Over <==> (action is Succeed || action is Fail)
            &&& next.id == start.id && next.config == start.config && next.thread_id
                == start.thread_id
        }),
{
}

/// Outcomes of steps that all turned out well.
pub open spec fn all_well(count: nat) -> Seq<Option<Seq<char>>> {
    Seq::new(count, |i: int| None)
}

proof fn lemma_course_step(start: LabStartView, outcomes: Seq<Option<Seq<char>>>)
    requires
        outcomes.len() > 0,
        start.stage != StartStage::Over,
    ensures
        course(start, outcomes) == seq![start.advanced(outcomes[0]).1] + course(
            start.advanced(outcomes[0]).0,
            outcomes.skip(1),
        ),
{
}

proof fn lemma_well_step(start: LabStartView, count: nat)
    requires
        count > 0,
        start.stage != StartStage::Over,
    ensures
        course(start, all_well(count)) == seq![start.advanced(None).1] + course(
            start.advanced(None).0,
            all_well((count - 1) as nat),
        ),
{
    lemma_course_step(start, all_well(count));
    assert(all_well(count).skip(1) =~= all_well((count - 1) as nat));
}

/// Where every step turns out well, the previous lab is stopped before anything is launched, and
/// the lab is announced to be running when it is launched, saved and installed, in this order.
pub proof fn law_course_of_a_start(start: LabStartView)
    requires
        start.stage == StartStage::Validating,
    ensures
        course(start, all_well(9)) == seq![
            StartActionView::StopPrevious,
            StartActionView::Announce(ServerMessageView::LabStatus(starting_status(start.config))),
            StartActionView::SpawnDebugger,
            StartActionView::SpawnKernel,
            StartActionView::Configure(start.configuration()),
            StartActionView::Save,
            StartActionView::Install,
            StartActionView::Announce(
                ServerMessageView::LabStatus(running_status(start.id, start.config)),
            ),
            StartActionView::Succeed,
        ],
{
    lemma_well_step(start, 9);
    lemma_well_step(start.at(StartStage::StoppingPrevious), 8);
    lemma_well_step(start.at(StartStage::Announcing), 7);
    lemma_well_step(start.at(StartStage::SpawningDebugger), 6);
    lemma_well_step(start.at(StartStage::SpawningKernel), 5);
    lemma_well_step(start.at(StartStage::Configuring), 4);
    lemma_well_step(start.at(StartStage::Saving), 3);
    lemma_well_step(start.at(StartStage::Installing), 2);
    lemma_well_step(start.at(StartStage::AnnouncingRunning), 1);
    assert(course(start, all_well(9)) =~= seq![
        StartActionView::StopPrevious,
        StartActionView::Announce(ServerMessageView::LabStatus(starting_status(start.config))),
        StartActionView::SpawnDebugger,
        StartActionView::SpawnKernel,
        StartActionView::Configure(start.configuration()),
        StartActionView::Save,
        StartActionView::Install,
        StartActionView::Announce(
            ServerMessageView::LabStatus(running_status(start.id, start.config)),
        ),
        StartActionView::Succeed,
    ]);
}

/// Where the kernel cannot be launched, the debugger that was launched is stopped, however that
/// turns out, and the start fails for the kernel's reason.
pub proof fn law_failed_kernel_stops_the_debugger(
    start: LabStartView,
    reason: Seq<char>,
    outcome: Option<Seq<char>>,
)
    requires
        start.stage == StartStage::SpawningKernel,
    ensures
        ({
            let (next, action) = start.advanced(Some(reason));
            &&& action == StartActionView::StopDebugger
            &&& next.advanced(outcome).1 == StartActionView::Fail(reason)
            &&& next.advanced(outcome).0.stage == StartStage::Over
        }),
{
}

/// Where the configuration is refused, nothing is done: the lab that is running goes on, and the
/// clients, the tutor and the saved labs are left alone. The start fails for the reason for which
/// the configuration was refused.
pub proof fn law_refused_configuration_changes_nothing(
    start: LabStartView,
    reason: Seq<char>,
    outcomes: Seq<Option<Seq<char>>>,
)
    requires
        start.stage == StartStage::Validating,
    ensures
        start.advanced(Some(reason)) == (
            start.at(StartStage::Over),
            StartActionView::Fail(reason),
        ),
        course(start, seq![Some(reason)] + outcomes) == seq![StartActionView::Fail(reason)],
{
    lemma_course_step(start, seq![Some(reason)] + outcomes);
    assert(course(start, seq![Some(reason)] + outcomes) =~= seq![StartActionView::Fail(reason)]);
}

/// Where the debugger cannot be launched, the tutor cannot be set up or the lab cannot be saved,
/// the start fails at once, for that reason, and the lab is not installed.
pub proof fn law_failed_step_ends_the_start(start: LabStartView, reason: Seq<char>)
    requires
        start.stage == StartStage::SpawningDebugger || start.stage == StartStage::Configuring
            || start.stage == StartStage::Saving,
    ensures
        start.advanced(Some(reason)) == (
            start.at(StartStage::Over),
            StartActionView::Fail(reason),
        ),
{
}

/// How far the replacement of the kernel has come.
#[derive(Debug, Clone, Copy, PartialEq, Eq, Structural)]
pub enum RestartStage {
    Ready,
    Stopping,
    Spawning,
    Replacing,
    Announcing,
    Over,
}

/// What is to be done next for the kernel to be replaced.
#[derive(Debug)]
pub enum RestartAction {
    /// Stop the kernel.
    Stop,
    /// Launch another.
    Spawn,
    /// Put it in the place of the first, where the lab is still running.
    Replace,
    /// Tell the clients.
    Announce(ServerMessage),
    /// Nothing; the kernel is replaced.
    Succeed,
    /// Nothing; the kernel is not replaced, for the given reason.
    Fail(String),
}

/// `RestartAction` over mathematical values.
pub enum RestartActionView {
    Stop,
    Spawn,
    Replace,
    Announce(ServerMessageView),
    Succeed,
    Fail(Seq<char>),
}

impl View for RestartAction {
    type V = RestartActionView;

    open spec fn view(&self) -> RestartActionView {
        match *self {
            RestartAction::Stop => RestartActionView::Stop,
            RestartAction::Spawn => RestartActionView::Spawn,
            RestartAction::Replace => RestartActionView::Replace,
            RestartAction::Announce(message) => RestartActionView::Announce(message@),
            RestartAction::Succeed => RestartActionView::Succeed,
            RestartAction::Fail(reason) => RestartActionView::Fail(reason@),
        }
    }
}

/// What is to be done next for the kernel to be replaced, and how far that has come by it. Where
/// the lab is gone by the time that the other kernel is launched, this is said.
pub open spec fn restart_step(stage: RestartStage, outcome: Option<Seq<char>>) -> (
    RestartStage,
    RestartActionView,
) {
    match (stage, outcome) {
        (RestartStage::Ready, _) => (RestartStage::Stopping, RestartActionView::Stop),
        (RestartStage::Stopping, Some(reason)) | (RestartStage::Spawning, Some(reason)) => (
            RestartStage::Over,
            RestartActionView::Fail(reason),
        ),
        (RestartStage::Replacing, Some(_)) => (
            RestartStage::Over,
            RestartActionView::Fail(request_error_text(RequestError::LabGone)),
        ),
        (RestartStage::Stopping, None) => (RestartStage::Spawning, RestartActionView::Spawn),
        (RestartStage::Spawning, None) => (RestartStage::Replacing, RestartActionView::Replace),
        (RestartStage::Replacing, None) => (
            RestartStage::Announcing,
            RestartActionView::Announce(
                ServerMessageView::KernelEvent(KernelEventView::Restarted),
            ),
        ),
        (RestartStage::Announcing, _) | (RestartStage::Over, _) => (
            RestartStage::Over,
            RestartActionView::Succeed,
        ),
    }
}

/// Takes in how the last step turned out, and says what is to be done next for the kernel to be
/// replaced.
pub fn advance_restart(stage: &mut RestartStage, outcome: Result<(), String>) -> (r: RestartAction)
    requires
        *old(stage) != RestartStage::Over,
    ensures
        (*final(stage), r@) == restart_step(*old(stage), outcome_view(outcome)),
{
    let (next, action) = match (*stage, outcome) {
        (RestartStage::Ready, _) => (RestartStage::Stopping, RestartAction::Stop),
        (RestartStage::Stopping, Err(reason)) | (RestartStage::Spawning, Err(reason)) => (
            RestartStage::Over,
            RestartAction::Fail(reason),
        ),
        (RestartStage::Replacing, Err(_)) => (
            RestartStage::Over,
            RestartAction::Fail(RequestError::LabGone.message().to_owned()),
        ),
        (RestartStage::Stopping, Ok(())) => (RestartStage::Spawning, RestartAction::Spawn),
        (RestartStage::Spawning, Ok(())) => (RestartStage::Replacing, RestartAction::Replace),
        (RestartStage::Replacing, Ok(())) => (
            RestartStage::Announcing,
            RestartAction::Announce(ServerMessage::KernelEvent(KernelEvent::Restarted)),
        ),
        (RestartStage::Announcing, _) | (RestartStage::Over, _) => (
            RestartStage::Over,
            RestartAction::Succeed,
        ),
    };
    *stage = next;
    action
}

/// The clients are told that the kernel was restarted only where it was stopped, launched again
/// and put in its place, one behind the other. Where one of these fails, so does the restart, and
/// it is over.
pub proof fn law_restart_is_announced_last(stage: RestartStage, outcome: Option<Seq<char>>)
    ensures
        restart_step(stage, outcome).1 is Announce <==> stage == RestartStage::Replacing
            && outcome is None,
        restart_step(stage, outcome).1 is Replace <==> stage == RestartStage::Spawning
            && outcome is None,
        restart_step(stage, outcome).1 is Spawn <==> stage == RestartStage::Stopping
            && outcome is None,
        restart_step(stage, outcome).1 is Fail <==> outcome is Some && (stage
            == RestartStage::Stopping || stage == RestartStage::Spawning || stage
            == RestartStage::Replacing),
        restart_step(stage, outcome).1 is Fail ==> restart_step(stage, outcome).0
            == RestartStage::Over,
{
}

/// Stopping the lab before, installing the new one and telling the clients cannot fail: the start
/// goes on, however they turn out.
pub proof fn law_some_steps_cannot_fail(start: LabStartView, reason: Seq<char>)
    requires
        start.stage == StartStage::StoppingPrevious || start.stage == StartStage::Announcing
            || start.stage == StartStage::Installing || start.stage
            == StartStage::AnnouncingRunning,
    ensures
        start.advanced(Some(reason)) == start.advanced(None),
{
}

/// The tutor is set up for the lab in its directory, with its objective and with the thread that it
/// had before. The clients are told that the lab is starting, and then that it is running, with its
/// configuration, and its identifier once it runs.
pub proof fn law_the_lab_is_told_to_all(start: LabStartView)
    ensures
        start.stage == StartStage::SpawningKernel ==> start.advanced(None).1
            == StartActionView::Configure(
            CodexCommandView::Configure {
                cwd: start.config.workspace,
                objective: start.config.objective,
                resume_thread: start.thread_id,
            },
        ),
        start.stage == StartStage::StoppingPrevious ==> start.advanced(None).1
            == StartActionView::Announce(
            ServerMessageView::LabStatus(
                LabStatusView {
                    phase: "starting"@,
                    lab_id: None,
                    config: Some(start.config),
                    message: None,
                },
            ),
        ),
        start.stage == StartStage::Installing ==> start.advanced(None).1
            == StartActionView::Announce(
            ServerMessageView::LabStatus(
                LabStatusView {
                    phase: "running"@,
                    lab_id: Some(start.id),
                    config: Some(start.config),
                    message: None,
                },
            ),
        ),
{
}

/// A kernel is replaced in this order: the old one is stopped, another is launched and put in its
/// place, and the clients are told that it was restarted. Where the old one cannot be stopped or
/// the other not be launched, that is the reason for which the restart fails, and where the lab is
/// gone by then this is said.
pub proof fn law_course_of_a_restart(reason: Seq<char>, outcome: Option<Seq<char>>)
    ensures
        restart_step(RestartStage::Ready, outcome) == (
            RestartStage::Stopping,
            RestartActionView::Stop,
        ),
        restart_step(RestartStage::Stopping, None) == (
            RestartStage::Spawning,
            RestartActionView::Spawn,
        ),
        restart_step(RestartStage::Spawning, None) == (
            RestartStage::Replacing,
            RestartActionView::Replace,
        ),
        restart_step(RestartStage::Replacing, None) == (
            RestartStage::Announcing,
            RestartActionView::Announce(ServerMessageView::KernelEvent(KernelEventView::Restarted)),
        ),
        restart_step(RestartStage::Announcing, outcome) == (
            RestartStage::Over,
            RestartActionView::Succeed,
        ),
        restart_step(RestartStage::Stopping, Some(reason)) == (
            RestartStage::Over,
            RestartActionView::Fail(reason),
        ),
        restart_step(RestartStage::Spawning, Some(reason)) == (
            RestartStage::Over,
            RestartActionView::Fail(reason),
        ),
        restart_step(RestartStage::Replacing, Some(reason)) == (
            RestartStage::Over,
            RestartActionView::Fail("lab stopped during restart"@),
        ),
{
}

} // verus!
