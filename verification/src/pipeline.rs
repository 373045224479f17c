//! One entry's way from download to review, and the batch of selected
//! entries. Both are state machines: the caller performs the action it is
//! handed, reports what came of it as an event, and is handed the next action.

use vstd::prelude::*;
use crate::error::GraderError;
use crate::inspect::{
    disclaimer_report_of, grade_files, name_report_of, review_list_of, views_of, CheckLineView,
    GradeReport, NamePattern,
};
use crate::model::{DownloadedSubmission, FileRecord, FileView, UserProfile, UserSubmission};
use crate::selection::{slots_after_take, take_result, Selection};

verus! {

/// Where an entry stands.
#[derive(Clone, Copy, Debug, PartialEq, Eq, Structural)]
pub enum Stage {
    /// Taken from the selection; nothing has been done with it.
    Fetched,
    /// The archive is being retrieved and unpacked.
    Downloading,
    /// The archive has been unpacked into the entry's directory.
    Extracted,
    /// The reports are computed; the grader reviews the files.
    Inspecting,
    /// The review is over.
    Done,
    /// A step failed; the entry is given up.
    Failed(GraderError),
}

impl Stage {
    /// No event moves an entry out of this stage.
    pub open spec fn is_terminal(self) -> bool {
        self is Done || self is Failed
    }

    /// How far along the stage is. An entry never moves to a lower rank.
    pub open spec fn rank(self) -> int {
        match self {
            Stage::Fetched => 0,
            Stage::Downloading => 1,
            Stage::Extracted => 2,
            Stage::Inspecting => 3,
            Stage::Done => 4,
            Stage::Failed(_) => 4,
        }
    }

    /// Tells whether the entry has come to its end, one way or the other.
    pub fn is_final(&self) -> (terminal: bool)
        ensures
            terminal == self.is_terminal(),
    {
        match self {
            Stage::Done => true,
            Stage::Failed(_) => true,
            _ => false,
        }
    }
}

/// What the caller reports back.
#[derive(Clone, Debug, PartialEq, Eq)]
pub enum Event {
    /// Work on the entry begins.
    Begin,
    /// The archive was retrieved and unpacked.
    Unpacked,
    /// The regular files found in the entry's directory.
    Listed(Vec<FileRecord>),
    /// The grader has seen the reports.
    Acknowledged,
    /// The editor was closed.
    EditorClosed,
    /// The shell was left.
    ShellClosed,
    /// The action could not be carried out.
    Failed(GraderError),
}

/// An [`Event`] with its files as the reports see them.
pub enum EventView {
    Begin,
    Unpacked,
    Listed(Seq<FileView>),
    Acknowledged,
    EditorClosed,
    ShellClosed,
    Failed(GraderError),
}

impl View for Event {
    type V = EventView;

    open spec fn view(&self) -> EventView {
        match self {
            Event::Begin => EventView::Begin,
            Event::Unpacked => EventView::Unpacked,
            Event::Listed(files) => EventView::Listed(views_of(files@)),
            Event::Acknowledged => EventView::Acknowledged,
            Event::EditorClosed => EventView::EditorClosed,
            Event::ShellClosed => EventView::ShellClosed,
            Event::Failed(kind) => EventView::Failed(*kind),
        }
    }
}

/// What the caller is to do next.
#[derive(Clone, Debug, PartialEq, Eq)]
pub enum Action {
    /// Nothing yet: report `Begin` to start.
    Start,
    /// Retrieve the archive at `url` and unpack it into `directory`, merging
    /// into the directory if it exists.
    Download { url: String, directory: String },
    /// List the regular files directly in `directory`, each with its text if
    /// it can be read as text.
    ListFiles { directory: String },
    /// Show the two reports and wait for the grader.
    ShowReport,
    /// Open the file at `path` in the editor and wait until it is closed.
    OpenEditor { path: String },
    /// Open a shell in `directory` and wait until it is left.
    OpenShell { directory: String },
    /// The entry is done or has failed.
    Stop,
}

/// An [`Action`] with its texts as characters.
pub enum ActionView {
    Start,
    Download { url: Seq<char>, directory: Seq<char> },
    ListFiles { directory: Seq<char> },
    ShowReport,
    OpenEditor { path: Seq<char> },
    OpenShell { directory: Seq<char> },
    Stop,
}

impl View for Action {
    type V = ActionView;

    open spec fn view(&self) -> ActionView {
        match self {
            Action::Start => ActionView::Start,
            Action::Download { url, directory } => ActionView::Download {
                url: url@,
                directory: directory@,
            },
            Action::ListFiles { directory } => ActionView::ListFiles { directory: directory@ },
            Action::ShowReport => ActionView::ShowReport,
            Action::OpenEditor { path } => ActionView::OpenEditor { path: path@ },
            Action::OpenShell { directory } => ActionView::OpenShell { directory: directory@ },
            Action::Stop => ActionView::Stop,
        }
    }
}

/// The state of one entry, as the transitions see it.
pub struct PipelineView {
    pub stage: Stage,
    /// The sortable name of the owner, which names the entry's directory.
    pub directory: Seq<char>,
    /// The address of the first attachment, if there is one.
    pub url: Option<Seq<char>>,
    pub name_lines: Seq<CheckLineView>,
    pub disclaimer_lines: Seq<CheckLineView>,
    /// The paths to open in the editor, in order.
    pub review: Seq<Seq<char>>,
    /// The grader has seen the reports.
    pub acknowledged: bool,
    /// How many of the paths have been opened and closed again.
    pub opened: nat,
}

/// The state after `event`. A failure ends the entry from any stage that is
/// not terminal. Any other event moves the entry on if it is the one the
/// stage waits for, and changes nothing otherwise.
pub open spec fn step(state: PipelineView, event: EventView) -> PipelineView {
    if state.stage.is_terminal() {
        state
    } else {
        match event {
            EventView::Failed(kind) => PipelineView { stage: Stage::Failed(kind), ..state },
            EventView::Begin => if state.stage is Fetched {
                match state.url {
                    Some(_) => PipelineView { stage: Stage::Downloading, ..state },
                    None => PipelineView {
                        stage: Stage::Failed(GraderError::AttachmentNotFound),
                        ..state
                    },
                }
            } else {
                state
            },
            EventView::Unpacked => if state.stage is Downloading {
                PipelineView { stage: Stage::Extracted, ..state }
            } else {
                state
            },
            EventView::Listed(files) => if state.stage is Extracted {
                PipelineView {
                    stage: Stage::Inspecting,
                    name_lines: name_report_of(files, state.directory),
                    disclaimer_lines: disclaimer_report_of(files),
                    review: review_list_of(files),
                    acknowledged: false,
                    opened: 0,
                    ..state
                }
            } else {
                state
            },
            EventView::Acknowledged => if state.stage is Inspecting && !state.acknowledged {
                PipelineView { acknowledged: true, ..state }
            } else {
                state
            },
            EventView::EditorClosed => if state.stage is Inspecting && state.acknowledged
                && state.opened < state.review.len() {
                PipelineView { opened: state.opened + 1, ..state }
            } else {
                state
            },
            EventView::ShellClosed => if state.stage is Inspecting && state.acknowledged
                && state.opened >= state.review.len() {
                PipelineView { stage: Stage::Done, ..state }
            } else {
                state
            },
        }
    }
}

/// The action a state waits for.
pub open spec fn pending(state: PipelineView) -> ActionView {
    match state.stage {
        Stage::Fetched => ActionView::Start,
        Stage::Downloading => match state.url {
            Some(url) => ActionView::Download { url, directory: state.directory },
            None => ActionView::Stop,
        },
        Stage::Extracted => ActionView::ListFiles { directory: state.directory },
        Stage::Inspecting => if !state.acknowledged {
            ActionView::ShowReport
        } else if state.opened < state.review.len() {
            ActionView::OpenEditor { path: state.review[state.opened as int] }
        } else {
            ActionView::OpenShell { directory: state.directory }
        },
        Stage::Done => ActionView::Stop,
        Stage::Failed(_) => ActionView::Stop,
    }
}

/// No event moves an entry out of a terminal stage.
pub proof fn lemma_terminal_stages_absorb(state: PipelineView, event: EventView)
    requires
        state.stage.is_terminal(),
    ensures
        step(state, event) == state,
{
}

/// From every stage that is not terminal, a failure leads to `Failed` with
/// the kind of the failure.
pub proof fn lemma_failure_reachable(state: PipelineView, kind: GraderError)
    requires
        !state.stage.is_terminal(),
    ensures
        step(state, EventView::Failed(kind)).stage == Stage::Failed(kind),
{
}

/// An entry never moves back: the rank of its stage does not decrease.
pub proof fn lemma_stage_never_decreases(state: PipelineView, event: EventView)
    ensures
        state.stage.rank() <= step(state, event).stage.rank(),
{
}

/// An entry without an attachment fails with `AttachmentNotFound` as soon
/// as work on it begins, and no request is made for it.
pub proof fn lemma_no_attachment_fails(state: PipelineView)
    requires
        state.stage is Fetched,
        state.url is None,
    ensures
        step(state, EventView::Begin).stage == Stage::Failed(GraderError::AttachmentNotFound),
        pending(step(state, EventView::Begin)) == ActionView::Stop,
{
}

/// An entry on its way through the stages.
pub struct EntryPipeline {
    entry: UserSubmission,
    stage: Stage,
    report: GradeReport,
    acknowledged: bool,
    opened: usize,
}

impl View for EntryPipeline {
    type V = PipelineView;

    closed spec fn view(&self) -> PipelineView {
        PipelineView {
            stage: self.stage,
            directory: self.entry.user_profile.sortable_name@,
            url: if self.entry.submission.has_attachment() {
                Some(self.entry.submission.first_url())
            } else {
                None
            },
            name_lines: self.report.name_lines(),
            disclaimer_lines: self.report.disclaimer_lines(),
            review: self.report.review(),
            acknowledged: self.acknowledged,
            opened: self.opened as nat,
        }
    }
}

impl EntryPipeline {
    /// Starts the way of an entry: it is `Fetched`, with nothing to show yet.
    pub fn new(entry: UserSubmission) -> (pipeline: EntryPipeline)
        ensures
            pipeline@ == (PipelineView {
                stage: Stage::Fetched,
                directory: entry.user_profile.sortable_name@,
                url: if entry.submission.has_attachment() {
                    Some(entry.submission.first_url())
                } else {
                    None
                },
                name_lines: Seq::empty(),
                disclaimer_lines: Seq::empty(),
                review: Seq::empty(),
                acknowledged: false,
                opened: 0,
            }),
    {
        let report = GradeReport {
            name_lines: Vec::new(),
            disclaimer_lines: Vec::new(),
            review: Vec::new(),
        };
        assert(report.name_lines() =~= Seq::empty());
        assert(report.disclaimer_lines() =~= Seq::empty());
        assert(report.review() =~= Seq::empty());
        EntryPipeline { entry, stage: Stage::Fetched, report, acknowledged: false, opened: 0 }
    }

    /// The stage the entry stands at.
    pub fn stage(&self) -> (stage: Stage)
        ensures
            stage == self@.stage,
    {
        self.stage
    }

    /// The reports on the entry: empty until its files have been listed.
    pub fn report(&self) -> (report: &GradeReport)
        ensures
            report.name_lines() == self@.name_lines,
            report.disclaimer_lines() == self@.disclaimer_lines,
            report.review() == self@.review,
    {
        &self.report
    }

    /// The action the entry waits for.
    pub fn pending(&self) -> (action: Action)
        ensures
            action@ == pending(self@),
    {
        match self.stage {
            Stage::Fetched => Action::Start,
            Stage::Downloading => match &self.entry.submission.attachments {
                Some(list) => if list.len() > 0 {
                    Action::Download {
                        url: list[0].url.clone(),
                        directory: self.entry.user_profile.sortable_name.clone(),
                    }
                } else {
                    Action::Stop
                },
                None => Action::Stop,
            },
            Stage::Extracted => Action::ListFiles {
                directory: self.entry.user_profile.sortable_name.clone(),
            },
            Stage::Inspecting => if !self.acknowledged {
                Action::ShowReport
            } else if self.opened < self.report.review.len() {
                Action::OpenEditor { path: self.report.review[self.opened].clone() }
            } else {
                Action::OpenShell { directory: self.entry.user_profile.sortable_name.clone() }
            },
            Stage::Done => Action::Stop,
            Stage::Failed(_) => Action::Stop,
        }
    }

    /// Takes in what came of the last action and hands out the next one.
    pub fn advance(&mut self, event: Event, pattern: &NamePattern) -> (action: Action)
        ensures
            final(self)@ == step(old(self)@, event@),
            action@ == pending(final(self)@),
    {
        match self.stage {
            Stage::Done => {},
            Stage::Failed(_) => {},
            Stage::Fetched => match event {
                Event::Failed(kind) => {
                    self.stage = Stage::Failed(kind);
                },
                Event::Begin => {
                    let has_attachment = match &self.entry.submission.attachments {
                        Some(list) => list.len() > 0,
                        None => false,
                    };
                    if has_attachment {
                        self.stage = Stage::Downloading;
                    } else {
                        self.stage = Stage::Failed(GraderError::AttachmentNotFound);
                    }
                },
                _ => {},
            },
            Stage::Downloading => match event {
                Event::Failed(kind) => {
                    self.stage = Stage::Failed(kind);
                },
                Event::Unpacked => {
                    self.stage = Stage::Extracted;
                },
                _ => {},
            },
            Stage::Extracted => match event {
                Event::Failed(kind) => {
                    self.stage = Stage::Failed(kind);
                },
                Event::Listed(files) => {
                    self.report = grade_files(
                        self.entry.user_profile.sortable_name.as_str(),
                        &files,
                        pattern,
                    );
                    self.acknowledged = false;
                    self.opened = 0;
                    self.stage = Stage::Inspecting;
                },
                _ => {},
            },
            Stage::Inspecting => match event {
                Event::Failed(kind) => {
                    self.stage = Stage::Failed(kind);
                },
                Event::Acknowledged => {
                    self.acknowledged = true;
                },
                Event::EditorClosed => {
                    if self.acknowledged && self.opened < self.report.review.len() {
                        self.opened = self.opened + 1;
                    }
                },
                Event::ShellClosed => {
                    if self.acknowledged && self.opened >= self.report.review.len() {
                        self.stage = Stage::Done;
                    }
                },
                _ => {},
            },
        }
        self.pending()
    }

    /// The unpacked submission, once the archive has been unpacked.
    pub fn downloaded(&self) -> (unpacked: Option<DownloadedSubmission>)
        ensures
            unpacked is Some <==> self@.stage is Extracted || self@.stage is Inspecting
                || self@.stage is Done,
            unpacked matches Some(d) ==> d.path@ == self@.directory
                && d.user_profile.sortable_name@ == self@.directory,
    {
        match self.stage {
            Stage::Extracted | Stage::Inspecting | Stage::Done => Some(
                DownloadedSubmission {
                    user_profile: UserProfile {
                        sortable_name: self.entry.user_profile.sortable_name.clone(),
                    },
                    path: self.entry.user_profile.sortable_name.clone(),
                },
            ),
            _ => None,
        }
    }
}

/// The state of a batch, as the transitions see it.
pub struct BatchView {
    /// The slots of the portion: `Some` for an entry not yet handed out.
    pub slots: Seq<Option<UserSubmission>>,
    /// The slots the grader chose, in the order they are processed.
    pub chosen: Seq<usize>,
    /// How many of the chosen slots have been handed out.
    pub handed_out: nat,
    /// The failure the batch stopped at, if it has.
    pub halted: Option<GraderError>,
}

/// What asking a batch for its next entry yields. A halted batch repeats
/// its failure. A batch whose chosen slots are all handed out yields
/// nothing more. Otherwise the next chosen slot is taken: its entry, or the
/// invalid selection that then halts the batch.
pub open spec fn next_of(batch: BatchView) -> Result<Option<UserSubmission>, GraderError> {
    match batch.halted {
        Some(kind) => Err(kind),
        None => if batch.handed_out >= batch.chosen.len() {
            Ok(None)
        } else {
            match take_result(batch.slots, batch.chosen[batch.handed_out as int] as int) {
                Ok(entry) => Ok(Some(entry)),
                Err(kind) => Err(kind),
            }
        },
    }
}

/// The batch after it was asked for its next entry.
pub open spec fn after_next(batch: BatchView) -> BatchView {
    if batch.halted is Some || batch.handed_out >= batch.chosen.len() {
        batch
    } else {
        let index = batch.chosen[batch.handed_out as int] as int;
        match take_result(batch.slots, index) {
            Ok(_) => BatchView {
                slots: slots_after_take(batch.slots, index),
                handed_out: batch.handed_out + 1,
                ..batch
            },
            Err(kind) => BatchView {
                slots: slots_after_take(batch.slots, index),
                halted: Some(kind),
                ..batch
            },
        }
    }
}

/// The batch after the entry handed out last ended at `stage`: a failed
/// entry halts a batch that was still running, with the kind of its failure.
pub open spec fn after_entry(batch: BatchView, stage: Stage) -> BatchView {
    match (batch.halted, stage) {
        (None, Stage::Failed(kind)) => BatchView { halted: Some(kind), ..batch },
        _ => batch,
    }
}

/// A halted batch hands out no further entry and never runs again.
pub proof fn lemma_halted_batch_stays_halted(batch: BatchView, stage: Stage)
    requires
        batch.halted is Some,
    ensures
        next_of(batch) == Err::<Option<UserSubmission>, GraderError>(batch.halted->0),
        after_next(batch) == batch,
        after_entry(batch, stage) == batch,
{
}

/// The entries the grader chose, processed one after the other until the
/// first failure.
pub struct Batch {
    selection: Selection,
    chosen: Vec<usize>,
    handed_out: usize,
    halted: Option<GraderError>,
}

impl View for Batch {
    type V = BatchView;

    closed spec fn view(&self) -> BatchView {
        BatchView {
            slots: self.selection.slots(),
            chosen: self.chosen@,
            handed_out: self.handed_out as nat,
            halted: self.halted,
        }
    }
}

impl Batch {
    /// Starts a batch over the slots of a portion and the slots chosen of it.
    pub fn new(selection: Selection, chosen: Vec<usize>) -> (batch: Batch)
        ensures
            batch@ == (BatchView {
                slots: selection.slots(),
                chosen: chosen@,
                handed_out: 0,
                halted: None,
            }),
    {
        Batch { selection, chosen, handed_out: 0, halted: None }
    }

    /// The failure the batch stopped at, if it has.
    pub fn halted(&self) -> (halted: Option<GraderError>)
        ensures
            halted == self@.halted,
    {
        self.halted
    }

    /// Hands out the next entry to process; `Ok(None)` when every chosen
    /// entry has been handed out, the failure when the batch has stopped.
    pub fn next_entry(&mut self) -> (result: Result<Option<UserSubmission>, GraderError>)
        ensures
            result == next_of(old(self)@),
            final(self)@ == after_next(old(self)@),
    {
        match self.halted {
            Some(kind) => Err(kind),
            None => {
                if self.handed_out >= self.chosen.len() {
                    return Ok(None);
                }
                let index = self.chosen[self.handed_out];
                match self.selection.take(index) {
                    Ok(entry) => {
                        self.handed_out = self.handed_out + 1;
                        Ok(Some(entry))
                    },
                    Err(kind) => {
                        self.halted = Some(kind);
                        Err(kind)
                    },
                }
            },
        }
    }

    /// Records the stage the entry handed out last ended at.
    pub fn entry_ended(&mut self, stage: Stage)
        ensures
            final(self)@ == after_entry(old(self)@, stage),
    {
        match (self.halted, stage) {
            (None, Stage::Failed(kind)) => {
                self.halted = Some(kind);
            },
            _ => {},
        }
    }
}

/// The editor used when none is configured.
pub const DEFAULT_EDITOR: &'static str = "vi";

/// Chooses the editor: the configured one, or the default if none is.
pub fn editor_command(configured: Option<String>) -> (editor: String)
    ensures
        editor@ == match configured {
            Some(command) => command@,
            None => DEFAULT_EDITOR@,
        },
{
    match configured {
        Some(command) => command,
        None => DEFAULT_EDITOR.to_owned(),
    }
}

/// The command line of the review shell for `directory`: it changes into the
/// directory and replaces itself with the grader's shell, or `sh` if none is
/// set.
pub open spec fn shell_command_of(directory: Seq<char>) -> Seq<char> {
    "cd '"@ + directory + "'; exec ${SHELL:-sh}"@
}

/// Builds the command line of the review shell for `directory`.
pub fn shell_command(directory: &str) -> (command: String)
    ensures
        command@ == shell_command_of(directory@),
{
    let mut command = "cd '".to_owned();
    command.append(directory);
    command.append("'; exec ${SHELL:-sh}");
    command
}

} // verus!
