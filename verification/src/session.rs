//! One run over one library root, as a sequence of decisions.
//!
//! A `Session` never reads a directory, asks a question or moves a file. It
//! names the next thing to be done (`Action`), is told how that went
//! (`Event`), and decides what follows. Whoever drives it performs the
//! actions, in the order in which they are named.
//!
//! Nothing is retried and nothing is rolled back: the first action that fails
//! ends the run with an error, and the files that were moved before stay
//! where they are.

use vstd::prelude::*;
use vstd::string::*;
use crate::confirm::{is_affirmative, is_affirmative_line};
use crate::listing::{
    directories_in, entry_views, episode_views, episodes_in, episodes_of, name_views,
    subfolders, Entry, EntryView, EpisodeFile, EpisodeView,
};

verus! {

/// What became of one pending file.
#[derive(Clone, Copy, Debug, PartialEq, Eq, Structural)]
pub enum OperationResult {
    /// The file stands in the root and its season folder is gone.
    Moved,
    /// The file stands in the root; its season folder could not be removed.
    MovedButCleanupFailed,
    /// The file could not be moved and stands where it was.
    Failed,
}

/// Why a run ended without an error.
#[derive(Clone, Copy, Debug, PartialEq, Eq, Structural)]
pub enum Conclusion {
    /// No episode file was found: there was nothing to do.
    NothingToDo,
    /// The operator declined.
    Cancelled,
    /// Every pending file was moved and every season folder removed.
    Completed,
}

/// The result of a run that met no error: why it ended and how many files
/// were fully moved.
#[derive(Clone, Copy, Debug, PartialEq, Eq, Structural)]
pub struct Summary {
    pub conclusion: Conclusion,
    pub moved: usize,
}

/// A `Summary` as contracts speak of it.
pub struct SummaryView {
    pub conclusion: Conclusion,
    pub moved: nat,
}

impl View for Summary {
    type V = SummaryView;

    open spec fn view(&self) -> SummaryView {
        SummaryView { conclusion: self.conclusion, moved: self.moved as nat }
    }
}

impl SummaryView {
    /// The summary of a run that moved nothing.
    pub open spec fn idle(conclusion: Conclusion) -> SummaryView {
        SummaryView { conclusion, moved: 0 }
    }
}

/// Where a session stands.
#[derive(Clone, Copy, Debug, PartialEq, Eq, Structural)]
pub enum Phase {
    /// Waiting for the listing of the root.
    ListingRoot,
    /// Waiting for the listing of a season folder.
    ListingFolder,
    /// Waiting for the operator's answer.
    Confirming,
    /// Waiting for a file to be moved into the root.
    Moving,
    /// Waiting for the season folder of the file just moved to be removed.
    Cleaning,
    /// Over: the outcome is known.
    Finished,
}

/// What the driver is asked to do next. Folder and file names are relative
/// to the session's root.
#[derive(Debug, PartialEq, Eq)]
pub enum Action {
    /// List the entries of the root.
    ListRoot,
    /// List the entries of the season folder `folder`.
    ListFolder { folder: String },
    /// Show the pending files and ask the operator whether to proceed.
    Confirm,
    /// Rename the file `file` of the season folder `folder` to `file` in the
    /// root.
    Move { folder: String, file: String },
    /// Remove the season folder `folder` with all that is left in it.
    RemoveFolder { folder: String },
    /// Nothing: the session is over.
    Finish,
}

/// An `Action` as contracts speak of it.
pub enum ActionView {
    ListRoot,
    ListFolder { folder: Seq<char> },
    Confirm,
    Move { folder: Seq<char>, file: Seq<char> },
    RemoveFolder { folder: Seq<char> },
    Finish,
}

impl View for Action {
    type V = ActionView;

    open spec fn view(&self) -> ActionView {
        match self {
            Action::ListRoot => ActionView::ListRoot,
            Action::ListFolder { folder } => ActionView::ListFolder { folder: folder@ },
            Action::Confirm => ActionView::Confirm,
            Action::Move { folder, file } => ActionView::Move { folder: folder@, file: file@ },
            Action::RemoveFolder { folder } => ActionView::RemoveFolder { folder: folder@ },
            Action::Finish => ActionView::Finish,
        }
    }
}

/// How the action last named went.
#[derive(Debug, PartialEq, Eq)]
pub enum Event {
    /// The directory was read: these are its entries, in the order in which
    /// they came.
    Listed(Vec<Entry>),
    /// The operator typed this line.
    Answered(String),
    /// The file was moved, or the folder removed.
    Succeeded,
    /// The action failed, for the reason given.
    Failed(String),
}

/// An `Event` as contracts speak of it.
pub enum EventView {
    Listed(Seq<EntryView>),
    Answered(Seq<char>),
    Succeeded,
    Failed(Seq<char>),
}

impl View for Event {
    type V = EventView;

    open spec fn view(&self) -> EventView {
        match self {
            Event::Listed(entries) => EventView::Listed(entry_views(entries@)),
            Event::Answered(line) => EventView::Answered(line@),
            Event::Succeeded => EventView::Succeeded,
            Event::Failed(cause) => EventView::Failed(cause@),
        }
    }
}

/// Why a run was given up.
#[derive(Debug, PartialEq, Eq)]
pub enum ExtractError {
    /// A directory could not be read, a file not moved or a folder not
    /// removed. `operation` is the action that failed, and with it the path
    /// at fault.
    Filesystem { operation: Action, cause: String },
    /// The operator's answer could not be read. This is no refusal: the run
    /// ends in an error.
    Input { cause: String },
}

/// An `ExtractError` as contracts speak of it.
pub enum ExtractErrorView {
    Filesystem { operation: ActionView, cause: Seq<char> },
    Input { cause: Seq<char> },
}

impl View for ExtractError {
    type V = ExtractErrorView;

    open spec fn view(&self) -> ExtractErrorView {
        match self {
            ExtractError::Filesystem { operation, cause } => ExtractErrorView::Filesystem {
                operation: operation@,
                cause: cause@,
            },
            ExtractError::Input { cause } => ExtractErrorView::Input { cause: cause@ },
        }
    }
}

/// The outcome of a run as contracts speak of it.
pub open spec fn outcome_view(outcome: Result<Summary, ExtractError>) -> Result<
    SummaryView,
    ExtractErrorView,
> {
    match outcome {
        Ok(summary) => Ok(summary@),
        Err(error) => Err(error@),
    }
}

/// The number of files fully moved among `results`.
pub open spec fn moved_count(results: Seq<OperationResult>) -> nat
    decreases results.len(),
{
    if results.len() == 0 {
        0
    } else {
        moved_count(results.drop_last()) + if results.last() == OperationResult::Moved {
            1nat
        } else {
            0nat
        }
    }
}

/// A session as contracts speak of it.
pub struct SessionView {
    /// The library root, as the operator named it.
    pub root: Seq<char>,
    /// Whether consent is taken for granted.
    pub auto_confirm: bool,
    pub phase: Phase,
    /// The season folders found in the root, in the order of its listing.
    pub folders: Seq<Seq<char>>,
    /// While folders are listed: how many have been. While files are moved:
    /// how many have been fully moved.
    pub at: int,
    /// The episode files discovered so far, in the order of discovery.
    pub pending: Seq<EpisodeView>,
    /// What became of the files handled so far, in the order of `pending`.
    pub results: Seq<OperationResult>,
    /// How the run ended, once it has.
    pub outcome: Option<Result<SummaryView, ExtractErrorView>>,
}

impl SessionView {
    /// The session that starts on `root`: nothing read, nothing found.
    pub open spec fn start(root: Seq<char>, auto_confirm: bool) -> SessionView {
        SessionView {
            root,
            auto_confirm,
            phase: Phase::ListingRoot,
            folders: Seq::empty(),
            at: 0,
            pending: Seq::empty(),
            results: Seq::empty(),
            outcome: None,
        }
    }

    /// What a session holds at every moment: its cursor points at a folder
    /// while folders are listed and at a pending file while files are moved,
    /// the operator is asked only about files that were found, and there is
    /// an outcome exactly when the session is over.
    pub open spec fn wf(self) -> bool {
        &&& self.phase == Phase::ListingFolder ==> 0 <= self.at < self.folders.len()
        &&& self.phase == Phase::Confirming ==> self.pending.len() > 0
        &&& (self.phase == Phase::Moving || self.phase == Phase::Cleaning) ==> 0 <= self.at
            < self.pending.len()
        &&& self.phase == Phase::Finished <==> self.outcome is Some
    }

    /// The action that the session waits for.
    pub open spec fn action(self) -> ActionView {
        match self.phase {
            Phase::ListingRoot => ActionView::ListRoot,
            Phase::ListingFolder => ActionView::ListFolder { folder: self.folders[self.at] },
            Phase::Confirming => ActionView::Confirm,
            Phase::Moving => ActionView::Move {
                folder: self.pending[self.at].folder,
                file: self.pending[self.at].name,
            },
            Phase::Cleaning => ActionView::RemoveFolder { folder: self.pending[self.at].folder },
            Phase::Finished => ActionView::Finish,
        }
    }

    /// This session, over, with the outcome given.
    pub open spec fn finished(self, outcome: Result<SummaryView, ExtractErrorView>) -> SessionView {
        SessionView { phase: Phase::Finished, outcome: Some(outcome), ..self }
    }

    /// This session, given up because the action it waited for failed.
    pub open spec fn failed(self, cause: Seq<char>) -> SessionView {
        self.finished(Err(ExtractErrorView::Filesystem { operation: self.action(), cause }))
    }

    /// This session with the moves about to begin, at the first pending
    /// file.
    pub open spec fn moving(self) -> SessionView {
        SessionView { phase: Phase::Moving, at: 0, ..self }
    }

    /// Where discovery leads once every season folder has been listed: to
    /// the end when nothing was found, to the moves when consent is taken
    /// for granted, else to the operator.
    pub open spec fn discovered(self) -> SessionView {
        if self.pending.len() == 0 {
            self.finished(Ok(SummaryView::idle(Conclusion::NothingToDo)))
        } else if self.auto_confirm {
            self.moving()
        } else {
            SessionView { phase: Phase::Confirming, ..self }
        }
    }

    /// This session with `at` folders listed: it lists the next one, or
    /// discovery is over.
    pub open spec fn listing_from(self, at: int) -> SessionView {
        if at < self.folders.len() {
            SessionView { phase: Phase::ListingFolder, at, ..self }
        } else {
            SessionView { at, ..self }.discovered()
        }
    }

    /// The session that follows this one when `event` answers the action it
    /// waits for. An event that does not answer that action changes nothing,
    /// nor does any event once the session is over.
    pub open spec fn step(self, event: EventView) -> SessionView {
        match (self.phase, event) {
            (Phase::ListingRoot, EventView::Listed(entries)) => SessionView {
                folders: directories_in(entries),
                ..self
            }.listing_from(0),
            (Phase::ListingFolder, EventView::Listed(entries)) => SessionView {
                pending: self.pending + episodes_in(self.folders[self.at], entries),
                ..self
            }.listing_from(self.at + 1),
            (Phase::Confirming, EventView::Answered(line)) => if is_affirmative_line(line) {
                self.moving()
            } else {
                self.finished(Ok(SummaryView::idle(Conclusion::Cancelled)))
            },
            (Phase::Confirming, EventView::Failed(cause)) => self.finished(
                Err(ExtractErrorView::Input { cause }),
            ),
            (Phase::Moving, EventView::Succeeded) => SessionView {
                phase: Phase::Cleaning,
                ..self
            },
            (Phase::Cleaning, EventView::Succeeded) => {
                let results = self.results.push(OperationResult::Moved);
                if self.at + 1 < self.pending.len() {
                    SessionView { phase: Phase::Moving, at: self.at + 1, results, ..self }
                } else {
                    SessionView { at: self.at + 1, results, ..self }.finished(
                        Ok(
                            SummaryView {
                                conclusion: Conclusion::Completed,
                                moved: moved_count(results),
                            },
                        ),
                    )
                }
            },
            (Phase::ListingRoot, EventView::Failed(cause)) => self.failed(cause),
            (Phase::ListingFolder, EventView::Failed(cause)) => self.failed(cause),
            (Phase::Moving, EventView::Failed(cause)) => SessionView {
                results: self.results.push(OperationResult::Failed),
                ..self
            }.failed(cause),
            (Phase::Cleaning, EventView::Failed(cause)) => SessionView {
                results: self.results.push(OperationResult::MovedButCleanupFailed),
                ..self
            }.failed(cause),
            _ => self,
        }
    }
}

/// A step keeps a session well formed.
pub proof fn lemma_step_keeps_wf(session: SessionView, event: EventView)
    requires
        session.wf(),
    ensures
        session.step(event).wf(),
{
}

impl Action {
    /// A copy of this action.
    pub fn duplicate(&self) -> (copy: Action)
        ensures
            copy@ == self@,
    {
        match self {
            Action::ListRoot => Action::ListRoot,
            Action::ListFolder { folder } => Action::ListFolder { folder: folder.clone() },
            Action::Confirm => Action::Confirm,
            Action::Move { folder, file } => Action::Move {
                folder: folder.clone(),
                file: file.clone(),
            },
            Action::RemoveFolder { folder } => Action::RemoveFolder { folder: folder.clone() },
            Action::Finish => Action::Finish,
        }
    }
}

impl ExtractError {
    /// A copy of this error.
    pub fn duplicate(&self) -> (copy: ExtractError)
        ensures
            copy@ == self@,
    {
        match self {
            ExtractError::Filesystem { operation, cause } => ExtractError::Filesystem {
                operation: operation.duplicate(),
                cause: cause.clone(),
            },
            ExtractError::Input { cause } => ExtractError::Input { cause: cause.clone() },
        }
    }
}

/// Counts the files fully moved among `results`.
pub fn count_moved(results: &Vec<OperationResult>) -> (count: usize)
    ensures
        count == moved_count(results@),
{
    let mut count: usize = 0;
    let mut i: usize = 0;
    while i < results.len()
        invariant
            i <= results.len(),
            count <= i,
            count == moved_count(results@.take(i as int)),
        decreases results.len() - i,
    {
        proof {
            assert(results@.take(i + 1).drop_last() =~= results@.take(i as int));
        }
        if results[i] == OperationResult::Moved {
            count += 1;
        }
        i += 1;
    }
    assert(results@.take(i as int) =~= results@);
    count
}

/// One run over one library root: what has been found and done so far, and
/// what is to be done next.
pub struct Session {
    root: String,
    auto_confirm: bool,
    phase: Phase,
    folders: Vec<String>,
    at: usize,
    pending: Vec<EpisodeFile>,
    results: Vec<OperationResult>,
    outcome: Option<Result<Summary, ExtractError>>,
}

impl View for Session {
    type V = SessionView;

    closed spec fn view(&self) -> SessionView {
        SessionView {
            root: self.root@,
            auto_confirm: self.auto_confirm,
            phase: self.phase,
            folders: name_views(self.folders@),
            at: self.at as int,
            pending: episode_views(self.pending@),
            results: self.results@,
            outcome: match self.outcome {
                Some(outcome) => Some(outcome_view(outcome)),
                None => None,
            },
        }
    }
}

/// Begins a run on the library root that `target` names. With
/// `auto_confirm` the operator is not asked. The session first wants the
/// root listed.
pub fn extract_from_string(target: &String, auto_confirm: bool) -> (session: Session)
    ensures
        session@ == SessionView::start(target@, auto_confirm),
        session@.wf(),
{
    let session = Session {
        root: target.clone(),
        auto_confirm,
        phase: Phase::ListingRoot,
        folders: Vec::new(),
        at: 0,
        pending: Vec::new(),
        results: Vec::new(),
        outcome: None,
    };
    assert(session@.folders =~= Seq::empty());
    assert(session@.pending =~= Seq::empty());
    session
}

impl Session {
    #[verifier::type_invariant]
    spec fn well_formed(self) -> bool {
        self@.wf()
    }

    /// The library root of this run, as it was named at the start.
    pub fn root(&self) -> (root: &String)
        ensures
            root@ == self@.root,
    {
        &self.root
    }

    /// Whether consent is taken for granted.
    pub fn auto_confirm(&self) -> (auto_confirm: bool)
        ensures
            auto_confirm == self@.auto_confirm,
    {
        self.auto_confirm
    }

    /// Where the session stands.
    pub fn phase(&self) -> (phase: Phase)
        ensures
            phase == self@.phase,
    {
        self.phase
    }

    /// Whether the session is over.
    pub fn is_finished(&self) -> (over: bool)
        ensures
            over == (self@.phase == Phase::Finished),
            over == (self@.outcome is Some),
    {
        proof {
            use_type_invariant(self);
        }
        self.phase == Phase::Finished
    }

    /// The episode files discovered so far, in the order of discovery.
    pub fn pending(&self) -> (pending: &Vec<EpisodeFile>)
        ensures
            episode_views(pending@) == self@.pending,
    {
        &self.pending
    }

    /// What became of the files handled so far, in the order of `pending`.
    pub fn results(&self) -> (results: &Vec<OperationResult>)
        ensures
            results@ == self@.results,
    {
        &self.results
    }

    /// How the run ended: `None` while it is not over.
    pub fn outcome(&self) -> (outcome: Option<Result<Summary, ExtractError>>)
        ensures
            match outcome {
                Some(outcome) => self@.outcome == Some(outcome_view(outcome)),
                None => self@.outcome is None,
            },
    {
        match &self.outcome {
            Some(Ok(summary)) => Some(Ok(*summary)),
            Some(Err(error)) => Some(Err(error.duplicate())),
            None => None,
        }
    }

    /// The action that the session waits for.
    pub fn action(&self) -> (action: Action)
        ensures
            action@ == self@.action(),
    {
        proof {
            use_type_invariant(self);
        }
        match self.phase {
            Phase::ListingRoot => Action::ListRoot,
            Phase::ListingFolder => Action::ListFolder { folder: self.folders[self.at].clone() },
            Phase::Confirming => Action::Confirm,
            Phase::Moving => Action::Move {
                folder: self.pending[self.at].folder.clone(),
                file: self.pending[self.at].name.clone(),
            },
            Phase::Cleaning => Action::RemoveFolder {
                folder: self.pending[self.at].folder.clone(),
            },
            Phase::Finished => Action::Finish,
        }
    }

    fn finished(self, outcome: Result<Summary, ExtractError>) -> (next: Session)
        ensures
            next@ == self@.finished(outcome_view(outcome)),
    {
        Session { phase: Phase::Finished, outcome: Some(outcome), ..self }
    }

    fn failed(self, cause: String) -> (next: Session)
        ensures
            next@ == self@.failed(cause@),
    {
        let operation = self.action();
        self.finished(Err(ExtractError::Filesystem { operation, cause }))
    }

    fn moving(self) -> (next: Session)
        requires
            self@.phase != Phase::Finished,
            self@.pending.len() > 0,
        ensures
            next@ == self@.moving(),
    {
        proof {
            use_type_invariant(&self);
        }
        Session { phase: Phase::Moving, at: 0, ..self }
    }

    fn discovered(self) -> (next: Session)
        requires
            self@.phase != Phase::Finished,
        ensures
            next@ == self@.discovered(),
    {
        proof {
            use_type_invariant(&self);
        }
        if self.pending.len() == 0 {
            self.finished(Ok(Summary { conclusion: Conclusion::NothingToDo, moved: 0 }))
        } else if self.auto_confirm {
            self.moving()
        } else {
            Session { phase: Phase::Confirming, ..self }
        }
    }

    /// Takes in how the action last named went, and decides what follows.
    /// An event that does not answer that action is passed over.
    pub fn handle(self, event: Event) -> (next: Session)
        ensures
            next@ == self@.step(event@),
            next@.wf(),
    {
        proof {
            use_type_invariant(&self);
            lemma_step_keeps_wf(self@, event@);
        }
        match (self.phase, event) {
            (Phase::ListingRoot, Event::Listed(entries)) => {
                let folders = subfolders(&entries);
                if folders.len() > 0 {
                    Session { phase: Phase::ListingFolder, folders, at: 0, ..self }
                } else {
                    Session { folders, at: 0, ..self }.discovered()
                }
            },
            (Phase::ListingFolder, Event::Listed(entries)) => {
                let mut found = episodes_of(self.folders[self.at].as_str(), &entries);
                let ghost before = self.pending@;
                let ghost added = found@;
                assert(self.at < self.folders.len());
                let at = self.at + 1;
                let more = at < self.folders.len();
                let mut pending = self.pending;
                pending.append(&mut found);
                assert(episode_views(pending@) =~= episode_views(before) + episode_views(added));
                if more {
                    Session {
                        root: self.root,
                        auto_confirm: self.auto_confirm,
                        phase: Phase::ListingFolder,
                        folders: self.folders,
                        at,
                        pending,
                        results: self.results,
                        outcome: self.outcome,
                    }
                } else {
                    Session {
                        root: self.root,
                        auto_confirm: self.auto_confirm,
                        phase: Phase::ListingRoot,
                        folders: self.folders,
                        at,
                        pending,
                        results: self.results,
                        outcome: self.outcome,
                    }.discovered()
                }
            },
            (Phase::Confirming, Event::Answered(line)) => {
                if is_affirmative(line.as_str()) {
                    self.moving()
                } else {
                    self.finished(Ok(Summary { conclusion: Conclusion::Cancelled, moved: 0 }))
                }
            },
            (Phase::Confirming, Event::Failed(cause)) => self.finished(
                Err(ExtractError::Input { cause }),
            ),
            (Phase::Moving, Event::Succeeded) => Session { phase: Phase::Cleaning, ..self },
            (Phase::Cleaning, Event::Succeeded) => {
                assert(self.at < self.pending.len());
                let at = self.at + 1;
                let more = at < self.pending.len();
                let mut results = self.results;
                results.push(OperationResult::Moved);
                if more {
                    Session {
                        root: self.root,
                        auto_confirm: self.auto_confirm,
                        phase: Phase::Moving,
                        folders: self.folders,
                        at,
                        pending: self.pending,
                        results,
                        outcome: self.outcome,
                    }
                } else {
                    let moved = count_moved(&results);
                    Session {
                        root: self.root,
                        auto_confirm: self.auto_confirm,
                        phase: Phase::Finished,
                        folders: self.folders,
                        at,
                        pending: self.pending,
                        results,
                        outcome: Some(
                            Ok(Summary { conclusion: Conclusion::Completed, moved }),
                        ),
                    }
                }
            },
            (Phase::ListingRoot, Event::Failed(cause)) => self.failed(cause),
            (Phase::ListingFolder, Event::Failed(cause)) => self.failed(cause),
            (Phase::Moving, Event::Failed(cause)) => {
                let operation = self.action();
                let mut results = self.results;
                results.push(OperationResult::Failed);
                Session {
                    root: self.root,
                    auto_confirm: self.auto_confirm,
                    phase: Phase::Finished,
                    folders: self.folders,
                    at: self.at,
                    pending: self.pending,
                    results,
                    outcome: Some(Err(ExtractError::Filesystem { operation, cause })),
                }
            },
            (Phase::Cleaning, Event::Failed(cause)) => {
                let operation = self.action();
                let mut results = self.results;
                results.push(OperationResult::MovedButCleanupFailed);
                Session {
                    root: self.root,
                    auto_confirm: self.auto_confirm,
                    phase: Phase::Finished,
                    folders: self.folders,
                    at: self.at,
                    pending: self.pending,
                    results,
                    outcome: Some(Err(ExtractError::Filesystem { operation, cause })),
                }
            },
            _ => self,
        }
    }
}

} // verus!
