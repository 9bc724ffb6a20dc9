//! A whole run on a library held in memory.
//!
//! `extract` drives a session to its end against a `Library`, which answers
//! each action as a filesystem would. What that leaves, and what it
//! reports, is stated without the session: discovery, consent, then one
//! file after the other.

use vstd::prelude::*;
use vstd::string::*;
use crate::confirm::is_affirmative_line;
use crate::library::{folder_names, lemma_folder_at, Fault, FolderView, Library, LibraryView};
use crate::listing::{
    directories_in, episode_views, episodes_in, episodes_of, name_views, subfolders, EntryKind,
    EntryView, EpisodeFile, EpisodeView,
};
use crate::session::{
    extract_from_string, moved_count, outcome_view, Action, ActionView, Conclusion, Event,
    ExtractError, ExtractErrorView, OperationResult, Phase, SessionView, Summary, SummaryView,
};

verus! {

/// The episode files of `folders`, folder after folder, each folder's in the
/// order of its listing.
pub open spec fn scan_folders(folders: Seq<FolderView>) -> Seq<EpisodeView>
    decreases folders.len(),
{
    if folders.len() == 0 {
        Seq::empty()
    } else {
        scan_folders(folders.drop_last()) + episodes_in(
            folders.last().name,
            folders.last().entries,
        )
    }
}

/// What discovery finds in a library: the episode files that lie directly in
/// its season folders. Files of the root, and what lies deeper than a season
/// folder, are not looked at.
pub open spec fn scan(library: LibraryView) -> Seq<EpisodeView> {
    scan_folders(library.folders)
}

/// The error of a run given up because `operation` met `fault`.
pub open spec fn fault_error(operation: ActionView, fault: Fault) -> ExtractErrorView {
    ExtractErrorView::Filesystem { operation, cause: fault.text() }
}

/// What is left, and what is reported, when the files of `pending` from
/// place `at` on are handled one after the other: each is moved up into the
/// root, then its season folder is removed. The first refusal ends the run
/// with an error; what was done before it stays done.
pub open spec fn flatten_from(library: LibraryView, pending: Seq<EpisodeView>, at: int) -> (
    LibraryView,
    Result<SummaryView, ExtractErrorView>,
)
    decreases pending.len() - at, 1int,
{
    if at >= pending.len() {
        (
            library,
            Ok(SummaryView { conclusion: Conclusion::Completed, moved: pending.len() }),
        )
    } else {
        let episode = pending[at];
        match library.move_up(episode.folder, episode.name) {
            Ok(moved) => clean_from(moved, pending, at),
            Err(fault) => (
                library,
                Err(
                    fault_error(
                        ActionView::Move { folder: episode.folder, file: episode.name },
                        fault,
                    ),
                ),
            ),
        }
    }
}

/// The same, from the moment at which the file at place `at` stands in the
/// root and its season folder is still to be removed.
pub open spec fn clean_from(library: LibraryView, pending: Seq<EpisodeView>, at: int) -> (
    LibraryView,
    Result<SummaryView, ExtractErrorView>,
)
    decreases pending.len() - at, 0int,
{
    if at >= pending.len() {
        (
            library,
            Ok(SummaryView { conclusion: Conclusion::Completed, moved: pending.len() }),
        )
    } else {
        let episode = pending[at];
        match library.remove_folder(episode.folder) {
            Ok(cleaned) => flatten_from(cleaned, pending, at + 1),
            Err(fault) => (
                library,
                Err(fault_error(ActionView::RemoveFolder { folder: episode.folder }, fault)),
            ),
        }
    }
}

/// Whether the run goes on to move files: consent is taken for granted, or
/// the operator's reply gives it.
pub open spec fn consents(auto_confirm: bool, reply: Seq<char>) -> bool {
    auto_confirm || is_affirmative_line(reply)
}

/// What a run leaves of `library`, and what it reports. Where discovery
/// finds nothing, and where the operator declines, the library stays as it
/// is and the summary counts no file. Else every pending file is handled in
/// the order of discovery.
pub open spec fn run(library: LibraryView, auto_confirm: bool, reply: Seq<char>) -> (
    LibraryView,
    Result<SummaryView, ExtractErrorView>,
) {
    let pending = scan(library);
    if pending.len() == 0 {
        (library, Ok(SummaryView::idle(Conclusion::NothingToDo)))
    } else if !consents(auto_confirm, reply) {
        (library, Ok(SummaryView::idle(Conclusion::Cancelled)))
    } else {
        flatten_from(library, pending, 0)
    }
}

/// The listing of a root names its season folders as its directories.
pub proof fn lemma_listing_directories(library: LibraryView)
    ensures
        directories_in(library.listing()) == folder_names(library.folders),
{
    let folders = library.folders.map_values(
        |f: FolderView| EntryView { name: f.name, kind: EntryKind::Directory },
    );
    let files = library.files.map_values(
        |n: Seq<char>| EntryView { name: n, kind: EntryKind::File },
    );
    lemma_directories_of_folders(library.folders);
    lemma_directories_skip_files(folders, files);
}

proof fn lemma_directories_of_folders(folders: Seq<FolderView>)
    ensures
        directories_in(
            folders.map_values(
                |f: FolderView| EntryView { name: f.name, kind: EntryKind::Directory },
            ),
        ) == folder_names(folders),
    decreases folders.len(),
{
    let entries = folders.map_values(
        |f: FolderView| EntryView { name: f.name, kind: EntryKind::Directory },
    );
    if folders.len() > 0 {
        lemma_directories_of_folders(folders.drop_last());
        assert(entries.drop_last() =~= folders.drop_last().map_values(
            |f: FolderView| EntryView { name: f.name, kind: EntryKind::Directory },
        ));
        assert(folder_names(folders) =~= folder_names(folders.drop_last()).push(
            folders.last().name,
        ));
    }
}

proof fn lemma_directories_skip_files(entries: Seq<EntryView>, files: Seq<EntryView>)
    requires
        forall|i: int| 0 <= i < files.len() ==> (#[trigger] files[i]).kind == EntryKind::File,
    ensures
        directories_in(entries + files) == directories_in(entries),
    decreases files.len(),
{
    if files.len() > 0 {
        lemma_directories_skip_files(entries, files.drop_last());
        assert((entries + files).drop_last() =~= entries + files.drop_last());
    }
}

/// Discovery takes the folders one by one.
pub proof fn lemma_scan_next(folders: Seq<FolderView>, i: int)
    requires
        0 <= i < folders.len(),
    ensures
        scan_folders(folders.take(i + 1)) == scan_folders(folders.take(i)) + episodes_in(
            folders[i].name,
            folders[i].entries,
        ),
{
    assert(folders.take(i + 1).drop_last() =~= folders.take(i));
}

/// Where every file so far was moved, the count of moved files is their
/// number.
pub proof fn lemma_all_moved(results: Seq<OperationResult>)
    requires
        forall|i: int| 0 <= i < results.len() ==> results[i] == OperationResult::Moved,
    ensures
        moved_count(results) == results.len(),
    decreases results.len(),
{
    if results.len() > 0 {
        lemma_all_moved(results.drop_last());
    }
}

/// How far a session is from its end, first by phase.
spec fn phases_left(session: SessionView) -> int {
    match session.phase {
        Phase::ListingRoot => 4,
        Phase::ListingFolder => 3,
        Phase::Confirming => 2,
        Phase::Moving => 1,
        Phase::Cleaning => 1,
        Phase::Finished => 0,
    }
}

/// How far a session is from its end within its phase.
spec fn steps_left(session: SessionView) -> int {
    match session.phase {
        Phase::ListingFolder => session.folders.len() - session.at,
        Phase::Moving => 2 * (session.pending.len() - session.at),
        Phase::Cleaning => 2 * (session.pending.len() - session.at) - 1,
        _ => 0,
    }
}

/// What ties a session under way to the library it works on: what it has
/// found is what discovery finds in the library as it was at the start, and
/// what is left to do leads where the whole run leads.
spec fn in_step(
    start: LibraryView,
    library: LibraryView,
    session: SessionView,
    auto_confirm: bool,
    reply: Seq<char>,
) -> bool {
    &&& session.auto_confirm == auto_confirm
    &&& match session.phase {
        Phase::ListingRoot => {
            &&& library == start
            &&& session.pending.len() == 0
            &&& session.results.len() == 0
        },
        Phase::ListingFolder => {
            &&& library == start
            &&& session.folders == folder_names(start.folders)
            &&& session.pending == scan_folders(start.folders.take(session.at))
            &&& session.results.len() == 0
        },
        Phase::Confirming => {
            &&& library == start
            &&& session.pending == scan(start)
            &&& !auto_confirm
            &&& session.results.len() == 0
        },
        Phase::Moving => {
            &&& session.pending == scan(start)
            &&& session.pending.len() > 0
            &&& consents(auto_confirm, reply)
            &&& all_moved(session.results, session.at)
            &&& flatten_from(library, session.pending, session.at) == run(
                start,
                auto_confirm,
                reply,
            )
        },
        Phase::Cleaning => {
            &&& session.pending == scan(start)
            &&& session.pending.len() > 0
            &&& consents(auto_confirm, reply)
            &&& all_moved(session.results, session.at)
            &&& clean_from(library, session.pending, session.at) == run(
                start,
                auto_confirm,
                reply,
            )
        },
        Phase::Finished => session.outcome is Some && (library, session.outcome.unwrap())
            == run(start, auto_confirm, reply),
    }
}

/// Whether `results` records `count` files, each fully moved.
spec fn all_moved(results: Seq<OperationResult>, count: int) -> bool {
    &&& results.len() == count
    &&& forall|i: int| 0 <= i < results.len() ==> results[i] == OperationResult::Moved
}

/// Discovers the episode files of a library held in memory: lists the root,
/// then each season folder in the order of that listing.
pub fn discover(library: &Library) -> (pending: Vec<EpisodeFile>)
    requires
        library@.wf(),
    ensures
        episode_views(pending@) == scan(library@),
{
    let folders = subfolders(&library.list_root());
    let mut pending: Vec<EpisodeFile> = Vec::new();
    let mut i: usize = 0;
    proof {
        lemma_listing_directories(library@);
    }
    while i < folders.len()
        invariant
            library@.wf(),
            name_views(folders@) == folder_names(library@.folders),
            folders@.len() == library@.folders.len(),
            i <= folders.len(),
            episode_views(pending@) == scan_folders(library@.folders.take(i as int)),
        decreases folders.len() - i,
    {
        proof {
            lemma_folder_at(library@, i as int);
            lemma_scan_next(library@.folders, i as int);
            assert(name_views(folders@)[i as int] == folders[i as int]@);
        }
        let entries = library.list_folder(folders[i].as_str()).unwrap();
        let mut found = episodes_of(folders[i].as_str(), &entries);
        pending.append(&mut found);
        i += 1;
    }
    assert(library@.folders.take(i as int) =~= library@.folders);
    pending
}

/// Runs the whole of it on a library held in memory: discovers the episode
/// files, takes `reply` for the operator's answer unless `auto_confirm`
/// spares the question, then moves each file up and removes its season
/// folder.
pub fn extract(library: &mut Library, auto_confirm: bool, reply: &str) -> (outcome: Result<
    Summary,
    ExtractError,
>)
    requires
        old(library)@.wf(),
    ensures
        (final(library)@, outcome_view(outcome)) == run(old(library)@, auto_confirm, reply@),
        final(library)@.wf(),
{
    let ghost start = library@;
    let mut session = extract_from_string(library.root(), auto_confirm);
    while !session.is_finished()
        invariant
            library@.wf(),
            session@.wf(),
            start.wf(),
            in_step(start, library@, session@, auto_confirm, reply@),
        decreases phases_left(session@), steps_left(session@),
    {
        let ghost before = session@;
        let action = session.action();
        let event = match action {
            Action::ListRoot => {
                proof {
                    lemma_listing_directories(start);
                }
                Event::Listed(library.list_root())
            },
            Action::ListFolder { folder } => {
                proof {
                    lemma_folder_at(start, before.at);
                    lemma_scan_next(start.folders, before.at);
                }
                match library.list_folder(folder.as_str()) {
                    Some(entries) => Event::Listed(entries),
                    None => Event::Failed(Fault::NotFound.describe()),
                }
            },
            Action::Confirm => Event::Answered(String::from_str(reply)),
            Action::Move { folder, file } => {
                match library.move_to_root(folder.as_str(), file.as_str()) {
                    Ok(_) => Event::Succeeded,
                    Err(fault) => Event::Failed(fault.describe()),
                }
            },
            Action::RemoveFolder { folder } => {
                proof {
                    lemma_all_moved(before.results.push(OperationResult::Moved));
                }
                match library.remove_folder(folder.as_str()) {
                    Ok(_) => Event::Succeeded,
                    Err(fault) => Event::Failed(fault.describe()),
                }
            },
            Action::Finish => Event::Succeeded,
        };
        session = session.handle(event);
        proof {
            if before.phase == Phase::ListingRoot {
                assert(session@.pending =~= scan_folders(start.folders.take(0)));
            }
        }
    }
    session.outcome().unwrap()
}

} // verus!
