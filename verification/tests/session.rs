use aee::listing::{Entry, EntryKind, EpisodeFile};
use aee::session::{
    count_moved, extract_from_string, Action, Conclusion, Event, ExtractError, OperationResult,
    Phase, Session, Summary,
};

fn file(name: &str) -> Entry {
    Entry::new(name, EntryKind::File)
}

fn dir(name: &str) -> Entry {
    Entry::new(name, EntryKind::Directory)
}

fn start(auto_confirm: bool) -> Session {
    extract_from_string(&String::from("/library"), auto_confirm)
}

fn list_folder(folder: &str) -> Action {
    Action::ListFolder { folder: folder.to_string() }
}

fn move_file(folder: &str, file: &str) -> Action {
    Action::Move { folder: folder.to_string(), file: file.to_string() }
}

fn remove_folder(folder: &str) -> Action {
    Action::RemoveFolder { folder: folder.to_string() }
}

fn failed(cause: &str) -> Event {
    Event::Failed(cause.to_string())
}

fn answered(line: &str) -> Event {
    Event::Answered(line.to_string())
}

/// A session that has found `S01/ep1.mkv` and `S02/ep2.avi`.
fn discovered(auto_confirm: bool) -> Session {
    let session = start(auto_confirm);
    let session = session.handle(Event::Listed(vec![dir("S01"), file("note.txt"), dir("S02")]));
    let session = session.handle(Event::Listed(vec![file("ep1.mkv"), file("thumb.jpg")]));
    session.handle(Event::Listed(vec![file("ep2.avi")]))
}

#[test]
fn a_session_starts_by_listing_the_root() {
    let session = start(false);
    assert_eq!(session.root(), "/library");
    assert!(!session.auto_confirm());
    assert_eq!(session.phase(), Phase::ListingRoot);
    assert_eq!(session.action(), Action::ListRoot);
    assert!(!session.is_finished());
    assert_eq!(session.outcome(), None);
    assert!(session.pending().is_empty());
    assert!(session.results().is_empty());
}

#[test]
fn each_directory_of_the_root_is_listed_in_turn() {
    let session = start(false);
    let session = session.handle(Event::Listed(vec![dir("S01"), file("note.txt"), dir("S02")]));
    assert_eq!(session.phase(), Phase::ListingFolder);
    assert_eq!(session.action(), list_folder("S01"));
    let session = session.handle(Event::Listed(vec![file("ep1.mkv"), file("thumb.jpg")]));
    assert_eq!(session.action(), list_folder("S02"));
    assert_eq!(session.pending(), &vec![EpisodeFile::new("S01", "ep1.mkv")]);
    let session = session.handle(Event::Listed(vec![file("ep2.avi")]));
    assert_eq!(
        session.pending(),
        &vec![EpisodeFile::new("S01", "ep1.mkv"), EpisodeFile::new("S02", "ep2.avi")]
    );
    assert_eq!(session.phase(), Phase::Confirming);
    assert_eq!(session.action(), Action::Confirm);
}

#[test]
fn a_confirmed_run_moves_then_cleans_each_file() {
    let session = discovered(false);
    let session = session.handle(answered("y\n"));
    assert_eq!(session.phase(), Phase::Moving);
    assert_eq!(session.action(), move_file("S01", "ep1.mkv"));
    let session = session.handle(Event::Succeeded);
    assert_eq!(session.phase(), Phase::Cleaning);
    assert_eq!(session.action(), remove_folder("S01"));
    let session = session.handle(Event::Succeeded);
    assert_eq!(session.results(), &vec![OperationResult::Moved]);
    assert_eq!(session.action(), move_file("S02", "ep2.avi"));
    let session = session.handle(Event::Succeeded);
    assert_eq!(session.action(), remove_folder("S02"));
    let session = session.handle(Event::Succeeded);
    assert!(session.is_finished());
    assert_eq!(session.action(), Action::Finish);
    assert_eq!(session.results(), &vec![OperationResult::Moved, OperationResult::Moved]);
    assert_eq!(
        session.outcome(),
        Some(Ok(Summary { conclusion: Conclusion::Completed, moved: 2 }))
    );
}

#[test]
fn auto_confirm_spares_the_question() {
    let session = discovered(true);
    assert!(session.auto_confirm());
    assert_eq!(session.phase(), Phase::Moving);
    assert_eq!(session.action(), move_file("S01", "ep1.mkv"));
}

#[test]
fn an_empty_root_leaves_nothing_to_do() {
    let session = start(false).handle(Event::Listed(vec![]));
    assert!(session.is_finished());
    assert_eq!(
        session.outcome(),
        Some(Ok(Summary { conclusion: Conclusion::NothingToDo, moved: 0 }))
    );
}

#[test]
fn a_root_without_directories_leaves_nothing_to_do() {
    let session = start(true).handle(Event::Listed(vec![file("loose.mkv"), file("b.mp4")]));
    assert_eq!(
        session.outcome(),
        Some(Ok(Summary { conclusion: Conclusion::NothingToDo, moved: 0 }))
    );
    assert!(session.pending().is_empty());
}

#[test]
fn folders_without_episodes_leave_nothing_to_do() {
    let session = start(false).handle(Event::Listed(vec![dir("S03"), dir("S04")]));
    let session = session.handle(Event::Listed(vec![]));
    let session = session.handle(Event::Listed(vec![file("thumb.jpg"), dir("deep.mkv")]));
    assert_eq!(session.action(), Action::Finish);
    assert_eq!(
        session.outcome(),
        Some(Ok(Summary { conclusion: Conclusion::NothingToDo, moved: 0 }))
    );
}

#[test]
fn declining_cancels_without_an_error() {
    for line in ["n", "no", "", "\n", "nope", "yes please"] {
        let session = discovered(false).handle(answered(line));
        assert!(session.is_finished(), "{line:?}");
        assert_eq!(session.action(), Action::Finish);
        assert_eq!(
            session.outcome(),
            Some(Ok(Summary { conclusion: Conclusion::Cancelled, moved: 0 }))
        );
        assert!(session.results().is_empty());
        assert_eq!(session.pending().len(), 2);
    }
}

#[test]
fn an_unreadable_answer_is_an_error_not_a_refusal() {
    let session = discovered(false).handle(failed("stdin closed"));
    assert_eq!(
        session.outcome(),
        Some(Err(ExtractError::Input { cause: "stdin closed".to_string() }))
    );
}

#[test]
fn an_unreadable_root_ends_the_run() {
    let session = start(false).handle(failed("permission denied"));
    assert!(session.is_finished());
    assert_eq!(
        session.outcome(),
        Some(Err(ExtractError::Filesystem {
            operation: Action::ListRoot,
            cause: "permission denied".to_string(),
        }))
    );
}

#[test]
fn one_unreadable_season_folder_ends_discovery() {
    let session = start(false).handle(Event::Listed(vec![dir("S01"), dir("S02")]));
    let session = session.handle(Event::Listed(vec![file("ep1.mkv")]));
    let session = session.handle(failed("permission denied"));
    assert!(session.is_finished());
    assert_eq!(
        session.outcome(),
        Some(Err(ExtractError::Filesystem {
            operation: list_folder("S02"),
            cause: "permission denied".to_string(),
        }))
    );
    assert_eq!(session.pending(), &vec![EpisodeFile::new("S01", "ep1.mkv")]);
}

#[test]
fn a_failed_move_ends_the_run_and_is_recorded() {
    let session = discovered(true);
    let session = session.handle(Event::Succeeded).handle(Event::Succeeded);
    let session = session.handle(failed("cross-device link"));
    assert!(session.is_finished());
    assert_eq!(session.results(), &vec![OperationResult::Moved, OperationResult::Failed]);
    assert_eq!(
        session.outcome(),
        Some(Err(ExtractError::Filesystem {
            operation: move_file("S02", "ep2.avi"),
            cause: "cross-device link".to_string(),
        }))
    );
}

#[test]
fn a_failed_cleanup_ends_the_run_and_is_recorded() {
    let session = discovered(true);
    let session = session.handle(Event::Succeeded);
    let session = session.handle(failed("directory busy"));
    assert!(session.is_finished());
    assert_eq!(session.results(), &vec![OperationResult::MovedButCleanupFailed]);
    assert_eq!(
        session.outcome(),
        Some(Err(ExtractError::Filesystem {
            operation: remove_folder("S01"),
            cause: "directory busy".to_string(),
        }))
    );
}

#[test]
fn an_event_that_answers_nothing_is_passed_over() {
    let session = start(false).handle(Event::Succeeded);
    assert_eq!(session.action(), Action::ListRoot);
    let session = session.handle(answered("y"));
    assert_eq!(session.action(), Action::ListRoot);

    let session = discovered(false).handle(Event::Listed(vec![file("late.mkv")]));
    assert_eq!(session.action(), Action::Confirm);
    assert_eq!(session.pending().len(), 2);
    let session = session.handle(Event::Succeeded);
    assert_eq!(session.action(), Action::Confirm);

    let session = discovered(true).handle(answered("n"));
    assert_eq!(session.action(), move_file("S01", "ep1.mkv"));
    let session = session.handle(Event::Listed(vec![]));
    assert_eq!(session.action(), move_file("S01", "ep1.mkv"));
}

#[test]
fn a_finished_session_stays_as_it_is() {
    let done = discovered(false).handle(answered("n"));
    let outcome = done.outcome();
    let done = done.handle(Event::Succeeded);
    let done = done.handle(failed("late"));
    let done = done.handle(answered("y"));
    let done = done.handle(Event::Listed(vec![dir("S09")]));
    assert_eq!(done.outcome(), outcome);
    assert_eq!(done.action(), Action::Finish);
}

#[test]
fn several_episodes_of_one_folder_are_all_pending() {
    let session = start(true).handle(Event::Listed(vec![dir("S01")]));
    let session = session.handle(Event::Listed(vec![file("a.mkv"), file("b.mkv")]));
    assert_eq!(
        session.pending(),
        &vec![EpisodeFile::new("S01", "a.mkv"), EpisodeFile::new("S01", "b.mkv")]
    );
    assert_eq!(session.action(), move_file("S01", "a.mkv"));
}

#[test]
fn only_fully_moved_files_are_counted() {
    assert_eq!(count_moved(&vec![]), 0);
    assert_eq!(
        count_moved(&vec![
            OperationResult::Moved,
            OperationResult::MovedButCleanupFailed,
            OperationResult::Moved,
            OperationResult::Failed,
        ]),
        2
    );
}

#[test]
fn a_copy_equals_what_it_copies() {
    let action = move_file("S01", "ep1.mkv");
    assert_eq!(action.duplicate(), action);
    let error = ExtractError::Filesystem { operation: list_folder("S01"), cause: "x".to_string() };
    assert_eq!(error.duplicate(), error);
    let error = ExtractError::Input { cause: "eof".to_string() };
    assert_eq!(error.duplicate(), error);
}
