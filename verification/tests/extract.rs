use aee::extract::{discover, extract};
use aee::library::{Fault, Library};
use aee::listing::{Entry, EntryKind, EpisodeFile};
use aee::session::{Action, Conclusion, ExtractError, Summary};

fn names(entries: &[Entry]) -> Vec<(String, EntryKind)> {
    entries.iter().map(|e| (e.name.clone(), e.kind)).collect()
}

fn entry(name: &str, kind: EntryKind) -> (String, EntryKind) {
    (name.to_string(), kind)
}

/// `S01/ep1.mkv`, `S01/thumb.jpg`, `S02/ep2.avi`.
fn two_seasons() -> Library {
    let mut library = Library::new("/library");
    assert!(library.add_folder("S01"));
    assert!(library.add_entry("S01", "ep1.mkv", EntryKind::File));
    assert!(library.add_entry("S01", "thumb.jpg", EntryKind::File));
    assert!(library.add_folder("S02"));
    assert!(library.add_entry("S02", "ep2.avi", EntryKind::File));
    library
}

#[test]
fn a_library_is_built_entry_by_entry() {
    let mut library = Library::new("/library");
    assert_eq!(library.root(), "/library");
    assert!(library.list_root().is_empty());
    assert!(library.add_folder("S01"));
    assert!(library.add_file("loose.mkv"));
    assert!(!library.add_folder("S01"));
    assert!(!library.add_file("S01"));
    assert!(!library.add_folder("loose.mkv"));
    assert!(!library.add_file("loose.mkv"));
    assert!(library.add_entry("S01", "ep1.mkv", EntryKind::File));
    assert!(!library.add_entry("S01", "ep1.mkv", EntryKind::Directory));
    assert!(!library.add_entry("S09", "ep1.mkv", EntryKind::File));
    assert!(library.add_entry("S01", "extras", EntryKind::Directory));
    assert!(library.has_folder("S01"));
    assert!(!library.has_folder("loose.mkv"));
    assert!(library.has_file("loose.mkv"));
    assert!(!library.has_file("S01"));
    assert!(!library.has_file("ep1.mkv"));
    assert_eq!(
        names(&library.list_root()),
        vec![entry("S01", EntryKind::Directory), entry("loose.mkv", EntryKind::File)]
    );
    assert_eq!(
        names(&library.list_folder("S01").unwrap()),
        vec![entry("ep1.mkv", EntryKind::File), entry("extras", EntryKind::Directory)]
    );
    assert!(library.list_folder("S09").is_none());
    assert!(library.list_folder("loose.mkv").is_none());
}

#[test]
fn moving_a_file_up_takes_it_out_of_its_folder() {
    let mut library = two_seasons();
    assert_eq!(library.move_to_root("S01", "ep1.mkv"), Ok(()));
    assert!(library.has_file("ep1.mkv"));
    assert_eq!(
        names(&library.list_folder("S01").unwrap()),
        vec![entry("thumb.jpg", EntryKind::File)]
    );
    assert_eq!(names(&library.list_folder("S02").unwrap()), vec![entry("ep2.avi", EntryKind::File)]);
}

#[test]
fn moving_what_is_not_there_is_refused() {
    let mut library = two_seasons();
    assert!(library.add_entry("S01", "extras", EntryKind::Directory));
    assert_eq!(library.move_to_root("S09", "ep1.mkv"), Err(Fault::NotFound));
    assert_eq!(library.move_to_root("S01", "ep9.mkv"), Err(Fault::NotFound));
    assert_eq!(library.move_to_root("S01", "extras"), Err(Fault::NotFound));
    assert_eq!(library.list_folder("S01").unwrap().len(), 3);
    assert!(library.list_root().len() == 2);
}

#[test]
fn moving_onto_a_folder_is_refused() {
    let mut library = Library::new("/library");
    assert!(library.add_folder("S01"));
    assert!(library.add_folder("ep1.mkv"));
    assert!(library.add_entry("S01", "ep1.mkv", EntryKind::File));
    assert_eq!(library.move_to_root("S01", "ep1.mkv"), Err(Fault::IsADirectory));
    assert_eq!(library.list_folder("S01").unwrap().len(), 1);
    assert!(!library.has_file("ep1.mkv"));
}

#[test]
fn moving_onto_a_file_replaces_it() {
    let mut library = two_seasons();
    assert!(library.add_file("ep1.mkv"));
    assert_eq!(library.move_to_root("S01", "ep1.mkv"), Ok(()));
    assert_eq!(
        names(&library.list_root()),
        vec![
            entry("S01", EntryKind::Directory),
            entry("S02", EntryKind::Directory),
            entry("ep1.mkv", EntryKind::File),
        ]
    );
}

#[test]
fn removing_a_folder_takes_what_it_holds() {
    let mut library = two_seasons();
    assert_eq!(library.remove_folder("S01"), Ok(()));
    assert!(!library.has_folder("S01"));
    assert!(library.has_folder("S02"));
    assert!(library.list_folder("S01").is_none());
    assert_eq!(library.remove_folder("S01"), Err(Fault::NotFound));
    assert_eq!(names(&library.list_root()), vec![entry("S02", EntryKind::Directory)]);
}

#[test]
fn faults_are_said_in_words() {
    assert_eq!(Fault::NotFound.describe(), "no such file or directory");
    assert_eq!(Fault::IsADirectory.describe(), "is a directory");
}

#[test]
fn discovery_finds_the_episodes_of_each_season() {
    let library = two_seasons();
    assert_eq!(
        discover(&library),
        vec![EpisodeFile::new("S01", "ep1.mkv"), EpisodeFile::new("S02", "ep2.avi")]
    );
}

#[test]
fn discovery_passes_over_empty_folders_and_loose_files() {
    let mut library = two_seasons();
    assert!(library.add_folder("S03"));
    assert!(library.add_file("loose.mkv"));
    assert!(library.add_entry("S02", "episode.MP4", EntryKind::File));
    assert!(library.add_entry("S02", "deep.mkv", EntryKind::Directory));
    assert_eq!(
        discover(&library),
        vec![EpisodeFile::new("S01", "ep1.mkv"), EpisodeFile::new("S02", "ep2.avi")]
    );
    assert_eq!(discover(&Library::new("/empty")), vec![]);
}

#[test]
fn discovery_changes_nothing() {
    let library = two_seasons();
    let before = names(&library.list_root());
    discover(&library);
    assert_eq!(names(&library.list_root()), before);
    assert_eq!(library.list_folder("S01").unwrap().len(), 2);
}

#[test]
fn two_seasons_are_flattened() {
    let mut library = two_seasons();
    let outcome = extract(&mut library, false, "y\n");
    assert_eq!(outcome, Ok(Summary { conclusion: Conclusion::Completed, moved: 2 }));
    assert!(library.has_file("ep1.mkv"));
    assert!(library.has_file("ep2.avi"));
    assert!(!library.has_folder("S01"));
    assert!(!library.has_folder("S02"));
    assert_eq!(
        names(&library.list_root()),
        vec![entry("ep1.mkv", EntryKind::File), entry("ep2.avi", EntryKind::File)]
    );
}

#[test]
fn an_empty_season_folder_is_left_alone() {
    let mut library = two_seasons();
    assert!(library.add_folder("S03"));
    let outcome = extract(&mut library, true, "");
    assert_eq!(outcome, Ok(Summary { conclusion: Conclusion::Completed, moved: 2 }));
    assert!(library.has_folder("S03"));
    assert_eq!(library.list_folder("S03").unwrap().len(), 0);
    assert!(!library.has_folder("S01"));
    assert!(!library.has_folder("S02"));
}

#[test]
fn a_library_of_one_empty_folder_has_nothing_to_do() {
    let mut library = Library::new("/library");
    assert!(library.add_folder("S03"));
    let outcome = extract(&mut library, true, "");
    assert_eq!(outcome, Ok(Summary { conclusion: Conclusion::NothingToDo, moved: 0 }));
    assert_eq!(names(&library.list_root()), vec![entry("S03", EntryKind::Directory)]);
}

#[test]
fn nothing_found_changes_nothing() {
    let mut library = Library::new("/library");
    assert!(library.add_folder("S01"));
    assert!(library.add_entry("S01", "thumb.jpg", EntryKind::File));
    assert!(library.add_entry("S01", "episode.MP4", EntryKind::File));
    assert!(library.add_entry("S01", "deep.mkv", EntryKind::Directory));
    assert!(library.add_file("loose.mkv"));
    let before = names(&library.list_root());
    for (auto_confirm, reply) in [(true, ""), (false, "y"), (false, "n")] {
        let outcome = extract(&mut library, auto_confirm, reply);
        assert_eq!(outcome, Ok(Summary { conclusion: Conclusion::NothingToDo, moved: 0 }));
        assert_eq!(names(&library.list_root()), before);
        assert_eq!(library.list_folder("S01").unwrap().len(), 3);
    }
}

#[test]
fn declining_leaves_everything_in_place() {
    for reply in ["n", "no", "", "\n", "maybe"] {
        let mut library = two_seasons();
        let outcome = extract(&mut library, false, reply);
        assert_eq!(outcome, Ok(Summary { conclusion: Conclusion::Cancelled, moved: 0 }));
        assert_eq!(
            names(&library.list_root()),
            vec![entry("S01", EntryKind::Directory), entry("S02", EntryKind::Directory)]
        );
        assert_eq!(
            names(&library.list_folder("S01").unwrap()),
            vec![entry("ep1.mkv", EntryKind::File), entry("thumb.jpg", EntryKind::File)]
        );
        assert_eq!(
            names(&library.list_folder("S02").unwrap()),
            vec![entry("ep2.avi", EntryKind::File)]
        );
        assert!(!library.has_file("ep1.mkv"));
        assert!(!library.has_file("ep2.avi"));
    }
}

#[test]
fn auto_confirm_does_not_read_the_reply() {
    let mut library = two_seasons();
    let outcome = extract(&mut library, true, "no");
    assert_eq!(outcome, Ok(Summary { conclusion: Conclusion::Completed, moved: 2 }));
}

#[test]
fn a_second_run_does_nothing() {
    let mut library = two_seasons();
    assert!(library.add_folder("S03"));
    assert!(library.add_file("readme.txt"));
    let first = extract(&mut library, false, "yes");
    assert_eq!(first, Ok(Summary { conclusion: Conclusion::Completed, moved: 2 }));
    let after_first = names(&library.list_root());
    let second = extract(&mut library, false, "yes");
    assert_eq!(second, Ok(Summary { conclusion: Conclusion::NothingToDo, moved: 0 }));
    assert_eq!(names(&library.list_root()), after_first);
    assert_eq!(
        after_first,
        vec![
            entry("S03", EntryKind::Directory),
            entry("readme.txt", EntryKind::File),
            entry("ep1.mkv", EntryKind::File),
            entry("ep2.avi", EntryKind::File),
        ]
    );
}

#[test]
fn files_of_the_root_are_not_discovered() {
    let mut library = Library::new("/library");
    assert!(library.add_file("loose.mkv"));
    let outcome = extract(&mut library, true, "");
    assert_eq!(outcome, Ok(Summary { conclusion: Conclusion::NothingToDo, moved: 0 }));
    assert!(library.has_file("loose.mkv"));
}

#[test]
fn a_second_episode_of_one_folder_is_lost_with_it() {
    let mut library = Library::new("/library");
    assert!(library.add_folder("S01"));
    assert!(library.add_entry("S01", "a.mkv", EntryKind::File));
    assert!(library.add_entry("S01", "b.mkv", EntryKind::File));
    assert!(library.add_folder("S02"));
    assert!(library.add_entry("S02", "c.mkv", EntryKind::File));
    let outcome = extract(&mut library, true, "");
    assert_eq!(
        outcome,
        Err(ExtractError::Filesystem {
            operation: Action::Move { folder: "S01".to_string(), file: "b.mkv".to_string() },
            cause: "no such file or directory".to_string(),
        })
    );
    assert!(library.has_file("a.mkv"));
    assert!(!library.has_file("b.mkv"));
    assert!(!library.has_folder("S01"));
    assert!(library.has_folder("S02"));
    assert!(!library.has_file("c.mkv"));
}

#[test]
fn an_episode_named_like_a_season_folder_cannot_move() {
    let mut library = Library::new("/library");
    assert!(library.add_folder("S01"));
    assert!(library.add_entry("S01", "S02.mkv", EntryKind::File));
    assert!(library.add_folder("S02.mkv"));
    let outcome = extract(&mut library, false, "y");
    assert_eq!(
        outcome,
        Err(ExtractError::Filesystem {
            operation: Action::Move { folder: "S01".to_string(), file: "S02.mkv".to_string() },
            cause: "is a directory".to_string(),
        })
    );
    assert!(library.has_folder("S01"));
    assert_eq!(library.list_folder("S01").unwrap().len(), 1);
}

#[test]
fn episodes_of_one_name_end_as_one_file() {
    let mut library = Library::new("/library");
    assert!(library.add_folder("S01"));
    assert!(library.add_entry("S01", "ep.mkv", EntryKind::File));
    assert!(library.add_folder("S02"));
    assert!(library.add_entry("S02", "ep.mkv", EntryKind::File));
    let outcome = extract(&mut library, true, "");
    assert_eq!(outcome, Ok(Summary { conclusion: Conclusion::Completed, moved: 2 }));
    assert_eq!(names(&library.list_root()), vec![entry("ep.mkv", EntryKind::File)]);
}
