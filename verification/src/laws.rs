//! What holds of every run.
//!
//! The first statements are about `run`, which says what `extract` leaves of
//! a library held in memory and what it reports. A run that ends in an error
//! has handled the files before the one that failed and no others; the
//! statements about completed runs say nothing of it.
//!
//! The last statements are about a session alone, whatever it is told of the
//! actions it names: they hold of a run on disk as they do of one in memory.

use vstd::prelude::*;
use crate::extract::{clean_from, consents, flatten_from, run, scan, scan_folders};
use crate::library::{
    distinct, folder_names, holds_file, lemma_folder_at, lemma_move_up_keeps_wf,
    lemma_remove_folder_keeps_wf, FolderView, LibraryView,
};
use crate::confirm::is_affirmative_line;
use crate::listing::{episodes_in, is_episode_entry, EntryView, EpisodeView};
use crate::session::{
    lemma_step_keeps_wf, ActionView, Conclusion, EventView, ExtractErrorView, Phase,
    SessionView, SummaryView,
};

verus! {

/// Whether `episode` names an episode file that lies in one of `folders`.
pub open spec fn lies_in(folders: Seq<FolderView>, episode: EpisodeView) -> bool {
    exists|i: int, j: int|
        #![trigger folders[i].entries[j]]
        0 <= i < folders.len() && 0 <= j < folders[i].entries.len() && folders[i].name
            == episode.folder && folders[i].entries[j].name == episode.name
            && is_episode_entry(folders[i].entries[j])
}

/// Whether no season folder of `folders` holds an episode file.
pub open spec fn holds_no_episode(folders: Seq<FolderView>) -> bool {
    forall|i: int, j: int|
        #![trigger folders[i].entries[j]]
        0 <= i < folders.len() && 0 <= j < folders[i].entries.len() ==> !is_episode_entry(
            folders[i].entries[j],
        )
}

/// Whether `episode` names an episode file among the entries of `folder`.
pub open spec fn lies_among(folder: Seq<char>, entries: Seq<EntryView>, episode: EpisodeView) -> bool {
    exists|j: int|
        0 <= j < entries.len() && is_episode_entry(#[trigger] entries[j]) && episode == (
        EpisodeView { folder, name: entries[j].name })
}

/// What one folder contributes to discovery: each of its episode files, and
/// nothing else.
pub proof fn lemma_episodes_in(folder: Seq<char>, entries: Seq<EntryView>)
    ensures
        forall|k: int|
            0 <= k < episodes_in(folder, entries).len() ==> lies_among(
                folder,
                entries,
                #[trigger] episodes_in(folder, entries)[k],
            ),
        forall|j: int|
            0 <= j < entries.len() && is_episode_entry(#[trigger] entries[j]) ==> episodes_in(
                folder,
                entries,
            ).contains(EpisodeView { folder, name: entries[j].name }),
    decreases entries.len(),
{
    let found = episodes_in(folder, entries);
    if entries.len() > 0 {
        let head = entries.drop_last();
        let before = episodes_in(folder, head);
        lemma_episodes_in(folder, head);
        assert forall|k: int| 0 <= k < found.len() implies lies_among(
            folder,
            entries,
            #[trigger] found[k],
        ) by {
            if k < before.len() {
                assert(lies_among(folder, head, before[k]));
                let j = choose|j: int|
                    0 <= j < head.len() && is_episode_entry(#[trigger] head[j]) && before[k] == (
                    EpisodeView { folder, name: head[j].name });
                assert(entries[j] == head[j]);
            } else {
                assert(is_episode_entry(entries[entries.len() - 1]));
            }
        }
        assert forall|j: int|
            0 <= j < entries.len() && is_episode_entry(#[trigger] entries[j]) implies found.contains(
            EpisodeView { folder, name: entries[j].name },
        ) by {
            let episode = EpisodeView { folder, name: entries[j].name };
            if j < head.len() {
                assert(head[j] == entries[j]);
                assert(before.contains(episode));
                let k = choose|k: int| 0 <= k < before.len() && before[k] == episode;
                assert(found[k] == episode);
            } else {
                assert(found[found.len() - 1] == episode);
            }
        }
    }
}

/// Discovery finds nothing but episode files that lie in a season folder.
pub proof fn lemma_scan_finds_only_episodes(folders: Seq<FolderView>, k: int)
    requires
        0 <= k < scan_folders(folders).len(),
    ensures
        lies_in(folders, scan_folders(folders)[k]),
    decreases folders.len(),
{
    let head = folders.drop_last();
    let last = folders.last();
    let before = scan_folders(head);
    let episode = scan_folders(folders)[k];
    if k < before.len() {
        lemma_scan_finds_only_episodes(head, k);
        let (i, j) = choose|i: int, j: int|
            #![trigger head[i].entries[j]]
            0 <= i < head.len() && 0 <= j < head[i].entries.len() && head[i].name
                == episode.folder && head[i].entries[j].name == episode.name
                && is_episode_entry(head[i].entries[j]);
        assert(folders[i] == head[i]);
        assert(is_episode_entry(folders[i].entries[j]));
    } else {
        let here = episodes_in(last.name, last.entries);
        lemma_episodes_in(last.name, last.entries);
        assert(episode == here[k - before.len()]);
        assert(lies_among(last.name, last.entries, episode));
        let j = choose|j: int|
            0 <= j < last.entries.len() && is_episode_entry(#[trigger] last.entries[j])
                && episode == (EpisodeView { folder: last.name, name: last.entries[j].name });
        assert(is_episode_entry(folders[folders.len() - 1].entries[j]));
    }
}

/// Discovery finds every episode file that lies in a season folder.
pub proof fn lemma_scan_finds_every_episode(folders: Seq<FolderView>, i: int, j: int)
    requires
        0 <= i < folders.len(),
        0 <= j < folders[i].entries.len(),
        is_episode_entry(folders[i].entries[j]),
    ensures
        scan_folders(folders).contains(
            EpisodeView { folder: folders[i].name, name: folders[i].entries[j].name },
        ),
    decreases folders.len(),
{
    let head = folders.drop_last();
    let last = folders.last();
    let before = scan_folders(head);
    let here = episodes_in(last.name, last.entries);
    let found = scan_folders(folders);
    let episode = EpisodeView { folder: folders[i].name, name: folders[i].entries[j].name };
    if i < head.len() {
        assert(head[i] == folders[i]);
        lemma_scan_finds_every_episode(head, i, j);
        let k = choose|k: int| 0 <= k < before.len() && before[k] == episode;
        assert(found[k] == episode);
    } else {
        lemma_episodes_in(last.name, last.entries);
        assert(is_episode_entry(last.entries[j]));
        assert(here.contains(episode));
        let k = choose|k: int| 0 <= k < here.len() && here[k] == episode;
        assert(found[before.len() + k] == episode);
    }
}

/// Where no season folder holds an episode file, discovery finds nothing.
pub proof fn lemma_scan_of_no_episode(folders: Seq<FolderView>)
    requires
        holds_no_episode(folders),
    ensures
        scan_folders(folders).len() == 0,
{
    if scan_folders(folders).len() > 0 {
        lemma_scan_finds_only_episodes(folders, 0);
    }
}

/// A library in which no season folder holds an episode file is left as it
/// is, whatever the operator would answer, and the summary counts no file.
pub proof fn law_nothing_found_nothing_done(
    library: LibraryView,
    auto_confirm: bool,
    reply: Seq<char>,
)
    requires
        holds_no_episode(library.folders),
    ensures
        run(library, auto_confirm, reply) == (
            library,
            Ok::<SummaryView, ExtractErrorView>(SummaryView::idle(Conclusion::NothingToDo)),
        ),
{
    lemma_scan_of_no_episode(library.folders);
}

/// Where the operator is asked and does not consent, the library is left as
/// it is, every file and every season folder in its place, and the summary
/// counts no file.
pub proof fn law_declining_changes_nothing(
    library: LibraryView,
    auto_confirm: bool,
    reply: Seq<char>,
)
    requires
        !consents(auto_confirm, reply),
    ensures
        run(library, auto_confirm, reply).0 == library,
        run(library, auto_confirm, reply).1 matches Ok(summary) && summary.moved == 0,
{
}

/// What handling one file does to a well-formed library, where neither the
/// move nor the removal is refused: the season folder is gone, the file
/// stands in the root, no file of the root is lost, and the season folders
/// that are left are as they were.
pub proof fn lemma_one_file_handled(library: LibraryView, folder: Seq<char>, file: Seq<char>)
    requires
        library.wf(),
        library.move_up(folder, file) is Ok,
        library.move_up(folder, file)->Ok_0.remove_folder(folder) is Ok,
    ensures
        ({
            let after = library.move_up(folder, file)->Ok_0.remove_folder(folder)->Ok_0;
            &&& after.wf()
            &&& !after.has_folder(folder)
            &&& after.has_file(file)
            &&& forall|name: Seq<char>| library.has_file(name) ==> #[trigger] after.has_file(name)
            &&& forall|j: int|
                0 <= j < after.folders.len() ==> library.folders.contains(
                    #[trigger] after.folders[j],
                )
        }),
{
    let moved = library.move_up(folder, file)->Ok_0;
    let after = moved.remove_folder(folder)->Ok_0;
    let i = library.folder_at(folder);
    lemma_move_up_keeps_wf(library, folder, file);
    lemma_remove_folder_keeps_wf(moved, folder);
    assert(library.folders[i].name == folder);
    assert(moved.folders[i].name == folder);
    lemma_folder_at(moved, i);
    assert(moved.folder_at(folder) == i);
    if after.has_folder(folder) {
        let j = choose|j: int| 0 <= j < after.folders.len() && after.folders[j].name == folder;
        let j0 = if j < i { j } else { j + 1 };
        assert(after.folders[j] == moved.folders[j0]);
        lemma_folder_at(moved, j0);
    }
    if library.has_file(file) {
        assert(after.files == library.files);
    } else {
        assert(after.files[after.files.len() - 1] == file);
    }
    assert forall|name: Seq<char>| library.has_file(name) implies #[trigger] after.has_file(
        name,
    ) by {
        let k = choose|k: int| 0 <= k < library.files.len() && library.files[k] == name;
        assert(after.files[k] == name);
    }
    assert forall|j: int| 0 <= j < after.folders.len() implies library.folders.contains(
        #[trigger] after.folders[j],
    ) by {
        let j0 = if j < i { j } else { j + 1 };
        assert(after.folders[j] == moved.folders[j0]);
        assert(moved.folders[j0] == library.folders[j0]);
    }
}

/// What a completed pass over the pending files from place `at` on leaves
/// of a well-formed library.
pub proof fn lemma_files_handled(library: LibraryView, pending: Seq<EpisodeView>, at: int)
    requires
        library.wf(),
        0 <= at <= pending.len(),
        flatten_from(library, pending, at).1 is Ok,
    ensures
        ({
            let after = flatten_from(library, pending, at).0;
            &&& after.wf()
            &&& flatten_from(library, pending, at).1 == Ok::<SummaryView, ExtractErrorView>(
                SummaryView { conclusion: Conclusion::Completed, moved: pending.len() },
            )
            &&& forall|name: Seq<char>| library.has_file(name) ==> #[trigger] after.has_file(name)
            &&& forall|j: int|
                0 <= j < after.folders.len() ==> library.folders.contains(
                    #[trigger] after.folders[j],
                )
            &&& forall|k: int|
                at <= k < pending.len() ==> !after.has_folder((#[trigger] pending[k]).folder)
                    && after.has_file(pending[k].name)
        }),
    decreases pending.len() - at,
{
    if at < pending.len() {
        let episode = pending[at];
        let moved = library.move_up(episode.folder, episode.name)->Ok_0;
        assert(clean_from(moved, pending, at).1 is Ok);
        let cleaned = moved.remove_folder(episode.folder)->Ok_0;
        let after = flatten_from(cleaned, pending, at + 1).0;
        assert(after == flatten_from(library, pending, at).0);
        lemma_one_file_handled(library, episode.folder, episode.name);
        lemma_files_handled(cleaned, pending, at + 1);
        assert forall|j: int| 0 <= j < after.folders.len() implies library.folders.contains(
            #[trigger] after.folders[j],
        ) by {
            lemma_folder_survives(cleaned, after, j);
            let j1 = choose|j1: int|
                0 <= j1 < cleaned.folders.len() && cleaned.folders[j1] == after.folders[j];
            assert(library.folders.contains(cleaned.folders[j1]));
        }
        assert forall|k: int| at <= k < pending.len() implies !after.has_folder(
            (#[trigger] pending[k]).folder,
        ) && after.has_file(pending[k].name) by {
            if k == at {
                if after.has_folder(episode.folder) {
                    let j = choose|j: int|
                        0 <= j < after.folders.len() && after.folders[j].name == episode.folder;
                    lemma_folder_survives(cleaned, after, j);
                    let j1 = choose|j1: int|
                        0 <= j1 < cleaned.folders.len() && cleaned.folders[j1]
                            == after.folders[j];
                    assert(cleaned.folders[j1].name == episode.folder);
                }
            }
        }
    }
}

proof fn lemma_folder_survives(before: LibraryView, after: LibraryView, j: int)
    requires
        0 <= j < after.folders.len(),
        forall|j: int|
            0 <= j < after.folders.len() ==> before.folders.contains(#[trigger] after.folders[j]),
    ensures
        exists|i: int| 0 <= i < before.folders.len() && before.folders[i] == after.folders[j],
{
    assert(before.folders.contains(after.folders[j]));
}

/// A run that has consent and meets no refusal moves every file that
/// discovery found: afterwards the root holds a file of each one's name and
/// no season folder of the name of any one's folder, and the summary counts
/// them all.
pub proof fn law_confirmed_run_flattens(library: LibraryView, auto_confirm: bool, reply: Seq<char>)
    requires
        library.wf(),
        consents(auto_confirm, reply),
        run(library, auto_confirm, reply).1 is Ok,
    ensures
        ({
            let after = run(library, auto_confirm, reply).0;
            let found = scan(library);
            &&& after.wf()
            &&& run(library, auto_confirm, reply).1 matches Ok(summary) && summary.moved
                == found.len()
            &&& forall|k: int|
                0 <= k < found.len() ==> !after.has_folder((#[trigger] found[k]).folder)
                    && after.has_file(found[k].name)
        }),
{
    let found = scan(library);
    if found.len() > 0 {
        lemma_files_handled(library, found, 0);
    }
}

/// A second run on what a first run left, with the same consent, does
/// nothing: it leaves the library as the first run left it, and its summary
/// counts no file. This is said of a first run that met no refusal.
pub proof fn law_second_run_is_idle(library: LibraryView, auto_confirm: bool, reply: Seq<char>)
    requires
        library.wf(),
        run(library, auto_confirm, reply).1 is Ok,
    ensures
        ({
            let first = run(library, auto_confirm, reply).0;
            &&& run(first, auto_confirm, reply).0 == first
            &&& run(first, auto_confirm, reply).1 matches Ok(summary) && summary.moved == 0
        }),
{
    let found = scan(library);
    let first = run(library, auto_confirm, reply).0;
    if found.len() > 0 && consents(auto_confirm, reply) {
        lemma_files_handled(library, found, 0);
        assert forall|i: int, j: int|
            #![trigger first.folders[i].entries[j]]
            0 <= i < first.folders.len() && 0 <= j < first.folders[i].entries.len()
                implies !is_episode_entry(first.folders[i].entries[j]) by {
            if is_episode_entry(first.folders[i].entries[j]) {
                lemma_folder_survives(library, first, i);
                let i0 = choose|i0: int|
                    0 <= i0 < library.folders.len() && library.folders[i0] == first.folders[i];
                lemma_scan_finds_every_episode(library.folders, i0, j);
                let episode = EpisodeView {
                    folder: first.folders[i].name,
                    name: first.folders[i].entries[j].name,
                };
                let k = choose|k: int| 0 <= k < found.len() && found[k] == episode;
                assert(!first.has_folder(found[k].folder));
                assert(first.folders[i].name == episode.folder);
            }
        }
        lemma_scan_of_no_episode(first.folders);
    }
}

/// Whether no season folder holds more than one episode file.
pub open spec fn one_episode_each(folders: Seq<FolderView>) -> bool {
    forall|i: int, j: int, k: int|
        #![trigger folders[i].entries[j], folders[i].entries[k]]
        0 <= i < folders.len() && 0 <= j < k < folders[i].entries.len() ==> !(is_episode_entry(
            folders[i].entries[j],
        ) && is_episode_entry(folders[i].entries[k]))
}

/// Whether no episode file bears the name of a season folder.
pub open spec fn no_episode_named_like_a_folder(folders: Seq<FolderView>) -> bool {
    forall|i: int, j: int, k: int|
        #![trigger folders[i].entries[j], folders[k]]
        0 <= i < folders.len() && 0 <= j < folders[i].entries.len() && 0 <= k < folders.len()
            && is_episode_entry(folders[i].entries[j]) ==> folders[i].entries[j].name
            != folders[k].name
}

/// Whether the file `episode` can be handled in `library`: its season
/// folder is there and holds it, and the root holds no folder of its name.
pub open spec fn awaits(library: LibraryView, episode: EpisodeView) -> bool {
    &&& library.has_folder(episode.folder)
    &&& holds_file(library.folders[library.folder_at(episode.folder)].entries, episode.name)
    &&& !library.has_folder(episode.name)
}

/// Whether the files of `pending` from place `at` on can be handled in
/// `library` one after the other: each can be handled, and no two lie in
/// one season folder.
pub open spec fn ready(library: LibraryView, pending: Seq<EpisodeView>, at: int) -> bool {
    &&& library.wf()
    &&& forall|k: int| at <= k < pending.len() ==> awaits(library, #[trigger] pending[k])
    &&& forall|k1: int, k2: int|
        at <= k1 < k2 < pending.len() ==> (#[trigger] pending[k1]).folder != (
        #[trigger] pending[k2]).folder
}

/// A folder with at most one episode file contributes at most one file to
/// discovery.
proof fn lemma_at_most_one(folder: Seq<char>, entries: Seq<EntryView>)
    requires
        forall|j: int, k: int|
            0 <= j < k < entries.len() ==> !(is_episode_entry(#[trigger] entries[j])
                && is_episode_entry(#[trigger] entries[k])),
    ensures
        episodes_in(folder, entries).len() <= 1,
    decreases entries.len(),
{
    if entries.len() > 0 {
        let head = entries.drop_last();
        let before = episodes_in(folder, head);
        assert forall|j: int, k: int| 0 <= j < k < head.len() implies !(is_episode_entry(
            #[trigger] head[j],
        ) && is_episode_entry(#[trigger] head[k])) by {
            assert(head[j] == entries[j]);
            assert(head[k] == entries[k]);
        }
        lemma_at_most_one(folder, head);
        if is_episode_entry(entries.last()) && before.len() > 0 {
            lemma_episodes_in(folder, head);
            assert(lies_among(folder, head, before[0]));
            let j = choose|j: int|
                0 <= j < head.len() && is_episode_entry(#[trigger] head[j]) && before[0] == (
                EpisodeView { folder, name: head[j].name });
            assert(head[j] == entries[j]);
            assert(is_episode_entry(entries[entries.len() - 1]));
        }
    }
}

/// Where folders bear distinct names and hold one episode file each at
/// most, no two files that discovery finds lie in one folder.
proof fn lemma_scan_distinct_folders(folders: Seq<FolderView>, k1: int, k2: int)
    requires
        distinct(folder_names(folders)),
        one_episode_each(folders),
        0 <= k1 < k2 < scan_folders(folders).len(),
    ensures
        scan_folders(folders)[k1].folder != scan_folders(folders)[k2].folder,
    decreases folders.len(),
{
    let head = folders.drop_last();
    let last = folders.last();
    let n = head.len() as int;
    let before = scan_folders(head);
    let here = episodes_in(last.name, last.entries);
    let names = folder_names(folders);
    assert forall|j: int, k: int| 0 <= j < k < last.entries.len() implies !(is_episode_entry(
        #[trigger] last.entries[j],
    ) && is_episode_entry(#[trigger] last.entries[k])) by {
        assert(!(is_episode_entry(folders[n].entries[j]) && is_episode_entry(
            folders[n].entries[k],
        )));
    }
    lemma_at_most_one(last.name, last.entries);
    if k2 < before.len() {
        assert forall|i: int, j: int| 0 <= i < j < head.len() implies folder_names(head)[i]
            != folder_names(head)[j] by {
            assert(names[i] == head[i].name);
            assert(names[j] == head[j].name);
        }
        assert forall|i: int, j: int, k: int|
            #![trigger head[i].entries[j], head[i].entries[k]]
            0 <= i < head.len() && 0 <= j < k < head[i].entries.len() implies !(
            is_episode_entry(head[i].entries[j]) && is_episode_entry(head[i].entries[k])) by {
            assert(head[i] == folders[i]);
            assert(!(is_episode_entry(folders[i].entries[j]) && is_episode_entry(
                folders[i].entries[k],
            )));
        }
        lemma_scan_distinct_folders(head, k1, k2);
    } else {
        assert(k1 < before.len());
        lemma_scan_finds_only_episodes(head, k1);
        let (i, j) = choose|i: int, j: int|
            #![trigger head[i].entries[j]]
            0 <= i < head.len() && 0 <= j < head[i].entries.len() && head[i].name
                == before[k1].folder && head[i].entries[j].name == before[k1].name
                && is_episode_entry(head[i].entries[j]);
        lemma_episodes_in(last.name, last.entries);
        assert(lies_among(last.name, last.entries, here[k2 - before.len()]));
        assert(names[i] == head[i].name);
        assert(names[n] == last.name);
    }
}

/// In a well-formed library where no season folder holds two episode files
/// and no episode file bears a folder's name, what discovery finds can be
/// handled file after file.
proof fn lemma_scan_ready(library: LibraryView)
    requires
        library.wf(),
        one_episode_each(library.folders),
        no_episode_named_like_a_folder(library.folders),
    ensures
        ready(library, scan(library), 0),
{
    let folders = library.folders;
    let found = scan(library);
    let names = folder_names(folders) + library.files;
    assert forall|i: int, j: int| 0 <= i < j < folders.len() implies folder_names(folders)[i]
        != folder_names(folders)[j] by {
        assert(names[i] == folders[i].name);
        assert(names[j] == folders[j].name);
    }
    assert forall|k: int| 0 <= k < found.len() implies awaits(library, #[trigger] found[k]) by {
        lemma_scan_finds_only_episodes(folders, k);
        let (i, j) = choose|i: int, j: int|
            #![trigger folders[i].entries[j]]
            0 <= i < folders.len() && 0 <= j < folders[i].entries.len() && folders[i].name
                == found[k].folder && folders[i].entries[j].name == found[k].name
                && is_episode_entry(folders[i].entries[j]);
        lemma_folder_at(library, i);
        assert(holds_file(folders[i].entries, found[k].name));
        if library.has_folder(found[k].name) {
            let m = choose|m: int| 0 <= m < folders.len() && folders[m].name == found[k].name;
            assert(folders[i].entries[j].name != folders[m].name);
        }
    }
    assert forall|k1: int, k2: int| 0 <= k1 < k2 < found.len() implies (
    #[trigger] found[k1]).folder != (#[trigger] found[k2]).folder by {
        lemma_scan_distinct_folders(folders, k1, k2);
    }
}

/// Files that can be handled one after the other are: the pass over them
/// meets no refusal.
proof fn lemma_ready_files_are_handled(library: LibraryView, pending: Seq<EpisodeView>, at: int)
    requires
        0 <= at <= pending.len(),
        ready(library, pending, at),
    ensures
        flatten_from(library, pending, at).1 is Ok,
    decreases pending.len() - at,
{
    if at < pending.len() {
        let episode = pending[at];
        assert(awaits(library, episode));
        let i = library.folder_at(episode.folder);
        assert(library.move_up(episode.folder, episode.name) is Ok);
        let moved = library.move_up(episode.folder, episode.name)->Ok_0;
        assert(library.folders[i].name == episode.folder);
        assert(moved.folders[i].name == episode.folder);
        assert(moved.has_folder(episode.folder));
        let cleaned = moved.remove_folder(episode.folder)->Ok_0;
        lemma_one_file_handled(library, episode.folder, episode.name);
        lemma_move_up_keeps_wf(library, episode.folder, episode.name);
        lemma_folder_at(moved, i);
        assert forall|k: int| at + 1 <= k < pending.len() implies awaits(
            cleaned,
            #[trigger] pending[k],
        ) by {
            let other = pending[k];
            assert(awaits(library, other));
            assert(pending[at].folder != pending[k].folder);
            let m = library.folder_at(other.folder);
            assert(library.folders[m].name == other.folder);
            let m1 = if m < i { m } else { m - 1 };
            assert(cleaned.folders[m1] == moved.folders[m]);
            assert(moved.folders[m] == library.folders[m]);
            lemma_folder_at(cleaned, m1);
            if cleaned.has_folder(other.name) {
                let j = choose|j: int|
                    0 <= j < cleaned.folders.len() && cleaned.folders[j].name == other.name;
                assert(library.folders.contains(cleaned.folders[j]));
                let j0 = choose|j0: int|
                    0 <= j0 < library.folders.len() && library.folders[j0]
                        == cleaned.folders[j];
                assert(library.folders[j0].name == other.name);
            }
        }
        lemma_ready_files_are_handled(cleaned, pending, at + 1);
    }
}

/// In a well-formed library where no season folder holds two episode files
/// and no episode file bears the name of a season folder, a run that has
/// consent meets no refusal: it ends without an error.
pub proof fn law_run_without_conflict_completes(
    library: LibraryView,
    auto_confirm: bool,
    reply: Seq<char>,
)
    requires
        library.wf(),
        one_episode_each(library.folders),
        no_episode_named_like_a_folder(library.folders),
    ensures
        run(library, auto_confirm, reply).1 is Ok,
{
    if scan(library).len() > 0 && consents(auto_confirm, reply) {
        lemma_scan_ready(library);
        lemma_ready_files_are_handled(library, scan(library), 0);
    }
}

/// The session that `events`, taken in by `session` one after the other,
/// lead to.
pub open spec fn after_events(session: SessionView, events: Seq<EventView>) -> SessionView
    decreases events.len(),
{
    if events.len() == 0 {
        session
    } else {
        after_events(session, events.drop_last()).step(events.last())
    }
}

/// Whether an action changes what is on disk.
pub open spec fn is_mutation(action: ActionView) -> bool {
    action is Move || action is RemoveFolder
}

/// Whether no answer among `events` gives consent.
pub open spec fn no_consent_in(events: Seq<EventView>) -> bool {
    forall|i: int|
        0 <= i < events.len() ==> (#[trigger] events[i] matches EventView::Answered(line)
            ==> !is_affirmative_line(line))
}

/// Whatever a session is told, it stays well formed.
pub proof fn lemma_sessions_are_wf(root: Seq<char>, auto_confirm: bool, events: Seq<EventView>)
    ensures
        after_events(SessionView::start(root, auto_confirm), events).wf(),
    decreases events.len(),
{
    if events.len() > 0 {
        lemma_sessions_are_wf(root, auto_confirm, events.drop_last());
        lemma_step_keeps_wf(
            after_events(SessionView::start(root, auto_confirm), events.drop_last()),
            events.last(),
        );
    }
}

/// What a session has found, it keeps: events only add to the pending
/// files.
pub proof fn lemma_pending_grows(session: SessionView, events: Seq<EventView>, n: int)
    requires
        0 <= n <= events.len(),
    ensures
        after_events(session, events.take(n)).pending.len() <= after_events(
            session,
            events,
        ).pending.len(),
    decreases events.len(),
{
    if n < events.len() {
        assert(events.drop_last().take(n) =~= events.take(n));
        lemma_pending_grows(session, events.drop_last(), n);
    } else {
        assert(events.take(n) =~= events);
    }
}

/// A session that finds no episode file never asks for a file to be moved
/// or a folder to be removed, whatever it is told and whether or not consent
/// is taken for granted; and where it ends without an error, its summary
/// counts no file.
pub proof fn law_session_without_episodes_moves_nothing(
    root: Seq<char>,
    auto_confirm: bool,
    events: Seq<EventView>,
    n: int,
)
    requires
        0 <= n <= events.len(),
        after_events(SessionView::start(root, auto_confirm), events).pending.len() == 0,
    ensures
        !is_mutation(
            after_events(SessionView::start(root, auto_confirm), events.take(n)).action(),
        ),
        after_events(SessionView::start(root, auto_confirm), events).outcome matches Some(
            Ok(summary),
        ) ==> summary == SummaryView::idle(Conclusion::NothingToDo),
{
    let start = SessionView::start(root, auto_confirm);
    lemma_pending_grows(start, events, n);
    lemma_sessions_are_wf(root, auto_confirm, events.take(n));
    lemma_idle_outcome(root, auto_confirm, events);
}

proof fn lemma_idle_outcome(root: Seq<char>, auto_confirm: bool, events: Seq<EventView>)
    ensures
        ({
            let session = after_events(SessionView::start(root, auto_confirm), events);
            session.pending.len() == 0 ==> (session.outcome matches Some(Ok(summary))
                ==> summary == SummaryView::idle(Conclusion::NothingToDo))
        }),
    decreases events.len(),
{
    if events.len() > 0 {
        let start = SessionView::start(root, auto_confirm);
        lemma_idle_outcome(root, auto_confirm, events.drop_last());
        lemma_sessions_are_wf(root, auto_confirm, events.drop_last());
        assert(events.drop_last() =~= events.take(events.len() - 1));
        lemma_pending_grows(start, events, events.len() - 1);
    }
}

/// A session that must ask, and is given no consent, never asks for a file
/// to be moved or a folder to be removed, whatever else it is told; and
/// where it ends without an error, its summary counts no file.
pub proof fn law_session_without_consent_moves_nothing(root: Seq<char>, events: Seq<EventView>)
    requires
        no_consent_in(events),
    ensures
        !is_mutation(after_events(SessionView::start(root, false), events).action()),
        after_events(SessionView::start(root, false), events).outcome matches Some(Ok(summary))
            ==> summary.moved == 0,
    decreases events.len(),
{
    lemma_unconfirmed(root, events);
}

proof fn lemma_unconfirmed(root: Seq<char>, events: Seq<EventView>)
    requires
        no_consent_in(events),
    ensures
        ({
            let session = after_events(SessionView::start(root, false), events);
            &&& !session.auto_confirm
            &&& session.phase != Phase::Moving
            &&& session.phase != Phase::Cleaning
            &&& session.outcome matches Some(Ok(summary)) ==> summary.moved == 0
        }),
    decreases events.len(),
{
    if events.len() > 0 {
        let head = events.drop_last();
        assert forall|i: int| 0 <= i < head.len() implies (#[trigger] head[i] matches EventView::Answered(
            line,
        ) ==> !is_affirmative_line(line)) by {
            assert(head[i] == events[i]);
        }
        lemma_unconfirmed(root, head);
        assert(events.last() == events[events.len() - 1]);
    }
}

} // verus!
