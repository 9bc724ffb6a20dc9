//! What a directory listing reports, and what discovery keeps of it.
//!
//! Entries are held in the order in which the directory was walked. That
//! order is the platform's own: it is not sorted and need not be the same on
//! a second walk.

use vstd::prelude::*;
use vstd::string::*;
use crate::names::{is_episode_file_name, is_episode_name};

verus! {

/// What an entry of a directory is, links followed.
#[derive(Clone, Copy, Debug, PartialEq, Eq, Structural)]
pub enum EntryKind {
    File,
    Directory,
    Other,
}

/// One entry of a directory: its name within the directory and its kind.
#[derive(Debug, PartialEq, Eq)]
pub struct Entry {
    pub name: String,
    pub kind: EntryKind,
}

/// An `Entry` as contracts speak of it.
pub struct EntryView {
    pub name: Seq<char>,
    pub kind: EntryKind,
}

impl View for Entry {
    type V = EntryView;

    open spec fn view(&self) -> EntryView {
        EntryView { name: self.name@, kind: self.kind }
    }
}

/// An episode file awaiting its move: the season folder that holds it and
/// its name in that folder. Its path is the root, the folder, the name; its
/// destination is the root and the name.
#[derive(Debug, PartialEq, Eq)]
pub struct EpisodeFile {
    pub folder: String,
    pub name: String,
}

/// An `EpisodeFile` as contracts speak of it.
pub struct EpisodeView {
    pub folder: Seq<char>,
    pub name: Seq<char>,
}

impl View for EpisodeFile {
    type V = EpisodeView;

    open spec fn view(&self) -> EpisodeView {
        EpisodeView { folder: self.folder@, name: self.name@ }
    }
}

/// The entries of a listing as contracts speak of them.
pub open spec fn entry_views(entries: Seq<Entry>) -> Seq<EntryView> {
    entries.map_values(|e: Entry| e@)
}

/// The pending files as contracts speak of them.
pub open spec fn episode_views(episodes: Seq<EpisodeFile>) -> Seq<EpisodeView> {
    episodes.map_values(|e: EpisodeFile| e@)
}

/// The names as contracts speak of them.
pub open spec fn name_views(names: Seq<String>) -> Seq<Seq<char>> {
    names.map_values(|n: String| n@)
}

/// Whether an entry of a season folder is an episode file: a file, with an
/// episode's extension.
pub open spec fn is_episode_entry(entry: EntryView) -> bool {
    entry.kind == EntryKind::File && is_episode_name(entry.name)
}

/// The episode files among the entries of the season folder `folder`, in the
/// order of the listing. Entries that are no files, and files of another
/// extension or of none, are passed over.
pub open spec fn episodes_in(folder: Seq<char>, entries: Seq<EntryView>) -> Seq<EpisodeView>
    decreases entries.len(),
{
    if entries.len() == 0 {
        Seq::empty()
    } else {
        let before = episodes_in(folder, entries.drop_last());
        if is_episode_entry(entries.last()) {
            before.push(EpisodeView { folder, name: entries.last().name })
        } else {
            before
        }
    }
}

/// The names of the directories among `entries`, in the order of the
/// listing.
pub open spec fn directories_in(entries: Seq<EntryView>) -> Seq<Seq<char>>
    decreases entries.len(),
{
    if entries.len() == 0 {
        Seq::empty()
    } else {
        let before = directories_in(entries.drop_last());
        if entries.last().kind == EntryKind::Directory {
            before.push(entries.last().name)
        } else {
            before
        }
    }
}

impl Entry {
    /// An entry of the given name and kind.
    pub fn new(name: &str, kind: EntryKind) -> (entry: Entry)
        ensures
            entry@ == (EntryView { name: name@, kind }),
    {
        Entry { name: String::from_str(name), kind }
    }

    /// A copy of this entry.
    pub fn duplicate(&self) -> (copy: Entry)
        ensures
            copy@ == self@,
    {
        Entry { name: self.name.clone(), kind: self.kind }
    }
}

impl EpisodeFile {
    /// The file `name` of the season folder `folder`.
    pub fn new(folder: &str, name: &str) -> (episode: EpisodeFile)
        ensures
            episode@ == (EpisodeView { folder: folder@, name: name@ }),
    {
        EpisodeFile { folder: String::from_str(folder), name: String::from_str(name) }
    }

    /// A copy of this file's description.
    pub fn duplicate(&self) -> (copy: EpisodeFile)
        ensures
            copy@ == self@,
    {
        EpisodeFile { folder: self.folder.clone(), name: self.name.clone() }
    }
}

/// Collects the episode files of one season folder from its listing.
pub fn episodes_of(folder: &str, entries: &Vec<Entry>) -> (found: Vec<EpisodeFile>)
    ensures
        episode_views(found@) == episodes_in(folder@, entry_views(entries@)),
{
    let mut found: Vec<EpisodeFile> = Vec::new();
    let ghost all = entry_views(entries@);
    let mut i: usize = 0;
    while i < entries.len()
        invariant
            i <= entries.len(),
            all == entry_views(entries@),
            episode_views(found@) == episodes_in(folder@, all.take(i as int)),
        decreases entries.len() - i,
    {
        let entry = &entries[i];
        let ghost before = found@;
        proof {
            assert(all.take(i + 1).drop_last() =~= all.take(i as int));
        }
        if entry.kind == EntryKind::File && is_episode_file_name(entry.name.as_str()) {
            found.push(EpisodeFile::new(folder, entry.name.as_str()));
            assert(episode_views(found@) =~= episode_views(before).push(
                EpisodeView { folder: folder@, name: entry.name@ },
            ));
        }
        i += 1;
    }
    assert(all.take(i as int) =~= all);
    found
}

/// Picks the directories out of a listing: the season folders of a library
/// root, or, one level up, the library roots below a common parent.
pub fn subfolders(entries: &Vec<Entry>) -> (names: Vec<String>)
    ensures
        name_views(names@) == directories_in(entry_views(entries@)),
{
    let mut names: Vec<String> = Vec::new();
    let ghost all = entry_views(entries@);
    let mut i: usize = 0;
    while i < entries.len()
        invariant
            i <= entries.len(),
            all == entry_views(entries@),
            name_views(names@) == directories_in(all.take(i as int)),
        decreases entries.len() - i,
    {
        let entry = &entries[i];
        proof {
            assert(all.take(i + 1).drop_last() =~= all.take(i as int));
        }
        if entry.kind == EntryKind::Directory {
            names.push(entry.name.clone());
        }
        i += 1;
    }
    assert(all.take(i as int) =~= all);
    names
}

} // verus!
