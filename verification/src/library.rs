//! A library root held in memory: the season folders directly under it with
//! their entries, and the files that stand in the root itself.
//!
//! It answers what a filesystem would answer to the actions of a session,
//! as far as a run can tell the difference: it lists, it moves a file up
//! into the root, it removes a season folder. What lies deeper, and what the
//! files hold, it does not know.

use vstd::prelude::*;
use vstd::string::*;
use crate::listing::{entry_views, name_views, Entry, EntryKind, EntryView};

verus! {

/// Why the library in memory refuses an action.
#[derive(Clone, Copy, Debug, PartialEq, Eq, Structural)]
pub enum Fault {
    /// The folder, or the file in it, is not there.
    NotFound,
    /// The name that the file would take in the root is that of a folder.
    IsADirectory,
}

impl Fault {
    /// The fault in words.
    pub open spec fn text(self) -> Seq<char> {
        match self {
            Fault::NotFound => "no such file or directory"@,
            Fault::IsADirectory => "is a directory"@,
        }
    }

    /// Says the fault in words.
    pub fn describe(&self) -> (text: String)
        ensures
            text@ == self.text(),
    {
        match self {
            Fault::NotFound => String::from_str("no such file or directory"),
            Fault::IsADirectory => String::from_str("is a directory"),
        }
    }
}

/// A season folder as contracts speak of it: its name in the root and its
/// entries, in the order in which a listing gives them.
pub struct FolderView {
    pub name: Seq<char>,
    pub entries: Seq<EntryView>,
}

/// A library as contracts speak of it: the path of its root, its season
/// folders and the names of the files in its root, each in the order in which
/// a listing gives them.
pub struct LibraryView {
    pub root: Seq<char>,
    pub folders: Seq<FolderView>,
    pub files: Seq<Seq<char>>,
}

/// Whether no two of `names` are the same.
pub open spec fn distinct(names: Seq<Seq<char>>) -> bool {
    forall|i: int, j: int| 0 <= i < j < names.len() ==> names[i] != names[j]
}

/// The names of `entries`, in their order.
pub open spec fn entry_names(entries: Seq<EntryView>) -> Seq<Seq<char>> {
    entries.map_values(|e: EntryView| e.name)
}

/// The names of `folders`, in their order.
pub open spec fn folder_names(folders: Seq<FolderView>) -> Seq<Seq<char>> {
    folders.map_values(|f: FolderView| f.name)
}

impl LibraryView {
    /// The library at `root` with nothing in it.
    pub open spec fn empty(root: Seq<char>) -> LibraryView {
        LibraryView { root, folders: Seq::empty(), files: Seq::empty() }
    }

    /// What holds of every directory: no two of its entries share a name.
    /// Here that is said of the root, whose entries are its folders and its
    /// files, and of each season folder.
    pub open spec fn wf(self) -> bool {
        &&& distinct(folder_names(self.folders) + self.files)
        &&& forall|i: int|
            0 <= i < self.folders.len() ==> distinct(
                entry_names(#[trigger] self.folders[i].entries),
            )
    }

    /// Whether the root holds a season folder of this name.
    pub open spec fn has_folder(self, name: Seq<char>) -> bool {
        exists|i: int| 0 <= i < self.folders.len() && #[trigger] self.folders[i].name == name
    }

    /// Whether the root holds a file of this name.
    pub open spec fn has_file(self, name: Seq<char>) -> bool {
        self.files.contains(name)
    }

    /// The place of the season folder of this name among the folders.
    pub open spec fn folder_at(self, name: Seq<char>) -> int {
        choose|i: int| 0 <= i < self.folders.len() && #[trigger] self.folders[i].name == name
    }

    /// The listing of the root: each season folder as a directory, then each
    /// file.
    pub open spec fn listing(self) -> Seq<EntryView> {
        self.folders.map_values(
            |f: FolderView| EntryView { name: f.name, kind: EntryKind::Directory },
        ) + self.files.map_values(|n: Seq<char>| EntryView { name: n, kind: EntryKind::File })
    }

    /// The listing of the season folder of this name, where there is one.
    pub open spec fn entries_of(self, folder: Seq<char>) -> Option<Seq<EntryView>> {
        if self.has_folder(folder) {
            Some(self.folders[self.folder_at(folder)].entries)
        } else {
            None
        }
    }

    /// This library with one more season folder, empty, listed last.
    pub open spec fn with_folder(self, name: Seq<char>) -> LibraryView {
        LibraryView {
            folders: self.folders.push(FolderView { name, entries: Seq::empty() }),
            ..self
        }
    }

    /// This library with one more file in its root, listed last.
    pub open spec fn with_file(self, name: Seq<char>) -> LibraryView {
        LibraryView { files: self.files.push(name), ..self }
    }

    /// This library with one more entry in the season folder `folder`, listed
    /// last in it.
    pub open spec fn with_entry(self, folder: Seq<char>, entry: EntryView) -> LibraryView {
        let i = self.folder_at(folder);
        LibraryView {
            folders: self.folders.update(
                i,
                FolderView { name: folder, entries: self.folders[i].entries.push(entry) },
            ),
            ..self
        }
    }

    /// What moving the file `file` of the season folder `folder` up into the
    /// root leaves. The move is refused where the folder, or a file of that
    /// name in it, is not there, and where the root holds a folder of the
    /// file's name. A file of that name already in the root is replaced.
    pub open spec fn move_up(self, folder: Seq<char>, file: Seq<char>) -> Result<
        LibraryView,
        Fault,
    > {
        if !self.has_folder(folder) {
            Err(Fault::NotFound)
        } else {
            let i = self.folder_at(folder);
            let entries = self.folders[i].entries;
            if !holds_file(entries, file) {
                Err(Fault::NotFound)
            } else if self.has_folder(file) {
                Err(Fault::IsADirectory)
            } else {
                Ok(
                    LibraryView {
                        root: self.root,
                        folders: self.folders.update(
                            i,
                            FolderView {
                                name: folder,
                                entries: entries.remove(file_place(entries, file)),
                            },
                        ),
                        files: if self.has_file(file) {
                            self.files
                        } else {
                            self.files.push(file)
                        },
                    },
                )
            }
        }
    }

    /// What removing the season folder `folder`, with all that it holds,
    /// leaves. The removal is refused where the folder is not there.
    pub open spec fn remove_folder(self, folder: Seq<char>) -> Result<LibraryView, Fault> {
        if !self.has_folder(folder) {
            Err(Fault::NotFound)
        } else {
            Ok(LibraryView { folders: self.folders.remove(self.folder_at(folder)), ..self })
        }
    }
}

/// Whether `entries` hold an entry of this name.
pub open spec fn holds_entry(entries: Seq<EntryView>, name: Seq<char>) -> bool {
    exists|j: int| 0 <= j < entries.len() && (#[trigger] entries[j]).name == name
}

/// Whether `entries` hold a file of this name.
pub open spec fn holds_file(entries: Seq<EntryView>, name: Seq<char>) -> bool {
    exists|j: int|
        0 <= j < entries.len() && (#[trigger] entries[j]).name == name && entries[j].kind
            == EntryKind::File
}

/// The place among `entries` of the file of this name.
pub open spec fn file_place(entries: Seq<EntryView>, name: Seq<char>) -> int {
    choose|j: int|
        0 <= j < entries.len() && (#[trigger] entries[j]).name == name && entries[j].kind
            == EntryKind::File
}

/// Among entries with distinct names, an entry is found by its name, and
/// nowhere but at its own place.
pub proof fn lemma_file_place(entries: Seq<EntryView>, j: int)
    requires
        distinct(entry_names(entries)),
        0 <= j < entries.len(),
    ensures
        holds_entry(entries, entries[j].name),
        entries[j].kind == EntryKind::File ==> holds_file(entries, entries[j].name)
            && file_place(entries, entries[j].name) == j,
        entries[j].kind != EntryKind::File ==> !holds_file(entries, entries[j].name),
{
    let names = entry_names(entries);
    let name = entries[j].name;
    assert(names[j] == name);
    if entries[j].kind == EntryKind::File {
        let k = file_place(entries, name);
        assert(names[k] == name);
    } else if holds_file(entries, name) {
        let k = file_place(entries, name);
        assert(names[k] == name);
    }
}

/// A new season folder keeps a library well formed, where no entry of the
/// root bears its name.
pub proof fn lemma_with_folder_keeps_wf(library: LibraryView, name: Seq<char>)
    requires
        library.wf(),
        !library.has_folder(name),
        !library.has_file(name),
    ensures
        library.with_folder(name).wf(),
{
    let after = library.with_folder(name);
    let n = library.folders.len() as int;
    let names = folder_names(library.folders) + library.files;
    let names2 = folder_names(after.folders) + after.files;
    assert forall|a: int, b: int| 0 <= a < b < names2.len() implies names2[a] != names2[b] by {
        // The new name stands at place `n`, between the folders and the files.
        if a < n {
            assert(names2[a] == library.folders[a].name);
        }
        if b > n {
            assert(names2[b] == library.files[b - n - 1]);
        }
        if a != n && b != n {
            assert(names2[a] == names[if a < n { a } else { a - 1 }]);
            assert(names2[b] == names[if b < n { b } else { b - 1 }]);
        }
    }
    assert forall|k: int| 0 <= k < after.folders.len() implies distinct(
        entry_names(#[trigger] after.folders[k].entries),
    ) by {
        if k < n {
            assert(after.folders[k] == library.folders[k]);
        }
    }
}

/// A new file in the root keeps a library well formed, where no entry of the
/// root bears its name.
pub proof fn lemma_with_file_keeps_wf(library: LibraryView, name: Seq<char>)
    requires
        library.wf(),
        !library.has_folder(name),
        !library.has_file(name),
    ensures
        library.with_file(name).wf(),
{
    let after = library.with_file(name);
    let n = library.folders.len() as int;
    let names = folder_names(library.folders) + library.files;
    let names2 = folder_names(after.folders) + after.files;
    assert forall|a: int, b: int| 0 <= a < b < names2.len() implies names2[a] != names2[b] by {
        // The new name stands last.
        if b < names.len() {
            assert(names2[a] == names[a]);
            assert(names2[b] == names[b]);
        } else if a < n {
            assert(names2[a] == library.folders[a].name);
        } else {
            assert(names2[a] == library.files[a - n]);
        }
    }
}

/// A new entry in a season folder keeps a library well formed, where the
/// folder is there and no entry of it bears the new one's name.
pub proof fn lemma_with_entry_keeps_wf(library: LibraryView, folder: Seq<char>, entry: EntryView)
    requires
        library.wf(),
        library.has_folder(folder),
        !holds_entry(library.folders[library.folder_at(folder)].entries, entry.name),
    ensures
        library.with_entry(folder, entry).wf(),
{
    let after = library.with_entry(folder, entry);
    let i = library.folder_at(folder);
    assert(folder_names(after.folders) =~= folder_names(library.folders));
    assert forall|k: int| 0 <= k < after.folders.len() implies distinct(
        entry_names(#[trigger] after.folders[k].entries),
    ) by {
        if k == i {
            let entries = library.folders[i].entries;
            let old_names = entry_names(entries);
            let new_names = entry_names(entries.push(entry));
            assert forall|a: int, b: int| 0 <= a < b < new_names.len() implies new_names[a]
                != new_names[b] by {
                if b < old_names.len() {
                    assert(new_names[a] == old_names[a]);
                    assert(new_names[b] == old_names[b]);
                } else {
                    assert(new_names[a] == entries[a].name);
                }
            }
        } else {
            assert(after.folders[k] == library.folders[k]);
        }
    }
}

/// Moving a file up keeps a library well formed.
pub proof fn lemma_move_up_keeps_wf(library: LibraryView, folder: Seq<char>, file: Seq<char>)
    requires
        library.wf(),
        library.move_up(folder, file) is Ok,
    ensures
        library.move_up(folder, file).unwrap().wf(),
{
    let after = library.move_up(folder, file).unwrap();
    let i = library.folder_at(folder);
    let n = library.folders.len() as int;
    let names = folder_names(library.folders) + library.files;
    let names2 = folder_names(after.folders) + after.files;
    assert forall|a: int, b: int| 0 <= a < b < names2.len() implies names2[a] != names2[b] by {
        // A name that the move added is the file's, which no entry of the root bore.
        if b < names.len() {
            assert(names2[a] == names[a]);
            assert(names2[b] == names[b]);
        }
    }
    assert forall|k: int| 0 <= k < after.folders.len() implies distinct(
        entry_names(#[trigger] after.folders[k].entries),
    ) by {
        if k == i {
            let entries = library.folders[i].entries;
            let j = file_place(entries, file);
            let left = entries.remove(j);
            let old_names = entry_names(entries);
            let new_names = entry_names(left);
            assert forall|a: int, b: int| 0 <= a < b < new_names.len() implies new_names[a]
                != new_names[b] by {
                let a0 = if a < j { a } else { a + 1 };
                let b0 = if b < j { b } else { b + 1 };
                assert(new_names[a] == old_names[a0]);
                assert(new_names[b] == old_names[b0]);
            }
        }
    }
}

/// Removing a season folder keeps a library well formed.
pub proof fn lemma_remove_folder_keeps_wf(library: LibraryView, folder: Seq<char>)
    requires
        library.wf(),
        library.remove_folder(folder) is Ok,
    ensures
        library.remove_folder(folder).unwrap().wf(),
{
    let after = library.remove_folder(folder).unwrap();
    let i = library.folder_at(folder);
    let names = folder_names(library.folders) + library.files;
    let names2 = folder_names(after.folders) + after.files;
    assert forall|a: int, b: int| 0 <= a < b < names2.len() implies names2[a] != names2[b] by {
        let a0 = if a < i { a } else { a + 1 };
        let b0 = if b < i { b } else { b + 1 };
        assert(names2[a] == names[a0]);
        assert(names2[b] == names[b0]);
    }
    assert forall|k: int| 0 <= k < after.folders.len() implies distinct(
        entry_names(#[trigger] after.folders[k].entries),
    ) by {
        assert(after.folders[k] == library.folders[if k < i { k } else { k + 1 }]);
    }
}

/// In a well-formed library a season folder is found by its name, and
/// nowhere but at its own place; and no file of the root bears its name.
pub proof fn lemma_folder_at(library: LibraryView, i: int)
    requires
        library.wf(),
        0 <= i < library.folders.len(),
    ensures
        library.has_folder(library.folders[i].name),
        library.folder_at(library.folders[i].name) == i,
        !library.has_file(library.folders[i].name),
{
    let name = library.folders[i].name;
    let names = folder_names(library.folders) + library.files;
    let n = library.folders.len() as int;
    let j = library.folder_at(name);
    assert(names[i] == name);
    assert(names[j] == library.folders[j].name);
    if library.has_file(name) {
        let k = choose|k: int| 0 <= k < library.files.len() && library.files[k] == name;
        assert(names[n + k] == name);
    }
}

/// A season folder held in memory.
struct Folder {
    name: String,
    entries: Vec<Entry>,
}

impl View for Folder {
    type V = FolderView;

    closed spec fn view(&self) -> FolderView {
        FolderView { name: self.name@, entries: entry_views(self.entries@) }
    }
}

/// A library root held in memory.
pub struct Library {
    root: String,
    folders: Vec<Folder>,
    files: Vec<String>,
}

impl View for Library {
    type V = LibraryView;

    closed spec fn view(&self) -> LibraryView {
        LibraryView {
            root: self.root@,
            folders: self.folders@.map_values(|f: Folder| f@),
            files: name_views(self.files@),
        }
    }
}

impl Library {
    /// A library at the path `root` with nothing in it.
    pub fn new(root: &str) -> (library: Library)
        ensures
            library@ == LibraryView::empty(root@),
            library@.wf(),
    {
        let library = Library {
            root: String::from_str(root),
            folders: Vec::new(),
            files: Vec::new(),
        };
        assert(library@.folders =~= Seq::empty());
        assert(library@.files =~= Seq::empty());
        library
    }

    /// The path of the root.
    pub fn root(&self) -> (root: &String)
        ensures
            root@ == self@.root,
    {
        &self.root
    }

    /// Tells whether the root holds a season folder of this name.
    pub fn has_folder(&self, name: &str) -> (found: bool)
        requires
            self@.wf(),
        ensures
            found == self@.has_folder(name@),
    {
        let wanted = String::from_str(name);
        self.find_folder(&wanted).is_some()
    }

    /// Tells whether the root holds a file of this name.
    pub fn has_file(&self, name: &str) -> (found: bool)
        ensures
            found == self@.has_file(name@),
    {
        let wanted = String::from_str(name);
        self.find_file(&wanted).is_some()
    }

    fn find_file(&self, name: &String) -> (place: Option<usize>)
        ensures
            place is Some <==> self@.has_file(name@),
            place matches Some(i) ==> i < self.files.len() && self@.files[i as int] == name@,
    {
        let mut i: usize = 0;
        while i < self.files.len()
            invariant
                i <= self.files.len(),
                forall|k: int| 0 <= k < i ==> self@.files[k] != name@,
            decreases self.files.len() - i,
        {
            if self.files[i] == *name {
                assert(self@.files[i as int] == name@);
                return Some(i);
            }
            i += 1;
        }
        None
    }

    fn find_folder(&self, name: &String) -> (place: Option<usize>)
        requires
            self@.wf(),
        ensures
            place is Some <==> self@.has_folder(name@),
            place matches Some(i) ==> i < self.folders.len() && i == self@.folder_at(name@)
                && self@.folders[i as int].name == name@,
    {
        let mut i: usize = 0;
        while i < self.folders.len()
            invariant
                self@.wf(),
                i <= self.folders.len(),
                forall|k: int| 0 <= k < i ==> (#[trigger] self@.folders[k]).name != name@,
            decreases self.folders.len() - i,
        {
            if self.folders[i].name == *name {
                proof {
                    lemma_folder_at(self@, i as int);
                }
                return Some(i);
            }
            i += 1;
        }
        None
    }

    /// Adds an empty season folder of this name to the root, unless the root
    /// holds an entry of that name already. Tells whether it did.
    pub fn add_folder(&mut self, name: &str) -> (added: bool)
        requires
            old(self)@.wf(),
        ensures
            added == !(old(self)@.has_folder(name@) || old(self)@.has_file(name@)),
            final(self)@ == if added {
                old(self)@.with_folder(name@)
            } else {
                old(self)@
            },
            final(self)@.wf(),
    {
        if self.has_folder(name) || self.has_file(name) {
            return false;
        }
        let folder = Folder { name: String::from_str(name), entries: Vec::new() };
        assert(folder@.entries =~= Seq::empty());
        let ghost before = self@;
        self.folders.push(folder);
        proof {
            assert(self@.folders =~= before.folders.push(folder@));
            lemma_with_folder_keeps_wf(before, name@);
        }
        true
    }

    /// Adds a file of this name to the root, unless the root holds an entry
    /// of that name already. Tells whether it did.
    pub fn add_file(&mut self, name: &str) -> (added: bool)
        requires
            old(self)@.wf(),
        ensures
            added == !(old(self)@.has_folder(name@) || old(self)@.has_file(name@)),
            final(self)@ == if added {
                old(self)@.with_file(name@)
            } else {
                old(self)@
            },
            final(self)@.wf(),
    {
        if self.has_folder(name) || self.has_file(name) {
            return false;
        }
        let ghost before = self@;
        self.files.push(String::from_str(name));
        proof {
            assert(self@.files =~= before.files.push(name@));
            lemma_with_file_keeps_wf(before, name@);
        }
        true
    }

    /// Adds an entry of this name and kind to the season folder `folder`,
    /// unless there is no such folder or it holds an entry of that name
    /// already. Tells whether it did.
    pub fn add_entry(&mut self, folder: &str, name: &str, kind: EntryKind) -> (added: bool)
        requires
            old(self)@.wf(),
        ensures
            added == (old(self)@.has_folder(folder@) && !holds_entry(
                old(self)@.entries_of(folder@).unwrap(),
                name@,
            )),
            final(self)@ == if added {
                old(self)@.with_entry(folder@, EntryView { name: name@, kind })
            } else {
                old(self)@
            },
            final(self)@.wf(),
    {
        let wanted = String::from_str(folder);
        let i = match self.find_folder(&wanted) {
            Some(i) => i,
            None => {
                return false;
            },
        };
        let entry = Entry::new(name, kind);
        let ghost before = self@;
        if find_entry(&self.folders[i].entries, &entry.name).is_some() {
            return false;
        }
        let mut held = self.folders.remove(i);
        let ghost entries = entry_views(held.entries@);
        held.entries.push(entry);
        assert(entry_views(held.entries@) =~= entries.push(entry@));
        self.folders.insert(i, held);
        proof {
            assert(self@.folders =~= before.with_entry(folder@, entry@).folders);
            lemma_with_entry_keeps_wf(before, folder@, entry@);
        }
        true
    }

    /// Lists the root: each season folder as a directory, then each file.
    pub fn list_root(&self) -> (entries: Vec<Entry>)
        ensures
            entry_views(entries@) == self@.listing(),
    {
        let mut entries: Vec<Entry> = Vec::new();
        let ghost folders = self@.folders.map_values(
            |f: FolderView| EntryView { name: f.name, kind: EntryKind::Directory },
        );
        let ghost files = self@.files.map_values(
            |n: Seq<char>| EntryView { name: n, kind: EntryKind::File },
        );
        let mut i: usize = 0;
        while i < self.folders.len()
            invariant
                i <= self.folders.len(),
                folders == self@.folders.map_values(
                    |f: FolderView| EntryView { name: f.name, kind: EntryKind::Directory },
                ),
                entry_views(entries@) =~= folders.take(i as int),
            decreases self.folders.len() - i,
        {
            let ghost before = entries@;
            let entry = Entry { name: self.folders[i].name.clone(), kind: EntryKind::Directory };
            entries.push(entry);
            assert(entry_views(entries@) =~= entry_views(before).push(entry@));
            i += 1;
        }
        let mut k: usize = 0;
        while k < self.files.len()
            invariant
                k <= self.files.len(),
                files == self@.files.map_values(
                    |n: Seq<char>| EntryView { name: n, kind: EntryKind::File },
                ),
                entry_views(entries@) =~= folders + files.take(k as int),
            decreases self.files.len() - k,
        {
            let ghost before = entries@;
            let entry = Entry { name: self.files[k].clone(), kind: EntryKind::File };
            entries.push(entry);
            assert(entry_views(entries@) =~= entry_views(before).push(entry@));
            k += 1;
        }
        entries
    }

    /// Lists the season folder of this name: `None` where the root holds no
    /// such folder.
    pub fn list_folder(&self, folder: &str) -> (entries: Option<Vec<Entry>>)
        requires
            self@.wf(),
        ensures
            match entries {
                Some(entries) => self@.entries_of(folder@) == Some(entry_views(entries@)),
                None => self@.entries_of(folder@) is None,
            },
    {
        let wanted = String::from_str(folder);
        match self.find_folder(&wanted) {
            Some(i) => {
                Some(copy_entries(&self.folders[i].entries))
            },
            None => None,
        }
    }

    /// Moves the file `file` of the season folder `folder` up into the root,
    /// or refuses and changes nothing.
    pub fn move_to_root(&mut self, folder: &str, file: &str) -> (done: Result<(), Fault>)
        requires
            old(self)@.wf(),
        ensures
            match done {
                Ok(_) => old(self)@.move_up(folder@, file@) == Ok::<LibraryView, Fault>(
                    final(self)@,
                ),
                Err(fault) => old(self)@.move_up(folder@, file@) == Err::<LibraryView, Fault>(
                    fault,
                ) && final(self)@ == old(self)@,
            },
            final(self)@.wf(),
    {
        let ghost before = self@;
        let wanted = String::from_str(folder);
        let name = String::from_str(file);
        let i = match self.find_folder(&wanted) {
            Some(i) => i,
            None => {
                return Err(Fault::NotFound);
            },
        };
        let ghost entries = before.folders[i as int].entries;
        let j = match find_entry(&self.folders[i].entries, &name) {
            Some(j) => j,
            None => {
                return Err(Fault::NotFound);
            },
        };
        proof {
            lemma_file_place(entries, j as int);
        }
        match self.folders[i].entries[j].kind {
            EntryKind::File => {},
            _ => {
                return Err(Fault::NotFound);
            },
        }
        if self.find_folder(&name).is_some() {
            return Err(Fault::IsADirectory);
        }
        let known = self.find_file(&name).is_some();
        let mut held = self.folders.remove(i);
        held.entries.remove(j);
        assert(entry_views(held.entries@) =~= entries.remove(j as int));
        self.folders.insert(i, held);
        if !known {
            self.files.push(name);
        }
        proof {
            let after = before.move_up(folder@, file@).unwrap();
            assert(self@.folders =~= after.folders);
            assert(self@.files =~= after.files);
            lemma_move_up_keeps_wf(before, folder@, file@);
        }
        Ok(())
    }

    /// Removes the season folder of this name with all that it holds, or
    /// refuses and changes nothing.
    pub fn remove_folder(&mut self, folder: &str) -> (done: Result<(), Fault>)
        requires
            old(self)@.wf(),
        ensures
            match done {
                Ok(_) => old(self)@.remove_folder(folder@) == Ok::<LibraryView, Fault>(
                    final(self)@,
                ),
                Err(fault) => old(self)@.remove_folder(folder@) == Err::<LibraryView, Fault>(
                    fault,
                ) && final(self)@ == old(self)@,
            },
            final(self)@.wf(),
    {
        let ghost before = self@;
        let wanted = String::from_str(folder);
        match self.find_folder(&wanted) {
            Some(i) => {
                self.folders.remove(i);
                proof {
                    let after = before.remove_folder(folder@).unwrap();
                    assert(self@.folders =~= after.folders);
                    lemma_remove_folder_keeps_wf(before, folder@);
                }
                Ok(())
            },
            None => Err(Fault::NotFound),
        }
    }
}

/// Finds the entry of this name among `entries`.
fn find_entry(entries: &Vec<Entry>, name: &String) -> (place: Option<usize>)
    ensures
        place is Some <==> holds_entry(entry_views(entries@), name@),
        place matches Some(j) ==> j < entries.len() && entries[j as int]@.name == name@,
{
    let ghost all = entry_views(entries@);
    let mut j: usize = 0;
    while j < entries.len()
        invariant
            j <= entries.len(),
            all == entry_views(entries@),
            forall|k: int| 0 <= k < j ==> (#[trigger] all[k]).name != name@,
        decreases entries.len() - j,
    {
        if entries[j].name == *name {
            assert(all[j as int].name == name@);
            return Some(j);
        }
        j += 1;
    }
    None
}

/// Copies a listing.
fn copy_entries(entries: &Vec<Entry>) -> (copy: Vec<Entry>)
    ensures
        entry_views(copy@) == entry_views(entries@),
{
    let mut copy: Vec<Entry> = Vec::new();
    let mut i: usize = 0;
    while i < entries.len()
        invariant
            i <= entries.len(),
            entry_views(copy@) =~= entry_views(entries@).take(i as int),
        decreases entries.len() - i,
    {
        let ghost before = copy@;
        let entry = entries[i].duplicate();
        copy.push(entry);
        assert(entry_views(copy@) =~= entry_views(before).push(entry@));
        i += 1;
    }
    copy
}

} // verus!
