//! Which file names denote episode media.
//!
//! A file counts as an episode by its extension alone, compared exactly and
//! with case: `mp4`, `mkv` and `avi` are recognised, `MP4` is not.

use vstd::prelude::*;
use crate::text::chars_of;

verus! {

/// Index of the last `.` in `name`, or `None` when it holds none.
pub open spec fn last_dot(name: Seq<char>) -> Option<int>
    decreases name.len(),
{
    if name.len() == 0 {
        None
    } else if name.last() == '.' {
        Some(name.len() - 1)
    } else {
        last_dot(name.drop_last())
    }
}

/// The extension of a file name: what follows its last `.`, unless the name
/// holds no `.` or its only `.` is the first character (a hidden file such as
/// `.profile` has a stem and no extension).
pub open spec fn extension_of(name: Seq<char>) -> Option<Seq<char>> {
    match last_dot(name) {
        Some(i) => if i > 0 {
            Some(name.subrange(i + 1, name.len() as int))
        } else {
            None
        },
        None => None,
    }
}

/// The extensions that mark episode media.
pub open spec fn is_episode_extension(ext: Seq<char>) -> bool {
    ||| ext == seq!['m', 'p', '4']
    ||| ext == seq!['m', 'k', 'v']
    ||| ext == seq!['a', 'v', 'i']
}

/// Whether a file of this name is an episode.
pub open spec fn is_episode_name(name: Seq<char>) -> bool {
    match extension_of(name) {
        Some(ext) => is_episode_extension(ext),
        None => false,
    }
}

/// Whether `name` ends with a `.` followed by the three characters given.
pub open spec fn ends_with_dot3(name: Seq<char>, a: char, b: char, c: char) -> bool {
    let n = name.len() as int;
    &&& n >= 4
    &&& name[n - 4] == '.'
    &&& name[n - 3] == a
    &&& name[n - 2] == b
    &&& name[n - 1] == c
}

/// Where `last_dot` finds a dot, it is one, and none follows it; where it
/// finds none, the name holds none.
pub proof fn lemma_last_dot(name: Seq<char>)
    ensures
        match last_dot(name) {
            Some(i) => {
                &&& 0 <= i < name.len()
                &&& name[i] == '.'
                &&& forall|j: int| i < j < name.len() ==> name[j] != '.'
            },
            None => forall|j: int| 0 <= j < name.len() ==> name[j] != '.',
        },
    decreases name.len(),
{
    if name.len() > 0 && name.last() != '.' {
        let stem = name.drop_last();
        lemma_last_dot(stem);
        assert(forall|j: int| 0 <= j < stem.len() ==> stem[j] == name[j]);
    }
}

/// Matching is exact: a name is an episode name precisely when it is a
/// non-empty stem followed by `.mp4`, `.mkv` or `.avi`, letter for letter.
pub proof fn lemma_episode_name_is_exact_suffix(name: Seq<char>)
    ensures
        is_episode_name(name) <==> name.len() > 4 && (ends_with_dot3(name, 'm', 'p', '4')
            || ends_with_dot3(name, 'm', 'k', 'v') || ends_with_dot3(name, 'a', 'v', 'i')),
{
    lemma_last_dot(name);
    let n = name.len() as int;
    if is_episode_name(name) {
        // The extension has three characters, so the last dot is the fourth from the end.
        assert(extension_of(name).unwrap().len() == 3);
    }
    if n > 4 && name[n - 4] == '.' && name[n - 3] != '.' && name[n - 2] != '.' && name[n - 1]
        != '.' {
        // No dot follows the fourth character from the end: it is the last dot.
        assert(extension_of(name).unwrap() =~= seq![name[n - 3], name[n - 2], name[n - 1]]);
    }
}

/// Tells whether a file of this name is an episode, by its extension.
pub fn is_episode_file_name(name: &str) -> (episode: bool)
    ensures
        episode == is_episode_name(name@),
{
    proof {
        lemma_episode_name_is_exact_suffix(name@);
    }
    let chars = chars_of(name);
    let n = chars.len();
    if n <= 4 {
        return false;
    }
    if chars[n - 4] != '.' {
        return false;
    }
    let a = chars[n - 3];
    let b = chars[n - 2];
    let c = chars[n - 1];
    (a == 'm' && b == 'p' && c == '4') || (a == 'm' && b == 'k' && c == 'v') || (a == 'a' && b
        == 'v' && c == 'i')
}

} // verus!
