//! The operator's yes/no answer.
//!
//! The default is no: only `y` and `yes`, in any mix of upper and lower case
//! and with white space around them, give consent. Everything else, the empty
//! line included, declines.

use vstd::prelude::*;
use vstd::string::*;
use crate::text::chars_of;

verus! {

/// White space as Unicode defines it (the property `White_Space`), which is
/// what surrounds an answer typed on a line: blanks, tabs, line ends and the
/// wide and narrow spaces of other scripts.
pub open spec fn is_space(c: char) -> bool {
    let u = c as u32;
    ||| 0x09 <= u <= 0x0D
    ||| u == 0x20
    ||| u == 0x85
    ||| u == 0xA0
    ||| u == 0x1680
    ||| 0x2000 <= u <= 0x200A
    ||| u == 0x2028
    ||| u == 0x2029
    ||| u == 0x202F
    ||| u == 0x205F
    ||| u == 0x3000
}

/// `line` without its leading white space.
pub open spec fn trim_start(line: Seq<char>) -> Seq<char>
    decreases line.len(),
{
    if line.len() > 0 && is_space(line[0]) {
        trim_start(line.drop_first())
    } else {
        line
    }
}

/// `line` without its trailing white space.
pub open spec fn trim_end(line: Seq<char>) -> Seq<char>
    decreases line.len(),
{
    if line.len() > 0 && is_space(line.last()) {
        trim_end(line.drop_last())
    } else {
        line
    }
}

/// `line` without the white space at either end.
pub open spec fn trim(line: Seq<char>) -> Seq<char> {
    trim_end(trim_start(line))
}

/// Whether `word` is `y` or `yes`, whatever the case of each letter.
pub open spec fn is_yes_word(word: Seq<char>) -> bool {
    ||| word.len() == 1 && (word[0] == 'y' || word[0] == 'Y')
    ||| {
        &&& word.len() == 3
        &&& (word[0] == 'y' || word[0] == 'Y')
        &&& (word[1] == 'e' || word[1] == 'E')
        &&& (word[2] == 's' || word[2] == 'S')
    }
}

/// Whether a line typed by the operator gives consent.
pub open spec fn is_affirmative_line(line: Seq<char>) -> bool {
    is_yes_word(trim(line))
}

/// The text shown to the operator: the question, then the hint that the
/// default answer is no.
pub open spec fn prompt_text(question: Seq<char>) -> Seq<char> {
    question + " (y/N): "@
}

/// Tells whether `c` is white space.
pub fn is_space_char(c: char) -> (space: bool)
    ensures
        space == is_space(c),
{
    let u: u32 = c as u32;
    (0x09 <= u && u <= 0x0D) || u == 0x20 || u == 0x85 || u == 0xA0 || u == 0x1680 || (0x2000
        <= u && u <= 0x200A) || u == 0x2028 || u == 0x2029 || u == 0x202F || u == 0x205F || u
        == 0x3000
}

/// Decides whether the operator's answer gives consent.
pub fn is_affirmative(line: &str) -> (yes: bool)
    ensures
        yes == is_affirmative_line(line@),
{
    let chars = chars_of(line);
    let n = chars.len();
    let mut start: usize = 0;
    assert(line@.skip(0) =~= line@);
    while start < n && is_space_char(chars[start])
        invariant
            start <= n,
            n == line@.len(),
            chars@ == line@,
            trim_start(line@) == trim_start(line@.skip(start as int)),
        decreases n - start,
    {
        assert(line@.skip(start as int).drop_first() =~= line@.skip(start + 1));
        start += 1;
    }
    assert(trim_start(line@) == line@.skip(start as int));
    assert(line@.skip(start as int) =~= line@.subrange(start as int, n as int));
    let mut end: usize = n;
    while end > start && is_space_char(chars[end - 1])
        invariant
            start <= end <= n,
            n == line@.len(),
            chars@ == line@,
            trim(line@) == trim_end(line@.subrange(start as int, end as int)),
        decreases end,
    {
        assert(line@.subrange(start as int, end as int).drop_last() =~= line@.subrange(
            start as int,
            end - 1,
        ));
        end -= 1;
    }
    assert(trim(line@) == line@.subrange(start as int, end as int));
    let len = end - start;
    if len == 1 {
        let a = chars[start];
        a == 'y' || a == 'Y'
    } else if len == 3 {
        let a = chars[start];
        let b = chars[start + 1];
        let c = chars[start + 2];
        (a == 'y' || a == 'Y') && (b == 'e' || b == 'E') && (c == 's' || c == 'S')
    } else {
        false
    }
}

/// Builds the text to show to the operator for `question`.
pub fn confirmation_prompt(question: &str) -> (text: String)
    ensures
        text@ == prompt_text(question@),
{
    let mut text = String::from_str(question);
    text.append(" (y/N): ");
    text
}

} // verus!
