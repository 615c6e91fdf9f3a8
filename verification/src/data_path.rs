//! Finding the game's data directory in the text of its log.
//!
//! The log names the directory somewhere on a line that starts, at some
//! point, with a drive letter: `C:/Games/Some Title/StarRail_Data/...`. The
//! path that counts is the first such stretch of the log: it begins at the
//! earliest drive root from which a data directory name can be reached
//! without crossing a line end, and it ends with the nearest such name.

use vstd::prelude::*;
use crate::text::{occurs, occurs_at, one_line, to_chars};

verus! {

/// The names under which the supported titles keep their data, in the order
/// in which they are looked for.
pub open spec fn data_dir_names() -> Seq<Seq<char>> {
    seq![
        "GenshinImpact_Data"@,
        "YuanShen_Data"@,
        "StarRail_Data"@,
        "ZenlessZoneZero_Data"@,
    ]
}

/// The views of a list of words.
pub open spec fn word_views(words: Seq<Vec<char>>) -> Seq<Seq<char>> {
    words.map_values(|w: Vec<char>| w@)
}

/// A drive letter, a colon and a slash stand at `at`.
pub open spec fn is_drive_root(text: Seq<char>, at: int) -> bool {
    &&& 0 <= at
    &&& at + 3 <= text.len()
    &&& 'A' <= text[at] <= 'Z'
    &&& text[at + 1] == ':'
    &&& text[at + 2] == '/'
}

/// `words[which]` stands at `at`, and none of the words listed before it
/// does.
pub open spec fn is_word_at(text: Seq<char>, words: Seq<Seq<char>>, at: int, which: int) -> bool {
    &&& 0 <= which < words.len()
    &&& occurs_at(text, words[which], at)
    &&& forall|j: int| 0 <= j < which ==> !occurs_at(text, words[j], at)
}

/// A data path begins at `start`: a drive root stands there, the data
/// directory name number `which` stands at `dir`, and no line ends between
/// the root and the name.
pub open spec fn data_path_match(text: Seq<char>, start: int, dir: int, which: int) -> bool {
    &&& is_drive_root(text, start)
    &&& start + 3 <= dir
    &&& one_line(text, start + 3, dir)
    &&& is_word_at(text, data_dir_names(), dir, which)
}

/// The data path at `start` is the one that counts: no data path begins
/// earlier, and none that begins at `start` reaches its name sooner.
pub open spec fn first_data_path(text: Seq<char>, start: int, dir: int, which: int) -> bool {
    &&& data_path_match(text, start, dir, which)
    &&& forall|s: int, d: int, w: int| #[trigger]
        data_path_match(text, s, d, w) ==> start <= s && (s == start ==> dir <= d)
}

/// The text of the data path that `start`, `dir` and `which` describe.
pub open spec fn data_path_text(text: Seq<char>, start: int, dir: int, which: int) -> Seq<char> {
    text.subrange(start, dir + data_dir_names()[which].len())
}

/// The data directory that `text` names: the text of the data path that
/// counts. `None` where `text` holds no data path.
pub open spec fn data_path_of(text: Seq<char>) -> Option<Seq<char>> {
    if exists|s: int, d: int, w: int| first_data_path(text, s, d, w) {
        let (s, d, w) = choose|s: int, d: int, w: int| first_data_path(text, s, d, w);
        Some(data_path_text(text, s, d, w))
    } else {
        None
    }
}

/// At most one data path counts.
pub proof fn lemma_first_data_path_unique(
    text: Seq<char>,
    start: int,
    dir: int,
    which: int,
    start2: int,
    dir2: int,
    which2: int,
)
    requires
        first_data_path(text, start, dir, which),
        first_data_path(text, start2, dir2, which2),
    ensures
        start == start2,
        dir == dir2,
        which == which2,
{
    assert(data_path_match(text, start, dir, which));
    assert(data_path_match(text, start2, dir2, which2));
}

/// The data directory of a text is the text of any data path that counts.
pub proof fn lemma_data_path_of(text: Seq<char>, start: int, dir: int, which: int)
    requires
        first_data_path(text, start, dir, which),
    ensures
        data_path_of(text) == Some(data_path_text(text, start, dir, which)),
{
    let (s, d, w) = choose|s: int, d: int, w: int| first_data_path(text, s, d, w);
    lemma_first_data_path_unique(text, s, d, w, start, dir, which);
}

/// The data directory names as character vectors.
fn data_dir_words() -> (words: Vec<Vec<char>>)
    ensures
        word_views(words@) == data_dir_names(),
{
    let mut words: Vec<Vec<char>> = Vec::new();
    words.push(to_chars("GenshinImpact_Data"));
    words.push(to_chars("YuanShen_Data"));
    words.push(to_chars("StarRail_Data"));
    words.push(to_chars("ZenlessZoneZero_Data"));
    assert(word_views(words@) =~= data_dir_names());
    words
}

/// Which of `words` stands at `at`: the first in the list that does.
fn word_at(text: &[char], words: &Vec<Vec<char>>, at: usize) -> (found: Option<usize>)
    ensures
        match found {
            Some(which) => is_word_at(text@, word_views(words@), at as int, which as int),
            None => forall|j: int| 0 <= j < words.len() ==> !occurs_at(
                text@,
                #[trigger] word_views(words@)[j],
                at as int,
            ),
        },
{
    let mut which: usize = 0;
    while which < words.len()
        invariant
            which <= words.len(),
            forall|j: int| 0 <= j < which ==> !occurs_at(
                text@,
                #[trigger] word_views(words@)[j],
                at as int,
            ),
        decreases words.len() - which,
    {
        if occurs(text, words[which].as_slice(), at) {
            return Some(which);
        }
        which += 1;
    }
    None
}

/// Where the search for a data directory name from `from` ends: at the
/// first name on the line, or at the line's end.
enum DirSearch {
    /// The name number `which` stands at `dir`.
    Found { dir: usize, which: usize },
    /// No name stands anywhere from the start up to `stop`, where the line
    /// or the text ends.
    LineEnd { stop: usize },
}

/// Looks for the first data directory name at or after `from` on the line
/// that `from` is on.
fn find_data_dir(text: &[char], words: &Vec<Vec<char>>, from: usize) -> (end: DirSearch)
    requires
        from <= text.len(),
    ensures
        match end {
            DirSearch::Found { dir, which } => {
                &&& from <= dir
                &&& one_line(text@, from as int, dir as int)
                &&& is_word_at(text@, word_views(words@), dir as int, which as int)
                &&& forall|q: int, w: int|
                    from <= q < dir ==> !#[trigger] is_word_at(text@, word_views(words@), q, w)
            },
            DirSearch::LineEnd { stop } => {
                &&& from <= stop <= text.len()
                &&& one_line(text@, from as int, stop as int)
                &&& stop < text.len() ==> text@[stop as int] == '\n'
                &&& forall|q: int, w: int|
                    from <= q <= stop ==> !#[trigger] is_word_at(text@, word_views(words@), q, w)
            },
        },
{
    let mut at: usize = from;
    loop
        invariant
            from <= at <= text.len(),
            one_line(text@, from as int, at as int),
            forall|q: int, w: int|
                from <= q < at ==> !#[trigger] is_word_at(text@, word_views(words@), q, w),
        decreases text.len() - at,
    {
        match word_at(text, words, at) {
            Some(which) => {
                return DirSearch::Found { dir: at, which };
            },
            None => {},
        }
        if at >= text.len() || text[at] == '\n' {
            return DirSearch::LineEnd { stop: at };
        }
        at += 1;
    }
}

/// Whether a drive root stands at `at`.
fn drive_root_at(text: &[char], at: usize) -> (found: bool)
    ensures
        found == is_drive_root(text@, at as int),
{
    if text.len() < 3 || at > text.len() - 3 {
        return false;
    }
    let letter = text[at];
    'A' <= letter && letter <= 'Z' && text[at + 1] == ':' && text[at + 2] == '/'
}

/// The game's data directory as the log names it: the first stretch of
/// `log_data` that begins with a drive root and ends with a data directory
/// name on the same line. `None` where the log names no such directory.
pub fn extract_data_path(log_data: &str) -> (path: Option<String>)
    ensures
        match path {
            Some(p) => data_path_of(log_data@) == Some(p@),
            None => data_path_of(log_data@) is None,
        },
        path is None <==> forall|start: int, dir: int, which: int|
            !data_path_match(log_data@, start, dir, which),
{
    let text = to_chars(log_data);
    let words = data_dir_words();
    let mut start: usize = 0;
    while start < text.len()
        invariant
            text@ == log_data@,
            word_views(words@) == data_dir_names(),
            forall|s: int, d: int, w: int|
                s < start ==> !#[trigger] data_path_match(text@, s, d, w),
        decreases text.len() - start,
    {
        if drive_root_at(text.as_slice(), start) {
            match find_data_dir(text.as_slice(), &words, start + 3) {
                DirSearch::Found { dir, which } => {
                    let end = dir + words[which].len();
                    let p = log_data.substring_char(start, end).to_owned();
                    proof {
                        assert(data_dir_names()[which as int] == words@[which as int]@);
                        assert(data_path_match(text@, start as int, dir as int, which as int));
                        assert forall|s: int, d: int, w: int| #[trigger]
                            data_path_match(text@, s, d, w) implies start <= s && (s == start
                            ==> dir <= d) by {
                            if s == start && d < dir {
                                assert(is_word_at(text@, word_views(words@), d, w));
                            }
                        }
                        assert(first_data_path(text@, start as int, dir as int, which as int));
                        lemma_data_path_of(text@, start as int, dir as int, which as int);
                    }
                    return Some(p);
                },
                DirSearch::LineEnd { stop } => {
                    proof {
                        assert forall|s: int, d: int, w: int| s < stop implies !#[trigger]
                            data_path_match(text@, s, d, w) by {
                            if start <= s && data_path_match(text@, s, d, w) {
                                assert(is_word_at(text@, word_views(words@), d, w));
                                if d > stop {
                                    assert(text@[stop as int] == '\n');
                                }
                            }
                        }
                    }
                    start = stop;
                },
            }
        } else {
            start += 1;
        }
    }
    proof {
        assert forall|s: int, d: int, w: int| !data_path_match(log_data@, s, d, w) by {
            if data_path_match(log_data@, s, d, w) {
                assert(s < text@.len());
            }
        }
    }
    None
}

} // verus!
