//! Text as a sequence of characters, and the search for fixed words in it.

use vstd::prelude::*;
use vstd::string::StringExecFns;

verus! {

/// `word` stands in `text` at position `at`.
pub open spec fn occurs_at(text: Seq<char>, word: Seq<char>, at: int) -> bool {
    &&& 0 <= at
    &&& at + word.len() <= text.len()
    &&& text.subrange(at, at + word.len()) == word
}

/// No line ends between `from` and `to`.
pub open spec fn one_line(text: Seq<char>, from: int, to: int) -> bool {
    forall|k: int| from <= k < to && 0 <= k < text.len() ==> text[k] != '\n'
}

/// `word` holds no line end.
pub open spec fn no_line_end(word: Seq<char>) -> bool {
    forall|k: int| 0 <= k < word.len() ==> word[k] != '\n'
}

/// `word` stands at `at`, no earlier than `from`, and no line ends between
/// `from` and `at`.
pub open spec fn reaches(text: Seq<char>, word: Seq<char>, from: int, at: int) -> bool {
    &&& from <= at
    &&& one_line(text, from, at)
    &&& occurs_at(text, word, at)
}

/// `at` is the first place after `from` where `word` can be reached.
pub open spec fn first_reach(text: Seq<char>, word: Seq<char>, from: int, at: int) -> bool {
    &&& reaches(text, word, from, at)
    &&& forall|q: int| reaches(text, word, from, q) ==> at <= q
}

/// A word without a line end, once reached past a stretch without one,
/// leaves the whole stretch up to its own end without one.
pub proof fn lemma_one_line_through(text: Seq<char>, word: Seq<char>, from: int, at: int)
    requires
        reaches(text, word, from, at),
        no_line_end(word),
    ensures
        one_line(text, from, at + word.len()),
{
    assert forall|k: int| from <= k < at + word.len() && 0 <= k < text.len() implies text[k]
        != '\n' by {
        if k >= at {
            assert(text.subrange(at, at + word.len())[k - at] == text[k]);
            assert(word[k - at] != '\n');
        }
    }
}

/// `rest` below `base`, as a path.
pub open spec fn joined(base: Seq<char>, rest: Seq<char>) -> Seq<char> {
    base + "/"@ + rest
}

/// The path of `rest` below `base`: the two with a slash between them.
pub fn join(base: &str, rest: &str) -> (path: String)
    ensures
        path@ == joined(base@, rest@),
{
    let mut path = base.to_owned();
    path.append("/");
    path.append(rest);
    path
}

/// The characters of `s`, in order.
pub fn to_chars(s: &str) -> (chars: Vec<char>)
    ensures
        chars@ == s@,
{
    let mut chars: Vec<char> = Vec::new();
    for c in it: s.chars()
        invariant
            chars@ == it.seq().take(it.index() as int),
    {
        chars.push(c);
    }
    chars
}

/// Whether `word` stands in `text` at `at`.
pub fn occurs(text: &[char], word: &[char], at: usize) -> (found: bool)
    ensures
        found == occurs_at(text@, word@, at as int),
{
    if word.len() > text.len() || at > text.len() - word.len() {
        return false;
    }
    let mut k: usize = 0;
    while k < word.len()
        invariant
            k <= word.len(),
            at + word.len() <= text.len(),
            forall|j: int| 0 <= j < k ==> text@[at + j] == word@[j],
        decreases word.len() - k,
    {
        if text[at + k] != word[k] {
            assert(text@.subrange(at as int, at + word.len())[k as int] == text@[at + k]);
            return false;
        }
        k += 1;
    }
    assert(text@.subrange(at as int, at + word.len()) =~= word@);
    true
}

/// The first place at or after `from` where `word` stands, looking no
/// further than the end of the line that `from` is on.
pub fn find_on_line(text: &[char], word: &[char], from: usize) -> (found: Option<usize>)
    ensures
        match found {
            Some(at) => first_reach(text@, word@, from as int, at as int),
            None => forall|q: int| !reaches(text@, word@, from as int, q),
        },
{
    let mut at: usize = from;
    loop
        invariant
            from <= at,
            one_line(text@, from as int, at as int),
            forall|q: int| from <= q < at ==> !occurs_at(text@, word@, q),
        decreases text.len() - at,
    {
        if occurs(text, word, at) {
            return Some(at);
        }
        if at >= text.len() || text[at] == '\n' {
            assert forall|q: int| !reaches(text@, word@, from as int, q) by {
                if reaches(text@, word@, from as int, q) && q > at {
                    if at >= text.len() {
                        assert(q + word@.len() <= text@.len());
                    } else {
                        assert(text@[at as int] == '\n');
                    }
                }
            }
            return None;
        }
        at += 1;
    }
}

/// The first place after `from` where `word` stands, with at least one
/// character in between and no line end before it.
pub fn find_past(text: &[char], word: &[char], from: usize) -> (found: Option<usize>)
    ensures
        match found {
            Some(at) => from < at && first_reach(text@, word@, from + 1, at as int) && one_line(
                text@,
                from as int,
                at as int,
            ),
            None => forall|q: int| from < q && one_line(text@, from as int, q) ==> !occurs_at(
                text@,
                word@,
                q,
            ),
        },
{
    if from >= text.len() || text[from] == '\n' {
        assert forall|q: int| from < q && one_line(text@, from as int, q) implies !occurs_at(
            text@,
            word@,
            q,
        ) by {
            if from < text.len() {
                assert(text@[from as int] == '\n');
            }
        }
        return None;
    }
    let found = find_on_line(text, word, from + 1);
    proof {
        match found {
            Some(at) => {},
            None => {
                assert forall|q: int|
                    from < q && one_line(text@, from as int, q) implies !occurs_at(
                    text@,
                    word@,
                    q,
                ) by {
                    if occurs_at(text@, word@, q) {
                        assert(reaches(text@, word@, from + 1, q));
                    }
                }
            },
        }
    }
    found
}

} // verus!
