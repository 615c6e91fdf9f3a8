//! Recognising a gacha-log request in a piece of cache text.
//!
//! A request reads `https://`, some host and path, `/api/getGachaLog`, some
//! more, `authkey=`, some more, and `end_id=`, all on one line and with at
//! least one character in each of the three places left open. A candidate
//! ends with `end_id=`: what follows it in the cache is not taken. Of
//! several ways to read a request in a text, the one that counts begins
//! earliest and, from there, reaches each of the three words as soon as it
//! can.

use vstd::prelude::*;
use crate::text::{
    find_past, lemma_one_line_through, no_line_end, occurs, occurs_at, one_line, reaches,
    to_chars,
};

verus! {

/// The word that a candidate begins with.
pub open spec fn scheme_word() -> Seq<char> {
    "https://"@
}

/// The path of the gacha-log request.
pub open spec fn api_word() -> Seq<char> {
    "/api/getGachaLog"@
}

/// The start of the parameter that authenticates the request.
pub open spec fn authkey_word() -> Seq<char> {
    "authkey="@
}

/// The start of the parameter that a candidate ends with.
pub open spec fn end_id_word() -> Seq<char> {
    "end_id="@
}

/// At least one character lies between `from` and `to`, and no line end.
pub open spec fn gap(text: Seq<char>, from: int, to: int) -> bool {
    from < to && one_line(text, from, to)
}

/// A request can be read in `text` from `start`, with its three words at
/// `api`, `key` and `end`.
pub open spec fn url_match(text: Seq<char>, start: int, api: int, key: int, end: int) -> bool {
    &&& occurs_at(text, scheme_word(), start)
    &&& gap(text, start + scheme_word().len(), api)
    &&& occurs_at(text, api_word(), api)
    &&& gap(text, api + api_word().len(), key)
    &&& occurs_at(text, authkey_word(), key)
    &&& gap(text, key + authkey_word().len(), end)
    &&& occurs_at(text, end_id_word(), end)
}

/// The reading that counts: no request can be read from an earlier start,
/// and none from `start` reaches any of the three words sooner.
pub open spec fn first_url_match(text: Seq<char>, start: int, api: int, key: int, end: int) -> bool {
    &&& url_match(text, start, api, key, end)
    &&& forall|s: int, a: int, k: int, e: int| #[trigger]
        url_match(text, s, a, k, e) ==> start <= s && (s == start ==> api <= a && key <= k && end
            <= e)
}

/// The candidate in `text`: the stretch of the reading that counts, up to
/// the end of `end_id=`. `None` where no request can be read.
pub open spec fn candidate_text(text: Seq<char>) -> Option<Seq<char>> {
    if exists|s: int, a: int, k: int, e: int| first_url_match(text, s, a, k, e) {
        let (s, a, k, e) = choose|s: int, a: int, k: int, e: int| first_url_match(text, s, a, k, e);
        Some(text.subrange(s, e + end_id_word().len()))
    } else {
        None
    }
}

/// None of the four words holds a line end.
pub proof fn lemma_words_on_one_line()
    ensures
        no_line_end(scheme_word()),
        no_line_end(api_word()),
        no_line_end(authkey_word()),
        no_line_end(end_id_word()),
        scheme_word().len() == 8,
        api_word().len() == 16,
        authkey_word().len() == 8,
        end_id_word().len() == 7,
{
    reveal_strlit("https://");
    reveal_strlit("/api/getGachaLog");
    reveal_strlit("authkey=");
    reveal_strlit("end_id=");
}

/// A request lies on one line, from the end of `https://` to `end_id=`.
pub proof fn lemma_url_match_one_line(text: Seq<char>, start: int, api: int, key: int, end: int)
    requires
        url_match(text, start, api, key, end),
    ensures
        one_line(text, start + scheme_word().len(), api + api_word().len()),
        one_line(text, start + scheme_word().len(), key + authkey_word().len()),
        one_line(text, start + scheme_word().len(), end),
{
    lemma_words_on_one_line();
    let from = start + scheme_word().len();
    lemma_one_line_through(text, api_word(), from, api);
    assert(one_line(text, from, key));
    lemma_one_line_through(text, authkey_word(), from, key);
    assert(one_line(text, from, end));
}

/// At most one reading counts.
pub proof fn lemma_first_url_match_unique(
    text: Seq<char>,
    first: (int, int, int, int),
    second: (int, int, int, int),
)
    requires
        first_url_match(text, first.0, first.1, first.2, first.3),
        first_url_match(text, second.0, second.1, second.2, second.3),
    ensures
        first == second,
{
    assert(url_match(text, first.0, first.1, first.2, first.3));
    assert(url_match(text, second.0, second.1, second.2, second.3));
}

/// The candidate of a text is the stretch of any reading that counts.
pub proof fn lemma_candidate_text(text: Seq<char>, start: int, api: int, key: int, end: int)
    requires
        first_url_match(text, start, api, key, end),
    ensures
        candidate_text(text) == Some(text.subrange(start, end + end_id_word().len())),
{
    let chosen = choose|s: int, a: int, k: int, e: int| first_url_match(text, s, a, k, e);
    lemma_first_url_match_unique(text, chosen, (start, api, key, end));
}

/// The four words of a request as character vectors.
#[derive(Debug)]
pub(crate) struct UrlWords {
    scheme: Vec<char>,
    api: Vec<char>,
    authkey: Vec<char>,
    end_id: Vec<char>,
}

impl UrlWords {
    /// The vectors hold the four words.
    #[verifier::type_invariant]
    pub(crate) closed spec fn holds_words(self) -> bool {
        &&& self.scheme@ == scheme_word()
        &&& self.api@ == api_word()
        &&& self.authkey@ == authkey_word()
        &&& self.end_id@ == end_id_word()
    }

    /// The four words, each as the vector of its characters.
    pub(crate) fn new() -> (words: UrlWords)
        ensures
            words.holds_words(),
    {
        UrlWords {
            scheme: to_chars("https://"),
            api: to_chars("/api/getGachaLog"),
            authkey: to_chars("authkey="),
            end_id: to_chars("end_id="),
        }
    }
}

/// The stretch of `text` that is its candidate, as the positions of its
/// first character and of the one after its last. `None` where no request
/// can be read in `text`.
pub fn find_candidate(text: &[char]) -> (span: Option<(usize, usize)>)
    ensures
        match span {
            Some((from, to)) => from <= to <= text@.len() && candidate_text(text@) == Some(
                text@.subrange(from as int, to as int),
            ),
            None => candidate_text(text@) is None,
        },
        span is None <==> forall|s: int, a: int, k: int, e: int| !url_match(text@, s, a, k, e),
{
    find_candidate_with(text, &UrlWords::new())
}

/// [`find_candidate`], with the four words at hand.
pub(crate) fn find_candidate_with(text: &[char], words: &UrlWords) -> (span: Option<
    (usize, usize),
>)
    ensures
        match span {
            Some((from, to)) => from <= to <= text@.len() && candidate_text(text@) == Some(
                text@.subrange(from as int, to as int),
            ),
            None => candidate_text(text@) is None,
        },
        span is None <==> forall|s: int, a: int, k: int, e: int| !url_match(text@, s, a, k, e),
{
    proof {
        use_type_invariant(words);
        lemma_words_on_one_line();
    }
    let mut start: usize = 0;
    while start < text.len()
        invariant
            words.scheme@ == scheme_word(),
            words.api@ == api_word(),
            words.authkey@ == authkey_word(),
            words.end_id@ == end_id_word(),
            forall|s: int, a: int, k: int, e: int|
                s < start ==> !#[trigger] url_match(text@, s, a, k, e),
        decreases text.len() - start,
    {
        if occurs(text, words.scheme.as_slice(), start) {
            proof {
                lemma_words_on_one_line();
            }
            let span = read_from(text, words, start);
            if span.is_some() {
                return span;
            }
        }
        start += 1;
    }
    proof {
        assert forall|s: int, a: int, k: int, e: int| !url_match(text@, s, a, k, e) by {
            if url_match(text@, s, a, k, e) {
                lemma_words_on_one_line();
                assert(s < text@.len());
            }
        }
    }
    None
}

/// Reads a request from `start`, where `https://` stands. `None` where
/// none can be read from there.
fn read_from(text: &[char], words: &UrlWords, start: usize) -> (span: Option<(usize, usize)>)
    requires
        occurs_at(text@, scheme_word(), start as int),
        forall|s: int, a: int, k: int, e: int|
            s < start ==> !#[trigger] url_match(text@, s, a, k, e),
    ensures
        match span {
            Some((from, to)) => from == start && from <= to <= text@.len() && candidate_text(
                text@,
            ) == Some(text@.subrange(from as int, to as int)),
            None => forall|a: int, k: int, e: int| !url_match(text@, start as int, a, k, e),
        },
{
    proof {
        use_type_invariant(words);
        lemma_words_on_one_line();
    }
    let len = text.len();
    assert(start + words.scheme@.len() <= len);
    let after_scheme = start + words.scheme.len();
    let api = match find_past(text, words.api.as_slice(), after_scheme) {
        Some(api) => api,
        None => {
            return None;
        },
    };
    assert(api + words.api@.len() <= len);
    let after_api = api + words.api.len();
    let key = match find_past(text, words.authkey.as_slice(), after_api) {
        Some(key) => key,
        None => {
            proof {
                assert forall|a: int, k: int, e: int| !url_match(text@, start as int, a, k, e) by {
                    if url_match(text@, start as int, a, k, e) {
                        lemma_url_match_one_line(text@, start as int, a, k, e);
                        assert(reaches(text@, api_word(), after_scheme + 1, a));
                        assert(one_line(text@, after_api as int, k));
                    }
                }
            }
            return None;
        },
    };
    assert(key + words.authkey@.len() <= len);
    let after_key = key + words.authkey.len();
    let end = match find_past(text, words.end_id.as_slice(), after_key) {
        Some(end) => end,
        None => {
            proof {
                assert forall|a: int, k: int, e: int| !url_match(text@, start as int, a, k, e) by {
                    if url_match(text@, start as int, a, k, e) {
                        lemma_url_match_one_line(text@, start as int, a, k, e);
                        assert(reaches(text@, api_word(), after_scheme + 1, a));
                        assert(reaches(text@, authkey_word(), after_api + 1, k));
                        assert(one_line(text@, after_key as int, e));
                    }
                }
            }
            return None;
        },
    };
    assert(end + words.end_id@.len() <= len);
    let to = end + words.end_id.len();
    proof {
        assert(url_match(text@, start as int, api as int, key as int, end as int));
        assert forall|s: int, a: int, k: int, e: int| #[trigger]
            url_match(text@, s, a, k, e) implies start <= s && (s == start ==> api <= a && key
            <= k && end <= e) by {
            if s == start {
                lemma_url_match_one_line(text@, s, a, k, e);
                assert(reaches(text@, api_word(), after_scheme + 1, a));
                assert(reaches(text@, authkey_word(), after_api + 1, k));
                assert(reaches(text@, end_id_word(), after_key + 1, e));
            }
        }
        lemma_candidate_text(text@, start as int, api as int, key as int, end as int);
    }
    Some((start, to))
}

} // verus!
