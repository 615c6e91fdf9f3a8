//! Reading the candidates out of the web cache.
//!
//! The cache file is binary. What is known of it is that `1/0/` stands
//! before each request it recorded, and that later records lie further on
//! in the file. So the file is read as text, whatever its bytes, cut at
//! each `1/0/`, and the pieces are searched from the last to the first.
//! Each piece gives at most one candidate, and only if its text is read as
//! a URL.

use vstd::prelude::*;
use vstd::slice::slice_subrange;
use vstd::string::StrSliceExecFns;
use vstd::utf8::{decode_utf8, valid_utf8};
use crate::candidate::{candidate_text, find_candidate_with, UrlWords};
use crate::text::{occurs, occurs_at, to_chars};
use crate::web_url::{parsed, Url};

verus! {

/// What `String::from_utf8_lossy` makes of `bytes`: their text, with a
/// replacement character wherever they are not UTF-8.
pub uninterp spec fn utf8_lossy(bytes: Seq<u8>) -> Seq<char>;

/// Calls `String::from_utf8_lossy`. Trusted: that the text is a function of
/// the bytes, and that bytes which are UTF-8 are decoded as they stand.
#[verifier::external_body]
fn decode_lossy(bytes: &[u8]) -> (text: String)
    ensures
        text@ == utf8_lossy(bytes@),
        valid_utf8(bytes@) ==> text@ == decode_utf8(bytes@),
{
    String::from_utf8_lossy(bytes).into_owned()
}

/// The word that stands before each record of the cache.
pub open spec fn marker_word() -> Seq<char> {
    "1/0/"@
}

/// The pieces of `text` between the places where `marker` stands, as
/// positions: `start` is where the piece being read began, `at` how far it
/// has been read. Places where `marker` stands are taken from the left, and
/// a place that lies inside an earlier one does not count.
pub open spec fn split_from(text: Seq<char>, marker: Seq<char>, start: int, at: int) -> Seq<
    (int, int),
>
    decreases text.len() - at,
{
    if marker.len() == 0 || at + marker.len() > text.len() {
        seq![(start, text.len() as int)]
    } else if occurs_at(text, marker, at) {
        seq![(start, at)] + split_from(text, marker, at + marker.len(), at + marker.len())
    } else {
        split_from(text, marker, start, at + 1)
    }
}

/// The stretches of `text` that `ranges` name.
pub open spec fn pieces(text: Seq<char>, ranges: Seq<(int, int)>) -> Seq<Seq<char>> {
    ranges.map_values(|r: (int, int)| text.subrange(r.0, r.1))
}

/// The pieces of `text` between the record markers, in their order.
pub open spec fn chunks_of(text: Seq<char>) -> Seq<Seq<char>> {
    pieces(text, split_from(text, marker_word(), 0, 0))
}

/// The URL that a piece of the cache gives: its candidate as
/// [`Url::parse`] reads it. `None` where the piece has no candidate or no
/// URL is read in it.
pub open spec fn candidate_url(chunk: Seq<char>) -> Option<Seq<char>> {
    match candidate_text(chunk) {
        Some(text) => parsed(text),
        None => None,
    }
}

/// The URLs that `chunks` give, those of later pieces first.
pub open spec fn candidates_of(chunks: Seq<Seq<char>>) -> Seq<Seq<char>>
    decreases chunks.len(),
{
    if chunks.len() == 0 {
        Seq::empty()
    } else {
        let earlier = candidates_of(chunks.drop_last());
        match candidate_url(chunks.last()) {
            Some(url) => seq![url] + earlier,
            None => earlier,
        }
    }
}

/// The candidates of a cache text, in the order in which they are tried.
pub open spec fn candidates(text: Seq<char>) -> Seq<Seq<char>> {
    candidates_of(chunks_of(text))
}

/// The positions that a list of ranges holds.
pub open spec fn range_views(ranges: Seq<(usize, usize)>) -> Seq<(int, int)> {
    ranges.map_values(|r: (usize, usize)| (r.0 as int, r.1 as int))
}

/// `ranges` cut `text` at the places where `marker` stands: the first
/// piece begins where the text does, the last ends where it does, `marker`
/// stands between each piece and the next and nowhere within a piece.
pub open spec fn is_split(text: Seq<char>, marker: Seq<char>, ranges: Seq<(int, int)>) -> bool {
    &&& ranges.len() > 0
    &&& ranges[0].0 == 0
    &&& ranges.last().1 == text.len()
    &&& is_split_after(text, marker, ranges)
}

/// The part of [`is_split`] that holds of the pieces from any piece on.
pub open spec fn is_split_after(text: Seq<char>, marker: Seq<char>, ranges: Seq<(int, int)>) -> bool {
    &&& forall|i: int|
        0 <= i < ranges.len() ==> 0 <= (#[trigger] ranges[i]).0 <= ranges[i].1 <= text.len()
    &&& forall|i: int|
        0 <= i < ranges.len() - 1 ==> occurs_at(text, marker, (#[trigger] ranges[i]).1)
            && ranges[i + 1].0 == ranges[i].1 + marker.len()
    &&& forall|i: int, p: int|
        0 <= i < ranges.len() && (#[trigger] ranges[i]).0 <= p && p + marker.len()
            <= ranges[i].1 ==> !#[trigger] occurs_at(text, marker, p)
}

/// The pieces read from `start` on, with the text read up to `at` and no
/// marker found since `start`, cut the rest of the text at its markers.
proof fn lemma_split_from(text: Seq<char>, marker: Seq<char>, start: int, at: int)
    requires
        marker.len() > 0,
        0 <= start <= at <= text.len(),
        forall|p: int| start <= p < at ==> !occurs_at(text, marker, p),
    ensures
        split_from(text, marker, start, at).len() > 0,
        split_from(text, marker, start, at)[0].0 == start,
        split_from(text, marker, start, at).last().1 == text.len(),
        is_split_after(text, marker, split_from(text, marker, start, at)),
    decreases text.len() - at,
{
    let ranges = split_from(text, marker, start, at);
    if at + marker.len() > text.len() {
        assert(ranges =~= seq![(start, text.len() as int)]);
    } else if occurs_at(text, marker, at) {
        let next = at + marker.len();
        let rest = split_from(text, marker, next, next);
        lemma_split_from(text, marker, next, next);
        assert(ranges =~= seq![(start, at)] + rest);
        assert forall|i: int| 0 <= i < ranges.len() - 1 implies occurs_at(
            text,
            marker,
            (#[trigger] ranges[i]).1,
        ) && ranges[i + 1].0 == ranges[i].1 + marker.len() by {
            if i > 0 {
                assert(ranges[i] == rest[i - 1]);
                assert(ranges[i + 1] == rest[i]);
            }
        }
        assert forall|i: int, p: int|
            0 <= i < ranges.len() && (#[trigger] ranges[i]).0 <= p && p + marker.len()
                <= ranges[i].1 implies !#[trigger] occurs_at(text, marker, p) by {
            if i > 0 {
                assert(ranges[i] == rest[i - 1]);
            }
        }
        assert forall|i: int| 0 <= i < ranges.len() implies 0 <= (#[trigger] ranges[i]).0
            <= ranges[i].1 <= text.len() by {
            if i > 0 {
                assert(ranges[i] == rest[i - 1]);
            }
        }
    } else {
        lemma_split_from(text, marker, start, at + 1);
    }
}

/// The pieces of a text cut it at its markers.
pub proof fn lemma_split_is_split(text: Seq<char>, marker: Seq<char>)
    requires
        marker.len() > 0,
    ensures
        is_split(text, marker, split_from(text, marker, 0, 0)),
{
    lemma_split_from(text, marker, 0, 0);
}

/// Reading on over a stretch in which `marker` stands nowhere changes
/// nothing of the pieces.
proof fn lemma_split_skip(text: Seq<char>, marker: Seq<char>, start: int, at: int, to: int)
    requires
        marker.len() > 0,
        0 <= at <= to,
        forall|p: int| at <= p < to ==> !occurs_at(text, marker, p),
    ensures
        split_from(text, marker, start, at) == split_from(text, marker, start, to),
    decreases to - at,
{
    if at < to {
        lemma_split_skip(text, marker, start, at + 1, to);
    }
}

/// The pieces of a text that follows `before` are those of the text read
/// alone, with `before` left out of the count.
proof fn lemma_split_after(
    before: Seq<char>,
    text: Seq<char>,
    marker: Seq<char>,
    start: int,
    at: int,
)
    requires
        marker.len() > 0,
        0 <= start <= at <= text.len(),
    ensures
        pieces(
            before + text,
            split_from(before + text, marker, before.len() + start, before.len() + at),
        ) == pieces(text, split_from(text, marker, start, at)),
    decreases text.len() - at,
{
    let whole = before + text;
    let n = before.len() as int;
    let here = split_from(whole, marker, n + start, n + at);
    let alone = split_from(text, marker, start, at);
    assert(occurs_at(whole, marker, n + at) == occurs_at(text, marker, at)) by {
        if at + marker.len() <= text.len() {
            assert(whole.subrange(n + at, n + at + marker.len()) =~= text.subrange(
                at,
                at + marker.len(),
            ));
        }
    }
    if at + marker.len() > text.len() {
        assert(whole.subrange(n + start, whole.len() as int) =~= text.subrange(
            start,
            text.len() as int,
        ));
        assert(pieces(whole, here) =~= pieces(text, alone));
    } else if occurs_at(text, marker, at) {
        let next = at + marker.len();
        lemma_split_after(before, text, marker, next, next);
        assert(whole.subrange(n + start, n + at) =~= text.subrange(start, at));
        assert(pieces(whole, here) =~= seq![whole.subrange(n + start, n + at)] + pieces(
            whole,
            split_from(whole, marker, n + next, n + next),
        ));
        assert(pieces(text, alone) =~= seq![text.subrange(start, at)] + pieces(
            text,
            split_from(text, marker, next, next),
        ));
    } else {
        lemma_split_after(before, text, marker, start, at + 1);
    }
}

/// A text in which the record marker stands nowhere is one piece.
pub proof fn lemma_chunks_of_whole(text: Seq<char>)
    requires
        forall|p: int| !occurs_at(text, marker_word(), p),
    ensures
        chunks_of(text) == seq![text],
{
    reveal_strlit("1/0/");
    lemma_split_skip(text, marker_word(), 0, 0, text.len() as int);
    assert(text.subrange(0, text.len() as int) =~= text);
    assert(chunks_of(text) =~= seq![text]);
}

/// A text cut at its first record marker: where the marker stands nowhere
/// in `head`, the pieces of `head`, the marker and `rest` are `head` and
/// then the pieces of `rest`.
pub proof fn lemma_chunks_of_first(head: Seq<char>, rest: Seq<char>)
    requires
        forall|p: int| !occurs_at(head, marker_word(), p),
    ensures
        chunks_of(head + marker_word() + rest) == seq![head] + chunks_of(rest),
        candidates(head + marker_word() + rest) == candidates(rest) + candidates_of(seq![head]),
{
    reveal_strlit("1/0/");
    let marker = marker_word();
    let before = head + marker;
    let text = before + rest;
    let n = head.len() as int;
    assert(text.subrange(n, n + 4) =~= marker);
    assert forall|p: int| 0 <= p < n implies !occurs_at(text, marker, p) by {
        if occurs_at(text, marker, p) {
            let found = text.subrange(p, p + 4);
            if p + 4 <= n {
                assert(head.subrange(p, p + 4) =~= found);
                assert(occurs_at(head, marker, p));
            } else {
                assert(found[n - p] == text[n]);
                assert(text.subrange(n, n + 4)[0] == text[n]);
            }
        }
    }
    lemma_split_skip(text, marker, 0, 0, n);
    lemma_split_after(before, rest, marker, 0, 0);
    assert(text.subrange(0, n) =~= head);
    assert(chunks_of(text) =~= seq![head] + chunks_of(rest));
    lemma_candidates_of_concat(seq![head], chunks_of(rest));
}

/// The pieces of `text` between the places where `marker` stands, as the
/// positions of each piece's first character and of the one after its last.
pub fn split_ranges(text: &[char], marker: &[char]) -> (ranges: Vec<(usize, usize)>)
    ensures
        range_views(ranges@) == split_from(text@, marker@, 0, 0),
        marker@.len() > 0 ==> is_split(text@, marker@, range_views(ranges@)),
        forall|i: int|
            0 <= i < ranges.len() ==> (#[trigger] ranges[i]).0 <= ranges[i].1 <= text.len(),
{
    let mut ranges: Vec<(usize, usize)> = Vec::new();
    let mut start: usize = 0;
    let mut at: usize = 0;
    if marker.len() > 0 && marker.len() <= text.len() {
        let last = text.len() - marker.len();
        while at <= last
            invariant
                0 < marker.len() <= text.len(),
                last == text.len() - marker.len(),
                start <= at <= text.len(),
                range_views(ranges@) + split_from(text@, marker@, start as int, at as int)
                    == split_from(text@, marker@, 0, 0),
                forall|i: int|
                    0 <= i < ranges.len() ==> (#[trigger] ranges[i]).0 <= ranges[i].1
                        <= text.len(),
            decreases text.len() - at,
        {
            if occurs(text, marker, at) {
                let ghost before = range_views(ranges@);
                ranges.push((start, at));
                proof {
                    let rest = split_from(
                        text@,
                        marker@,
                        at + marker.len(),
                        at + marker.len(),
                    );
                    assert(range_views(ranges@) =~= before + seq![(start as int, at as int)]);
                    assert(range_views(ranges@) + rest =~= before + (seq![
                        (start as int, at as int),
                    ] + rest));
                }
                at = at + marker.len();
                start = at;
            } else {
                at += 1;
            }
        }
    }
    let ghost before = range_views(ranges@);
    ranges.push((start, text.len()));
    proof {
        assert(range_views(ranges@) =~= before + seq![(start as int, text.len() as int)]);
        if marker@.len() > 0 {
            lemma_split_is_split(text@, marker@);
        }
    }
    ranges
}

/// The pieces up to and with number `n` give the URL of piece `n`, where
/// it has one, and then those of the pieces before it.
pub proof fn lemma_candidates_of_take(chunks: Seq<Seq<char>>, n: int)
    requires
        0 <= n < chunks.len(),
    ensures
        candidates_of(chunks.take(n + 1)) == match candidate_url(chunks[n]) {
            Some(url) => seq![url] + candidates_of(chunks.take(n)),
            None => candidates_of(chunks.take(n)),
        },
{
    assert(chunks.take(n + 1).drop_last() =~= chunks.take(n));
}

/// The URLs of later pieces come before those of earlier ones.
pub proof fn lemma_candidates_of_concat(earlier: Seq<Seq<char>>, later: Seq<Seq<char>>)
    ensures
        candidates_of(earlier + later) == candidates_of(later) + candidates_of(earlier),
    decreases later.len(),
{
    if later.len() == 0 {
        assert(earlier + later =~= earlier);
        assert(candidates_of(later) + candidates_of(earlier) =~= candidates_of(earlier));
    } else {
        let all = earlier + later;
        assert(all.drop_last() =~= earlier + later.drop_last());
        assert(all.last() == later.last());
        lemma_candidates_of_concat(earlier, later.drop_last());
        let rest = candidates_of(later.drop_last());
        match candidate_url(later.last()) {
            Some(url) => {
                assert(seq![url] + (rest + candidates_of(earlier)) =~= (seq![url] + rest)
                    + candidates_of(earlier));
            },
            None => {},
        }
    }
}

/// The candidates of a cache, handed out one at a time, those of later
/// records first.
#[derive(Debug)]
pub struct CacheScanner {
    text: String,
    chars: Vec<char>,
    chunks: Vec<(usize, usize)>,
    remaining: usize,
    yielded: usize,
    words: UrlWords,
}

impl CacheScanner {
    /// The pieces are those of the text, and no more candidates were handed
    /// out than pieces were searched.
    #[verifier::type_invariant]
    spec fn consistent(self) -> bool {
        &&& self.chars@ == self.text@
        &&& range_views(self.chunks@) == split_from(self.chars@, marker_word(), 0, 0)
        &&& forall|i: int|
            0 <= i < self.chunks.len() ==> (#[trigger] self.chunks[i]).0 <= self.chunks[i].1
                <= self.chars.len()
        &&& self.yielded + self.remaining <= self.chunks.len()
    }

    /// The candidates that are still to come, the next one first.
    pub closed spec fn pending(self) -> Seq<Seq<char>> {
        candidates_of(chunks_of(self.chars@).take(self.remaining as int))
    }

    /// How many candidates were handed out so far.
    pub closed spec fn handed_out(self) -> nat {
        self.yielded as nat
    }

    /// A scanner over the text of a cache.
    pub fn new(text: String) -> (scanner: CacheScanner)
        ensures
            scanner.pending() == candidates(text@),
            scanner.handed_out() == 0,
    {
        let chars = to_chars(text.as_str());
        let marker = to_chars("1/0/");
        let chunks = split_ranges(chars.as_slice(), marker.as_slice());
        let remaining = chunks.len();
        proof {
            let all = chunks_of(chars@);
            assert(all.len() == chunks.len());
            assert(all.take(remaining as int) =~= all);
        }
        CacheScanner { text, chars, chunks, remaining, yielded: 0, words: UrlWords::new() }
    }

    /// How many candidates were handed out so far.
    pub fn tried(&self) -> (count: usize)
        ensures
            count == self.handed_out(),
    {
        self.yielded
    }

    /// The next candidate. `None` when there is none left.
    pub fn next(&mut self) -> (url: Option<Url>)
        ensures
            match url {
                Some(u) => {
                    &&& old(self).pending().len() > 0
                    &&& u@ == old(self).pending()[0]
                    &&& final(self).pending() == old(self).pending().drop_first()
                    &&& final(self).handed_out() == old(self).handed_out() + 1
                },
                None => {
                    &&& old(self).pending().len() == 0
                    &&& final(self).pending().len() == 0
                    &&& final(self).handed_out() == old(self).handed_out()
                },
            },
    {
        proof {
            use_type_invariant(&*self);
        }
        while self.remaining > 0
            invariant
                self.consistent(),
                self.pending() == old(self).pending(),
                self.handed_out() == old(self).handed_out(),
            decreases self.remaining,
        {
            let ghost all = chunks_of(self.chars@);
            let ghost before = self.pending();
            self.remaining = self.remaining - 1;
            let (lo, hi) = self.chunks[self.remaining];
            proof {
                assert(range_views(self.chunks@)[self.remaining as int] == (lo as int, hi as int));
                assert(all[self.remaining as int] == self.chars@.subrange(lo as int, hi as int));
                lemma_candidates_of_take(all, self.remaining as int);
            }
            let chunk = slice_subrange(self.chars.as_slice(), lo, hi);
            match find_candidate_with(chunk, &self.words) {
                Some((from, to)) => {
                    let found = self.text.as_str().substring_char(lo + from, lo + to);
                    assert(found@ =~= chunk@.subrange(from as int, to as int));
                    match Url::parse(found) {
                        Some(url) => {
                            self.yielded = self.yielded + 1;
                            assert(self.pending() =~= before.drop_first());
                            return Some(url);
                        },
                        None => {},
                    }
                },
                None => {},
            }
        }
        proof {
            assert(chunks_of(self.chars@).take(0) =~= Seq::<Seq<char>>::empty());
        }
        None
    }
}

/// A scanner over the bytes of a cache file, read as text whatever they
/// hold.
pub fn scan_cache(bytes: &[u8]) -> (scanner: CacheScanner)
    ensures
        scanner.pending() == candidates(utf8_lossy(bytes@)),
        valid_utf8(bytes@) ==> scanner.pending() == candidates(decode_utf8(bytes@)),
        scanner.handed_out() == 0,
{
    CacheScanner::new(decode_lossy(bytes))
}

} // verus!
