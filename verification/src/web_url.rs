//! URLs, their query pairs, and the filter that keeps only the keys a
//! consumer of the gacha log needs.
//!
//! Parsing a URL, reading its query and writing a new one are the work of
//! the `url` crate. This module gives each of these a name in
//! specifications and holds a URL as the text the crate makes of it. What
//! the filter relies on beyond those names, that the text of a URL reads
//! back as the same URL and that a query reads back as it was written, is
//! not taken on trust: it is tested when a URL is made, and a text that
//! fails the test is no URL here.

use vstd::prelude::*;
use vstd::string::StringSliceAdditionalSpecFns;
use vstd::utf8::encode_utf8;

verus! {

/// What `url::Url::parse` makes of `input`: the serialization of the URL it
/// reads, or `None` where it reads none.
pub uninterp spec fn url_normal_form(input: Seq<char>) -> Option<Seq<char>>;

/// The names and values that `url::Url::query_pairs` reads from the query of
/// the URL with the serialization `text`, in order.
pub uninterp spec fn url_query_pairs(text: Seq<char>) -> Seq<(Seq<char>, Seq<char>)>;

/// The serialization of the URL that `text` parses to after
/// `url::Url::set_query` has replaced its query by `pairs`, written down by
/// `url::form_urlencoded::Serializer`.
pub uninterp spec fn url_with_query_pairs(
    text: Seq<char>,
    pairs: Seq<(Seq<char>, Seq<char>)>,
) -> Seq<char>;

/// The views of a list of pairs of strings.
pub open spec fn pair_views(pairs: Seq<(String, String)>) -> Seq<(Seq<char>, Seq<char>)> {
    pairs.map_values(|p: (String, String)| (p.0@, p.1@))
}

/// The query keys that are kept.
pub open spec fn is_allowed_key(key: Seq<char>) -> bool {
    ||| key == "authkey"@
    ||| key == "authkey_ver"@
    ||| key == "sign_type"@
    ||| key == "game_biz"@
    ||| key == "lang"@
}

/// A pair whose key is kept.
pub open spec fn is_allowed_pair(pair: (Seq<char>, Seq<char>)) -> bool {
    is_allowed_key(pair.0)
}

/// The pairs of `pairs` whose keys are kept, in their order.
pub open spec fn keep_allowed(pairs: Seq<(Seq<char>, Seq<char>)>) -> Seq<(Seq<char>, Seq<char>)> {
    pairs.filter(|pair: (Seq<char>, Seq<char>)| is_allowed_pair(pair))
}

/// An upper bound on the length in bytes of `pairs` written as a query:
/// three bytes for each byte of a name or value, and two for the signs
/// around them.
pub open spec fn query_cost(pairs: Seq<(Seq<char>, Seq<char>)>) -> nat
    decreases pairs.len(),
{
    if pairs.len() == 0 {
        0
    } else {
        query_cost(pairs.drop_last()) + 3 * (encode_utf8(pairs.last().0).len() + encode_utf8(
            pairs.last().1,
        ).len()) + 2
    }
}

/// The URL `text` with `pairs` as its query stays within the four
/// gigabytes that a URL can have.
pub open spec fn query_fits(text: Seq<char>, pairs: Seq<(Seq<char>, Seq<char>)>) -> bool {
    encode_utf8(text).len() + 1 + query_cost(pairs) <= u32::MAX
}

/// The text of the URL `text` after filtering: its query replaced by the
/// pairs of it whose keys are kept.
pub open spec fn filtered_text(text: Seq<char>) -> Seq<char> {
    url_with_query_pairs(text, keep_allowed(url_query_pairs(text)))
}

/// `text` is the serialization of a URL that parses to itself.
pub open spec fn is_normal(text: Seq<char>) -> bool {
    url_normal_form(text) == Some(text)
}

/// `text` is a URL that the filter can take: it parses to itself, and so
/// does the filtered URL; the query of the filtered URL reads back as the
/// kept pairs and, written once more, leaves the URL as it is; and both
/// URLs stay within the length a URL can have.
pub open spec fn is_filterable(text: Seq<char>) -> bool {
    let kept = keep_allowed(url_query_pairs(text));
    let out = url_with_query_pairs(text, kept);
    &&& is_normal(text)
    &&& query_fits(text, kept)
    &&& is_normal(out)
    &&& url_query_pairs(out) == kept
    &&& query_fits(out, kept)
    &&& url_with_query_pairs(out, kept) == out
}

/// What [`Url::parse`] makes of `input`: the serialization of the URL that
/// the `url` crate reads in it, where the filter can take that URL.
pub open spec fn parsed(input: Seq<char>) -> Option<Seq<char>> {
    match url_normal_form(input) {
        Some(text) => if is_filterable(text) {
            Some(text)
        } else {
            None
        },
        None => None,
    }
}

/// Calls `url::Url::parse` and hands out the serialization of the URL it
/// read. Trusted: that the result is a function of the input.
#[verifier::external_body]
fn parse_text(input: &str) -> (text: Option<String>)
    ensures
        match text {
            Some(t) => url_normal_form(input@) == Some(t@),
            None => url_normal_form(input@) is None,
        },
{
    ::url::Url::parse(input).ok().map(String::from)
}

/// Calls `url::Url::query_pairs` on the URL that `text` parses to. Trusted:
/// that the pairs are a function of the text.
#[verifier::external_body]
fn query_pairs_of(text: &str) -> (pairs: Vec<(String, String)>)
    requires
        url_normal_form(text@) is Some,
    ensures
        pair_views(pairs@) == url_query_pairs(text@),
{
    let url = ::url::Url::parse(text).expect("the serialization of a URL");
    url.query_pairs().into_owned().collect()
}

/// Calls `url::Url::set_query` on the URL that `text` parses to, with
/// `pairs` written by `url::form_urlencoded::Serializer`, and hands out the
/// new serialization. Trusted: that the result is a function of the
/// arguments.
#[verifier::external_body]
fn replace_query(text: &str, pairs: &Vec<(String, String)>) -> (out: String)
    requires
        is_normal(text@),
        query_fits(text@, pair_views(pairs@)),
    ensures
        out@ == url_with_query_pairs(text@, pair_views(pairs@)),
{
    let mut url = ::url::Url::parse(text).expect("the serialization of a URL");
    let query = ::url::form_urlencoded::Serializer::new(String::new()).extend_pairs(pairs).finish();
    url.set_query(Some(&query));
    url.into()
}

/// Adding a pair at the end adds it to what is kept, or leaves that as it
/// was.
pub proof fn lemma_keep_allowed_push(
    pairs: Seq<(Seq<char>, Seq<char>)>,
    pair: (Seq<char>, Seq<char>),
)
    ensures
        keep_allowed(pairs.push(pair)) == if is_allowed_key(pair.0) {
            keep_allowed(pairs).push(pair)
        } else {
            keep_allowed(pairs)
        },
{
    reveal(Seq::filter);
    assert(pairs.push(pair).drop_last() =~= pairs);
}

/// Every key that the filter lets through is one of the kept keys.
pub proof fn lemma_keep_allowed_keys(pairs: Seq<(Seq<char>, Seq<char>)>, i: int)
    requires
        0 <= i < keep_allowed(pairs).len(),
    ensures
        is_allowed_key(keep_allowed(pairs)[i].0),
{
    pairs.lemma_filter_pred(|pair: (Seq<char>, Seq<char>)| is_allowed_pair(pair), i);
}

/// Pairs whose keys are all kept pass the filter unchanged, in their order.
pub proof fn lemma_keep_allowed_identity(pairs: Seq<(Seq<char>, Seq<char>)>)
    requires
        forall|i: int| 0 <= i < pairs.len() ==> is_allowed_key(#[trigger] pairs[i].0),
    ensures
        keep_allowed(pairs) == pairs,
    decreases pairs.len(),
{
    if pairs.len() == 0 {
        reveal(Seq::filter);
    } else {
        let front = pairs.drop_last();
        assert forall|i: int| 0 <= i < front.len() implies is_allowed_key(
            #[trigger] front[i].0,
        ) by {
            assert(front[i] == pairs[i]);
        }
        lemma_keep_allowed_identity(front);
        lemma_keep_allowed_push(front, pairs.last());
        assert(front.push(pairs.last()) =~= pairs);
    }
}

/// What is kept does not depend on the other pairs: a pair whose key is not
/// kept can stand anywhere among the pairs without changing the outcome.
pub proof fn lemma_keep_allowed_ignores(
    before: Seq<(Seq<char>, Seq<char>)>,
    other: (Seq<char>, Seq<char>),
    after: Seq<(Seq<char>, Seq<char>)>,
)
    requires
        !is_allowed_key(other.0),
    ensures
        keep_allowed(before + seq![other] + after) == keep_allowed(before + after),
{
    let pred = |pair: (Seq<char>, Seq<char>)| is_allowed_pair(pair);
    Seq::filter_distributes_over_add(before + seq![other], after, pred);
    Seq::filter_distributes_over_add(before, seq![other], pred);
    Seq::filter_distributes_over_add(before, after, pred);
    lemma_keep_allowed_push(Seq::empty(), other);
    assert(Seq::<(Seq<char>, Seq<char>)>::empty().push(other) =~= seq![other]);
    assert(keep_allowed(Seq::empty()) =~= Seq::empty()) by {
        reveal(Seq::filter);
    }
    assert(keep_allowed(before) + Seq::empty() =~= keep_allowed(before));
}

/// No pair with a kept key is dropped.
pub proof fn lemma_keep_allowed_complete(pairs: Seq<(Seq<char>, Seq<char>)>, i: int)
    requires
        0 <= i < pairs.len(),
        is_allowed_key(pairs[i].0),
    ensures
        keep_allowed(pairs).contains(pairs[i]),
{
    pairs.lemma_filter_contains(|pair: (Seq<char>, Seq<char>)| is_allowed_pair(pair), i);
}

/// What is kept of pairs that follow others follows what is kept of those.
pub proof fn lemma_keep_allowed_concat(
    first: Seq<(Seq<char>, Seq<char>)>,
    second: Seq<(Seq<char>, Seq<char>)>,
)
    ensures
        keep_allowed(first + second) == keep_allowed(first) + keep_allowed(second),
{
    Seq::filter_distributes_over_add(
        first,
        second,
        |pair: (Seq<char>, Seq<char>)| is_allowed_pair(pair),
    );
}

/// Filtering what was filtered changes nothing.
pub proof fn lemma_keep_allowed_idempotent(pairs: Seq<(Seq<char>, Seq<char>)>)
    ensures
        keep_allowed(keep_allowed(pairs)) == keep_allowed(pairs),
{
    let kept = keep_allowed(pairs);
    assert forall|i: int| 0 <= i < kept.len() implies is_allowed_key(#[trigger] kept[i].0) by {
        lemma_keep_allowed_keys(pairs, i);
    }
    lemma_keep_allowed_identity(kept);
}

/// The filtered form of a URL that the filter can take is such a URL
/// again; its query reads back as the kept pairs of the source, in their
/// order; and filtering it once more gives the same text.
pub proof fn lemma_filtered_is_filterable(text: Seq<char>)
    requires
        is_filterable(text),
    ensures
        is_filterable(filtered_text(text)),
        url_query_pairs(filtered_text(text)) == keep_allowed(url_query_pairs(text)),
        filtered_text(filtered_text(text)) == filtered_text(text),
{
    lemma_keep_allowed_idempotent(url_query_pairs(text));
}

/// Whether `key` is one of the kept query keys.
pub fn allowed_key(key: &str) -> (allowed: bool)
    ensures
        allowed == is_allowed_key(key@),
{
    let key = key.to_owned();
    key == "authkey".to_owned() || key == "authkey_ver".to_owned() || key == "sign_type".to_owned()
        || key == "game_biz".to_owned() || key == "lang".to_owned()
}

/// An absolute URL, held as the text that the `url` crate writes for it.
#[derive(Debug, PartialEq, Eq)]
pub struct Url {
    text: String,
}

impl View for Url {
    type V = Seq<char>;

    /// The URL's serialization.
    closed spec fn view(&self) -> Seq<char> {
        self.text@
    }
}

impl Url {
    /// The text is a URL that the filter can take.
    #[verifier::type_invariant]
    spec fn is_sound(self) -> bool {
        is_filterable(self.text@)
    }

    /// Reads `input` as an absolute URL. `None` where the `url` crate reads
    /// none in it, and where it reads one that does not stand the test of
    /// [`is_filterable`].
    pub fn parse(input: &str) -> (url: Option<Url>)
        ensures
            match url {
                Some(u) => parsed(input@) == Some(u@) && is_filterable(u@),
                None => parsed(input@) is None,
            },
    {
        let text = match parse_text(input) {
            Some(text) => text,
            None => {
                return None;
            },
        };
        let normal = match parse_text(text.as_str()) {
            Some(again) => again == text,
            None => false,
        };
        if normal && filterable(text.as_str()) {
            Some(Url { text })
        } else {
            None
        }
    }

    /// The URL's serialization.
    pub fn as_str(&self) -> (text: &str)
        ensures
            text@ == self@,
            is_filterable(text@),
    {
        proof {
            use_type_invariant(self);
        }
        self.text.as_str()
    }

    /// The names and values of the URL's query, decoded, in order.
    pub fn query_pairs(&self) -> (pairs: Vec<(String, String)>)
        ensures
            pair_views(pairs@) == url_query_pairs(self@),
    {
        proof {
            use_type_invariant(self);
        }
        query_pairs_of(self.text.as_str())
    }
}

/// Whether two lists hold the same pairs in the same order.
fn same_pairs(first: &Vec<(String, String)>, second: &Vec<(String, String)>) -> (same: bool)
    ensures
        same == (pair_views(first@) == pair_views(second@)),
{
    if first.len() != second.len() {
        return false;
    }
    let mut i: usize = 0;
    while i < first.len()
        invariant
            i <= first.len(),
            first.len() == second.len(),
            forall|j: int| 0 <= j < i ==> pair_views(first@)[j] == pair_views(second@)[j],
        decreases first.len() - i,
    {
        if !(first[i].0 == second[i].0 && first[i].1 == second[i].1) {
            assert(pair_views(first@)[i as int] != pair_views(second@)[i as int]);
            return false;
        }
        i += 1;
    }
    assert(pair_views(first@) =~= pair_views(second@));
    true
}

/// Whether the filter can take the URL `text`: filters it, and tests what
/// came of it.
fn filterable(text: &str) -> (sound: bool)
    requires
        is_normal(text@),
    ensures
        sound == is_filterable(text@),
{
    let kept = keep_allowed_pairs(&query_pairs_of(text));
    if !fits_with(text, &kept) {
        return false;
    }
    let out = replace_query(text, &kept);
    let normal = match parse_text(out.as_str()) {
        Some(again) => again == out,
        None => false,
    };
    if !normal {
        return false;
    }
    if !same_pairs(&query_pairs_of(out.as_str()), &kept) {
        return false;
    }
    if !fits_with(out.as_str(), &kept) {
        return false;
    }
    replace_query(out.as_str(), &kept) == out
}

/// The pairs of `pairs` whose keys are kept, in their order.
pub fn keep_allowed_pairs(pairs: &Vec<(String, String)>) -> (kept: Vec<(String, String)>)
    ensures
        pair_views(kept@) == keep_allowed(pair_views(pairs@)),
{
    let mut kept: Vec<(String, String)> = Vec::new();
    let mut i: usize = 0;
    proof {
        reveal(Seq::filter);
        assert(pair_views(kept@) =~= keep_allowed(pair_views(pairs@.take(0))));
    }
    while i < pairs.len()
        invariant
            i <= pairs.len(),
            pair_views(kept@) == keep_allowed(pair_views(pairs@.take(i as int))),
        decreases pairs.len() - i,
    {
        let pair = &pairs[i];
        let ghost before = pair_views(kept@);
        let ghost seen = pair_views(pairs@.take(i as int));
        let ghost view = (pair.0@, pair.1@);
        proof {
            lemma_keep_allowed_push(seen, view);
            assert(pair_views(pairs@.take(i + 1)) =~= seen.push(view));
        }
        if allowed_key(pair.0.as_str()) {
            kept.push((pair.0.clone(), pair.1.clone()));
            assert(pair_views(kept@) =~= before.push(view));
        }
        i += 1;
    }
    proof {
        assert(pairs@.take(pairs.len() as int) =~= pairs@);
    }
    kept
}

/// The cost of some pairs is at least the cost of the first of them.
proof fn lemma_query_cost_grows(pairs: Seq<(Seq<char>, Seq<char>)>, n: int)
    requires
        0 <= n <= pairs.len(),
    ensures
        query_cost(pairs.take(n)) <= query_cost(pairs),
    decreases pairs.len(),
{
    if n == pairs.len() {
        assert(pairs.take(n) =~= pairs);
    } else {
        lemma_query_cost_grows(pairs.drop_last(), n);
        assert(pairs.drop_last().take(n) =~= pairs.take(n));
    }
}

/// Whether the URL `text` with `pairs` as its query stays within the length
/// that a URL can have.
fn fits_with(text: &str, pairs: &Vec<(String, String)>) -> (fits: bool)
    ensures
        fits == query_fits(text@, pair_views(pairs@)),
{
    let limit: u128 = 0xffff_ffff;
    let mut cost: u128 = 0;
    let mut i: usize = 0;
    while i < pairs.len()
        invariant
            i <= pairs.len(),
            limit == u32::MAX,
            cost == query_cost(pair_views(pairs@.take(i as int))),
            cost <= limit,
        decreases pairs.len() - i,
    {
        let pair = &pairs[i];
        let name: u128 = pair.0.as_str().as_bytes().len() as u128;
        let value: u128 = pair.1.as_str().as_bytes().len() as u128;
        proof {
            let next = pair_views(pairs@.take(i + 1));
            assert(next.drop_last() =~= pair_views(pairs@.take(i as int)));
            assert(next.last() == (pair.0@, pair.1@));
        }
        cost = cost + 3 * (name + value) + 2;
        i += 1;
        if cost > limit {
            proof {
                lemma_query_cost_grows(pair_views(pairs@), i as int);
                assert(pair_views(pairs@).take(i as int) =~= pair_views(pairs@.take(i as int)));
            }
            return false;
        }
    }
    proof {
        assert(pairs@.take(pairs.len() as int) =~= pairs@);
    }
    text.as_bytes().len() as u128 + 1 + cost <= limit
}

/// The URL with only the kept keys in its query, in the order in which
/// `url` has them. Filtering the outcome once more gives the outcome.
pub fn filter_url(url: Url) -> (filtered: Url)
    ensures
        filtered@ == filtered_text(url@),
        is_filterable(filtered@),
        url_query_pairs(filtered@) == keep_allowed(url_query_pairs(url@)),
        filtered_text(filtered@) == filtered@,
{
    proof {
        use_type_invariant(&url);
        lemma_filtered_is_filterable(url@);
    }
    let kept = keep_allowed_pairs(&url.query_pairs());
    Url { text: replace_query(url.text.as_str(), &kept) }
}

} // verus!
