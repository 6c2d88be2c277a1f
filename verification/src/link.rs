//! URLs, read and rewritten by the `url` crate.
//!
//! A URL travels through the library as its text. The spec functions of this
//! module name what the `url` crate returns for a given text; the executable
//! functions make the calls.

use crate::text::same_text;
use url::Url;
use vstd::prelude::*;

verus! {

/// The serialization of the URL that `url::Url::parse` reads from `text`;
/// `None` where it reads none.
pub uninterp spec fn url_parsed(text: Seq<char>) -> Option<Seq<char>>;

/// The serialization of the URL that `url::Url::join` resolves `href` to
/// against the URL read from `base`; `None` where `base` is no URL or the
/// reference cannot be resolved.
pub uninterp spec fn url_joined(base: Seq<char>, href: Seq<char>) -> Option<Seq<char>>;

/// The serialization of the URL read from `url` after one call of
/// `url::PathSegmentsMut::pop_if_empty`; `None` where `url` is no URL or
/// `url::Url::path_segments_mut` refuses it.
pub uninterp spec fn url_popped_if_empty(url: Seq<char>) -> Option<Seq<char>>;

/// The path segments of the URL read from `url`, as
/// `url::Url::path_segments` yields them; `None` where `url` is no URL or
/// has no segments to yield.
pub uninterp spec fn url_path_segments(url: Seq<char>) -> Option<Seq<Seq<char>>>;

/// Reads `text` with `url::Url::parse` and returns the URL's serialization.
///
/// Not proved: that the result is what `Url::parse` reads.
#[verifier::external_body]
pub(crate) fn parse_url(text: &str) -> (parsed: Option<String>)
    ensures
        parsed.deep_view() == url_parsed(text@),
{
    match Url::parse(text) {
        Ok(url) => Some(String::from(url)),
        Err(_) => None,
    }
}

/// Reads `base` with `url::Url::parse`, resolves `href` against it with
/// `url::Url::join` and returns the serialization of the result.
///
/// Not proved: that the result is what `Url::join` resolves to.
#[verifier::external_body]
pub(crate) fn join_url(base: &str, href: &str) -> (joined: Option<String>)
    ensures
        joined.deep_view() == url_joined(base@, href@),
{
    match Url::parse(base).ok()?.join(href) {
        Ok(url) => Some(String::from(url)),
        Err(_) => None,
    }
}

/// Reads `url` with `url::Url::parse`, calls
/// `url::PathSegmentsMut::pop_if_empty` on it once and returns the
/// serialization of the result.
///
/// Not proved: that the result is the URL after `pop_if_empty`.
#[verifier::external_body]
pub(crate) fn pop_if_empty(url: &str) -> (popped: Option<String>)
    ensures
        popped.deep_view() == url_popped_if_empty(url@),
{
    let mut parsed = Url::parse(url).ok()?;
    parsed.path_segments_mut().ok()?.pop_if_empty();
    Some(String::from(parsed))
}

/// Reads `url` with `url::Url::parse` and returns the segments that
/// `url::Url::path_segments` yields, each as an owned string.
///
/// Not proved: that the segments are those of `Url::path_segments`.
#[verifier::external_body]
pub(crate) fn path_segments(url: &str) -> (segments: Option<Vec<String>>)
    ensures
        segments.deep_view() == url_path_segments(url@),
{
    let parsed = Url::parse(url).ok()?;
    let segments = parsed.path_segments()?;
    Some(segments.map(|segment| segment.to_owned()).collect())
}

/// `url` after `times` passes of `pop_if_empty`, each on the result of the
/// one before: the URL without up to `times` empty segments at the end of
/// its path. `None` where `times` is not zero and `url` is no URL or has no
/// path of segments.
pub open spec fn popped_times(url: Seq<char>, times: nat) -> Option<Seq<char>>
    decreases times,
{
    if times == 0 {
        Some(url)
    } else {
        match url_popped_if_empty(url) {
            Some(next) => popped_times(next, (times - 1) as nat),
            None => None,
        }
    }
}

/// Whether `settled` is what some number of passes makes of `url`.
pub open spec fn reached(url: Seq<char>, settled: Seq<char>) -> bool {
    exists|times: nat| popped_times(url, times) == Some(settled)
}

/// What passes of `pop_if_empty` make of `url`, a text that a pass has
/// written, once a pass changes nothing any more. Each pass that changes
/// the text has to shorten it; the result is `None` where one does not, or
/// where a pass refuses the text.
pub open spec fn settled(url: Seq<char>) -> Option<Seq<char>>
    decreases url.len(),
{
    match url_popped_if_empty(url) {
        Some(next) => if next == url {
            Some(url)
        } else if next.len() < url.len() {
            settled(next)
        } else {
            None
        },
        None => None,
    }
}

/// `url` without the empty segments at the end of its path: what passes of
/// `pop_if_empty` make of it, each on the result of the one before, once a
/// pass changes nothing any more. `None` where `url` is no URL or has no
/// path of segments.
pub open spec fn popped_all(url: Seq<char>) -> Option<Seq<char>> {
    match url_popped_if_empty(url) {
        Some(first) => settled(first),
        None => None,
    }
}

/// What settles is reached by passes, and a further pass leaves it as it
/// is.
pub proof fn lemma_settled(url: Seq<char>)
    ensures
        settled(url) matches Some(end) ==> reached(url, end) && url_popped_if_empty(end)
            == Some(end),
    decreases url.len(),
{
    if let Some(end) = settled(url) {
        let next = url_popped_if_empty(url)->0;
        if next == url {
            assert(popped_times(url, 0) == Some(end));
        } else {
            lemma_settled(next);
            let times = choose|times: nat| popped_times(next, times) == Some(end);
            assert(popped_times(url, times + 1) == Some(end));
        }
    }
}

/// A URL without the empty segments at the end of its path is reached by
/// passes, a further pass leaves it as it is, and so does taking the empty
/// segments off once more.
pub proof fn law_popped_all_settles(url: Seq<char>)
    ensures
        popped_all(url) matches Some(end) ==> {
            &&& reached(url, end)
            &&& url_popped_if_empty(end) == Some(end)
            &&& popped_all(end) == Some(end)
        },
{
    if let Some(end) = popped_all(url) {
        let first = url_popped_if_empty(url)->0;
        lemma_settled(first);
        let times = choose|times: nat| popped_times(first, times) == Some(end);
        assert(popped_times(url, times + 1) == Some(end));
    }
}

/// Takes the empty segments off the end of the path of `url`: all of them,
/// however many there are. The result is `None` where `url` is no URL or
/// has no path of segments.
pub fn pop_all(url: &str) -> (popped: Option<String>)
    ensures
        popped.deep_view() == popped_all(url@),
        popped matches Some(end) ==> reached(url@, end@) && url_popped_if_empty(end@) == Some(
            end@,
        ),
{
    let mut current = pop_if_empty(url)?;
    loop
        invariant
            popped_all(url@) == settled(current@),
        decreases current@.len(),
    {
        let next = pop_if_empty(current.as_str())?;
        if same_text(next.as_str(), current.as_str()) {
            proof {
                law_popped_all_settles(url@);
            }
            return Some(current);
        }
        if next.as_str().unicode_len() < current.as_str().unicode_len() {
            current = next;
        } else {
            return None;
        }
    }
}

} // verus!
