//! Finding the third-party video players that a lesson's text embeds.

use crate::sanitize::{html_unescape, html_unescaped};
use vstd::prelude::*;

verus! {

/// The pattern of an embedded player: an `iframe` whose `src` is a Vimeo
/// player or a YouTube embed address.
pub const EMBED_PATTERN: &'static str =
    "<iframe[^>]* src=\"(?P<embed_url>https://(?:player\\.vimeo\\.com/video/|www.youtube.com/embed/)[^\"]+)\"";

/// The capture group of `EMBED_PATTERN` that holds the player's address.
pub const EMBED_GROUP: &'static str = "embed_url";

/// What a regular expression captures in a text: nothing where the pattern
/// does not compile; else, for each of its matches, taken from the left
/// without overlap, what the named group holds in that match, if it took part.
pub uninterp spec fn captured(pattern: Seq<char>, group: Seq<char>, text: Seq<char>) -> Option<
    Seq<Option<Seq<char>>>,
>;

/// The text of a string that may be absent.
pub open spec fn opt_text(o: Option<String>) -> Option<Seq<char>> {
    match o {
        Some(s) => Some(s@),
        None => None,
    }
}

/// The texts of a sequence of strings.
pub open spec fn texts(strings: Seq<String>) -> Seq<Seq<char>> {
    strings.map_values(|s: String| s@)
}

/// The texts of a sequence of strings that may be absent.
pub open spec fn opt_texts(strings: Seq<Option<String>>) -> Seq<Option<Seq<char>>> {
    strings.map_values(|s: Option<String>| opt_text(s))
}

/// Compiles `pattern` and collects, for each of its matches in `text`, what
/// the group named `group` holds.
///
/// Trusted: stands for `regex::Regex::new`, `Regex::captures_iter`,
/// `Captures::name` and `Match::as_str`. The result is a function of the three
/// texts alone, named `captured`; it is absent exactly where `Regex::new`
/// returns an error.
#[verifier::external_body]
pub(crate) fn capture_all(pattern: &str, group: &str, text: &str) -> (r: Option<
    Vec<Option<String>>,
>)
    ensures
        match r {
            Some(v) => captured(pattern@, group@, text@) == Some(opt_texts(v@)),
            None => captured(pattern@, group@, text@) is None,
        },
{
    let re = regex::Regex::new(pattern).ok()?;
    Some(re.captures_iter(text).map(|c| c.name(group).map(|m| m.as_str().to_owned())).collect())
}

/// The entries that are present, in order.
pub open spec fn present(caps: Seq<Option<Seq<char>>>) -> Seq<Seq<char>>
    decreases caps.len(),
{
    if caps.len() == 0 {
        Seq::empty()
    } else {
        match caps.last() {
            Some(c) => present(caps.drop_last()).push(c),
            None => present(caps.drop_last()),
        }
    }
}

/// The embedded addresses for what the pattern captured: each capture that is
/// present, with its HTML character references expanded.
pub open spec fn embeds_of(caps: Option<Seq<Option<Seq<char>>>>) -> Seq<Seq<char>> {
    match caps {
        Some(c) => present(c).map_values(|u: Seq<char>| html_unescaped(u)),
        None => Seq::empty(),
    }
}

/// The addresses of the players that `text` embeds.
pub open spec fn embed_urls(text: Seq<char>) -> Seq<Seq<char>> {
    embeds_of(captured(EMBED_PATTERN@, EMBED_GROUP@, text))
}

/// Keeps the captures that are present, in order.
pub fn present_captures(caps: &Vec<Option<String>>) -> (r: Vec<String>)
    ensures
        texts(r@) == present(opt_texts(caps@)),
{
    let mut out: Vec<String> = Vec::new();
    let mut i: usize = 0;
    proof {
        assert(opt_texts(caps@).take(0) =~= Seq::<Option<Seq<char>>>::empty());
        assert(texts(out@) =~= Seq::<Seq<char>>::empty());
    }
    while i < caps.len()
        invariant
            i <= caps@.len(),
            texts(out@) == present(opt_texts(caps@).take(i as int)),
        decreases caps@.len() - i,
    {
        let ghost before = out@;
        proof {
            assert(opt_texts(caps@).take(i + 1).drop_last() =~= opt_texts(caps@).take(i as int));
            assert(opt_texts(caps@).take(i + 1).last() == opt_text(caps@[i as int]));
        }
        match &caps[i] {
            Some(c) => {
                out.push(c.clone());
                proof {
                    assert(texts(out@) =~= texts(before).push(c@));
                }
            },
            None => {},
        }
        i += 1;
    }
    proof {
        assert(opt_texts(caps@).take(caps@.len() as int) =~= opt_texts(caps@));
    }
    out
}

/// Expands the HTML character references in each address.
pub fn unescape_each(urls: &Vec<String>) -> (r: Vec<String>)
    ensures
        texts(r@) == texts(urls@).map_values(|u: Seq<char>| html_unescaped(u)),
{
    let mut out: Vec<String> = Vec::new();
    let mut i: usize = 0;
    while i < urls.len()
        invariant
            i <= urls@.len(),
            out@.len() == i,
            forall|k: int| 0 <= k < i ==> (#[trigger] out@[k])@ == html_unescaped(urls@[k]@),
        decreases urls@.len() - i,
    {
        out.push(html_unescape(urls[i].as_str()));
        i += 1;
    }
    proof {
        assert(texts(out@) =~= texts(urls@).map_values(|u: Seq<char>| html_unescaped(u)));
    }
    out
}

/// The addresses of the video players that `text` embeds, in the order in
/// which they stand, each with its HTML character references expanded.
pub fn embeds_in(text: &str) -> (r: Vec<String>)
    ensures
        texts(r@) == embed_urls(text@),
{
    match capture_all(EMBED_PATTERN, EMBED_GROUP, text) {
        Some(caps) => {
            let found = present_captures(&caps);
            unescape_each(&found)
        },
        None => {
            let none: Vec<String> = Vec::new();
            proof {
                assert(texts(none@) =~= Seq::<Seq<char>>::empty());
            }
            none
        },
    }
}

} // verus!
