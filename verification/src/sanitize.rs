//! Turning a display name into a path segment that file systems accept.

use crate::text::{chars_of, replace_all, string_of, strip, trim};
use crate::text::{is_space, is_stripped, leading_spaces, occurs_at, replaced, replaced_from, stripped, trailing_spaces, trimmed};
use vstd::prelude::*;

verus! {

/// The longest name, in characters, that is kept whole.
pub const MAX_NAME_CHARS: usize = 200;

/// The number of characters that are kept of a longer name, before the
/// ellipsis.
pub const KEPT_NAME_CHARS: usize = 197;

/// The text with its HTML character references expanded.
pub uninterp spec fn html_unescaped(text: Seq<char>) -> Seq<char>;

/// Expands the HTML character references in `text`.
///
/// Trusted: stands for `htmlize::unescape`. Its result is a function of the
/// text alone, named `html_unescaped`; a text without `&` comes back as it
/// is, since references are only looked for at an `&`.
#[verifier::external_body]
pub(crate) fn html_unescape(text: &str) -> (r: String)
    ensures
        r@ == html_unescaped(text@),
        !text@.contains('&') ==> r@ == text@,
{
    htmlize::unescape(text).into_owned()
}

/// The ellipsis that ends a shortened name.
pub open spec fn ellipsis() -> Seq<char> {
    seq!['.', '.', '.']
}

/// `s` if it has at most 200 characters, else its first 197 and an ellipsis.
pub open spec fn shortened(s: Seq<char>) -> Seq<char> {
    if s.len() > MAX_NAME_CHARS {
        s.take(KEPT_NAME_CHARS as int) + ellipsis()
    } else {
        s
    }
}

/// The separator that takes the place of a colon or a slash.
pub open spec fn dash() -> Seq<char> {
    seq![' ', '-', ' ']
}

/// The path segment for a name whose character references are expanded
/// already: `": "`, `" / "` and `"/"` each become `" - "`; `?`, `"` and `:`
/// go; `*` becomes `-`; white space at the ends goes; and a result of more
/// than 200 characters is cut to 197 and an ellipsis.
pub open spec fn clean(s: Seq<char>) -> Seq<char> {
    let a = replaced(s, seq![':', ' '], dash());
    let b = replaced(a, seq![' ', '/', ' '], dash());
    let c = replaced(b, seq!['/'], dash());
    let d = stripped(c);
    let e = replaced(d, seq!['*'], seq!['-']);
    shortened(trimmed(e))
}

/// The path segment for a display name.
pub open spec fn safe_name(s: Seq<char>) -> Seq<char> {
    clean(html_unescaped(s))
}

/// Cuts a name of more than 200 characters to 197 and an ellipsis.
pub fn shorten(text: Vec<char>) -> (r: Vec<char>)
    ensures
        r@ == shortened(text@),
{
    if text.len() > MAX_NAME_CHARS {
        let mut out = text;
        out.truncate(KEPT_NAME_CHARS);
        out.push('.');
        out.push('.');
        out.push('.');
        proof {
            assert(out@ =~= shortened(text@));
        }
        out
    } else {
        text
    }
}

/// The path segment for a name whose character references are expanded.
pub fn clean_name(text: &str) -> (r: String)
    ensures
        r@ == clean(text@),
{
    let dash: Vec<char> = vec![' ', '-', ' '];
    let colon_space: Vec<char> = vec![':', ' '];
    let spaced_slash: Vec<char> = vec![' ', '/', ' '];
    let slash: Vec<char> = vec!['/'];
    let star: Vec<char> = vec!['*'];
    let hyphen: Vec<char> = vec!['-'];
    proof {
        assert(dash@ =~= self::dash());
        assert(colon_space@ =~= seq![':', ' ']);
        assert(spaced_slash@ =~= seq![' ', '/', ' ']);
        assert(slash@ =~= seq!['/']);
        assert(star@ =~= seq!['*']);
        assert(hyphen@ =~= seq!['-']);
    }
    let s = chars_of(text);
    let a = replace_all(&s, &colon_space, &dash);
    let b = replace_all(&a, &spaced_slash, &dash);
    let c = replace_all(&b, &slash, &dash);
    let d = strip(&c);
    let e = replace_all(&d, &star, &hyphen);
    let f = shorten(trim(&e));
    string_of(&f)
}

/// The path segment for a display name: its HTML character references are
/// expanded, and the result is cleaned as `clean` says.
pub fn safe_path(s: &str) -> (r: String)
    ensures
        r@ == safe_name(s@),
        !s@.contains('&') ==> r@ == clean(s@),
{
    let plain = html_unescape(s);
    clean_name(plain.as_str())
}

/// The characters that no cleaned name holds.
pub open spec fn is_unsafe(c: char) -> bool {
    c == ':' || c == '/' || c == '*' || c == '?' || c == '"'
}

/// A character that two texts lack is not in the one followed by the other.
proof fn lemma_concat_lacks(a: Seq<char>, b: Seq<char>, ch: char)
    requires
        !a.contains(ch),
        !b.contains(ch),
    ensures
        !(a + b).contains(ch),
{
    if (a + b).contains(ch) {
        let i = choose|i: int| 0 <= i < (a + b).len() && (a + b)[i] == ch;
        if i < a.len() {
            assert(a[i] == ch);
        } else {
            assert(b[i - a.len()] == ch);
        }
    }
}

/// A character that the replacement lacks, and that the text lacks or that
/// is itself the whole pattern, is not in the result of replacing.
pub proof fn lemma_replaced_lacks(s: Seq<char>, pat: Seq<char>, rep: Seq<char>, i: int, ch: char)
    requires
        !rep.contains(ch),
        !s.contains(ch) || pat == seq![ch],
        0 <= i,
    ensures
        !replaced_from(s, pat, rep, i).contains(ch),
    decreases s.len() - i,
{
    if i >= s.len() || pat.len() == 0 {
    } else if occurs_at(s, i, pat) {
        lemma_replaced_lacks(s, pat, rep, i + pat.len(), ch);
        lemma_concat_lacks(rep, replaced_from(s, pat, rep, i + pat.len()), ch);
    } else {
        lemma_replaced_lacks(s, pat, rep, i + 1, ch);
        if s[i] == ch {
            if pat == seq![ch] {
                assert(occurs_at(s, i, pat));
            } else {
                assert(s.contains(ch));
            }
        }
        let one = seq![s[i]];
        if one.contains(ch) {
            let k = choose|k: int| 0 <= k < one.len() && one[k] == ch;
            assert(one[k] == s[i]);
        }
        lemma_concat_lacks(one, replaced_from(s, pat, rep, i + 1), ch);
    }
}

/// Replacing leaves a text as it is when the pattern holds a character that
/// the text lacks.
pub proof fn lemma_replaced_unchanged(
    s: Seq<char>,
    pat: Seq<char>,
    rep: Seq<char>,
    i: int,
    ch: char,
)
    requires
        pat.contains(ch),
        !s.contains(ch),
        0 <= i <= s.len(),
    ensures
        replaced_from(s, pat, rep, i) == s.skip(i),
    decreases s.len() - i,
{
    if i < s.len() {
        let j = choose|j: int| 0 <= j < pat.len() && pat[j] == ch;
        if occurs_at(s, i, pat) {
            assert(s[i + j] == pat[j]);
            assert(s.contains(ch));
        }
        lemma_replaced_unchanged(s, pat, rep, i + 1, ch);
        assert(seq![s[i]] + s.skip(i + 1) =~= s.skip(i));
    } else {
        assert(s.skip(i) =~= Seq::<char>::empty());
    }
}

/// Stripping brings in no character, and leaves none of those it takes out.
pub proof fn lemma_stripped_lacks(s: Seq<char>, ch: char)
    requires
        !s.contains(ch) || is_stripped(ch),
    ensures
        !stripped(s).contains(ch),
    decreases s.len(),
{
    if s.len() > 0 {
        let front = s.drop_last();
        if front.contains(ch) {
            let k = choose|k: int| 0 <= k < front.len() && front[k] == ch;
            assert(s[k] == ch);
        }
        lemma_stripped_lacks(front, ch);
        if !is_stripped(s.last()) {
            let out = stripped(front).push(s.last());
            if out.contains(ch) {
                let k = choose|k: int| 0 <= k < out.len() && out[k] == ch;
                if k < stripped(front).len() {
                    assert(stripped(front)[k] == ch);
                } else {
                    assert(s[s.len() - 1] == ch);
                }
            }
        }
    }
}

/// Stripping leaves a text as it is when it holds nothing to take out.
pub proof fn lemma_stripped_unchanged(s: Seq<char>)
    requires
        forall|i: int| 0 <= i < s.len() ==> !is_stripped(#[trigger] s[i]),
    ensures
        stripped(s) == s,
    decreases s.len(),
{
    if s.len() > 0 {
        let front = s.drop_last();
        assert forall|i: int| 0 <= i < front.len() implies !is_stripped(#[trigger] front[i]) by {
            assert(front[i] == s[i]);
        }
        lemma_stripped_unchanged(front);
        assert(!is_stripped(s[s.len() - 1]));
        assert(front.push(s.last()) =~= s);
    }
}

/// The white space at the start ends before the text does, at a character
/// that is no white space.
pub proof fn lemma_leading_spaces(s: Seq<char>)
    ensures
        leading_spaces(s) <= s.len(),
        leading_spaces(s) < s.len() ==> !is_space(s[leading_spaces(s) as int]),
    decreases s.len(),
{
    if s.len() > 0 && is_space(s.first()) {
        lemma_leading_spaces(s.drop_first());
        let n = leading_spaces(s.drop_first()) as int;
        if n < s.drop_first().len() {
            assert(s.drop_first()[n] == s[n + 1]);
        }
    }
}

/// The white space at the end starts behind a character that is no white
/// space, if the text holds one.
pub proof fn lemma_trailing_spaces(s: Seq<char>)
    ensures
        trailing_spaces(s) <= s.len(),
        trailing_spaces(s) < s.len() ==> !is_space(s[s.len() - 1 - trailing_spaces(s)]),
    decreases s.len(),
{
    if s.len() > 0 && is_space(s.last()) {
        lemma_trailing_spaces(s.drop_last());
        let n = trailing_spaces(s.drop_last()) as int;
        if n < s.drop_last().len() {
            assert(s.drop_last()[s.len() - 2 - n] == s[s.len() - 2 - n]);
        }
    }
}

/// Whether a text neither starts nor ends with white space.
pub open spec fn is_trim(s: Seq<char>) -> bool {
    s.len() > 0 ==> !is_space(s.first()) && !is_space(s.last())
}

/// A trimmed text is a stretch of the text, without white space at its ends.
pub proof fn lemma_trimmed(s: Seq<char>)
    ensures
        is_trim(trimmed(s)),
        forall|ch: char| !s.contains(ch) ==> !trimmed(s).contains(ch),
{
    lemma_leading_spaces(s);
    let lead = leading_spaces(s) as int;
    let front = s.skip(lead);
    lemma_trailing_spaces(front);
    let t = trimmed(s);
    if t.len() > 0 {
        assert(t.first() == s[lead]);
        assert(t.last() == front[front.len() - 1 - trailing_spaces(front)]);
    }
    assert forall|ch: char| !s.contains(ch) implies !t.contains(ch) by {
        if t.contains(ch) {
            let k = choose|k: int| 0 <= k < t.len() && t[k] == ch;
            assert(s[lead + k] == ch);
        }
    }
}

/// Cleaning leaves none of the characters `:`, `/`, `*`, `?` and `"`.
pub proof fn lemma_clean_is_safe(s: Seq<char>, ch: char)
    requires
        is_unsafe(ch),
    ensures
        !clean(s).contains(ch),
{
    let a = replaced(s, seq![':', ' '], dash());
    let b = replaced(a, seq![' ', '/', ' '], dash());
    let c = replaced(b, seq!['/'], dash());
    let d = stripped(c);
    let e = replaced(d, seq!['*'], seq!['-']);
    let t = trimmed(e);
    assert(!dash().contains(ch)) by {
        if dash().contains(ch) {
            let k = choose|k: int| 0 <= k < dash().len() && dash()[k] == ch;
        }
    }
    let hyphen = seq!['-'];
    assert(!hyphen.contains(ch)) by {
        if hyphen.contains(ch) {
            let k = choose|k: int| 0 <= k < hyphen.len() && hyphen[k] == ch;
        }
    }
    if ch == '/' {
        lemma_replaced_lacks(b, seq!['/'], dash(), 0, ch);
    }
    if ch == '/' || is_stripped(ch) {
        lemma_stripped_lacks(c, ch);
    }
    lemma_replaced_lacks(d, seq!['*'], seq!['-'], 0, ch);
    lemma_trimmed(e);
    let f = shortened(t);
    if f.contains(ch) {
        let k = choose|k: int| 0 <= k < f.len() && f[k] == ch;
        if t.len() > MAX_NAME_CHARS {
            if k < KEPT_NAME_CHARS {
                assert(t[k] == ch);
            } else {
                assert(f[k] == ellipsis()[k - KEPT_NAME_CHARS]);
            }
        }
        assert(t.contains(ch));
    }
}

/// Cleaning a cleaned name changes nothing.
pub proof fn lemma_clean_idempotent(s: Seq<char>)
    ensures
        clean(clean(s)) == clean(s),
{
    let y = clean(s);
    lemma_clean_is_safe(s, ':');
    lemma_clean_is_safe(s, '/');
    lemma_clean_is_safe(s, '*');
    lemma_clean_is_safe(s, '?');
    lemma_clean_is_safe(s, '"');
    assert(y.skip(0) =~= y);
    let colon_space = seq![':', ' '];
    assert(colon_space[0] == ':');
    lemma_replaced_unchanged(y, colon_space, dash(), 0, ':');
    let spaced_slash = seq![' ', '/', ' '];
    assert(spaced_slash[1] == '/');
    lemma_replaced_unchanged(y, spaced_slash, dash(), 0, '/');
    let slash = seq!['/'];
    assert(slash[0] == '/');
    lemma_replaced_unchanged(y, slash, dash(), 0, '/');
    assert forall|i: int| 0 <= i < y.len() implies !is_stripped(#[trigger] y[i]) by {
        assert(y.contains(y[i]));
    }
    lemma_stripped_unchanged(y);
    let star = seq!['*'];
    assert(star[0] == '*');
    lemma_replaced_unchanged(y, star, seq!['-'], 0, '*');
    let inner = trimmed(replaced(stripped(replaced(replaced(replaced(s, colon_space, dash()), spaced_slash, dash()), slash, dash())), star, seq!['-']));
    assert(y == shortened(inner));
    lemma_trimmed(replaced(stripped(replaced(replaced(replaced(s, colon_space, dash()), spaced_slash, dash()), slash, dash())), star, seq!['-']));
    assert(is_trim(y)) by {
        if inner.len() > MAX_NAME_CHARS {
            assert(y.first() == inner[0]);
            assert(y.last() == '.');
        }
    }
    assert(y.len() <= MAX_NAME_CHARS);
    assert(trimmed(y) =~= y) by {
        if y.len() > 0 {
            assert(leading_spaces(y) == 0);
            assert(y.skip(0) =~= y);
            assert(trailing_spaces(y) == 0);
        } else {
            assert(leading_spaces(y) == 0);
            assert(y.skip(0) =~= y);
            assert(trailing_spaces(y) == 0);
        }
    }
    assert(shortened(y) == y);
}

/// Sanitizing a sanitized name changes nothing, provided that expanding
/// character references leaves the sanitized name as it is.
pub proof fn lemma_safe_name_idempotent(s: Seq<char>)
    requires
        html_unescaped(safe_name(s)) == safe_name(s),
    ensures
        safe_name(safe_name(s)) == safe_name(s),
{
    lemma_clean_idempotent(html_unescaped(s));
}

} // verus!
