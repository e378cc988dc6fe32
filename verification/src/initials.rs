//! What an ability icon shows: the icon, the initials of the ability name
//! when the icon is missing, or a placeholder while it loads.

use vstd::prelude::*;
use crate::text::{chars_of, string_from_chars, is_white_space, white_space, is_ascii_text, ascii_upper_text};

verus! {

/// The first character of each white-space-separated word of `s`.
pub open spec fn word_initials(s: Seq<char>) -> Seq<char>
    decreases s.len(),
{
    if s.len() == 0 {
        seq![]
    } else {
        let c = s.last();
        if !is_white_space(c) && (s.len() == 1 || is_white_space(s[s.len() - 2])) {
            word_initials(s.drop_last()).push(c)
        } else {
            word_initials(s.drop_last())
        }
    }
}

/// At most the first two characters of `s`.
pub open spec fn first_two(s: Seq<char>) -> Seq<char> {
    if s.len() <= 2 {
        s
    } else {
        s.take(2)
    }
}

/// The first characters of the first two words of `name`.
pub fn initial_letters(name: &str) -> (res: String)
    ensures
        res@ == first_two(word_initials(name@)),
{
    let chars = chars_of(name);
    let n = chars.len();
    let mut out: Vec<char> = Vec::new();
    let mut after_space = true;
    for i in 0..n
        invariant
            n == chars.len(),
            chars@ == name@,
            out@ == first_two(word_initials(chars@.take(i as int))),
            after_space == (i == 0 || is_white_space(chars@[i - 1])),
    {
        let c = chars[i];
        let ws = white_space(c);
        proof {
            let s = chars@.take(i + 1);
            assert(s.drop_last() =~= chars@.take(i as int));
            assert(s.last() == c);
            if i > 0 {
                assert(s[s.len() - 2] == chars@[i - 1]);
            }
            let w = word_initials(chars@.take(i as int));
            if w.len() >= 2 {
                assert(first_two(w.push(c)) =~= first_two(w));
            }
        }
        if !ws && after_space && out.len() < 2 {
            out.push(c);
        }
        after_space = ws;
    }
    proof {
        assert(chars@.take(n as int) =~= chars@);
    }
    string_from_chars(&out)
}

/// What `str::to_uppercase` gives for `s`: the upper-case mapping of the
/// Unicode character database, in which one character may become several.
pub uninterp spec fn upper_case_of(s: Seq<char>) -> Seq<char>;

/// Trusted: `str::to_uppercase` returns a string that depends on the
/// characters of `s` alone; this names it `upper_case_of(s@)`. Of the
/// result it states only the Unicode mapping of ASCII text: each lower-case
/// ASCII letter becomes its upper-case letter and every other ASCII
/// character stays as it is.
#[verifier::external_body]
fn to_upper_case(s: &str) -> (res: String)
    ensures
        res@ == upper_case_of(s@),
        is_ascii_text(s@) ==> res@ == ascii_upper_text(s@),
{
    s.to_uppercase()
}

proof fn lemma_word_initials_ascii(s: Seq<char>)
    requires
        is_ascii_text(s),
    ensures
        is_ascii_text(word_initials(s)),
    decreases s.len(),
{
    if s.len() > 0 {
        let p = s.drop_last();
        assert forall|i: int| 0 <= i < p.len() implies (#[trigger] p[i] as u32) < 128 by {
            assert(p[i] == s[i]);
        }
        lemma_word_initials_ascii(p);
        let w = word_initials(p);
        assert((s.last() as u32) < 128) by {
            assert(s.last() == s[s.len() - 1]);
        }
        let wp = w.push(s.last());
        assert forall|i: int| 0 <= i < wp.len() implies (#[trigger] wp[i] as u32) < 128 by {
            if i < w.len() {
                assert(wp[i] == w[i]);
            }
        }
    }
}

/// Up to two upper-case initials of an ability name, for display when its
/// icon is missing.
pub fn fallback_initials(name: &str) -> (res: String)
    ensures
        res@ == upper_case_of(first_two(word_initials(name@))),
        is_ascii_text(name@) ==> res@ == ascii_upper_text(first_two(word_initials(name@))),
{
    proof {
        if is_ascii_text(name@) {
            lemma_word_initials_ascii(name@);
            let w = word_initials(name@);
            let f = first_two(w);
            assert forall|i: int| 0 <= i < f.len() implies (#[trigger] f[i] as u32) < 128 by {
                assert(f[i] == w[i]);
            }
        }
    }
    let letters = initial_letters(name);
    to_upper_case(letters.as_str())
}

/// What the icon of an ability shows.
pub enum IconShown {
    /// The icon image at this URL.
    Image(String),
    /// These initials, in place of a missing icon.
    Initials(String),
    /// An empty box of the icon's size, while the icon loads.
    Placeholder,
    /// Nothing: the icon is missing and there is no fallback text.
    Nothing,
}

/// What the icon shows, given the icon URL found so far, whether loading
/// has finished, and the fallback text.
pub fn icon_shown(icon_url: Option<String>, loaded: bool, fallback: &str) -> (res: IconShown)
    ensures
        match icon_url {
            Some(u) => res matches IconShown::Image(v) && v@ == u@,
            None => if loaded && fallback@.len() > 0 {
                res matches IconShown::Initials(s) && s@ == upper_case_of(first_two(word_initials(fallback@)))
                    && (is_ascii_text(fallback@) ==> s@ == ascii_upper_text(first_two(word_initials(fallback@))))
            } else if !loaded {
                res is Placeholder
            } else {
                res is Nothing
            },
        },
{
    match icon_url {
        Some(u) => IconShown::Image(u),
        None => {
            if loaded && !fallback.is_empty() {
                IconShown::Initials(fallback_initials(fallback))
            } else if !loaded {
                IconShown::Placeholder
            } else {
                IconShown::Nothing
            }
        },
    }
}

/// What to do when an icon is asked for.
pub enum IconStep {
    /// Show this cached answer (a URL, or none for a known missing icon) at
    /// once, as loaded.
    Show(Option<String>),
    /// Clear the icon, mark it as loading, and fetch it.
    Fetch,
}

/// The step for an icon request, given what the cache holds for the
/// ability: a cached answer is used, else the icon is fetched.
pub fn on_icon_request(cached: Option<Option<String>>) -> (res: IconStep)
    ensures
        match cached {
            Some(c) => res matches IconStep::Show(v) && v == c,
            None => res is Fetch,
        },
{
    match cached {
        Some(c) => IconStep::Show(c),
        None => IconStep::Fetch,
    }
}

} // verus!
