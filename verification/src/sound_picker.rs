//! Choosing a sound file by category in the sound picker.
//!
//! A picked value is kept as `"folder/filename.mp3"`; a bare file name still
//! belongs to the General `sounds` folder.

use vstd::prelude::*;
use crate::sql::{lower_case_of, to_lower_case};
use crate::text::{is_ascii_text, ascii_lower_text, chars_of, contains_chars, contains_seq, ends_with_chars, find_char, same_chars,
    slice_to_string, first_index_of,
    spec_split_once, lemma_first_index_of};

verus! {

/// A folder of sound files.
#[derive(Debug, Clone, PartialEq)]
pub struct SoundCategory {
    /// Display name.
    pub name: String,
    /// Folder name under the bundled definitions.
    pub folder: String,
    /// File names in the folder.
    pub files: Vec<String>,
}

/// The file names of a category.
pub open spec fn file_names(c: SoundCategory) -> Seq<Seq<char>> {
    c.files@.map_values(|f: String| f@)
}

/// Whether `current` selects the option `opt_value` for the file `name`; a
/// bare name selects the option in the `sounds` folder.
pub fn matches_selected(current: &str, opt_value: &str, name: &str, is_sounds_folder: bool) -> (res: bool)
    ensures
        res == (current@ == opt_value@ || (is_sounds_folder && current@ == name@)),
{
    let cur = chars_of(current);
    same_chars(&cur, opt_value) || (is_sounds_folder && same_chars(&cur, name))
}

/// Whether the file list of `cat` holds `name`.
pub fn has_file(cat: &SoundCategory, name: &str) -> (res: bool)
    ensures
        res == file_names(*cat).contains(name@),
{
    let target = chars_of(name);
    let n = cat.files.len();
    for i in 0..n
        invariant
            n == cat.files.len(),
            target@ == name@,
            forall|j: int| 0 <= j < i ==> cat.files@[j]@ != name@,
    {
        if same_chars(&target, cat.files[i].as_str()) {
            assert(file_names(*cat)[i as int] == name@);
            return true;
        }
    }
    proof {
        if file_names(*cat).contains(name@) {
            let j = choose|j: int| 0 <= j < file_names(*cat).len() && file_names(*cat)[j] == name@;
            assert(cat.files@[j]@ == name@);
        }
    }
    false
}

/// Whether `value` names a file listed in the category on show.
pub open spec fn spec_value_in_view(value: Seq<char>, cat: Option<SoundCategory>) -> bool {
    match cat {
        None => false,
        Some(c) => {
            let prefix = c.folder@.push('/');
            if prefix.is_prefix_of(value) {
                file_names(c).contains(value.skip(prefix.len() as int))
            } else {
                c.folder@ == "sounds"@ && file_names(c).contains(value)
            }
        },
    }
}

/// Whether `value` names a file listed in the category `cat` on show.
pub fn value_in_current_view(value: &str, cat: Option<&SoundCategory>) -> (res: bool)
    ensures
        res == spec_value_in_view(value@, match cat {
            Some(c) => Some(*c),
            None => None,
        }),
{
    let cat = match cat {
        Some(c) => c,
        None => return false,
    };
    let folder = chars_of(cat.folder.as_str());
    let v = chars_of(value);
    let fl = folder.len();
    let ghost prefix = cat.folder@.push('/');
    let mut is_prefix = fl < v.len() && v[fl] == '/';
    proof {
        if prefix.is_prefix_of(value@) {
            assert(value@.subrange(0, prefix.len() as int)[fl as int] == prefix[fl as int]);
        }
    }
    let mut i: usize = 0;
    while i < fl && is_prefix
        invariant
            fl == folder.len(),
            folder@ == cat.folder@,
            v@ == value@,
            i <= fl,
            prefix == cat.folder@.push('/'),
            is_prefix ==> fl < v.len() && v@[fl as int] == '/',
            is_prefix ==> forall|j: int| 0 <= j < i ==> folder@[j] == v@[j],
            !is_prefix ==> !prefix.is_prefix_of(value@),
        decreases fl - i,
    {
        if folder[i] != v[i] {
            proof {
                assert(prefix[i as int] == folder@[i as int]);
                if prefix.is_prefix_of(value@) {
                    assert(value@.subrange(0, prefix.len() as int)[i as int] == prefix[i as int]);
                }
            }
            is_prefix = false;
        }
        i += 1;
    }
    proof {
        if is_prefix {
            assert(prefix.is_prefix_of(value@)) by {
                assert forall|j: int| 0 <= j < prefix.len() implies prefix[j] == value@[j] by {
                    if j < fl {
                        assert(prefix[j] == folder@[j]);
                    }
                }
            }
        } else if fl >= v.len() || v@[fl as int] != '/' {
            if prefix.is_prefix_of(value@) {
                assert(prefix[fl as int] == '/');
            }
        }
    }
    if is_prefix {
        let rest = slice_to_string(&v, fl + 1, v.len());
        proof {
            assert(value@.skip(prefix.len() as int) =~= v@.subrange(fl + 1, v@.len() as int));
        }
        return has_file(cat, rest.as_str());
    }
    same_chars(&folder, "sounds") && has_file(cat, value)
}

/// `value` holds `:\` at position `i`.
pub open spec fn drive_separator_at(value: Seq<char>, i: int) -> bool {
    0 <= i < value.len() - 1 && value[i] == ':' && value[i + 1] == '\\'
}

/// `value` is an absolute path: it starts with `/` or holds `:\`.
pub open spec fn looks_absolute(value: Seq<char>) -> bool {
    ||| (value.len() > 0 && value[0] == '/')
    ||| exists|i: int| #[trigger] drive_separator_at(value, i)
}

/// The category that `value` belongs to: `None` for an absolute path; the
/// first category of the folder before the first `/`; for a bare file name,
/// the first category that lists it.
pub fn find_category_for_value(cats: &[SoundCategory], value: &str) -> (res: Option<usize>)
    ensures
        looks_absolute(value@) ==> res is None,
        !looks_absolute(value@) ==> match spec_split_once(value@, '/') {
            Some((folder, _)) => match res {
                Some(i) => i < cats@.len() && cats@[i as int].folder@ == folder
                    && forall|j: int| 0 <= j < i ==> cats@[j].folder@ != folder,
                None => forall|j: int| 0 <= j < cats@.len() ==> cats@[j].folder@ != folder,
            },
            None => match res {
                Some(i) => i < cats@.len() && file_names(cats@[i as int]).contains(value@)
                    && forall|j: int| 0 <= j < i ==> !file_names(cats@[j]).contains(value@),
                None => forall|j: int| 0 <= j < cats@.len() ==> !file_names(cats@[j]).contains(value@),
            },
        },
{
    let v = chars_of(value);
    let n = v.len();
    if n > 0 && v[0] == '/' {
        assert(looks_absolute(value@));
        return None;
    }
    let mut k: usize = 0;
    while k + 1 < n
        invariant
            n == v.len(),
            k < n || k == 0,
            v@ == value@,
            !(n > 0 && v@[0] == '/'),
            forall|i: int| 0 <= i < k ==> !#[trigger] drive_separator_at(v@, i),
        decreases n - k,
    {
        if v[k] == ':' && v[k + 1] == '\\' {
            assert(drive_separator_at(value@, k as int));
            return None;
        }
        k += 1;
    }
    assert(!looks_absolute(value@));
    let m = cats.len();
    match find_char(&v, '/') {
        Some(slash) => {
            let folder = slice_to_string(&v, 0, slash);
            proof {
                assert(v@.take(slash as int) =~= v@.subrange(0, slash as int));
            }
            let fc = chars_of(folder.as_str());
            for i in 0..m
                invariant
                    m == cats@.len(),
                    !looks_absolute(value@),
                    first_index_of(value@, '/') == Some(slash as int),
                    fc@ == value@.take(slash as int),
                    forall|j: int| 0 <= j < i ==> cats@[j].folder@ != fc@,
            {
                if same_chars(&fc, cats[i].folder.as_str()) {
                    return Some(i);
                }
            }
            None
        },
        None => {
            for i in 0..m
                invariant
                    m == cats@.len(),
                    !looks_absolute(value@),
                    first_index_of(value@, '/') is None,
                    forall|j: int| 0 <= j < i ==> !file_names(cats@[j]).contains(value@),
            {
                if has_file(&cats[i], value) {
                    return Some(i);
                }
            }
            None
        },
    }
}

/// An entry of the sound list: the value kept when it is picked, the file
/// name shown, and whether it is the current selection.
pub struct SoundOption {
    pub value: String,
    pub name: String,
    pub selected: bool,
}

pub struct SoundOptionView {
    pub value: Seq<char>,
    pub name: Seq<char>,
    pub selected: bool,
}

impl View for SoundOption {
    type V = SoundOptionView;

    open spec fn view(&self) -> SoundOptionView {
        SoundOptionView { value: self.value@, name: self.name@, selected: self.selected }
    }
}

/// The value kept for the file `name` of the folder `folder`.
pub open spec fn option_value(folder: Seq<char>, name: Seq<char>) -> Seq<char> {
    folder.push('/') + name
}

/// The entry of the sound list for the file `name` of `folder`.
pub open spec fn option_of(folder: Seq<char>, name: Seq<char>, current: Seq<char>) -> SoundOptionView {
    let value = option_value(folder, name);
    SoundOptionView {
        value,
        name,
        selected: current == value || (folder == "sounds"@ && current == name),
    }
}

/// The file `name` passes the search filter: the filter is empty, or the
/// lower-cased name holds the lower-cased filter.
pub open spec fn passes_filter(name: Seq<char>, search: Seq<char>) -> bool {
    lower_case_of(search).len() == 0 || contains_seq(lower_case_of(name), lower_case_of(search))
}

/// The entries listed for the files `names` of `folder`: those that pass the
/// filter, and the selected one, in order.
pub open spec fn listed_options(folder: Seq<char>, names: Seq<Seq<char>>, search: Seq<char>, current: Seq<char>) -> Seq<SoundOptionView>
    decreases names.len(),
{
    if names.len() == 0 {
        seq![]
    } else {
        let rest = listed_options(folder, names.drop_last(), search, current);
        let o = option_of(folder, names.last(), current);
        if passes_filter(names.last(), search) || o.selected {
            rest.push(o)
        } else {
            rest
        }
    }
}

/// A file passes the filter when the lower-cased filter occurs anywhere in
/// its lower-cased name, at any position `i`, not only at the start.
pub proof fn lemma_filter_matches_anywhere(name: Seq<char>, search: Seq<char>, i: int)
    requires
        0 <= i,
        i + lower_case_of(search).len() <= lower_case_of(name).len(),
        lower_case_of(name).subrange(i, i + lower_case_of(search).len()) == lower_case_of(search),
    ensures
        passes_filter(name, search),
{
    let n = lower_case_of(name);
    let f = lower_case_of(search);
    assert(n.subrange(i, i + f.len()) == f);
}

/// A file passes an empty filter, and no file passes a filter that occurs
/// nowhere in its lower-cased name.
pub proof fn lemma_filter_needs_occurrence(name: Seq<char>, search: Seq<char>)
    ensures
        lower_case_of(search).len() == 0 ==> passes_filter(name, search),
        lower_case_of(search).len() > 0 && (forall|i: int|
            0 <= i && i + lower_case_of(search).len() <= lower_case_of(name).len()
                ==> #[trigger] lower_case_of(name).subrange(i, i + lower_case_of(search).len()) != lower_case_of(search))
            ==> !passes_filter(name, search),
{
}

/// Every file of the category that passes the filter, or is the current
/// selection, is listed; a file that does neither is not.
pub proof fn lemma_listed_iff_shown(folder: Seq<char>, names: Seq<Seq<char>>, search: Seq<char>, current: Seq<char>, k: int)
    requires
        0 <= k < names.len(),
    ensures
        (passes_filter(names[k], search) || option_of(folder, names[k], current).selected)
            ==> listed_options(folder, names, search, current).contains(option_of(folder, names[k], current)),
        (forall|j: int| 0 <= j < names.len() ==> #[trigger] names[j] != names[k] || j == k)
            && !passes_filter(names[k], search) && !option_of(folder, names[k], current).selected
            ==> !listed_options(folder, names, search, current).contains(option_of(folder, names[k], current)),
    decreases names.len(),
{
    let rest = names.drop_last();
    let l = listed_options(folder, names, search, current);
    let lr = listed_options(folder, rest, search, current);
    let o = option_of(folder, names[k], current);
    if k < names.len() - 1 {
        assert(rest[k] == names[k]);
        lemma_listed_iff_shown(folder, rest, search, current, k);
        if passes_filter(names[k], search) || o.selected {
            let w = choose|w: int| 0 <= w < lr.len() && lr[w] == o;
            assert(l[w] == o);
        }
        if (forall|j: int| 0 <= j < names.len() ==> #[trigger] names[j] != names[k] || j == k)
            && !passes_filter(names[k], search) && !o.selected {
            assert forall|j: int| 0 <= j < rest.len() implies #[trigger] rest[j] != rest[k] || j == k by {
                assert(rest[j] == names[j]);
            }
            assert(names.last() != names[k]) by {
                assert(names[names.len() - 1] != names[k]);
            }
            lemma_option_of_names(folder, names.last(), names[k], current);
            if l.contains(o) {
                let w = choose|w: int| 0 <= w < l.len() && l[w] == o;
                if w < lr.len() {
                    assert(l[w] == lr[w]);
                }
            }
        }
    } else {
        assert(names.last() == names[k]);
        if passes_filter(names[k], search) || o.selected {
            assert(l[l.len() - 1] == o);
        }
        if !passes_filter(names[k], search) && !o.selected {
            assert(l == lr);
            if lr.contains(o) {
                let w = choose|w: int| 0 <= w < lr.len() && lr[w] == o;
                lemma_listed_names(folder, rest, search, current, w);
                let j = choose|j: int| 0 <= j < rest.len() && lr[w] == option_of(folder, rest[j], current);
                lemma_option_of_names(folder, rest[j], names[k], current);
                assert(rest[j] == names[j]);
            }
        }
    }
}

proof fn lemma_option_of_names(folder: Seq<char>, a: Seq<char>, b: Seq<char>, current: Seq<char>)
    ensures
        option_of(folder, a, current) == option_of(folder, b, current) ==> a == b,
{
}

proof fn lemma_listed_names(folder: Seq<char>, names: Seq<Seq<char>>, search: Seq<char>, current: Seq<char>, w: int)
    requires
        0 <= w < listed_options(folder, names, search, current).len(),
    ensures
        exists|j: int| 0 <= j < names.len() && listed_options(folder, names, search, current)[w] == option_of(folder, names[j], current),
    decreases names.len(),
{
    let rest = names.drop_last();
    let lr = listed_options(folder, rest, search, current);
    if w < lr.len() {
        lemma_listed_names(folder, rest, search, current, w);
        let j = choose|j: int| 0 <= j < rest.len() && lr[w] == option_of(folder, rest[j], current);
        assert(rest[j] == names[j]);
    } else {
        assert(listed_options(folder, names, search, current)[w] == option_of(folder, names[names.len() - 1], current));
    }
}

/// The entries of the sound list for the category `cat`, the filter text
/// `search` and the current value `current`.
pub fn sound_options(cat: &SoundCategory, search: &str, current: &str) -> (res: Vec<SoundOption>)
    ensures
        res@.map_values(|o: SoundOption| o@) == listed_options(cat.folder@, file_names(*cat), search@, current@),
{
    let search_lc = to_lower_case(search);
    let search_chars = chars_of(search_lc.as_str());
    let filter_empty = search_chars.len() == 0;
    let in_sounds = same_chars(&chars_of(cat.folder.as_str()), "sounds");
    let ghost names = file_names(*cat);
    let n = cat.files.len();
    let mut res: Vec<SoundOption> = Vec::new();
    for i in 0..n
        invariant
            n == cat.files.len(),
            names == file_names(*cat),
            search_chars@ == lower_case_of(search@),
            filter_empty == (lower_case_of(search@).len() == 0),
            in_sounds == (cat.folder@ == "sounds"@),
            res@.map_values(|o: SoundOption| o@) == listed_options(cat.folder@, names.take(i as int), search@, current@),
    {
        let name = &cat.files[i];
        proof {
            assert(names.take(i + 1).drop_last() =~= names.take(i as int));
            assert(names.take(i + 1).last() == name@);
        }
        let mut value = cat.folder.clone();
        value.append("/");
        value.append(name.as_str());
        proof {
            reveal_strlit("/");
            assert(value@ =~= option_value(cat.folder@, name@));
        }
        let selected = matches_selected(current, value.as_str(), name.as_str(), in_sounds);
        let name_lc = to_lower_case(name.as_str());
        let shown = filter_empty || contains_chars(&chars_of(name_lc.as_str()), &search_chars);
        let ghost before = res@;
        if shown || selected {
            let o = SoundOption { value, name: name.clone(), selected };
            res.push(o);
            proof {
                assert(res@.map_values(|o: SoundOption| o@) =~= before.map_values(|o: SoundOption| o@).push(o@));
            }
        }
    }
    proof {
        assert(names.take(n as int) =~= names);
    }
    res
}

/// Whether the current value needs an entry of its own, marked custom:
/// it is set, and not a file of the category on show.
pub fn custom_option(current: &str, active: Option<&SoundCategory>) -> (res: bool)
    ensures
        res == (current@.len() > 0 && !spec_value_in_view(current@, match active {
            Some(c) => Some(*c),
            None => None,
        })),
{
    !current.is_empty() && !value_in_current_view(current, active)
}

/// The selection that a pick of the list entry with value `v` makes: none
/// for the empty entry, else `v`.
pub fn selection_event(v: &str) -> (res: Option<String>)
    ensures
        match res {
            None => v@.len() == 0,
            Some(s) => v@.len() > 0 && s@ == v@,
        },
{
    if v.is_empty() {
        None
    } else {
        Some(v.to_owned())
    }
}

/// Whether a file picked with Browse is taken: its lower-cased path ends
/// with `.mp3` or `.wav`.
pub fn accepts_picked_file(path: &str) -> (res: bool)
    ensures
        res == ({
            let l = lower_case_of(path@);
            ||| (4 <= l.len() && l.subrange(l.len() - 4, l.len() as int) == ".mp3"@)
            ||| (4 <= l.len() && l.subrange(l.len() - 4, l.len() as int) == ".wav"@)
        }),
        is_ascii_text(path@) ==> res == ({
            let l = ascii_lower_text(path@);
            ||| (4 <= l.len() && l.subrange(l.len() - 4, l.len() as int) == ".mp3"@)
            ||| (4 <= l.len() && l.subrange(l.len() - 4, l.len() as int) == ".wav"@)
        }),
{
    let lower = to_lower_case(path);
    let l = chars_of(lower.as_str());
    proof {
        reveal_strlit(".mp3");
        reveal_strlit(".wav");
    }
    ends_with_chars(&l, ".mp3") || ends_with_chars(&l, ".wav")
}

/// `s` is made of decimal digits only.
pub open spec fn all_digits(s: Seq<char>) -> bool {
    forall|i: int| 0 <= i < s.len() ==> '0' <= #[trigger] s[i] <= '9'
}

/// The number that the decimal digits `s` write.
pub open spec fn digits_value(s: Seq<char>) -> int
    decreases s.len(),
{
    if s.len() == 0 {
        0
    } else {
        digits_value(s.drop_last()) * 10 + (s.last() as int - '0' as int)
    }
}

/// The index that the text `v` writes, as `str::parse::<usize>` reads it:
/// decimal digits after an optional `+`, within the range of `usize`.
pub open spec fn spec_category_index(v: Seq<char>) -> Option<usize> {
    let d = if v.len() > 0 && v[0] == '+' { v.drop_first() } else { v };
    if d.len() > 0 && all_digits(d) && digits_value(d) <= usize::MAX {
        Some(digits_value(d) as usize)
    } else {
        None
    }
}

proof fn lemma_digits_value_monotone(s: Seq<char>, k: int)
    requires
        all_digits(s),
        0 <= k <= s.len(),
    ensures
        0 <= digits_value(s.take(k)) <= digits_value(s),
    decreases s.len(),
{
    if k < s.len() {
        let p = s.drop_last();
        assert forall|i: int| 0 <= i < p.len() implies '0' <= #[trigger] p[i] <= '9' by {
            assert(p[i] == s[i]);
        }
        lemma_digits_value_monotone(p, k);
        assert(p.take(k) =~= s.take(k));
        assert('0' <= s[s.len() - 1] <= '9');
    } else {
        assert(s.take(k) =~= s);
        lemma_digits_value_nonneg(s);
    }
}

proof fn lemma_digits_value_nonneg(s: Seq<char>)
    requires
        all_digits(s),
    ensures
        0 <= digits_value(s),
    decreases s.len(),
{
    if s.len() > 0 {
        let p = s.drop_last();
        assert forall|i: int| 0 <= i < p.len() implies '0' <= #[trigger] p[i] <= '9' by {
            assert(p[i] == s[i]);
        }
        lemma_digits_value_nonneg(p);
        assert('0' <= s[s.len() - 1] <= '9');
    }
}

/// The category index that a pick in the category list selects: the value
/// read as a decimal index, or `None` when it is not one.
pub fn category_index(v: &str) -> (res: Option<usize>)
    ensures
        res == spec_category_index(v@),
{
    let c = chars_of(v);
    let start: usize = if c.len() > 0 && c[0] == '+' { 1 } else { 0 };
    let ghost d = if v@.len() > 0 && v@[0] == '+' { v@.drop_first() } else { v@ };
    proof {
        assert(c@.subrange(start as int, c@.len() as int) =~= d);
    }
    if start >= c.len() {
        assert(d.len() == 0);
        return None;
    }
    let mut value: usize = 0;
    let mut i = start;
    while i < c.len()
        invariant
            c@ == v@,
            start <= i <= c.len(),
            d == c@.subrange(start as int, c@.len() as int),
            d == (if v@.len() > 0 && v@[0] == '+' { v@.drop_first() } else { v@ }),
            all_digits(d.take(i - start)),
            value as int == digits_value(d.take(i - start)),
        decreases c.len() - i,
    {
        let ch = c[i];
        let k = i - start;
        proof {
            assert(d[k as int] == ch);
            assert(d.take(k + 1).drop_last() =~= d.take(k as int));
        }
        if ch < '0' || ch > '9' {
            proof {
                assert(!all_digits(d)) by {
                    assert(d[k as int] == ch);
                }
                assert(spec_category_index(v@) is None);
            }
            return None;
        }
        let digit = (ch as u32 - '0' as u32) as usize;
        let next = match value.checked_mul(10) {
            Some(t) => t.checked_add(digit),
            None => None,
        };
        proof {
            assert forall|j: int| 0 <= j < k + 1 implies '0' <= #[trigger] d.take(k + 1)[j] <= '9' by {
                if j < k {
                    assert(d.take(k + 1)[j] == d.take(k as int)[j]);
                }
            }
        }
        match next {
            Some(n) => {
                value = n;
            },
            None => {
                proof {
                    assert(d.take(k + 1).last() == ch);
                    assert(digits_value(d.take(k + 1)) == value * 10 + (ch as int - '0' as int));
                    assert(digits_value(d.take(k + 1)) > usize::MAX);
                    if all_digits(d) {
                        lemma_digits_value_monotone(d, k + 1);
                    }
                    assert(spec_category_index(v@) is None);
                }
                return None;
            },
        }
        i += 1;
    }
    proof {
        assert(d.take(c.len() - start) =~= d);
    }
    Some(value)
}

} // verus!
