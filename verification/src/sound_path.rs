//! Where a sound reference is looked up on disk.
//!
//! A reference takes one of three forms: folder-relative
//! (`"mechanic-sounds/Acid Deluge.mp3"`, looked up under the bundled
//! definitions, and for the `sounds` folder first in the user's own sounds
//! folder); a bare file name (`"Alert.mp3"`, looked up as if under
//! `sounds/`); or an absolute path, used as given.

use vstd::prelude::*;
use std::path::{Path, PathBuf};
use crate::text::{chars_of, find_char, same_chars, slice_to_string, spec_split_once, first_index_of,
    lemma_first_index_of};

verus! {

#[verifier::external_type_specification]
#[verifier::external_body]
pub struct ExPath(Path);

#[verifier::external_type_specification]
#[verifier::external_body]
pub struct ExPathBuf(PathBuf);

/// The folder and the file name that the relative reference `file_ref`
/// names: `folder/name` when both parts are there, else `sounds/file_ref`.
pub open spec fn sound_folder_and_name(file_ref: Seq<char>) -> (Seq<char>, Seq<char>) {
    match spec_split_once(file_ref, '/') {
        Some((f, n)) => if f.len() > 0 && n.len() > 0 {
            (f, n)
        } else {
            ("sounds"@, file_ref)
        },
        None => ("sounds"@, file_ref),
    }
}

/// A bare file name, with no `/`, is looked up first in the user's sounds
/// folder, then in the bundled `sounds` folder.
pub proof fn lemma_bare_name_in_sounds_folder(name: Seq<char>)
    requires
        name.len() > 0,
        first_index_of(name, '/') is None,
    ensures
        spec_sound_candidates(name, false) == seq![
            SoundCandidateView::UserSounds(name),
            SoundCandidateView::Bundled("sounds"@, name),
        ],
{
}

/// The reference `folder/name` that the sound picker stores names that
/// folder and that file, for any folder name without `/`.
pub proof fn lemma_folder_reference_round_trip(folder: Seq<char>, name: Seq<char>)
    requires
        folder.len() > 0,
        name.len() > 0,
        first_index_of(folder, '/') is None,
    ensures
        sound_folder_and_name(folder.push('/') + name) == (folder, name),
{
    let s = folder.push('/') + name;
    let k = folder.len() as int;
    lemma_first_index_of(folder, '/');
    lemma_first_index_of(s, '/');
    assert(s[k] == '/');
    assert forall|j: int| 0 <= j < k implies s[j] != '/' by {
        assert(s[j] == folder[j]);
    }
    assert(first_index_of(s, '/') == Some(k));
    assert(s.take(k) =~= folder);
    assert(s.skip(k + 1) =~= name);
}

/// A place where a sound file may be.
pub enum SoundCandidate {
    /// The reference itself, an absolute path.
    AsGiven,
    /// `name` in the user's own sounds folder.
    UserSounds { name: String },
    /// `folder/name` under the bundled definitions folder.
    Bundled { folder: String, name: String },
}

pub enum SoundCandidateView {
    AsGiven,
    UserSounds(Seq<char>),
    Bundled(Seq<char>, Seq<char>),
}

impl View for SoundCandidate {
    type V = SoundCandidateView;

    open spec fn view(&self) -> SoundCandidateView {
        match self {
            SoundCandidate::AsGiven => SoundCandidateView::AsGiven,
            SoundCandidate::UserSounds { name } => SoundCandidateView::UserSounds(name@),
            SoundCandidate::Bundled { folder, name } => SoundCandidateView::Bundled(folder@, name@),
        }
    }
}

/// The places where `file_ref` may be, in the order in which they are
/// tried; `absolute` tells whether `file_ref` is an absolute path.
pub open spec fn spec_sound_candidates(file_ref: Seq<char>, absolute: bool) -> Seq<SoundCandidateView> {
    if file_ref.len() == 0 {
        seq![]
    } else if absolute {
        seq![SoundCandidateView::AsGiven]
    } else {
        let (folder, name) = sound_folder_and_name(file_ref);
        if folder == "sounds"@ {
            seq![SoundCandidateView::UserSounds(name), SoundCandidateView::Bundled(folder, name)]
        } else {
            seq![SoundCandidateView::Bundled(folder, name)]
        }
    }
}

/// The places where `file_ref` may be, in the order in which they are
/// tried; `absolute` tells whether `file_ref` is an absolute path.
pub fn sound_candidates(file_ref: &str, absolute: bool) -> (res: Vec<SoundCandidate>)
    ensures
        res@.map_values(|c: SoundCandidate| c@) == spec_sound_candidates(file_ref@, absolute),
{
    let chars = chars_of(file_ref);
    let mut res: Vec<SoundCandidate> = Vec::new();
    if chars.len() == 0 {
        proof {
            assert(res@.map_values(|c: SoundCandidate| c@) =~= Seq::<SoundCandidateView>::empty());
        }
        return res;
    }
    if absolute {
        res.push(SoundCandidate::AsGiven);
        proof {
            assert(res@.map_values(|c: SoundCandidate| c@) =~= seq![SoundCandidateView::AsGiven]);
        }
        return res;
    }
    let n = chars.len();
    let (folder, name) = match find_char(&chars, '/') {
        Some(i) if i > 0 && i + 1 < n => {
            proof {
                assert(chars@.take(i as int) =~= chars@.subrange(0, i as int));
                assert(chars@.skip(i + 1) =~= chars@.subrange(i + 1, n as int));
            }
            (slice_to_string(&chars, 0, i), slice_to_string(&chars, i + 1, n))
        },
        _ => ("sounds".to_owned(), file_ref.to_owned()),
    };
    assert((folder@, name@) == sound_folder_and_name(file_ref@));
    let folder_chars = chars_of(folder.as_str());
    let in_sounds = same_chars(&folder_chars, "sounds");
    if in_sounds {
        res.push(SoundCandidate::UserSounds { name: name.clone() });
    }
    res.push(SoundCandidate::Bundled { folder, name });
    proof {
        let (f, nm) = sound_folder_and_name(file_ref@);
        if in_sounds {
            assert(res@.map_values(|c: SoundCandidate| c@) =~= seq![
                SoundCandidateView::UserSounds(nm),
                SoundCandidateView::Bundled(f, nm),
            ]);
        } else {
            assert(res@.map_values(|c: SoundCandidate| c@) =~= seq![SoundCandidateView::Bundled(f, nm)]);
        }
    }
    res
}

/// Trusted: `PathBuf::from` builds a path from the text of `s`.
#[verifier::external_body]
fn path_buf_from(s: &str) -> PathBuf {
    PathBuf::from(s)
}

/// Trusted: `Path::is_absolute` tells whether a path is absolute, which
/// depends on the platform; nothing is stated of its answer.
#[verifier::external_body]
fn path_is_absolute(p: &PathBuf) -> bool {
    p.is_absolute()
}

/// Trusted: `Path::join` appends `part` to `base`; the result depends on the
/// platform's separators and nothing is stated of it.
#[verifier::external_body]
fn path_join(base: &Path, part: &str) -> PathBuf {
    base.join(part)
}

/// Trusted: `<PathBuf as Deref>::deref` borrows the path that a `PathBuf`
/// owns; nothing is stated of it.
pub assume_specification[ <PathBuf as std::ops::Deref>::deref ](p: &PathBuf) -> &Path;

/// Trusted: `Path::exists` asks the file system, so nothing is stated of
/// its answer.
#[verifier::external_body]
fn path_exists(p: &PathBuf) -> bool {
    p.exists()
}

/// The position of the first `true` in `found`, if any: which of the
/// places tried, in order, is the first that exists.
pub fn first_found(found: &Vec<bool>) -> (res: Option<usize>)
    ensures
        match res {
            Some(i) => i < found.len() && found@[i as int] && forall|j: int| 0 <= j < i ==> !found@[j],
            None => forall|j: int| 0 <= j < found.len() ==> !found@[j],
        },
{
    let n = found.len();
    for i in 0..n
        invariant
            n == found.len(),
            forall|j: int| 0 <= j < i ==> !found@[j],
    {
        if found[i] {
            return Some(i);
        }
    }
    None
}

/// The path at the first position where `found` says the place exists, if
/// any: `found` holds the answers for the first places of `paths`, in order.
pub fn pick_found(paths: Vec<PathBuf>, found: &Vec<bool>) -> (res: Option<PathBuf>)
    requires
        found.len() <= paths.len(),
    ensures
        match res {
            Some(p) => exists|i: int|
                0 <= i < found.len() && #[trigger] found@[i] && (forall|j: int| 0 <= j < i ==> !found@[j])
                    && p == paths@[i],
            None => forall|j: int| 0 <= j < found.len() ==> !found@[j],
        },
{
    let mut paths = paths;
    match first_found(found) {
        Some(k) => {
            let ghost before = paths@;
            let p = paths.remove(k);
            assert(found@[k as int]);
            assert(p == before[k as int]);
            Some(p)
        },
        None => None,
    }
}

/// Builds the path of the candidate place `c` and asks the file system
/// whether it exists: the path when it does. What the file system answers
/// is not stated.
pub fn probe_candidate(
    c: &SoundCandidate,
    file_ref: &str,
    user_sounds_dir: &Path,
    bundled_definitions_dir: &Path,
) -> Option<PathBuf> {
    let path = match c {
        SoundCandidate::AsGiven => path_buf_from(file_ref),
        SoundCandidate::UserSounds { name } => path_join(user_sounds_dir, name.as_str()),
        SoundCandidate::Bundled { folder, name } => {
            let dir = path_join(bundled_definitions_dir, folder.as_str());
            path_join(&dir, name.as_str())
        },
    };
    if path_exists(&path) {
        Some(path)
    } else {
        None
    }
}

/// `res` is what probing the places `cs` in order gives: the answer of the
/// first place that exists, every place before it probed and found
/// missing; or nothing, every place probed and found missing.
pub open spec fn first_probe_found(
    cs: Seq<SoundCandidate>,
    file_ref: &str,
    user_sounds_dir: &Path,
    bundled_definitions_dir: &Path,
    res: Option<PathBuf>,
) -> bool {
    match res {
        Some(_) => exists|i: int|
            0 <= i < cs.len() && #[trigger] call_ensures(
                probe_candidate,
                (&cs[i], file_ref, user_sounds_dir, bundled_definitions_dir),
                res,
            ) && forall|j: int|
                0 <= j < i ==> #[trigger] call_ensures(
                    probe_candidate,
                    (&cs[j], file_ref, user_sounds_dir, bundled_definitions_dir),
                    None,
                ),
        None => forall|j: int|
            0 <= j < cs.len() ==> #[trigger] call_ensures(
                probe_candidate,
                (&cs[j], file_ref, user_sounds_dir, bundled_definitions_dir),
                None,
            ),
    }
}

/// Resolves the sound reference `file_ref` to a file on disk: its candidate
/// places (`spec_sound_candidates`, for the platform's answer to whether
/// `file_ref` is absolute) are probed in order, and the first that exists
/// is returned; none after it is probed.
pub fn resolve_sound_path(
    file_ref: &str,
    user_sounds_dir: &Path,
    bundled_definitions_dir: &Path,
) -> (res: Option<PathBuf>)
    ensures
        file_ref@.len() == 0 ==> res is None,
        res is Some ==> file_ref@.len() > 0,
        exists|cs: Seq<SoundCandidate>, absolute: bool|
            cs.map_values(|c: SoundCandidate| c@) == #[trigger] spec_sound_candidates(file_ref@, absolute)
                && #[trigger] first_probe_found(cs, file_ref, user_sounds_dir, bundled_definitions_dir, res),
{
    let given = path_buf_from(file_ref);
    let absolute = path_is_absolute(&given);
    let candidates = sound_candidates(file_ref, absolute);
    let probe = probe_candidate;
    let n = candidates.len();
    let ghost cs = candidates@;
    for i in 0..n
        invariant
            n == candidates.len(),
            cs == candidates@,
            cs.map_values(|c: SoundCandidate| c@) == spec_sound_candidates(file_ref@, absolute),
            forall|j: int|
                0 <= j < i ==> #[trigger] call_ensures(
                    probe_candidate,
                    (&cs[j], file_ref, user_sounds_dir, bundled_definitions_dir),
                    None,
                ),
    {
        let found = probe(&candidates[i], file_ref, user_sounds_dir, bundled_definitions_dir);
        if found.is_some() {
            proof {
                assert(first_probe_found(cs, file_ref, user_sounds_dir, bundled_definitions_dir, found));
                if file_ref@.len() == 0 {
                    assert(cs.map_values(|c: SoundCandidate| c@).len() == 0);
                }
            }
            return found;
        }
    }
    proof {
        assert(first_probe_found(cs, file_ref, user_sounds_dir, bundled_definitions_dir, None));
    }
    None
}

/// The folder that serves as the bundled definitions folder.
pub enum DefinitionsDir {
    /// The `core/definitions` folder of the source tree.
    Source,
    /// The definitions folder among the app's bundled resources.
    Resource,
}

/// Chooses the bundled definitions folder: the source tree when it has a
/// `sounds` folder (in development it is always complete); else the bundled
/// resource folder when it resolves and exists; else the source tree.
/// `resource_exists` is `None` when the resource folder does not resolve.
pub fn choose_definitions_dir(source_has_sounds: bool, resource_exists: Option<bool>) -> (res: DefinitionsDir)
    ensures
        res is Resource <==> (!source_has_sounds && resource_exists == Some(true)),
{
    if source_has_sounds {
        return DefinitionsDir::Source;
    }
    match resource_exists {
        Some(true) => DefinitionsDir::Resource,
        _ => DefinitionsDir::Source,
    }
}

} // verus!
