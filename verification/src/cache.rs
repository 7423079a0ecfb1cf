//! Where the parsed form of a replay is kept: `parsed_games/<stem>.json`,
//! after the replay file's stem.

use vstd::prelude::*;

verus! {

/// The stem of the file that `path` names (its file name without the
/// extension), as `std::path::Path::file_stem` finds it; `None` when the
/// path names no file.
pub uninterp spec fn file_stem(path: Seq<char>) -> Option<Seq<char>>;

/// Calls `std::path::Path::file_stem` on `path` and reads the stem as text.
/// Claimed: the result is `file_stem` of the path. What the stem is for a
/// given path (how the path splits into components and where the extension
/// starts) is left to std.
#[verifier::external_body]
fn path_file_stem(path: &str) -> (stem: Option<String>)
    ensures
        match stem {
            Some(s) => file_stem(path@) == Some(s@),
            None => file_stem(path@) is None,
        },
{
    match std::path::Path::new(path).file_stem() {
        Some(os) => match os.to_str() {
            Some(s) => Some(s.to_string()),
            None => None,
        },
        None => None,
    }
}

/// The cache file for a replay whose stem is `stem`; a replay without a
/// stem is cached as `unknown`.
pub open spec fn cache_path_for(stem: Option<Seq<char>>) -> Seq<char> {
    "parsed_games/"@ + match stem {
        Some(s) => s,
        None => "unknown"@,
    } + ".json"@
}

/// The cache file for a replay with stem `stem`.
pub fn cache_path_from_stem(stem: Option<&str>) -> (path: String)
    ensures
        path@ == cache_path_for(
            match stem {
                Some(s) => Some(s@),
                None => None,
            },
        ),
{
    let mut path = String::from_str("parsed_games/");
    match stem {
        Some(s) => path.append(s),
        None => path.append("unknown"),
    }
    path.append(".json");
    path
}

/// The cache file for the replay at `replay_path`.
pub fn get_cache_path(replay_path: &str) -> (path: String)
    ensures
        path@ == cache_path_for(file_stem(replay_path@)),
{
    let stem = path_file_stem(replay_path);
    match stem {
        Some(s) => cache_path_from_stem(Some(s.as_str())),
        None => cache_path_from_stem(None),
    }
}


/// The name a replay goes by: its stem, or `unknown` when it has none.
pub open spec fn replay_name_for(stem: Option<Seq<char>>) -> Seq<char> {
    match stem {
        Some(s) => s,
        None => "unknown"@,
    }
}

/// The name the replay at `replay_path` goes by.
pub fn replay_name(replay_path: &str) -> (name: String)
    ensures
        name@ == replay_name_for(file_stem(replay_path@)),
{
    match path_file_stem(replay_path) {
        Some(s) => s,
        None => String::from_str("unknown"),
    }
}

/// The signature sidecar of a replay whose stem is `stem`, beside its
/// cache file.
pub open spec fn sidecar_path_for(stem: Option<Seq<char>>) -> Seq<char> {
    "parsed_games/"@ + replay_name_for(stem) + ".sig"@
}

/// The signature sidecar of the replay at `replay_path`.
pub fn get_sidecar_path(replay_path: &str) -> (path: String)
    ensures
        path@ == sidecar_path_for(file_stem(replay_path@)),
{
    let name = replay_name(replay_path);
    let mut path = String::from_str("parsed_games/");
    path.append(name.as_str());
    path.append(".sig");
    path
}

/// Largest replay upload accepted, in bytes (20 MB).
pub const MAX_UPLOAD_SIZE: usize = 20971520;

/// Why an uploaded file is refused.
#[derive(Debug, Clone, Copy, PartialEq, Eq)]
pub enum UploadError {
    /// The file name does not end in `.replay`.
    NotAReplay,
    /// The file is larger than `MAX_UPLOAD_SIZE`.
    TooLarge,
}

/// Whether `name` ends in `.replay`.
pub open spec fn has_replay_extension(name: Seq<char>) -> bool {
    let ext = ".replay"@;
    name.len() >= ext.len() && name.subrange(name.len() - ext.len(), name.len() as int) == ext
}

/// Whether a file name ends in `.replay`.
pub fn is_replay_file_name(name: &str) -> (r: bool)
    ensures
        r == has_replay_extension(name@),
{
    let ext = ".replay";
    let n = name.unicode_len();
    let e = ext.unicode_len();
    if n < e {
        return false;
    }
    let tail = name.substring_char(n - e, n);
    let mut i: usize = 0;
    while i < e
        invariant
            e == ext@.len(),
            tail@.len() == e,
            tail@ == name@.subrange(n - e, n as int),
            n == name@.len(),
            e <= n,
            ext@ == ".replay"@,
            i <= e,
            forall|j: int| 0 <= j < i ==> tail@[j] == ext@[j],
        decreases e - i,
    {
        if tail.get_char(i) != ext.get_char(i) {
            assert(tail@[i as int] != ext@[i as int]);
            assert(tail@ != ext@);
            assert(!has_replay_extension(name@));
            return false;
        }
        i = i + 1;
    }
    assert(tail@ =~= ext@);
    true
}

/// Checks an uploaded file: its name must end in `.replay` (checked first)
/// and its size must not exceed `MAX_UPLOAD_SIZE`.
pub fn check_upload(file_name: &str, size: usize) -> (res: Result<(), UploadError>)
    ensures
        !has_replay_extension(file_name@) ==> res == Err::<(), UploadError>(UploadError::NotAReplay),
        has_replay_extension(file_name@) && size > MAX_UPLOAD_SIZE ==> res == Err::<(), UploadError>(
            UploadError::TooLarge,
        ),
        has_replay_extension(file_name@) && size <= MAX_UPLOAD_SIZE ==> res is Ok,
{
    if !is_replay_file_name(file_name) {
        return Err(UploadError::NotAReplay);
    }
    if size > MAX_UPLOAD_SIZE {
        return Err(UploadError::TooLarge);
    }
    Ok(())
}

} // verus!
