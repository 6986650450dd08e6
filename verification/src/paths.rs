//! Path arithmetic on Unix path strings, and the published snapshot layout.

use vstd::prelude::*;
use vstd::string::{StrSliceExecFns, StringExecFns};

use crate::error::Error;

verus! {

/// Root of the published per-user snapshots readable before login.
pub const PUBLISHED_ROOT: &'static str = "/var/lib/appearance-profiles/users";

/// File name of a published profile inside a user's snapshot directory.
pub const PROFILE_FILE: &'static str = "default.toml";

/// File name of the prepared bundle manifest inside a user's snapshot
/// directory.
pub const BUNDLE_FILE: &'static str = "bundle.toml";

/// A Unix path is absolute exactly when it starts with the root `/`.
pub open spec fn is_absolute_path(p: Seq<char>) -> bool {
    p.len() > 0 && p[0] == '/'
}

/// `base` joined with `rel` as a Unix path: an absolute `rel` replaces
/// `base`; otherwise `rel` is appended, after a `/` unless `base` is empty or
/// already ends with one.
pub open spec fn join_path_spec(base: Seq<char>, rel: Seq<char>) -> Seq<char> {
    if is_absolute_path(rel) {
        rel
    } else if base.len() == 0 || base.last() == '/' {
        base + rel
    } else {
        base + seq!['/'] + rel
    }
}

/// Whether `p` is a relative path (does not start with `/`).
pub fn is_relative(p: &str) -> (b: bool)
    ensures
        b == !is_absolute_path(p@),
{
    if p.is_empty() {
        true
    } else {
        p.get_char(0) != '/'
    }
}

/// `base` joined with `rel` (see [`join_path_spec`]).
pub fn join_path(base: &str, rel: &str) -> (res: String)
    ensures
        res@ == join_path_spec(base@, rel@),
{
    if !is_relative(rel) {
        return rel.to_owned();
    }
    let mut res = base.to_owned();
    if !base.is_empty() && base.get_char(base.unicode_len() - 1) != '/' {
        res.append("/");
        proof {
            reveal_strlit("/");
        }
    }
    res.append(rel);
    res
}

/// The parent of a path as `std::path::Path::parent` computes it: the path
/// without its last component, or none where there is no such component to
/// drop (as for the root or an empty path).
pub uninterp spec fn path_parent(path: Seq<char>) -> Option<Seq<char>>;

/// Calls `std::path::Path::parent` on `path`. Trusted: its result is the
/// named `path_parent` of the argument; nothing more of it is stated.
#[verifier::external_body]
fn parent_of(path: &str) -> (res: Option<String>)
    ensures
        res.deep_view() == path_parent(path@),
{
    match std::path::Path::new(path).parent() {
        Some(p) => Some(p.to_string_lossy().into_owned()),
        None => None,
    }
}

/// The directory against which relative paths in the file at `path`
/// resolve: its parent, or `.` where it has none.
pub open spec fn base_directory_spec(path: Seq<char>) -> Seq<char> {
    match path_parent(path) {
        Some(p) => p,
        None => seq!['.'],
    }
}

/// The directory against which relative paths in the file at `path` resolve.
pub fn base_directory(path: &str) -> (res: String)
    ensures
        res@ == base_directory_spec(path@),
{
    match parent_of(path) {
        Some(p) => p,
        None => {
            proof {
                reveal_strlit(".");
            }
            String::from_str(".")
        },
    }
}

/// The current user's profile, given the values of `$XDG_CONFIG_HOME` and
/// `$HOME` where they are set: `appearance-profiles/default.toml` under
/// `$XDG_CONFIG_HOME`, else under `$HOME/.config`, else none.
pub fn user_profile_path(xdg_config_home: Option<&str>, home: Option<&str>) -> (res: Option<
    String,
>)
    ensures
        res.deep_view() == match xdg_config_home {
            Some(x) => Some(join_path_spec(x@, "appearance-profiles/default.toml"@)),
            None => match home {
                Some(h) => Some(
                    join_path_spec(
                        join_path_spec(h@, ".config"@),
                        "appearance-profiles/default.toml"@,
                    ),
                ),
                None => None,
            },
        },
{
    match xdg_config_home {
        Some(x) => Some(join_path(x, "appearance-profiles/default.toml")),
        None => match home {
            Some(h) => {
                let config = join_path(h, ".config");
                Some(join_path(config.as_str(), "appearance-profiles/default.toml"))
            },
            None => None,
        },
    }
}

/// A character allowed in a user name: ASCII letter or digit, `-` or `_`.
pub open spec fn is_user_name_char(c: char) -> bool {
    ||| ('a' <= c && c <= 'z')
    ||| ('A' <= c && c <= 'Z')
    ||| ('0' <= c && c <= '9')
    ||| c == '-'
    ||| c == '_'
}

/// A user name that is safe as a single path component: not empty, and
/// made of allowed characters only.
pub open spec fn valid_user_name(user: Seq<char>) -> bool {
    &&& user.len() > 0
    &&& forall|i: int| 0 <= i < user.len() ==> is_user_name_char(#[trigger] user[i])
}

fn user_name_char(c: char) -> (b: bool)
    ensures
        b == is_user_name_char(c),
{
    ('a' <= c && c <= 'z') || ('A' <= c && c <= 'Z') || ('0' <= c && c <= '9') || c == '-'
        || c == '_'
}

fn check_user_name(user: &str) -> (b: bool)
    ensures
        b == valid_user_name(user@),
{
    if user.is_empty() {
        return false;
    }
    let n = user.unicode_len();
    let mut i: usize = 0;
    while i < n
        invariant
            n == user@.len(),
            i <= n,
            forall|j: int| 0 <= j < i ==> is_user_name_char(#[trigger] user@[j]),
        decreases n - i,
    {
        if !user_name_char(user.get_char(i)) {
            return false;
        }
        i = i + 1;
    }
    true
}

/// The published profile of a valid user: `PUBLISHED_ROOT/user/default.toml`.
pub open spec fn published_profile_spec(user: Seq<char>) -> Seq<char> {
    join_path_spec(join_path_spec(PUBLISHED_ROOT@, user), PROFILE_FILE@)
}

/// The published bundle manifest of a valid user:
/// `PUBLISHED_ROOT/user/bundle.toml`.
pub open spec fn published_bundle_spec(user: Seq<char>) -> Seq<char> {
    join_path_spec(join_path_spec(PUBLISHED_ROOT@, user), BUNDLE_FILE@)
}

/// The published snapshot profile of `user`, or `Error::User` where the name
/// is not a safe path component.
pub fn published_profile_path(user: &str) -> (res: Result<String, Error>)
    ensures
        res is Ok <==> valid_user_name(user@),
        res matches Ok(p) ==> p@ == published_profile_spec(user@),
        res matches Err(e) ==> e matches Error::User(u) && u@ == user@,
{
    if !check_user_name(user) {
        return Err(Error::User(user.to_owned()));
    }
    let dir = join_path(PUBLISHED_ROOT, user);
    Ok(join_path(dir.as_str(), PROFILE_FILE))
}

/// The published bundle manifest of `user`, beside its published profile,
/// or `Error::User` where the name is not a safe path component.
pub fn published_bundle_path(user: &str) -> (res: Result<String, Error>)
    ensures
        res is Ok <==> valid_user_name(user@),
        res matches Ok(p) ==> p@ == published_bundle_spec(user@),
        res matches Err(e) ==> e matches Error::User(u) && u@ == user@,
{
    if !check_user_name(user) {
        return Err(Error::User(user.to_owned()));
    }
    let dir = join_path(PUBLISHED_ROOT, user);
    Ok(join_path(dir.as_str(), BUNDLE_FILE))
}

} // verus!

verus! {

/// The snapshot directory of a user: `PUBLISHED_ROOT/user`.
pub open spec fn user_directory_spec(user: Seq<char>) -> Seq<char> {
    PUBLISHED_ROOT@ + seq!['/'] + user
}

/// A valid user name is a single path component below the published root
/// (no separator, not `.` or `..`), and the published profile and bundle
/// manifest of that user lie side by side directly in its directory.
pub proof fn published_paths_stay_in_user_directory(user: Seq<char>)
    requires
        valid_user_name(user),
    ensures
        !user.contains('/'),
        user != seq!['.'],
        user != seq!['.', '.'],
        published_profile_spec(user) == user_directory_spec(user) + seq!['/'] + PROFILE_FILE@,
        published_bundle_spec(user) == user_directory_spec(user) + seq!['/'] + BUNDLE_FILE@,
{
    reveal_strlit("/var/lib/appearance-profiles/users");
    reveal_strlit("default.toml");
    reveal_strlit("bundle.toml");
    assert(is_user_name_char(user[0]));
    if user.contains('/') {
        let i = choose|i: int| 0 <= i < user.len() && user[i] == '/';
        assert(is_user_name_char(user[i]));
    }
    if user == seq!['.'] || user == seq!['.', '.'] {
        assert(is_user_name_char(user[0]));
    }
    let dir = join_path_spec(PUBLISHED_ROOT@, user);
    assert(dir =~= user_directory_spec(user));
    assert(published_profile_spec(user) =~= user_directory_spec(user) + seq!['/'] + PROFILE_FILE@);
    assert(published_bundle_spec(user) =~= user_directory_spec(user) + seq!['/'] + BUNDLE_FILE@);
}

} // verus!

verus! {

/// A user name is valid exactly when it is not empty and each of its
/// characters is an ASCII digit (0x30..=0x39), an ASCII upper-case letter
/// (0x41..=0x5A), an ASCII lower-case letter (0x61..=0x7A), `-` (0x2D) or
/// `_` (0x5F): the ASCII alphanumerics, dash and underscore.
pub proof fn valid_user_names_are_ascii_alphanumeric_dash_underscore(user: Seq<char>)
    ensures
        valid_user_name(user) <==> {
            &&& user.len() > 0
            &&& forall|i: int|
                0 <= i < user.len() ==> {
                    let c = (#[trigger] user[i]) as int;
                    ||| 0x30 <= c <= 0x39
                    ||| 0x41 <= c <= 0x5a
                    ||| 0x61 <= c <= 0x7a
                    ||| c == 0x2d
                    ||| c == 0x5f
                }
        },
{
    assert forall|c: char| #[trigger] is_user_name_char(c) <==> {
        let n = c as int;
        ||| 0x30 <= n <= 0x39
        ||| 0x41 <= n <= 0x5a
        ||| 0x61 <= n <= 0x7a
        ||| n == 0x2d
        ||| n == 0x5f
    } by {
        assert('a' as int == 0x61 && 'z' as int == 0x7a);
        assert('A' as int == 0x41 && 'Z' as int == 0x5a);
        assert('0' as int == 0x30 && '9' as int == 0x39);
        assert('-' as int == 0x2d && '_' as int == 0x5f);
    }
}

} // verus!
