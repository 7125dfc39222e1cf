//! Validation of the registry file location. The registry path arrives from
//! the command line and is checked before any I/O touches it: no parent
//! directory references, never inside a reserved system directory, and always
//! within the invoking process's working directory. The checks are pure text
//! logic over the path, the working directory and what the filesystem
//! resolved, so the caller performs resolution and hands the results in.

use vstd::prelude::*;

use crate::strutil::{chars_start_with, chars_to_string, contains_seq, spec_contains_seq, to_char_vec};

verus! {

/// Why a registry path was rejected.
#[derive(Clone, Copy, PartialEq, Eq, Structural, Debug)]
pub enum PathError {
    /// The path contains a parent directory reference (`..`).
    ParentRef,
    /// The path does not exist and neither does its parent directory.
    ParentMissing,
    /// The resolved path lies in a reserved system directory.
    SystemDir,
    /// The resolved path lies outside the current working directory.
    OutsideCwd,
}

impl PathError {
    /// A human-readable description of the rejection.
    pub fn message(&self) -> (r: String)
        ensures
            r@ == self.spec_message(),
    {
        match self {
            PathError::ParentRef => "Registry path cannot contain parent directory references (..)".to_owned(),
            PathError::ParentMissing => "Registry path parent directory does not exist".to_owned(),
            PathError::SystemDir => "Registry path cannot be in system directory".to_owned(),
            PathError::OutsideCwd => "Registry path must be within current working directory".to_owned(),
        }
    }

    /// The description text of each rejection.
    pub open spec fn spec_message(self) -> Seq<char> {
        match self {
            PathError::ParentRef => "Registry path cannot contain parent directory references (..)"@,
            PathError::ParentMissing => "Registry path parent directory does not exist"@,
            PathError::SystemDir => "Registry path cannot be in system directory"@,
            PathError::OutsideCwd => "Registry path must be within current working directory"@,
        }
    }
}

/// The path contains a parent directory reference.
pub open spec fn spec_has_parent_ref(p: Seq<char>) -> bool {
    spec_contains_seq(p, ".."@)
}

/// Whether the path contains a parent directory reference. Callers use this
/// to reject a traversal before touching the filesystem at all; the full
/// validator repeats the check.
pub fn has_parent_ref(path: &str) -> (r: bool)
    ensures
        r == spec_has_parent_ref(path@),
{
    contains_seq(&to_char_vec(path), &to_char_vec(".."))
}

/// The path is absolute.
pub open spec fn spec_is_absolute(p: Seq<char>) -> bool {
    p.len() > 0 && p[0] == '/'
}

/// The path the later checks run on: what the filesystem resolved if the
/// file exists, otherwise the path made absolute against the working
/// directory.
pub open spec fn spec_resolved(p: Seq<char>, cwd: Seq<char>, canonical: Option<Seq<char>>) -> Seq<
    char,
> {
    match canonical {
        Some(c) => c,
        None => if spec_is_absolute(p) {
            p
        } else {
            cwd + "/"@ + p
        },
    }
}

/// `pre` is a whole-component prefix of `p`: either all of `p`, or followed
/// by a path separator.
pub open spec fn spec_dir_prefix(p: Seq<char>, pre: Seq<char>) -> bool {
    &&& pre.is_prefix_of(p)
    &&& (p.len() == pre.len() || p[pre.len() as int] == '/')
}

/// The resolved path lies in a reserved system directory.
pub open spec fn spec_in_system_dir(p: Seq<char>) -> bool {
    ||| spec_dir_prefix(p, "/etc"@)
    ||| spec_dir_prefix(p, "/root"@)
    ||| spec_dir_prefix(p, "/sys"@)
    ||| spec_dir_prefix(p, "/proc"@)
    ||| spec_dir_prefix(p, "/boot"@)
    ||| spec_dir_prefix(p, "/dev"@)
}

/// Whether `pre` is a whole-component prefix of `p`.
fn dir_prefix(p: &Vec<char>, pre: &Vec<char>) -> (r: bool)
    ensures
        r == spec_dir_prefix(p@, pre@),
{
    if !chars_start_with(p, pre) {
        return false;
    }
    if p.len() == pre.len() {
        return true;
    }
    p[pre.len()] == '/'
}

/// Validate the registry path before any registry I/O.
///
/// `path` is the caller-supplied location; `cwd` the invoking process's
/// working directory; `canonical` what the filesystem resolved the path to,
/// if it exists; `parent_exists` whether the parent directory of the
/// absolute path exists (consulted only when the path itself does not).
///
/// Accepts exactly the paths with no `..` reference whose resolution is
/// known (or whose parent exists, for a file yet to be created), lies in no
/// reserved system directory, and stays within the working directory; the
/// accepted path is returned in resolved form.
pub fn validate_registry_path(
    path: &str,
    cwd: &str,
    canonical: Option<&String>,
    parent_exists: bool,
) -> (r: Result<String, PathError>)
    ensures
        ({
            let canon = match canonical {
                Some(c) => Some(c@),
                None => None,
            };
            let res = spec_resolved(path@, cwd@, canon);
            match r {
                Ok(out) => {
                    &&& !spec_has_parent_ref(path@)
                    &&& (canonical is Some || parent_exists)
                    &&& !spec_in_system_dir(res)
                    &&& spec_dir_prefix(res, cwd@)
                    &&& out@ == res
                },
                Err(e) => match e {
                    PathError::ParentRef => spec_has_parent_ref(path@),
                    PathError::ParentMissing => !spec_has_parent_ref(path@) && canonical is None
                        && !parent_exists,
                    PathError::SystemDir => !spec_has_parent_ref(path@) && (canonical is Some
                        || parent_exists) && spec_in_system_dir(res),
                    PathError::OutsideCwd => !spec_has_parent_ref(path@) && (canonical is Some
                        || parent_exists) && !spec_in_system_dir(res) && !spec_dir_prefix(
                        res,
                        cwd@,
                    ),
                },
            }
        }),
{
    let pv = to_char_vec(path);
    let dots = to_char_vec("..");
    if contains_seq(&pv, &dots) {
        return Err(PathError::ParentRef);
    }
    let resolved: Vec<char> = match canonical {
        Some(c) => to_char_vec(c.as_str()),
        None => {
            if !parent_exists {
                return Err(PathError::ParentMissing);
            }
            let absolute = pv.len() > 0 && pv[0] == '/';
            if absolute {
                pv
            } else {
                let mut joined = to_char_vec(cwd);
                joined.push('/');
                let ghost mid = joined@;
                let n = pv.len();
                for i in 0..n
                    invariant
                        n == pv@.len(),
                        joined@ =~= mid + pv@.subrange(0, i as int),
                {
                    joined.push(pv[i]);
                    proof {
                        assert(joined@ =~= mid + pv@.subrange(0, i + 1));
                    }
                }
                proof {
                    assert(pv@.subrange(0, n as int) =~= pv@);
                    reveal_strlit("/");
                    assert(("/"@).len() == 1);
                    assert(mid =~= cwd@ + "/"@);
                    assert(joined@ =~= cwd@ + "/"@ + pv@);
                }
                joined
            }
        },
    };
    if dir_prefix(&resolved, &to_char_vec("/etc")) || dir_prefix(&resolved, &to_char_vec("/root"))
        || dir_prefix(&resolved, &to_char_vec("/sys")) || dir_prefix(
        &resolved,
        &to_char_vec("/proc"),
    ) || dir_prefix(&resolved, &to_char_vec("/boot")) || dir_prefix(
        &resolved,
        &to_char_vec("/dev"),
    ) {
        return Err(PathError::SystemDir);
    }
    if !dir_prefix(&resolved, &to_char_vec(cwd)) {
        return Err(PathError::OutsideCwd);
    }
    Ok(chars_to_string(&resolved))
}

} // verus!
