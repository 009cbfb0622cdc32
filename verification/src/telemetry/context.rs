//! Git context collection for telemetry events.

use vstd::prelude::*;

verus! {

/// What `Path::join` gives for `base.join(rel)`.
pub uninterp spec fn joined_path(base: Seq<char>, rel: Seq<char>) -> Seq<char>;

/// What `Path::parent` gives for `path`.
pub uninterp spec fn parent_path(path: Seq<char>) -> Option<Seq<char>>;

/// `std::path::Path::join`: the path `rel` relative to `base`, as text.
/// Claims only that the result is a function of the two paths.
#[verifier::external_body]
fn path_join(base: &str, rel: &str) -> (r: String)
    ensures
        r@ == joined_path(base@, rel@),
{
    std::path::Path::new(base).join(rel).to_string_lossy().into_owned()
}

/// `std::path::Path::parent`: `path` without its final component, if it has
/// one. Claims that the result is a function of the path and, as the
/// documentation says that the final component is removed, that a parent is
/// shorter than the path.
#[verifier::external_body]
fn path_parent(path: &str) -> (r: Option<String>)
    ensures
        r matches Some(p) ==> Some(p@) == parent_path(path@) && p@.len() < path@.len(),
        r is None ==> parent_path(path@) is None,
{
    std::path::Path::new(path).parent().map(|p| p.to_string_lossy().into_owned())
}

/// `std::path::Path::exists`: whether something is on disk at `path`.
/// Depends on the file system, so nothing is claimed of the result.
#[verifier::external_body]
fn path_exists(path: &str) -> bool {
    std::path::Path::new(path).exists()
}

pub struct GitContext {
    pub is_git_repo: bool,
}

/// One step of the walk up from a directory in search of `.git`.
pub enum GitWalkStep {
    /// The directory holds a `.git` entry.
    Found,
    /// It does not; go on with its parent.
    Up(String),
    /// It does not, and it has no parent.
    Stop,
}

/// What the walk does at directory `dir`, given whether `dir/.git` is on
/// disk: stop with success when it is, else move to the parent, or stop
/// without success at the root.
pub fn git_walk_step(dir: &str, marker_present: bool) -> (s: GitWalkStep)
    ensures
        marker_present ==> s is Found,
        !marker_present ==> match parent_path(dir@) {
            Some(p) => s matches GitWalkStep::Up(q) && q@ == p && q@.len() < dir@.len(),
            None => s is Stop,
        },
{
    if marker_present {
        return GitWalkStep::Found;
    }
    match path_parent(dir) {
        Some(parent) => GitWalkStep::Up(parent),
        None => GitWalkStep::Stop,
    }
}

/// A walk from `cwd`: it visited the directories `dirs`, `cwd` first and
/// each next one the parent of the one before, asking for each whether its
/// `.git` entry (`joined_path(dir, ".git")`) is on disk, with answers
/// `answers`; every answer but the last was no, and it ended either at a yes
/// or at a directory without a parent. `found` is its last answer, so it is
/// true exactly when some answer was yes.
pub open spec fn git_walk(cwd: Seq<char>, dirs: Seq<Seq<char>>, answers: Seq<bool>, found: bool) -> bool {
    &&& dirs.len() >= 1
    &&& answers.len() == dirs.len()
    &&& dirs[0] == cwd
    &&& forall|i: int|
        0 <= i < dirs.len() - 1 ==> !answers[i] && parent_path(#[trigger] dirs[i]) == Some(dirs[i + 1])
    &&& found == answers.last()
    &&& !found ==> parent_path(dirs.last()) is None
}

/// Whether `cwd` or one of its ancestors holds a `.git` entry. The walk asks
/// the file system at each level, so the answers depend on the disk; what
/// holds of every outcome is that the result is that of such a walk.
pub fn collect_git_context(cwd: &str) -> (r: GitContext)
    ensures
        exists|dirs: Seq<Seq<char>>, answers: Seq<bool>| #[trigger] git_walk(cwd@, dirs, answers, r.is_git_repo),
{
    let mut dir = String::from_str(cwd);
    let ghost mut dirs: Seq<Seq<char>> = Seq::empty();
    let ghost mut answers: Seq<bool> = Seq::empty();
    loop
        invariant
            answers.len() == dirs.len(),
            dirs.len() == 0 ==> dir@ == cwd@,
            dirs.len() > 0 ==> dirs[0] == cwd@ && parent_path(dirs.last()) == Some(dir@),
            forall|i: int| 0 <= i < dirs.len() ==> !answers[i],
            forall|i: int|
                0 <= i < dirs.len() - 1 ==> parent_path(#[trigger] dirs[i]) == Some(dirs[i + 1]),
        decreases dir@.len(),
    {
        let marker = path_join(dir.as_str(), ".git");
        let present = path_exists(marker.as_str());
        let step = git_walk_step(dir.as_str(), present);
        let ghost seen = dirs.push(dir@);
        match step {
            GitWalkStep::Found => {
                let ghost told = answers.push(true);
                proof {
                    assert(git_walk(cwd@, seen, told, true)) by {
                        assert forall|i: int| 0 <= i < seen.len() - 1 implies !told[i] && parent_path(
                            #[trigger] seen[i],
                        ) == Some(seen[i + 1]) by {
                            if i + 1 < dirs.len() {
                                assert(parent_path(dirs[i]) == Some(dirs[i + 1]));
                            }
                        }
                    }
                }
                let r = GitContext { is_git_repo: true };
                assert(git_walk(cwd@, seen, told, r.is_git_repo));
                return r;
            },
            GitWalkStep::Stop => {
                let ghost told = answers.push(false);
                proof {
                    assert(git_walk(cwd@, seen, told, false)) by {
                        assert forall|i: int| 0 <= i < seen.len() - 1 implies !told[i] && parent_path(
                            #[trigger] seen[i],
                        ) == Some(seen[i + 1]) by {
                            if i + 1 < dirs.len() {
                                assert(parent_path(dirs[i]) == Some(dirs[i + 1]));
                            }
                        }
                    }
                }
                let r = GitContext { is_git_repo: false };
                assert(git_walk(cwd@, seen, told, r.is_git_repo));
                return r;
            },
            GitWalkStep::Up(parent) => {
                proof {
                    let told = answers.push(false);
                    assert forall|i: int| 0 <= i < seen.len() - 1 implies parent_path(#[trigger] seen[i])
                        == Some(seen[i + 1]) by {
                        if i + 1 < dirs.len() {
                            assert(parent_path(dirs[i]) == Some(dirs[i + 1]));
                        }
                    }
                    dirs = seen;
                    answers = told;
                }
                dir = parent;
            },
        }
    }
}

} // verus!
