//! The identity of a repository: its normalized paths and the id derived from them.
use crate::attribution::patch_inference::texts;
use crate::contracts::GitBranch;
use crate::index::migrations::{checksum_spec, migration_checksum};
use crate::json::opt_text;
use crate::text::str_eq;
use vstd::prelude::*;
use vstd::string::{StrSliceExecFns, StringSliceAdditionalSpecFns};

verus! {

/// Where a repository lives and the id its index is stored under.
#[derive(Debug, Clone)]
pub struct RepositoryIdentity {
    pub repo_id: String,
    pub repo_root: String,
    pub git_common_dir: String,
}

/// A path written with `'/'` separators only and no trailing `'/'`.
pub open spec fn normalize_path_spec(s: Seq<char>) -> Seq<char> {
    trim_trailing_slashes(s.map_values(|c: char| if c == '\\' { '/' } else { c }))
}

/// `s` without its trailing `'/'` characters.
pub open spec fn trim_trailing_slashes(s: Seq<char>) -> Seq<char>
    decreases s.len(),
{
    if s.len() > 0 && s.last() == '/' {
        trim_trailing_slashes(s.drop_last())
    } else {
        s
    }
}

/// A path with `'/'` separators only and no trailing `'/'`.
pub fn normalize_path_text(path: &str) -> (s: String)
    ensures
        s@ == normalize_path_spec(path@),
{
    let chars = crate::text::chars_of(path);
    let mut mapped: Vec<char> = Vec::new();
    let mut i: usize = 0;
    while i < chars.len()
        invariant
            i <= chars@.len(),
            chars@ == path@,
            mapped@ == path@.take(i as int).map_values(|c: char| if c == '\\' { '/' } else { c }),
        decreases chars.len() - i,
    {
        let c = chars[i];
        mapped.push(if c == '\\' { '/' } else { c });
        assert(mapped@ =~= path@.take(i + 1).map_values(|c: char| if c == '\\' { '/' } else { c }));
        i += 1;
    }
    assert(path@.take(chars.len() as int) =~= path@);
    let ghost all = mapped@;
    let mut end: usize = mapped.len();
    assert(mapped@.take(end as int) =~= all);
    while end > 0 && mapped[end - 1] == '/'
        invariant
            end <= mapped@.len(),
            mapped@ == all,
            trim_trailing_slashes(all) == trim_trailing_slashes(all.take(end as int)),
        decreases end,
    {
        assert(all.take(end as int).drop_last() =~= all.take(end - 1));
        end -= 1;
    }
    crate::text::string_from_chars(&mapped, 0, end)
}

/// The id of a repository: the SHA-256 digest, in hexadecimal, of its root path, a NUL byte
/// and its common Git directory.
pub open spec fn repository_id_spec(root: Seq<u8>, common_dir: Seq<u8>) -> Seq<char> {
    checksum_spec(root + seq![0u8] + common_dir)
}

/// The id of a repository from its normalized root and common Git directory.
pub fn repository_id(repo_root: &str, git_common_dir: &str) -> (id: String)
    ensures
        id@ == repository_id_spec(repo_root.spec_bytes(), git_common_dir.spec_bytes()),
{
    let mut bytes = repo_root.as_bytes_vec();
    bytes.push(0u8);
    assert(bytes@ =~= repo_root.spec_bytes() + seq![0u8]);
    let tail = git_common_dir.as_bytes_vec();
    let mut i: usize = 0;
    let ghost head = bytes@;
    while i < tail.len()
        invariant
            i <= tail@.len(),
            bytes@ == head + tail@.take(i as int),
        decreases tail.len() - i,
    {
        bytes.push(tail[i]);
        assert(bytes@ =~= head + tail@.take(i + 1));
        i += 1;
    }
    assert(tail@.take(tail.len() as int) =~= tail@);
    assert(bytes@ =~= repo_root.spec_bytes() + seq![0u8] + git_common_dir.spec_bytes());
    migration_checksum(bytes.as_slice())
}

/// The local branches as listed: each name marked when it is the current branch, and the
/// current branch appended, marked, when no local branch has its name.
pub open spec fn branch_list_spec(names: Seq<Seq<char>>, current: Option<Seq<char>>) -> Seq<
    (Seq<char>, bool),
> {
    let listed = names.map_values(|n: Seq<char>| (n, current == Some(n)));
    match current {
        Some(c) => if names.contains(c) {
            listed
        } else {
            listed.push((c, true))
        },
        None => listed,
    }
}

/// The branch list from the local branch names and the current branch's name.
pub fn branch_list(names: Vec<String>, current: Option<String>) -> (branches: Vec<GitBranch>)
    ensures
        branches@.map_values(|b: GitBranch| (b.name@, b.current)) == branch_list_spec(
            texts(names@),
            opt_text(current),
        ),
{
    let ghost cur = opt_text(current);
    let mut branches: Vec<GitBranch> = Vec::new();
    let mut found = false;
    let mut i: usize = 0;
    while i < names.len()
        invariant
            i <= names@.len(),
            cur == opt_text(current),
            branches@.map_values(|b: GitBranch| (b.name@, b.current)) == texts(names@).take(
                i as int,
            ).map_values(|n: Seq<char>| (n, cur == Some(n))),
            found == (cur is Some && texts(names@).take(i as int).contains(cur->0)),
        decreases names.len() - i,
    {
        let is_current = match &current {
            Some(c) => str_eq(c.as_str(), names[i].as_str()),
            None => false,
        };
        let ghost before = branches@;
        branches.push(GitBranch { name: names[i].clone(), current: is_current });
        proof {
            let t = texts(names@);
            assert(t.take(i + 1) =~= t.take(i as int).push(t[i as int]));
            assert(branches@.map_values(|b: GitBranch| (b.name@, b.current)) =~= before.map_values(
                |b: GitBranch| (b.name@, b.current),
            ).push((t[i as int], cur == Some(t[i as int]))));
            assert(t.take(i + 1).map_values(|n: Seq<char>| (n, cur == Some(n))) =~= t.take(
                i as int,
            ).map_values(|n: Seq<char>| (n, cur == Some(n))).push((t[i as int], cur == Some(t[i as int]))));
            if cur is Some {
                let ti = t.take(i + 1);
                if ti.contains(cur->0) {
                    let k = choose|k: int| 0 <= k < ti.len() && #[trigger] ti[k] == cur->0;
                    if k < i {
                        assert(t.take(i as int)[k] == cur->0);
                    }
                }
                if is_current {
                    assert(t.take(i + 1)[i as int] == cur->0);
                }
            }
        }
        if is_current {
            found = true;
        }
        i += 1;
    }
    proof {
        assert(texts(names@).take(names@.len() as int) =~= texts(names@));
    }
    match current {
        Some(c) => {
            if !found {
                let ghost before = branches@;
                branches.push(GitBranch { name: c, current: true });
                assert(branches@.map_values(|b: GitBranch| (b.name@, b.current)) =~= before.map_values(
                    |b: GitBranch| (b.name@, b.current),
                ).push((cur->0, true)));
            }
        },
        None => {},
    }
    branches
}

} // verus!
