//! Decisions on Scarb dependencies and the directories of its cache.
use vstd::prelude::*;
use vstd::string::StringExecFns;

use crate::text::{occurs_at, starts_with, str_equals};

verus! {

/// Library information from `Scarb.toml`: the name and the revision are
/// enough to find the library in the cache directory of Scarb.
#[derive(Debug)]
pub struct LibInfo {
    pub name: String,
    pub rev: String,
}

/// One entry of the `dependencies` table of `Scarb.toml`.
pub struct Dependency {
    pub name: String,
    /// Whether the entry is a table.
    pub is_table: bool,
    /// Whether the table has a `git` key.
    pub has_git: bool,
    /// The `rev` of the table, where it is a string.
    pub rev: Option<String>,
}

/// The libraries of the git dependencies, in order, with an empty revision
/// where none is given.
pub open spec fn libs_of(deps: Seq<Dependency>) -> Seq<(Seq<char>, Seq<char>)>
    decreases deps.len(),
{
    if deps.len() == 0 {
        seq![]
    } else {
        let prev = libs_of(deps.drop_last());
        let d = deps.last();
        if d.is_table && d.has_git {
            prev.push(
                (
                    d.name@,
                    match d.rev {
                        Some(r) => r@,
                        None => Seq::<char>::empty(),
                    },
                ),
            )
        } else {
            prev
        }
    }
}

pub open spec fn lib_infos_view(v: Seq<LibInfo>) -> Seq<(Seq<char>, Seq<char>)> {
    v.map_values(|l: LibInfo| (l.name@, l.rev@))
}

/// Collects the libraries of the dependencies that come from a git
/// repository.
pub fn libs_from_dependencies(deps: &Vec<Dependency>) -> (r: Vec<LibInfo>)
    ensures
        lib_infos_view(r@) == libs_of(deps@),
{
    let mut libs: Vec<LibInfo> = Vec::new();
    let mut i: usize = 0;
    assert(lib_infos_view(libs@) =~= libs_of(deps@.subrange(0, 0)));
    while i < deps.len()
        invariant
            i <= deps@.len(),
            lib_infos_view(libs@) == libs_of(deps@.subrange(0, i as int)),
        decreases deps@.len() - i,
    {
        let d = &deps[i];
        assert(deps@.subrange(0, i + 1).drop_last() == deps@.subrange(0, i as int));
        if d.is_table && d.has_git {
            let rev = match &d.rev {
                Some(r) => r.clone(),
                None => String::new(),
            };
            let ghost before = libs@;
            libs.push(LibInfo { name: d.name.clone(), rev });
            assert(lib_infos_view(libs@) =~= lib_infos_view(before).push((d.name@, rev@)));
        }
        i = i + 1;
    }
    assert(deps@.subrange(0, deps@.len() as int) == deps@);
    libs
}

/// The prefix of the cache directories of a library: its name and `-`.
pub fn library_dir_prefix(name: &str) -> (r: String)
    ensures
        r@ == name@ + "-"@,
{
    String::from_str(name).concat("-")
}

/// Whether a directory entry is one of the library's: with no prefix every
/// entry is; else a directory whose name starts with the prefix.
pub fn is_library_entry(file_name: &str, is_dir: bool, prefix: &str) -> (r: bool)
    ensures
        r == (prefix@.len() == 0 || (is_dir && occurs_at(file_name@, prefix@, 0))),
{
    if prefix.is_empty() {
        true
    } else {
        is_dir && starts_with(file_name, prefix)
    }
}

/// The position of the most recently modified entry: on a tie, the last of
/// them where `last_on_tie` holds, else the first.
pub fn newest_index(times: &Vec<u128>, last_on_tie: bool) -> (r: Option<usize>)
    ensures
        r is None <==> times@.len() == 0,
        r matches Some(i) ==> {
            &&& i < times@.len()
            &&& forall|j: int| 0 <= j < times@.len() ==> times@[j] <= times@[i as int]
            &&& last_on_tie ==> forall|j: int| i < j < times@.len() ==> times@[j] < times@[i as int]
            &&& !last_on_tie ==> forall|j: int| 0 <= j < i ==> times@[j] < times@[i as int]
        },
{
    if times.len() == 0 {
        return None;
    }
    let mut best: usize = 0;
    let mut i: usize = 1;
    while i < times.len()
        invariant
            1 <= i <= times@.len(),
            best < i,
            forall|j: int| 0 <= j < i ==> times@[j] <= times@[best as int],
            last_on_tie ==> forall|j: int| best < j < i ==> times@[j] < times@[best as int],
            !last_on_tie ==> forall|j: int| 0 <= j < best ==> times@[j] < times@[best as int],
        decreases times@.len() - i,
    {
        if times[i] > times[best] || (last_on_tie && times[i] == times[best]) {
            best = i;
        }
        i = i + 1;
    }
    Some(best)
}

/// The position of the first cache directory that holds the wanted
/// revision, where a revision is given.
pub fn revision_dir_index(rev: &str, has_rev: &Vec<bool>) -> (r: Option<usize>)
    ensures
        rev@.len() == 0 ==> r is None,
        rev@.len() > 0 ==> match r {
            Some(i) => i < has_rev@.len() && has_rev@[i as int] && forall|j: int| 0 <= j < i ==> !has_rev@[j],
            None => forall|j: int| 0 <= j < has_rev@.len() ==> !has_rev@[j],
        },
{
    if rev.is_empty() {
        return None;
    }
    let mut i: usize = 0;
    while i < has_rev.len()
        invariant
            rev@.len() > 0,
            i <= has_rev@.len(),
            forall|j: int| 0 <= j < i ==> !has_rev@[j],
        decreases has_rev@.len() - i,
    {
        if has_rev[i] {
            return Some(i);
        }
        i = i + 1;
    }
    None
}

/// The root path of crate `name` among the `crate_roots` of a project file.
pub fn crate_root(roots: &Vec<(String, String)>, name: &str) -> (r: Option<String>)
    ensures
        r matches Some(p) ==> exists|i: int|
            0 <= i < roots@.len() && roots@[i].0@ == name@ && roots@[i].1@ == p@ && forall|j: int|
                0 <= j < i ==> roots@[j].0@ != name@,
        r is None ==> forall|j: int| 0 <= j < roots@.len() ==> roots@[j].0@ != name@,
{
    let mut i: usize = 0;
    while i < roots.len()
        invariant
            i <= roots@.len(),
            forall|j: int| 0 <= j < i ==> roots@[j].0@ != name@,
        decreases roots@.len() - i,
    {
        if str_equals(roots[i].0.as_str(), name) {
            return Some(roots[i].1.clone());
        }
        i = i + 1;
    }
    None
}

} // verus!
