use vstd::prelude::*;
use crate::order::{
    is_sorted_arrangement_of, lemma_sorted_arrangement_unique, same_text, sort_texts, texts,
};

verus! {

/// The name of the manifest file that marks a directory as a Rust project.
pub const MANIFEST_FILE: &'static str = "Cargo.toml";

/// The entry that stands for the workspace root in a directory list.
pub open spec fn root_marker() -> Seq<char> {
    "."@
}

/// One project declared in the workspace's tree configuration.
pub struct ConfigEntry {
    /// The project's name, which is also its path when no path is given.
    pub name: String,
    /// The project's path relative to the workspace root, when it differs
    /// from its name.
    pub path: Option<String>,
}

/// What loading the workspace's tree configuration gave.
pub enum TreeConfig {
    /// There is no configuration file at the workspace root.
    Absent,
    /// The file exists but could not be read as a configuration; the text
    /// says why.
    Malformed(String),
    /// The projects that the file declares.
    Projects(Vec<ConfigEntry>),
}

/// Why the candidate directories could not be resolved.
pub enum ResolveError {
    /// The tree configuration exists but is malformed.
    MalformedConfig(String),
}

/// The relative path of a configured project.
pub open spec fn entry_path(e: ConfigEntry) -> Seq<char> {
    match e.path {
        Some(p) => p@,
        None => e.name@,
    }
}

/// The relative paths of configured projects, in the order given.
pub open spec fn entry_paths(es: Seq<ConfigEntry>) -> Seq<Seq<char>> {
    es.map_values(|e: ConfigEntry| entry_path(e))
}

/// The relative paths of the configured projects, in the order given.
fn config_paths(entries: &Vec<ConfigEntry>) -> (r: Vec<String>)
    ensures
        texts(r@) == entry_paths(entries@),
{
    let mut r: Vec<String> = Vec::new();
    let mut i: usize = 0;
    while i < entries.len()
        invariant
            i <= entries.len(),
            r@.len() == i,
            forall|k: int| 0 <= k < i ==> #[trigger] r@[k]@ == entry_path(entries@[k]),
        decreases entries.len() - i,
    {
        let e = &entries[i];
        let p = match &e.path {
            Some(p) => p.clone(),
            None => e.name.clone(),
        };
        r.push(p);
        i = i + 1;
    }
    assert(texts(r@) =~= entry_paths(entries@));
    r
}

/// The candidate directories of the workspace, the root first.
///
/// A non-empty `provided` list is the host's own discovery and is taken as
/// it stands. Otherwise the projects of the tree configuration are used,
/// in lexicographic order; without a configuration only the root remains.
pub fn resolve_directories(provided: &[String], config: &TreeConfig) -> (r: Result<
    Vec<String>,
    ResolveError,
>)
    ensures
        provided@.len() > 0 ==> (r matches Ok(d) && texts(d@) == seq![root_marker()] + texts(
            provided@,
        )),
        provided@.len() == 0 && config is Absent ==> (r matches Ok(d) && texts(d@) == seq![
            root_marker(),
        ]),
        provided@.len() == 0 && config is Malformed ==> (r matches Err(
            ResolveError::MalformedConfig(m),
        ) && m@ == config->Malformed_0@),
        provided@.len() == 0 && config is Projects ==> (r matches Ok(d) && texts(d@).len() > 0
            && texts(d@)[0] == root_marker() && is_sorted_arrangement_of(
            texts(d@).drop_first(),
            entry_paths(config->Projects_0@),
        )),
{
    let mut dirs: Vec<String> = Vec::new();
    dirs.push(".".to_owned());
    if provided.len() > 0 {
        let mut i: usize = 0;
        while i < provided.len()
            invariant
                i <= provided@.len(),
                dirs@.len() == i + 1,
                dirs@[0]@ == root_marker(),
                forall|k: int| 0 <= k < i ==> #[trigger] dirs@[k + 1]@ == provided@[k]@,
            decreases provided@.len() - i,
        {
            dirs.push(provided[i].clone());
            i = i + 1;
        }
        assert forall|k: int| 1 <= k < dirs@.len() implies #[trigger] texts(dirs@)[k] == texts(
            provided@,
        )[k - 1] by {
            assert(dirs@[(k - 1) + 1]@ == provided@[k - 1]@);
        }
        assert(texts(dirs@) =~= seq![root_marker()] + texts(provided@));
        return Ok(dirs);
    }
    match config {
        TreeConfig::Absent => {
            assert(texts(dirs@) =~= seq![root_marker()]);
            Ok(dirs)
        },
        TreeConfig::Malformed(m) => Err(ResolveError::MalformedConfig(m.clone())),
        TreeConfig::Projects(entries) => {
            let sorted = sort_texts(&config_paths(entries));
            let mut i: usize = 0;
            while i < sorted.len()
                invariant
                    i <= sorted@.len(),
                    dirs@.len() == i + 1,
                    dirs@[0]@ == root_marker(),
                    forall|k: int| 0 <= k < i ==> #[trigger] dirs@[k + 1]@ == sorted@[k]@,
                decreases sorted@.len() - i,
            {
                dirs.push(sorted[i].clone());
                i = i + 1;
            }
            assert forall|k: int| 0 <= k < sorted@.len() implies #[trigger] texts(dirs@).drop_first()[k]
                == texts(sorted@)[k] by {
                assert(dirs@[k + 1]@ == sorted@[k]@);
            }
            assert(texts(dirs@).drop_first() =~= texts(sorted@));
            Ok(dirs)
        },
    }
}

/// Directories resolved from a configuration are fully determined by it:
/// two lists that each hold the root and then the configured paths in
/// lexicographic order are equal.
pub proof fn lemma_configured_resolution_determined(
    d1: Seq<Seq<char>>,
    d2: Seq<Seq<char>>,
    entries: Seq<ConfigEntry>,
)
    requires
        d1.len() > 0 && d1[0] == root_marker(),
        d2.len() > 0 && d2[0] == root_marker(),
        is_sorted_arrangement_of(d1.drop_first(), entry_paths(entries)),
        is_sorted_arrangement_of(d2.drop_first(), entry_paths(entries)),
    ensures
        d1 == d2,
{
    lemma_sorted_arrangement_unique(d1.drop_first(), d2.drop_first(), entry_paths(entries));
    assert(d1 =~= seq![d1[0]] + d1.drop_first());
    assert(d2 =~= seq![d2[0]] + d2.drop_first());
}

/// Where the manifest of a candidate directory lies, relative to the
/// workspace root.
pub open spec fn manifest_path_of(dir: Seq<char>) -> Seq<char> {
    if dir == root_marker() {
        MANIFEST_FILE@
    } else {
        dir + "/"@ + MANIFEST_FILE@
    }
}

/// The path, relative to the workspace root, whose existence marks `dir`
/// as a Rust project.
pub fn manifest_path(dir: &str) -> (r: String)
    ensures
        r@ == manifest_path_of(dir@),
{
    if same_text(dir, ".") {
        MANIFEST_FILE.to_owned()
    } else {
        let mut p = dir.to_owned();
        p.append("/");
        p.append(MANIFEST_FILE);
        p
    }
}

/// The directories of `dirs` whose flag in `present` is set, in their order.
pub open spec fn kept(dirs: Seq<Seq<char>>, present: Seq<bool>) -> Seq<Seq<char>>
    decreases dirs.len(),
{
    if dirs.len() == 0 {
        seq![]
    } else {
        let rest = kept(dirs.drop_last(), present.take(dirs.len() - 1));
        if present[dirs.len() - 1] {
            rest.push(dirs.last())
        } else {
            rest
        }
    }
}

/// Filtering is a pure predicate on each directory: a directory is kept
/// exactly when some occurrence of it in the list has its manifest present.
pub proof fn lemma_kept_membership(dirs: Seq<Seq<char>>, present: Seq<bool>, d: Seq<char>)
    requires
        dirs.len() == present.len(),
    ensures
        kept(dirs, present).contains(d) <==> exists|i: int|
            0 <= i < dirs.len() && #[trigger] dirs[i] == d && present[i],
    decreases dirs.len(),
{
    if dirs.len() > 0 {
        let n = dirs.len() - 1;
        let pre = dirs.drop_last();
        let flags = present.take(n);
        let rest = kept(pre, flags);
        lemma_kept_membership(pre, flags, d);
        assert(kept(dirs, present) == if present[n] { rest.push(dirs[n]) } else { rest });
        assert forall|i: int| 0 <= i < n implies #[trigger] dirs[i] == pre[i] && present[i] == flags[i] by {}
        if kept(dirs, present).contains(d) {
            if !rest.contains(d) {
                assert(present[n]);
                let k = choose|k: int| 0 <= k < rest.len() + 1 && #[trigger] rest.push(dirs[n])[k] == d;
                assert(k == rest.len());
                assert(dirs[n] == d && present[n]);
            } else {
                let i = choose|i: int| 0 <= i < pre.len() && #[trigger] pre[i] == d && flags[i];
                assert(dirs[i] == d && present[i]);
            }
        }
        if exists|i: int| 0 <= i < dirs.len() && #[trigger] dirs[i] == d && present[i] {
            let i = choose|i: int| 0 <= i < dirs.len() && #[trigger] dirs[i] == d && present[i];
            if i < n {
                assert(pre[i] == d && flags[i]);
                assert(rest.contains(d));
                let k = choose|k: int| 0 <= k < rest.len() && #[trigger] rest[k] == d;
                if present[n] {
                    assert(rest.push(dirs[n])[k] == d);
                }
            } else {
                assert(rest.push(d)[rest.len() as int] == d);
            }
            assert(kept(dirs, present).contains(d));
        }
    }
}

/// The candidate directories that are Rust projects: those whose manifest
/// was found, `present[i]` telling whether that of `dirs[i]` exists.
pub fn filter_projects(dirs: &[String], present: &[bool]) -> (r: Vec<String>)
    requires
        dirs@.len() == present@.len(),
    ensures
        texts(r@) == kept(texts(dirs@), present@),
        forall|d: Seq<char>| #[trigger] texts(r@).contains(d) <==> exists|i: int|
            0 <= i < dirs@.len() && #[trigger] dirs@[i]@ == d && present@[i],
{
    let mut r: Vec<String> = Vec::new();
    let mut i: usize = 0;
    while i < dirs.len()
        invariant
            i <= dirs@.len(),
            dirs@.len() == present@.len(),
            texts(r@) =~= kept(texts(dirs@.take(i as int)), present@.take(i as int)),
        decreases dirs@.len() - i,
    {
        let ghost before = texts(r@);
        assert(texts(dirs@.take(i + 1)).drop_last() =~= texts(dirs@.take(i as int)));
        assert(present@.take(i + 1).take(i as int) =~= present@.take(i as int));
        if present[i] {
            r.push(dirs[i].clone());
            assert(texts(r@) =~= before.push(dirs@[i as int]@));
        }
        i = i + 1;
    }
    assert(dirs@.take(dirs@.len() as int) =~= dirs@);
    assert(present@.take(present@.len() as int) =~= present@);
    assert forall|d: Seq<char>| #[trigger] texts(r@).contains(d) <==> exists|i: int|
        0 <= i < dirs@.len() && #[trigger] dirs@[i]@ == d && present@[i] by {
        lemma_kept_membership(texts(dirs@), present@, d);
        if exists|i: int| 0 <= i < dirs@.len() && #[trigger] dirs@[i]@ == d && present@[i] {
            let i = choose|i: int| 0 <= i < dirs@.len() && #[trigger] dirs@[i]@ == d && present@[i];
            assert(texts(dirs@)[i] == d);
        }
    }
    r
}

} // verus!
