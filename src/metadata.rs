use vstd::prelude::*;
use crate::version::Version;

verus! {

/// Kind of a declared dependency.
#[derive(Clone, Copy, Debug, PartialEq, Eq, Structural)]
pub enum DependencyKind {
    Normal,
    Development,
    Build,
    Unknown,
}

/// A dependency as declared in a package manifest.
///
/// `req` is the text of the version requirement; a dependency declared
/// without a version constraint carries `*`.
#[derive(Clone, Debug)]
pub struct Dependency {
    pub name: String,
    pub kind: DependencyKind,
    pub req: String,
}

/// A build target of a package, with its kinds (`lib`, `bin`, ...).
#[derive(Clone, Debug)]
pub struct Target {
    pub name: String,
    pub kind: Vec<String>,
}

/// One package of the metadata snapshot.
///
/// `publish` is `None` when every registry is allowed, and otherwise the
/// allow-set of registry names (empty: never published).
#[derive(Clone, Debug)]
pub struct Package {
    pub name: String,
    pub version: Version,
    pub dependencies: Vec<Dependency>,
    pub publish: Option<Vec<String>>,
    pub targets: Vec<Target>,
    pub manifest_path: String,
}

/// A node of the resolved dependency graph: a package and the packages it
/// depends on, all given by their index in [`Metadata::packages`].
#[derive(Clone, Debug)]
pub struct ResolveNode {
    pub id: usize,
    pub dependencies: Vec<usize>,
}

/// The workspace metadata snapshot. Packages are identified by their index in
/// `packages`.
#[derive(Clone, Debug)]
pub struct Metadata {
    pub packages: Vec<Package>,
    pub workspace_members: Vec<usize>,
    pub resolve: Option<Vec<ResolveNode>>,
}

impl Metadata {
    pub open spec fn num_packages(&self) -> int {
        self.packages@.len() as int
    }

    pub open spec fn is_member(&self, p: int) -> bool {
        self.workspace_members@.contains(p as usize) && 0 <= p < self.num_packages()
    }

    /// Package indices are in range, resolve nodes have distinct ids, and
    /// every workspace member has a resolve node.
    pub open spec fn wf(&self) -> bool {
        &&& forall|i: int|
            0 <= i < self.workspace_members@.len() ==> #[trigger] self.workspace_members@[i]
                < self.packages@.len()
        &&& self.resolve matches Some(nodes) ==> {
            &&& forall|k: int|
                0 <= k < nodes@.len() ==> #[trigger] nodes@[k].id < self.packages@.len()
            &&& forall|k: int, j: int|
                0 <= k < nodes@.len() && 0 <= j < nodes@[k].dependencies@.len()
                    ==> #[trigger] nodes@[k].dependencies@[j] < self.packages@.len()
            &&& forall|k1: int, k2: int|
                0 <= k1 < nodes@.len() && 0 <= k2 < nodes@.len() && k1 != k2
                    ==> #[trigger] nodes@[k1].id != #[trigger] nodes@[k2].id
            &&& forall|i: int|
                0 <= i < self.workspace_members@.len() ==> exists|k: int|
                    0 <= k < nodes@.len() && #[trigger] nodes@[k].id
                        == #[trigger] self.workspace_members@[i]
        }
    }

    /// `a` depends on `b` and both are workspace members.
    pub open spec fn workspace_edge(&self, a: int, b: int) -> bool {
        &&& self.is_member(a)
        &&& self.is_member(b)
        &&& self.resolve matches Some(nodes) && exists|k: int|
            0 <= k < nodes@.len() && #[trigger] nodes@[k].id == a as usize
                && nodes@[k].dependencies@.contains(b as usize)
    }

    /// There is no dependency cycle among workspace members: some ranking of
    /// the packages puts every dependency strictly below its dependent.
    pub open spec fn workspace_acyclic(&self) -> bool {
        exists|rank: Seq<nat>|
            rank.len() == self.num_packages() && forall|a: int, b: int|
                #[trigger] self.workspace_edge(a, b) ==> rank[b] < rank[a]
    }
}

} // verus!
