//! The package manifest of a compiled pipeline.
use vstd::prelude::*;
use crate::ast::Path;
use crate::deps::{
    DependencyConflict, DepsSet, base_deps, block_entries, dependencies, insert_all,
    keys_unique,
};

verus! {

#[derive(Debug, Clone, Copy, PartialEq, Eq, Hash, Structural)]
pub enum Edition {
    E2015,
    E2018,
    E2021,
}

#[derive(Debug, Clone, Copy, PartialEq, Eq, Hash, Structural)]
pub enum Resolver {
    V1,
    V2,
}

#[derive(Debug, Clone)]
pub struct Package {
    pub name: String,
    pub edition: Edition,
    pub version: String,
    pub publish: bool,
    pub resolver: Option<Resolver>,
}

/// The library target.
#[derive(Debug, Clone)]
pub struct Product {
    pub path: Option<String>,
    pub edition: Option<Edition>,
    pub crate_type: Option<Vec<String>>,
}

#[derive(Debug, Clone)]
pub struct Workspace {
    pub members: Vec<String>,
    pub default_members: Vec<String>,
    pub exclude: Vec<String>,
}

#[derive(Debug, Clone)]
pub struct Manifest {
    pub package: Option<Package>,
    pub lib: Option<Product>,
    pub dependencies: DepsSet,
    pub workspace: Option<Workspace>,
}

/// A package that is never published, at version `0.0.0`.
pub fn package(name: &str) -> (r: Package)
    ensures
        r.name@ == name@,
        r.edition == Edition::E2018,
        r.version@ == "0.0.0"@,
        !r.publish,
        r.resolver == Some(Resolver::V2),
{
    Package {
        name: String::from_str(name),
        edition: Edition::E2018,
        version: String::from_str("0.0.0"),
        publish: false,
        resolver: Some(Resolver::V2),
    }
}

fn single(s: &str) -> (r: Vec<String>)
    ensures
        r@.len() == 1 && r@[0]@ == s@,
{
    let mut r: Vec<String> = Vec::new();
    r.push(String::from_str(s));
    r
}

/// `m` is the manifest of a package named `name` whose dependencies are
/// `entries` added one after the other: never published, at version
/// `0.0.0`, a dynamically loadable library, in a workspace of its own.
pub open spec fn is_manifest(m: Manifest, name: Seq<char>, entries: Seq<(Seq<char>, crate::deps::DependencyModel)>) -> bool {
                &&& m.package is Some
                &&& m.package->0.name@ == name
                &&& m.package->0.version@ == "0.0.0"@
                &&& !m.package->0.publish
                &&& m.package->0.edition == Edition::E2018
                &&& m.package->0.resolver == Some(Resolver::V2)
                &&& m.lib is Some
                &&& crate::deps::opt_view(m.lib->0.path) == Some("lib.rs"@)
                &&& m.lib->0.crate_type is Some
                &&& m.lib->0.crate_type->0@.len() == 1
                &&& m.lib->0.crate_type->0@[0]@ == "cdylib"@
                &&& m.workspace is Some
                &&& m.workspace->0.members@.len() == 1
                &&& m.workspace->0.members@[0]@ == "."@
                &&& m.workspace->0.default_members@.len() == 1
                &&& m.workspace->0.default_members@[0]@ == "."@
                &&& m.workspace->0.exclude@.len() == 0
                &&& insert_all(Seq::empty(), entries)
                    == Ok::<Seq<(Seq<char>, crate::deps::DependencyModel)>, Seq<char>>(
                    m.dependencies@,
                )
                &&& keys_unique(m.dependencies@)
            }

/// The manifest of a compiled pipeline: a package that is never published,
/// a dynamically loadable library, a workspace of its own, and the
/// dependencies of the proc-blocks (see [`dependencies`]).
pub fn generate_manifest(proc_blocks: &Vec<(String, Path)>, name: &str, current_dir: &str) -> (r:
    Result<Manifest, DependencyConflict>)
    ensures
        match r {
            Ok(m) => is_manifest(m, name@, base_deps() + block_entries(proc_blocks@, current_dir@)),
            Err(e) => insert_all(Seq::empty(), base_deps() + block_entries(proc_blocks@, current_dir@))
                == Err::<Seq<(Seq<char>, crate::deps::DependencyModel)>, Seq<char>>(e.name@),
        },
{
    let deps = match dependencies(proc_blocks, current_dir) {
        Ok(d) => d,
        Err(e) => {
            return Err(e);
        },
    };
    let product = Product {
        path: Some(String::from_str("lib.rs")),
        edition: Some(Edition::E2018),
        crate_type: Some(single("cdylib")),
    };
    Ok(
        Manifest {
            package: Some(package(name)),
            lib: Some(product),
            dependencies: deps,
            workspace: Some(
                Workspace { members: single("."), default_members: single("."), exclude: Vec::new() },
            ),
        },
    )
}

} // verus!
