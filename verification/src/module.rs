//! Modules: compilation units identified by a package and a path of
//! directory names within it.
//!
//! Paths are value types here: a path is its sequence of component names.
//! Finding the package that surrounds a file and checking which candidate
//! file exists need the file system and stay with the embedder; everything
//! here is a pure function of its arguments.

use crate::strings::chars_to_string;
use vstd::prelude::*;

verus! {

/// Where a package lives: managed packages are found by name inside the
/// packages directory, user packages are their own absolute root, and
/// anonymous packages have no place on disk at all.
#[derive(Debug, PartialEq, Eq, Clone, Hash, PartialOrd, Ord)]
pub enum Package {
    Managed(String),
    User(Vec<String>),
    Anonymous(String),
}

#[derive(Debug, PartialEq, Eq, Clone, Hash, PartialOrd, Ord)]
pub enum ModuleKind {
    Code,
    Asset,
}

#[derive(Debug, PartialEq, Eq, Clone, Hash, PartialOrd, Ord)]
pub struct Module {
    pub package: Package,
    pub path: Vec<String>,
    pub kind: ModuleKind,
}

#[derive(Debug, PartialEq, Eq, Clone)]
pub enum ModuleFromPathError {
    NotFound(Vec<String>),
    NotInPackage(Vec<String>),
}

/// The directory of a package, as path components: `None` for anonymous
/// packages, which live nowhere.
pub open spec fn spec_package_root(package: Package, packages_path: Seq<Seq<char>>) -> Option<
    Seq<Seq<char>>,
> {
    match package {
        Package::Managed(name) => Some(packages_path.push(name@)),
        Package::User(path) => Some(path.deep_view()),
        Package::Anonymous(_) => None,
    }
}

/// The suffix every code module's file name carries.
pub open spec fn candy_extension() -> Seq<char> {
    seq!['.', 'c', 'a', 'n', 'd', 'y']
}

pub open spec fn ends_with_candy(name: Seq<char>) -> bool {
    name.len() >= 6 && name.subrange(name.len() - 6, name.len() as int) == candy_extension()
}

/// `path` with the candy extension appended to its last component; an
/// empty path stays as it is.
pub open spec fn with_candy_extension(path: Seq<Seq<char>>) -> Seq<Seq<char>> {
    if path.len() == 0 {
        path
    } else {
        path.drop_last().push(path.last() + candy_extension())
    }
}

impl Package {
    /// The package's directory inside the given packages directory.
    pub fn to_path(&self, packages_path: &Vec<String>) -> (r: Option<Vec<String>>)
        ensures
            match r {
                Some(p) => spec_package_root(*self, packages_path.deep_view()) == Some(
                    p.deep_view(),
                ),
                None => spec_package_root(*self, packages_path.deep_view()) is None,
            },
    {
        match self {
            Package::Managed(name) => {
                let mut p = packages_path.clone();
                p.push(name.clone());
                proof {
                    assert(p.deep_view() =~= packages_path.deep_view().push(name@));
                }
                Some(p)
            },
            Package::User(path) => {
                let p = path.clone();
                proof {
                    assert(p.deep_view() =~= path.deep_view());
                }
                Some(p)
            },
            Package::Anonymous(_) => None,
        }
    }
}

impl Module {
    /// The root code module of the managed package with the given name.
    pub fn from_package_name(name: String) -> (r: Self)
        ensures
            r.package == Package::Managed(name),
            r.path@.len() == 0,
            r.kind == ModuleKind::Code,
    {
        Module { package: Package::Managed(name), path: Vec::new(), kind: ModuleKind::Code }
    }

    /// The files a module may live in: an asset module is its path itself;
    /// a code module is either the `_.candy` file inside its directory or
    /// the file named after its last path component. `None` for modules of
    /// anonymous packages.
    pub fn to_possible_paths(&self, packages_path: &Vec<String>) -> (r: Option<Vec<Vec<String>>>)
        ensures
            match r {
                Some(paths) => {
                    let root = spec_package_root(self.package, packages_path.deep_view())->Some_0;
                    let dir = root + self.path.deep_view();
                    &&& spec_package_root(self.package, packages_path.deep_view()) is Some
                    &&& match self.kind {
                        ModuleKind::Asset => paths.deep_view() =~= seq![dir],
                        ModuleKind::Code => paths.deep_view() =~= seq![
                            dir.push(seq!['_'] + candy_extension()),
                            with_candy_extension(dir),
                        ],
                    }
                },
                None => spec_package_root(self.package, packages_path.deep_view()) is None,
            },
    {
        let root = match self.package.to_path(packages_path) {
            Some(r) => r,
            None => { return None },
        };
        let mut dir = root;
        let mut i: usize = 0;
        while i < self.path.len()
            invariant
                i <= self.path@.len(),
                dir.deep_view() =~= spec_package_root(
                    self.package,
                    packages_path.deep_view(),
                )->Some_0 + self.path.deep_view().subrange(0, i as int),
            decreases self.path@.len() - i,
        {
            let ghost before = dir.deep_view();
            dir.push(self.path[i].clone());
            proof {
                assert(dir.deep_view() =~= before.push(self.path@[i as int]@));
                assert(self.path.deep_view().subrange(0, i + 1) =~= self.path.deep_view().subrange(
                    0,
                    i as int,
                ).push(self.path@[i as int]@));
            }
            i = i + 1;
        }
        proof {
            assert(self.path.deep_view().subrange(0, self.path@.len() as int)
                =~= self.path.deep_view());
        }
        match self.kind {
            ModuleKind::Asset => {
                let mut paths: Vec<Vec<String>> = Vec::new();
                paths.push(dir);
                proof {
                    assert(paths.deep_view() =~= seq![
                        spec_package_root(self.package, packages_path.deep_view())->Some_0
                            + self.path.deep_view(),
                    ]);
                }
                Some(paths)
            },
            ModuleKind::Code => {
                let mut inner = dir.clone();
                inner.push(string_from_str("_.candy"));
                proof {
                    reveal_strlit("_.candy");
                    assert("_.candy"@ =~= seq!['_'] + candy_extension());
                    assert(inner.deep_view() =~= dir.deep_view().push(
                        seq!['_'] + candy_extension(),
                    ));
                }
                let mut named = dir.clone();
                if named.len() > 0 {
                    let last = named.pop();
                    let mut extended = match last {
                        Some(l) => l,
                        None => String::new(),
                    };
                    extended.append(candy_extension_str().as_str());
                    named.push(extended);
                    proof {
                        assert(named.deep_view() =~= with_candy_extension(dir.deep_view()));
                    }
                } else {
                    proof {
                        assert(named.deep_view() =~= with_candy_extension(dir.deep_view()));
                    }
                }
                let mut paths: Vec<Vec<String>> = Vec::new();
                paths.push(inner);
                paths.push(named);
                proof {
                    assert(paths.deep_view() =~= seq![
                        dir.deep_view().push(seq!['_'] + candy_extension()),
                        with_candy_extension(dir.deep_view()),
                    ]);
                }
                Some(paths)
            },
        }
    }
}

/// The candy extension as text.
fn candy_extension_str() -> (r: String)
    ensures
        r@ == candy_extension(),
{
    let mut v: Vec<char> = Vec::new();
    v.push('.');
    v.push('c');
    v.push('a');
    v.push('n');
    v.push('d');
    v.push('y');
    proof {
        assert(v@ =~= candy_extension());
    }
    chars_to_string(v.as_slice())
}

fn string_from_str(s: &str) -> (r: String)
    ensures
        r@ == s@,
{
    <String as vstd::string::StringExecFns>::from_str(s)
}


/// Whether `path` starts with all of `root`'s components.
pub open spec fn starts_with_components(path: Seq<Seq<char>>, root: Seq<Seq<char>>) -> bool {
    root.len() <= path.len() && (forall|i: int| 0 <= i < root.len() ==> path[i] == root[i])
}

/// The module path for a relative file path: a code module's file name
/// loses the candy extension, and a `_` file stands for its directory.
pub open spec fn module_path_of(relative: Seq<Seq<char>>, kind: ModuleKind) -> Seq<Seq<char>> {
    if kind == ModuleKind::Code && relative.len() > 0 {
        let stem = relative.last().subrange(0, relative.last().len() - 6);
        if stem =~= seq!['_'] {
            relative.drop_last()
        } else {
            relative.drop_last().push(stem)
        }
    } else {
        relative
    }
}

impl Module {
    /// The module living at an absolute path that is known to lie in the
    /// given package. The path must be canonical, and a code module's file
    /// must carry the candy extension.
    #[verifier::loop_isolation(false)]
    pub fn from_package_and_path(
        packages_path: &Vec<String>,
        package: Package,
        path: &Vec<String>,
        kind: ModuleKind,
    ) -> (r: Result<Module, ModuleFromPathError>)
        requires
            spec_package_root(package, packages_path.deep_view()) is Some,
            ({
                let root = spec_package_root(package, packages_path.deep_view())->Some_0;
                kind == ModuleKind::Code && starts_with_components(path.deep_view(), root)
                    && path.deep_view().len() > root.len() ==> ends_with_candy(
                    path.deep_view().last(),
                )
            }),
        ensures
            ({
                let root = spec_package_root(package, packages_path.deep_view())->Some_0;
                match r {
                    Ok(m) => starts_with_components(path.deep_view(), root) && m.kind == kind
                        && m.path.deep_view() == module_path_of(
                        path.deep_view().subrange(root.len() as int, path.deep_view().len() as int),
                        kind,
                    ),
                    Err(e) => !starts_with_components(path.deep_view(), root) && (e matches
                        ModuleFromPathError::NotInPackage(p) && p.deep_view() == path.deep_view()),
                }
            }),
    {
        let root = match package.to_path(packages_path) {
            Some(r) => r,
            None => vstd::pervasive::unreached(),
        };
        let ghost root_dv = root.deep_view();
        proof {
            assert(root.deep_view().len() == root@.len());
            assert(path.deep_view().len() == path@.len());
        }
        if root.len() > path.len() {
            let copy = path.clone();
            proof {
                assert(copy.deep_view() =~= path.deep_view());
                assert(spec_package_root(package, packages_path.deep_view()) == Some(
                    root.deep_view(),
                ));
                assert(root.deep_view().len() > path.deep_view().len());
                assert(!starts_with_components(path.deep_view(), root.deep_view()));
            }
            return Err(ModuleFromPathError::NotInPackage(copy));
        }
        let mut i: usize = 0;
        while i < root.len()
            invariant
                i <= root@.len() <= path@.len(),
                root.deep_view() == root_dv,
                forall|j: int| 0 <= j < i ==> path.deep_view()[j] == root_dv[j],
            decreases root@.len() - i,
        {
            if !crate::strings::str_eq(path[i].as_str(), root[i].as_str()) {
                let copy = path.clone();
                proof {
                    assert(path.deep_view()[i as int] == path@[i as int]@);
                    assert(root_dv[i as int] == root@[i as int]@);
                    assert(copy.deep_view() =~= path.deep_view());
                    assert(spec_package_root(package, packages_path.deep_view()) == Some(root_dv));
                    assert(path.deep_view()[i as int] != root_dv[i as int]);
                    assert(!starts_with_components(path.deep_view(), root_dv));
                }
                return Err(ModuleFromPathError::NotInPackage(copy));
            }
            proof {
                assert(path.deep_view()[i as int] == path@[i as int]@);
                assert(root_dv[i as int] == root@[i as int]@);
            }
            i = i + 1;
        }
        let mut relative: Vec<String> = Vec::new();
        let mut j = root.len();
        while j < path.len()
            invariant
                root@.len() <= j <= path@.len(),
                relative.deep_view() =~= path.deep_view().subrange(root@.len() as int, j as int),
            decreases path@.len() - j,
        {
            let ghost before = relative.deep_view();
            relative.push(path[j].clone());
            proof {
                assert(relative.deep_view() =~= before.push(path@[j as int]@));
                assert(path.deep_view().subrange(root@.len() as int, j + 1)
                    =~= path.deep_view().subrange(root@.len() as int, j as int).push(
                    path.deep_view()[j as int],
                ));
            }
            j = j + 1;
        }
        let ghost relative_dv = relative.deep_view();
        let is_code = match kind {
            ModuleKind::Code => true,
            ModuleKind::Asset => false,
        };
        if is_code && relative.len() > 0 {
            let last = match relative.pop() {
                Some(l) => l,
                None => vstd::pervasive::unreached(),
            };
            let last_chars = crate::strings::str_to_chars(last.as_str());
            proof {
                assert(last@ == relative_dv.last());
            }
            let stem_chars = vstd::slice::slice_subrange(
                last_chars.as_slice(),
                0,
                last_chars.len() - 6,
            );
            let stem = crate::strings::chars_to_string(stem_chars);
            let is_directory_file = crate::strings::str_eq(stem.as_str(), "_");
            proof {
                reveal_strlit("_");
                assert("_"@ =~= seq!['_']);
            }
            if !is_directory_file {
                let ghost after_pop = relative.deep_view();
                relative.push(stem);
                proof {
                    assert(relative.deep_view() =~= after_pop.push(
                        relative_dv.last().subrange(0, relative_dv.last().len() - 6),
                    ));
                    assert(after_pop =~= relative_dv.drop_last());
                    assert(relative.deep_view() =~= module_path_of(relative_dv, kind));
                }
            } else {
                proof {
                    assert(relative.deep_view() =~= relative_dv.drop_last());
                    assert(relative.deep_view() =~= module_path_of(relative_dv, kind));
                }
            }
        } else {
            proof {
                assert(relative.deep_view() =~= module_path_of(relative_dv, kind));
            }
        }
        Ok(Module { package, path: relative, kind })
    }

    /// The module living at an absolute, canonical path, given the answer
    /// of the package search around that path: a path outside every known
    /// package belongs to its own user package.
    pub fn from_path(
        packages_path: &Vec<String>,
        path: &Vec<String>,
        kind: ModuleKind,
        surrounding_package: Option<Package>,
    ) -> (r: Result<Module, ModuleFromPathError>)
        requires
            ({
                let package = match surrounding_package {
                    Some(p) => p,
                    None => Package::User(*path),
                };
                &&& spec_package_root(package, packages_path.deep_view()) is Some
                &&& ({
                    let root = spec_package_root(package, packages_path.deep_view())->Some_0;
                    kind == ModuleKind::Code && starts_with_components(path.deep_view(), root)
                        && path.deep_view().len() > root.len() ==> ends_with_candy(
                        path.deep_view().last(),
                    )
                })
            }),
        ensures
            ({
                let package = match surrounding_package {
                    Some(p) => p,
                    None => Package::User(*path),
                };
                let root = spec_package_root(package, packages_path.deep_view())->Some_0;
                match r {
                    Ok(m) => starts_with_components(path.deep_view(), root) && m.kind == kind
                        && m.path.deep_view() == module_path_of(
                        path.deep_view().subrange(root.len() as int, path.deep_view().len() as int),
                        kind,
                    ),
                    Err(e) => !starts_with_components(path.deep_view(), root) && (e matches
                        ModuleFromPathError::NotInPackage(p) && p.deep_view() == path.deep_view()),
                }
            }),
    {
        let package = match surrounding_package {
            Some(p) => p,
            None => {
                let copy = path.clone();
                proof {
                    assert(copy.deep_view() =~= path.deep_view());
                    assert(spec_package_root(Package::User(copy), packages_path.deep_view())
                        == spec_package_root(Package::User(*path), packages_path.deep_view()));
                }
                Package::User(copy)
            },
        };
        Self::from_package_and_path(packages_path, package, path, kind)
    }
}

/// A copy of a string vector equal to its source, character for
/// character.
fn clone_string_vec(v: &Vec<String>) -> (r: Vec<String>)
    ensures
        r.deep_view() == v.deep_view(),
        r@.len() == v@.len(),
{
    let mut out: Vec<String> = Vec::new();
    let mut i: usize = 0;
    while i < v.len()
        invariant
            i <= v@.len(),
            out@.len() == i,
            forall|j: int| 0 <= j < i ==> (#[trigger] out@[j])@ == v@[j]@,
        decreases v@.len() - i,
    {
        out.push(v[i].clone());
        i = i + 1;
    }
    proof {
        assert(out.deep_view() =~= v.deep_view());
    }
    out
}

impl Module {
    /// A copy equal to the module, character for character.
    pub fn duplicate(&self) -> (r: Module)
        ensures
            crate::vm::module_like(r, *self),
    {
        let package = match &self.package {
            Package::Managed(name) => Package::Managed(name.clone()),
            Package::User(path) => Package::User(clone_string_vec(path)),
            Package::Anonymous(key) => Package::Anonymous(key.clone()),
        };
        let kind = match self.kind {
            ModuleKind::Code => ModuleKind::Code,
            ModuleKind::Asset => ModuleKind::Asset,
        };
        Module { package, path: clone_string_vec(&self.path), kind }
    }
}

} // verus!
