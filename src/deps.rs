//! Dependency paths (`base@version#sub_path`), how each one resolves to a
//! package dependency, and the set of dependencies a compiled pipeline needs.
use vstd::prelude::*;
use crate::ast::{Path, Span};
use crate::text::{find_first, lacks, lemma_find_first};
use crate::text;

verus! {

pub open spec fn opt_view(o: Option<String>) -> Option<Seq<char>> {
    match o {
        Some(s) => Some(s@),
        None => None,
    }
}

/// A path as plain text fields.
pub struct PathModel {
    pub base: Seq<char>,
    pub version: Option<Seq<char>>,
    pub sub_path: Option<Seq<char>>,
}

pub open spec fn path_model(p: &Path) -> PathModel {
    PathModel { base: p.base@, version: opt_view(p.version), sub_path: opt_view(p.sub_path) }
}

/// What is wrong with a path's text.
#[derive(Debug, Clone, Copy, PartialEq, Eq, Hash, Structural)]
pub enum PathErrorKind {
    EmptyBase,
    EmptyVersion,
    EmptySubPath,
    ExtraSeparator,
}

/// A path's text that does not follow `base@version#sub_path`.
#[derive(Debug, Clone, PartialEq, Eq)]
pub struct PathError {
    pub kind: PathErrorKind,
    pub found: String,
}

/// The parts of `s`: the text before the first `#` and after it; in the
/// first, the text before the first `@` and after it.
pub open spec fn parse_path(s: Seq<char>) -> Result<PathModel, PathErrorKind> {
    let (head, sub_path) = match find_first(s, '#') {
        None => (s, None::<Seq<char>>),
        Some(h) => (s.subrange(0, h), Some(s.subrange(h + 1, s.len() as int))),
    };
    let (base, version) = match find_first(head, '@') {
        None => (head, None::<Seq<char>>),
        Some(a) => (head.subrange(0, a), Some(head.subrange(a + 1, head.len() as int))),
    };
    if base.len() == 0 {
        Err(PathErrorKind::EmptyBase)
    } else if version == Some(Seq::<char>::empty()) {
        Err(PathErrorKind::EmptyVersion)
    } else if sub_path == Some(Seq::<char>::empty()) {
        Err(PathErrorKind::EmptySubPath)
    } else if (version is Some && !lacks(version->0, '@')) || (sub_path is Some && !lacks(
        sub_path->0,
        '#',
    )) {
        Err(PathErrorKind::ExtraSeparator)
    } else {
        Ok(PathModel { base, version, sub_path })
    }
}

impl Path {
    /// A copy of this path.
    pub fn copy(&self) -> (r: Path)
        ensures
            path_model(&r) == path_model(self),
            r.span == self.span,
    {
        Path {
            base: self.base.clone(),
            sub_path: copy_opt_string(&self.sub_path),
            version: copy_opt_string(&self.version),
            span: self.span,
        }
    }

    /// Reads `base@version#sub_path`, where `@version` and `#sub_path` may be
    /// left out.
    pub fn parse(s: &str, span: Span) -> (r: Result<Path, PathError>)
        ensures
            match r {
                Ok(p) => parse_path(s@) == Ok::<PathModel, PathErrorKind>(path_model(&p)) && p.span
                    == span,
                Err(e) => parse_path(s@) == Err::<PathModel, PathErrorKind>(e.kind) && e.found@
                    == s@,
            },
    {
        let v = text::chars_of(s);
        let n = v.len();
        assert(v@.subrange(0, n as int) =~= v@);
        proof {
            lemma_find_first(v@, '#');
        }
        let (head_end, sub) = match text::find_char(&v, 0, n, '#') {
            None => (n, None),
            Some(h) => (h, Some((h + 1, n))),
        };
        assert(v@.subrange(0, head_end as int).subrange(0, head_end as int) =~= v@.subrange(
            0,
            head_end as int,
        ));
        proof {
            lemma_find_first(v@.subrange(0, head_end as int), '@');
        }
        let (base_end, ver) = match text::find_char(&v, 0, head_end, '@') {
            None => (head_end, None),
            Some(a) => (a, Some((a + 1, head_end))),
        };
        assert(v@.subrange(0, head_end as int).subrange(0, base_end as int) =~= v@.subrange(
            0,
            base_end as int,
        ));
        proof {
            if let Some((a, b)) = ver {
                assert(v@.subrange(0, head_end as int).subrange(a as int, b as int)
                    =~= v@.subrange(a as int, b as int));
            }
        }
        proof {
            if let Some((a, b)) = sub {
                if a == b {
                    assert(v@.subrange(a as int, b as int) =~= Seq::<char>::empty());
                }
            }
            if let Some((a, b)) = ver {
                if a == b {
                    assert(v@.subrange(a as int, b as int) =~= Seq::<char>::empty());
                }
            }
        }
        let ver_empty = match ver {
            Some((a, b)) => a == b,
            None => false,
        };
        let sub_empty = match sub {
            Some((a, b)) => a == b,
            None => false,
        };
        let kind = if base_end == 0 {
            Some(PathErrorKind::EmptyBase)
        } else if ver_empty {
            Some(PathErrorKind::EmptyVersion)
        } else if sub_empty {
            Some(PathErrorKind::EmptySubPath)
        } else {
            let extra_at = match ver {
                Some((a, b)) => {
                    let f = text::find_char(&v, a, b, '@');
                    proof {
                        if let Some(i) = f {
                            assert(v@.subrange(a as int, b as int)[i - a] == '@');
                        }
                    }
                    f.is_some()
                },
                None => false,
            };
            let extra_hash = match sub {
                Some((a, b)) => {
                    let f = text::find_char(&v, a, b, '#');
                    proof {
                        if let Some(i) = f {
                            assert(v@.subrange(a as int, b as int)[i - a] == '#');
                        }
                    }
                    f.is_some()
                },
                None => false,
            };
            if extra_at || extra_hash {
                Some(PathErrorKind::ExtraSeparator)
            } else {
                None
            }
        };
        match kind {
            Some(kind) => Err(PathError { kind, found: text::string_of(&v, 0, n) }),
            None => {
                let base = text::string_of(&v, 0, base_end);
                let version = match ver {
                    Some((a, b)) => Some(text::string_of(&v, a, b)),
                    None => None,
                };
                let sub_path = match sub {
                    Some((a, b)) => Some(text::string_of(&v, a, b)),
                    None => None,
                };
                Ok(Path { base, sub_path, version, span })
            },
        }
    }
}


impl std::str::FromStr for Path {
    type Err = PathError;

    fn from_str(s: &str) -> Result<Path, PathError> {
        Path::parse(s, Span::new(0, 0))
    }
}

/// A dependency as plain text fields, the view of [`DependencyDetail`].
pub struct DependencyModel {
    pub version: Option<Seq<char>>,
    pub path: Option<Seq<char>>,
    pub git: Option<Seq<char>>,
    pub branch: Option<Seq<char>>,
    pub tag: Option<Seq<char>>,
    pub rev: Option<Seq<char>>,
    pub features: Seq<Seq<char>>,
}

pub open spec fn strings_view(v: Seq<String>) -> Seq<Seq<char>> {
    v.map_values(|s: String| s@)
}

/// Where one dependency comes from: a registry version, a local directory or
/// a git repository.
#[derive(Debug, Clone, PartialEq, Eq)]
pub struct DependencyDetail {
    pub version: Option<String>,
    pub path: Option<String>,
    pub git: Option<String>,
    pub branch: Option<String>,
    pub tag: Option<String>,
    pub rev: Option<String>,
    pub features: Vec<String>,
}

impl View for DependencyDetail {
    type V = DependencyModel;

    open spec fn view(&self) -> DependencyModel {
        DependencyModel {
            version: opt_view(self.version),
            path: opt_view(self.path),
            git: opt_view(self.git),
            branch: opt_view(self.branch),
            tag: opt_view(self.tag),
            rev: opt_view(self.rev),
            features: strings_view(self.features@),
        }
    }
}

pub open spec fn empty_dep() -> DependencyModel {
    DependencyModel {
        version: None,
        path: None,
        git: None,
        branch: None,
        tag: None,
        rev: None,
        features: Seq::empty(),
    }
}

pub open spec fn git_tagged(repo: Seq<char>, tag: Seq<char>) -> DependencyModel {
    DependencyModel { git: Some(repo), tag: Some(tag), ..empty_dep() }
}

/// The repository of the compiler's own builtin modules.
pub open spec fn repo() -> Seq<char> {
    "https://github.com/hotg-ai/rune"@
}

/// The dependency every builtin module resolves to.
pub open spec fn builtin_dep() -> DependencyModel {
    git_tagged(repo(), "nightly"@)
}

/// `rel` inside the directory `dir`, as `std::path::Path::join` writes a
/// relative path.
pub open spec fn join_dir(dir: Seq<char>, rel: Seq<char>) -> Seq<char> {
    if dir.len() == 0 {
        rel
    } else if dir.last() == '/' {
        dir + rel
    } else {
        dir + seq!['/'] + rel
    }
}

/// How a path resolves, with `dir` the directory the compile runs in.
pub open spec fn resolve(p: PathModel, dir: Seq<char>) -> DependencyModel {
    if p.base == "hotg-ai/rune"@ {
        builtin_dep()
    } else if p.base.len() > 0 && p.base[0] == '.' {
        DependencyModel { path: Some(join_dir(dir, p.base)), ..empty_dep() }
    } else if p.sub_path is None && lacks(p.base, '/') && p.version is Some {
        DependencyModel { version: p.version, ..empty_dep() }
    } else {
        DependencyModel {
            git: Some("https://github.com/"@ + p.base + ".git"@),
            tag: p.version,
            ..empty_dep()
        }
    }
}

/// Whether `a` and `b` hold the same characters.
pub fn str_eq(a: &str, b: &str) -> (r: bool)
    ensures
        r == (a@ == b@),
{
    let n = a.unicode_len();
    if n != b.unicode_len() {
        return false;
    }
    let mut i: usize = 0;
    while i < n
        invariant
            n == a@.len() == b@.len(),
            i <= n,
            forall|j: int| 0 <= j < i ==> a@[j] == b@[j],
        decreases n - i,
    {
        if a.get_char(i) != b.get_char(i) {
            return false;
        }
        i = i + 1;
    }
    assert(a@ =~= b@);
    true
}

fn opt_string_eq(a: &Option<String>, b: &Option<String>) -> (r: bool)
    ensures
        r == (opt_view(*a) == opt_view(*b)),
{
    match (a, b) {
        (Some(x), Some(y)) => str_eq(x.as_str(), y.as_str()),
        (None, None) => true,
        _ => false,
    }
}

fn strings_eq(a: &Vec<String>, b: &Vec<String>) -> (r: bool)
    ensures
        r == (strings_view(a@) == strings_view(b@)),
{
    if a.len() != b.len() {
        assert(strings_view(a@).len() != strings_view(b@).len());
        return false;
    }
    let mut i: usize = 0;
    while i < a.len()
        invariant
            a@.len() == b@.len(),
            i <= a@.len(),
            forall|j: int| 0 <= j < i ==> a@[j]@ == b@[j]@,
        decreases a@.len() - i,
    {
        if !str_eq(a[i].as_str(), b[i].as_str()) {
            assert(strings_view(a@)[i as int] != strings_view(b@)[i as int]);
            return false;
        }
        i = i + 1;
    }
    assert(strings_view(a@) =~= strings_view(b@));
    true
}

fn copy_opt_string(o: &Option<String>) -> (r: Option<String>)
    ensures
        opt_view(r) == opt_view(*o),
{
    match o {
        Some(s) => Some(s.clone()),
        None => None,
    }
}

fn copy_strings(v: &Vec<String>) -> (r: Vec<String>)
    ensures
        strings_view(r@) == strings_view(v@),
{
    let mut r: Vec<String> = Vec::new();
    let mut i: usize = 0;
    while i < v.len()
        invariant
            i <= v@.len(),
            r@.len() == i,
            forall|j: int| 0 <= j < i ==> r@[j]@ == v@[j]@,
        decreases v@.len() - i,
    {
        r.push(v[i].clone());
        i = i + 1;
    }
    assert(strings_view(r@) =~= strings_view(v@));
    r
}

impl DependencyDetail {
    /// A copy of this dependency.
    pub fn copy(&self) -> (r: DependencyDetail)
        ensures
            r@ == self@,
    {
        DependencyDetail {
            version: copy_opt_string(&self.version),
            path: copy_opt_string(&self.path),
            git: copy_opt_string(&self.git),
            branch: copy_opt_string(&self.branch),
            tag: copy_opt_string(&self.tag),
            rev: copy_opt_string(&self.rev),
            features: copy_strings(&self.features),
        }
    }

    /// Whether both describe the same dependency.
    pub fn same_as(&self, other: &DependencyDetail) -> (r: bool)
        ensures
            r == (self@ == other@),
    {
        opt_string_eq(&self.version, &other.version) && opt_string_eq(&self.path, &other.path)
            && opt_string_eq(&self.git, &other.git) && opt_string_eq(&self.branch, &other.branch)
            && opt_string_eq(&self.tag, &other.tag) && opt_string_eq(&self.rev, &other.rev)
            && strings_eq(&self.features, &other.features)
    }
}

pub fn empty_dependency_detail() -> (r: DependencyDetail)
    ensures
        r@ == empty_dep(),
{
    let r = DependencyDetail {
        version: None,
        path: None,
        git: None,
        branch: None,
        tag: None,
        rev: None,
        features: Vec::new(),
    };
    assert(r@.features =~= Seq::<Seq<char>>::empty());
    r
}

pub fn git_tagged_dependency(repo: &str, tag: &str) -> (r: DependencyDetail)
    ensures
        r@ == git_tagged(repo@, tag@),
{
    DependencyDetail {
        git: Some(String::from_str(repo)),
        tag: Some(String::from_str(tag)),
        ..empty_dependency_detail()
    }
}

/// Whether the path names the compiler's own builtin modules.
pub fn is_builtin(path: &Path) -> (r: bool)
    ensures
        r == (path.base@ == "hotg-ai/rune"@),
{
    str_eq(path.base.as_str(), "hotg-ai/rune")
}

/// A dependency on the directory `path.base`, inside `current_dir`.
pub fn local_proc_block(path: &Path, current_dir: &str) -> (r: DependencyDetail)
    ensures
        r@ == (DependencyModel { path: Some(join_dir(current_dir@, path.base@)), ..empty_dep() }),
{
    let mut joined = String::from_str(current_dir);
    let n = current_dir.unicode_len();
    if n > 0 && current_dir.get_char(n - 1) != '/' {
        proof {
            reveal_strlit("/");
        }
        joined.append("/");
    }
    joined.append(path.base.as_str());
    assert(joined@ =~= join_dir(current_dir@, path.base@));
    DependencyDetail { path: Some(joined), ..empty_dependency_detail() }
}

/// The dependency that a proc-block's path resolves to.
pub fn proc_block_dependency(path: &Path, current_dir: &str) -> (r: DependencyDetail)
    ensures
        r@ == resolve(path_model(path), current_dir@),
{
    if is_builtin(path) {
        return git_tagged_dependency("https://github.com/hotg-ai/rune", "nightly");
    }
    let base = path.base.as_str();
    let n = base.unicode_len();
    if n > 0 && base.get_char(0) == '.' {
        return local_proc_block(path, current_dir);
    }
    let v = text::chars_of(base);
    let slash = text::find_char(&v, 0, n, '/');
    assert(v@.subrange(0, n as int) =~= v@);
    if path.sub_path.is_none() && slash.is_none() {
        if let Some(version) = &path.version {
            return DependencyDetail {
                version: Some(version.clone()),
                ..empty_dependency_detail()
            };
        }
    }
    proof {
        if let Some(i) = slash {
            assert(v@[i as int] == '/');
        }
    }
    let mut repo = String::from_str("https://github.com/");
    repo.append(base);
    repo.append(".git");
    let tag = match &path.version {
        Some(version) => Some(version.clone()),
        None => None,
    };
    DependencyDetail { git: Some(repo), tag, ..empty_dependency_detail() }
}


/// Dependency names with what each resolves to, in the order of insertion.
pub open spec fn entries_view(v: Seq<(String, DependencyDetail)>) -> Seq<(Seq<char>, DependencyModel)> {
    v.map_values(|e: (String, DependencyDetail)| (e.0@, e.1@))
}

pub open spec fn has_key(m: Seq<(Seq<char>, DependencyModel)>, k: Seq<char>) -> bool {
    exists|i: int| 0 <= i < m.len() && m[i].0 == k
}

/// No name occurs twice.
pub open spec fn keys_unique(m: Seq<(Seq<char>, DependencyModel)>) -> bool {
    forall|i: int, j: int| 0 <= i < j < m.len() ==> m[i].0 != m[j].0
}

/// Adds `k` with `d`: no change where `k` is there with `d` already, a
/// conflict where it is there with something else.
pub open spec fn insert_dep(m: Seq<(Seq<char>, DependencyModel)>, k: Seq<char>, d: DependencyModel) -> Result<
    Seq<(Seq<char>, DependencyModel)>,
    Seq<char>,
> {
    if has_key(m, k) {
        let i = choose|i: int| 0 <= i < m.len() && m[i].0 == k;
        if m[i].1 == d {
            Ok(m)
        } else {
            Err(k)
        }
    } else {
        Ok(m.push((k, d)))
    }
}

/// Adds the entries one after the other; the first conflict ends it.
pub open spec fn insert_all(m: Seq<(Seq<char>, DependencyModel)>, e: Seq<(Seq<char>, DependencyModel)>) -> Result<
    Seq<(Seq<char>, DependencyModel)>,
    Seq<char>,
>
    decreases e.len(),
{
    if e.len() == 0 {
        Ok(m)
    } else {
        match insert_all(m, e.drop_last()) {
            Err(k) => Err(k),
            Ok(m2) => insert_dep(m2, e.last().0, e.last().1),
        }
    }
}

/// The dependencies every compiled pipeline has.
pub open spec fn base_deps() -> Seq<(Seq<char>, DependencyModel)> {
    seq![
        ("log"@, DependencyModel {
            version: Some("0.4"@),
            features: seq!["max_level_debug"@, "release_max_level_info"@],
            ..empty_dep()
        }),
        ("lazy_static"@, DependencyModel {
            version: Some("1.0"@),
            features: seq!["spin_no_std"@],
            ..empty_dep()
        }),
        ("hotg-rune-core"@, builtin_dep()),
        ("hotg-rune-proc-blocks"@, builtin_dep()),
        ("hotg-runicos-base-wasm"@, builtin_dep()),
    ]
}

/// Each proc-block's name with what its path resolves to.
pub open spec fn block_entries(blocks: Seq<(String, Path)>, dir: Seq<char>) -> Seq<(Seq<char>, DependencyModel)> {
    blocks.map_values(|b: (String, Path)| (b.0@, resolve(path_model(&b.1), dir)))
}

/// Two different dependencies were asked for under one name.
#[derive(Debug, Clone, PartialEq, Eq)]
pub struct DependencyConflict {
    pub name: String,
}

/// A set of named dependencies, each name once.
#[derive(Debug, Clone)]
pub struct DepsSet {
    entries: Vec<(String, DependencyDetail)>,
}

impl View for DepsSet {
    type V = Seq<(Seq<char>, DependencyModel)>;

    closed spec fn view(&self) -> Seq<(Seq<char>, DependencyModel)> {
        entries_view(self.entries@)
    }
}

impl DepsSet {
    pub fn new() -> (r: DepsSet)
        ensures
            r@ == Seq::<(Seq<char>, DependencyModel)>::empty(),
    {
        let r = DepsSet { entries: Vec::new() };
        assert(r@ =~= Seq::<(Seq<char>, DependencyModel)>::empty());
        r
    }

    pub fn len(&self) -> (r: usize)
        ensures
            r == self@.len(),
    {
        self.entries.len()
    }

    /// The entries, in the order they were added.
    pub fn entries(&self) -> (r: &[(String, DependencyDetail)])
        ensures
            entries_view(r@) == self@,
    {
        self.entries.as_slice()
    }

    /// Position of the entry named `key`.
    fn position(&self, key: &str) -> (r: Option<usize>)
        ensures
            match r {
                Some(i) => i < self@.len() && self@[i as int].0 == key@,
                None => !has_key(self@, key@),
            },
    {
        let mut i: usize = 0;
        while i < self.entries.len()
            invariant
                i <= self@.len(),
                self@.len() == self.entries@.len(),
                forall|j: int| 0 <= j < i ==> self@[j].0 != key@,
            decreases self.entries@.len() - i,
        {
            if str_eq(self.entries[i].0.as_str(), key) {
                return Some(i);
            }
            i = i + 1;
        }
        None
    }

    pub fn contains_key(&self, key: &str) -> (r: bool)
        ensures
            r == has_key(self@, key@),
    {
        self.position(key).is_some()
    }

    pub fn get(&self, key: &str) -> (r: Option<&DependencyDetail>)
        requires
            keys_unique(self@),
        ensures
            match r {
                Some(d) => has_key(self@, key@) && exists|i: int|
                    0 <= i < self@.len() && self@[i].0 == key@ && self@[i].1 == d@,
                None => !has_key(self@, key@),
            },
    {
        match self.position(key) {
            Some(i) => Some(&self.entries[i].1),
            None => None,
        }
    }

    /// Adds `dep` under `key`, as [`insert_dep`] says.
    pub fn insert(&mut self, key: String, dep: DependencyDetail) -> (r: Result<(), DependencyConflict>)
        requires
            keys_unique(old(self)@),
        ensures
            keys_unique(final(self)@),
            match r {
                Ok(()) => insert_dep(old(self)@, key@, dep@) == Ok::<
                    Seq<(Seq<char>, DependencyModel)>,
                    Seq<char>,
                >(final(self)@),
                Err(e) => insert_dep(old(self)@, key@, dep@) == Err::<
                    Seq<(Seq<char>, DependencyModel)>,
                    Seq<char>,
                >(e.name@) && final(self)@ == old(self)@,
            },
    {
        match self.position(key.as_str()) {
            Some(i) => {
                let ghost m = self@;
                proof {
                    let c = choose|c: int| 0 <= c < m.len() && m[c].0 == key@;
                    assert(c == i);
                }
                if self.entries[i].1.same_as(&dep) {
                    Ok(())
                } else {
                    Err(DependencyConflict { name: key })
                }
            },
            None => {
                let ghost before = self.entries@;
                self.entries.push((key, dep));
                assert(entries_view(self.entries@) =~= entries_view(before).push((key@, dep@)));
                Ok(())
            },
        }
    }
}

/// The name and dependency of each entry that every pipeline needs.
pub fn base_dependencies() -> (r: Vec<(String, DependencyDetail)>)
    ensures
        entries_view(r@) == base_deps(),
{
    let mut r: Vec<(String, DependencyDetail)> = Vec::new();
    let mut log_features: Vec<String> = Vec::new();
    log_features.push(String::from_str("max_level_debug"));
    log_features.push(String::from_str("release_max_level_info"));
    r.push((String::from_str("log"), DependencyDetail {
        version: Some(String::from_str("0.4")),
        features: log_features,
        ..empty_dependency_detail()
    }));
    let mut lazy_features: Vec<String> = Vec::new();
    lazy_features.push(String::from_str("spin_no_std"));
    r.push((String::from_str("lazy_static"), DependencyDetail {
        version: Some(String::from_str("1.0")),
        features: lazy_features,
        ..empty_dependency_detail()
    }));
    r.push((String::from_str("hotg-rune-core"), git_tagged_dependency("https://github.com/hotg-ai/rune", "nightly")));
    r.push((String::from_str("hotg-rune-proc-blocks"), git_tagged_dependency("https://github.com/hotg-ai/rune", "nightly")));
    r.push((String::from_str("hotg-runicos-base-wasm"), git_tagged_dependency("https://github.com/hotg-ai/rune", "nightly")));
    assert(r@[0].1@.features =~= seq!["max_level_debug"@, "release_max_level_info"@]);
    assert(r@[1].1@.features =~= seq!["spin_no_std"@]);
    assert(entries_view(r@) =~= base_deps());
    r
}

/// The dependencies of a pipeline: those every pipeline has, then each
/// proc-block's under its name.
pub fn dependencies(proc_blocks: &Vec<(String, Path)>, current_dir: &str) -> (r: Result<DepsSet, DependencyConflict>)
    ensures
        match r {
            Ok(d) => insert_all(Seq::empty(), base_deps() + block_entries(proc_blocks@, current_dir@))
                == Ok::<Seq<(Seq<char>, DependencyModel)>, Seq<char>>(d@) && keys_unique(d@),
            Err(e) => insert_all(Seq::empty(), base_deps() + block_entries(proc_blocks@, current_dir@))
                == Err::<Seq<(Seq<char>, DependencyModel)>, Seq<char>>(e.name@),
        },
{
    let mut all = base_dependencies();
    let mut k: usize = 0;
    while k < proc_blocks.len()
        invariant
            k <= proc_blocks@.len(),
            entries_view(all@) == base_deps() + block_entries(proc_blocks@.subrange(0, k as int), current_dir@),
        decreases proc_blocks@.len() - k,
    {
        let (name, path) = &proc_blocks[k];
        let ghost before = all@;
        all.push((name.clone(), proc_block_dependency(path, current_dir)));
        assert(block_entries(proc_blocks@.subrange(0, k + 1), current_dir@) =~= block_entries(proc_blocks@.subrange(0, k as int), current_dir@).push((name@, resolve(path_model(path), current_dir@))));
        assert(entries_view(all@) =~= entries_view(before).push((name@, resolve(path_model(path), current_dir@))));
        k = k + 1;
    }
    assert(proc_blocks@.subrange(0, proc_blocks@.len() as int) =~= proc_blocks@);
    let ghost e = entries_view(all@);
    let mut deps = DepsSet::new();
    let mut i: usize = 0;
    while i < all.len()
        invariant
            i <= all@.len(),
            e == entries_view(all@),
            e == base_deps() + block_entries(proc_blocks@, current_dir@),
            keys_unique(deps@),
            insert_all(Seq::empty(), e.subrange(0, i as int)) == Ok::<Seq<(Seq<char>, DependencyModel)>, Seq<char>>(deps@),
        decreases all@.len() - i,
    {
        assert(e.subrange(0, i + 1).drop_last() =~= e.subrange(0, i as int));
        let (name, dep) = &all[i];
        let ghost old_deps = deps@;
        assert(e[i as int] == (name@, dep@));
        match deps.insert(name.clone(), dep.copy()) {
            Ok(()) => {},
            Err(c) => {
                proof {
                    assert(insert_all(Seq::empty(), e.subrange(0, i + 1)) == insert_dep(old_deps, name@, dep@));
                    lemma_insert_all_err(e, i + 1);
                }
                return Err(c);
            },
        }
        i = i + 1;
    }
    assert(e.subrange(0, all@.len() as int) =~= e);
    Ok(deps)
}

/// A conflict among the first entries is the conflict of them all.
proof fn lemma_insert_all_err(e: Seq<(Seq<char>, DependencyModel)>, k: int)
    requires
        0 <= k <= e.len(),
        insert_all(Seq::empty(), e.subrange(0, k)) is Err,
    ensures
        insert_all(Seq::empty(), e) == insert_all(Seq::empty(), e.subrange(0, k)),
    decreases e.len() - k,
{
    if k < e.len() {
        assert(e.subrange(0, k + 1).drop_last() =~= e.subrange(0, k));
        lemma_insert_all_err(e, k + 1);
    } else {
        assert(e.subrange(0, k) =~= e);
    }
}


/// Adding entries with distinct names, one by one, keeps them all.
proof fn lemma_insert_all_unique(e: Seq<(Seq<char>, DependencyModel)>)
    requires
        keys_unique(e),
    ensures
        insert_all(Seq::empty(), e) == Ok::<Seq<(Seq<char>, DependencyModel)>, Seq<char>>(e),
    decreases e.len(),
{
    if e.len() > 0 {
        let init = e.drop_last();
        assert(keys_unique(init));
        lemma_insert_all_unique(init);
        if has_key(init, e.last().0) {
            let i = choose|i: int| 0 <= i < init.len() && init[i].0 == e.last().0;
            assert(e[i].0 == e[e.len() - 1].0);
        }
        assert(init.push(e.last()) =~= e);
    } else {
        assert(e =~= Seq::<(Seq<char>, DependencyModel)>::empty());
    }
}

/// With no proc-blocks, the dependencies are exactly the five that every
/// pipeline has.
pub proof fn lemma_base_dependencies(dir: Seq<char>)
    ensures
        insert_all(Seq::empty(), base_deps() + block_entries(Seq::empty(), dir)) == Ok::<
            Seq<(Seq<char>, DependencyModel)>,
            Seq<char>,
        >(base_deps()),
        base_deps().len() == 5,
        keys_unique(base_deps()),
{
    reveal_strlit("log");
    reveal_strlit("lazy_static");
    reveal_strlit("hotg-rune-core");
    reveal_strlit("hotg-rune-proc-blocks");
    reveal_strlit("hotg-runicos-base-wasm");
    let b = base_deps();
    assert(b[0].0.len() == 3 && b[1].0.len() == 11 && b[2].0.len() == 14 && b[3].0.len() == 21
        && b[4].0.len() == 22);
    assert(keys_unique(b));
    assert(b + block_entries(Seq::empty(), dir) =~= b);
    lemma_insert_all_unique(b);
}

/// One insertion keeps the names distinct, keeps what was there, and holds
/// the new entry, at the end if it is new.
proof fn lemma_insert_dep_step(m0: Seq<(Seq<char>, DependencyModel)>, k: Seq<char>, d: DependencyModel)
    requires
        keys_unique(m0),
        insert_dep(m0, k, d) is Ok,
    ensures
        ({
            let m = insert_dep(m0, k, d)->Ok_0;
            &&& keys_unique(m)
            &&& m0.len() <= m.len() <= m0.len() + 1
            &&& forall|i: int| 0 <= i < m0.len() ==> m[i] == m0[i]
            &&& exists|i: int| 0 <= i < m.len() && m[i] == (k, d)
            &&& forall|i: int| m0.len() <= i < m.len() ==> m[i] == (k, d)
        }),
{
    if has_key(m0, k) {
        let i = choose|i: int| 0 <= i < m0.len() && m0[i].0 == k;
        assert(m0[i] == (k, d));
    } else {
        let m = m0.push((k, d));
        assert(m[m0.len() as int] == (k, d));
        assert forall|i: int, j: int| 0 <= i < j < m.len() implies m[i].0 != m[j].0 by {
            if j == m0.len() {
                assert(m[i] == m0[i]);
            }
        }
    }
}

/// Whatever the proc-blocks, a successful result holds each entry asked for,
/// holds nothing else, and names each dependency once: the five that every
/// pipeline has and one for each distinct proc-block name.
pub proof fn lemma_dependencies_exact(e: Seq<(Seq<char>, DependencyModel)>)
    requires
        insert_all(Seq::empty(), e) is Ok,
    ensures
        ({
            let m = insert_all(Seq::empty(), e)->Ok_0;
            &&& keys_unique(m)
            &&& forall|j: int|
                0 <= j < e.len() ==> exists|i: int| 0 <= i < m.len() && #[trigger] m[i] == #[trigger] e[j]
            &&& forall|i: int|
                0 <= i < m.len() ==> exists|j: int| 0 <= j < e.len() && #[trigger] e[j] == #[trigger] m[i]
        }),
    decreases e.len(),
{
    if e.len() > 0 {
        let init = e.drop_last();
        let last = e.last();
        lemma_dependencies_exact(init);
        let m0 = insert_all(Seq::empty(), init)->Ok_0;
        assert(insert_all(Seq::empty(), e) == insert_dep(m0, last.0, last.1));
        lemma_insert_dep_step(m0, last.0, last.1);
        let m = insert_all(Seq::empty(), e)->Ok_0;
        assert forall|j: int| 0 <= j < e.len() implies exists|i: int|
            0 <= i < m.len() && #[trigger] m[i] == #[trigger] e[j] by {
            if j < e.len() - 1 {
                assert(init[j] == e[j]);
                let i0 = choose|i: int| 0 <= i < m0.len() && #[trigger] m0[i] == init[j];
                assert(m[i0] == m0[i0]);
            } else {
                assert(e[j] == (last.0, last.1));
            }
        }
        assert forall|i: int| 0 <= i < m.len() implies exists|j: int|
            0 <= j < e.len() && #[trigger] e[j] == #[trigger] m[i] by {
            if i < m0.len() {
                assert(m[i] == m0[i]);
                let j0 = choose|j: int| 0 <= j < init.len() && #[trigger] init[j] == m0[i];
                assert(e[j0] == init[j0]);
            } else {
                assert(e[e.len() - 1] == m[i]);
            }
        }
    } else {
        assert(insert_all(Seq::empty(), e)->Ok_0 =~= Seq::<(Seq<char>, DependencyModel)>::empty());
    }
}

/// Every path on the builtin repository resolves to the same pinned
/// dependency, whatever its version, sub-path or directory.
pub proof fn lemma_builtin_pinned(p: PathModel, dir: Seq<char>)
    requires
        p.base == "hotg-ai/rune"@,
    ensures
        resolve(p, dir) == builtin_dep(),
        builtin_dep() == git_tagged("https://github.com/hotg-ai/rune"@, "nightly"@),
{
}

/// `name@version`, with no sub-path and no `/`, resolves to that version of
/// a registry package and nothing else. (A base starting with `.` is a local
/// directory instead.)
pub proof fn lemma_registry_resolution(p: PathModel, dir: Seq<char>)
    requires
        p.sub_path is None,
        p.version is Some,
        lacks(p.base, '/'),
        !(p.base.len() > 0 && p.base[0] == '.'),
    ensures
        resolve(p, dir) == (DependencyModel { version: p.version, ..empty_dep() }),
{
    reveal_strlit("hotg-ai/rune");
    if p.base == "hotg-ai/rune"@ {
        assert(p.base[7] == '/');
    }
}

} // verus!
