//! The project manifest (`coil.toml`) and module path resolution.
//!
//! A manifest is a list of lines. A `#` outside a quoted string starts a comment. `[name]` opens one of the sections
//! `module`, `entry`, `ffi`, `env`, `package`, `dependencies` and `scripts`; every other line
//! is a `key = value` entry of the open section. Paths are text with `/` separators.
use vstd::prelude::*;
use vstd::string::*;
use crate::paths::{
    below, components, join, join_all, join_path, join_segments, namespace, namespace_from,
    starts_with, steps, steps_view,
};
use crate::scan::{
    byte_count, byte_len, chars_of, find_lines, line_spans, lines, opt_text, pieces,
    same, spans_in_range, spans_view, split, split_once, split_pair, texts, trim, trimmed,
};
use crate::text::{cat2, cat3, cat4, cat5, dec, dec_str};

verus! {

/// Why a manifest could not be loaded.
#[derive(Clone, Debug, PartialEq)]
pub enum ManifestError {
    /// The manifest file could not be read.
    Io(String),
    /// A line has no valid syntax.
    Parse { line: usize, message: String },
    /// A required section is missing.
    MissingSection(&'static str),
    /// A required key is missing from a section.
    MissingKey { section: &'static str, key: &'static str },
}

/// A manifest error, with its texts.
#[verifier::ext_equal]
pub ghost enum FaultV {
    Io(Seq<char>),
    Parse { line: nat, message: Seq<char> },
    MissingSection(Seq<char>),
    MissingKey { section: Seq<char>, key: Seq<char> },
}

impl View for ManifestError {
    type V = FaultV;

    open spec fn view(&self) -> FaultV {
        match self {
            ManifestError::Io(m) => FaultV::Io(m@),
            ManifestError::Parse { line, message } => FaultV::Parse {
                line: *line as nat,
                message: message@,
            },
            ManifestError::MissingSection(s) => FaultV::MissingSection(s@),
            ManifestError::MissingKey { section, key } => FaultV::MissingKey {
                section: section@,
                key: key@,
            },
        }
    }
}

impl FaultV {
    /// What a user is told.
    pub open spec fn text(self) -> Seq<char> {
        match self {
            FaultV::Io(m) => "manifest I/O error: "@ + m,
            FaultV::Parse { line, message } => "manifest parse error at line "@ + dec(line) + ": "@
                + message,
            FaultV::MissingSection(s) => "missing manifest section: ["@ + s + "]"@,
            FaultV::MissingKey { section, key } => "missing manifest key: "@ + section + "."@ + key,
        }
    }
}

impl ManifestError {
    /// What a user is told.
    pub fn message(&self) -> (r: String)
        ensures
            r@ == self@.text(),
    {
        match self {
            ManifestError::Io(m) => cat2("manifest I/O error: ", m.as_str()),
            ManifestError::Parse { line, message } => {
                let n = dec_str(*line as u64);
                cat4("manifest parse error at line ", n.as_str(), ": ", message.as_str())
            },
            ManifestError::MissingSection(s) => cat3("missing manifest section: [", s, "]"),
            ManifestError::MissingKey { section, key } => cat4(
                "missing manifest key: ",
                section,
                ".",
                key,
            ),
        }
    }
}

/// `[package]` metadata.
#[derive(Clone, Debug, PartialEq, Eq)]
pub struct PackageInfo {
    pub name: String,
    pub version: String,
    /// Optional range of engine versions.
    pub coil: Option<String>,
    /// Optional hook path, relative to the package checkout.
    pub include_hook: Option<String>,
}

/// Package metadata as text.
#[verifier::ext_equal]
pub ghost struct PackageV {
    pub name: Seq<char>,
    pub version: Seq<char>,
    pub coil: Option<Seq<char>>,
    pub include_hook: Option<Seq<char>>,
}

impl View for PackageInfo {
    type V = PackageV;

    open spec fn view(&self) -> PackageV {
        PackageV {
            name: self.name@,
            version: self.version@,
            coil: opt_text(self.coil),
            include_hook: opt_text(self.include_hook),
        }
    }
}

/// Lifecycle scripts of the current project; a missing key runs nothing.
#[derive(Clone, Debug, PartialEq, Eq)]
pub struct Scripts {
    pub pre_install: Option<String>,
    pub post_install: Option<String>,
    pub pre_update: Option<String>,
    pub post_update: Option<String>,
}

/// Lifecycle scripts as text.
#[verifier::ext_equal]
pub ghost struct ScriptsV {
    pub pre_install: Option<Seq<char>>,
    pub post_install: Option<Seq<char>>,
    pub pre_update: Option<Seq<char>>,
    pub post_update: Option<Seq<char>>,
}

impl View for Scripts {
    type V = ScriptsV;

    open spec fn view(&self) -> ScriptsV {
        ScriptsV {
            pre_install: opt_text(self.pre_install),
            post_install: opt_text(self.post_install),
            pre_update: opt_text(self.pre_update),
            post_update: opt_text(self.post_update),
        }
    }
}

/// No script at all.
pub open spec fn no_scripts() -> ScriptsV {
    ScriptsV { pre_install: None, post_install: None, pre_update: None, post_update: None }
}

impl Default for Scripts {
    fn default() -> (r: Self)
        ensures
            r@ == no_scripts(),
    {
        Scripts { pre_install: None, post_install: None, pre_update: None, post_update: None }
    }
}

/// A `[dependencies]` entry: a git source or a local path. A `trusted` dependency may load its
/// native library without a pinned hash.
#[derive(Clone, Debug, PartialEq, Eq)]
pub enum DependencySpec {
    Git { url: String, version: Option<String>, rev: Option<String>, trusted: bool },
    Path { path: String, trusted: bool },
}

/// A dependency as text.
#[verifier::ext_equal]
pub ghost enum DependencyV {
    Git { url: Seq<char>, version: Option<Seq<char>>, rev: Option<Seq<char>>, trusted: bool },
    Path { path: Seq<char>, trusted: bool },
}

impl View for DependencySpec {
    type V = DependencyV;

    open spec fn view(&self) -> DependencyV {
        match self {
            DependencySpec::Git { url, version, rev, trusted } => DependencyV::Git {
                url: url@,
                version: opt_text(*version),
                rev: opt_text(*rev),
                trusted: *trusted,
            },
            DependencySpec::Path { path, trusted } => DependencyV::Path {
                path: path@,
                trusted: *trusted,
            },
        }
    }
}

impl DependencyV {
    /// Whether the entry says `trusted = true`.
    pub open spec fn trusted(self) -> bool {
        match self {
            DependencyV::Git { trusted, .. } => trusted,
            DependencyV::Path { trusted, .. } => trusted,
        }
    }
}

impl DependencySpec {
    /// Whether the entry says `trusted = true`.
    pub fn trusted(&self) -> (r: bool)
        ensures
            r == self@.trusted(),
    {
        match self {
            DependencySpec::Git { trusted, .. } => *trusted,
            DependencySpec::Path { trusted, .. } => *trusted,
        }
    }
}

/// Named dependencies as text.
pub open spec fn dependencies_view(v: Seq<(String, DependencySpec)>) -> Seq<
    (Seq<char>, DependencyV),
> {
    Seq::new(v.len(), |i: int| (v[i].0@, v[i].1@))
}

/// A project manifest.
#[derive(Clone, Debug, PartialEq)]
pub struct Manifest {
    /// Search roots of module discovery, relative to the project root.
    pub roots: Vec<String>,
    /// Optional entry file.
    pub entry: Option<String>,
    /// Extra directories in which native libraries are searched.
    pub ffi_search_paths: Vec<String>,
    /// Whether programs may run other programs.
    pub allow_exec: bool,
    /// Optional `[package]` block.
    pub package: Option<PackageInfo>,
    /// `[dependencies]` entries in declaration order.
    pub dependencies: Vec<(String, DependencySpec)>,
    /// `[scripts]` paths.
    pub scripts: Scripts,
}

/// A project manifest as text.
#[verifier::ext_equal]
pub ghost struct ManifestV {
    pub roots: Seq<Seq<char>>,
    pub entry: Option<Seq<char>>,
    pub ffi_search_paths: Seq<Seq<char>>,
    pub allow_exec: bool,
    pub package: Option<PackageV>,
    pub dependencies: Seq<(Seq<char>, DependencyV)>,
    pub scripts: ScriptsV,
}

/// The package block in `o`.
pub open spec fn package_view(o: Option<PackageInfo>) -> Option<PackageV> {
    match o {
        Some(p) => Some(p@),
        None => None,
    }
}

impl View for Manifest {
    type V = ManifestV;

    open spec fn view(&self) -> ManifestV {
        ManifestV {
            roots: texts(self.roots@),
            entry: opt_text(self.entry),
            ffi_search_paths: texts(self.ffi_search_paths@),
            allow_exec: self.allow_exec,
            package: package_view(self.package),
            dependencies: dependencies_view(self.dependencies@),
            scripts: self.scripts@,
        }
    }
}

/// The manifest of a project without one: modules under `src`, nothing else.
pub open spec fn plain_manifest() -> ManifestV {
    ManifestV {
        roots: seq!["src"@],
        entry: None,
        ffi_search_paths: Seq::empty(),
        allow_exec: false,
        package: None,
        dependencies: Seq::empty(),
        scripts: no_scripts(),
    }
}

fn plain_roots() -> (r: Vec<String>)
    ensures
        texts(r@) == seq!["src"@],
{
    let mut r: Vec<String> = Vec::new();
    r.push("src".to_owned());
    assert(texts(r@) =~= seq!["src"@]);
    r
}

impl Default for Manifest {
    fn default() -> (r: Self)
        ensures
            r@ == plain_manifest(),
    {
        let r = Manifest {
            roots: plain_roots(),
            entry: None,
            ffi_search_paths: Vec::new(),
            allow_exec: false,
            package: None,
            dependencies: Vec::new(),
            scripts: Scripts::default(),
        };
        assert(texts(r.ffi_search_paths@) =~= Seq::empty());
        assert(dependencies_view(r.dependencies@) =~= Seq::empty());
        r
    }
}

/// A section of the manifest.
#[derive(Clone, Copy, Debug, PartialEq, Eq, Structural)]
pub enum Section {
    Module,
    Entry,
    Ffi,
    Env,
    Package,
    Dependencies,
    Scripts,
}

impl Section {
    /// The name between the brackets.
    pub open spec fn text(self) -> Seq<char> {
        match self {
            Section::Module => "module"@,
            Section::Entry => "entry"@,
            Section::Ffi => "ffi"@,
            Section::Env => "env"@,
            Section::Package => "package"@,
            Section::Dependencies => "dependencies"@,
            Section::Scripts => "scripts"@,
        }
    }

    /// The name between the brackets.
    pub fn name(self) -> (r: &'static str)
        ensures
            r@ == self.text(),
    {
        match self {
            Section::Module => "module",
            Section::Entry => "entry",
            Section::Ffi => "ffi",
            Section::Env => "env",
            Section::Package => "package",
            Section::Dependencies => "dependencies",
            Section::Scripts => "scripts",
        }
    }
}

/// The section of that name.
pub open spec fn section_named(name: Seq<char>) -> Option<Section> {
    if name == "module"@ {
        Some(Section::Module)
    } else if name == "entry"@ {
        Some(Section::Entry)
    } else if name == "ffi"@ {
        Some(Section::Ffi)
    } else if name == "env"@ {
        Some(Section::Env)
    } else if name == "package"@ {
        Some(Section::Package)
    } else if name == "dependencies"@ {
        Some(Section::Dependencies)
    } else if name == "scripts"@ {
        Some(Section::Scripts)
    } else {
        None
    }
}

fn find_section(name: &str) -> (r: Option<Section>)
    ensures
        r == section_named(name@),
{
    if same(name, "module") {
        Some(Section::Module)
    } else if same(name, "entry") {
        Some(Section::Entry)
    } else if same(name, "ffi") {
        Some(Section::Ffi)
    } else if same(name, "env") {
        Some(Section::Env)
    } else if same(name, "package") {
        Some(Section::Package)
    } else if same(name, "dependencies") {
        Some(Section::Dependencies)
    } else if same(name, "scripts") {
        Some(Section::Scripts)
    } else {
        None
    }
}

/// What stands between `open` and `close` when `s` begins and ends with them.
pub open spec fn enclosed(s: Seq<char>, open_mark: char, close_mark: char) -> Option<Seq<char>> {
    if s.len() >= 2 && s[0] == open_mark && s.last() == close_mark {
        Some(s.subrange(1, s.len() - 1))
    } else {
        None
    }
}

fn inside(s: &str, open_mark: char, close_mark: char) -> (r: Option<&str>)
    ensures
        match r {
            Some(t) => enclosed(s@, open_mark, close_mark) == Some(t@),
            None => enclosed(s@, open_mark, close_mark) is None,
        },
{
    let cs = chars_of(s);
    let n = cs.len();
    if n >= 2 && cs[0] == open_mark && cs[n - 1] == close_mark {
        Some(s.substring_char(1, n - 1))
    } else {
        None
    }
}

/// Where the comment of `line` starts, searched from `i` on, with `quoted` saying whether `i`
/// stands inside a quoted string: at the first `#` outside quotes, or at the end.
pub open spec fn comment_start(line: Seq<char>, i: int, quoted: bool) -> int
    decreases line.len() - i,
{
    if i < 0 || i >= line.len() {
        line.len() as int
    } else if line[i] == '#' && !quoted {
        i
    } else {
        comment_start(line, i + 1, quoted != (line[i] == '"'))
    }
}

/// What a line says: its text without comment and surrounding blanks.
pub open spec fn content(line: Seq<char>) -> Seq<char> {
    trimmed(line.take(comment_start(line, 0, false)))
}

/// `line` without its comment.
fn strip_comment(line: &str) -> (r: &str)
    ensures
        r@ == line@.take(comment_start(line@, 0, false)),
{
    let cs = chars_of(line);
    let n = cs.len();
    let mut i: usize = 0;
    let mut quoted = false;
    while i < n && (quoted || cs[i] != '#')
        invariant
            n == cs@.len(),
            cs@ == line@,
            i <= n,
            comment_start(line@, 0, false) == comment_start(line@, i as int, quoted),
        decreases n - i,
    {
        if cs[i] == '"' {
            quoted = !quoted;
        }
        i += 1;
    }
    let r = line.substring_char(0, i);
    assert(r@ =~= line@.take(i as int));
    r
}

/// The key and value of a `key = value` entry.
pub open spec fn entry_parts(line: Seq<char>) -> Option<(Seq<char>, Seq<char>)> {
    match split_pair(line, '=') {
        Some(p) => Some((trimmed(p.0), trimmed(p.1))),
        None => None,
    }
}

fn parse_kv(line: &str) -> (r: Option<(&str, &str)>)
    ensures
        match r {
            Some(p) => entry_parts(line@) == Some((p.0@, p.1@)),
            None => entry_parts(line@) is None,
        },
{
    match split_once(line, '=') {
        Some(p) => Some((trim(p.0), trim(p.1))),
        None => None,
    }
}

/// The text of a double-quoted string.
pub open spec fn quoted(value: Seq<char>) -> Option<Seq<char>> {
    enclosed(trimmed(value), '"', '"')
}

fn parse_string(value: &str) -> (r: Option<String>)
    ensures
        opt_text(r) == quoted(value@),
{
    match inside(trim(value), '"', '"') {
        Some(t) => Some(t.to_owned()),
        None => None,
    }
}

/// The value of `true` or `false`.
pub open spec fn flag(value: Seq<char>) -> Option<bool> {
    if trimmed(value) == "true"@ {
        Some(true)
    } else if trimmed(value) == "false"@ {
        Some(false)
    } else {
        None
    }
}

fn parse_bool(value: &str) -> (r: Option<bool>)
    ensures
        r == flag(value@),
{
    let t = trim(value);
    if same(t, "true") {
        Some(true)
    } else if same(t, "false") {
        Some(false)
    } else {
        None
    }
}

/// The strings among the pieces from `i` on, after those in `acc`; blank pieces are skipped.
pub open spec fn strings_from(ps: Seq<Seq<char>>, i: int, acc: Seq<Seq<char>>) -> Option<
    Seq<Seq<char>>,
>
    decreases ps.len() - i,
{
    if i >= ps.len() {
        Some(acc)
    } else if trimmed(ps[i]).len() == 0 {
        strings_from(ps, i + 1, acc)
    } else {
        match quoted(trimmed(ps[i])) {
            Some(t) => strings_from(ps, i + 1, acc.push(t)),
            None => None,
        }
    }
}

/// The strings of an array `["a", "b"]`.
pub open spec fn string_array(value: Seq<char>) -> Option<Seq<Seq<char>>> {
    match enclosed(trimmed(value), '[', ']') {
        Some(t) => strings_from(pieces(t, ','), 0, Seq::empty()),
        None => None,
    }
}

/// The texts in `o`.
pub open spec fn opt_texts(o: Option<Vec<String>>) -> Option<Seq<Seq<char>>> {
    match o {
        Some(v) => Some(texts(v@)),
        None => None,
    }
}

fn parse_string_array(value: &str) -> (r: Option<Vec<String>>)
    ensures
        opt_texts(r) == string_array(value@),
{
    let t = match inside(trim(value), '[', ']') {
        Some(t) => t,
        None => return None,
    };
    let ps = split(t, ',');
    let ghost pv = pieces(t@, ',');
    let mut out: Vec<String> = Vec::new();
    assert(texts(out@) =~= Seq::empty());
    let mut i: usize = 0;
    while i < ps.len()
        invariant
            i <= ps@.len(),
            texts(ps@) == pv,
            string_array(value@) == strings_from(pv, i as int, texts(out@)),
        decreases ps@.len() - i,
    {
        assert(pv[i as int] == ps@[i as int]@);
        let piece = trim(ps[i].as_str());
        if !piece.is_empty() {
            match parse_string(piece) {
                Some(s) => {
                    let ghost out0 = texts(out@);
                    out.push(s);
                    assert(texts(out@) =~= out0.push(s@));
                },
                None => return None,
            }
        }
        i += 1;
    }
    Some(out)
}

/// A value in an inline table.
#[verifier::ext_equal]
pub ghost enum CellV {
    Text(Seq<char>),
    Flag(bool),
}

/// A value in an inline table.
#[derive(Debug)]
pub enum Cell {
    Text(String),
    Flag(bool),
}

impl View for Cell {
    type V = CellV;

    open spec fn view(&self) -> CellV {
        match self {
            Cell::Text(s) => CellV::Text(s@),
            Cell::Flag(b) => CellV::Flag(*b),
        }
    }
}

/// The value that a cell holds.
pub open spec fn cell(value: Seq<char>) -> Option<CellV> {
    match quoted(value) {
        Some(t) => Some(CellV::Text(t)),
        None => match flag(value) {
            Some(b) => Some(CellV::Flag(b)),
            None => None,
        },
    }
}

fn parse_cell(value: &str) -> (r: Option<Cell>)
    ensures
        match r {
            Some(c) => cell(value@) == Some(c@),
            None => cell(value@) is None,
        },
{
    match parse_string(value) {
        Some(s) => Some(Cell::Text(s)),
        None => match parse_bool(value) {
            Some(b) => Some(Cell::Flag(b)),
            None => None,
        },
    }
}

/// What has been read of a dependency table.
#[verifier::ext_equal]
pub ghost struct TableV {
    pub git: Option<Seq<char>>,
    pub version: Option<Seq<char>>,
    pub path: Option<Seq<char>>,
    pub rev: Option<Seq<char>>,
    pub trusted: Option<bool>,
}

impl TableV {
    /// With one more entry. Each key is read once, and only by its own kind of value.
    pub open spec fn with(self, key: Seq<char>, value: CellV) -> Option<TableV> {
        match value {
            CellV::Text(t) => if key == "git"@ && self.git is None {
                Some(TableV { git: Some(t), ..self })
            } else if key == "version"@ && self.version is None {
                Some(TableV { version: Some(t), ..self })
            } else if key == "path"@ && self.path is None {
                Some(TableV { path: Some(t), ..self })
            } else if key == "rev"@ && self.rev is None {
                Some(TableV { rev: Some(t), ..self })
            } else {
                None
            },
            CellV::Flag(b) => if key == "trusted"@ && self.trusted is None {
                Some(TableV { trusted: Some(b), ..self })
            } else {
                None
            },
        }
    }

    /// The dependency that the table describes: `git` with an optional `version` and `rev`, or
    /// `path` alone; `trusted` goes with either.
    pub open spec fn dependency(self) -> Option<DependencyV> {
        let trusted = self.trusted == Some(true);
        match (self.git, self.path) {
            (Some(url), None) => Some(
                DependencyV::Git { url, version: self.version, rev: self.rev, trusted },
            ),
            (None, Some(path)) => if self.version is None && self.rev is None {
                Some(DependencyV::Path { path, trusted })
            } else {
                None
            },
            _ => None,
        }
    }
}

/// The table after the pieces from `i` on; blank pieces are skipped.
pub open spec fn table_from(ps: Seq<Seq<char>>, i: int, t: TableV) -> Option<TableV>
    decreases ps.len() - i,
{
    if i >= ps.len() {
        Some(t)
    } else if trimmed(ps[i]).len() == 0 {
        table_from(ps, i + 1, t)
    } else {
        match entry_parts(trimmed(ps[i])) {
            Some(p) => match cell(p.1) {
                Some(c) => match t.with(p.0, c) {
                    Some(t2) => table_from(ps, i + 1, t2),
                    None => None,
                },
                None => None,
            },
            None => None,
        }
    }
}

/// A table without entries.
pub open spec fn empty_table() -> TableV {
    TableV { git: None, version: None, path: None, rev: None, trusted: None }
}

/// The dependency that `value` describes.
pub open spec fn dependency(value: Seq<char>) -> Option<DependencyV> {
    match enclosed(trimmed(value), '{', '}') {
        Some(t) => match table_from(pieces(t, ','), 0, empty_table()) {
            Some(table) => table.dependency(),
            None => None,
        },
        None => None,
    }
}

fn parse_dependency_spec(value: &str) -> (r: Option<DependencySpec>)
    ensures
        match r {
            Some(d) => dependency(value@) == Some(d@),
            None => dependency(value@) is None,
        },
{
    let t = match inside(trim(value), '{', '}') {
        Some(t) => t,
        None => return None,
    };
    let ps = split(t, ',');
    let ghost pv = pieces(t@, ',');
    let mut git: Option<String> = None;
    let mut version: Option<String> = None;
    let mut path: Option<String> = None;
    let mut rev: Option<String> = None;
    let mut trusted: Option<bool> = None;
    let mut i: usize = 0;
    while i < ps.len()
        invariant
            i <= ps@.len(),
            texts(ps@) == pv,
            table_from(pv, 0, empty_table()) == table_from(
                pv,
                i as int,
                (TableV {
                    git: opt_text(git),
                    version: opt_text(version),
                    path: opt_text(path),
                    rev: opt_text(rev),
                    trusted,
                }),
            ),
            enclosed(trimmed(value@), '{', '}') == Some(t@),
            pv == pieces(t@, ','),
        decreases ps@.len() - i,
    {
        assert(pv[i as int] == ps@[i as int]@);
        let piece = trim(ps[i].as_str());
        if !piece.is_empty() {
            let (key, rhs) = match parse_kv(piece) {
                Some(p) => p,
                None => return None,
            };
            match parse_cell(rhs) {
                Some(Cell::Text(s)) => {
                    if same(key, "git") && git.is_none() {
                        git = Some(s);
                    } else if same(key, "version") && version.is_none() {
                        version = Some(s);
                    } else if same(key, "path") && path.is_none() {
                        path = Some(s);
                    } else if same(key, "rev") && rev.is_none() {
                        rev = Some(s);
                    } else {
                        return None;
                    }
                },
                Some(Cell::Flag(b)) => {
                    if same(key, "trusted") && trusted.is_none() {
                        trusted = Some(b);
                    } else {
                        return None;
                    }
                },
                None => return None,
            }
        }
        i += 1;
    }
    let trust = match trusted {
        Some(b) => b,
        None => false,
    };
    match (git, path) {
        (Some(url), None) => Some(DependencySpec::Git { url, version, rev, trusted: trust }),
        (None, Some(p)) => if version.is_none() && rev.is_none() {
            Some(DependencySpec::Path { path: p, trusted: trust })
        } else {
            None
        },
        _ => None,
    }
}


/// What has been read of a manifest.
#[verifier::ext_equal]
pub ghost struct DraftV {
    pub roots: Option<Seq<Seq<char>>>,
    pub entry: Option<Seq<char>>,
    pub ffi_search_paths: Option<Seq<Seq<char>>>,
    pub allow_exec: Option<bool>,
    pub name: Option<Seq<char>>,
    pub version: Option<Seq<char>>,
    pub coil: Option<Seq<char>>,
    pub include_hook: Option<Seq<char>>,
    pub saw_package: bool,
    pub dependencies: Seq<(Seq<char>, DependencyV)>,
    pub scripts: ScriptsV,
    pub section: Option<Section>,
}

/// Nothing read yet.
pub open spec fn empty_draft() -> DraftV {
    DraftV {
        roots: None,
        entry: None,
        ffi_search_paths: None,
        allow_exec: None,
        name: None,
        version: None,
        coil: None,
        include_hook: None,
        saw_package: false,
        dependencies: Seq::empty(),
        scripts: no_scripts(),
        section: None,
    }
}

/// The refusal of a line.
pub open spec fn refused<T>(line: nat, message: Seq<char>) -> Result<T, FaultV> {
    Err(FaultV::Parse { line, message })
}

/// A slot that takes a string once.
pub open spec fn once(
    slot: Option<Seq<char>>,
    full_key: Seq<char>,
    value: Seq<char>,
    line: nat,
) -> Result<Option<Seq<char>>, FaultV> {
    match quoted(value) {
        Some(t) => if slot is Some {
            refused(line, "duplicate key `"@ + full_key + "`"@)
        } else {
            Ok(Some(t))
        },
        None => refused(line, "expected string, got `"@ + value + "`"@),
    }
}

/// An array of strings, or the refusal of the line.
pub open spec fn array_or_refusal(value: Seq<char>, line: nat) -> Result<
    Option<Seq<Seq<char>>>,
    FaultV,
> {
    match string_array(value) {
        Some(v) => Ok(Some(v)),
        None => refused(line, "expected array of strings, got `"@ + value + "`"@),
    }
}

/// Whether a dependency of that name is among the first `n`.
pub open spec fn declared(deps: Seq<(Seq<char>, DependencyV)>, name: Seq<char>, n: int) -> bool {
    exists|k: int| 0 <= k < n && (#[trigger] deps[k]).0 == name
}

impl DraftV {
    /// After an entry of section `section`.
    pub open spec fn entry_read(
        self,
        section: Section,
        key: Seq<char>,
        value: Seq<char>,
        line: nat,
    ) -> Result<DraftV, FaultV> {
        let unknown = refused(line, "unknown key `"@ + section.text() + "."@ + key + "`"@);
        match section {
            Section::Module => if key == "roots"@ {
                match array_or_refusal(value, line) {
                    Ok(v) => Ok(DraftV { roots: v, ..self }),
                    Err(e) => Err(e),
                }
            } else {
                unknown
            },
            Section::Entry => if key == "file"@ {
                match once(None, key, value, line) {
                    Ok(v) => Ok(DraftV { entry: v, ..self }),
                    Err(e) => Err(e),
                }
            } else {
                unknown
            },
            Section::Ffi => if key == "search_paths"@ {
                match array_or_refusal(value, line) {
                    Ok(v) => Ok(DraftV { ffi_search_paths: v, ..self }),
                    Err(e) => Err(e),
                }
            } else {
                unknown
            },
            Section::Env => if key == "allow_exec"@ {
                match flag(value) {
                    Some(b) => Ok(DraftV { allow_exec: Some(b), ..self }),
                    None => refused(line, "expected `true` or `false`, got `"@ + value + "`"@),
                }
            } else {
                unknown
            },
            Section::Package => if key == "name"@ {
                match once(self.name, "package.name"@, value, line) {
                    Ok(v) => Ok(DraftV { name: v, ..self }),
                    Err(e) => Err(e),
                }
            } else if key == "version"@ {
                match once(self.version, "package.version"@, value, line) {
                    Ok(v) => Ok(DraftV { version: v, ..self }),
                    Err(e) => Err(e),
                }
            } else if key == "coil"@ {
                match once(self.coil, "package.coil"@, value, line) {
                    Ok(v) => Ok(DraftV { coil: v, ..self }),
                    Err(e) => Err(e),
                }
            } else if key == "include"@ {
                match once(self.include_hook, "package.include"@, value, line) {
                    Ok(v) => Ok(DraftV { include_hook: v, ..self }),
                    Err(e) => Err(e),
                }
            } else {
                unknown
            },
            Section::Scripts => if key == "pre_install"@ {
                match once(self.scripts.pre_install, "scripts.pre_install"@, value, line) {
                    Ok(v) => Ok(
                        DraftV { scripts: ScriptsV { pre_install: v, ..self.scripts }, ..self },
                    ),
                    Err(e) => Err(e),
                }
            } else if key == "post_install"@ {
                match once(self.scripts.post_install, "scripts.post_install"@, value, line) {
                    Ok(v) => Ok(
                        DraftV { scripts: ScriptsV { post_install: v, ..self.scripts }, ..self },
                    ),
                    Err(e) => Err(e),
                }
            } else if key == "pre_update"@ {
                match once(self.scripts.pre_update, "scripts.pre_update"@, value, line) {
                    Ok(v) => Ok(
                        DraftV { scripts: ScriptsV { pre_update: v, ..self.scripts }, ..self },
                    ),
                    Err(e) => Err(e),
                }
            } else if key == "post_update"@ {
                match once(self.scripts.post_update, "scripts.post_update"@, value, line) {
                    Ok(v) => Ok(
                        DraftV { scripts: ScriptsV { post_update: v, ..self.scripts }, ..self },
                    ),
                    Err(e) => Err(e),
                }
            } else {
                unknown
            },
            Section::Dependencies => if declared(
                self.dependencies,
                key,
                self.dependencies.len() as int,
            ) {
                refused(line, "duplicate dependency `"@ + key + "`"@)
            } else {
                match dependency(value) {
                    Some(d) => Ok(DraftV { dependencies: self.dependencies.push((key, d)), ..self }),
                    None => refused(
                        line,
                        "expected dependency table `{ git = \"…\" }` or `{ path = \"…\" }`, got `"@
                            + value + "`"@,
                    ),
                }
            },
        }
    }

    /// After a line that says `text`.
    pub open spec fn line_read(self, text: Seq<char>, line: nat) -> Result<DraftV, FaultV> {
        if text.len() == 0 {
            Ok(self)
        } else {
            match enclosed(text, '[', ']') {
                Some(name) => match section_named(trimmed(name)) {
                    Some(s) => Ok(
                        DraftV {
                            section: Some(s),
                            saw_package: self.saw_package || s == Section::Package,
                            ..self
                        },
                    ),
                    None => refused(line, "unknown section `["@ + trimmed(name) + "]`"@),
                },
                None => match self.section {
                    Some(s) => match entry_parts(text) {
                        Some(p) => self.entry_read(s, p.0, p.1, line),
                        None => refused(line, "expected `key = value`, got `"@ + text + "`"@),
                    },
                    None => refused(line, "key-value entry before any section header"@),
                },
            }
        }
    }

    /// The manifest that was read. A package block needs a name and a version.
    pub open spec fn manifest(self) -> Result<ManifestV, FaultV> {
        if (self.saw_package || self.version is Some) && self.name is None {
            Err(FaultV::MissingKey { section: "package"@, key: "name"@ })
        } else if self.name is Some && self.version is None {
            Err(FaultV::MissingKey { section: "package"@, key: "version"@ })
        } else {
            Ok(
                ManifestV {
                    roots: match self.roots {
                        Some(v) => v,
                        None => seq!["src"@],
                    },
                    entry: self.entry,
                    ffi_search_paths: match self.ffi_search_paths {
                        Some(v) => v,
                        None => Seq::empty(),
                    },
                    allow_exec: self.allow_exec == Some(true),
                    package: match (self.name, self.version) {
                        (Some(name), Some(version)) => Some(
                            PackageV {
                                name,
                                version,
                                coil: self.coil,
                                include_hook: self.include_hook,
                            },
                        ),
                        _ => None,
                    },
                    dependencies: self.dependencies,
                    scripts: self.scripts,
                },
            )
        }
    }
}

/// After the lines from `i` on, the first refusal or everything that was read.
pub open spec fn read_from(ls: Seq<Seq<char>>, i: int, d: DraftV) -> Result<DraftV, FaultV>
    decreases ls.len() - i,
{
    if i >= ls.len() {
        Ok(d)
    } else {
        match d.line_read(content(ls[i]), (i + 1) as nat) {
            Ok(d2) => read_from(ls, i + 1, d2),
            Err(e) => Err(e),
        }
    }
}

/// The manifest that `source` describes, or why it describes none.
pub open spec fn parsed(source: Seq<char>) -> Result<ManifestV, FaultV> {
    match read_from(lines(source), 0, empty_draft()) {
        Ok(d) => d.manifest(),
        Err(e) => Err(e),
    }
}

/// What has been read of a manifest.
#[derive(Debug)]
pub struct Draft {
    pub roots: Option<Vec<String>>,
    pub entry: Option<String>,
    pub ffi_search_paths: Option<Vec<String>>,
    pub allow_exec: Option<bool>,
    pub name: Option<String>,
    pub version: Option<String>,
    pub coil: Option<String>,
    pub include_hook: Option<String>,
    pub saw_package: bool,
    pub dependencies: Vec<(String, DependencySpec)>,
    pub scripts: Scripts,
    pub section: Option<Section>,
}

impl View for Draft {
    type V = DraftV;

    open spec fn view(&self) -> DraftV {
        DraftV {
            roots: opt_texts(self.roots),
            entry: opt_text(self.entry),
            ffi_search_paths: opt_texts(self.ffi_search_paths),
            allow_exec: self.allow_exec,
            name: opt_text(self.name),
            version: opt_text(self.version),
            coil: opt_text(self.coil),
            include_hook: opt_text(self.include_hook),
            saw_package: self.saw_package,
            dependencies: dependencies_view(self.dependencies@),
            scripts: self.scripts@,
            section: self.section,
        }
    }
}

/// Whether a step went as the model says: the new draft on success, the refusal otherwise.
pub open spec fn went(r: Result<(), ManifestError>, want: Result<DraftV, FaultV>, d: DraftV) -> bool {
    match r {
        Ok(_) => want == Ok::<DraftV, FaultV>(d),
        Err(e) => want == Err::<DraftV, FaultV>(e@),
    }
}

fn refuse(line: usize, message: String) -> (r: ManifestError)
    ensures
        r@ == (FaultV::Parse { line: line as nat, message: message@ }),
{
    ManifestError::Parse { line, message }
}

fn assign_once(slot: &mut Option<String>, full_key: &str, value: &str, line: usize) -> (r: Result<
    (),
    ManifestError,
>)
    ensures
        match r {
            Ok(_) => once(opt_text(*old(slot)), full_key@, value@, line as nat) == Ok::<
                Option<Seq<char>>,
                FaultV,
            >(opt_text(*final(slot))),
            Err(e) => once(opt_text(*old(slot)), full_key@, value@, line as nat) == Err::<
                Option<Seq<char>>,
                FaultV,
            >(e@),
        },
{
    match parse_string(value) {
        Some(t) => {
            if slot.is_some() {
                return Err(refuse(line, cat3("duplicate key `", full_key, "`")));
            }
            *slot = Some(t);
            Ok(())
        },
        None => Err(refuse(line, cat3("expected string, got `", value, "`"))),
    }
}

fn array_value(value: &str, line: usize) -> (r: Result<Option<Vec<String>>, ManifestError>)
    ensures
        match r {
            Ok(v) => array_or_refusal(value@, line as nat) == Ok::<Option<Seq<Seq<char>>>, FaultV>(
                opt_texts(v),
            ),
            Err(e) => array_or_refusal(value@, line as nat) == Err::<
                Option<Seq<Seq<char>>>,
                FaultV,
            >(e@),
        },
{
    match parse_string_array(value) {
        Some(v) => Ok(Some(v)),
        None => Err(refuse(line, cat3("expected array of strings, got `", value, "`"))),
    }
}

impl Draft {
    fn new() -> (r: Draft)
        ensures
            r@ == empty_draft(),
    {
        let r = Draft {
            roots: None,
            entry: None,
            ffi_search_paths: None,
            allow_exec: None,
            name: None,
            version: None,
            coil: None,
            include_hook: None,
            saw_package: false,
            dependencies: Vec::new(),
            scripts: Scripts::default(),
            section: None,
        };
        assert(dependencies_view(r.dependencies@) =~= Seq::empty());
        r
    }

    fn declares(&self, name: &str) -> (r: bool)
        ensures
            r == declared(self@.dependencies, name@, self@.dependencies.len() as int),
    {
        let mut i: usize = 0;
        while i < self.dependencies.len()
            invariant
                i <= self.dependencies@.len(),
                !declared(self@.dependencies, name@, i as int),
            decreases self.dependencies@.len() - i,
        {
            assert(self@.dependencies[i as int].0 == self.dependencies@[i as int].0@);
            if same(self.dependencies[i].0.as_str(), name) {
                return true;
            }
            i += 1;
        }
        false
    }

    fn read_package(&mut self, key: &str, value: &str, line: usize) -> (r: Result<
        (),
        ManifestError,
    >)
        ensures
            went(
                r,
                old(self)@.entry_read(Section::Package, key@, value@, line as nat),
                final(self)@,
            ),
    {
        if same(key, "name") {
            assign_once(&mut self.name, "package.name", value, line)
        } else if same(key, "version") {
            assign_once(&mut self.version, "package.version", value, line)
        } else if same(key, "coil") {
            assign_once(&mut self.coil, "package.coil", value, line)
        } else if same(key, "include") {
            assign_once(&mut self.include_hook, "package.include", value, line)
        } else {
            Err(refuse(line, cat5("unknown key `", "package", ".", key, "`")))
        }
    }

    fn read_script(&mut self, key: &str, value: &str, line: usize) -> (r: Result<
        (),
        ManifestError,
    >)
        ensures
            went(
                r,
                old(self)@.entry_read(Section::Scripts, key@, value@, line as nat),
                final(self)@,
            ),
    {
        if same(key, "pre_install") {
            assign_once(&mut self.scripts.pre_install, "scripts.pre_install", value, line)
        } else if same(key, "post_install") {
            assign_once(&mut self.scripts.post_install, "scripts.post_install", value, line)
        } else if same(key, "pre_update") {
            assign_once(&mut self.scripts.pre_update, "scripts.pre_update", value, line)
        } else if same(key, "post_update") {
            assign_once(&mut self.scripts.post_update, "scripts.post_update", value, line)
        } else {
            Err(refuse(line, cat5("unknown key `", "scripts", ".", key, "`")))
        }
    }

    fn read_dependency(&mut self, key: &str, value: &str, line: usize) -> (r: Result<
        (),
        ManifestError,
    >)
        ensures
            went(
                r,
                old(self)@.entry_read(Section::Dependencies, key@, value@, line as nat),
                final(self)@,
            ),
    {
        if self.declares(key) {
            return Err(refuse(line, cat3("duplicate dependency `", key, "`")));
        }
        match parse_dependency_spec(value) {
            Some(d) => {
                let ghost deps = self@.dependencies;
                self.dependencies.push((key.to_owned(), d));
                assert(self@.dependencies =~= deps.push((key@, d@)));
                Ok(())
            },
            None => Err(
                refuse(
                    line,
                    cat3(
                        "expected dependency table `{ git = \"…\" }` or `{ path = \"…\" }`, got `",
                        value,
                        "`",
                    ),
                ),
            ),
        }
    }

    fn read_entry(&mut self, section: Section, key: &str, value: &str, line: usize) -> (r: Result<
        (),
        ManifestError,
    >)
        ensures
            went(r, old(self)@.entry_read(section, key@, value@, line as nat), final(self)@),
    {
        match section {
            Section::Package => self.read_package(key, value, line),
            Section::Scripts => self.read_script(key, value, line),
            Section::Dependencies => self.read_dependency(key, value, line),
            Section::Module => {
                if same(key, "roots") {
                    match array_value(value, line) {
                        Ok(v) => {
                            self.roots = v;
                            Ok(())
                        },
                        Err(e) => Err(e),
                    }
                } else {
                    Err(refuse(line, cat5("unknown key `", section.name(), ".", key, "`")))
                }
            },
            Section::Entry => {
                if same(key, "file") {
                    let mut slot: Option<String> = None;
                    match assign_once(&mut slot, key, value, line) {
                        Ok(_) => {
                            self.entry = slot;
                            Ok(())
                        },
                        Err(e) => Err(e),
                    }
                } else {
                    Err(refuse(line, cat5("unknown key `", section.name(), ".", key, "`")))
                }
            },
            Section::Ffi => {
                if same(key, "search_paths") {
                    match array_value(value, line) {
                        Ok(v) => {
                            self.ffi_search_paths = v;
                            Ok(())
                        },
                        Err(e) => Err(e),
                    }
                } else {
                    Err(refuse(line, cat5("unknown key `", section.name(), ".", key, "`")))
                }
            },
            Section::Env => {
                if same(key, "allow_exec") {
                    match parse_bool(value) {
                        Some(b) => {
                            self.allow_exec = Some(b);
                            Ok(())
                        },
                        None => Err(
                            refuse(line, cat3("expected `true` or `false`, got `", value, "`")),
                        ),
                    }
                } else {
                    Err(refuse(line, cat5("unknown key `", section.name(), ".", key, "`")))
                }
            },
        }
    }

    fn read_line(&mut self, text: &str, line: usize) -> (r: Result<(), ManifestError>)
        ensures
            went(r, old(self)@.line_read(text@, line as nat), final(self)@),
    {
        if text.is_empty() {
            return Ok(());
        }
        if let Some(inner) = inside(text, '[', ']') {
            let name = trim(inner);
            return match find_section(name) {
                Some(s) => {
                    self.section = Some(s);
                    if s == Section::Package {
                        self.saw_package = true;
                    }
                    Ok(())
                },
                None => Err(refuse(line, cat3("unknown section `[", name, "]`"))),
            };
        }
        match self.section {
            Some(s) => match parse_kv(text) {
                Some((key, value)) => self.read_entry(s, key, value, line),
                None => Err(refuse(line, cat3("expected `key = value`, got `", text, "`"))),
            },
            None => Err(refuse(line, "key-value entry before any section header".to_owned())),
        }
    }

    fn finish(self) -> (r: Result<Manifest, ManifestError>)
        ensures
            match r {
                Ok(m) => self@.manifest() == Ok::<ManifestV, FaultV>(m@),
                Err(e) => self@.manifest() == Err::<ManifestV, FaultV>(e@),
            },
    {
        if self.name.is_none() && (self.saw_package || self.version.is_some()) {
            return Err(ManifestError::MissingKey { section: "package", key: "name" });
        }
        if self.name.is_some() && self.version.is_none() {
            return Err(ManifestError::MissingKey { section: "package", key: "version" });
        }
        let package = match (self.name, self.version) {
            (Some(name), Some(version)) => Some(
                PackageInfo {
                    name,
                    version,
                    coil: self.coil,
                    include_hook: self.include_hook,
                },
            ),
            _ => None,
        };
        let roots = match self.roots {
            Some(v) => v,
            None => plain_roots(),
        };
        let ffi_search_paths = match self.ffi_search_paths {
            Some(v) => v,
            None => {
                let v: Vec<String> = Vec::new();
                assert(texts(v@) =~= Seq::empty());
                v
            },
        };
        let allow_exec = match self.allow_exec {
            Some(b) => b,
            None => false,
        };
        Ok(
            Manifest {
                roots,
                entry: self.entry,
                ffi_search_paths,
                allow_exec,
                package,
                dependencies: self.dependencies,
                scripts: self.scripts,
            },
        )
    }
}

impl Manifest {
    /// Parses a manifest. The first refused line, or a package block without a name or a
    /// version, is the error.
    pub fn parse(source: &str) -> (r: Result<Manifest, ManifestError>)
        ensures
            match r {
                Ok(m) => parsed(source@) == Ok::<ManifestV, FaultV>(m@),
                Err(e) => parsed(source@) == Err::<ManifestV, FaultV>(e@),
            },
    {
        let mut draft = Draft::new();
        let spans = find_lines(source);
        let ghost ls = lines(source@);
        proof {
            spans_in_range(source@, 0);
        }
        let mut i: usize = 0;
        while i < spans.len()
            invariant
                i <= spans@.len(),
                spans_view(spans@) == line_spans(source@),
                ls == lines(source@),
                forall|k: int|
                    0 <= k < line_spans(source@).len() ==> 0 <= (#[trigger] line_spans(
                        source@,
                    )[k]).0 <= line_spans(source@)[k].1 <= source@.len(),
                read_from(ls, 0, empty_draft()) == read_from(ls, i as int, draft@),
            decreases spans@.len() - i,
        {
            let (a, b) = spans[i];
            assert(line_spans(source@)[i as int] == (a as int, b as int));
            let text = trim(strip_comment(source.substring_char(a, b)));
            assert(text@ == content(ls[i as int]));
            match draft.read_line(text, i + 1) {
                Ok(_) => {},
                Err(e) => return Err(e),
            }
            i += 1;
        }
        draft.finish()
    }
}


/// Where line `n` (counted from 1) stands in `source`, in characters; nowhere if there is none.
pub open spec fn line_span(source: Seq<char>, n: int) -> (int, int) {
    if 1 <= n <= line_spans(source).len() {
        line_spans(source)[n - 1]
    } else {
        (0, 0)
    }
}

/// A module file name.
pub open spec fn module_file(name: Seq<char>) -> Seq<char> {
    name + ".hy"@
}

/// For each root from `i` on, the module file `name` below the directory that the segments name.
pub open spec fn candidates_from(
    roots: Seq<Seq<char>>,
    project_root: Seq<char>,
    segments: Seq<Seq<char>>,
    name: Seq<char>,
    i: int,
) -> Seq<Seq<char>>
    decreases roots.len() - i,
{
    if i >= roots.len() {
        Seq::empty()
    } else {
        seq![join(join_all(join(project_root, roots[i]), segments, 0), module_file(name))]
            + candidates_from(roots, project_root, segments, name, i + 1)
    }
}

/// The first of the candidates from `i` on that is present.
pub open spec fn first_present(
    candidates: Seq<Seq<char>>,
    present: Seq<Seq<char>>,
    i: int,
) -> Option<Seq<char>>
    decreases candidates.len() - i,
{
    if i >= candidates.len() {
        None
    } else if present.contains(candidates[i]) {
        Some(candidates[i])
    } else {
        first_present(candidates, present, i + 1)
    }
}

impl ManifestV {
    /// Files that may hold `path::name` as a file of its own.
    pub open spec fn own_files(
        self,
        project_root: Seq<char>,
        path: Seq<Seq<char>>,
        name: Seq<char>,
    ) -> Seq<Seq<char>> {
        candidates_from(self.roots, project_root, path, name, 0)
    }

    /// Files of the module `path` itself, which may hold an item of it.
    pub open spec fn module_files(self, project_root: Seq<char>, path: Seq<Seq<char>>) -> Seq<
        Seq<char>,
    > {
        if path.len() == 0 {
            Seq::empty()
        } else {
            candidates_from(self.roots, project_root, path.drop_last(), path.last(), 0)
        }
    }

    /// The files in which `use path::name` looks, in order.
    pub open spec fn use_files(
        self,
        project_root: Seq<char>,
        path: Seq<Seq<char>>,
        name: Seq<char>,
    ) -> Seq<Seq<char>> {
        self.own_files(project_root, path, name) + self.module_files(project_root, path)
    }

    /// The namespace of the file at `file` by the roots from `i` on.
    pub open spec fn namespace_from(self, project_root: Seq<char>, file: Seq<char>, i: int) -> Option<
        Seq<char>,
    >
        decreases self.roots.len() - i,
    {
        if i >= self.roots.len() {
            None
        } else {
            let root = steps(join(project_root, self.roots[i]));
            if below(root, steps(file)) {
                Some(namespace(steps(file).skip(root.len() as int)))
            } else {
                self.namespace_from(project_root, file, i + 1)
            }
        }
    }
}

fn find_present(candidates: Vec<String>, present: &Vec<String>) -> (r: Option<String>)
    ensures
        opt_text(r) == first_present(texts(candidates@), texts(present@), 0),
{
    let ghost cv = texts(candidates@);
    let ghost pv = texts(present@);
    let mut i: usize = 0;
    while i < candidates.len()
        invariant
            i <= candidates@.len(),
            cv == texts(candidates@),
            pv == texts(present@),
            first_present(cv, pv, 0) == first_present(cv, pv, i as int),
        decreases candidates@.len() - i,
    {
        assert(cv[i as int] == candidates@[i as int]@);
        let mut k: usize = 0;
        while k < present.len()
            invariant
                i < candidates@.len(),
                k <= present@.len(),
                cv == texts(candidates@),
                pv == texts(present@),
                cv[i as int] == candidates@[i as int]@,
                first_present(cv, pv, 0) == first_present(cv, pv, i as int),
                forall|j: int| 0 <= j < k ==> pv[j] != cv[i as int],
            decreases present@.len() - k,
        {
            assert(pv[k as int] == present@[k as int]@);
            if same(candidates[i].as_str(), present[k].as_str()) {
                assert(pv.contains(cv[i as int]));
                return Some(candidates[i].as_str().to_owned());
            }
            k += 1;
        }
        assert(!pv.contains(cv[i as int]));
        i += 1;
    }
    None
}

impl Manifest {
    /// Bytes that the content of line `line_num` (counted from 1) covers in `source`; an empty
    /// range at 0 if there is no such line.
    pub fn byte_range_for_line(source: &str, line_num: usize) -> (r: std::ops::Range<usize>)
        ensures
            r.start == byte_len(source@.take(line_span(source@, line_num as int).0)),
            r.end == byte_len(source@.take(line_span(source@, line_num as int).1)),
    {
        let spans = find_lines(source);
        proof {
            spans_in_range(source@, 0);
        }
        assert(spans_view(spans@).len() == spans@.len());
        if line_num == 0 || line_num > spans.len() {
            assert(source@.take(0) =~= Seq::<char>::empty());
            return 0..0;
        }
        let (a, b) = spans[line_num - 1];
        assert(line_spans(source@)[line_num - 1] == (a as int, b as int));
        assert(source@.subrange(0, a as int) =~= source@.take(a as int));
        assert(source@.subrange(0, b as int) =~= source@.take(b as int));
        let start = byte_count(source.substring_char(0, a));
        let end = byte_count(source.substring_char(0, b));
        start..end
    }

    fn add_candidates(
        &self,
        project_root: &str,
        segments: &[String],
        n: usize,
        name: &str,
        out: &mut Vec<String>,
    )
        requires
            n <= segments@.len(),
        ensures
            texts(final(out)@) == texts(old(out)@) + candidates_from(
                self@.roots,
                project_root@,
                texts(segments@.take(n as int)),
                name@,
                0,
            ),
    {
        let file = cat2(name, ".hy");
        let ghost segs = texts(segments@.take(n as int));
        let ghost all = texts(out@) + candidates_from(self@.roots, project_root@, segs, name@, 0);
        let mut i: usize = 0;
        while i < self.roots.len()
            invariant
                i <= self.roots@.len(),
                n <= segments@.len(),
                file@ == module_file(name@),
                segs == texts(segments@.take(n as int)),
                all == texts(out@) + candidates_from(
                    self@.roots,
                    project_root@,
                    segs,
                    name@,
                    i as int,
                ),
            decreases self.roots@.len() - i,
        {
            assert(self@.roots[i as int] == self.roots@[i as int]@);
            let base = join_path(project_root, self.roots[i].as_str());
            let dir = join_segments(base.as_str(), segments, n);
            let c = join_path(dir.as_str(), file.as_str());
            let ghost out0 = texts(out@);
            out.push(c);
            assert(texts(out@) =~= out0.push(c@));
            assert(all =~= texts(out@) + candidates_from(
                self@.roots,
                project_root@,
                segs,
                name@,
                i + 1,
            ));
            i += 1;
        }
        assert(all =~= texts(out@));
    }

    /// The files in which `use path::name` looks, in order: for every search root the file
    /// `path/name.hy` of the item itself, then for every search root the file `path.hy` of its
    /// module.
    pub fn use_candidates(&self, project_root: &str, path: &[String], name: &str) -> (r: Vec<String>)
        ensures
            texts(r@) == self@.use_files(project_root@, texts(path@), name@),
    {
        let mut r: Vec<String> = Vec::new();
        let n = path.len();
        assert(path@.take(n as int) =~= path@);
        self.add_candidates(project_root, path, n, name, &mut r);
        assert(texts(r@) =~= self@.own_files(project_root@, texts(path@), name@));
        if n > 0 {
            assert(texts(path@.take(n - 1)) =~= texts(path@).drop_last());
            self.add_candidates(project_root, path, n - 1, path[n - 1].as_str(), &mut r);
        }
        r
    }

    /// The file in which `use path::name` finds its item: the first candidate that is among
    /// the `present` files.
    pub fn resolve_use(
        &self,
        project_root: &str,
        path: &[String],
        name: &str,
        present: &Vec<String>,
    ) -> (r: Option<String>)
        ensures
            opt_text(r) == first_present(
                self@.use_files(project_root@, texts(path@), name@),
                texts(present@),
                0,
            ),
    {
        find_present(self.use_candidates(project_root, path, name), present)
    }

    /// The files in which `mod name` looks, in order: `name.hy` in every search root.
    pub fn mod_candidates(&self, project_root: &str, name: &str) -> (r: Vec<String>)
        ensures
            texts(r@) == self@.own_files(project_root@, Seq::empty(), name@),
    {
        let mut r: Vec<String> = Vec::new();
        let none: Vec<String> = Vec::new();
        assert(texts(none@.take(0)) =~= Seq::empty());
        self.add_candidates(project_root, none.as_slice(), 0, name, &mut r);
        assert(texts(r@) =~= self@.own_files(project_root@, Seq::empty(), name@));
        r
    }

    /// The file that `mod name` declares: the first candidate that is among the `present` files.
    pub fn resolve_mod(&self, project_root: &str, name: &str, present: &Vec<String>) -> (r: Option<
        String,
    >)
        ensures
            opt_text(r) == first_present(
                self@.own_files(project_root@, Seq::empty(), name@),
                texts(present@),
                0,
            ),
    {
        find_present(self.mod_candidates(project_root, name), present)
    }

    /// The namespace of `file`: its path below the first search root that contains it, without
    /// the file extension, with `::` between the names. `None` outside every search root.
    pub fn namespace_of(&self, project_root: &str, file: &str) -> (r: Option<String>)
        ensures
            opt_text(r) == self@.namespace_from(project_root@, file@, 0),
    {
        let fs = components(file);
        let mut i: usize = 0;
        while i < self.roots.len()
            invariant
                i <= self.roots@.len(),
                steps_view(fs@) == steps(file@),
                self@.namespace_from(project_root@, file@, 0) == self@.namespace_from(
                    project_root@,
                    file@,
                    i as int,
                ),
            decreases self.roots@.len() - i,
        {
            assert(self@.roots[i as int] == self.roots@[i as int]@);
            let root = join_path(project_root, self.roots[i].as_str());
            let rs = components(root.as_str());
            assert(steps_view(rs@).len() == rs@.len());
            assert(steps_view(fs@).len() == fs@.len());
            if starts_with(&fs, &rs) {
                return Some(namespace_from(&fs, rs.len()));
            }
            i += 1;
        }
        None
    }
}

/// A manifest with nothing but blank lines and comments is the default manifest.
pub proof fn silent_source_is_default(source: Seq<char>)
    requires
        forall|i: int|
            0 <= i < lines(source).len() ==> content(#[trigger] lines(source)[i]).len() == 0,
    ensures
        parsed(source) == Ok::<ManifestV, FaultV>(plain_manifest()),
{
    silent_lines(lines(source), 0, empty_draft());
}

proof fn silent_lines(ls: Seq<Seq<char>>, i: int, d: DraftV)
    requires
        0 <= i,
        forall|k: int| 0 <= k < ls.len() ==> content(#[trigger] ls[k]).len() == 0,
    ensures
        read_from(ls, i, d) == Ok::<DraftV, FaultV>(d),
    decreases ls.len() - i,
{
    if i < ls.len() {
        silent_lines(ls, i + 1, d);
    }
}

/// Comments and the blanks around a line mean nothing: two manifests whose lines say the same
/// parse to the same result.
pub proof fn only_content_counts(a: Seq<char>, b: Seq<char>)
    requires
        lines(a).len() == lines(b).len(),
        forall|i: int|
            0 <= i < lines(a).len() ==> content(#[trigger] lines(a)[i]) == content(lines(b)[i]),
    ensures
        parsed(a) == parsed(b),
{
    same_reading(lines(a), lines(b), 0, empty_draft());
}

proof fn same_reading(a: Seq<Seq<char>>, b: Seq<Seq<char>>, i: int, d: DraftV)
    requires
        0 <= i,
        a.len() == b.len(),
        forall|k: int| 0 <= k < a.len() ==> content(#[trigger] a[k]) == content(b[k]),
    ensures
        read_from(a, i, d) == read_from(b, i, d),
    decreases a.len() - i,
{
    if i < a.len() {
        assert(content(a[i]) == content(b[i]));
        match d.line_read(content(a[i]), (i + 1) as nat) {
            Ok(d2) => same_reading(a, b, i + 1, d2),
            Err(_) => {},
        }
    }
}

/// Whether no two dependencies share a name.
pub open spec fn names_differ(deps: Seq<(Seq<char>, DependencyV)>) -> bool {
    forall|i: int, j: int| 0 <= i < j < deps.len() ==> (#[trigger] deps[i]).0 != (#[trigger] deps[j]).0
}

/// A parsed manifest declares each dependency once.
pub proof fn dependencies_are_declared_once(source: Seq<char>)
    ensures
        parsed(source) matches Ok(m) ==> names_differ(m.dependencies),
{
    reading_keeps_names(lines(source), 0, empty_draft());
}

proof fn reading_keeps_names(ls: Seq<Seq<char>>, i: int, d: DraftV)
    requires
        0 <= i,
        names_differ(d.dependencies),
    ensures
        read_from(ls, i, d) matches Ok(d2) ==> names_differ(d2.dependencies),
    decreases ls.len() - i,
{
    if i < ls.len() {
        match d.line_read(content(ls[i]), (i + 1) as nat) {
            Ok(d2) => {
                assert(names_differ(d2.dependencies));
                reading_keeps_names(ls, i + 1, d2);
            },
            Err(_) => {},
        }
    }
}

proof fn present_in_front(a: Seq<Seq<char>>, b: Seq<Seq<char>>, present: Seq<Seq<char>>, i: int)
    requires
        0 <= i <= a.len(),
    ensures
        first_present(a, present, i) is Some ==> first_present(a + b, present, i) == first_present(
            a,
            present,
            i,
        ),
        first_present(a, present, i) is None ==> first_present(a + b, present, i) == first_present(
            a + b,
            present,
            a.len() as int,
        ),
    decreases a.len() - i,
{
    if i < a.len() {
        present_in_front(a, b, present, i + 1);
        assert((a + b)[i] == a[i]);
    }
}

/// When both a file of the item's own and a file of its module are present, the item's own file
/// is taken.
pub proof fn own_file_shadows_module_file(
    m: ManifestV,
    project_root: Seq<char>,
    path: Seq<Seq<char>>,
    name: Seq<char>,
    present: Seq<Seq<char>>,
)
    requires
        first_present(m.own_files(project_root, path, name), present, 0) is Some,
    ensures
        first_present(m.use_files(project_root, path, name), present, 0) == first_present(
            m.own_files(project_root, path, name),
            present,
            0,
        ),
{
    present_in_front(
        m.own_files(project_root, path, name),
        m.module_files(project_root, path),
        present,
        0,
    );
}

/// A resolved file is present and one of the candidates; nothing is resolved only when no
/// candidate is present.
pub proof fn resolution_is_a_present_candidate(
    candidates: Seq<Seq<char>>,
    present: Seq<Seq<char>>,
)
    ensures
        match first_present(candidates, present, 0) {
            Some(f) => candidates.contains(f) && present.contains(f),
            None => forall|i: int|
                0 <= i < candidates.len() ==> !present.contains(#[trigger] candidates[i]),
        },
{
    resolution_from(candidates, present, 0);
}

proof fn resolution_from(candidates: Seq<Seq<char>>, present: Seq<Seq<char>>, i: int)
    requires
        0 <= i,
    ensures
        match first_present(candidates, present, i) {
            Some(f) => candidates.contains(f) && present.contains(f),
            None => forall|k: int|
                i <= k < candidates.len() ==> !present.contains(#[trigger] candidates[k]),
        },
    decreases candidates.len() - i,
{
    if i < candidates.len() {
        resolution_from(candidates, present, i + 1);
        if present.contains(candidates[i]) {
            assert(candidates.contains(candidates[i]));
        }
    }
}

} // verus!
