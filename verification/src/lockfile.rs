//! The lock file (`coil.lock`) as far as native libraries go.
//!
//! `[[package]]` opens a package, `[[package.native]]` a native row of it. A native row pins the
//! SHA-256 of the library that the package loads, under the stem by which programs load it.
//! Everything else in the file is ignored.
use vstd::prelude::*;
use vstd::string::*;
use crate::manifest::{
    dependencies_view, entry_parts, enclosed, DependencySpec, DependencyV,
};
use crate::scan::{
    before, byte_count, byte_len, chars_of, find_from, find_lines, line_spans, lines,
    opt_text, same, spans_in_range, spans_view, split_once, texts, trim, trimmed,
};

verus! {

/// The native part of a lock file.
#[derive(Clone, Debug, PartialEq, Eq)]
pub struct Lockfile {
    /// Stem and hash of each pinned native library.
    pub native_pins: Vec<(String, String)>,
    /// Package name and stem of each native row.
    pub package_stems: Vec<(String, String)>,
}

/// The native part of a lock file, as text.
#[verifier::ext_equal]
pub ghost struct LockV {
    pub native_pins: Seq<(Seq<char>, Seq<char>)>,
    pub package_stems: Seq<(Seq<char>, Seq<char>)>,
}

/// Pairs of strings as text.
pub open spec fn pairs_view(v: Seq<(String, String)>) -> Seq<(Seq<char>, Seq<char>)> {
    Seq::new(v.len(), |i: int| (v[i].0@, v[i].1@))
}

impl View for Lockfile {
    type V = LockV;

    open spec fn view(&self) -> LockV {
        LockV {
            native_pins: pairs_view(self.native_pins@),
            package_stems: pairs_view(self.package_stems@),
        }
    }
}

/// A lock file that pins nothing.
pub open spec fn no_pins() -> LockV {
    LockV { native_pins: Seq::empty(), package_stems: Seq::empty() }
}

impl Default for Lockfile {
    fn default() -> (r: Self)
        ensures
            r@ == no_pins(),
    {
        let r = Lockfile { native_pins: Vec::new(), package_stems: Vec::new() };
        assert(r@ =~= no_pins());
        r
    }
}

/// `s` without a leading `coil-`.
pub open spec fn without_prefix(s: Seq<char>) -> Seq<char> {
    if s.len() >= 5 && s.take(5) == "coil-"@ {
        s.skip(5)
    } else {
        s
    }
}

/// The stem by which programs load the library of package `pkg`: the one that its native row
/// names, or else the package name without a leading `coil-`.
pub open spec fn stem_for(pkg: Seq<char>, native_stem: Option<Seq<char>>) -> Seq<char> {
    match native_stem {
        Some(s) => if s.len() > 0 {
            s
        } else {
            without_prefix(pkg)
        },
        None => without_prefix(pkg),
    }
}

fn stripped(s: &str) -> (r: String)
    ensures
        r@ == without_prefix(s@),
{
    let n = s.unicode_len();
    if n >= 5 {
        let head = s.substring_char(0, 5);
        assert(head@ =~= s@.take(5));
        if same(head, "coil-") {
            let r = s.substring_char(5, n).to_owned();
            assert(r@ =~= s@.skip(5));
            return r;
        }
    }
    s.to_owned()
}

/// The stem by which programs load the library of package `pkg`.
pub fn dload_stem_for_package(pkg: &str, native_stem: &Option<String>) -> (r: String)
    ensures
        r@ == stem_for(pkg@, opt_text(*native_stem)),
{
    if let Some(s) = native_stem {
        if !s.as_str().is_empty() {
            return s.as_str().to_owned();
        }
    }
    stripped(pkg)
}

/// A line without its comment. A `#` behind a quote is no comment.
pub open spec fn uncommented(line: Seq<char>) -> Seq<char> {
    let head = before(line, '#');
    if head.contains('\'') || head.contains('"') {
        line
    } else {
        head
    }
}

fn strip_comment(line: &str) -> (r: &str)
    ensures
        r@ == uncommented(line@),
{
    let cs = chars_of(line);
    let k = find_from(&cs, '#', 0);
    let ghost head = before(line@, '#');
    let mut i: usize = 0;
    while i < k
        invariant
            i <= k <= cs@.len(),
            cs@ == line@,
            head == line@.take(k as int),
            head == before(line@, '#'),
            forall|j: int| 0 <= j < i ==> head[j] != '\'' && head[j] != '"',
        decreases k - i,
    {
        if cs[i] == '\'' || cs[i] == '"' {
            assert(head[i as int] == cs@[i as int]);
            assert(head.contains('\'') || head.contains('"'));
            return line;
        }
        i += 1;
    }
    let r = line.substring_char(0, k);
    assert(r@ =~= head);
    r
}

/// The value without the single or double quotes around it.
pub open spec fn unquoted(value: Seq<char>) -> Seq<char> {
    match enclosed(trimmed(value), '\'', '\'') {
        Some(s) => s,
        None => match enclosed(trimmed(value), '"', '"') {
            Some(s) => s,
            None => trimmed(value),
        },
    }
}

fn unquote(value: &str) -> (r: String)
    ensures
        r@ == unquoted(value@),
{
    let t = trim(value);
    let cs = chars_of(t);
    let n = cs.len();
    if n >= 2 && ((cs[0] == '\'' && cs[n - 1] == '\'') || (cs[0] == '"' && cs[n - 1] == '"')) {
        t.substring_char(1, n - 1).to_owned()
    } else {
        t.to_owned()
    }
}

/// What has been read of a lock file.
#[verifier::ext_equal]
pub ghost struct ReadV {
    pub lock: LockV,
    pub package: Seq<char>,
    pub sha: Option<Seq<char>>,
    pub stem: Option<Seq<char>>,
    pub in_native: bool,
}

/// Nothing read yet.
pub open spec fn nothing_read() -> ReadV {
    ReadV { lock: no_pins(), package: Seq::empty(), sha: None, stem: None, in_native: false }
}

impl ReadV {
    /// The lock with the open native row. A row needs a package with a name and a stem; only a
    /// hash of 64 bytes is a pin.
    pub open spec fn closed_row(self) -> LockV {
        let stem = stem_for(self.package, self.stem);
        if self.package.len() == 0 || stem.len() == 0 {
            self.lock
        } else {
            LockV {
                package_stems: if self.stem is Some || self.sha is Some {
                    self.lock.package_stems.push((self.package, stem))
                } else {
                    self.lock.package_stems
                },
                native_pins: match self.sha {
                    Some(h) => if byte_len(h) == 64 {
                        self.lock.native_pins.push((stem, h))
                    } else {
                        self.lock.native_pins
                    },
                    None => self.lock.native_pins,
                },
            }
        }
    }

    /// After a line that says `text`.
    pub open spec fn line_read(self, text: Seq<char>) -> ReadV {
        if text == "[[package]]"@ {
            ReadV {
                lock: self.closed_row(),
                package: Seq::empty(),
                sha: None,
                stem: None,
                in_native: false,
            }
        } else if text == "[[package.native]]"@ {
            ReadV {
                lock: self.closed_row(),
                package: self.package,
                sha: None,
                stem: None,
                in_native: true,
            }
        } else {
            match entry_parts(text) {
                Some(p) => if p.0 == "name"@ && !self.in_native {
                    ReadV { package: unquoted(p.1), ..self }
                } else if p.0 == "sha256"@ && self.in_native {
                    ReadV { sha: Some(unquoted(p.1)), ..self }
                } else if (p.0 == "stem"@ || p.0 == "lib"@) && self.in_native {
                    ReadV { stem: Some(unquoted(p.1)), ..self }
                } else {
                    self
                },
                None => self,
            }
        }
    }
}

/// After the lines from `i` on; blank lines are skipped.
pub open spec fn read_from(ls: Seq<Seq<char>>, i: int, d: ReadV) -> ReadV
    decreases ls.len() - i,
{
    if i >= ls.len() {
        d
    } else {
        let text = trimmed(uncommented(ls[i]));
        read_from(
            ls,
            i + 1,
            if text.len() == 0 {
                d
            } else {
                d.line_read(text)
            },
        )
    }
}

/// The lock that `source` describes.
pub open spec fn locked(source: Seq<char>) -> LockV {
    read_from(lines(source), 0, nothing_read()).closed_row()
}

/// What has been read of a lock file.
#[derive(Debug)]
pub struct LockDraft {
    pub lock: Lockfile,
    pub package: String,
    pub sha: Option<String>,
    pub stem: Option<String>,
    pub in_native: bool,
}

impl View for LockDraft {
    type V = ReadV;

    open spec fn view(&self) -> ReadV {
        ReadV {
            lock: self.lock@,
            package: self.package@,
            sha: opt_text(self.sha),
            stem: opt_text(self.stem),
            in_native: self.in_native,
        }
    }
}

impl LockDraft {
    fn new() -> (r: LockDraft)
        ensures
            r@ == nothing_read(),
    {
        proof {
            reveal_strlit("");
        }
        let r = LockDraft {
            lock: Lockfile::default(),
            package: "".to_owned(),
            sha: None,
            stem: None,
            in_native: false,
        };
        assert(r.package@ =~= Seq::<char>::empty());
        r
    }

    fn flush_native(&mut self)
        ensures
            final(self)@ == (ReadV {
                lock: old(self)@.closed_row(),
                sha: None,
                stem: None,
                ..old(self)@
            }),
    {
        let mut sha: Option<String> = None;
        let mut native_stem: Option<String> = None;
        std::mem::swap(&mut sha, &mut self.sha);
        std::mem::swap(&mut native_stem, &mut self.stem);
        if self.package.as_str().is_empty() {
            return;
        }
        let stem = dload_stem_for_package(self.package.as_str(), &native_stem);
        if stem.as_str().is_empty() {
            return;
        }
        if native_stem.is_some() || sha.is_some() {
            let ghost before_push = self.lock@.package_stems;
            self.lock.package_stems.push(
                (self.package.as_str().to_owned(), stem.as_str().to_owned()),
            );
            assert(self.lock@.package_stems =~= before_push.push((self.package@, stem@)));
        }
        if let Some(h) = sha {
            if byte_count(h.as_str()) == 64 {
                let ghost before_push = self.lock@.native_pins;
                self.lock.native_pins.push((stem, h));
                assert(self.lock@.native_pins =~= before_push.push((stem@, h@)));
            }
        }
    }

    fn read_line(&mut self, text: &str)
        ensures
            final(self)@ == old(self)@.line_read(text@),
    {
        if same(text, "[[package]]") {
            self.flush_native();
            proof {
                reveal_strlit("");
            }
            self.in_native = false;
            self.package = "".to_owned();
            assert(self.package@ =~= Seq::<char>::empty());
            return;
        }
        if same(text, "[[package.native]]") {
            self.flush_native();
            self.in_native = true;
            return;
        }
        if let Some((k, v)) = split_once(text, '=') {
            let key = trim(k);
            let value = trim(v);
            if same(key, "name") && !self.in_native {
                self.package = unquote(value);
            } else if same(key, "sha256") && self.in_native {
                self.sha = Some(unquote(value));
            } else if (same(key, "stem") || same(key, "lib")) && self.in_native {
                self.stem = Some(unquote(value));
            }
        }
    }
}

impl Lockfile {
    /// Parses a lock file. Unknown keys are ignored, and so are native rows that pin nothing.
    pub fn parse(source: &str) -> (r: Lockfile)
        ensures
            r@ == locked(source@),
    {
        let mut draft = LockDraft::new();
        let spans = find_lines(source);
        let ghost ls = lines(source@);
        proof {
            spans_in_range(source@, 0);
        }
        let mut i: usize = 0;
        while i < spans.len()
            invariant
                i <= spans@.len(),
                spans_view(spans@) == line_spans(source@),
                ls == lines(source@),
                forall|k: int|
                    0 <= k < line_spans(source@).len() ==> 0 <= (#[trigger] line_spans(
                        source@,
                    )[k]).0 <= line_spans(source@)[k].1 <= source@.len(),
                read_from(ls, 0, nothing_read()) == read_from(ls, i as int, draft@),
            decreases spans@.len() - i,
        {
            let (a, b) = spans[i];
            assert(line_spans(source@)[i as int] == (a as int, b as int));
            let text = trim(strip_comment(source.substring_char(a, b)));
            assert(text@ == trimmed(uncommented(ls[i as int])));
            if !text.is_empty() {
                draft.read_line(text);
            }
            i += 1;
        }
        draft.flush_native();
        draft.lock
    }

    /// Stem and hash of each pinned native library.
    pub fn native_pins(&self) -> (r: &[(String, String)])
        ensures
            r@ == self.native_pins@,
    {
        self.native_pins.as_slice()
    }

    /// Extra stems whose `[dependencies]` row is `trusted = true`.
    pub fn trusted_extra_stems(&self, dependencies: &[(String, DependencySpec)]) -> (r: Vec<String>)
        ensures
            texts(r@) == trusted_from(
                dependencies_view(dependencies@),
                self@.package_stems,
                0,
            ),
    {
        trusted_extra_stems(dependencies, self)
    }
}

/// The stems of the rows from `i` on that belong to package `name`.
pub open spec fn stems_of(rows: Seq<(Seq<char>, Seq<char>)>, name: Seq<char>, i: int) -> Seq<
    Seq<char>,
>
    decreases rows.len() - i,
{
    if i >= rows.len() {
        Seq::empty()
    } else {
        (if rows[i].0 == name {
            seq![rows[i].1]
        } else {
            Seq::empty()
        }) + stems_of(rows, name, i + 1)
    }
}

/// The stems of one dependency: its name, the name without `coil-` where that differs, and the
/// stems of its native rows.
pub open spec fn stems_for(rows: Seq<(Seq<char>, Seq<char>)>, name: Seq<char>) -> Seq<Seq<char>> {
    (if without_prefix(name) != name {
        seq![name, without_prefix(name)]
    } else {
        seq![name]
    }) + stems_of(rows, name, 0)
}

/// The stems of the trusted dependencies from `i` on.
pub open spec fn trusted_from(
    deps: Seq<(Seq<char>, DependencyV)>,
    rows: Seq<(Seq<char>, Seq<char>)>,
    i: int,
) -> Seq<Seq<char>>
    decreases deps.len() - i,
{
    if i >= deps.len() {
        Seq::empty()
    } else {
        (if deps[i].1.trusted() {
            stems_for(rows, deps[i].0)
        } else {
            Seq::empty()
        }) + trusted_from(deps, rows, i + 1)
    }
}

/// The stems that load without a pinned hash: of each trusted dependency its name, the name
/// without `coil-`, and the stems of its native rows.
pub fn trusted_extra_stems(dependencies: &[(String, DependencySpec)], lock: &Lockfile) -> (r: Vec<
    String,
>)
    ensures
        texts(r@) == trusted_from(
            dependencies_view(dependencies@),
            lock@.package_stems,
            0,
        ),
{
    let mut r: Vec<String> = Vec::new();
    let ghost deps = dependencies_view(dependencies@);
    let ghost rows = lock@.package_stems;
    let ghost all = trusted_from(deps, rows, 0);
    assert(all =~= texts(r@) + trusted_from(deps, rows, 0));
    let mut i: usize = 0;
    while i < dependencies.len()
        invariant
            i <= dependencies@.len(),
            deps == dependencies_view(dependencies@),
            rows == lock@.package_stems,
            all == texts(r@) + trusted_from(deps, rows, i as int),
        decreases dependencies@.len() - i,
    {
        let ghost r0 = texts(r@);
        assert(deps[i as int] == (dependencies@[i as int].0@, dependencies@[i as int].1@));
        let name = dependencies[i].0.as_str();
        if dependencies[i].1.trusted() {
            r.push(name.to_owned());
            assert(texts(r@) =~= r0.push(name@));
            let short = stripped(name);
            if !same(short.as_str(), name) {
                r.push(short);
                assert(texts(r@) =~= r0.push(name@).push(short@));
            }
            let ghost r1 = texts(r@);
            assert(r1 + stems_of(rows, name@, 0) =~= r0 + stems_for(rows, name@));
            let mut k: usize = 0;
            while k < lock.package_stems.len()
                invariant
                    k <= lock.package_stems@.len(),
                    rows == lock@.package_stems,
                    r1 + stems_of(rows, name@, 0) == texts(r@) + stems_of(
                        rows,
                        name@,
                        k as int,
                    ),
                decreases lock.package_stems@.len() - k,
            {
                let ghost r2 = texts(r@);
                assert(rows[k as int] == (
                    lock.package_stems@[k as int].0@,
                    lock.package_stems@[k as int].1@,
                ));
                if same(lock.package_stems[k].0.as_str(), name) {
                    r.push(lock.package_stems[k].1.as_str().to_owned());
                    assert(texts(r@) =~= r2.push(rows[k as int].1));
                }
                assert(r2 + stems_of(rows, name@, k as int) =~= texts(r@) + stems_of(
                    rows,
                    name@,
                    k + 1,
                ));
                k += 1;
            }
            assert(texts(r@) =~= r0 + stems_for(rows, name@));
        }
        assert(all =~= texts(r@) + trusted_from(deps, rows, i + 1));
        i += 1;
    }
    assert(all =~= texts(r@));
    r
}

/// Whether every pin has a stem and a hash of 64 bytes, and every row a package and a stem.
pub open spec fn rows_complete(l: LockV) -> bool {
    &&& forall|i: int|
        0 <= i < l.native_pins.len() ==> (#[trigger] l.native_pins[i]).0.len() > 0 && byte_len(
            l.native_pins[i].1,
        ) == 64
    &&& forall|i: int|
        0 <= i < l.package_stems.len() ==> (#[trigger] l.package_stems[i]).0.len() > 0
            && l.package_stems[i].1.len() > 0
}

/// A parsed lock file pins only complete rows: each pin has a stem and a hash of 64 bytes.
pub proof fn pins_are_complete(source: Seq<char>)
    ensures
        rows_complete(locked(source)),
{
    reading_keeps_rows(lines(source), 0, nothing_read());
    let d = read_from(lines(source), 0, nothing_read());
    closing_keeps_rows(d);
}

proof fn closing_keeps_rows(d: ReadV)
    requires
        rows_complete(d.lock),
    ensures
        rows_complete(d.closed_row()),
{
}

proof fn reading_keeps_rows(ls: Seq<Seq<char>>, i: int, d: ReadV)
    requires
        0 <= i,
        rows_complete(d.lock),
    ensures
        rows_complete(read_from(ls, i, d).lock),
    decreases ls.len() - i,
{
    if i < ls.len() {
        let text = trimmed(uncommented(ls[i]));
        closing_keeps_rows(d);
        reading_keeps_rows(
            ls,
            i + 1,
            if text.len() == 0 {
                d
            } else {
                d.line_read(text)
            },
        );
    }
}

/// A dependency that is not trusted adds no stem: without trusted dependencies there is none.
pub proof fn untrusted_dependencies_add_no_stem(
    deps: Seq<(Seq<char>, DependencyV)>,
    rows: Seq<(Seq<char>, Seq<char>)>,
    i: int,
)
    requires
        0 <= i,
        forall|k: int| 0 <= k < deps.len() ==> !(#[trigger] deps[k]).1.trusted(),
    ensures
        trusted_from(deps, rows, i) == Seq::<Seq<char>>::empty(),
    decreases deps.len() - i,
{
    if i < deps.len() {
        untrusted_dependencies_add_no_stem(deps, rows, i + 1);
    }
}

} // verus!
