//! `/`-separated paths as text: joining, components, and the namespace a file stands for.
use vstd::prelude::*;
use vstd::string::*;
use crate::scan::{chars_of, last_at, last_in_range, pieces, same, split, texts};
use crate::text::cat2;
use crate::text::cat3;

verus! {

/// `b` below `a`. An absolute `b` stands for itself.
pub open spec fn join(a: Seq<char>, b: Seq<char>) -> Seq<char> {
    if b.len() > 0 && b[0] == '/' {
        b
    } else if a.len() == 0 || a.last() == '/' {
        a + b
    } else {
        a + "/"@ + b
    }
}

/// `base` with the segments from `i` on below it, one after the other.
pub open spec fn join_all(base: Seq<char>, segments: Seq<Seq<char>>, i: int) -> Seq<char>
    decreases segments.len() - i,
{
    if i >= segments.len() {
        base
    } else {
        join_all(join(base, segments[i]), segments, i + 1)
    }
}

/// One step of a path.
#[derive(Debug, PartialEq, Eq)]
pub enum Component {
    Root,
    Current,
    Parent,
    Normal(String),
}

/// One step of a path, with its name as text.
#[verifier::ext_equal]
pub ghost enum Step {
    Root,
    Current,
    Parent,
    Normal(Seq<char>),
}

impl View for Component {
    type V = Step;

    open spec fn view(&self) -> Step {
        match self {
            Component::Root => Step::Root,
            Component::Current => Step::Current,
            Component::Parent => Step::Parent,
            Component::Normal(s) => Step::Normal(s@),
        }
    }
}

/// The steps of `v`.
pub open spec fn steps_view(v: Seq<Component>) -> Seq<Step> {
    Seq::new(v.len(), |i: int| v[i]@)
}

/// The step that the piece of a path at position `at` takes. Empty pieces take none, and `.`
/// counts only at the start.
pub open spec fn step_of(piece: Seq<char>, at: int) -> Option<Step> {
    if piece.len() == 0 {
        None
    } else if piece == "."@ {
        if at == 0 {
            Some(Step::Current)
        } else {
            None
        }
    } else if piece == ".."@ {
        Some(Step::Parent)
    } else {
        Some(Step::Normal(piece))
    }
}

/// The steps of the pieces from `i` on.
pub open spec fn steps_from(ps: Seq<Seq<char>>, i: int) -> Seq<Step>
    decreases ps.len() - i,
{
    if i >= ps.len() {
        Seq::empty()
    } else {
        (match step_of(ps[i], i) {
            Some(s) => seq![s],
            None => Seq::empty(),
        }) + steps_from(ps, i + 1)
    }
}

/// The steps of a path.
pub open spec fn steps(path: Seq<char>) -> Seq<Step> {
    (if path.len() > 0 && path[0] == '/' {
        seq![Step::Root]
    } else {
        Seq::empty()
    }) + steps_from(pieces(path, '/'), 0)
}

/// A file name without its extension: what stands before the last `.`, unless that is nothing.
pub open spec fn stem(name: Seq<char>) -> Seq<char> {
    let k = last_at(name, '.', name.len() as int);
    if k > 0 {
        name.take(k)
    } else {
        name
    }
}

/// Names of the normal steps from `i` on, the last step of all without its extension. A stem
/// that is itself `.` or `..` names nothing.
pub open spec fn names_from(ss: Seq<Step>, i: int) -> Seq<Seq<char>>
    decreases ss.len() - i,
{
    if i >= ss.len() {
        Seq::empty()
    } else {
        (match ss[i] {
            Step::Normal(n) => if i + 1 < ss.len() {
                seq![n]
            } else if stem(n) == "."@ || stem(n) == ".."@ {
                Seq::empty()
            } else {
                seq![stem(n)]
            },
            _ => Seq::empty(),
        }) + names_from(ss, i + 1)
    }
}

/// The names joined by `::`.
pub open spec fn qualified(names: Seq<Seq<char>>) -> Seq<char>
    decreases names.len(),
{
    if names.len() == 0 {
        Seq::empty()
    } else if names.len() == 1 {
        names[0]
    } else {
        qualified(names.drop_last()) + "::"@ + names.last()
    }
}

/// The namespace of a file at those steps below a search root.
pub open spec fn namespace(ss: Seq<Step>) -> Seq<char> {
    qualified(names_from(ss, 0))
}

/// Whether the first steps of `ss` are those of `root`.
pub open spec fn below(root: Seq<Step>, ss: Seq<Step>) -> bool {
    root.len() <= ss.len() && ss.take(root.len() as int) == root
}

/// `b` below `a`.
pub fn join_path(a: &str, b: &str) -> (r: String)
    ensures
        r@ == join(a@, b@),
{
    let cb = chars_of(b);
    if cb.len() > 0 && cb[0] == '/' {
        return b.to_owned();
    }
    let ca = chars_of(a);
    if ca.len() == 0 || ca[ca.len() - 1] == '/' {
        cat2(a, b)
    } else {
        cat3(a, "/", b)
    }
}

/// `base` with the first `n` segments below it.
pub fn join_segments(base: &str, segments: &[String], n: usize) -> (r: String)
    requires
        n <= segments@.len(),
    ensures
        r@ == join_all(base@, texts(segments@.take(n as int)), 0),
{
    let mut r = base.to_owned();
    let mut i: usize = 0;
    let ghost ss = texts(segments@.take(n as int));
    while i < n
        invariant
            i <= n <= segments@.len(),
            ss == texts(segments@.take(n as int)),
            join_all(r@, ss, i as int) == join_all(base@, ss, 0),
        decreases n - i,
    {
        assert(ss[i as int] == segments@[i as int]@);
        let next = join_path(r.as_str(), segments[i].as_str());
        r = next;
        i += 1;
    }
    r
}

/// The steps of a path.
pub fn components(path: &str) -> (r: Vec<Component>)
    ensures
        steps_view(r@) == steps(path@),
{
    let cs = chars_of(path);
    let mut r: Vec<Component> = Vec::new();
    if cs.len() > 0 && cs[0] == '/' {
        r.push(Component::Root);
        assert(steps_view(r@) =~= seq![Step::Root]);
    } else {
        assert(steps_view(r@) =~= Seq::empty());
    }
    let ps = split(path, '/');
    let ghost pv = pieces(path@, '/');
    let mut i: usize = 0;
    while i < ps.len()
        invariant
            i <= ps@.len(),
            texts(ps@) == pv,
            steps_view(r@) + steps_from(pv, i as int) == steps(path@),
        decreases ps@.len() - i,
    {
        let ghost r0 = steps_view(r@);
        assert(pv[i as int] == ps@[i as int]@);
        let p = ps[i].as_str();
        if p.is_empty() {
            assert(r0 + steps_from(pv, i as int) =~= r0 + steps_from(pv, i + 1));
        } else if same(p, ".") {
            if i == 0 {
                r.push(Component::Current);
                assert(steps_view(r@) =~= r0.push(Step::Current));
                assert(r0.push(Step::Current) + steps_from(pv, i + 1) =~= r0 + steps_from(
                    pv,
                    i as int,
                ));
            } else {
                assert(r0 + steps_from(pv, i as int) =~= r0 + steps_from(pv, i + 1));
            }
        } else if same(p, "..") {
            r.push(Component::Parent);
            assert(steps_view(r@) =~= r0.push(Step::Parent));
            assert(r0.push(Step::Parent) + steps_from(pv, i + 1) =~= r0 + steps_from(pv, i as int));
        } else {
            r.push(Component::Normal(p.to_owned()));
            assert(steps_view(r@) =~= r0.push(Step::Normal(p@)));
            assert(r0.push(Step::Normal(p@)) + steps_from(pv, i + 1) =~= r0 + steps_from(
                pv,
                i as int,
            ));
        }
        i += 1;
    }
    assert(steps_view(r@) + steps_from(pv, i as int) =~= steps_view(r@));
    r
}

fn same_component(a: &Component, b: &Component) -> (r: bool)
    ensures
        r == (a@ == b@),
{
    match (a, b) {
        (Component::Root, Component::Root) => true,
        (Component::Current, Component::Current) => true,
        (Component::Parent, Component::Parent) => true,
        (Component::Normal(x), Component::Normal(y)) => same(x.as_str(), y.as_str()),
        _ => false,
    }
}

/// Whether the first steps of `cs` are those of `root`.
pub fn starts_with(cs: &Vec<Component>, root: &Vec<Component>) -> (r: bool)
    ensures
        r == below(steps_view(root@), steps_view(cs@)),
{
    let n = root.len();
    if n > cs.len() {
        return false;
    }
    let ghost rv = steps_view(root@);
    let ghost cv = steps_view(cs@);
    let mut i: usize = 0;
    while i < n
        invariant
            i <= n,
            n == root@.len(),
            n <= cs@.len(),
            rv == steps_view(root@),
            cv == steps_view(cs@),
            forall|k: int| 0 <= k < i ==> cv[k] == rv[k],
        decreases n - i,
    {
        if !same_component(&cs[i], &root[i]) {
            assert(cv.take(n as int)[i as int] != rv[i as int]);
            return false;
        }
        i += 1;
    }
    assert(cv.take(n as int) =~= rv);
    true
}

fn stem_of(name: &str) -> (r: String)
    ensures
        r@ == stem(name@),
{
    let cs = chars_of(name);
    let mut n = cs.len();
    proof {
        last_in_range(name@, '.', name@.len() as int);
    }
    while n > 0 && cs[n - 1] != '.'
        invariant
            n <= cs@.len(),
            cs@ == name@,
            last_at(name@, '.', name@.len() as int) == last_at(name@, '.', n as int),
        decreases n,
    {
        n -= 1;
    }
    if n > 1 {
        let r = name.substring_char(0, n - 1).to_owned();
        assert(r@ =~= name@.take(n - 1));
        r
    } else {
        name.to_owned()
    }
}

/// The namespace of a file at the steps of `cs` from `from` on.
pub fn namespace_from(cs: &Vec<Component>, from: usize) -> (r: String)
    requires
        from <= cs@.len(),
    ensures
        r@ == namespace(steps_view(cs@).skip(from as int)),
{
    let ghost ss = steps_view(cs@).skip(from as int);
    let n = cs.len();
    let mut r = "".to_owned();
    let mut first = true;
    let mut i: usize = from;
    let ghost mut names: Seq<Seq<char>> = Seq::empty();
    proof {
        reveal_strlit("");
        assert(r@ =~= qualified(names));
        assert(names + names_from(ss, 0) =~= names_from(ss, 0));
    }
    while i < n
        invariant
            from <= i <= n,
            n == cs@.len(),
            ss == steps_view(cs@).skip(from as int),
            names + names_from(ss, i - from) == names_from(ss, 0),
            r@ == qualified(names),
            first == (names.len() == 0),
        decreases n - i,
    {
        let ghost at = i - from;
        let ghost old_names = names;
        assert(ss[at] == cs@[i as int]@);
        let mut named: Option<String> = None;
        if let Component::Normal(s) = &cs[i] {
            if i < n - 1 {
                named = Some(s.as_str().to_owned());
            } else {
                let t = stem_of(s.as_str());
                if !same(t.as_str(), ".") && !same(t.as_str(), "..") {
                    named = Some(t);
                }
            }
        }
        match named {
            Some(t) => {
                proof {
                    names = names.push(t@);
                    assert(names.drop_last() =~= old_names);
                    assert(names + names_from(ss, at + 1) =~= old_names + names_from(ss, at));
                }
                if first {
                    r = t;
                    first = false;
                } else {
                    r.append("::");
                    r.append(t.as_str());
                }
            },
            None => {
                assert(names + names_from(ss, at + 1) =~= names + names_from(ss, at));
            },
        }
        i += 1;
    }
    assert(names + names_from(ss, n - from) =~= names);
    r
}

/// The namespace of a file by its path relative to a search root: the path without the file
/// extension, with `::` between its names.
pub fn path_to_namespace(rel: &str) -> (r: String)
    ensures
        r@ == namespace(steps(rel@)),
{
    let cs = components(rel);
    assert(steps_view(cs@).skip(0) =~= steps_view(cs@));
    namespace_from(&cs, 0)
}

} // verus!
