//! Scanning text: lines, trimming, splitting at a character.
use vstd::prelude::*;
use vstd::string::*;
use vstd::utf8::encode_utf8;

verus! {

/// A character with the Unicode property `White_Space`.
pub open spec fn blank(c: char) -> bool {
    let n = c as u32;
    ||| 0x9 <= n <= 0xD
    ||| n == 0x20
    ||| n == 0x85
    ||| n == 0xA0
    ||| n == 0x1680
    ||| 0x2000 <= n <= 0x200A
    ||| n == 0x2028
    ||| n == 0x2029
    ||| n == 0x202F
    ||| n == 0x205F
    ||| n == 0x3000
}

fn is_blank(c: char) -> (r: bool)
    ensures
        r == blank(c),
{
    let n = c as u32;
    (0x9 <= n && n <= 0xD) || n == 0x20 || n == 0x85 || n == 0xA0 || n == 0x1680 || (0x2000 <= n
        && n <= 0x200A) || n == 0x2028 || n == 0x2029 || n == 0x202F || n == 0x205F || n == 0x3000
}

/// `s` without its leading blanks.
pub open spec fn trim_front(s: Seq<char>) -> Seq<char>
    decreases s.len(),
{
    if s.len() > 0 && blank(s[0]) {
        trim_front(s.skip(1))
    } else {
        s
    }
}

/// `s` without its trailing blanks.
pub open spec fn trim_back(s: Seq<char>) -> Seq<char>
    decreases s.len(),
{
    if s.len() > 0 && blank(s.last()) {
        trim_back(s.drop_last())
    } else {
        s
    }
}

/// `s` without the blanks at either end.
pub open spec fn trimmed(s: Seq<char>) -> Seq<char> {
    trim_back(trim_front(s))
}

/// Position of the first `c` in `s` at or after `i`; the length of `s` if there is none.
pub open spec fn first_at(s: Seq<char>, c: char, i: int) -> int
    decreases s.len() - i,
{
    if i >= s.len() {
        s.len() as int
    } else if s[i] == c {
        i
    } else {
        first_at(s, c, i + 1)
    }
}

/// Position of the last `c` in the first `n` characters of `s`; -1 if there is none.
pub open spec fn last_at(s: Seq<char>, c: char, n: int) -> int
    decreases n,
{
    if n <= 0 {
        -1
    } else if s[n - 1] == c {
        n - 1
    } else {
        last_at(s, c, n - 1)
    }
}

/// The part of `s` before the first `c`, or all of it.
pub open spec fn before(s: Seq<char>, c: char) -> Seq<char> {
    s.take(first_at(s, c, 0))
}

/// The two sides of the first `c` in `s`.
pub open spec fn split_pair(s: Seq<char>, c: char) -> Option<(Seq<char>, Seq<char>)> {
    let k = first_at(s, c, 0);
    if k < s.len() {
        Some((s.take(k), s.skip(k + 1)))
    } else {
        None
    }
}

/// The pieces of `s` from `i` on that every `c` separates.
pub open spec fn pieces_from(s: Seq<char>, c: char, i: int) -> Seq<Seq<char>>
    decreases s.len() - i,
    when 0 <= i <= s.len()
    via pieces_shrink
{
    let k = first_at(s, c, i);
    if k >= s.len() {
        seq![s.skip(i)]
    } else {
        seq![s.subrange(i, k)] + pieces_from(s, c, k + 1)
    }
}

#[via_fn]
proof fn pieces_shrink(s: Seq<char>, c: char, i: int) {
    first_in_range(s, c, i);
}

/// The pieces of `s` that every `c` separates; one more than there are separators.
pub open spec fn pieces(s: Seq<char>, c: char) -> Seq<Seq<char>> {
    pieces_from(s, c, 0)
}

/// Where each line of `s` from `i` on begins and ends. A line ends before its `\n` or `\r\n`;
/// nothing follows the last terminator.
pub open spec fn spans_from(s: Seq<char>, i: int) -> Seq<(int, int)>
    decreases s.len() - i,
    when 0 <= i <= s.len()
    via spans_shrink
{
    if i >= s.len() {
        Seq::empty()
    } else {
        let k = first_at(s, '\n', i);
        if k >= s.len() {
            seq![(i, s.len() as int)]
        } else {
            seq![(i, if k > i && s[k - 1] == '\r' { k - 1 } else { k })] + spans_from(s, k + 1)
        }
    }
}

#[via_fn]
proof fn spans_shrink(s: Seq<char>, i: int) {
    first_in_range(s, '\n', i);
}

/// Where each line of `s` begins and ends.
pub open spec fn line_spans(s: Seq<char>) -> Seq<(int, int)> {
    spans_from(s, 0)
}

/// The lines of `s`, without their terminators.
pub open spec fn lines(s: Seq<char>) -> Seq<Seq<char>> {
    Seq::new(line_spans(s).len(), |k: int| s.subrange(line_spans(s)[k].0, line_spans(s)[k].1))
}

/// Number of bytes of `s` in UTF-8.
pub open spec fn byte_len(s: Seq<char>) -> nat {
    encode_utf8(s).len()
}

/// The first occurrence is at or after where the search began, and no later than the end.
pub proof fn first_in_range(s: Seq<char>, c: char, i: int)
    requires
        0 <= i <= s.len(),
    ensures
        i <= first_at(s, c, i) <= s.len(),
        first_at(s, c, i) < s.len() ==> s[first_at(s, c, i)] == c,
    decreases s.len() - i,
{
    if i < s.len() && s[i] != c {
        first_in_range(s, c, i + 1);
    }
}

/// The last occurrence is one of the searched positions.
pub proof fn last_in_range(s: Seq<char>, c: char, n: int)
    requires
        0 <= n <= s.len(),
    ensures
        -1 <= last_at(s, c, n) < s.len(),
    decreases n,
{
    if n > 0 && s[n - 1] != c {
        last_in_range(s, c, n - 1);
    }
}

/// Every line lies within the text.
pub proof fn spans_in_range(s: Seq<char>, i: int)
    requires
        0 <= i <= s.len(),
    ensures
        forall|k: int|
            0 <= k < spans_from(s, i).len() ==> i <= (#[trigger] spans_from(s, i)[k]).0
                <= spans_from(s, i)[k].1 <= s.len(),
    decreases s.len() - i,
{
    if i < s.len() {
        first_in_range(s, '\n', i);
        let k = first_at(s, '\n', i);
        if k < s.len() {
            spans_in_range(s, k + 1);
            assert forall|j: int| 0 <= j < spans_from(s, i).len() implies i <= (
            #[trigger] spans_from(s, i)[j]).0 <= spans_from(s, i)[j].1 <= s.len() by {
                if j > 0 {
                    assert(spans_from(s, i)[j] == spans_from(s, k + 1)[j - 1]);
                }
            }
        }
    }
}

/// The characters of `s`.
pub fn chars_of(s: &str) -> (r: Vec<char>)
    ensures
        r@ == s@,
{
    let mut r: Vec<char> = Vec::new();
    for c in it: s.chars()
        invariant
            it.seq() == s@,
            r@ == s@.take(it.index() as int),
    {
        r.push(c);
        assert(r@ =~= s@.take(it.index() + 1));
    }
    assert(s@.take(s@.len() as int) =~= s@);
    r
}

/// Number of characters of `s`.
pub fn char_count(s: &str) -> (r: usize)
    ensures
        r == s@.len(),
{
    s.unicode_len()
}

/// Number of bytes of `s`.
pub fn byte_count(s: &str) -> (r: usize)
    ensures
        r == byte_len(s@),
{
    s.as_bytes().len()
}

/// Where `c` first stands in `cs` at or after `from`.
pub fn find_from(cs: &Vec<char>, c: char, from: usize) -> (r: usize)
    requires
        from <= cs@.len(),
    ensures
        r == first_at(cs@, c, from as int),
        from <= r <= cs@.len(),
{
    let mut i: usize = from;
    while i < cs.len()
        invariant
            from <= i <= cs@.len(),
            first_at(cs@, c, from as int) == first_at(cs@, c, i as int),
        decreases cs@.len() - i,
    {
        if cs[i] == c {
            return i;
        }
        i += 1;
    }
    i
}

/// `s` without the blanks at either end.
pub fn trim(s: &str) -> (r: &str)
    ensures
        r@ == trimmed(s@),
{
    let cs = chars_of(s);
    let n = cs.len();
    let mut a: usize = 0;
    assert(s@.skip(0) =~= s@);
    while a < n && is_blank(cs[a])
        invariant
            n == cs@.len(),
            cs@ == s@,
            a <= n,
            trim_front(s@) == trim_front(s@.skip(a as int)),
        decreases n - a,
    {
        assert(s@.skip(a as int).skip(1) =~= s@.skip(a + 1));
        a += 1;
    }
    assert(trim_front(s@) == s@.skip(a as int));
    let mut b: usize = n;
    assert(s@.subrange(a as int, n as int) =~= s@.skip(a as int));
    while b > a && is_blank(cs[b - 1])
        invariant
            n == cs@.len(),
            cs@ == s@,
            a <= b <= n,
            trimmed(s@) == trim_back(s@.subrange(a as int, b as int)),
        decreases b,
    {
        assert(s@.subrange(a as int, b as int).drop_last() =~= s@.subrange(a as int, b - 1));
        b -= 1;
    }
    s.substring_char(a, b)
}

/// The two sides of the first `c` in `s`.
pub fn split_once(s: &str, c: char) -> (r: Option<(&str, &str)>)
    ensures
        match r {
            Some(p) => split_pair(s@, c) == Some((p.0@, p.1@)),
            None => split_pair(s@, c) is None,
        },
{
    let cs = chars_of(s);
    let n = cs.len();
    let k = find_from(&cs, c, 0);
    if k < n {
        let left = s.substring_char(0, k);
        let right = s.substring_char(k + 1, n);
        assert(left@ =~= s@.take(k as int));
        assert(right@ =~= s@.skip(k + 1));
        Some((left, right))
    } else {
        None
    }
}

/// The texts of `v`.
pub open spec fn texts(v: Seq<String>) -> Seq<Seq<char>> {
    Seq::new(v.len(), |i: int| v[i]@)
}

/// The text in `o`.
pub open spec fn opt_text(o: Option<String>) -> Option<Seq<char>> {
    match o {
        Some(s) => Some(s@),
        None => None,
    }
}

/// The pieces of `s` that every `c` separates.
pub fn split(s: &str, c: char) -> (r: Vec<String>)
    ensures
        texts(r@) == pieces(s@, c),
{
    let cs = chars_of(s);
    let n = cs.len();
    let mut r: Vec<String> = Vec::new();
    let mut i: usize = 0;
    assert(texts(r@) + pieces_from(s@, c, 0) =~= pieces(s@, c));
    loop
        invariant
            n == cs@.len(),
            cs@ == s@,
            i <= n,
            texts(r@) + pieces_from(s@, c, i as int) == pieces(s@, c),
        decreases n - i,
    {
        let k = find_from(&cs, c, i);
        proof {
            first_in_range(s@, c, i as int);
        }
        let ghost r0 = texts(r@);
        let piece = s.substring_char(i, k).to_owned();
        r.push(piece);
        assert(texts(r@) =~= r0.push(s@.subrange(i as int, k as int)));
        if k >= n {
            assert(s@.subrange(i as int, k as int) =~= s@.skip(i as int));
            assert(texts(r@) =~= r0 + pieces_from(s@, c, i as int));
            return r;
        }
        assert(r0.push(s@.subrange(i as int, k as int)) + pieces_from(s@, c, k + 1) =~= r0 + (
        seq![s@.subrange(i as int, k as int)] + pieces_from(s@, c, k + 1)));
        i = k + 1;
    }
}

/// Spans as pairs of integers.
pub open spec fn spans_view(v: Seq<(usize, usize)>) -> Seq<(int, int)> {
    Seq::new(v.len(), |i: int| (v[i].0 as int, v[i].1 as int))
}

/// Where each line of `s` begins and ends, in characters.
pub fn find_lines(s: &str) -> (r: Vec<(usize, usize)>)
    ensures
        spans_view(r@) == line_spans(s@),
{
    let cs = chars_of(s);
    let n = cs.len();
    let mut r: Vec<(usize, usize)> = Vec::new();
    let mut i: usize = 0;
    assert(spans_view(r@) + spans_from(s@, 0) =~= line_spans(s@));
    while i < n
        invariant
            n == cs@.len(),
            cs@ == s@,
            i <= n,
            spans_view(r@) + spans_from(s@, i as int) == line_spans(s@),
        decreases n - i,
    {
        let k = find_from(&cs, '\n', i);
        let ghost r0 = spans_view(r@);
        if k >= n {
            r.push((i, n));
            assert(spans_view(r@) =~= r0 + spans_from(s@, i as int));
            return r;
        }
        let end = if k > i && cs[k - 1] == '\r' {
            k - 1
        } else {
            k
        };
        r.push((i, end));
        assert(spans_view(r@) =~= r0.push((i as int, end as int)));
        assert(r0.push((i as int, end as int)) + spans_from(s@, k + 1) =~= r0 + spans_from(
            s@,
            i as int,
        ));
        i = k + 1;
    }
    assert(spans_view(r@) + spans_from(s@, i as int) =~= spans_view(r@));
    r
}

/// Whether the two texts are the same.
pub fn same(a: &str, b: &str) -> (r: bool)
    ensures
        r == (a@ == b@),
{
    a.to_owned() == b.to_owned()
}

} // verus!
