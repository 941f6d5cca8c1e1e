//! Source normalisation: splitting assembly text into trimmed, non-empty
//! lines that remember their position in the original text.
use vstd::prelude::*;

verus! {

/// Unicode `White_Space`, the set that `char::is_whitespace` tests.
pub open spec fn is_space(c: char) -> bool {
    let u = c as u32;
    u == 0x20 || (0x09 <= u && u <= 0x0D) || u == 0x85 || u == 0xA0 || u == 0x1680 || (0x2000
        <= u && u <= 0x200A) || u == 0x2028 || u == 0x2029 || u == 0x202F || u == 0x205F || u
        == 0x3000
}

pub fn is_space_char(c: char) -> (r: bool)
    ensures
        r == is_space(c),
{
    let u = c as u32;
    u == 0x20 || (0x09 <= u && u <= 0x0D) || u == 0x85 || u == 0xA0 || u == 0x1680 || (0x2000
        <= u && u <= 0x200A) || u == 0x2028 || u == 0x2029 || u == 0x202F || u == 0x205F || u
        == 0x3000
}

/// `t` without its leading white space.
pub open spec fn trim_start(t: Seq<char>) -> Seq<char>
    decreases t.len(),
{
    if t.len() > 0 && is_space(t[0]) {
        trim_start(t.drop_first())
    } else {
        t
    }
}

/// `t` without its trailing white space.
pub open spec fn trim_end(t: Seq<char>) -> Seq<char>
    decreases t.len(),
{
    if t.len() > 0 && is_space(t.last()) {
        trim_end(t.drop_last())
    } else {
        t
    }
}

/// `t` without leading and trailing white space, as `str::trim` gives it.
pub open spec fn trim(t: Seq<char>) -> Seq<char> {
    trim_end(trim_start(t))
}

/// The lines of `s`, separated by `'\n'`; a text with `k` newlines has
/// `k + 1` lines, the last one possibly empty.
pub open spec fn split_lines(s: Seq<char>) -> Seq<Seq<char>>
    decreases s.len(),
{
    if s.len() == 0 {
        seq![Seq::empty()]
    } else {
        let prev = split_lines(s.drop_last());
        if s.last() == '\n' {
            prev.push(Seq::empty())
        } else {
            prev.update(prev.len() - 1, prev.last().push(s.last()))
        }
    }
}

/// A normalised line: its 1-based number in the original text and its
/// trimmed, non-empty text.
pub struct LineView {
    pub number: nat,
    pub text: Seq<char>,
}

/// The trimmed lines among `lines` that are not empty, numbered by their
/// position in `lines`, counted from 1.
pub open spec fn kept_lines(lines: Seq<Seq<char>>) -> Seq<LineView>
    decreases lines.len(),
{
    if lines.len() == 0 {
        Seq::empty()
    } else {
        let prev = kept_lines(lines.drop_last());
        let t = trim(lines.last());
        if t.len() == 0 {
            prev
        } else {
            prev.push(LineView { number: lines.len(), text: t })
        }
    }
}

/// What the normaliser makes of the text `s`. A `"\r\n"` line end needs no
/// rule of its own: the `'\r'` is white space at the end of its line.
pub open spec fn normalized(s: Seq<char>) -> Seq<LineView> {
    kept_lines(split_lines(s))
}

/// One trimmed, non-empty line of assembly source.
pub struct SourceLine {
    /// 1-based number of the line in the original text.
    pub line_number: usize,
    pub text: Vec<char>,
}

impl View for SourceLine {
    type V = LineView;

    open spec fn view(&self) -> LineView {
        LineView { number: self.line_number as nat, text: self.text@ }
    }
}

impl SourceLine {
    /// The line's text as a `String`.
    pub fn text_string(&self) -> (r: String)
        ensures
            r@ == self.text@,
    {
        string_of(&self.text)
    }
}

/// The views of a sequence of lines, in order.
pub open spec fn views_of(lines: Seq<SourceLine>) -> Seq<LineView> {
    lines.map_values(|l: SourceLine| l@)
}

/// Relies on `str::chars` collected into a `Vec`: the characters of `s`, in order.
#[verifier::external_body]
pub(crate) fn chars_of(s: &str) -> (r: Vec<char>)
    ensures
        r@ == s@,
{
    s.chars().collect()
}

/// Relies on `String: FromIterator<char>`: a string of the characters of `v`, in order.
#[verifier::external_body]
pub(crate) fn string_of(v: &Vec<char>) -> (r: String)
    ensures
        r@ == v@,
{
    v.iter().collect()
}

/// The copy of `s[from..to]`.
pub fn copy_range(s: &Vec<char>, from: usize, to: usize) -> (r: Vec<char>)
    requires
        from <= to <= s.len(),
    ensures
        r@ == s@.subrange(from as int, to as int),
{
    let mut r: Vec<char> = Vec::new();
    let mut i: usize = from;
    while i < to
        invariant
            from <= i <= to <= s.len(),
            r@ == s@.subrange(from as int, i as int),
        decreases to - i,
    {
        r.push(s[i]);
        assert(r@ =~= s@.subrange(from as int, i + 1));
        i += 1;
    }
    r
}

/// The bounds of the trimmed part of `s[from..to]`.
pub fn trim_range(s: &Vec<char>, from: usize, to: usize) -> (r: (usize, usize))
    requires
        from <= to <= s.len(),
    ensures
        from <= r.0 <= r.1 <= to,
        s@.subrange(r.0 as int, r.1 as int) == trim(s@.subrange(from as int, to as int)),
{
    let mut a: usize = from;
    while a < to && is_space_char(s[a])
        invariant
            from <= a <= to <= s.len(),
            trim_start(s@.subrange(from as int, to as int)) == trim_start(
                s@.subrange(a as int, to as int),
            ),
        decreases to - a,
    {
        assert(s@.subrange(a as int, to as int).drop_first() =~= s@.subrange(a + 1, to as int));
        a += 1;
    }
    assert(trim_start(s@.subrange(a as int, to as int)) == s@.subrange(a as int, to as int));
    let mut b: usize = to;
    while b > a && is_space_char(s[b - 1])
        invariant
            from <= a <= b <= to <= s.len(),
            trim(s@.subrange(from as int, to as int)) == trim_end(
                s@.subrange(a as int, b as int),
            ),
        decreases b - a,
    {
        assert(s@.subrange(a as int, b as int).drop_last() =~= s@.subrange(a as int, b - 1));
        b -= 1;
    }
    (a, b)
}

/// Splits `source` into lines, trims each and drops those left empty.
pub fn normalize(source: &str) -> (r: Vec<SourceLine>)
    ensures
        views_of(r@) == normalized(source@),
        r.len() <= source@.len(),
{
    let s = chars_of(source);
    let n = s.len();
    let mut out: Vec<SourceLine> = Vec::new();
    let ghost mut raw: Seq<Seq<char>> = Seq::empty();
    let mut start: usize = 0;
    let mut count: usize = 0;
    let mut i: usize = 0;
    assert(s@.subrange(0, 0) =~= Seq::<char>::empty());
    while i < n
        invariant
            n == s.len(),
            s@ == source@,
            start <= i <= n,
            count == raw.len(),
            count <= start,
            out.len() <= count,
            split_lines(s@.subrange(0, i as int)) == raw.push(s@.subrange(start as int, i as int)),
            views_of(out@) == kept_lines(raw),
        decreases n - i,
    {
        assert(s@.subrange(0, i + 1).drop_last() =~= s@.subrange(0, i as int));
        if s[i] == '\n' {
            let (a, b) = trim_range(&s, start, i);
            let ghost line = s@.subrange(start as int, i as int);
            proof {
                assert(raw.push(line).drop_last() =~= raw);
            }
            if a < b {
                let text = copy_range(&s, a, b);
                out.push(SourceLine { line_number: count + 1, text });
                assert(views_of(out@) =~= kept_lines(raw.push(line)));
            } else {
                assert(views_of(out@) =~= kept_lines(raw.push(line)));
            }
            proof {
                raw = raw.push(line);
                assert(s@.subrange(i + 1, i + 1) =~= Seq::<char>::empty());
            }
            count += 1;
            start = i + 1;
        } else {
            proof {
                let prev = raw.push(s@.subrange(start as int, i as int));
                assert(prev.last() == s@.subrange(start as int, i as int));
                assert(s@.subrange(start as int, i as int).push(s[i as int]) =~= s@.subrange(
                    start as int,
                    i + 1,
                ));
                assert(prev.update(prev.len() - 1, prev.last().push(s[i as int])) =~= raw.push(
                    s@.subrange(start as int, i + 1),
                ));
            }
        }
        i += 1;
    }
    assert(s@.subrange(0, n as int) =~= s@);
    let (a, b) = trim_range(&s, start, n);
    let ghost line = s@.subrange(start as int, n as int);
    assert(raw.push(line).drop_last() =~= raw);
    if a < b {
        let text = copy_range(&s, a, b);
        out.push(SourceLine { line_number: count + 1, text });
        assert(views_of(out@) =~= kept_lines(raw.push(line)));
    } else {
        assert(views_of(out@) =~= kept_lines(raw.push(line)));
    }
    out
}

} // verus!
