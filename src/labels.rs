//! The first pass: label definitions and the instruction stream.
use vstd::prelude::*;

use crate::error::AsmError;
use crate::text::{copy_range, is_space, is_space_char, views_of, LineView, SourceLine};

verus! {

/// A character that may stand in a label name.
pub open spec fn is_name_char(c: char) -> bool {
    !is_space(c) && c != ':'
}

/// Whether the text holds the label delimiter.
pub open spec fn has_colon(t: Seq<char>) -> bool {
    exists|i: int| 0 <= i < t.len() && t[i] == ':'
}

/// The name that a label definition `name:` introduces; `None` where the
/// text is not of that shape.
pub open spec fn label_name(t: Seq<char>) -> Option<Seq<char>> {
    if t.len() >= 2 && t.last() == ':' && (forall|i: int|
        0 <= i < t.len() - 1 ==> is_name_char(#[trigger] t[i])) {
        Some(t.drop_last())
    } else {
        None
    }
}

/// The labels (name to byte offset) and the instruction lines found in
/// `lines`, or the first label definition that fails. A label stands for
/// the offset of the next instruction, four bytes per instruction before it.
pub open spec fn first_pass(lines: Seq<LineView>) -> Result<
    (Map<Seq<char>, nat>, Seq<LineView>),
    AsmError,
>
    decreases lines.len(),
{
    if lines.len() == 0 {
        Ok((Map::empty(), Seq::empty()))
    } else {
        match first_pass(lines.drop_last()) {
            Err(e) => Err(e),
            Ok((labels, instrs)) => {
                let l = lines.last();
                if !has_colon(l.text) {
                    Ok((labels, instrs.push(l)))
                } else {
                    match label_name(l.text) {
                        None => Err(AsmError::MalformedLabel { line: l.number as usize }),
                        Some(name) => if labels.contains_key(name) {
                            Err(AsmError::DuplicateLabel { line: l.number as usize })
                        } else {
                            Ok((labels.insert(name, 4 * instrs.len()), instrs))
                        },
                    }
                }
            },
        }
    }
}

/// One label definition: its name and the byte offset it stands for.
pub struct Label {
    pub name: Vec<char>,
    pub offset: usize,
}

/// Label names and the byte offsets they stand for.
pub struct LabelTable {
    entries: Vec<Label>,
    model: Ghost<Map<Seq<char>, nat>>,
}

impl View for LabelTable {
    type V = Map<Seq<char>, nat>;

    closed spec fn view(&self) -> Map<Seq<char>, nat> {
        self.model@
    }
}

impl LabelTable {
    pub closed spec fn wf(&self) -> bool {
        &&& forall|k: Seq<char>|
            self.model@.contains_key(k) ==> exists|i: int|
                0 <= i < self.entries.len() && (#[trigger] self.entries@[i]).name@ == k
        &&& forall|i: int|
            0 <= i < self.entries.len() ==> self.model@.contains_key(
                (#[trigger] self.entries@[i]).name@,
            ) && self.model@[self.entries@[i].name@] == self.entries@[i].offset as nat
    }

    pub fn new() -> (r: LabelTable)
        ensures
            r.wf(),
            r@ == Map::<Seq<char>, nat>::empty(),
    {
        LabelTable { entries: Vec::new(), model: Ghost(Map::empty()) }
    }

    /// The offset of the label whose name is `t[from..]`.
    pub fn lookup(&self, t: &Vec<char>, from: usize) -> (r: Option<usize>)
        requires
            self.wf(),
            from <= t.len(),
        ensures
            match r {
                Some(off) => self@.contains_key(t@.subrange(from as int, t.len() as int))
                    && self@[t@.subrange(from as int, t.len() as int)] == off as nat,
                None => !self@.contains_key(t@.subrange(from as int, t.len() as int)),
            },
    {
        let ghost key = t@.subrange(from as int, t.len() as int);
        let mut i: usize = 0;
        while i < self.entries.len()
            invariant
                self.wf(),
                from <= t.len(),
                key == t@.subrange(from as int, t.len() as int),
                i <= self.entries.len(),
                forall|j: int| 0 <= j < i ==> (#[trigger] self.entries@[j]).name@ != key,
            decreases self.entries.len() - i,
        {
            if names_equal(&self.entries[i].name, t, from) {
                return Some(self.entries[i].offset);
            }
            i += 1;
        }
        None
    }

    /// Adds a label that is not yet in the table.
    pub fn insert(&mut self, name: Vec<char>, offset: usize)
        requires
            old(self).wf(),
            !old(self)@.contains_key(name@),
        ensures
            final(self).wf(),
            final(self)@ == old(self)@.insert(name@, offset as nat),
    {
        let ghost key = name@;
        self.entries.push(Label { name, offset });
        self.model = Ghost(self.model@.insert(key, offset as nat));
        assert forall|k: Seq<char>| self.model@.contains_key(k) implies exists|i: int|
            0 <= i < self.entries.len() && (#[trigger] self.entries@[i]).name@ == k by {
            if k == key {
                assert(self.entries@[self.entries.len() - 1].name@ == k);
            } else {
                let i = choose|i: int|
                    0 <= i < old(self).entries.len() && (#[trigger] old(self).entries@[i]).name@
                        == k;
                assert(self.entries@[i].name@ == k);
            }
        }
    }
}

/// Whether `name` equals `t[from..]`.
fn names_equal(name: &Vec<char>, t: &Vec<char>, from: usize) -> (r: bool)
    requires
        from <= t.len(),
    ensures
        r == (name@ == t@.subrange(from as int, t.len() as int)),
{
    if name.len() != t.len() - from {
        return false;
    }
    let mut i: usize = 0;
    while i < name.len()
        invariant
            name.len() == t.len() - from,
            from <= t.len(),
            i <= name.len(),
            forall|j: int| 0 <= j < i ==> name@[j] == t@[from + j],
        decreases name.len() - i,
    {
        if name[i] != t[from + i] {
            return false;
        }
        i += 1;
    }
    assert(name@ =~= t@.subrange(from as int, t.len() as int));
    true
}

/// The label name that `t` defines, or `None` where it is not `name:`.
pub fn parse_label(t: &Vec<char>) -> (r: Option<Vec<char>>)
    ensures
        match label_name(t@) {
            Some(n) => r is Some && r->0@ == n,
            None => r is None,
        },
{
    let n = t.len();
    if n < 2 || t[n - 1] != ':' {
        return None;
    }
    let mut i: usize = 0;
    while i < n - 1
        invariant
            n == t.len(),
            n >= 2,
            i <= n - 1,
            forall|j: int| 0 <= j < i ==> is_name_char(#[trigger] t@[j]),
        decreases n - 1 - i,
    {
        if is_space_char(t[i]) || t[i] == ':' {
            return None;
        }
        i += 1;
    }
    Some(copy_range(t, 0, n - 1))
}

/// Whether `t` holds a `:`.
pub fn contains_colon(t: &Vec<char>) -> (r: bool)
    ensures
        r == has_colon(t@),
{
    let mut i: usize = 0;
    while i < t.len()
        invariant
            i <= t.len(),
            forall|j: int| 0 <= j < i ==> t@[j] != ':',
        decreases t.len() - i,
    {
        if t[i] == ':' {
            return true;
        }
        i += 1;
    }
    false
}

/// Copies a line.
pub fn copy_line(l: &SourceLine) -> (r: SourceLine)
    ensures
        r@ == l@,
{
    let text = copy_range(&l.text, 0, l.text.len());
    assert(text@ =~= l.text@);
    SourceLine { line_number: l.line_number, text }
}

/// The first pass keeps no more instructions than it was given lines.
pub proof fn lemma_first_pass_instrs_len(lines: Seq<LineView>)
    ensures
        first_pass(lines) is Ok ==> first_pass(lines)->Ok_0.1.len() <= lines.len(),
    decreases lines.len(),
{
    if lines.len() > 0 {
        lemma_first_pass_instrs_len(lines.drop_last());
    }
}

/// A label definition that fails ends the first pass: what follows it is
/// not read.
proof fn lemma_first_pass_stops(lines: Seq<LineView>, k: int)
    requires
        0 <= k <= lines.len(),
        first_pass(lines.subrange(0, k)) is Err,
    ensures
        first_pass(lines) == first_pass(lines.subrange(0, k)),
    decreases lines.len(),
{
    if k == lines.len() {
        assert(lines.subrange(0, k) =~= lines);
    } else {
        assert(lines.drop_last().subrange(0, k) =~= lines.subrange(0, k));
        lemma_first_pass_stops(lines.drop_last(), k);
    }
}

/// Sets label definitions apart from instructions: the label table and the
/// instruction lines in order, or the first label definition that fails.
pub fn discover_labels(lines: &Vec<SourceLine>) -> (r: Result<(LabelTable, Vec<SourceLine>), AsmError>)
    requires
        lines.len() <= usize::MAX / 4,
    ensures
        match first_pass(views_of(lines@)) {
            Ok((labels, instrs)) => r is Ok && r->Ok_0.0.wf() && r->Ok_0.0@ == labels && views_of(
                r->Ok_0.1@,
            ) == instrs,
            Err(e) => r == Err::<(LabelTable, Vec<SourceLine>), AsmError>(e),
        },
{
    let mut labels = LabelTable::new();
    let mut instrs: Vec<SourceLine> = Vec::new();
    let mut i: usize = 0;
    assert(views_of(lines@).subrange(0, 0) =~= Seq::<LineView>::empty());
    assert(views_of(instrs@) =~= Seq::<LineView>::empty());
    while i < lines.len()
        invariant
            lines.len() <= usize::MAX / 4,
            i <= lines.len(),
            instrs.len() <= i,
            labels.wf(),
            first_pass(views_of(lines@).subrange(0, i as int)) == Ok::<
                (Map<Seq<char>, nat>, Seq<LineView>),
                AsmError,
            >((labels@, views_of(instrs@))),
        decreases lines.len() - i,
    {
        let ghost prefix = views_of(lines@).subrange(0, i + 1);
        assert(prefix.drop_last() =~= views_of(lines@).subrange(0, i as int));
        assert(prefix.last() == lines@[i as int]@);
        let line = &lines[i];
        if !contains_colon(&line.text) {
            let ghost before = instrs@;
            instrs.push(copy_line(line));
            assert(views_of(instrs@) =~= views_of(before).push(line@));
        } else {
            match parse_label(&line.text) {
                None => {
                    proof {
                        lemma_first_pass_stops(views_of(lines@), i + 1);
                    }
                    return Err(AsmError::MalformedLabel { line: line.line_number });
                },
                Some(name) => {
                    assert(name@.subrange(0, name@.len() as int) =~= name@);
                    if labels.lookup(&name, 0).is_some() {
                        proof {
                            lemma_first_pass_stops(views_of(lines@), i + 1);
                        }
                        return Err(AsmError::DuplicateLabel { line: line.line_number });
                    }
                    assert(name@.subrange(0, name@.len() as int) =~= name@);
                    labels.insert(name, 4 * instrs.len());
                },
            }
        }
        i += 1;
    }
    assert(views_of(lines@).subrange(0, i as int) =~= views_of(lines@));
    Ok((labels, instrs))
}

} // verus!
