//! What is handed to the encoder for each instruction, and what is made of
//! its answer.
use vstd::prelude::*;
use vstd::arithmetic::power2::{lemma2_to64, lemma_pow2_strictly_increases, lemma_pow2_unfold, pow2};

use crate::labels::LabelTable;
use crate::text::{is_space, is_space_char};

verus! {

/// Whether the instruction's first token is the mnemonic `bne`, the one
/// branch whose last operand is a label.
pub open spec fn is_branch(t: Seq<char>) -> bool {
    t.len() >= 3 && t[0] == 'b' && t[1] == 'n' && t[2] == 'e' && (t.len() == 3 || is_space(t[3]))
}

pub open spec fn is_operand_sep(c: char) -> bool {
    is_space(c) || c == ','
}

/// Where the last operand of `t` starts: just after its last white space
/// or comma, or at 0 where it has none.
pub open spec fn operand_start(t: Seq<char>) -> nat
    decreases t.len(),
{
    if t.len() == 0 {
        0
    } else if is_operand_sep(t.last()) {
        t.len()
    } else {
        operand_start(t.drop_last())
    }
}

pub open spec fn digit_char(d: nat) -> char {
    if d == 0 {
        '0'
    } else if d == 1 {
        '1'
    } else if d == 2 {
        '2'
    } else if d == 3 {
        '3'
    } else if d == 4 {
        '4'
    } else if d == 5 {
        '5'
    } else if d == 6 {
        '6'
    } else if d == 7 {
        '7'
    } else if d == 8 {
        '8'
    } else {
        '9'
    }
}

/// `n` written in decimal, without leading zeros.
pub open spec fn decimal(n: nat) -> Seq<char>
    decreases n,
{
    if n < 10 {
        seq![digit_char(n)]
    } else {
        decimal(n / 10).push(digit_char(n % 10))
    }
}

/// The text handed to the encoder for the instruction `t`: `t` itself, or,
/// for a branch, `t` with its last operand, a label name, replaced by the
/// label's offset in decimal. `None` where that label is not defined.
pub open spec fn request_for(t: Seq<char>, labels: Map<Seq<char>, nat>) -> Option<Seq<char>> {
    if is_branch(t) {
        let s = operand_start(t) as int;
        let name = t.subrange(s, t.len() as int);
        if labels.contains_key(name) {
            Some(t.subrange(0, s) + decimal(labels[name]))
        } else {
            None
        }
    } else {
        Some(t)
    }
}

pub open spec fn is_bit(c: char) -> bool {
    c == '0' || c == '1'
}

/// The number that the binary digits `b` stand for, most significant first.
pub open spec fn binary_value(b: Seq<char>) -> nat
    decreases b.len(),
{
    if b.len() == 0 {
        0
    } else {
        2 * binary_value(b.drop_last()) + (if b.last() == '1' {
            1nat
        } else {
            0nat
        })
    }
}

/// The word that an encoder's answer stands for: exactly 32 binary digits,
/// most significant first.
pub open spec fn word_of(b: Seq<char>) -> Option<u32> {
    if b.len() == 32 && (forall|i: int| 0 <= i < 32 ==> is_bit(#[trigger] b[i])) {
        Some(binary_value(b) as u32)
    } else {
        None
    }
}

/// The four bytes of `w`, least significant first.
pub open spec fn le_bytes(w: u32) -> Seq<u8> {
    seq![
        (w % 256) as u8,
        ((w / 256) % 256) as u8,
        ((w / 65536) % 256) as u8,
        (w / 16777216) as u8,
    ]
}

pub fn is_branch_line(t: &Vec<char>) -> (r: bool)
    ensures
        r == is_branch(t@),
{
    t.len() >= 3 && t[0] == 'b' && t[1] == 'n' && t[2] == 'e' && (t.len() == 3 || is_space_char(
        t[3],
    ))
}

pub fn find_operand_start(t: &Vec<char>) -> (r: usize)
    ensures
        r as nat == operand_start(t@),
        r <= t.len(),
{
    let mut j: usize = t.len();
    assert(t@.subrange(0, j as int) =~= t@);
    while j > 0 && !(is_space_char(t[j - 1]) || t[j - 1] == ',')
        invariant
            j <= t.len(),
            operand_start(t@) == operand_start(t@.subrange(0, j as int)),
        decreases j,
    {
        assert(t@.subrange(0, j as int).drop_last() =~= t@.subrange(0, j - 1));
        j -= 1;
    }
    j
}

fn digit(d: usize) -> (r: char)
    requires
        d < 10,
    ensures
        r == digit_char(d as nat),
{
    if d == 0 {
        '0'
    } else if d == 1 {
        '1'
    } else if d == 2 {
        '2'
    } else if d == 3 {
        '3'
    } else if d == 4 {
        '4'
    } else if d == 5 {
        '5'
    } else if d == 6 {
        '6'
    } else if d == 7 {
        '7'
    } else if d == 8 {
        '8'
    } else {
        '9'
    }
}

/// Appends `n` in decimal to `out`.
pub fn push_decimal(n: usize, out: &mut Vec<char>)
    ensures
        final(out)@ == old(out)@ + decimal(n as nat),
    decreases n,
{
    if n < 10 {
        out.push(digit(n));
        assert(final(out)@ =~= old(out)@ + decimal(n as nat));
    } else {
        push_decimal(n / 10, out);
        out.push(digit(n % 10));
        assert(final(out)@ =~= old(out)@ + decimal(n as nat));
    }
}

/// The text to hand to the encoder for the instruction `t`, or `None`
/// where it branches to a label that `labels` does not hold.
pub fn request_text(t: &Vec<char>, labels: &LabelTable) -> (r: Option<Vec<char>>)
    requires
        labels.wf(),
    ensures
        match request_for(t@, labels@) {
            Some(q) => r is Some && r->0@ == q,
            None => r is None,
        },
{
    if !is_branch_line(t) {
        let mut copy: Vec<char> = Vec::new();
        let mut i: usize = 0;
        while i < t.len()
            invariant
                i <= t.len(),
                copy@ == t@.subrange(0, i as int),
            decreases t.len() - i,
        {
            copy.push(t[i]);
            assert(copy@ =~= t@.subrange(0, i + 1));
            i += 1;
        }
        assert(copy@ =~= t@);
        return Some(copy);
    }
    let s = find_operand_start(t);
    match labels.lookup(t, s) {
        None => None,
        Some(offset) => {
            let mut out: Vec<char> = Vec::new();
            let mut i: usize = 0;
            while i < s
                invariant
                    s <= t.len(),
                    i <= s,
                    out@ == t@.subrange(0, i as int),
                decreases s - i,
            {
                out.push(t[i]);
                assert(out@ =~= t@.subrange(0, i + 1));
                i += 1;
            }
            push_decimal(offset, &mut out);
            Some(out)
        },
    }
}

/// Binary digits stand for a number below two to the power of their count.
pub proof fn lemma_binary_value_bound(b: Seq<char>)
    ensures
        binary_value(b) < pow2(b.len()),
    decreases b.len(),
{
    if b.len() > 0 {
        lemma_binary_value_bound(b.drop_last());
        lemma_pow2_unfold(b.len());
    } else {
        lemma2_to64();
    }
}

/// The word that the encoder's answer `bits` stands for, or `None` where it
/// is not 32 binary digits.
pub fn parse_word(bits: &Vec<char>) -> (r: Option<u32>)
    ensures
        r == word_of(bits@),
{
    if bits.len() != 32 {
        return None;
    }
    let mut acc: u64 = 0;
    let mut i: usize = 0;
    proof {
        lemma2_to64();
        assert(bits@.subrange(0, 0) =~= Seq::<char>::empty());
    }
    while i < 32
        invariant
            bits.len() == 32,
            i <= 32,
            forall|j: int| 0 <= j < i ==> is_bit(#[trigger] bits@[j]),
            acc as nat == binary_value(bits@.subrange(0, i as int)),
            acc < pow2(i as nat),
            pow2(32) == 0x1_0000_0000,
        decreases 32 - i,
    {
        let c = bits[i];
        if c != '0' && c != '1' {
            return None;
        }
        proof {
            assert(bits@.subrange(0, i + 1).drop_last() =~= bits@.subrange(0, i as int));
            lemma_pow2_unfold((i + 1) as nat);
            if i + 1 < 32 {
                lemma_pow2_strictly_increases((i + 1) as nat, 32);
            }
        }
        acc = acc * 2 + if c == '1' {
            1
        } else {
            0
        };
        i += 1;
    }
    assert(bits@.subrange(0, 32) =~= bits@);
    Some(acc as u32)
}

/// Appends the four bytes of `w`, least significant first.
pub fn push_le_bytes(w: u32, out: &mut Vec<u8>)
    ensures
        final(out)@ == old(out)@ + le_bytes(w),
{
    out.push((w % 256) as u8);
    out.push(((w / 256) % 256) as u8);
    out.push(((w / 65536) % 256) as u8);
    out.push((w / 16777216) as u8);
    assert(final(out)@ =~= old(out)@ + le_bytes(w));
}

} // verus!
