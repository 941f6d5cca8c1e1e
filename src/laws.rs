//! What holds of every assembly: the machine computes `assembly`, and
//! `assembly` yields whole words or nothing.
use vstd::prelude::*;

use crate::assembler::{assembly, encode_run, initial, pending_of, step, AsmState};
use crate::encoding::{is_branch, le_bytes, request_for, word_of};
use crate::error::AsmError;
use crate::labels::{first_pass, has_colon};
use crate::text::{kept_lines, normalized, split_lines, trim, LineView};

verus! {

/// The state holds exactly the bytes that `enc` gives for the instructions
/// it has encoded.
pub open spec fn on_course(s: AsmState, enc: spec_fn(Seq<char>) -> Option<Seq<char>>) -> bool {
    &&& s.done <= s.instrs.len()
    &&& encode_run(s.instrs.subrange(0, s.done as int), s.labels, enc) == Ok::<
        Seq<u8>,
        AsmError,
    >(s.output)
}

proof fn lemma_run_unfold(
    instrs: Seq<LineView>,
    labels: Map<Seq<char>, nat>,
    enc: spec_fn(Seq<char>) -> Option<Seq<char>>,
    k: int,
)
    requires
        0 <= k < instrs.len(),
    ensures
        instrs.subrange(0, k + 1).drop_last() == instrs.subrange(0, k),
        instrs.subrange(0, k + 1).last() == instrs[k],
        instrs.subrange(0, k + 1).len() == k + 1,
{
    assert(instrs.subrange(0, k + 1).drop_last() =~= instrs.subrange(0, k));
}

/// Failure locality: once an instruction fails, the run fails with that
/// instruction's failure, whatever follows it.
pub proof fn lemma_run_stops(
    instrs: Seq<LineView>,
    labels: Map<Seq<char>, nat>,
    enc: spec_fn(Seq<char>) -> Option<Seq<char>>,
    k: int,
)
    requires
        0 <= k <= instrs.len(),
        encode_run(instrs.subrange(0, k), labels, enc) is Err,
    ensures
        encode_run(instrs, labels, enc) == encode_run(instrs.subrange(0, k), labels, enc),
    decreases instrs.len(),
{
    if k == instrs.len() {
        assert(instrs.subrange(0, k) =~= instrs);
    } else {
        assert(instrs.drop_last().subrange(0, k) =~= instrs.subrange(0, k));
        lemma_run_stops(instrs.drop_last(), labels, enc, k);
    }
}

/// A successful run gives four bytes for each instruction.
pub proof fn lemma_run_len(
    instrs: Seq<LineView>,
    labels: Map<Seq<char>, nat>,
    enc: spec_fn(Seq<char>) -> Option<Seq<char>>,
)
    ensures
        encode_run(instrs, labels, enc) is Ok ==> encode_run(instrs, labels, enc)->Ok_0.len() == 4
            * instrs.len(),
    decreases instrs.len(),
{
    if instrs.len() > 0 {
        lemma_run_len(instrs.drop_last(), labels, enc);
    }
}

/// An assembly starts on course, with nothing encoded.
pub proof fn lemma_start_on_course(src: Seq<char>, enc: spec_fn(Seq<char>) -> Option<Seq<char>>)
    requires
        initial(src) is Ok,
    ensures
        on_course(initial(src)->Ok_0, enc),
{
    let s = initial(src)->Ok_0;
    assert(s.instrs.subrange(0, 0) =~= Seq::<LineView>::empty());
}

/// Answering each request with what `enc` gives for it keeps the machine on
/// course to the run of `enc` over all instructions: a failure that it
/// reports, from `pending` or from `supply`, is that run's failure, and the
/// bytes it holds once finished are that run's program.
pub proof fn lemma_step_on_course(s: AsmState, enc: spec_fn(Seq<char>) -> Option<Seq<char>>)
    requires
        on_course(s, enc),
    ensures
        match pending_of(s) {
            Err(e) => encode_run(s.instrs, s.labels, enc) == Err::<Seq<u8>, AsmError>(e),
            Ok(None) => encode_run(s.instrs, s.labels, enc) == Ok::<Seq<u8>, AsmError>(s.output),
            Ok(Some(q)) => match step(s, enc(q)) {
                Ok(t) => on_course(t, enc) && t.done == s.done + 1,
                Err(e) => encode_run(s.instrs, s.labels, enc) == Err::<Seq<u8>, AsmError>(e),
            },
        },
{
    let k = s.done as int;
    if k >= s.instrs.len() {
        assert(s.instrs.subrange(0, k) =~= s.instrs);
    } else {
        lemma_run_unfold(s.instrs, s.labels, enc, k);
        match pending_of(s) {
            Err(e) => {
                lemma_run_stops(s.instrs, s.labels, enc, k + 1);
            },
            Ok(None) => {},
            Ok(Some(q)) => {
                match step(s, enc(q)) {
                    Ok(t) => {},
                    Err(e) => {
                        lemma_run_stops(s.instrs, s.labels, enc, k + 1);
                    },
                }
            },
        }
    }
}

/// A source that assembles gives a whole number of four-byte words, one
/// for each instruction; one that fails gives no bytes at all.
pub proof fn lemma_whole_words(src: Seq<char>, enc: spec_fn(Seq<char>) -> Option<Seq<char>>)
    ensures
        assembly(src, enc) is Ok ==> assembly(src, enc)->Ok_0.len() % 4 == 0
            && assembly(src, enc)->Ok_0.len() == 4 * initial(src)->Ok_0.instrs.len(),
{
    if initial(src) is Ok {
        let s = initial(src)->Ok_0;
        lemma_run_len(s.instrs, s.labels, enc);
    }
}

/// Two assemblies of one source, each with its own encoder, give the same
/// result when the encoders give the same answers: nothing carries over
/// from one assembly to another.
pub proof fn lemma_independent_runs(
    src: Seq<char>,
    e1: spec_fn(Seq<char>) -> Option<Seq<char>>,
    e2: spec_fn(Seq<char>) -> Option<Seq<char>>,
)
    requires
        forall|q: Seq<char>| #[trigger] e1(q) == e2(q),
    ensures
        assembly(src, e1) == assembly(src, e2),
{
    if initial(src) is Ok {
        let s = initial(src)->Ok_0;
        lemma_runs_agree(s.instrs, s.labels, e1, e2);
    }
}

proof fn lemma_runs_agree(
    instrs: Seq<LineView>,
    labels: Map<Seq<char>, nat>,
    e1: spec_fn(Seq<char>) -> Option<Seq<char>>,
    e2: spec_fn(Seq<char>) -> Option<Seq<char>>,
)
    requires
        forall|q: Seq<char>| #[trigger] e1(q) == e2(q),
    ensures
        encode_run(instrs, labels, e1) == encode_run(instrs, labels, e2),
    decreases instrs.len(),
{
    if instrs.len() > 0 {
        lemma_runs_agree(instrs.drop_last(), labels, e1, e2);
    }
}

proof fn lemma_blank_lines_kept(lines: Seq<Seq<char>>)
    requires
        forall|i: int| 0 <= i < lines.len() ==> trim(#[trigger] lines[i]).len() == 0,
    ensures
        kept_lines(lines) == Seq::<LineView>::empty(),
    decreases lines.len(),
{
    if lines.len() > 0 {
        assert(trim(lines[lines.len() - 1]).len() == 0);
        lemma_blank_lines_kept(lines.drop_last());
    }
}

/// A source whose lines are all blank assembles to the empty program.
pub proof fn lemma_blank_source(src: Seq<char>, enc: spec_fn(Seq<char>) -> Option<Seq<char>>)
    requires
        forall|i: int|
            0 <= i < split_lines(src).len() ==> trim(#[trigger] split_lines(src)[i]).len() == 0,
    ensures
        assembly(src, enc) == Ok::<Seq<u8>, AsmError>(Seq::empty()),
{
    lemma_blank_lines_kept(split_lines(src));
    assert(normalized(src) == Seq::<LineView>::empty());
}

/// A source of one instruction, with no label and no branch, that the
/// encoder accepts assembles to that one word: four bytes.
pub proof fn lemma_single_instruction(src: Seq<char>, enc: spec_fn(Seq<char>) -> Option<Seq<char>>)
    requires
        normalized(src).len() == 1,
        !has_colon(normalized(src)[0].text),
        !is_branch(normalized(src)[0].text),
        enc(normalized(src)[0].text) is Some,
        word_of(enc(normalized(src)[0].text)->0) is Some,
    ensures
        assembly(src, enc) == Ok::<Seq<u8>, AsmError>(
            le_bytes(word_of(enc(normalized(src)[0].text)->0)->0),
        ),
        assembly(src, enc)->Ok_0.len() == 4,
{
    let lines = normalized(src);
    assert(lines.drop_last() =~= Seq::<LineView>::empty());
    assert(first_pass(lines.drop_last()) == Ok::<
        (Map<Seq<char>, nat>, Seq<LineView>),
        AsmError,
    >((Map::empty(), Seq::empty())));
    assert(lines.last() == lines[0]);
    assert(Seq::<LineView>::empty().push(lines[0]) =~= seq![lines[0]]);
    let instrs = first_pass(lines)->Ok_0.1;
    assert(instrs =~= seq![lines[0]]);
    assert(instrs.drop_last() =~= Seq::<LineView>::empty());
    assert(request_for(lines[0].text, Map::empty()) == Some(lines[0].text));
    assert(first_pass(lines)->Ok_0.0 == Map::<Seq<char>, nat>::empty());
    let w = word_of(enc(lines[0].text)->0)->0;
    assert(encode_run(instrs.drop_last(), Map::empty(), enc) == Ok::<Seq<u8>, AsmError>(
        Seq::empty(),
    ));
    assert(instrs.last() == lines[0]);
    assert(Seq::<u8>::empty() + le_bytes(w) =~= le_bytes(w));
    assert(encode_run(instrs, Map::empty(), enc) == Ok::<Seq<u8>, AsmError>(le_bytes(w)));
}

} // verus!
