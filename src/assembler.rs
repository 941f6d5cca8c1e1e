//! The two-pass assembler, as a machine that asks for one encoding at a
//! time. The per-instruction encoder lives outside the library: the caller
//! takes each request from `pending`, encodes it, and hands the answer to
//! `supply`, until the machine is finished or has failed.
use vstd::prelude::*;

use crate::encoding::{le_bytes, parse_word, push_le_bytes, request_for, request_text, word_of};
use crate::error::AsmError;
use crate::labels::{discover_labels, first_pass, LabelTable};
use crate::text::{chars_of, normalize, normalized, string_of, views_of, LineView, SourceLine};

verus! {

/// The abstract state of an assembly: the instruction lines, the labels,
/// how many instructions are encoded and the bytes they gave.
pub struct AsmState {
    pub instrs: Seq<LineView>,
    pub labels: Map<Seq<char>, nat>,
    pub done: nat,
    pub output: Seq<u8>,
}

/// The state in which the assembly of `src` begins, once the first pass is
/// through; or the label definition that failed.
pub open spec fn initial(src: Seq<char>) -> Result<AsmState, AsmError> {
    match first_pass(normalized(src)) {
        Err(e) => Err(e),
        Ok((labels, instrs)) => Ok(AsmState { instrs, labels, done: 0, output: Seq::empty() }),
    }
}

/// What the state asks of the encoder: nothing when every instruction is
/// encoded, else the text of the next instruction with its label operand
/// patched; or the failure of a branch to an undefined label.
pub open spec fn pending_of(s: AsmState) -> Result<Option<Seq<char>>, AsmError> {
    if s.done >= s.instrs.len() {
        Ok(None)
    } else {
        match request_for(s.instrs[s.done as int].text, s.labels) {
            None => Err(AsmError::UndefinedLabel { line: (s.done + 1) as usize }),
            Some(q) => Ok(Some(q)),
        }
    }
}

/// The state after the encoder answered the pending request: `None` is a
/// rejection, `Some(bits)` an encoding.
pub open spec fn step(s: AsmState, answer: Option<Seq<char>>) -> Result<AsmState, AsmError> {
    match pending_of(s) {
        Err(e) => Err(e),
        Ok(None) => Ok(s),
        Ok(Some(_)) => match answer {
            None => Err(AsmError::Encoding { line: (s.done + 1) as usize }),
            Some(bits) => match word_of(bits) {
                None => Err(AsmError::Encoding { line: (s.done + 1) as usize }),
                Some(w) => Ok(AsmState { done: s.done + 1, output: s.output + le_bytes(w), ..s }),
            },
        },
    }
}

/// The bytes of `instrs` when the encoder answers each request `q` with
/// `enc(q)`, or the first instruction that fails, by its 1-based position.
pub open spec fn encode_run(
    instrs: Seq<LineView>,
    labels: Map<Seq<char>, nat>,
    enc: spec_fn(Seq<char>) -> Option<Seq<char>>,
) -> Result<Seq<u8>, AsmError>
    decreases instrs.len(),
{
    if instrs.len() == 0 {
        Ok(Seq::empty())
    } else {
        match encode_run(instrs.drop_last(), labels, enc) {
            Err(e) => Err(e),
            Ok(bytes) => {
                let line = instrs.len() as usize;
                match request_for(instrs.last().text, labels) {
                    None => Err(AsmError::UndefinedLabel { line }),
                    Some(q) => match enc(q) {
                        None => Err(AsmError::Encoding { line }),
                        Some(bits) => match word_of(bits) {
                            None => Err(AsmError::Encoding { line }),
                            Some(w) => Ok(bytes + le_bytes(w)),
                        },
                    },
                }
            },
        }
    }
}

/// The program that `src` assembles to with the encoder `enc`, or why it
/// does not assemble.
pub open spec fn assembly(src: Seq<char>, enc: spec_fn(Seq<char>) -> Option<Seq<char>>) -> Result<
    Seq<u8>,
    AsmError,
> {
    match initial(src) {
        Err(e) => Err(e),
        Ok(s) => encode_run(s.instrs, s.labels, enc),
    }
}

pub open spec fn answer_view(answer: Option<&str>) -> Option<Seq<char>> {
    match answer {
        Some(a) => Some(a@),
        None => None,
    }
}

/// An assembly in progress.
pub struct Assembler {
    instructions: Vec<SourceLine>,
    labels: LabelTable,
    done: usize,
    output: Vec<u8>,
}

impl View for Assembler {
    type V = AsmState;

    closed spec fn view(&self) -> AsmState {
        AsmState {
            instrs: views_of(self.instructions@),
            labels: self.labels@,
            done: self.done as nat,
            output: self.output@,
        }
    }
}

impl Assembler {
    pub closed spec fn wf(&self) -> bool {
        &&& self.labels.wf()
        &&& self.done <= self.instructions.len()
        &&& self.instructions.len() <= usize::MAX / 4
        &&& self.output.len() == 4 * self.done
    }

    /// Normalises `source` and sets its labels apart. The assembly begins
    /// with nothing encoded; a label definition that fails ends it here.
    pub fn start(source: &str) -> (r: Result<Assembler, AsmError>)
        requires
            source@.len() <= usize::MAX / 4,
        ensures
            match initial(source@) {
                Ok(s) => r is Ok && r->Ok_0.wf() && r->Ok_0@ == s,
                Err(e) => r == Err::<Assembler, AsmError>(e),
            },
    {
        let lines = normalize(source);
        match discover_labels(&lines) {
            Err(e) => Err(e),
            Ok((labels, instructions)) => {
                proof {
                    crate::labels::lemma_first_pass_instrs_len(views_of(lines@));
                }
                Ok(Assembler { instructions, labels, done: 0, output: Vec::new() })
            },
        }
    }

    /// The text that the encoder is to encode next, `None` once every
    /// instruction is encoded, or the failure of a branch to a label that
    /// is not defined.
    pub fn pending(&self) -> (r: Result<Option<String>, AsmError>)
        requires
            self.wf(),
        ensures
            match pending_of(self@) {
                Ok(Some(q)) => r is Ok && r->Ok_0 is Some && r->Ok_0->0@ == q,
                Ok(None) => r == Ok::<Option<String>, AsmError>(None),
                Err(e) => r == Err::<Option<String>, AsmError>(e),
            },
    {
        if self.done >= self.instructions.len() {
            return Ok(None);
        }
        match request_text(&self.instructions[self.done].text, &self.labels) {
            None => Err(AsmError::UndefinedLabel { line: self.done + 1 }),
            Some(q) => Ok(Some(string_of(&q))),
        }
    }

    /// Takes the encoder's answer to the pending request: `None` where it
    /// rejected the text, else the binary digits it gave. On failure the
    /// state is left as it was.
    pub fn supply(&mut self, answer: Option<&str>) -> (r: Result<(), AsmError>)
        requires
            old(self).wf(),
        ensures
            final(self).wf(),
            match step(old(self)@, answer_view(answer)) {
                Ok(s) => r is Ok && final(self)@ == s,
                Err(e) => r == Err::<(), AsmError>(e) && final(self)@ == old(self)@,
            },
    {
        if self.done >= self.instructions.len() {
            return Ok(());
        }
        let line = self.done + 1;
        if request_text(&self.instructions[self.done].text, &self.labels).is_none() {
            return Err(AsmError::UndefinedLabel { line });
        }
        match answer {
            None => Err(AsmError::Encoding { line }),
            Some(bits) => {
                let digits = chars_of(bits);
                match parse_word(&digits) {
                    None => Err(AsmError::Encoding { line }),
                    Some(w) => {
                        push_le_bytes(w, &mut self.output);
                        self.done = line;
                        Ok(())
                    },
                }
            },
        }
    }

    /// Whether every instruction is encoded.
    pub fn is_finished(&self) -> (r: bool)
        requires
            self.wf(),
        ensures
            r == (self@.done == self@.instrs.len()),
    {
        self.done == self.instructions.len()
    }

    /// The program, once every instruction is encoded: four bytes for each
    /// instruction, in order.
    pub fn into_program(self) -> (r: Option<Vec<u8>>)
        requires
            self.wf(),
        ensures
            self@.done == self@.instrs.len() ==> r is Some && r->0@ == self@.output,
            self@.done != self@.instrs.len() ==> r is None,
            r is Some ==> r->0@.len() == 4 * self@.instrs.len(),
    {
        if self.done == self.instructions.len() {
            Some(self.output)
        } else {
            None
        }
    }
}

} // verus!
