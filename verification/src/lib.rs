//! A two-pass assembler for a 16-bit machine: cleaned source lines are
//! classified, labels are fixed to ROM addresses, variables are allocated
//! RAM addresses, the line sequence is rewritten with symbols resolved,
//! and each remaining line is encoded as one 16-bit word.

pub mod code_generator;
pub mod numeral;
pub mod parser;
pub mod symbol_table;
pub mod text;

use vstd::prelude::*;
use crate::parser::{Parser, line_views};
use crate::symbol_table::{
    SymbolTable, spec_predefined, labels_fold, vars_fold, rewrite_lines, rom_count,
    lemma_rom_count_nonneg, lemma_vars_fold_ram_mono, is_instruction,
};
use crate::code_generator::{
    CodeError, generate_machine_lines, all_encode, spec_words, spec_encode, spec_line_error,
};

verus! {

#[derive(Debug, PartialEq, Eq)]
pub enum AssembleError {
    /// The input, or the rewritten sequence after labels are dropped, holds
    /// no line at all.
    EmptyInput,
    /// A resolved line that no table can encode.
    Code(CodeError),
}

/// The words the whole pipeline produces for a cleaned input, when every
/// stage succeeds: the symbol table starts from the predefined constants,
/// labels bind on the first pass, variables are allocated from address 16
/// on the second, the lines are rewritten, and each rewritten line is
/// encoded.
pub open spec fn spec_assemble(lines: Seq<Seq<char>>) -> Option<Seq<u16>> {
    if lines.len() == 0 {
        None
    } else {
        let n = lines.len() as int;
        let lm = labels_fold(spec_predefined(0), 0, lines, n);
        let vm = vars_fold(lm, 16, lines, n).0;
        let rl = rewrite_lines(vm, lines, n);
        if rl.len() == 0 {
            None
        } else if all_encode(rl, 0, rl.len() as int) {
            Some(spec_words(rl, 0, rl.len() as int))
        } else {
            None
        }
    }
}

/// Run the full pipeline on a cleaned line sequence.
pub fn assemble(lines: &Vec<String>) -> (r: Result<Vec<u16>, AssembleError>)
    requires
        lines@.len() <= 0xFFFF - 16,
    ensures
        ({
            let views = line_views(lines@);
            let n = views.len() as int;
            let lm = labels_fold(spec_predefined(0), 0, views, n);
            let vm = vars_fold(lm, 16, views, n).0;
            let rl = rewrite_lines(vm, views, n);
            match r {
                Ok(words) => spec_assemble(views) == Some(words@),
                Err(e) => spec_assemble(views) is None && match e {
                    AssembleError::EmptyInput => n == 0 || rl.len() == 0,
                    AssembleError::Code(ce) => exists|i: int|
                        0 <= i < rl.len()
                        && is_instruction(#[trigger] rl[i])
                        && spec_encode(rl[i]) is None
                        && all_encode(rl, 0, i)
                        && spec_line_error(ce, i, rl[i]),
                },
            }
        }),
{
    let ghost views = line_views(lines@);
    let ghost n = views.len() as int;
    let ghost lm = labels_fold(spec_predefined(0), 0, views, n);
    let ghost vm = vars_fold(lm, 16, views, n).0;
    let ghost rl = rewrite_lines(vm, views, n);
    let mut a = match Parser::new(lines) {
        Ok(p) => p,
        Err(_) => {
            return Err(AssembleError::EmptyInput);
        },
    };
    let mut symbol_table = SymbolTable::new(0);
    proof {
        lemma_rom_count_nonneg(views, n);
        lemma_vars_fold_ram_mono(lm, 16, views, 0, n);
    }
    symbol_table.pass_1(&mut a);
    let new_lines = symbol_table.pass_2(lines);
    let mut b = match Parser::new(&new_lines) {
        Ok(p) => p,
        Err(_) => {
            return Err(AssembleError::EmptyInput);
        },
    };
    match generate_machine_lines(&mut b) {
        Ok(words) => Ok(words),
        Err(e) => Err(AssembleError::Code(e)),
    }
}

/// The pipeline is a pure function of its input: two runs on the same
/// lines, each from a fresh symbol table, yield identical words.
pub proof fn lemma_assemble_deterministic(lines: Seq<Seq<char>>, w1: Seq<u16>, w2: Seq<u16>)
    requires
        spec_assemble(lines) == Some(w1),
        spec_assemble(lines) == Some(w2),
    ensures
        w1 == w2,
{
}

} // verus!
