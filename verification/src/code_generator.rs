//! Instruction encoding: the fixed destination, computation and jump
//! tables, and the scan that turns the resolved line sequence into 16-bit
//! machine words.

use vstd::prelude::*;
use vstd::string::StrSliceExecFns;
use vstd::string::StringExecFns;
use crate::text::{has_char, contains_char, str_eq, lemma_has_char};
use crate::parser::{Parser, CommandType, spec_classify, spec_dest, spec_comp, spec_jump};
use crate::numeral::{spec_parse_u16, parse_u16, dec_digits, lemma_dec_digits_value};
use crate::symbol_table::is_instruction;

verus! {

/// Destination bits (already shifted into place): `M` sets bit 3, `D` bit
/// 4, `A` bit 5; a specification with none of the three letters encodes
/// nothing.
pub open spec fn spec_dest_bits(s: Seq<char>) -> Option<u16> {
    let bits = (if has_char(s, 'M') { 8int } else { 0int })
        + (if has_char(s, 'D') { 16int } else { 0int })
        + (if has_char(s, 'A') { 32int } else { 0int });
    if bits > 0 {
        Some(bits as u16)
    } else {
        None
    }
}

/// Base pattern of a computation mnemonic, memory flag not yet applied:
/// an `M` form shares its `A` form's ALU bits.
pub open spec fn comp_base(s: Seq<char>) -> Option<u16> {
    if s == "0"@ { Some(0x0A80u16) }
    else if s == "1"@ { Some(0x0FC0u16) }
    else if s == "-1"@ { Some(0x0E80u16) }
    else if s == "D"@ { Some(0x0300u16) }
    else if s == "A"@ || s == "M"@ { Some(0x0C00u16) }
    else if s == "!D"@ { Some(0x0340u16) }
    else if s == "!A"@ || s == "!M"@ { Some(0x0C40u16) }
    else if s == "-D"@ { Some(0x03C0u16) }
    else if s == "-A"@ || s == "-M"@ { Some(0x0CC0u16) }
    else if s == "D+1"@ { Some(0x07C0u16) }
    else if s == "A+1"@ || s == "M+1"@ { Some(0x0DC0u16) }
    else if s == "D-1"@ { Some(0x0380u16) }
    else if s == "A-1"@ || s == "M-1"@ { Some(0x0C80u16) }
    else if s == "D+A"@ || s == "D+M"@ || s == "A+D"@ || s == "M+D"@ { Some(0x0080u16) }
    else if s == "D-A"@ || s == "D-M"@ { Some(0x04C0u16) }
    else if s == "A-D"@ || s == "M-D"@ { Some(0x01C0u16) }
    else if s == "D&A"@ || s == "D&M"@ || s == "A&D"@ || s == "M&D"@ { Some(0x0000u16) }
    else if s == "D|A"@ || s == "D|M"@ || s == "A|D"@ || s == "M|D"@ { Some(0x0540u16) }
    else { None }
}

/// Computation bits: the base pattern, with the memory flag (bit 12) added
/// for a mnemonic that reads `M` in place of `A`.
pub open spec fn spec_comp_bits(s: Seq<char>) -> Option<u16> {
    match comp_base(s) {
        Some(b) => if has_char(s, 'M') {
            Some((b + 0x1000) as u16)
        } else {
            Some(b)
        },
        None => None,
    }
}

/// Jump bits: the seven conditions in order.
pub open spec fn spec_jump_bits(s: Seq<char>) -> Option<u16> {
    if s == "JGT"@ { Some(1u16) }
    else if s == "JEQ"@ { Some(2u16) }
    else if s == "JGE"@ { Some(3u16) }
    else if s == "JLT"@ { Some(4u16) }
    else if s == "JNE"@ { Some(5u16) }
    else if s == "JLE"@ { Some(6u16) }
    else if s == "JMP"@ { Some(7u16) }
    else { None }
}

pub proof fn lemma_field_bounds(s: Seq<char>)
    ensures
        spec_dest_bits(s) matches Some(d) ==> 0 < d <= 56,
        spec_comp_bits(s) matches Some(c) ==> c <= 0x1FC0,
        spec_jump_bits(s) matches Some(j) ==> 1 <= j <= 7,
{
}

/// Destination bits for a destination specification.
pub fn dest(field: String) -> (r: Option<u16>)
    ensures
        r == spec_dest_bits(field@),
{
    let mut ret: u16 = 0;
    if contains_char(field.as_str(), 'M') {
        ret = ret + 8;
    }
    if contains_char(field.as_str(), 'D') {
        ret = ret + 16;
    }
    if contains_char(field.as_str(), 'A') {
        ret = ret + 32;
    }
    if ret > 0 {
        Some(ret)
    } else {
        None
    }
}

/// Computation bits for a computation mnemonic.
pub fn comp(mnemonic: String) -> (r: Option<u16>)
    ensures
        r == spec_comp_bits(mnemonic@),
{
    let c = mnemonic.as_str();
    let base: Option<u16> = if str_eq(c, "0") { Some(0x0A80) }
        else if str_eq(c, "1") { Some(0x0FC0) }
        else if str_eq(c, "-1") { Some(0x0E80) }
        else if str_eq(c, "D") { Some(0x0300) }
        else if str_eq(c, "A") || str_eq(c, "M") { Some(0x0C00) }
        else if str_eq(c, "!D") { Some(0x0340) }
        else if str_eq(c, "!A") || str_eq(c, "!M") { Some(0x0C40) }
        else if str_eq(c, "-D") { Some(0x03C0) }
        else if str_eq(c, "-A") || str_eq(c, "-M") { Some(0x0CC0) }
        else if str_eq(c, "D+1") { Some(0x07C0) }
        else if str_eq(c, "A+1") || str_eq(c, "M+1") { Some(0x0DC0) }
        else if str_eq(c, "D-1") { Some(0x0380) }
        else if str_eq(c, "A-1") || str_eq(c, "M-1") { Some(0x0C80) }
        else if str_eq(c, "D+A") || str_eq(c, "D+M") || str_eq(c, "A+D") || str_eq(c, "M+D") { Some(0x0080) }
        else if str_eq(c, "D-A") || str_eq(c, "D-M") { Some(0x04C0) }
        else if str_eq(c, "A-D") || str_eq(c, "M-D") { Some(0x01C0) }
        else if str_eq(c, "D&A") || str_eq(c, "D&M") || str_eq(c, "A&D") || str_eq(c, "M&D") { Some(0x0000) }
        else if str_eq(c, "D|A") || str_eq(c, "D|M") || str_eq(c, "A|D") || str_eq(c, "M|D") { Some(0x0540) }
        else { None };
    match base {
        Some(b) => if contains_char(c, 'M') {
            Some(b + 0x1000)
        } else {
            Some(b)
        },
        None => None,
    }
}

/// A line that cannot be encoded: the scan position (counting from where
/// the scan started) and the token that no table recognises.
#[derive(Debug, PartialEq, Eq)]
pub enum CodeError {
    BadAddress { line: usize, token: String },
    BadDest { line: usize, token: String },
    BadComp { line: usize, token: String },
    BadJump { line: usize, token: String },
}

/// The machine word of one resolved line, if the line can be encoded: an
/// address line gives its operand, which must be a numeral fitting 15
/// bits, so the top bit stays clear; a compute line packs the fixed `111`
/// prefix with its three field codes. `None` stands for a hard error, and
/// is never the encoding of a label line.
pub open spec fn spec_encode(l: Seq<char>) -> Option<u16> {
    match spec_classify(l) {
        CommandType::A => match spec_parse_u16(l.subrange(1, l.len() as int)) {
            Some(v) => if v <= 0x7FFF {
                Some(v)
            } else {
                None
            },
            None => None,
        },
        CommandType::C => {
            let db = match spec_dest(l) {
                Some(ds) => spec_dest_bits(ds),
                None => Some(0u16),
            };
            let cb = match spec_comp(l) {
                Some(cs) => spec_comp_bits(cs),
                None => None,
            };
            let jb = match spec_jump(l) {
                Some(js) => spec_jump_bits(js),
                None => Some(0u16),
            };
            match (db, cb, jb) {
                (Some(d), Some(c), Some(j)) => Some(((0xE000 + d + c + j) as u16)),
                _ => None,
            }
        },
        CommandType::L => None,
    }
}

/// Whether every instruction line in `[from, to)` can be encoded.
pub open spec fn all_encode(lines: Seq<Seq<char>>, from: int, to: int) -> bool {
    forall|i: int| from <= i < to && is_instruction(#[trigger] lines[i])
        ==> spec_encode(lines[i]) is Some
}

/// The words of the instruction lines of `[from, to)`, in source order,
/// assuming each encodes; label lines contribute nothing.
pub open spec fn spec_words(lines: Seq<Seq<char>>, from: int, to: int) -> Seq<u16>
    decreases to - from,
{
    if to <= from {
        Seq::empty()
    } else {
        let prev = spec_words(lines, from, to - 1);
        if is_instruction(lines[to - 1]) {
            match spec_encode(lines[to - 1]) {
                Some(w) => prev.push(w),
                None => prev,
            }
        } else {
            prev
        }
    }
}

pub open spec fn c_error(e: CodeError, i: int, l: Seq<char>) -> bool {
    let dfail = match spec_dest(l) {
        Some(ds) => spec_dest_bits(ds) is None,
        None => false,
    };
    let cfail = match spec_comp(l) {
        Some(cs) => spec_comp_bits(cs) is None,
        None => true,
    };
    let jfail = match spec_jump(l) {
        Some(js) => spec_jump_bits(js) is None,
        None => false,
    };
    if dfail {
        e matches CodeError::BadDest { line, token } && line == i && Some(token@) == spec_dest(l)
    } else if cfail {
        e matches CodeError::BadComp { line, token } && line == i && Some(token@) == spec_comp(l)
    } else {
        jfail && (e matches CodeError::BadJump { line, token } && line == i
            && Some(token@) == spec_jump(l))
    }
}

/// What the error reported for the unencodable line `l`, at scan position
/// `i`, must carry: its position, and the token of the first field whose
/// table does not know it.
pub open spec fn spec_line_error(e: CodeError, i: int, l: Seq<char>) -> bool {
    match spec_classify(l) {
        CommandType::A => e matches CodeError::BadAddress { line, token } && line == i
            && token@ == l.subrange(1, l.len() as int),
        CommandType::C => c_error(e, i, l),
        CommandType::L => false,
    }
}

/// Scan the resolved lines from the cursor's position and emit one word
/// per instruction line, in order. A label line still present emits no
/// word. A token no table recognises, or an address operand not fitting
/// 15 bits, stops the scan with a hard error naming the position and the
/// token.
pub fn generate_machine_lines(parser: &mut Parser) -> (r: Result<Vec<u16>, CodeError>)
    requires
        old(parser).wf(),
    ensures
        final(parser).wf(),
        final(parser).spec_lines() == old(parser).spec_lines(),
        ({
            let lines = old(parser).spec_lines();
            let from = old(parser).spec_index();
            let n = lines.len() as int;
            match r {
                Ok(words) => all_encode(lines, from, n)
                    && words@ == spec_words(lines, from, n)
                    && final(parser).spec_index() == n - 1,
                Err(e) => ({
                    let i = final(parser).spec_index();
                    from <= i < n
                        && is_instruction(lines[i])
                        && spec_encode(lines[i]) is None
                        && all_encode(lines, from, i)
                        && spec_line_error(e, i - from, lines[i])
                }),
            }
        }),
{
    let ghost lines = old(parser).spec_lines();
    let ghost from = old(parser).spec_index();
    let ghost n = lines.len() as int;
    let mut machine_lines: Vec<u16> = Vec::new();
    let mut k: usize = 0;
    let mut done = false;
    proof {
        parser.lemma_wf_bounds();
    }
    while !done
        invariant
            parser.wf(),
            lines == old(parser).spec_lines(),
            from == old(parser).spec_index(),
            parser.spec_lines() == lines,
            n == lines.len(),
            0 <= from,
            !done ==> from <= parser.spec_index() < n
                && k == parser.spec_index() - from
                && all_encode(lines, from, parser.spec_index())
                && machine_lines@ == spec_words(lines, from, parser.spec_index()),
            done ==> parser.spec_index() == n - 1
                && all_encode(lines, from, n)
                && machine_lines@ == spec_words(lines, from, n),
        decreases n - parser.spec_index() + (if done { 0int } else { 1int }),
    {
        let ghost i = parser.spec_index();
        proof {
            parser.lemma_wf_bounds();
        }
        if let Some(c_type) = parser.command_type() {
            match c_type {
                CommandType::A => {
                    let symbol = match parser.symbol() {
                        Some(s) => s,
                        None => {
                            // an address line always carries its operand
                            proof {
                                assert(false);
                            }
                            String::new()
                        },
                    };
                    match parse_u16(symbol.as_str()) {
                        Some(v) => {
                            if v <= 0x7FFF {
                                machine_lines.push(v);
                            } else {
                                return Err(CodeError::BadAddress { line: k, token: symbol });
                            }
                        },
                        None => {
                            return Err(CodeError::BadAddress { line: k, token: symbol });
                        },
                    }
                },
                CommandType::C => {
                    let dbits: u16 = match parser.dest() {
                        Some(ds) => match dest(ds.clone()) {
                            Some(v) => v,
                            None => {
                                return Err(CodeError::BadDest { line: k, token: ds });
                            },
                        },
                        None => 0,
                    };
                    let cbits: u16 = match parser.comp() {
                        Some(cs) => match comp(cs.clone()) {
                            Some(v) => v,
                            None => {
                                return Err(CodeError::BadComp { line: k, token: cs });
                            },
                        },
                        None => {
                            // a compute line always has a computation field:
                            // it holds `=` or `;` by classification
                            proof {
                                assert(false);
                            }
                            0
                        },
                    };
                    let jbits: u16 = match parser.jump() {
                        Some(js) => match jump(js.clone()) {
                            Some(v) => v,
                            None => {
                                return Err(CodeError::BadJump { line: k, token: js });
                            },
                        },
                        None => 0,
                    };
                    proof {
                        lemma_field_bounds(match spec_dest(lines[i]) {
                            Some(ds) => ds,
                            None => Seq::empty(),
                        });
                        lemma_field_bounds(match spec_comp(lines[i]) {
                            Some(cs) => cs,
                            None => Seq::empty(),
                        });
                        lemma_field_bounds(match spec_jump(lines[i]) {
                            Some(js) => js,
                            None => Seq::empty(),
                        });
                    }
                    let command: u16 = 0xE000 + dbits + cbits + jbits;
                    machine_lines.push(command);
                },
                CommandType::L => {},
            }
        }
        k = k + 1;
        if parser.advance().is_err() {
            done = true;
        }
    }
    Ok(machine_lines)
}

/// Jump bits for a jump mnemonic.
pub fn jump(condition: String) -> (r: Option<u16>)
    ensures
        r == spec_jump_bits(condition@),
{
    let j = condition.as_str();
    if str_eq(j, "JGT") { Some(1) }
    else if str_eq(j, "JEQ") { Some(2) }
    else if str_eq(j, "JGE") { Some(3) }
    else if str_eq(j, "JLT") { Some(4) }
    else if str_eq(j, "JNE") { Some(5) }
    else if str_eq(j, "JLE") { Some(6) }
    else if str_eq(j, "JMP") { Some(7) }
    else { None }
}

/// Canonical destination mnemonic for a (shifted) destination bit pattern.
pub open spec fn spec_dest_of_bits(b: u16) -> Option<Seq<char>> {
    if b == 8 { Some("M"@) }
    else if b == 16 { Some("D"@) }
    else if b == 24 { Some("MD"@) }
    else if b == 32 { Some("A"@) }
    else if b == 40 { Some("AM"@) }
    else if b == 48 { Some("AD"@) }
    else if b == 56 { Some("AMD"@) }
    else { None }
}

/// Canonical computation mnemonic for a computation code, memory flag
/// included: codes with bit 12 set decode to the `M` form of the same
/// ALU pattern.
pub open spec fn spec_comp_of_bits(c: u16) -> Option<Seq<char>> {
    if c == 0x0A80 { Some("0"@) }
    else if c == 0x0FC0 { Some("1"@) }
    else if c == 0x0E80 { Some("-1"@) }
    else if c == 0x0300 { Some("D"@) }
    else if c == 0x0C00 { Some("A"@) }
    else if c == 0x1C00 { Some("M"@) }
    else if c == 0x0340 { Some("!D"@) }
    else if c == 0x0C40 { Some("!A"@) }
    else if c == 0x1C40 { Some("!M"@) }
    else if c == 0x03C0 { Some("-D"@) }
    else if c == 0x0CC0 { Some("-A"@) }
    else if c == 0x1CC0 { Some("-M"@) }
    else if c == 0x07C0 { Some("D+1"@) }
    else if c == 0x0DC0 { Some("A+1"@) }
    else if c == 0x1DC0 { Some("M+1"@) }
    else if c == 0x0380 { Some("D-1"@) }
    else if c == 0x0C80 { Some("A-1"@) }
    else if c == 0x1C80 { Some("M-1"@) }
    else if c == 0x0080 { Some("D+A"@) }
    else if c == 0x1080 { Some("D+M"@) }
    else if c == 0x04C0 { Some("D-A"@) }
    else if c == 0x14C0 { Some("D-M"@) }
    else if c == 0x01C0 { Some("A-D"@) }
    else if c == 0x11C0 { Some("M-D"@) }
    else if c == 0x0000 { Some("D&A"@) }
    else if c == 0x1000 { Some("D&M"@) }
    else if c == 0x0540 { Some("D|A"@) }
    else if c == 0x1540 { Some("D|M"@) }
    else { None }
}

/// Canonical jump mnemonic for a jump code.
pub open spec fn spec_jump_of_bits(j: u16) -> Option<Seq<char>> {
    if j == 1 { Some("JGT"@) }
    else if j == 2 { Some("JEQ"@) }
    else if j == 3 { Some("JGE"@) }
    else if j == 4 { Some("JLT"@) }
    else if j == 5 { Some("JNE"@) }
    else if j == 6 { Some("JLE"@) }
    else if j == 7 { Some("JMP"@) }
    else { None }
}

/// Destination round trip: every destination mnemonic encodes to a
/// distinct bit pattern, and decoding that pattern by the same table
/// recovers the mnemonic.
pub proof fn lemma_dest_round_trip()
    ensures
        spec_dest_bits("M"@) == Some(8u16) && spec_dest_of_bits(8u16) == Some("M"@),
        spec_dest_bits("D"@) == Some(16u16) && spec_dest_of_bits(16u16) == Some("D"@),
        spec_dest_bits("MD"@) == Some(24u16) && spec_dest_of_bits(24u16) == Some("MD"@),
        spec_dest_bits("A"@) == Some(32u16) && spec_dest_of_bits(32u16) == Some("A"@),
        spec_dest_bits("AM"@) == Some(40u16) && spec_dest_of_bits(40u16) == Some("AM"@),
        spec_dest_bits("AD"@) == Some(48u16) && spec_dest_of_bits(48u16) == Some("AD"@),
        spec_dest_bits("AMD"@) == Some(56u16) && spec_dest_of_bits(56u16) == Some("AMD"@),
{
    reveal_strlit("M");
    reveal_strlit("D");
    reveal_strlit("MD");
    reveal_strlit("A");
    reveal_strlit("AM");
    reveal_strlit("AD");
    reveal_strlit("AMD");
    assert("M"@[0] == 'M' && "M"@.len() == 1);
    assert("D"@[0] == 'D' && "D"@.len() == 1);
    assert("MD"@[0] == 'M' && "MD"@[1] == 'D' && "MD"@.len() == 2);
    assert("A"@[0] == 'A' && "A"@.len() == 1);
    assert("AM"@[0] == 'A' && "AM"@[1] == 'M' && "AM"@.len() == 2);
    assert("AD"@[0] == 'A' && "AD"@[1] == 'D' && "AD"@.len() == 2);
    assert("AMD"@[0] == 'A' && "AMD"@[1] == 'M' && "AMD"@[2] == 'D' && "AMD"@.len() == 3);
    lemma_has_char("M"@, 'M');
    lemma_has_char("M"@, 'D');
    lemma_has_char("M"@, 'A');
    lemma_has_char("D"@, 'M');
    lemma_has_char("D"@, 'D');
    lemma_has_char("D"@, 'A');
    lemma_has_char("MD"@, 'M');
    lemma_has_char("MD"@, 'D');
    lemma_has_char("MD"@, 'A');
    lemma_has_char("A"@, 'M');
    lemma_has_char("A"@, 'D');
    lemma_has_char("A"@, 'A');
    lemma_has_char("AM"@, 'M');
    lemma_has_char("AM"@, 'D');
    lemma_has_char("AM"@, 'A');
    lemma_has_char("AD"@, 'M');
    lemma_has_char("AD"@, 'D');
    lemma_has_char("AD"@, 'A');
    lemma_has_char("AMD"@, 'M');
    lemma_has_char("AMD"@, 'D');
    lemma_has_char("AMD"@, 'A');
}

/// Jump round trip: the seven jump mnemonics encode to the seven distinct
/// codes 1 to 7, and decoding by the same table recovers each mnemonic.
pub proof fn lemma_jump_round_trip()
    ensures
        spec_jump_bits("JGT"@) == Some(1u16) && spec_jump_of_bits(1u16) == Some("JGT"@),
        spec_jump_bits("JEQ"@) == Some(2u16) && spec_jump_of_bits(2u16) == Some("JEQ"@),
        spec_jump_bits("JGE"@) == Some(3u16) && spec_jump_of_bits(3u16) == Some("JGE"@),
        spec_jump_bits("JLT"@) == Some(4u16) && spec_jump_of_bits(4u16) == Some("JLT"@),
        spec_jump_bits("JNE"@) == Some(5u16) && spec_jump_of_bits(5u16) == Some("JNE"@),
        spec_jump_bits("JLE"@) == Some(6u16) && spec_jump_of_bits(6u16) == Some("JLE"@),
        spec_jump_bits("JMP"@) == Some(7u16) && spec_jump_of_bits(7u16) == Some("JMP"@),
{
    reveal_strlit("JGT");
    reveal_strlit("JEQ");
    reveal_strlit("JGE");
    reveal_strlit("JLT");
    reveal_strlit("JNE");
    reveal_strlit("JLE");
    reveal_strlit("JMP");
    assert("JGT"@[0] == 'J' && "JGT"@[1] == 'G' && "JGT"@[2] == 'T');
    assert("JEQ"@[0] == 'J' && "JEQ"@[1] == 'E' && "JEQ"@[2] == 'Q');
    assert("JGE"@[0] == 'J' && "JGE"@[1] == 'G' && "JGE"@[2] == 'E');
    assert("JLT"@[0] == 'J' && "JLT"@[1] == 'L' && "JLT"@[2] == 'T');
    assert("JNE"@[0] == 'J' && "JNE"@[1] == 'N' && "JNE"@[2] == 'E');
    assert("JLE"@[0] == 'J' && "JLE"@[1] == 'L' && "JLE"@[2] == 'E');
    assert("JMP"@[0] == 'J' && "JMP"@[1] == 'M' && "JMP"@[2] == 'P');
}

/// Computation round trip: every accepted computation mnemonic encodes to
/// the code listed here, and decoding the code by the same table recovers
/// the mnemonic (a commutative alias spelling decodes to its canonical
/// partner with the same code). The listed codes are pairwise distinct,
/// and each `M` form's code is its `A` form's code with only the memory
/// flag (bit 12) added.
#[verifier::rlimit(60)]
pub proof fn lemma_comp_round_trip()
    ensures
        spec_comp_bits("0"@) == Some(0x0A80u16) && spec_comp_of_bits(0x0A80u16) == Some("0"@),
        spec_comp_bits("1"@) == Some(0x0FC0u16) && spec_comp_of_bits(0x0FC0u16) == Some("1"@),
        spec_comp_bits("-1"@) == Some(0x0E80u16) && spec_comp_of_bits(0x0E80u16) == Some("-1"@),
        spec_comp_bits("D"@) == Some(0x0300u16) && spec_comp_of_bits(0x0300u16) == Some("D"@),
        spec_comp_bits("A"@) == Some(0x0C00u16) && spec_comp_of_bits(0x0C00u16) == Some("A"@),
        spec_comp_bits("M"@) == Some(0x1C00u16) && spec_comp_of_bits(0x1C00u16) == Some("M"@),
        spec_comp_bits("!D"@) == Some(0x0340u16) && spec_comp_of_bits(0x0340u16) == Some("!D"@),
        spec_comp_bits("!A"@) == Some(0x0C40u16) && spec_comp_of_bits(0x0C40u16) == Some("!A"@),
        spec_comp_bits("!M"@) == Some(0x1C40u16) && spec_comp_of_bits(0x1C40u16) == Some("!M"@),
        spec_comp_bits("-D"@) == Some(0x03C0u16) && spec_comp_of_bits(0x03C0u16) == Some("-D"@),
        spec_comp_bits("-A"@) == Some(0x0CC0u16) && spec_comp_of_bits(0x0CC0u16) == Some("-A"@),
        spec_comp_bits("-M"@) == Some(0x1CC0u16) && spec_comp_of_bits(0x1CC0u16) == Some("-M"@),
        spec_comp_bits("D+1"@) == Some(0x07C0u16) && spec_comp_of_bits(0x07C0u16) == Some("D+1"@),
        spec_comp_bits("A+1"@) == Some(0x0DC0u16) && spec_comp_of_bits(0x0DC0u16) == Some("A+1"@),
        spec_comp_bits("M+1"@) == Some(0x1DC0u16) && spec_comp_of_bits(0x1DC0u16) == Some("M+1"@),
        spec_comp_bits("D-1"@) == Some(0x0380u16) && spec_comp_of_bits(0x0380u16) == Some("D-1"@),
        spec_comp_bits("A-1"@) == Some(0x0C80u16) && spec_comp_of_bits(0x0C80u16) == Some("A-1"@),
        spec_comp_bits("M-1"@) == Some(0x1C80u16) && spec_comp_of_bits(0x1C80u16) == Some("M-1"@),
        spec_comp_bits("D+A"@) == Some(0x0080u16) && spec_comp_of_bits(0x0080u16) == Some("D+A"@),
        spec_comp_bits("D+M"@) == Some(0x1080u16) && spec_comp_of_bits(0x1080u16) == Some("D+M"@),
        spec_comp_bits("A+D"@) == Some(0x0080u16) && spec_comp_of_bits(0x0080u16) == Some("D+A"@),
        spec_comp_bits("M+D"@) == Some(0x1080u16) && spec_comp_of_bits(0x1080u16) == Some("D+M"@),
        spec_comp_bits("D-A"@) == Some(0x04C0u16) && spec_comp_of_bits(0x04C0u16) == Some("D-A"@),
        spec_comp_bits("D-M"@) == Some(0x14C0u16) && spec_comp_of_bits(0x14C0u16) == Some("D-M"@),
        spec_comp_bits("A-D"@) == Some(0x01C0u16) && spec_comp_of_bits(0x01C0u16) == Some("A-D"@),
        spec_comp_bits("M-D"@) == Some(0x11C0u16) && spec_comp_of_bits(0x11C0u16) == Some("M-D"@),
        spec_comp_bits("D&A"@) == Some(0x0000u16) && spec_comp_of_bits(0x0000u16) == Some("D&A"@),
        spec_comp_bits("D&M"@) == Some(0x1000u16) && spec_comp_of_bits(0x1000u16) == Some("D&M"@),
        spec_comp_bits("A&D"@) == Some(0x0000u16) && spec_comp_of_bits(0x0000u16) == Some("D&A"@),
        spec_comp_bits("M&D"@) == Some(0x1000u16) && spec_comp_of_bits(0x1000u16) == Some("D&M"@),
        spec_comp_bits("D|A"@) == Some(0x0540u16) && spec_comp_of_bits(0x0540u16) == Some("D|A"@),
        spec_comp_bits("D|M"@) == Some(0x1540u16) && spec_comp_of_bits(0x1540u16) == Some("D|M"@),
        spec_comp_bits("A|D"@) == Some(0x0540u16) && spec_comp_of_bits(0x0540u16) == Some("D|A"@),
        spec_comp_bits("M|D"@) == Some(0x1540u16) && spec_comp_of_bits(0x1540u16) == Some("D|M"@),
{
    reveal_strlit("0");
    reveal_strlit("1");
    reveal_strlit("-1");
    reveal_strlit("D");
    reveal_strlit("A");
    reveal_strlit("M");
    reveal_strlit("!D");
    reveal_strlit("!A");
    reveal_strlit("!M");
    reveal_strlit("-D");
    reveal_strlit("-A");
    reveal_strlit("-M");
    reveal_strlit("D+1");
    reveal_strlit("A+1");
    reveal_strlit("M+1");
    reveal_strlit("D-1");
    reveal_strlit("A-1");
    reveal_strlit("M-1");
    reveal_strlit("D+A");
    reveal_strlit("D+M");
    reveal_strlit("A+D");
    reveal_strlit("M+D");
    reveal_strlit("D-A");
    reveal_strlit("D-M");
    reveal_strlit("A-D");
    reveal_strlit("M-D");
    reveal_strlit("D&A");
    reveal_strlit("D&M");
    reveal_strlit("A&D");
    reveal_strlit("M&D");
    reveal_strlit("D|A");
    reveal_strlit("D|M");
    reveal_strlit("A|D");
    reveal_strlit("M|D");
    assert("0"@[0] == '0' && "0"@.len() == 1);
    assert("1"@[0] == '1' && "1"@.len() == 1);
    assert("-1"@[0] == '-' && "-1"@[1] == '1' && "-1"@.len() == 2);
    assert("D"@[0] == 'D' && "D"@.len() == 1);
    assert("A"@[0] == 'A' && "A"@.len() == 1);
    assert("M"@[0] == 'M' && "M"@.len() == 1);
    assert("!D"@[0] == '!' && "!D"@[1] == 'D' && "!D"@.len() == 2);
    assert("!A"@[0] == '!' && "!A"@[1] == 'A' && "!A"@.len() == 2);
    assert("!M"@[0] == '!' && "!M"@[1] == 'M' && "!M"@.len() == 2);
    assert("-D"@[0] == '-' && "-D"@[1] == 'D' && "-D"@.len() == 2);
    assert("-A"@[0] == '-' && "-A"@[1] == 'A' && "-A"@.len() == 2);
    assert("-M"@[0] == '-' && "-M"@[1] == 'M' && "-M"@.len() == 2);
    assert("D+1"@[0] == 'D' && "D+1"@[1] == '+' && "D+1"@[2] == '1' && "D+1"@.len() == 3);
    assert("A+1"@[0] == 'A' && "A+1"@[1] == '+' && "A+1"@[2] == '1' && "A+1"@.len() == 3);
    assert("M+1"@[0] == 'M' && "M+1"@[1] == '+' && "M+1"@[2] == '1' && "M+1"@.len() == 3);
    assert("D-1"@[0] == 'D' && "D-1"@[1] == '-' && "D-1"@[2] == '1' && "D-1"@.len() == 3);
    assert("A-1"@[0] == 'A' && "A-1"@[1] == '-' && "A-1"@[2] == '1' && "A-1"@.len() == 3);
    assert("M-1"@[0] == 'M' && "M-1"@[1] == '-' && "M-1"@[2] == '1' && "M-1"@.len() == 3);
    assert("D+A"@[0] == 'D' && "D+A"@[1] == '+' && "D+A"@[2] == 'A' && "D+A"@.len() == 3);
    assert("D+M"@[0] == 'D' && "D+M"@[1] == '+' && "D+M"@[2] == 'M' && "D+M"@.len() == 3);
    assert("A+D"@[0] == 'A' && "A+D"@[1] == '+' && "A+D"@[2] == 'D' && "A+D"@.len() == 3);
    assert("M+D"@[0] == 'M' && "M+D"@[1] == '+' && "M+D"@[2] == 'D' && "M+D"@.len() == 3);
    assert("D-A"@[0] == 'D' && "D-A"@[1] == '-' && "D-A"@[2] == 'A' && "D-A"@.len() == 3);
    assert("D-M"@[0] == 'D' && "D-M"@[1] == '-' && "D-M"@[2] == 'M' && "D-M"@.len() == 3);
    assert("A-D"@[0] == 'A' && "A-D"@[1] == '-' && "A-D"@[2] == 'D' && "A-D"@.len() == 3);
    assert("M-D"@[0] == 'M' && "M-D"@[1] == '-' && "M-D"@[2] == 'D' && "M-D"@.len() == 3);
    assert("D&A"@[0] == 'D' && "D&A"@[1] == '&' && "D&A"@[2] == 'A' && "D&A"@.len() == 3);
    assert("D&M"@[0] == 'D' && "D&M"@[1] == '&' && "D&M"@[2] == 'M' && "D&M"@.len() == 3);
    assert("A&D"@[0] == 'A' && "A&D"@[1] == '&' && "A&D"@[2] == 'D' && "A&D"@.len() == 3);
    assert("M&D"@[0] == 'M' && "M&D"@[1] == '&' && "M&D"@[2] == 'D' && "M&D"@.len() == 3);
    assert("D|A"@[0] == 'D' && "D|A"@[1] == '|' && "D|A"@[2] == 'A' && "D|A"@.len() == 3);
    assert("D|M"@[0] == 'D' && "D|M"@[1] == '|' && "D|M"@[2] == 'M' && "D|M"@.len() == 3);
    assert("A|D"@[0] == 'A' && "A|D"@[1] == '|' && "A|D"@[2] == 'D' && "A|D"@.len() == 3);
    assert("M|D"@[0] == 'M' && "M|D"@[1] == '|' && "M|D"@[2] == 'D' && "M|D"@.len() == 3);
    lemma_has_char("0"@, 'M');
    lemma_has_char("1"@, 'M');
    lemma_has_char("-1"@, 'M');
    lemma_has_char("D"@, 'M');
    lemma_has_char("A"@, 'M');
    lemma_has_char("M"@, 'M');
    lemma_has_char("!D"@, 'M');
    lemma_has_char("!A"@, 'M');
    lemma_has_char("!M"@, 'M');
    lemma_has_char("-D"@, 'M');
    lemma_has_char("-A"@, 'M');
    lemma_has_char("-M"@, 'M');
    lemma_has_char("D+1"@, 'M');
    lemma_has_char("A+1"@, 'M');
    lemma_has_char("M+1"@, 'M');
    lemma_has_char("D-1"@, 'M');
    lemma_has_char("A-1"@, 'M');
    lemma_has_char("M-1"@, 'M');
    lemma_has_char("D+A"@, 'M');
    lemma_has_char("D+M"@, 'M');
    lemma_has_char("A+D"@, 'M');
    lemma_has_char("M+D"@, 'M');
    lemma_has_char("D-A"@, 'M');
    lemma_has_char("D-M"@, 'M');
    lemma_has_char("A-D"@, 'M');
    lemma_has_char("M-D"@, 'M');
    lemma_has_char("D&A"@, 'M');
    lemma_has_char("D&M"@, 'M');
    lemma_has_char("A&D"@, 'M');
    lemma_has_char("M&D"@, 'M');
    lemma_has_char("D|A"@, 'M');
    lemma_has_char("D|M"@, 'M');
    lemma_has_char("A|D"@, 'M');
    lemma_has_char("M|D"@, 'M');
}

/// Encoding an address line whose operand is the decimal numeral of an
/// n in [0, 32767] yields the word n itself, with the top bit clear.
pub proof fn lemma_encode_address_literal(n: u16)
    requires
        n <= 0x7FFF,
    ensures
        spec_encode(seq!['@'] + dec_digits(n as int)) == Some(n),
        n & 0x8000 == 0,
{
    let l = seq!['@'] + dec_digits(n as int);
    lemma_dec_digits_value(n as int);
    assert(l.len() > 0);
    assert(l[0] == '@');
    assert(spec_classify(l) is A);
    assert(l.subrange(1, l.len() as int) =~= dec_digits(n as int));
    assert(spec_parse_u16(l.subrange(1, l.len() as int)) == Some(n));
    assert(n <= 0x7FFF ==> n & 0x8000 == 0) by (bit_vector);
}

/// The sixteen bits of a word, most significant first, as `'0'`/`'1'`.
pub open spec fn spec_binary(w: u16) -> Seq<char> {
    Seq::new(16, |i: int| if (w >> ((15 - i) as u16)) & 1u16 == 1u16 {
        '1'
    } else {
        '0'
    })
}

/// Render one word as its sixteen binary digits.
pub fn to_binary_string(w: u16) -> (r: String)
    ensures
        r@ == spec_binary(w),
{
    let mut s = String::new();
    let mut i: usize = 0;
    while i < 16
        invariant
            0 <= i <= 16,
            s@ == spec_binary(w).subrange(0, i as int),
        decreases 16 - i,
    {
        let shift: u16 = 15 - (i as u16);
        let bit = (w >> shift) & 1;
        if bit == 1 {
            s.append("1");
        } else {
            s.append("0");
        }
        proof {
            reveal_strlit("1");
            reveal_strlit("0");
            assert(s@ =~= spec_binary(w).subrange(0, i + 1));
        }
        i += 1;
    }
    proof {
        assert(spec_binary(w).subrange(0, 16) =~= spec_binary(w));
    }
    s
}

/// Render every word, one line of sixteen binary digits per word.
pub fn to_binary_lines(words: &Vec<u16>) -> (r: Vec<String>)
    ensures
        r@.len() == words@.len(),
        forall|i: int| 0 <= i < words@.len() ==> (#[trigger] r@[i])@ == spec_binary(words@[i]),
{
    let mut out: Vec<String> = Vec::new();
    let mut i: usize = 0;
    while i < words.len()
        invariant
            0 <= i <= words@.len(),
            out@.len() == i,
            forall|j: int| 0 <= j < i ==> (#[trigger] out@[j])@ == spec_binary(words@[j]),
        decreases words@.len() - i,
    {
        out.push(to_binary_string(words[i]));
        i += 1;
    }
    out
}

} // verus!
