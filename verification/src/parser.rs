//! Line classifier, field extractor, and the forward-only resettable
//! cursor over the cleaned line sequence.

use vstd::prelude::*;
use vstd::string::StrSliceExecFns;
use crate::text::{spec_find, has_char, find_char, contains_char, lemma_find_props};
pub use crate::text::line_views;

verus! {

#[derive(Copy, Clone, PartialEq, Eq, Structural, Debug)]
pub enum CommandType {
    A,
    C,
    L,
}

#[derive(Copy, Clone, PartialEq, Eq, Structural, Debug)]
pub enum NewParserError {
    LinesEmpty,
}

#[derive(Copy, Clone, PartialEq, Eq, Structural, Debug)]
pub enum AdvanceError {
    NoMoreCommands,
}

/// Classification of a cleaned line: sigil-prefixed lines load an address,
/// lines holding `=` or `;` compute, everything else is a label.
pub open spec fn spec_classify(l: Seq<char>) -> CommandType {
    if l.len() > 0 && l[0] == '@' {
        CommandType::A
    } else if has_char(l, '=') || has_char(l, ';') {
        CommandType::C
    } else {
        CommandType::L
    }
}

/// The symbol field: text after the sigil for an address line, text between
/// the parentheses for a label line. A label too short to carry one has none.
pub open spec fn spec_symbol(l: Seq<char>) -> Option<Seq<char>> {
    match spec_classify(l) {
        CommandType::A => Some(l.subrange(1, l.len() as int)),
        CommandType::L => if l.len() >= 2 {
            Some(l.subrange(1, l.len() - 1))
        } else {
            None
        },
        CommandType::C => None,
    }
}

/// The destination field: text before the first `=` of a compute line.
pub open spec fn spec_dest(l: Seq<char>) -> Option<Seq<char>> {
    if spec_classify(l) is C {
        match spec_find(l, '=') {
            Some(e) => Some(l.subrange(0, e)),
            None => None,
        }
    } else {
        None
    }
}

/// The computation field: text before the first `;` if one is present,
/// else text after the first `=`.
pub open spec fn spec_comp(l: Seq<char>) -> Option<Seq<char>> {
    if spec_classify(l) is C {
        match spec_find(l, ';') {
            Some(sc) => Some(l.subrange(0, sc)),
            None => match spec_find(l, '=') {
                Some(e) => Some(l.subrange(e + 1, l.len() as int)),
                None => None,
            },
        }
    } else {
        None
    }
}

/// The jump field: text after the first `;` of a compute line.
pub open spec fn spec_jump(l: Seq<char>) -> Option<Seq<char>> {
    if spec_classify(l) is C {
        match spec_find(l, ';') {
            Some(sc) => Some(l.subrange(sc + 1, l.len() as int)),
            None => None,
        }
    } else {
        None
    }
}

/// View of an optional owned string as an optional character sequence.
pub open spec fn view_opt(r: Option<String>) -> Option<Seq<char>> {
    match r {
        Some(s) => Some(s@),
        None => None,
    }
}

pub struct Parser {
    lines: Vec<String>,
    line_index: usize,
}

impl Parser {
    /// The classified line sequence, as character sequences.
    pub closed spec fn spec_lines(&self) -> Seq<Seq<char>> {
        line_views(self.lines@)
    }

    /// The cursor position.
    pub closed spec fn spec_index(&self) -> int {
        self.line_index as int
    }

    /// The cursor always rests on a line of a non-empty sequence.
    pub closed spec fn wf(&self) -> bool {
        0 < self.lines@.len() && self.line_index < self.lines@.len()
    }

    pub proof fn lemma_wf_bounds(&self)
        requires
            self.wf(),
        ensures
            0 < self.spec_lines().len(),
            0 <= self.spec_index() < self.spec_lines().len(),
            self.spec_lines().len() <= usize::MAX,
    {
        vstd::std_specs::vec::axiom_spec_len(&self.lines);
    }

    pub fn new(lines: &Vec<String>) -> (r: Result<Parser, NewParserError>)
        ensures
            match r {
                Ok(p) => lines@.len() > 0 && p.wf() && p.spec_index() == 0
                    && p.spec_lines() == line_views(lines@),
                Err(e) => lines@.len() == 0 && e == NewParserError::LinesEmpty,
            },
    {
        if lines.len() > 0 {
            let mut copied: Vec<String> = Vec::new();
            let mut i: usize = 0;
            while i < lines.len()
                invariant
                    copied@.len() == i,
                    0 <= i <= lines@.len(),
                    forall|j: int| 0 <= j < i ==> copied@[j] == lines@[j],
                decreases lines@.len() - i,
            {
                copied.push(lines[i].clone());
                i += 1;
            }
            proof {
                assert(copied@ =~= lines@);
            }
            Ok(Parser { lines: copied, line_index: 0 })
        } else {
            Err(NewParserError::LinesEmpty)
        }
    }

    pub fn has_more_commands(&self) -> (r: bool)
        requires
            self.wf(),
        ensures
            r == (self.spec_index() + 1 < self.spec_lines().len()),
    {
        self.line_index < self.lines.len() - 1
    }

    pub fn advance(&mut self) -> (r: Result<(), AdvanceError>)
        requires
            old(self).wf(),
        ensures
            final(self).wf(),
            final(self).spec_lines() == old(self).spec_lines(),
            match r {
                Ok(()) => old(self).spec_index() + 1 < old(self).spec_lines().len()
                    && final(self).spec_index() == old(self).spec_index() + 1,
                Err(e) => old(self).spec_index() + 1 == old(self).spec_lines().len()
                    && e == AdvanceError::NoMoreCommands
                    && final(self).spec_index() == old(self).spec_index(),
            },
    {
        if !self.has_more_commands() {
            return Err(AdvanceError::NoMoreCommands);
        }
        let n = self.lines.len();
        proof {
            assert(self.spec_lines().len() == self.lines@.len());
            assert(self.line_index + 1 < n);
        }
        self.line_index += 1;
        Ok(())
    }

    pub fn reset(&mut self)
        requires
            old(self).wf(),
        ensures
            final(self).wf(),
            final(self).spec_lines() == old(self).spec_lines(),
            final(self).spec_index() == 0,
    {
        self.line_index = 0;
    }

    pub fn get_command_type_from_line(line: &str) -> (r: Result<CommandType, ()>)
        ensures
            r == Result::<CommandType, ()>::Ok(spec_classify(line@)),
    {
        let n = line.unicode_len();
        if n > 0 && line.get_char(0) == '@' {
            return Ok(CommandType::A);
        }
        if contains_char(line, '=') || contains_char(line, ';') {
            return Ok(CommandType::C);
        }
        Ok(CommandType::L)
    }

    pub fn get_symbol_from_line(command_type: &CommandType, line: &str) -> (r: Result<String, ()>)
        ensures
            match command_type {
                CommandType::A => if line@.len() >= 1 {
                    r matches Ok(s) && s@ == line@.subrange(1, line@.len() as int)
                } else {
                    r is Err
                },
                CommandType::L => if line@.len() >= 2 {
                    r matches Ok(s) && s@ == line@.subrange(1, line@.len() - 1)
                } else {
                    r is Err
                },
                CommandType::C => r is Err,
            },
    {
        let n = line.unicode_len();
        match command_type {
            CommandType::A => if n >= 1 {
                Ok(line.substring_char(1, n).to_owned())
            } else {
                Err(())
            },
            CommandType::L => if n >= 2 {
                Ok(line.substring_char(1, n - 1).to_owned())
            } else {
                Err(())
            },
            CommandType::C => Err(()),
        }
    }

    pub fn get_dest_from_line(command_type: &CommandType, line: &str) -> (r: Result<String, ()>)
        ensures
            match command_type {
                CommandType::C => match spec_find(line@, '=') {
                    Some(e) => r matches Ok(s) && s@ == line@.subrange(0, e),
                    None => r is Err,
                },
                _ => r is Err,
            },
    {
        match command_type {
            CommandType::C => {
                proof {
                    lemma_find_props(line@, '=');
                }
                match find_char(line, '=') {
                    Some(e) => Ok(line.substring_char(0, e).to_owned()),
                    None => Err(()),
                }
            },
            _ => Err(()),
        }
    }

    pub fn get_comp_from_line(command_type: &CommandType, line: &str) -> (r: Result<String, ()>)
        ensures
            match command_type {
                CommandType::C => match spec_find(line@, ';') {
                    Some(sc) => r matches Ok(s) && s@ == line@.subrange(0, sc),
                    None => match spec_find(line@, '=') {
                        Some(e) => r matches Ok(s)
                            && s@ == line@.subrange(e + 1, line@.len() as int),
                        None => r is Err,
                    },
                },
                _ => r is Err,
            },
    {
        match command_type {
            CommandType::C => {
                proof {
                    lemma_find_props(line@, ';');
                    lemma_find_props(line@, '=');
                }
                let n = line.unicode_len();
                if let Some(sc) = find_char(line, ';') {
                    return Ok(line.substring_char(0, sc).to_owned());
                }
                if let Some(e) = find_char(line, '=') {
                    return Ok(line.substring_char(e + 1, n).to_owned());
                }
                Err(())
            },
            _ => Err(()),
        }
    }

    pub fn get_jump_from_line(command_type: &CommandType, line: &str) -> (r: Result<String, ()>)
        ensures
            match command_type {
                CommandType::C => match spec_find(line@, ';') {
                    Some(sc) => r matches Ok(s)
                        && s@ == line@.subrange(sc + 1, line@.len() as int),
                    None => r is Err,
                },
                _ => r is Err,
            },
    {
        match command_type {
            CommandType::C => {
                proof {
                    lemma_find_props(line@, ';');
                }
                let n = line.unicode_len();
                match find_char(line, ';') {
                    Some(sc) => Ok(line.substring_char(sc + 1, n).to_owned()),
                    None => Err(()),
                }
            },
            _ => Err(()),
        }
    }

    pub fn command_type(&self) -> (r: Option<CommandType>)
        requires
            self.wf(),
        ensures
            r == Some(spec_classify(self.spec_lines()[self.spec_index()])),
    {
        let line = &self.lines[self.line_index];
        match Parser::get_command_type_from_line(line.as_str()) {
            Ok(command_type) => Some(command_type),
            Err(_) => None,
        }
    }

    pub fn symbol(&self) -> (r: Option<String>)
        requires
            self.wf(),
        ensures
            view_opt(r) == spec_symbol(self.spec_lines()[self.spec_index()]),
    {
        let command_type = self.command_type();
        let line = &self.lines[self.line_index];
        if let Some(ct) = command_type {
            match Parser::get_symbol_from_line(&ct, line.as_str()) {
                Ok(s) => Some(s),
                Err(_) => None,
            }
        } else {
            None
        }
    }

    pub fn dest(&self) -> (r: Option<String>)
        requires
            self.wf(),
        ensures
            view_opt(r) == spec_dest(self.spec_lines()[self.spec_index()]),
    {
        let command_type = self.command_type();
        let line = &self.lines[self.line_index];
        if let Some(ct) = command_type {
            match Parser::get_dest_from_line(&ct, line.as_str()) {
                Ok(s) => Some(s),
                Err(_) => None,
            }
        } else {
            None
        }
    }

    pub fn comp(&self) -> (r: Option<String>)
        requires
            self.wf(),
        ensures
            view_opt(r) == spec_comp(self.spec_lines()[self.spec_index()]),
    {
        let command_type = self.command_type();
        let line = &self.lines[self.line_index];
        if let Some(ct) = command_type {
            match Parser::get_comp_from_line(&ct, line.as_str()) {
                Ok(s) => Some(s),
                Err(_) => None,
            }
        } else {
            None
        }
    }

    pub fn jump(&self) -> (r: Option<String>)
        requires
            self.wf(),
        ensures
            view_opt(r) == spec_jump(self.spec_lines()[self.spec_index()]),
    {
        let command_type = self.command_type();
        let line = &self.lines[self.line_index];
        if let Some(ct) = command_type {
            match Parser::get_jump_from_line(&ct, line.as_str()) {
                Ok(s) => Some(s),
                Err(_) => None,
            }
        } else {
            None
        }
    }
}

} // verus!
