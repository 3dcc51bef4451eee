//! Two-pass symbol resolver: predefined constants, label addresses fixed on
//! the first pass, variable addresses allocated on the second pass, and the
//! rewrite of the line sequence with symbols replaced by their addresses.

use vstd::prelude::*;
use vstd::string::StrSliceExecFns;
use vstd::string::StringExecFns;
use crate::parser::{Parser, CommandType, spec_classify, spec_symbol, line_views};
use crate::numeral::{spec_parse_u16, parse_u16, dec_digits, u16_to_dec};
use crate::text::str_eq;

verus! {

/// First-writer-wins binding: a name already in the table keeps its address.
pub open spec fn bind(m: Map<Seq<char>, u16>, k: Seq<char>, v: u16) -> Map<Seq<char>, u16> {
    if m.dom().contains(k) {
        m
    } else {
        m.insert(k, v)
    }
}

/// The mapping held by an association list, bindings applied left to right
/// with the first writer winning.
pub open spec fn assoc_map(entries: Seq<(String, u16)>) -> Map<Seq<char>, u16>
    decreases entries.len(),
{
    if entries.len() == 0 {
        Map::empty()
    } else {
        bind(assoc_map(entries.drop_last()), entries.last().0@, entries.last().1)
    }
}

proof fn lemma_assoc_absent(entries: Seq<(String, u16)>, k: Seq<char>)
    requires
        forall|j: int| 0 <= j < entries.len() ==> (#[trigger] entries[j]).0@ != k,
    ensures
        !assoc_map(entries).dom().contains(k),
    decreases entries.len(),
{
    if entries.len() > 0 {
        lemma_assoc_absent(entries.drop_last(), k);
    }
}

proof fn lemma_assoc_first(entries: Seq<(String, u16)>, k: Seq<char>, i: int)
    requires
        0 <= i < entries.len(),
        entries[i].0@ == k,
        forall|j: int| 0 <= j < i ==> (#[trigger] entries[j]).0@ != k,
    ensures
        assoc_map(entries).dom().contains(k),
        assoc_map(entries)[k] == entries[i].1,
    decreases entries.len(),
{
    let n = entries.len() as int;
    if i == n - 1 {
        lemma_assoc_absent(entries.drop_last(), k);
    } else {
        lemma_assoc_first(entries.drop_last(), k, i);
    }
}

/// Binding a name never disturbs any other binding, and a name already
/// bound keeps its address whatever the new one is: re-binding the same
/// address is a no-op, and a conflicting address is silently ignored.
pub proof fn lemma_bind_first_wins(m: Map<Seq<char>, u16>, k: Seq<char>, v: u16, w: u16)
    ensures
        bind(bind(m, k, v), k, w) == bind(m, k, v),
        bind(m, k, v).dom().contains(k),
        m.dom().contains(k) ==> bind(m, k, w) == m && bind(m, k, w)[k] == m[k],
        !m.dom().contains(k) ==> bind(m, k, v)[k] == v,
        forall|k2: Seq<char>| k2 != k ==> bind(m, k, v).dom().contains(k2) == m.dom().contains(k2),
        forall|k2: Seq<char>| k2 != k && m.dom().contains(k2) ==> bind(m, k, v)[k2] == m[k2],
{
}

/// A line that occupies a ROM slot: an address or a compute instruction.
pub open spec fn is_instruction(l: Seq<char>) -> bool {
    spec_classify(l) is A || spec_classify(l) is C
}

/// Number of instruction lines strictly before position `i`.
pub open spec fn rom_count(lines: Seq<Seq<char>>, i: int) -> int
    decreases i,
{
    if i <= 0 {
        0
    } else {
        rom_count(lines, i - 1) + if is_instruction(lines[i - 1]) {
            1int
        } else {
            0int
        }
    }
}

pub proof fn lemma_rom_count_mono(lines: Seq<Seq<char>>, i: int, j: int)
    requires
        i <= j,
    ensures
        rom_count(lines, i) <= rom_count(lines, j),
        rom_count(lines, j) - rom_count(lines, i) <= j - i,
    decreases j - i,
{
    if i < j {
        lemma_rom_count_mono(lines, i, j - 1);
    }
}

pub proof fn lemma_rom_count_nonneg(lines: Seq<Seq<char>>, i: int)
    ensures
        0 <= rom_count(lines, i) <= if i < 0 { 0int } else { i },
    decreases i,
{
    if i > 0 {
        lemma_rom_count_nonneg(lines, i - 1);
    }
}

/// State of the first (label) pass after the first `i` lines: each label
/// line binds its symbol to the ROM address of the next real instruction.
pub open spec fn labels_fold(
    m: Map<Seq<char>, u16>,
    rom0: u16,
    lines: Seq<Seq<char>>,
    i: int,
) -> Map<Seq<char>, u16>
    decreases i,
{
    if i <= 0 {
        m
    } else {
        let prev = labels_fold(m, rom0, lines, i - 1);
        let l = lines[i - 1];
        if spec_classify(l) is L {
            match spec_symbol(l) {
                Some(s) => bind(prev, s, (rom0 + rom_count(lines, i - 1)) as u16),
                None => prev,
            }
        } else {
            prev
        }
    }
}

/// State of the second (variable) pass after the first `i` lines: the map
/// so far and the next free RAM address. Each address line whose symbol is
/// not a numeral and not yet bound takes the next address.
pub open spec fn vars_fold(
    m: Map<Seq<char>, u16>,
    ram0: int,
    lines: Seq<Seq<char>>,
    i: int,
) -> (Map<Seq<char>, u16>, int)
    decreases i,
{
    if i <= 0 {
        (m, ram0)
    } else {
        let prev = vars_fold(m, ram0, lines, i - 1);
        let l = lines[i - 1];
        if spec_classify(l) is A {
            match spec_symbol(l) {
                Some(s) => if spec_parse_u16(s) is None && !prev.0.dom().contains(s) {
                    (prev.0.insert(s, prev.1 as u16), prev.1 + 1)
                } else {
                    prev
                },
                None => prev,
            }
        } else {
            prev
        }
    }
}

pub proof fn lemma_vars_fold_ram_mono(
    m: Map<Seq<char>, u16>,
    ram0: int,
    lines: Seq<Seq<char>>,
    i: int,
    j: int,
)
    requires
        i <= j,
    ensures
        vars_fold(m, ram0, lines, i).1 <= vars_fold(m, ram0, lines, j).1,
        vars_fold(m, ram0, lines, j).1 - vars_fold(m, ram0, lines, i).1 <= j - i,
    decreases j - i,
{
    if i < j {
        lemma_vars_fold_ram_mono(m, ram0, lines, i, j - 1);
    }
}

proof fn lemma_labels_fold_preserves(
    m0: Map<Seq<char>, u16>,
    rom0: u16,
    lines: Seq<Seq<char>>,
    i: int,
    j: int,
    s: Seq<char>,
)
    requires
        0 <= i <= j,
        labels_fold(m0, rom0, lines, i).dom().contains(s),
    ensures
        labels_fold(m0, rom0, lines, j).dom().contains(s),
        labels_fold(m0, rom0, lines, j)[s] == labels_fold(m0, rom0, lines, i)[s],
    decreases j - i,
{
    if i < j {
        lemma_labels_fold_preserves(m0, rom0, lines, i, j - 1, s);
    }
}

/// A label's bound address equals the number of instruction lines strictly
/// before it in source order, offset by the ROM counter's starting value;
/// a label line itself takes no slot, so later lines never disturb it.
pub proof fn lemma_label_address(
    m0: Map<Seq<char>, u16>,
    rom0: u16,
    lines: Seq<Seq<char>>,
    i: int,
    s: Seq<char>,
)
    requires
        0 <= i < lines.len(),
        spec_classify(lines[i]) is L,
        spec_symbol(lines[i]) == Some(s),
        !labels_fold(m0, rom0, lines, i).dom().contains(s),
        rom0 + rom_count(lines, lines.len() as int) <= u16::MAX,
    ensures
        labels_fold(m0, rom0, lines, lines.len() as int).dom().contains(s),
        labels_fold(m0, rom0, lines, lines.len() as int)[s] as int == rom0 + rom_count(
            lines,
            i,
        ),
{
    let n = lines.len() as int;
    lemma_rom_count_nonneg(lines, i);
    lemma_rom_count_mono(lines, i, n);
    assert(labels_fold(m0, rom0, lines, i + 1).dom().contains(s));
    assert(labels_fold(m0, rom0, lines, i + 1)[s] == (rom0 + rom_count(lines, i)) as u16);
    lemma_labels_fold_preserves(m0, rom0, lines, i + 1, n, s);
}

/// Variable allocation discipline over the first `i` lines: the RAM
/// counter never falls below its start and advances by exactly the number
/// of fresh names bound (no gaps); names the table already held keep
/// their addresses; every fresh name's address lies in the half-open
/// band from the starting counter to the final one; and no two fresh
/// names share an address.
pub proof fn lemma_vars_fold_allocation(
    m0: Map<Seq<char>, u16>,
    ram0: int,
    lines: Seq<Seq<char>>,
    i: int,
)
    requires
        0 <= i,
        0 <= ram0,
        ram0 + i <= u16::MAX,
        m0.dom().finite(),
    ensures
        ({
            let st = vars_fold(m0, ram0, lines, i);
            st.0.dom().finite()
            && m0.dom().subset_of(st.0.dom())
            && ram0 <= st.1
            && st.1 - ram0 == st.0.dom().len() - m0.dom().len()
            && (forall|k: Seq<char>| m0.dom().contains(k)
                ==> st.0.dom().contains(k) && st.0[k] == m0[k])
            && (forall|k: Seq<char>|
                #[trigger] st.0.dom().contains(k) && !m0.dom().contains(k)
                    ==> ram0 <= st.0[k] < st.1)
            && (forall|k1: Seq<char>, k2: Seq<char>|
                st.0.dom().contains(k1) && st.0.dom().contains(k2)
                    && !m0.dom().contains(k1) && !m0.dom().contains(k2) && k1 != k2
                    ==> st.0[k1] != st.0[k2])
        }),
    decreases i,
{
    if i > 0 {
        lemma_vars_fold_allocation(m0, ram0, lines, i - 1);
        lemma_vars_fold_ram_mono(m0, ram0, lines, 0, i - 1);
        let prev = vars_fold(m0, ram0, lines, i - 1);
        let st = vars_fold(m0, ram0, lines, i);
        let l = lines[i - 1];
        if spec_classify(l) is A {
            match spec_symbol(l) {
                Some(s) => {
                    if spec_parse_u16(s) is None && !prev.0.dom().contains(s) {
                        assert(st.0 == prev.0.insert(s, prev.1 as u16));
                        assert(st.0.dom() =~= prev.0.dom().insert(s));
                        assert(prev.1 as u16 == prev.1);
                    }
                },
                None => {},
            }
        }
    }
}

/// First-use order: a fresh name bound while scanning the first `i` lines
/// keeps its address through any longer scan, and a fresh name first
/// bound after line `i` receives an address at or above the counter the
/// shorter scan ended with — so addresses grow strictly in first-use
/// source order.
pub proof fn lemma_vars_fold_order(
    m0: Map<Seq<char>, u16>,
    ram0: int,
    lines: Seq<Seq<char>>,
    i: int,
    j: int,
)
    requires
        0 <= i <= j,
        0 <= ram0,
        ram0 + j <= u16::MAX,
    ensures
        ({
            let a = vars_fold(m0, ram0, lines, i);
            let b = vars_fold(m0, ram0, lines, j);
            a.0.dom().subset_of(b.0.dom())
            && (forall|k: Seq<char>| #[trigger] a.0.dom().contains(k) ==> b.0[k] == a.0[k])
            && (forall|k: Seq<char>|
                #[trigger] b.0.dom().contains(k) && !a.0.dom().contains(k)
                    ==> a.1 <= b.0[k])
        }),
    decreases j - i,
{
    if i < j {
        lemma_vars_fold_order(m0, ram0, lines, i, j - 1);
        lemma_vars_fold_ram_mono(m0, ram0, lines, i, j - 1);
        lemma_vars_fold_ram_mono(m0, ram0, lines, 0, i);
        lemma_vars_fold_ram_mono(m0, ram0, lines, 0, j - 1);
        let a = vars_fold(m0, ram0, lines, i);
        let prev = vars_fold(m0, ram0, lines, j - 1);
        let b = vars_fold(m0, ram0, lines, j);
        let l = lines[j - 1];
        if spec_classify(l) is A {
            match spec_symbol(l) {
                Some(s) => {
                    if spec_parse_u16(s) is None && !prev.0.dom().contains(s) {
                        assert(b.0 == prev.0.insert(s, prev.1 as u16));
                        assert(prev.1 as u16 == prev.1);
                    }
                },
                None => {},
            }
        }
    }
}

/// Rewrite of one line against a finished table: a label line is dropped,
/// a compute line passes through, and an address line whose operand is a
/// bound non-numeral symbol becomes `@` followed by the decimal address.
/// The replacement is anchored to the line's own operand, never a search
/// over every known name.
pub open spec fn rewrite_line(m: Map<Seq<char>, u16>, l: Seq<char>) -> Option<Seq<char>> {
    match spec_classify(l) {
        CommandType::L => None,
        CommandType::C => Some(l),
        CommandType::A => {
            let s = l.subrange(1, l.len() as int);
            if spec_parse_u16(s) is Some {
                Some(l)
            } else if m.dom().contains(s) {
                Some(seq!['@'] + dec_digits(m[s] as int))
            } else {
                Some(l)
            }
        },
    }
}

/// Rewrite of the first `i` lines, in order, dropped lines omitted.
pub open spec fn rewrite_lines(
    m: Map<Seq<char>, u16>,
    lines: Seq<Seq<char>>,
    i: int,
) -> Seq<Seq<char>>
    decreases i,
{
    if i <= 0 {
        Seq::empty()
    } else {
        let prev = rewrite_lines(m, lines, i - 1);
        match rewrite_line(m, lines[i - 1]) {
            Some(l2) => prev.push(l2),
            None => prev,
        }
    }
}

pub struct SymbolTable {
    symbol_map: Vec<(String, u16)>,
    ram_address: u16,
    rom_address: u16,
}

impl View for SymbolTable {
    type V = Map<Seq<char>, u16>;

    closed spec fn view(&self) -> Map<Seq<char>, u16> {
        assoc_map(self.symbol_map@)
    }
}

/// The predefined bindings, laid over `m`: the five named registers and
/// `R0`..`R15` relative to `ram`, then the two device constants.
pub open spec fn spec_preload(m: Map<Seq<char>, u16>, ram: u16) -> Map<Seq<char>, u16> {
    let m = bind(m, "SP"@, ram);
    let m = bind(m, "LCL"@, (ram + 1) as u16);
    let m = bind(m, "ARG"@, (ram + 2) as u16);
    let m = bind(m, "THIS"@, (ram + 3) as u16);
    let m = bind(m, "THAT"@, (ram + 4) as u16);
    let m = bind(m, "R0"@, ram);
    let m = bind(m, "R1"@, (ram + 1) as u16);
    let m = bind(m, "R2"@, (ram + 2) as u16);
    let m = bind(m, "R3"@, (ram + 3) as u16);
    let m = bind(m, "R4"@, (ram + 4) as u16);
    let m = bind(m, "R5"@, (ram + 5) as u16);
    let m = bind(m, "R6"@, (ram + 6) as u16);
    let m = bind(m, "R7"@, (ram + 7) as u16);
    let m = bind(m, "R8"@, (ram + 8) as u16);
    let m = bind(m, "R9"@, (ram + 9) as u16);
    let m = bind(m, "R10"@, (ram + 10) as u16);
    let m = bind(m, "R11"@, (ram + 11) as u16);
    let m = bind(m, "R12"@, (ram + 12) as u16);
    let m = bind(m, "R13"@, (ram + 13) as u16);
    let m = bind(m, "R14"@, (ram + 14) as u16);
    let m = bind(m, "R15"@, (ram + 15) as u16);
    let m = bind(m, "SCREEN"@, 0x4000);
    bind(m, "KBD"@, 0x6000)
}

/// The table a fresh run starts from.
pub open spec fn spec_predefined(ram: u16) -> Map<Seq<char>, u16> {
    spec_preload(Map::empty(), ram)
}

/// Lay the predefined register and device bindings over `table`.
pub fn preload_internal_symbols(table: &mut SymbolTable)
    requires
        old(table).spec_ram() + 16 <= u16::MAX,
    ensures
        final(table)@ == spec_preload(old(table)@, old(table).spec_ram()),
        final(table).spec_ram() == old(table).spec_ram() + 16,
        final(table).spec_rom() == old(table).spec_rom(),
{
    let ram = table.ram_address;
    table.add_entry("SP", ram);
    table.add_entry("LCL", ram + 1);
    table.add_entry("ARG", ram + 2);
    table.add_entry("THIS", ram + 3);
    table.add_entry("THAT", ram + 4);
    table.add_entry("R0", ram);
    table.add_entry("R1", ram + 1);
    table.add_entry("R2", ram + 2);
    table.add_entry("R3", ram + 3);
    table.add_entry("R4", ram + 4);
    table.add_entry("R5", ram + 5);
    table.add_entry("R6", ram + 6);
    table.add_entry("R7", ram + 7);
    table.add_entry("R8", ram + 8);
    table.add_entry("R9", ram + 9);
    table.add_entry("R10", ram + 10);
    table.add_entry("R11", ram + 11);
    table.add_entry("R12", ram + 12);
    table.add_entry("R13", ram + 13);
    table.add_entry("R14", ram + 14);
    table.add_entry("R15", ram + 15);
    table.ram_address = ram + 16;
    table.add_entry("SCREEN", 0x4000);
    table.add_entry("KBD", 0x6000);
}

impl SymbolTable {
    /// The next free RAM address for a variable.
    pub closed spec fn spec_ram(&self) -> u16 {
        self.ram_address
    }

    /// The running ROM address of the first pass.
    pub closed spec fn spec_rom(&self) -> u16 {
        self.rom_address
    }

    pub fn new(ram_address: u16) -> (r: SymbolTable)
        requires
            ram_address + 16 <= u16::MAX,
        ensures
            r@ == spec_predefined(ram_address),
            r.spec_ram() == ram_address + 16,
            r.spec_rom() == 0,
    {
        let mut table = SymbolTable {
            symbol_map: Vec::new(),
            ram_address,
            rom_address: 0,
        };
        proof {
            assert(table@ =~= Map::<Seq<char>, u16>::empty());
        }
        preload_internal_symbols(&mut table);
        table
    }

    /// Allocate the next free RAM address to `symbol` and move the counter,
    /// whether or not the name was fresh.
    pub fn add_ram_entry(&mut self, symbol: &str)
        requires
            old(self).spec_ram() < u16::MAX,
        ensures
            final(self)@ == bind(old(self)@, symbol@, old(self).spec_ram()),
            final(self).spec_ram() == old(self).spec_ram() + 1,
            final(self).spec_rom() == old(self).spec_rom(),
    {
        let a = self.ram_address;
        self.add_entry(symbol, a);
        self.ram_address = a + 1;
    }

    /// Bind `symbol` to the current ROM address.
    pub fn add_rom_entry(&mut self, symbol: &str)
        ensures
            final(self)@ == bind(old(self)@, symbol@, old(self).spec_rom()),
            final(self).spec_ram() == old(self).spec_ram(),
            final(self).spec_rom() == old(self).spec_rom(),
    {
        let a = self.rom_address;
        self.add_entry(symbol, a);
    }

    /// Bind `symbol` to `address`; a name already bound is left untouched.
    pub fn add_entry(&mut self, symbol: &str, address: u16)
        ensures
            final(self)@ == bind(old(self)@, symbol@, address),
            final(self).spec_ram() == old(self).spec_ram(),
            final(self).spec_rom() == old(self).spec_rom(),
    {
        if self.get_address(symbol).is_none() {
            self.symbol_map.push((symbol.to_owned(), address));
            proof {
                assert(self.symbol_map@.drop_last() =~= old(self).symbol_map@);
            }
        }
    }

    /// First pass over the lines: every address or compute line takes one
    /// ROM slot; a label line binds its symbol to the slot of the next real
    /// instruction and takes none. Then, rescanning, every address line
    /// whose symbol is not a numeral and not yet bound is allocated the
    /// next free RAM address, strictly in first-use source order.
    pub fn pass_1(&mut self, parser: &mut Parser)
        requires
            old(parser).wf(),
            old(self).spec_rom() + rom_count(
                old(parser).spec_lines(),
                old(parser).spec_lines().len() as int,
            ) <= u16::MAX,
            vars_fold(
                labels_fold(
                    old(self)@,
                    old(self).spec_rom(),
                    old(parser).spec_lines(),
                    old(parser).spec_lines().len() as int,
                ),
                old(self).spec_ram() as int,
                old(parser).spec_lines(),
                old(parser).spec_lines().len() as int,
            ).1 <= u16::MAX,
        ensures
            final(parser).wf(),
            final(parser).spec_lines() == old(parser).spec_lines(),
            final(parser).spec_index() == old(parser).spec_lines().len() - 1,
            ({
                let lines = old(parser).spec_lines();
                let n = lines.len() as int;
                let lm = labels_fold(old(self)@, old(self).spec_rom(), lines, n);
                let vm = vars_fold(lm, old(self).spec_ram() as int, lines, n);
                final(self)@ == vm.0
                    && final(self).spec_ram() == vm.1
                    && final(self).spec_rom() == old(self).spec_rom() + rom_count(lines, n)
            }),
    {
        let ghost lines = old(parser).spec_lines();
        let ghost n = lines.len() as int;
        let ghost m0 = old(self)@;
        let ghost rom0 = old(self).spec_rom();
        let ghost ram0 = old(self).spec_ram();
        parser.reset();
        proof {
            parser.lemma_wf_bounds();
        }
        let mut done = false;
        while !done
            invariant
                parser.wf(),
                parser.spec_lines() == lines,
                n == lines.len(),
                rom0 + rom_count(lines, n) <= u16::MAX,
                self.spec_ram() == ram0,
                !done ==> parser.spec_index() < n
                    && self@ == labels_fold(m0, rom0, lines, parser.spec_index())
                    && self.spec_rom() == rom0 + rom_count(lines, parser.spec_index()),
                done ==> parser.spec_index() == n - 1
                    && self@ == labels_fold(m0, rom0, lines, n)
                    && self.spec_rom() == rom0 + rom_count(lines, n),
            decreases n - parser.spec_index() + (if done { 0int } else { 1int }),
        {
            let ghost i = parser.spec_index();
            proof {
                parser.lemma_wf_bounds();
                lemma_rom_count_nonneg(lines, i);
                lemma_rom_count_mono(lines, i + 1, n);
            }
            if let Some(c_type) = parser.command_type() {
                match c_type {
                    CommandType::A => { self.rom_address = self.rom_address + 1; },
                    CommandType::C => { self.rom_address = self.rom_address + 1; },
                    CommandType::L => {
                        if let Some(symbol) = parser.symbol() {
                            self.add_rom_entry(symbol.as_str());
                        }
                    },
                }
            }
            if parser.advance().is_err() {
                done = true;
            }
        }
        parser.reset();
        proof {
            parser.lemma_wf_bounds();
        }
        let ghost lm = labels_fold(m0, rom0, lines, n);
        let mut done2 = false;
        while !done2
            invariant
                parser.wf(),
                parser.spec_lines() == lines,
                n == lines.len(),
                vars_fold(lm, ram0 as int, lines, n).1 <= u16::MAX,
                self.spec_rom() == rom0 + rom_count(lines, n),
                !done2 ==> parser.spec_index() < n
                    && self@ == vars_fold(lm, ram0 as int, lines, parser.spec_index()).0
                    && self.spec_ram() as int
                        == vars_fold(lm, ram0 as int, lines, parser.spec_index()).1,
                done2 ==> parser.spec_index() == n - 1
                    && self@ == vars_fold(lm, ram0 as int, lines, n).0
                    && self.spec_ram() as int == vars_fold(lm, ram0 as int, lines, n).1,
            decreases n - parser.spec_index() + (if done2 { 0int } else { 1int }),
        {
            let ghost i = parser.spec_index();
            proof {
                parser.lemma_wf_bounds();
                lemma_vars_fold_ram_mono(lm, ram0 as int, lines, i + 1, n);
            }
            if let Some(c_type) = parser.command_type() {
                match c_type {
                    CommandType::A => {
                        if let Some(symbol) = parser.symbol() {
                            if parse_u16(symbol.as_str()).is_none() {
                                if self.get_address(symbol.as_str()).is_none() {
                                    self.add_ram_entry(symbol.as_str());
                                }
                            }
                        }
                    },
                    CommandType::C => {},
                    CommandType::L => {},
                }
            }
            if parser.advance().is_err() {
                done2 = true;
            }
        }
    }

    /// Second pass proper: produce the rewritten line sequence. Label lines
    /// are dropped; each address line whose operand is a bound non-numeral
    /// symbol has the operand replaced by its decimal address; every other
    /// line passes through unchanged. The table itself is left as it is.
    pub fn pass_2(&mut self, lines: &Vec<String>) -> (r: Vec<String>)
        ensures
            *final(self) == *old(self),
            line_views(r@) == rewrite_lines(old(self)@, line_views(lines@), lines@.len() as int),
    {
        let mut new_lines: Vec<String> = Vec::new();
        let ghost views = line_views(lines@);
        let n = lines.len();
        let mut i: usize = 0;
        while i < n
            invariant
                *self == *old(self),
                n == lines@.len(),
                views == line_views(lines@),
                0 <= i <= n,
                line_views(new_lines@) == rewrite_lines(old(self)@, views, i as int),
            decreases n - i,
        {
            let line = &lines[i];
            let ghost prev = new_lines@;
            let mut keep: Option<String> = None;
            match Parser::get_command_type_from_line(line.as_str()) {
                Ok(CommandType::L) => {},
                Ok(CommandType::C) => {
                    keep = Some(line.clone());
                },
                Ok(CommandType::A) => {
                    let ln = line.as_str().unicode_len();
                    let sym = line.as_str().substring_char(1, ln);
                    if parse_u16(sym).is_some() {
                        keep = Some(line.clone());
                    } else {
                        match self.get_address(sym) {
                            Some(addr) => {
                                let mut t = "@".to_owned();
                                let d = u16_to_dec(addr);
                                t.append(d.as_str());
                                proof {
                                    reveal_strlit("@");
                                    assert(t@ =~= seq!['@'] + dec_digits(addr as int));
                                }
                                keep = Some(t);
                            },
                            None => {
                                keep = Some(line.clone());
                            },
                        }
                    }
                },
                Err(_) => {},
            }
            if let Some(out) = keep {
                new_lines.push(out);
                proof {
                    assert(line_views(new_lines@) =~= line_views(prev).push(out@));
                }
            }
            proof {
                assert(line_views(new_lines@) =~= rewrite_lines(old(self)@, views, i + 1));
            }
            i += 1;
        }
        new_lines
    }

    /// The address bound to `symbol`, if any.
    pub fn get_address(&self, symbol: &str) -> (r: Option<u16>)
        ensures
            match r {
                Some(a) => self@.dom().contains(symbol@) && a == self@[symbol@],
                None => !self@.dom().contains(symbol@),
            },
    {
        let n = self.symbol_map.len();
        let mut i: usize = 0;
        while i < n
            invariant
                n == self.symbol_map@.len(),
                0 <= i <= n,
                forall|j: int| 0 <= j < i ==> (#[trigger] self.symbol_map@[j]).0@ != symbol@,
            decreases n - i,
        {
            let entry = &self.symbol_map[i];
            if str_eq(entry.0.as_str(), symbol) {
                proof {
                    lemma_assoc_first(self.symbol_map@, symbol@, i as int);
                }
                return Some(entry.1);
            }
            i += 1;
        }
        proof {
            lemma_assoc_absent(self.symbol_map@, symbol@);
        }
        None
    }
}

} // verus!
