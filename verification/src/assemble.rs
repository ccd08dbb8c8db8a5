//! The two-pass driver: a label-resolution pass, then an
//! encode-and-emit pass, over an owned symbol table.

use vstd::prelude::*;
use crate::code::{bits, spec_comp_code, spec_dest_code, spec_jump_code, word_of_codes};
use crate::error::{AsmError, AsmErrorSpec, ErrorKind, ErrorKindSpec};
use crate::instructions::{AInstruction, CInstruction};
use crate::parse::{classify, spec_classify, LineKind, SpecLine};
use crate::symbols::{
    is_predefined, lemma_insert_lookup_other, lemma_insert_lookup_same, predefined_entries,
    spec_insert, spec_lookup, spec_resolve, spec_update, SymEntry, SymbolTable,
};

verus! {

/// The views of a sequence of source lines.
pub open spec fn line_views(lines: Seq<String>) -> Seq<Seq<char>> {
    lines.map_values(|l: String| l@)
}

/// The label-resolution pass from line `i` on: each label declaration
/// binds its name to the count of real instructions seen so far
/// (`counter`), real instructions advance the counter, and a malformed
/// line stops the run. Returns the grown symbol entries.
pub open spec fn spec_pass1(
    lines: Seq<Seq<char>>,
    i: int,
    counter: int,
    entries: Seq<SymEntry>,
) -> Result<Seq<SymEntry>, AsmErrorSpec>
    decreases lines.len() - i,
{
    if i < 0 || i >= lines.len() {
        Ok(entries)
    } else {
        match spec_classify(lines[i]) {
            SpecLine::Label(name) => spec_pass1(
                lines,
                i + 1,
                counter,
                spec_update(entries, name, counter as usize),
            ),
            SpecLine::Malformed => Err(
                AsmErrorSpec { line: i as nat, kind: ErrorKindSpec::Syntax },
            ),
            _ => spec_pass1(lines, i + 1, counter + 1, entries),
        }
    }
}

/// The encode pass from line `i` on: label lines emit nothing, address
/// and compute instructions emit their 16-bit encodings in source
/// order, unseen symbols are allocated variable addresses in first-use
/// order, and the first failing line stops the run.
pub open spec fn spec_pass2(
    lines: Seq<Seq<char>>,
    i: int,
    entries: Seq<SymEntry>,
    next_var: usize,
) -> Result<Seq<Seq<char>>, AsmErrorSpec>
    decreases lines.len() - i,
{
    if i < 0 || i >= lines.len() {
        Ok(Seq::empty())
    } else {
        match spec_classify(lines[i]) {
            SpecLine::Label(_) => spec_pass2(lines, i + 1, entries, next_var),
            SpecLine::Malformed => Err(
                AsmErrorSpec { line: i as nat, kind: ErrorKindSpec::Syntax },
            ),
            SpecLine::AddressNumeric(v) => if v <= 32767 {
                match spec_pass2(lines, i + 1, entries, next_var) {
                    Ok(rest) => Ok(seq![bits(v as nat, 16)] + rest),
                    Err(e) => Err(e),
                }
            } else {
                Err(AsmErrorSpec { line: i as nat, kind: ErrorKindSpec::AddressOutOfRange })
            },
            SpecLine::AddressSymbolic(name) => match spec_resolve(entries, next_var, name) {
                Some(step) => match spec_pass2(lines, i + 1, step.0, step.1) {
                    Ok(rest) => Ok(seq![bits(step.2 as nat, 16)] + rest),
                    Err(e) => Err(e),
                },
                None => Err(
                    AsmErrorSpec { line: i as nat, kind: ErrorKindSpec::AddressOutOfRange },
                ),
            },
            SpecLine::Compute(dt, ct, jt) => if spec_dest_code(dt) is None {
                Err(AsmErrorSpec { line: i as nat, kind: ErrorKindSpec::InvalidMnemonic(dt) })
            } else if spec_comp_code(ct) is None {
                Err(AsmErrorSpec { line: i as nat, kind: ErrorKindSpec::InvalidMnemonic(ct) })
            } else if spec_jump_code(jt) is None {
                Err(AsmErrorSpec { line: i as nat, kind: ErrorKindSpec::InvalidMnemonic(jt) })
            } else {
                match spec_pass2(lines, i + 1, entries, next_var) {
                    Ok(rest) => Ok(
                        seq![
                            word_of_codes(
                                spec_comp_code(ct)->Some_0,
                                spec_dest_code(dt)->Some_0,
                                spec_jump_code(jt)->Some_0,
                            ),
                        ] + rest,
                    ),
                    Err(e) => Err(e),
                }
            },
        }
    }
}

/// The whole run: seed the predefined entries, resolve labels, then
/// encode, stopping at the first error.
pub open spec fn spec_assemble(lines: Seq<Seq<char>>) -> Result<Seq<Seq<char>>, AsmErrorSpec> {
    match spec_pass1(lines, 0, 0, predefined_entries()) {
        Ok(entries) => spec_pass2(lines, 0, entries, 16),
        Err(e) => Err(e),
    }
}

/// The label-resolution pass: walk the lines, binding each label
/// declaration to the address of the next real instruction. Labels do
/// not consume an address slot. Fails on the first malformed line; the
/// table then holds the labels seen before it.
pub fn parse_symbols(lines: &Vec<String>, table: &mut SymbolTable) -> (r: Result<(), AsmError>)
    ensures
        match r {
            Ok(_) => spec_pass1(line_views(lines@), 0, 0, old(table).entries_view()) == Ok::<
                _,
                AsmErrorSpec,
            >(final(table).entries_view()),
            Err(e) => spec_pass1(line_views(lines@), 0, 0, old(table).entries_view()) == Err::<
                Seq<SymEntry>,
                _,
            >(e@),
        },
        final(table).next_var_view() == old(table).next_var_view(),
{
    let ghost ls = line_views(lines@);
    let n = lines.len();
    let mut counter: usize = 0;
    let mut i: usize = 0;
    while i < n
        invariant
            n == lines.len(),
            ls == line_views(lines@),
            i <= n,
            counter <= i,
            table.next_var_view() == old(table).next_var_view(),
            spec_pass1(ls, 0, 0, old(table).entries_view()) == spec_pass1(
                ls,
                i as int,
                counter as int,
                table.entries_view(),
            ),
        decreases n - i,
    {
        proof {
            assert(ls[i as int] == lines@[i as int]@);
        }
        let k = classify(lines[i].as_str());
        match k {
            LineKind::Label(name) => {
                table.insert(name.as_str(), counter);
            },
            LineKind::Malformed => {
                return Err(AsmError::new(i, ErrorKind::Syntax));
            },
            _ => {
                counter = counter + 1;
            },
        }
        i += 1;
    }
    Ok(())
}

/// Classify one line and build its instruction representation,
/// resolving an address operand through the table (allocating a fresh
/// variable address on first use). A label yields no instruction; a
/// malformed line, an out-of-range address, or a failed resolution is
/// an error.
pub fn make_instructions(data: &str, table: &mut SymbolTable) -> (r: Result<
    (Option<AInstruction>, Option<CInstruction>),
    ErrorKind,
>)
    ensures
        match spec_classify(data@) {
            SpecLine::Label(_) => r is Ok && r->Ok_0.0 is None && r->Ok_0.1 is None && *final(table)
                == *old(table),
            SpecLine::Malformed => r is Err && r->Err_0@ == ErrorKindSpec::Syntax && *final(table)
                == *old(table),
            SpecLine::AddressNumeric(v) => if v <= 32767 {
                r is Ok && r->Ok_0.1 is None && r->Ok_0.0 is Some && r->Ok_0.0->Some_0.value == v
                    && *final(table) == *old(table)
            } else {
                r is Err && r->Err_0@ == ErrorKindSpec::AddressOutOfRange && *final(table)
                    == *old(table)
            },
            SpecLine::AddressSymbolic(name) => match spec_resolve(
                old(table).entries_view(),
                old(table).next_var_view(),
                name,
            ) {
                Some(step) => r is Ok && r->Ok_0.1 is None && r->Ok_0.0 is Some
                    && r->Ok_0.0->Some_0.value == step.2 && final(table).entries_view() == step.0
                    && final(table).next_var_view() == step.1,
                None => r is Err && r->Err_0@ == ErrorKindSpec::AddressOutOfRange
                    && final(table).entries_view() == old(table).entries_view()
                    && final(table).next_var_view() == old(table).next_var_view(),
            },
            SpecLine::Compute(dt, ct, jt) => r is Ok && r->Ok_0.0 is None && r->Ok_0.1 is Some
                && r->Ok_0.1->Some_0.dest@ == dt && r->Ok_0.1->Some_0.comp@ == ct
                && r->Ok_0.1->Some_0.jump@ == jt && *final(table) == *old(table),
        },
{
    match classify(data) {
        LineKind::AddressNumeric(v) => {
            if v <= 32767 {
                Ok((Some(AInstruction::new(v as u16)), None))
            } else {
                Err(ErrorKind::AddressOutOfRange)
            }
        },
        LineKind::AddressSymbolic(name) => {
            match table.resolve(name.as_str()) {
                Ok(a) => Ok((Some(AInstruction::new(a)), None)),
                Err(k) => Err(k),
            }
        },
        LineKind::Compute(c) => Ok((None, Some(c))),
        LineKind::Label(_) => Ok((None, None)),
        LineKind::Malformed => Err(ErrorKind::Syntax),
    }
}

/// The encode pass: for each non-label line, build the matching
/// instruction and append its 16-character encoding, in source order.
/// Returns the encoded words, or the first error with its line index.
pub fn parse_instructions(lines: &Vec<String>, table: &mut SymbolTable) -> (r: Result<
    Vec<String>,
    AsmError,
>)
    ensures
        match r {
            Ok(out) => spec_pass2(
                line_views(lines@),
                0,
                old(table).entries_view(),
                old(table).next_var_view(),
            ) == Ok::<_, AsmErrorSpec>(line_views(out@)),
            Err(e) => spec_pass2(
                line_views(lines@),
                0,
                old(table).entries_view(),
                old(table).next_var_view(),
            ) == Err::<Seq<Seq<char>>, _>(e@),
        },
        old(table).entries_view().len() <= final(table).entries_view().len(),
        forall|j: int| 0 <= j < old(table).entries_view().len() ==> final(table).entries_view()[j]
            == old(table).entries_view()[j],
        old(table).next_var_view() <= final(table).next_var_view(),
{
    let ghost ls = line_views(lines@);
    let ghost e0 = table.entries_view();
    let ghost nv0 = table.next_var_view();
    let n = lines.len();
    let mut out: Vec<String> = Vec::new();
    let mut i: usize = 0;
    proof {
        assert(line_views(out@) =~= Seq::<Seq<char>>::empty());
    }
    while i < n
        invariant
            n == lines.len(),
            ls == line_views(lines@),
            e0 == old(table).entries_view(),
            nv0 == old(table).next_var_view(),
            i <= n,
            e0.len() <= table.entries_view().len(),
            forall|j: int| 0 <= j < e0.len() ==> table.entries_view()[j] == e0[j],
            nv0 <= table.next_var_view(),
            match spec_pass2(ls, i as int, table.entries_view(), table.next_var_view()) {
                Ok(rest) => spec_pass2(ls, 0, e0, nv0) == Ok::<_, AsmErrorSpec>(
                    line_views(out@) + rest,
                ),
                Err(e) => spec_pass2(ls, 0, e0, nv0) == Err::<Seq<Seq<char>>, _>(e),
            },
        decreases n - i,
    {
        proof {
            assert(ls[i as int] == lines@[i as int]@);
        }
        let step = make_instructions(lines[i].as_str(), table);
        match step {
            Ok((a_instruction, c_instruction)) => {
                let ghost out_before = out@;
                if let Some(a) = a_instruction {
                    let word = a.parse();
                    out.push(word);
                    proof {
                        assert(line_views(out@) =~= line_views(out_before).push(word@));
                        match spec_pass2(ls, i + 1, table.entries_view(), table.next_var_view()) {
                            Ok(rest) => {
                                assert(line_views(out_before) + (seq![word@] + rest)
                                    =~= line_views(out@) + rest);
                            },
                            Err(_) => {},
                        }
                    }
                } else if let Some(c) = c_instruction {
                    match c.parse() {
                        Ok(word) => {
                            out.push(word);
                            proof {
                                assert(line_views(out@) =~= line_views(out_before).push(word@));
                                match spec_pass2(
                                    ls,
                                    i + 1,
                                    table.entries_view(),
                                    table.next_var_view(),
                                ) {
                                    Ok(rest) => {
                                        assert(line_views(out_before) + (seq![word@] + rest)
                                            =~= line_views(out@) + rest);
                                    },
                                    Err(_) => {},
                                }
                            }
                        },
                        Err(k) => {
                            return Err(AsmError::new(i, k));
                        },
                    }
                }
            },
            Err(k) => {
                return Err(AsmError::new(i, k));
            },
        }
        i += 1;
    }
    proof {
        assert(line_views(out@) + Seq::<Seq<char>>::empty() =~= line_views(out@));
    }
    Ok(out)
}

/// The number of real instructions (lines that consume an address
/// slot, that is, non-label lines) among the first `i` lines.
pub open spec fn instr_count(lines: Seq<Seq<char>>, i: int) -> int
    decreases i,
{
    if i <= 0 {
        0
    } else {
        instr_count(lines, i - 1) + (if spec_classify(lines[i - 1]) is Label {
            0int
        } else {
            1int
        })
    }
}

pub proof fn lemma_instr_count_bounds(lines: Seq<Seq<char>>, i: int, p: int)
    requires
        0 <= i <= p,
    ensures
        0 <= instr_count(lines, p) - instr_count(lines, i) <= p - i,
    decreases p - i,
{
    if i < p {
        lemma_instr_count_bounds(lines, i, p - 1);
    }
}

/// When no line from `i` on declares `name` as a label, the rest of
/// the label pass leaves the binding of `name` as it is.
proof fn lemma_pass1_preserves(
    lines: Seq<Seq<char>>,
    i: int,
    counter: int,
    entries: Seq<SymEntry>,
    name: Seq<char>,
)
    requires
        spec_pass1(lines, i, counter, entries) is Ok,
        forall|q: int| i <= q < lines.len() ==> spec_classify(lines[q]) != SpecLine::Label(name),
    ensures
        spec_lookup(spec_pass1(lines, i, counter, entries)->Ok_0, name) == spec_lookup(
            entries,
            name,
        ),
    decreases lines.len() - i,
{
    if i < 0 || i >= lines.len() {
    } else {
        match spec_classify(lines[i]) {
            SpecLine::Label(other) => {
                assert(spec_classify(lines[i]) != SpecLine::Label(name));
                let e2 = spec_update(entries, other, counter as usize);
                if !is_predefined(other) {
                    lemma_insert_lookup_other(entries, other, counter as usize, name);
                }
                lemma_pass1_preserves(lines, i + 1, counter, e2, name);
            },
            SpecLine::Malformed => {},
            _ => {
                lemma_pass1_preserves(lines, i + 1, counter + 1, entries, name);
            },
        }
    }
}

proof fn lemma_pass1_label_from(
    lines: Seq<Seq<char>>,
    i: int,
    counter: int,
    entries: Seq<SymEntry>,
    p: int,
    name: Seq<char>,
)
    requires
        spec_pass1(lines, i, counter, entries) is Ok,
        0 <= i <= p < lines.len(),
        spec_classify(lines[p]) == SpecLine::Label(name),
        !is_predefined(name),
        forall|q: int| p < q < lines.len() ==> spec_classify(lines[q]) != SpecLine::Label(name),
        0 <= counter,
        counter + (p - i) <= usize::MAX,
    ensures
        spec_lookup(spec_pass1(lines, i, counter, entries)->Ok_0, name) == Some(
            (counter + instr_count(lines, p) - instr_count(lines, i)) as usize,
        ),
    decreases p - i,
{
    lemma_instr_count_bounds(lines, i, p);
    if i == p {
        let e2 = spec_insert(entries, name, counter as usize);
        lemma_insert_lookup_same(entries, name, counter as usize);
        lemma_pass1_preserves(lines, i + 1, counter, e2, name);
    } else {
        lemma_instr_count_bounds(lines, i + 1, p);
        match spec_classify(lines[i]) {
            SpecLine::Label(other) => {
                let e2 = spec_update(entries, other, counter as usize);
                lemma_pass1_label_from(lines, i + 1, counter, e2, p, name);
            },
            SpecLine::Malformed => {},
            _ => {
                lemma_pass1_label_from(lines, i + 1, counter + 1, entries, p, name);
            },
        }
    }
}

/// Label resolution law: a label declared on line `p`, with `k` real
/// instructions on the lines before it, resolves to address `k` after
/// the label pass — label declarations themselves consume no address
/// slot. `p` must carry the last declaration of the name (a duplicate
/// declaration overwrites an earlier one), and the name must not be
/// predefined (predefined names are never overwritten).
pub proof fn lemma_label_address(
    lines: Seq<Seq<char>>,
    entries0: Seq<SymEntry>,
    p: int,
    name: Seq<char>,
)
    requires
        spec_pass1(lines, 0, 0, entries0) is Ok,
        0 <= p < lines.len(),
        lines.len() <= usize::MAX,
        spec_classify(lines[p]) == SpecLine::Label(name),
        !is_predefined(name),
        forall|q: int| p < q < lines.len() ==> spec_classify(lines[q]) != SpecLine::Label(name),
    ensures
        spec_lookup(spec_pass1(lines, 0, 0, entries0)->Ok_0, name) == Some(
            instr_count(lines, p) as usize,
        ),
{
    lemma_instr_count_bounds(lines, 0, p);
    lemma_pass1_label_from(lines, 0, 0, entries0, p, name);
}

/// The whole run over stripped source lines: resolve labels, then
/// encode every instruction, returning one 16-character binary string
/// per executable instruction in source order, or the first error.
pub fn assemble(lines: &Vec<String>) -> (r: Result<Vec<String>, AsmError>)
    ensures
        match r {
            Ok(out) => spec_assemble(line_views(lines@)) == Ok::<_, AsmErrorSpec>(
                line_views(out@),
            ),
            Err(e) => spec_assemble(line_views(lines@)) == Err::<Seq<Seq<char>>, _>(e@),
        },
{
    let mut table = SymbolTable::new();
    match parse_symbols(lines, &mut table) {
        Ok(_) => {},
        Err(e) => {
            return Err(e);
        },
    }
    parse_instructions(lines, &mut table)
}

} // verus!
