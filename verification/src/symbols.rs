//! The symbol table: a growing map from symbolic name to numeric
//! address, seeded with the fixed predefined entries, threaded through
//! the two passes as an owned value.

use vstd::prelude::*;
use crate::code::str_eq;
use crate::error::ErrorKind;

verus! {

/// One table entry: a name and its resolved address.
pub type SymEntry = (Seq<char>, usize);

/// First-match lookup over a sequence of entries. The table never
/// holds two live entries for one name, so the first match is the only
/// one.
pub open spec fn spec_lookup(entries: Seq<SymEntry>, name: Seq<char>) -> Option<usize>
    decreases entries.len(),
{
    if entries.len() == 0 {
        None
    } else if entries[0].0 == name {
        Some(entries[0].1)
    } else {
        spec_lookup(entries.drop_first(), name)
    }
}

/// Replace the first entry for `name`, or append one if none exists.
pub open spec fn spec_insert(entries: Seq<SymEntry>, name: Seq<char>, value: usize) -> Seq<
    SymEntry,
>
    decreases entries.len(),
{
    if entries.len() == 0 {
        seq![(name, value)]
    } else if entries[0].0 == name {
        entries.update(0, (name, value))
    } else {
        seq![entries[0]] + spec_insert(entries.drop_first(), name, value)
    }
}

/// The predefined names and their fixed constant addresses, present
/// before any pass runs.
pub open spec fn predefined_entries() -> Seq<SymEntry> {
    seq![
        ("R0"@, 0usize),
        ("R1"@, 1usize),
        ("R2"@, 2usize),
        ("R3"@, 3usize),
        ("R4"@, 4usize),
        ("R5"@, 5usize),
        ("R6"@, 6usize),
        ("R7"@, 7usize),
        ("R8"@, 8usize),
        ("R9"@, 9usize),
        ("R10"@, 10usize),
        ("R11"@, 11usize),
        ("R12"@, 12usize),
        ("R13"@, 13usize),
        ("R14"@, 14usize),
        ("R15"@, 15usize),
        ("SCREEN"@, 16384usize),
        ("KBD"@, 24576usize),
        ("SP"@, 0usize),
        ("LCL"@, 1usize),
        ("ARG"@, 2usize),
        ("THIS"@, 3usize),
        ("THAT"@, 4usize),
    ]
}

/// Whether `name` is one of the predefined names, which are never
/// overwritten.
pub open spec fn is_predefined(name: Seq<char>) -> bool {
    name == "R0"@ || name == "R1"@ || name == "R2"@ || name == "R3"@ || name == "R4"@ || name
        == "R5"@ || name == "R6"@ || name == "R7"@ || name == "R8"@ || name == "R9"@ || name
        == "R10"@ || name == "R11"@ || name == "R12"@ || name == "R13"@ || name == "R14"@ || name
        == "R15"@ || name == "SCREEN"@ || name == "KBD"@ || name == "SP"@ || name == "LCL"@ || name
        == "ARG"@ || name == "THIS"@ || name == "THAT"@
}

/// A label insertion: predefined names are kept as they are, any other
/// name is bound to `value` (overwriting an earlier binding).
pub open spec fn spec_update(entries: Seq<SymEntry>, name: Seq<char>, value: usize) -> Seq<
    SymEntry,
> {
    if is_predefined(name) {
        entries
    } else {
        spec_insert(entries, name, value)
    }
}

/// The outcome of resolving an address-instruction symbol: the new
/// entries, the new allocation counter, and the resolved address; or
/// nothing, when the address would not fit in 15 bits.
pub open spec fn spec_resolve(entries: Seq<SymEntry>, next_var: usize, name: Seq<char>) -> Option<
    (Seq<SymEntry>, usize, usize),
> {
    match spec_lookup(entries, name) {
        Some(a) => if a <= 32767 {
            Some((entries, next_var, a))
        } else {
            None
        },
        None => if next_var <= 32767 {
            Some((entries.push((name, next_var)), (next_var + 1) as usize, next_var))
        } else {
            None
        },
    }
}

pub proof fn lemma_insert_lookup_same(entries: Seq<SymEntry>, name: Seq<char>, value: usize)
    ensures
        spec_lookup(spec_insert(entries, name, value), name) == Some(value),
    decreases entries.len(),
{
    if entries.len() == 0 {
    } else if entries[0].0 == name {
    } else {
        lemma_insert_lookup_same(entries.drop_first(), name, value);
        let e2 = seq![entries[0]] + spec_insert(entries.drop_first(), name, value);
        assert(e2.drop_first() =~= spec_insert(entries.drop_first(), name, value));
    }
}

pub proof fn lemma_insert_lookup_other(
    entries: Seq<SymEntry>,
    name: Seq<char>,
    value: usize,
    other: Seq<char>,
)
    requires
        other != name,
    ensures
        spec_lookup(spec_insert(entries, name, value), other) == spec_lookup(entries, other),
    decreases entries.len(),
{
    if entries.len() == 0 {
        assert(seq![(name, value)].drop_first() =~= Seq::<SymEntry>::empty());
        assert(spec_lookup(Seq::<SymEntry>::empty(), other) is None);
    } else if entries[0].0 == name {
        let e2 = entries.update(0, (name, value));
        assert(e2[0] == (name, value));
        assert(e2.drop_first() =~= entries.drop_first());
    } else {
        lemma_insert_lookup_other(entries.drop_first(), name, value, other);
        let e2 = seq![entries[0]] + spec_insert(entries.drop_first(), name, value);
        assert(e2.drop_first() =~= spec_insert(entries.drop_first(), name, value));
    }
}

pub proof fn lemma_lookup_push(entries: Seq<SymEntry>, p: SymEntry, name: Seq<char>)
    requires
        spec_lookup(entries, name) is None,
    ensures
        spec_lookup(entries.push(p), name) == if p.0 == name {
            Some(p.1)
        } else {
            None
        },
    decreases entries.len(),
{
    if entries.len() == 0 {
        assert(entries.push(p)[0] == p);
        assert(entries.push(p).drop_first() =~= Seq::<SymEntry>::empty());
        assert(spec_lookup(Seq::<SymEntry>::empty(), name) is None);
    } else {
        lemma_lookup_push(entries.drop_first(), p, name);
        assert(entries.push(p)[0] == entries[0]);
        assert(entries.push(p).drop_first() =~= entries.drop_first().push(p));
    }
}

/// Variable allocation: a previously unseen symbol resolves to the
/// current allocation counter (16 for the first variable of a run),
/// the counter advances by one, and the new binding makes every later
/// reference to the same name resolve to the same address.
pub proof fn lemma_fresh_variable(entries: Seq<SymEntry>, next_var: usize, name: Seq<char>)
    requires
        spec_lookup(entries, name) is None,
        next_var <= 32767,
    ensures
        spec_resolve(entries, next_var, name) == Some(
            (entries.push((name, next_var)), (next_var + 1) as usize, next_var as usize),
        ),
        spec_lookup(entries.push((name, next_var)), name) == Some(next_var),
{
    lemma_lookup_push(entries, (name, next_var), name);
}

/// Repeated references: a symbol already bound to an in-range address
/// resolves to that same address and changes nothing.
pub proof fn lemma_repeated_variable(
    entries: Seq<SymEntry>,
    next_var: usize,
    name: Seq<char>,
    a: usize,
)
    requires
        spec_lookup(entries, name) == Some(a),
        a <= 32767,
    ensures
        spec_resolve(entries, next_var, name) == Some((entries, next_var, a)),
{
}

/// The symbol table: association entries (first match wins, and at
/// most one live entry exists per name) plus the allocation counter
/// for the next fresh variable address.
pub struct SymbolTable {
    entries: Vec<(String, usize)>,
    next_var: usize,
}

impl SymbolTable {
    /// The mathematical contents of the table.
    pub closed spec fn entries_view(&self) -> Seq<SymEntry> {
        self.entries@.map_values(|p: (String, usize)| (p.0@, p.1))
    }

    /// The address the next newly seen variable will receive.
    pub closed spec fn next_var_view(&self) -> usize {
        self.next_var
    }

    /// A fresh table holding exactly the predefined entries, with
    /// variable allocation starting at address 16.
    pub fn new() -> (r: SymbolTable)
        ensures
            r.entries_view() == predefined_entries(),
            r.next_var_view() == 16,
    {
        let mut entries: Vec<(String, usize)> = Vec::new();
        entries.push((String::from_str("R0"), 0));
        entries.push((String::from_str("R1"), 1));
        entries.push((String::from_str("R2"), 2));
        entries.push((String::from_str("R3"), 3));
        entries.push((String::from_str("R4"), 4));
        entries.push((String::from_str("R5"), 5));
        entries.push((String::from_str("R6"), 6));
        entries.push((String::from_str("R7"), 7));
        entries.push((String::from_str("R8"), 8));
        entries.push((String::from_str("R9"), 9));
        entries.push((String::from_str("R10"), 10));
        entries.push((String::from_str("R11"), 11));
        entries.push((String::from_str("R12"), 12));
        entries.push((String::from_str("R13"), 13));
        entries.push((String::from_str("R14"), 14));
        entries.push((String::from_str("R15"), 15));
        entries.push((String::from_str("SCREEN"), 16384));
        entries.push((String::from_str("KBD"), 24576));
        entries.push((String::from_str("SP"), 0));
        entries.push((String::from_str("LCL"), 1));
        entries.push((String::from_str("ARG"), 2));
        entries.push((String::from_str("THIS"), 3));
        entries.push((String::from_str("THAT"), 4));
        let r = SymbolTable { entries, next_var: 16 };
        proof {
            assert(r.entries_view() =~= predefined_entries());
        }
        r
    }

    /// First-match lookup of `name`.
    pub fn lookup(&self, name: &str) -> (r: Option<usize>)
        ensures
            r == spec_lookup(self.entries_view(), name@),
    {
        let ghost full = self.entries_view();
        let n = self.entries.len();
        let mut i: usize = 0;
        proof {
            assert(full.skip(0) =~= full);
        }
        while i < n
            invariant
                n == self.entries.len(),
                i <= n,
                full == self.entries_view(),
                spec_lookup(full, name@) == spec_lookup(full.skip(i as int), name@),
            decreases n - i,
        {
            proof {
                assert(full.skip(i as int)[0] == full[i as int]);
            }
            if str_eq(self.entries[i].0.as_str(), name) {
                return Some(self.entries[i].1);
            }
            proof {
                assert(full.skip(i as int).drop_first() =~= full.skip(i + 1));
            }
            i += 1;
        }
        proof {
            assert(full.skip(n as int) =~= Seq::<SymEntry>::empty());
        }
        None
    }

    /// Whether `name` is a predefined name.
    pub fn predefined(name: &str) -> (r: bool)
        ensures
            r == is_predefined(name@),
    {
        str_eq(name, "R0") || str_eq(name, "R1") || str_eq(name, "R2") || str_eq(name, "R3")
            || str_eq(name, "R4") || str_eq(name, "R5") || str_eq(name, "R6") || str_eq(name, "R7")
            || str_eq(name, "R8") || str_eq(name, "R9") || str_eq(name, "R10") || str_eq(
            name,
            "R11",
        ) || str_eq(name, "R12") || str_eq(name, "R13") || str_eq(name, "R14") || str_eq(
            name,
            "R15",
        ) || str_eq(name, "SCREEN") || str_eq(name, "KBD") || str_eq(name, "SP") || str_eq(
            name,
            "LCL",
        ) || str_eq(name, "ARG") || str_eq(name, "THIS") || str_eq(name, "THAT")
    }

    /// Bind `name` to `value` (used by the label pass). A predefined
    /// name is left untouched; an earlier binding of any other name is
    /// overwritten, so the last declaration wins.
    pub fn insert(&mut self, name: &str, value: usize)
        ensures
            final(self).entries_view() == spec_update(old(self).entries_view(), name@, value),
            final(self).next_var_view() == old(self).next_var_view(),
    {
        if SymbolTable::predefined(name) {
            return ;
        }
        let ghost full = self.entries_view();
        let n = self.entries.len();
        let mut i: usize = 0;
        while i < n
            invariant
                n == self.entries.len(),
                i <= n,
                full == self.entries_view(),
                full == old(self).entries_view(),
                self.next_var == old(self).next_var,
                !is_predefined(name@),
                forall|j: int| 0 <= j < i ==> full[j].0 != name@,
            decreases n - i,
        {
            if str_eq(self.entries[i].0.as_str(), name) {
                self.entries[i] = (String::from_str(name), value);
                proof {
                    lemma_spec_insert_at(full, name@, value, i as int);
                    assert(self.entries_view() =~= full.update(i as int, (name@, value)));
                }
                return ;
            }
            i += 1;
        }
        self.entries.push((String::from_str(name), value));
        proof {
            lemma_spec_insert_append(full, name@, value);
            assert(self.entries_view() =~= full.push((name@, value)));
        }
    }

    /// Resolve an address-instruction symbol: an existing binding is
    /// returned as it is; an unseen name is allocated the next free
    /// variable address. Fails exactly when the address would not fit
    /// in the 15-bit address field.
    pub fn resolve(&mut self, name: &str) -> (r: Result<u16, ErrorKind>)
        ensures
            match spec_resolve(old(self).entries_view(), old(self).next_var_view(), name@) {
                Some((e2, nv2, a)) => r is Ok && r->Ok_0 == a as u16 && final(self).entries_view()
                    == e2 && final(self).next_var_view() == nv2,
                None => r == Result::<u16, ErrorKind>::Err(ErrorKind::AddressOutOfRange)
                    && final(self).entries_view() == old(self).entries_view()
                    && final(self).next_var_view() == old(self).next_var_view(),
            },
    {
        let ghost full = self.entries_view();
        match self.lookup(name) {
            Some(a) => {
                if a <= 32767 {
                    Ok(a as u16)
                } else {
                    Err(ErrorKind::AddressOutOfRange)
                }
            },
            None => {
                if self.next_var <= 32767 {
                    let a = self.next_var;
                    self.entries.push((String::from_str(name), a));
                    self.next_var = self.next_var + 1;
                    proof {
                        assert(self.entries_view() =~= full.push((name@, a)));
                    }
                    Ok(a as u16)
                } else {
                    Err(ErrorKind::AddressOutOfRange)
                }
            },
        }
    }
}

/// When every key before `i` differs from `name` and the key at `i`
/// matches it, insertion updates position `i` in place.
pub proof fn lemma_spec_insert_at(entries: Seq<SymEntry>, name: Seq<char>, value: usize, i: int)
    requires
        0 <= i < entries.len(),
        entries[i].0 == name,
        forall|j: int| 0 <= j < i ==> entries[j].0 != name,
    ensures
        spec_insert(entries, name, value) == entries.update(i, (name, value)),
    decreases entries.len(),
{
    if i == 0 {
        assert(spec_insert(entries, name, value) =~= entries.update(0, (name, value)));
    } else {
        lemma_spec_insert_at(entries.drop_first(), name, value, i - 1);
        assert(entries.drop_first()[i - 1].0 == name);
        assert(spec_insert(entries, name, value) =~= entries.update(i, (name, value)));
    }
}

/// When no key matches `name`, insertion appends a fresh entry.
pub proof fn lemma_spec_insert_append(entries: Seq<SymEntry>, name: Seq<char>, value: usize)
    requires
        forall|j: int| 0 <= j < entries.len() ==> entries[j].0 != name,
    ensures
        spec_insert(entries, name, value) == entries.push((name, value)),
    decreases entries.len(),
{
    if entries.len() == 0 {
        assert(spec_insert(entries, name, value) =~= entries.push((name, value)));
    } else {
        lemma_spec_insert_append(entries.drop_first(), name, value);
        assert(spec_insert(entries, name, value) =~= entries.push((name, value)));
    }
}

} // verus!
