//! Instruction classification: an explicit tokenizer that sorts each
//! stripped source line into a tagged variant by its structural shape.
//!
//! A line may carry leading whitespace, and trailing whitespace or a
//! trailing `//` comment after the instruction; anything else beyond
//! the recognized shape makes the line malformed.

use vstd::prelude::*;
use crate::instructions::CInstruction;

verus! {

/// The character classes the tokenizer scans over.
#[derive(Clone, Copy)]
pub enum CharClass {
    /// Space, tab or carriage return.
    Whitespace,
    /// A decimal digit.
    Digit,
    /// A character that may open a symbol: a letter, `$`, `.` or `_`.
    SymbolStart,
    /// A character that may continue a symbol: a symbol opener or a
    /// digit.
    SymbolChar,
    /// A letter, the only characters of a destination mnemonic.
    Letter,
    /// A character of an operation mnemonic.
    CompChar,
    /// A character of a jump mnemonic.
    JumpChar,
}

pub open spec fn is_letter(c: char) -> bool {
    ('A' <= c && c <= 'Z') || ('a' <= c && c <= 'z')
}

pub open spec fn is_digit(c: char) -> bool {
    '0' <= c && c <= '9'
}

pub open spec fn char_in_class(k: CharClass, c: char) -> bool {
    match k {
        CharClass::Whitespace => c == ' ' || c == '\t' || c == '\r',
        CharClass::Digit => is_digit(c),
        CharClass::SymbolStart => is_letter(c) || c == '$' || c == '.' || c == '_',
        CharClass::SymbolChar => is_letter(c) || is_digit(c) || c == '$' || c == '.' || c == '_',
        CharClass::Letter => is_letter(c),
        CharClass::CompChar => is_letter(c) || is_digit(c) || c == '+' || c == '-' || c == '!'
            || c == '&' || c == '|',
        CharClass::JumpChar => is_letter(c) || is_digit(c) || c == '_',
    }
}

pub fn char_in_class_exec(k: CharClass, c: char) -> (r: bool)
    ensures
        r == char_in_class(k, c),
{
    match k {
        CharClass::Whitespace => c == ' ' || c == '\t' || c == '\r',
        CharClass::Digit => '0' <= c && c <= '9',
        CharClass::SymbolStart => ('A' <= c && c <= 'Z') || ('a' <= c && c <= 'z') || c == '$'
            || c == '.' || c == '_',
        CharClass::SymbolChar => ('A' <= c && c <= 'Z') || ('a' <= c && c <= 'z') || ('0' <= c
            && c <= '9') || c == '$' || c == '.' || c == '_',
        CharClass::Letter => ('A' <= c && c <= 'Z') || ('a' <= c && c <= 'z'),
        CharClass::CompChar => ('A' <= c && c <= 'Z') || ('a' <= c && c <= 'z') || ('0' <= c && c
            <= '9') || c == '+' || c == '-' || c == '!' || c == '&' || c == '|',
        CharClass::JumpChar => ('A' <= c && c <= 'Z') || ('a' <= c && c <= 'z') || ('0' <= c && c
            <= '9') || c == '_',
    }
}

/// The length of the longest prefix of `s` whose characters all lie in
/// class `k`.
pub open spec fn prefix_len(s: Seq<char>, k: CharClass) -> int
    decreases s.len(),
{
    if s.len() == 0 || !char_in_class(k, s[0]) {
        0
    } else {
        1 + prefix_len(s.drop_first(), k)
    }
}

/// The characterization that pins `prefix_len` down: `n` is the prefix
/// length exactly when the first `n` characters are in class and the
/// next one (if any) is not.
pub proof fn lemma_prefix_len_is(s: Seq<char>, k: CharClass, n: int)
    requires
        0 <= n <= s.len(),
        forall|j: int| 0 <= j < n ==> char_in_class(k, s[j]),
        n == s.len() || !char_in_class(k, s[n]),
    ensures
        prefix_len(s, k) == n,
    decreases n,
{
    if n == 0 {
    } else {
        assert(char_in_class(k, s[0]));
        let t = s.drop_first();
        assert forall|j: int| 0 <= j < n - 1 implies char_in_class(k, t[j]) by {
            assert(t[j] == s[j + 1]);
        }
        if n < s.len() {
            assert(t[n - 1] == s[n]);
        }
        lemma_prefix_len_is(t, k, n - 1);
    }
}

/// Scan forward from `from`, returning how many consecutive characters
/// lie in class `k`.
pub fn scan_class(s: &str, from: usize, k: CharClass) -> (r: usize)
    requires
        from <= s@.len(),
    ensures
        r as int == prefix_len(s@.skip(from as int), k),
        from + r <= s@.len(),
{
    let len = s.unicode_len();
    let mut i = from;
    while i < len && char_in_class_exec(k, s.get_char(i))
        invariant
            from <= i <= len,
            len == s@.len(),
            forall|j: int| from <= j < i ==> char_in_class(k, s@[j]),
        decreases len - i,
    {
        i += 1;
    }
    proof {
        let t = s@.skip(from as int);
        let n = i - from;
        assert forall|j: int| 0 <= j < n implies char_in_class(k, t[j]) by {
            assert(t[j] == s@[from + j]);
        }
        if i < len {
            assert(t[n as int] == s@[i as int]);
        }
        lemma_prefix_len_is(t, k, n as int);
    }
    i - from
}

/// After the recognized shape, a line may hold only whitespace and an
/// optional `//` comment running to the end.
pub open spec fn rest_ok(s: Seq<char>) -> bool
    decreases s.len(),
{
    if s.len() == 0 {
        true
    } else if char_in_class(CharClass::Whitespace, s[0]) {
        rest_ok(s.drop_first())
    } else {
        s.len() >= 2 && s[0] == '/' && s[1] == '/'
    }
}

/// Decide `rest_ok` for the tail of `s` that starts at `from`.
pub fn rest_ok_from(s: &str, from: usize) -> (r: bool)
    requires
        from <= s@.len(),
    ensures
        r == rest_ok(s@.skip(from as int)),
{
    let len = s.unicode_len();
    let mut i = from;
    while i < len && char_in_class_exec(CharClass::Whitespace, s.get_char(i))
        invariant
            from <= i <= len,
            len == s@.len(),
            rest_ok(s@.skip(from as int)) == rest_ok(s@.skip(i as int)),
        decreases len - i,
    {
        proof {
            assert(s@.skip(i as int)[0] == s@[i as int]);
            assert(s@.skip(i as int).drop_first() =~= s@.skip(i + 1));
        }
        i += 1;
    }
    let ghost t = s@.skip(i as int);
    if i == len {
        proof {
            assert(t =~= Seq::<char>::empty());
        }
        true
    } else {
        proof {
            assert(t[0] == s@[i as int]);
            assert(t.len() == len - i);
        }
        if i + 1 < len {
            proof {
                assert(t[1] == s@[i + 1]);
            }
            s.get_char(i) == '/' && s.get_char(i + 1) == '/'
        } else {
            proof {
                assert(t.len() < 2);
            }
            false
        }
    }
}

pub open spec fn digit_val(c: char) -> nat {
    if is_digit(c) {
        (c as u32 - '0' as u32) as nat
    } else {
        0
    }
}

/// The mathematical value of a string of decimal digits.
pub open spec fn numeral_val(s: Seq<char>) -> nat
    decreases s.len(),
{
    if s.len() == 0 {
        0
    } else {
        numeral_val(s.drop_last()) * 10 + digit_val(s.last())
    }
}

/// The value of a numeral, saturated at 100000. Every address above
/// 32767 is equally out of range, so saturation changes no outcome
/// while keeping the computed value within machine bounds.
pub open spec fn numeral_val_capped(s: Seq<char>) -> u32 {
    if numeral_val(s) > 100000 {
        100000u32
    } else {
        numeral_val(s) as u32
    }
}

/// Evaluate the digits of `s` in positions `from..to`, saturated at
/// 100000.
pub fn parse_numeral(s: &str, from: usize, to: usize) -> (r: u32)
    requires
        from <= to <= s@.len(),
        forall|j: int| from <= j < to ==> is_digit(s@[j]),
    ensures
        r == numeral_val_capped(s@.subrange(from as int, to as int)),
{
    let mut acc: u32 = 0;
    let mut i = from;
    proof {
        assert(s@.subrange(from as int, from as int) =~= Seq::<char>::empty());
    }
    while i < to
        invariant
            from <= i <= to,
            to <= s@.len(),
            forall|j: int| from <= j < to ==> is_digit(s@[j]),
            acc == numeral_val_capped(s@.subrange(from as int, i as int)),
            acc <= 100000,
        decreases to - i,
    {
        let c = s.get_char(i);
        proof {
            assert(is_digit(s@[i as int]));
        }
        let d = c as u32 - '0' as u32;
        acc = acc * 10 + d;
        if acc > 100000 {
            acc = 100000;
        }
        proof {
            let prev = s@.subrange(from as int, i as int);
            let cur = s@.subrange(from as int, i + 1);
            assert(cur.drop_last() =~= prev);
            assert(cur.last() == s@[i as int]);
            assert(d == digit_val(s@[i as int]));
        }
        i += 1;
    }
    acc
}

/// Mathematical image of a classified line.
pub ghost enum SpecLine {
    /// An address instruction with a numeric operand (value saturated
    /// at 100000).
    AddressNumeric(u32),
    /// An address instruction with a symbolic operand.
    AddressSymbolic(Seq<char>),
    /// A compute instruction: destination, operation, jump mnemonics.
    Compute(Seq<char>, Seq<char>, Seq<char>),
    /// A label declaration.
    Label(Seq<char>),
    /// None of the recognized shapes.
    Malformed,
}

/// The structural shape of one stripped source line.
pub open spec fn spec_classify(s: Seq<char>) -> SpecLine {
    let t = s.skip(prefix_len(s, CharClass::Whitespace));
    if t.len() == 0 {
        SpecLine::Malformed
    } else if t[0] == '(' {
        let core = t.skip(1);
        if core.len() > 0 && char_in_class(CharClass::SymbolStart, core[0]) {
            let n = 1 + prefix_len(core.skip(1), CharClass::SymbolChar);
            if n < core.len() && core[n] == ')' && rest_ok(core.skip(n + 1)) {
                SpecLine::Label(core.take(n))
            } else {
                SpecLine::Malformed
            }
        } else {
            SpecLine::Malformed
        }
    } else if t[0] == '@' {
        let op = t.skip(1);
        if op.len() > 0 && char_in_class(CharClass::Digit, op[0]) {
            let n = prefix_len(op, CharClass::Digit);
            if rest_ok(op.skip(n)) {
                SpecLine::AddressNumeric(numeral_val_capped(op.take(n)))
            } else {
                SpecLine::Malformed
            }
        } else if op.len() > 0 && char_in_class(CharClass::SymbolStart, op[0]) {
            let n = 1 + prefix_len(op.skip(1), CharClass::SymbolChar);
            if rest_ok(op.skip(n)) {
                SpecLine::AddressSymbolic(op.take(n))
            } else {
                SpecLine::Malformed
            }
        } else {
            SpecLine::Malformed
        }
    } else {
        let d = prefix_len(t, CharClass::Letter);
        let dest = if d > 0 && d < t.len() && t[d] == '=' {
            t.take(d)
        } else {
            Seq::<char>::empty()
        };
        let rest = if d > 0 && d < t.len() && t[d] == '=' {
            t.skip(d + 1)
        } else {
            t
        };
        let c = prefix_len(rest, CharClass::CompChar);
        if c == 0 {
            SpecLine::Malformed
        } else {
            let comp = rest.take(c);
            let after = rest.skip(c);
            if after.len() > 0 && after[0] == ';' {
                let j = prefix_len(after.skip(1), CharClass::JumpChar);
                if j > 0 && rest_ok(after.skip(1 + j)) {
                    SpecLine::Compute(dest, comp, after.skip(1).take(j))
                } else {
                    SpecLine::Malformed
                }
            } else if rest_ok(after) {
                SpecLine::Compute(dest, comp, Seq::<char>::empty())
            } else {
                SpecLine::Malformed
            }
        }
    }
}

/// A classified line, carrying its tokens.
pub enum LineKind {
    AddressNumeric(u32),
    AddressSymbolic(String),
    Compute(CInstruction),
    Label(String),
    Malformed,
}

impl View for LineKind {
    type V = SpecLine;

    open spec fn view(&self) -> SpecLine {
        match self {
            LineKind::AddressNumeric(v) => SpecLine::AddressNumeric(*v),
            LineKind::AddressSymbolic(name) => SpecLine::AddressSymbolic(name@),
            LineKind::Compute(c) => SpecLine::Compute(c.dest@, c.comp@, c.jump@),
            LineKind::Label(name) => SpecLine::Label(name@),
            LineKind::Malformed => SpecLine::Malformed,
        }
    }
}

/// Classify one stripped source line by its structural shape.
#[verifier::rlimit(100)]
pub fn classify(s: &str) -> (r: LineKind)
    ensures
        r@ == spec_classify(s@),
{
    let len = s.unicode_len();
    let wp = scan_class(s, 0, CharClass::Whitespace);
    proof {
        assert(s@.skip(0) =~= s@);
    }
    let ghost t = s@.skip(wp as int);
    if wp == len {
        proof {
            assert(t.len() == 0);
        }
        return LineKind::Malformed;
    }
    let c0 = s.get_char(wp);
    proof {
        assert(t[0] == s@[wp as int]);
        assert(t.len() == len - wp);
    }
    if c0 == '(' {
        let ghost core = t.skip(1);
        proof {
            assert(core =~= s@.skip(wp + 1));
        }
        if wp + 1 < len && char_in_class_exec(CharClass::SymbolStart, s.get_char(wp + 1)) {
            proof {
                assert(core[0] == s@[wp + 1]);
            }
            let n0 = scan_class(s, wp + 2, CharClass::SymbolChar);
            proof {
                assert(core.skip(1) =~= s@.skip(wp + 2));
            }
            let end = wp + 1 + 1 + n0;
            let ghost n = 1 + prefix_len(core.skip(1), CharClass::SymbolChar);
            proof {
                assert(end - (wp + 1) == n);
            }
            if end < len && s.get_char(end) == ')' {
                proof {
                    assert(core[n] == s@[end as int]);
                }
                if rest_ok_from(s, end + 1) {
                    proof {
                        assert(core.skip(n + 1) =~= s@.skip(end + 1));
                    }
                    let name = String::from_str(s.substring_char(wp + 1, end));
                    proof {
                        assert(name@ =~= core.take(n));
                    }
                    return LineKind::Label(name);
                } else {
                    proof {
                        assert(core.skip(n + 1) =~= s@.skip(end + 1));
                    }
                    return LineKind::Malformed;
                }
            } else {
                proof {
                    if end < len {
                        assert(core[n] == s@[end as int]);
                    } else {
                        assert(n >= core.len());
                    }
                }
                return LineKind::Malformed;
            }
        } else {
            return LineKind::Malformed;
        }
    } else if c0 == '@' {
        let ghost op = t.skip(1);
        proof {
            assert(op =~= s@.skip(wp + 1));
        }
        if wp + 1 < len && char_in_class_exec(CharClass::Digit, s.get_char(wp + 1)) {
            proof {
                assert(op[0] == s@[wp + 1]);
            }
            let n0 = scan_class(s, wp + 1, CharClass::Digit);
            let ghost n = prefix_len(op, CharClass::Digit);
            proof {
                assert(n0 as int == n);
            }
            if rest_ok_from(s, wp + 1 + n0) {
                proof {
                    assert(op.skip(n) =~= s@.skip(wp + 1 + n0));
                    assert forall|j: int| wp + 1 <= j < wp + 1 + n0 implies is_digit(
                        s@[j],
                    ) by {
                        assert(op[j - (wp + 1)] == s@[j]);
                        lemma_prefix_chars(op, CharClass::Digit);
                    }
                }
                let v = parse_numeral(s, wp + 1, wp + 1 + n0);
                proof {
                    assert(op.take(n) =~= s@.subrange(wp + 1, wp + 1 + n0));
                }
                return LineKind::AddressNumeric(v);
            } else {
                proof {
                    assert(op.skip(n) =~= s@.skip(wp + 1 + n0));
                }
                return LineKind::Malformed;
            }
        } else if wp + 1 < len && char_in_class_exec(CharClass::SymbolStart, s.get_char(wp + 1)) {
            proof {
                assert(op[0] == s@[wp + 1]);
            }
            let n0 = scan_class(s, wp + 2, CharClass::SymbolChar);
            proof {
                assert(op.skip(1) =~= s@.skip(wp + 2));
            }
            let end = wp + 1 + 1 + n0;
            let ghost n = 1 + prefix_len(op.skip(1), CharClass::SymbolChar);
            proof {
                assert(end - (wp + 1) == n);
            }
            if rest_ok_from(s, end) {
                proof {
                    assert(op.skip(n) =~= s@.skip(end as int));
                }
                let name = String::from_str(s.substring_char(wp + 1, end));
                proof {
                    assert(name@ =~= op.take(n));
                }
                return LineKind::AddressSymbolic(name);
            } else {
                proof {
                    assert(op.skip(n) =~= s@.skip(end as int));
                }
                return LineKind::Malformed;
            }
        } else {
            return LineKind::Malformed;
        }
    } else {
        let d0 = scan_class(s, wp, CharClass::Letter);
        let ghost d = prefix_len(t, CharClass::Letter);
        proof {
            assert(t =~= s@.skip(wp as int));
            assert(d0 as int == d);
        }
        let has_dest = d0 > 0 && wp + d0 < len && s.get_char(wp + d0) == '=';
        proof {
            if d0 > 0 && wp + d0 < len {
                assert(t[d] == s@[wp + d0]);
            }
            assert(has_dest == (d > 0 && d < t.len() && t[d] == '='));
        }
        let rstart = if has_dest {
            wp + d0 + 1
        } else {
            wp
        };
        let ghost rest = if has_dest {
            t.skip(d + 1)
        } else {
            t
        };
        proof {
            assert(rest =~= s@.skip(rstart as int));
        }
        let c0n = scan_class(s, rstart, CharClass::CompChar);
        let ghost c = prefix_len(rest, CharClass::CompChar);
        proof {
            assert(c0n as int == c);
        }
        if c0n == 0 {
            return LineKind::Malformed;
        }
        let after_idx = rstart + c0n;
        let ghost after = rest.skip(c);
        proof {
            assert(after =~= s@.skip(after_idx as int));
            assert(after.len() == len - after_idx);
            if after_idx < len {
                assert(after[0] == s@[after_idx as int]);
            }
        }
        let dest = if has_dest {
            String::from_str(s.substring_char(wp, wp + d0))
        } else {
            String::new()
        };
        proof {
            if has_dest {
                assert(dest@ =~= t.take(d));
            } else {
                assert(dest@ =~= Seq::<char>::empty());
            }
        }
        let comp = String::from_str(s.substring_char(rstart, after_idx));
        proof {
            assert(comp@ =~= rest.take(c));
        }
        if after_idx < len && s.get_char(after_idx) == ';' {
            let j0 = scan_class(s, after_idx + 1, CharClass::JumpChar);
            let ghost j = prefix_len(after.skip(1), CharClass::JumpChar);
            proof {
                assert(after.skip(1) =~= s@.skip(after_idx + 1));
                assert(j0 as int == j);
            }
            if j0 > 0 && rest_ok_from(s, after_idx + 1 + j0) {
                proof {
                    assert(after.skip(1 + j) =~= s@.skip(after_idx + 1 + j0));
                }
                let jump = String::from_str(s.substring_char(after_idx + 1, after_idx + 1 + j0));
                proof {
                    assert(jump@ =~= after.skip(1).take(j));
                }
                return LineKind::Compute(CInstruction::new(dest, comp, jump));
            } else {
                proof {
                    if j0 > 0 {
                        assert(after.skip(1 + j) =~= s@.skip(after_idx + 1 + j0));
                    }
                }
                return LineKind::Malformed;
            }
        } else {
            if rest_ok_from(s, after_idx) {
                return LineKind::Compute(CInstruction::new(dest, comp, String::new()));
            } else {
                return LineKind::Malformed;
            }
        }
    }
}

/// Every character inside the class prefix is in the class.
pub proof fn lemma_prefix_chars(s: Seq<char>, k: CharClass)
    ensures
        forall|j: int| 0 <= j < prefix_len(s, k) ==> char_in_class(k, s[j]),
        0 <= prefix_len(s, k) <= s.len(),
    decreases s.len(),
{
    if s.len() == 0 || !char_in_class(k, s[0]) {
    } else {
        lemma_prefix_chars(s.drop_first(), k);
        assert forall|j: int| 0 <= j < prefix_len(s, k) implies char_in_class(k, s[j]) by {
            if j > 0 {
                assert(s.drop_first()[j - 1] == s[j]);
            }
        }
    }
}

} // verus!
