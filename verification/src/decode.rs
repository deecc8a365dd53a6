//! The instruction decoder: one whitespace-tokenized source line becomes a
//! typed instruction or a per-line decode error.

use vstd::prelude::*;
use vstd::string::StrSliceExecFns;

use crate::instr::INSTR;

verus! {

// ---------------------------------------------------------------------------
// Tokenization: a line splits at every single space, as `split(' ')` does,
// so consecutive spaces and an empty line both yield empty tokens.
// ---------------------------------------------------------------------------

/// The tokens of `s`, split at every space character. Always at least one
/// token; an empty input yields one empty token.
pub open spec fn spec_tokenize(s: Seq<char>) -> Seq<Seq<char>>
    decreases s.len(),
{
    if s.len() == 0 {
        seq![Seq::<char>::empty()]
    } else if s[0] == ' ' {
        seq![Seq::<char>::empty()] + spec_tokenize(s.skip(1))
    } else {
        let rest = spec_tokenize(s.skip(1));
        seq![seq![s[0]] + rest[0]] + rest.skip(1)
    }
}

/// A stretch of text without spaces is a single token.
proof fn lemma_tokenize_no_space(s: Seq<char>)
    requires
        forall|i: int| 0 <= i < s.len() ==> s[i] != ' ',
    ensures
        spec_tokenize(s) =~~= seq![s],
    decreases s.len(),
{
    if s.len() == 0 {
        assert(s =~= Seq::<char>::empty());
    } else {
        lemma_tokenize_no_space(s.skip(1));
        let rest = spec_tokenize(s.skip(1));
        assert(rest[0] == s.skip(1));
        assert(seq![s[0]] + s.skip(1) =~= s);
        assert(rest.skip(1) =~= Seq::<Seq<char>>::empty());
    }
}

/// Splitting at the first space: the text before it is the first token, and
/// the rest tokenizes on its own.
proof fn lemma_tokenize_split(s: Seq<char>, j: int)
    requires
        0 <= j < s.len(),
        s[j] == ' ',
        forall|i: int| 0 <= i < j ==> s[i] != ' ',
    ensures
        spec_tokenize(s) =~~= seq![s.subrange(0, j)] + spec_tokenize(s.skip(j + 1)),
    decreases j,
{
    if j == 0 {
        assert(s.subrange(0, 0) =~= Seq::<char>::empty());
    } else {
        assert(s.skip(1)[j - 1] == s[j]);
        lemma_tokenize_split(s.skip(1), j - 1);
        let rest = spec_tokenize(s.skip(1));
        assert(s.skip(1).subrange(0, j - 1) =~= s.subrange(1, j));
        assert(s.skip(1).skip(j) =~= s.skip(j + 1));
        assert(rest =~~= seq![s.subrange(1, j)] + spec_tokenize(s.skip(j + 1)));
        assert(seq![s[0]] + rest[0] =~= s.subrange(0, j));
        assert(rest.skip(1) =~~= spec_tokenize(s.skip(j + 1)));
    }
}

/// Split one source line at every space, as the decoder's grammar asks.
pub fn split_line<'a>(s: &'a str) -> (tokens: Vec<&'a str>)
    ensures
        tokens.deep_view() == spec_tokenize(s@),
        tokens@.len() >= 1,
{
    let n: usize = s.unicode_len();
    let mut tokens: Vec<&'a str> = Vec::new();
    let mut start: usize = 0;
    let mut i: usize = 0;
    proof {
        assert(s@.skip(0) =~= s@);
        assert(tokens.deep_view() =~= Seq::<Seq<char>>::empty());
        assert(tokens.deep_view() + spec_tokenize(s@) =~~= spec_tokenize(s@));
    }
    while i < n
        invariant
            start <= i <= n,
            n == s@.len(),
            forall|k: int| start <= k < i ==> s@[k] != ' ',
            spec_tokenize(s@) =~~= tokens.deep_view() + spec_tokenize(s@.skip(start as int)),
        decreases n - i,
    {
        let c = s.get_char(i);
        if c == ' ' {
            let tok = s.substring_char(start, i);
            proof {
                let tail = s@.skip(start as int);
                assert(forall|k: int| 0 <= k < i - start ==> tail[k] == s@[start + k]);
                assert(tail[i - start] == s@[i as int]);
                lemma_tokenize_split(tail, i - start);
                assert(tail.subrange(0, i - start) =~= s@.subrange(start as int, i as int));
                assert(tail.skip(i - start + 1) =~= s@.skip(i + 1));
            }
            let ghost old_dv = tokens.deep_view();
            tokens.push(tok);
            proof {
                assert(tokens.deep_view() =~= old_dv.push(tok@));
            }
            start = i + 1;
        }
        i = i + 1;
    }
    let tok = s.substring_char(start, n);
    proof {
        let tail = s@.skip(start as int);
        assert(forall|k: int| 0 <= k < tail.len() ==> tail[k] == s@[start + k]);
        lemma_tokenize_no_space(tail);
        assert(tail =~= s@.subrange(start as int, n as int));
    }
    let ghost old_dv = tokens.deep_view();
    tokens.push(tok);
    proof {
        assert(tokens.deep_view() =~= old_dv.push(tok@));
        assert(tokens.deep_view() =~= spec_tokenize(s@));
    }
    tokens
}

// ---------------------------------------------------------------------------
// Operand tokens: one marker character (`r` for a register reference, `#`
// for an immediate) followed by the decimal digits of an unsigned 32-bit
// value. The marker is stripped, never interpreted, so both kinds carry the
// same representation out of the decoder.
// ---------------------------------------------------------------------------

pub open spec fn is_digit(c: char) -> bool {
    '0' <= c <= '9'
}

pub open spec fn all_digits(s: Seq<char>) -> bool {
    forall|i: int| 0 <= i < s.len() ==> is_digit(s[i])
}

/// The value of a string of decimal digits, most significant first.
pub open spec fn digits_val(s: Seq<char>) -> int
    decreases s.len(),
{
    if s.len() == 0 {
        0
    } else {
        digits_val(s.drop_last()) * 10 + (s.last() as int - '0' as int)
    }
}

/// The value of a well-formed operand token, `None` if the token is
/// malformed: shorter than two characters, a non-digit after the marker, or
/// a value beyond 32 bits.
pub open spec fn spec_operand(t: Seq<char>) -> Option<u32> {
    if t.len() >= 2 && all_digits(t.skip(1)) && digits_val(t.skip(1)) <= u32::MAX {
        Some(digits_val(t.skip(1)) as u32)
    } else {
        None
    }
}

proof fn lemma_digits_val_nonneg(s: Seq<char>)
    requires
        all_digits(s),
    ensures
        digits_val(s) >= 0,
    decreases s.len(),
{
    if s.len() > 0 {
        assert(all_digits(s.drop_last()));
        lemma_digits_val_nonneg(s.drop_last());
    }
}

/// A digit string is worth at least any of its prefixes.
proof fn lemma_digits_val_prefix(s: Seq<char>, i: int)
    requires
        all_digits(s),
        0 <= i <= s.len(),
    ensures
        digits_val(s.subrange(0, i)) <= digits_val(s),
    decreases s.len(),
{
    if i == s.len() {
        assert(s.subrange(0, i) =~= s);
    } else {
        assert(all_digits(s.drop_last()));
        assert(s.drop_last().subrange(0, i) =~= s.subrange(0, i));
        lemma_digits_val_prefix(s.drop_last(), i);
        lemma_digits_val_nonneg(s.drop_last());
    }
}

/// Parse one operand token: strip the marker character and read the rest as
/// an unsigned 32-bit decimal number.
pub fn parse_operand(t: &str) -> (r: Option<u32>)
    ensures
        r == spec_operand(t@),
{
    let n: usize = t.unicode_len();
    if n < 2 {
        return None;
    }
    let mut acc: u64 = 0;
    let mut i: usize = 1;
    while i < n
        invariant
            1 <= i <= n,
            n == t@.len(),
            all_digits(t@.subrange(1, i as int)),
            acc == digits_val(t@.subrange(1, i as int)),
            acc <= u32::MAX,
        decreases n - i,
    {
        let c = t.get_char(i);
        let u = c as u32;
        if u < 48 || u > 57 {
            proof {
                assert(t@.skip(1)[i - 1] == t@[i as int]);
                assert(!is_digit(t@[i as int]));
            }
            return None;
        }
        let d: u64 = (u - 48) as u64;
        let next: u64 = acc * 10 + d;
        proof {
            let ghost ext = t@.subrange(1, i as int + 1);
            assert(ext.drop_last() =~= t@.subrange(1, i as int));
            assert(ext.last() == t@[i as int]);
            assert(next == digits_val(ext));
        }
        if next > 0xffff_ffff {
            proof {
                if all_digits(t@.skip(1)) {
                    lemma_digits_val_prefix(t@.skip(1), i as int);
                    assert(t@.skip(1).subrange(0, i as int) =~= t@.subrange(1, i as int + 1));
                    assert(digits_val(t@.skip(1)) >= next);
                }
            }
            return None;
        }
        acc = next;
        i = i + 1;
    }
    proof {
        assert(t@.subrange(1, n as int) =~= t@.skip(1));
    }
    Some(acc as u32)
}

// ---------------------------------------------------------------------------
// Decoding a token list. The first token is the mnemonic; it picks the arity
// class and the variant. Class-2 mnemonics consume the last two tokens
// (destination, then source or immediate), class-3 mnemonics the last three.
// ---------------------------------------------------------------------------

/// A recoverable per-line decode failure. Each variant names the offending
/// token.
#[derive(Debug, PartialEq, Eq)]
pub enum DecodeError {
    /// The mnemonic is not part of the instruction set.
    Unrecognized(String),
    /// The line holds fewer operand tokens than the mnemonic's arity asks.
    InsufficientArguments(String),
    /// An operand token is not a marker character followed by the decimal
    /// digits of a 32-bit value.
    MalformedOperand(String),
}

/// The mathematical shadow of `DecodeError`, over character sequences.
pub ghost enum DecodeErrorView {
    Unrecognized(Seq<char>),
    InsufficientArguments(Seq<char>),
    MalformedOperand(Seq<char>),
}

impl View for DecodeError {
    type V = DecodeErrorView;

    open spec fn view(&self) -> DecodeErrorView {
        match self {
            DecodeError::Unrecognized(t) => DecodeErrorView::Unrecognized(t@),
            DecodeError::InsufficientArguments(t) => DecodeErrorView::InsufficientArguments(t@),
            DecodeError::MalformedOperand(t) => DecodeErrorView::MalformedOperand(t@),
        }
    }
}

/// A decode result, seen at the specification level.
pub open spec fn decode_result_view(r: Result<INSTR, DecodeError>) -> Result<
    INSTR,
    DecodeErrorView,
> {
    match r {
        Ok(i) => Ok(i),
        Err(e) => Err(e@),
    }
}

/// The mnemonics that take a destination and one further operand.
pub open spec fn is_class2(op: Seq<char>) -> bool {
    op == "mov"@ || op == "movi"@ || op == "addi"@ || op == "subi"@
}

/// The mnemonics that take a destination and two further operands.
pub open spec fn is_class3(op: Seq<char>) -> bool {
    op == "add"@ || op == "addr"@ || op == "sub"@ || op == "subr"@
}

/// The variant a class-2 mnemonic builds, with destination `d` and operand
/// `v` in textual order.
pub open spec fn class2_instr(op: Seq<char>, d: u32, v: u32) -> INSTR
    recommends
        is_class2(op),
{
    if op == "mov"@ {
        INSTR::MOV(d, v)
    } else if op == "movi"@ {
        INSTR::MOVI(d, v)
    } else if op == "addi"@ {
        INSTR::ADDI(d, v)
    } else {
        INSTR::SUBI(d, v)
    }
}

/// The variant a class-3 mnemonic builds, with destination `d` and operands
/// `a`, `b` in textual order.
pub open spec fn class3_instr(op: Seq<char>, d: u32, a: u32, b: u32) -> INSTR
    recommends
        is_class3(op),
{
    if op == "add"@ {
        INSTR::ADD(d, a, b)
    } else if op == "sub"@ {
        INSTR::SUB(d, a, b)
    } else if op == "addr"@ {
        INSTR::ADDR(d, a, b)
    } else {
        INSTR::SUBR(d, a, b)
    }
}

/// What decoding a token list yields: the instruction, or the first error in
/// the order the decoder looks — mnemonic, arity, then each consumed operand
/// left to right.
pub open spec fn spec_decode(toks: Seq<Seq<char>>) -> Result<INSTR, DecodeErrorView>
    recommends
        toks.len() >= 1,
{
    let op = toks[0];
    if is_class2(op) {
        if toks.len() < 3 {
            Err(DecodeErrorView::InsufficientArguments(op))
        } else {
            let t1 = toks[toks.len() - 2];
            let t2 = toks[toks.len() - 1];
            match (spec_operand(t1), spec_operand(t2)) {
                (Some(d), Some(v)) => Ok(class2_instr(op, d, v)),
                (None, _) => Err(DecodeErrorView::MalformedOperand(t1)),
                (Some(_), None) => Err(DecodeErrorView::MalformedOperand(t2)),
            }
        }
    } else if is_class3(op) {
        if toks.len() < 4 {
            Err(DecodeErrorView::InsufficientArguments(op))
        } else {
            let t1 = toks[toks.len() - 3];
            let t2 = toks[toks.len() - 2];
            let t3 = toks[toks.len() - 1];
            match (spec_operand(t1), spec_operand(t2), spec_operand(t3)) {
                (Some(d), Some(a), Some(b)) => Ok(class3_instr(op, d, a, b)),
                (None, _, _) => Err(DecodeErrorView::MalformedOperand(t1)),
                (Some(_), None, _) => Err(DecodeErrorView::MalformedOperand(t2)),
                (Some(_), Some(_), None) => Err(DecodeErrorView::MalformedOperand(t3)),
            }
        }
    } else {
        Err(DecodeErrorView::Unrecognized(op))
    }
}

/// Character-by-character string equality.
fn str_eq(a: &str, b: &str) -> (r: bool)
    ensures
        r == (a@ == b@),
{
    let n: usize = a.unicode_len();
    let m: usize = b.unicode_len();
    if n != m {
        return false;
    }
    let mut i: usize = 0;
    while i < n
        invariant
            i <= n,
            n == a@.len(),
            n == b@.len(),
            forall|k: int| 0 <= k < i ==> a@[k] == b@[k],
        decreases n - i,
    {
        if a.get_char(i) != b.get_char(i) {
            return false;
        }
        i = i + 1;
    }
    proof {
        assert(a@ =~= b@);
    }
    true
}

/// Decode one token list into an instruction. The first token must exist:
/// tokenizing any line, even an empty one, yields at least one token.
pub fn to_instr(v: &Vec<&str>) -> (r: Result<INSTR, DecodeError>)
    requires
        v@.len() >= 1,
    ensures
        decode_result_view(r) == spec_decode(v.deep_view()),
{
    proof {
        assert(forall|k: int| 0 <= k < v@.len() ==> v.deep_view()[k] == v@[k]@);
    }
    let op: &str = v[0];
    if str_eq(op, "mov") || str_eq(op, "movi") || str_eq(op, "addi") || str_eq(op, "subi") {
        if v.len() < 3 {
            return Err(DecodeError::InsufficientArguments(op.to_owned()));
        }
        let t1: &str = v[v.len() - 2];
        let t2: &str = v[v.len() - 1];
        match parse_operand(t1) {
            None => Err(DecodeError::MalformedOperand(t1.to_owned())),
            Some(d) => match parse_operand(t2) {
                None => Err(DecodeError::MalformedOperand(t2.to_owned())),
                Some(val) => {
                    if str_eq(op, "mov") {
                        Ok(INSTR::MOV(d, val))
                    } else if str_eq(op, "movi") {
                        Ok(INSTR::MOVI(d, val))
                    } else if str_eq(op, "addi") {
                        Ok(INSTR::ADDI(d, val))
                    } else {
                        Ok(INSTR::SUBI(d, val))
                    }
                },
            },
        }
    } else if str_eq(op, "add") || str_eq(op, "addr") || str_eq(op, "sub") || str_eq(op, "subr") {
        if v.len() < 4 {
            return Err(DecodeError::InsufficientArguments(op.to_owned()));
        }
        let t1: &str = v[v.len() - 3];
        let t2: &str = v[v.len() - 2];
        let t3: &str = v[v.len() - 1];
        match parse_operand(t1) {
            None => Err(DecodeError::MalformedOperand(t1.to_owned())),
            Some(d) => match parse_operand(t2) {
                None => Err(DecodeError::MalformedOperand(t2.to_owned())),
                Some(a) => match parse_operand(t3) {
                    None => Err(DecodeError::MalformedOperand(t3.to_owned())),
                    Some(b) => {
                        if str_eq(op, "add") {
                            Ok(INSTR::ADD(d, a, b))
                        } else if str_eq(op, "sub") {
                            Ok(INSTR::SUB(d, a, b))
                        } else if str_eq(op, "addr") {
                            Ok(INSTR::ADDR(d, a, b))
                        } else {
                            Ok(INSTR::SUBR(d, a, b))
                        }
                    },
                },
            },
        }
    } else {
        Err(DecodeError::Unrecognized(op.to_owned()))
    }
}

/// What decoding one source line yields.
pub open spec fn spec_decode_line(s: Seq<char>) -> Result<INSTR, DecodeErrorView> {
    spec_decode(spec_tokenize(s))
}

/// Decode one source line: tokenize it, then decode the token list.
pub fn decode_line(line: &str) -> (r: Result<INSTR, DecodeError>)
    ensures
        decode_result_view(r) == spec_decode_line(line@),
{
    let tokens = split_line(line);
    to_instr(&tokens)
}

/// Decode a whole program, one entry per line: a failing line contributes
/// its error at its original position, it never stops the lines after it.
pub fn decode_program(lines: &Vec<String>) -> (r: Vec<Result<INSTR, DecodeError>>)
    ensures
        r@.len() == lines@.len(),
        forall|i: int|
            0 <= i < lines@.len() ==> decode_result_view(r@[i]) == spec_decode_line(lines@[i]@),
{
    let mut out: Vec<Result<INSTR, DecodeError>> = Vec::new();
    let mut i: usize = 0;
    while i < lines.len()
        invariant
            i <= lines@.len(),
            out@.len() == i,
            forall|k: int|
                0 <= k < i ==> decode_result_view(out@[k]) == spec_decode_line(lines@[k]@),
        decreases lines@.len() - i,
    {
        let r = decode_line(lines[i].as_str());
        out.push(r);
        i = i + 1;
    }
    out
}

// ---------------------------------------------------------------------------
// Laws of the decoder.
// ---------------------------------------------------------------------------

proof fn lemma_mnemonic_no_space(op: Seq<char>)
    requires
        is_class2(op) || is_class3(op),
    ensures
        forall|i: int| 0 <= i < op.len() ==> op[i] != ' ',
{
    reveal_strlit("mov");
    reveal_strlit("movi");
    reveal_strlit("addi");
    reveal_strlit("subi");
    reveal_strlit("add");
    reveal_strlit("addr");
    reveal_strlit("sub");
    reveal_strlit("subr");
    assert forall|i: int| 0 <= i < op.len() implies op[i] != ' ' by {
        if op == "mov"@ {
            assert(op[i] != ' ');
        } else if op == "movi"@ {
            assert(op[i] != ' ');
        } else if op == "addi"@ {
            assert(op[i] != ' ');
        } else if op == "subi"@ {
            assert(op[i] != ' ');
        } else if op == "add"@ {
            assert(op[i] != ' ');
        } else if op == "addr"@ {
            assert(op[i] != ' ');
        } else if op == "sub"@ {
            assert(op[i] != ' ');
        } else {
            assert(op == "subr"@);
            assert(op[i] != ' ');
        }
    }
}

proof fn lemma_operand_no_space(t: Seq<char>)
    requires
        spec_operand(t) is Some,
        t[0] != ' ',
    ensures
        forall|i: int| 0 <= i < t.len() ==> t[i] != ' ',
{
    assert forall|i: int| 0 <= i < t.len() implies t[i] != ' ' by {
        if i > 0 {
            assert(is_digit(t.skip(1)[i - 1]));
            assert(t.skip(1)[i - 1] == t[i]);
        }
    }
}

/// The eight mnemonics are pairwise distinct: each pair differs in length
/// or in a character.
proof fn lemma_mnemonics_distinct()
    ensures
        "mov"@ != "movi"@ && "mov"@ != "addi"@ && "mov"@ != "subi"@ && "mov"@ != "add"@ && "mov"@
            != "addr"@ && "mov"@ != "sub"@ && "mov"@ != "subr"@,
        "movi"@ != "addi"@ && "movi"@ != "subi"@ && "movi"@ != "add"@ && "movi"@ != "addr"@
            && "movi"@ != "sub"@ && "movi"@ != "subr"@,
        "addi"@ != "subi"@ && "addi"@ != "add"@ && "addi"@ != "addr"@ && "addi"@ != "sub"@
            && "addi"@ != "subr"@,
        "subi"@ != "add"@ && "subi"@ != "addr"@ && "subi"@ != "sub"@ && "subi"@ != "subr"@,
        "add"@ != "addr"@ && "add"@ != "sub"@ && "add"@ != "subr"@,
        "addr"@ != "sub"@ && "addr"@ != "subr"@,
        "sub"@ != "subr"@,
{
    reveal_strlit("mov");
    reveal_strlit("movi");
    reveal_strlit("addi");
    reveal_strlit("subi");
    reveal_strlit("add");
    reveal_strlit("addr");
    reveal_strlit("sub");
    reveal_strlit("subr");
    assert("mov"@.len() == 3 && "add"@.len() == 3 && "sub"@.len() == 3);
    assert("movi"@.len() == 4 && "addi"@.len() == 4 && "subi"@.len() == 4 && "addr"@.len() == 4
        && "subr"@.len() == 4);
    assert("mov"@[0] == 'm' && "add"@[0] == 'a' && "sub"@[0] == 's');
    assert("movi"@[0] == 'm' && "addi"@[0] == 'a' && "subi"@[0] == 's' && "addr"@[0] == 'a'
        && "subr"@[0] == 's');
    assert("addi"@[3] == 'i' && "subi"@[3] == 'i' && "addr"@[3] == 'r' && "subr"@[3] == 'r');
    assert("addi"@[1] == 'd' && "addr"@[1] == 'd' && "subi"@[1] == 'u' && "subr"@[1] == 'u');
}

/// A token without spaces, a space, and the rest: the token comes off the
/// front and the rest tokenizes on its own.
proof fn lemma_tokenize_join(a: Seq<char>, rest: Seq<char>)
    requires
        forall|i: int| 0 <= i < a.len() ==> a[i] != ' ',
    ensures
        spec_tokenize(a + seq![' '] + rest) =~~= seq![a] + spec_tokenize(rest),
{
    let s = a + seq![' '] + rest;
    assert(s[a.len() as int] == ' ');
    assert(forall|i: int| 0 <= i < a.len() ==> s[i] == a[i]);
    lemma_tokenize_split(s, a.len() as int);
    assert(s.subrange(0, a.len() as int) =~= a);
    assert(s.skip(a.len() as int + 1) =~= rest);
}

/// Law: every valid class-2 line `<op> r<D> <V>`, the last operand a
/// register or an immediate token, decodes to the variant `<op>` names,
/// carrying `(D, V)` in textual order.
pub proof fn lemma_decode_class2_line(op: Seq<char>, t1: Seq<char>, t2: Seq<char>, d: u32, v: u32)
    requires
        is_class2(op),
        spec_operand(t1) == Some(d),
        spec_operand(t2) == Some(v),
        t1[0] == 'r',
        t2[0] == 'r' || t2[0] == '#',
    ensures
        spec_decode_line(op + seq![' '] + t1 + seq![' '] + t2) == Ok::<INSTR, DecodeErrorView>(
            class2_instr(op, d, v),
        ),
{
    lemma_mnemonic_no_space(op);
    lemma_operand_no_space(t1);
    lemma_operand_no_space(t2);
    let line = op + seq![' '] + t1 + seq![' '] + t2;
    assert(line =~= op + seq![' '] + (t1 + seq![' '] + t2));
    lemma_tokenize_join(op, t1 + seq![' '] + t2);
    lemma_tokenize_join(t1, t2);
    lemma_tokenize_no_space(t2);
    let toks = spec_tokenize(line);
    assert(toks =~~= seq![op, t1, t2]);
}

/// Law: every valid class-3 line `<op> r<D> <A> <B>` decodes to the variant
/// `<op>` names, carrying `(D, A, B)` in textual order, whether `<A>` and
/// `<B>` are register or immediate tokens.
pub proof fn lemma_decode_class3_line(
    op: Seq<char>,
    t1: Seq<char>,
    t2: Seq<char>,
    t3: Seq<char>,
    d: u32,
    a: u32,
    b: u32,
)
    requires
        is_class3(op),
        spec_operand(t1) == Some(d),
        spec_operand(t2) == Some(a),
        spec_operand(t3) == Some(b),
        t1[0] == 'r',
        t2[0] == 'r' || t2[0] == '#',
        t3[0] == 'r' || t3[0] == '#',
    ensures
        spec_decode_line(op + seq![' '] + t1 + seq![' '] + t2 + seq![' '] + t3) == Ok::<
            INSTR,
            DecodeErrorView,
        >(class3_instr(op, d, a, b)),
{
    lemma_mnemonic_no_space(op);
    lemma_operand_no_space(t1);
    lemma_operand_no_space(t2);
    lemma_operand_no_space(t3);
    let line = op + seq![' '] + t1 + seq![' '] + t2 + seq![' '] + t3;
    assert(line =~= op + seq![' '] + (t1 + seq![' '] + (t2 + seq![' '] + t3)));
    lemma_tokenize_join(op, t1 + seq![' '] + (t2 + seq![' '] + t3));
    assert(t1 + seq![' '] + t2 + seq![' '] + t3 =~= t1 + seq![' '] + (t2 + seq![' '] + t3));
    lemma_tokenize_join(t1, t2 + seq![' '] + t3);
    lemma_tokenize_join(t2, t3);
    lemma_tokenize_no_space(t3);
    let toks = spec_tokenize(line);
    assert(toks =~~= seq![op, t1, t2, t3]);
    assert(toks.len() == 4);
    // No class-3 mnemonic is also class-2, so decoding takes the class-3 path.
    lemma_mnemonics_distinct();
    assert(!is_class2(op));
}

/// Law: decoding is injective over the mnemonic — token lists with distinct
/// first tokens never decode to the same instruction.
pub proof fn lemma_decode_injective(t1: Seq<Seq<char>>, t2: Seq<Seq<char>>, i1: INSTR, i2: INSTR)
    requires
        t1.len() >= 1,
        t2.len() >= 1,
        t1[0] != t2[0],
        spec_decode(t1) == Ok::<INSTR, DecodeErrorView>(i1),
        spec_decode(t2) == Ok::<INSTR, DecodeErrorView>(i2),
    ensures
        i1 != i2,
{
    lemma_mnemonics_distinct();
}

/// Law: an unknown mnemonic fails with an "unrecognized instruction" error
/// naming the offending token.
pub proof fn lemma_decode_unknown(toks: Seq<Seq<char>>)
    requires
        toks.len() >= 1,
        !is_class2(toks[0]),
        !is_class3(toks[0]),
    ensures
        spec_decode(toks) == Err::<INSTR, DecodeErrorView>(
            DecodeErrorView::Unrecognized(toks[0]),
        ),
{
}

/// Law: fewer operand tokens than the mnemonic's arity asks fails with an
/// "insufficient arguments" error naming the mnemonic.
pub proof fn lemma_decode_insufficient(toks: Seq<Seq<char>>)
    requires
        toks.len() >= 1,
        (is_class2(toks[0]) && toks.len() < 3) || (is_class3(toks[0]) && toks.len() < 4),
    ensures
        spec_decode(toks) == Err::<INSTR, DecodeErrorView>(
            DecodeErrorView::InsufficientArguments(toks[0]),
        ),
{
    lemma_mnemonics_distinct();
    assert(!(is_class2(toks[0]) && is_class3(toks[0])));
}

} // verus!
