//! The revision-check interpreter: a server-supplied formula is parsed
//! into register initializations and an instruction list, then run over
//! every 32-bit word of each file, padded to a 1024-byte boundary.  The
//! archive version number selects the constant mixed into register A
//! before any file is processed; the final value of register A is the
//! checksum.
use vstd::prelude::*;
use vstd::string::*;

use crate::mpq::all_digits;
use crate::mpq::digits_value;
use crate::mpq::find_first;
use crate::mpq::is_digit;
use crate::mpq::lemma_digits_suffix_grows;
use crate::mpq::lemma_digits_take_step;
use crate::AuthError;

verus! {

/// A register of the formula machine, or the current file word `S`.
#[derive(Clone, Copy, Debug, PartialEq, Eq, Structural)]
pub enum Operand {
    RegA,
    RegB,
    RegC,
    FileWord,
}

/// An operator the formula machine can apply.
#[derive(Clone, Copy, Debug, PartialEq, Eq, Structural)]
pub enum OpCode {
    Add,
    Sub,
    Xor,
}

/// One assignment instruction `dest = lhs op rhs`.
#[derive(Clone, Copy, Debug, PartialEq, Eq, Structural)]
pub struct Instruction {
    pub dest: Operand,
    pub lhs: Operand,
    pub op: OpCode,
    pub rhs: Operand,
}

/// A parsed formula: initial register values and the instruction list.
pub struct RevisionFormula {
    pub init_a: u32,
    pub init_b: u32,
    pub init_c: u32,
    pub instructions: Vec<Instruction>,
}

/// The mathematical model of a parsed formula.
pub struct FormulaV {
    pub a: u32,
    pub b: u32,
    pub c: u32,
    pub instrs: Seq<Instruction>,
}

impl View for RevisionFormula {
    type V = FormulaV;

    open spec fn view(&self) -> FormulaV {
        FormulaV { a: self.init_a, b: self.init_b, c: self.init_c, instrs: self.instructions@ }
    }
}

/// A classified formula token.
#[derive(Clone, Copy, Debug, PartialEq, Eq, Structural)]
pub enum Token {
    /// `X=number`: sets register 0, 1 or 2 (A, B or C).
    InitTok(u8, u32),
    /// A bare number: the declared instruction count.
    CountTok(u32),
    /// `D=XoY`: an assignment instruction.
    InstrTok(Instruction),
    /// Anything else.
    BadTok,
}

pub open spec fn dest_operand(c: char) -> Option<Operand> {
    if c == 'A' {
        Some(Operand::RegA)
    } else if c == 'B' {
        Some(Operand::RegB)
    } else if c == 'C' {
        Some(Operand::RegC)
    } else {
        None
    }
}

pub open spec fn dest_index(c: char) -> Option<u8> {
    if c == 'A' {
        Some(0u8)
    } else if c == 'B' {
        Some(1u8)
    } else if c == 'C' {
        Some(2u8)
    } else {
        None
    }
}

pub open spec fn src_operand(c: char) -> Option<Operand> {
    if c == 'A' {
        Some(Operand::RegA)
    } else if c == 'B' {
        Some(Operand::RegB)
    } else if c == 'C' {
        Some(Operand::RegC)
    } else if c == 'S' {
        Some(Operand::FileWord)
    } else {
        None
    }
}

pub open spec fn op_code(c: char) -> Option<OpCode> {
    if c == '+' {
        Some(OpCode::Add)
    } else if c == '-' {
        Some(OpCode::Sub)
    } else if c == '^' {
        Some(OpCode::Xor)
    } else {
        None
    }
}

/// Classifies one whitespace-delimited token of a formula.
pub open spec fn spec_classify(t: Seq<char>) -> Token {
    if t.len() == 5 && t[1] == '=' && dest_operand(t[0]) is Some && src_operand(t[2]) is Some
        && op_code(t[3]) is Some && src_operand(t[4]) is Some {
        Token::InstrTok(
            Instruction {
                dest: dest_operand(t[0]).unwrap(),
                lhs: src_operand(t[2]).unwrap(),
                op: op_code(t[3]).unwrap(),
                rhs: src_operand(t[4]).unwrap(),
            },
        )
    } else if t.len() >= 3 && t[1] == '=' && dest_index(t[0]) is Some && all_digits(t.skip(2))
        && digits_value(t.skip(2)) <= u32::MAX {
        Token::InitTok(dest_index(t[0]).unwrap(), digits_value(t.skip(2)) as u32)
    } else if t.len() >= 1 && all_digits(t) && digits_value(t) <= u32::MAX {
        Token::CountTok(digits_value(t) as u32)
    } else {
        Token::BadTok
    }
}

/// The whitespace-separated tokens of `s`.
pub open spec fn spec_tokens(s: Seq<char>) -> Seq<Seq<char>>
    decreases s.len(),
{
    let sp = find_first(s, ' ');
    if sp < 0 || sp >= s.len() {
        seq![s]
    } else {
        seq![s.take(sp)] + spec_tokens(s.skip(sp + 1))
    }
}

/// Parses a run of instruction tokens.
pub open spec fn parse_instrs(toks: Seq<Seq<char>>) -> Option<Seq<Instruction>>
    decreases toks.len(),
{
    if toks.len() == 0 {
        Some(Seq::empty())
    } else {
        match spec_classify(toks[0]) {
            Token::InstrTok(ins) => match parse_instrs(toks.drop_first()) {
                Some(rest) => Some(seq![ins] + rest),
                None => None,
            },
            _ => None,
        }
    }
}

/// Parses a token list: register initializations, then a count that must
/// equal the number of instruction tokens that follow.
pub open spec fn parse_from(toks: Seq<Seq<char>>, a: u32, b: u32, c: u32) -> Option<FormulaV>
    decreases toks.len(),
{
    if toks.len() == 0 {
        None
    } else {
        match spec_classify(toks[0]) {
            Token::InitTok(r, v) => parse_from(
                toks.drop_first(),
                if r == 0 {
                    v
                } else {
                    a
                },
                if r == 1 {
                    v
                } else {
                    b
                },
                if r == 2 {
                    v
                } else {
                    c
                },
            ),
            Token::CountTok(n) => if toks.len() - 1 == n {
                match parse_instrs(toks.drop_first()) {
                    Some(ins) => Some(FormulaV { a, b, c, instrs: ins }),
                    None => None,
                }
            } else {
                None
            },
            _ => None,
        }
    }
}

/// The parsed form of a whole formula string, if it is well-formed.
pub open spec fn spec_parse_formula(s: Seq<char>) -> Option<FormulaV> {
    parse_from(spec_tokens(s), 0u32, 0u32, 0u32)
}

/// The hashing constant selected by an archive version number.
pub open spec fn spec_mpq_seed(n: u32) -> Option<u32> {
    if n == 0 {
        Some(0xE7F4CB62u32)
    } else if n == 1 {
        Some(0xF6A14FFCu32)
    } else if n == 2 {
        Some(0xAA5504AFu32)
    } else if n == 3 {
        Some(0x871FCDC2u32)
    } else if n == 4 {
        Some(0x11BF6A18u32)
    } else if n == 5 {
        Some(0xC57292E6u32)
    } else if n == 6 {
        Some(0x7927D27Eu32)
    } else if n == 7 {
        Some(0x2FEC8733u32)
    } else {
        None
    }
}

/// The views of a sequence of byte vectors.
pub open spec fn views_of_bytes(v: Seq<Vec<u8>>) -> Seq<Seq<u8>> {
    Seq::new(v.len(), |i: int| v[i]@)
}

/// The views of a sequence of token vectors.
pub open spec fn views_of_tokens(v: Seq<Vec<char>>) -> Seq<Seq<char>> {
    Seq::new(v.len(), |i: int| v[i]@)
}

/// The file length rounded up to a 1024-byte boundary.
pub open spec fn padded_len(len: nat) -> nat {
    if len % 1024 == 0 {
        len
    } else {
        (len + (1024 - (len % 1024))) as nat
    }
}

/// Byte `j` of the padded file: file data, then 0xFF filler.
pub open spec fn padded_byte(data: Seq<u8>, j: int) -> u8 {
    if 0 <= j < data.len() {
        data[j]
    } else {
        0xFFu8
    }
}

/// Little-endian word `w` of the padded file.
pub open spec fn file_word(data: Seq<u8>, w: int) -> u32 {
    (padded_byte(data, 4 * w) as u32) | ((padded_byte(data, 4 * w + 1) as u32) << 8) | ((
    padded_byte(data, 4 * w + 2) as u32) << 16) | ((padded_byte(data, 4 * w + 3) as u32) << 24)
}

/// Number of 32-bit words of the padded file.
pub open spec fn word_count(len: nat) -> int {
    padded_len(len) as int / 4
}

pub open spec fn operand_value(regs: (u32, u32, u32), s_val: u32, o: Operand) -> u32 {
    match o {
        Operand::RegA => regs.0,
        Operand::RegB => regs.1,
        Operand::RegC => regs.2,
        Operand::FileWord => s_val,
    }
}

pub open spec fn apply_op(o: OpCode, x: u32, y: u32) -> u32 {
    match o {
        OpCode::Add => x.wrapping_add(y),
        OpCode::Sub => x.wrapping_sub(y),
        OpCode::Xor => x ^ y,
    }
}

pub open spec fn store_dest(regs: (u32, u32, u32), o: Operand, v: u32) -> (u32, u32, u32) {
    match o {
        Operand::RegA => (v, regs.1, regs.2),
        Operand::RegB => (regs.0, v, regs.2),
        Operand::RegC => (regs.0, regs.1, v),
        Operand::FileWord => regs,
    }
}

/// One instruction applied to the register file.
pub open spec fn step_instr(regs: (u32, u32, u32), s_val: u32, ins: Instruction) -> (
    u32,
    u32,
    u32,
) {
    store_dest(
        regs,
        ins.dest,
        apply_op(
            ins.op,
            operand_value(regs, s_val, ins.lhs),
            operand_value(regs, s_val, ins.rhs),
        ),
    )
}

/// The register file after the first `k` instructions.
pub open spec fn run_instrs(
    regs: (u32, u32, u32),
    s_val: u32,
    instrs: Seq<Instruction>,
    k: int,
) -> (u32, u32, u32)
    decreases k,
{
    if k <= 0 {
        regs
    } else {
        step_instr(run_instrs(regs, s_val, instrs, k - 1), s_val, instrs[k - 1])
    }
}

/// The register file after the whole instruction list has run over the
/// first `w` words of the padded file.
pub open spec fn run_words(
    regs: (u32, u32, u32),
    data: Seq<u8>,
    instrs: Seq<Instruction>,
    w: int,
) -> (u32, u32, u32)
    decreases w,
{
    if w <= 0 {
        regs
    } else {
        run_instrs(
            run_words(regs, data, instrs, w - 1),
            file_word(data, w - 1),
            instrs,
            instrs.len() as int,
        )
    }
}

/// The register file after the first `i` files have been processed.
pub open spec fn run_files(
    regs: (u32, u32, u32),
    files: Seq<Seq<u8>>,
    instrs: Seq<Instruction>,
    i: int,
) -> (u32, u32, u32)
    decreases i,
{
    if i <= 0 {
        regs
    } else {
        run_words(
            run_files(regs, files, instrs, i - 1),
            files[i - 1],
            instrs,
            word_count(files[i - 1].len()),
        )
    }
}

/// The checksum of a parsed formula over the given file contents, or
/// `None` when the archive version number is unsupported.
pub open spec fn spec_evaluate(f: FormulaV, files: Seq<Seq<u8>>, mpq: u32) -> Option<u64> {
    match spec_mpq_seed(mpq) {
        Some(seed) => {
            let fin = run_files((f.a ^ seed, f.b, f.c), files, f.instrs, files.len() as int);
            Some(fin.0 as u64)
        },
        None => None,
    }
}

/// The checksum of a formula string over the given file contents.
pub open spec fn spec_check_revision(s: Seq<char>, files: Seq<Seq<u8>>, mpq: u32) -> Result<
    u64,
    AuthError,
> {
    match spec_parse_formula(s) {
        Some(f) => match spec_evaluate(f, files, mpq) {
            Some(v) => Ok(v),
            None => Err(AuthError::UnsupportedArchiveVersion),
        },
        None => Err(AuthError::FormulaParseError),
    }
}

/// Returns the hashing constant for an archive version number, or `None`
/// for an unsupported version.
pub fn mpq_seed(n: u32) -> (r: Option<u32>)
    ensures
        r == spec_mpq_seed(n),
{
    if n == 0 {
        Some(0xE7F4CB62)
    } else if n == 1 {
        Some(0xF6A14FFC)
    } else if n == 2 {
        Some(0xAA5504AF)
    } else if n == 3 {
        Some(0x871FCDC2)
    } else if n == 4 {
        Some(0x11BF6A18)
    } else if n == 5 {
        Some(0xC57292E6)
    } else if n == 6 {
        Some(0x7927D27E)
    } else if n == 7 {
        Some(0x2FEC8733)
    } else {
        None
    }
}

fn dest_operand_exec(c: char) -> (r: Option<Operand>)
    ensures
        r == dest_operand(c),
{
    if c == 'A' {
        Some(Operand::RegA)
    } else if c == 'B' {
        Some(Operand::RegB)
    } else if c == 'C' {
        Some(Operand::RegC)
    } else {
        None
    }
}

fn dest_index_exec(c: char) -> (r: Option<u8>)
    ensures
        r == dest_index(c),
{
    if c == 'A' {
        Some(0u8)
    } else if c == 'B' {
        Some(1u8)
    } else if c == 'C' {
        Some(2u8)
    } else {
        None
    }
}

fn src_operand_exec(c: char) -> (r: Option<Operand>)
    ensures
        r == src_operand(c),
{
    if c == 'A' {
        Some(Operand::RegA)
    } else if c == 'B' {
        Some(Operand::RegB)
    } else if c == 'C' {
        Some(Operand::RegC)
    } else if c == 'S' {
        Some(Operand::FileWord)
    } else {
        None
    }
}

fn op_code_exec(c: char) -> (r: Option<OpCode>)
    ensures
        r == op_code(c),
{
    if c == '+' {
        Some(OpCode::Add)
    } else if c == '-' {
        Some(OpCode::Sub)
    } else if c == '^' {
        Some(OpCode::Xor)
    } else {
        None
    }
}

/// Parses the decimal digits of `t` from position `from` to the end.
#[verifier::loop_isolation(false)]
fn parse_digits_from(t: &Vec<char>, from: usize) -> (r: Option<u32>)
    requires
        from <= t@.len(),
    ensures
        ({
            let seg = t@.skip(from as int);
            if seg.len() > 0 && all_digits(seg) && digits_value(seg) <= u32::MAX {
                r == Some(digits_value(seg) as u32)
            } else {
                r is None
            }
        }),
{
    let n = t.len();
    if from == n {
        return None;
    }
    let ghost seg = t@.skip(from as int);
    let mut val: u64 = 0;
    let mut k: usize = 0;
    while k < n - from
        invariant
            k <= seg.len(),
            all_digits(seg.take(k as int)),
            val == digits_value(seg.take(k as int)),
            val <= u32::MAX,
        decreases n - from - k,
    {
        let c = t[from + k];
        assert(seg[k as int] == t@[from + k]);
        let cv = c as u32;
        if cv < 48 || cv > 57 {
            assert(!is_digit(seg[k as int]));
            return None;
        }
        proof {
            lemma_digits_take_step(seg, k as int);
        }
        val = val * 10 + (cv - 48) as u64;
        k += 1;
        if val > u32::MAX as u64 {
            proof {
                if all_digits(seg) {
                    lemma_digits_suffix_grows(seg, k as int);
                }
            }
            return None;
        }
    }
    assert(seg.take(seg.len() as int) =~= seg);
    Some(val as u32)
}

/// Classifies one token.
fn classify_token(t: &Vec<char>) -> (r: Token)
    ensures
        r == spec_classify(t@),
{
    let n = t.len();
    if n == 5 && t[1] == '=' {
        let d = dest_operand_exec(t[0]);
        let l = src_operand_exec(t[2]);
        let o = op_code_exec(t[3]);
        let rr = src_operand_exec(t[4]);
        if d.is_some() && l.is_some() && o.is_some() && rr.is_some() {
            return Token::InstrTok(
                Instruction { dest: d.unwrap(), lhs: l.unwrap(), op: o.unwrap(), rhs: rr.unwrap() },
            );
        }
    }
    if n >= 2 && t[1] == '=' {
        assert(!is_digit(t@[1]));
        assert(!all_digits(t@));
        if n >= 3 {
            if let Some(ri) = dest_index_exec(t[0]) {
                if let Some(v) = parse_digits_from(t, 2) {
                    return Token::InitTok(ri, v);
                }
            }
        }
        return Token::BadTok;
    }
    match parse_digits_from(t, 0) {
        Some(v) => {
            assert(t@.skip(0) =~= t@);
            Token::CountTok(v)
        },
        None => {
            assert(t@.skip(0) =~= t@);
            Token::BadTok
        },
    }
}

/// Collects the characters of `s` between two positions.
#[verifier::loop_isolation(false)]
fn collect_range(s: &str, from: usize, to: usize) -> (r: Vec<char>)
    requires
        from <= to <= s@.len(),
    ensures
        r@ == s@.subrange(from as int, to as int),
{
    let mut tv: Vec<char> = Vec::new();
    let mut q: usize = from;
    assert(tv@ =~= s@.subrange(from as int, from as int));
    while q < to
        invariant
            from <= q <= to,
            tv@ == s@.subrange(from as int, q as int),
        decreases to - q,
    {
        tv.push(s.get_char(q));
        proof {
            assert(s@.subrange(from as int, q + 1) =~= s@.subrange(from as int, q as int).push(
                s@[q as int],
            ));
        }
        q += 1;
    }
    tv
}

/// Splits `s` into its space-separated tokens.
#[verifier::loop_isolation(false)]
fn tokenize(s: &str) -> (r: Vec<Vec<char>>)
    ensures
        views_of_tokens(r@) == spec_tokens(s@),
{
    let n = s.unicode_len();
    let mut res: Vec<Vec<char>> = Vec::new();
    let mut pos: usize = 0;
    assert(s@.skip(0) =~= s@);
    assert(views_of_tokens(res@) + spec_tokens(s@.skip(0)) =~= spec_tokens(s@));
    loop
        invariant
            pos <= n,
            spec_tokens(s@) == views_of_tokens(res@) + spec_tokens(s@.skip(pos as int)),
        decreases n - pos,
    {
        let ghost rest = s@.skip(pos as int);
        proof {
            crate::mpq::lemma_find_first(rest, ' ');
            assert(forall|j: int| 0 <= j < rest.len() ==> (#[trigger] rest[j]) == s@[pos + j]);
        }
        // Scan for the next space; `sp == n` means none.
        let mut k: usize = pos;
        let mut sp: usize = n;
        while k < n && sp == n
            invariant
                pos <= k <= n,
                pos <= sp <= n,
                sp == n ==> forall|j: int| pos <= j < k ==> (#[trigger] s@[j]) != ' ',
                sp < n ==> s@[sp as int] == ' ' && forall|j: int|
                    pos <= j < sp ==> (#[trigger] s@[j]) != ' ',
            decreases n - k,
        {
            let c = s.get_char(k);
            if c == ' ' {
                sp = k;
            }
            k += 1;
        }
        if sp == n {
            // Last token: the rest of the string.
            assert(find_first(rest, ' ') == -1);
            let tv = collect_range(s, pos, n);
            assert(tv@ =~= rest);
            res.push(tv);
            proof {
                assert(views_of_tokens(res@) =~= views_of_tokens(res@.drop_last()).push(rest));
                assert(spec_tokens(rest) =~= seq![rest]);
                assert(views_of_tokens(res@.drop_last()) + spec_tokens(rest)
                    =~= views_of_tokens(res@));
            }
            return res;
        }
        // Token before the space at `sp`.
        assert(rest[sp - pos] == s@[sp as int]);
        assert(find_first(rest, ' ') == sp - pos);
        let tv = collect_range(s, pos, sp);
        proof {
            assert(tv@ =~= rest.take(sp - pos));
            assert(rest.skip(sp - pos + 1) =~= s@.skip(sp + 1));
            assert(spec_tokens(rest) == seq![rest.take(sp - pos)] + spec_tokens(s@.skip(sp + 1)));
        }
        res.push(tv);
        proof {
            assert(views_of_tokens(res@) =~= views_of_tokens(res@.drop_last()).push(tv@));
            assert(views_of_tokens(res@.drop_last()) + spec_tokens(rest) =~= views_of_tokens(res@)
                + spec_tokens(s@.skip(sp + 1)));
        }
        pos = sp + 1;
    }
}

/// Parses the token list starting at position `i`, with the register
/// initializations seen so far.
#[verifier::loop_isolation(false)]
fn parse_from_exec(toks: &Vec<Vec<char>>, i: usize, a: u32, b: u32, c: u32) -> (r: Option<
    RevisionFormula,
>)
    requires
        i <= toks@.len(),
    ensures
        ({
            let m = parse_from(views_of_tokens(toks@).skip(i as int), a, b, c);
            match r {
                Some(f) => m == Some(f@),
                None => m is None,
            }
        }),
    decreases toks@.len() - i,
{
    let ghost tv = views_of_tokens(toks@);
    if i == toks.len() {
        assert(tv.skip(i as int) =~= Seq::<Seq<char>>::empty());
        return None;
    }
    let tok = classify_token(&toks[i]);
    proof {
        assert(tv.skip(i as int)[0] == tv[i as int]);
        assert(tv.skip(i as int).drop_first() =~= tv.skip(i as int + 1));
    }
    match tok {
        Token::InitTok(ri, v) => {
            let na = if ri == 0 {
                v
            } else {
                a
            };
            let nb = if ri == 1 {
                v
            } else {
                b
            };
            let nc = if ri == 2 {
                v
            } else {
                c
            };
            parse_from_exec(toks, i + 1, na, nb, nc)
        },
        Token::CountTok(cnt) => {
            if toks.len() - i - 1 == cnt as usize {
                let mut ins: Vec<Instruction> = Vec::new();
                let mut j: usize = i + 1;
                assert(parse_instrs(tv.skip(i as int + 1)) == match parse_instrs(
                    tv.skip(j as int),
                ) {
                    Some(rs) => Some(ins@ + rs),
                    None => None::<Seq<Instruction>>,
                }) by {
                    if parse_instrs(tv.skip(j as int)) is Some {
                        assert(ins@ + parse_instrs(tv.skip(j as int)).unwrap() =~= parse_instrs(
                            tv.skip(j as int),
                        ).unwrap());
                    }
                };
                while j < toks.len()
                    invariant
                        i + 1 <= j <= toks@.len(),
                        ({
                            let whole = parse_instrs(tv.skip(i as int + 1));
                            match parse_instrs(tv.skip(j as int)) {
                                Some(rs) => whole == Some(ins@ + rs),
                                None => whole is None,
                            }
                        }),
                    decreases toks@.len() - j,
                {
                    let t2 = classify_token(&toks[j]);
                    proof {
                        assert(tv.skip(j as int)[0] == tv[j as int]);
                        assert(tv.skip(j as int).drop_first() =~= tv.skip(j as int + 1));
                    }
                    match t2 {
                        Token::InstrTok(one) => {
                            proof {
                                if parse_instrs(tv.skip(j as int + 1)) is Some {
                                    assert(ins@ + (seq![one] + parse_instrs(
                                        tv.skip(j as int + 1),
                                    ).unwrap()) =~= ins@.push(one) + parse_instrs(
                                        tv.skip(j as int + 1),
                                    ).unwrap());
                                }
                            }
                            ins.push(one);
                        },
                        _ => {
                            return None;
                        },
                    }
                    j += 1;
                }
                assert(tv.skip(toks@.len() as int) =~= Seq::<Seq<char>>::empty());
                assert(parse_instrs(tv.skip(i as int + 1)) == Some(ins@)) by {
                    assert(ins@ + Seq::<Instruction>::empty() =~= ins@);
                };
                let f = RevisionFormula { init_a: a, init_b: b, init_c: c, instructions: ins };
                assert(parse_from(tv.skip(i as int), a, b, c) == Some(f@));
                Some(f)
            } else {
                None
            }
        },
        _ => None,
    }
}

/// Parses a whole formula string.
pub fn parse_formula(s: &str) -> (r: Result<RevisionFormula, AuthError>)
    ensures
        match r {
            Ok(f) => spec_parse_formula(s@) == Some(f@),
            Err(e) => spec_parse_formula(s@) is None && e == AuthError::FormulaParseError,
        },
{
    let toks = tokenize(s);
    assert(views_of_tokens(toks@).skip(0) =~= views_of_tokens(toks@));
    match parse_from_exec(&toks, 0, 0, 0, 0) {
        Some(f) => Ok(f),
        None => Err(AuthError::FormulaParseError),
    }
}

proof fn lemma_padded_len_words(len: nat)
    ensures
        padded_len(len) % 4 == 0,
        padded_len(len) <= len + 1024,
{
    vstd::arithmetic::div_mod::lemma_fundamental_div_mod(len as int, 1024);
    let q = len as int / 1024;
    let r = len as int % 1024;
    if r == 0 {
        assert(len == 1024 * q);
        assert((1024 * q) % 4 == 0) by (nonlinear_arith);
    } else {
        assert(len + (1024 - r) == 1024 * (q + 1));
        assert((1024 * (q + 1)) % 4 == 0) by (nonlinear_arith);
    }
}

/// Runs a parsed formula over the given file contents.
#[verifier::loop_isolation(false)]
pub fn evaluate(formula: &RevisionFormula, files: &Vec<Vec<u8>>, mpq_number: u32) -> (r: Result<
    u64,
    AuthError,
>)
    requires
        forall|i: int| 0 <= i < files@.len() ==> (#[trigger] files@[i])@.len() + 1024 <= usize::MAX,
    ensures
        match spec_evaluate(formula@, views_of_bytes(files@), mpq_number) {
            Some(v) => r == Ok::<u64, AuthError>(v),
            None => r == Err::<u64, AuthError>(AuthError::UnsupportedArchiveVersion),
        },
{
    let seed = match mpq_seed(mpq_number) {
        Some(x) => x,
        None => {
            return Err(AuthError::UnsupportedArchiveVersion);
        },
    };
    let ghost fviews = views_of_bytes(files@);
    let ghost regs0 = ((formula.init_a ^ seed), formula.init_b, formula.init_c);
    let mut ra = formula.init_a ^ seed;
    let mut rb = formula.init_b;
    let mut rc = formula.init_c;
    let mut fi: usize = 0;
    while fi < files.len()
        invariant
            fi <= files@.len(),
            (ra, rb, rc) == run_files(regs0, fviews, formula@.instrs, fi as int),
        decreases files@.len() - fi,
    {
        let data = &files[fi];
        assert(data@ == fviews[fi as int]);
        assert(data@.len() + 1024 <= usize::MAX);
        let dlen = data.len();
        let r1024 = dlen % 1024;
        let pl: usize = if r1024 == 0 {
            dlen
        } else {
            dlen + (1024 - r1024)
        };
        assert(pl == padded_len(data@.len()));
        proof {
            lemma_padded_len_words(data@.len());
            vstd::arithmetic::div_mod::lemma_fundamental_div_mod(pl as int, 4);
        }
        let nw = pl / 4;
        assert(4 * nw == pl);
        assert(nw == word_count(data@.len()));
        let ghost wstart = (ra, rb, rc);
        let mut w: usize = 0;
        while w < nw
            invariant
                w <= nw,
                (ra, rb, rc) == run_words(wstart, data@, formula@.instrs, w as int),
            decreases nw - w,
        {
            let base = 4 * w;
            let b0 = if base < dlen {
                data[base]
            } else {
                0xFF
            };
            let b1 = if base + 1 < dlen {
                data[base + 1]
            } else {
                0xFF
            };
            let b2 = if base + 2 < dlen {
                data[base + 2]
            } else {
                0xFF
            };
            let b3 = if base + 3 < dlen {
                data[base + 3]
            } else {
                0xFF
            };
            let sval: u32 = (b0 as u32) | ((b1 as u32) << 8) | ((b2 as u32) << 16) | ((
            b3 as u32) << 24);
            assert(sval == file_word(data@, w as int));
            let ghost istart = (ra, rb, rc);
            let mut ii: usize = 0;
            while ii < formula.instructions.len()
                invariant
                    ii <= formula@.instrs.len(),
                    (ra, rb, rc) == run_instrs(istart, sval, formula@.instrs, ii as int),
                decreases formula@.instrs.len() - ii,
            {
                let ins = formula.instructions[ii];
                let x = match ins.lhs {
                    Operand::RegA => ra,
                    Operand::RegB => rb,
                    Operand::RegC => rc,
                    Operand::FileWord => sval,
                };
                let y = match ins.rhs {
                    Operand::RegA => ra,
                    Operand::RegB => rb,
                    Operand::RegC => rc,
                    Operand::FileWord => sval,
                };
                let v = match ins.op {
                    OpCode::Add => x.wrapping_add(y),
                    OpCode::Sub => x.wrapping_sub(y),
                    OpCode::Xor => x ^ y,
                };
                match ins.dest {
                    Operand::RegA => ra = v,
                    Operand::RegB => rb = v,
                    Operand::RegC => rc = v,
                    Operand::FileWord => (),
                };
                ii += 1;
                assert((ra, rb, rc) == run_instrs(istart, sval, formula@.instrs, ii as int));
            }
            w += 1;
            assert((ra, rb, rc) == run_words(wstart, data@, formula@.instrs, w as int));
        }
        fi += 1;
        assert((ra, rb, rc) == run_files(regs0, fviews, formula@.instrs, fi as int));
    }
    Ok(ra as u64)
}

/// Evaluates a formula string over an ordered list of file contents
/// (variable-arity mode).
pub fn check_revision(value: &str, files: &Vec<Vec<u8>>, mpq_number: u32) -> (r: Result<
    u64,
    AuthError,
>)
    requires
        files@.len() >= 1,
        forall|i: int| 0 <= i < files@.len() ==> (#[trigger] files@[i])@.len() + 1024 <= usize::MAX,
    ensures
        r == spec_check_revision(value@, views_of_bytes(files@), mpq_number),
{
    let f = match parse_formula(value) {
        Ok(f) => f,
        Err(e) => {
            return Err(e);
        },
    };
    evaluate(&f, files, mpq_number)
}

/// Evaluates a formula string over exactly three files: the executable
/// and its two support libraries (fixed three-file mode).
pub fn check_revision_flat(
    value: &str,
    file1: Vec<u8>,
    file2: Vec<u8>,
    file3: Vec<u8>,
    mpq_number: u32,
) -> (r: Result<u64, AuthError>)
    requires
        file1@.len() + 1024 <= usize::MAX,
        file2@.len() + 1024 <= usize::MAX,
        file3@.len() + 1024 <= usize::MAX,
    ensures
        r == spec_check_revision(value@, seq![file1@, file2@, file3@], mpq_number),
{
    let ghost s1 = file1@;
    let ghost s2 = file2@;
    let ghost s3 = file3@;
    let mut files: Vec<Vec<u8>> = Vec::new();
    files.push(file1);
    files.push(file2);
    files.push(file3);
    assert(views_of_bytes(files@) =~= seq![s1, s2, s3]);
    check_revision(value, &files, mpq_number)
}

/// Revision checking is deterministic: for a fixed formula, file list
/// and archive version, any two outcomes of the model are identical, in
/// one process or across restarts.
pub proof fn lemma_check_revision_deterministic(
    s: Seq<char>,
    files: Seq<Seq<u8>>,
    mpq: u32,
    r1: Result<u64, AuthError>,
    r2: Result<u64, AuthError>,
)
    requires
        r1 == spec_check_revision(s, files, mpq),
        r2 == spec_check_revision(s, files, mpq),
    ensures
        r1 == r2,
{
}

} // verus!
