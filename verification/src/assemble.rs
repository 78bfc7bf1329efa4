use crate::error::{error_model, Error, SError};
use crate::lex::{chars_of, string_of};
use vstd::prelude::*;

verus! {

// ---------------------------------------------------------------------
// Text primitives, as std's `str` methods behave on them.
// ---------------------------------------------------------------------

/// `char::is_whitespace`: the characters with Unicode's White_Space property.
pub open spec fn is_ws(c: char) -> bool {
    let u = c as u32;
    ||| 9 <= u <= 13
    ||| u == 32
    ||| u == 0x85
    ||| u == 0xA0
    ||| u == 0x1680
    ||| 0x2000 <= u <= 0x200A
    ||| u == 0x2028
    ||| u == 0x2029
    ||| u == 0x202F
    ||| u == 0x205F
    ||| u == 0x3000
}

/// The pieces of `s` between newlines, the last one possibly empty.
pub open spec fn split_lines(s: Seq<char>) -> Seq<Seq<char>>
    decreases s.len(),
{
    if s.len() == 0 {
        seq![Seq::empty()]
    } else {
        let p = split_lines(s.drop_last());
        if s.last() == '\n' {
            p.push(Seq::empty())
        } else {
            p.update(p.len() - 1, p.last().push(s.last()))
        }
    }
}

pub open spec fn trim_start(s: Seq<char>) -> Seq<char>
    decreases s.len(),
{
    if s.len() > 0 && is_ws(s[0]) {
        trim_start(s.skip(1))
    } else {
        s
    }
}

pub open spec fn trim_end(s: Seq<char>) -> Seq<char>
    decreases s.len(),
{
    if s.len() > 0 && is_ws(s.last()) {
        trim_end(s.drop_last())
    } else {
        s
    }
}

/// `str::trim`: leading and trailing whitespace removed.
pub open spec fn trim(s: Seq<char>) -> Seq<char> {
    trim_end(trim_start(s))
}

/// `str::trim_end_matches(c)`: every trailing `c` removed.
pub open spec fn strip_end(s: Seq<char>, c: char) -> Seq<char>
    decreases s.len(),
{
    if s.len() > 0 && s.last() == c {
        strip_end(s.drop_last(), c)
    } else {
        s
    }
}

/// `str::split_whitespace`: the maximal runs of non-whitespace characters.
pub open spec fn words(s: Seq<char>) -> Seq<Seq<char>>
    decreases s.len(),
{
    if s.len() == 0 {
        Seq::empty()
    } else {
        let w = words(s.drop_last());
        let c = s.last();
        if is_ws(c) {
            w
        } else if s.len() >= 2 && !is_ws(s[s.len() - 2]) {
            w.update(w.len() - 1, w.last().push(c))
        } else {
            w.push(seq![c])
        }
    }
}

/// The index of the first `c` in `s`, or -1.
pub open spec fn find_char(s: Seq<char>, c: char) -> int
    decreases s.len(),
{
    if s.len() == 0 {
        -1
    } else {
        let f = find_char(s.drop_last(), c);
        if f >= 0 {
            f
        } else if s.last() == c {
            s.len() - 1
        } else {
            -1
        }
    }
}

/// `t` occurs in `s`.
pub open spec fn has_sub(s: Seq<char>, t: Seq<char>) -> bool {
    exists|i: int| 0 <= i && i + t.len() <= s.len() && #[trigger] s.subrange(i, i + t.len()) == t
}

/// The index of the first occurrence of `x` in `d`, or -1.
pub open spec fn index_of(d: Seq<Seq<char>>, x: Seq<char>) -> int
    decreases d.len(),
{
    if d.len() == 0 {
        -1
    } else {
        let f = index_of(d.drop_last(), x);
        if f >= 0 {
            f
        } else if d.last() == x {
            d.len() - 1
        } else {
            -1
        }
    }
}

pub open spec fn is_digit(c: char) -> bool {
    48 <= (c as u32) <= 57
}

pub open spec fn digits_val(s: Seq<char>) -> nat
    decreases s.len(),
{
    if s.len() == 0 {
        0
    } else {
        digits_val(s.drop_last()) * 10 + ((s.last() as u32) - 48) as nat
    }
}

/// The text after an optional leading sign.
pub open spec fn unsigned_part(s: Seq<char>) -> Seq<char> {
    if s.len() > 0 && (s[0] == '-' || s[0] == '+') { s.skip(1) } else { s }
}

pub open spec fn all_digits(s: Seq<char>) -> bool {
    forall|i: int| 0 <= i < s.len() ==> is_digit(#[trigger] s[i])
}

/// `str::parse::<i16>`: an optional sign, then one or more decimal digits,
/// with a value in range.
pub open spec fn parse_i16(s: Seq<char>) -> Option<i16> {
    let ds = unsigned_part(s);
    if ds.len() == 0 || !all_digits(ds) {
        None
    } else {
        let v: int = if s[0] == '-' { -(digits_val(ds) as int) } else { digits_val(ds) as int };
        if i16::MIN <= v <= i16::MAX { Some(v as i16) } else { None }
    }
}

// ---------------------------------------------------------------------
// MIPS instructions.
// ---------------------------------------------------------------------

/// The registers the generated code uses.
#[allow(non_camel_case_types)]
#[derive(Clone, Copy, Debug, PartialEq, Eq, Structural)]
pub enum Reg {
    zero,
    sp,
    fp,
    ra,
    t0,
    t1,
    t2,
    t3,
    t4,
    t5,
    t6,
    t7,
}

/// A MIPS instruction. `Label(l)` is the no-op `addu zero, zero, zero`
/// carrying the label `l`; branches name their target label.
#[derive(Clone, Debug, PartialEq, Eq)]
pub enum Instr {
    Halt,
    Addi(Reg, Reg, i16),
    Addiu(Reg, Reg, i16),
    Add(Reg, Reg, Reg),
    Sub(Reg, Reg, Reg),
    And(Reg, Reg, Reg),
    Or(Reg, Reg, Reg),
    Slt(Reg, Reg, Reg),
    Sw(Reg, i16, Reg),
    Lw(Reg, i16, Reg),
    Beq(Reg, Reg, String),
    B(String),
    Bal(String),
    Jr(Reg),
    Label(String),
}

/// Model of an instruction: labels as character sequences.
pub enum SInstr {
    Halt,
    Addi(Reg, Reg, i16),
    Addiu(Reg, Reg, i16),
    Add(Reg, Reg, Reg),
    Sub(Reg, Reg, Reg),
    And(Reg, Reg, Reg),
    Or(Reg, Reg, Reg),
    Slt(Reg, Reg, Reg),
    Sw(Reg, i16, Reg),
    Lw(Reg, i16, Reg),
    Beq(Reg, Reg, Seq<char>),
    B(Seq<char>),
    Bal(Seq<char>),
    Jr(Reg),
    Label(Seq<char>),
}

pub open spec fn instr_model(i: Instr) -> SInstr {
    match i {
        Instr::Halt => SInstr::Halt,
        Instr::Addi(a, b, k) => SInstr::Addi(a, b, k),
        Instr::Addiu(a, b, k) => SInstr::Addiu(a, b, k),
        Instr::Add(a, b, c) => SInstr::Add(a, b, c),
        Instr::Sub(a, b, c) => SInstr::Sub(a, b, c),
        Instr::And(a, b, c) => SInstr::And(a, b, c),
        Instr::Or(a, b, c) => SInstr::Or(a, b, c),
        Instr::Slt(a, b, c) => SInstr::Slt(a, b, c),
        Instr::Sw(a, k, b) => SInstr::Sw(a, k, b),
        Instr::Lw(a, k, b) => SInstr::Lw(a, k, b),
        Instr::Beq(a, b, l) => SInstr::Beq(a, b, l@),
        Instr::B(l) => SInstr::B(l@),
        Instr::Bal(l) => SInstr::Bal(l@),
        Instr::Jr(a) => SInstr::Jr(a),
        Instr::Label(l) => SInstr::Label(l@),
    }
}

pub open spec fn instrs_model(v: Seq<Instr>) -> Seq<SInstr> {
    v.map_values(|i: Instr| instr_model(i))
}

// ---------------------------------------------------------------------
// The assembler over the models.
// ---------------------------------------------------------------------

/// The register a name denotes.
pub open spec fn reg_of(s: Seq<char>) -> Option<Reg> {
    if s == "sp"@ { Some(Reg::sp) }
    else if s == "fp"@ { Some(Reg::fp) }
    else if s == "ra"@ { Some(Reg::ra) }
    else if s == "t0"@ { Some(Reg::t0) }
    else if s == "t1"@ { Some(Reg::t1) }
    else if s == "t2"@ { Some(Reg::t2) }
    else if s == "t3"@ { Some(Reg::t3) }
    else if s == "t4"@ { Some(Reg::t4) }
    else if s == "t5"@ { Some(Reg::t5) }
    else if s == "t6"@ { Some(Reg::t6) }
    else if s == "t7"@ { Some(Reg::t7) }
    else if s == "zero"@ { Some(Reg::zero) }
    else { None }
}

pub open spec fn reg_res(s: Seq<char>) -> Result<Reg, SError> {
    match reg_of(s) {
        Some(r) => Ok(r),
        None => Err(SError::UnknownRegister(s)),
    }
}

pub type DRes = Result<Option<SInstr>, SError>;

/// Two leading register operands, trailing commas dropped.
pub open spec fn regs2(a: Seq<char>, b: Seq<char>) -> Result<(Reg, Reg), SError> {
    match reg_res(strip_end(a, ',')) {
        Err(e) => Err(e),
        Ok(x) => match reg_res(strip_end(b, ',')) {
            Err(e) => Err(e),
            Ok(y) => Ok((x, y)),
        },
    }
}

/// Three register operands: the first two with trailing commas dropped.
pub open spec fn regs3(a: Seq<char>, b: Seq<char>, c: Seq<char>) -> Result<(Reg, Reg, Reg), SError> {
    match regs2(a, b) {
        Err(e) => Err(e),
        Ok((x, y)) => match reg_res(c) {
            Err(e) => Err(e),
            Ok(z) => Ok((x, y, z)),
        },
    }
}

pub open spec fn three_regs(a: Seq<char>, b: Seq<char>, c: Seq<char>, f: spec_fn(Reg, Reg, Reg) -> SInstr) -> DRes {
    match regs3(a, b, c) {
        Err(e) => Err(e),
        Ok((x, y, z)) => Ok(Some(f(x, y, z))),
    }
}

/// `addi rd, rs, imm`: an immediate that does not parse counts as 0; a
/// negative one makes the unsigned form.
pub open spec fn dec_addi(a: Seq<char>, b: Seq<char>, c: Seq<char>) -> DRes {
    let imm: i16 = match parse_i16(c) { Some(v) => v, None => 0 };
    match regs2(a, b) {
        Err(e) => Err(e),
        Ok((x, y)) => Ok(Some(if imm < 0 { SInstr::Addiu(x, y, imm) } else { SInstr::Addi(x, y, imm) })),
    }
}

/// `la rd, label`: the address of a data label, encoded as minus one plus
/// its position among the data labels (-1 for an unknown label).
pub open spec fn dec_la(a: Seq<char>, lbl: Seq<char>, data: Seq<Seq<char>>) -> DRes {
    let k = index_of(data, lbl);
    if k + 1 > i16::MAX {
        Err(SError::Overflow)
    } else {
        let id: i16 = if k >= 0 { (-(k + 1)) as i16 } else { -1i16 };
        match reg_res(strip_end(a, ',')) {
            Err(e) => Err(e),
            Ok(x) => Ok(Some(SInstr::Addi(x, Reg::zero, id))),
        }
    }
}

/// `sw`/`lw r, off(base)`; an operand without `(` makes nothing.
pub open spec fn dec_mem(a: Seq<char>, m: Seq<char>, store: bool) -> DRes {
    let k = find_char(m, '(');
    if k < 0 {
        Ok(None)
    } else {
        let off: i16 = match parse_i16(m.take(k)) { Some(v) => v, None => 0 };
        match reg_res(strip_end(a, ',')) {
            Err(e) => Err(e),
            Ok(x) => match reg_res(strip_end(m.skip(k + 1), ')')) {
                Err(e) => Err(e),
                Ok(y) => Ok(Some(if store { SInstr::Sw(x, off, y) } else { SInstr::Lw(x, off, y) })),
            },
        }
    }
}

/// The instruction of one trimmed code line, given the data labels: a line
/// ending in `:` is a label; a known mnemonic is decoded from its
/// whitespace-separated operands; `mul` and `div`, which have no encoding
/// here, are refused; any other line makes nothing.
pub open spec fn decode(l: Seq<char>, data: Seq<Seq<char>>) -> DRes {
    if l.len() > 0 && l.last() == ':' {
        Ok(Some(SInstr::Label(strip_end(l, ':'))))
    } else {
        let p = words(l);
        let miss = Err(SError::MissingOperand(l));
        if p.len() == 0 {
            Ok(None)
        } else if p[0] == "addi"@ {
            if p.len() < 4 { miss } else { dec_addi(p[1], p[2], p[3]) }
        } else if p[0] == "add"@ {
            if p.len() < 4 { miss } else { three_regs(p[1], p[2], p[3], |x, y, z| SInstr::Add(x, y, z)) }
        } else if p[0] == "sub"@ {
            if p.len() < 4 { miss } else { three_regs(p[1], p[2], p[3], |x, y, z| SInstr::Sub(x, y, z)) }
        } else if p[0] == "and"@ {
            if p.len() < 4 { miss } else { three_regs(p[1], p[2], p[3], |x, y, z| SInstr::And(x, y, z)) }
        } else if p[0] == "or"@ {
            if p.len() < 4 { miss } else { three_regs(p[1], p[2], p[3], |x, y, z| SInstr::Or(x, y, z)) }
        } else if p[0] == "slt"@ {
            if p.len() < 4 { miss } else { three_regs(p[1], p[2], p[3], |x, y, z| SInstr::Slt(x, y, z)) }
        } else if p[0] == "la"@ {
            if p.len() < 3 { miss } else { dec_la(p[1], p[2], data) }
        } else if p[0] == "sw"@ {
            if p.len() < 3 { miss } else { dec_mem(p[1], p[2], true) }
        } else if p[0] == "lw"@ {
            if p.len() < 3 { miss } else { dec_mem(p[1], p[2], false) }
        } else if p[0] == "beq"@ {
            if p.len() < 4 {
                miss
            } else {
                match regs2(p[1], p[2]) {
                    Err(e) => Err(e),
                    Ok((x, y)) => Ok(Some(SInstr::Beq(x, y, p[3]))),
                }
            }
        } else if p[0] == "b"@ {
            if p.len() < 2 { miss } else { Ok(Some(SInstr::B(p[1]))) }
        } else if p[0] == "bal"@ {
            if p.len() < 2 { miss } else { Ok(Some(SInstr::Bal(p[1]))) }
        } else if p[0] == "mul"@ || p[0] == "div"@ {
            Err(SError::UnsupportedInstruction(p[0]))
        } else if p[0] == "jr"@ {
            if p.len() < 2 {
                miss
            } else {
                match reg_res(p[1]) {
                    Err(e) => Err(e),
                    Ok(x) => Ok(Some(SInstr::Jr(x))),
                }
            }
        } else {
            Ok(None)
        }
    }
}

/// The label of a data line `label: .asciiz "..."`.
pub open spec fn data_label(l: Seq<char>) -> Option<Seq<char>> {
    let k = find_char(l, ':');
    if k >= 0 && has_sub(trim(l.skip(k + 1)), ".asciiz"@) {
        Some(trim(l.take(k)))
    } else {
        None
    }
}

/// What a pass over the lines gathers: whether it is in the data section,
/// the data labels in order, and the code lines.
pub struct Scan {
    pub in_data: bool,
    pub data: Seq<Seq<char>>,
    pub code: Seq<Seq<char>>,
}

pub open spec fn scan_line(st: Scan, raw: Seq<char>) -> Scan {
    let l = trim(raw);
    if l.len() == 0 {
        st
    } else if l == ".data"@ {
        Scan { in_data: true, ..st }
    } else if l == ".text"@ {
        Scan { in_data: false, ..st }
    } else if st.in_data {
        match data_label(l) {
            Some(k) => Scan { data: st.data.push(k), ..st },
            None => st,
        }
    } else {
        Scan { code: st.code.push(l), ..st }
    }
}

pub open spec fn scan(ls: Seq<Seq<char>>) -> Scan
    decreases ls.len(),
{
    if ls.len() == 0 {
        Scan { in_data: false, data: Seq::empty(), code: Seq::empty() }
    } else {
        scan_line(scan(ls.drop_last()), ls.last())
    }
}

pub open spec fn decode_all(code: Seq<Seq<char>>, data: Seq<Seq<char>>) -> Result<Seq<SInstr>, SError>
    decreases code.len(),
{
    if code.len() == 0 {
        Ok(Seq::empty())
    } else {
        match decode_all(code.drop_last(), data) {
            Err(e) => Err(e),
            Ok(v) => match decode(code.last(), data) {
                Err(e) => Err(e),
                Ok(None) => Ok(v),
                Ok(Some(i)) => Ok(v.push(i)),
            },
        }
    }
}

/// What every program starts with: the stack pointer set, a call of
/// `main`, and the `halt` that `main` returns to.
pub open spec fn prelude() -> Seq<SInstr> {
    seq![SInstr::Addi(Reg::sp, Reg::zero, 10000), SInstr::Bal("main"@), SInstr::Halt]
}

/// The instructions of an assembly text: the prelude, then the decoded code
/// lines, the data labels numbered in their order.
pub open spec fn assemble_spec(text: Seq<char>) -> Result<Seq<SInstr>, SError> {
    let st = scan(split_lines(text));
    match decode_all(st.code, st.data) {
        Err(e) => Err(e),
        Ok(v) => Ok(prelude() + v),
    }
}

// ---------------------------------------------------------------------
// The assembler.
// ---------------------------------------------------------------------

pub open spec fn vv(v: Seq<Vec<char>>) -> Seq<Seq<char>> {
    v.map_values(|x: Vec<char>| x@)
}

fn is_ws_x(c: char) -> (b: bool)
    ensures
        b == is_ws(c),
{
    let u = c as u32;
    (9 <= u && u <= 13) || u == 32 || u == 0x85 || u == 0xA0 || u == 0x1680 || (0x2000 <= u && u <= 0x200A)
        || u == 0x2028 || u == 0x2029 || u == 0x202F || u == 0x205F || u == 0x3000
}

fn same(a: &Vec<char>, b: &Vec<char>) -> (r: bool)
    ensures
        r == (a@ == b@),
{
    if a.len() != b.len() {
        return false;
    }
    for i in 0..a.len()
        invariant
            a@.len() == b@.len(),
            forall|j: int| 0 <= j < i ==> a@[j] == b@[j],
    {
        if a[i] != b[i] {
            return false;
        }
    }
    assert(a@ =~= b@);
    true
}

fn is_lit(a: &Vec<char>, t: &str) -> (r: bool)
    ensures
        r == (a@ == t@),
{
    let b = chars_of(t);
    same(a, &b)
}

fn split_lines_x(s: &Vec<char>) -> (r: Vec<Vec<char>>)
    ensures
        vv(r@) == split_lines(s@),
{
    let mut done: Vec<Vec<char>> = Vec::new();
    let mut cur: Vec<char> = Vec::new();
    assert(s@.take(0) =~= Seq::<char>::empty());
    assert(vv(done@).push(cur@) =~= seq![Seq::<char>::empty()]);
    for i in 0..s.len()
        invariant
            split_lines(s@.take(i as int)) == vv(done@).push(cur@),
    {
        let c = s[i];
        assert(s@.take(i + 1).drop_last() =~= s@.take(i as int));
        let ghost before = vv(done@);
        if c == '\n' {
            done.push(cur);
            cur = Vec::new();
            assert(vv(done@) =~= before.push(vv(done@).last()));
        } else {
            let ghost old_cur = cur@;
            cur.push(c);
            assert(before.push(old_cur).update(before.len() as int, old_cur.push(c)) =~= before.push(cur@));
        }
        assert(split_lines(s@.take(i + 1)) == vv(done@).push(cur@));
    }
    assert(s@.take(s@.len() as int) =~= s@);
    let ghost before = vv(done@);
    done.push(cur);
    assert(vv(done@) =~= before.push(vv(done@).last()));
    done
}

fn sub_vec(s: &Vec<char>, from: usize, to: usize) -> (r: Vec<char>)
    requires
        from <= to <= s@.len(),
    ensures
        r@ == s@.subrange(from as int, to as int),
{
    let mut r: Vec<char> = Vec::new();
    let mut k = from;
    while k < to
        invariant
            from <= k <= to,
            to <= s@.len(),
            r@ == s@.subrange(from as int, k as int),
        decreases to - k,
    {
        r.push(s[k]);
        assert(r@ =~= s@.subrange(from as int, k + 1));
        k = k + 1;
    }
    r
}

fn trim_x(s: &Vec<char>) -> (r: Vec<char>)
    ensures
        r@ == trim(s@),
{
    let n = s.len();
    let mut i: usize = 0;
    assert(s@.skip(0) =~= s@);
    while i < n && is_ws_x(s[i])
        invariant
            i <= n == s@.len(),
            trim_start(s@) == trim_start(s@.skip(i as int)),
        decreases n - i,
    {
        assert(s@.skip(i as int).skip(1) =~= s@.skip(i + 1));
        i = i + 1;
    }
    let ghost t = s@.skip(i as int);
    assert(trim_start(t) == t);
    let mut j: usize = n;
    assert(t =~= s@.subrange(i as int, n as int));
    while j > i && is_ws_x(s[j - 1])
        invariant
            i <= j <= n == s@.len(),
            t == s@.skip(i as int),
            trim_end(t) == trim_end(s@.subrange(i as int, j as int)),
        decreases j,
    {
        assert(s@.subrange(i as int, j as int).drop_last() =~= s@.subrange(i as int, j - 1));
        j = j - 1;
    }
    sub_vec(s, i, j)
}

fn strip_end_x(s: &Vec<char>, c: char) -> (r: Vec<char>)
    ensures
        r@ == strip_end(s@, c),
{
    let mut j = s.len();
    assert(s@.take(j as int) =~= s@);
    while j > 0 && s[j - 1] == c
        invariant
            j <= s@.len(),
            strip_end(s@, c) == strip_end(s@.take(j as int), c),
        decreases j,
    {
        assert(s@.take(j as int).drop_last() =~= s@.take(j - 1));
        j = j - 1;
    }
    sub_vec(s, 0, j)
}

fn words_x(s: &Vec<char>) -> (r: Vec<Vec<char>>)
    ensures
        vv(r@) == words(s@),
{
    let mut done: Vec<Vec<char>> = Vec::new();
    let mut cur: Vec<char> = Vec::new();
    let mut inw = false;
    assert(s@.take(0) =~= Seq::<char>::empty());
    assert(vv(done@) =~= Seq::<Seq<char>>::empty());
    for i in 0..s.len()
        invariant
            inw == (i > 0 && !is_ws(s@[i - 1])),
            inw ==> cur@.len() > 0,
            !inw ==> cur@.len() == 0,
            words(s@.take(i as int)) == if inw { vv(done@).push(cur@) } else { vv(done@) },
    {
        let c = s[i];
        let w = is_ws_x(c);
        assert(s@.take(i + 1).drop_last() =~= s@.take(i as int));
        assert(s@.take(i + 1).last() == c);
        if w {
            if inw {
                let ghost before = vv(done@);
                done.push(cur);
                cur = Vec::new();
                assert(vv(done@) =~= before.push(vv(done@).last()));
            }
            inw = false;
        } else {
            let ghost old_cur = cur@;
            let ghost before = vv(done@);
            cur.push(c);
            if inw {
                assert(s@.take(i + 1)[i - 1] == s@[i - 1]);
                assert(before.push(old_cur).update(before.len() as int, old_cur.push(c)) =~= before.push(cur@));
            } else {
                assert(cur@ =~= seq![c]);
            }
            inw = true;
        }
    }
    assert(s@.take(s@.len() as int) =~= s@);
    if inw {
        let ghost before = vv(done@);
        done.push(cur);
        assert(vv(done@) =~= before.push(vv(done@).last()));
    }
    done
}

fn find_char_x(s: &Vec<char>, c: char) -> (r: Option<usize>)
    ensures
        match r {
            Some(k) => k < s@.len() && find_char(s@, c) == k,
            None => find_char(s@, c) == -1,
        },
{
    assert(s@.take(0) =~= Seq::<char>::empty());
    for i in 0..s.len()
        invariant
            find_char(s@.take(i as int), c) == -1,
    {
        assert(s@.take(i + 1).drop_last() =~= s@.take(i as int));
        if s[i] == c {
            proof { lemma_find_prefix(s@, c, i + 1); }
            return Some(i);
        }
    }
    assert(s@.take(s@.len() as int) =~= s@);
    None
}

/// A first occurrence found in a prefix is the first in the whole.
proof fn lemma_find_prefix(s: Seq<char>, c: char, k: int)
    requires
        0 <= k <= s.len(),
        find_char(s.take(k), c) >= 0,
    ensures
        find_char(s, c) == find_char(s.take(k), c),
    decreases s.len() - k,
{
    if k < s.len() {
        assert(s.take(k + 1).drop_last() =~= s.take(k));
        lemma_find_prefix(s, c, k + 1);
    } else {
        assert(s.take(k) =~= s);
    }
}

fn has_sub_x(s: &Vec<char>, t: &Vec<char>) -> (r: bool)
    ensures
        r == has_sub(s@, t@),
{
    let n = s.len();
    let m = t.len();
    if m > n {
        return false;
    }
    if m == 0 {
        assert(s@.subrange(0, 0 + t@.len() as int) =~= t@);
        return true;
    }
    for i in 0..(n - m + 1)
        invariant
            n == s@.len(),
            m == t@.len(),
            m <= n,
            forall|j: int| 0 <= j < i ==> #[trigger] s@.subrange(j, j + m) != t@,
    {
        let mut ok = true;
        for k in 0..m
            invariant
                n == s@.len(),
                m == t@.len(),
                i + m <= n,
                ok == (forall|q: int| 0 <= q < k ==> s@[i + q] == t@[q]),
        {
            if s[i + k] != t[k] {
                ok = false;
            }
        }
        if ok {
            assert(s@.subrange(i as int, i + m) =~= t@);
            return true;
        }
        assert(s@.subrange(i as int, i + m)[k_witness(s@, t@, i as int)] != t@[k_witness(s@, t@, i as int)]);
    }
    false
}

spec fn k_witness(s: Seq<char>, t: Seq<char>, i: int) -> int {
    choose|q: int| 0 <= q < t.len() && s[i + q] != t[q]
}

fn index_of_x(d: &Vec<Vec<char>>, x: &Vec<char>) -> (r: Option<usize>)
    ensures
        match r {
            Some(k) => k < d@.len() && index_of(vv(d@), x@) == k,
            None => index_of(vv(d@), x@) == -1,
        },
{
    let ghost m = vv(d@);
    assert(m.take(0) =~= Seq::<Seq<char>>::empty());
    for i in 0..d.len()
        invariant
            m == vv(d@),
            index_of(m.take(i as int), x@) == -1,
    {
        assert(m.take(i + 1).drop_last() =~= m.take(i as int));
        if same(&d[i], x) {
            proof { lemma_index_prefix(m, x@, i + 1); }
            return Some(i);
        }
    }
    assert(m.take(m.len() as int) =~= m);
    None
}

proof fn lemma_index_prefix(d: Seq<Seq<char>>, x: Seq<char>, k: int)
    requires
        0 <= k <= d.len(),
        index_of(d.take(k), x) >= 0,
    ensures
        index_of(d, x) == index_of(d.take(k), x),
    decreases d.len() - k,
{
    if k < d.len() {
        assert(d.take(k + 1).drop_last() =~= d.take(k));
        lemma_index_prefix(d, x, k + 1);
    } else {
        assert(d.take(k) =~= d);
    }
}

fn parse_i16_x(s: &Vec<char>) -> (r: Option<i16>)
    ensures
        r == parse_i16(s@),
{
    let n = s.len();
    let neg = n > 0 && s[0] == '-';
    let start: usize = if n > 0 && (s[0] == '-' || s[0] == '+') { 1 } else { 0 };
    let ghost ds = unsigned_part(s@);
    assert(ds =~= s@.skip(start as int));
    if start == n {
        return None;
    }
    let mut v: u32 = 0;
    let mut big = false;
    let mut k = start;
    assert(ds.take(0) =~= Seq::<char>::empty());
    while k < n
        invariant
            start <= k <= n == s@.len(),
            ds == s@.skip(start as int),
            ds == unsigned_part(s@),
            forall|q: int| 0 <= q < k - start ==> is_digit(#[trigger] ds[q]),
            !big ==> v == digits_val(ds.take(k - start)) && v <= 32769,
            big ==> digits_val(ds.take(k - start)) > 32768,
        decreases n - k,
    {
        let c = s[k];
        let u = c as u32;
        if !(48 <= u && u <= 57) {
            assert(!is_digit(ds[k - start]));
            assert(!all_digits(ds));
            return None;
        }
        assert(ds.take(k - start + 1).drop_last() =~= ds.take(k - start));
        assert(ds.take(k - start + 1).last() == c);
        if !big {
            if v >= 3277 {
                big = true;
            } else {
                v = v * 10 + (u - 48);
            }
        }
        k = k + 1;
    }
    assert(ds.take(n - start) =~= ds);
    assert(all_digits(ds));
    if big {
        return None;
    }
    if neg {
        if v <= 32768 { Some((0 - (v as i32)) as i16) } else { None }
    } else if v <= 32767 {
        Some(v as i16)
    } else {
        None
    }
}

fn reg_x(s: &Vec<char>) -> (r: Result<Reg, Error>)
    ensures
        match r {
            Ok(x) => reg_res(s@) == Ok::<Reg, SError>(x),
            Err(e) => reg_res(s@) == Err::<Reg, SError>(error_model(e)),
        },
{
    if is_lit(s, "sp") { Ok(Reg::sp) }
    else if is_lit(s, "fp") { Ok(Reg::fp) }
    else if is_lit(s, "ra") { Ok(Reg::ra) }
    else if is_lit(s, "t0") { Ok(Reg::t0) }
    else if is_lit(s, "t1") { Ok(Reg::t1) }
    else if is_lit(s, "t2") { Ok(Reg::t2) }
    else if is_lit(s, "t3") { Ok(Reg::t3) }
    else if is_lit(s, "t4") { Ok(Reg::t4) }
    else if is_lit(s, "t5") { Ok(Reg::t5) }
    else if is_lit(s, "t6") { Ok(Reg::t6) }
    else if is_lit(s, "t7") { Ok(Reg::t7) }
    else if is_lit(s, "zero") { Ok(Reg::zero) }
    else {
        assert(s@.subrange(0, s@.len() as int) =~= s@);
        Err(Error::UnknownRegister(string_of(s, 0, s.len())))
    }
}

pub open spec fn dres(r: Result<Option<Instr>, Error>) -> DRes {
    match r {
        Ok(None) => Ok(None),
        Ok(Some(i)) => Ok(Some(instr_model(i))),
        Err(e) => Err(error_model(e)),
    }
}

pub open spec fn seq_res(r: Result<Vec<Instr>, Error>) -> Result<Seq<SInstr>, SError> {
    match r {
        Ok(v) => Ok(instrs_model(v@)),
        Err(e) => Err(error_model(e)),
    }
}

fn missing(l: &Vec<char>) -> (e: Error)
    ensures
        error_model(e) == SError::MissingOperand(l@),
{
    assert(l@.subrange(0, l@.len() as int) =~= l@);
    Error::MissingOperand(string_of(l, 0, l.len()))
}

fn text_of(v: &Vec<char>) -> (s: String)
    ensures
        s@ == v@,
{
    assert(v@.subrange(0, v@.len() as int) =~= v@);
    string_of(v, 0, v.len())
}

fn regs2_x(a: &Vec<char>, b: &Vec<char>) -> (r: Result<(Reg, Reg), Error>)
    ensures
        match r {
            Ok(p) => regs2(a@, b@) == Ok::<(Reg, Reg), SError>(p),
            Err(e) => regs2(a@, b@) == Err::<(Reg, Reg), SError>(error_model(e)),
        },
{
    let x = reg_x(&strip_end_x(a, ','))?;
    let y = reg_x(&strip_end_x(b, ','))?;
    Ok((x, y))
}

fn regs3_x(a: &Vec<char>, b: &Vec<char>, c: &Vec<char>) -> (r: Result<(Reg, Reg, Reg), Error>)
    ensures
        match r {
            Ok(p) => regs3(a@, b@, c@) == Ok::<(Reg, Reg, Reg), SError>(p),
            Err(e) => regs3(a@, b@, c@) == Err::<(Reg, Reg, Reg), SError>(error_model(e)),
        },
{
    let (x, y) = regs2_x(a, b)?;
    let z = reg_x(c)?;
    Ok((x, y, z))
}

fn dec_mem_x(a: &Vec<char>, m: &Vec<char>, store: bool) -> (r: Result<Option<Instr>, Error>)
    ensures
        dres(r) == dec_mem(a@, m@, store),
{
    let mlen = m.len();
    let found = find_char_x(m, '(');
    match found {
        None => Ok(None),
        Some(k) => {
            assert(k < m@.len());
            let off: i16 = match parse_i16_x(&sub_vec(m, 0, k)) {
                Some(v) => v,
                None => 0,
            };
            assert(m@.subrange(0, k as int) =~= m@.take(k as int));
            let x = reg_x(&strip_end_x(a, ','))?;
            let base = sub_vec(m, k + 1, mlen);
            assert(base@ =~= m@.skip(k + 1));
            let y = reg_x(&strip_end_x(&base, ')'))?;
            Ok(Some(if store { Instr::Sw(x, off, y) } else { Instr::Lw(x, off, y) }))
        },
    }
}

fn dec_la_x(a: &Vec<char>, lbl: &Vec<char>, data: &Vec<Vec<char>>) -> (r: Result<Option<Instr>, Error>)
    ensures
        dres(r) == dec_la(a@, lbl@, vv(data@)),
{
    let id: i16 = match index_of_x(data, lbl) {
        Some(k) => {
            if k >= 32767 {
                return Err(Error::Overflow);
            }
            (0 - ((k + 1) as i32)) as i16
        },
        None => -1,
    };
    let x = reg_x(&strip_end_x(a, ','))?;
    Ok(Some(Instr::Addi(x, Reg::zero, id)))
}

/// The instruction of one trimmed code line.
fn decode_x(l: &Vec<char>, data: &Vec<Vec<char>>) -> (r: Result<Option<Instr>, Error>)
    ensures
        dres(r) == decode(l@, vv(data@)),
{
    let n = l.len();
    if n > 0 && l[n - 1] == ':' {
        let k = strip_end_x(l, ':');
        return Ok(Some(Instr::Label(text_of(&k))));
    }
    let p = words_x(l);
    let ghost pm = vv(p@);
    assert(forall|i: int| 0 <= i < p@.len() ==> pm[i] == (#[trigger] p@[i])@);
    if p.len() == 0 {
        return Ok(None);
    }
    let op = &p[0];
    if is_lit(op, "addi") {
        if p.len() < 4 {
            return Err(missing(l));
        }
        let imm: i16 = match parse_i16_x(&p[3]) {
            Some(v) => v,
            None => 0,
        };
        let (x, y) = regs2_x(&p[1], &p[2])?;
        Ok(Some(if imm < 0 { Instr::Addiu(x, y, imm) } else { Instr::Addi(x, y, imm) }))
    } else if is_lit(op, "add") {
        if p.len() < 4 {
            return Err(missing(l));
        }
        let (x, y, z) = regs3_x(&p[1], &p[2], &p[3])?;
        Ok(Some(Instr::Add(x, y, z)))
    } else if is_lit(op, "sub") {
        if p.len() < 4 {
            return Err(missing(l));
        }
        let (x, y, z) = regs3_x(&p[1], &p[2], &p[3])?;
        Ok(Some(Instr::Sub(x, y, z)))
    } else if is_lit(op, "and") {
        if p.len() < 4 {
            return Err(missing(l));
        }
        let (x, y, z) = regs3_x(&p[1], &p[2], &p[3])?;
        Ok(Some(Instr::And(x, y, z)))
    } else if is_lit(op, "or") {
        if p.len() < 4 {
            return Err(missing(l));
        }
        let (x, y, z) = regs3_x(&p[1], &p[2], &p[3])?;
        Ok(Some(Instr::Or(x, y, z)))
    } else if is_lit(op, "slt") {
        if p.len() < 4 {
            return Err(missing(l));
        }
        let (x, y, z) = regs3_x(&p[1], &p[2], &p[3])?;
        Ok(Some(Instr::Slt(x, y, z)))
    } else if is_lit(op, "la") {
        if p.len() < 3 {
            return Err(missing(l));
        }
        dec_la_x(&p[1], &p[2], data)
    } else if is_lit(op, "sw") {
        if p.len() < 3 {
            return Err(missing(l));
        }
        dec_mem_x(&p[1], &p[2], true)
    } else if is_lit(op, "lw") {
        if p.len() < 3 {
            return Err(missing(l));
        }
        dec_mem_x(&p[1], &p[2], false)
    } else if is_lit(op, "beq") {
        if p.len() < 4 {
            return Err(missing(l));
        }
        let (x, y) = regs2_x(&p[1], &p[2])?;
        Ok(Some(Instr::Beq(x, y, text_of(&p[3]))))
    } else if is_lit(op, "b") {
        if p.len() < 2 {
            return Err(missing(l));
        }
        Ok(Some(Instr::B(text_of(&p[1]))))
    } else if is_lit(op, "bal") {
        if p.len() < 2 {
            return Err(missing(l));
        }
        Ok(Some(Instr::Bal(text_of(&p[1]))))
    } else if is_lit(op, "mul") || is_lit(op, "div") {
        Err(Error::UnsupportedInstruction(text_of(op)))
    } else if is_lit(op, "jr") {
        if p.len() < 2 {
            return Err(missing(l));
        }
        let x = reg_x(&p[1])?;
        Ok(Some(Instr::Jr(x)))
    } else {
        Ok(None)
    }
}

fn data_label_x(l: &Vec<char>) -> (r: Option<Vec<char>>)
    ensures
        match r {
            Some(k) => data_label(l@) == Some(k@),
            None => data_label(l@) is None,
        },
{
    let n = l.len();
    let found = find_char_x(l, ':');
    match found {
        None => None,
        Some(k) => {
            assert(k < n);
            let rest = sub_vec(l, k + 1, n);
            assert(rest@ =~= l@.skip(k + 1));
            let t = trim_x(&rest);
            let pat = chars_of(".asciiz");
            if has_sub_x(&t, &pat) {
                let head = sub_vec(l, 0, k);
                assert(head@ =~= l@.take(k as int));
                Some(trim_x(&head))
            } else {
                None
            }
        },
    }
}

/// A decoding error in a prefix of the code is the error of the whole.
proof fn lemma_decode_err(code: Seq<Seq<char>>, data: Seq<Seq<char>>, k: int)
    requires
        0 <= k <= code.len(),
        decode_all(code.take(k), data) is Err,
    ensures
        decode_all(code, data) == decode_all(code.take(k), data),
    decreases code.len() - k,
{
    if k < code.len() {
        assert(code.take(k + 1).drop_last() =~= code.take(k));
        lemma_decode_err(code, data, k + 1);
    } else {
        assert(code.take(k) =~= code);
    }
}

/// The instructions of an assembly text: a pass gathers the data labels and
/// the code lines, then each code line is decoded after the prelude.
pub fn assemble(text: &str) -> (r: Result<Vec<Instr>, Error>)
    ensures
        seq_res(r) == assemble_spec(text@),
{
    let chars = chars_of(text);
    let lines = split_lines_x(&chars);
    let ghost lm = vv(lines@);
    let mut in_data = false;
    let mut data: Vec<Vec<char>> = Vec::new();
    let mut code: Vec<Vec<char>> = Vec::new();
    assert(lm.take(0) =~= Seq::<Seq<char>>::empty());
    assert(vv(data@) =~= Seq::<Seq<char>>::empty());
    assert(vv(code@) =~= Seq::<Seq<char>>::empty());
    for i in 0..lines.len()
        invariant
            lm == vv(lines@),
            scan(lm.take(i as int)) == (Scan { in_data, data: vv(data@), code: vv(code@) }),
    {
        assert(lm.take(i + 1).drop_last() =~= lm.take(i as int));
        assert(lm.take(i + 1).last() == lines@[i as int]@);
        let l = trim_x(&lines[i]);
        if l.len() == 0 {
        } else if is_lit(&l, ".data") {
            in_data = true;
        } else if is_lit(&l, ".text") {
            in_data = false;
        } else if in_data {
            match data_label_x(&l) {
                Some(k) => {
                    let ghost before = vv(data@);
                    data.push(k);
                    assert(vv(data@) =~= before.push(vv(data@).last()));
                },
                None => {},
            }
        } else {
            let ghost before = vv(code@);
            code.push(l);
            assert(vv(code@) =~= before.push(vv(code@).last()));
        }
    }
    assert(lm.take(lm.len() as int) =~= lm);
    let ghost cm = vv(code@);
    let ghost dm = vv(data@);
    let mut out: Vec<Instr> = Vec::new();
    out.push(Instr::Addi(Reg::sp, Reg::zero, 10000));
    out.push(Instr::Bal(String::from_str("main")));
    out.push(Instr::Halt);
    let ghost mut acc: Seq<SInstr> = Seq::empty();
    assert(instrs_model(out@) =~= prelude() + acc);
    assert(cm.take(0) =~= Seq::<Seq<char>>::empty());
    for i in 0..code.len()
        invariant
            cm == vv(code@),
            dm == vv(data@),
            scan(split_lines(text@)).code == cm,
            scan(split_lines(text@)).data == dm,
            decode_all(cm.take(i as int), dm) == Ok::<Seq<SInstr>, SError>(acc),
            instrs_model(out@) == prelude() + acc,
    {
        assert(cm.take(i + 1).drop_last() =~= cm.take(i as int));
        assert(cm.take(i + 1).last() == code@[i as int]@);
        match decode_x(&code[i], &data) {
            Err(e) => {
                proof { lemma_decode_err(cm, dm, i + 1); }
                return Err(e);
            },
            Ok(None) => {},
            Ok(Some(ins)) => {
                let ghost before = out@;
                out.push(ins);
                proof { acc = acc.push(instr_model(ins)); }
                assert(instrs_model(out@) =~= instrs_model(before).push(instr_model(ins)));
                assert(instrs_model(out@) =~= prelude() + acc);
            },
        }
    }
    assert(cm.take(cm.len() as int) =~= cm);
    Ok(out)
}

} // verus!
