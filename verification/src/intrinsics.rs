use crate::ast::{
    fn_model, params_model, Block, FnDeclaration, Literal, Mutable, Parameter, Parameters, SBlock, SFn,
    SLit, SParam, SStmt, Statement, Type,
};
use crate::error::{error_model, Error, SError};
use crate::text::{int_text, int_to_text};
use crate::vm::{val_model, SVal, Val};
use vstd::prelude::*;

verus! {

/// The built-in functions that the interpreter provides.
#[derive(Debug, Clone, Copy, PartialEq, Eq, Structural)]
pub enum Intrinsic {
    Println,
    AssertEq,
}

/// Length of the placeholder (`{}` or `{:?}`) that starts at position `i`
/// of `s`, or 0 where none starts there.
pub open spec fn placeholder_at(s: Seq<char>, i: int) -> int {
    if 0 <= i && i + 1 < s.len() && s[i] == '{' && s[i + 1] == '}' {
        2
    } else if 0 <= i && i + 3 < s.len() && s[i] == '{' && s[i + 1] == ':' && s[i + 2] == '?' && s[i
        + 3] == '}' {
        4
    } else {
        0
    }
}

/// The pieces of `s` from `start` on, scanning from `i`, split at each
/// placeholder found from left to right.
pub open spec fn pieces_from(s: Seq<char>, start: int, i: int) -> Seq<Seq<char>>
    decreases s.len() - i,
{
    if i >= s.len() || i < start {
        seq![s.subrange(start, s.len() as int)]
    } else if placeholder_at(s, i) > 0 {
        seq![s.subrange(start, i)] + pieces_from(s, i + placeholder_at(s, i), i + placeholder_at(s, i))
    } else {
        pieces_from(s, start, i + 1)
    }
}

/// The text of a format string between its placeholders: what splitting it
/// with the regular expression `\{(:\?)?\}` gives.
pub open spec fn placeholder_split(s: Seq<char>) -> Seq<Seq<char>> {
    pieces_from(s, 0, 0)
}

pub open spec fn strings_model(v: Seq<String>) -> Seq<Seq<char>> {
    v.map_values(|s: String| s@)
}

/// Splits `fmt` with `regex::Regex::split` for the pattern `\{(:\?)?\}`,
/// which matches `{}` and `{:?}`. The contract claims that the pieces are
/// the text between successive leftmost matches, as the crate documents
/// for `split` (a match at either end gives an empty piece there, and the
/// empty string gives one empty piece).
#[verifier::external_body]
fn split_placeholders(fmt: &str) -> (parts: Vec<String>)
    ensures
        strings_model(parts@) == placeholder_split(fmt@),
{
    let re = regex::Regex::new("\\{(:\\?)?\\}").unwrap();
    re.split(fmt).map(|p| p.to_string()).collect()
}

/// The text that the derived `Debug` of a value writes.
pub uninterp spec fn val_debug(v: SVal) -> Seq<char>;

/// Writes `v` with `format!("{:?}", v)`, the `Debug` impl that `derive`
/// gives `Val`. The contract claims only that the text is a function of the
/// value's model; what that text is (the variant's name and its fields, in
/// `Debug` form) is left unsaid.
#[verifier::external_body]
fn debug_text(v: &Val) -> (s: String)
    ensures
        s@ == val_debug(v@),
{
    format!("{:?}", v)
}

/// How `println!` shows a value: literals and the values behind `mut` and
/// boxed references as their text, anything else in its `Debug` form.
pub open spec fn val_text(v: SVal) -> Seq<char>
    decreases v,
{
    match v {
        SVal::Lit(SLit::Str(s)) => s,
        SVal::Lit(SLit::Int(i)) => int_text(i as int),
        SVal::Lit(SLit::Bool(b)) => if b { "true"@ } else { "false"@ },
        SVal::Lit(SLit::Unit) => "()"@,
        SVal::Mut(b) => val_text(*b),
        SVal::RefVal(b) => val_text(*b),
        _ => val_debug(v),
    }
}

/// The text of the first `n` placeholders filled: each value followed by the
/// piece of the format string after it.
pub open spec fn filled(pieces: Seq<Seq<char>>, vals: Seq<SVal>, n: int) -> Seq<char>
    decreases n,
{
    if n <= 0 {
        Seq::empty()
    } else {
        filled(pieces, vals, n - 1) + val_text(vals[n - 1]) + pieces[n - 1]
    }
}

pub open spec fn min(a: int, b: int) -> int {
    if a <= b { a } else { b }
}

/// The line that `println!` prints for its arguments: the first must be the
/// format string; each placeholder takes the next value (extra placeholders
/// or values are dropped).
pub open spec fn println_text(args: Seq<SVal>) -> Result<Seq<char>, SError> {
    if args.len() == 0 {
        Ok("\n"@)
    } else {
        match args[0] {
            SVal::Lit(SLit::Str(fmt)) => {
                let parts = placeholder_split(fmt);
                let first = if parts.len() > 0 { parts[0] } else { Seq::empty() };
                let rest = if parts.len() > 0 { parts.skip(1) } else { Seq::empty() };
                let vals = args.skip(1);
                Ok(first + filled(rest, vals, min(rest.len() as int, vals.len() as int)) + "\n"@)
            },
            _ => Err(SError::NoFormatString),
        }
    }
}

/// Appends how `println!` shows `v`.
pub fn push_val_text(out: &mut String, v: &Val)
    ensures
        final(out)@ == old(out)@ + val_text(v@),
    decreases v,
{
    match v {
        Val::Lit(Literal::String(s)) => out.append(s.as_str()),
        Val::Lit(Literal::Int(i)) => {
            let t = int_to_text(*i);
            out.append(t.as_str());
        },
        Val::Lit(Literal::Bool(b)) => {
            if *b {
                out.append("true");
            } else {
                out.append("false");
            }
        },
        Val::Lit(Literal::Unit) => out.append("()"),
        Val::Mut(b) => push_val_text(out, b),
        Val::RefVal(b) => push_val_text(out, b),
        _ => {
            let t = debug_text(v);
            out.append(t.as_str());
        },
    }
}

/// The line that `println!` prints for `args`, or the error when the first
/// argument is not a format string.
pub fn println_line(args: &Vec<Val>) -> (r: Result<String, Error>)
    ensures
        match println_text(args@.map_values(|v: Val| v@)) {
            Ok(t) => r matches Ok(s) && s@ == t,
            Err(e) => r matches Err(x) && error_model(x) == e,
        },
{
    let ghost m = args@.map_values(|v: Val| v@);
    if args.len() == 0 {
        let mut s = String::new();
        s.append("\n");
        assert(s@ =~= "\n"@);
        return Ok(s);
    }
    let fmt = match &args[0] {
        Val::Lit(Literal::String(s)) => s,
        _ => {
            return Err(Error::NoFormatString);
        },
    };
    let parts = split_placeholders(fmt.as_str());
    let ghost pm = strings_model(parts@);
    let mut out = String::new();
    if parts.len() > 0 {
        out.append(parts[0].as_str());
    }
    let ghost first = if pm.len() > 0 { pm[0] } else { Seq::<char>::empty() };
    assert(out@ =~= first);
    let np = parts.len();
    let na = args.len();
    let n = if np == 0 { 0 } else if np - 1 <= na - 1 { np - 1 } else { na - 1 };
    assert(pm.len() == np);
    let ghost rest = if pm.len() > 0 { pm.skip(1) } else { Seq::<Seq<char>>::empty() };
    let ghost vals = m.skip(1);
    assert(n == min(rest.len() as int, vals.len() as int));
    let mut k: usize = 0;
    while k < n
        invariant
            k <= n,
            n == min(rest.len() as int, vals.len() as int),
            n > 0 ==> n < np && n < na,
            np == parts@.len(),
            na == args@.len(),
            pm == strings_model(parts@),
            rest == (if pm.len() > 0 { pm.skip(1) } else { Seq::<Seq<char>>::empty() }),
            vals == m.skip(1),
            m == args@.map_values(|v: Val| v@),
            out@ == first + filled(rest, vals, k as int),
        decreases n - k,
    {
        push_val_text(&mut out, &args[k + 1]);
        out.append(parts[k + 1].as_str());
        proof {
            assert(vals[k as int] == args@[k + 1]@);
            assert(rest[k as int] == parts@[k + 1]@);
            assert(out@ =~= first + filled(rest, vals, k + 1));
        }
        k = k + 1;
    }
    out.append("\n");
    assert(out@ =~= first + filled(rest, vals, n as int) + "\n"@);
    Ok(out)
}

pub open spec fn println_decl() -> SFn {
    SFn {
        id: "println!"@,
        params: seq![SParam { mutable: false, id: "str"@, ty: Type::String }],
        ty: None,
        body: SBlock { stmts: Seq::empty(), semi: false },
    }
}

/// The declaration under which `println!` is known, and the intrinsic that
/// implements it.
pub fn vm_println() -> (r: (FnDeclaration, Intrinsic))
    ensures
        fn_model(r.0) == println_decl(),
        r.1 == Intrinsic::Println,
{
    let mut ps: Vec<Parameter> = Vec::new();
    ps.push(Parameter { mutable: Mutable(false), id: String::from_str("str"), ty: Type::String });
    let decl = FnDeclaration {
        id: String::from_str("println!"),
        parameters: Parameters(ps),
        ty: None,
        body: Block { statements: Vec::new(), semi: false },
    };
    proof {
        assert(params_model(decl.parameters.0@) =~= seq![SParam { mutable: false, id: "str"@, ty: Type::String }]);
        assert(crate::ast::stmts_model(decl.body.statements@) =~= Seq::<SStmt>::empty());
    }
    (decl, Intrinsic::Println)
}

} // verus!
