use crate::ast::{
    BinOp, Block, Expr, FnDeclaration, Literal, Mutable, Prog, SBlock, SExpr, SFn, SLit, SParam, SStmt,
    Statement, Type, UnOp,
};
use crate::display::{
    binop_text, block_text, expr_text, exprs_text, fn_text, lit_text, param_text, params_text, prog_text,
    stmt_text, stmts_text, type_text, unop_text,
};
use crate::grammar::{
    binop_at, g_args, g_bin, g_block, g_expr, g_fn, g_fns, g_if, g_operand, g_opt_annot, g_param,
    g_param_list, g_params, g_stmt, g_stmts, g_type, ident_at, is_keyword, kw_is, lit_at, sym_is,
    unop_at, whole,
};
use crate::lex::{
    digit_value, ident_end, is_digit, is_ident_char, is_ident_start, is_space, lex_from, lex_spec,
    number, string_body, sym_at, SToken, Sym,
};
use crate::text::{digit_char, int_text, nat_text};
use crate::parse::{spec_parse, Parse};
use vstd::prelude::*;

verus! {

// ---------------------------------------------------------------------
// Printing a type and reading it back.
// ---------------------------------------------------------------------

/// The tokens that the text of a type lexes to: `&&` is one token, so two
/// `&` in a row (an outer shared reference to a reference) make it.
pub open spec fn type_toks(t: Type) -> Seq<SToken>
    decreases t,
{
    match t {
        Type::I32 => seq![SToken::Ident("i32"@)],
        Type::Bool => seq![SToken::Ident("bool"@)],
        Type::String => seq![SToken::Ident("String"@)],
        Type::Unit => seq![SToken::Sym(Sym::LParen), SToken::Sym(Sym::RParen)],
        Type::Ref(inner, m) => if m.0 {
            seq![SToken::Sym(Sym::Amp), SToken::Ident("mut"@)] + type_toks(*inner)
        } else {
            match *inner {
                Type::Ref(i2, m2) => seq![SToken::Sym(Sym::AndAnd)] + (if m2.0 {
                    seq![SToken::Ident("mut"@)]
                } else {
                    Seq::empty()
                }) + type_toks(*i2),
                _ => seq![SToken::Sym(Sym::Amp)] + type_toks(*inner),
            }
        },
    }
}

/// An identifier that runs from `i` to `j` in `s`.
proof fn lemma_ident_run(s: Seq<char>, i: int, j: int)
    requires
        0 <= i <= j <= s.len(),
        forall|k: int| i <= k < j ==> is_ident_char(#[trigger] s[k]),
        j == s.len() || !is_ident_char(s[j]),
    ensures
        ident_end(s, i) == j,
    decreases j - i,
{
    if i < j {
        lemma_ident_run(s, i + 1, j);
    }
}

/// Lexing the word `w` at `i`.
proof fn lemma_lex_word(s: Seq<char>, i: int, w: Seq<char>, acc: Seq<SToken>)
    requires
        0 <= i,
        i + w.len() <= s.len(),
        w.len() > 0,
        s.subrange(i, i + w.len()) == w,
        is_ident_start(w[0]),
        forall|k: int| 0 <= k < w.len() ==> is_ident_char(#[trigger] w[k]),
        i + w.len() == s.len() || !is_ident_char(s[i + w.len()]),
    ensures
        lex_from(s, i, acc) == lex_from(s, i + w.len(), acc.push(SToken::Ident(w))),
{
    assert(s[i] == w[0]);
    assert forall|k: int| i + 1 <= k < i + w.len() implies is_ident_char(#[trigger] s[k]) by {
        assert(s[k] == w[k - i]);
    }
    lemma_ident_run(s, i + 1, i + w.len());
}

proof fn lemma_type_text_start(t: Type)
    ensures
        type_text(t).len() > 0,
        type_text(t)[0] == '&' <==> t is Ref,
        !(t is Ref) ==> (type_text(t)[0] == '(' || is_ident_start(type_text(t)[0])),
        type_toks(t).len() > 0,
        type_toks(t)[0] != SToken::Ident("mut"@),
    decreases t,
{
    reveal_strlit("i32");
    reveal_strlit("bool");
    reveal_strlit("String");
    reveal_strlit("()");
    reveal_strlit("&");
    reveal_strlit("&mut ");
    reveal_strlit("mut");
    assert("i32"@[0] != "mut"@[0]);
    assert("bool"@[0] != "mut"@[0]);
    assert("String"@[0] != "mut"@[0]);
    match t {
        Type::Ref(inner, m) => {
            if m.0 {
                assert(("&mut "@ + type_text(*inner))[0] == '&');
                assert((seq![SToken::Sym(Sym::Amp), SToken::Ident("mut"@)] + type_toks(*inner))[0] == SToken::Sym(Sym::Amp));
            } else {
                lemma_type_text_start(*inner);
                assert(("&"@ + type_text(*inner))[0] == '&');
                match *inner {
                    Type::Ref(i2, m2) => {
                        let o = if m2.0 { seq![SToken::Ident("mut"@)] } else { Seq::<SToken>::empty() };
                        assert((seq![SToken::Sym(Sym::AndAnd)] + o + type_toks(*i2))[0] == SToken::Sym(Sym::AndAnd));
                    },
                    _ => {
                        assert((seq![SToken::Sym(Sym::Amp)] + type_toks(*inner))[0] == SToken::Sym(Sym::Amp));
                    },
                }
            }
        },
        _ => {},
    }
}

/// The text of a type, wherever it stands, lexes to its tokens when no
/// identifier character follows it.
proof fn lemma_lex_type(s: Seq<char>, i: int, t: Type, acc: Seq<SToken>)
    requires
        0 <= i,
        i + type_text(t).len() <= s.len(),
        s.subrange(i, i + type_text(t).len()) == type_text(t),
        i + type_text(t).len() == s.len() || !is_ident_char(s[i + type_text(t).len()]),
    ensures
        lex_from(s, i, acc) == lex_from(s, i + type_text(t).len(), acc + type_toks(t)),
    decreases t, 1nat,
{
    let n = type_text(t).len();
    assert forall|k: int| 0 <= k < n implies s[i + k] == #[trigger] type_text(t)[k] by {
        assert(s.subrange(i, i + n)[k] == s[i + k]);
    }
    match t {
        Type::Ref(inner, m) => {
            if m.0 {
                lemma_lex_ref_mut(s, i, t, acc);
            } else {
                match *inner {
                    Type::Ref(_, _) => lemma_lex_ref_ref(s, i, t, acc),
                    _ => lemma_lex_ref_base(s, i, t, acc),
                }
            }
        },
        _ => lemma_lex_base(s, i, t, acc),
    }
}

proof fn lemma_lex_base(s: Seq<char>, i: int, t: Type, acc: Seq<SToken>)
    requires
        0 <= i,
        i + type_text(t).len() <= s.len(),
        forall|k: int| 0 <= k < type_text(t).len() ==> s[i + k] == #[trigger] type_text(t)[k],
        i + type_text(t).len() == s.len() || !is_ident_char(s[i + type_text(t).len()]),
        !(t is Ref),
    ensures
        lex_from(s, i, acc) == lex_from(s, i + type_text(t).len(), acc + type_toks(t)),
{
    reveal_strlit("i32");
    reveal_strlit("bool");
    reveal_strlit("String");
    reveal_strlit("()");
    let w = type_text(t);
    assert(s.subrange(i, i + w.len()) =~= w);
    match t {
        Type::I32 => {
            assert forall|k: int| 0 <= k < 3 implies is_ident_char(#[trigger] "i32"@[k]) by {
                if k == 0 {} else if k == 1 {} else {}
            }
            lemma_lex_word(s, i, "i32"@, acc);
        },
        Type::Bool => {
            assert forall|k: int| 0 <= k < 4 implies is_ident_char(#[trigger] "bool"@[k]) by {
                if k == 0 {} else if k == 1 {} else if k == 2 {} else {}
            }
            lemma_lex_word(s, i, "bool"@, acc);
        },
        Type::String => {
            assert forall|k: int| 0 <= k < 6 implies is_ident_char(#[trigger] "String"@[k]) by {
                if k == 0 {} else if k == 1 {} else if k == 2 {} else if k == 3 {} else if k == 4 {} else {}
            }
            lemma_lex_word(s, i, "String"@, acc);
        },
        _ => {
            assert(w[0] == '(' && w[1] == ')');
            assert(s[i] == '(' && s[i + 1] == ')');
            assert(sym_at(s, i) == Some((Sym::LParen, i + 1)));
            assert(sym_at(s, i + 1) == Some((Sym::RParen, i + 2)));
            let a1 = acc.push(SToken::Sym(Sym::LParen));
            assert(lex_from(s, i, acc) == lex_from(s, i + 1, a1));
            assert(lex_from(s, i + 1, a1) == lex_from(s, i + 2, a1.push(SToken::Sym(Sym::RParen))));
        },
    }
    assert(acc + type_toks(t) =~= match t {
        Type::Unit => acc.push(SToken::Sym(Sym::LParen)).push(SToken::Sym(Sym::RParen)),
        _ => acc.push(type_toks(t)[0]),
    });
}

proof fn lemma_mut_word()
    ensures
        "mut"@.len() == 3,
        is_ident_start("mut"@[0]),
        forall|k: int| 0 <= k < 3 ==> is_ident_char(#[trigger] "mut"@[k]),
{
    reveal_strlit("mut");
    assert forall|k: int| 0 <= k < 3 implies is_ident_char(#[trigger] "mut"@[k]) by {
        if k == 0 {} else if k == 1 {} else {}
    }
}

proof fn lemma_lex_ref_mut(s: Seq<char>, i: int, t: Type, acc: Seq<SToken>)
    requires
        0 <= i,
        i + type_text(t).len() <= s.len(),
        forall|k: int| 0 <= k < type_text(t).len() ==> s[i + k] == #[trigger] type_text(t)[k],
        i + type_text(t).len() == s.len() || !is_ident_char(s[i + type_text(t).len()]),
        t matches Type::Ref(_, m) && m.0,
    ensures
        lex_from(s, i, acc) == lex_from(s, i + type_text(t).len(), acc + type_toks(t)),
    decreases t, 0nat,
{
    reveal_strlit("&mut ");
    reveal_strlit("mut");
    lemma_mut_word();
    if let Type::Ref(inner, m) = t {
        let it = type_text(*inner);
        lemma_type_text_start(*inner);
        assert(type_text(t) == "&mut "@ + it);
        assert(type_text(t)[0] == '&' && type_text(t)[1] == 'm' && type_text(t)[2] == 'u' && type_text(t)[3] == 't' && type_text(t)[4] == ' ');
        assert(s[i] == '&' && s[i + 1] == 'm' && s[i + 4] == ' ');
        assert(sym_at(s, i) == Some((Sym::Amp, i + 1)));
        let a1 = acc.push(SToken::Sym(Sym::Amp));
        assert(s.subrange(i + 1, i + 4) =~= "mut"@);
        lemma_lex_word(s, i + 1, "mut"@, a1);
        let a2 = a1.push(SToken::Ident("mut"@));
        assert forall|j: int| 0 <= j < it.len() implies s[i + 5 + j] == #[trigger] it[j] by {
            assert(type_text(t)[5 + j] == it[j]);
        }
        assert(s.subrange(i + 5, i + 5 + it.len()) =~= it);
        lemma_lex_type(s, i + 5, *inner, a2);
        assert(a2 + type_toks(*inner) =~= acc + type_toks(t));
    }
}

proof fn lemma_lex_ref_ref(s: Seq<char>, i: int, t: Type, acc: Seq<SToken>)
    requires
        0 <= i,
        i + type_text(t).len() <= s.len(),
        forall|k: int| 0 <= k < type_text(t).len() ==> s[i + k] == #[trigger] type_text(t)[k],
        i + type_text(t).len() == s.len() || !is_ident_char(s[i + type_text(t).len()]),
        t matches Type::Ref(inner, m) && !m.0 && (*inner is Ref),
    ensures
        lex_from(s, i, acc) == lex_from(s, i + type_text(t).len(), acc + type_toks(t)),
    decreases t, 0nat,
{
    reveal_strlit("&");
    reveal_strlit("&mut ");
    reveal_strlit("mut");
    lemma_mut_word();
    if let Type::Ref(inner, m) = t {
        if let Type::Ref(i2, m2) = *inner {
            let it = type_text(*inner);
            let i2t = type_text(*i2);
            lemma_type_text_start(*i2);
            assert(type_text(t) == "&"@ + it);
            assert(type_text(t)[0] == '&' && type_text(t)[1] == it[0]);
            assert(it[0] == '&');
            assert(s[i] == '&' && s[i + 1] == '&');
            assert(sym_at(s, i) == Some((Sym::AndAnd, i + 2)));
            let a1 = acc.push(SToken::Sym(Sym::AndAnd));
            if m2.0 {
                assert(it == "&mut "@ + i2t);
                assert(type_text(t)[2] == 'm' && type_text(t)[3] == 'u' && type_text(t)[4] == 't' && type_text(t)[5] == ' ');
                assert(s[i + 2] == 'm' && s[i + 5] == ' ');
                assert(s.subrange(i + 2, i + 5) =~= "mut"@);
                lemma_lex_word(s, i + 2, "mut"@, a1);
                let a2 = a1.push(SToken::Ident("mut"@));
                assert forall|j: int| 0 <= j < i2t.len() implies s[i + 6 + j] == #[trigger] i2t[j] by {
                    assert(type_text(t)[6 + j] == i2t[j]);
                }
                assert(s.subrange(i + 6, i + 6 + i2t.len()) =~= i2t);
                lemma_lex_type(s, i + 6, *i2, a2);
                assert(a2 + type_toks(*i2) =~= acc + type_toks(t));
            } else {
                assert(it == "&"@ + i2t);
                assert forall|j: int| 0 <= j < i2t.len() implies s[i + 2 + j] == #[trigger] i2t[j] by {
                    assert(type_text(t)[2 + j] == i2t[j]);
                }
                assert(s.subrange(i + 2, i + 2 + i2t.len()) =~= i2t);
                lemma_lex_type(s, i + 2, *i2, a1);
                assert(a1 + type_toks(*i2) =~= acc + type_toks(t));
            }
        }
    }
}

proof fn lemma_lex_ref_base(s: Seq<char>, i: int, t: Type, acc: Seq<SToken>)
    requires
        0 <= i,
        i + type_text(t).len() <= s.len(),
        forall|k: int| 0 <= k < type_text(t).len() ==> s[i + k] == #[trigger] type_text(t)[k],
        i + type_text(t).len() == s.len() || !is_ident_char(s[i + type_text(t).len()]),
        t matches Type::Ref(inner, m) && !m.0 && !(*inner is Ref),
    ensures
        lex_from(s, i, acc) == lex_from(s, i + type_text(t).len(), acc + type_toks(t)),
    decreases t, 0nat,
{
    reveal_strlit("&");
    if let Type::Ref(inner, m) = t {
        let it = type_text(*inner);
        lemma_type_text_start(*inner);
        assert(type_text(t) == "&"@ + it);
        assert(type_text(t)[0] == '&' && type_text(t)[1] == it[0]);
        assert(s[i] == '&');
        assert(s[i + 1] == it[0]);
        assert(s[i + 1] != '&');
        assert(sym_at(s, i) == Some((Sym::Amp, i + 1)));
        let a1 = acc.push(SToken::Sym(Sym::Amp));
        assert forall|j: int| 0 <= j < it.len() implies s[i + 1 + j] == #[trigger] it[j] by {
            assert(type_text(t)[1 + j] == it[j]);
        }
        assert(s.subrange(i + 1, i + 1 + it.len()) =~= it);
        lemma_lex_type(s, i + 1, *inner, a1);
        assert(a1 + type_toks(*inner) =~= acc + type_toks(t));
    }
}

/// The grammar reads a type back from its tokens, wherever they stand.
proof fn lemma_parse_type(ts: Seq<SToken>, p: int, t: Type)
    requires
        0 <= p,
        p + type_toks(t).len() <= ts.len(),
        ts.subrange(p, p + type_toks(t).len()) == type_toks(t),
    ensures
        g_type(ts, p) == Some((t, p + type_toks(t).len())),
    decreases t, 1nat,
{
    let n = type_toks(t).len();
    assert forall|k: int| 0 <= k < n implies ts[p + k] == #[trigger] type_toks(t)[k] by {
        assert(ts.subrange(p, p + n)[k] == ts[p + k]);
    }
    reveal_strlit("i32");
    reveal_strlit("bool");
    reveal_strlit("String");
    reveal_strlit("mut");
    assert("bool"@[0] != "i32"@[0]);
    assert("String"@[0] != "i32"@[0]);
    assert("String"@[0] != "bool"@[0]);
    assert(ts[p] == type_toks(t)[0]);
    match t {
        Type::Unit => {
            assert(ts[p + 1] == type_toks(t)[1]);
        },
        Type::Ref(inner, m) => {
            if m.0 {
                lemma_parse_ref_mut(ts, p, t);
            } else {
                match *inner {
                    Type::Ref(_, _) => lemma_parse_ref_ref(ts, p, t),
                    _ => lemma_parse_ref_base(ts, p, t),
                }
            }
        },
        _ => {},
    }
}

proof fn lemma_parse_ref_mut(ts: Seq<SToken>, p: int, t: Type)
    requires
        0 <= p,
        p + type_toks(t).len() <= ts.len(),
        forall|k: int| 0 <= k < type_toks(t).len() ==> ts[p + k] == #[trigger] type_toks(t)[k],
        t matches Type::Ref(_, m) && m.0,
    ensures
        g_type(ts, p) == Some((t, p + type_toks(t).len())),
    decreases t, 0nat,
{
    if let Type::Ref(inner, m) = t {
        let k = type_toks(*inner).len();
        let pre = seq![SToken::Sym(Sym::Amp), SToken::Ident("mut"@)];
        assert(type_toks(t) == pre + type_toks(*inner));
        assert forall|j: int| 0 <= j < k implies ts[p + 2 + j] == #[trigger] type_toks(*inner)[j] by {
            assert(type_toks(t)[2 + j] == type_toks(*inner)[j]);
        }
        assert(ts[p] == type_toks(t)[0] && ts[p + 1] == type_toks(t)[1]);
        assert(ts[p] == SToken::Sym(Sym::Amp));
        assert(ts[p + 1] == SToken::Ident("mut"@));
        assert(ts.subrange(p + 2, p + 2 + k) =~= type_toks(*inner));
        lemma_parse_type(ts, p + 2, *inner);
        assert(m == Mutable(true));
    }
}

proof fn lemma_parse_ref_ref(ts: Seq<SToken>, p: int, t: Type)
    requires
        0 <= p,
        p + type_toks(t).len() <= ts.len(),
        forall|k: int| 0 <= k < type_toks(t).len() ==> ts[p + k] == #[trigger] type_toks(t)[k],
        t matches Type::Ref(inner, m) && !m.0 && (*inner is Ref),
    ensures
        g_type(ts, p) == Some((t, p + type_toks(t).len())),
    decreases t, 0nat,
{
    if let Type::Ref(inner, m) = t {
        if let Type::Ref(i2, m2) = *inner {
            lemma_type_text_start(*i2);
            let k = type_toks(*i2).len();
            let o = if m2.0 { seq![SToken::Ident("mut"@)] } else { Seq::<SToken>::empty() };
            assert(type_toks(t) == seq![SToken::Sym(Sym::AndAnd)] + o + type_toks(*i2));
            let d = 1 + o.len();
            assert forall|j: int| 0 <= j < k implies ts[p + d + j] == #[trigger] type_toks(*i2)[j] by {
                assert(type_toks(t)[d + j] == type_toks(*i2)[j]);
            }
            assert(ts[p] == type_toks(t)[0]);
            assert(ts[p] == SToken::Sym(Sym::AndAnd));
            assert(ts.subrange(p + d, p + d + k) =~= type_toks(*i2));
            if m2.0 {
                assert(ts[p + 1] == type_toks(t)[1]);
                assert(ts[p + 1] == SToken::Ident("mut"@));
            } else {
                assert(ts[p + 1] == type_toks(*i2)[0]);
            }
            lemma_parse_type(ts, p + d, *i2);
            assert(m == Mutable(false));
            assert(m2 == Mutable(m2.0));
        }
    }
}

proof fn lemma_parse_ref_base(ts: Seq<SToken>, p: int, t: Type)
    requires
        0 <= p,
        p + type_toks(t).len() <= ts.len(),
        forall|k: int| 0 <= k < type_toks(t).len() ==> ts[p + k] == #[trigger] type_toks(t)[k],
        t matches Type::Ref(inner, m) && !m.0 && !(*inner is Ref),
    ensures
        g_type(ts, p) == Some((t, p + type_toks(t).len())),
    decreases t, 0nat,
{
    if let Type::Ref(inner, m) = t {
        lemma_type_text_start(*inner);
        let k = type_toks(*inner).len();
        assert(type_toks(t) == seq![SToken::Sym(Sym::Amp)] + type_toks(*inner));
        assert forall|j: int| 0 <= j < k implies ts[p + 1 + j] == #[trigger] type_toks(*inner)[j] by {
            assert(type_toks(t)[1 + j] == type_toks(*inner)[j]);
        }
        assert(ts[p] == type_toks(t)[0]);
        assert(ts[p] == SToken::Sym(Sym::Amp));
        assert(ts.subrange(p + 1, p + 1 + k) =~= type_toks(*inner));
        assert(ts[p + 1] == type_toks(*inner)[0]);
        lemma_parse_type(ts, p + 1, *inner);
        assert(m == Mutable(false));
    }
}

/// Reading back what printing a type gives yields the type again.
pub proof fn law_type_round_trip(t: Type)
    ensures
        spec_parse::<Type>(type_text(t)) == Some(t),
{
    let s = type_text(t);
    assert(s.subrange(0, s.len() as int) =~= s);
    lemma_lex_type(s, 0, t, Seq::empty());
    assert(Seq::<SToken>::empty() + type_toks(t) =~= type_toks(t));
    let ts = type_toks(t);
    assert(ts.subrange(0, ts.len() as int) =~= ts);
    lemma_parse_type(ts, 0, t);
}

// ---------------------------------------------------------------------
// Printing a literal and reading it back.
// ---------------------------------------------------------------------

/// The value of decimal digits read after the value `v`.
pub open spec fn digits_after(v: nat, t: Seq<char>) -> nat
    decreases t.len(),
{
    if t.len() == 0 {
        v
    } else {
        digits_after(v, t.drop_last()) * 10 + digit_value(t.last())
    }
}

proof fn lemma_digit_char(d: nat)
    requires
        d < 10,
    ensures
        is_digit(digit_char(d)),
        digit_value(digit_char(d)) == d,
{
}

proof fn lemma_nat_text(n: nat)
    ensures
        nat_text(n).len() > 0,
        forall|k: int| 0 <= k < nat_text(n).len() ==> is_digit(#[trigger] nat_text(n)[k]),
        digits_after(0, nat_text(n)) == n,
    decreases n,
{
    if n < 10 {
        lemma_digit_char(n);
        assert(nat_text(n).drop_last() =~= Seq::<char>::empty());
        assert(nat_text(n).last() == digit_char(n));
        assert(digits_after(0, nat_text(n)) == digits_after(0, Seq::<char>::empty()) * 10 + digit_value(digit_char(n)));
    } else {
        lemma_nat_text(n / 10);
        lemma_digit_char(n % 10);
        let p = nat_text(n / 10);
        assert(nat_text(n).drop_last() =~= p);
        assert(nat_text(n).last() == digit_char(n % 10));
        assert(digits_after(0, nat_text(n)) == digits_after(0, p) * 10 + digit_value(digit_char(n % 10)));
        assert((n / 10) * 10 + n % 10 == n);
        assert forall|k: int| 0 <= k < nat_text(n).len() implies is_digit(#[trigger] nat_text(n)[k]) by {
            if k < p.len() {
                assert(nat_text(n)[k] == p[k]);
            }
        }
    }
}

proof fn lemma_digits_after_prepend(v: nat, d: char, t: Seq<char>)
    ensures
        digits_after(v, seq![d] + t) == digits_after(v * 10 + digit_value(d), t),
    decreases t.len(),
{
    let w = v * 10 + digit_value(d);
    if t.len() == 0 {
        assert((seq![d] + t).drop_last() =~= Seq::<char>::empty());
        assert((seq![d] + t).last() == d);
        assert(digits_after(v, seq![d] + t) == digits_after(v, Seq::<char>::empty()) * 10 + digit_value(d));
    } else {
        assert((seq![d] + t).drop_last() =~= seq![d] + t.drop_last());
        assert((seq![d] + t).last() == t.last());
        lemma_digits_after_prepend(v, d, t.drop_last());
        assert(digits_after(v, seq![d] + t) == digits_after(v, seq![d] + t.drop_last()) * 10 + digit_value(t.last()));
        assert(digits_after(w, t) == digits_after(w, t.drop_last()) * 10 + digit_value(t.last()));
    }
}

proof fn lemma_digits_after_grow(v: nat, t: Seq<char>)
    ensures
        v <= digits_after(v, t),
    decreases t.len(),
{
    if t.len() > 0 {
        lemma_digits_after_grow(v, t.drop_last());
    }
}

/// Reading the digits that run from `i` to `j`.
proof fn lemma_number_run(s: Seq<char>, i: int, j: int, v: nat)
    requires
        0 <= i <= j <= s.len(),
        forall|k: int| i <= k < j ==> is_digit(#[trigger] s[k]),
        j == s.len() || (!is_digit(s[j]) && s[j] != '_'),
        digits_after(v, s.subrange(i, j)) <= u32::MAX,
    ensures
        number(s, i, v) == Some((digits_after(v, s.subrange(i, j)), j)),
    decreases j - i,
{
    if i < j {
        let w = v * 10 + digit_value(s[i]);
        assert(s.subrange(i, j) =~= seq![s[i]] + s.subrange(i + 1, j));
        lemma_digits_after_prepend(v, s[i], s.subrange(i + 1, j));
        lemma_digits_after_grow(w, s.subrange(i + 1, j));
        lemma_number_run(s, i + 1, j, w);
    } else {
        assert(s.subrange(i, j) =~= Seq::<char>::empty());
    }
}

/// The digits of `n` at `i`, followed by no identifier character, lex to
/// the integer token `n`.
proof fn lemma_lex_nat(s: Seq<char>, i: int, n: nat, acc: Seq<SToken>)
    requires
        0 <= i,
        n <= u32::MAX,
        i + nat_text(n).len() <= s.len(),
        s.subrange(i, i + nat_text(n).len()) == nat_text(n),
        i + nat_text(n).len() == s.len() || !is_ident_char(s[i + nat_text(n).len()]),
    ensures
        lex_from(s, i, acc) == lex_from(s, i + nat_text(n).len(), acc.push(SToken::Int(n as u32))),
{
    lemma_nat_text(n);
    let j = i + nat_text(n).len();
    assert forall|k: int| i <= k < j implies is_digit(#[trigger] s[k]) by {
        assert(s[k] == s.subrange(i, j)[k - i]);
    }
    lemma_number_run(s, i, j, 0);
    assert(is_digit(s[i]));
    if i + 1 < j {
        assert(is_digit(s[i + 1]));
    }
    assert(i + 1 < s.len() ==> s[i + 1] != 'x');
}

/// Reading the body of a string literal without quotes or backslashes.
proof fn lemma_string_run(s: Seq<char>, i: int, body: Seq<char>, k: int)
    requires
        0 <= i,
        0 <= k <= body.len(),
        i + body.len() < s.len(),
        s.subrange(i, i + body.len()) == body,
        s[i + body.len()] == '"',
        forall|q: int| 0 <= q < body.len() ==> #[trigger] body[q] != '"' && body[q] != '\\',
    ensures
        string_body(s, i + k, body.take(k)) == Some((body, i + body.len() + 1)),
    decreases body.len() - k,
{
    if k < body.len() {
        assert(s[i + k] == body[k]) by {
            assert(s.subrange(i, i + body.len())[k] == s[i + k]);
        }
        assert(body.take(k).push(body[k]) =~= body.take(k + 1));
        lemma_string_run(s, i, body, k + 1);
    } else {
        assert(body.take(k) =~= body);
    }
}

/// Literals whose text reads back as themselves: all but unit (whose text
/// `()` is no literal of the grammar) and strings holding a quote or a
/// backslash (which are printed without escapes).
pub open spec fn reads_back(l: SLit) -> bool {
    match l {
        SLit::Str(s) => forall|q: int| 0 <= q < s.len() ==> #[trigger] s[q] != '"' && s[q] != '\\',
        SLit::Unit => false,
        _ => true,
    }
}

/// The tokens of a literal's text.
pub open spec fn lit_toks(l: SLit) -> Seq<SToken> {
    match l {
        SLit::Int(i) => if i < 0 {
            seq![SToken::Sym(Sym::Minus), SToken::Int((-(i as int)) as u32)]
        } else {
            seq![SToken::Int(i as u32)]
        },
        SLit::Bool(b) => seq![SToken::Ident(if b { "true"@ } else { "false"@ })],
        SLit::Str(s) => seq![SToken::Str(s)],
        SLit::Unit => seq![SToken::Sym(Sym::LParen), SToken::Sym(Sym::RParen)],
    }
}

/// Literals whose text reads back as themselves inside an expression: those
/// that read back as literals, and unit, which an expression reads as `()`.
pub open spec fn lit_form(l: SLit) -> bool {
    reads_back(l) || l is Unit
}

/// The text of a literal, wherever it stands, lexes to its tokens when no
/// identifier character follows it.
proof fn lemma_lex_lit_at(s: Seq<char>, i: int, l: SLit, acc: Seq<SToken>)
    requires
        lit_form(l),
        0 <= i,
        i + lit_text(l).len() <= s.len(),
        s.subrange(i, i + lit_text(l).len()) == lit_text(l),
        i + lit_text(l).len() == s.len() || !is_ident_char(s[i + lit_text(l).len()]),
    ensures
        lex_from(s, i, acc) == lex_from(s, i + lit_text(l).len(), acc + lit_toks(l)),
{
    let w = lit_text(l);
    let n = w.len();
    assert forall|k: int| 0 <= k < n implies s[i + k] == #[trigger] w[k] by {
        assert(s.subrange(i, i + n)[k] == s[i + k]);
    }
    match l {
        SLit::Int(v) => {
            if v < 0 {
                let m = (-(v as int)) as nat;
                lemma_nat_text(m);
                let d = nat_text(m);
                assert(w == seq!['-'] + d);
                assert(w[0] == '-');
                assert(s[i] == '-');
                assert forall|k: int| 0 <= k < d.len() implies s[i + 1 + k] == #[trigger] d[k] by {
                    assert(w[1 + k] == d[k]);
                }
                assert(s.subrange(i + 1, i + 1 + d.len()) =~= d);
                assert(s[i + 1] == d[0]);
                assert(!is_space(s[i]) && !is_ident_start(s[i]) && !is_digit(s[i]));
                assert(sym_at(s, i) == Some((Sym::Minus, i + 1)));
                let a1 = acc.push(SToken::Sym(Sym::Minus));
                assert(lex_from(s, i, acc) == lex_from(s, i + 1, a1));
                lemma_lex_nat(s, i + 1, m, a1);
                assert(m as u32 == (-(v as int)) as u32);
                assert(a1.push(SToken::Int(m as u32)) =~= acc + lit_toks(l));
            } else {
                let m = v as nat;
                lemma_nat_text(m);
                assert(w == nat_text(m));
                lemma_lex_nat(s, i, m, acc);
                assert(acc.push(SToken::Int(m as u32)) =~= acc + lit_toks(l));
            }
        },
        SLit::Bool(b) => {
            reveal_strlit("true");
            reveal_strlit("false");
            assert forall|k: int| 0 <= k < w.len() implies is_ident_char(#[trigger] w[k]) by {
                if b {
                    if k == 0 {} else if k == 1 {} else if k == 2 {} else {}
                } else {
                    if k == 0 {} else if k == 1 {} else if k == 2 {} else if k == 3 {} else {}
                }
            }
            lemma_lex_word(s, i, w, acc);
            assert(acc.push(SToken::Ident(w)) =~= acc + lit_toks(l));
        },
        SLit::Str(body) => {
            reveal_strlit("\"");
            assert(w == seq!['"'] + body + seq!['"']);
            assert forall|k: int| 0 <= k < body.len() implies s[i + 1 + k] == #[trigger] body[k] by {
                assert(w[1 + k] == body[k]);
            }
            assert(s.subrange(i + 1, i + 1 + body.len() as int) =~= body);
            assert(s[i + 1 + body.len() as int] == w[1 + body.len() as int]);
            lemma_string_run(s, i + 1, body, 0);
            assert(body.take(0) =~= Seq::<char>::empty());
            assert(string_body(s, i + 1, Seq::empty()) == Some((body, i + 2 + body.len() as int)));
            assert(w[0] == '"');
            assert(s[i] == '"');
            assert(!is_space(s[i]) && !is_ident_start(s[i]) && !is_digit(s[i]) && s[i] != '/');
            assert(acc.push(SToken::Str(body)) =~= acc + lit_toks(l));
        },
        SLit::Unit => {
            reveal_strlit("()");
            assert(w == "()"@);
            assert(w[0] == '(' && w[1] == ')');
            assert(s[i] == w[0] && s[i + 1] == w[1]);
            assert(!is_space(s[i]) && !is_ident_start(s[i]) && !is_digit(s[i]) && s[i] != '/');
            assert(sym_at(s, i) == Some((Sym::LParen, i + 1)));
            let a1 = acc.push(SToken::Sym(Sym::LParen));
            assert(lex_from(s, i, acc) == lex_from(s, i + 1, a1));
            assert(!is_space(s[i + 1]) && !is_ident_start(s[i + 1]) && !is_digit(s[i + 1]) && s[i + 1] != '/');
            assert(sym_at(s, i + 1) == Some((Sym::RParen, i + 2)));
            assert(a1.push(SToken::Sym(Sym::RParen)) =~= acc + lit_toks(l));
        },
    }
}

proof fn lemma_lex_lit(l: SLit)
    requires
        reads_back(l),
    ensures
        lex_spec(lit_text(l)) == Some(lit_toks(l)),
{
    let s = lit_text(l);
    assert(s.subrange(0, s.len() as int) =~= s);
    lemma_lex_lit_at(s, 0, l, Seq::empty());
    assert(Seq::<SToken>::empty() + lit_toks(l) =~= lit_toks(l));
    assert(lex_from(s, s.len() as int, lit_toks(l)) == Some(lit_toks(l)));
}

/// Reading back what printing a literal gives yields the literal again,
/// for every literal but those that `reads_back` leaves out.
pub proof fn law_literal_round_trip(l: SLit)
    requires
        reads_back(l),
    ensures
        spec_parse::<Literal>(lit_text(l)) == Some(l),
{
    lemma_lex_lit(l);
    reveal_strlit("true");
    reveal_strlit("false");
}

// ---------------------------------------------------------------------
// Printing an operator expression and reading it back.
// ---------------------------------------------------------------------

/// A variable name: an identifier that is no keyword.
pub open spec fn is_name(x: Seq<char>) -> bool {
    &&& x.len() > 0
    &&& is_ident_start(x[0])
    &&& forall|k: int| 0 <= k < x.len() ==> is_ident_char(#[trigger] x[k])
    &&& !is_keyword(x)
}

/// The name of a function (`f`) or macro (`f!`).
pub open spec fn call_name(id: Seq<char>) -> bool {
    is_name(id) || (id.len() > 1 && id.last() == '!' && is_name(id.drop_last()))
}

pub open spec fn exprs_form(es: Seq<SExpr>) -> bool
    decreases es,
{
    if es.len() == 0 {
        true
    } else {
        exprs_form(es.drop_last()) && expr_form(es.last())
    }
}

/// Blocks whose text reads back as themselves: statements that do, and
/// neither an empty block that ends with `;` (whose text `{ }` reads back
/// without it) nor a `let` as the value of a block.
pub open spec fn block_form(b: SBlock) -> bool
    decreases b,
{
    &&& stmts_form(b.stmts)
    &&& !(b.stmts.len() == 0 && b.semi)
    &&& !(b.stmts.len() > 0 && !b.semi && b.stmts.last() is Let)
}

pub open spec fn stmts_form(ss: Seq<SStmt>) -> bool
    decreases ss,
{
    if ss.len() == 0 {
        true
    } else {
        stmts_form(ss.drop_last()) && stmt_form(ss.last())
    }
}

pub open spec fn stmt_form(s: SStmt) -> bool
    decreases s,
{
    match s {
        SStmt::Let(_, id, _, init) => is_name(id) && match init {
            Some(e) => expr_form(e),
            None => true,
        },
        SStmt::Assign(l, r) => expr_form(l) && expr_form(r),
        SStmt::While(c, b) => expr_form(c) && block_form(b),
        SStmt::Expr(e) => expr_form(e),
        SStmt::Fn(f) => fn_form(f),
    }
}

/// Function declarations with names for the function and its parameters.
pub open spec fn fn_form(f: SFn) -> bool
    decreases f,
{
    &&& is_name(f.id)
    &&& forall|k: int| 0 <= k < f.params.len() ==> is_name(#[trigger] f.params[k].id)
    &&& block_form(f.body)
}

/// A non-negative integer literal.
pub open spec fn nonneg_int_lit(e: SExpr) -> bool {
    match e {
        SExpr::Lit(SLit::Int(n)) => n >= 0,
        _ => false,
    }
}

/// The priority of an expression's outermost operator; operands that are
/// no operator application bind tightest.
pub open spec fn expr_prio(e: SExpr) -> int {
    match e {
        SExpr::BinOp(op, _, _) => op.spec_priority() as int,
        _ => 6,
    }
}

/// Expressions made of variables, literals that read back, parentheses,
/// unary operators, references, calls and binary operators, in the shape the
/// parser builds: the left operand of a binary operator binds at least as
/// tightly, the right one more tightly (operators group to the left; other
/// groupings are parenthesized), unary operators and references apply to
/// an operand, and `-` is not applied to a non-negative integer literal
/// (whose text would read back as a negative literal).
pub open spec fn expr_form(e: SExpr) -> bool
    decreases e,
{
    match e {
        SExpr::Ident(x) => is_name(x),
        SExpr::Lit(l) => lit_form(l),
        SExpr::Par(i) => expr_form(*i),
        SExpr::UnOp(op, i) => {
            &&& expr_form(*i)
            &&& !(*i is BinOp)
            &&& !(op == UnOp::Neg && nonneg_int_lit(*i))
        },
        SExpr::Ref(i, _) => expr_form(*i) && !(*i is BinOp),
        SExpr::Call(id, args) => call_name(id) && exprs_form(args),
        SExpr::Block(b) => block_form(b),
        SExpr::IfThenElse(c, t, eo) => expr_form(*c) && block_form(t) && match eo {
            Some(b) => block_form(b),
            None => true,
        },
        SExpr::BinOp(op, l, r) => {
            &&& expr_form(*l)
            &&& expr_form(*r)
            &&& expr_prio(*l) >= op.spec_priority()
            &&& expr_prio(*r) > op.spec_priority()
        },
        _ => false,
    }
}

pub open spec fn binop_tok(op: BinOp) -> SToken {
    SToken::Sym(
        match op {
            BinOp::Add => Sym::Plus,
            BinOp::Sub => Sym::Minus,
            BinOp::Mul => Sym::Star,
            BinOp::Div => Sym::Slash,
            BinOp::And => Sym::AndAnd,
            BinOp::Or => Sym::OrOr,
            BinOp::Eq => Sym::EqEq,
            BinOp::Lt => Sym::Lt,
            BinOp::Gt => Sym::Gt,
        },
    )
}

/// The tokens of an expression's text.
pub open spec fn expr_toks(e: SExpr) -> Seq<SToken>
    decreases e,
{
    match e {
        SExpr::Ident(x) => seq![SToken::Ident(x)],
        SExpr::Lit(l) => lit_toks(l),
        SExpr::Par(i) => seq![SToken::Sym(Sym::LParen)] + expr_toks(*i) + seq![SToken::Sym(Sym::RParen)],
        SExpr::BinOp(op, l, r) => expr_toks(*l) + seq![binop_tok(op)] + expr_toks(*r),
        SExpr::UnOp(op, i) => seq![unop_tok(op)] + expr_toks(*i),
        SExpr::Call(id, args) => name_toks(id) + seq![SToken::Sym(Sym::LParen)] + args_toks(args) + seq![
            SToken::Sym(Sym::RParen),
        ],
        SExpr::Block(b) => block_toks(b),
        SExpr::IfThenElse(c, t, eo) => word_tok("if"@) + expr_toks(*c) + block_toks(t) + match eo {
            Some(b) => word_tok("else"@) + block_toks(b),
            None => Seq::empty(),
        },
        SExpr::Ref(i, m) => if m {
            seq![SToken::Sym(Sym::Amp), SToken::Ident("mut"@)] + expr_toks(*i)
        } else {
            match *i {
                SExpr::Ref(i2, m2) => seq![SToken::Sym(Sym::AndAnd)] + (if m2 {
                    seq![SToken::Ident("mut"@)]
                } else {
                    Seq::empty()
                }) + expr_toks(*i2),
                _ => seq![SToken::Sym(Sym::Amp)] + expr_toks(*i),
            }
        },
        _ => Seq::empty(),
    }
}

pub open spec fn sym_tok(y: Sym) -> Seq<SToken> {
    seq![SToken::Sym(y)]
}

pub open spec fn word_tok(w: Seq<char>) -> Seq<SToken> {
    seq![SToken::Ident(w)]
}

pub open spec fn block_toks(b: SBlock) -> Seq<SToken>
    decreases b,
{
    sym_tok(Sym::LBrace) + stmts_toks(b.stmts, b.semi) + sym_tok(Sym::RBrace)
}

/// Statements, each followed by `;` but the last, which is followed by
/// `;` when `semi`.
pub open spec fn stmts_toks(ss: Seq<SStmt>, semi: bool) -> Seq<SToken>
    decreases ss,
{
    if ss.len() == 0 {
        Seq::empty()
    } else {
        let init = ss.drop_last();
        (if init.len() == 0 { Seq::empty() } else { stmts_toks(init, true) }) + stmt_toks(ss.last()) + (
        if semi {
            sym_tok(Sym::Semi)
        } else {
            Seq::empty()
        })
    }
}

pub open spec fn opt_type_toks(y: Sym, ty: Option<Type>) -> Seq<SToken> {
    match ty {
        Some(t) => sym_tok(y) + type_toks(t),
        None => Seq::empty(),
    }
}

pub open spec fn stmt_toks(s: SStmt) -> Seq<SToken>
    decreases s,
{
    match s {
        SStmt::Let(m, id, ty, init) => word_tok("let"@) + (if m { word_tok("mut"@) } else { Seq::empty() })
            + word_tok(id) + opt_type_toks(Sym::Colon, ty) + match init {
            Some(e) => sym_tok(Sym::Assign) + expr_toks(e),
            None => Seq::empty(),
        },
        SStmt::Assign(l, r) => expr_toks(l) + sym_tok(Sym::Assign) + expr_toks(r),
        SStmt::While(c, b) => word_tok("while"@) + expr_toks(c) + block_toks(b),
        SStmt::Expr(e) => expr_toks(e),
        SStmt::Fn(f) => fn_toks(f),
    }
}

pub open spec fn param_toks(p: SParam) -> Seq<SToken> {
    (if p.mutable { word_tok("mut"@) } else { Seq::empty() }) + word_tok(p.id) + sym_tok(Sym::Colon)
        + type_toks(p.ty)
}

pub open spec fn params_toks(ps: Seq<SParam>) -> Seq<SToken>
    decreases ps.len(),
{
    if ps.len() == 0 {
        Seq::empty()
    } else if ps.len() == 1 {
        param_toks(ps[0])
    } else {
        params_toks(ps.drop_last()) + sym_tok(Sym::Comma) + param_toks(ps.last())
    }
}

pub open spec fn fn_toks(f: SFn) -> Seq<SToken>
    decreases f,
{
    word_tok("fn"@) + word_tok(f.id) + sym_tok(Sym::LParen) + params_toks(f.params) + sym_tok(Sym::RParen)
        + opt_type_toks(Sym::Arrow, f.ty) + block_toks(f.body)
}

pub open spec fn prog_toks(fs: Seq<SFn>) -> Seq<SToken>
    decreases fs.len(),
{
    if fs.len() == 0 {
        Seq::empty()
    } else {
        prog_toks(fs.drop_last()) + fn_toks(fs.last())
    }
}

/// The tokens of a call's name: a macro name is the identifier and `!`.
pub open spec fn name_toks(id: Seq<char>) -> Seq<SToken> {
    if is_name(id) {
        seq![SToken::Ident(id)]
    } else {
        seq![SToken::Ident(id.drop_last()), SToken::Sym(Sym::Bang)]
    }
}

/// The tokens of call arguments: expressions separated by `,`.
pub open spec fn args_toks(es: Seq<SExpr>) -> Seq<SToken>
    decreases es,
{
    if es.len() == 0 {
        Seq::empty()
    } else if es.len() == 1 {
        expr_toks(es[0])
    } else {
        args_toks(es.drop_last()) + seq![SToken::Sym(Sym::Comma)] + expr_toks(es.last())
    }
}

pub open spec fn unop_tok(op: UnOp) -> SToken {
    SToken::Sym(
        match op {
            UnOp::Bang => Sym::Bang,
            UnOp::Neg => Sym::Minus,
            UnOp::Deref => Sym::Star,
        },
    )
}

proof fn lemma_lex_op(s: Seq<char>, j: int, op: BinOp, acc: Seq<SToken>)
    requires
        0 <= j,
        j + binop_text(op).len() < s.len(),
        s.subrange(j, j + binop_text(op).len()) == binop_text(op),
        s[j + binop_text(op).len()] == ' ',
    ensures
        lex_from(s, j, acc) == lex_from(s, j + binop_text(op).len(), acc.push(binop_tok(op))),
{
    reveal_strlit("+");
    reveal_strlit("-");
    reveal_strlit("*");
    reveal_strlit("/");
    reveal_strlit("&&");
    reveal_strlit("||");
    reveal_strlit("==");
    reveal_strlit("<");
    reveal_strlit(">");
    let w = binop_text(op);
    let n = w.len();
    assert forall|k: int| 0 <= k < n implies s[j + k] == #[trigger] w[k] by {
        assert(s.subrange(j, j + n)[k] == s[j + k]);
    }
    assert(s[j] == w[0]);
    if n == 2 {
        assert(s[j + 1] == w[1]);
    }
}

/// The conditions under which a text `w` stands at `i` in `s`, followed by
/// no identifier character.
pub open spec fn text_at(s: Seq<char>, i: int, w: Seq<char>) -> bool {
    &&& 0 <= i
    &&& i + w.len() <= s.len()
    &&& forall|k: int| 0 <= k < w.len() ==> s[i + k] == #[trigger] w[k]
    &&& i + w.len() == s.len() || !is_ident_char(s[i + w.len()])
}

/// The text of an expression, wherever it stands, lexes to its tokens when
/// no identifier character follows it.
proof fn lemma_lex_expr(s: Seq<char>, i: int, e: SExpr, acc: Seq<SToken>)
    requires
        expr_form(e),
        0 <= i,
        i + expr_text(e).len() <= s.len(),
        s.subrange(i, i + expr_text(e).len()) == expr_text(e),
        i + expr_text(e).len() == s.len() || !is_ident_char(s[i + expr_text(e).len()]),
    ensures
        lex_from(s, i, acc) == lex_from(s, i + expr_text(e).len(), acc + expr_toks(e)),
    decreases e, 2nat,
{
    let w = expr_text(e);
    let n = w.len();
    assert forall|k: int| 0 <= k < n implies s[i + k] == #[trigger] w[k] by {
        assert(s.subrange(i, i + n)[k] == s[i + k]);
    }
    match e {
        SExpr::Ident(x) => {
            lemma_lex_word(s, i, x, acc);
            assert(acc.push(SToken::Ident(x)) =~= acc + expr_toks(e));
        },
        SExpr::Lit(l) => {
            lemma_lex_lit_at(s, i, l, acc);
        },
        SExpr::Par(_) => lemma_lex_par(s, i, e, acc),
        SExpr::BinOp(_, _, _) => lemma_lex_binop(s, i, e, acc),
        SExpr::UnOp(_, _) => lemma_lex_unop(s, i, e, acc),
        SExpr::Ref(_, _) => lemma_lex_ref(s, i, e, acc),
        SExpr::Call(_, _) => lemma_lex_call(s, i, e, acc),
        SExpr::Block(b) => {
            lemma_lex_block(s, i, b, acc);
        },
        SExpr::IfThenElse(_, _, _) => lemma_lex_if(s, i, e, acc),
    }
}

proof fn lemma_lex_par(s: Seq<char>, i: int, e: SExpr, acc: Seq<SToken>)
    requires
        expr_form(e),
        e is Par,
        text_at(s, i, expr_text(e)),
    ensures
        lex_from(s, i, acc) == lex_from(s, i + expr_text(e).len(), acc + expr_toks(e)),
    decreases e, 0nat,
{
    reveal_strlit("(");
    reveal_strlit(")");
    if let SExpr::Par(inner) = e {
        let w = expr_text(e);
        let it = expr_text(*inner);
        assert(w == "("@ + it + ")"@);
        assert(w[0] == '(');
        assert(s[i] == '(');
        assert(sym_at(s, i) == Some((Sym::LParen, i + 1)));
        let a1 = acc.push(SToken::Sym(Sym::LParen));
        assert(lex_from(s, i, acc) == lex_from(s, i + 1, a1));
        assert forall|k: int| 0 <= k < it.len() implies s[i + 1 + k] == #[trigger] it[k] by {
            assert(w[1 + k] == it[k]);
        }
        assert(s.subrange(i + 1, i + 1 + it.len()) =~= it);
        let c = i + 1 + it.len();
        assert(w[1 + it.len() as int] == ')');
        assert(s[c] == ')');
        lemma_lex_expr(s, i + 1, *inner, a1);
        let a2 = a1 + expr_toks(*inner);
        assert(sym_at(s, c) == Some((Sym::RParen, c + 1)));
        assert(lex_from(s, c, a2) == lex_from(s, c + 1, a2.push(SToken::Sym(Sym::RParen))));
        assert(a2.push(SToken::Sym(Sym::RParen)) =~= acc + expr_toks(e));
    }
}

proof fn lemma_lex_binop(s: Seq<char>, i: int, e: SExpr, acc: Seq<SToken>)
    requires
        expr_form(e),
        e is BinOp,
        text_at(s, i, expr_text(e)),
    ensures
        lex_from(s, i, acc) == lex_from(s, i + expr_text(e).len(), acc + expr_toks(e)),
    decreases e, 0nat,
{
    reveal_strlit(" ");
    if let SExpr::BinOp(op, l, r) = e {
        let w = expr_text(e);
        let lt = expr_text(*l);
        let ot = binop_text(op);
        let rt = expr_text(*r);
        assert(w == lt + " "@ + ot + " "@ + rt);
        assert forall|k: int| 0 <= k < lt.len() implies s[i + k] == #[trigger] lt[k] by {
            assert(w[k] == lt[k]);
        }
        assert(s.subrange(i, i + lt.len()) =~= lt);
        let j1 = i + lt.len();
        assert(w[lt.len() as int] == ' ');
        assert(s[j1] == ' ');
        lemma_lex_expr(s, i, *l, acc);
        let a1 = acc + expr_toks(*l);
        assert(lex_from(s, j1, a1) == lex_from(s, j1 + 1, a1));
        let j2 = j1 + 1;
        assert forall|k: int| 0 <= k < ot.len() implies s[j2 + k] == #[trigger] ot[k] by {
            assert(w[lt.len() + 1 + k] == ot[k]);
        }
        assert(s.subrange(j2, j2 + ot.len()) =~= ot);
        let j3 = j2 + ot.len();
        assert(w[(lt.len() + 1 + ot.len()) as int] == ' ');
        assert(s[j3] == ' ');
        lemma_lex_op(s, j2, op, a1);
        let a2 = a1.push(binop_tok(op));
        assert(lex_from(s, j3, a2) == lex_from(s, j3 + 1, a2));
        let j4 = j3 + 1;
        assert forall|k: int| 0 <= k < rt.len() implies s[j4 + k] == #[trigger] rt[k] by {
            assert(w[lt.len() + 2 + ot.len() + k] == rt[k]);
        }
        assert(s.subrange(j4, j4 + rt.len()) =~= rt);
        lemma_lex_expr(s, j4, *r, a2);
        assert(a2 + expr_toks(*r) =~= acc + expr_toks(e));
    }
}

proof fn lemma_forms(es: Seq<SExpr>)
    ensures
        exprs_form(es) <==> forall|k: int| 0 <= k < es.len() ==> expr_form(#[trigger] es[k]),
    decreases es.len(),
{
    if es.len() > 0 {
        lemma_forms(es.drop_last());
        if exprs_form(es) {
            assert forall|k: int| 0 <= k < es.len() implies expr_form(#[trigger] es[k]) by {
                if k < es.len() - 1 {
                    assert(es.drop_last()[k] == es[k]);
                }
            }
        }
        if forall|k: int| 0 <= k < es.len() ==> expr_form(#[trigger] es[k]) {
            assert forall|k: int| 0 <= k < es.drop_last().len() implies expr_form(#[trigger] es.drop_last()[k]) by {
                assert(es.drop_last()[k] == es[k]);
            }
        }
    }
}

/// Call arguments, wherever they stand, lex to their tokens when no
/// identifier character follows them.
proof fn lemma_lex_args(s: Seq<char>, i: int, es: Seq<SExpr>, acc: Seq<SToken>)
    requires
        exprs_form(es),
        0 <= i,
        i + exprs_text(es).len() < s.len(),
        forall|k: int| 0 <= k < exprs_text(es).len() ==> s[i + k] == #[trigger] exprs_text(es)[k],
        !is_ident_char(s[i + exprs_text(es).len()]),
    ensures
        lex_from(s, i, acc) == lex_from(s, i + exprs_text(es).len(), acc + args_toks(es)),
    decreases es,
{
    reveal_strlit(", ");
    lemma_forms(es);
    let w = exprs_text(es);
    if es.len() == 0 {
        assert(acc + args_toks(es) =~= acc);
    } else if es.len() == 1 {
        assert(w == expr_text(es[0]));
        assert(s.subrange(i, i + w.len()) =~= w);
        lemma_lex_expr(s, i, es[0], acc);
    } else {
        let init = es.drop_last();
        lemma_forms(init);
        assert forall|k: int| 0 <= k < init.len() implies expr_form(#[trigger] init[k]) by {
            assert(init[k] == es[k]);
        }
        let it = exprs_text(init);
        let lt = expr_text(es.last());
        assert(w == it + ", "@ + lt);
        assert forall|k: int| 0 <= k < it.len() implies s[i + k] == #[trigger] it[k] by {
            assert(w[k] == it[k]);
        }
        assert(w[it.len() as int] == ',');
        assert(w[it.len() + 1int] == ' ');
        lemma_lex_args(s, i, init, acc);
        let a1 = acc + args_toks(init);
        let j = i + it.len();
        assert(s[j] == ',' && s[j + 1] == ' ');
        assert(sym_at(s, j) == Some((Sym::Comma, j + 1)));
        let a2 = a1.push(SToken::Sym(Sym::Comma));
        assert(lex_from(s, j, a1) == lex_from(s, j + 1, a2));
        assert(lex_from(s, j + 1, a2) == lex_from(s, j + 2, a2));
        assert forall|k: int| 0 <= k < lt.len() implies s[j + 2 + k] == #[trigger] lt[k] by {
            assert(w[it.len() + 2 + k] == lt[k]);
        }
        assert(s.subrange(j + 2, j + 2 + lt.len()) =~= lt);
        assert(w.len() == it.len() + 2 + lt.len());
        lemma_lex_expr(s, j + 2, es.last(), a2);
        assert(a2 + expr_toks(es.last()) =~= acc + args_toks(es));
    }
}

proof fn lemma_lex_call(s: Seq<char>, i: int, e: SExpr, acc: Seq<SToken>)
    requires
        expr_form(e),
        e is Call,
        0 <= i,
        i + expr_text(e).len() <= s.len(),
        forall|k: int| 0 <= k < expr_text(e).len() ==> s[i + k] == #[trigger] expr_text(e)[k],
        i + expr_text(e).len() == s.len() || !is_ident_char(s[i + expr_text(e).len()]),
    ensures
        lex_from(s, i, acc) == lex_from(s, i + expr_text(e).len(), acc + expr_toks(e)),
    decreases e, 0nat,
{
    reveal_strlit("(");
    reveal_strlit(")");
    if let SExpr::Call(id, args) = e {
        let w = expr_text(e);
        let at = exprs_text(args);
        assert(w == id + "("@ + at + ")"@);
        let j = i + id.len();
        assert forall|k: int| 0 <= k < id.len() implies s[i + k] == #[trigger] id[k] by {
            assert(w[k] == id[k]);
        }
        assert(w[id.len() as int] == '(');
        assert(s[j] == '(');
        let a1 = acc + name_toks(id);
        if is_name(id) {
            assert(s.subrange(i, i + id.len()) =~= id);
            lemma_lex_word(s, i, id, acc);
            assert(acc.push(SToken::Ident(id)) =~= a1);
        } else {
            let x = id.drop_last();
            assert(s.subrange(i, i + x.len()) =~= x);
            assert(s[i + x.len()] == id[x.len() as int]);
            assert(id[x.len() as int] == '!');
            lemma_lex_word(s, i, x, acc);
            let b1 = acc.push(SToken::Ident(x));
            assert(sym_at(s, i + x.len()) == Some((Sym::Bang, j)));
            assert(lex_from(s, i + x.len(), b1) == lex_from(s, j, b1.push(SToken::Sym(Sym::Bang))));
            assert(b1.push(SToken::Sym(Sym::Bang)) =~= a1);
        }
        assert(sym_at(s, j) == Some((Sym::LParen, j + 1)));
        let a2 = a1.push(SToken::Sym(Sym::LParen));
        assert(lex_from(s, j, a1) == lex_from(s, j + 1, a2));
        assert forall|k: int| 0 <= k < at.len() implies s[j + 1 + k] == #[trigger] at[k] by {
            assert(w[id.len() + 1 + k] == at[k]);
        }
        let c = j + 1 + at.len();
        assert(w[(id.len() + 1 + at.len()) as int] == ')');
        assert(s[c] == ')');
        lemma_lex_args(s, j + 1, args, a2);
        let a3 = a2 + args_toks(args);
        assert(sym_at(s, c) == Some((Sym::RParen, c + 1)));
        assert(lex_from(s, c, a3) == lex_from(s, c + 1, a3.push(SToken::Sym(Sym::RParen))));
        assert(a3.push(SToken::Sym(Sym::RParen)) =~= acc + expr_toks(e));
    }
}

proof fn lemma_lex_unop(s: Seq<char>, i: int, e: SExpr, acc: Seq<SToken>)
    requires
        expr_form(e),
        e is UnOp,
        0 <= i,
        i + expr_text(e).len() <= s.len(),
        forall|k: int| 0 <= k < expr_text(e).len() ==> s[i + k] == #[trigger] expr_text(e)[k],
        i + expr_text(e).len() == s.len() || !is_ident_char(s[i + expr_text(e).len()]),
    ensures
        lex_from(s, i, acc) == lex_from(s, i + expr_text(e).len(), acc + expr_toks(e)),
    decreases e, 0nat,
{
    reveal_strlit("!");
    reveal_strlit("-");
    reveal_strlit("*");
    if let SExpr::UnOp(op, inner) = e {
        let w = expr_text(e);
        let it = expr_text(*inner);
        lemma_first_char(*inner);
        assert(w == unop_text(op) + it);
        assert(w[0] == unop_text(op)[0]);
        assert(w[1] == it[0]);
        assert(s[i] == w[0] && s[i + 1] == it[0]);
        assert(sym_at(s, i) == Some((unop_tok(op)->Sym_0, i + 1)));
        let a1 = acc.push(unop_tok(op));
        assert(lex_from(s, i, acc) == lex_from(s, i + 1, a1));
        assert forall|k: int| 0 <= k < it.len() implies s[i + 1 + k] == #[trigger] it[k] by {
            assert(w[1 + k] == it[k]);
        }
        assert(s.subrange(i + 1, i + 1 + it.len()) =~= it);
        lemma_lex_expr(s, i + 1, *inner, a1);
        assert(a1 + expr_toks(*inner) =~= acc + expr_toks(e));
    }
}

proof fn lemma_lex_ref(s: Seq<char>, i: int, e: SExpr, acc: Seq<SToken>)
    requires
        expr_form(e),
        e is Ref,
        0 <= i,
        i + expr_text(e).len() <= s.len(),
        forall|k: int| 0 <= k < expr_text(e).len() ==> s[i + k] == #[trigger] expr_text(e)[k],
        i + expr_text(e).len() == s.len() || !is_ident_char(s[i + expr_text(e).len()]),
    ensures
        lex_from(s, i, acc) == lex_from(s, i + expr_text(e).len(), acc + expr_toks(e)),
    decreases e, 0nat,
{
    reveal_strlit("&");
    reveal_strlit("&mut ");
    reveal_strlit("mut");
    lemma_mut_word();
    if let SExpr::Ref(inner, m) = e {
        let w = expr_text(e);
        let it = expr_text(*inner);
        lemma_first_char(*inner);
        if m {
            assert(w == "&mut "@ + it);
            assert(w[0] == '&' && w[1] == 'm' && w[2] == 'u' && w[3] == 't' && w[4] == ' ');
            assert(s[i] == '&' && s[i + 1] == 'm' && s[i + 4] == ' ');
            assert(sym_at(s, i) == Some((Sym::Amp, i + 1)));
            let a1 = acc.push(SToken::Sym(Sym::Amp));
            assert(s.subrange(i + 1, i + 4) =~= "mut"@);
            lemma_lex_word(s, i + 1, "mut"@, a1);
            let a2 = a1.push(SToken::Ident("mut"@));
            assert forall|j: int| 0 <= j < it.len() implies s[i + 5 + j] == #[trigger] it[j] by {
                assert(w[5 + j] == it[j]);
            }
            assert(s.subrange(i + 5, i + 5 + it.len()) =~= it);
            lemma_lex_expr(s, i + 5, *inner, a2);
            assert(a2 + expr_toks(*inner) =~= acc + expr_toks(e));
        } else {
            assert(w == "&"@ + it);
            assert(w[0] == '&' && w[1] == it[0]);
            assert(s[i] == '&');
            match *inner {
                SExpr::Ref(i2, m2) => {
                    let i2t = expr_text(*i2);
                    assert(expr_form(*inner));
                    assert(expr_form(*i2));
                    lemma_first_char(*i2);
                    assert(it[0] == '&');
                    assert(s[i + 1] == '&');
                    assert(sym_at(s, i) == Some((Sym::AndAnd, i + 2)));
                    let a1 = acc.push(SToken::Sym(Sym::AndAnd));
                    if m2 {
                        assert(it == "&mut "@ + i2t);
                        assert(w[2] == 'm' && w[3] == 'u' && w[4] == 't' && w[5] == ' ');
                        assert(s[i + 2] == 'm' && s[i + 5] == ' ');
                        assert(s.subrange(i + 2, i + 5) =~= "mut"@);
                        lemma_lex_word(s, i + 2, "mut"@, a1);
                        let a2 = a1.push(SToken::Ident("mut"@));
                        assert forall|j: int| 0 <= j < i2t.len() implies s[i + 6 + j] == #[trigger] i2t[j] by {
                            assert(w[6 + j] == i2t[j]);
                        }
                        assert(s.subrange(i + 6, i + 6 + i2t.len()) =~= i2t);
                        lemma_lex_expr(s, i + 6, *i2, a2);
                        assert(a2 + expr_toks(*i2) =~= acc + expr_toks(e));
                    } else {
                        assert(it == "&"@ + i2t);
                        assert forall|j: int| 0 <= j < i2t.len() implies s[i + 2 + j] == #[trigger] i2t[j] by {
                            assert(w[2 + j] == i2t[j]);
                        }
                        assert(s.subrange(i + 2, i + 2 + i2t.len()) =~= i2t);
                        lemma_lex_expr(s, i + 2, *i2, a1);
                        assert(a1 + expr_toks(*i2) =~= acc + expr_toks(e));
                    }
                },
                _ => {
                    assert(s[i + 1] == it[0]);
                    assert(s[i + 1] != '&');
                    assert(sym_at(s, i) == Some((Sym::Amp, i + 1)));
                    let a1 = acc.push(SToken::Sym(Sym::Amp));
                    assert forall|j: int| 0 <= j < it.len() implies s[i + 1 + j] == #[trigger] it[j] by {
                        assert(w[1 + j] == it[j]);
                    }
                    assert(s.subrange(i + 1, i + 1 + it.len()) =~= it);
                    lemma_lex_expr(s, i + 1, *inner, a1);
                    assert(a1 + expr_toks(*inner) =~= acc + expr_toks(e));
                },
            }
        }
    }
}

/// The first operand of an operator expression, down its left operands.
pub open spec fn leftmost(e: SExpr) -> SExpr
    decreases e,
{
    match e {
        SExpr::BinOp(_, l, _) => leftmost(*l),
        _ => e,
    }
}

/// `e` with its leftmost operand replaced by `a`.
pub open spec fn with_leftmost(e: SExpr, a: SExpr) -> SExpr
    decreases e,
{
    match e {
        SExpr::BinOp(op, l, r) => SExpr::BinOp(op, Box::new(with_leftmost(*l, a)), r),
        _ => a,
    }
}

/// The tokens of `e` after those of its leftmost operand.
pub open spec fn rest_toks(e: SExpr) -> Seq<SToken>
    decreases e,
{
    match e {
        SExpr::BinOp(op, l, r) => rest_toks(*l) + seq![binop_tok(op)] + expr_toks(*r),
        _ => Seq::empty(),
    }
}

proof fn lemma_leftmost(e: SExpr)
    ensures
        expr_toks(e) == expr_toks(leftmost(e)) + rest_toks(e),
        with_leftmost(e, leftmost(e)) == e,
        !(leftmost(e) is BinOp),
        expr_form(e) ==> expr_form(leftmost(e)),
    decreases e,
{
    match e {
        SExpr::BinOp(op, l, r) => {
            lemma_leftmost(*l);
            assert(expr_toks(e) =~= expr_toks(leftmost(e)) + rest_toks(e));
        },
        _ => {
            assert(expr_toks(e) =~= expr_toks(e) + Seq::<SToken>::empty());
        },
    }
}

/// The first token of an operator expression opens an operand: it is no
/// `)`, `,` or `mut`, and an integer only for a non-negative literal.
proof fn lemma_first_tok(e: SExpr)
    requires
        expr_form(e),
    ensures
        expr_toks(e).len() > 0,
        expr_toks(e)[0] != SToken::Sym(Sym::RParen),
        expr_toks(e)[0] != SToken::Sym(Sym::Comma),
        expr_toks(e)[0] != SToken::Ident("mut"@),
        expr_toks(e)[0] != SToken::Ident("fn"@),
        expr_toks(e)[0] != SToken::Ident("let"@),
        expr_toks(e)[0] != SToken::Ident("while"@),
        expr_toks(e)[0] != SToken::Sym(Sym::RBrace),
        expr_toks(e)[0] is Int ==> nonneg_int_lit(leftmost(e)),
    decreases e,
{
    reveal_strlit("mut");
    reveal_strlit("fn");
    reveal_strlit("let");
    reveal_strlit("while");
    reveal_strlit("if");
    assert(is_keyword("fn"@) && is_keyword("let"@) && is_keyword("while"@));
    reveal_strlit("true");
    reveal_strlit("false");
    assert("true"@.len() == 4 && "false"@.len() == 5 && "if"@.len() == 2);
    assert("fn"@.len() == 2 && "let"@.len() == 3 && "while"@.len() == 5);
    assert("false"@[0] != "while"@[0]);
    assert("if"@[0] != "fn"@[0]);
    assert("true"@ != "fn"@ && "true"@ != "let"@ && "true"@ != "while"@);
    assert("false"@ != "fn"@ && "false"@ != "let"@ && "false"@ != "while"@);
    assert("if"@ != "fn"@ && "if"@ != "let"@ && "if"@ != "while"@);
    reveal_strlit("true");
    reveal_strlit("false");
    assert("true"@[0] != "mut"@[0]);
    assert("false"@[0] != "mut"@[0]);
    match e {
        SExpr::BinOp(op, l, r) => {
            lemma_first_tok(*l);
            assert(expr_toks(e)[0] == expr_toks(*l)[0]);
        },
        SExpr::Ident(x) => {
            assert(is_keyword("mut"@));
        },
        SExpr::Ref(i, m) => {
            if !m {
                match *i {
                    SExpr::Ref(i2, m2) => {
                        let o = if m2 { seq![SToken::Ident("mut"@)] } else { Seq::<SToken>::empty() };
                        assert((seq![SToken::Sym(Sym::AndAnd)] + o + expr_toks(*i2))[0] == SToken::Sym(Sym::AndAnd));
                    },
                    _ => {
                        lemma_first_tok(*i);
                        assert((seq![SToken::Sym(Sym::Amp)] + expr_toks(*i))[0] == SToken::Sym(Sym::Amp));
                    },
                }
            } else {
                lemma_first_tok(*i);
            }
        },
        SExpr::UnOp(op, i) => {
            lemma_first_tok(*i);
        },
        SExpr::Block(b) => {
            assert(expr_toks(e) == block_toks(b));
            assert(block_toks(b) == sym_tok(Sym::LBrace) + stmts_toks(b.stmts, b.semi) + sym_tok(Sym::RBrace));
            assert((sym_tok(Sym::LBrace) + stmts_toks(b.stmts, b.semi) + sym_tok(Sym::RBrace))[0] == SToken::Sym(
                Sym::LBrace,
            ));
        },
        SExpr::IfThenElse(c, t, eo) => {
            reveal_strlit("if");
            assert("if"@[0] != "mut"@[0]);
            let tail = expr_toks(*c) + block_toks(t) + match eo {
                Some(b) => word_tok("else"@) + block_toks(b),
                None => Seq::<SToken>::empty(),
            };
            assert(expr_toks(e) == word_tok("if"@) + tail);
            assert((word_tok("if"@) + tail)[0] == SToken::Ident("if"@));
        },
        SExpr::Lit(l) => {
            match l {
                SLit::Int(v) => {},
                _ => {},
            }
        },
        _ => {},
    }
}

/// The first character of an operator expression's text: never `>`, and
/// `&` exactly when its leftmost operand is a reference.
proof fn lemma_first_char(e: SExpr)
    requires
        expr_form(e),
    ensures
        expr_text(e).len() > 0,
        expr_text(e)[0] != '>',
        (expr_text(e)[0] == '&') == (leftmost(e) is Ref),
    decreases e,
{
    reveal_strlit("true");
    reveal_strlit("false");
    reveal_strlit("\"");
    reveal_strlit("(");
    reveal_strlit("!");
    reveal_strlit("-");
    reveal_strlit("*");
    reveal_strlit("&");
    reveal_strlit("&mut ");
    reveal_strlit(" ");
    match e {
        SExpr::BinOp(op, l, r) => {
            lemma_first_char(*l);
            let lt = expr_text(*l);
            assert(expr_text(e) == lt + " "@ + binop_text(op) + " "@ + expr_text(*r));
            assert(expr_text(e)[0] == lt[0]);
        },
        SExpr::Ident(x) => {},
        SExpr::Lit(l) => {
            match l {
                SLit::Int(v) => {
                    if v < 0 {
                        assert(lit_text(l) == seq!['-'] + nat_text((-(v as int)) as nat));
                    } else {
                        lemma_nat_text(v as nat);
                        assert(is_digit(nat_text(v as nat)[0]));
                    }
                },
                SLit::Str(b) => {
                    assert(lit_text(l) == "\""@ + b + "\""@);
                },
                SLit::Unit => {
                    reveal_strlit("()");
                    assert(lit_text(l) == "()"@);
                    assert("()"@[0] == '(');
                },
                _ => {},
            }
        },
        SExpr::Par(i) => {
            assert(expr_text(e) == "("@ + expr_text(*i) + ")"@);
        },
        SExpr::UnOp(op, i) => {
            lemma_first_char(*i);
            assert(expr_text(e) == unop_text(op) + expr_text(*i));
        },
        SExpr::Ref(i, m) => {
            lemma_first_char(*i);
            if m {
                assert(expr_text(e) == "&mut "@ + expr_text(*i));
            } else {
                assert(expr_text(e) == "&"@ + expr_text(*i));
            }
        },
        SExpr::Block(b) => {
            reveal_strlit("{ ");
            assert(expr_text(e) == block_text(b));
            assert(block_text(b) == "{ "@ + stmts_text(b.stmts, b.semi) + "}"@);
            assert(("{ "@ + stmts_text(b.stmts, b.semi) + "}"@)[0] == '{');
        },
        SExpr::IfThenElse(c, t, eo) => {
            reveal_strlit("if ");
            let tail = expr_text(*c) + " "@ + block_text(t) + " "@ + match eo {
                Some(b) => "else "@ + block_text(b),
                None => Seq::<char>::empty(),
            };
            assert(expr_text(e) == "if "@ + tail);
            assert(("if "@ + tail)[0] == 'i');
        },
        _ => {},
    }
}

/// A position after which an expression may end: the end of the tokens,
/// or a token that neither turns a name into a call (`!` or `(`) nor
/// continues an `if` (`else`).
pub open spec fn ends_ok(t: Seq<SToken>, q: int) -> bool {
    q == t.len() || !(sym_is(t, q, Sym::Bang) || sym_is(t, q, Sym::LParen) || kw_is(t, q, "else"@))
}

pub open spec fn toks_at(t: Seq<SToken>, p: int, u: Seq<SToken>) -> bool {
    0 <= p && p + u.len() <= t.len() && t.subrange(p, p + u.len()) == u
}

proof fn lemma_toks_at_split(t: Seq<SToken>, p: int, u: Seq<SToken>, v: Seq<SToken>)
    requires
        toks_at(t, p, u + v),
    ensures
        toks_at(t, p, u),
        toks_at(t, p + u.len(), v),
{
    assert forall|k: int| 0 <= k < u.len() implies t[p + k] == #[trigger] u[k] by {
        assert(t.subrange(p, p + (u + v).len())[k] == t[p + k]);
        assert((u + v)[k] == u[k]);
    }
    assert(t.subrange(p, p + u.len()) =~= u);
    assert forall|k: int| 0 <= k < v.len() implies t[p + u.len() + k] == #[trigger] v[k] by {
        assert(t.subrange(p, p + (u + v).len())[u.len() + k] == t[p + u.len() + k]);
        assert((u + v)[u.len() + k] == v[k]);
    }
    assert(t.subrange(p + u.len(), p + u.len() + v.len()) =~= v);
}

proof fn lemma_toks_at_get(t: Seq<SToken>, p: int, u: Seq<SToken>, k: int)
    requires
        toks_at(t, p, u),
        0 <= k < u.len(),
    ensures
        t[p + k] == u[k],
{
    assert(t.subrange(p, p + u.len())[k] == t[p + k]);
}

proof fn lemma_lit_at(t: Seq<SToken>, p: int, l: SLit)
    requires
        reads_back(l),
        toks_at(t, p, lit_toks(l)),
    ensures
        lit_at(t, p) == Some((l, p + lit_toks(l).len())),
{
    lemma_toks_at_get(t, p, lit_toks(l), 0);
    reveal_strlit("true");
    reveal_strlit("false");
    match l {
        SLit::Int(v) => {
            if v < 0 {
                lemma_toks_at_get(t, p, lit_toks(l), 1);
                let m = (-(v as int)) as u32;
                assert(m as int == -(v as int));
                assert(t[p + 1] == SToken::Int(m));
                assert((-(m as int)) as i32 == v);
            } else {
                let m = v as u32;
                assert(m as int == v as int);
                assert(m as i32 == v);
            }
        },
        SLit::Bool(b) => {
            assert("false"@[0] != "true"@[0]);
        },
        _ => {},
    }
}

/// An operand that is no operator application is read back by itself.
proof fn lemma_parse_atom(t: Seq<SToken>, p: int, a: SExpr)
    requires
        expr_form(a),
        !(a is BinOp),
        toks_at(t, p, expr_toks(a)),
        ends_ok(t, p + expr_toks(a).len()),
    ensures
        g_operand(t, p) == Some((a, p + expr_toks(a).len())),
    decreases a, 1nat,
{
    if a is UnOp {
        lemma_parse_unop(t, p, a);
        return;
    }
    if a is Ref {
        lemma_parse_ref(t, p, a);
        return;
    }
    if a is Call {
        lemma_parse_call(t, p, a);
        return;
    }
    if a is IfThenElse {
        lemma_parse_if(t, p, a);
        return;
    }
    if let SExpr::Block(b) = a {
        lemma_toks_at_get(t, p, expr_toks(a), 0);
        assert(expr_toks(a) == block_toks(b));
        assert(block_toks(b)[0] == SToken::Sym(Sym::LBrace));
        lemma_parse_block(t, p, b);
        return;
    }
    reveal_strlit("if");
    reveal_strlit("true");
    reveal_strlit("false");
    lemma_first_tok(a);
    lemma_toks_at_get(t, p, expr_toks(a), 0);
    match a {
        SExpr::Ident(x) => {
            assert(is_keyword("if"@));
            assert(is_keyword("true"@));
            assert(is_keyword("false"@));
        },
        SExpr::Lit(l) => {
            assert("true"@[0] != "if"@[0]);
            assert("false"@[0] != "if"@[0]);
            if l is Unit {
                lemma_toks_at_get(t, p, expr_toks(a), 1);
                assert(lit_at(t, p) is None);
            } else {
                lemma_lit_at(t, p, l);
            }
        },
        SExpr::Par(i) => {
            let it = expr_toks(*i);
            lemma_first_tok(*i);
            assert(expr_toks(a) == seq![SToken::Sym(Sym::LParen)] + it + seq![SToken::Sym(Sym::RParen)]);
            lemma_toks_at_split(t, p, seq![SToken::Sym(Sym::LParen)] + it, seq![SToken::Sym(Sym::RParen)]);
            lemma_toks_at_split(t, p, seq![SToken::Sym(Sym::LParen)], it);
            lemma_toks_at_get(t, p + 1, it, 0);
            let q = p + 1 + it.len();
            lemma_toks_at_get(t, q, seq![SToken::Sym(Sym::RParen)], 0);
            lemma_parse_expr(t, p + 1, *i);
        },
        _ => {},
    }
}

proof fn lemma_args_toks_cons(es: Seq<SExpr>)
    requires
        es.len() >= 1,
    ensures
        es.len() == 1 ==> args_toks(es) == expr_toks(es[0]),
        es.len() >= 2 ==> args_toks(es) == expr_toks(es[0]) + seq![SToken::Sym(Sym::Comma)] + args_toks(es.skip(1)),
    decreases es.len(),
{
    if es.len() >= 3 {
        let init = es.drop_last();
        lemma_args_toks_cons(init);
        assert(init[0] == es[0]);
        assert(init.skip(1) =~= es.skip(1).drop_last());
        assert(es.skip(1).last() == es.last());
        assert(args_toks(es.skip(1)) == args_toks(es.skip(1).drop_last()) + seq![SToken::Sym(Sym::Comma)] + expr_toks(es.skip(1).last()));
        assert(args_toks(es) =~= expr_toks(es[0]) + seq![SToken::Sym(Sym::Comma)] + args_toks(es.skip(1)));
    } else if es.len() == 2 {
        assert(es.drop_last().len() == 1);
        assert(es.drop_last()[0] == es[0]);
        assert(args_toks(es.drop_last()) == expr_toks(es[0]));
        assert(es.skip(1).len() == 1);
        assert(es.skip(1)[0] == es.last());
        assert(args_toks(es.skip(1)) == expr_toks(es.skip(1)[0]));
        assert(args_toks(es) == args_toks(es.drop_last()) + seq![SToken::Sym(Sym::Comma)] + expr_toks(es.last()));
    }
}

/// Call arguments followed by `)` are read back, after those in `acc`.
proof fn lemma_parse_args(t: Seq<SToken>, p: int, es: Seq<SExpr>, acc: Seq<SExpr>)
    requires
        exprs_form(es),
        toks_at(t, p, args_toks(es) + seq![SToken::Sym(Sym::RParen)]),
    ensures
        g_args(t, p, acc) == Some((acc + es, p + args_toks(es).len() + 1)),
    decreases es,
{
    let rp = seq![SToken::Sym(Sym::RParen)];
    lemma_forms(es);
    lemma_toks_at_split(t, p, args_toks(es), rp);
    lemma_toks_at_get(t, p + args_toks(es).len(), rp, 0);
    if es.len() == 0 {
        assert(args_toks(es).len() == 0);
        assert(acc + es =~= acc);
    } else {
        lemma_args_toks_cons(es);
        let e0 = es[0];
        let k0 = expr_toks(e0).len();
        lemma_first_tok(e0);
        if es.len() == 1 {
            lemma_toks_at_split(t, p, expr_toks(e0), rp);
            lemma_toks_at_get(t, p, expr_toks(e0), 0);
            lemma_parse_expr(t, p, e0);
            assert(acc.push(e0) =~= acc + es);
        } else {
            let rest = es.skip(1);
            let cm = seq![SToken::Sym(Sym::Comma)];
            assert(args_toks(es) + rp =~= expr_toks(e0) + (cm + (args_toks(rest) + rp)));
            lemma_toks_at_split(t, p, expr_toks(e0), cm + (args_toks(rest) + rp));
            lemma_toks_at_split(t, p + k0, cm, args_toks(rest) + rp);
            lemma_toks_at_get(t, p + k0, cm, 0);
            lemma_toks_at_get(t, p, expr_toks(e0), 0);
            lemma_parse_expr(t, p, e0);
            lemma_forms(rest);
            assert forall|k: int| 0 <= k < rest.len() implies expr_form(#[trigger] rest[k]) by {
                assert(rest[k] == es[k + 1]);
            }
            lemma_parse_args(t, p + k0 + 1, rest, acc.push(e0));
            assert(acc.push(e0) + rest =~= acc + es);
        }
    }
}

proof fn lemma_parse_call(t: Seq<SToken>, p: int, a: SExpr)
    requires
        expr_form(a),
        a is Call,
        toks_at(t, p, expr_toks(a)),
        ends_ok(t, p + expr_toks(a).len()),
    ensures
        g_operand(t, p) == Some((a, p + expr_toks(a).len())),
    decreases a, 0nat,
{
    reveal_strlit("if");
    reveal_strlit("true");
    reveal_strlit("false");
    reveal_strlit("!");
    if let SExpr::Call(id, args) = a {
        let nt = name_toks(id);
        let lp = seq![SToken::Sym(Sym::LParen)];
        let rp = seq![SToken::Sym(Sym::RParen)];
        assert(expr_toks(a) =~= nt + (lp + (args_toks(args) + rp)));
        lemma_toks_at_split(t, p, nt, lp + (args_toks(args) + rp));
        lemma_toks_at_split(t, p + nt.len(), lp, args_toks(args) + rp);
        lemma_toks_at_get(t, p, nt, 0);
        lemma_toks_at_get(t, p + nt.len(), lp, 0);
        assert(is_keyword("if"@) && is_keyword("true"@) && is_keyword("false"@));
        if is_name(id) {
            assert(nt.len() == 1);
        } else {
            lemma_toks_at_get(t, p, nt, 1);
            assert(id.drop_last() + "!"@ =~= id);
        }
        lemma_parse_args(t, p + nt.len() + 1, args, Seq::empty());
        assert(Seq::<SExpr>::empty() + args =~= args);
    }
}

proof fn lemma_parse_unop(t: Seq<SToken>, p: int, a: SExpr)
    requires
        expr_form(a),
        a is UnOp,
        toks_at(t, p, expr_toks(a)),
        ends_ok(t, p + expr_toks(a).len()),
    ensures
        g_operand(t, p) == Some((a, p + expr_toks(a).len())),
    decreases a, 0nat,
{
    if let SExpr::UnOp(op, i) = a {
        let it = expr_toks(*i);
        lemma_first_tok(*i);
        assert(expr_toks(a) == seq![unop_tok(op)] + it);
        lemma_toks_at_split(t, p, seq![unop_tok(op)], it);
        lemma_toks_at_get(t, p, seq![unop_tok(op)], 0);
        lemma_toks_at_get(t, p + 1, it, 0);
        assert(leftmost(*i) == *i);
        assert(lit_at(t, p) is None);
        assert(unop_at(t, p) == Some(op));
        lemma_parse_atom(t, p + 1, *i);
    }
}

proof fn lemma_parse_ref(t: Seq<SToken>, p: int, a: SExpr)
    requires
        expr_form(a),
        a is Ref,
        toks_at(t, p, expr_toks(a)),
        ends_ok(t, p + expr_toks(a).len()),
    ensures
        g_operand(t, p) == Some((a, p + expr_toks(a).len())),
    decreases a, 0nat,
{
    reveal_strlit("if");
    reveal_strlit("mut");
    if let SExpr::Ref(i, m) = a {
        if m {
            let it = expr_toks(*i);
            let pre = seq![SToken::Sym(Sym::Amp), SToken::Ident("mut"@)];
            assert(expr_toks(a) == pre + it);
            lemma_toks_at_split(t, p, pre, it);
            lemma_toks_at_get(t, p, pre, 0);
            lemma_toks_at_get(t, p, pre, 1);
            lemma_parse_atom(t, p + 2, *i);
        } else {
            match *i {
                SExpr::Ref(i2, m2) => {
                    assert(expr_form(*i));
                    assert(expr_form(*i2));
                    let it = expr_toks(*i2);
                    lemma_first_tok(*i2);
                    let o = if m2 { seq![SToken::Ident("mut"@)] } else { Seq::<SToken>::empty() };
                    let pre = seq![SToken::Sym(Sym::AndAnd)] + o;
                    assert(expr_toks(a) == pre + it);
                    lemma_toks_at_split(t, p, pre, it);
                    lemma_toks_at_get(t, p, pre, 0);
                    if m2 {
                        lemma_toks_at_get(t, p, pre, 1);
                    } else {
                        lemma_toks_at_get(t, p + 1, it, 0);
                    }
                    lemma_parse_atom(t, p + pre.len(), *i2);
                },
                _ => {
                    let it = expr_toks(*i);
                    lemma_first_tok(*i);
                    let pre = seq![SToken::Sym(Sym::Amp)];
                    assert(expr_toks(a) == pre + it);
                    lemma_toks_at_split(t, p, pre, it);
                    lemma_toks_at_get(t, p, pre, 0);
                    lemma_toks_at_get(t, p + 1, it, 0);
                    lemma_parse_atom(t, p + 1, *i);
                },
            }
        }
    }
}

/// The leftmost operand of an operator expression is the first operand read.
proof fn lemma_parse_first(t: Seq<SToken>, p: int, e: SExpr)
    requires
        expr_form(e),
        toks_at(t, p, expr_toks(e)),
        ends_ok(t, p + expr_toks(e).len()),
    ensures
        g_operand(t, p) == Some((leftmost(e), p + expr_toks(leftmost(e)).len())),
    decreases e, 2nat,
{
    match e {
        SExpr::BinOp(op, l, r) => {
            let lt = expr_toks(*l);
            lemma_toks_at_split(t, p, lt + seq![binop_tok(op)], expr_toks(*r));
            lemma_toks_at_split(t, p, lt, seq![binop_tok(op)]);
            lemma_toks_at_get(t, p + lt.len(), seq![binop_tok(op)], 0);
            lemma_parse_first(t, p, *l);
        },
        _ => lemma_parse_atom(t, p, e),
    }
}

/// Precedence climbing reads the operators after the leftmost operand of
/// `e` and builds `e` around whatever stands for that operand.
proof fn lemma_parse_rest(t: Seq<SToken>, p: int, e: SExpr, lhs: SExpr, min: u8)
    requires
        expr_form(e),
        toks_at(t, p, rest_toks(e)),
        !(e is BinOp) || expr_prio(e) > min,
        ends_ok(t, p + rest_toks(e).len()),
        binop_at(t, p + rest_toks(e).len()) matches Some(f) ==> f.spec_priority() <= expr_prio(e),
    ensures
        g_bin(t, lhs, min, p) == g_bin(t, with_leftmost(e, lhs), min, p + rest_toks(e).len()),
    decreases e, 0nat,
{
    match e {
        SExpr::BinOp(op, l, r) => {
            let rl = rest_toks(*l);
            let rt = expr_toks(*r);
            let q = p + rest_toks(e).len();
            lemma_toks_at_split(t, p, rl + seq![binop_tok(op)], rt);
            lemma_toks_at_split(t, p, rl, seq![binop_tok(op)]);
            let p1 = p + rl.len();
            lemma_toks_at_get(t, p1, seq![binop_tok(op)], 0);
            assert(binop_at(t, p1) == Some(op));
            lemma_parse_rest(t, p, *l, lhs, min);
            let l1 = with_leftmost(*l, lhs);
            lemma_leftmost(*r);
            let a = leftmost(*r);
            lemma_first_tok(a);
            lemma_parse_first(t, p1 + 1, *r);
            let qa = p1 + 1 + expr_toks(a).len();
            lemma_toks_at_split(t, p1 + 1, expr_toks(a), rest_toks(*r));
            assert(qa + rest_toks(*r).len() == q);
            lemma_parse_rest(t, qa, *r, a, op.spec_priority());
            assert(g_bin(t, *r, op.spec_priority(), q) == Some((*r, q)));
            assert(g_bin(t, a, op.spec_priority(), qa) == Some((*r, q)));
        },
        _ => {},
    }
}

/// An operator expression followed by the end or by a token that neither
/// continues it (an operator) nor turns a name into a call is read back
/// whole.
proof fn lemma_parse_expr(t: Seq<SToken>, p: int, e: SExpr)
    requires
        expr_form(e),
        toks_at(t, p, expr_toks(e)),
        ends_ok(t, p + expr_toks(e).len()),
        binop_at(t, p + expr_toks(e).len()) is None,
    ensures
        g_expr(t, p) == Some((e, p + expr_toks(e).len())),
    decreases e, 3nat,
{
    lemma_leftmost(e);
    let a = leftmost(e);
    lemma_first_tok(a);
    lemma_parse_first(t, p, e);
    lemma_toks_at_split(t, p, expr_toks(a), rest_toks(e));
    let qa = p + expr_toks(a).len();
    let q = p + expr_toks(e).len();
    lemma_parse_rest(t, qa, e, a, 0);
    assert(g_bin(t, e, 0, q) == Some((e, q)));
}

/// Reading back what printing an expression gives yields the expression
/// again, for every expression in `expr_form`: names, literals that read
/// back, parentheses, operators grouped as the parser groups them, calls,
/// references, blocks and `if` expressions made of such parts.
pub proof fn law_expr_round_trip(e: SExpr)
    requires
        expr_form(e),
    ensures
        spec_parse::<Expr>(expr_text(e)) == Some(e),
{
    let s = expr_text(e);
    assert(s.subrange(0, s.len() as int) =~= s);
    lemma_lex_expr(s, 0, e, Seq::empty());
    let ts = expr_toks(e);
    assert(Seq::<SToken>::empty() + ts =~= ts);
    assert(lex_from(s, s.len() as int, ts) == Some(ts));
    assert(ts.subrange(0, ts.len() as int) =~= ts);
    lemma_parse_expr(ts, 0, e);
}

// ---------------------------------------------------------------------
// Lexing blocks, statements, functions and programs.
// ---------------------------------------------------------------------

pub open spec fn chars_at(s: Seq<char>, i: int, w: Seq<char>) -> bool {
    &&& 0 <= i
    &&& i + w.len() <= s.len()
    &&& forall|k: int| 0 <= k < w.len() ==> s[i + k] == #[trigger] w[k]
}

proof fn lemma_chars_split(s: Seq<char>, i: int, a: Seq<char>, b: Seq<char>)
    requires
        chars_at(s, i, a + b),
    ensures
        chars_at(s, i, a),
        chars_at(s, i + a.len(), b),
{
    assert forall|k: int| 0 <= k < a.len() implies s[i + k] == #[trigger] a[k] by {
        assert((a + b)[k] == a[k]);
    }
    assert forall|k: int| 0 <= k < b.len() implies s[i + a.len() + k] == #[trigger] b[k] by {
        assert((a + b)[a.len() + k] == b[k]);
    }
}

proof fn lemma_chars_sub(s: Seq<char>, i: int, w: Seq<char>)
    requires
        chars_at(s, i, w),
    ensures
        s.subrange(i, i + w.len()) == w,
{
    assert(s.subrange(i, i + w.len()) =~= w);
}

proof fn lemma_char_at(s: Seq<char>, i: int, w: Seq<char>, k: int)
    requires
        chars_at(s, i, w),
        0 <= k < w.len(),
    ensures
        s[i + k] == w[k],
{
}

proof fn lemma_lex_space(s: Seq<char>, j: int, acc: Seq<SToken>)
    requires
        0 <= j < s.len(),
        is_space(s[j]),
    ensures
        lex_from(s, j, acc) == lex_from(s, j + 1, acc),
{
}

proof fn lemma_lex_sym(s: Seq<char>, j: int, y: Sym, k: int, acc: Seq<SToken>)
    requires
        0 <= j < s.len(),
        !is_space(s[j]),
        s[j] != '/',
        !is_ident_start(s[j]),
        !is_digit(s[j]),
        s[j] != '"',
        sym_at(s, j) == Some((y, k)),
    ensures
        lex_from(s, j, acc) == lex_from(s, k, acc.push(SToken::Sym(y))),
{
}

/// The keywords are words of lower-case letters.
proof fn lemma_keyword_chars(w: Seq<char>)
    requires
        w == "let"@ || w == "mut"@ || w == "while"@ || w == "fn"@ || w == "if"@ || w == "else"@,
    ensures
        w.len() > 0,
        is_ident_start(w[0]),
        forall|k: int| 0 <= k < w.len() ==> is_ident_char(#[trigger] w[k]),
{
    reveal_strlit("let");
    reveal_strlit("mut");
    reveal_strlit("while");
    reveal_strlit("fn");
    reveal_strlit("if");
    reveal_strlit("else");
    assert forall|k: int| 0 <= k < w.len() implies is_ident_char(#[trigger] w[k]) by {
        if k == 0 {} else if k == 1 {} else if k == 2 {} else if k == 3 {} else {}
    }
}

/// A keyword at `j` followed by a space lexes to it, and the space is skipped.
proof fn lemma_lex_keyword(s: Seq<char>, j: int, w: Seq<char>, acc: Seq<SToken>)
    requires
        w == "let"@ || w == "mut"@ || w == "while"@ || w == "fn"@ || w == "if"@ || w == "else"@,
        chars_at(s, j, w),
        j + w.len() < s.len(),
        s[j + w.len()] == ' ',
    ensures
        lex_from(s, j, acc) == lex_from(s, j + w.len() + 1, acc.push(SToken::Ident(w))),
{
    lemma_keyword_chars(w);
    lemma_chars_sub(s, j, w);
    lemma_lex_word(s, j, w, acc);
    lemma_lex_space(s, j + w.len(), acc.push(SToken::Ident(w)));
}

proof fn lemma_lex_block(s: Seq<char>, i: int, b: SBlock, acc: Seq<SToken>)
    requires
        block_form(b),
        chars_at(s, i, block_text(b)),
    ensures
        lex_from(s, i, acc) == lex_from(s, i + block_text(b).len(), acc + block_toks(b)),
    decreases b, 3nat,
{
    reveal_strlit("{ ");
    reveal_strlit("}");
    let st = stmts_text(b.stmts, b.semi);
    assert(block_text(b) == "{ "@ + st + "}"@);
    lemma_chars_split(s, i, "{ "@ + st, "}"@);
    lemma_chars_split(s, i, "{ "@, st);
    assert(s[i] == "{ "@[0] && s[i + 1] == "{ "@[1]);
    let c = i + 2 + st.len();
    assert(s[c] == "}"@[0]);
    lemma_lex_sym(s, i, Sym::LBrace, i + 1, acc);
    let a1 = acc.push(SToken::Sym(Sym::LBrace));
    lemma_lex_space(s, i + 1, a1);
    lemma_lex_stmts(s, i + 2, b.stmts, b.semi, a1);
    let a2 = a1 + stmts_toks(b.stmts, b.semi);
    lemma_lex_sym(s, c, Sym::RBrace, c + 1, a2);
    assert(a2.push(SToken::Sym(Sym::RBrace)) =~= acc + block_toks(b));
}

proof fn lemma_lex_stmts(s: Seq<char>, i: int, ss: Seq<SStmt>, semi: bool, acc: Seq<SToken>)
    requires
        stmts_form(ss),
        chars_at(s, i, stmts_text(ss, semi)),
    ensures
        lex_from(s, i, acc) == lex_from(s, i + stmts_text(ss, semi).len(), acc + stmts_toks(ss, semi)),
    decreases ss, 3nat,
{
    reveal_strlit("; ");
    reveal_strlit(" ");
    if ss.len() == 0 {
        assert(acc + stmts_toks(ss, semi) =~= acc);
    } else {
        let init = ss.drop_last();
        let pre = if init.len() == 0 { Seq::<char>::empty() } else { stmts_text(init, true) };
        let pt = if init.len() == 0 { Seq::<SToken>::empty() } else { stmts_toks(init, true) };
        let lt = stmt_text(ss.last());
        let sep = if semi { "; "@ } else { " "@ };
        assert(stmts_text(ss, semi) == pre + lt + sep);
        lemma_chars_split(s, i, pre + lt, sep);
        lemma_chars_split(s, i, pre, lt);
        let j = i + pre.len();
        let k = j + lt.len();
        assert(s[k] == sep[0]);
        if init.len() > 0 {
            lemma_lex_stmts(s, i, init, true, acc);
        } else {
            assert(acc + pt =~= acc);
        }
        let a1 = acc + pt;
        lemma_lex_stmt(s, j, ss.last(), a1);
        let a2 = a1 + stmt_toks(ss.last());
        if semi {
            assert(s[k + 1] == sep[1]);
            lemma_lex_sym(s, k, Sym::Semi, k + 1, a2);
            lemma_lex_space(s, k + 1, a2.push(SToken::Sym(Sym::Semi)));
            assert(a2.push(SToken::Sym(Sym::Semi)) =~= acc + stmts_toks(ss, semi));
        } else {
            lemma_lex_space(s, k, a2);
            assert(a2 =~= acc + stmts_toks(ss, semi));
        }
    }
}

proof fn lemma_lex_stmt(s: Seq<char>, i: int, st: SStmt, acc: Seq<SToken>)
    requires
        stmt_form(st),
        text_at(s, i, stmt_text(st)),
    ensures
        lex_from(s, i, acc) == lex_from(s, i + stmt_text(st).len(), acc + stmt_toks(st)),
    decreases st, 3nat,
{
    match st {
        SStmt::Let(_, _, _, _) => lemma_lex_let(s, i, st, acc),
        SStmt::Assign(_, _) => lemma_lex_assign(s, i, st, acc),
        SStmt::While(_, _) => lemma_lex_while(s, i, st, acc),
        SStmt::Expr(e) => {
            lemma_chars_sub(s, i, expr_text(e));
            lemma_lex_expr(s, i, e, acc);
        },
        SStmt::Fn(f) => lemma_lex_fn(s, i, f, acc),
    }
}

proof fn lemma_lex_assign(s: Seq<char>, i: int, st: SStmt, acc: Seq<SToken>)
    requires
        stmt_form(st),
        st is Assign,
        text_at(s, i, stmt_text(st)),
    ensures
        lex_from(s, i, acc) == lex_from(s, i + stmt_text(st).len(), acc + stmt_toks(st)),
    decreases st, 0nat,
{
    reveal_strlit(" = ");
    if let SStmt::Assign(l, r) = st {
        let lt = expr_text(l);
        let rt = expr_text(r);
        assert(stmt_text(st) == lt + " = "@ + rt);
        lemma_chars_split(s, i, lt + " = "@, rt);
        lemma_chars_split(s, i, lt, " = "@);
        let j = i + lt.len();
        lemma_char_at(s, j, " = "@, 0);
        lemma_char_at(s, j, " = "@, 1);
        lemma_char_at(s, j, " = "@, 2);
        assert(s[j] == ' ' && s[j + 1] == '=' && s[j + 2] == ' ');
        lemma_chars_sub(s, i, lt);
        lemma_lex_expr(s, i, l, acc);
        let a1 = acc + expr_toks(l);
        lemma_lex_space(s, j, a1);
        lemma_lex_sym(s, j + 1, Sym::Assign, j + 2, a1);
        let a2 = a1.push(SToken::Sym(Sym::Assign));
        lemma_lex_space(s, j + 2, a2);
        lemma_chars_sub(s, j + 3, rt);
        lemma_lex_expr(s, j + 3, r, a2);
        assert(a2 + expr_toks(r) =~= acc + stmt_toks(st));
    }
}

proof fn lemma_lex_while(s: Seq<char>, i: int, st: SStmt, acc: Seq<SToken>)
    requires
        stmt_form(st),
        st is While,
        text_at(s, i, stmt_text(st)),
    ensures
        lex_from(s, i, acc) == lex_from(s, i + stmt_text(st).len(), acc + stmt_toks(st)),
    decreases st, 0nat,
{
    reveal_strlit("while ");
    reveal_strlit("while");
    reveal_strlit(" ");
    if let SStmt::While(c, b) = st {
        let ct = expr_text(c);
        let bt = block_text(b);
        assert("while "@ == "while"@ + " "@);
        assert(stmt_text(st) == "while"@ + " "@ + ct + " "@ + bt);
        lemma_chars_split(s, i, "while"@ + " "@ + ct + " "@, bt);
        lemma_chars_split(s, i, "while"@ + " "@ + ct, " "@);
        lemma_chars_split(s, i, "while"@ + " "@, ct);
        lemma_chars_split(s, i, "while"@, " "@);
        lemma_char_at(s, i + 5, " "@, 0);
        assert(s[i + 5] == ' ');
        lemma_lex_keyword(s, i, "while"@, acc);
        let a1 = acc.push(SToken::Ident("while"@));
        let j = i + 6;
        let k = j + ct.len();
        lemma_char_at(s, k, " "@, 0);
        assert(s[k] == ' ');
        lemma_chars_sub(s, j, ct);
        lemma_lex_expr(s, j, c, a1);
        let a2 = a1 + expr_toks(c);
        lemma_lex_space(s, k, a2);
        lemma_lex_block(s, k + 1, b, a2);
        assert(a2 + block_toks(b) =~= acc + stmt_toks(st));
    }
}

#[verifier::rlimit(100)]
#[verifier::spinoff_prover]
proof fn lemma_lex_let(s: Seq<char>, i: int, st: SStmt, acc: Seq<SToken>)
    requires
        stmt_form(st),
        st is Let,
        text_at(s, i, stmt_text(st)),
    ensures
        lex_from(s, i, acc) == lex_from(s, i + stmt_text(st).len(), acc + stmt_toks(st)),
    decreases st, 0nat,
{
    reveal_strlit("let ");
    reveal_strlit("let");
    reveal_strlit("mut ");
    reveal_strlit("mut");
    reveal_strlit(" : ");
    reveal_strlit(" = ");
    reveal_strlit(" ");
    if let SStmt::Let(m, id, ty, init) = st {
        let mw = if m { "mut "@ } else { Seq::<char>::empty() };
        let tyt = match ty {
            Some(t) => " : "@ + type_text(t),
            None => Seq::<char>::empty(),
        };
        let it = match init {
            Some(e) => " = "@ + expr_text(e),
            None => Seq::<char>::empty(),
        };
        let w = stmt_text(st);
        assert("let "@ == "let"@ + " "@);
        assert(w == "let"@ + " "@ + mw + id + tyt + it);
        lemma_chars_split(s, i, "let"@ + " "@ + mw + id + tyt, it);
        lemma_chars_split(s, i, "let"@ + " "@ + mw + id, tyt);
        lemma_chars_split(s, i, "let"@ + " "@ + mw, id);
        lemma_chars_split(s, i, "let"@ + " "@, mw);
        lemma_chars_split(s, i, "let"@, " "@);
        lemma_char_at(s, i + 3, " "@, 0);
        assert(s[i + 3] == ' ');
        lemma_lex_keyword(s, i, "let"@, acc);
        let a1 = acc.push(SToken::Ident("let"@));
        let j1 = i + 4;
        let mt = if m { word_tok("mut"@) } else { Seq::<SToken>::empty() };
        if m {
            assert("mut "@ == "mut"@ + " "@);
            lemma_chars_split(s, j1, "mut"@, " "@);
            lemma_char_at(s, j1 + 3, " "@, 0);
            assert(s[j1 + 3] == ' ');
            lemma_lex_keyword(s, j1, "mut"@, a1);
        }
        let a2 = a1 + mt;
        assert(m ==> a2 == a1.push(SToken::Ident("mut"@)));
        assert(!m ==> a2 == a1);
        let j2 = j1 + mw.len();
        let j3 = j2 + id.len();
        // what follows the name
        assert(j3 == s.len() || !is_ident_char(s[j3])) by {
            if tyt.len() > 0 {
                assert(s[j3] == tyt[0]);
            } else if it.len() > 0 {
                assert(s[j3] == it[0]);
            }
        }
        lemma_chars_sub(s, j2, id);
        lemma_lex_word(s, j2, id, a2);
        let a3 = a2.push(SToken::Ident(id));
        let tt = opt_type_toks(Sym::Colon, ty);
        let j4 = j3 + tyt.len();
        match ty {
            Some(t) => {
                let tx = type_text(t);
                lemma_chars_split(s, j3, " : "@, tx);
                lemma_char_at(s, j3, " : "@, 0);
                lemma_char_at(s, j3, " : "@, 1);
                lemma_char_at(s, j3, " : "@, 2);
                assert(s[j3] == ' ' && s[j3 + 1] == ':' && s[j3 + 2] == ' ');
                lemma_lex_space(s, j3, a3);
                lemma_lex_sym(s, j3 + 1, Sym::Colon, j3 + 2, a3);
                let b1 = a3.push(SToken::Sym(Sym::Colon));
                lemma_lex_space(s, j3 + 2, b1);
                assert(j4 == s.len() || !is_ident_char(s[j4])) by {
                    if it.len() > 0 {
                        assert(s[j4] == it[0]);
                    }
                }
                lemma_chars_sub(s, j3 + 3, tx);
                lemma_lex_type(s, j3 + 3, t, b1);
                assert(b1 + type_toks(t) =~= a3 + tt);
            },
            None => {
                assert(a3 + tt =~= a3);
            },
        }
        let a4 = a3 + tt;
        match init {
            Some(e) => {
                let et = expr_text(e);
                lemma_chars_split(s, j4, " = "@, et);
                lemma_char_at(s, j4, " = "@, 0);
                lemma_char_at(s, j4, " = "@, 1);
                lemma_char_at(s, j4, " = "@, 2);
                assert(s[j4] == ' ' && s[j4 + 1] == '=' && s[j4 + 2] == ' ');
                lemma_lex_space(s, j4, a4);
                lemma_lex_sym(s, j4 + 1, Sym::Assign, j4 + 2, a4);
                let b1 = a4.push(SToken::Sym(Sym::Assign));
                lemma_lex_space(s, j4 + 2, b1);
                lemma_chars_sub(s, j4 + 3, et);
                lemma_lex_expr(s, j4 + 3, e, b1);
                assert(b1 + expr_toks(e) =~= acc + stmt_toks(st));
            },
            None => {
                assert(a4 =~= acc + stmt_toks(st));
            },
        }
    }
}

proof fn lemma_lex_if(s: Seq<char>, i: int, e: SExpr, acc: Seq<SToken>)
    requires
        expr_form(e),
        e is IfThenElse,
        text_at(s, i, expr_text(e)),
    ensures
        lex_from(s, i, acc) == lex_from(s, i + expr_text(e).len(), acc + expr_toks(e)),
    decreases e, 0nat,
{
    reveal_strlit("if ");
    reveal_strlit("if");
    reveal_strlit("else ");
    reveal_strlit("else");
    reveal_strlit(" ");
    if let SExpr::IfThenElse(c, t, eo) = e {
        let ct = expr_text(*c);
        let tt = block_text(t);
        let et = match eo {
            Some(b) => "else "@ + block_text(b),
            None => Seq::<char>::empty(),
        };
        assert("if "@ == "if"@ + " "@);
        assert(expr_text(e) == "if"@ + " "@ + ct + " "@ + tt + " "@ + et);
        lemma_chars_split(s, i, "if"@ + " "@ + ct + " "@ + tt + " "@, et);
        lemma_chars_split(s, i, "if"@ + " "@ + ct + " "@ + tt, " "@);
        lemma_chars_split(s, i, "if"@ + " "@ + ct + " "@, tt);
        lemma_chars_split(s, i, "if"@ + " "@ + ct, " "@);
        lemma_chars_split(s, i, "if"@ + " "@, ct);
        lemma_chars_split(s, i, "if"@, " "@);
        lemma_char_at(s, i + 2, " "@, 0);
        assert(s[i + 2] == ' ');
        lemma_lex_keyword(s, i, "if"@, acc);
        let a1 = acc.push(SToken::Ident("if"@));
        let j = i + 3;
        let k = j + ct.len();
        lemma_char_at(s, k, " "@, 0);
        assert(s[k] == ' ');
        lemma_chars_sub(s, j, ct);
        lemma_lex_expr(s, j, *c, a1);
        let a2 = a1 + expr_toks(*c);
        lemma_lex_space(s, k, a2);
        lemma_lex_block(s, k + 1, t, a2);
        let a3 = a2 + block_toks(t);
        let m = k + 1 + tt.len();
        lemma_char_at(s, m, " "@, 0);
        assert(s[m] == ' ');
        lemma_lex_space(s, m, a3);
        match eo {
            Some(b) => {
                let bt = block_text(b);
                assert("else "@ == "else"@ + " "@);
                lemma_chars_split(s, m + 1, "else"@ + " "@, bt);
                lemma_chars_split(s, m + 1, "else"@, " "@);
                lemma_char_at(s, m + 5, " "@, 0);
                assert(s[m + 5] == ' ');
                lemma_lex_keyword(s, m + 1, "else"@, a3);
                let a4 = a3.push(SToken::Ident("else"@));
                lemma_lex_block(s, m + 6, b, a4);
                assert(a4 + block_toks(b) =~= acc + expr_toks(e));
            },
            None => {
                assert(a3 =~= acc + expr_toks(e));
            },
        }
    }
}

proof fn lemma_lex_param(s: Seq<char>, i: int, p: SParam, acc: Seq<SToken>)
    requires
        is_name(p.id),
        text_at(s, i, param_text(p)),
    ensures
        lex_from(s, i, acc) == lex_from(s, i + param_text(p).len(), acc + param_toks(p)),
{
    reveal_strlit("mut ");
    reveal_strlit("mut");
    reveal_strlit(": ");
    reveal_strlit(" ");
    let mw = if p.mutable { "mut "@ } else { Seq::<char>::empty() };
    let tx = type_text(p.ty);
    assert(param_text(p) == mw + p.id + ": "@ + tx);
    lemma_chars_split(s, i, mw + p.id + ": "@, tx);
    lemma_chars_split(s, i, mw + p.id, ": "@);
    lemma_chars_split(s, i, mw, p.id);
    let mt = if p.mutable { word_tok("mut"@) } else { Seq::<SToken>::empty() };
    if p.mutable {
        assert("mut "@ == "mut"@ + " "@);
        lemma_chars_split(s, i, "mut"@, " "@);
        lemma_char_at(s, i + 3, " "@, 0);
        assert(s[i + 3] == ' ');
        lemma_lex_keyword(s, i, "mut"@, acc);
    }
    let a1 = acc + mt;
    assert(p.mutable ==> a1 == acc.push(SToken::Ident("mut"@)));
    assert(!p.mutable ==> a1 == acc);
    let j = i + mw.len();
    let k = j + p.id.len();
    lemma_char_at(s, k, ": "@, 0);
    lemma_char_at(s, k, ": "@, 1);
    assert(s[k] == ':' && s[k + 1] == ' ');
    lemma_chars_sub(s, j, p.id);
    lemma_lex_word(s, j, p.id, a1);
    let a2 = a1.push(SToken::Ident(p.id));
    lemma_lex_sym(s, k, Sym::Colon, k + 1, a2);
    let a3 = a2.push(SToken::Sym(Sym::Colon));
    lemma_lex_space(s, k + 1, a3);
    lemma_chars_sub(s, k + 2, tx);
    lemma_lex_type(s, k + 2, p.ty, a3);
    assert(a3 + type_toks(p.ty) =~= acc + param_toks(p));
}

proof fn lemma_lex_params(s: Seq<char>, i: int, ps: Seq<SParam>, acc: Seq<SToken>)
    requires
        forall|k: int| 0 <= k < ps.len() ==> is_name(#[trigger] ps[k].id),
        text_at(s, i, params_text(ps)),
    ensures
        lex_from(s, i, acc) == lex_from(s, i + params_text(ps).len(), acc + params_toks(ps)),
    decreases ps.len(),
{
    reveal_strlit(", ");
    if ps.len() == 0 {
        assert(acc + params_toks(ps) =~= acc);
    } else if ps.len() == 1 {
        lemma_lex_param(s, i, ps[0], acc);
    } else {
        let init = ps.drop_last();
        assert forall|k: int| 0 <= k < init.len() implies is_name(#[trigger] init[k].id) by {
            assert(init[k] == ps[k]);
        }
        let it = params_text(init);
        let lt = param_text(ps.last());
        assert(params_text(ps) == it + ", "@ + lt);
        lemma_chars_split(s, i, it + ", "@, lt);
        lemma_chars_split(s, i, it, ", "@);
        let j = i + it.len();
        lemma_char_at(s, j, ", "@, 0);
        lemma_char_at(s, j, ", "@, 1);
        assert(s[j] == ',' && s[j + 1] == ' ');
        lemma_lex_params(s, i, init, acc);
        let a1 = acc + params_toks(init);
        lemma_lex_sym(s, j, Sym::Comma, j + 1, a1);
        let a2 = a1.push(SToken::Sym(Sym::Comma));
        lemma_lex_space(s, j + 1, a2);
        lemma_lex_param(s, j + 2, ps.last(), a2);
        assert(a2 + param_toks(ps.last()) =~= acc + params_toks(ps));
    }
}

/// The header of a function up to its `)`.
#[verifier::spinoff_prover]
proof fn lemma_lex_fn_head(s: Seq<char>, i: int, f: SFn, acc: Seq<SToken>)
    requires
        fn_form(f),
        chars_at(s, i, "fn"@ + " "@ + f.id + "("@ + params_text(f.params) + ")"@),
    ensures
        lex_from(s, i, acc) == lex_from(
            s,
            i + 3 + f.id.len() + 1 + params_text(f.params).len() + 1,
            acc.push(SToken::Ident("fn"@)).push(SToken::Ident(f.id)).push(SToken::Sym(Sym::LParen)) + params_toks(
                f.params,
            ) + seq![SToken::Sym(Sym::RParen)],
        ),
    decreases f, 2nat,
{
    reveal_strlit("fn");
    reveal_strlit("(");
    reveal_strlit(")");
    reveal_strlit(" ");
    let pt = params_text(f.params);
    lemma_chars_split(s, i, "fn"@ + " "@ + f.id + "("@ + pt, ")"@);
    lemma_chars_split(s, i, "fn"@ + " "@ + f.id + "("@, pt);
    lemma_chars_split(s, i, "fn"@ + " "@ + f.id, "("@);
    lemma_chars_split(s, i, "fn"@ + " "@, f.id);
    lemma_chars_split(s, i, "fn"@, " "@);
    lemma_char_at(s, i + 2, " "@, 0);
    assert(s[i + 2] == ' ');
    lemma_lex_keyword(s, i, "fn"@, acc);
    let a1 = acc.push(SToken::Ident("fn"@));
    let j = i + 3;
    let k = j + f.id.len();
    lemma_char_at(s, k, "("@, 0);
    assert(s[k] == '(');
    lemma_chars_sub(s, j, f.id);
    lemma_lex_word(s, j, f.id, a1);
    let a2 = a1.push(SToken::Ident(f.id));
    lemma_lex_sym(s, k, Sym::LParen, k + 1, a2);
    let a3 = a2.push(SToken::Sym(Sym::LParen));
    let m = k + 1 + pt.len();
    lemma_char_at(s, m, ")"@, 0);
    assert(s[m] == ')');
    lemma_lex_params(s, k + 1, f.params, a3);
    let a4 = a3 + params_toks(f.params);
    lemma_lex_sym(s, m, Sym::RParen, m + 1, a4);
    assert(a4.push(SToken::Sym(Sym::RParen)) =~= a4 + seq![SToken::Sym(Sym::RParen)]);
}

#[verifier::rlimit(100)]
#[verifier::spinoff_prover]
proof fn lemma_lex_fn(s: Seq<char>, i: int, f: SFn, acc: Seq<SToken>)
    requires
        fn_form(f),
        chars_at(s, i, fn_text(f)),
    ensures
        lex_from(s, i, acc) == lex_from(s, i + fn_text(f).len(), acc + fn_toks(f)),
    decreases f, 3nat,
{
    reveal_strlit("fn ");
    reveal_strlit("fn");
    reveal_strlit("(");
    reveal_strlit(")");
    reveal_strlit(" -> ");
    reveal_strlit(" ");
    let pt = params_text(f.params);
    let tyt = match f.ty {
        Some(t) => " -> "@ + type_text(t),
        None => Seq::<char>::empty(),
    };
    let bt = block_text(f.body);
    assert("fn "@ == "fn"@ + " "@);
    assert(fn_text(f) == "fn"@ + " "@ + f.id + "("@ + pt + ")"@ + tyt + " "@ + bt);
    lemma_chars_split(s, i, "fn"@ + " "@ + f.id + "("@ + pt + ")"@ + tyt + " "@, bt);
    lemma_chars_split(s, i, "fn"@ + " "@ + f.id + "("@ + pt + ")"@ + tyt, " "@);
    lemma_chars_split(s, i, "fn"@ + " "@ + f.id + "("@ + pt + ")"@, tyt);
    lemma_lex_fn_head(s, i, f, acc);
    let m = i + 3 + f.id.len() + 1 + pt.len();
    let a5 = acc.push(SToken::Ident("fn"@)).push(SToken::Ident(f.id)).push(SToken::Sym(Sym::LParen)) + params_toks(
        f.params,
    ) + seq![SToken::Sym(Sym::RParen)];
    let n = m + 1 + tyt.len();
    assert(("fn"@ + " "@ + f.id + "("@ + pt + ")"@ + tyt).len() == n - i);
    lemma_char_at(s, n, " "@, 0);
    assert(("fn"@ + " "@ + f.id + "("@ + pt + ")"@).len() == m + 1 - i);
    let tt = opt_type_toks(Sym::Arrow, f.ty);
    match f.ty {
        Some(t) => {
            let tx = type_text(t);
            lemma_chars_split(s, m + 1, " -> "@, tx);
            let q = m + 1;
            lemma_char_at(s, q, " -> "@, 0);
            lemma_char_at(s, q, " -> "@, 1);
            lemma_char_at(s, q, " -> "@, 2);
            lemma_char_at(s, q, " -> "@, 3);
            assert(s[q] == ' ' && s[q + 1] == '-' && s[q + 2] == '>' && s[q + 3] == ' ');
            lemma_lex_space(s, q, a5);
            lemma_lex_sym(s, q + 1, Sym::Arrow, q + 3, a5);
            let b1 = a5.push(SToken::Sym(Sym::Arrow));
            lemma_lex_space(s, q + 3, b1);
            assert(s[n] == ' ');
            lemma_chars_sub(s, q + 4, tx);
            lemma_lex_type(s, q + 4, t, b1);
            assert(b1 + type_toks(t) =~= a5 + tt);
        },
        None => {
            assert(a5 + tt =~= a5);
        },
    }
    let a6 = a5 + tt;
    assert(s[n] == ' ');
    lemma_lex_space(s, n, a6);
    lemma_lex_block(s, n + 1, f.body, a6);
    assert(a6 + block_toks(f.body) =~= acc + fn_toks(f));
}

proof fn lemma_lex_prog(s: Seq<char>, i: int, fs: Seq<SFn>, acc: Seq<SToken>)
    requires
        forall|k: int| 0 <= k < fs.len() ==> fn_form(#[trigger] fs[k]),
        chars_at(s, i, prog_text(fs)),
    ensures
        lex_from(s, i, acc) == lex_from(s, i + prog_text(fs).len(), acc + prog_toks(fs)),
    decreases fs.len(),
{
    reveal_strlit("\n\n");
    if fs.len() == 0 {
        assert(acc + prog_toks(fs) =~= acc);
    } else {
        let init = fs.drop_last();
        assert forall|k: int| 0 <= k < init.len() implies fn_form(#[trigger] init[k]) by {
            assert(init[k] == fs[k]);
        }
        let it = prog_text(init);
        let ft = fn_text(fs.last());
        assert(prog_text(fs) == it + ft + "\n\n"@);
        lemma_chars_split(s, i, it + ft, "\n\n"@);
        lemma_chars_split(s, i, it, ft);
        lemma_lex_prog(s, i, init, acc);
        let a1 = acc + prog_toks(init);
        let j = i + it.len();
        lemma_lex_fn(s, j, fs.last(), a1);
        let a2 = a1 + fn_toks(fs.last());
        let k = j + ft.len();
        lemma_char_at(s, k, "\n\n"@, 0);
        lemma_char_at(s, k, "\n\n"@, 1);
        assert(s[k] == '\n' && s[k + 1] == '\n');
        lemma_lex_space(s, k, a2);
        lemma_lex_space(s, k + 1, a2);
        assert(a2 =~= acc + prog_toks(fs));
    }
}

// ---------------------------------------------------------------------
// Reading blocks, statements, functions and programs back.
// ---------------------------------------------------------------------

proof fn lemma_parse_if(t: Seq<SToken>, p: int, a: SExpr)
    requires
        expr_form(a),
        a is IfThenElse,
        toks_at(t, p, expr_toks(a)),
        ends_ok(t, p + expr_toks(a).len()),
    ensures
        g_operand(t, p) == Some((a, p + expr_toks(a).len())),
    decreases a, 0nat,
{
    reveal_strlit("if");
    reveal_strlit("else");
    if let SExpr::IfThenElse(c, tb, eo) = a {
        let ct = expr_toks(*c);
        let bt = block_toks(tb);
        let et = match eo {
            Some(b) => word_tok("else"@) + block_toks(b),
            None => Seq::<SToken>::empty(),
        };
        assert(expr_toks(a) == word_tok("if"@) + ct + bt + et);
        lemma_toks_at_split(t, p, word_tok("if"@) + ct + bt, et);
        lemma_toks_at_split(t, p, word_tok("if"@) + ct, bt);
        lemma_toks_at_split(t, p, word_tok("if"@), ct);
        lemma_toks_at_get(t, p, word_tok("if"@), 0);
        let q = p + 1 + ct.len();
        lemma_toks_at_get(t, q, bt, 0);
        assert(bt[0] == SToken::Sym(Sym::LBrace));
        lemma_parse_expr(t, p + 1, *c);
        lemma_parse_block(t, q, tb);
        let r = q + bt.len();
        match eo {
            Some(b) => {
                let bb = block_toks(b);
                lemma_toks_at_split(t, r, word_tok("else"@), bb);
                lemma_toks_at_get(t, r, word_tok("else"@), 0);
                lemma_toks_at_get(t, r + 1, bb, 0);
                assert(bb[0] == SToken::Sym(Sym::LBrace));
                lemma_parse_block(t, r + 1, b);
                assert(g_if(t, p + 1) == Some((a, p + expr_toks(a).len())));
            },
            None => {
                assert(g_if(t, p + 1) == Some((a, p + expr_toks(a).len())));
            },
        }
    }
}

proof fn lemma_stmts_toks_cons(ss: Seq<SStmt>, semi: bool)
    requires
        ss.len() >= 1,
    ensures
        ss.len() == 1 ==> stmts_toks(ss, semi) == stmt_toks(ss[0]) + (if semi {
            sym_tok(Sym::Semi)
        } else {
            Seq::empty()
        }),
        ss.len() >= 2 ==> stmts_toks(ss, semi) == stmt_toks(ss[0]) + sym_tok(Sym::Semi) + stmts_toks(ss.skip(1), semi),
    decreases ss.len(),
{
    let sep = if semi { sym_tok(Sym::Semi) } else { Seq::<SToken>::empty() };
    if ss.len() == 1 {
        assert(stmts_toks(ss, semi) =~= stmt_toks(ss[0]) + sep);
    } else if ss.len() == 2 {
        let init = ss.drop_last();
        assert(init.len() == 1 && init[0] == ss[0]);
        assert(init.drop_last().len() == 0);
        assert(stmts_toks(init, true) =~= stmt_toks(ss[0]) + sym_tok(Sym::Semi));
        let rest = ss.skip(1);
        assert(rest.len() == 1 && rest[0] == ss.last());
        assert(rest.drop_last().len() == 0);
        assert(stmts_toks(rest, semi) =~= stmt_toks(ss.last()) + sep);
        assert(stmts_toks(ss, semi) =~= stmt_toks(ss[0]) + sym_tok(Sym::Semi) + stmts_toks(rest, semi));
    } else {
        let init = ss.drop_last();
        lemma_stmts_toks_cons(init, true);
        assert(init[0] == ss[0]);
        let rest = ss.skip(1);
        assert(init.skip(1) =~= rest.drop_last());
        assert(rest.last() == ss.last());
        assert(rest.drop_last().len() > 0);
        assert(stmts_toks(rest, semi) == stmts_toks(rest.drop_last(), true) + stmt_toks(rest.last()) + sep);
        assert(stmts_toks(ss, semi) == stmts_toks(init, true) + stmt_toks(ss.last()) + sep);
        assert(stmts_toks(ss, semi) =~= stmt_toks(ss[0]) + sym_tok(Sym::Semi) + stmts_toks(rest, semi));
    }
}

proof fn lemma_stmts_form_parts(ss: Seq<SStmt>)
    ensures
        stmts_form(ss) <==> forall|k: int| 0 <= k < ss.len() ==> stmt_form(#[trigger] ss[k]),
    decreases ss.len(),
{
    if ss.len() > 0 {
        lemma_stmts_form_parts(ss.drop_last());
        if stmts_form(ss) {
            assert forall|k: int| 0 <= k < ss.len() implies stmt_form(#[trigger] ss[k]) by {
                if k < ss.len() - 1 {
                    assert(ss.drop_last()[k] == ss[k]);
                }
            }
        }
        if forall|k: int| 0 <= k < ss.len() ==> stmt_form(#[trigger] ss[k]) {
            assert forall|k: int| 0 <= k < ss.drop_last().len() implies stmt_form(#[trigger] ss.drop_last()[k]) by {
                assert(ss.drop_last()[k] == ss[k]);
            }
        }
    }
}

/// The first token of a statement: never `}`, `;` or `else`.
proof fn lemma_stmt_first(st: SStmt)
    requires
        stmt_form(st),
    ensures
        stmt_toks(st).len() > 0,
        stmt_toks(st)[0] != SToken::Sym(Sym::RBrace),
{
    match st {
        SStmt::Let(m, id, ty, init) => {
            let rest = (if m { word_tok("mut"@) } else { Seq::<SToken>::empty() }) + word_tok(id)
                + opt_type_toks(Sym::Colon, ty) + match init {
                Some(e) => sym_tok(Sym::Assign) + expr_toks(e),
                None => Seq::<SToken>::empty(),
            };
            assert(stmt_toks(st) =~= word_tok("let"@) + rest);
        },
        SStmt::Assign(l, r) => {
            lemma_first_tok(l);
            assert(stmt_toks(st) == expr_toks(l) + sym_tok(Sym::Assign) + expr_toks(r));
        },
        SStmt::While(c, b) => {
            assert(stmt_toks(st) == word_tok("while"@) + expr_toks(c) + block_toks(b));
        },
        SStmt::Expr(e) => {
            lemma_first_tok(e);
        },
        SStmt::Fn(f) => {
            assert(fn_toks(f) == word_tok("fn"@) + (word_tok(f.id) + sym_tok(Sym::LParen) + params_toks(f.params)
                + sym_tok(Sym::RParen) + opt_type_toks(Sym::Arrow, f.ty) + block_toks(f.body)));
        },
    }
}

proof fn lemma_parse_block(t: Seq<SToken>, p: int, b: SBlock)
    requires
        block_form(b),
        toks_at(t, p, block_toks(b)),
    ensures
        g_block(t, p) == Some((b, p + block_toks(b).len())),
    decreases b, 3nat,
{
    let st = stmts_toks(b.stmts, b.semi);
    let rb = sym_tok(Sym::RBrace);
    assert(block_toks(b) =~= sym_tok(Sym::LBrace) + (st + rb));
    lemma_toks_at_split(t, p, sym_tok(Sym::LBrace), st + rb);
    lemma_toks_at_get(t, p, sym_tok(Sym::LBrace), 0);
    lemma_parse_stmts(t, p + 1, b.stmts, b.semi, Seq::empty(), false);
    assert(Seq::<SStmt>::empty() + b.stmts =~= b.stmts);
}

/// Statements followed by `}` are read back after those in `acc`; `flag`
/// tells whether the statement before them was followed by `;`.
proof fn lemma_parse_stmts(t: Seq<SToken>, p: int, ss: Seq<SStmt>, semi: bool, acc: Seq<SStmt>, flag: bool)
    requires
        stmts_form(ss),
        ss.len() == 0 ==> flag == semi,
        ss.len() > 0 && !semi ==> !(ss.last() is Let),
        toks_at(t, p, stmts_toks(ss, semi) + sym_tok(Sym::RBrace)),
    ensures
        g_stmts(t, p, acc, flag) == Some((SBlock { stmts: acc + ss, semi }, p + stmts_toks(ss, semi).len() + 1)),
    decreases ss, 3nat,
{
    let rb = sym_tok(Sym::RBrace);
    lemma_stmts_form_parts(ss);
    lemma_toks_at_split(t, p, stmts_toks(ss, semi), rb);
    lemma_toks_at_get(t, p + stmts_toks(ss, semi).len(), rb, 0);
    if ss.len() == 0 {
        assert(stmts_toks(ss, semi).len() == 0);
        assert(acc + ss =~= acc);
    } else {
        lemma_stmts_toks_cons(ss, semi);
        let s0 = ss[0];
        let k0 = stmt_toks(s0).len();
        lemma_stmt_first(s0);
        if ss.len() == 1 {
            assert(ss.last() == s0);
            assert(acc.push(s0) =~= acc + ss);
            if semi {
                let sm = sym_tok(Sym::Semi);
                assert(stmts_toks(ss, semi) + rb =~= stmt_toks(s0) + (sm + rb));
                lemma_toks_at_split(t, p, stmt_toks(s0), sm + rb);
                lemma_toks_at_get(t, p, stmt_toks(s0), 0);
                lemma_toks_at_get(t, p + k0, sm + rb, 0);
                lemma_toks_at_get(t, p + k0, sm + rb, 1);
                assert(t[p + k0] == SToken::Sym(Sym::Semi));
                assert(t[p + k0 + 1] == SToken::Sym(Sym::RBrace));
                lemma_parse_stmt(t, p, s0);
                assert(g_stmts(t, p + k0 + 1, acc.push(s0), true) == Some((SBlock { stmts: acc.push(s0), semi: true }, p + k0 + 2)));
            } else {
                assert(stmts_toks(ss, semi) + rb =~= stmt_toks(s0) + rb);
                lemma_toks_at_split(t, p, stmt_toks(s0), rb);
                lemma_toks_at_get(t, p, stmt_toks(s0), 0);
                lemma_toks_at_get(t, p + k0, rb, 0);
                assert(t[p + k0] == SToken::Sym(Sym::RBrace));
                lemma_parse_stmt(t, p, s0);
                assert(!(s0 is Let));
                assert(g_stmts(t, p + k0, acc.push(s0), false) == Some((SBlock { stmts: acc.push(s0), semi: false }, p + k0 + 1)));
            }
        } else {
            let rest = ss.skip(1);
            let sm = sym_tok(Sym::Semi);
            assert(stmts_toks(ss, semi) + rb =~= stmt_toks(s0) + (sm + (stmts_toks(rest, semi) + rb)));
            lemma_toks_at_split(t, p, stmt_toks(s0), sm + (stmts_toks(rest, semi) + rb));
            lemma_toks_at_split(t, p + k0, sm, stmts_toks(rest, semi) + rb);
            lemma_toks_at_get(t, p + k0, sm, 0);
            lemma_toks_at_get(t, p, stmt_toks(s0), 0);
            lemma_parse_stmt(t, p, s0);
            lemma_stmts_form_parts(rest);
            assert forall|k: int| 0 <= k < rest.len() implies stmt_form(#[trigger] rest[k]) by {
                assert(rest[k] == ss[k + 1]);
            }
            assert(rest.last() == ss.last());
            lemma_parse_stmts(t, p + k0 + 1, rest, semi, acc.push(s0), true);
            assert(acc.push(s0) + rest =~= acc + ss);
        }
    }
}

/// What may follow a statement: the end, `;` or `}`.
pub open spec fn stmt_end(t: Seq<SToken>, q: int) -> bool {
    q == t.len() || sym_is(t, q, Sym::Semi) || sym_is(t, q, Sym::RBrace)
}

proof fn lemma_parse_stmt(t: Seq<SToken>, p: int, st: SStmt)
    requires
        stmt_form(st),
        toks_at(t, p, stmt_toks(st)),
        stmt_end(t, p + stmt_toks(st).len()),
    ensures
        g_stmt(t, p) == Some((st, p + stmt_toks(st).len())),
    decreases st, 3nat,
{
    reveal_strlit("fn");
    reveal_strlit("let");
    reveal_strlit("while");
    reveal_strlit("else");
    assert("fn"@.len() == 2 && "let"@.len() == 3 && "while"@.len() == 5 && "else"@.len() == 4);
    assert("fn"@ != "let"@ && "fn"@ != "while"@ && "let"@ != "while"@);
    match st {
        SStmt::Let(_, _, _, _) => lemma_parse_let(t, p, st),
        SStmt::Assign(l, r) => {
            let lt = expr_toks(l);
            let rt = expr_toks(r);
            assert(stmt_toks(st) == lt + sym_tok(Sym::Assign) + rt);
            lemma_toks_at_split(t, p, lt + sym_tok(Sym::Assign), rt);
            lemma_toks_at_split(t, p, lt, sym_tok(Sym::Assign));
            lemma_toks_at_get(t, p + lt.len(), sym_tok(Sym::Assign), 0);
            lemma_first_tok(l);
            lemma_toks_at_get(t, p, lt, 0);
            lemma_parse_expr(t, p, l);
            lemma_parse_expr(t, p + lt.len() + 1, r);
        },
        SStmt::While(c, b) => {
            let ct = expr_toks(c);
            let bt = block_toks(b);
            assert(stmt_toks(st) == word_tok("while"@) + ct + bt);
            lemma_toks_at_split(t, p, word_tok("while"@) + ct, bt);
            lemma_toks_at_split(t, p, word_tok("while"@), ct);
            lemma_toks_at_get(t, p, word_tok("while"@), 0);
            lemma_toks_at_get(t, p + 1 + ct.len(), bt, 0);
            assert(bt[0] == SToken::Sym(Sym::LBrace));
            lemma_parse_expr(t, p + 1, c);
            lemma_parse_block(t, p + 1 + ct.len(), b);
        },
        SStmt::Expr(e) => {
            lemma_first_tok(e);
            lemma_toks_at_get(t, p, expr_toks(e), 0);
            lemma_parse_expr(t, p, e);
        },
        SStmt::Fn(f) => {
            assert(fn_toks(f)[0] == SToken::Ident("fn"@));
            lemma_toks_at_get(t, p, fn_toks(f), 0);
            lemma_parse_fn(t, p, f);
        },
    }
}

#[verifier::rlimit(60)]
proof fn lemma_parse_let(t: Seq<SToken>, p: int, st: SStmt)
    requires
        stmt_form(st),
        st is Let,
        toks_at(t, p, stmt_toks(st)),
        stmt_end(t, p + stmt_toks(st).len()),
    ensures
        g_stmt(t, p) == Some((st, p + stmt_toks(st).len())),
    decreases st, 0nat,
{
    reveal_strlit("fn");
    reveal_strlit("let");
    reveal_strlit("mut");
    assert("fn"@.len() == 2 && "let"@.len() == 3);
    if let SStmt::Let(m, id, ty, init) = st {
        let mt = if m { word_tok("mut"@) } else { Seq::<SToken>::empty() };
        let tt = opt_type_toks(Sym::Colon, ty);
        let it = match init {
            Some(e) => sym_tok(Sym::Assign) + expr_toks(e),
            None => Seq::<SToken>::empty(),
        };
        assert(stmt_toks(st) == word_tok("let"@) + mt + word_tok(id) + tt + it);
        lemma_toks_at_split(t, p, word_tok("let"@) + mt + word_tok(id) + tt, it);
        lemma_toks_at_split(t, p, word_tok("let"@) + mt + word_tok(id), tt);
        lemma_toks_at_split(t, p, word_tok("let"@) + mt, word_tok(id));
        lemma_toks_at_split(t, p, word_tok("let"@), mt);
        lemma_toks_at_get(t, p, word_tok("let"@), 0);
        let p1 = p + 1 + mt.len();
        lemma_toks_at_get(t, p1, word_tok(id), 0);
        assert(is_keyword("mut"@));
        if m {
            lemma_toks_at_get(t, p + 1, mt, 0);
        }
        assert(kw_is(t, p + 1, "mut"@) == m);
        assert(ident_at(t, p1) == Some(id));
        let p2 = p1 + 1;
        let p3 = p2 + tt.len();
        let q = p3 + it.len();
        match ty {
            Some(ty0) => {
                let tyt = type_toks(ty0);
                lemma_toks_at_split(t, p2, sym_tok(Sym::Colon), tyt);
                lemma_toks_at_get(t, p2, sym_tok(Sym::Colon), 0);
                lemma_parse_type(t, p2 + 1, ty0);
                assert(g_opt_annot(t, p2, Sym::Colon) == Some((ty, p3)));
            },
            None => {
                if init is Some {
                    lemma_toks_at_get(t, p2, it, 0);
                }
                assert(g_opt_annot(t, p2, Sym::Colon) == Some((ty, p3)));
            },
        }
        match init {
            Some(e) => {
                let et = expr_toks(e);
                lemma_toks_at_split(t, p3, sym_tok(Sym::Assign), et);
                lemma_toks_at_get(t, p3, sym_tok(Sym::Assign), 0);
                lemma_parse_expr(t, p3 + 1, e);
            },
            None => {},
        }
    }
}

proof fn lemma_params_toks_cons(ps: Seq<SParam>)
    requires
        ps.len() >= 1,
    ensures
        ps.len() == 1 ==> params_toks(ps) == param_toks(ps[0]),
        ps.len() >= 2 ==> params_toks(ps) == param_toks(ps[0]) + sym_tok(Sym::Comma) + params_toks(ps.skip(1)),
    decreases ps.len(),
{
    if ps.len() >= 3 {
        let init = ps.drop_last();
        lemma_params_toks_cons(init);
        assert(init[0] == ps[0]);
        assert(init.skip(1) =~= ps.skip(1).drop_last());
        assert(ps.skip(1).last() == ps.last());
        assert(params_toks(ps) =~= param_toks(ps[0]) + sym_tok(Sym::Comma) + params_toks(ps.skip(1)));
    } else if ps.len() == 2 {
        assert(ps.drop_last().len() == 1 && ps.drop_last()[0] == ps[0]);
        assert(ps.skip(1).len() == 1 && ps.skip(1)[0] == ps.last());
        assert(params_toks(ps.skip(1)) == param_toks(ps.skip(1)[0]));
        assert(params_toks(ps.drop_last()) == param_toks(ps[0]));
    }
}

proof fn lemma_parse_param(t: Seq<SToken>, p: int, x: SParam)
    requires
        is_name(x.id),
        toks_at(t, p, param_toks(x)),
    ensures
        g_param(t, p) == Some((x, p + param_toks(x).len())),
{
    reveal_strlit("mut");
    assert(is_keyword("mut"@));
    let mt = if x.mutable { word_tok("mut"@) } else { Seq::<SToken>::empty() };
    let tt = type_toks(x.ty);
    assert(param_toks(x) == mt + word_tok(x.id) + sym_tok(Sym::Colon) + tt);
    lemma_toks_at_split(t, p, mt + word_tok(x.id) + sym_tok(Sym::Colon), tt);
    lemma_toks_at_split(t, p, mt + word_tok(x.id), sym_tok(Sym::Colon));
    lemma_toks_at_split(t, p, mt, word_tok(x.id));
    let p1 = p + mt.len();
    lemma_toks_at_get(t, p1, word_tok(x.id), 0);
    lemma_toks_at_get(t, p1 + 1, sym_tok(Sym::Colon), 0);
    if x.mutable {
        lemma_toks_at_get(t, p, mt, 0);
    }
    lemma_parse_type(t, p1 + 2, x.ty);
}

/// Parameters followed by `)` are read back after those in `acc`.
proof fn lemma_parse_params(t: Seq<SToken>, p: int, ps: Seq<SParam>, acc: Seq<SParam>)
    requires
        forall|k: int| 0 <= k < ps.len() ==> is_name(#[trigger] ps[k].id),
        toks_at(t, p, params_toks(ps) + sym_tok(Sym::RParen)),
    ensures
        g_params(t, p, acc) == Some((acc + ps, p + params_toks(ps).len() + 1)),
    decreases ps.len(),
{
    reveal_strlit("mut");
    let rp = sym_tok(Sym::RParen);
    lemma_toks_at_split(t, p, params_toks(ps), rp);
    lemma_toks_at_get(t, p + params_toks(ps).len(), rp, 0);
    if ps.len() == 0 {
        assert(acc + ps =~= acc);
    } else {
        lemma_params_toks_cons(ps);
        let x = ps[0];
        let k0 = param_toks(x).len();
        let mt = if x.mutable { word_tok("mut"@) } else { Seq::<SToken>::empty() };
        assert(param_toks(x) == mt + word_tok(x.id) + sym_tok(Sym::Colon) + type_toks(x.ty));
        assert(param_toks(x)[0] != SToken::Sym(Sym::RParen)) by {
            if x.mutable {
                assert(param_toks(x)[0] == mt[0]);
            } else {
                assert(param_toks(x)[0] == SToken::Ident(x.id));
            }
        }
        if ps.len() == 1 {
            assert(params_toks(ps) + rp =~= param_toks(x) + rp);
            lemma_toks_at_split(t, p, param_toks(x), rp);
            lemma_toks_at_get(t, p, param_toks(x), 0);
            lemma_parse_param(t, p, x);
            assert(acc.push(x) =~= acc + ps);
        } else {
            let rest = ps.skip(1);
            let cm = sym_tok(Sym::Comma);
            assert(params_toks(ps) + rp =~= param_toks(x) + (cm + (params_toks(rest) + rp)));
            lemma_toks_at_split(t, p, param_toks(x), cm + (params_toks(rest) + rp));
            lemma_toks_at_split(t, p + k0, cm, params_toks(rest) + rp);
            lemma_toks_at_get(t, p + k0, cm, 0);
            lemma_toks_at_get(t, p, param_toks(x), 0);
            lemma_parse_param(t, p, x);
            assert forall|k: int| 0 <= k < rest.len() implies is_name(#[trigger] rest[k].id) by {
                assert(rest[k] == ps[k + 1]);
            }
            lemma_parse_params(t, p + k0 + 1, rest, acc.push(x));
            assert(acc.push(x) + rest =~= acc + ps);
        }
    }
}

proof fn lemma_parse_fn(t: Seq<SToken>, p: int, f: SFn)
    requires
        fn_form(f),
        toks_at(t, p, fn_toks(f)),
    ensures
        g_fn(t, p) == Some((f, p + fn_toks(f).len())),
    decreases f, 3nat,
{
    reveal_strlit("fn");
    let pt = params_toks(f.params);
    let tt = opt_type_toks(Sym::Arrow, f.ty);
    let bt = block_toks(f.body);
    let head = word_tok("fn"@) + word_tok(f.id) + sym_tok(Sym::LParen);
    assert(fn_toks(f) == head + pt + sym_tok(Sym::RParen) + tt + bt);
    lemma_toks_at_split(t, p, head + pt + sym_tok(Sym::RParen) + tt, bt);
    lemma_toks_at_split(t, p, head + pt + sym_tok(Sym::RParen), tt);
    assert(head + pt + sym_tok(Sym::RParen) =~= head + (pt + sym_tok(Sym::RParen)));
    lemma_toks_at_split(t, p, head, pt + sym_tok(Sym::RParen));
    lemma_toks_at_get(t, p, head, 0);
    lemma_toks_at_get(t, p, head, 1);
    lemma_toks_at_get(t, p, head, 2);
    lemma_parse_params(t, p + 3, f.params, Seq::empty());
    assert(Seq::<SParam>::empty() + f.params =~= f.params);
    let q = p + 3 + pt.len() + 1;
    let r = q + tt.len();
    lemma_toks_at_get(t, r, bt, 0);
    assert(bt[0] == SToken::Sym(Sym::LBrace));
    match f.ty {
        Some(ty0) => {
            let tyt = type_toks(ty0);
            lemma_toks_at_split(t, q, sym_tok(Sym::Arrow), tyt);
            lemma_toks_at_get(t, q, sym_tok(Sym::Arrow), 0);
            lemma_parse_type(t, q + 1, ty0);
        },
        None => {},
    }
    assert(g_opt_annot(t, q, Sym::Arrow) == Some((f.ty, r)));
    lemma_parse_block(t, r, f.body);
}

proof fn lemma_prog_toks_cons(fs: Seq<SFn>)
    requires
        fs.len() >= 1,
    ensures
        prog_toks(fs) == fn_toks(fs[0]) + prog_toks(fs.skip(1)),
    decreases fs.len(),
{
    if fs.len() == 1 {
        assert(fs.drop_last().len() == 0);
        assert(fs.skip(1).len() == 0);
        assert(prog_toks(fs.drop_last()) == Seq::<SToken>::empty());
        assert(prog_toks(fs.skip(1)) == Seq::<SToken>::empty());
        assert(fs.last() == fs[0]);
        assert(prog_toks(fs) =~= fn_toks(fs[0]) + prog_toks(fs.skip(1)));
    } else {
        let init = fs.drop_last();
        lemma_prog_toks_cons(init);
        assert(init[0] == fs[0]);
        assert(init.skip(1) =~= fs.skip(1).drop_last());
        assert(fs.skip(1).last() == fs.last());
        assert(prog_toks(fs) =~= fn_toks(fs[0]) + prog_toks(fs.skip(1)));
    }
}

proof fn lemma_parse_fns(t: Seq<SToken>, p: int, fs: Seq<SFn>, acc: Seq<SFn>)
    requires
        forall|k: int| 0 <= k < fs.len() ==> fn_form(#[trigger] fs[k]),
        toks_at(t, p, prog_toks(fs)),
        p + prog_toks(fs).len() == t.len(),
    ensures
        g_fns(t, p, acc) == Some(acc + fs),
    decreases fs.len(),
{
    if fs.len() == 0 {
        assert(prog_toks(fs).len() == 0);
        assert(acc + fs =~= acc);
    } else {
        lemma_prog_toks_cons(fs);
        let f = fs[0];
        lemma_toks_at_split(t, p, fn_toks(f), prog_toks(fs.skip(1)));
        lemma_parse_fn(t, p, f);
        assert(fn_toks(f).len() > 0) by {
            assert(fn_toks(f) == word_tok("fn"@) + (word_tok(f.id) + sym_tok(Sym::LParen) + params_toks(f.params)
                + sym_tok(Sym::RParen) + opt_type_toks(Sym::Arrow, f.ty) + block_toks(f.body)));
        }
        let rest = fs.skip(1);
        assert forall|k: int| 0 <= k < rest.len() implies fn_form(#[trigger] rest[k]) by {
            assert(rest[k] == fs[k + 1]);
        }
        lemma_parse_fns(t, p + fn_toks(f).len(), rest, acc.push(f));
        assert(acc.push(f) + rest =~= acc + fs);
    }
}

// ---------------------------------------------------------------------
// The round trips of blocks, statements, functions and programs.
// ---------------------------------------------------------------------

/// Reading back what printing a block gives yields the block again, for
/// every block in `block_form`.
pub proof fn law_block_round_trip(b: SBlock)
    requires
        block_form(b),
    ensures
        spec_parse::<Block>(block_text(b)) == Some(b),
{
    let s = block_text(b);
    assert(chars_at(s, 0, s));
    lemma_lex_block(s, 0, b, Seq::empty());
    let ts = block_toks(b);
    assert(Seq::<SToken>::empty() + ts =~= ts);
    assert(lex_from(s, s.len() as int, ts) == Some(ts));
    assert(ts.subrange(0, ts.len() as int) =~= ts);
    lemma_parse_block(ts, 0, b);
}

/// Reading back what printing a statement gives yields the statement
/// again, for every statement in `stmt_form`.
pub proof fn law_stmt_round_trip(st: SStmt)
    requires
        stmt_form(st),
    ensures
        spec_parse::<Statement>(stmt_text(st)) == Some(st),
{
    let s = stmt_text(st);
    assert(text_at(s, 0, s));
    lemma_lex_stmt(s, 0, st, Seq::empty());
    let ts = stmt_toks(st);
    assert(Seq::<SToken>::empty() + ts =~= ts);
    assert(lex_from(s, s.len() as int, ts) == Some(ts));
    assert(ts.subrange(0, ts.len() as int) =~= ts);
    lemma_parse_stmt(ts, 0, st);
}

/// Reading back what printing a function declaration gives yields the
/// declaration again, for every declaration in `fn_form`.
pub proof fn law_fn_round_trip(f: SFn)
    requires
        fn_form(f),
    ensures
        spec_parse::<FnDeclaration>(fn_text(f)) == Some(f),
{
    let s = fn_text(f);
    assert(chars_at(s, 0, s));
    lemma_lex_fn(s, 0, f, Seq::empty());
    let ts = fn_toks(f);
    assert(Seq::<SToken>::empty() + ts =~= ts);
    assert(lex_from(s, s.len() as int, ts) == Some(ts));
    assert(ts.subrange(0, ts.len() as int) =~= ts);
    lemma_parse_fn(ts, 0, f);
}

/// Reading back what printing a program gives yields the program again,
/// when each of its functions is in `fn_form`.
pub proof fn law_prog_round_trip(fs: Seq<SFn>)
    requires
        forall|k: int| 0 <= k < fs.len() ==> fn_form(#[trigger] fs[k]),
    ensures
        spec_parse::<Prog>(prog_text(fs)) == Some(fs),
{
    let s = prog_text(fs);
    assert(chars_at(s, 0, s));
    lemma_lex_prog(s, 0, fs, Seq::empty());
    let ts = prog_toks(fs);
    assert(Seq::<SToken>::empty() + ts =~= ts);
    assert(lex_from(s, s.len() as int, ts) == Some(ts));
    assert(ts.subrange(0, ts.len() as int) =~= ts);
    lemma_parse_fns(ts, 0, fs, Seq::empty());
    assert(Seq::<SFn>::empty() + fs =~= fs);
}

} // verus!
