//! Evaluation of a bound token run into a `Value` against the live scope
//! chain: a variable reference, a quoted string, a number with an
//! optional unit, or a plain identifier.

use vstd::prelude::*;
use vstd::string::StringExecFns;
use crate::bigint::{big_add, big_from_u64, big_mul, big_neg, bval};
use crate::common::{Op, QuoteKind};
use crate::error::{SassError, SassResult};
use crate::number::{Number, NumV};
use crate::scope::Scope;
use crate::selector::Selector;
use crate::span::{Span, Spanned};
use crate::token::Token;
use crate::unit::{unit_of_name, unit_from_name, Unit};
use crate::utils::{
    chars_to_string, is_digit, is_ident_char, is_ws, kinds, merge_token_spans, norm, tokens_span,
    trim, trim_back, trim_front,
};
use crate::value::{cmp_defined, dim_cmp, undef_op_msg, Value, ValueRepr};

verus! {

/// The outcome of evaluating a token run, at the level of views: the
/// value produced and its span, or the diagnostic and its span.
pub type EvalRepr = Result<(ValueRepr, Span), (Seq<char>, Span)>;

/// The view of an evaluation result.
pub open spec fn evr(r: SassResult<Spanned<Value>>) -> EvalRepr {
    match r {
        Ok(sv) => Ok((sv.node@, sv.span)),
        Err(e) => Err((e.message@, e.span)),
    }
}

/// The diagnostic for a read of an unbound variable.
pub open spec fn undef_var_msg(name: Seq<char>) -> Seq<char> {
    "Undefined variable: \"$"@ + name + "\"."@
}

/// The value of a digit run, most significant digit first.
pub open spec fn digits_val(s: Seq<char>) -> int
    decreases s.len(),
{
    if s.len() == 0 {
        0
    } else {
        digits_val(s.take(s.len() - 1)) * 10 + (s[s.len() - 1] as int - '0' as int)
    }
}

/// The length of the leading digit run.
pub open spec fn digit_run(s: Seq<char>) -> int
    decreases s.len(),
{
    if s.len() > 0 && is_digit(s[0]) {
        1 + digit_run(s.skip(1))
    } else {
        0
    }
}

pub open spec fn pow10(k: nat) -> int
    decreases k,
{
    if k == 0 {
        1
    } else {
        pow10((k - 1) as nat) * 10
    }
}

/// A parsed numeric literal: magnitude as an exact fraction, and a unit.
/// `-`, a digit run, an optional `.` with a digit run, and an optional
/// unit name. Anything else is no number.
pub open spec fn num_model(s: Seq<char>) -> Option<(int, int, Unit)> {
    let neg = s.len() > 0 && s[0] == '-';
    let body = if neg {
        s.skip(1)
    } else {
        s
    };
    let k = digit_run(body);
    if k == 0 {
        Option::<(int, int, Unit)>::None
    } else {
        let whole = digits_val(body.take(k));
        let rest = body.skip(k);
        let sgn: int = if neg {
            -1
        } else {
            1
        };
        if rest.len() > 0 && rest[0] == '.' {
            let fk = digit_run(rest.skip(1));
            if fk == 0 {
                Option::<(int, int, Unit)>::None
            } else {
                let frac = digits_val(rest.skip(1).take(fk));
                let tail = rest.skip(1 + fk);
                match num_unit(tail) {
                    Some(u) => Some(
                        (sgn * (whole * pow10(fk as nat) + frac), pow10(fk as nat), u),
                    ),
                    None => Option::<(int, int, Unit)>::None,
                }
            }
        } else {
            match num_unit(rest) {
                Some(u) => Some((sgn * whole, 1int, u)),
                None => Option::<(int, int, Unit)>::None,
            }
        }
    }
}

/// The unit spelled by what follows the digits: none at all, or a known
/// unit name.
pub open spec fn num_unit(s: Seq<char>) -> Option<Unit> {
    if s.len() == 0 {
        Some(Unit::NoUnit)
    } else {
        unit_of_name(s)
    }
}

/// What evaluating a single atom (no top-level comparison) yields.
pub open spec fn atom_model(toks: Seq<Token>, scope: Scope, fallback: Span) -> EvalRepr {
    let t = trim(toks);
    if t.len() == 0 {
        Err(("Expected expression."@, fallback))
    } else {
        let sp = tokens_span(t, fallback);
        let c = t[0].kind;
        if c == '$' {
            let name = kinds(t.skip(1));
            if t.len() >= 2 && (forall|i: int| 0 <= i < name.len() ==> is_ident_char(#[trigger] name[i])) {
                match scope.lookup(scope.num_frames() - 1, norm(name)) {
                    Some(v) => Ok((v, sp)),
                    None => Err((undef_var_msg(norm(name)), sp)),
                }
            } else {
                Err(("Expected expression."@, sp))
            }
        } else if c == '"' || c == '\'' {
            if t.len() >= 2 && t[t.len() - 1].kind == c {
                Ok((ValueRepr::Ident(kinds(t.subrange(1, t.len() - 1)), QuoteKind::Quoted), sp))
            } else {
                Err(("Expected expression."@, sp))
            }
        } else if is_digit(c) || c == '-' {
            match num_model(kinds(t)) {
                Some((num, den, unit)) => Ok(
                    (ValueRepr::Dimension(NumV { num, den }, unit), sp),
                ),
                None => Ok((ValueRepr::Ident(kinds(t), QuoteKind::Unquoted), sp)),
            }
        } else {
            Ok((ValueRepr::Ident(kinds(t), QuoteKind::Unquoted), sp))
        }
    }
}

/// The width in tokens of a comparison operator.
pub open spec fn op_width(op: Op) -> int {
    match op {
        Op::GreaterThanEqual | Op::LessThanEqual => 2,
        _ => 1,
    }
}

/// The first top-level comparison operator in a run: outside any
/// bracket, parenthesis or quoted stretch. The position and the
/// operator, two tokens wide when `=` follows.
pub open spec fn find_op(s: Seq<Token>, depth: nat, quote: Option<char>) -> Option<(int, Op)>
    decreases s.len(),
{
    if s.len() == 0 {
        Option::<(int, Op)>::None
    } else {
        let c = s[0].kind;
        match quote {
            Some(q) => match find_op(
                s.skip(1),
                depth,
                if c == q {
                    None
                } else {
                    Some(q)
                },
            ) {
                Some((j, op)) => Some((j + 1, op)),
                None => Option::<(int, Op)>::None,
            },
            None => {
                if depth == 0 && (c == '>' || c == '<') {
                    let two = s.len() >= 2 && s[1].kind == '=';
                    Some(
                        (
                            0int,
                            if c == '>' {
                                if two {
                                    Op::GreaterThanEqual
                                } else {
                                    Op::GreaterThan
                                }
                            } else {
                                if two {
                                    Op::LessThanEqual
                                } else {
                                    Op::LessThan
                                }
                            },
                        ),
                    )
                } else {
                    let nd = if c == '(' || c == '[' {
                        depth + 1
                    } else if (c == ')' || c == ']') && depth > 0 {
                        (depth - 1) as nat
                    } else {
                        depth
                    };
                    let nq = if c == '"' || c == '\'' {
                        Some(c)
                    } else {
                        Option::<char>::None
                    };
                    match find_op(s.skip(1), nd, nq) {
                        Some((j, op)) => Some((j + 1, op)),
                        None => Option::<(int, Op)>::None,
                    }
                }
            }
        }
    }
}

/// What evaluating a bound token run yields: a single top-level
/// comparison evaluates both sides as atoms and compares them per the
/// value model; anything else is one atom.
pub open spec fn eval_model(toks: Seq<Token>, scope: Scope, fallback: Span) -> EvalRepr {
    let t = trim(toks);
    if t.len() == 0 {
        Err(("Expected expression."@, fallback))
    } else {
        let sp = tokens_span(t, fallback);
        match find_op(t, 0, None) {
            Some((i, op)) => match atom_model(t.take(i), scope, sp) {
                Err(e) => Err(e),
                Ok((lv, _)) => match atom_model(t.skip(i + op_width(op)), scope, sp) {
                    Err(e) => Err(e),
                    Ok((rv, _)) => if cmp_defined(lv, rv) {
                        Ok(
                            (
                                if dim_cmp(
                                    op,
                                    lv->Dimension_0,
                                    lv->Dimension_1,
                                    rv->Dimension_0,
                                    rv->Dimension_1,
                                ) {
                                    ValueRepr::True
                                } else {
                                    ValueRepr::False
                                },
                                sp,
                            ),
                        )
                    } else {
                        Err((undef_op_msg(lv, op, rv), sp))
                    },
                },
            },
            None => atom_model(toks, scope, fallback),
        }
    }
}

proof fn lemma_trim_front_at(s: Seq<Token>, lo: int)
    requires
        0 <= lo <= s.len(),
        forall|j: int| 0 <= j < lo ==> is_ws(#[trigger] s[j].kind),
        lo == s.len() || !is_ws(s[lo].kind),
    ensures
        trim_front(s) == s.skip(lo),
    decreases lo,
{
    if lo == 0 {
        assert(s.skip(0) =~= s);
    } else {
        lemma_trim_front_at(s.skip(1), lo - 1);
        assert(s.skip(1).skip(lo - 1) =~= s.skip(lo));
    }
}

proof fn lemma_trim_back_at(s: Seq<Token>, hi: int)
    requires
        0 <= hi <= s.len(),
        forall|j: int| hi <= j < s.len() ==> is_ws(#[trigger] s[j].kind),
        hi == 0 || !is_ws(s[hi - 1].kind),
    ensures
        trim_back(s) == s.take(hi),
    decreases s.len(),
{
    if hi == s.len() {
        assert(s.take(hi) =~= s);
    } else {
        lemma_trim_back_at(s.take(s.len() - 1), hi);
        assert(s.take(s.len() - 1).take(hi) =~= s.take(hi));
    }
}

/// The run with leading and trailing whitespace removed.
fn trim_tokens(v: &Vec<Token>) -> (tv: Vec<Token>)
    ensures
        tv@ == trim(v@),
{
    let n = v.len();
    let mut lo: usize = 0;
    while lo < n && (v[lo].kind == ' ' || v[lo].kind == '\t' || v[lo].kind == '\n' || v[lo].kind
        == '\r')
        invariant
            lo <= n,
            n == v@.len(),
            forall|j: int| 0 <= j < lo ==> is_ws(#[trigger] v@[j].kind),
        decreases n - lo,
    {
        lo = lo + 1;
    }
    let mut hi: usize = n;
    while hi > lo && (v[hi - 1].kind == ' ' || v[hi - 1].kind == '\t' || v[hi - 1].kind == '\n'
        || v[hi - 1].kind == '\r')
        invariant
            lo <= hi <= n,
            n == v@.len(),
            forall|j: int| 0 <= j < lo ==> is_ws(#[trigger] v@[j].kind),
            forall|j: int| hi <= j < n ==> is_ws(#[trigger] v@[j].kind),
        decreases hi,
    {
        hi = hi - 1;
    }
    let mut tv: Vec<Token> = Vec::new();
    let mut i: usize = lo;
    while i < hi
        invariant
            lo <= i <= hi <= n,
            n == v@.len(),
            tv@ == v@.subrange(lo as int, i as int),
        decreases hi - i,
    {
        tv.push(v[i]);
        i = i + 1;
        proof {
            assert(tv@ =~= v@.subrange(lo as int, i as int));
        }
    }
    proof {
        lemma_trim_front_at(v@, lo as int);
        let f = v@.skip(lo as int);
        assert(forall|j: int| hi - lo <= j < f.len() ==> is_ws(#[trigger] f[j].kind));
        lemma_trim_back_at(f, hi as int - lo as int);
        assert(tv@ =~= f.take(hi as int - lo as int));
    }
    tv
}

/// The characters of a token run.
fn kinds_of(v: &Vec<Token>) -> (cv: Vec<char>)
    ensures
        cv@ == kinds(v@),
{
    let mut cv: Vec<char> = Vec::new();
    let mut i: usize = 0;
    while i < v.len()
        invariant
            i <= v@.len(),
            cv@ == kinds(v@).take(i as int),
        decreases v@.len() - i,
    {
        cv.push(v[i].kind);
        i = i + 1;
        proof {
            assert(cv@ =~= kinds(v@).take(i as int));
        }
    }
    proof {
        assert(cv@ =~= kinds(v@));
    }
    cv
}

/// The characters from `from` on.
fn chars_from(cv: &Vec<char>, from: usize) -> (r: Vec<char>)
    requires
        from <= cv@.len(),
    ensures
        r@ == cv@.skip(from as int),
{
    let mut r: Vec<char> = Vec::new();
    let mut i: usize = from;
    while i < cv.len()
        invariant
            from <= i <= cv@.len(),
            r@ == cv@.subrange(from as int, i as int),
        decreases cv@.len() - i,
    {
        r.push(cv[i]);
        i = i + 1;
        proof {
            assert(r@ =~= cv@.subrange(from as int, i as int));
        }
    }
    proof {
        assert(r@ =~= cv@.skip(from as int));
    }
    r
}

proof fn lemma_digit_run_bound(s: Seq<char>)
    ensures
        0 <= digit_run(s) <= s.len(),
    decreases s.len(),
{
    if s.len() > 0 && is_digit(s[0]) {
        lemma_digit_run_bound(s.skip(1));
    }
}

proof fn lemma_digit_run_at(s: Seq<char>, i: int)
    requires
        0 <= i <= s.len(),
        forall|j: int| 0 <= j < i ==> is_digit(#[trigger] s[j]),
        i == s.len() || !is_digit(s[i]),
    ensures
        digit_run(s) == i,
    decreases i,
{
    if i > 0 {
        lemma_digit_run_at(s.skip(1), i - 1);
    }
}

/// Read the leading digit run: its exact value and its length.
fn parse_digits(cv: &Vec<char>) -> (r: (num_bigint::BigInt, usize))
    ensures
        r.1 as int == digit_run(cv@),
        bval(r.0) == digits_val(cv@.take(r.1 as int)),
{
    let mut acc = big_from_u64(0);
    let mut i: usize = 0;
    proof {
        assert(cv@.take(0) =~= Seq::<char>::empty());
    }
    while i < cv.len() && '0' <= cv[i] && cv[i] <= '9'
        invariant
            i <= cv@.len(),
            forall|j: int| 0 <= j < i ==> is_digit(#[trigger] cv@[j]),
            bval(acc) == digits_val(cv@.take(i as int)),
        decreases cv@.len() - i,
    {
        let d: u64 = (cv[i] as u32 - '0' as u32) as u64;
        acc = big_add(&big_mul(&acc, &big_from_u64(10)), &big_from_u64(d));
        i = i + 1;
        proof {
            assert(cv@.take(i as int).take(i - 1) =~= cv@.take(i - 1));
            assert(digits_val(cv@.take(i as int)) == digits_val(cv@.take(i - 1)) * 10 + (cv@[i
                - 1] as int - '0' as int));
        }
    }
    proof {
        lemma_digit_run_at(cv@, i as int);
    }
    (acc, i)
}

/// Ten to the `k`.
fn pow10_big(k: usize) -> (r: num_bigint::BigInt)
    ensures
        bval(r) == pow10(k as nat),
        bval(r) > 0,
    decreases k,
{
    if k == 0 {
        big_from_u64(1)
    } else {
        let p = pow10_big(k - 1);
        big_mul(&p, &big_from_u64(10))
    }
}

/// Evaluate one atom: a variable reference, quoted string, numeric
/// literal, or plain identifier.
fn eval_atom(v: Vec<Token>, scope: &Scope, super_selector: &Selector, fallback: Span) -> (r:
    SassResult<Spanned<Value>>)
    requires
        scope.wf(),
    ensures
        evr(r) == atom_model(v@, *scope, fallback),
        r matches Ok(sv) ==> sv.node.wf(),
{
    let _ = super_selector;
    let t = trim_tokens(&v);
    if t.len() == 0 {
        return Err(SassError::new(String::from_str("Expected expression."), fallback));
    }
    let sp = merge_token_spans(&t, fallback);
    proof {
        assert(tokens_span(trim(v@), fallback) == sp);
    }
    let c = t[0].kind;
    let cv = kinds_of(&t);
    if c == '$' {
        let mut ok = t.len() >= 2;
        let mut nv: Vec<char> = Vec::new();
        let mut i: usize = 1;
        while i < t.len()
            invariant
                1 <= i <= t@.len(),
                cv@ == kinds(t@),
                nv@ == norm(kinds(t@.skip(1))).take(i - 1),
                ok ==> t@.len() >= 2,
                ok ==> forall|j: int| 1 <= j < i ==> is_ident_char(#[trigger] t@[j].kind),
                !ok ==> (t@.len() < 2 || exists|j: int|
                    1 <= j < i && !is_ident_char(#[trigger] t@[j].kind)),
            decreases t@.len() - i,
        {
            let u = t[i].kind;
            if !(('a' <= u && u <= 'z') || ('A' <= u && u <= 'Z') || ('0' <= u && u <= '9') || u
                == '-' || u == '_') {
                ok = false;
            }
            nv.push(if u == '_' {
                '-'
            } else {
                u
            });
            i = i + 1;
            proof {
                assert(nv@ =~= norm(kinds(t@.skip(1))).take(i - 1));
            }
        }
        proof {
            assert(nv@ =~= norm(kinds(t@.skip(1))));
        }
        if !ok {
            proof {
                if t@.len() >= 2 {
                    let j = choose|j: int| 1 <= j < t@.len() && !is_ident_char(#[trigger] t@[j].kind);
                    assert(!is_ident_char(kinds(t@.skip(1))[j - 1]));
                }
            }
            return Err(SassError::new(String::from_str("Expected expression."), sp));
        }
        let name = chars_to_string(&nv);
        match scope.get_var(&name) {
            Some(val) => Ok(Spanned { node: val, span: sp }),
            None => {
                let mut m = String::from_str("Undefined variable: \"$");
                m.append(name.as_str());
                m.append("\".");
                proof {
                    assert(m@ =~= undef_var_msg(norm(kinds(trim(v@).skip(1)))));
                }
                Err(SassError::new(m, sp))
            }
        }
    } else if c == '"' || c == '\'' {
        if t.len() >= 2 && t[t.len() - 1].kind == c {
            let mut sv: Vec<char> = Vec::new();
            let mut i: usize = 1;
            while i < t.len() - 1
                invariant
                    1 <= i <= t@.len() - 1,
                    t@.len() >= 2,
                    sv@ == kinds(t@.subrange(1, t@.len() - 1)).take(i - 1),
                decreases t@.len() - 1 - i,
            {
                sv.push(t[i].kind);
                i = i + 1;
                proof {
                    assert(sv@ =~= kinds(t@.subrange(1, t@.len() - 1)).take(i - 1));
                }
            }
            proof {
                assert(sv@ =~= kinds(t@.subrange(1, t@.len() - 1)));
            }
            Ok(
                Spanned {
                    node: Value::Ident(chars_to_string(&sv), QuoteKind::Quoted),
                    span: sp,
                },
            )
        } else {
            Err(SassError::new(String::from_str("Expected expression."), sp))
        }
    } else if ('0' <= c && c <= '9') || c == '-' {
        match parse_number(&cv) {
            Some(value) => Ok(Spanned { node: value, span: sp }),
            None => Ok(
                Spanned { node: Value::Ident(chars_to_string(&cv), QuoteKind::Unquoted), span: sp },
            ),
        }
    } else {
        Ok(Spanned { node: Value::Ident(chars_to_string(&cv), QuoteKind::Unquoted), span: sp })
    }
}

/// The tokens of `v` from `a` up to `b`.
fn tokens_slice(v: &Vec<Token>, a: usize, b: usize) -> (r: Vec<Token>)
    requires
        a <= b <= v@.len(),
    ensures
        r@ == v@.subrange(a as int, b as int),
{
    let mut r: Vec<Token> = Vec::new();
    let mut i: usize = a;
    while i < b
        invariant
            a <= i <= b <= v@.len(),
            r@ == v@.subrange(a as int, i as int),
        decreases b - i,
    {
        r.push(v[i]);
        i = i + 1;
        proof {
            assert(r@ =~= v@.subrange(a as int, i as int));
        }
    }
    r
}

/// Find the first top-level comparison operator of a trimmed run.
fn find_op_exec(t: &Vec<Token>) -> (r: Option<(usize, Op)>)
    ensures
        match r {
            Some((i, op)) => find_op(t@, 0, None) == Some((i as int, op)) && i + op_width(op)
                <= t@.len(),
            None => find_op(t@, 0, None) is None,
        },
{
    let n = t.len();
    let mut i: usize = 0;
    let mut depth: usize = 0;
    let mut quote: Option<char> = None;
    proof {
        assert(t@.skip(0) =~= t@);
    }
    while i < n
        invariant
            i <= n,
            n == t@.len(),
            find_op(t@, 0, None) == (match find_op(t@.skip(i as int), depth as nat, quote) {
                Some((j, op)) => Some((i + j, op)),
                None => Option::<(int, Op)>::None,
            }),
            depth <= i,
        decreases n - i,
    {
        let ghost pre = t@.skip(i as int);
        let c = t[i].kind;
        match quote {
            Option::Some(q) => {
                if c == q {
                    quote = None;
                }
            }
            Option::None => {
                if depth == 0 && (c == '>' || c == '<') {
                    let two = i + 1 < n && t[i + 1].kind == '=';
                    let op = if c == '>' {
                        if two {
                            Op::GreaterThanEqual
                        } else {
                            Op::GreaterThan
                        }
                    } else {
                        if two {
                            Op::LessThanEqual
                        } else {
                            Op::LessThan
                        }
                    };
                    proof {
                        assert(pre.len() >= 2 <==> i + 1 < n);
                        if pre.len() >= 2 {
                            assert(pre[1] == t@[i + 1]);
                        }
                    }
                    return Some((i, op));
                }
                if c == '(' || c == '[' {
                    depth = depth + 1;
                } else if (c == ')' || c == ']') && depth > 0 {
                    depth = depth - 1;
                }
                if c == '"' || c == '\'' {
                    quote = Some(c);
                } else {
                    quote = None;
                }
            }
        }
        i = i + 1;
        proof {
            assert(pre.skip(1) =~= t@.skip(i as int));
        }
    }
    proof {
        assert(t@.skip(n as int) =~= Seq::<Token>::empty());
    }
    None
}

/// Evaluate a bound token run against the scope chain, reading variables
/// in the innermost scope. One top-level comparison operator splits the
/// run; its sides evaluate as atoms and compare per the value model.
pub fn from_vec(v: Vec<Token>, scope: &Scope, super_selector: &Selector, fallback: Span) -> (r:
    SassResult<Spanned<Value>>)
    requires
        scope.wf(),
    ensures
        evr(r) == eval_model(v@, *scope, fallback),
        r matches Ok(sv) ==> sv.node.wf(),
{
    let t = trim_tokens(&v);
    if t.len() == 0 {
        return Err(SassError::new(String::from_str("Expected expression."), fallback));
    }
    let sp = merge_token_spans(&t, fallback);
    match find_op_exec(&t) {
        Option::None => eval_atom(v, scope, super_selector, fallback),
        Option::Some((i, op)) => {
            let w: usize = match op {
                Op::GreaterThanEqual | Op::LessThanEqual => 2,
                _ => 1,
            };
            let lvec = tokens_slice(&t, 0, i);
            let rvec = tokens_slice(&t, i + w, t.len());
            proof {
                assert(lvec@ =~= trim(v@).take(i as int));
                assert(rvec@ =~= trim(v@).skip(i + op_width(op)));
            }
            let lsv = match eval_atom(lvec, scope, super_selector, sp) {
                Ok(sv) => sv,
                Err(e) => {
                    return Err(e);
                }
            };
            let rsv = match eval_atom(rvec, scope, super_selector, sp) {
                Ok(sv) => sv,
                Err(e) => {
                    return Err(e);
                }
            };
            match lsv.node.compare(op, &rsv.node, sp) {
                Ok(val) => Ok(Spanned { node: val, span: sp }),
                Err(e) => Err(e),
            }
        }
    }
}

/// Parse a numeric literal with an optional unit, exactly.
fn parse_number(cv: &Vec<char>) -> (r: Option<Value>)
    ensures
        match num_model(cv@) {
            Some((num, den, unit)) => r matches Some(val) && val@ == ValueRepr::Dimension(
                NumV { num, den },
                unit,
            ) && val.wf(),
            None => r is None,
        },
{
    let neg = cv.len() > 0 && cv[0] == '-';
    let body = if neg {
        chars_from(cv, 1)
    } else {
        chars_from(cv, 0)
    };
    proof {
        if !neg {
            assert(body@ =~= cv@);
        }
    }
    let (whole, k) = parse_digits(&body);
    proof {
        lemma_digit_run_bound(body@);
    }
    if k == 0 {
        return None;
    }
    let rest = chars_from(&body, k);
    let num: num_bigint::BigInt;
    let den: num_bigint::BigInt;
    let tail: Vec<char>;
    if rest.len() > 0 && rest[0] == '.' {
        let after = chars_from(&rest, 1);
        let (frac, fk) = parse_digits(&after);
        proof {
            lemma_digit_run_bound(after@);
        }
        if fk == 0 {
            return None;
        }
        let p = pow10_big(fk);
        num = big_add(&big_mul(&whole, &p), &frac);
        den = p;
        tail = chars_from(&after, fk);
        proof {
            assert(after@ =~= rest@.skip(1));
            assert(tail@ =~= rest@.skip(1).skip(fk as int));
            assert(rest@.skip(1).skip(fk as int) =~= rest@.skip(1 + fk as int));
        }
    } else {
        num = whole;
        den = big_from_u64(1);
        tail = rest;
    }
    let unit: Unit;
    if tail.len() == 0 {
        unit = Unit::NoUnit;
    } else {
        let tname = chars_to_string(&tail);
        match unit_from_name(&tname) {
            Some(u) => {
                unit = u;
            }
            None => {
                return None;
            }
        }
    }
    let ghost gm = bval(num);
    let signed = if neg {
        big_neg(&num)
    } else {
        num
    };
    proof {
        assert(1int * gm == gm) by (nonlinear_arith);
        assert((-1int) * gm == -gm) by (nonlinear_arith);
    }
    Some(Value::Dimension(Number::from_bigints(signed, den), unit))
}

} // verus!
