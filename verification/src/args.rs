//! The argument binder: declaration-site parameter lists, call-site
//! argument lists, and the consumption contract through which callees
//! resolve named and positional slots.

use vstd::prelude::*;
use vstd::string::StringExecFns;
use crate::error::{SassError, SassResult};
use crate::eval::{eval_model, evr, from_vec, EvalRepr};
use crate::scope::Scope;
use crate::selector::Selector;
use crate::span::{Span, Spanned};
use crate::token::{Token, Toks};
use crate::utils::{
    chars_to_string, dec_rep, devour_whitespace, eat_ident_tokens, ident_prefix, kinds, norm,
    push_char, read_until_closing_paren, read_until_closing_quote,
    read_until_closing_square_brace, u64_to_string,
};
use crate::value::{value_css, Value, ValueRepr};

verus! {

/// One declared parameter: its normalized name, its default-value token
/// run if any, and whether it captures the trailing arguments.
pub struct FuncArg {
    pub name: String,
    pub default: Option<Vec<Token>>,
    pub is_variadic: bool,
}

/// An ordered parameter list, as one function or mixin declaration
/// states it.
pub struct FuncArgs(pub Vec<FuncArg>);

impl FuncArgs {
    pub fn new() -> (r: Self)
        ensures
            r.0@ == Seq::<FuncArg>::empty(),
    {
        FuncArgs(Vec::new())
    }
}

/// A binding target within a call's argument set.
pub enum CallArg {
    Named(String),
    Positional(usize),
}

/// The view of a binding target.
pub enum CallArgV {
    Named(Seq<char>),
    Positional(int),
}

impl View for CallArg {
    type V = CallArgV;

    open spec fn view(&self) -> CallArgV {
        match self {
            CallArg::Named(n) => CallArgV::Named(n@),
            CallArg::Positional(p) => CallArgV::Positional(*p as int),
        }
    }
}

/// A positional slot moved down one place; a named slot is unchanged.
pub open spec fn decremented(k: CallArgV) -> CallArgV {
    match k {
        CallArgV::Named(n) => CallArgV::Named(n),
        CallArgV::Positional(p) => CallArgV::Positional(p - 1),
    }
}

impl CallArg {
    /// The slot's position, or its name for a named slot.
    pub fn position(&self) -> (r: Result<usize, String>)
        ensures
            match self@ {
                CallArgV::Named(n) => r matches Err(e) && e@ == n,
                CallArgV::Positional(p) => r matches Ok(u) && u as int == p,
            },
    {
        match self {
            CallArg::Named(name) => Err(name.clone()),
            CallArg::Positional(p) => Ok(*p),
        }
    }

    /// The slot moved down one position.
    pub fn decrement(self) -> (r: CallArg)
        requires
            self@ matches CallArgV::Positional(p) ==> p >= 1,
        ensures
            r@ == decremented(self@),
    {
        match self {
            CallArg::Named(n) => CallArg::Named(n),
            CallArg::Positional(p) => CallArg::Positional(p - 1),
        }
    }
}

/// One slot of a call: its binding target and its unevaluated token run.
pub type Slot = (CallArgV, Seq<Token>);

/// Whether some slot has the key `k`.
pub open spec fn has_key(s: Seq<Slot>, k: CallArgV) -> bool {
    exists|i: int| 0 <= i < s.len() && (#[trigger] s[i]).0 == k
}

/// The index of the first slot with key `k`, or -1.
pub open spec fn key_at(s: Seq<Slot>, k: CallArgV) -> int
    decreases s.len(),
{
    if s.len() == 0 {
        -1
    } else if s[0].0 == k {
        0
    } else if key_at(s.skip(1), k) < 0 {
        -1
    } else {
        1 + key_at(s.skip(1), k)
    }
}

/// The token run bound to key `k`.
pub open spec fn slot_val(s: Seq<Slot>, k: CallArgV) -> Seq<Token> {
    s[key_at(s, k)].1
}

/// The slots with the slot of key `k` taken out.
pub open spec fn remove_key(s: Seq<Slot>, k: CallArgV) -> Seq<Slot> {
    if has_key(s, k) {
        s.remove(key_at(s, k))
    } else {
        s
    }
}

/// Keys are unique, and positional keys ascend left to right, in the
/// order the arguments were written.
pub open spec fn slots_wf(s: Seq<Slot>) -> bool {
    &&& forall|i: int, j: int| 0 <= i < j < s.len() ==> (#[trigger] s[i]).0 != (#[trigger] s[j]).0
    &&& forall|i: int, j: int|
        0 <= i < j < s.len() && (#[trigger] s[i]).0 is Positional && (#[trigger] s[j]).0
            is Positional ==> s[i].0->Positional_0 < s[j].0->Positional_0
    &&& forall|i: int|
        0 <= i < s.len() && (#[trigger] s[i]).0 is Positional ==> s[i].0->Positional_0 >= 0
}

proof fn lemma_key_at(s: Seq<Slot>, k: CallArgV)
    ensures
        key_at(s, k) >= 0 ==> key_at(s, k) < s.len() && s[key_at(s, k)].0 == k,
        (key_at(s, k) >= 0) <==> has_key(s, k),
    decreases s.len(),
{
    if s.len() > 0 {
        lemma_key_at(s.skip(1), k);
        if s[0].0 != k && has_key(s, k) {
            let i = choose|i: int| 0 <= i < s.len() && (#[trigger] s[i]).0 == k;
            assert(s.skip(1)[i - 1] == s[i]);
        }
    }
}

proof fn lemma_key_at_prefix(s: Seq<Slot>, k: CallArgV, i: int)
    requires
        0 <= i <= s.len(),
        forall|j: int| 0 <= j < i ==> (#[trigger] s[j]).0 != k,
    ensures
        i < s.len() && s[i].0 == k ==> key_at(s, k) == i,
        i == s.len() ==> key_at(s, k) == -1,
    decreases i,
{
    if i > 0 {
        lemma_key_at_prefix(s.skip(1), k, i - 1);
    } else {
        lemma_key_at(s, k);
        if i < s.len() && s[i].0 == k {
        }
    }
}

proof fn lemma_remove_wf(s: Seq<Slot>, i: int)
    requires
        slots_wf(s),
        0 <= i < s.len(),
    ensures
        slots_wf(s.remove(i)),
{
    let t = s.remove(i);
    assert forall|a: int, b: int| 0 <= a < b < t.len() implies (#[trigger] t[a]).0 != (
    #[trigger] t[b]).0 by {
        let oa = if a < i {
            a
        } else {
            a + 1
        };
        let ob = if b < i {
            b
        } else {
            b + 1
        };
        assert(t[a] == s[oa] && t[b] == s[ob]);
    }
    assert forall|a: int, b: int|
        0 <= a < b < t.len() && (#[trigger] t[a]).0 is Positional && (#[trigger] t[b]).0
            is Positional implies t[a].0->Positional_0 < t[b].0->Positional_0 by {
        let oa = if a < i {
            a
        } else {
            a + 1
        };
        let ob = if b < i {
            b
        } else {
            b + 1
        };
        assert(t[a] == s[oa] && t[b] == s[ob]);
    }
    assert forall|a: int|
        0 <= a < t.len() && (#[trigger] t[a]).0 is Positional implies t[a].0->Positional_0
            >= 0 by {
        let oa = if a < i {
            a
        } else {
            a + 1
        };
        assert(t[a] == s[oa]);
    }
}

/// The arity diagnostic, in the exact singular or plural phrasing.
pub open spec fn arity_msg(max: int, len: int) -> Seq<char> {
    "Only "@ + dec_rep(max as nat) + " argument"@ + (if max != 1 {
        "s"@
    } else {
        Seq::<char>::empty()
    }) + " allowed, but "@ + dec_rep(len as nat) + " "@ + (if len == 1 {
        "was"@
    } else {
        "were"@
    }) + " passed."@
}

/// A call's bound arguments: each slot holds the unevaluated token run it
/// was written with, and the whole call carries its source span.
pub struct CallArgs {
    args: Vec<(CallArg, Vec<Token>)>,
    span: Span,
}

impl CallArgs {
    /// The slots, at the level of views, in the order they were bound.
    pub closed spec fn slots(self) -> Seq<Slot> {
        frame_slots(self.args@)
    }

    pub closed spec fn span_v(self) -> Span {
        self.span
    }

    pub open spec fn wf(self) -> bool {
        slots_wf(self.slots())
    }

    pub fn new(span: Span) -> (r: CallArgs)
        ensures
            r.slots() == Seq::<Slot>::empty(),
            r.span_v() == span,
            r.wf(),
    {
        let r = CallArgs { args: Vec::new(), span };
        proof {
            assert(r.slots() =~= Seq::<Slot>::empty());
        }
        r
    }

    /// The span covering the whole call.
    pub fn span(&self) -> (r: Span)
        ensures
            r == self.span_v(),
    {
        self.span
    }

    /// How many slots remain bound.
    pub fn len(&self) -> (r: usize)
        ensures
            r as int == self.slots().len(),
    {
        self.args.len()
    }

    pub fn is_empty(&self) -> (r: bool)
        ensures
            r == (self.slots().len() == 0),
    {
        self.args.len() == 0
    }

    /// Fail with an arity diagnostic when more than `max` arguments
    /// remain bound.
    pub fn max_args(&self, max: usize) -> (r: SassResult<()>)
        ensures
            self.slots().len() <= max ==> r is Ok,
            self.slots().len() > max ==> (r matches Err(e) && e.message@ == arity_msg(
                max as int,
                self.slots().len() as int,
            ) && e.span == self.span_v()),
    {
        let len = self.args.len();
        if len > max {
            let mut m = String::from_str("Only ");
            let maxs = u64_to_string(max as u64);
            m.append(maxs.as_str());
            m.append(" argument");
            if max != 1 {
                push_char(&mut m, 's');
                proof {
                    assert("s"@ =~= seq!['s']) by {
                        reveal_strlit("s");
                    }
                }
            }
            m.append(" allowed, but ");
            let lens = u64_to_string(len as u64);
            m.append(lens.as_str());
            push_char(&mut m, ' ');
            proof {
                assert(" "@ =~= seq![' ']) by {
                    reveal_strlit(" ");
                }
            }
            if len == 1 {
                m.append("was");
            } else {
                m.append("were");
            }
            m.append(" passed.");
            proof {
                assert(m@ =~= arity_msg(max as int, self.slots().len() as int));
            }
            Err(SassError::new(m, self.span))
        } else {
            Ok(())
        }
    }

    /// Find the first slot bound to `k`, comparing keys by value.
    fn find_key(&self, k: &CallArg) -> (r: Option<usize>)
        ensures
            match r {
                Some(i) => i < self.slots().len() && key_at(self.slots(), k@) == i as int,
                None => key_at(self.slots(), k@) == -1,
            },
    {
        let mut i: usize = 0;
        while i < self.args.len()
            invariant
                i <= self.slots().len(),
                forall|j: int| 0 <= j < i ==> (#[trigger] self.slots()[j]).0 != k@,
            decreases self.slots().len() - i,
        {
            let same = match (&self.args[i].0, k) {
                (CallArg::Named(a), CallArg::Named(b)) => *a == *b,
                (CallArg::Positional(a), CallArg::Positional(b)) => *a == *b,
                _ => false,
            };
            if same {
                proof {
                    lemma_key_at_prefix(self.slots(), k@, i as int);
                }
                return Some(i);
            }
            i = i + 1;
        }
        proof {
            lemma_key_at_prefix(self.slots(), k@, self.slots().len() as int);
        }
        None
    }

    /// Remove the slot bound to `k` and evaluate its token run. A key
    /// already resolved, or never bound, yields nothing: each slot is
    /// resolved at most once.
    fn take(&mut self, k: CallArg, scope: &Scope, super_selector: &Selector) -> (r: Option<
        SassResult<Spanned<Value>>,
    >)
        requires
            old(self).wf(),
            scope.wf(),
        ensures
            final(self).wf(),
            final(self).span_v() == old(self).span_v(),
            !has_key(old(self).slots(), k@) ==> r is None && final(self).slots() == old(self).slots(),
            has_key(old(self).slots(), k@) ==> {
                &&& final(self).slots() == remove_key(old(self).slots(), k@)
                &&& r matches Some(res) && evr(res) == eval_model(
                    slot_val(old(self).slots(), k@),
                    *scope,
                    old(self).span_v(),
                ) && (res matches Ok(sv) ==> sv.node.wf())
            },
    {
        proof {
            lemma_key_at(self.slots(), k@);
        }
        match self.find_key(&k) {
            Some(i) => {
                let ghost pre = self.slots();
                let (_, toks) = self.args.remove(i);
                proof {
                    assert(self.slots() =~= pre.remove(i as int));
                    lemma_remove_wf(pre, i as int);
                }
                Some(from_vec(toks, scope, super_selector, self.span))
            }
            None => None,
        }
    }

    /// Get an argument by name; the slot is removed.
    pub fn get_named(&mut self, val: String, scope: &Scope, super_selector: &Selector) -> (r:
        Option<SassResult<Spanned<Value>>>)
        requires
            old(self).wf(),
            scope.wf(),
        ensures
            final(self).wf(),
            final(self).span_v() == old(self).span_v(),
            !has_key(old(self).slots(), CallArgV::Named(val@)) ==> r is None && final(self).slots()
                == old(self).slots(),
            has_key(old(self).slots(), CallArgV::Named(val@)) ==> {
                &&& final(self).slots() == remove_key(old(self).slots(), CallArgV::Named(val@))
                &&& r matches Some(res) && evr(res) == eval_model(
                    slot_val(old(self).slots(), CallArgV::Named(val@)),
                    *scope,
                    old(self).span_v(),
                ) && (res matches Ok(sv) ==> sv.node.wf())
            },
    {
        self.take(CallArg::Named(val), scope, super_selector)
    }

    /// Get a positional argument by zero-based position; the slot is
    /// removed.
    pub fn get_positional(&mut self, val: usize, scope: &Scope, super_selector: &Selector) -> (r:
        Option<SassResult<Spanned<Value>>>)
        requires
            old(self).wf(),
            scope.wf(),
        ensures
            final(self).wf(),
            final(self).span_v() == old(self).span_v(),
            !has_key(old(self).slots(), CallArgV::Positional(val as int)) ==> r is None && final(self).slots() == old(self).slots(),
            has_key(old(self).slots(), CallArgV::Positional(val as int)) ==> {
                &&& final(self).slots() == remove_key(
                    old(self).slots(),
                    CallArgV::Positional(val as int),
                )
                &&& r matches Some(res) && evr(res) == eval_model(
                    slot_val(old(self).slots(), CallArgV::Positional(val as int)),
                    *scope,
                    old(self).span_v(),
                ) && (res matches Ok(sv) ==> sv.node.wf())
            },
    {
        self.take(CallArg::Positional(val), scope, super_selector)
    }

    /// Every slot moved down one position, after a leading positional
    /// argument was consumed.
    pub fn decrement(self) -> (r: Self)
        requires
            self.wf(),
            forall|i: int|
                0 <= i < self.slots().len() && (#[trigger] self.slots()[i]).0 is Positional
                    ==> self.slots()[i].0->Positional_0 >= 1,
        ensures
            r.span_v() == self.span_v(),
            r.slots().len() == self.slots().len(),
            forall|i: int|
                0 <= i < self.slots().len() ==> #[trigger] r.slots()[i] == (
                decremented(self.slots()[i].0),
                self.slots()[i].1,
            ),
            r.wf(),
    {
        let ghost pre = self.slots();
        let mut args = self.args;
        let mut out: Vec<(CallArg, Vec<Token>)> = Vec::new();
        let n = args.len();
        let mut i: usize = 0;
        while i < n
            invariant
                i <= n,
                n == pre.len(),
                args@.len() == n - i,
                forall|j: int|
                    0 <= j < pre.len() && (#[trigger] pre[j]).0 is Positional ==> pre[j].0->Positional_0 >= 1,
                forall|j: int| 0 <= j < n - i ==> pre[j + i] == ((#[trigger] args@[j]).0@, args@[j].1@),
                forall|j: int|
                    0 <= j < i ==> #[trigger] frame_slots(out@)[j] == (
                    decremented(pre[j].0),
                    pre[j].1,
                ),
                out@.len() == i,
            decreases n - i,
        {
            proof {
                assert(pre[i as int] == ((args@[0]).0@, args@[0].1@));
            }
            let ghost apre = args@;
            let ghost opre = out@;
            let (k, v) = args.remove(0);
            let kd = k.decrement();
            out.push((kd, v));
            i = i + 1;
            proof {
                assert forall|j: int| 0 <= j < n - i implies pre[j + i] == ((
                #[trigger] args@[j]).0@, args@[j].1@) by {
                    assert(args@[j] == apre[j + 1]);
                    assert(pre[(j + 1) + (i - 1)] == ((apre[j + 1]).0@, apre[j + 1].1@));
                }
                assert forall|j: int| 0 <= j < i implies #[trigger] frame_slots(out@)[j] == (
                decremented(pre[j].0), pre[j].1) by {
                    if j < i - 1 {
                        assert(out@[j] == opre[j]);
                        assert(frame_slots(opre)[j] == (opre[j].0@, opre[j].1@));
                    } else {
                        assert(out@[j] == (kd, v));
                    }
                }
            }
        }
        let r = CallArgs { args: out, span: self.span };
        proof {
            assert forall|a: int, b: int| 0 <= a < b < r.slots().len() implies (
            #[trigger] r.slots()[a]).0 != (#[trigger] r.slots()[b]).0 by {
                assert(r.slots()[a] == (decremented(pre[a].0), pre[a].1));
                assert(r.slots()[b] == (decremented(pre[b].0), pre[b].1));
            }
            assert forall|a: int, b: int|
                0 <= a < b < r.slots().len() && (#[trigger] r.slots()[a]).0 is Positional && (
            #[trigger] r.slots()[b]).0 is Positional implies r.slots()[a].0->Positional_0
                < r.slots()[b].0->Positional_0 by {
                assert(r.slots()[a] == (decremented(pre[a].0), pre[a].1));
                assert(r.slots()[b] == (decremented(pre[b].0), pre[b].1));
            }
            assert forall|a: int|
                0 <= a < r.slots().len() && (#[trigger] r.slots()[a]).0 is Positional implies r.slots()[a].0->Positional_0 >= 0 by {
                assert(r.slots()[a] == (decremented(pre[a].0), pre[a].1));
            }
        }
        r
    }
}

/// The first named slot's name, where one remains.
pub open spec fn first_named(s: Seq<Slot>) -> Seq<char>
    decreases s.len(),
{
    if s.len() == 0 {
        Seq::empty()
    } else if s[0].0 is Named {
        s[0].0->Named_0
    } else {
        first_named(s.skip(1))
    }
}

pub open spec fn any_named(s: Seq<Slot>) -> bool {
    exists|i: int| 0 <= i < s.len() && (#[trigger] s[i]).0 is Named
}

/// The diagnostic for a named slot forwarded where only positional
/// arguments are accepted.
pub open spec fn no_arg_msg(name: Seq<char>) -> Seq<char> {
    "No argument named $"@ + name + "."@
}

/// What evaluating every remaining slot in order yields: the values, or
/// the first failure.
pub open spec fn variadic_model(s: Seq<Slot>, scope: Scope, fallback: Span) -> Result<
    Seq<(ValueRepr, Span)>,
    (Seq<char>, Span),
>
    decreases s.len(),
{
    if s.len() == 0 {
        Ok(Seq::empty())
    } else {
        match eval_model(s[0].1, scope, fallback) {
            Err(e) => Err(e),
            Ok(v) => match variadic_model(s.skip(1), scope, fallback) {
                Ok(tail) => Ok(seq![v] + tail),
                Err(e) => Err(e),
            },
        }
    }
}

/// The views of evaluated outputs.
pub open spec fn out_reprs(out: Seq<Spanned<Value>>) -> Seq<(ValueRepr, Span)> {
    out.map(|_i: int, sv: Spanned<Value>| (sv.node@, sv.span))
}

proof fn lemma_first_named(s: Seq<Slot>, i: int)
    requires
        0 <= i < s.len(),
        forall|j: int| 0 <= j < i ==> !((#[trigger] s[j]).0 is Named),
        s[i].0 is Named,
    ensures
        any_named(s),
        first_named(s) == s[i].0->Named_0,
    decreases i,
{
    if i > 0 {
        lemma_first_named(s.skip(1), i - 1);
    }
}

impl CallArgs {
    /// Evaluate every remaining slot, in ascending position order. A
    /// remaining named slot is an error naming it; an evaluation failure
    /// surfaces as that failure.
    pub fn get_variadic(self, scope: &Scope, super_selector: &Selector) -> (r: SassResult<
        Vec<Spanned<Value>>,
    >)
        requires
            self.wf(),
            scope.wf(),
        ensures
            any_named(self.slots()) ==> (r matches Err(e) && e.message@ == no_arg_msg(
                first_named(self.slots()),
            ) && e.span == self.span_v()),
            !any_named(self.slots()) ==> match variadic_model(
                self.slots(),
                *scope,
                self.span_v(),
            ) {
                Ok(vs) => r matches Ok(out) && out@.len() == vs.len() && (forall|i: int|
                    0 <= i < vs.len() ==> ((#[trigger] out@[i]).node@, out@[i].span) == vs[i]) && (
                forall|i: int| 0 <= i < vs.len() ==> (#[trigger] out@[i]).node.wf()),
                Err(e) => r matches Err(err) && err.message@ == e.0 && err.span == e.1,
            },
    {
        let span = self.span;
        let ghost whole = self.slots();
        let mut args = self.args;
        let n = args.len();

        // first pass: any named slot left is an error naming it
        let mut i: usize = 0;
        while i < n
            invariant
                i <= n,
                n == whole.len(),
                whole == self.slots(),
                span == self.span_v(),
                whole == frame_slots(args@),
                args@.len() == n,
                forall|j: int| 0 <= j < i ==> !((#[trigger] whole[j]).0 is Named),
            decreases n - i,
        {
            match &args[i].0 {
                CallArg::Named(nm) => {
                    proof {
                        assert(whole[i as int].0 is Named);
                        lemma_first_named(whole, i as int);
                    }
                    let mut m = String::from_str("No argument named $");
                    m.append(nm.as_str());
                    m.append(".");
                    proof {
                        assert(m@ =~= no_arg_msg(first_named(whole)));
                    }
                    return Err(SassError::new(m, span));
                }
                CallArg::Positional(_) => {}
            }
            i = i + 1;
        }
        proof {
            if any_named(whole) {
                let w = choose|w: int| 0 <= w < whole.len() && (#[trigger] whole[w]).0 is Named;
                assert(false);
            }
        }

        // second pass: evaluate in the order bound, which the binder
        // keeps ascending by position
        let mut out: Vec<Spanned<Value>> = Vec::new();
        let mut i: usize = 0;
        while i < n
            invariant
                scope.wf(),
                i <= n,
                n == whole.len(),
                whole == self.slots(),
                span == self.span_v(),
                !any_named(whole),
                args@.len() == n - i,
                forall|j: int|
                    0 <= j < n - i ==> whole[j + i] == ((#[trigger] args@[j]).0@, args@[j].1@),
                out@.len() == i,
                variadic_model(whole, *scope, span) == (match variadic_model(
                    frame_slots(args@),
                    *scope,
                    span,
                ) {
                    Ok(tail) => Ok::<Seq<(ValueRepr, Span)>, (Seq<char>, Span)>(
                        out_reprs(out@) + tail,
                    ),
                    Err(e) => Err::<Seq<(ValueRepr, Span)>, (Seq<char>, Span)>(e),
                }),
                forall|j: int| 0 <= j < out@.len() ==> (#[trigger] out@[j]).node.wf(),
                forall|j: int|
                    0 <= j < out@.len() ==> (((#[trigger] out@[j]).node@, out@[j].span)
                        == out_reprs(out@)[j]),
            decreases n - i,
        {
            let ghost apre = frame_slots(args@);
            let ghost opre = out@;
            proof {
                assert(whole[i as int] == ((args@[0]).0@, args@[0].1@));
                assert(apre[0] == ((args@[0]).0@, args@[0].1@));
            }
            let (_, v) = args.remove(0);
            proof {
                assert(frame_slots(args@) =~= apre.skip(1));
            }
            match from_vec(v, scope, super_selector, span) {
                Ok(sv) => {
                    out.push(sv);
                    i = i + 1;
                    proof {
                        assert forall|j: int| 0 <= j < n - i implies whole[j + i] == ((
                        #[trigger] args@[j]).0@, args@[j].1@) by {
                            assert(frame_slots(args@)[j] == apre.skip(1)[j]);
                        }
                        assert(out_reprs(out@) =~= out_reprs(opre).push((sv.node@, sv.span)));
                        assert(out_reprs(opre).push((sv.node@, sv.span)) + match variadic_model(
                            frame_slots(args@),
                            *scope,
                            span,
                        ) {
                            Ok(t) => t,
                            Err(_) => Seq::empty(),
                        } =~= out_reprs(opre) + (seq![(sv.node@, sv.span)] + match variadic_model(
                            frame_slots(args@),
                            *scope,
                            span,
                        ) {
                            Ok(t) => t,
                            Err(_) => Seq::empty(),
                        }));
                    }
                }
                Err(e) => {
                    return Err(e);
                }
            }
        }
        proof {
            assert(frame_slots(args@) =~= Seq::<Slot>::empty());
            assert(out_reprs(out@) + Seq::<(ValueRepr, Span)>::empty() =~= out_reprs(out@));
        }
        Ok(out)
    }
}

/// The rendered values joined with commas.
pub open spec fn join_css(vs: Seq<(ValueRepr, Span)>) -> Seq<char>
    decreases vs.len(),
{
    if vs.len() == 0 {
        Seq::empty()
    } else if vs.len() == 1 {
        value_css(vs[0].0)
    } else {
        value_css(vs[0].0) + ", "@ + join_css(vs.skip(1))
    }
}

/// The spans of the rendered values merged onto `acc`.
pub open spec fn fold_spans(vs: Seq<(ValueRepr, Span)>, acc: Span) -> Span
    decreases vs.len(),
{
    if vs.len() == 0 {
        acc
    } else {
        fold_spans(vs.skip(1), crate::span::span_merge(acc, vs[0].1))
    }
}

proof fn lemma_join_push(vs: Seq<(ValueRepr, Span)>, x: (ValueRepr, Span))
    ensures
        join_css(vs.push(x)) == if vs.len() == 0 {
            value_css(x.0)
        } else {
            join_css(vs) + ", "@ + value_css(x.0)
        },
    decreases vs.len(),
{
    let w = vs.push(x);
    if vs.len() == 0 {
        assert(w.len() == 1);
        assert(w[0] == x);
    } else {
        lemma_join_push(vs.skip(1), x);
        assert(w.skip(1) =~= vs.skip(1).push(x));
        if vs.len() == 1 {
            assert(join_css(w) == value_css(w[0].0) + ", "@ + join_css(w.skip(1)));
        }
    }
}

impl CallArgs {
    /// Render the whole argument set back to source-like text, as a plain
    /// (keyword-less) function forwarding would: any remaining named slot,
    /// or any evaluation failure, refuses keyword arguments.
    pub fn to_css_string(self, scope: &Scope, super_selector: &Selector) -> (r: SassResult<
        Spanned<String>,
    >)
        requires
            self.wf(),
            scope.wf(),
        ensures
            self.slots().len() == 0 ==> (r matches Ok(ss) && ss.node@ == "()"@ && ss.span
                == self.span_v()),
            self.slots().len() > 0 && (any_named(self.slots()) || variadic_model(
                self.slots(),
                *scope,
                self.span_v(),
            ) is Err) ==> (r matches Err(e) && e.message@
                == "Plain CSS functions don't support keyword arguments."@ && e.span
                == self.span_v()),
            (self.slots().len() > 0 && !any_named(self.slots()) && variadic_model(
                self.slots(),
                *scope,
                self.span_v(),
            ) is Ok) ==> (r matches Ok(ss) && ss.node@ == "("@ + join_css(
                variadic_model(self.slots(), *scope, self.span_v())->Ok_0,
            ) + ")"@ && ss.span == fold_spans(
                variadic_model(self.slots(), *scope, self.span_v())->Ok_0,
                self.span_v(),
            )),
    {
        let span = self.span();
        if self.is_empty() {
            return Ok(Spanned { node: String::from_str("()"), span });
        }
        let ghost slots0 = self.slots();
        let ghost model = variadic_model(self.slots(), *scope, self.span_v());
        let vals = match self.get_variadic(scope, super_selector) {
            Ok(v) => v,
            Err(_) => {
                return Err(
                    SassError::new(
                        String::from_str("Plain CSS functions don't support keyword arguments."),
                        span,
                    ),
                );
            }
        };
        let ghost vs = model->Ok_0;
        let mut s = String::from_str("(");
        let mut sp = span;
        let mut i: usize = 0;
        let n = vals.len();
        proof {
            assert(vs.take(0) =~= Seq::<(ValueRepr, Span)>::empty());
            assert(s@ =~= "("@ + join_css(vs.take(0)));
            assert(vs.skip(0) =~= vs);
        }
        while i < n
            invariant
                i <= n,
                n == vs.len(),
                n == vals@.len(),
                forall|j: int|
                    0 <= j < n ==> ((#[trigger] vals@[j]).node@, vals@[j].span) == vs[j],
                forall|j: int| 0 <= j < n ==> (#[trigger] vals@[j]).node.wf(),
                s@ == "("@ + join_css(vs.take(i as int)),
                fold_spans(vs, span) == fold_spans(vs.skip(i as int), sp),
            decreases n - i,
        {
            if i > 0 {
                s.append(", ");
            }
            let css = match vals[i].node.to_css_string(vals[i].span) {
                Ok(c) => c,
                Err(e) => e.message,  // unreachable: rendering cannot fail
            };
            s.append(css.as_str());
            let ghost spre = sp;
            sp = sp.merge(vals[i].span);
            i = i + 1;
            proof {
                lemma_join_push(vs.take(i - 1), vs[i - 1]);
                assert(vs.take(i as int) =~= vs.take(i - 1).push(vs[i - 1]));
                assert(s@ =~= "("@ + join_css(vs.take(i as int)));
                assert(vs.skip(i - 1).skip(1) =~= vs.skip(i as int));
            }
        }
        push_char(&mut s, ')');
        proof {
            assert(vs.take(n as int) =~= vs);
            assert(vs.skip(n as int) =~= Seq::<(ValueRepr, Span)>::empty());
            assert(s@ =~= "("@ + join_css(vs) + ")"@) by {
                reveal_strlit(")");
                assert(")"@ =~= seq![')']);
            }
        }
        Ok(Spanned { node: s, span: sp })
    }
}

/// The diagnostic for a required argument that was never bound.
pub open spec fn missing_arg_msg(name: Seq<char>) -> Seq<char> {
    "Missing argument $"@ + name + "."@
}

/// The slots left after one argument is consumed: the one at `pos`, else
/// the one named `name`, else none.
pub open spec fn arg_removed_model(s: Seq<Slot>, pos: int, name: Seq<char>) -> Seq<Slot> {
    if has_key(s, CallArgV::Positional(pos)) {
        remove_key(s, CallArgV::Positional(pos))
    } else if has_key(s, CallArgV::Named(name)) {
        remove_key(s, CallArgV::Named(name))
    } else {
        s
    }
}

/// What consuming one argument yields: the slot at `pos` evaluated, else
/// the slot named `name` evaluated, else a missing-argument diagnostic.
pub open spec fn arg_take_model(
    s: Seq<Slot>,
    pos: int,
    name: Seq<char>,
    scope: Scope,
    fb: Span,
) -> EvalRepr {
    if has_key(s, CallArgV::Positional(pos)) {
        eval_model(slot_val(s, CallArgV::Positional(pos)), scope, fb)
    } else if has_key(s, CallArgV::Named(name)) {
        eval_model(slot_val(s, CallArgV::Named(name)), scope, fb)
    } else {
        Err((missing_arg_msg(name), fb))
    }
}

/// The ghost view of a slot vector.
pub open spec fn frame_slots(args: Seq<(CallArg, Vec<Token>)>) -> Seq<Slot> {
    args.map(|_i: int, p: (CallArg, Vec<Token>)| (p.0@, p.1@))
}

/// Every positional key is below `n`.
pub open spec fn pos_lt(s: Seq<Slot>, n: int) -> bool {
    forall|i: int|
        0 <= i < s.len() && (#[trigger] s[i]).0 is Positional ==> s[i].0->Positional_0 < n
}

proof fn lemma_push_wf(s: Seq<Slot>, k: CallArgV, v: Seq<Token>)
    requires
        slots_wf(s),
        !has_key(s, k),
        k is Positional ==> k->Positional_0 >= 0 && pos_lt(s, k->Positional_0),
    ensures
        slots_wf(s.push((k, v))),
{
    let t = s.push((k, v));
    assert forall|a: int, b: int| 0 <= a < b < t.len() implies (#[trigger] t[a]).0 != (
    #[trigger] t[b]).0 by {
        if b < t.len() - 1 {
            assert(t[a] == s[a] && t[b] == s[b]);
        } else {
            assert(t[a] == s[a]);
            if s[a].0 == k {
                assert(has_key(s, k));
            }
        }
    }
    assert forall|a: int, b: int|
        0 <= a < b < t.len() && (#[trigger] t[a]).0 is Positional && (#[trigger] t[b]).0
            is Positional implies t[a].0->Positional_0 < t[b].0->Positional_0 by {
        if b < t.len() - 1 {
            assert(t[a] == s[a] && t[b] == s[b]);
        } else {
            assert(t[a] == s[a]);
        }
    }
    assert forall|a: int|
        0 <= a < t.len() && (#[trigger] t[a]).0 is Positional implies t[a].0->Positional_0
            >= 0 by {
        if a < t.len() - 1 {
            assert(t[a] == s[a]);
        }
    }
}

/// The normalized name spelled by an identifier token run.
fn norm_name(iv: &Vec<Token>) -> (s: String)
    ensures
        s@ == norm(kinds(iv@)),
{
    let mut cv: Vec<char> = Vec::new();
    let mut i: usize = 0;
    while i < iv.len()
        invariant
            i <= iv@.len(),
            cv@ == norm(kinds(iv@)).take(i as int),
        decreases iv@.len() - i,
    {
        let c = iv[i].kind;
        cv.push(
            if c == '_' {
                '-'
            } else {
                c
            },
        );
        i = i + 1;
        proof {
            assert(cv@ =~= norm(kinds(iv@)).take(i as int));
        }
    }
    proof {
        assert(cv@ =~= norm(kinds(iv@)));
    }
    chars_to_string(&cv)
}

/// One finished group bound into the slot list: to its written name (an
/// already-bound name is overwritten, as a mapping insert would), or to
/// the position equal to the count of slots already bound.
pub open spec fn insert_model(cur: Seq<Slot>, name: Option<Seq<char>>, val: Seq<Token>) -> Seq<
    Slot,
> {
    match name {
        Some(n) => remove_key(cur, CallArgV::Named(n)).push((CallArgV::Named(n), val)),
        None => cur.push((CallArgV::Positional(cur.len() as int), val)),
    }
}

/// The view of an optional slot name.
pub open spec fn name_v(name: Option<String>) -> Option<Seq<char>> {
    match name {
        Some(n) => Some(n@),
        None => Option::<Seq<char>>::None,
    }
}

/// Bind one finished group: to its written name, or to the next position
/// in call-site order. A name already bound is overwritten, as a mapping
/// insert would.
fn insert_slot(args: &mut Vec<(CallArg, Vec<Token>)>, name: Option<String>, val: Vec<Token>)
    requires
        slots_wf(frame_slots(old(args)@)),
        pos_lt(frame_slots(old(args)@), old(args)@.len() as int),
    ensures
        slots_wf(frame_slots(final(args)@)),
        pos_lt(frame_slots(final(args)@), final(args)@.len() as int),
        final(args)@.len() >= 1,
        frame_slots(final(args)@) == insert_model(frame_slots(old(args)@), name_v(name), val@),
{
    let ghost pre = frame_slots(args@);
    match name {
        Some(n) => {
            let mut i: usize = 0;
            let mut found: Option<usize> = None;
            while i < args.len()
                invariant_except_break
                    i <= args@.len(),
                    pre == frame_slots(args@),
                    found is None,
                    forall|j: int| 0 <= j < i ==> (#[trigger] pre[j]).0 != CallArgV::Named(n@),
                ensures
                    match found {
                        Some(fi) => fi < args@.len() && pre[fi as int].0 == CallArgV::Named(n@)
                            && key_at(pre, CallArgV::Named(n@)) == fi as int,
                        None => forall|j: int|
                            0 <= j < pre.len() ==> (#[trigger] pre[j]).0 != CallArgV::Named(n@),
                    },
                decreases args@.len() - i,
            {
                let hit = match &args[i].0 {
                    CallArg::Named(a) => *a == n,
                    CallArg::Positional(_) => false,
                };
                if hit {
                    found = Some(i);
                    proof {
                        lemma_key_at_prefix(pre, CallArgV::Named(n@), i as int);
                    }
                    break;
                }
                i = i + 1;
            }
            let k = CallArg::Named(n);
            match found {
                Some(fi) => {
                    args.remove(fi);
                    proof {
                        assert(frame_slots(args@) =~= pre.remove(fi as int));
                        lemma_remove_wf(pre, fi as int);
                        assert forall|j: int|
                            0 <= j < frame_slots(args@).len() && (#[trigger] frame_slots(
                                args@,
                            )[j]).0 is Positional implies frame_slots(args@)[j].0->Positional_0
                            < args@.len() + 1 by {
                            let oj = if j < fi {
                                j
                            } else {
                                j + 1
                            };
                            assert(frame_slots(args@)[j] == pre[oj]);
                        }
                        if has_key(frame_slots(args@), k@) {
                            let w = choose|w: int|
                                0 <= w < frame_slots(args@).len() && (#[trigger] frame_slots(
                                    args@,
                                )[w]).0 == k@;
                            let ow = if w < fi {
                                w
                            } else {
                                w + 1
                            };
                            assert(pre[ow].0 == k@ && pre[fi as int].0 == k@);
                        }
                        lemma_push_wf(frame_slots(args@), k@, val@);
                    }
                    args.push((k, val));
                    proof {
                        assert(frame_slots(args@) =~= frame_slots(old(args)@).remove(
                            fi as int,
                        ).push((k@, val@)));
                    }
                }
                None => {
                    proof {
                        if has_key(pre, k@) {
                            let w = choose|w: int|
                                0 <= w < pre.len() && (#[trigger] pre[w]).0 == k@;
                            assert(false);
                        }
                        lemma_push_wf(pre, k@, val@);
                    }
                    args.push((k, val));
                    proof {
                        assert(frame_slots(args@) =~= pre.push((k@, val@)));
                    }
                }
            }
        }
        None => {
            let p = args.len();
            proof {
                if has_key(pre, CallArgV::Positional(p as int)) {
                    let w = choose|w: int|
                        0 <= w < pre.len() && (#[trigger] pre[w]).0 == CallArgV::Positional(
                            p as int,
                        );
                    assert(false);
                }
                lemma_push_wf(pre, CallArgV::Positional(p as int), val@);
            }
            args.push((CallArg::Positional(p), val));
            proof {
                assert(frame_slots(args@) =~= pre.push((CallArgV::Positional(p as int), val@)));
            }
        }
    }
}

/// The view of one declared parameter.
pub struct FuncArgV {
    pub name: Seq<char>,
    pub default: Option<Seq<Token>>,
    pub is_variadic: bool,
}

pub open spec fn fa_v(f: FuncArg) -> FuncArgV {
    FuncArgV {
        name: f.name@,
        default: match f.default {
            Some(d) => Some(d@),
            None => Option::<Seq<Token>>::None,
        },
        is_variadic: f.is_variadic,
    }
}

pub open spec fn fas_v(s: Seq<FuncArg>) -> Seq<FuncArgV> {
    s.map(|_i: int, f: FuncArg| fa_v(f))
}

/// A default value's token run: up to the next comma or closing
/// parenthesis.
pub open spec fn default_run(s: Seq<Token>) -> Seq<Token>
    decreases s.len(),
{
    if s.len() == 0 || s[0].kind == ',' || s[0].kind == ')' {
        Seq::empty()
    } else {
        seq![s[0]] + default_run(s.skip(1))
    }
}

proof fn lemma_default_run_len(s: Seq<Token>)
    ensures
        default_run(s).len() <= s.len(),
    decreases s.len(),
{
    if !(s.len() == 0 || s[0].kind == ',' || s[0].kind == ')') {
        lemma_default_run_len(s.skip(1));
    }
}

/// A default run stops exactly at a comma or closing parenthesis.
proof fn lemma_default_run_stop(s: Seq<Token>)
    ensures
        default_run(s).len() <= s.len(),
        s.skip(default_run(s).len() as int).len() > 0 ==> {
            let c = s.skip(default_run(s).len() as int)[0].kind;
            c == ',' || c == ')'
        },
    decreases s.len(),
{
    lemma_default_run_len(s);
    if !(s.len() == 0 || s[0].kind == ',' || s[0].kind == ')') {
        lemma_default_run_stop(s.skip(1));
        let d = default_run(s);
        assert(s.skip(d.len() as int) =~= s.skip(1).skip(default_run(s.skip(1)).len() as int));
    } else {
        assert(s.skip(0) =~= s);
    }
}

/// What must follow a parameter list: optional whitespace and the
/// block-opening brace; the rest of the input follows it.
pub open spec fn finish_model(s: Seq<Token>, last: Span) -> Result<Seq<Token>, (Seq<char>, Span)> {
    let u = crate::utils::trim_front(s);
    if u.len() == 0 {
        Err(("expected \"{\"."@, last))
    } else if u[0].kind != '{' {
        Err(("expected \"{\"."@, u[0].pos))
    } else {
        Ok(u.skip(1))
    }
}

/// What parsing a declaration-site parameter list yields, per §4.1: the
/// parameters in order (names with underscores normalized to hyphens,
/// defaults read to the next top-level comma or closing parenthesis, a
/// variadic marker only on the final parameter and only directly before
/// the closing parenthesis), and the input left just past the
/// block-opening brace — or the syntax diagnostic at the offending
/// position.
pub open spec fn decl_model(s: Seq<Token>, last: Span) -> Result<
    (Seq<FuncArgV>, Seq<Token>),
    (Seq<char>, Span),
>
    decreases s.len(),
    via decl_model_dec
{
    let t = crate::utils::trim_front(s);
    if t.len() == 0 {
        Err(("expected \")\"."@, last))
    } else if t[0].kind == ')' {
        match finish_model(t.skip(1), t[0].pos) {
            Ok(rest) => Ok((Seq::<FuncArgV>::empty(), rest)),
            Err(e) => Err(e),
        }
    } else if t[0].kind != '$' {
        Err(("expected \"$\"."@, t[0].pos))
    } else {
        let iv = ident_prefix(t.skip(1));
        let name = norm(kinds(iv));
        let u = crate::utils::trim_front(t.skip(1 + iv.len() as int));
        if u.len() == 0 {
            Err(("expected \")\"."@, t[0].pos))
        } else {
            let t2 = u[0];
            let rest0 = u.skip(1);
            if t2.kind == ':' {
                let v = crate::utils::trim_front(rest0);
                let d = default_run(v);
                let w = v.skip(d.len() as int);
                if w.len() == 0 {
                    Err(("expected \")\"."@, t2.pos))
                } else if w[0].kind == ',' {
                    match decl_model(w.skip(1), t2.pos) {
                        Ok((ps, rest)) => Ok(
                            (
                                seq![
                                    FuncArgV { name, default: Some(d), is_variadic: false },
                                ] + ps,
                                rest,
                            ),
                        ),
                        Err(e) => Err(e),
                    }
                } else {
                    match finish_model(w.skip(1), w[0].pos) {
                        Ok(rest) => Ok(
                            (seq![FuncArgV { name, default: Some(d), is_variadic: false }], rest),
                        ),
                        Err(e) => Err(e),
                    }
                }
            } else if t2.kind == '.' {
                if rest0.len() == 0 {
                    Err(("expected \".\"."@, t2.pos))
                } else if rest0[0].kind != '.' {
                    Err(("expected \".\"."@, rest0[0].pos))
                } else if rest0.len() == 1 {
                    Err(("expected \".\"."@, rest0[0].pos))
                } else if rest0[1].kind != '.' {
                    Err(("expected \".\"."@, rest0[1].pos))
                } else {
                    let z = crate::utils::trim_front(rest0.skip(2));
                    if z.len() == 0 {
                        Err(("expected \")\"."@, rest0[1].pos))
                    } else if z[0].kind != ')' {
                        Err(("expected \")\"."@, z[0].pos))
                    } else {
                        match finish_model(z.skip(1), z[0].pos) {
                            Ok(rest) => Ok(
                                (
                                    seq![
                                        FuncArgV {
                                            name,
                                            default: Some(Seq::empty()),
                                            is_variadic: true,
                                        },
                                    ],
                                    rest,
                                ),
                            ),
                            Err(e) => Err(e),
                        }
                    }
                }
            } else if t2.kind == ')' {
                match finish_model(rest0, t2.pos) {
                    Ok(rest) => Ok(
                        (
                            seq![
                                FuncArgV {
                                    name,
                                    default: Option::<Seq<Token>>::None,
                                    is_variadic: false,
                                },
                            ],
                            rest,
                        ),
                    ),
                    Err(e) => Err(e),
                }
            } else if t2.kind == ',' {
                match decl_model(rest0, t2.pos) {
                    Ok((ps, rest)) => Ok(
                        (
                            seq![
                                FuncArgV {
                                    name,
                                    default: Option::<Seq<Token>>::None,
                                    is_variadic: false,
                                },
                            ] + ps,
                            rest,
                        ),
                    ),
                    Err(e) => Err(e),
                }
            } else {
                Err(("expected \")\"."@, t2.pos))
            }
        }
    }
}

#[via_fn]
proof fn decl_model_dec(s: Seq<Token>, last: Span) {
    crate::utils::lemma_trim_front_len(s);
    let t = crate::utils::trim_front(s);
    if t.len() > 0 && t[0].kind == '$' {
        crate::utils::lemma_ident_prefix_len(t.skip(1));
        let iv = ident_prefix(t.skip(1));
        crate::utils::lemma_trim_front_len(t.skip(1 + iv.len() as int));
        let u = crate::utils::trim_front(t.skip(1 + iv.len() as int));
        if u.len() > 0 {
            crate::utils::lemma_trim_front_len(u.skip(1));
            let v = crate::utils::trim_front(u.skip(1));
            lemma_default_run_len(v);
        }
    }
}

/// Only the last parameter of a well-parsed declaration is variadic, and
/// every name is already normalized.
pub proof fn lemma_decl_model_shape(s: Seq<Token>, last: Span)
    ensures
        decl_model(s, last) matches Ok((ps, _)) ==> (forall|i: int|
            0 <= i < ps.len() - 1 ==> !(#[trigger] ps[i]).is_variadic) && (forall|i: int|
            0 <= i < ps.len() ==> (#[trigger] ps[i]).name == norm(ps[i].name)),
    decreases s.len(),
{
    let t = crate::utils::trim_front(s);
    crate::utils::lemma_trim_front_len(s);
    if t.len() > 0 && t[0].kind == '$' {
        let iv = ident_prefix(t.skip(1));
        let name = norm(kinds(iv));
        crate::utils::lemma_ident_prefix_len(t.skip(1));
        let u = crate::utils::trim_front(t.skip(1 + iv.len() as int));
        crate::utils::lemma_trim_front_len(t.skip(1 + iv.len() as int));
        assert(norm(norm(kinds(iv))) =~= norm(kinds(iv)));
        if u.len() > 0 {
            let t2 = u[0];
            let rest0 = u.skip(1);
            if t2.kind == ':' {
                let v = crate::utils::trim_front(rest0);
                crate::utils::lemma_trim_front_len(rest0);
                let d = default_run(v);
                lemma_default_run_len(v);
                let w = v.skip(d.len() as int);
                if w.len() > 0 && w[0].kind == ',' {
                    lemma_decl_model_shape(w.skip(1), t2.pos);
                }
            } else if t2.kind == ',' {
                lemma_decl_model_shape(rest0, t2.pos);
            }
        }
    }
}

/// Read a default value's tokens off the stream.
fn read_default(toks: &mut Toks) -> (r: Vec<Token>)
    requires
        old(toks).wf(),
    ensures
        final(toks).wf(),
        r@ == default_run(old(toks).rem()),
        final(toks).rem() == old(toks).rem().skip(r@.len() as int),
        final(toks).rem().len() == old(toks).rem().len() - r@.len(),
{
    let ghost orig = old(toks).rem();
    let mut v: Vec<Token> = Vec::new();
    proof {
        assert(orig.skip(0) =~= orig);
    }
    loop
        invariant_except_break
            toks.wf(),
            default_run(orig) == v@ + default_run(toks.rem()),
            toks.rem() == orig.skip(v@.len() as int),
            v@.len() <= orig.len(),
        ensures
            toks.wf(),
            v@ == default_run(orig),
            toks.rem() == orig.skip(v@.len() as int),
            v@.len() <= orig.len(),
        decreases toks.rem().len(),
    {
        let ghost pre = toks.rem();
        match toks.peek() {
            Option::None => {
                proof {
                    assert(default_run(pre) =~= Seq::<Token>::empty());
                    assert(v@ =~= v@ + default_run(pre));
                }
                break;
            }
            Option::Some(tok) => {
                if tok.kind == ',' || tok.kind == ')' {
                    proof {
                        assert(default_run(pre) =~= Seq::<Token>::empty());
                        assert(v@ =~= v@ + default_run(pre));
                    }
                    break;
                }
                toks.next_tok();
                v.push(tok);
                proof {
                    assert(default_run(pre) == seq![pre[0]] + default_run(pre.skip(1)));
                    assert(toks.rem() =~= orig.skip(v@.len() as int));
                    assert(default_run(orig) =~= v@ + default_run(toks.rem()));
                }
            }
        }
    }
    v
}

/// Consume the whitespace and block-opening brace after a parameter list.
fn finish_decl(toks: &mut Toks, last: Span) -> (r: SassResult<()>)
    requires
        old(toks).wf(),
    ensures
        final(toks).wf(),
        match finish_model(old(toks).rem(), last) {
            Ok(rest) => r is Ok && final(toks).rem() == rest,
            Err(e) => r matches Err(err) && err.message@ == e.0 && err.span == e.1,
        },
{
    devour_whitespace(toks);
    match toks.next_tok() {
        Some(t) if t.kind == '{' => Ok(()),
        Some(t) => Err(SassError::new(String::from_str("expected \"{\"."), t.pos)),
        None => Err(SassError::new(String::from_str("expected \"{\"."), last)),
    }
}

/// One step of declaration parsing: the next parameter and all after it.
fn parse_decl(toks: &mut Toks, last: Span) -> (r: SassResult<Vec<FuncArg>>)
    requires
        old(toks).wf(),
    ensures
        final(toks).wf(),
        match decl_model(old(toks).rem(), last) {
            Ok((ps, rest)) => r matches Ok(v) && fas_v(v@) == ps && final(toks).rem() == rest,
            Err(e) => r matches Err(err) && err.message@ == e.0 && err.span == e.1,
        },
    decreases old(toks).rem().len(),
{
    let ghost orig = old(toks).rem();
    devour_whitespace(toks);
    let ghost t = toks.rem();
    let tk = match toks.next_tok() {
        Some(tk) => tk,
        None => {
            return Err(SassError::new(String::from_str("expected \")\"."), last));
        }
    };
    if tk.kind == ')' {
        match finish_decl(toks, tk.pos) {
            Ok(_) => {
                let out: Vec<FuncArg> = Vec::new();
                proof {
                    assert(fas_v(out@) =~= Seq::<FuncArgV>::empty());
                }
                Ok(out)
            }
            Err(e) => Err(e),
        }
    } else if tk.kind != '$' {
        Err(SassError::new(String::from_str("expected \"$\"."), tk.pos))
    } else {
        let iv = eat_ident_tokens(toks);
        proof {
            assert(iv@ == ident_prefix(t.skip(1)));
            assert(toks.rem() =~= t.skip(1 + iv@.len() as int));
        }
        let name = norm_name(&iv);
        devour_whitespace(toks);
        let ghost u = toks.rem();
        let t2 = match toks.next_tok() {
            Some(t2) => t2,
            None => {
                return Err(SassError::new(String::from_str("expected \")\"."), tk.pos));
            }
        };
        if t2.kind == ':' {
            devour_whitespace(toks);
            let d = read_default(toks);
            let w0 = match toks.peek() {
                Some(w0) => w0,
                None => {
                    return Err(SassError::new(String::from_str("expected \")\"."), t2.pos));
                }
            };
            proof {
                lemma_default_run_stop(crate::utils::trim_front(u.skip(1)));
            }
            if w0.kind == ',' {
                toks.next_tok();
                let mut ps = match parse_decl(toks, t2.pos) {
                    Ok(ps) => ps,
                    Err(e) => {
                        return Err(e);
                    }
                };
                let ghost pre = ps@;
                let arg = FuncArg { name, default: Some(d), is_variadic: false };
                ps.insert(0, arg);
                proof {
                    assert(fas_v(ps@) =~= seq![fa_v(arg)] + fas_v(pre));
                }
                Ok(ps)
            } else {
                toks.next_tok();
                match finish_decl(toks, w0.pos) {
                    Ok(_) => {
                        let arg = FuncArg { name, default: Some(d), is_variadic: false };
                        let mut out: Vec<FuncArg> = Vec::new();
                        out.push(arg);
                        proof {
                            assert(fas_v(out@) =~= seq![fa_v(arg)]);
                        }
                        Ok(out)
                    }
                    Err(e) => Err(e),
                }
            }
        } else if t2.kind == '.' {
            let ghost rest0 = u.skip(1);
            let n1 = match toks.next_tok() {
                Some(n1) => n1,
                None => {
                    return Err(SassError::new(String::from_str("expected \".\"."), t2.pos));
                }
            };
            if n1.kind != '.' {
                return Err(SassError::new(String::from_str("expected \".\"."), n1.pos));
            }
            proof {
                assert(toks.rem() =~= rest0.skip(1));
            }
            let n2 = match toks.next_tok() {
                Some(n2) => n2,
                None => {
                    return Err(SassError::new(String::from_str("expected \".\"."), n1.pos));
                }
            };
            if n2.kind != '.' {
                return Err(SassError::new(String::from_str("expected \".\"."), n2.pos));
            }
            proof {
                assert(n2 == rest0[1]);
                assert(toks.rem() =~= rest0.skip(2));
            }
            devour_whitespace(toks);
            let n3 = match toks.next_tok() {
                Some(n3) => n3,
                None => {
                    return Err(SassError::new(String::from_str("expected \")\"."), n2.pos));
                }
            };
            if n3.kind != ')' {
                return Err(SassError::new(String::from_str("expected \")\"."), n3.pos));
            }
            match finish_decl(toks, n3.pos) {
                Ok(_) => {
                    let empty_default: Vec<Token> = Vec::new();
                    proof {
                        assert(empty_default@ =~= Seq::<Token>::empty());
                    }
                    let arg = FuncArg { name, default: Some(empty_default), is_variadic: true };
                    let mut out: Vec<FuncArg> = Vec::new();
                    out.push(arg);
                    proof {
                        assert(fas_v(out@) =~= seq![fa_v(arg)]);
                    }
                    Ok(out)
                }
                Err(e) => Err(e),
            }
        } else if t2.kind == ')' {
            match finish_decl(toks, t2.pos) {
                Ok(_) => {
                    let arg = FuncArg { name, default: None, is_variadic: false };
                    let mut out: Vec<FuncArg> = Vec::new();
                    out.push(arg);
                    proof {
                        assert(fas_v(out@) =~= seq![fa_v(arg)]);
                    }
                    Ok(out)
                }
                Err(e) => Err(e),
            }
        } else if t2.kind == ',' {
            let mut ps = match parse_decl(toks, t2.pos) {
                Ok(ps) => ps,
                Err(e) => {
                    return Err(e);
                }
            };
            let ghost pre = ps@;
            let arg = FuncArg { name, default: None, is_variadic: false };
            ps.insert(0, arg);
            proof {
                assert(fas_v(ps@) =~= seq![fa_v(arg)] + fas_v(pre));
            }
            Ok(ps)
        } else {
            Err(SassError::new(String::from_str("expected \")\"."), t2.pos))
        }
    }
}

/// Parse a declaration-site parameter list, from just past the opening
/// parenthesis through the block-opening brace.
///
/// The result is exactly what `decl_model` states of the input; in
/// particular at most one parameter is variadic and, if present, it is
/// the last — a variadic marker anywhere else fails to parse — and
/// parameter names have underscores normalized to hyphens.
pub fn eat_func_args(toks: &mut Toks, scope: &Scope, super_selector: &Selector) -> (r: SassResult<
    FuncArgs,
>)
    requires
        old(toks).wf(),
    ensures
        final(toks).wf(),
        match decl_model(old(toks).rem(), Span { lo: 0, hi: 0 }) {
            Ok((ps, rest)) => r matches Ok(fa) && fas_v(fa.0@) == ps && final(toks).rem() == rest,
            Err(e) => r matches Err(err) && err.message@ == e.0 && err.span == e.1,
        },
        r matches Ok(fa) ==> (forall|i: int|
            0 <= i < fa.0@.len() - 1 ==> !(#[trigger] fa.0@[i]).is_variadic),
        r matches Ok(fa) ==> (forall|i: int|
            0 <= i < fa.0@.len() ==> (#[trigger] fa.0@[i]).name@ == norm(fa.0@[i].name@)),
{
    let _ = scope;
    let _ = super_selector;
    let ghost m = decl_model(old(toks).rem(), Span { lo: 0, hi: 0 });
    proof {
        lemma_decl_model_shape(old(toks).rem(), Span { lo: 0, hi: 0 });
    }
    match parse_decl(toks, Span { lo: 0, hi: 0 }) {
        Ok(v) => {
            proof {
                let ps = m->Ok_0.0;
                assert(fas_v(v@) == ps);
                assert forall|i: int| 0 <= i < v@.len() - 1 implies !(
                #[trigger] v@[i]).is_variadic by {
                    assert(fas_v(v@)[i] == fa_v(v@[i]));
                    assert(!ps[i].is_variadic);
                }
                assert forall|i: int| 0 <= i < v@.len() implies (#[trigger] v@[i]).name@ == norm(
                    v@[i].name@,
                ) by {
                    assert(fas_v(v@)[i] == fa_v(v@[i]));
                    assert(ps[i].name == norm(ps[i].name));
                }
            }
            Ok(FuncArgs(v))
        }
        Err(e) => Err(e),
    }
}

/// What a group's value scan consumes/// What a group's value scan consumes: tokens up to the next top-level
/// comma or the closing parenthesis, nested brackets, parentheses and
/// quoted stretches staying whole. The result is the value run, the
/// closing parenthesis's span when the list ended there (nothing after a
/// comma), and the rest of the input; no result at end of input.
pub open spec fn group_scan(s: Seq<Token>) -> Option<(Seq<Token>, Option<Span>, Seq<Token>)>
    decreases s.len(),
    via group_scan_dec
{
    if s.len() == 0 {
        Option::<(Seq<Token>, Option<Span>, Seq<Token>)>::None
    } else if s[0].kind == ')' {
        Some((Seq::empty(), Some(s[0].pos), s.skip(1)))
    } else if s[0].kind == ',' {
        Some((Seq::empty(), Option::<Span>::None, s.skip(1)))
    } else if s[0].kind == '[' {
        let inner = crate::utils::until_close(s.skip(1), '[', ']', 0, None);
        group_cons(seq![s[0]] + inner, group_scan(s.skip(1 + inner.len() as int)))
    } else if s[0].kind == '(' {
        let inner = crate::utils::until_close(s.skip(1), '(', ')', 0, None);
        group_cons(seq![s[0]] + inner, group_scan(s.skip(1 + inner.len() as int)))
    } else if s[0].kind == '"' || s[0].kind == '\'' {
        let inner = crate::utils::until_quote(s.skip(1), s[0].kind);
        group_cons(seq![s[0]] + inner, group_scan(s.skip(1 + inner.len() as int)))
    } else {
        group_cons(seq![s[0]], group_scan(s.skip(1)))
    }
}

pub open spec fn group_cons(
    head: Seq<Token>,
    tail: Option<(Seq<Token>, Option<Span>, Seq<Token>)>,
) -> Option<(Seq<Token>, Option<Span>, Seq<Token>)> {
    match tail {
        Some((v, c, rest)) => Some((head + v, c, rest)),
        None => Option::<(Seq<Token>, Option<Span>, Seq<Token>)>::None,
    }
}

#[via_fn]
proof fn group_scan_dec(s: Seq<Token>) {
    if s.len() > 0 {
        crate::utils::lemma_until_close_len(s.skip(1), '[', ']', 0, None);
        crate::utils::lemma_until_close_len(s.skip(1), '(', ')', 0, None);
        crate::utils::lemma_until_quote_len(s.skip(1), s[0].kind);
    }
}

/// The rest a successful group scan leaves is strictly shorter.
proof fn lemma_group_scan_len(s: Seq<Token>)
    ensures
        group_scan(s) matches Some((_, _, rest)) ==> rest.len() < s.len(),
    decreases s.len(),
{
    if s.len() > 0 {
        if s[0].kind == ')' || s[0].kind == ',' {
        } else if s[0].kind == '[' {
            crate::utils::lemma_until_close_len(s.skip(1), '[', ']', 0, None);
            lemma_group_scan_len(
                s.skip(1 + crate::utils::until_close(s.skip(1), '[', ']', 0, None).len() as int),
            );
        } else if s[0].kind == '(' {
            crate::utils::lemma_until_close_len(s.skip(1), '(', ')', 0, None);
            lemma_group_scan_len(
                s.skip(1 + crate::utils::until_close(s.skip(1), '(', ')', 0, None).len() as int),
            );
        } else if s[0].kind == '"' || s[0].kind == '\'' {
            crate::utils::lemma_until_quote_len(s.skip(1), s[0].kind);
            lemma_group_scan_len(s.skip(1 + crate::utils::until_quote(s.skip(1), s[0].kind).len() as int));
        } else {
            lemma_group_scan_len(s.skip(1));
        }
    }
}

/// What parsing a call-site argument list yields, from the tokens and
/// the slots bound so far: the slots of §4.2, the merged span, and the
/// rest of the input past the closing parenthesis — or the diagnostic.
///
/// Each group binds by its written name (underscores normalized to
/// hyphens) when `$ident:` introduces it, else positionally at the count
/// of slots already bound; a speculatively read `$ident` not followed by
/// `:` is re-emitted at the head of the value, a trailing space token
/// exactly when whitespace was consumed while peeking. A `)` straight
/// after a comma leaves one empty-value slot; `)` as the first thing
/// leaves none. End of input without `)` is a syntax error.
pub open spec fn call_model(s: Seq<Token>, span: Span, cur: Seq<Slot>, first: bool) -> Result<
    (Seq<Slot>, Span, Seq<Token>),
    (Seq<char>, Span),
>
    decreases s.len(),
    via call_model_dec
{
    let t = crate::utils::trim_front(s);
    if t.len() == 0 {
        Err(("expected \")\"."@, span))
    } else if t[0].kind == ')' {
        if first {
            Ok((cur, span, t.skip(1)))
        } else {
            Ok(
                (
                    insert_model(cur, Option::<Seq<char>>::None, Seq::empty()),
                    crate::span::span_merge(span, t[0].pos),
                    t.skip(1),
                ),
            )
        }
    } else {
        let head = call_head(t);
        let b = crate::utils::trim_front(head.2);
        match group_scan(b) {
            None => Err(("expected \")\"."@, span)),
            Some((val, close, rest)) => {
                let slots = insert_model(cur, head.0, head.1 + val);
                match close {
                    Some(cp) => Ok((slots, crate::span::span_merge(span, cp), rest)),
                    None => call_model(rest, span, slots, false),
                }
            },
        }
    }
}

/// The speculative head of one group: its name if `$ident:` introduces
/// it, the re-emitted value prefix otherwise, and what follows.
pub open spec fn call_head(t: Seq<Token>) -> (Option<Seq<char>>, Seq<Token>, Seq<Token>) {
    if t.len() > 0 && t[0].kind == '$' {
        let iv = ident_prefix(t.skip(1));
        let after_ident = t.skip(1 + iv.len() as int);
        let u = crate::utils::trim_front(after_ident);
        let ws = u.len() != after_ident.len();
        if u.len() > 0 && u[0].kind == ':' {
            (Some(norm(kinds(iv))), Seq::<Token>::empty(), u.skip(1))
        } else {
            (
                Option::<Seq<char>>::None,
                seq![Token { kind: '$', pos: t[0].pos }] + iv + (if ws {
                    seq![Token { kind: ' ', pos: t[0].pos }]
                } else {
                    Seq::<Token>::empty()
                }),
                u,
            )
        }
    } else {
        (Option::<Seq<char>>::None, Seq::<Token>::empty(), t)
    }
}

#[via_fn]
proof fn call_model_dec(s: Seq<Token>, span: Span, cur: Seq<Slot>, first: bool) {
    crate::utils::lemma_trim_front_len(s);
    let t = crate::utils::trim_front(s);
    if t.len() > 0 && !(t[0].kind == ')') {
        let head = call_head(t);
        crate::utils::lemma_trim_front_len(head.2);
        let b = crate::utils::trim_front(head.2);
        lemma_group_scan_len(b);
        if t[0].kind == '$' {
            crate::utils::lemma_ident_prefix_len(t.skip(1));
            crate::utils::lemma_trim_front_len(t.skip(1 + ident_prefix(t.skip(1)).len() as int));
        }
    }
}

/// Joining heads onto a scan associates with concatenation.
proof fn lemma_group_cons_assoc(
    a: Seq<Token>,
    b: Seq<Token>,
    t: Option<(Seq<Token>, Option<Span>, Seq<Token>)>,
)
    ensures
        group_cons(a, group_cons(b, t)) == group_cons(a + b, t),
{
    match t {
        Some((v, c, r)) => {
            assert(a + (b + v) =~= (a + b) + v);
        },
        None => {},
    }
}

/// Scan one group's value run off the stream: through the next top-level
/// comma or the list's closing parenthesis.
fn scan_group(toks: &mut Toks) -> (r: Option<(Vec<Token>, Option<Span>)>)
    requires
        old(toks).wf(),
    ensures
        final(toks).wf(),
        match r {
            Some((v, close)) => group_scan(old(toks).rem()) matches Some((val, c, rest)) && v@
                == val && close == c && final(toks).rem() == rest,
            None => group_scan(old(toks).rem()) is None,
        },
{
    let ghost orig = old(toks).rem();
    let mut v: Vec<Token> = Vec::new();
    let mut outcome: Option<Option<Span>> = None;
    proof {
        assert(group_scan(orig) == group_cons(Seq::<Token>::empty(), group_scan(orig))) by {
            match group_scan(orig) {
                Some((gv, c, rest)) => {
                    assert(Seq::<Token>::empty() + gv =~= gv);
                },
                None => {},
            }
        }
        assert(v@ =~= Seq::<Token>::empty());
    }
    loop
        invariant_except_break
            toks.wf(),
            group_scan(orig) == group_cons(v@, group_scan(toks.rem())),
        ensures
            toks.wf(),
            match outcome {
                Some(c) => group_scan(orig) matches Some((val, cc, rest)) && v@ == val && cc == c
                    && toks.rem() == rest,
                None => group_scan(orig) is None,
            },
        decreases toks.rem().len(),
    {
        let ghost pre = toks.rem();
        let ghost vpre = v@;
        match toks.next_tok() {
            Option::None => {
                outcome = None;
                break;
            }
            Option::Some(tok) => {
                if tok.kind == ')' {
                    proof {
                        assert(group_scan(pre) == Some(
                            (Seq::<Token>::empty(), Some(tok.pos), pre.skip(1)),
                        ));
                        assert(vpre + Seq::<Token>::empty() =~= vpre);
                    }
                    outcome = Some(Some(tok.pos));
                    break;
                } else if tok.kind == ',' {
                    proof {
                        assert(group_scan(pre) == Some(
                            (Seq::<Token>::empty(), Option::<Span>::None, pre.skip(1)),
                        ));
                        assert(vpre + Seq::<Token>::empty() =~= vpre);
                    }
                    outcome = Some(Option::<Span>::None);
                    break;
                } else if tok.kind == '[' {
                    v.push(tok);
                    let mut inner = read_until_closing_square_brace(toks);
                    let ghost iv = inner@;
                    v.append(&mut inner);
                    proof {
                        assert(v@ =~= vpre + (seq![tok] + iv));
                        assert(toks.rem() =~= pre.skip(1 + iv.len() as int));
                        lemma_group_cons_assoc(vpre, seq![tok] + iv, group_scan(toks.rem()));
                    }
                } else if tok.kind == '(' {
                    v.push(tok);
                    let mut inner = read_until_closing_paren(toks);
                    let ghost iv = inner@;
                    v.append(&mut inner);
                    proof {
                        assert(v@ =~= vpre + (seq![tok] + iv));
                        assert(toks.rem() =~= pre.skip(1 + iv.len() as int));
                        lemma_group_cons_assoc(vpre, seq![tok] + iv, group_scan(toks.rem()));
                    }
                } else if tok.kind == '"' || tok.kind == '\'' {
                    v.push(tok);
                    let mut inner = read_until_closing_quote(toks, tok.kind);
                    let ghost iv = inner@;
                    v.append(&mut inner);
                    proof {
                        assert(v@ =~= vpre + (seq![tok] + iv));
                        assert(toks.rem() =~= pre.skip(1 + iv.len() as int));
                        lemma_group_cons_assoc(vpre, seq![tok] + iv, group_scan(toks.rem()));
                    }
                } else {
                    v.push(tok);
                    proof {
                        assert(v@ =~= vpre + seq![tok]);
                        assert(toks.rem() =~= pre.skip(1));
                        lemma_group_cons_assoc(vpre, seq![tok], group_scan(toks.rem()));
                    }
                }
            }
        }
    }
    match outcome {
        Some(close) => Some((v, close)),
        None => None,
    }
}

/// One step of call-site parsing: bind the next group (and all after it)
/// onto the slots bound so far.
fn parse_call(toks: &mut Toks, span: Span, args: Vec<(CallArg, Vec<Token>)>, first: bool) -> (r:
    SassResult<CallArgs>)
    requires
        old(toks).wf(),
        slots_wf(frame_slots(args@)),
        pos_lt(frame_slots(args@), args@.len() as int),
    ensures
        final(toks).wf(),
        match call_model(old(toks).rem(), span, frame_slots(args@), first) {
            Ok((slots, sp, rest)) => r matches Ok(ca) && ca.slots() == slots && ca.span_v() == sp
                && ca.wf() && final(toks).rem() == rest,
            Err(e) => r matches Err(err) && err.message@ == e.0 && err.span == e.1,
        },
    decreases old(toks).rem().len(),
{
    let ghost orig = old(toks).rem();
    devour_whitespace(toks);
    let t0 = match toks.peek() {
        Some(t) => t,
        None => {
            return Err(SassError::new(String::from_str("expected \")\"."), span));
        }
    };
    let ghost t = toks.rem();
    if t0.kind == ')' {
        toks.next_tok();
        if first {
            return Ok(CallArgs { args, span });
        }
        let mut args = args;
        let empty_val: Vec<Token> = Vec::new();
        proof {
            assert(empty_val@ =~= Seq::<Token>::empty());
        }
        insert_slot(&mut args, None, empty_val);
        return Ok(CallArgs { args, span: span.merge(t0.pos) });
    }
    let mut name: Option<String> = None;
    let mut val: Vec<Token> = Vec::new();
    if t0.kind == '$' {
        toks.next_tok();
        let iv = eat_ident_tokens(toks);
        proof {
            assert(iv@ == ident_prefix(t.skip(1)));
            assert(toks.rem() =~= t.skip(1 + iv@.len() as int));
        }
        let whitespace = devour_whitespace(toks);
        let is_colon = match toks.peek() {
            Some(t2) if t2.kind == ':' => true,
            _ => false,
        };
        if is_colon {
            toks.next_tok();
            name = Some(norm_name(&iv));
        } else {
            val.push(Token::new(t0.pos, '$'));
            let mut j: usize = 0;
            while j < iv.len()
                invariant
                    j <= iv@.len(),
                    val@ == seq![Token { kind: '$', pos: t[0].pos }] + iv@.take(j as int),
                    t.len() > 0,
                decreases iv@.len() - j,
            {
                val.push(iv[j]);
                j = j + 1;
                proof {
                    assert(val@ =~= seq![Token { kind: '$', pos: t[0].pos }] + iv@.take(
                        j as int,
                    ));
                }
            }
            proof {
                assert(iv@.take(iv@.len() as int) =~= iv@);
            }
            if whitespace {
                val.push(Token::new(t0.pos, ' '));
            }
            proof {
                assert(val@ =~= call_head(t).1);
            }
        }
    }
    devour_whitespace(toks);
    proof {
        assert(toks.rem() == crate::utils::trim_front(call_head(t).2));
        assert(name_v(name) == call_head(t).0);
        if name is Some {
            assert(val@ =~= call_head(t).1);
        }
    }
    let ghost bscan = toks.rem();
    match scan_group(toks) {
        None => Err(SassError::new(String::from_str("expected \")\"."), span)),
        Some((gv, close)) => {
            let ghost gval = gv@;
            let mut args = args;
            let mut whole = val;
            let mut gv = gv;
            whole.append(&mut gv);
            proof {
                assert(whole@ =~= call_head(t).1 + gval);
                lemma_group_scan_len(bscan);
            }
            insert_slot(&mut args, name, whole);
            match close {
                Some(cp) => Ok(CallArgs { args, span: span.merge(cp) }),
                None => parse_call(toks, span, args, false),
            }
        }
    }
}

/// Parse a call-site argument list, from just past the opening
/// parenthesis through the matching closing one. `span` is the span of
/// the opening of the call, merged with what the call covers.
///
/// The result is exactly what `call_model` states of the input: one slot
/// per top-level comma-separated group (a trailing comma leaving one
/// empty-value slot), named by `$ident:` with underscores normalized, or
/// positional at the count of slots already bound; nested brackets,
/// parentheses and quoted stretches stay whole inside a value; end of
/// input before the closing parenthesis is a syntax error.
pub fn eat_call_args(toks: &mut Toks, span: Span) -> (r: SassResult<CallArgs>)
    requires
        old(toks).wf(),
    ensures
        final(toks).wf(),
        match call_model(old(toks).rem(), span, Seq::<Slot>::empty(), true) {
            Ok((slots, sp, rest)) => r matches Ok(ca) && ca.slots() == slots && ca.span_v() == sp
                && ca.wf() && final(toks).rem() == rest,
            Err(e) => r matches Err(err) && err.message@ == e.0 && err.span == e.1,
        },
        r matches Ok(ca) ==> ca.wf(),
{
    let args: Vec<(CallArg, Vec<Token>)> = Vec::new();
    proof {
        assert(frame_slots(args@) =~= Seq::<Slot>::empty());
    }
    parse_call(toks, span, args, true)
}

} // verus!