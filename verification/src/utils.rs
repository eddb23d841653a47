//! Token-stream scanning helpers used by the argument binder, and small
//! string utilities: decimal rendering and character/string conversion.

use vstd::prelude::*;
use crate::span::{Span, span_merge};
use crate::token::{Token, Toks};

verus! {

pub open spec fn is_ws(c: char) -> bool {
    c == ' ' || c == '\t' || c == '\n' || c == '\r'
}

pub open spec fn is_digit(c: char) -> bool {
    '0' <= c && c <= '9'
}

pub open spec fn is_ident_char(c: char) -> bool {
    ('a' <= c && c <= 'z') || ('A' <= c && c <= 'Z') || is_digit(c) || c == '-' || c == '_'
}

/// The kinds (characters) of a token run.
pub open spec fn kinds(s: Seq<Token>) -> Seq<char> {
    s.map(|_i: int, t: Token| t.kind)
}

/// The spans of a run merged onto `acc`, left to right.
pub open spec fn spans_merged(s: Seq<Token>, acc: Span) -> Span
    decreases s.len(),
{
    if s.len() == 0 {
        acc
    } else {
        spans_merged(s.skip(1), span_merge(acc, s[0].pos))
    }
}

/// The merged span of a token run, or `dflt` when the run is empty.
pub open spec fn tokens_span(s: Seq<Token>, dflt: Span) -> Span {
    if s.len() == 0 {
        dflt
    } else {
        spans_merged(s.skip(1), s[0].pos)
    }
}

/// Merge the spans of a token run onto `dflt`.
pub fn merge_token_spans(v: &Vec<Token>, dflt: Span) -> (r: Span)
    ensures
        r == tokens_span(v@, dflt),
{
    if v.len() == 0 {
        return dflt;
    }
    let mut acc = v[0].pos;
    let mut i: usize = 1;
    while i < v.len()
        invariant
            1 <= i <= v@.len(),
            spans_merged(v@.skip(1), v@[0].pos) == spans_merged(v@.skip(i as int), acc),
        decreases v@.len() - i,
    {
        let ghost pre = v@.skip(i as int);
        acc = acc.merge(v[i].pos);
        i = i + 1;
        proof {
            assert(pre.skip(1) =~= v@.skip(i as int));
        }
    }
    proof {
        assert(v@.skip(v@.len() as int) =~= Seq::<Token>::empty());
    }
    acc
}

/// A run with its leading whitespace tokens removed.
pub open spec fn trim_front(s: Seq<Token>) -> Seq<Token>
    decreases s.len(),
{
    if s.len() > 0 && is_ws(s[0].kind) {
        trim_front(s.skip(1))
    } else {
        s
    }
}

/// A run with its trailing whitespace tokens removed.
pub open spec fn trim_back(s: Seq<Token>) -> Seq<Token>
    decreases s.len(),
{
    if s.len() > 0 && is_ws(s[s.len() - 1].kind) {
        trim_back(s.take(s.len() - 1))
    } else {
        s
    }
}

pub open spec fn trim(s: Seq<Token>) -> Seq<Token> {
    trim_back(trim_front(s))
}

/// The longest prefix of identifier characters.
pub open spec fn ident_prefix(s: Seq<Token>) -> Seq<Token>
    decreases s.len(),
{
    if s.len() > 0 && is_ident_char(s[0].kind) {
        seq![s[0]] + ident_prefix(s.skip(1))
    } else {
        Seq::empty()
    }
}

/// Underscores normalized to hyphens.
pub open spec fn norm(s: Seq<char>) -> Seq<char> {
    s.map(|_i: int, c: char| if c == '_' { '-' } else { c })
}

/// Consume leading whitespace; report whether any was consumed.
pub fn devour_whitespace(toks: &mut Toks) -> (r: bool)
    requires
        old(toks).wf(),
    ensures
        final(toks).wf(),
        final(toks).rem() == trim_front(old(toks).rem()),
        final(toks).rem().len() <= old(toks).rem().len(),
        r == (final(toks).rem().len() != old(toks).rem().len()),
    {
    let ghost orig = old(toks).rem();
    let mut ate = false;
    loop
        invariant_except_break
            toks.wf(),
            trim_front(orig) == trim_front(toks.rem()),
            ate ==> toks.rem().len() < orig.len(),
            !ate ==> toks.rem() == orig,
        ensures
            toks.wf(),
            toks.rem() == trim_front(orig),
            toks.rem().len() <= orig.len(),
            ate == (toks.rem().len() != orig.len()),
        decreases toks.rem().len(),
    {
        match toks.peek() {
            Some(t) if t.kind == ' ' || t.kind == '\t' || t.kind == '\n' || t.kind == '\r' => {
                let ghost pre = toks.rem();
                toks.next_tok();
                ate = true;
                proof {
                    assert(trim_front(pre) == trim_front(pre.skip(1)));
                }
            }
            _ => {
                proof {
                    assert(trim_front(toks.rem()) == toks.rem());
                }
                break;
            }
        }
    }
    ate
}

/// Read identifier characters off the front of the stream.
pub fn eat_ident_tokens(toks: &mut Toks) -> (r: Vec<Token>)
    requires
        old(toks).wf(),
    ensures
        final(toks).wf(),
        r@ == ident_prefix(old(toks).rem()),
        r@.len() <= old(toks).rem().len(),
        final(toks).rem() == old(toks).rem().skip(r@.len() as int),
        final(toks).rem().len() == old(toks).rem().len() - r@.len(),
{
    let ghost orig = old(toks).rem();
    let mut v: Vec<Token> = Vec::new();
    loop
        invariant_except_break
            toks.wf(),
            ident_prefix(orig) == v@ + ident_prefix(toks.rem()),
            toks.rem() == orig.skip(v@.len() as int),
            v@.len() <= orig.len(),
        ensures
            toks.wf(),
            v@ == ident_prefix(orig),
            v@.len() <= orig.len(),
            toks.rem() == orig.skip(v@.len() as int),
        decreases toks.rem().len(),
    {
        match toks.peek() {
            Some(t) if ({
                let u = t.kind;
                ('a' <= u && u <= 'z') || ('A' <= u && u <= 'Z') || ('0' <= u && u <= '9') || u
                    == '-' || u == '_'
            }) => {
                let ghost pre = toks.rem();
                toks.next_tok();
                v.push(t);
                proof {
                    assert(ident_prefix(pre) == seq![pre[0]] + ident_prefix(pre.skip(1)));
                    assert(toks.rem() =~= orig.skip(v@.len() as int));
                    assert(ident_prefix(orig) =~= v@ + ident_prefix(toks.rem()));
                }
            }
            _ => {
                proof {
                    assert(ident_prefix(toks.rem()) =~= Seq::<Token>::empty());
                    assert(v@ =~= v@ + ident_prefix(toks.rem()));
                }
                break;
            }
        }
    }
    v
}

/// What a scan for a closing delimiter consumes, the closing token
/// included: nested `open`/`close` pairs stay whole, and a quoted
/// stretch hides any delimiters inside it.
pub open spec fn until_close(
    s: Seq<Token>,
    open: char,
    close: char,
    depth: nat,
    quote: Option<char>,
) -> Seq<Token>
    decreases s.len(),
{
    if s.len() == 0 {
        s
    } else {
        let t = s[0];
        let rest = s.skip(1);
        match quote {
            Some(q) => seq![t] + until_close(
                rest,
                open,
                close,
                depth,
                if t.kind == q {
                    None
                } else {
                    Some(q)
                },
            ),
            None => {
                if t.kind == close && depth == 0 {
                    seq![t]
                } else {
                    seq![t] + until_close(
                        rest,
                        open,
                        close,
                        if t.kind == close {
                            (depth - 1) as nat
                        } else if t.kind == open {
                            depth + 1
                        } else {
                            depth
                        },
                        if t.kind == '"' || t.kind == '\'' {
                            Some(t.kind)
                        } else {
                            None
                        },
                    )
                }
            }
        }
    }
}

/// What a scan for a closing quote consumes, the quote included.
pub open spec fn until_quote(s: Seq<Token>, q: char) -> Seq<Token>
    decreases s.len(),
{
    if s.len() == 0 {
        s
    } else if s[0].kind == q {
        seq![s[0]]
    } else {
        seq![s[0]] + until_quote(s.skip(1), q)
    }
}

/// Consume through the matching `close` delimiter, `open` pairs nesting.
pub fn read_until_closing(toks: &mut Toks, open: char, close: char) -> (r: Vec<Token>)
    requires
        old(toks).wf(),
    ensures
        final(toks).wf(),
        r@ == until_close(old(toks).rem(), open, close, 0, None),
        r@.len() <= old(toks).rem().len(),
        final(toks).rem() == old(toks).rem().skip(r@.len() as int),
        final(toks).rem().len() == old(toks).rem().len() - r@.len(),
{
    let ghost orig = old(toks).rem();
    let mut v: Vec<Token> = Vec::new();
    let mut depth: usize = 0;
    let mut quote: Option<char> = None;
    loop
        invariant_except_break
            toks.wf(),
            toks.rem() == orig.skip(v@.len() as int),
            v@.len() <= orig.len(),
            until_close(orig, open, close, 0, None) == v@ + until_close(
                toks.rem(),
                open,
                close,
                depth as nat,
                quote,
            ),
            depth <= v@.len(),
        ensures
            toks.wf(),
            v@ == until_close(orig, open, close, 0, None),
            v@.len() <= orig.len(),
            toks.rem() == orig.skip(v@.len() as int),
        decreases toks.rem().len(),
    {
        let ghost pre = toks.rem();
        let ghost vpre = v@;
        match toks.next_tok() {
            Option::None => {
                proof {
                    assert(until_close(pre, open, close, depth as nat, quote) =~= Seq::<
                        Token,
                    >::empty());
                    assert(v@ =~= v@ + until_close(pre, open, close, depth as nat, quote));
                }
                break;
            }
            Option::Some(t) => {
                v.push(t);
                let mut done: bool = false;
                match quote {
                    Option::Some(q) => {
                        if t.kind == q {
                            quote = None;
                        }
                    }
                    Option::None => {
                        if t.kind == close && depth == 0 {
                            done = true;
                        } else {
                            if t.kind == close {
                                depth = depth - 1;
                            } else if t.kind == open {
                                assert(depth < v.len());
                                depth = depth + 1;
                            }
                            if t.kind == '"' || t.kind == '\'' {
                                quote = Some(t.kind);
                            } else {
                                quote = None;
                            }
                        }
                    }
                }
                proof {
                    assert(toks.rem() =~= orig.skip(v@.len() as int));
                }
                if done {
                    proof {
                        assert(until_close(pre, open, close, 0, None) =~= seq![t]);
                        assert(v@ =~= vpre + seq![t]);
                        assert(until_close(orig, open, close, 0, None) =~= v@);
                    }
                    break;
                }
                proof {
                    assert(until_close(orig, open, close, 0, None) =~= v@ + until_close(
                        toks.rem(),
                        open,
                        close,
                        depth as nat,
                        quote,
                    ));
                }
            }
        }
    }
    v
}

/// Consume through the closing quote character `q`.
pub fn read_until_closing_quote(toks: &mut Toks, q: char) -> (r: Vec<Token>)
    requires
        old(toks).wf(),
    ensures
        final(toks).wf(),
        r@ == until_quote(old(toks).rem(), q),
        r@.len() <= old(toks).rem().len(),
        final(toks).rem() == old(toks).rem().skip(r@.len() as int),
        final(toks).rem().len() == old(toks).rem().len() - r@.len(),
{
    let ghost orig = old(toks).rem();
    let mut v: Vec<Token> = Vec::new();
    loop
        invariant_except_break
            toks.wf(),
            toks.rem() == orig.skip(v@.len() as int),
            v@.len() <= orig.len(),
            until_quote(orig, q) == v@ + until_quote(toks.rem(), q),
        ensures
            toks.wf(),
            v@ == until_quote(orig, q),
            v@.len() <= orig.len(),
            toks.rem() == orig.skip(v@.len() as int),
        decreases toks.rem().len(),
    {
        let ghost pre = toks.rem();
        let ghost vpre = v@;
        match toks.next_tok() {
            Option::None => {
                proof {
                    assert(until_quote(pre, q) =~= Seq::<Token>::empty());
                    assert(v@ =~= v@ + until_quote(pre, q));
                }
                break;
            }
            Option::Some(t) => {
                v.push(t);
                proof {
                    assert(toks.rem() =~= orig.skip(v@.len() as int));
                }
                if t.kind == q {
                    proof {
                        assert(until_quote(pre, q) =~= seq![t]);
                        assert(v@ =~= vpre + seq![t]);
                        assert(until_quote(orig, q) =~= v@);
                    }
                    break;
                }
                proof {
                    assert(until_quote(orig, q) =~= v@ + until_quote(toks.rem(), q));
                }
            }
        }
    }
    v
}

/// Consume through the matching closing parenthesis.
pub fn read_until_closing_paren(toks: &mut Toks) -> (r: Vec<Token>)
    requires
        old(toks).wf(),
    ensures
        final(toks).wf(),
        r@ == until_close(old(toks).rem(), '(', ')', 0, None),
        r@.len() <= old(toks).rem().len(),
        final(toks).rem() == old(toks).rem().skip(r@.len() as int),
        final(toks).rem().len() == old(toks).rem().len() - r@.len(),
{
    read_until_closing(toks, '(', ')')
}

/// Consume through the matching closing square bracket.
pub fn read_until_closing_square_brace(toks: &mut Toks) -> (r: Vec<Token>)
    requires
        old(toks).wf(),
    ensures
        final(toks).wf(),
        r@ == until_close(old(toks).rem(), '[', ']', 0, None),
        r@.len() <= old(toks).rem().len(),
        final(toks).rem() == old(toks).rem().skip(r@.len() as int),
        final(toks).rem().len() == old(toks).rem().len() - r@.len(),
{
    read_until_closing(toks, '[', ']')
}

/// A scan never returns more than it was given.
pub proof fn lemma_until_close_len(
    s: Seq<Token>,
    open: char,
    close: char,
    depth: nat,
    quote: Option<char>,
)
    ensures
        until_close(s, open, close, depth, quote).len() <= s.len(),
    decreases s.len(),
{
    if s.len() > 0 {
        let t = s[0];
        match quote {
            Some(q) => {
                lemma_until_close_len(
                    s.skip(1),
                    open,
                    close,
                    depth,
                    if t.kind == q {
                        None
                    } else {
                        Some(q)
                    },
                );
            }
            None => {
                if !(t.kind == close && depth == 0) {
                    lemma_until_close_len(
                        s.skip(1),
                        open,
                        close,
                        if t.kind == close {
                            (depth - 1) as nat
                        } else if t.kind == open {
                            depth + 1
                        } else {
                            depth
                        },
                        if t.kind == '"' || t.kind == '\'' {
                            Some(t.kind)
                        } else {
                            None
                        },
                    );
                }
            }
        }
    }
}

/// A quote scan never returns more than it was given.
pub proof fn lemma_until_quote_len(s: Seq<Token>, q: char)
    ensures
        until_quote(s, q).len() <= s.len(),
    decreases s.len(),
{
    if s.len() > 0 && s[0].kind != q {
        lemma_until_quote_len(s.skip(1), q);
    }
}

/// An identifier prefix never outgrows its run.
pub proof fn lemma_ident_prefix_len(s: Seq<Token>)
    ensures
        ident_prefix(s).len() <= s.len(),
    decreases s.len(),
{
    if s.len() > 0 && is_ident_char(s[0].kind) {
        lemma_ident_prefix_len(s.skip(1));
    }
}

/// Trimming never lengthens a run.
pub proof fn lemma_trim_front_len(s: Seq<Token>)
    ensures
        trim_front(s).len() <= s.len(),
    decreases s.len(),
{
    if s.len() > 0 && is_ws(s[0].kind) {
        lemma_trim_front_len(s.skip(1));
    }
}

/// Whether a string holds exactly the given text.
pub fn string_is(a: &String, b: &str) -> (r: bool)
    ensures
        r == (a@ == b@),
{
    *a == b.to_owned()
}

/// Relies on std's `String::push`: appends one character.
#[verifier::external_body]
pub fn push_char(s: &mut String, c: char)
    ensures
        final(s)@ == old(s)@.push(c),
{
    s.push(c);
}

/// The characters of a string slice, one by one.
pub fn str_chars(s: &str) -> (r: Vec<char>)
    ensures
        r@ == s@,
{
    let n = s.unicode_len();
    let mut v: Vec<char> = Vec::new();
    let mut i: usize = 0;
    while i < n
        invariant
            n == s@.len(),
            i <= n,
            v@ == s@.take(i as int),
        decreases n - i,
    {
        let c = s.get_char(i);
        v.push(c);
        i = i + 1;
        proof {
            assert(v@ =~= s@.take(i as int));
        }
    }
    proof {
        assert(v@ =~= s@);
    }
    v
}

/// A `String` holding exactly the given characters.
pub fn chars_to_string(v: &Vec<char>) -> (r: String)
    ensures
        r@ == v@,
{
    let mut s = String::new();
    let mut i: usize = 0;
    while i < v.len()
        invariant
            i <= v@.len(),
            s@ == v@.take(i as int),
        decreases v@.len() - i,
    {
        push_char(&mut s, v[i]);
        i = i + 1;
        proof {
            assert(s@ =~= v@.take(i as int));
        }
    }
    proof {
        assert(s@ =~= v@);
    }
    s
}

/// The decimal digit character for `d`.
pub open spec fn digit_char(d: int) -> char {
    (('0' as u8) + d as u8) as char
}

/// The decimal representation of a natural number.
pub open spec fn dec_rep(n: nat) -> Seq<char>
    decreases n,
{
    if n < 10 {
        seq![digit_char(n as int)]
    } else {
        dec_rep(n / 10).push(digit_char((n % 10) as int))
    }
}

/// Render a machine integer in decimal.
pub fn u64_to_string(n: u64) -> (r: String)
    ensures
        r@ == dec_rep(n as nat),
    decreases n,
{
    if n < 10 {
        let d: u8 = (n as u8) + ('0' as u8);
        let mut s = String::new();
        push_char(&mut s, d as char);
        proof {
            assert(s@ =~= seq![digit_char(n as int)]);
        }
        s
    } else {
        let mut s = u64_to_string(n / 10);
        let d: u8 = ((n % 10) as u8) + ('0' as u8);
        push_char(&mut s, d as char);
        s
    }
}

} // verus!
