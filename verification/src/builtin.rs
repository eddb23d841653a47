//! The built-in string functions, each pulling its arguments out of a
//! bound argument set through the resolution contract, and a dispatcher
//! that finds a built-in by name.

use vstd::prelude::*;
use vstd::string::StringExecFns;
use crate::args::{arg_removed_model, arg_take_model, arity_msg, has_key, missing_arg_msg, CallArgs};
use crate::common::QuoteKind;
use crate::error::{SassError, SassResult};
use crate::number::{num_is_int, Number, NumV};
use crate::scope::Scope;
use crate::selector::Selector;
use crate::span::Span;
use crate::unit::Unit;
use crate::utils::{chars_to_string, str_chars};
use crate::value::{value_css, Value, ValueRepr};

verus! {

/// The result of a built-in, at the level of views.
pub open spec fn vres(r: SassResult<Value>) -> Result<ValueRepr, (Seq<char>, Span)> {
    match r {
        Ok(v) => Ok(v@),
        Err(e) => Err((e.message@, e.span)),
    }
}

/// The diagnostic for a value where a string was expected.
pub open spec fn not_a_string_msg(param: Seq<char>, v: ValueRepr) -> Seq<char> {
    "$"@ + param + ": "@ + value_css(v) + " is not a string."@
}

/// A character mapped to its ASCII upper-case equivalent.
pub open spec fn upper_char(c: char) -> char {
    if 'a' <= c && c <= 'z' {
        ((c as u8) - 0x20) as char
    } else {
        c
    }
}

/// A character mapped to its ASCII lower-case equivalent.
pub open spec fn lower_char(c: char) -> char {
    if 'A' <= c && c <= 'Z' {
        ((c as u8) + 0x20) as char
    } else {
        c
    }
}

pub open spec fn upper_seq(s: Seq<char>) -> Seq<char> {
    s.map(|_i: int, c: char| upper_char(c))
}

pub open spec fn lower_seq(s: Seq<char>) -> Seq<char> {
    s.map(|_i: int, c: char| lower_char(c))
}

/// ASCII upper-casing of a string.
fn to_ascii_upper(s: &String) -> (r: String)
    ensures
        r@ == upper_seq(s@),
{
    let cv = str_chars(s.as_str());
    let mut out: Vec<char> = Vec::new();
    let mut i: usize = 0;
    while i < cv.len()
        invariant
            i <= cv@.len(),
            cv@ == s@,
            out@ == upper_seq(s@).take(i as int),
        decreases cv@.len() - i,
    {
        let c = cv[i];
        out.push(
            if 'a' <= c && c <= 'z' {
                ((c as u8) - 0x20) as char
            } else {
                c
            },
        );
        i = i + 1;
        proof {
            assert(out@ =~= upper_seq(s@).take(i as int));
        }
    }
    proof {
        assert(out@ =~= upper_seq(s@));
    }
    chars_to_string(&out)
}

/// ASCII lower-casing of a string.
fn to_ascii_lower(s: &String) -> (r: String)
    ensures
        r@ == lower_seq(s@),
{
    let cv = str_chars(s.as_str());
    let mut out: Vec<char> = Vec::new();
    let mut i: usize = 0;
    while i < cv.len()
        invariant
            i <= cv@.len(),
            cv@ == s@,
            out@ == lower_seq(s@).take(i as int),
        decreases cv@.len() - i,
    {
        let c = cv[i];
        out.push(
            if 'A' <= c && c <= 'Z' {
                ((c as u8) + 0x20) as char
            } else {
                c
            },
        );
        i = i + 1;
        proof {
            assert(out@ =~= lower_seq(s@).take(i as int));
        }
    }
    proof {
        assert(out@ =~= lower_seq(s@));
    }
    chars_to_string(&out)
}

/// Take the argument bound at `position`, or named `name`, or fail: the
/// consumption every built-in starts with.
fn get_arg(args: &mut CallArgs, position: usize, name: &str, scope: &Scope, sel: &Selector) -> (r:
    SassResult<crate::span::Spanned<Value>>)
    requires
        old(args).wf(),
        scope.wf(),
    ensures
        final(args).wf(),
        final(args).span_v() == old(args).span_v(),
        final(args).slots() == arg_removed_model(old(args).slots(), position as int, name@),
        crate::eval::evr(r) == arg_take_model(
            old(args).slots(),
            position as int,
            name@,
            *scope,
            old(args).span_v(),
        ),
        r matches Ok(sv) ==> sv.node.wf(),
{
    match args.get_positional(position, scope, sel) {
        Some(res) => res,
        None => {
            match args.get_named(String::from_str(name), scope, sel) {
                Some(res) => res,
                None => {
                    let mut m = String::from_str("Missing argument $");
                    m.append(name);
                    m.append(".");
                    proof {
                        assert(m@ =~= missing_arg_msg(name@));
                    }
                    Err(SassError::new(m, args.span()))
                }
            }
        }
    }
}

/// Take the argument bound at `position`, or named `name`, or fall back
/// to the given default value.
fn get_arg_default(
    args: &mut CallArgs,
    position: usize,
    name: &str,
    default: Value,
    scope: &Scope,
    sel: &Selector,
) -> (r: SassResult<crate::span::Spanned<Value>>)
    requires
        old(args).wf(),
        scope.wf(),
        default.wf(),
    ensures
        final(args).wf(),
        final(args).span_v() == old(args).span_v(),
        final(args).slots() == arg_removed_model(old(args).slots(), position as int, name@),
        (has_key(old(args).slots(), crate::args::CallArgV::Positional(position as int)) || has_key(
            old(args).slots(),
            crate::args::CallArgV::Named(name@),
        )) ==> crate::eval::evr(r) == arg_take_model(
            old(args).slots(),
            position as int,
            name@,
            *scope,
            old(args).span_v(),
        ),
        !(has_key(old(args).slots(), crate::args::CallArgV::Positional(position as int))
            || has_key(old(args).slots(), crate::args::CallArgV::Named(name@))) ==> (r matches Ok(
        sv,
        ) && sv.node@ == default@ && sv.span == old(args).span_v()),
        r matches Ok(sv) ==> sv.node.wf(),
{
    match args.get_positional(position, scope, sel) {
        Some(res) => res,
        None => {
            match args.get_named(String::from_str(name), scope, sel) {
                Some(res) => res,
                None => Ok(crate::span::Spanned { node: default, span: args.span() }),
            }
        }
    }
}

/// The error for a value in the string parameter `param`'s place that is
/// not a string.
fn not_a_string_err(param: &str, v: &Value, span: Span) -> (e: SassError)
    requires
        v.wf(),
    ensures
        e.message@ == not_a_string_msg(param@, v@),
        e.span == span,
{
    let mut m = String::from_str("$");
    m.append(param);
    m.append(": ");
    let css = match v.to_css_string(span) {
        Ok(c) => c,
        Err(err) => err.message,  // unreachable: rendering cannot fail
    };
    m.append(css.as_str());
    m.append(" is not a string.");
    proof {
        assert(m@ =~= not_a_string_msg(param@, v@));
    }
    SassError::new(m, span)
}

/// What `to-upper-case` returns for given bound arguments.
pub open spec fn upper_model(s: Seq<crate::args::Slot>, scope: Scope, fb: Span) -> Result<
    ValueRepr,
    (Seq<char>, Span),
> {
    match arg_take_model(s, 0, "string"@, scope, fb) {
        Err(e) => Err(e),
        Ok((v, _)) => match v {
            ValueRepr::Ident(t, q) => Ok(ValueRepr::Ident(upper_seq(t), q)),
            other => Err((not_a_string_msg("string"@, other), fb)),
        },
    }
}

/// Map a string to ASCII upper case, keeping its quoting.
pub fn to_upper_case(args: CallArgs, scope: &Scope, super_selector: &Selector) -> (r: SassResult<
    Value,
>)
    requires
        args.wf(),
        scope.wf(),
    ensures
        args.slots().len() > 1 ==> (r matches Err(e) && e.message@ == arity_msg(
            1,
            args.slots().len() as int,
        ) && e.span == args.span_v()),
        args.slots().len() <= 1 ==> vres(r) == upper_model(args.slots(), *scope, args.span_v()),
{
    let mut args = args;
    match args.max_args(1) {
        Ok(_) => {}
        Err(e) => {
            return Err(e);
        }
    }
    let span = args.span();
    let sv = match get_arg(&mut args, 0, "string", scope, super_selector) {
        Ok(sv) => sv,
        Err(e) => {
            return Err(e);
        }
    };
    match sv.node {
        Value::Ident(t, q) => Ok(Value::Ident(to_ascii_upper(&t), q)),
        v => Err(not_a_string_err("string", &v, span)),
    }
}

/// What `to-lower-case` returns for given bound arguments.
pub open spec fn lower_model(s: Seq<crate::args::Slot>, scope: Scope, fb: Span) -> Result<
    ValueRepr,
    (Seq<char>, Span),
> {
    match arg_take_model(s, 0, "string"@, scope, fb) {
        Err(e) => Err(e),
        Ok((v, _)) => match v {
            ValueRepr::Ident(t, q) => Ok(ValueRepr::Ident(lower_seq(t), q)),
            other => Err((not_a_string_msg("string"@, other), fb)),
        },
    }
}

/// Map a string to ASCII lower case, keeping its quoting.
pub fn to_lower_case(args: CallArgs, scope: &Scope, super_selector: &Selector) -> (r: SassResult<
    Value,
>)
    requires
        args.wf(),
        scope.wf(),
    ensures
        args.slots().len() > 1 ==> (r matches Err(e) && e.message@ == arity_msg(
            1,
            args.slots().len() as int,
        ) && e.span == args.span_v()),
        args.slots().len() <= 1 ==> vres(r) == lower_model(args.slots(), *scope, args.span_v()),
{
    let mut args = args;
    match args.max_args(1) {
        Ok(_) => {}
        Err(e) => {
            return Err(e);
        }
    }
    let span = args.span();
    let sv = match get_arg(&mut args, 0, "string", scope, super_selector) {
        Ok(sv) => sv,
        Err(e) => {
            return Err(e);
        }
    };
    match sv.node {
        Value::Ident(t, q) => Ok(Value::Ident(to_ascii_lower(&t), q)),
        v => Err(not_a_string_err("string", &v, span)),
    }
}

/// What `str-length` returns for given bound arguments.
pub open spec fn str_length_model(s: Seq<crate::args::Slot>, scope: Scope, fb: Span) -> Result<
    ValueRepr,
    (Seq<char>, Span),
> {
    match arg_take_model(s, 0, "string"@, scope, fb) {
        Err(e) => Err(e),
        Ok((v, _)) => match v {
            ValueRepr::Ident(t, _) => Ok(
                ValueRepr::Dimension(NumV { num: t.len() as int, den: 1 }, Unit::NoUnit),
            ),
            other => Err((not_a_string_msg("string"@, other), fb)),
        },
    }
}

/// The number of characters in a string.
pub fn str_length(args: CallArgs, scope: &Scope, super_selector: &Selector) -> (r: SassResult<
    Value,
>)
    requires
        args.wf(),
        scope.wf(),
    ensures
        args.slots().len() > 1 ==> (r matches Err(e) && e.message@ == arity_msg(
            1,
            args.slots().len() as int,
        ) && e.span == args.span_v()),
        args.slots().len() <= 1 ==> vres(r) == str_length_model(
            args.slots(),
            *scope,
            args.span_v(),
        ),
{
    let mut args = args;
    match args.max_args(1) {
        Ok(_) => {}
        Err(e) => {
            return Err(e);
        }
    }
    let span = args.span();
    let sv = match get_arg(&mut args, 0, "string", scope, super_selector) {
        Ok(sv) => sv,
        Err(e) => {
            return Err(e);
        }
    };
    match sv.node {
        Value::Ident(t, _) => {
            let n = t.as_str().unicode_len();
            Ok(Value::Dimension(Number::from_u64(n as u64), Unit::NoUnit))
        }
        v => Err(not_a_string_err("string", &v, span)),
    }
}

/// What `quote` returns for given bound arguments.
pub open spec fn quote_model(s: Seq<crate::args::Slot>, scope: Scope, fb: Span) -> Result<
    ValueRepr,
    (Seq<char>, Span),
> {
    match arg_take_model(s, 0, "string"@, scope, fb) {
        Err(e) => Err(e),
        Ok((v, _)) => match v {
            ValueRepr::Ident(t, _) => Ok(ValueRepr::Ident(t, QuoteKind::Quoted)),
            other => Err((not_a_string_msg("string"@, other), fb)),
        },
    }
}

/// Make a string quoted.
pub fn quote(args: CallArgs, scope: &Scope, super_selector: &Selector) -> (r: SassResult<Value>)
    requires
        args.wf(),
        scope.wf(),
    ensures
        args.slots().len() > 1 ==> (r matches Err(e) && e.message@ == arity_msg(
            1,
            args.slots().len() as int,
        ) && e.span == args.span_v()),
        args.slots().len() <= 1 ==> vres(r) == quote_model(args.slots(), *scope, args.span_v()),
{
    let mut args = args;
    match args.max_args(1) {
        Ok(_) => {}
        Err(e) => {
            return Err(e);
        }
    }
    let span = args.span();
    let sv = match get_arg(&mut args, 0, "string", scope, super_selector) {
        Ok(sv) => sv,
        Err(e) => {
            return Err(e);
        }
    };
    match sv.node {
        Value::Ident(t, _) => Ok(Value::Ident(t, QuoteKind::Quoted)),
        v => Err(not_a_string_err("string", &v, span)),
    }
}

/// What `unquote` returns for given bound arguments.
pub open spec fn unquote_model(s: Seq<crate::args::Slot>, scope: Scope, fb: Span) -> Result<
    ValueRepr,
    (Seq<char>, Span),
> {
    match arg_take_model(s, 0, "string"@, scope, fb) {
        Err(e) => Err(e),
        Ok((v, _)) => match v {
            ValueRepr::Ident(t, _) => Ok(ValueRepr::Ident(t, QuoteKind::Unquoted)),
            other => Err((not_a_string_msg("string"@, other), fb)),
        },
    }
}

/// Strip a string of its quotes.
pub fn unquote(args: CallArgs, scope: &Scope, super_selector: &Selector) -> (r: SassResult<Value>)
    requires
        args.wf(),
        scope.wf(),
    ensures
        args.slots().len() > 1 ==> (r matches Err(e) && e.message@ == arity_msg(
            1,
            args.slots().len() as int,
        ) && e.span == args.span_v()),
        args.slots().len() <= 1 ==> vres(r) == unquote_model(args.slots(), *scope, args.span_v()),
{
    let mut args = args;
    match args.max_args(1) {
        Ok(_) => {}
        Err(e) => {
            return Err(e);
        }
    }
    let span = args.span();
    let sv = match get_arg(&mut args, 0, "string", scope, super_selector) {
        Ok(sv) => sv,
        Err(e) => {
            return Err(e);
        }
    };
    match sv.node {
        Value::Ident(t, _) => Ok(Value::Ident(t, QuoteKind::Unquoted)),
        v => Err(not_a_string_err("string", &v, span)),
    }
}

/// The number of bytes one character occupies in the source encoding.
pub open spec fn char_utf8_len(c: char) -> int {
    if (c as u32) < 0x80 {
        1
    } else if (c as u32) < 0x800 {
        2
    } else if (c as u32) < 0x10000 {
        3
    } else {
        4
    }
}

/// The number of bytes a character run occupies.
pub open spec fn bytes_len(s: Seq<char>) -> int
    decreases s.len(),
{
    if s.len() == 0 {
        0
    } else {
        char_utf8_len(s[0]) + bytes_len(s.skip(1))
    }
}

/// The first character position (zero-based) where `needle` occurs in
/// `hay`, scanning left to right.
pub open spec fn find_sub(hay: Seq<char>, needle: Seq<char>) -> Option<int>
    decreases hay.len(),
{
    if needle.len() > hay.len() {
        Option::<int>::None
    } else if hay.take(needle.len() as int) == needle {
        Some(0)
    } else if hay.len() == 0 {
        Option::<int>::None
    } else {
        match find_sub(hay.skip(1), needle) {
            Some(i) => Some(i + 1),
            None => Option::<int>::None,
        }
    }
}

proof fn lemma_find_sub_at(hay: Seq<char>, needle: Seq<char>, i: int)
    requires
        0 <= i,
        i + needle.len() <= hay.len(),
        forall|j: int|
            0 <= j < i ==> #[trigger] hay.subrange(j, j + needle.len() as int) != needle,
        hay.subrange(i, i + needle.len() as int) == needle,
    ensures
        find_sub(hay, needle) == Some(i),
    decreases i,
{
    assert(hay.take(needle.len() as int) =~= hay.subrange(0, needle.len() as int));
    if i == 0 {
        assert(hay.subrange(0, 0 + needle.len() as int) == needle);
        assert(hay.take(needle.len() as int) == needle);
    } else {
        assert(hay.len() > 0);
        assert(hay.subrange(0, 0 + needle.len() as int) != needle);
        assert(hay.take(needle.len() as int) != needle);
        assert forall|j: int|
            0 <= j < i - 1 implies #[trigger] hay.skip(1).subrange(
            j,
            j + needle.len() as int,
        ) != needle by {
            assert(hay.skip(1).subrange(j, j + needle.len() as int) =~= hay.subrange(
                j + 1,
                j + 1 + needle.len() as int,
            ));
        }
        assert(hay.skip(1).subrange(i - 1, i - 1 + needle.len() as int) =~= hay.subrange(
            i,
            i + needle.len() as int,
        ));
        lemma_find_sub_at(hay.skip(1), needle, i - 1);
    }
}

proof fn lemma_find_sub_none(hay: Seq<char>, needle: Seq<char>)
    requires
        forall|j: int|
            0 <= j && j + needle.len() <= hay.len() ==> #[trigger] hay.subrange(
                j,
                j + needle.len() as int,
            ) != needle,
    ensures
        find_sub(hay, needle) is None,
    decreases hay.len(),
{
    if needle.len() <= hay.len() {
        assert(hay.subrange(0, 0 + needle.len() as int) != needle);
        assert(hay.take(needle.len() as int) =~= hay.subrange(0, needle.len() as int));
        if hay.len() == 0 {
            assert(hay.subrange(0, 0 + needle.len() as int) =~= needle);
        }
        if hay.len() > 0 {
            assert forall|j: int|
                0 <= j && j + needle.len() <= hay.skip(1).len() implies #[trigger] hay.skip(
                1,
            ).subrange(j, j + needle.len() as int) != needle by {
                assert(hay.skip(1).subrange(j, j + needle.len() as int) =~= hay.subrange(
                    j + 1,
                    j + 1 + needle.len() as int,
                ));
            }
            lemma_find_sub_none(hay.skip(1), needle);
        }
    }
}

/// Search for `needle` in `hay`, character-wise.
fn find_sub_exec(hay: &Vec<char>, needle: &Vec<char>) -> (r: Option<usize>)
    ensures
        match r {
            Some(i) => find_sub(hay@, needle@) == Some(i as int) && i + needle@.len()
                <= hay@.len(),
            None => find_sub(hay@, needle@) is None,
        },
{
    let hn = hay.len();
    let nn = needle.len();
    if nn > hn {
        proof {
            lemma_find_sub_none(hay@, needle@);
        }
        return None;
    }
    if nn == 0 {
        proof {
            assert(hay@.take(0) =~= needle@);
        }
        return Some(0);
    }
    let mut i: usize = 0;
    while i <= hn - nn
        invariant
            1 <= nn <= hn,
            hn == hay@.len(),
            nn == needle@.len(),
            i <= hn - nn + 1,
            forall|j: int|
                0 <= j < i ==> #[trigger] hay@.subrange(j, j + needle@.len() as int) != needle@,
        decreases hn - nn - i + 1,
    {
        let mut k: usize = 0;
        let mut hit = true;
        while k < nn
            invariant_except_break
                hit,
                k <= nn,
                i + nn <= hn,
                hn == hay@.len(),
                nn == needle@.len(),
                forall|m: int| 0 <= m < k ==> hay@[i + m] == needle@[m],
            ensures
                i + nn <= hn,
                hn == hay@.len(),
                nn == needle@.len(),
                hit ==> forall|m: int| 0 <= m < nn ==> hay@[i + m] == needle@[m],
                !hit ==> hay@.subrange(i as int, i + needle@.len() as int) != needle@,
            decreases nn - k,
        {
            if hay[i + k] != needle[k] {
                hit = false;
                proof {
                    assert(hay@.subrange(i as int, i + needle@.len() as int)[k as int] == hay@[i
                        + k]);
                }
                break;
            }
            k = k + 1;
        }
        if hit {
            proof {
                assert(hay@.subrange(i as int, i + needle@.len() as int) =~= needle@);
                lemma_find_sub_at(hay@, needle@, i as int);
            }
            return Some(i);
        }
        i = i + 1;
    }
    proof {
        assert forall|j: int|
            0 <= j && j + needle@.len() <= hay@.len() implies #[trigger] hay@.subrange(
            j,
            j + needle@.len() as int,
        ) != needle@ by {
            assert(0 <= j < i);
        }
        lemma_find_sub_none(hay@, needle@);
    }
    None
}

/// Appending one character adds exactly its width.
proof fn lemma_bytes_len_push(s: Seq<char>, c: char)
    ensures
        bytes_len(s.push(c)) == bytes_len(s) + char_utf8_len(c),
    decreases s.len(),
{
    assert(s.push(c).len() == s.len() + 1);
    assert(bytes_len(s.push(c)) == char_utf8_len(s.push(c)[0]) + bytes_len(s.push(c).skip(1)));
    if s.len() == 0 {
        assert(s.push(c)[0] == c);
        assert(s.push(c).skip(1) =~= Seq::<char>::empty());
        assert(bytes_len(s.push(c).skip(1)) == 0);
    } else {
        lemma_bytes_len_push(s.skip(1), c);
        assert(s.push(c)[0] == s[0]);
        assert(s.push(c).skip(1) =~= s.skip(1).push(c));
        assert(bytes_len(s) == char_utf8_len(s[0]) + bytes_len(s.skip(1)));
    }
}

/// What `str-index` returns for given bound arguments.
pub open spec fn str_index_model(s: Seq<crate::args::Slot>, scope: Scope, fb: Span) -> Result<
    ValueRepr,
    (Seq<char>, Span),
> {
    match arg_take_model(s, 0, "string"@, scope, fb) {
        Err(e) => Err(e),
        Ok((v1, _)) => match v1 {
            ValueRepr::Ident(hay, _) => {
                let s1 = arg_removed_model(s, 0, "string"@);
                match arg_take_model(s1, 1, "substring"@, scope, fb) {
                    Err(e) => Err(e),
                    Ok((v2, _)) => match v2 {
                        ValueRepr::Ident(needle, _) => match find_sub(hay, needle) {
                            Some(i) => Ok(
                                ValueRepr::Dimension(
                                    NumV { num: bytes_len(hay.take(i)) + 1, den: 1 },
                                    Unit::NoUnit,
                                ),
                            ),
                            None => Ok(ValueRepr::Null),
                        },
                        other => Err((not_a_string_msg("substring"@, other), fb)),
                    },
                }
            },
            other => Err((not_a_string_msg("string"@, other), fb)),
        },
    }
}

/// One more than the byte offset of the first occurrence of a substring
/// (the offset `str::find` reports), or null when it does not occur.
pub fn str_index(args: CallArgs, scope: &Scope, super_selector: &Selector) -> (r: SassResult<
    Value,
>)
    requires
        args.wf(),
        scope.wf(),
    ensures
        args.slots().len() > 2 ==> (r matches Err(e) && e.message@ == arity_msg(
            2,
            args.slots().len() as int,
        ) && e.span == args.span_v()),
        args.slots().len() <= 2 ==> vres(r) == str_index_model(
            args.slots(),
            *scope,
            args.span_v(),
        ),
{
    let mut args = args;
    match args.max_args(2) {
        Ok(_) => {}
        Err(e) => {
            return Err(e);
        }
    }
    let span = args.span();
    let sv1 = match get_arg(&mut args, 0, "string", scope, super_selector) {
        Ok(sv) => sv,
        Err(e) => {
            return Err(e);
        }
    };
    let hay = match sv1.node {
        Value::Ident(t, _) => t,
        v => {
            return Err(not_a_string_err("string", &v, span));
        }
    };
    let sv2 = match get_arg(&mut args, 1, "substring", scope, super_selector) {
        Ok(sv) => sv,
        Err(e) => {
            return Err(e);
        }
    };
    let needle = match sv2.node {
        Value::Ident(t, _) => t,
        v => {
            return Err(not_a_string_err("substring", &v, span));
        }
    };
    let hv = str_chars(hay.as_str());
    let nv = str_chars(needle.as_str());
    let hl = hv.len();
    proof {
        assert(hl == hv@.len());
    }
    match find_sub_exec(&hv, &nv) {
        Some(i) => {
            let mut off: u128 = 0;
            let mut j: usize = 0;
            proof {
                assert(hv@.take(0) =~= Seq::<char>::empty());
            }
            while j < i
                invariant
                    j <= i <= hv@.len(),
                    off as int == bytes_len(hv@.take(j as int)),
                    off <= 4 * j,
                decreases i - j,
            {
                let c = hv[j];
                let w: u128 = if (c as u32) < 0x80 {
                    1
                } else if (c as u32) < 0x800 {
                    2
                } else if (c as u32) < 0x10000 {
                    3
                } else {
                    4
                };
                let ghost pre = hv@.take(j as int);
                off = off + w;
                j = j + 1;
                proof {
                    lemma_bytes_len_push(pre, hv@[j - 1]);
                    assert(hv@.take(j as int) =~= pre.push(hv@[j - 1]));
                }
            }
            Ok(Value::Dimension(Number::from_u128(off + 1), Unit::NoUnit))
        }
        None => Ok(Value::Null),
    }
}

/// The integer a whole-valued fraction stands for.
pub open spec fn nval(v: NumV) -> int {
    v.num / v.den
}

/// The one-based start position a slice request resolves to.
pub open spec fn slice_start(nv: int, len: int) -> int {
    if nv > 0 {
        if nv > len {
            len + 1
        } else {
            nv
        }
    } else if nv == 0 {
        1
    } else if nv < -len {
        1
    } else {
        len + 1 + nv
    }
}

/// The one-based end position a slice request resolves to.
pub open spec fn slice_end(nv: int, len: int) -> int {
    if nv > 0 {
        if nv > len {
            len
        } else {
            nv
        }
    } else if nv == 0 {
        0
    } else if nv < -len {
        0
    } else {
        len + 1 + nv
    }
}

/// The slice itself: empty when the bounds cross or fall past the end.
pub open spec fn slice_result(t: Seq<char>, q: QuoteKind, s: int, e: int) -> ValueRepr {
    if s > e || s > t.len() {
        ValueRepr::Ident(Seq::empty(), q)
    } else {
        ValueRepr::Ident(t.subrange(s - 1, e), q)
    }
}

pub open spec fn not_an_int_msg(v: NumV) -> Seq<char> {
    crate::number::number_css(v) + " is not an int."@
}

pub open spec fn units_msg(param: Seq<char>, v: ValueRepr) -> Seq<char> {
    "$"@ + param + ": Expected "@ + value_css(v) + " to have no units."@
}

pub open spec fn not_a_number_msg(param: Seq<char>, v: ValueRepr) -> Seq<char> {
    "$"@ + param + ": "@ + value_css(v) + " is not a number."@
}

/// What one numeric bound of `str-slice` resolves to: the value when it
/// is a whole unitless number, else the exact diagnostic.
pub open spec fn bound_model(
    v: ValueRepr,
    unit_param: Seq<char>,
    num_param: Seq<char>,
    fb: Span,
) -> Result<int, (Seq<char>, Span)> {
    match v {
        ValueRepr::Dimension(n, Unit::NoUnit) => if n.num % n.den != 0 {
            Err((not_an_int_msg(n), fb))
        } else {
            Ok(nval(n))
        },
        ValueRepr::Dimension(_, _) => Err((units_msg(unit_param, v), fb)),
        other => Err((not_a_number_msg(num_param, other), fb)),
    }
}

/// What `str-slice` returns for given bound arguments: the characters
/// from the start position through the end position, one-based and
/// counted from the end when negative.
pub open spec fn str_slice_model(s: Seq<crate::args::Slot>, scope: Scope, fb: Span) -> Result<
    ValueRepr,
    (Seq<char>, Span),
> {
    match arg_take_model(s, 0, "string"@, scope, fb) {
        Err(e) => Err(e),
        Ok((v0, _)) => match v0 {
            ValueRepr::Ident(t, q) => {
                let s1 = arg_removed_model(s, 0, "string"@);
                match arg_take_model(s1, 1, "start-at"@, scope, fb) {
                    Err(e) => Err(e),
                    Ok((v1, _)) => match bound_model(v1, "start"@, "start-at"@, fb) {
                        Err(e) => Err(e),
                        Ok(sb) => {
                            let s2 = arg_removed_model(s1, 1, "start-at"@);
                            let endr = if has_key(s2, crate::args::CallArgV::Positional(2))
                                || has_key(s2, crate::args::CallArgV::Named("end-at"@)) {
                                arg_take_model(s2, 2, "end-at"@, scope, fb)
                            } else {
                                Ok((ValueRepr::Null, fb))
                            };
                            match endr {
                                Err(e) => Err(e),
                                Ok((v2, _)) => match v2 {
                                    ValueRepr::Null => Ok(
                                        slice_result(
                                            t,
                                            q,
                                            slice_start(sb, t.len() as int),
                                            t.len() as int,
                                        ),
                                    ),
                                    other => match bound_model(other, "end"@, "end-at"@, fb) {
                                        Err(e) => Err(e),
                                        Ok(eb) => Ok(
                                            slice_result(
                                                t,
                                                q,
                                                slice_start(sb, t.len() as int),
                                                slice_end(eb, t.len() as int),
                                            ),
                                        ),
                                    },
                                },
                            }
                        },
                    },
                }
            },
            other => Err((not_a_string_msg("string"@, other), fb)),
        },
    }
}

/// Resolve one numeric slice bound, or build its exact diagnostic.
fn take_bound(v: Value, unit_param: &str, num_param: &str, fb: Span) -> (r: Result<
    Number,
    SassError,
>)
    requires
        v.wf(),
    ensures
        match bound_model(v@, unit_param@, num_param@, fb) {
            Ok(b) => r matches Ok(n) && n.wf() && num_is_int(n@) && nval(n@) == b,
            Err(e) => r matches Err(err) && err.message@ == e.0 && err.span == e.1,
        },
{
    match v {
        Value::Dimension(n, Unit::NoUnit) => {
            if n.is_decimal() {
                let mut m = n.to_css_string();
                m.append(" is not an int.");
                Err(SassError::new(m, fb))
            } else {
                Ok(n)
            }
        }
        Value::Dimension(n, u) => {
            let whole = Value::Dimension(n, u);
            let mut m = String::from_str("$");
            m.append(unit_param);
            m.append(": Expected ");
            let css = match whole.to_css_string(fb) {
                Ok(c) => c,
                Err(e) => e.message,  // unreachable: rendering cannot fail
            };
            m.append(css.as_str());
            m.append(" to have no units.");
            proof {
                assert(m@ =~= units_msg(unit_param@, whole@));
            }
            Err(SassError::new(m, fb))
        }
        other => {
            let mut m = String::from_str("$");
            m.append(num_param);
            m.append(": ");
            let css = match other.to_css_string(fb) {
                Ok(c) => c,
                Err(e) => e.message,  // unreachable: rendering cannot fail
            };
            m.append(css.as_str());
            m.append(" is not a number.");
            proof {
                assert(m@ =~= not_a_number_msg(num_param@, other@));
            }
            Err(SassError::new(m, fb))
        }
    }
}

/// The start bound as a one-based index, or nothing when it lies past
/// the end of the string (the slice is then empty).
fn start_index(n: &Number, len: usize) -> (r: Option<usize>)
    requires
        n.wf(),
        num_is_int(n@),
    ensures
        match r {
            Some(s) => s as int == slice_start(nval(n@), len as int) && 1 <= s <= len,
            None => slice_start(nval(n@), len as int) > len,
        },
{
    proof {
        vstd::arithmetic::div_mod::lemma_fundamental_div_mod(n@.num, n@.den);
    }
    if n.is_positive() {
        proof {
            lemma_nval_sign(n@);
        }
        match n.to_usize() {
            Some(u) => {
                proof {
                    lemma_nval_of(n@, u as int);
                }
                if u > len {
                    None
                } else {
                    Some(u)
                }
            }
            None => {
                proof {
                    lemma_nval_large(n@, len as int);
                }
                None
            }
        }
    } else if n.is_zero() {
        proof {
            lemma_nval_sign(n@);
        }
        if len == 0 {
            None
        } else {
            Some(1)
        }
    } else {
        let na = n.abs();
        proof {
            lemma_nval_sign(n@);
            vstd::arithmetic::div_mod::lemma_fundamental_div_mod(na@.num, na@.den);
        }
        match na.to_usize() {
            Some(u) => {
                proof {
                    lemma_nval_of(na@, u as int);
                    lemma_nval_neg(n@, na@);
                }
                if u > len {
                    if len == 0 {
                        None
                    } else {
                        Some(1)
                    }
                } else {
                    Some(len - u + 1)
                }
            }
            None => {
                proof {
                    lemma_nval_neg(n@, na@);
                    lemma_nval_large(na@, len as int);
                }
                if len == 0 {
                    None
                } else {
                    Some(1)
                }
            }
        }
    }
}

/// The end bound as a one-based index, clamped to the length.
fn end_index(n: &Number, len: usize) -> (r: usize)
    requires
        n.wf(),
        num_is_int(n@),
    ensures
        r as int == slice_end(nval(n@), len as int),
        r <= len,
{
    proof {
        vstd::arithmetic::div_mod::lemma_fundamental_div_mod(n@.num, n@.den);
    }
    if n.is_positive() {
        proof {
            lemma_nval_sign(n@);
        }
        match n.to_usize() {
            Some(u) => {
                proof {
                    lemma_nval_of(n@, u as int);
                }
                if u > len {
                    len
                } else {
                    u
                }
            }
            None => {
                proof {
                    lemma_nval_large(n@, len as int);
                }
                len
            }
        }
    } else if n.is_zero() {
        proof {
            lemma_nval_sign(n@);
        }
        0
    } else {
        let na = n.abs();
        proof {
            lemma_nval_sign(n@);
            vstd::arithmetic::div_mod::lemma_fundamental_div_mod(na@.num, na@.den);
        }
        match na.to_usize() {
            Some(u) => {
                proof {
                    lemma_nval_of(na@, u as int);
                    lemma_nval_neg(n@, na@);
                }
                if u > len {
                    0
                } else {
                    len - u + 1
                }
            }
            None => {
                proof {
                    lemma_nval_neg(n@, na@);
                    lemma_nval_large(na@, len as int);
                }
                0
            }
        }
    }
}

/// A whole number `u * den / den` values to `u`.
proof fn lemma_nval_of(v: NumV, u: int)
    requires
        v.den > 0,
        v.num == u * v.den,
    ensures
        nval(v) == u,
{
    vstd::arithmetic::div_mod::lemma_div_multiples_vanish(u, v.den);
    assert(v.den * u == u * v.den) by (nonlinear_arith);
}

/// The integer value of a whole fraction carries its sign.
proof fn lemma_nval_sign(v: NumV)
    requires
        v.den > 0,
        v.num % v.den == 0,
    ensures
        v.num > 0 ==> nval(v) > 0,
        v.num == 0 ==> nval(v) == 0,
        v.num < 0 ==> nval(v) < 0,
{
    vstd::arithmetic::div_mod::lemma_fundamental_div_mod(v.num, v.den);
    if v.num > 0 {
        vstd::arithmetic::div_mod::lemma_div_pos_is_pos(v.num, v.den);
        if nval(v) == 0 {
            assert(v.num == v.den * 0 + 0);
        }
    }
    if v.num == 0 {
        vstd::arithmetic::div_mod::lemma_div_of0(v.den);
    }
    if v.num < 0 {
        if nval(v) >= 0 {
            vstd::arithmetic::mul::lemma_mul_nonnegative(v.den, nval(v));
        }
    }
}

/// A whole fraction out of `usize` range values past any length below
/// the range.
proof fn lemma_nval_large(v: NumV, len: int)
    requires
        v.den > 0,
        v.num % v.den == 0,
        0 <= len <= usize::MAX as int,
        forall|k: int| 0 <= k <= usize::MAX ==> v.num != #[trigger] (k * v.den),
        v.num > 0,
    ensures
        nval(v) > len,
{
    vstd::arithmetic::div_mod::lemma_fundamental_div_mod(v.num, v.den);
    lemma_nval_sign(v);
    let q = nval(v);
    assert(v.num == q * v.den) by {
        assert(v.num == v.den * q + v.num % v.den);
        assert(v.den * q == q * v.den) by (nonlinear_arith);
    }
    if q <= len {
        assert(0 <= q <= usize::MAX);
    }
}

/// Negation mirrors the integer value of a whole fraction.
proof fn lemma_nval_neg(v: NumV, a: NumV)
    requires
        v.den > 0,
        a.den == v.den,
        a.num == -v.num,
        v.num % v.den == 0,
    ensures
        a.num % a.den == 0,
        nval(a) == -nval(v),
{
    vstd::arithmetic::div_mod::lemma_fundamental_div_mod(v.num, v.den);
    let q = v.num / v.den;
    assert(v.num == q * v.den) by {
        assert(v.den * q == q * v.den) by (nonlinear_arith);
    }
    assert(a.num == (-q) * v.den) by (nonlinear_arith)
        requires
            a.num == -v.num,
            v.num == q * v.den;
    vstd::arithmetic::div_mod::lemma_mod_multiples_basic(-q, v.den);
    vstd::arithmetic::div_mod::lemma_div_multiples_vanish(-q, v.den);
    assert(v.den * -q == (-q) * v.den) by (nonlinear_arith);
}

/// The requested characters of a string, keeping its quoting; positions
/// are one-based, and negative positions count back from the end.
#[verifier::rlimit(40)]
pub fn str_slice(args: CallArgs, scope: &Scope, super_selector: &Selector) -> (r: SassResult<
    Value,
>)
    requires
        args.wf(),
        scope.wf(),
    ensures
        args.slots().len() > 3 ==> (r matches Err(e) && e.message@ == arity_msg(
            3,
            args.slots().len() as int,
        ) && e.span == args.span_v()),
        args.slots().len() <= 3 ==> vres(r) == str_slice_model(
            args.slots(),
            *scope,
            args.span_v(),
        ),
{
    let mut args = args;
    match args.max_args(3) {
        Ok(_) => {}
        Err(e) => {
            return Err(e);
        }
    }
    let span = args.span();
    let sv0 = match get_arg(&mut args, 0, "string", scope, super_selector) {
        Ok(sv) => sv,
        Err(e) => {
            return Err(e);
        }
    };
    let (t, q) = match sv0.node {
        Value::Ident(t, q) => (t, q),
        v => {
            return Err(not_a_string_err("string", &v, span));
        }
    };
    let sv1 = match get_arg(&mut args, 1, "start-at", scope, super_selector) {
        Ok(sv) => sv,
        Err(e) => {
            return Err(e);
        }
    };
    let nstart = match take_bound(sv1.node, "start", "start-at", span) {
        Ok(n) => n,
        Err(e) => {
            return Err(e);
        }
    };
    let sv2 = match get_arg_default(&mut args, 2, "end-at", Value::Null, scope, super_selector) {
        Ok(sv) => sv,
        Err(e) => {
            return Err(e);
        }
    };
    let tc = str_chars(t.as_str());
    let len = tc.len();
    proof {
        assert(len == t@.len());
    }
    let startopt = start_index(&nstart, len);
    let end: usize = match sv2.node {
        Value::Null => len,
        v => {
            let nend = match take_bound(v, "end", "end-at", span) {
                Ok(n) => n,
                Err(e) => {
                    return Err(e);
                }
            };
            end_index(&nend, len)
        }
    };
    match startopt {
        None => Ok(Value::Ident(String::new(), q)),
        Some(start) => {
            if start > end {
                Ok(Value::Ident(String::new(), q))
            } else {
                let piece = t.as_str().substring_char(start - 1, end);
                Ok(Value::Ident(piece.to_owned(), q))
            }
        }
    }
}

pub open spec fn not_an_index_msg(v: NumV) -> Seq<char> {
    "$index: "@ + crate::number::number_css(v) + " is not an int."@
}

/// The zero-based insertion point `str-insert` resolves to.
pub open spec fn insert_at(nv: int, len: int) -> int {
    if nv > 0 {
        if nv > len {
            len
        } else {
            nv - 1
        }
    } else if nv == 0 {
        0
    } else if nv < -len {
        0
    } else {
        len + nv + 1
    }
}

/// What `str-insert` returns for given bound arguments: the insertion
/// string spliced in at the resolved position, the first string's
/// quoting kept.
pub open spec fn str_insert_model(s: Seq<crate::args::Slot>, scope: Scope, fb: Span) -> Result<
    ValueRepr,
    (Seq<char>, Span),
> {
    match arg_take_model(s, 0, "string"@, scope, fb) {
        Err(e) => Err(e),
        Ok((v0, _)) => match v0 {
            ValueRepr::Ident(t, q) => {
                let s1 = arg_removed_model(s, 0, "string"@);
                match arg_take_model(s1, 1, "insert"@, scope, fb) {
                    Err(e) => Err(e),
                    Ok((v1, _)) => match v1 {
                        ValueRepr::Ident(sub, _) => {
                            let s2 = arg_removed_model(s1, 1, "insert"@);
                            match arg_take_model(s2, 2, "index"@, scope, fb) {
                                Err(e) => Err(e),
                                Ok((v2, _)) => match v2 {
                                    ValueRepr::Dimension(n, Unit::NoUnit) => if n.num % n.den
                                        != 0 {
                                        Err((not_an_index_msg(n), fb))
                                    } else if t.len() == 0 {
                                        Ok(ValueRepr::Ident(sub, q))
                                    } else {
                                        let at = insert_at(nval(n), t.len() as int);
                                        Ok(ValueRepr::Ident(t.take(at) + sub + t.skip(at), q))
                                    },
                                    ValueRepr::Dimension(_, _) => Err(
                                        (units_msg("index"@, v2), fb),
                                    ),
                                    other => Err((not_a_number_msg("index"@, other), fb)),
                                },
                            }
                        },
                        other => Err((not_a_string_msg("insert"@, other), fb)),
                    },
                }
            },
            other => Err((not_a_string_msg("string"@, other), fb)),
        },
    }
}

/// The insertion point as a zero-based index, clamped to the string.
fn insert_index(n: &Number, len: usize) -> (r: usize)
    requires
        n.wf(),
        num_is_int(n@),
    ensures
        r as int == insert_at(nval(n@), len as int),
        r <= len,
{
    proof {
        vstd::arithmetic::div_mod::lemma_fundamental_div_mod(n@.num, n@.den);
    }
    if n.is_positive() {
        proof {
            lemma_nval_sign(n@);
        }
        match n.to_usize() {
            Some(u) => {
                proof {
                    lemma_nval_of(n@, u as int);
                }
                if u > len {
                    len
                } else {
                    u - 1
                }
            }
            None => {
                proof {
                    lemma_nval_large(n@, len as int);
                }
                len
            }
        }
    } else if n.is_zero() {
        proof {
            lemma_nval_sign(n@);
        }
        0
    } else {
        let na = n.abs();
        proof {
            lemma_nval_sign(n@);
            vstd::arithmetic::div_mod::lemma_fundamental_div_mod(na@.num, na@.den);
        }
        match na.to_usize() {
            Some(u) => {
                proof {
                    lemma_nval_of(na@, u as int);
                    lemma_nval_neg(n@, na@);
                }
                if u > len {
                    0
                } else {
                    len - u + 1
                }
            }
            None => {
                proof {
                    lemma_nval_neg(n@, na@);
                    lemma_nval_large(na@, len as int);
                }
                0
            }
        }
    }
}

/// Insert a string into another at a one-based position, counted from
/// the end when negative; the first string's quoting is kept.
pub fn str_insert(args: CallArgs, scope: &Scope, super_selector: &Selector) -> (r: SassResult<
    Value,
>)
    requires
        args.wf(),
        scope.wf(),
    ensures
        args.slots().len() > 3 ==> (r matches Err(e) && e.message@ == arity_msg(
            3,
            args.slots().len() as int,
        ) && e.span == args.span_v()),
        args.slots().len() <= 3 ==> vres(r) == str_insert_model(
            args.slots(),
            *scope,
            args.span_v(),
        ),
{
    let mut args = args;
    match args.max_args(3) {
        Ok(_) => {}
        Err(e) => {
            return Err(e);
        }
    }
    let span = args.span();
    let sv0 = match get_arg(&mut args, 0, "string", scope, super_selector) {
        Ok(sv) => sv,
        Err(e) => {
            return Err(e);
        }
    };
    let (t, q) = match sv0.node {
        Value::Ident(t, q) => (t, q),
        v => {
            return Err(not_a_string_err("string", &v, span));
        }
    };
    let sv1 = match get_arg(&mut args, 1, "insert", scope, super_selector) {
        Ok(sv) => sv,
        Err(e) => {
            return Err(e);
        }
    };
    let sub = match sv1.node {
        Value::Ident(s, _) => s,
        v => {
            return Err(not_a_string_err("insert", &v, span));
        }
    };
    let sv2 = match get_arg(&mut args, 2, "index", scope, super_selector) {
        Ok(sv) => sv,
        Err(e) => {
            return Err(e);
        }
    };
    let n = match sv2.node {
        Value::Dimension(n, Unit::NoUnit) => {
            if n.is_decimal() {
                let mut m = String::from_str("$index: ");
                let css = n.to_css_string();
                m.append(css.as_str());
                m.append(" is not an int.");
                proof {
                    assert(m@ =~= not_an_index_msg(n@));
                }
                return Err(SassError::new(m, span));
            }
            n
        }
        v @ Value::Dimension(_, _) => {
            let mut m = String::from_str("$");
            m.append("index");
            m.append(": Expected ");
            let css = match v.to_css_string(span) {
                Ok(c) => c,
                Err(e) => e.message,  // unreachable: rendering cannot fail
            };
            m.append(css.as_str());
            m.append(" to have no units.");
            proof {
                assert(m@ =~= units_msg("index"@, v@));
            }
            return Err(SassError::new(m, span));
        }
        v => {
            let mut m = String::from_str("$");
            m.append("index");
            m.append(": ");
            let css = match v.to_css_string(span) {
                Ok(c) => c,
                Err(e) => e.message,  // unreachable: rendering cannot fail
            };
            m.append(css.as_str());
            m.append(" is not a number.");
            proof {
                assert(m@ =~= not_a_number_msg("index"@, v@));
            }
            return Err(SassError::new(m, span));
        }
    };
    let len = t.as_str().unicode_len();
    if len == 0 {
        return Ok(Value::Ident(sub, q));
    }
    let at = insert_index(&n, len);
    let mut out = t.as_str().substring_char(0, at).to_owned();
    out.append(sub.as_str());
    out.append(t.as_str().substring_char(at, len));
    proof {
        assert(out@ =~= t@.take(at as int) + sub@ + t@.skip(at as int));
    }
    Ok(Value::Ident(out, q))
}

/// Relies on `rand::rng`: a handle to the thread-local generator.
#[verifier::external_body]
fn thread_rng() -> rand::rngs::ThreadRng {
    rand::rng()
}

#[verifier::external_type_specification]
#[verifier::external_body]
pub struct ExThreadRng(rand::rngs::ThreadRng);

pub open spec fn is_alnum(c: char) -> bool {
    ('a' <= c && c <= 'z') || ('A' <= c && c <= 'Z') || ('0' <= c && c <= '9')
}

/// Relies on `rand::distr::Alphanumeric`'s `Distribution<u8>`: every
/// sample is an ASCII letter or digit; which one depends on the
/// generator's state, so nothing more is promised.
#[verifier::external_body]
fn sample_alnum(rng: &mut rand::rngs::ThreadRng) -> (r: u8)
    ensures
        is_alnum(r as char),
{
    rand::distr::Distribution::<u8>::sample(&rand::distr::Alphanumeric, rng)
}

/// A fresh unquoted identifier of seven random letters and digits.
pub fn unique_id(args: CallArgs, scope: &Scope, super_selector: &Selector) -> (r: SassResult<
    Value,
>)
    requires
        args.wf(),
        scope.wf(),
    ensures
        args.slots().len() > 0 ==> (r matches Err(e) && e.message@ == arity_msg(
            0,
            args.slots().len() as int,
        ) && e.span == args.span_v()),
        args.slots().len() == 0 ==> (r matches Ok(v) && (v@ matches ValueRepr::Ident(t, q) && q
            == QuoteKind::Unquoted && t.len() == 7 && (forall|i: int|
            0 <= i < t.len() ==> is_alnum(#[trigger] t[i])))),
{
    let _ = scope;
    let _ = super_selector;
    match args.max_args(0) {
        Ok(_) => {}
        Err(e) => {
            return Err(e);
        }
    }
    let mut rng = thread_rng();
    let mut cv: Vec<char> = Vec::new();
    let mut i: usize = 0;
    while i < 7
        invariant
            i <= 7,
            cv@.len() == i,
            forall|j: int| 0 <= j < cv@.len() ==> is_alnum(#[trigger] cv@[j]),
        decreases 7 - i,
    {
        let b = sample_alnum(&mut rng);
        cv.push(b as char);
        i = i + 1;
    }
    Ok(Value::Ident(chars_to_string(&cv), QuoteKind::Unquoted))
}

/// The common shape of a built-in's outcome: over `max` arguments is the
/// exact arity diagnostic, otherwise the given model's result.
pub open spec fn builtin_result(
    r: SassResult<Value>,
    max: int,
    model: Result<ValueRepr, (Seq<char>, Span)>,
    args: CallArgs,
) -> bool {
    &&& args.slots().len() > max ==> (r matches Err(e) && e.message@ == arity_msg(
        max,
        args.slots().len() as int,
    ) && e.span == args.span_v())
    &&& args.slots().len() <= max ==> vres(r) == model
}

/// What running `unique-id` may return: the arity diagnostic over zero
/// arguments, else a fresh seven-character alphanumeric identifier.
pub open spec fn unique_id_ok(r: SassResult<Value>, args: CallArgs) -> bool {
    &&& args.slots().len() > 0 ==> (r matches Err(e) && e.message@ == arity_msg(
        0,
        args.slots().len() as int,
    ) && e.span == args.span_v())
    &&& args.slots().len() == 0 ==> (r matches Ok(v) && (v@ matches ValueRepr::Ident(t, q) && q
        == QuoteKind::Unquoted && t.len() == 7 && (forall|i: int|
        0 <= i < t.len() ==> is_alnum(#[trigger] t[i]))))
}

/// What the dispatcher owes for each registered name, tried in
/// registration order; an unregistered name yields nothing.
pub open spec fn dispatched(
    name: Seq<char>,
    args: CallArgs,
    scope: Scope,
    r: Option<SassResult<Value>>,
) -> bool {
    let fb = args.span_v();
    if name == "to-upper-case"@ {
        r matches Some(res) && builtin_result(res, 1, upper_model(args.slots(), scope, fb), args)
    } else if name == "to-lower-case"@ {
        r matches Some(res) && builtin_result(res, 1, lower_model(args.slots(), scope, fb), args)
    } else if name == "str-length"@ {
        r matches Some(res) && builtin_result(
            res,
            1,
            str_length_model(args.slots(), scope, fb),
            args,
        )
    } else if name == "quote"@ {
        r matches Some(res) && builtin_result(res, 1, quote_model(args.slots(), scope, fb), args)
    } else if name == "unquote"@ {
        r matches Some(res) && builtin_result(res, 1, unquote_model(args.slots(), scope, fb), args)
    } else if name == "str-index"@ {
        r matches Some(res) && builtin_result(
            res,
            2,
            str_index_model(args.slots(), scope, fb),
            args,
        )
    } else if name == "str-slice"@ {
        r matches Some(res) && builtin_result(
            res,
            3,
            str_slice_model(args.slots(), scope, fb),
            args,
        )
    } else if name == "str-insert"@ {
        r matches Some(res) && builtin_result(
            res,
            3,
            str_insert_model(args.slots(), scope, fb),
            args,
        )
    } else if name == "unique-id"@ {
        r matches Some(res) && unique_id_ok(res, args)
    } else {
        r is None
    }
}

/// Find a built-in by the name it is registered under and run it;
/// nothing for a name that is not a built-in of this module.
pub fn call_builtin(name: &String, args: CallArgs, scope: &Scope, super_selector: &Selector) -> (r:
    Option<SassResult<Value>>)
    requires
        args.wf(),
        scope.wf(),
    ensures
        dispatched(name@, args, *scope, r),
{
    if crate::utils::string_is(name, "to-upper-case") {
        Some(to_upper_case(args, scope, super_selector))
    } else if crate::utils::string_is(name, "to-lower-case") {
        Some(to_lower_case(args, scope, super_selector))
    } else if crate::utils::string_is(name, "str-length") {
        Some(str_length(args, scope, super_selector))
    } else if crate::utils::string_is(name, "quote") {
        Some(quote(args, scope, super_selector))
    } else if crate::utils::string_is(name, "unquote") {
        Some(unquote(args, scope, super_selector))
    } else if crate::utils::string_is(name, "str-index") {
        Some(str_index(args, scope, super_selector))
    } else if crate::utils::string_is(name, "str-slice") {
        Some(str_slice(args, scope, super_selector))
    } else if crate::utils::string_is(name, "str-insert") {
        Some(str_insert(args, scope, super_selector))
    } else if crate::utils::string_is(name, "unique-id") {
        Some(unique_id(args, scope, super_selector))
    } else {
        None
    }
}

} // verus!
