//! The value renderer, argument binder and output assembler: a bound value
//! and a resolved specifier become a text fragment; the fragments and the
//! literal runs are concatenated in template order, stopping at the first
//! failure.

use vstd::prelude::*;
use crate::directive::{
    Align, ArgRef, ArgRefV, Count, CountV, Directive, Notation, RenderError, Segment, SegmentV,
    Specifier, SpecifierV,
};
use crate::numeric::{
    dec_text, fixed_digits, int_radix_text, pow10, pow10_u64, push_fixed_digits, push_radix_u64,
    radix_text, round_half_even, round_half_even_u64, udec_text, lemma_pow10_mono, lemma_pow10_18,
};
use crate::parse::{parse, parse_text};
use crate::text::{push_repeat, string_from_chars};
use crate::value::{Value, diag_text, push_diag, wf_elems, wf_fields};

verus! {

/// Whether the notation is one of the radix forms.
pub open spec fn is_radix(n: Notation) -> bool {
    n is Binary || n is Octal || n is LowerHex || n is UpperHex
}

/// The base of a radix notation.
pub open spec fn radix_base(n: Notation) -> nat {
    match n {
        Notation::Binary => 2,
        Notation::Octal => 8,
        _ => 16,
    }
}

/// Whether a radix notation writes its letter digits in upper case.
pub open spec fn radix_upper(n: Notation) -> bool {
    n is UpperHex
}

/// The alternate-form prefix of a radix notation.
pub open spec fn radix_prefix(n: Notation) -> Seq<char> {
    match n {
        Notation::Binary => seq!['0', 'b'],
        Notation::Octal => seq!['0', 'o'],
        _ => seq!['0', 'x'],
    }
}

/// The radix text of the integer `n`: an optional sign (`-` for negative,
/// `+` when forced), the alternate prefix when asked, then the digits.
pub open spec fn radix_sign_text(n: int, base: nat, upper: bool, plus: bool, alt: Seq<char>) -> Seq<
    char,
> {
    let sign: Seq<char> = if n < 0 {
        seq!['-']
    } else if plus {
        seq!['+']
    } else {
        Seq::empty()
    };
    let mag: nat = if n < 0 {
        (-n) as nat
    } else {
        n as nat
    };
    sign + alt + radix_text(mag, base, upper)
}

/// `n` copies of `c`.
pub open spec fn char_rep(c: char, n: nat) -> Seq<char> {
    Seq::new(n, |i: int| c)
}

/// The decimal `(-1)^neg * digits / 10^scale` written with exactly `p`
/// fractional digits: padded with zeros when `p` exceeds the scale, rounded
/// half-to-even when `p` is below it.
pub open spec fn dec_prec_text(neg: bool, digits: nat, scale: nat, p: nat) -> Seq<char> {
    let sign: Seq<char> = if neg { seq!['-'] } else { Seq::empty() };
    if p >= scale {
        if p == 0 {
            sign + udec_text(digits)
        } else {
            sign + udec_text(digits / pow10(scale)) + seq!['.'] + fixed_digits(
                digits % pow10(scale),
                scale,
            ) + char_rep('0', (p - scale) as nat)
        }
    } else {
        let d2 = round_half_even(digits, pow10((scale - p) as nat));
        if p == 0 {
            sign + udec_text(d2)
        } else {
            sign + udec_text(d2 / pow10(p)) + seq!['.'] + fixed_digits(d2 % pow10(p), p)
        }
    }
}

/// The first `p` characters of `s`, or all of `s` when it is shorter.
pub open spec fn truncated(s: Seq<char>, p: Option<nat>) -> Seq<char> {
    match p {
        Option::None => s,
        Option::Some(n) => if n < s.len() {
            s.take(n as int)
        } else {
            s
        },
    }
}

/// Whether the fragment counts as numeric for default alignment and
/// sign-aware zero padding: a radix notation, or the decimal notation bound
/// to a numeric scalar.
pub open spec fn is_numeric_render(v: Value, n: Notation) -> bool {
    is_radix(n) || (n is Decimal && (v is Int || v is Dec))
}

/// The raw text fragment of `v` under the specifier, before any padding:
/// the diagnostic form for the debug notations; the signed digits for a
/// radix notation on an integer scalar, and `UnsupportedNotation` on
/// anything else; otherwise the display form, to which a precision applies
/// (fractional digits of a decimal, leading characters of text, ignored for
/// integers), and `NoDisplayCapability` where the value lacks the display
/// capability.
pub open spec fn render_raw(v: Value, sp: SpecifierV, p: Option<nat>) -> Result<
    Seq<char>,
    RenderError,
> {
    if sp.notation is DebugCompact {
        Result::Ok(diag_text(v, false, Seq::empty()))
    } else if sp.notation is DebugPretty {
        Result::Ok(diag_text(v, true, Seq::empty()))
    } else if is_radix(sp.notation) {
        match v {
            Value::Int(n) => Result::Ok(
                radix_sign_text(
                    n as int,
                    radix_base(sp.notation),
                    radix_upper(sp.notation),
                    sp.sign,
                    if sp.alternate {
                        radix_prefix(sp.notation)
                    } else {
                        Seq::empty()
                    },
                ),
            ),
            _ => Result::Err(RenderError::UnsupportedNotation),
        }
    } else {
        match v {
            Value::Int(n) => Result::Ok(
                (if sp.sign && n >= 0 {
                    seq!['+']
                } else {
                    Seq::<char>::empty()
                }) + int_radix_text(n as int, 10, false),
            ),
            Value::Dec { neg, digits, scale } => Result::Ok(
                (if sp.sign && !neg {
                    seq!['+']
                } else {
                    Seq::<char>::empty()
                }) + (match p {
                    Option::None => dec_text(neg, digits as nat, scale as nat),
                    Option::Some(pn) => dec_prec_text(neg, digits as nat, scale as nat, pn),
                }),
            ),
            Value::Text(s) => Result::Ok(truncated(s@, p)),
            Value::Shown { inner, text } => Result::Ok(truncated(text@, p)),
            _ => Result::Err(RenderError::NoDisplayCapability),
        }
    }
}

/// The alignment actually used: `Default` is right for numeric fragments
/// and left otherwise.
pub open spec fn effective_align(align: Align, numeric: bool) -> Align {
    if align is Default {
        if numeric {
            Align::Right
        } else {
            Align::Left
        }
    } else {
        align
    }
}

/// Pads `raw` to width `w`.  Sign-aware zero padding inserts zeros after a
/// leading sign, never before it, and otherwise the fill goes to the sides
/// the alignment names, a centred remainder rounding its extra fill to the
/// right.
pub open spec fn pad_text(raw: Seq<char>, w: nat, fill: char, align: Align, zero: bool) -> Seq<
    char,
> {
    if raw.len() >= w {
        raw
    } else {
        let padn = (w - raw.len()) as nat;
        if zero {
            if raw.len() > 0 && (raw[0] == '-' || raw[0] == '+') {
                seq![raw[0]] + char_rep('0', padn) + raw.skip(1)
            } else {
                char_rep('0', padn) + raw
            }
        } else {
            match align {
                Align::Left => raw + char_rep(fill, padn),
                Align::Center => char_rep(fill, padn / 2) + raw + char_rep(
                    fill,
                    (padn - padn / 2) as nat,
                ),
                _ => char_rep(fill, padn) + raw,
            }
        }
    }
}

/// The finished fragment of `v` under the specifier with resolved width and
/// precision.
pub open spec fn render_value(v: Value, sp: SpecifierV, w: Option<nat>, p: Option<nat>) -> Result<
    Seq<char>,
    RenderError,
> {
    match render_raw(v, sp, p) {
        Result::Err(e) => Result::Err(e),
        Result::Ok(raw) => Result::Ok(
            match w {
                Option::None => raw,
                Option::Some(wn) => pad_text(
                    raw,
                    wn,
                    sp.fill,
                    effective_align(sp.align, is_numeric_render(v, sp.notation)),
                    sp.zero_pad,
                ),
            },
        ),
    }
}

/// The value under `name` in the named-argument mapping, looked up from
/// position `i` on; the first match wins.
pub open spec fn lookup_named(named: Seq<(String, Value)>, name: Seq<char>, i: int) -> Option<
    Value,
>
    decreases named.len() - i,
{
    if i < 0 || i >= named.len() {
        Option::None
    } else if named[i].0@ == name {
        Option::Some(named[i].1)
    } else {
        lookup_named(named, name, i + 1)
    }
}

/// Resolves an argument reference against the positional arguments, the
/// named mapping and the implicit cursor `next`.  An implicit reference
/// consumes the next unconsumed positional argument and advances the
/// cursor; an explicit position or a name leaves the cursor alone.  Fails
/// with `UnresolvedArgument` exactly when the position is beyond the
/// supplied arguments or the name has no match.
pub open spec fn resolve_ref(
    aref: ArgRefV,
    args: Seq<Value>,
    named: Seq<(String, Value)>,
    next: nat,
) -> Result<(Value, nat), RenderError> {
    match aref {
        ArgRefV::Implicit => if next < args.len() {
            Result::Ok((args[next as int], (next + 1) as nat))
        } else {
            Result::Err(RenderError::UnresolvedArgument)
        },
        ArgRefV::Positional(k) => if k < args.len() {
            Result::Ok((args[k as int], next))
        } else {
            Result::Err(RenderError::UnresolvedArgument)
        },
        ArgRefV::Named(nm) => match lookup_named(named, nm, 0) {
            Option::Some(v) => Result::Ok((v, next)),
            Option::None => Result::Err(RenderError::UnresolvedArgument),
        },
    }
}

/// Resolves a width or precision.  A referenced argument must be a
/// non-negative integer scalar, else the render fails with
/// `UnresolvedArgument`; such a reference never moves the implicit cursor.
pub open spec fn resolve_count(
    c: Option<CountV>,
    args: Seq<Value>,
    named: Seq<(String, Value)>,
) -> Result<Option<nat>, RenderError> {
    match c {
        Option::None => Result::Ok(Option::None),
        Option::Some(CountV::Literal(n)) => Result::Ok(Option::Some(n)),
        Option::Some(CountV::Arg(aref)) => match resolve_ref(aref, args, named, 0) {
            Result::Err(e) => Result::Err(e),
            Result::Ok((v, _)) => match v {
                Value::Int(k) => if k >= 0 {
                    Result::Ok(Option::Some(k as nat))
                } else {
                    Result::Err(RenderError::UnresolvedArgument)
                },
                _ => Result::Err(RenderError::UnresolvedArgument),
            },
        },
    }
}

/// The assembled text of the segments from `i` on, with implicit cursor
/// `next`: literal runs pass through unchanged, each placeholder becomes
/// its fragment, and the first failing segment aborts the whole render.
pub open spec fn render_segments(
    segs: Seq<SegmentV>,
    i: int,
    next: nat,
    args: Seq<Value>,
    named: Seq<(String, Value)>,
) -> Result<Seq<char>, RenderError>
    decreases segs.len() - i,
{
    if i < 0 || i >= segs.len() {
        Result::Ok(Seq::empty())
    } else {
        let frag: Result<(Seq<char>, nat), RenderError> = match segs[i] {
            SegmentV::Literal(t) => Result::Ok((t, next)),
            SegmentV::Placeholder(aref, sp) => match resolve_ref(aref, args, named, next) {
                Result::Err(e) => Result::Err(e),
                Result::Ok((v, next2)) => match resolve_count(sp.width, args, named) {
                    Result::Err(e) => Result::Err(e),
                    Result::Ok(w) => match resolve_count(sp.precision, args, named) {
                        Result::Err(e) => Result::Err(e),
                        Result::Ok(p) => match render_value(v, sp, w, p) {
                            Result::Err(e) => Result::Err(e),
                            Result::Ok(txt) => Result::Ok((txt, next2)),
                        },
                    },
                },
            },
        };
        match frag {
            Result::Err(e) => Result::Err(e),
            Result::Ok((txt, next2)) => match render_segments(segs, i + 1, next2, args, named) {
                Result::Err(e) => Result::Err(e),
                Result::Ok(rest) => Result::Ok(txt + rest),
            },
        }
    }
}

/// What one render call returns: the parse of the template, then the
/// assembled segments, or the first failure of either.
pub open spec fn render_text(
    t: Seq<char>,
    args: Seq<Value>,
    named: Seq<(String, Value)>,
) -> Result<Seq<char>, RenderError> {
    match parse_text(t) {
        Result::Err(off) => Result::Err(RenderError::ParseError { offset: off as usize }),
        Result::Ok(segs) => render_segments(segs, 0, 0, args, named),
    }
}


/// The view of an optional machine-word count.
pub open spec fn opt_nat(p: Option<u64>) -> Option<nat> {
    match p {
        Option::Some(n) => Option::Some(n as nat),
        Option::None => Option::None,
    }
}

/// Appends the characters of `src` from position `from` on.
fn push_chars_from(src: &Vec<char>, from: usize, out: &mut Vec<char>)
    requires
        from <= src@.len(),
    ensures
        final(out)@ == old(out)@ + src@.skip(from as int),
{
    let mut i: usize = from;
    while i < src.len()
        invariant
            from <= i <= src@.len(),
            out@ == old(out)@ + src@.subrange(from as int, i as int),
        decreases src@.len() - i,
    {
        out.push(src[i]);
        i = i + 1;
        assert(out@ =~= old(out)@ + src@.subrange(from as int, i as int));
    }
    assert(src@.subrange(from as int, src@.len() as int) =~= src@.skip(from as int));
}

/// Appends the first `k` characters of `s`.
fn push_str_prefix(s: &str, k: usize, out: &mut Vec<char>)
    requires
        k <= s@.len(),
    ensures
        final(out)@ == old(out)@ + s@.take(k as int),
{
    let mut i: usize = 0;
    while i < k
        invariant
            i <= k <= s@.len(),
            out@ == old(out)@ + s@.subrange(0, i as int),
        decreases k - i,
    {
        let c = s.get_char(i);
        out.push(c);
        i = i + 1;
        assert(out@ =~= old(out)@ + s@.subrange(0, i as int));
    }
    assert(s@.subrange(0, k as int) =~= s@.take(k as int));
}

/// Appends the decimal written with exactly `p` fractional digits.
fn push_dec_prec(neg: bool, digits: u64, scale: u64, p: u64, out: &mut Vec<char>)
    requires
        scale <= 18,
    ensures
        final(out)@ == old(out)@ + dec_prec_text(neg, digits as nat, scale as nat, p as nat),
{
    if neg {
        out.push('-');
    }
    if p >= scale {
        if p == 0 {
            push_radix_u64(digits, 10, false, out);
        } else {
            let pw = pow10_u64(scale);
            push_radix_u64(digits / pw, 10, false, out);
            out.push('.');
            push_fixed_digits(digits % pw, scale, out);
            push_repeat('0', p - scale, out);
        }
    } else {
        let d = pow10_u64(scale - p);
        proof {
            lemma_pow10_mono((scale - p) as nat, 18);
            lemma_pow10_18();
        }
        let d2 = round_half_even_u64(digits, d);
        if p == 0 {
            push_radix_u64(d2, 10, false, out);
        } else {
            let pw = pow10_u64(p);
            push_radix_u64(d2 / pw, 10, false, out);
            out.push('.');
            push_fixed_digits(d2 % pw, p, out);
        }
    }
    assert(out@ =~= old(out)@ + dec_prec_text(neg, digits as nat, scale as nat, p as nat));
}

/// The raw (unpadded) fragment of `v` under the specifier.
fn render_raw_exec(v: &Value, sp: &Specifier, p: Option<u64>) -> (r: Result<Vec<char>, RenderError>)
    requires
        v.wf(),
    ensures
        match render_raw(*v, sp@, opt_nat(p)) {
            Result::Ok(txt) => r matches Result::Ok(f) && f@ == txt,
            Result::Err(e) => r matches Result::Err(e2) && e2 == e,
        },
{
    let mut out: Vec<char> = Vec::new();
    match sp.notation {
        Notation::DebugCompact => {
            let ind: Vec<char> = Vec::new();
            push_diag(v, false, &ind, &mut out);
            Result::Ok(out)
        },
        Notation::DebugPretty => {
            let ind: Vec<char> = Vec::new();
            push_diag(v, true, &ind, &mut out);
            Result::Ok(out)
        },
        Notation::Decimal => {
            match v {
                Value::Int(n) => {
                    if sp.sign && *n >= 0 {
                        out.push('+');
                    }
                    crate::numeric::push_int_radix(*n, 10, false, &mut out);
                    assert(out@ =~= render_raw(*v, sp@, opt_nat(p))->Ok_0);
                    Result::Ok(out)
                },
                Value::Dec { neg, digits, scale } => {
                    if sp.sign && !*neg {
                        out.push('+');
                    }
                    match p {
                        Option::None => {
                            crate::value::push_dec(*neg, *digits, *scale, &mut out);
                        },
                        Option::Some(pn) => {
                            push_dec_prec(*neg, *digits, *scale, pn, &mut out);
                        },
                    }
                    assert(out@ =~= render_raw(*v, sp@, opt_nat(p))->Ok_0);
                    Result::Ok(out)
                },
                Value::Text(s) => {
                    let n = s.as_str().unicode_len();
                    let k: usize = match p {
                        Option::Some(pn) => if pn < n as u64 {
                            pn as usize
                        } else {
                            n
                        },
                        Option::None => n,
                    };
                    push_str_prefix(s.as_str(), k, &mut out);
                    assert(out@ =~= truncated(s@, opt_nat(p)));
                    Result::Ok(out)
                },
                Value::Shown { inner, text } => {
                    let n = text.as_str().unicode_len();
                    let k: usize = match p {
                        Option::Some(pn) => if pn < n as u64 {
                            pn as usize
                        } else {
                            n
                        },
                        Option::None => n,
                    };
                    push_str_prefix(text.as_str(), k, &mut out);
                    assert(out@ =~= truncated(text@, opt_nat(p)));
                    Result::Ok(out)
                },
                _ => Result::Err(RenderError::NoDisplayCapability),
            }
        },
        _ => {
            match v {
                Value::Int(n) => {
                    let (base, upper): (u64, bool) = match sp.notation {
                        Notation::Binary => (2, false),
                        Notation::Octal => (8, false),
                        Notation::LowerHex => (16, false),
                        _ => (16, true),
                    };
                    if *n < 0 {
                        out.push('-');
                    } else if sp.sign {
                        out.push('+');
                    }
                    if sp.alternate {
                        out.push('0');
                        match sp.notation {
                            Notation::Binary => out.push('b'),
                            Notation::Octal => out.push('o'),
                            _ => out.push('x'),
                        }
                    }
                    let mag: u64 = if *n >= 0 {
                        *n as u64
                    } else {
                        ((-(*n + 1)) as u64) + 1
                    };
                    push_radix_u64(mag, base, upper, &mut out);
                    assert(out@ =~= render_raw(*v, sp@, opt_nat(p))->Ok_0);
                    Result::Ok(out)
                },
                _ => Result::Err(RenderError::UnsupportedNotation),
            }
        },
    }
}

fn effective_align_exec(align: Align, numeric: bool) -> (r: Align)
    ensures
        r == effective_align(align, numeric),
{
    match align {
        Align::Default => if numeric {
            Align::Right
        } else {
            Align::Left
        },
        _ => align,
    }
}

fn is_numeric_render_exec(v: &Value, n: Notation) -> (r: bool)
    ensures
        r == is_numeric_render(*v, n),
{
    match n {
        Notation::Binary => true,
        Notation::Octal => true,
        Notation::LowerHex => true,
        Notation::UpperHex => true,
        Notation::Decimal => match v {
            Value::Int(_) => true,
            Value::Dec { .. } => true,
            _ => false,
        },
        _ => false,
    }
}

/// Pads `raw` to width `w`, as `pad_text` says.
fn pad_exec(raw: Vec<char>, w: u64, fill: char, align: Align, zero: bool) -> (r: Vec<char>)
    ensures
        r@ == pad_text(raw@, w as nat, fill, align, zero),
{
    if raw.len() as u64 >= w {
        return raw;
    }
    let padn: u64 = w - raw.len() as u64;
    let mut out: Vec<char> = Vec::new();
    if zero {
        if raw.len() > 0 && (raw[0] == '-' || raw[0] == '+') {
            out.push(raw[0]);
            push_repeat('0', padn, &mut out);
            push_chars_from(&raw, 1, &mut out);
            assert(out@ =~= pad_text(raw@, w as nat, fill, align, zero));
        } else {
            push_repeat('0', padn, &mut out);
            push_chars_from(&raw, 0, &mut out);
            assert(raw@.skip(0) =~= raw@);
            assert(out@ =~= pad_text(raw@, w as nat, fill, align, zero));
        }
    } else {
        match align {
            Align::Left => {
                push_chars_from(&raw, 0, &mut out);
                push_repeat(fill, padn, &mut out);
            },
            Align::Center => {
                push_repeat(fill, padn / 2, &mut out);
                push_chars_from(&raw, 0, &mut out);
                push_repeat(fill, padn - padn / 2, &mut out);
            },
            _ => {
                push_repeat(fill, padn, &mut out);
                push_chars_from(&raw, 0, &mut out);
            },
        }
        assert(raw@.skip(0) =~= raw@);
        assert(out@ =~= pad_text(raw@, w as nat, fill, align, zero));
    }
    out
}

/// The finished fragment of `v`: the raw text padded to the resolved
/// width.
fn render_value_exec(v: &Value, sp: &Specifier, w: Option<u64>, p: Option<u64>) -> (r: Result<
    Vec<char>,
    RenderError,
>)
    requires
        v.wf(),
    ensures
        match render_value(*v, sp@, opt_nat(w), opt_nat(p)) {
            Result::Ok(txt) => r matches Result::Ok(f) && f@ == txt,
            Result::Err(e) => r matches Result::Err(e2) && e2 == e,
        },
{
    match render_raw_exec(v, sp, p) {
        Result::Err(e) => Result::Err(e),
        Result::Ok(raw) => {
            match w {
                Option::None => Result::Ok(raw),
                Option::Some(wn) => {
                    let numeric = is_numeric_render_exec(v, sp.notation);
                    let al = effective_align_exec(sp.align, numeric);
                    Result::Ok(pad_exec(raw, wn, sp.fill, al, sp.zero_pad))
                },
            }
        },
    }
}

/// The position of the first pair under `name`, scanning forward.
fn lookup_named_exec(named: &Vec<(String, Value)>, name: &String) -> (r: Option<usize>)
    ensures
        match lookup_named(named@, name@, 0) {
            Option::Some(v) => r matches Option::Some(k) && k < named@.len()
                && named@[k as int].1 == v,
            Option::None => r is None,
        },
{
    let mut i: usize = 0;
    loop
        invariant
            i <= named@.len(),
            lookup_named(named@, name@, 0) == lookup_named(named@, name@, i as int),
        ensures
            match lookup_named(named@, name@, 0) {
                Option::Some(v) => i < named@.len() && named@[i as int].1 == v,
                Option::None => i as int == named@.len(),
            },
        decreases named@.len() - i,
    {
        if i >= named.len() {
            assert(lookup_named(named@, name@, i as int) is None);
            break ;
        }
        if named[i].0.eq(name) {
            assert(lookup_named(named@, name@, i as int) == Option::Some(named@[i as int].1));
            break ;
        }
        i = i + 1;
    }
    if i < named.len() {
        Option::Some(i)
    } else {
        Option::None
    }
}

/// Resolves one argument reference, handing back the argument and the new
/// implicit cursor.
fn resolve_ref_exec<'a>(
    aref: &ArgRef,
    args: &'a Vec<Value>,
    named: &'a Vec<(String, Value)>,
    next: usize,
) -> (r: Result<(&'a Value, usize), RenderError>)
    requires
        next <= args@.len(),
    ensures
        match resolve_ref(aref@, args@, named@, next as nat) {
            Result::Ok(p) => r matches Result::Ok(q) && *q.0 == p.0 && q.1 as nat == p.1 && q.1
                <= args@.len(),
            Result::Err(e) => r matches Result::Err(e2) && e2 == e,
        },
{
    match aref {
        ArgRef::Implicit => {
            if next < args.len() {
                Result::Ok((&args[next], next + 1))
            } else {
                Result::Err(RenderError::UnresolvedArgument)
            }
        },
        ArgRef::Positional(k) => {
            if *k < args.len() as u64 {
                Result::Ok((&args[*k as usize], next))
            } else {
                Result::Err(RenderError::UnresolvedArgument)
            }
        },
        ArgRef::Named(nm) => {
            match lookup_named_exec(named, nm) {
                Option::Some(idx) => Result::Ok((&named[idx].1, next)),
                Option::None => Result::Err(RenderError::UnresolvedArgument),
            }
        },
    }
}

/// Resolves one width or precision.
fn resolve_count_exec(
    c: &Option<Count>,
    args: &Vec<Value>,
    named: &Vec<(String, Value)>,
) -> (r: Result<Option<u64>, RenderError>)
    ensures
        match resolve_count(crate::parse::opt_count_view(*c), args@, named@) {
            Result::Ok(p) => r matches Result::Ok(q) && opt_nat(q) == p,
            Result::Err(e) => r matches Result::Err(e2) && e2 == e,
        },
{
    match c {
        Option::None => Result::Ok(Option::None),
        Option::Some(Count::Literal(n)) => Result::Ok(Option::Some(*n)),
        Option::Some(Count::Arg(aref)) => {
            match resolve_ref_exec(aref, args, named, 0) {
                Result::Err(e) => Result::Err(e),
                Result::Ok((v, _)) => {
                    match v {
                        Value::Int(k) => {
                            if *k >= 0 {
                                Result::Ok(Option::Some(*k as u64))
                            } else {
                                Result::Err(RenderError::UnresolvedArgument)
                            }
                        },
                        _ => Result::Err(RenderError::UnresolvedArgument),
                    }
                },
            }
        },
    }
}

/// Renders a parsed directive against the supplied arguments: the
/// assembled text, or the first failure.  The directive may be reused; the
/// binding of placeholders to arguments is redone on every call.
pub fn render_directive(
    d: &Directive,
    args: &Vec<Value>,
    named: &Vec<(String, Value)>,
) -> (r: Result<String, RenderError>)
    requires
        wf_elems(args@, 0),
        wf_fields(named@, 0),
    ensures
        match render_segments(d@, 0, 0, args@, named@) {
            Result::Ok(txt) => r matches Result::Ok(out) && out@ == txt,
            Result::Err(e) => r matches Result::Err(e2) && e2 == e,
        },
{
    let mut out: Vec<char> = Vec::new();
    let mut next: usize = 0;
    let mut i: usize = 0;
    let n = d.segments.len();
    loop
        invariant
            wf_elems(args@, 0),
            wf_fields(named@, 0),
            i <= d.segments@.len(),
            next <= args@.len(),
            ({
                let tail = render_segments(d@, i as int, next as nat, args@, named@);
                match tail {
                    Result::Ok(rest) => render_segments(d@, 0, 0, args@, named@) == Result::<
                        Seq<char>,
                        RenderError,
                    >::Ok(out@ + rest),
                    Result::Err(e) => render_segments(d@, 0, 0, args@, named@) == Result::<
                        Seq<char>,
                        RenderError,
                    >::Err(e),
                }
            }),
        ensures
            i as int == d.segments@.len(),
            ({
                let tail = render_segments(d@, i as int, next as nat, args@, named@);
                match tail {
                    Result::Ok(rest) => render_segments(d@, 0, 0, args@, named@) == Result::<
                        Seq<char>,
                        RenderError,
                    >::Ok(out@ + rest),
                    Result::Err(e) => render_segments(d@, 0, 0, args@, named@) == Result::<
                        Seq<char>,
                        RenderError,
                    >::Err(e),
                }
            }),
        decreases d.segments@.len() - i,
    {
        if i >= d.segments.len() {
            break ;
        }
        let ghost i0 = i as int;
        let ghost next0 = next as nat;
        let ghost out0 = out@;
        proof {
            assert(d@[i0] == d.segments@[i0]@);
        }
        match &d.segments[i] {
            Segment::Literal(t) => {
                crate::text::push_str_chars(t.as_str(), &mut out);
                i = i + 1;
                proof {
                    let tail2 = render_segments(d@, i as int, next as nat, args@, named@);
                    if tail2 is Ok {
                        assert(out0 + (t@ + tail2->Ok_0) =~= (out0 + t@) + tail2->Ok_0);
                    }
                }
            },
            Segment::Placeholder(aref, sp) => {
                let resolved = resolve_ref_exec(aref, args, named, next);
                match resolved {
                    Result::Err(e) => {
                        return Result::Err(e);
                    },
                    Result::Ok((v, next2)) => {
                        proof {
                            lemma_wf_elems_all(args@, 0);
                            lemma_wf_fields_all(named@, 0);
                            if aref@ is Named {
                                lemma_lookup_named_wf(named@, aref@->Named_0, 0);
                            }
                            assert(v.wf());
                        }
                        let wres = resolve_count_exec(&sp.width, args, named);
                        match wres {
                            Result::Err(e) => {
                                return Result::Err(e);
                            },
                            Result::Ok(w) => {
                                let pres = resolve_count_exec(&sp.precision, args, named);
                                match pres {
                                    Result::Err(e) => {
                                        return Result::Err(e);
                                    },
                                    Result::Ok(p) => {
                                        match render_value_exec(v, sp, w, p) {
                                            Result::Err(e) => {
                                                return Result::Err(e);
                                            },
                                            Result::Ok(frag) => {
                                                push_chars_from(&frag, 0, &mut out);
                                                next = next2;
                                                i = i + 1;
                                                proof {
                                                    assert(frag@.skip(0) =~= frag@);
                                                    let tail2 = render_segments(
                                                        d@,
                                                        i as int,
                                                        next as nat,
                                                        args@,
                                                        named@,
                                                    );
                                                    if tail2 is Ok {
                                                        assert(out0 + (frag@ + tail2->Ok_0) =~= (
                                                        out0 + frag@) + tail2->Ok_0);
                                                    }
                                                }
                                            },
                                        }
                                    },
                                }
                            },
                        }
                    },
                }
            },
        }
    }
    proof {
        assert(render_segments(d@, i as int, next as nat, args@, named@) == Result::<
            Seq<char>,
            RenderError,
        >::Ok(Seq::empty()));
        assert(out@ + Seq::<char>::empty() =~= out@);
    }
    Result::Ok(string_from_chars(&out))
}

/// Every element from `i` on is well-formed, elementwise.
pub proof fn lemma_wf_elems_all(elems: Seq<Value>, i: int)
    requires
        0 <= i,
        wf_elems(elems, i),
    ensures
        forall|k: int| i <= k < elems.len() ==> (#[trigger] elems[k]).wf(),
    decreases elems.len() - i,
{
    if i < elems.len() {
        lemma_wf_elems_all(elems, i + 1);
    }
}

/// Every named value from `i` on is well-formed, elementwise.
pub proof fn lemma_wf_fields_all(named: Seq<(String, Value)>, i: int)
    requires
        0 <= i,
        wf_fields(named, i),
    ensures
        forall|k: int| i <= k < named.len() ==> (#[trigger] named[k].1).wf(),
    decreases named.len() - i,
{
    if i < named.len() {
        lemma_wf_fields_all(named, i + 1);
    }
}

/// A successful named lookup hands back a well-formed value.
pub proof fn lemma_lookup_named_wf(named: Seq<(String, Value)>, name: Seq<char>, i: int)
    requires
        0 <= i,
        wf_fields(named, i),
    ensures
        match lookup_named(named, name, i) {
            Option::Some(v) => v.wf(),
            Option::None => true,
        },
    decreases named.len() - i,
{
    if i < named.len() {
        lemma_lookup_named_wf(named, name, i + 1);
    }
}

/// Renders a template against positional arguments and a named-argument
/// mapping: a pure function of its inputs, producing the assembled text or
/// exactly one error, with nothing partial ever returned.
pub fn render(template: &str, args: &Vec<Value>, named: &Vec<(String, Value)>) -> (r: Result<
    String,
    RenderError,
>)
    requires
        wf_elems(args@, 0),
        wf_fields(named@, 0),
    ensures
        match render_text(template@, args@, named@) {
            Result::Ok(txt) => r matches Result::Ok(out) && out@ == txt,
            Result::Err(e) => r matches Result::Err(e2) && e2 == e,
        },
{
    match parse(template) {
        Result::Err(e) => Result::Err(e),
        Result::Ok(d) => render_directive(&d, args, named),
    }
}


/// How many placeholders bind implicitly from `i` on: the number of
/// positional arguments the implicit cursor consumes.
pub open spec fn count_implicit(segs: Seq<SegmentV>, i: int) -> nat
    decreases segs.len() - i,
{
    if i < 0 || i >= segs.len() {
        0
    } else {
        (if segs[i] matches SegmentV::Placeholder(ArgRefV::Implicit, _) {
            1nat
        } else {
            0nat
        }) + count_implicit(segs, i + 1)
    }
}

pub proof fn lemma_count_implicit_bound(segs: Seq<SegmentV>, i: int)
    requires
        0 <= i <= segs.len(),
    ensures
        count_implicit(segs, i) <= segs.len() - i,
    decreases segs.len() - i,
{
    if i < segs.len() {
        lemma_count_implicit_bound(segs, i + 1);
    }
}

/// Whether a width or precision refers to the positional argument `k`.
pub open spec fn count_refs_positional(c: Option<CountV>, k: nat) -> bool {
    c matches Option::Some(CountV::Arg(ArgRefV::Positional(j))) && j == k
}

/// Whether one segment refers to the positional argument `k` explicitly,
/// as its value or as its width or precision.
pub open spec fn seg_refs_positional(seg: SegmentV, k: nat) -> bool {
    seg matches SegmentV::Placeholder(aref, sp) && (aref == ArgRefV::Positional(k)
        || count_refs_positional(sp.width, k) || count_refs_positional(sp.precision, k))
}

/// Whether any segment from `i` on refers to positional argument `k`.
pub open spec fn references_positional(segs: Seq<SegmentV>, k: nat, i: int) -> bool
    decreases segs.len() - i,
{
    if i < 0 || i >= segs.len() {
        false
    } else {
        seg_refs_positional(segs[i], k) || references_positional(segs, k, i + 1)
    }
}

/// Whether a width or precision refers to the name.
pub open spec fn count_refs_named(c: Option<CountV>, name: Seq<char>) -> bool {
    c matches Option::Some(CountV::Arg(ArgRefV::Named(nm))) && nm == name
}

/// Whether one segment refers to the name, as its value or as its width or
/// precision.
pub open spec fn seg_refs_named(seg: SegmentV, name: Seq<char>) -> bool {
    seg matches SegmentV::Placeholder(aref, sp) && (aref == ArgRefV::Named(name)
        || count_refs_named(sp.width, name) || count_refs_named(sp.precision, name))
}

/// Whether any segment from `i` on refers to the name.
pub open spec fn references_named(segs: Seq<SegmentV>, name: Seq<char>, i: int) -> bool
    decreases segs.len() - i,
{
    if i < 0 || i >= segs.len() {
        false
    } else {
        seg_refs_named(segs[i], name) || references_named(segs, name, i + 1)
    }
}

fn count_arg_is_positional(c: &Option<Count>, k: u64) -> (r: bool)
    ensures
        r == count_refs_positional(crate::parse::opt_count_view(*c), k as nat),
{
    match c {
        Option::Some(Count::Arg(ArgRef::Positional(j))) => *j == k,
        _ => false,
    }
}

fn count_arg_is_named(c: &Option<Count>, name: &String) -> (r: bool)
    ensures
        r == count_refs_named(crate::parse::opt_count_view(*c), name@),
{
    match c {
        Option::Some(Count::Arg(ArgRef::Named(nm))) => nm.eq(name),
        _ => false,
    }
}

/// Whether rendering the directive consumes the positional argument `k`,
/// through the implicit cursor or an explicit reference.  An argument for
/// which this is false is never read: the unused-argument advisory, which
/// never blocks rendering.
pub fn positional_used(d: &Directive, k: u64) -> (r: bool)
    ensures
        r == ((k as nat) < count_implicit(d@, 0) || references_positional(d@, k as nat, 0)),
{
    let mut implicit: u64 = 0;
    let mut found: bool = false;
    let mut i: usize = 0;
    proof {
        lemma_count_implicit_bound(d@, 0);
    }
    loop
        invariant
            i <= d.segments@.len(),
            count_implicit(d@, 0) <= d@.len(),
            d@.len() == d.segments@.len(),
            implicit as nat + count_implicit(d@, i as int) == count_implicit(d@, 0),
            references_positional(d@, k as nat, 0) == (found || references_positional(
                d@,
                k as nat,
                i as int,
            )),
        ensures
            implicit as nat == count_implicit(d@, 0),
            found == references_positional(d@, k as nat, 0),
        decreases d.segments@.len() - i,
    {
        if i >= d.segments.len() {
            break ;
        }
        proof {
            assert(d@[i as int] == d.segments@[i as int]@);
        }
        match &d.segments[i] {
            Segment::Placeholder(aref, sp) => {
                match aref {
                    ArgRef::Implicit => {
                        implicit = implicit + 1;
                    },
                    ArgRef::Positional(j) => {
                        if *j == k {
                            found = true;
                        }
                    },
                    ArgRef::Named(_) => {},
                }
                if count_arg_is_positional(&sp.width, k) {
                    found = true;
                }
                if count_arg_is_positional(&sp.precision, k) {
                    found = true;
                }
            },
            Segment::Literal(_) => {},
        }
        i = i + 1;
    }
    k < implicit || found
}

/// Whether rendering the directive reads the named argument under `name`:
/// the named half of the unused-argument advisory.
pub fn named_used(d: &Directive, name: &String) -> (r: bool)
    ensures
        r == references_named(d@, name@, 0),
{
    let mut found: bool = false;
    let mut i: usize = 0;
    loop
        invariant
            i <= d.segments@.len(),
            d@.len() == d.segments@.len(),
            references_named(d@, name@, 0) == (found || references_named(d@, name@, i as int)),
        ensures
            found == references_named(d@, name@, 0),
        decreases d.segments@.len() - i,
    {
        if i >= d.segments.len() {
            break ;
        }
        proof {
            assert(d@[i as int] == d.segments@[i as int]@);
        }
        match &d.segments[i] {
            Segment::Placeholder(aref, sp) => {
                match aref {
                    ArgRef::Named(nm) => {
                        if nm.eq(name) {
                            found = true;
                        }
                    },
                    _ => {},
                }
                if count_arg_is_named(&sp.width, name) {
                    found = true;
                }
                if count_arg_is_named(&sp.precision, name) {
                    found = true;
                }
            },
            Segment::Literal(_) => {},
        }
        i = i + 1;
    }
    found
}

} // verus!

