//! The format directive parser: a single left-to-right scan of the template
//! turning literal runs and placeholder bodies into segments, or failing
//! with the position of the first malformed character.

use vstd::prelude::*;
use crate::directive::{
    Align, ArgRef, ArgRefV, Count, CountV, Directive, Notation, RenderError, Segment, SegmentV,
    Specifier, SpecifierV, plain_specifier, segs_view,
};
use crate::text::{push_str_chars, string_from_chars};

verus! {

/// Whether `c` is a decimal digit.
pub open spec fn is_digit(c: char) -> bool {
    48 <= c as u32 && c as u32 <= 57
}

/// The value of the digit `c`.
pub open spec fn digit_val(c: char) -> nat {
    (c as u32 - 48) as nat
}

/// Whether `c` may start an identifier.
pub open spec fn is_ident_start(c: char) -> bool {
    (97 <= c as u32 && c as u32 <= 122) || (65 <= c as u32 && c as u32 <= 90) || c == '_'
}

/// Whether `c` may continue an identifier.
pub open spec fn is_ident_char(c: char) -> bool {
    is_ident_start(c) || is_digit(c)
}

/// Whether `c` is an alignment character.
pub open spec fn is_align_char(c: char) -> bool {
    c == '<' || c == '>' || c == '^'
}

/// The alignment named by `c`.
pub open spec fn align_of(c: char) -> Align {
    if c == '<' {
        Align::Left
    } else if c == '>' {
        Align::Right
    } else {
        Align::Center
    }
}

/// The first position at or after `i` holding no digit.
pub open spec fn scan_digits(s: Seq<char>, i: int) -> int
    decreases s.len() - i,
{
    if i < 0 || i >= s.len() || !is_digit(s[i]) {
        i
    } else {
        scan_digits(s, i + 1)
    }
}

/// The first position at or after `i` holding no identifier character.
pub open spec fn scan_ident(s: Seq<char>, i: int) -> int
    decreases s.len() - i,
{
    if i < 0 || i >= s.len() || !is_ident_char(s[i]) {
        i
    } else {
        scan_ident(s, i + 1)
    }
}

pub proof fn lemma_scan_digits(s: Seq<char>, i: int)
    requires
        0 <= i <= s.len(),
    ensures
        i <= scan_digits(s, i) <= s.len(),
        forall|k: int| i <= k < scan_digits(s, i) ==> is_digit(#[trigger] s[k]),
    decreases s.len() - i,
{
    if i < s.len() && is_digit(s[i]) {
        lemma_scan_digits(s, i + 1);
    }
}

/// The number written by the digits of `s` between `i` and `j`.
pub open spec fn digits_val(s: Seq<char>, i: int, j: int) -> nat
    decreases j - i,
{
    if j <= i {
        0
    } else {
        digits_val(s, i, j - 1) * 10 + digit_val(s[j - 1])
    }
}

pub proof fn lemma_digits_val_mono(s: Seq<char>, i: int, k: int, j: int)
    requires
        i <= k <= j,
    ensures
        digits_val(s, i, k) <= digits_val(s, i, j),
    decreases j - k,
{
    if k < j {
        lemma_digits_val_mono(s, i, k, j - 1);
    }
}

/// The parsed argument reference at the start of a placeholder body:
/// digits, an identifier, or nothing (the implicit binding); fails when a
/// positional index overflows the machine word that holds it.
pub open spec fn parse_argref(s: Seq<char>, i: int) -> Result<(ArgRefV, int), int> {
    if i < s.len() && is_digit(s[i]) {
        let j = scan_digits(s, i);
        let v = digits_val(s, i, j);
        if v > u64::MAX {
            Result::Err(i)
        } else {
            Result::Ok((ArgRefV::Positional(v), j))
        }
    } else if i < s.len() && is_ident_start(s[i]) {
        let j = scan_ident(s, i);
        Result::Ok((ArgRefV::Named(s.subrange(i, j)), j))
    } else {
        Result::Ok((ArgRefV::Implicit, i))
    }
}

/// An optional width: literal digits, `digits$` (positional reference) or
/// `ident$` (named reference); an identifier not followed by `$` is left
/// for the notation character, consuming nothing.
pub open spec fn parse_count_opt(s: Seq<char>, i: int) -> Result<(Option<CountV>, int), int> {
    if i < s.len() && is_digit(s[i]) {
        let j = scan_digits(s, i);
        let v = digits_val(s, i, j);
        if v > u64::MAX {
            Result::Err(i)
        } else if j < s.len() && s[j] == '$' {
            Result::Ok((Option::Some(CountV::Arg(ArgRefV::Positional(v))), j + 1))
        } else {
            Result::Ok((Option::Some(CountV::Literal(v)), j))
        }
    } else if i < s.len() && is_ident_start(s[i]) {
        let j = scan_ident(s, i);
        if j < s.len() && s[j] == '$' {
            Result::Ok((Option::Some(CountV::Arg(ArgRefV::Named(s.subrange(i, j)))), j + 1))
        } else {
            Result::Ok((Option::None, i))
        }
    } else {
        Result::Ok((Option::None, i))
    }
}

/// A required precision, after the `.`: as a width, but something must be
/// there, and a named reference must carry its `$`.
pub open spec fn parse_count_req(s: Seq<char>, i: int) -> Result<(CountV, int), int> {
    if i < s.len() && is_digit(s[i]) {
        let j = scan_digits(s, i);
        let v = digits_val(s, i, j);
        if v > u64::MAX {
            Result::Err(i)
        } else if j < s.len() && s[j] == '$' {
            Result::Ok((CountV::Arg(ArgRefV::Positional(v)), j + 1))
        } else {
            Result::Ok((CountV::Literal(v), j))
        }
    } else if i < s.len() && is_ident_start(s[i]) {
        let j = scan_ident(s, i);
        if j < s.len() && s[j] == '$' {
            Result::Ok((CountV::Arg(ArgRefV::Named(s.subrange(i, j))), j + 1))
        } else {
            Result::Err(i)
        }
    } else {
        Result::Err(i)
    }
}

/// The specifier grammar after the `:`, up to and including the closing
/// `}`: optional fill (any character directly before an alignment
/// character) and alignment, optional `+`, `#` and `0` flags, optional
/// width, optional `.`-led precision, optional notation character.
pub open spec fn parse_specifier(s: Seq<char>, i: int) -> Result<(SpecifierV, int), int> {
    let (fill, align, i1): (char, Align, int) = if i + 1 < s.len() && is_align_char(s[i + 1]) {
        (s[i], align_of(s[i + 1]), i + 2)
    } else if i < s.len() && is_align_char(s[i]) {
        (' ', align_of(s[i]), i + 1)
    } else {
        (' ', Align::Default, i)
    };
    let (sign, i2): (bool, int) = if i1 < s.len() && s[i1] == '+' {
        (true, i1 + 1)
    } else {
        (false, i1)
    };
    let (alternate, i3): (bool, int) = if i2 < s.len() && s[i2] == '#' {
        (true, i2 + 1)
    } else {
        (false, i2)
    };
    let (zero_pad, i4): (bool, int) = if i3 < s.len() && s[i3] == '0' && !(i3 + 1 < s.len() && s[i3
        + 1] == '$') {
        (true, i3 + 1)
    } else {
        (false, i3)
    };
    match parse_count_opt(s, i4) {
        Result::Err(e) => Result::Err(e),
        Result::Ok((width, i5)) => {
            let prec: Result<(Option<CountV>, int), int> = if i5 < s.len() && s[i5] == '.' {
                match parse_count_req(s, i5 + 1) {
                    Result::Err(e) => Result::Err(e),
                    Result::Ok((c, k)) => Result::Ok((Option::Some(c), k)),
                }
            } else {
                Result::Ok((Option::None, i5))
            };
            match prec {
                Result::Err(e) => Result::Err(e),
                Result::Ok((precision, i6)) => {
                    let (notation, i7): (Notation, int) = if i6 < s.len() && s[i6] == '?' {
                        (
                            if alternate {
                                Notation::DebugPretty
                            } else {
                                Notation::DebugCompact
                            },
                            i6 + 1,
                        )
                    } else if i6 < s.len() && s[i6] == 'b' {
                        (Notation::Binary, i6 + 1)
                    } else if i6 < s.len() && s[i6] == 'o' {
                        (Notation::Octal, i6 + 1)
                    } else if i6 < s.len() && s[i6] == 'x' {
                        (Notation::LowerHex, i6 + 1)
                    } else if i6 < s.len() && s[i6] == 'X' {
                        (Notation::UpperHex, i6 + 1)
                    } else {
                        (Notation::Decimal, i6)
                    };
                    if i7 < s.len() && s[i7] == '}' {
                        Result::Ok(
                            (
                                SpecifierV {
                                    fill,
                                    align,
                                    sign,
                                    alternate,
                                    zero_pad,
                                    width,
                                    precision,
                                    notation,
                                },
                                i7 + 1,
                            ),
                        )
                    } else {
                        Result::Err(i7)
                    }
                },
            }
        },
    }
}

/// A whole placeholder body starting right after its `{`, up to and
/// including the closing `}`.
pub open spec fn parse_placeholder(s: Seq<char>, i: int) -> Result<(SegmentV, int), int> {
    match parse_argref(s, i) {
        Result::Err(e) => Result::Err(e),
        Result::Ok((aref, j)) => {
            if j < s.len() && s[j] == ':' {
                match parse_specifier(s, j + 1) {
                    Result::Err(e) => Result::Err(e),
                    Result::Ok((sp, k)) => Result::Ok((SegmentV::Placeholder(aref, sp), k)),
                }
            } else if j < s.len() && s[j] == '}' {
                Result::Ok((SegmentV::Placeholder(aref, plain_specifier()), j + 1))
            } else {
                Result::Err(j)
            }
        },
    }
}

/// The pending literal run as a segment sequence: nothing when it is empty.
pub open spec fn flush(lit: Seq<char>) -> Seq<SegmentV> {
    if lit.len() == 0 {
        Seq::empty()
    } else {
        seq![SegmentV::Literal(lit)]
    }
}

/// The segments of the template from `i` on, with `lit` the literal run
/// already read.  `{{` and `}}` join the literal run as single braces; a
/// lone `}` and a malformed placeholder fail with their position.
pub open spec fn parse_from(s: Seq<char>, i: int, lit: Seq<char>) -> Result<Seq<SegmentV>, int>
    decreases s.len() - i,
{
    if i < 0 || i >= s.len() {
        Result::Ok(flush(lit))
    } else if s[i] == '{' {
        if i + 1 < s.len() && s[i + 1] == '{' {
            parse_from(s, i + 2, lit.push('{'))
        } else {
            match parse_placeholder(s, i + 1) {
                Result::Err(e) => Result::Err(e),
                Result::Ok((seg, j)) => {
                    let next: int = if j < i + 2 {
                        i + 2
                    } else if j > s.len() {
                        s.len() as int
                    } else {
                        j
                    };
                    match parse_from(s, next, Seq::empty()) {
                        Result::Err(e) => Result::Err(e),
                        Result::Ok(rest) => Result::Ok(flush(lit) + seq![seg] + rest),
                    }
                },
            }
        }
    } else if s[i] == '}' {
        if i + 1 < s.len() && s[i + 1] == '}' {
            parse_from(s, i + 2, lit.push('}'))
        } else {
            Result::Err(i)
        }
    } else {
        parse_from(s, i + 1, lit.push(s[i]))
    }
}

/// The parse of a whole template.
pub open spec fn parse_text(s: Seq<char>) -> Result<Seq<SegmentV>, int> {
    parse_from(s, 0, Seq::empty())
}

/// The view of an optional count.
pub open spec fn opt_count_view(c: Option<Count>) -> Option<CountV> {
    match c {
        Option::Some(x) => Option::Some(x@),
        Option::None => Option::None,
    }
}

fn is_digit_exec(c: char) -> (r: bool)
    ensures
        r == is_digit(c),
{
    let x = c as u32;
    48 <= x && x <= 57
}

fn is_ident_start_exec(c: char) -> (r: bool)
    ensures
        r == is_ident_start(c),
{
    let x = c as u32;
    (97 <= x && x <= 122) || (65 <= x && x <= 90) || c == '_'
}

fn is_ident_char_exec(c: char) -> (r: bool)
    ensures
        r == is_ident_char(c),
{
    is_ident_start_exec(c) || is_digit_exec(c)
}

fn is_align_char_exec(c: char) -> (r: bool)
    ensures
        r == is_align_char(c),
{
    c == '<' || c == '>' || c == '^'
}

fn align_of_exec(c: char) -> (r: Align)
    ensures
        r == align_of(c),
{
    if c == '<' {
        Align::Left
    } else if c == '>' {
        Align::Right
    } else {
        Align::Center
    }
}

fn scan_digits_exec(s: &Vec<char>, i: usize) -> (j: usize)
    requires
        i <= s@.len(),
    ensures
        j as int == scan_digits(s@, i as int),
        i <= j <= s@.len(),
{
    let mut j: usize = i;
    loop
        invariant
            i <= j <= s@.len(),
            scan_digits(s@, i as int) == scan_digits(s@, j as int),
        ensures
            j as int == scan_digits(s@, i as int),
            i <= j <= s@.len(),
        decreases s@.len() - j,
    {
        if j < s.len() && is_digit_exec(s[j]) {
            j = j + 1;
        } else {
            assert(scan_digits(s@, j as int) == j as int);
            break ;
        }
    }
    j
}

fn scan_ident_exec(s: &Vec<char>, i: usize) -> (j: usize)
    requires
        i <= s@.len(),
    ensures
        j as int == scan_ident(s@, i as int),
        i <= j <= s@.len(),
{
    let mut j: usize = i;
    loop
        invariant
            i <= j <= s@.len(),
            scan_ident(s@, i as int) == scan_ident(s@, j as int),
        ensures
            j as int == scan_ident(s@, i as int),
            i <= j <= s@.len(),
        decreases s@.len() - j,
    {
        if j < s.len() && is_ident_char_exec(s[j]) {
            j = j + 1;
        } else {
            assert(scan_ident(s@, j as int) == j as int);
            break ;
        }
    }
    j
}

/// The number the digits between `i` and `j` write, or `None` when it does
/// not fit.
fn digits_val_exec(s: &Vec<char>, i: usize, j: usize) -> (r: Option<u64>)
    requires
        i <= j <= s@.len(),
        forall|k: int| i <= k < j ==> is_digit(#[trigger] s@[k]),
    ensures
        match r {
            Option::Some(v) => v as nat == digits_val(s@, i as int, j as int),
            Option::None => digits_val(s@, i as int, j as int) > u64::MAX,
        },
{
    let mut acc: u64 = 0;
    let mut k: usize = i;
    while k < j
        invariant
            i <= k <= j <= s@.len(),
            forall|m: int| i <= m < j ==> is_digit(#[trigger] s@[m]),
            acc as nat == digits_val(s@, i as int, k as int),
        decreases j - k,
    {
        let x = s[k] as u32;
        assert(is_digit(s@[k as int]));
        let d = (x - 48) as u64;
        let wide: u128 = acc as u128 * 10 + d as u128;
        if wide > u64::MAX as u128 {
            proof {
                lemma_digits_val_mono(s@, i as int, k + 1 as int, j as int);
            }
            return Option::None;
        }
        acc = wide as u64;
        k = k + 1;
    }
    Option::Some(acc)
}

/// The characters of `s` between `i` and `j` as an owned string.
fn chars_range_string(s: &Vec<char>, i: usize, j: usize) -> (r: String)
    requires
        i <= j <= s@.len(),
    ensures
        r@ == s@.subrange(i as int, j as int),
{
    let mut tmp: Vec<char> = Vec::new();
    let mut k: usize = i;
    while k < j
        invariant
            i <= k <= j <= s@.len(),
            tmp@ == s@.subrange(i as int, k as int),
        decreases j - k,
    {
        tmp.push(s[k]);
        k = k + 1;
        assert(tmp@ =~= s@.subrange(i as int, k as int));
    }
    string_from_chars(&tmp)
}

fn parse_count_opt_exec(s: &Vec<char>, i: usize) -> (r: Result<(Option<Count>, usize), RenderError>)
    requires
        i <= s@.len(),
    ensures
        match r {
            Result::Ok(p) => parse_count_opt(s@, i as int) matches Result::Ok(q) && opt_count_view(
                p.0,
            ) == q.0 && p.1 as int == q.1 && i <= p.1 <= s@.len(),
            Result::Err(e) => parse_count_opt(s@, i as int) matches Result::Err(off) && e matches
                (RenderError::ParseError { offset }) && offset as int == off,
        },
{
    if i < s.len() && is_digit_exec(s[i]) {
        let j = scan_digits_exec(s, i);
        proof {
            lemma_scan_digits(s@, i as int);
        }
        match digits_val_exec(s, i, j) {
            Option::None => Result::Err(RenderError::ParseError { offset: i }),
            Option::Some(v) => {
                if j < s.len() && s[j] == '$' {
                    Result::Ok((Option::Some(Count::Arg(ArgRef::Positional(v))), j + 1))
                } else {
                    Result::Ok((Option::Some(Count::Literal(v)), j))
                }
            },
        }
    } else if i < s.len() && is_ident_start_exec(s[i]) {
        let j = scan_ident_exec(s, i);
        if j < s.len() && s[j] == '$' {
            let name = chars_range_string(s, i, j);
            Result::Ok((Option::Some(Count::Arg(ArgRef::Named(name))), j + 1))
        } else {
            Result::Ok((Option::None, i))
        }
    } else {
        Result::Ok((Option::None, i))
    }
}

fn parse_count_req_exec(s: &Vec<char>, i: usize) -> (r: Result<(Count, usize), RenderError>)
    requires
        i <= s@.len(),
    ensures
        match r {
            Result::Ok(p) => parse_count_req(s@, i as int) matches Result::Ok(q) && p.0@ == q.0
                && p.1 as int == q.1 && i <= p.1 <= s@.len(),
            Result::Err(e) => parse_count_req(s@, i as int) matches Result::Err(off) && e matches
                (RenderError::ParseError { offset }) && offset as int == off,
        },
{
    if i < s.len() && is_digit_exec(s[i]) {
        let j = scan_digits_exec(s, i);
        proof {
            lemma_scan_digits(s@, i as int);
        }
        match digits_val_exec(s, i, j) {
            Option::None => Result::Err(RenderError::ParseError { offset: i }),
            Option::Some(v) => {
                if j < s.len() && s[j] == '$' {
                    Result::Ok((Count::Arg(ArgRef::Positional(v)), j + 1))
                } else {
                    Result::Ok((Count::Literal(v), j))
                }
            },
        }
    } else if i < s.len() && is_ident_start_exec(s[i]) {
        let j = scan_ident_exec(s, i);
        if j < s.len() && s[j] == '$' {
            let name = chars_range_string(s, i, j);
            Result::Ok((Count::Arg(ArgRef::Named(name)), j + 1))
        } else {
            Result::Err(RenderError::ParseError { offset: i })
        }
    } else {
        Result::Err(RenderError::ParseError { offset: i })
    }
}

#[verifier::rlimit(100)]
fn parse_specifier_exec(s: &Vec<char>, i: usize) -> (r: Result<(Specifier, usize), RenderError>)
    requires
        i <= s@.len(),
    ensures
        match r {
            Result::Ok(p) => parse_specifier(s@, i as int) matches Result::Ok(q) && p.0@ == q.0
                && p.1 as int == q.1 && i < p.1 <= s@.len(),
            Result::Err(e) => parse_specifier(s@, i as int) matches Result::Err(off) && e matches
                (RenderError::ParseError { offset }) && offset as int == off,
        },
{
    let mut fill: char = ' ';
    let mut align: Align = Align::Default;
    let mut i1: usize = i;
    if s.len() - i > 1 && is_align_char_exec(s[i + 1]) {
        fill = s[i];
        align = align_of_exec(s[i + 1]);
        i1 = i + 2;
    } else if i < s.len() && is_align_char_exec(s[i]) {
        align = align_of_exec(s[i]);
        i1 = i + 1;
    }
    let mut sign: bool = false;
    let mut i2: usize = i1;
    if i1 < s.len() && s[i1] == '+' {
        sign = true;
        i2 = i1 + 1;
    }
    let mut alternate: bool = false;
    let mut i3: usize = i2;
    if i2 < s.len() && s[i2] == '#' {
        alternate = true;
        i3 = i2 + 1;
    }
    let mut zero_pad: bool = false;
    let mut i4: usize = i3;
    if i3 < s.len() && s[i3] == '0' && !(s.len() - i3 > 1 && s[i3 + 1] == '$') {
        zero_pad = true;
        i4 = i3 + 1;
    }
    let width_res = parse_count_opt_exec(s, i4);
    match width_res {
        Result::Err(e) => Result::Err(e),
        Result::Ok((width, i5)) => {
            let prec_res: Result<(Option<Count>, usize), RenderError> = if i5 < s.len() && s[i5]
                == '.' {
                match parse_count_req_exec(s, i5 + 1) {
                    Result::Err(e) => Result::Err(e),
                    Result::Ok((c, k)) => Result::Ok((Option::Some(c), k)),
                }
            } else {
                Result::Ok((Option::None, i5))
            };
            match prec_res {
                Result::Err(e) => Result::Err(e),
                Result::Ok((precision, i6)) => {
                    let mut notation: Notation = Notation::Decimal;
                    let mut i7: usize = i6;
                    if i6 < s.len() && s[i6] == '?' {
                        notation = if alternate {
                            Notation::DebugPretty
                        } else {
                            Notation::DebugCompact
                        };
                        i7 = i6 + 1;
                    } else if i6 < s.len() && s[i6] == 'b' {
                        notation = Notation::Binary;
                        i7 = i6 + 1;
                    } else if i6 < s.len() && s[i6] == 'o' {
                        notation = Notation::Octal;
                        i7 = i6 + 1;
                    } else if i6 < s.len() && s[i6] == 'x' {
                        notation = Notation::LowerHex;
                        i7 = i6 + 1;
                    } else if i6 < s.len() && s[i6] == 'X' {
                        notation = Notation::UpperHex;
                        i7 = i6 + 1;
                    }
                    if i7 < s.len() && s[i7] == '}' {
                        let sp = Specifier {
                            fill,
                            align,
                            sign,
                            alternate,
                            zero_pad,
                            width,
                            precision,
                            notation,
                        };
                        assert(parse_specifier(s@, i as int) matches Result::Ok(q) && sp@ =~= q.0);
                        Result::Ok((sp, i7 + 1))
                    } else {
                        Result::Err(RenderError::ParseError { offset: i7 })
                    }
                },
            }
        },
    }
}

fn parse_placeholder_exec(s: &Vec<char>, i: usize) -> (r: Result<(Segment, usize), RenderError>)
    requires
        i <= s@.len(),
    ensures
        match r {
            Result::Ok(p) => parse_placeholder(s@, i as int) matches Result::Ok(q) && p.0@ == q.0
                && p.1 as int == q.1 && i < p.1 <= s@.len(),
            Result::Err(e) => parse_placeholder(s@, i as int) matches Result::Err(off) && e matches
                (RenderError::ParseError { offset }) && offset as int == off,
        },
{
    let mut aref: ArgRef = ArgRef::Implicit;
    let mut j: usize = i;
    if i < s.len() && is_digit_exec(s[i]) {
        let j2 = scan_digits_exec(s, i);
        proof {
            lemma_scan_digits(s@, i as int);
        }
        match digits_val_exec(s, i, j2) {
            Option::None => {
                return Result::Err(RenderError::ParseError { offset: i });
            },
            Option::Some(v) => {
                aref = ArgRef::Positional(v);
                j = j2;
            },
        }
    } else if i < s.len() && is_ident_start_exec(s[i]) {
        let j2 = scan_ident_exec(s, i);
        let name = chars_range_string(s, i, j2);
        aref = ArgRef::Named(name);
        j = j2;
    }
    assert(parse_argref(s@, i as int) matches Result::Ok(q) && aref@ == q.0 && j as int == q.1);
    if j < s.len() && s[j] == ':' {
        match parse_specifier_exec(s, j + 1) {
            Result::Err(e) => Result::Err(e),
            Result::Ok((sp, k)) => Result::Ok((Segment::Placeholder(aref, sp), k)),
        }
    } else if j < s.len() && s[j] == '}' {
        let sp = Specifier::plain();
        Result::Ok((Segment::Placeholder(aref, sp), j + 1))
    } else {
        Result::Err(RenderError::ParseError { offset: j })
    }
}

/// Parses a template into a directive, or fails with the position of the
/// first malformed character.  Succeeds exactly when the template is
/// well-formed under the placeholder grammar.
pub fn parse(template: &str) -> (r: Result<Directive, RenderError>)
    ensures
        match r {
            Result::Ok(d) => parse_text(template@) matches Result::Ok(segs) && d@ == segs,
            Result::Err(e) => parse_text(template@) matches Result::Err(off) && e matches
                (RenderError::ParseError { offset }) && offset as int == off,
        },
{
    let mut cs: Vec<char> = Vec::new();
    push_str_chars(template, &mut cs);
    let ghost s = cs@;
    let mut segs: Vec<Segment> = Vec::new();
    let mut lit: Vec<char> = Vec::new();
    let mut i: usize = 0;
    loop
        invariant
            s == template@,
            cs@ == s,
            i <= s.len(),
            ({
                let tail = parse_from(s, i as int, lit@);
                let done = segs_view(segs@);
                match tail {
                    Result::Ok(rest) => parse_text(s) == Result::<_, int>::Ok(done + rest),
                    Result::Err(e) => parse_text(s) == Result::<Seq<SegmentV>, int>::Err(e),
                }
            }),
        ensures
            i as int == s.len(),
            ({
                let tail = parse_from(s, i as int, lit@);
                let done = segs_view(segs@);
                match tail {
                    Result::Ok(rest) => parse_text(s) == Result::<_, int>::Ok(done + rest),
                    Result::Err(e) => parse_text(s) == Result::<Seq<SegmentV>, int>::Err(e),
                }
            }),
        decreases s.len() - i,
    {
        if i >= cs.len() {
            break ;
        }
        let ghost i0 = i as int;
        let ghost lit0 = lit@;
        let ghost done0 = segs_view(segs@);
        let c = cs[i];
        if c == '{' {
            if i + 1 < cs.len() && cs[i + 1] == '{' {
                lit.push('{');
                i = i + 2;
                assert(parse_from(s, i0, lit0) == parse_from(s, i as int, lit@));
            } else {
                match parse_placeholder_exec(&cs, i + 1) {
                    Result::Err(e) => {
                        return Result::Err(e);
                    },
                    Result::Ok((seg, j)) => {
                        if lit.len() > 0 {
                            let text = string_from_chars(&lit);
                            segs.push(Segment::Literal(text));
                        }
                        lit = Vec::new();
                        proof {
                            assert(lit@ =~= Seq::<char>::empty());
                            assert(segs_view(segs@) =~= done0 + flush(lit0));
                        }
                        segs.push(seg);
                        i = j;
                        proof {
                            assert(segs_view(segs@) =~= done0 + flush(lit0) + seq![seg@]);
                            let q = parse_placeholder(s, i0 + 1)->Ok_0;
                            assert(q =~= (seg@, j as int));
                            assert(parse_from(s, i0, lit0) == (match parse_from(
                                s,
                                j as int,
                                Seq::<char>::empty(),
                            ) {
                                Result::Ok(rest) => Result::<Seq<SegmentV>, int>::Ok(
                                    flush(lit0) + seq![seg@] + rest,
                                ),
                                Result::Err(e) => Result::<Seq<SegmentV>, int>::Err(e),
                            }));
                            let tail2 = parse_from(s, j as int, Seq::<char>::empty());
                            if tail2 is Ok {
                                let rest = tail2->Ok_0;
                                assert(done0 + (flush(lit0) + seq![seg@] + rest) =~= (done0 + flush(
                                    lit0,
                                ) + seq![seg@]) + rest);
                            }
                        }
                    },
                }
            }
        } else if c == '}' {
            if i + 1 < cs.len() && cs[i + 1] == '}' {
                lit.push('}');
                i = i + 2;
                assert(parse_from(s, i0, lit0) == parse_from(s, i as int, lit@));
            } else {
                return Result::Err(RenderError::ParseError { offset: i });
            }
        } else {
            lit.push(c);
            i = i + 1;
            assert(parse_from(s, i0, lit0) == parse_from(s, i as int, lit@));
        }
    }
    let ghost done1 = segs_view(segs@);
    let ghost lit1 = lit@;
    if lit.len() > 0 {
        let text = string_from_chars(&lit);
        segs.push(Segment::Literal(text));
    }
    proof {
        assert(segs_view(segs@) =~= done1 + flush(lit1));
    }
    let d = Directive { segments: segs };
    Result::Ok(d)
}

} // verus!
