//! The library's general laws, proved once and for all inputs: the
//! diagnostic text of any bracket-clean value is well-nested, and a
//! directive without placeholders renders to the template's literal text
//! with doubled braces collapsed.

use vstd::prelude::*;
use crate::directive::SegmentV;
use crate::numeric::{
    dec_text, digit_char, fixed_digits, int_radix_text, pow10, radix_text, udec_text,
};
use crate::parse::{flush, parse_from, parse_placeholder, parse_text};
use crate::render::{render_segments, render_text};
use crate::value::{Value, diag_elems, diag_fields, diag_text, indent_unit, quoted};

verus! {

/// Whether `c` opens a bracket.
pub open spec fn is_open(c: char) -> bool {
    c == '(' || c == '[' || c == '{'
}

/// Whether `c` closes a bracket.
pub open spec fn is_close(c: char) -> bool {
    c == ')' || c == ']' || c == '}'
}

/// The closer matching an opener.
pub open spec fn close_of(c: char) -> char {
    if c == '(' {
        ')'
    } else if c == '[' {
        ']'
    } else {
        '}'
    }
}

/// Runs the bracket automaton over `s` with the pending closers `st`
/// (innermost last): the stack left afterwards, or `None` on a mismatched
/// or unexpected closer.
pub open spec fn process(s: Seq<char>, st: Seq<char>) -> Option<Seq<char>>
    decreases s.len(),
{
    if s.len() == 0 {
        Option::Some(st)
    } else {
        let c = s[0];
        if is_open(c) {
            process(s.drop_first(), st.push(close_of(c)))
        } else if is_close(c) {
            if st.len() > 0 && st.last() == c {
                process(s.drop_first(), st.drop_last())
            } else {
                Option::None
            }
        } else {
            process(s.drop_first(), st)
        }
    }
}

/// Syntactic well-nesting: every opening bracket is closed by its own
/// matching closer, in order, and nothing closes what was never opened.
pub open spec fn well_nested(s: Seq<char>) -> bool {
    process(s, Seq::empty()) == Option::Some(Seq::<char>::empty())
}

/// No bracket characters anywhere in `s`.
pub open spec fn brackets_clean(s: Seq<char>) -> bool {
    forall|i: int| 0 <= i < s.len() ==> !is_open(#[trigger] s[i]) && !is_close(s[i])
}

/// Bracket-cleanliness of the embedded names and texts of `v`: what the
/// well-nesting law asks of the type and field names an author chooses and
/// of text scalars.  (A text scalar holding a lone bracket, such as
/// `Value::Text` of `(`, is quoted into the diagnostic text unchanged and
/// breaks well-nesting; such values are excluded here.)
pub open spec fn value_clean(v: Value) -> bool
    decreases v, 0int,
{
    match v {
        Value::Int(_) => true,
        Value::Dec { .. } => true,
        Value::Text(s) => brackets_clean(s@),
        Value::Wrapper { name, inner } => brackets_clean(name@) && value_clean(*inner),
        Value::Record { name, fields } => brackets_clean(name@) && fields_clean(fields@, 0),
        Value::Sequence { elems } => elems_clean(elems@, 0),
        Value::Shown { inner, text } => value_clean(*inner),
    }
}

/// Cleanliness of record fields from `i` on: names and values.
pub open spec fn fields_clean(fields: Seq<(String, Value)>, i: int) -> bool
    decreases fields, fields.len() - i,
{
    if i < 0 || i >= fields.len() {
        true
    } else {
        brackets_clean(fields[i].0@) && value_clean(fields[i].1) && fields_clean(fields, i + 1)
    }
}

/// Cleanliness of sequence elements from `i` on.
pub open spec fn elems_clean(elems: Seq<Value>, i: int) -> bool
    decreases elems, elems.len() - i,
{
    if i < 0 || i >= elems.len() {
        true
    } else {
        value_clean(elems[i]) && elems_clean(elems, i + 1)
    }
}

/// Processing a concatenation is processing the parts in turn.
pub proof fn lemma_process_append(a: Seq<char>, b: Seq<char>, st: Seq<char>)
    ensures
        process(a + b, st) == (match process(a, st) {
            Option::Some(st2) => process(b, st2),
            Option::None => Option::None,
        }),
    decreases a.len(),
{
    if a.len() == 0 {
        assert(a + b =~= b);
    } else {
        assert((a + b).drop_first() =~= a.drop_first() + b);
        assert((a + b)[0] == a[0]);
        let c = a[0];
        if is_open(c) {
            lemma_process_append(a.drop_first(), b, st.push(close_of(c)));
        } else if is_close(c) {
            if st.len() > 0 && st.last() == c {
                lemma_process_append(a.drop_first(), b, st.drop_last());
            }
        } else {
            lemma_process_append(a.drop_first(), b, st);
        }
    }
}

/// A bracket-free text leaves any stack unchanged.
pub proof fn lemma_process_clean(s: Seq<char>, st: Seq<char>)
    requires
        brackets_clean(s),
    ensures
        process(s, st) == Option::Some(st),
    decreases s.len(),
{
    if s.len() > 0 {
        assert(!is_open(s[0]) && !is_close(s[0]));
        assert(brackets_clean(s.drop_first())) by {
            assert forall|i: int| 0 <= i < s.drop_first().len() implies !is_open(
                #[trigger] s.drop_first()[i],
            ) && !is_close(s.drop_first()[i]) by {
                assert(s.drop_first()[i] == s[i + 1]);
            }
        }
        lemma_process_clean(s.drop_first(), st);
    }
}

/// Digit characters are never brackets.
pub proof fn lemma_digit_char_clean(d: nat, upper: bool)
    ensures
        !is_open(digit_char(d, upper)),
        !is_close(digit_char(d, upper)),
{
}

/// Radix digit runs are bracket-free.
pub proof fn lemma_radix_text_clean(n: nat, base: nat, upper: bool)
    requires
        base >= 2,
    ensures
        brackets_clean(radix_text(n, base, upper)),
    decreases n,
{
    if n < base {
        lemma_digit_char_clean(n, upper);
    } else {
        vstd::arithmetic::div_mod::lemma_div_decreases(n as int, base as int);
        lemma_radix_text_clean(n / base, base, upper);
        lemma_digit_char_clean(n % base, upper);
        let s = radix_text(n / base, base, upper).push(digit_char(n % base, upper));
        assert forall|i: int| 0 <= i < s.len() implies !is_open(#[trigger] s[i]) && !is_close(
            s[i],
        ) by {
            if i < s.len() - 1 {
                assert(s[i] == radix_text(n / base, base, upper)[i]);
            }
        }
    }
}

/// Fixed-width digit runs are bracket-free.
pub proof fn lemma_fixed_digits_clean(n: nat, k: nat)
    ensures
        brackets_clean(fixed_digits(n, k)),
    decreases k,
{
    if k > 0 {
        lemma_fixed_digits_clean(n / 10, (k - 1) as nat);
        lemma_digit_char_clean(n % 10, false);
        let s = fixed_digits(n / 10, (k - 1) as nat) + seq![digit_char(n % 10, false)];
        assert forall|i: int| 0 <= i < s.len() implies !is_open(#[trigger] s[i]) && !is_close(
            s[i],
        ) by {
            if i < s.len() - 1 {
                assert(s[i] == fixed_digits(n / 10, (k - 1) as nat)[i]);
            }
        }
    }
}

/// Concatenating clean texts stays clean.
pub proof fn lemma_clean_append(a: Seq<char>, b: Seq<char>)
    requires
        brackets_clean(a),
        brackets_clean(b),
    ensures
        brackets_clean(a + b),
{
    assert forall|i: int| 0 <= i < (a + b).len() implies !is_open(#[trigger] (a + b)[i])
        && !is_close((a + b)[i]) by {
        if i < a.len() {
            assert((a + b)[i] == a[i]);
        } else {
            assert((a + b)[i] == b[i - a.len()]);
        }
    }
}

/// The signed decimal and fixed-point texts are bracket-free.
pub proof fn lemma_int_text_clean(n: int, base: nat, upper: bool)
    requires
        base >= 2,
    ensures
        brackets_clean(int_radix_text(n, base, upper)),
{
    if n < 0 {
        lemma_radix_text_clean((-n) as nat, base, upper);
        lemma_clean_append(seq!['-'], radix_text((-n) as nat, base, upper));
    } else {
        lemma_radix_text_clean(n as nat, base, upper);
    }
}

pub proof fn lemma_dec_text_clean(neg: bool, digits: nat, scale: nat)
    ensures
        brackets_clean(dec_text(neg, digits, scale)),
{
    let sign: Seq<char> = if neg { seq!['-'] } else { Seq::empty() };
    assert(brackets_clean(sign));
    if scale == 0 {
        lemma_radix_text_clean(digits, 10, false);
        lemma_clean_append(sign, udec_text(digits));
    } else {
        lemma_radix_text_clean(digits / pow10(scale), 10, false);
        lemma_fixed_digits_clean(digits % pow10(scale), scale);
        lemma_clean_append(sign, udec_text(digits / pow10(scale)));
        lemma_clean_append(sign + udec_text(digits / pow10(scale)), seq!['.']);
        lemma_clean_append(
            sign + udec_text(digits / pow10(scale)) + seq!['.'],
            fixed_digits(digits % pow10(scale), scale),
        );
    }
}


/// A clean prefix passes the stack through.
pub proof fn lemma_clean_prefix(a: Seq<char>, b: Seq<char>, st: Seq<char>)
    requires
        brackets_clean(a),
    ensures
        process(a + b, st) == process(b, st),
{
    lemma_process_append(a, b, st);
    lemma_process_clean(a, st);
}

/// An opening bracket pushes its closer.
pub proof fn lemma_process_open(c: char, rest: Seq<char>, st: Seq<char>)
    requires
        is_open(c),
    ensures
        process(seq![c] + rest, st) == process(rest, st.push(close_of(c))),
{
    reveal_with_fuel(process, 2);
    lemma_process_append(seq![c], rest, st);
    assert(seq![c].drop_first() =~= Seq::<char>::empty());
}

/// The expected closer pops the stack.
pub proof fn lemma_process_close(c: char, rest: Seq<char>, st: Seq<char>)
    requires
        is_close(c),
        st.len() > 0,
        st.last() == c,
    ensures
        process(seq![c] + rest, st) == process(rest, st.drop_last()),
{
    reveal_with_fuel(process, 2);
    lemma_process_append(seq![c], rest, st);
    assert(seq![c].drop_first() =~= Seq::<char>::empty());
}

/// The diagnostic text of a clean value leaves any stack unchanged: the
/// heart of the well-nesting law.
pub proof fn lemma_diag_process(v: Value, pretty: bool, ind: Seq<char>, st: Seq<char>)
    requires
        value_clean(v),
        brackets_clean(ind),
    ensures
        process(diag_text(v, pretty, ind), st) == Option::Some(st),
    decreases v, 0int,
{
    let whole = diag_text(v, pretty, ind);
    match v {
        Value::Int(n) => {
            lemma_int_text_clean(n as int, 10, false);
            lemma_process_clean(whole, st);
        },
        Value::Dec { neg, digits, scale } => {
            lemma_dec_text_clean(neg, digits as nat, scale as nat);
            lemma_process_clean(whole, st);
        },
        Value::Text(s) => {
            lemma_clean_append(seq!['"'], s@);
            lemma_clean_append(seq!['"'] + s@, seq!['"']);
            assert(quoted(s@) == seq!['"'] + s@ + seq!['"']);
            lemma_process_clean(whole, st);
        },
        Value::Wrapper { name, inner } => {
            let d = diag_text(*inner, pretty, ind);
            assert(whole =~= name@ + (seq!['('] + (d + seq![')'])));
            lemma_clean_prefix(name@, seq!['('] + (d + seq![')']), st);
            lemma_process_open('(', d + seq![')'], st);
            let st1 = st.push(')');
            lemma_process_append(d, seq![')'], st1);
            lemma_diag_process(*inner, pretty, ind, st1);
            assert(seq![')'] =~= seq![')'] + Seq::<char>::empty());
            lemma_process_close(')', Seq::empty(), st1);
            assert(st1.drop_last() =~= st);
        },
        Value::Record { name, fields } => {
            if fields@.len() == 0 {
                lemma_process_clean(whole, st);
            } else {
                let st1 = st.push('}');
                if pretty {
                    let ff = diag_fields(fields@, 0, true, ind);
                    assert(whole =~= name@ + (seq![' '] + (seq!['{'] + (seq!['\n'] + (ff + (ind
                        + seq!['}']))))));
                    let z0 = seq![' '] + (seq!['{'] + (seq!['\n'] + (ff + (ind + seq!['}']))));
                    let z1 = seq!['{'] + (seq!['\n'] + (ff + (ind + seq!['}'])));
                    let z2 = seq!['\n'] + (ff + (ind + seq!['}']));
                    let z3 = ff + (ind + seq!['}']);
                    lemma_clean_prefix(name@, z0, st);
                    lemma_clean_prefix(seq![' '], z1, st);
                    lemma_process_open('{', z2, st);
                    lemma_clean_prefix(seq!['\n'], z3, st1);
                    lemma_process_append(ff, ind + seq!['}'], st1);
                    lemma_diag_fields_process(fields@, 0, ind, st1);
                    lemma_clean_prefix(ind, seq!['}'], st1);
                    assert(seq!['}'] =~= seq!['}'] + Seq::<char>::empty());
                    lemma_process_close('}', Seq::empty(), st1);
                    assert(st1.drop_last() =~= st);
                } else {
                    let ff = diag_fields(fields@, 0, false, ind);
                    assert(whole =~= name@ + (seq![' '] + (seq!['{'] + (seq![' '] + (ff + (seq![
                        ' ',
                    ] + seq!['}']))))));
                    let z0 = seq![' '] + (seq!['{'] + (seq![' '] + (ff + (seq![' '] + seq!['}']))));
                    let z1 = seq!['{'] + (seq![' '] + (ff + (seq![' '] + seq!['}'])));
                    let z2 = seq![' '] + (ff + (seq![' '] + seq!['}']));
                    let z3 = ff + (seq![' '] + seq!['}']);
                    lemma_clean_prefix(name@, z0, st);
                    lemma_clean_prefix(seq![' '], z1, st);
                    lemma_process_open('{', z2, st);
                    lemma_clean_prefix(seq![' '], z3, st1);
                    lemma_process_append(ff, seq![' '] + seq!['}'], st1);
                    lemma_compact_fields_process(fields@, 0, ind, st1);
                    lemma_clean_prefix(seq![' '], seq!['}'], st1);
                    assert(seq!['}'] =~= seq!['}'] + Seq::<char>::empty());
                    lemma_process_close('}', Seq::empty(), st1);
                    assert(st1.drop_last() =~= st);
                }
            }
        },
        Value::Sequence { elems } => {
            if elems@.len() == 0 {
                assert(whole =~= seq!['['] + (seq![']'] + Seq::<char>::empty()));
                lemma_process_open('[', seq![']'] + Seq::<char>::empty(), st);
                let st1 = st.push(']');
                lemma_process_close(']', Seq::empty(), st1);
                assert(st1.drop_last() =~= st);
            } else {
                let st1 = st.push(']');
                if pretty {
                    let ee = diag_elems(elems@, 0, true, ind);
                    assert(whole =~= seq!['['] + (seq!['\n'] + (ee + (ind + seq![']']))));
                    let z2 = seq!['\n'] + (ee + (ind + seq![']']));
                    let z3 = ee + (ind + seq![']']);
                    lemma_process_open('[', z2, st);
                    lemma_clean_prefix(seq!['\n'], z3, st1);
                    lemma_process_append(ee, ind + seq![']'], st1);
                    lemma_diag_elems_process(elems@, 0, ind, st1);
                    lemma_clean_prefix(ind, seq![']'], st1);
                    assert(seq![']'] =~= seq![']'] + Seq::<char>::empty());
                    lemma_process_close(']', Seq::empty(), st1);
                    assert(st1.drop_last() =~= st);
                } else {
                    let ee = diag_elems(elems@, 0, false, ind);
                    assert(whole =~= seq!['['] + (ee + seq![']']));
                    lemma_process_open('[', ee + seq![']'], st);
                    lemma_process_append(ee, seq![']'], st1);
                    lemma_compact_elems_process(elems@, 0, ind, st1);
                    assert(seq![']'] =~= seq![']'] + Seq::<char>::empty());
                    lemma_process_close(']', Seq::empty(), st1);
                    assert(st1.drop_last() =~= st);
                }
            }
        },
        Value::Shown { inner, text } => {
            lemma_diag_process(*inner, pretty, ind, st);
        },
    }
}

/// The pretty field lines of a record leave any stack unchanged.
pub proof fn lemma_diag_fields_process(
    fields: Seq<(String, Value)>,
    i: int,
    ind: Seq<char>,
    st: Seq<char>,
)
    requires
        fields_clean(fields, i),
        brackets_clean(ind),
    ensures
        process(diag_fields(fields, i, true, ind), st) == Option::Some(st),
    decreases fields, fields.len() - i,
{
    if 0 <= i < fields.len() {
        let ind2 = ind + indent_unit();
        lemma_clean_append(ind, indent_unit());
        let d = diag_text(fields[i].1, true, ind2);
        let rest = diag_fields(fields, i + 1, true, ind);
        let head = ind2 + fields[i].0@ + seq![':', ' '] + d + seq![',', '\n'];
        assert(diag_fields(fields, i, true, ind) =~= ind2 + (fields[i].0@ + (seq![':', ' '] + (d
            + (seq![',', '\n'] + rest)))));
        lemma_clean_prefix(ind2, fields[i].0@ + (seq![':', ' '] + (d + (seq![',', '\n'] + rest))), st);
        lemma_clean_prefix(fields[i].0@, seq![':', ' '] + (d + (seq![',', '\n'] + rest)), st);
        lemma_clean_prefix(seq![':', ' '], d + (seq![',', '\n'] + rest), st);
        lemma_process_append(d, seq![',', '\n'] + rest, st);
        lemma_diag_process(fields[i].1, true, ind2, st);
        lemma_clean_prefix(seq![',', '\n'], rest, st);
        lemma_diag_fields_process(fields, i + 1, ind, st);
    }
}

/// The compact field runs of a record leave any stack unchanged.
pub proof fn lemma_compact_fields_process(
    fields: Seq<(String, Value)>,
    i: int,
    ind: Seq<char>,
    st: Seq<char>,
)
    requires
        fields_clean(fields, i),
        brackets_clean(ind),
    ensures
        process(diag_fields(fields, i, false, ind), st) == Option::Some(st),
    decreases fields, fields.len() - i,
{
    if 0 <= i < fields.len() {
        let sep: Seq<char> = if i == 0 {
            Seq::<char>::empty()
        } else {
            seq![',', ' ']
        };
        let d = diag_text(fields[i].1, false, ind);
        let rest = diag_fields(fields, i + 1, false, ind);
        assert(diag_fields(fields, i, false, ind) =~= sep + (fields[i].0@ + (seq![':', ' '] + (d
            + rest))));
        assert(brackets_clean(sep));
        lemma_clean_prefix(sep, fields[i].0@ + (seq![':', ' '] + (d + rest)), st);
        lemma_clean_prefix(fields[i].0@, seq![':', ' '] + (d + rest), st);
        lemma_clean_prefix(seq![':', ' '], d + rest, st);
        lemma_process_append(d, rest, st);
        lemma_diag_process(fields[i].1, false, ind, st);
        lemma_compact_fields_process(fields, i + 1, ind, st);
    }
}

/// The pretty element lines of a sequence leave any stack unchanged.
pub proof fn lemma_diag_elems_process(elems: Seq<Value>, i: int, ind: Seq<char>, st: Seq<char>)
    requires
        elems_clean(elems, i),
        brackets_clean(ind),
    ensures
        process(diag_elems(elems, i, true, ind), st) == Option::Some(st),
    decreases elems, elems.len() - i,
{
    if 0 <= i < elems.len() {
        let ind2 = ind + indent_unit();
        lemma_clean_append(ind, indent_unit());
        let d = diag_text(elems[i], true, ind2);
        let rest = diag_elems(elems, i + 1, true, ind);
        assert(diag_elems(elems, i, true, ind) =~= ind2 + (d + (seq![',', '\n'] + rest)));
        lemma_clean_prefix(ind2, d + (seq![',', '\n'] + rest), st);
        lemma_process_append(d, seq![',', '\n'] + rest, st);
        lemma_diag_process(elems[i], true, ind2, st);
        lemma_clean_prefix(seq![',', '\n'], rest, st);
        lemma_diag_elems_process(elems, i + 1, ind, st);
    }
}

/// The compact element runs of a sequence leave any stack unchanged.
pub proof fn lemma_compact_elems_process(elems: Seq<Value>, i: int, ind: Seq<char>, st: Seq<char>)
    requires
        elems_clean(elems, i),
        brackets_clean(ind),
    ensures
        process(diag_elems(elems, i, false, ind), st) == Option::Some(st),
    decreases elems, elems.len() - i,
{
    if 0 <= i < elems.len() {
        let sep: Seq<char> = if i == 0 {
            Seq::<char>::empty()
        } else {
            seq![',', ' ']
        };
        let d = diag_text(elems[i], false, ind);
        let rest = diag_elems(elems, i + 1, false, ind);
        assert(diag_elems(elems, i, false, ind) =~= sep + (d + rest));
        assert(brackets_clean(sep));
        lemma_clean_prefix(sep, d + rest, st);
        lemma_process_append(d, rest, st);
        lemma_diag_process(elems[i], false, ind, st);
        lemma_compact_elems_process(elems, i + 1, ind, st);
    }
}

/// For every acyclic value whose embedded names and texts hold no bracket
/// characters, the diagnostic text is syntactically well-nested, in both
/// the compact and the pretty form.  The text is also stable across
/// repeated calls: `diag_text` is a function of the value alone, and the
/// executable renderers are proved equal to it.
pub proof fn lemma_diagnostic_well_nested(v: Value, pretty: bool)
    requires
        value_clean(v),
    ensures
        well_nested(diag_text(v, pretty, Seq::empty())),
{
    lemma_diag_process(v, pretty, Seq::empty(), Seq::empty());
}

/// Whether every segment is literal text: the directive has no
/// placeholders.
pub open spec fn all_literal(segs: Seq<SegmentV>) -> bool {
    forall|i: int| 0 <= i < segs.len() ==> (#[trigger] segs[i]) is Literal
}

/// The literal texts of the segments from `i` on, concatenated.
pub open spec fn concat_literals(segs: Seq<SegmentV>, i: int) -> Seq<char>
    decreases segs.len() - i,
{
    if i < 0 || i >= segs.len() {
        Seq::empty()
    } else {
        (match segs[i] {
            SegmentV::Literal(t) => t,
            _ => Seq::empty(),
        }) + concat_literals(segs, i + 1)
    }
}

/// The template text from `i` on with each doubled brace collapsed to a
/// single one; meaningful for templates without placeholders.
pub open spec fn unescaped(s: Seq<char>, i: int) -> Seq<char>
    decreases s.len() - i,
{
    if i < 0 || i >= s.len() {
        Seq::empty()
    } else if s[i] == '{' && i + 1 < s.len() && s[i + 1] == '{' {
        seq!['{'] + unescaped(s, i + 2)
    } else if s[i] == '}' && i + 1 < s.len() && s[i + 1] == '}' {
        seq!['}'] + unescaped(s, i + 2)
    } else {
        seq![s[i]] + unescaped(s, i + 1)
    }
}

/// Rendering literal segments concatenates their texts, whatever the
/// arguments and the cursor.
pub proof fn lemma_render_literals(
    segs: Seq<SegmentV>,
    i: int,
    next: nat,
    args: Seq<Value>,
    named: Seq<(String, Value)>,
)
    requires
        all_literal(segs),
    ensures
        render_segments(segs, i, next, args, named) == Result::<
            Seq<char>,
            crate::directive::RenderError,
        >::Ok(concat_literals(segs, i)),
    decreases segs.len() - i,
{
    if 0 <= i < segs.len() {
        assert(segs[i] is Literal);
        lemma_render_literals(segs, i + 1, next, args, named);
    }
}

/// A parse whose segments are all literal concatenates to the pending
/// literal run followed by the unescaped rest of the template.
pub proof fn lemma_parse_literals_concat(s: Seq<char>, i: int, lit: Seq<char>)
    requires
        0 <= i <= s.len(),
        parse_from(s, i, lit) matches Result::Ok(segs0) && all_literal(segs0),
    ensures
        concat_literals(parse_from(s, i, lit)->Ok_0, 0) == lit + unescaped(s, i),
    decreases s.len() - i,
{
    let segs0 = parse_from(s, i, lit)->Ok_0;
    reveal_with_fuel(concat_literals, 3);
    if i >= s.len() {
        if lit.len() == 0 {
            assert(concat_literals(segs0, 0) =~= lit + unescaped(s, i));
        } else {
            assert(segs0 == flush(lit));
            assert(flush(lit) == seq![SegmentV::Literal(lit)]);
            assert(concat_literals(segs0, 0) =~= lit + unescaped(s, i));
        }
    } else if s[i] == '{' {
        if i + 1 < s.len() && s[i + 1] == '{' {
            lemma_parse_literals_concat(s, i + 2, lit.push('{'));
            assert(lit.push('{') + unescaped(s, i + 2) =~= lit + (seq!['{'] + unescaped(s, i + 2)));
        } else {
            let pp = parse_placeholder(s, i + 1);
            assert(pp is Ok);
            let (seg, j) = pp->Ok_0;
            assert(seg is Placeholder);
            let rest = parse_from(
                s,
                if j < i + 2 {
                    i + 2
                } else if j > s.len() {
                    s.len() as int
                } else {
                    j
                },
                Seq::empty(),
            );
            assert(rest is Ok);
            let k = flush(lit).len();
            assert(segs0 == flush(lit) + seq![seg] + rest->Ok_0);
            assert(segs0[k as int] == seg);
            assert(false);
        }
    } else if s[i] == '}' {
        if i + 1 < s.len() && s[i + 1] == '}' {
            lemma_parse_literals_concat(s, i + 2, lit.push('}'));
            assert(lit.push('}') + unescaped(s, i + 2) =~= lit + (seq!['}'] + unescaped(s, i + 2)));
        }
    } else {
        lemma_parse_literals_concat(s, i + 1, lit.push(s[i]));
        assert(lit.push(s[i]) + unescaped(s, i + 1) =~= lit + (seq![s[i]] + unescaped(s, i + 1)));
    }
}

/// A directive with no placeholders renders to the template's literal
/// text unchanged, with `{{` and `}}` collapsed to single braces, whatever
/// arguments are supplied.
pub proof fn lemma_literal_template_round_trip(
    t: Seq<char>,
    args: Seq<Value>,
    named: Seq<(String, Value)>,
)
    requires
        parse_text(t) matches Result::Ok(segs) && all_literal(segs),
    ensures
        render_text(t, args, named) == Result::<Seq<char>, crate::directive::RenderError>::Ok(
            unescaped(t, 0),
        ),
{
    let segs = parse_text(t)->Ok_0;
    lemma_render_literals(segs, 0, 0, args, named);
    lemma_parse_literals_concat(t, 0, Seq::empty());
    assert(Seq::<char>::empty() + unescaped(t, 0) =~= unescaped(t, 0));
}

} // verus!
