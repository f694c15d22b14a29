//! The data model: a typed, immutable value to be rendered, its structural
//! diagnostic representation, and its optional author-chosen display
//! representation.

use vstd::prelude::*;
use crate::numeric::{
    dec_text, int_radix_text, pow10_u64, push_fixed_digits, push_int_radix, push_radix_u64,
};
use crate::numeric::udec_text;
use crate::text::{extend_indent, push_str_chars, string_from_chars};

verus! {

/// A typed, immutable piece of data to be rendered.  A value's shape is
/// fixed at construction and rendering never changes it.
///
/// `Int`, `Dec` and `Text` are the scalars; `Dec` stands for the fixed-point
/// decimal `(-1)^neg * digits / 10^scale`.  `Wrapper` is a named single
/// unnamed field, `Record` a named list of named fields in declared order,
/// `Sequence` an ordered list of elements.  `Shown` attaches an
/// author-chosen display text to a value: the display capability.  Scalars
/// have the display capability on their own; other values only through
/// `Shown`.
pub enum Value {
    Int(i64),
    Dec { neg: bool, digits: u64, scale: u64 },
    Text(String),
    Wrapper { name: String, inner: Box<Value> },
    Record { name: String, fields: Vec<(String, Value)> },
    Sequence { elems: Vec<Value> },
    Shown { inner: Box<Value>, text: String },
}

impl Value {
    /// Well-formedness: every decimal's scale fits the arithmetic done on
    /// it, and a negative decimal has a nonzero magnitude.
    pub open spec fn wf(self) -> bool
        decreases self, 0int,
    {
        match self {
            Value::Int(_) => true,
            Value::Dec { neg, digits, scale } => scale <= 18 && (neg ==> digits > 0),
            Value::Text(_) => true,
            Value::Wrapper { name, inner } => inner.wf(),
            Value::Record { name, fields } => wf_fields(fields@, 0),
            Value::Sequence { elems } => wf_elems(elems@, 0),
            Value::Shown { inner, text } => inner.wf(),
        }
    }
}

/// Well-formedness of the fields of a record from index `i` on.
pub open spec fn wf_fields(fields: Seq<(String, Value)>, i: int) -> bool
    decreases fields, fields.len() - i,
{
    if i < 0 || i >= fields.len() {
        true
    } else {
        fields[i].1.wf() && wf_fields(fields, i + 1)
    }
}

/// Well-formedness of the elements of a sequence from index `i` on.
pub open spec fn wf_elems(elems: Seq<Value>, i: int) -> bool
    decreases elems, elems.len() - i,
{
    if i < 0 || i >= elems.len() {
        true
    } else {
        elems[i].wf() && wf_elems(elems, i + 1)
    }
}

/// One indentation unit of the pretty diagnostic form: four spaces.
pub open spec fn indent_unit() -> Seq<char> {
    seq![' ', ' ', ' ', ' ']
}

/// The diagnostic form of a text scalar: the text between double quotes.
pub open spec fn quoted(s: Seq<char>) -> Seq<char> {
    seq!['"'] + s + seq!['"']
}

/// The diagnostic text of `v`: compact when `pretty` is false, one field or
/// element per line indented by four spaces per nesting level when `pretty`
/// is true.  `ind` is the indentation of the line the value starts on.
pub open spec fn diag_text(v: Value, pretty: bool, ind: Seq<char>) -> Seq<char>
    decreases v, 0int,
{
    match v {
        Value::Int(n) => int_radix_text(n as int, 10, false),
        Value::Dec { neg, digits, scale } => dec_text(neg, digits as nat, scale as nat),
        Value::Text(s) => quoted(s@),
        Value::Wrapper { name, inner } => name@ + seq!['('] + diag_text(*inner, pretty, ind)
            + seq![')'],
        Value::Record { name, fields } => {
            if fields@.len() == 0 {
                name@
            } else if pretty {
                name@ + seq![' ', '{', '\n'] + diag_fields(fields@, 0, true, ind) + ind
                    + seq!['}']
            } else {
                name@ + seq![' ', '{', ' '] + diag_fields(fields@, 0, false, ind) + seq![' ', '}']
            }
        },
        Value::Sequence { elems } => {
            if elems@.len() == 0 {
                seq!['[', ']']
            } else if pretty {
                seq!['[', '\n'] + diag_elems(elems@, 0, true, ind) + ind + seq![']']
            } else {
                seq!['['] + diag_elems(elems@, 0, false, ind) + seq![']']
            }
        },
        Value::Shown { inner, text } => diag_text(*inner, pretty, ind),
    }
}

/// The diagnostic text of the fields of a record from index `i` on.
/// Compact fields are joined by `, `; each pretty field stands on its own
/// line, indented one unit past `ind` and closed by a comma.
pub open spec fn diag_fields(fields: Seq<(String, Value)>, i: int, pretty: bool, ind: Seq<char>) -> Seq<
    char,
>
    decreases fields, fields.len() - i,
{
    if i < 0 || i >= fields.len() {
        Seq::empty()
    } else {
        let head = if pretty {
            ind + indent_unit() + fields[i].0@ + seq![':', ' '] + diag_text(
                fields[i].1,
                true,
                ind + indent_unit(),
            ) + seq![',', '\n']
        } else {
            (if i == 0 {
                Seq::<char>::empty()
            } else {
                seq![',', ' ']
            }) + fields[i].0@ + seq![':', ' '] + diag_text(fields[i].1, false, ind)
        };
        head + diag_fields(fields, i + 1, pretty, ind)
    }
}

/// The diagnostic text of the elements of a sequence from index `i` on,
/// joined as the fields of a record are.
pub open spec fn diag_elems(elems: Seq<Value>, i: int, pretty: bool, ind: Seq<char>) -> Seq<char>
    decreases elems, elems.len() - i,
{
    if i < 0 || i >= elems.len() {
        Seq::empty()
    } else {
        let head = if pretty {
            ind + indent_unit() + diag_text(elems[i], true, ind + indent_unit()) + seq![',', '\n']
        } else {
            (if i == 0 {
                Seq::<char>::empty()
            } else {
                seq![',', ' ']
            }) + diag_text(elems[i], false, ind)
        };
        head + diag_elems(elems, i + 1, pretty, ind)
    }
}

/// Whether `v` has the display capability: scalars always, other values
/// only when an author supplied a display text through `Shown`.
pub open spec fn has_display(v: Value) -> bool {
    match v {
        Value::Int(_) => true,
        Value::Dec { .. } => true,
        Value::Text(_) => true,
        Value::Shown { .. } => true,
        _ => false,
    }
}

/// The display text of a value that has the display capability: the
/// canonical numeral of a numeric scalar, the bare text of a text scalar,
/// the author's text otherwise.
pub open spec fn display_text(v: Value) -> Seq<char> {
    match v {
        Value::Int(n) => int_radix_text(n as int, 10, false),
        Value::Dec { neg, digits, scale } => dec_text(neg, digits as nat, scale as nat),
        Value::Text(s) => s@,
        Value::Shown { inner, text } => text@,
        _ => Seq::empty(),
    }
}

/// Appends the canonical decimal text of `(-1)^neg * digits / 10^scale`.
pub fn push_dec(neg: bool, digits: u64, scale: u64, out: &mut Vec<char>)
    requires
        scale <= 18,
    ensures
        final(out)@ == old(out)@ + dec_text(neg, digits as nat, scale as nat),
{
    if neg {
        out.push('-');
    }
    if scale == 0 {
        push_radix_u64(digits, 10, false, out);
    } else {
        let p = pow10_u64(scale);
        push_radix_u64(digits / p, 10, false, out);
        out.push('.');
        push_fixed_digits(digits % p, scale, out);
    }
    assert(out@ =~= old(out)@ + dec_text(neg, digits as nat, scale as nat));
}

/// Appends the diagnostic text of `v` to `out`.
pub fn push_diag(v: &Value, pretty: bool, ind: &Vec<char>, out: &mut Vec<char>)
    requires
        v.wf(),
    ensures
        final(out)@ == old(out)@ + diag_text(*v, pretty, ind@),
    decreases *v, 0int,
{
    match v {
        Value::Int(n) => {
            push_int_radix(*n, 10, false, out);
        },
        Value::Dec { neg, digits, scale } => {
            push_dec(*neg, *digits, *scale, out);
        },
        Value::Text(s) => {
            out.push('"');
            push_str_chars(s.as_str(), out);
            out.push('"');
            assert(out@ =~= old(out)@ + quoted(s@));
        },
        Value::Wrapper { name, inner } => {
            push_str_chars(name.as_str(), out);
            out.push('(');
            push_diag(inner, pretty, ind, out);
            out.push(')');
            assert(out@ =~= old(out)@ + diag_text(*v, pretty, ind@));
        },
        Value::Record { name, fields } => {
            push_str_chars(name.as_str(), out);
            if fields.len() > 0 {
                out.push(' ');
                out.push('{');
                if pretty {
                    out.push('\n');
                } else {
                    out.push(' ');
                }
                push_diag_fields(fields, 0, pretty, ind, out);
                if pretty {
                    push_str_chars_of(ind, out);
                } else {
                    out.push(' ');
                }
                out.push('}');
            }
            assert(out@ =~= old(out)@ + diag_text(*v, pretty, ind@));
        },
        Value::Sequence { elems } => {
            out.push('[');
            if elems.len() > 0 {
                if pretty {
                    out.push('\n');
                    push_diag_elems(elems, 0, true, ind, out);
                    push_str_chars_of(ind, out);
                } else {
                    push_diag_elems(elems, 0, false, ind, out);
                }
            }
            out.push(']');
            assert(out@ =~= old(out)@ + diag_text(*v, pretty, ind@));
        },
        Value::Shown { inner, text } => {
            push_diag(inner, pretty, ind, out);
        },
    }
}

/// Appends every character of `src` to `out`.
fn push_str_chars_of(src: &Vec<char>, out: &mut Vec<char>)
    ensures
        final(out)@ == old(out)@ + src@,
{
    let mut i: usize = 0;
    while i < src.len()
        invariant
            i <= src@.len(),
            out@ == old(out)@ + src@.subrange(0, i as int),
        decreases src@.len() - i,
    {
        out.push(src[i]);
        i = i + 1;
        assert(out@ =~= old(out)@ + src@.subrange(0, i as int));
    }
    assert(src@.subrange(0, src@.len() as int) =~= src@);
}

/// Appends the diagnostic text of the fields of a record from `i` on.
fn push_diag_fields(
    fields: &Vec<(String, Value)>,
    i: usize,
    pretty: bool,
    ind: &Vec<char>,
    out: &mut Vec<char>,
)
    requires
        i <= fields@.len(),
        wf_fields(fields@, i as int),
    ensures
        final(out)@ == old(out)@ + diag_fields(fields@, i as int, pretty, ind@),
    decreases fields@, fields@.len() - i,
{
    if i < fields.len() {
        if pretty {
            push_str_chars_of(ind, out);
            out.push(' ');
            out.push(' ');
            out.push(' ');
            out.push(' ');
            push_str_chars(fields[i].0.as_str(), out);
            out.push(':');
            out.push(' ');
            let ind2 = extend_indent(ind);
            push_diag(&fields[i].1, true, &ind2, out);
            out.push(',');
            out.push('\n');
        } else {
            if i > 0 {
                out.push(',');
                out.push(' ');
            }
            push_str_chars(fields[i].0.as_str(), out);
            out.push(':');
            out.push(' ');
            push_diag(&fields[i].1, false, ind, out);
        }
        push_diag_fields(fields, i + 1, pretty, ind, out);
        assert(out@ =~= old(out)@ + diag_fields(fields@, i as int, pretty, ind@));
    }
}

/// Appends the diagnostic text of the elements of a sequence from `i` on.
fn push_diag_elems(
    elems: &Vec<Value>,
    i: usize,
    pretty: bool,
    ind: &Vec<char>,
    out: &mut Vec<char>,
)
    requires
        i <= elems@.len(),
        wf_elems(elems@, i as int),
    ensures
        final(out)@ == old(out)@ + diag_elems(elems@, i as int, pretty, ind@),
    decreases elems@, elems@.len() - i,
{
    if i < elems.len() {
        if pretty {
            push_str_chars_of(ind, out);
            out.push(' ');
            out.push(' ');
            out.push(' ');
            out.push(' ');
            let ind2 = extend_indent(ind);
            push_diag(&elems[i], true, &ind2, out);
            out.push(',');
            out.push('\n');
        } else {
            if i > 0 {
                out.push(',');
                out.push(' ');
            }
            push_diag(&elems[i], false, ind, out);
        }
        push_diag_elems(elems, i + 1, pretty, ind, out);
        assert(out@ =~= old(out)@ + diag_elems(elems@, i as int, pretty, ind@));
    }
}

impl Value {
    /// The compact diagnostic text of this value, mechanically derived from
    /// its shape.  A pure function of the value: repeated calls return the
    /// same text.
    pub fn diagnostic(&self) -> (r: String)
        requires
            self.wf(),
        ensures
            r@ == diag_text(*self, false, Seq::<char>::empty()),
    {
        let ind: Vec<char> = Vec::new();
        let mut out: Vec<char> = Vec::new();
        push_diag(self, false, &ind, &mut out);
        string_from_chars(&out)
    }

    /// The pretty diagnostic text: one field or element per line, each
    /// nesting level indented by four more spaces.
    pub fn diagnostic_pretty(&self) -> (r: String)
        requires
            self.wf(),
        ensures
            r@ == diag_text(*self, true, Seq::<char>::empty()),
    {
        let ind: Vec<char> = Vec::new();
        let mut out: Vec<char> = Vec::new();
        push_diag(self, true, &ind, &mut out);
        string_from_chars(&out)
    }

    /// The display text of this value, or `None` exactly when the value
    /// lacks the display capability.
    pub fn display(&self) -> (r: Option<String>)
        requires
            self.wf(),
        ensures
            r is Some <==> has_display(*self),
            r is Some ==> r->0@ == display_text(*self),
    {
        match self {
            Value::Int(n) => {
                let mut out: Vec<char> = Vec::new();
                push_int_radix(*n, 10, false, &mut out);
                Some(string_from_chars(&out))
            },
            Value::Dec { neg, digits, scale } => {
                let mut out: Vec<char> = Vec::new();
                push_dec(*neg, *digits, *scale, &mut out);
                Some(string_from_chars(&out))
            },
            Value::Text(s) => Some(s.clone()),
            Value::Shown { inner, text } => Some(text.clone()),
            _ => None,
        }
    }
}


/// The author display text of the example list type: each element written
/// as `index:value`, comma-joined between brackets.
pub open spec fn list_display_items(items: Seq<i64>, i: int) -> Seq<char>
    decreases items.len() - i,
{
    if i < 0 || i >= items.len() {
        Seq::empty()
    } else {
        (if i == 0 {
            Seq::<char>::empty()
        } else {
            seq![',', ' ']
        }) + udec_text(i as nat) + seq![':'] + int_radix_text(
            items[i] as int,
            10,
            false,
        ) + list_display_items(items, i + 1)
    }
}

/// The whole list display text: `[` + the joined items + `]`.
pub open spec fn list_display_text(items: Seq<i64>) -> Seq<char> {
    seq!['['] + list_display_items(items, 0) + seq![']']
}

/// The display text the example list type chooses for itself:
/// `[0:v0, 1:v1, ...]`.
pub fn list_display(items: &Vec<i64>) -> (r: String)
    ensures
        r@ == list_display_text(items@),
{
    let mut out: Vec<char> = Vec::new();
    out.push('[');
    let mut i: usize = 0;
    while i < items.len()
        invariant
            i <= items@.len(),
            out@ + list_display_items(items@, i as int) == seq!['['] + list_display_items(
                items@,
                0,
            ),
        decreases items@.len() - i,
    {
        if i > 0 {
            out.push(',');
            out.push(' ');
        }
        push_radix_u64(i as u64, 10, false, &mut out);
        out.push(':');
        push_int_radix(items[i], 10, false, &mut out);
        i = i + 1;
    }
    out.push(']');
    assert(out@ =~= list_display_text(items@));
    string_from_chars(&out)
}

/// The author display text of the example complex type: the real part,
/// ` + `, the imaginary part, `i`.
pub open spec fn complex_display_text(
    re_neg: bool,
    re_digits: nat,
    re_scale: nat,
    im_neg: bool,
    im_digits: nat,
    im_scale: nat,
) -> Seq<char> {
    dec_text(re_neg, re_digits, re_scale) + seq![' ', '+', ' '] + dec_text(
        im_neg,
        im_digits,
        im_scale,
    ) + seq!['i']
}

/// The display text the example complex type chooses for itself, from its
/// two fixed-point decimal parts.
pub fn complex_display(
    re_neg: bool,
    re_digits: u64,
    re_scale: u64,
    im_neg: bool,
    im_digits: u64,
    im_scale: u64,
) -> (r: String)
    requires
        re_scale <= 18,
        im_scale <= 18,
    ensures
        r@ == complex_display_text(
            re_neg,
            re_digits as nat,
            re_scale as nat,
            im_neg,
            im_digits as nat,
            im_scale as nat,
        ),
{
    let mut out: Vec<char> = Vec::new();
    push_dec(re_neg, re_digits, re_scale, &mut out);
    out.push(' ');
    out.push('+');
    out.push(' ');
    push_dec(im_neg, im_digits, im_scale, &mut out);
    out.push('i');
    assert(out@ =~= complex_display_text(
        re_neg,
        re_digits as nat,
        re_scale as nat,
        im_neg,
        im_digits as nat,
        im_scale as nat,
    ));
    string_from_chars(&out)
}

} // verus!
