//! The parsed form of a template: a directive is an ordered sequence of
//! segments, each either literal text or a placeholder binding an argument
//! and carrying a specifier.  A directive is immutable and may be rendered
//! many times.

use vstd::prelude::*;

verus! {

/// A placeholder's binding rule to a supplied argument: the next unconsumed
/// positional argument, an explicit position, or a name.
pub enum ArgRef {
    Implicit,
    Positional(u64),
    Named(String),
}

/// The mathematical form of an `ArgRef`.
#[verifier::ext_equal]
pub enum ArgRefV {
    Implicit,
    Positional(nat),
    Named(Seq<char>),
}

impl View for ArgRef {
    type V = ArgRefV;

    open spec fn view(&self) -> ArgRefV {
        match self {
            ArgRef::Implicit => ArgRefV::Implicit,
            ArgRef::Positional(n) => ArgRefV::Positional(*n as nat),
            ArgRef::Named(s) => ArgRefV::Named(s@),
        }
    }
}

/// Where padding goes when a rendered fragment is narrower than the width.
#[derive(Clone, Copy, PartialEq, Eq, Structural)]
pub enum Align {
    Left,
    Right,
    Center,
    Default,
}

/// How the bound value is turned into text: the decimal/display form, a
/// radix form (integral scalars only), or the structural diagnostic form,
/// compact or pretty.
#[derive(Clone, Copy, PartialEq, Eq, Structural)]
pub enum Notation {
    Decimal,
    Binary,
    Octal,
    LowerHex,
    UpperHex,
    DebugCompact,
    DebugPretty,
}

/// A width or precision: a literal number, or a reference to an integral
/// argument resolved at render time.
pub enum Count {
    Literal(u64),
    Arg(ArgRef),
}

/// The mathematical form of a `Count`.
#[verifier::ext_equal]
pub enum CountV {
    Literal(nat),
    Arg(ArgRefV),
}

impl View for Count {
    type V = CountV;

    open spec fn view(&self) -> CountV {
        match self {
            Count::Literal(n) => CountV::Literal(*n as nat),
            Count::Arg(a) => CountV::Arg(a@),
        }
    }
}

/// The per-placeholder configuration: fill character, alignment, a forced
/// `+` sign, the alternate flag, sign-aware zero padding, width, precision
/// and notation.
pub struct Specifier {
    pub fill: char,
    pub align: Align,
    pub sign: bool,
    pub alternate: bool,
    pub zero_pad: bool,
    pub width: Option<Count>,
    pub precision: Option<Count>,
    pub notation: Notation,
}

/// The mathematical form of a `Specifier`.
#[verifier::ext_equal]
pub struct SpecifierV {
    pub fill: char,
    pub align: Align,
    pub sign: bool,
    pub alternate: bool,
    pub zero_pad: bool,
    pub width: Option<CountV>,
    pub precision: Option<CountV>,
    pub notation: Notation,
}

impl View for Specifier {
    type V = SpecifierV;

    open spec fn view(&self) -> SpecifierV {
        SpecifierV {
            fill: self.fill,
            align: self.align,
            sign: self.sign,
            alternate: self.alternate,
            zero_pad: self.zero_pad,
            width: match self.width {
                Option::Some(c) => Option::Some(c@),
                Option::None => Option::None,
            },
            precision: match self.precision {
                Option::Some(c) => Option::Some(c@),
                Option::None => Option::None,
            },
            notation: self.notation,
        }
    }
}

/// The specifier of a bare placeholder: space fill, default alignment, no
/// flags, no width or precision, decimal/display notation.
pub open spec fn plain_specifier() -> SpecifierV {
    SpecifierV {
        fill: ' ',
        align: Align::Default,
        sign: false,
        alternate: false,
        zero_pad: false,
        width: Option::None,
        precision: Option::None,
        notation: Notation::Decimal,
    }
}

impl Specifier {
    /// The executable form of `plain_specifier`.
    pub fn plain() -> (r: Specifier)
        ensures
            r@ == plain_specifier(),
    {
        let r = Specifier {
            fill: ' ',
            align: Align::Default,
            sign: false,
            alternate: false,
            zero_pad: false,
            width: Option::None,
            precision: Option::None,
            notation: Notation::Decimal,
        };
        assert(r@ =~= plain_specifier());
        r
    }
}

/// One segment of a directive: literal text, or a placeholder.
pub enum Segment {
    Literal(String),
    Placeholder(ArgRef, Specifier),
}

/// The mathematical form of a `Segment`.
#[verifier::ext_equal]
pub enum SegmentV {
    Literal(Seq<char>),
    Placeholder(ArgRefV, SpecifierV),
}

impl View for Segment {
    type V = SegmentV;

    open spec fn view(&self) -> SegmentV {
        match self {
            Segment::Literal(s) => SegmentV::Literal(s@),
            Segment::Placeholder(a, sp) => SegmentV::Placeholder(a@, sp@),
        }
    }
}

/// A parsed template: the ordered segments.
pub struct Directive {
    pub segments: Vec<Segment>,
}

/// The views of a sequence of segments.
pub open spec fn segs_view(segs: Seq<Segment>) -> Seq<SegmentV> {
    segs.map_values(|s: Segment| s@)
}

impl View for Directive {
    type V = Seq<SegmentV>;

    open spec fn view(&self) -> Seq<SegmentV> {
        segs_view(self.segments@)
    }
}

/// A fatal rendering failure.  `ParseError` names the position of the
/// malformed syntax in the template; the other kinds abort the render call
/// that raised them, and no partial output is returned.
#[derive(Clone, Copy, PartialEq, Eq, Structural, Debug)]
pub enum RenderError {
    ParseError { offset: usize },
    UnresolvedArgument,
    NoDisplayCapability,
    UnsupportedNotation,
}

} // verus!
