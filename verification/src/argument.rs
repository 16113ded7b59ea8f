//! The directive model: one parsed conversion with its flags, width, precision and payload.

use crate::c_str::c_str_bytes;
use cstr_core::CStr;
use cty::{
    c_int, c_long, c_longlong, c_schar, c_short, c_uchar, c_uint, c_ulong, c_ulonglong, c_ushort,
};
use vstd::prelude::*;

verus! {

/// The flags field of a conversion: a set of flags, one bit each.
#[derive(Clone, Copy, Debug, PartialEq, Eq, Hash)]
pub struct Flags {
    bits: u8,
}

impl Flags {
    /// `-`: left-align the output within the field. (The default is to right-align.)
    pub const LEFT_ALIGN: u8 = 0b0000_0001;

    /// `+`: prepend a plus to non-negative signed numbers.
    pub const PREPEND_PLUS: u8 = 0b0000_0010;

    /// ` `: prepend a space to non-negative signed numbers, unless `PREPEND_PLUS` is set too.
    pub const PREPEND_SPACE: u8 = 0b0000_0100;

    /// `0`: fill the field of a number with zeros behind its sign and prefix instead of spaces
    /// in front of them.
    pub const PREPEND_ZERO: u8 = 0b0000_1000;

    /// `'`: thousands grouping. Recorded, without effect on the output.
    pub const THOUSANDS_GROUPING: u8 = 0b0001_0000;

    /// `#`: alternate form, a base prefix in front of octal and hexadecimal digits.
    pub const ALTERNATE_FORM: u8 = 0b0010_0000;

    /// The bits of the set.
    pub closed spec fn view(self) -> u8 {
        self.bits
    }

    /// Whether every bit of `mask` is in the set.
    pub open spec fn has(self, mask: u8) -> bool {
        self@ & mask == mask
    }

    /// The set of the given bits.
    pub closed spec fn of(bits: u8) -> Flags {
        Flags { bits }
    }

    /// `Flags::of` and the view are inverse to each other.
    pub broadcast proof fn lemma_of_view(bits: u8)
        ensures
            (#[trigger] Flags::of(bits))@ == bits,
    {
    }

    /// The set without any flag.
    pub fn empty() -> (flags: Flags)
        ensures
            flags == Flags::of(0),
    {
        Flags { bits: 0 }
    }

    /// The set with exactly the given bits.
    pub fn from_bits(bits: u8) -> (flags: Flags)
        ensures
            flags == Flags::of(bits),
    {
        Flags { bits }
    }

    /// The bits of the set.
    pub fn bits(self) -> (bits: u8)
        ensures
            bits == self@,
    {
        self.bits
    }

    /// Whether every bit of `mask` is in the set.
    pub fn contains(self, mask: u8) -> (found: bool)
        ensures
            found == self.has(mask),
    {
        self.bits & mask == mask
    }

    /// Adds the bits of `mask` to the set.
    pub fn insert(&mut self, mask: u8)
        ensures
            *final(self) == Flags::of(old(self)@ | mask),
    {
        self.bits = self.bits | mask;
    }
}

/// How a floating-point number is to be written.
#[derive(Clone, Copy, Debug, PartialEq, Eq, Hash, Structural)]
pub enum DoubleFormat {
    /// `f`
    Normal,
    /// `F`
    UpperNormal,
    /// `e`
    Scientific,
    /// `E`
    UpperScientific,
    /// `g`
    Auto,
    /// `G`
    UpperAuto,
    /// `a`
    Hex,
    /// `A`
    UpperHex,
}

impl DoubleFormat {
    /// Whether the format is one of the four upper-case ones.
    pub open spec fn upper(self) -> bool {
        self is UpperNormal || self is UpperScientific || self is UpperAuto || self is UpperHex
    }

    /// The lower-case format of the same notation.
    pub open spec fn lower_case(self) -> DoubleFormat {
        match self {
            DoubleFormat::Normal | DoubleFormat::UpperNormal => DoubleFormat::Normal,
            DoubleFormat::Scientific | DoubleFormat::UpperScientific => DoubleFormat::Scientific,
            DoubleFormat::Auto | DoubleFormat::UpperAuto => DoubleFormat::Auto,
            DoubleFormat::Hex | DoubleFormat::UpperHex => DoubleFormat::Hex,
        }
    }

    /// A format is determined by its notation and its case.
    pub proof fn lemma_notation_and_case(a: DoubleFormat, b: DoubleFormat)
        requires
            a.lower_case() == b.lower_case(),
            a.upper() == b.upper(),
        ensures
            a == b,
    {
    }

    /// If the format is uppercase.
    #[verifier::when_used_as_spec(upper)]
    pub fn is_upper(self) -> (upper: bool)
        ensures
            upper == self.upper(),
    {
        matches!(
            self,
            DoubleFormat::UpperNormal | DoubleFormat::UpperScientific | DoubleFormat::UpperAuto
                | DoubleFormat::UpperHex
        )
    }

    /// Whether numbers are written in scientific notation. The other formats all write them in
    /// decimal notation.
    pub fn is_scientific(self) -> (scientific: bool)
        ensures
            scientific == (self.lower_case() == DoubleFormat::Scientific),
    {
        matches!(self, DoubleFormat::Scientific | DoubleFormat::UpperScientific)
    }

    /// The format of the same notation in the given case.
    pub fn set_upper(self, upper: bool) -> (format: DoubleFormat)
        ensures
            format.lower_case() == self.lower_case(),
            format.upper() == upper,
    {
        match self {
            DoubleFormat::Normal | DoubleFormat::UpperNormal => {
                if upper {
                    DoubleFormat::UpperNormal
                } else {
                    DoubleFormat::Normal
                }
            },
            DoubleFormat::Scientific | DoubleFormat::UpperScientific => {
                if upper {
                    DoubleFormat::UpperScientific
                } else {
                    DoubleFormat::Scientific
                }
            },
            DoubleFormat::Auto | DoubleFormat::UpperAuto => {
                if upper {
                    DoubleFormat::UpperAuto
                } else {
                    DoubleFormat::Auto
                }
            },
            DoubleFormat::Hex | DoubleFormat::UpperHex => {
                if upper {
                    DoubleFormat::UpperHex
                } else {
                    DoubleFormat::Hex
                }
            },
        }
    }
}

/// A signed integer argument, in the C type that the length modifier named.
#[derive(Clone, Copy, Debug, PartialEq, Eq, Hash, Structural)]
#[non_exhaustive]
pub enum SignedInt {
    Int(c_int),
    Char(c_schar),
    Short(c_short),
    Long(c_long),
    LongLong(c_longlong),
    Isize(isize),
}

impl SignedInt {
    /// The number, whatever its C type.
    pub open spec fn value(self) -> int {
        match self {
            SignedInt::Int(x) => x as int,
            SignedInt::Char(x) => x as int,
            SignedInt::Short(x) => x as int,
            SignedInt::Long(x) => x as int,
            SignedInt::LongLong(x) => x as int,
            SignedInt::Isize(x) => x as int,
        }
    }

    /// Whether the number is below zero.
    pub fn is_sign_negative(self) -> (negative: bool)
        ensures
            negative == (self.value() < 0),
    {
        match self {
            SignedInt::Int(x) => x < 0,
            SignedInt::Char(x) => x < 0,
            SignedInt::Short(x) => x < 0,
            SignedInt::Long(x) => x < 0,
            SignedInt::LongLong(x) => x < 0,
            SignedInt::Isize(x) => x < 0,
        }
    }
}

impl From<SignedInt> for i64 {
    fn from(num: SignedInt) -> (value: i64) {
        match num {
            SignedInt::Int(x) => x as i64,
            SignedInt::Char(x) => x as i64,
            SignedInt::Short(x) => x as i64,
            SignedInt::Long(x) => x as i64,
            SignedInt::LongLong(x) => x as i64,
            SignedInt::Isize(x) => x as i64,
        }
    }
}

impl vstd::std_specs::convert::FromSpecImpl<SignedInt> for i64 {
    open spec fn obeys_from_spec() -> bool {
        true
    }

    open spec fn from_spec(num: SignedInt) -> i64 {
        num.value() as i64
    }
}

/// An unsigned integer argument, in the C type that the length modifier named.
#[derive(Clone, Copy, Debug, PartialEq, Eq, Hash, Structural)]
#[non_exhaustive]
pub enum UnsignedInt {
    Int(c_uint),
    Char(c_uchar),
    Short(c_ushort),
    Long(c_ulong),
    LongLong(c_ulonglong),
    Isize(usize),
}

impl UnsignedInt {
    /// The number, whatever its C type.
    pub open spec fn value(self) -> nat {
        match self {
            UnsignedInt::Int(x) => x as nat,
            UnsignedInt::Char(x) => x as nat,
            UnsignedInt::Short(x) => x as nat,
            UnsignedInt::Long(x) => x as nat,
            UnsignedInt::LongLong(x) => x as nat,
            UnsignedInt::Isize(x) => x as nat,
        }
    }
}

impl From<UnsignedInt> for u64 {
    fn from(num: UnsignedInt) -> (value: u64) {
        match num {
            UnsignedInt::Int(x) => x as u64,
            UnsignedInt::Char(x) => x as u64,
            UnsignedInt::Short(x) => x as u64,
            UnsignedInt::Long(x) => x as u64,
            UnsignedInt::LongLong(x) => x as u64,
            UnsignedInt::Isize(x) => x as u64,
        }
    }
}

impl vstd::std_specs::convert::FromSpecImpl<UnsignedInt> for u64 {
    open spec fn obeys_from_spec() -> bool {
        true
    }

    open spec fn from_spec(num: UnsignedInt) -> u64 {
        num.value() as u64
    }
}

/// A [format specifier](https://en.wikipedia.org/wiki/Printf_format_string#Type_field) with the
/// argument that was fetched for it.
#[derive(Clone, Copy, Debug, PartialEq)]
#[non_exhaustive]
pub enum Specifier<'a> {
    /// `%`
    Percent,
    /// `d`, `i`
    Int(SignedInt),
    /// `u`
    Uint(UnsignedInt),
    /// `o`
    Octal(UnsignedInt),
    /// `f`, `F`, `e`, `E`, `g`, `G`, `a`, `A`: the bits of the IEEE 754 binary64 number.
    Double { value: u64, format: DoubleFormat },
    /// A run of the template outside of any conversion.
    Bytes(&'a [u8]),
    /// `s`
    ///
    /// The same as [`Bytes`][Specifier::Bytes] but guaranteed to be null-terminated.
    String(&'a CStr),
    /// `c`
    Char(u8),
    /// `x`
    Hex(UnsignedInt),
    /// `X`
    UpperHex(UnsignedInt),
    /// `p`: the address.
    Pointer(usize),
    /// `n`: the number of bytes written so far, and the address that the caller gave for it.
    ///
    /// Nothing in this library writes to that address.
    WriteBytesWritten(c_int, usize),
}

/// What a [`Specifier`] holds, with its strings as sequences of bytes.
pub enum Payload {
    Percent,
    Int(SignedInt),
    Uint(UnsignedInt),
    Octal(UnsignedInt),
    Double { value: u64, format: DoubleFormat },
    Bytes(Seq<u8>),
    String(Seq<u8>),
    Char(u8),
    Hex(UnsignedInt),
    UpperHex(UnsignedInt),
    Pointer(usize),
    WriteBytesWritten(c_int, usize),
}

impl<'a> View for Specifier<'a> {
    type V = Payload;

    open spec fn view(&self) -> Payload {
        match *self {
            Specifier::Percent => Payload::Percent,
            Specifier::Int(x) => Payload::Int(x),
            Specifier::Uint(x) => Payload::Uint(x),
            Specifier::Octal(x) => Payload::Octal(x),
            Specifier::Double { value, format } => Payload::Double { value, format },
            Specifier::Bytes(b) => Payload::Bytes(b@),
            Specifier::String(s) => Payload::String(c_str_bytes(s)),
            Specifier::Char(c) => Payload::Char(c),
            Specifier::Hex(x) => Payload::Hex(x),
            Specifier::UpperHex(x) => Payload::UpperHex(x),
            Specifier::Pointer(p) => Payload::Pointer(p),
            Specifier::WriteBytesWritten(n, p) => Payload::WriteBytesWritten(n, p),
        }
    }
}

/// One directive: a literal run of the template, or a conversion with its argument.
#[derive(Clone, Copy, Debug, PartialEq)]
pub struct Argument<'a> {
    pub flags: Flags,
    pub width: c_int,
    pub precision: Option<c_int>,
    pub specifier: Specifier<'a>,
}

/// What an [`Argument`] holds, with its strings as sequences of bytes.
pub struct Directive {
    pub flags: Flags,
    pub width: c_int,
    pub precision: Option<c_int>,
    pub payload: Payload,
}

impl Directive {
    /// The directive of a payload without flags, width or precision.
    pub open spec fn plain(payload: Payload) -> Directive {
        Directive { flags: Flags::of(0), width: 0, precision: None, payload }
    }
}

impl<'a> View for Argument<'a> {
    type V = Directive;

    open spec fn view(&self) -> Directive {
        Directive {
            flags: self.flags,
            width: self.width,
            precision: self.precision,
            payload: self.specifier@,
        }
    }
}

impl<'a> From<Specifier<'a>> for Argument<'a> {
    fn from(specifier: Specifier<'a>) -> (argument: Argument<'a>) {
        Argument { flags: Flags::empty(), width: 0, precision: None, specifier }
    }
}

impl<'a> vstd::std_specs::convert::FromSpecImpl<Specifier<'a>> for Argument<'a> {
    open spec fn obeys_from_spec() -> bool {
        true
    }

    open spec fn from_spec(specifier: Specifier<'a>) -> Argument<'a> {
        Argument { flags: Flags::of(0), width: 0, precision: None, specifier }
    }
}

} // verus!
