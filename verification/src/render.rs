//! The text of a directive: the digits of a number, its sign and prefix, and the padding that
//! fills the field.

use crate::argument::{Argument, Directive, Flags, Payload, SignedInt, Specifier, UnsignedInt};
use crate::ascii::{
    ascii_chars, ascii_string, is_ascii, DIGIT_0, DIGIT_9, DOT, LOWER_A, LOWER_E, LOWER_O, LOWER_X,
    MINUS, PERCENT, PLUS, SPACE, UPPER_A, UPPER_E,
};
use crate::c_str::c_str_to_bytes;
use cty::c_int;
use vstd::prelude::*;

verus! {

/// The digit that writes `d` in a base up to 16, with letters in the given case.
pub open spec fn digit(d: nat, upper: bool) -> u8 {
    if d < 10 {
        (DIGIT_0 + d) as u8
    } else if upper {
        (UPPER_A + d - 10) as u8
    } else {
        (LOWER_A + d - 10) as u8
    }
}

/// The digits that write `n` in the base `base`, the most significant first, without leading
/// zeros: one digit for a number below the base, and else the digits of `n / base` followed by
/// the digit of `n % base`.
pub open spec fn digits(n: nat, base: nat, upper: bool) -> Seq<u8>
    decreases n,
{
    if n < base || base < 2 {
        seq![digit(n, upper)]
    } else {
        proof {
            assert(n / base < n) by (nonlinear_arith)
                requires
                    n >= base,
                    base >= 2,
            ;
        }
        digits(n / base, base, upper).push(digit(n % base, upper))
    }
}

/// The byte `c`, `n` times; nothing where `n` is not positive.
pub open spec fn repeat(c: u8, n: int) -> Seq<u8> {
    Seq::new(
        if n > 0 {
            n as nat
        } else {
            0
        },
        |i: int| c,
    )
}

/// The digit that writes `d`.
fn digit_of(d: u64, upper: bool) -> (c: u8)
    requires
        d < 16,
    ensures
        c == digit(d as nat, upper),
{
    if d < 10 {
        DIGIT_0 + d as u8
    } else if upper {
        UPPER_A + (d as u8 - 10)
    } else {
        LOWER_A + (d as u8 - 10)
    }
}

/// The digits that write `n` in the base `base`.
fn to_digits(n: u64, base: u64, upper: bool) -> (out: Vec<u8>)
    requires
        2 <= base <= 16,
    ensures
        out@ == digits(n as nat, base as nat, upper),
{
    let mut out: Vec<u8> = Vec::new();
    let mut rest = n;
    while rest >= base
        invariant
            2 <= base <= 16,
            digits(n as nat, base as nat, upper) =~= digits(rest as nat, base as nat, upper)
                + out@,
        decreases rest,
    {
        out.insert(0, digit_of(rest % base, upper));
        rest = rest / base;
    }
    out.insert(0, digit_of(rest, upper));
    out
}

/// Appends the byte `c` to `out`, `n` times.
fn push_repeat(out: &mut Vec<u8>, c: u8, n: usize)
    ensures
        final(out)@ == old(out)@ + repeat(c, n as int),
{
    let mut done: usize = 0;
    while done < n
        invariant
            done <= n,
            out@ =~= old(out)@ + repeat(c, done as int),
        decreases n - done,
    {
        out.push(c);
        done = done + 1;
    }
}

/// The sign in front of a number: `-` for a negative one; for any other `+` under
/// `PREPEND_PLUS`, else a space under `PREPEND_SPACE`, else nothing.
pub open spec fn sign(flags: Flags, negative: bool) -> Seq<u8> {
    if negative {
        seq![MINUS]
    } else if flags.has(Flags::PREPEND_PLUS) {
        seq![PLUS]
    } else if flags.has(Flags::PREPEND_SPACE) {
        seq![SPACE]
    } else {
        Seq::empty()
    }
}

/// The prefix that `ALTERNATE_FORM` puts in front of the digits of the base `base`: `0o` for
/// 8, `0x` for 16, nothing for any other.
pub open spec fn prefix(flags: Flags, base: nat) -> Seq<u8> {
    if !flags.has(Flags::ALTERNATE_FORM) {
        Seq::empty()
    } else if base == 8 {
        seq![DIGIT_0, LOWER_O]
    } else if base == 16 {
        seq![DIGIT_0, LOWER_X]
    } else {
        Seq::empty()
    }
}

/// The digits of an integer under a precision, which is the least number of digits to write:
/// zeros in front make up for what is missing.
pub open spec fn zero_extended(digits: Seq<u8>, precision: Option<c_int>) -> Seq<u8> {
    match precision {
        Some(p) => repeat(DIGIT_0, p - digits.len()) + digits,
        None => digits,
    }
}

/// The field of a number that is made of `sign`, `prefix` and `digits`.
///
/// Where these are shorter than `width`, the field is filled up to it: with spaces behind them
/// under `LEFT_ALIGN`; else, where `zero_fill` holds, under `PREPEND_ZERO` with zeros between
/// the prefix and the digits; else with spaces in front of them.
pub open spec fn numeric_field(
    flags: Flags,
    width: c_int,
    zero_fill: bool,
    sign: Seq<u8>,
    prefix: Seq<u8>,
    digits: Seq<u8>,
) -> Seq<u8> {
    let missing = width - (sign.len() + prefix.len() + digits.len());
    if flags.has(Flags::LEFT_ALIGN) {
        sign + prefix + digits + repeat(SPACE, missing)
    } else if zero_fill && flags.has(Flags::PREPEND_ZERO) {
        sign + prefix + repeat(DIGIT_0, missing) + digits
    } else {
        repeat(SPACE, missing) + sign + prefix + digits
    }
}

/// The field of a string: at most as many of its bytes as the precision says, all of them
/// where it is unset, filled up to `width` with spaces, which stand behind the bytes under
/// `LEFT_ALIGN` and in front of them else.
pub open spec fn text_field(
    flags: Flags,
    width: c_int,
    precision: Option<c_int>,
    bytes: Seq<u8>,
) -> Seq<u8> {
    let shown = match precision {
        Some(p) => if 0 <= p < bytes.len() {
            bytes.take(p as int)
        } else {
            bytes
        },
        None => bytes,
    };
    if flags.has(Flags::LEFT_ALIGN) {
        shown + repeat(SPACE, width - shown.len())
    } else {
        repeat(SPACE, width - shown.len()) + shown
    }
}

/// The field of an unsigned integer written in the base `base`. A precision is the least
/// number of digits, and switches the filling with zeros off.
pub open spec fn unsigned_field(d: Directive, n: nat, base: nat, upper: bool) -> Seq<u8> {
    numeric_field(
        d.flags,
        d.width,
        d.precision is None,
        Seq::empty(),
        prefix(d.flags, base),
        zero_extended(digits(n, base, upper), d.precision),
    )
}

/// The field of a signed integer, written in decimal digits behind its sign.
pub open spec fn signed_field(d: Directive, n: int) -> Seq<u8> {
    numeric_field(
        d.flags,
        d.width,
        d.precision is None,
        sign(d.flags, n < 0),
        Seq::empty(),
        zero_extended(
            digits(
                (if n < 0 {
                    -n
                } else {
                    n
                }) as nat,
                10,
                false,
            ),
            d.precision,
        ),
    )
}

/// Whether `digits` writes a whole number: decimal digits, at least one, and nothing else.
pub open spec fn is_whole_number(digits: Seq<u8>) -> bool {
    &&& digits.len() > 0
    &&& forall|i: int| 0 <= i < digits.len() ==> DIGIT_0 <= #[trigger] digits[i] <= DIGIT_9
}

/// The digits of a floating-point number with the decimal point that `ALTERNATE_FORM` asks
/// for: a whole number gets one at its end.
pub open spec fn pointed(flags: Flags, digits: Seq<u8>) -> Seq<u8> {
    if flags.has(Flags::ALTERNATE_FORM) && is_whole_number(digits) {
        digits.push(DOT)
    } else {
        digits
    }
}

/// The exponent of a number in scientific notation: `e` or `E`, the sign, which is never
/// left out, and the decimal digits, two of them at least.
pub open spec fn exponent_text(exponent: int, upper: bool) -> Seq<u8> {
    let magnitude = (if exponent < 0 {
        -exponent
    } else {
        exponent
    }) as nat;
    seq![
        if upper {
            UPPER_E
        } else {
            LOWER_E
        },
        if exponent < 0 {
            MINUS
        } else {
            PLUS
        },
    ] + (if magnitude < 10 {
        seq![DIGIT_0]
    } else {
        Seq::empty()
    }) + digits(magnitude, 10, false)
}

/// The field of a floating-point number in decimal notation whose digits are `digits`,
/// behind the sign that the flags and `negative` ask for. The precision has gone into the
/// digits and does not switch the filling with zeros off.
pub open spec fn double_field(flags: Flags, width: c_int, negative: bool, digits: Seq<u8>) -> Seq<
    u8,
> {
    numeric_field(flags, width, true, sign(flags, negative), Seq::empty(), pointed(flags, digits))
}

/// The field of a floating-point number in scientific notation whose mantissa is written by
/// `mantissa`.
pub open spec fn scientific_field(
    flags: Flags,
    width: c_int,
    negative: bool,
    mantissa: Seq<u8>,
    exponent: c_int,
    upper: bool,
) -> Seq<u8> {
    numeric_field(
        flags,
        width,
        true,
        sign(flags, negative),
        Seq::empty(),
        pointed(flags, mantissa) + exponent_text(exponent as int, upper),
    )
}

/// The number of digits behind the decimal point of a floating-point number: the precision,
/// and 6 where it is unset or negative.
pub open spec fn fraction_digits(precision: Option<c_int>) -> c_int {
    match precision {
        Some(p) => if p >= 0 {
            p
        } else {
            6
        },
        None => 6,
    }
}

/// The field of a pointer: its address in lower-case hexadecimal digits behind `0x`, whatever
/// the flags say of the prefix, and without a precision.
pub open spec fn pointer_field(d: Directive, address: usize) -> Seq<u8> {
    numeric_field(
        d.flags,
        d.width,
        true,
        Seq::empty(),
        seq![DIGIT_0, LOWER_X],
        digits(address as nat, 16, false),
    )
}

/// The text of a directive, where this library can write it: not for a floating-point number,
/// whose digits it cannot produce, and not for `%n`, which has no text.
pub open spec fn rendering(d: Directive) -> Option<Seq<u8>> {
    match d.payload {
        Payload::Percent => Some(seq![PERCENT]),
        Payload::Int(x) => Some(signed_field(d, x.value())),
        Payload::Uint(x) => Some(unsigned_field(d, x.value(), 10, false)),
        Payload::Octal(x) => Some(unsigned_field(d, x.value(), 8, false)),
        Payload::Hex(x) => Some(unsigned_field(d, x.value(), 16, false)),
        Payload::UpperHex(x) => Some(unsigned_field(d, x.value(), 16, true)),
        Payload::Pointer(p) => Some(pointer_field(d, p)),
        Payload::Char(c) => Some(text_field(d.flags, d.width, None, seq![c])),
        Payload::Bytes(b) => Some(text_field(d.flags, d.width, d.precision, b)),
        Payload::String(b) => Some(text_field(d.flags, d.width, d.precision, b)),
        Payload::Double { .. } => None,
        Payload::WriteBytesWritten(..) => None,
    }
}

/// How many bytes a field of `width` bytes has left after `used` of them.
fn left_of(width: usize, used: usize) -> (left: usize)
    ensures
        left == if width > used {
            width - used
        } else {
            0
        },
{
    if width > used {
        width - used
    } else {
        0
    }
}

/// The width as a number of bytes: nothing for a negative one.
fn field_width(width: c_int) -> (bytes: usize)
    ensures
        bytes == if width > 0 {
            width as int
        } else {
            0
        },
{
    if width > 0 {
        width as usize
    } else {
        0
    }
}

/// The sign in front of a number.
fn sign_of(flags: Flags, negative: bool) -> (out: Vec<u8>)
    ensures
        out@ == sign(flags, negative),
{
    let mut out: Vec<u8> = Vec::new();
    if negative {
        out.push(MINUS);
    } else if flags.contains(Flags::PREPEND_PLUS) {
        out.push(PLUS);
    } else if flags.contains(Flags::PREPEND_SPACE) {
        out.push(SPACE);
    }
    assert(out@ =~= sign(flags, negative));
    out
}

/// The prefix in front of the digits of the base `base`.
fn prefix_of(flags: Flags, base: u64) -> (out: Vec<u8>)
    ensures
        out@ == prefix(flags, base as nat),
{
    let mut out: Vec<u8> = Vec::new();
    if flags.contains(Flags::ALTERNATE_FORM) {
        if base == 8 {
            out.push(DIGIT_0);
            out.push(LOWER_O);
        } else if base == 16 {
            out.push(DIGIT_0);
            out.push(LOWER_X);
        }
    }
    assert(out@ =~= prefix(flags, base as nat));
    out
}

/// The digits of an integer under a precision.
fn zero_extend(digits: Vec<u8>, precision: Option<c_int>) -> (out: Vec<u8>)
    ensures
        out@ == zero_extended(digits@, precision),
{
    match precision {
        Some(p) => {
            let mut out: Vec<u8> = Vec::new();
            push_repeat(&mut out, DIGIT_0, left_of(field_width(p), digits.len()));
            out.extend_from_slice(digits.as_slice());
            assert(out@ =~= zero_extended(digits@, precision));
            out
        },
        None => digits,
    }
}

/// Lays out the field of a number.
fn write_number(
    flags: Flags,
    width: c_int,
    zero_fill: bool,
    sign: &[u8],
    prefix: &[u8],
    digits: &[u8],
) -> (out: Vec<u8>)
    ensures
        out@ == numeric_field(flags, width, zero_fill, sign@, prefix@, digits@),
{
    let missing = left_of(
        left_of(left_of(field_width(width), sign.len()), prefix.len()),
        digits.len(),
    );
    let mut out: Vec<u8> = Vec::new();
    if flags.contains(Flags::LEFT_ALIGN) {
        out.extend_from_slice(sign);
        out.extend_from_slice(prefix);
        out.extend_from_slice(digits);
        push_repeat(&mut out, SPACE, missing);
    } else if zero_fill && flags.contains(Flags::PREPEND_ZERO) {
        out.extend_from_slice(sign);
        out.extend_from_slice(prefix);
        push_repeat(&mut out, DIGIT_0, missing);
        out.extend_from_slice(digits);
    } else {
        push_repeat(&mut out, SPACE, missing);
        out.extend_from_slice(sign);
        out.extend_from_slice(prefix);
        out.extend_from_slice(digits);
    }
    assert(out@ =~= numeric_field(flags, width, zero_fill, sign@, prefix@, digits@));
    out
}

/// Lays out the field of a string.
fn write_bytes(flags: Flags, width: c_int, precision: Option<c_int>, bytes: &[u8]) -> (out: Vec<u8>)
    ensures
        out@ == text_field(flags, width, precision, bytes@),
{
    let shown = match precision {
        Some(p) => if 0 <= p && (p as usize) < bytes.len() {
            vstd::slice::slice_subrange(bytes, 0, p as usize)
        } else {
            bytes
        },
        None => bytes,
    };
    let missing = left_of(field_width(width), shown.len());
    let mut out: Vec<u8> = Vec::new();
    if flags.contains(Flags::LEFT_ALIGN) {
        out.extend_from_slice(shown);
        push_repeat(&mut out, SPACE, missing);
    } else {
        push_repeat(&mut out, SPACE, missing);
        out.extend_from_slice(shown);
    }
    assert(out@ =~= text_field(flags, width, precision, bytes@));
    out
}

/// Lays out the field of an unsigned integer.
fn write_unsigned(argument: &Argument<'_>, n: UnsignedInt, base: u64, upper: bool) -> (out: Vec<
    u8,
>)
    requires
        base == 8 || base == 10 || base == 16,
    ensures
        out@ == unsigned_field(argument@, n.value(), base as nat, upper),
{
    let prefix = prefix_of(argument.flags, base);
    let digits = zero_extend(to_digits(u64::from(n), base, upper), argument.precision);
    write_number(
        argument.flags,
        argument.width,
        argument.precision.is_none(),
        &[],
        prefix.as_slice(),
        digits.as_slice(),
    )
}

/// Lays out the field of a signed integer.
fn write_signed(argument: &Argument<'_>, n: SignedInt) -> (out: Vec<u8>)
    ensures
        out@ == signed_field(argument@, n.value()),
{
    let value = i64::from(n);
    let magnitude = if value < 0 {
        (-(value + 1)) as u64 + 1
    } else {
        value as u64
    };
    let sign = sign_of(argument.flags, value < 0);
    let digits = zero_extend(to_digits(magnitude, 10, false), argument.precision);
    write_number(
        argument.flags,
        argument.width,
        argument.precision.is_none(),
        sign.as_slice(),
        &[],
        digits.as_slice(),
    )
}

/// The digits of a floating-point number with the decimal point that `ALTERNATE_FORM` asks
/// for.
fn with_point(flags: Flags, digits: &[u8]) -> (out: Vec<u8>)
    ensures
        out@ == pointed(flags, digits@),
{
    let mut out: Vec<u8> = Vec::new();
    out.extend_from_slice(digits);
    if flags.contains(Flags::ALTERNATE_FORM) && digits.len() > 0 {
        let mut at: usize = 0;
        while at < digits.len() && DIGIT_0 <= digits[at] && digits[at] <= DIGIT_9
            invariant
                at <= digits@.len(),
                forall|i: int| 0 <= i < at ==> DIGIT_0 <= #[trigger] digits@[i] <= DIGIT_9,
            decreases digits.len() - at,
        {
            at = at + 1;
        }
        if at == digits.len() {
            out.push(DOT);
        }
    }
    out
}

/// The number of digits behind the decimal point that a floating-point directive with this
/// precision asks for.
pub fn double_precision(precision: Option<c_int>) -> (digits: c_int)
    ensures
        digits == fraction_digits(precision),
{
    match precision {
        Some(p) => if p >= 0 {
            p
        } else {
            6
        },
        None => 6,
    }
}

/// Lays out the field of a floating-point number in decimal notation from its digits, which
/// the caller has produced with the precision that the directive asks for, without a sign;
/// `negative` says whether a `-` belongs in front of them.
pub fn render_double(flags: Flags, width: c_int, negative: bool, digits: &[u8]) -> (out: Vec<u8>)
    ensures
        out@ == double_field(flags, width, negative, digits@),
{
    let sign = sign_of(flags, negative);
    let body = with_point(flags, digits);
    write_number(flags, width, true, sign.as_slice(), &[], body.as_slice())
}

/// Lays out the field of a floating-point number in scientific notation from the digits of its
/// mantissa, which the caller has produced with the precision that the directive asks for,
/// without a sign, and from its decimal exponent; `upper` says whether the exponent is marked
/// by `E`.
pub fn render_scientific(
    flags: Flags,
    width: c_int,
    negative: bool,
    mantissa: &[u8],
    exponent: c_int,
    upper: bool,
) -> (out: Vec<u8>)
    ensures
        out@ == scientific_field(flags, width, negative, mantissa@, exponent, upper),
{
    let sign = sign_of(flags, negative);
    let mut body = with_point(flags, mantissa);
    body.push(if upper {
        UPPER_E
    } else {
        LOWER_E
    });
    body.push(if exponent < 0 {
        MINUS
    } else {
        PLUS
    });
    let magnitude: u64 = if exponent < 0 {
        (-(exponent as i64)) as u64
    } else {
        exponent as u64
    };
    if magnitude < 10 {
        body.push(DIGIT_0);
    }
    let digits = to_digits(magnitude, 10, false);
    body.extend_from_slice(digits.as_slice());
    assert(body@ =~= pointed(flags, mantissa@) + exponent_text(exponent as int, upper));
    write_number(flags, width, true, sign.as_slice(), &[], body.as_slice())
}

/// The text of a directive; `None` for a floating-point number and for `%n`.
pub fn render(argument: &Argument<'_>) -> (out: Option<Vec<u8>>)
    ensures
        match rendering(argument@) {
            Some(text) => out matches Some(bytes) && bytes@ == text,
            None => out is None,
        },
{
    match argument.specifier {
        Specifier::Percent => {
            let mut out: Vec<u8> = Vec::new();
            out.push(PERCENT);
            assert(out@ =~= seq![PERCENT]);
            Some(out)
        },
        Specifier::Int(x) => Some(write_signed(argument, x)),
        Specifier::Uint(x) => Some(write_unsigned(argument, x, 10, false)),
        Specifier::Octal(x) => Some(write_unsigned(argument, x, 8, false)),
        Specifier::Hex(x) => Some(write_unsigned(argument, x, 16, false)),
        Specifier::UpperHex(x) => Some(write_unsigned(argument, x, 16, true)),
        Specifier::Pointer(p) => {
            let mut prefix: Vec<u8> = Vec::new();
            prefix.push(DIGIT_0);
            prefix.push(LOWER_X);
            assert(prefix@ =~= seq![DIGIT_0, LOWER_X]);
            let digits = to_digits(p as u64, 16, false);
            Some(
                write_number(
                    argument.flags,
                    argument.width,
                    true,
                    &[],
                    prefix.as_slice(),
                    digits.as_slice(),
                ),
            )
        },
        Specifier::Char(c) => {
            let mut text: Vec<u8> = Vec::new();
            text.push(c);
            assert(text@ =~= seq![c]);
            Some(write_bytes(argument.flags, argument.width, None, text.as_slice()))
        },
        Specifier::Bytes(b) => Some(
            write_bytes(argument.flags, argument.width, argument.precision, b),
        ),
        Specifier::String(s) => Some(
            write_bytes(argument.flags, argument.width, argument.precision, c_str_to_bytes(s)),
        ),
        Specifier::Double { .. } => None,
        Specifier::WriteBytesWritten(..) => None,
    }
}

/// The digits of a number in a base up to 16 are ASCII characters.
pub proof fn lemma_digits_are_ascii(n: nat, base: nat, upper: bool)
    requires
        2 <= base <= 16,
    ensures
        is_ascii(digits(n, base, upper)),
    decreases n,
{
    if n >= base {
        assert(n / base < n) by (nonlinear_arith)
            requires
                n >= base,
                base >= 2,
        ;
        lemma_digits_are_ascii(n / base, base, upper);
    }
}

/// The text of a signed number without any flag: its decimal digits, behind a `-` if it is
/// negative.
pub open spec fn signed_text(n: int) -> Seq<u8> {
    if n < 0 {
        seq![MINUS] + digits((-n) as nat, 10, false)
    } else {
        digits(n as nat, 10, false)
    }
}

impl SignedInt {
    /// The number as text, in decimal digits.
    pub fn to_string(self) -> (text: String)
        ensures
            text@ == ascii_chars(signed_text(self.value())),
    {
        let value = i64::from(self);
        let magnitude = if value < 0 {
            (-(value + 1)) as u64 + 1
        } else {
            value as u64
        };
        let mut bytes: Vec<u8> = Vec::new();
        if value < 0 {
            bytes.push(MINUS);
        }
        let digits = to_digits(magnitude, 10, false);
        bytes.extend_from_slice(digits.as_slice());
        proof {
            lemma_digits_are_ascii(magnitude as nat, 10, false);
            assert(bytes@ =~= signed_text(self.value()));
        }
        ascii_string(bytes.as_slice())
    }
}

impl UnsignedInt {
    /// The number as text, in the digits of the base `base`.
    fn to_base(self, base: u64, upper: bool) -> (text: String)
        requires
            2 <= base <= 16,
        ensures
            text@ == ascii_chars(digits(self.value(), base as nat, upper)),
    {
        let digits = to_digits(u64::from(self), base, upper);
        proof {
            lemma_digits_are_ascii(self.value(), base as nat, upper);
        }
        ascii_string(digits.as_slice())
    }

    /// The number as text, in decimal digits.
    pub fn to_string(self) -> (text: String)
        ensures
            text@ == ascii_chars(digits(self.value(), 10, false)),
    {
        self.to_base(10, false)
    }

    /// The number as text, in hexadecimal digits with lower-case letters.
    pub fn to_lower_hex(self) -> (text: String)
        ensures
            text@ == ascii_chars(digits(self.value(), 16, false)),
    {
        self.to_base(16, false)
    }

    /// The number as text, in hexadecimal digits with upper-case letters.
    pub fn to_upper_hex(self) -> (text: String)
        ensures
            text@ == ascii_chars(digits(self.value(), 16, true)),
    {
        self.to_base(16, true)
    }

    /// The number as text, in octal digits.
    pub fn to_octal(self) -> (text: String)
        ensures
            text@ == ascii_chars(digits(self.value(), 8, false)),
    {
        self.to_base(8, false)
    }
}

} // verus!
