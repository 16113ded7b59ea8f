//! The template parser: flags, width, precision, length modifier and conversion of each
//! directive, and the arguments that each one takes.

use crate::argument::{
    Argument, Directive, DoubleFormat, Flags, Payload, SignedInt, Specifier, UnsignedInt,
};
use crate::ascii::{
    APOSTROPHE, DIGIT_0, DIGIT_9, DOT, HASH, LOWER_A, LOWER_C, LOWER_D, LOWER_E, LOWER_F, LOWER_G,
    LOWER_H, LOWER_I, LOWER_L, LOWER_N, LOWER_O, LOWER_P, LOWER_S, LOWER_T, LOWER_U, LOWER_X,
    LOWER_Z, MINUS, PERCENT, PLUS, SPACE, STAR, UPPER_A, UPPER_E, UPPER_F, UPPER_G, UPPER_X,
};
use crate::c_str::{c_str_bytes, c_str_to_bytes};
use crate::va_list::{
    double_at, int_at, long_at, long_long_at, ptr_at, str_at, usize_at, VaList, VarArg,
};
use cstr_core::CStr;
use cty::{c_int, c_schar, c_short, c_uchar, c_uint, c_ulong, c_ulonglong, c_ushort};
use vstd::prelude::*;
use vstd::slice::slice_subrange;
use vstd::string::StringSliceAdditionalSpecFns;

verus! {

/// The bit of the flag that the byte `c` stands for, 0 if it stands for none.
pub open spec fn flag_bit(c: u8) -> u8 {
    if c == MINUS {
        Flags::LEFT_ALIGN
    } else if c == PLUS {
        Flags::PREPEND_PLUS
    } else if c == SPACE {
        Flags::PREPEND_SPACE
    } else if c == DIGIT_0 {
        Flags::PREPEND_ZERO
    } else if c == APOSTROPHE {
        Flags::THOUSANDS_GROUPING
    } else if c == HASH {
        Flags::ALTERNATE_FORM
    } else {
        0
    }
}

/// The bit of the flag that the byte `c` stands for, 0 if it stands for none.
fn flag_of(c: u8) -> (bit: u8)
    ensures
        bit == flag_bit(c),
{
    if c == MINUS {
        Flags::LEFT_ALIGN
    } else if c == PLUS {
        Flags::PREPEND_PLUS
    } else if c == SPACE {
        Flags::PREPEND_SPACE
    } else if c == DIGIT_0 {
        Flags::PREPEND_ZERO
    } else if c == APOSTROPHE {
        Flags::THOUSANDS_GROUPING
    } else if c == HASH {
        Flags::ALTERNATE_FORM
    } else {
        0
    }
}

/// The end of the run of flag bytes that starts at `from`.
pub open spec fn flags_end(t: Seq<u8>, from: int) -> int
    decreases t.len() - from,
{
    if 0 <= from < t.len() && flag_bit(t[from]) != 0 {
        flags_end(t, from + 1)
    } else {
        from
    }
}

/// The bits of all flags among the bytes of `t` from `from` up to `to`.
pub open spec fn flag_bits(t: Seq<u8>, from: int, to: int) -> u8
    decreases to - from,
{
    if from < to {
        flag_bits(t, from, to - 1) | flag_bit(t[to - 1])
    } else {
        0
    }
}

/// Whether the byte `c` stands among the bytes of `t` from `from` up to `to`.
pub open spec fn occurs(t: Seq<u8>, from: int, to: int, c: u8) -> bool {
    exists|i: int| from <= i < to && #[trigger] t[i] == c
}

/// A flag is among the flags of a run of bytes exactly if its byte occurs in the run.
pub proof fn lemma_flag_is_set(t: Seq<u8>, from: int, to: int, c: u8)
    requires
        flag_bit(c) != 0,
    ensures
        Flags::of(flag_bits(t, from, to)).has(flag_bit(c)) <==> occurs(t, from, to, c),
    decreases to - from,
{
    let mask = flag_bit(c);
    Flags::lemma_of_view(flag_bits(t, from, to));
    if from < to {
        let before = flag_bits(t, from, to - 1);
        let last = flag_bit(t[to - 1]);
        lemma_flag_is_set(t, from, to - 1, c);
        Flags::lemma_of_view(before);
        assert(((before | last) & mask == mask) == ((before & mask == mask) || last == mask))
            by (bit_vector)
            requires
                mask == 1 || mask == 2 || mask == 4 || mask == 8 || mask == 16 || mask == 32,
                last == 0 || last == 1 || last == 2 || last == 4 || last == 8 || last == 16
                    || last == 32,
        ;
        if occurs(t, from, to, c) {
            let i = choose|i: int| from <= i < to && #[trigger] t[i] == c;
            if i < to - 1 {
                assert(occurs(t, from, to - 1, c));
            }
        }
        if occurs(t, from, to - 1, c) {
            let i = choose|i: int| from <= i < to - 1 && #[trigger] t[i] == c;
            assert(from <= i < to && t[i] == c);
        }
        if last == mask {
            assert(t[to - 1] == c);
        }
    } else {
        assert((0u8 & mask == mask) == (mask == 0)) by (bit_vector);
    }
}

/// Parse the [Flags field](https://en.wikipedia.org/wiki/Printf_format_string#Flags_field)
/// that starts at `from`: the flags, and where the field ends.
pub fn parse_flags(t: &[u8], from: usize) -> (parsed: (Flags, usize))
    ensures
        parsed.1 == flags_end(t@, from as int),
        parsed.0 == Flags::of(flag_bits(t@, from as int, parsed.1 as int)),
{
    let mut flags = Flags::empty();
    let mut at = from;
    while at < t.len() && flag_of(t[at]) != 0
        invariant
            from <= at,
            flags_end(t@, at as int) == flags_end(t@, from as int),
            flags == Flags::of(flag_bits(t@, from as int, at as int)),
        decreases t.len() - at,
    {
        let bit = flag_of(t[at]);
        proof {
            Flags::lemma_of_view(flag_bits(t@, from as int, at as int));
        }
        flags.insert(bit);
        at = at + 1;
    }
    (flags, at)
}

/// A width or precision field as it was parsed.
pub struct Field<T> {
    /// The number that the field gives.
    pub value: T,
    /// Where the field ends in the template.
    pub end: int,
    /// How many arguments have been fetched once the field is read.
    pub fetched: int,
}

/// The end of the run of decimal digits that starts at `from`.
pub open spec fn digits_end(t: Seq<u8>, from: int) -> int
    decreases t.len() - from,
{
    if 0 <= from < t.len() && DIGIT_0 <= t[from] <= DIGIT_9 {
        digits_end(t, from + 1)
    } else {
        from
    }
}

/// The number that the decimal digits of `t` from `from` up to `to` write.
pub open spec fn decimal(t: Seq<u8>, from: int, to: int) -> nat
    decreases to - from,
{
    if from < to {
        decimal(t, from, to - 1) * 10 + (t[to - 1] - DIGIT_0) as nat
    } else {
        0
    }
}

/// A run of digits ends at or behind its start, and inside the template if it starts there.
pub proof fn lemma_digits_end_bounds(t: Seq<u8>, from: int)
    ensures
        from <= digits_end(t, from),
        from <= t.len() ==> digits_end(t, from) <= t.len(),
    decreases t.len() - from,
{
    if 0 <= from < t.len() && DIGIT_0 <= t[from] <= DIGIT_9 {
        lemma_digits_end_bounds(t, from + 1);
    }
}

/// A longer run of digits writes no smaller number.
pub proof fn lemma_decimal_grows(t: Seq<u8>, from: int, mid: int, to: int)
    requires
        from <= mid <= to <= digits_end(t, from),
    ensures
        decimal(t, from, mid) <= decimal(t, from, to),
    decreases to - mid,
{
    if mid < to {
        lemma_decimal_grows(t, from, mid, to - 1);
        lemma_digits_up_to_end(t, from, to - 1);
    }
}

/// Every byte in front of the end of a run of digits is a digit.
pub proof fn lemma_digits_up_to_end(t: Seq<u8>, from: int, at: int)
    requires
        from <= at < digits_end(t, from),
    ensures
        0 <= at < t.len(),
        DIGIT_0 <= t[at] <= DIGIT_9,
        digits_end(t, at) == digits_end(t, from),
    decreases at - from,
{
    if from < at {
        lemma_digits_up_to_end(t, from + 1, at);
    }
}

/// The width field that starts at `from`, with `fetched` arguments taken before it: a `*`,
/// which takes the width from the next argument, an `int`; or a run of decimal digits, which
/// may be empty and then gives 0. `None` where the argument is missing or no `int`, and where
/// the digits write a number that a C `int` cannot hold.
pub open spec fn width_at(t: Seq<u8>, from: int, args: Seq<VarArg<'_>>, fetched: int) -> Option<
    Field<c_int>,
> {
    if 0 <= from < t.len() && t[from] == STAR {
        match int_at(args, fetched) {
            Some(value) => Some(Field { value, end: from + 1, fetched: fetched + 1 }),
            None => None,
        }
    } else {
        let end = digits_end(t, from);
        if decimal(t, from, end) <= c_int::MAX {
            Some(Field { value: decimal(t, from, end) as c_int, end, fetched })
        } else {
            None
        }
    }
}

/// Parse the [Width field](https://en.wikipedia.org/wiki/Printf_format_string#Width_field)
/// that starts at `from`: the width, and where the field ends.
pub fn parse_width(t: &[u8], from: usize, args: &mut VaList<'_>) -> (parsed: Option<(c_int, usize)>)
    ensures
        match width_at(t@, from as int, old(args).items(), old(args).position()) {
            Some(field) => {
                &&& parsed matches Some((value, end))
                &&& value == field.value
                &&& end == field.end
                &&& old(args).moved_to(*final(args), field.fetched - old(args).position())
            },
            None => parsed is None && old(args).moved_to(*final(args), 0),
        },
{
    if from < t.len() && t[from] == STAR {
        return match args.fetch_int() {
            Some(width) => Some((width, from + 1)),
            None => None,
        };
    }
    let mut width: c_int = 0;
    let mut at = from;
    proof {
        lemma_digits_end_bounds(t@, from as int);
    }
    while at < t.len() && DIGIT_0 <= t[at] && t[at] <= DIGIT_9
        invariant
            from <= at,
            at <= digits_end(t@, from as int),
            digits_end(t@, at as int) == digits_end(t@, from as int),
            width == decimal(t@, from as int, at as int),
            *args == *old(args),
        decreases t.len() - at,
    {
        let digit = (t[at] - DIGIT_0) as c_int;
        proof {
            lemma_digits_end_bounds(t@, at as int + 1);
        }
        if width > (c_int::MAX - digit) / 10 {
            proof {
                lemma_decimal_grows(
                    t@,
                    from as int,
                    at as int + 1,
                    digits_end(t@, from as int),
                );
            }
            return None;
        }
        width = width * 10 + digit;
        at = at + 1;
    }
    Some((width, at))
}

/// The precision field that starts at `from`: a `.` and then a field like a width; or
/// nothing, which leaves the precision unset.
pub open spec fn precision_at(
    t: Seq<u8>,
    from: int,
    args: Seq<VarArg<'_>>,
    fetched: int,
) -> Option<Field<Option<c_int>>> {
    if 0 <= from < t.len() && t[from] == DOT {
        match width_at(t, from + 1, args, fetched) {
            Some(field) => Some(
                Field { value: Some(field.value), end: field.end, fetched: field.fetched },
            ),
            None => None,
        }
    } else {
        Some(Field { value: None, end: from, fetched })
    }
}

/// Parse the [Precision field](https://en.wikipedia.org/wiki/Printf_format_string#Precision_field)
/// that starts at `from`: the precision, and where the field ends.
pub fn parse_precision(t: &[u8], from: usize, args: &mut VaList<'_>) -> (parsed: Option<
    (Option<c_int>, usize),
>)
    ensures
        match precision_at(t@, from as int, old(args).items(), old(args).position()) {
            Some(field) => {
                &&& parsed matches Some((value, end))
                &&& value == field.value
                &&& end == field.end
                &&& old(args).moved_to(*final(args), field.fetched - old(args).position())
            },
            None => parsed is None && old(args).moved_to(*final(args), 0),
        },
{
    if from < t.len() && t[from] == DOT {
        match parse_width(t, from + 1, args) {
            Some((precision, end)) => Some((Some(precision), end)),
            None => None,
        }
    } else {
        Some((None, from))
    }
}

/// The C type that a length modifier names.
#[derive(Clone, Copy, Debug, PartialEq, Eq, Structural)]
pub enum Length {
    /// No modifier.
    Int,
    /// `hh`
    Char,
    /// `h`
    Short,
    /// `l`
    Long,
    /// `ll`
    LongLong,
    /// `z`
    Usize,
    /// `t`
    Isize,
}

impl Length {
    /// The signed integer of this length at place `fetched` of `args`: an `int` for no
    /// modifier, an `int` narrowed to its low bits for `hh` and `h`, a `long` for `l`, a
    /// `long long` for `ll`, a `size_t` read as signed for `z` and `t`.
    pub open spec fn signed_at(self, args: Seq<VarArg<'_>>, fetched: int) -> Option<SignedInt> {
        match self {
            Length::Int => match int_at(args, fetched) {
                Some(x) => Some(SignedInt::Int(x)),
                None => None,
            },
            Length::Char => match int_at(args, fetched) {
                Some(x) => Some(SignedInt::Char(x as c_schar)),
                None => None,
            },
            Length::Short => match int_at(args, fetched) {
                Some(x) => Some(SignedInt::Short(x as c_short)),
                None => None,
            },
            Length::Long => match long_at(args, fetched) {
                Some(x) => Some(SignedInt::Long(x)),
                None => None,
            },
            Length::LongLong => match long_long_at(args, fetched) {
                Some(x) => Some(SignedInt::LongLong(x)),
                None => None,
            },
            Length::Usize | Length::Isize => match usize_at(args, fetched) {
                Some(x) => Some(SignedInt::Isize(x as isize)),
                None => None,
            },
        }
    }

    /// The unsigned integer of this length at place `fetched` of `args`: the argument that
    /// `signed_at` reads, with its bits read as unsigned.
    pub open spec fn unsigned_at(self, args: Seq<VarArg<'_>>, fetched: int) -> Option<
        UnsignedInt,
    > {
        match self {
            Length::Int => match int_at(args, fetched) {
                Some(x) => Some(UnsignedInt::Int(x as c_uint)),
                None => None,
            },
            Length::Char => match int_at(args, fetched) {
                Some(x) => Some(UnsignedInt::Char(x as c_uchar)),
                None => None,
            },
            Length::Short => match int_at(args, fetched) {
                Some(x) => Some(UnsignedInt::Short(x as c_ushort)),
                None => None,
            },
            Length::Long => match long_at(args, fetched) {
                Some(x) => Some(UnsignedInt::Long(x as c_ulong)),
                None => None,
            },
            Length::LongLong => match long_long_at(args, fetched) {
                Some(x) => Some(UnsignedInt::LongLong(x as c_ulonglong)),
                None => None,
            },
            Length::Usize | Length::Isize => match usize_at(args, fetched) {
                Some(x) => Some(UnsignedInt::Isize(x)),
                None => None,
            },
        }
    }

    /// Fetches the signed integer of this length.
    pub fn parse_signed(self, args: &mut VaList<'_>) -> (number: Option<SignedInt>)
        ensures
            number == self.signed_at(old(args).items(), old(args).position()),
            old(args).moved_to(*final(args), if number is Some { 1 } else { 0 }),
    {
        match self {
            Length::Int => match args.fetch_int() {
                Some(x) => Some(SignedInt::Int(x)),
                None => None,
            },
            Length::Char => match args.fetch_int() {
                Some(x) => Some(SignedInt::Char(x as c_schar)),
                None => None,
            },
            Length::Short => match args.fetch_int() {
                Some(x) => Some(SignedInt::Short(x as c_short)),
                None => None,
            },
            Length::Long => match args.fetch_long() {
                Some(x) => Some(SignedInt::Long(x)),
                None => None,
            },
            Length::LongLong => match args.fetch_long_long() {
                Some(x) => Some(SignedInt::LongLong(x)),
                None => None,
            },
            // These are different modifiers that read the same argument.
            Length::Usize | Length::Isize => match args.fetch_usize() {
                Some(x) => Some(SignedInt::Isize(x as isize)),
                None => None,
            },
        }
    }

    /// Fetches the unsigned integer of this length.
    pub fn parse_unsigned(self, args: &mut VaList<'_>) -> (number: Option<UnsignedInt>)
        ensures
            number == self.unsigned_at(old(args).items(), old(args).position()),
            old(args).moved_to(*final(args), if number is Some { 1 } else { 0 }),
    {
        match self {
            Length::Int => match args.fetch_int() {
                Some(x) => Some(UnsignedInt::Int(x as c_uint)),
                None => None,
            },
            Length::Char => match args.fetch_int() {
                Some(x) => Some(UnsignedInt::Char(x as c_uchar)),
                None => None,
            },
            Length::Short => match args.fetch_int() {
                Some(x) => Some(UnsignedInt::Short(x as c_ushort)),
                None => None,
            },
            Length::Long => match args.fetch_long() {
                Some(x) => Some(UnsignedInt::Long(x as c_ulong)),
                None => None,
            },
            Length::LongLong => match args.fetch_long_long() {
                Some(x) => Some(UnsignedInt::LongLong(x as c_ulonglong)),
                None => None,
            },
            // These are different modifiers that read the same argument.
            Length::Usize | Length::Isize => match args.fetch_usize() {
                Some(x) => Some(UnsignedInt::Isize(x)),
                None => None,
            },
        }
    }
}

/// The length modifier that starts at `from`, and where it ends: `hh`, `h`, `ll`, `l`, `z`,
/// `t`, or nothing.
pub open spec fn length_at(t: Seq<u8>, from: int) -> (Length, int) {
    if 0 <= from < t.len() && t[from] == LOWER_H {
        if from + 1 < t.len() && t[from + 1] == LOWER_H {
            (Length::Char, from + 2)
        } else {
            (Length::Short, from + 1)
        }
    } else if 0 <= from < t.len() && t[from] == LOWER_L {
        if from + 1 < t.len() && t[from + 1] == LOWER_L {
            (Length::LongLong, from + 2)
        } else {
            (Length::Long, from + 1)
        }
    } else if 0 <= from < t.len() && t[from] == LOWER_Z {
        (Length::Usize, from + 1)
    } else if 0 <= from < t.len() && t[from] == LOWER_T {
        (Length::Isize, from + 1)
    } else {
        (Length::Int, from)
    }
}

/// Parse the [Length field](https://en.wikipedia.org/wiki/Printf_format_string#Length_field)
/// that starts at `from`: the length, and where the field ends.
pub fn parse_length(t: &[u8], from: usize) -> (parsed: (Length, usize))
    ensures
        (parsed.0, parsed.1 as int) == length_at(t@, from as int),
{
    if from >= t.len() {
        return (Length::Int, from);
    }
    let c = t[from];
    if c == LOWER_H {
        if from + 1 < t.len() && t[from + 1] == LOWER_H {
            (Length::Char, from + 2)
        } else {
            (Length::Short, from + 1)
        }
    } else if c == LOWER_L {
        if from + 1 < t.len() && t[from + 1] == LOWER_L {
            (Length::LongLong, from + 2)
        } else {
            (Length::Long, from + 1)
        }
    } else if c == LOWER_Z {
        (Length::Usize, from + 1)
    } else if c == LOWER_T {
        (Length::Isize, from + 1)
    } else {
        (Length::Int, from)
    }
}

/// The notation and case that the conversion byte `c` asks of a floating-point number.
pub open spec fn double_format(c: u8) -> Option<DoubleFormat> {
    if c == LOWER_F {
        Some(DoubleFormat::Normal)
    } else if c == UPPER_F {
        Some(DoubleFormat::UpperNormal)
    } else if c == LOWER_E {
        Some(DoubleFormat::Scientific)
    } else if c == UPPER_E {
        Some(DoubleFormat::UpperScientific)
    } else if c == LOWER_G {
        Some(DoubleFormat::Auto)
    } else if c == UPPER_G {
        Some(DoubleFormat::UpperAuto)
    } else if c == LOWER_A {
        Some(DoubleFormat::Hex)
    } else if c == UPPER_A {
        Some(DoubleFormat::UpperHex)
    } else {
        None
    }
}

/// The notation and case that the conversion byte `c` asks of a floating-point number.
pub(crate) fn parse_double_format(c: u8) -> (format: Option<DoubleFormat>)
    ensures
        format == double_format(c),
{
    let upper = c == UPPER_F || c == UPPER_E || c == UPPER_G || c == UPPER_A;
    if c == LOWER_F || c == UPPER_F {
        Some(DoubleFormat::Normal.set_upper(upper))
    } else if c == LOWER_E || c == UPPER_E {
        Some(DoubleFormat::Scientific.set_upper(upper))
    } else if c == LOWER_G || c == UPPER_G {
        Some(DoubleFormat::Auto.set_upper(upper))
    } else if c == LOWER_A || c == UPPER_A {
        Some(DoubleFormat::Hex.set_upper(upper))
    } else {
        None
    }
}

/// The text that stands for a null pointer where a string is asked for: `(null)`.
pub open spec fn null_text() -> Seq<u8> {
    seq![0x28u8, 0x6eu8, 0x75u8, 0x6cu8, 0x6cu8, 0x29u8]
}

/// The text that stands for a null pointer where a string is asked for.
fn null_bytes() -> (text: &'static [u8])
    ensures
        text@ == null_text(),
{
    let text = "(null)";
    proof {
        reveal_strlit("(null)");
        vstd::string::is_ascii_spec_bytes(text);
        assert(text.spec_bytes() =~= null_text());
    }
    text.as_bytes()
}

/// What the conversion byte `c` builds from the argument at place `fetched` of `args`, under
/// the length modifier `length` and with `written` bytes written so far. `None` where `c` is
/// no conversion, and where the argument is missing or of another type than `c` asks for.
/// Only `%` takes no argument.
pub open spec fn payload_at(
    c: u8,
    length: Length,
    args: Seq<VarArg<'_>>,
    fetched: int,
    written: c_int,
) -> Option<Payload> {
    if c == PERCENT {
        Some(Payload::Percent)
    } else if c == LOWER_D || c == LOWER_I {
        match length.signed_at(args, fetched) {
            Some(x) => Some(Payload::Int(x)),
            None => None,
        }
    } else if c == LOWER_X {
        match length.unsigned_at(args, fetched) {
            Some(x) => Some(Payload::Hex(x)),
            None => None,
        }
    } else if c == UPPER_X {
        match length.unsigned_at(args, fetched) {
            Some(x) => Some(Payload::UpperHex(x)),
            None => None,
        }
    } else if c == LOWER_U {
        match length.unsigned_at(args, fetched) {
            Some(x) => Some(Payload::Uint(x)),
            None => None,
        }
    } else if c == LOWER_O {
        match length.unsigned_at(args, fetched) {
            Some(x) => Some(Payload::Octal(x)),
            None => None,
        }
    } else if double_format(c) is Some {
        match double_at(args, fetched) {
            Some(value) => Some(Payload::Double { value, format: double_format(c)->0 }),
            None => None,
        }
    } else if c == LOWER_S {
        match str_at(args, fetched) {
            Some(Some(s)) => Some(Payload::String(c_str_bytes(s))),
            Some(None) => Some(Payload::Bytes(null_text())),
            None => None,
        }
    } else if c == LOWER_C {
        match int_at(args, fetched) {
            Some(x) => Some(Payload::Char(x as u8)),
            None => None,
        }
    } else if c == LOWER_P {
        match ptr_at(args, fetched) {
            Some(p) => Some(Payload::Pointer(p)),
            None => None,
        }
    } else if c == LOWER_N {
        match ptr_at(args, fetched) {
            Some(p) => Some(Payload::WriteBytesWritten(written, p)),
            None => None,
        }
    } else {
        None
    }
}

/// Builds what the conversion byte `c` asks for, and fetches its argument.
fn parse_specifier<'a>(c: u8, length: Length, args: &mut VaList<'a>, written: c_int) -> (parsed:
    Option<Specifier<'a>>)
    ensures
        match payload_at(c, length, old(args).items(), old(args).position(), written) {
            Some(payload) => {
                &&& parsed matches Some(specifier)
                &&& specifier@ == payload
                &&& old(args).moved_to(*final(args), if c == PERCENT { 0 } else { 1 })
            },
            None => parsed is None && old(args).moved_to(*final(args), 0),
        },
{
    if c == PERCENT {
        Some(Specifier::Percent)
    } else if c == LOWER_D || c == LOWER_I {
        match length.parse_signed(args) {
            Some(x) => Some(Specifier::Int(x)),
            None => None,
        }
    } else if c == LOWER_X {
        match length.parse_unsigned(args) {
            Some(x) => Some(Specifier::Hex(x)),
            None => None,
        }
    } else if c == UPPER_X {
        match length.parse_unsigned(args) {
            Some(x) => Some(Specifier::UpperHex(x)),
            None => None,
        }
    } else if c == LOWER_U {
        match length.parse_unsigned(args) {
            Some(x) => Some(Specifier::Uint(x)),
            None => None,
        }
    } else if c == LOWER_O {
        match length.parse_unsigned(args) {
            Some(x) => Some(Specifier::Octal(x)),
            None => None,
        }
    } else if c == LOWER_S {
        match args.fetch_str() {
            Some(Some(s)) => Some(Specifier::String(s)),
            // As a common extension, a null pointer is written as "(null)".
            Some(None) => Some(Specifier::Bytes(null_bytes())),
            None => None,
        }
    } else if c == LOWER_C {
        match args.fetch_int() {
            Some(x) => Some(Specifier::Char(x as u8)),
            None => None,
        }
    } else if c == LOWER_P {
        match args.fetch_ptr() {
            Some(p) => Some(Specifier::Pointer(p)),
            None => None,
        }
    } else if c == LOWER_N {
        match args.fetch_ptr() {
            Some(p) => Some(Specifier::WriteBytesWritten(written, p)),
            None => None,
        }
    } else {
        match parse_double_format(c) {
            Some(format) => match args.fetch_double() {
                Some(value) => Some(Specifier::Double { value, format }),
                None => None,
            },
            None => None,
        }
    }
}

/// What a run through a template does next.
#[derive(Clone, Copy, Debug, PartialEq, Eq, Structural)]
pub enum Phase {
    /// Hand out the literal run that starts at the position, up to the next `%`.
    Literal,
    /// A `%%` has just been handed out: hand out an empty literal run, then go on as in
    /// `Literal`.
    Escaped,
    /// The position is behind a `%`: parse the conversion and hand it out.
    Conversion,
    /// The template is used up, or was found malformed.
    Finished,
}

/// How far a run through a template has come.
pub struct State {
    /// The place in the template.
    pub position: int,
    /// What to do there.
    pub phase: Phase,
    /// How many arguments have been fetched.
    pub fetched: int,
    /// How many bytes the handler has reported as written.
    pub written: c_int,
}

impl State {
    /// The state in front of a template, with `fetched` arguments taken before.
    pub open spec fn start(fetched: int) -> State {
        State { position: 0, phase: Phase::Literal, fetched, written: 0 }
    }

    /// The state of a run that has come to its end in this state.
    pub open spec fn finished(self) -> State {
        State { phase: Phase::Finished, ..self }
    }

    /// The state after the handler has reported `n` more bytes.
    pub open spec fn with_written(self, n: c_int) -> State {
        State { written: (self.written + n) as c_int, ..self }
    }

    /// A bound on the number of directives that are still to come in the template `t`.
    pub open spec fn fuel(self, t: Seq<u8>) -> nat {
        if self.position > t.len() {
            0
        } else {
            match self.phase {
                Phase::Finished => 0,
                Phase::Literal => (2 * (t.len() - self.position) + 1) as nat,
                Phase::Escaped => (2 * (t.len() - self.position) + 2) as nat,
                Phase::Conversion => (2 * (t.len() - self.position) + 2) as nat,
            }
        }
    }
}

/// One step of a run through a template.
pub enum Step {
    /// The directive to hand to the handler, and the state behind it.
    Emit(Directive, State),
    /// The template has come to its end.
    End,
    /// The template is malformed, or an argument that it asks for is missing or of another
    /// type.
    Malformed,
}

/// The end of the literal run that starts at `from`: the place of the next `%`, or the end of
/// the template.
pub open spec fn literal_end(t: Seq<u8>, from: int) -> int
    decreases t.len() - from,
{
    if 0 <= from < t.len() && t[from] != PERCENT {
        literal_end(t, from + 1)
    } else {
        from
    }
}

/// A literal run ends at or behind its start, and inside the template if it starts there.
pub proof fn lemma_literal_end_bounds(t: Seq<u8>, from: int)
    ensures
        from <= literal_end(t, from),
        from <= t.len() ==> literal_end(t, from) <= t.len(),
    decreases t.len() - from,
{
    if 0 <= from < t.len() && t[from] != PERCENT {
        lemma_literal_end_bounds(t, from + 1);
    }
}

/// The conversion whose first byte behind the `%` is at `s.position`: flags, width, precision
/// and length modifier in this order, then the conversion byte, which decides what is built
/// from the next argument. A `*` for the width or the precision takes an `int` argument before
/// that. A template that ends before the conversion byte ends the run.
pub open spec fn conversion_at(t: Seq<u8>, args: Seq<VarArg<'_>>, s: State) -> Step {
    let flags_to = flags_end(t, s.position);
    let flags = Flags::of(flag_bits(t, s.position, flags_to));
    match width_at(t, flags_to, args, s.fetched) {
        None => Step::Malformed,
        Some(width) => match precision_at(t, width.end, args, width.fetched) {
            None => Step::Malformed,
            Some(precision) => {
                let (length, at) = length_at(t, precision.end);
                if at >= t.len() {
                    Step::End
                } else {
                    match payload_at(t[at], length, args, precision.fetched, s.written) {
                        None => Step::Malformed,
                        Some(payload) => Step::Emit(
                            Directive {
                                flags,
                                width: width.value,
                                precision: precision.value,
                                payload,
                            },
                            State {
                                position: at + 1,
                                phase: if t[at] == PERCENT {
                                    Phase::Escaped
                                } else {
                                    Phase::Literal
                                },
                                fetched: if t[at] == PERCENT {
                                    precision.fetched
                                } else {
                                    precision.fetched + 1
                                },
                                written: s.written,
                            },
                        ),
                    }
                }
            },
        },
    }
}

/// The next step of a run through the template `t` with the arguments `args`, from the state
/// `s`.
///
/// A run starts with the literal bytes up to the first `%`, which may be none. Each `%` starts
/// a conversion, and behind each conversion come the literal bytes up to the next `%`. Behind
/// `%%` an empty literal run comes first.
pub open spec fn step(t: Seq<u8>, args: Seq<VarArg<'_>>, s: State) -> Step {
    match s.phase {
        Phase::Finished => Step::End,
        Phase::Escaped => Step::Emit(
            Directive::plain(Payload::Bytes(Seq::empty())),
            State { phase: Phase::Literal, ..s },
        ),
        Phase::Literal => {
            let end = literal_end(t, s.position);
            Step::Emit(
                Directive::plain(Payload::Bytes(t.subrange(s.position, end))),
                if end < t.len() {
                    State { position: end + 1, phase: Phase::Conversion, ..s }
                } else {
                    State { position: end, phase: Phase::Finished, ..s }
                },
            )
        },
        Phase::Conversion => conversion_at(t, args, s),
    }
}

/// A run of flag bytes ends at or behind its start.
pub proof fn lemma_flags_end_bounds(t: Seq<u8>, from: int)
    ensures
        from <= flags_end(t, from),
    decreases t.len() - from,
{
    if 0 <= from < t.len() && flag_bit(t[from]) != 0 {
        lemma_flags_end_bounds(t, from + 1);
    }
}

/// Each step that hands out a directive brings the run closer to the end of its template, and
/// takes back no argument.
pub proof fn lemma_step_advances(t: Seq<u8>, args: Seq<VarArg<'_>>, s: State)
    requires
        0 <= s.position <= t.len(),
    ensures
        step(t, args, s) matches Step::Emit(_, next) ==> {
            &&& s.position <= next.position <= t.len()
            &&& s.fetched <= next.fetched <= s.fetched + 3
            &&& next.written == s.written
            &&& next.fuel(t) < s.fuel(t)
        },
{
    match s.phase {
        Phase::Literal => {
            lemma_literal_end_bounds(t, s.position);
        },
        Phase::Conversion => {
            let flags_to = flags_end(t, s.position);
            lemma_flags_end_bounds(t, s.position);
            lemma_digits_end_bounds(t, flags_to);
            if let Some(width) = width_at(t, flags_to, args, s.fetched) {
                lemma_digits_end_bounds(t, width.end + 1);
            }
        },
        _ => {},
    }
}

/// What a parser hands out.
#[derive(Clone, Copy, Debug, PartialEq)]
pub enum Event<'a> {
    /// The next directive of the template.
    Directive(Argument<'a>),
    /// The template has come to its end.
    End,
    /// The template is malformed, or an argument that it asks for is missing or of another
    /// type.
    Malformed,
}

/// A run through a template, one directive at a time.
#[derive(Clone, Copy, Debug)]
pub struct Parser<'a> {
    template: &'a [u8],
    args: VaList<'a>,
    position: usize,
    phase: Phase,
    written: c_int,
}

impl<'a> Parser<'a> {
    #[verifier::type_invariant]
    spec fn in_bounds(self) -> bool {
        self.position <= self.template@.len()
    }

    /// The template.
    pub closed spec fn template(self) -> Seq<u8> {
        self.template@
    }

    /// All arguments of the call.
    pub closed spec fn args(self) -> Seq<VarArg<'a>> {
        self.args.items()
    }

    /// How far the run has come.
    pub closed spec fn state(self) -> State {
        State {
            position: self.position as int,
            phase: self.phase,
            fetched: self.args.position(),
            written: self.written,
        }
    }

    /// A parser in front of `template`, which takes its arguments from `args`.
    pub fn new(template: &'a [u8], args: VaList<'a>) -> (parser: Parser<'a>)
        ensures
            parser.template() == template@,
            parser.args() == args.items(),
            parser.state() == State::start(args.position()),
    {
        Parser { template, args, position: 0, phase: Phase::Literal, written: 0 }
    }

    /// How many bytes the handler has reported as written.
    pub fn written(&self) -> (written: c_int)
        ensures
            written == self.state().written,
    {
        self.written
    }

    /// Takes note of what the handler answered to the last directive: `n` bytes written, or a
    /// failure if `n` is negative. Returns whether the run can go on: it cannot after a
    /// failure, nor where the bytes written no longer fit a C `int`, and the parser is then
    /// left as it is.
    pub fn record(&mut self, n: c_int) -> (ok: bool)
        ensures
            ok == (n >= 0 && old(self).state().written + n <= c_int::MAX),
            final(self).template() == old(self).template(),
            final(self).args() == old(self).args(),
            final(self).state() == if ok {
                old(self).state().with_written(n)
            } else {
                old(self).state()
            },
    {
        proof {
            use_type_invariant(&*self);
        }
        if n < 0 {
            return false;
        }
        match self.written.checked_add(n) {
            Some(written) => {
                self.written = written;
                true
            },
            None => false,
        }
    }

    /// Hands out the next directive of the template.
    pub fn next(&mut self) -> (event: Event<'a>)
        ensures
            final(self).template() == old(self).template(),
            final(self).args() == old(self).args(),
            match step(old(self).template(), old(self).args(), old(self).state()) {
                Step::Emit(directive, state) => {
                    &&& event matches Event::Directive(argument)
                    &&& argument@ == directive
                    &&& final(self).state() == state
                    &&& state.fuel(old(self).template()) < old(self).state().fuel(
                        old(self).template(),
                    )
                },
                Step::End => event is End && final(self).state() == old(self).state().finished(),
                Step::Malformed => event is Malformed && final(self).state() == old(
                    self,
                ).state().finished(),
            },
    {
        proof {
            use_type_invariant(&*self);
        }
        let t = self.template;
        match self.phase {
            Phase::Finished => {
                return Event::End;
            },
            Phase::Escaped => {
                self.phase = Phase::Literal;
                let run = slice_subrange(t, self.position, self.position);
                assert(run@ =~= Seq::<u8>::empty());
                return Event::Directive(Argument::from(Specifier::Bytes(run)));
            },
            Phase::Literal => {
                let from = self.position;
                let mut end = from;
                while end < t.len() && t[end] != PERCENT
                    invariant
                        from <= end <= t@.len(),
                        literal_end(t@, end as int) == literal_end(t@, from as int),
                    decreases t.len() - end,
                {
                    end = end + 1;
                }
                let run = slice_subrange(t, from, end);
                proof {
                    lemma_step_advances(self.template(), self.args(), self.state());
                }
                if end < t.len() {
                    self.position = end + 1;
                    self.phase = Phase::Conversion;
                } else {
                    self.position = end;
                    self.phase = Phase::Finished;
                }
                return Event::Directive(Argument::from(Specifier::Bytes(run)));
            },
            Phase::Conversion => {
                let mut args = self.args;
                let (flags, at) = parse_flags(t, self.position);
                let (width, at) = match parse_width(t, at, &mut args) {
                    Some(parsed) => parsed,
                    None => {
                        self.phase = Phase::Finished;
                        return Event::Malformed;
                    },
                };
                let (precision, at) = match parse_precision(t, at, &mut args) {
                    Some(parsed) => parsed,
                    None => {
                        self.phase = Phase::Finished;
                        return Event::Malformed;
                    },
                };
                let (length, at) = parse_length(t, at);
                if at >= t.len() {
                    self.phase = Phase::Finished;
                    return Event::End;
                }
                let c = t[at];
                match parse_specifier(c, length, &mut args, self.written) {
                    Some(specifier) => {
                        proof {
                            lemma_step_advances(self.template(), self.args(), self.state());
                        }
                        self.args = args;
                        self.position = at + 1;
                        self.phase = if c == PERCENT {
                            Phase::Escaped
                        } else {
                            Phase::Literal
                        };
                        return Event::Directive(Argument { flags, width, precision, specifier });
                    },
                    None => {
                        self.phase = Phase::Finished;
                        return Event::Malformed;
                    },
                }
            },
        }
    }
}

/// What takes the directives of a run, one by one, and writes them somewhere.
pub trait Handler {
    /// What the handler needs to hold of itself between two directives.
    open spec fn inv(&self) -> bool {
        true
    }

    /// Every directive that the handler has been given, each with the answer it gave.
    open spec fn history(&self) -> Seq<(Directive, c_int)> {
        arbitrary()
    }

    /// Takes one directive and answers with the number of bytes it wrote for it, or with a
    /// negative number where it failed or refuses the directive.
    fn handle(&mut self, argument: Argument<'_>) -> (n: c_int)
        requires
            old(self).inv(),
        ensures
            final(self).inv(),
            final(self).history() == old(self).history().push((argument@, n)),
    ;
}

/// The result of the run through the template `t` with the arguments `args` that starts in the
/// state `s`, if `log` holds the directives handed to the handler in this run, in their order
/// and each with the answer given; `None` if `log` holds anything else.
///
/// The handler gets the directive of each step. Its answer is added to the bytes written, and
/// the run goes on with the next step. The run ends with the bytes written as its result where
/// the template ends. It ends with -1 where the template is malformed, at the first negative
/// answer, and at the first answer that takes the bytes written beyond what a C `int` holds.
pub open spec fn replay(
    t: Seq<u8>,
    args: Seq<VarArg<'_>>,
    s: State,
    log: Seq<(Directive, c_int)>,
) -> Option<c_int>
    decreases log.len(),
{
    match step(t, args, s) {
        Step::End => if log.len() == 0 {
            Some(s.written)
        } else {
            None
        },
        Step::Malformed => if log.len() == 0 {
            Some(-1 as c_int)
        } else {
            None
        },
        Step::Emit(directive, next) => if log.len() == 0 || log[0].0 != directive {
            None
        } else if log[0].1 < 0 || s.written + log[0].1 > c_int::MAX {
            if log.len() == 1 {
                Some(-1 as c_int)
            } else {
                None
            }
        } else {
            replay(t, args, next.with_written(log[0].1), log.skip(1))
        },
    }
}

/// Parse a format parameter and write it somewhere.
///
/// Runs through `template` with the arguments that `args` still holds, and hands each
/// directive to `handler`. Returns the sum of the handler's answers, or -1 on a failure.
pub fn format<H: Handler>(template: &CStr, args: VaList<'_>, handler: &mut H) -> (written: c_int)
    requires
        old(handler).inv(),
    ensures
        final(handler).inv(),
        old(handler).history().is_prefix_of(final(handler).history()),
        replay(
            c_str_bytes(template),
            args.items(),
            State::start(args.position()),
            final(handler).history().skip(old(handler).history().len() as int),
        ) == Some(written),
{
    let bytes = c_str_to_bytes(template);
    let mut parser = Parser::new(bytes, args);
    let ghost t = bytes@;
    let ghost a = args.items();
    let ghost start = State::start(args.position());
    let ghost before = handler.history();
    let ghost mut log = Seq::<(Directive, c_int)>::empty();
    assert forall|rest: Seq<(Directive, c_int)>|
        replay(t, a, start, log + rest) == #[trigger] replay(t, a, parser.state(), rest) by {
        assert(log + rest =~= rest);
    }
    assert(before + log =~= before);
    loop
        invariant
            t == c_str_bytes(template),
            a == args.items(),
            start == State::start(args.position()),
            before == old(handler).history(),
            handler.inv(),
            handler.history() == before + log,
            parser.template() == t,
            parser.args() == a,
            forall|rest: Seq<(Directive, c_int)>|
                replay(t, a, start, log + rest) == #[trigger] replay(t, a, parser.state(), rest),
        decreases parser.state().fuel(t),
    {
        let ghost here = parser.state();
        let ghost so_far = log;
        let ghost none = Seq::<(Directive, c_int)>::empty();
        assert(so_far + none =~= so_far);
        assert((before + so_far).skip(before.len() as int) =~= so_far);
        assert(replay(t, a, start, so_far + none) == replay(t, a, here, none));
        match parser.next() {
            Event::End => {
                return parser.written();
            },
            Event::Malformed => {
                return -1;
            },
            Event::Directive(argument) => {
                let n = handler.handle(argument);
                let ok = parser.record(n);
                proof {
                    let entry = (argument@, n);
                    log = so_far.push(entry);
                    assert(before + log =~= (before + so_far).push(entry));
                    assert((before + log).skip(before.len() as int) =~= log);
                    if ok {
                        assert forall|rest: Seq<(Directive, c_int)>|
                            replay(t, a, start, log + rest) == #[trigger] replay(
                                t,
                                a,
                                parser.state(),
                                rest,
                            ) by {
                            let longer = seq![entry] + rest;
                            assert(log + rest =~= so_far + longer);
                            assert(longer.skip(1) =~= rest);
                            assert(replay(t, a, start, so_far + longer) == replay(
                                t,
                                a,
                                here,
                                longer,
                            ));
                        }
                    } else {
                        let last = seq![entry];
                        assert(log =~= so_far + last);
                        assert(replay(t, a, start, so_far + last) == replay(t, a, here, last));
                    }
                }
                if !ok {
                    return -1;
                }
            },
        }
    }
}

} // verus!
