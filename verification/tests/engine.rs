use cstr_core::CStr;
use printf_compat::output::display;
use printf_compat::parser;
use printf_compat::parser::{parse_flags, parse_length, parse_precision, parse_width};
use printf_compat::{
    argument_kinds, double_precision, fmt_write, io_write, render, render_double,
    render_scientific, ArgKind, Argument, ByteSink, DoubleFormat, Event, Flags, Handler, Length,
    Parser, SignedInt, Specifier, TextSink, UnsignedInt, VaList, VarArg,
};

fn cstr(bytes: &[u8]) -> &CStr {
    CStr::from_bytes_with_nul(bytes).unwrap()
}

fn to_bytes(template: &[u8], args: &[VarArg<'_>]) -> (i32, Vec<u8>) {
    let mut sink = ByteSink::new();
    let written = parser::format(cstr(template), VaList::new(args), &mut sink);
    (written, sink.into_bytes())
}

fn to_text(template: &[u8], args: &[VarArg<'_>]) -> (i32, String) {
    let mut sink = TextSink::new();
    let written = parser::format(cstr(template), VaList::new(args), &mut sink);
    (written, sink.into_string())
}

/// Both sinks succeed and agree on `expected`.
fn expect(template: &[u8], args: &[VarArg<'_>], expected: &str) {
    assert_eq!(to_text(template, args), (expected.len() as i32, expected.to_string()));
    assert_eq!(to_bytes(template, args), (expected.len() as i32, expected.as_bytes().to_vec()));
}

/// A handler that answers from a script and keeps what it was given.
struct Scripted {
    answers: Vec<i32>,
    seen: Vec<String>,
}

impl Handler for Scripted {
    fn handle(&mut self, argument: Argument<'_>) -> i32 {
        self.seen.push(format!("{:?}", argument.specifier));
        self.answers.remove(0)
    }
}

#[test]
fn template_that_ends_inside_a_conversion() {
    expect(b"abc%\0", &[], "abc");
    expect(b"%\0", &[], "");
    expect(b"%%%\0", &[], "%");
    expect(b"abc%-5\0", &[], "abc");
    expect(b"abc%.3l\0", &[], "abc");
    // A `*` in the unfinished conversion still needs its argument.
    expect(b"abc%*\0", &[VarArg::Int(4)], "abc");
    assert_eq!(to_bytes(b"abc%*\0", &[]), (-1, b"abc".to_vec()));
}

#[test]
fn unknown_conversion_fails_and_keeps_what_was_written() {
    assert_eq!(to_bytes(b"abc%y def\0", &[]), (-1, b"abc".to_vec()));
    assert_eq!(to_text(b"abc%y def\0", &[]), (-1, "abc".to_string()));
    assert_eq!(to_bytes(b"%d%k\0", &[VarArg::Int(7)]), (-1, b"7".to_vec()));
}

#[test]
fn missing_or_mistyped_argument_fails() {
    assert_eq!(to_bytes(b"%d\0", &[]), (-1, Vec::new()));
    assert_eq!(to_bytes(b"%d\0", &[VarArg::Long(1)]), (-1, Vec::new()));
    assert_eq!(to_bytes(b"%ld\0", &[VarArg::Int(1)]), (-1, Vec::new()));
    assert_eq!(to_bytes(b"%lld\0", &[VarArg::Long(1)]), (-1, Vec::new()));
    assert_eq!(to_bytes(b"%zu\0", &[VarArg::Long(1)]), (-1, Vec::new()));
    assert_eq!(to_bytes(b"%s\0", &[VarArg::Pointer(5)]), (-1, Vec::new()));
    assert_eq!(to_bytes(b"%s\0", &[VarArg::Int(0)]), (-1, Vec::new()));
    assert_eq!(to_bytes(b"%p\0", &[VarArg::Int(0)]), (-1, Vec::new()));
    assert_eq!(to_bytes(b"%c\0", &[VarArg::Double(0)]), (-1, Vec::new()));
    assert_eq!(to_bytes(b"%*d\0", &[VarArg::Long(3), VarArg::Int(1)]), (-1, Vec::new()));
    assert_eq!(to_bytes(b"%d %d\0", &[VarArg::Int(1)]), (-1, b"1 ".to_vec()));
}

#[test]
fn width_or_precision_beyond_a_c_int_is_malformed() {
    assert_eq!(to_bytes(b"%2147483648d\0", &[VarArg::Int(1)]), (-1, Vec::new()));
    assert_eq!(to_bytes(b"%99999999999999999999d\0", &[VarArg::Int(1)]), (-1, Vec::new()));
    assert_eq!(to_bytes(b"%.2147483648s\0", &[VarArg::Str(cstr(b"a\0"))]), (-1, Vec::new()));
    expect(b"%.2147483647s\0", &[VarArg::Str(cstr(b"a\0"))], "a");
    expect(b"%0000000000000000000000012d\0", &[VarArg::Int(1)], "000000000001");
}

#[test]
fn handler_failure_ends_the_run() {
    let mut handler = Scripted { answers: vec![3, -7, 5], seen: Vec::new() };
    let written = parser::format(cstr(b"abc%ddef\0"), VaList::new(&[VarArg::Int(1)]), &mut handler);
    assert_eq!(written, -1);
    assert_eq!(handler.seen.len(), 2);
    assert_eq!(handler.answers, vec![5]);
}

#[test]
fn result_is_the_sum_of_the_answers() {
    let mut handler = Scripted { answers: vec![10, 200, 3000], seen: Vec::new() };
    let written = parser::format(cstr(b"abc%ddef\0"), VaList::new(&[VarArg::Int(1)]), &mut handler);
    assert_eq!(written, 3210);
    assert_eq!(
        handler.seen,
        vec![
            "Bytes([97, 98, 99])".to_string(),
            "Int(Int(1))".to_string(),
            "Bytes([100, 101, 102])".to_string()
        ]
    );
}

#[test]
fn count_beyond_a_c_int_fails() {
    let mut handler = Scripted { answers: vec![i32::MAX, 1, 1], seen: Vec::new() };
    let written = parser::format(cstr(b"abc%ddef\0"), VaList::new(&[VarArg::Int(1)]), &mut handler);
    assert_eq!(written, -1);
    assert_eq!(handler.seen.len(), 2);
    let mut handler = Scripted { answers: vec![i32::MAX, 0, 0], seen: Vec::new() };
    let written = parser::format(cstr(b"abc%ddef\0"), VaList::new(&[VarArg::Int(1)]), &mut handler);
    assert_eq!(written, i32::MAX);
}

#[test]
fn plain_template_is_written_as_it_is() {
    expect(b"\0", &[], "");
    expect(b"no conversion here\0", &[], "no conversion here");
    expect(b"arguments are left alone\0", &[VarArg::Int(1)], "arguments are left alone");
    let mut handler = Scripted { answers: vec![5], seen: Vec::new() };
    assert_eq!(parser::format(cstr(b"hello\0"), VaList::new(&[]), &mut handler), 5);
    assert_eq!(handler.seen, vec!["Bytes([104, 101, 108, 108, 111])".to_string()]);
}

#[test]
fn percent_signs_come_in_pairs() {
    for n in 0..12usize {
        let mut template = vec![b'%'; n];
        template.push(0);
        expect(&template, &[], &"%".repeat(n / 2));
    }
    expect(b"%5%\0", &[], "%");
    expect(b"%-05.3%|\0", &[], "%|");
    expect(b"%%%d%%\0", &[VarArg::Int(5)], "%5%");
}

#[test]
fn directives_of_a_template() {
    let args = [VarArg::Int(7)];
    let mut parser = Parser::new(b"a%%b%d", VaList::new(&args));
    let mut seen = Vec::new();
    loop {
        match parser.next() {
            Event::Directive(argument) => {
                assert_eq!(argument.flags, Flags::empty());
                assert_eq!(argument.width, 0);
                assert_eq!(argument.precision, None);
                seen.push(format!("{:?}", argument.specifier));
                assert!(parser.record(1));
            }
            Event::End => break,
            Event::Malformed => panic!("malformed"),
        }
    }
    assert_eq!(
        seen,
        vec!["Bytes([97])", "Percent", "Bytes([])", "Bytes([98])", "Int(Int(7))", "Bytes([])"]
    );
    assert_eq!(parser.written(), 6);
    assert_eq!(parser.next(), Event::End);
}

#[test]
fn parser_after_a_malformed_template() {
    let mut parser = Parser::new(b"%q", VaList::new(&[]));
    assert_eq!(
        parser.next(),
        Event::Directive(Argument::from(Specifier::Bytes(b"")))
    );
    assert_eq!(parser.next(), Event::Malformed);
    assert_eq!(parser.next(), Event::End);
}

#[test]
fn record_refuses_failure_and_overflow() {
    let mut parser = Parser::new(b"", VaList::new(&[]));
    assert!(parser.record(5));
    assert!(!parser.record(-1));
    assert_eq!(parser.written(), 5);
    assert!(!parser.record(i32::MAX - 4));
    assert_eq!(parser.written(), 5);
    assert!(parser.record(i32::MAX - 5));
    assert_eq!(parser.written(), i32::MAX);
}

#[test]
fn conversion_with_all_fields() {
    let args = [VarArg::Int(12), VarArg::Int(3), VarArg::Long(-9)];
    let mut parser = Parser::new(b"%-+ 0'#*.*ld", VaList::new(&args));
    assert_eq!(parser.next(), Event::Directive(Argument::from(Specifier::Bytes(b""))));
    let expected = Argument {
        flags: Flags::from_bits(0b0011_1111),
        width: 12,
        precision: Some(3),
        specifier: Specifier::Int(SignedInt::Long(-9)),
    };
    assert_eq!(parser.next(), Event::Directive(expected));
}

#[test]
fn conversions_and_their_arguments() {
    let text = cstr(b"text\0");
    let args = [
        VarArg::Int(-1),
        VarArg::Int(-1),
        VarArg::Int(0x1ff),
        VarArg::Int(0x1ffff),
        VarArg::Long(-1),
        VarArg::LongLong(-1),
        VarArg::Size(9),
        VarArg::Size(usize::MAX),
        VarArg::Double(1.5f64.to_bits()),
        VarArg::Double(2.5f64.to_bits()),
        VarArg::Str(text),
        VarArg::Pointer(0),
        VarArg::Int(0x141),
        VarArg::Pointer(0xbeef),
        VarArg::Pointer(0xcafe),
    ];
    let template = b"%d%u%hhx%hX%lo%llu%zu%ti%e%G%s%s%c%p%n";
    let mut parser = Parser::new(template, VaList::new(&args));
    let mut seen = Vec::new();
    loop {
        match parser.next() {
            Event::Directive(argument) => {
                if argument.specifier != Specifier::Bytes(b"") {
                    seen.push(argument.specifier);
                }
                assert!(parser.record(2));
            }
            Event::End => break,
            Event::Malformed => panic!("malformed"),
        }
    }
    assert_eq!(
        seen,
        vec![
            Specifier::Int(SignedInt::Int(-1)),
            Specifier::Uint(UnsignedInt::Int(u32::MAX)),
            Specifier::Hex(UnsignedInt::Char(0xff)),
            Specifier::UpperHex(UnsignedInt::Short(0xffff)),
            Specifier::Octal(UnsignedInt::Long(u64::MAX)),
            Specifier::Uint(UnsignedInt::LongLong(u64::MAX)),
            Specifier::Uint(UnsignedInt::Isize(9)),
            Specifier::Int(SignedInt::Isize(-1)),
            Specifier::Double { value: 1.5f64.to_bits(), format: DoubleFormat::Scientific },
            Specifier::Double { value: 2.5f64.to_bits(), format: DoubleFormat::UpperAuto },
            Specifier::String(text),
            Specifier::Bytes(b"(null)"),
            Specifier::Char(0x41),
            Specifier::Pointer(0xbeef),
            // 14 conversions and 15 literal runs came before, each counted as 2 bytes.
            Specifier::WriteBytesWritten(58, 0xcafe),
        ]
    );
}

#[test]
fn double_conversions() {
    let cases: [(&[u8], DoubleFormat); 8] = [
        (b"%f", DoubleFormat::Normal),
        (b"%F", DoubleFormat::UpperNormal),
        (b"%e", DoubleFormat::Scientific),
        (b"%E", DoubleFormat::UpperScientific),
        (b"%g", DoubleFormat::Auto),
        (b"%G", DoubleFormat::UpperAuto),
        (b"%a", DoubleFormat::Hex),
        (b"%A", DoubleFormat::UpperHex),
    ];
    for (template, format) in cases {
        let args = [VarArg::Double(7)];
        let mut parser = Parser::new(template, VaList::new(&args));
        parser.next();
        assert_eq!(
            parser.next(),
            Event::Directive(Argument::from(Specifier::Double { value: 7, format }))
        );
    }
    // A length modifier does not change what is fetched for a floating-point number.
    let args = [VarArg::Double(7)];
    let mut parser = Parser::new(b"%lf", VaList::new(&args));
    parser.next();
    assert_eq!(
        parser.next(),
        Event::Directive(Argument::from(Specifier::Double {
            value: 7,
            format: DoubleFormat::Normal
        }))
    );
}

#[test]
fn both_sinks_refuse_doubles() {
    let argument = Argument::from(Specifier::Double { value: 0, format: DoubleFormat::Normal });
    assert_eq!(render(&argument), None);
    let mut text = String::from("kept");
    assert_eq!(fmt_write(&mut text, &argument), -1);
    assert_eq!(text, "kept");
    let mut bytes = b"kept".to_vec();
    assert_eq!(io_write(&mut bytes, &argument), -1);
    assert_eq!(bytes, b"kept");
    assert_eq!(to_bytes(b"a%fb\0", &[VarArg::Double(0)]), (-1, b"a".to_vec()));
}

#[test]
fn bytes_written_directive() {
    let args = [VarArg::Pointer(0x1000)];
    assert_eq!(to_bytes(b"ab%ncd\0", &args), (4, b"abcd".to_vec()));
    assert_eq!(to_text(b"ab%ncd\0", &args), (-1, "ab".to_string()));
    let argument = Argument::from(Specifier::WriteBytesWritten(2, 0x1000));
    assert_eq!(render(&argument), None);
}

#[test]
fn integer_precision_is_the_least_number_of_digits() {
    let n = [VarArg::Int(23125)];
    expect(b"%.8d\0", &n, "00023125");
    expect(b"%.2d\0", &n, "23125");
    expect(b"%.0d\0", &n, "23125");
    expect(b"%10.8d\0", &n, "  00023125");
    expect(b"%-10.8d|\0", &n, "00023125  |");
    expect(b"%010.8d\0", &n, "  00023125");
    expect(b"%010d\0", &n, "0000023125");
    expect(b"%+.8d\0", &n, "+00023125");
    expect(b"% .8d\0", &n, " 00023125");
    expect(b"%.8u\0", &n, "00023125");
    expect(b"%.8o\0", &n, "00055125");
    expect(b"%#.6x\0", &n, "0x005a55");
    expect(b"%#10.6X\0", &n, "  0x005A55");
    expect(b"%.3d\0", &[VarArg::Int(-5)], "-005");
    expect(b"%.0d\0", &[VarArg::Int(0)], "0");
}

#[test]
fn alternate_form() {
    let n = [VarArg::Int(23125)];
    expect(b"%#o\0", &n, "0o55125");
    expect(b"%#x\0", &n, "0x5a55");
    expect(b"%#X\0", &n, "0x5A55");
    expect(b"%#u\0", &n, "23125");
    expect(b"%#d\0", &n, "23125");
    expect(b"%#x\0", &[VarArg::Int(0)], "0x0");
    expect(b"%#o\0", &[VarArg::Int(0)], "0o0");
    expect(b"%#010o\0", &n, "0o00055125");
}

#[test]
fn signs() {
    expect(b"%d\0", &[VarArg::Int(-5)], "-5");
    expect(b"%d\0", &[VarArg::Int(0)], "0");
    expect(b"%+d\0", &[VarArg::Int(0)], "+0");
    expect(b"% d\0", &[VarArg::Int(0)], " 0");
    expect(b"%+d\0", &[VarArg::Int(-5)], "-5");
    expect(b"% d\0", &[VarArg::Int(-5)], "-5");
    expect(b"% +d\0", &[VarArg::Int(5)], "+5");
    expect(b"%05d\0", &[VarArg::Int(-5)], "-0005");
    expect(b"%5d\0", &[VarArg::Int(-5)], "   -5");
    expect(b"%-5d|\0", &[VarArg::Int(-5)], "-5   |");
    expect(b"%+u\0", &[VarArg::Int(5)], "5");
    expect(b"% x\0", &[VarArg::Int(5)], "5");
    expect(b"%'d\0", &[VarArg::Int(1234567)], "1234567");
}

#[test]
fn integer_limits() {
    expect(b"%d\0", &[VarArg::Int(i32::MIN)], "-2147483648");
    expect(b"%d\0", &[VarArg::Int(i32::MAX)], "2147483647");
    expect(b"%lld\0", &[VarArg::LongLong(i64::MIN)], "-9223372036854775808");
    expect(b"%lld\0", &[VarArg::LongLong(i64::MAX)], "9223372036854775807");
    expect(b"%llu\0", &[VarArg::LongLong(-1)], "18446744073709551615");
    expect(b"%llx\0", &[VarArg::LongLong(-1)], "ffffffffffffffff");
    expect(b"%llo\0", &[VarArg::LongLong(-1)], "1777777777777777777777");
    expect(b"%u\0", &[VarArg::Int(-1)], "4294967295");
}

#[test]
fn length_modifiers_narrow_the_int() {
    expect(b"%hhi\0", &[VarArg::Int(0xFFFFFF83u32 as i32)], "-125");
    expect(b"%hhi\0", &[VarArg::Int(0x183)], "-125");
    expect(b"%hhi\0", &[VarArg::Int(0x17f)], "127");
    expect(b"%hhu\0", &[VarArg::Int(0x183)], "131");
    expect(b"%hhu\0", &[VarArg::Int(-1)], "255");
    expect(b"%hi\0", &[VarArg::Int(0x18000)], "-32768");
    expect(b"%hu\0", &[VarArg::Int(-1)], "65535");
    expect(b"%hx\0", &[VarArg::Int(0x12345)], "2345");
}

#[test]
fn width_and_precision_from_arguments() {
    expect(b"%*d\0", &[VarArg::Int(6), VarArg::Int(42)], "    42");
    expect(b"%-*d|\0", &[VarArg::Int(6), VarArg::Int(42)], "42    |");
    expect(b"%.*s\0", &[VarArg::Int(2), VarArg::Str(cstr(b"world\0"))], "wo");
    expect(
        b"%*.*s\0",
        &[VarArg::Int(4), VarArg::Int(2), VarArg::Str(cstr(b"world\0"))],
        "  wo",
    );
    // A negative width leaves nothing to fill, a negative precision cuts nothing off.
    expect(b"%*d\0", &[VarArg::Int(-6), VarArg::Int(42)], "42");
    expect(b"%.*s\0", &[VarArg::Int(-1), VarArg::Str(cstr(b"world\0"))], "world");
}

#[test]
fn pointers() {
    expect(b"%p\0", &[VarArg::Pointer(0x5a55)], "0x5a55");
    expect(b"%p\0", &[VarArg::Pointer(0)], "0x0");
    expect(b"%10p\0", &[VarArg::Pointer(0x5a55)], "    0x5a55");
    expect(b"%-10p|\0", &[VarArg::Pointer(0x5a55)], "0x5a55    |");
    expect(b"%010p\0", &[VarArg::Pointer(0x5a55)], "0x00005a55");
    expect(b"%#p\0", &[VarArg::Pointer(0x5a55)], "0x5a55");
    expect(b"%.8p\0", &[VarArg::Pointer(0x5a55)], "0x5a55");
}

#[test]
fn characters() {
    expect(b"%c\0", &[VarArg::Int(0x141)], "A");
    expect(b"%3c\0", &[VarArg::Int(0x41)], "  A");
    expect(b"%-3c|\0", &[VarArg::Int(0x41)], "A  |");
    expect(b"%03c\0", &[VarArg::Int(0x41)], "  A");
    expect(b"%.0c\0", &[VarArg::Int(0x41)], "A");
    // A byte that is no text on its own.
    assert_eq!(to_bytes(b"%c\0", &[VarArg::Int(0xe9)]), (1, vec![0xe9]));
    assert_eq!(to_text(b"%c\0", &[VarArg::Int(0xe9)]), (-1, String::new()));
    assert_eq!(to_bytes(b"%c\0", &[VarArg::Int(0)]), (1, vec![0]));
}

#[test]
fn strings() {
    expect(b"%s\0", &[VarArg::Str(cstr(b"\0"))], "");
    expect(b"%3s|\0", &[VarArg::Str(cstr(b"\0"))], "   |");
    expect(b"%.0s|\0", &[VarArg::Str(cstr(b"world\0"))], "|");
    expect(b"%.5s\0", &[VarArg::Str(cstr(b"world\0"))], "world");
    expect(b"%.9s\0", &[VarArg::Str(cstr(b"world\0"))], "world");
    expect(b"%010s\0", &[VarArg::Str(cstr(b"world\0"))], "     world");
    expect(b"%.3s\0", &[VarArg::Pointer(0)], "(nu");
    expect(b"%8s\0", &[VarArg::Pointer(0)], "  (null)");
}

#[test]
fn text_sink_takes_valid_utf8_only() {
    let e_acute = cstr(b"\xc3\xa9\0");
    expect(b"%s\0", &[VarArg::Str(e_acute)], "\u{e9}");
    // Width and precision count bytes.
    expect(b"%3s\0", &[VarArg::Str(e_acute)], " \u{e9}");
    assert_eq!(to_bytes(b"%.1s\0", &[VarArg::Str(e_acute)]), (1, vec![0xc3]));
    assert_eq!(to_text(b"%.1s\0", &[VarArg::Str(e_acute)]), (-1, String::new()));
    let broken = cstr(b"a\xffb\0");
    assert_eq!(to_bytes(b"<%s>\0", &[VarArg::Str(broken)]), (5, b"<a\xffb>".to_vec()));
    assert_eq!(to_text(b"<%s>\0", &[VarArg::Str(broken)]), (-1, "<".to_string()));
    assert_eq!(to_bytes(b"\xff\0", &[]), (1, vec![0xff]));
    assert_eq!(to_text(b"\xff\0", &[]), (-1, String::new()));
    expect(b"\xc3\xa9 %d\0", &[VarArg::Int(1)], "\u{e9} 1");
}

#[test]
fn sinks_append() {
    let argument = Argument {
        flags: Flags::from_bits(Flags::LEFT_ALIGN),
        width: 4,
        precision: Some(2),
        specifier: Specifier::Bytes(b"abc"),
    };
    let mut text = String::from(">");
    assert_eq!(fmt_write(&mut text, &argument), 4);
    assert_eq!(text, ">ab  ");
    let mut bytes = b">".to_vec();
    assert_eq!(io_write(&mut bytes, &argument), 4);
    assert_eq!(bytes, b">ab  ");
    assert_eq!(render(&argument), Some(b"ab  ".to_vec()));
}

#[test]
fn double_fields() {
    let none = Flags::empty();
    assert_eq!(render_double(none, 0, false, b"1234.500"), b"1234.500");
    assert_eq!(render_double(none, 0, true, b"1234.500"), b"-1234.500");
    assert_eq!(render_double(none, 12, true, b"1234.500"), b"   -1234.500");
    assert_eq!(
        render_double(Flags::from_bits(Flags::PREPEND_ZERO), 12, true, b"1234.500"),
        b"-0001234.500"
    );
    assert_eq!(
        render_double(Flags::from_bits(Flags::PREPEND_PLUS), 0, false, b"1.5"),
        b"+1.5"
    );
    assert_eq!(
        render_double(Flags::from_bits(Flags::PREPEND_SPACE), 0, false, b"1.5"),
        b" 1.5"
    );
    assert_eq!(
        render_double(
            Flags::from_bits(Flags::PREPEND_SPACE | Flags::PREPEND_PLUS),
            0,
            false,
            b"1.5"
        ),
        b"+1.5"
    );
    assert_eq!(
        render_double(Flags::from_bits(Flags::LEFT_ALIGN | Flags::PREPEND_ZERO), 6, false, b"1.5"),
        b"1.5   "
    );
    assert_eq!(render_double(none, -3, false, b"1.5"), b"1.5");
    // A whole number gets its decimal point under `#`, and nothing else does.
    let alternate = Flags::from_bits(Flags::ALTERNATE_FORM);
    assert_eq!(render_double(alternate, 0, false, b"12"), b"12.");
    assert_eq!(render_double(alternate, 5, true, b"12"), b" -12.");
    assert_eq!(render_double(alternate, 0, false, b"1.5"), b"1.5");
    assert_eq!(render_double(alternate, 0, false, b"inf"), b"inf");
    assert_eq!(render_double(alternate, 0, false, b""), b"");
    assert_eq!(render_double(none, 0, false, b"12"), b"12");
}

#[test]
fn scientific_fields() {
    let none = Flags::empty();
    assert_eq!(render_scientific(none, 0, false, b"1.5", 3, false), b"1.5e+03");
    assert_eq!(render_scientific(none, 0, true, b"1.5", -3, true), b"-1.5E-03");
    assert_eq!(render_scientific(none, 0, false, b"1.5", 0, false), b"1.5e+00");
    assert_eq!(render_scientific(none, 0, false, b"1.5", 10, false), b"1.5e+10");
    assert_eq!(render_scientific(none, 0, false, b"1.5", -308, false), b"1.5e-308");
    assert_eq!(
        render_scientific(none, 0, false, b"1", i32::MIN, false),
        b"1e-2147483648"
    );
    assert_eq!(render_scientific(none, 10, false, b"1.5", 3, false), b"   1.5e+03");
    assert_eq!(
        render_scientific(Flags::from_bits(Flags::PREPEND_ZERO), 10, true, b"1.5", 3, false),
        b"-001.5e+03"
    );
    assert_eq!(
        render_scientific(Flags::from_bits(Flags::LEFT_ALIGN), 10, false, b"1.5", 3, false),
        b"1.5e+03   "
    );
    assert_eq!(
        render_scientific(Flags::from_bits(Flags::ALTERNATE_FORM), 0, false, b"2", 3, false),
        b"2.e+03"
    );
}

#[test]
fn precision_of_a_double() {
    assert_eq!(double_precision(None), 6);
    assert_eq!(double_precision(Some(0)), 0);
    assert_eq!(double_precision(Some(17)), 17);
    assert_eq!(double_precision(Some(-1)), 6);
    assert!(DoubleFormat::Scientific.is_scientific());
    assert!(DoubleFormat::UpperScientific.is_scientific());
    assert!(!DoubleFormat::Normal.is_scientific());
    assert!(!DoubleFormat::UpperAuto.is_scientific());
    assert!(!DoubleFormat::Hex.is_scientific());
}

#[test]
fn display_formats_on_demand() {
    let args = [VarArg::Str(cstr(b"world\0"))];
    let mut shown = display(cstr(b"hello %s\0"), VaList::new(&args));
    assert_eq!(shown.bytes_written(), 0);
    assert_eq!(shown.to_string(), Some("hello world".to_string()));
    assert_eq!(shown.bytes_written(), 11);
    assert_eq!(shown.to_string(), Some("hello world".to_string()));
    let mut failing = display(cstr(b"hello %s\0"), VaList::new(&[]));
    assert_eq!(failing.to_string(), None);
    assert_eq!(failing.bytes_written(), -1);
}

#[test]
fn flags_are_a_set_of_bits() {
    assert_eq!(Flags::empty().bits(), 0);
    assert_eq!(Flags::from_bits(0b101).bits(), 0b101);
    let mut flags = Flags::empty();
    assert!(!flags.contains(Flags::LEFT_ALIGN));
    flags.insert(Flags::LEFT_ALIGN);
    flags.insert(Flags::ALTERNATE_FORM);
    flags.insert(Flags::LEFT_ALIGN);
    assert_eq!(flags.bits(), 0b10_0001);
    assert!(flags.contains(Flags::LEFT_ALIGN));
    assert!(flags.contains(Flags::ALTERNATE_FORM));
    assert!(flags.contains(Flags::LEFT_ALIGN | Flags::ALTERNATE_FORM));
    assert!(!flags.contains(Flags::PREPEND_ZERO));
    assert!(!flags.contains(Flags::LEFT_ALIGN | Flags::PREPEND_ZERO));
    assert_eq!(
        [
            Flags::LEFT_ALIGN,
            Flags::PREPEND_PLUS,
            Flags::PREPEND_SPACE,
            Flags::PREPEND_ZERO,
            Flags::THOUSANDS_GROUPING,
            Flags::ALTERNATE_FORM
        ],
        [1, 2, 4, 8, 16, 32]
    );
}

#[test]
fn parse_flags_reads_the_run_of_flags() {
    assert_eq!(parse_flags(b"-+ 0'#x", 0), (Flags::from_bits(0b11_1111), 6));
    assert_eq!(parse_flags(b"d", 0), (Flags::empty(), 0));
    assert_eq!(parse_flags(b"", 0), (Flags::empty(), 0));
    assert_eq!(parse_flags(b"--0-5d", 0), (Flags::from_bits(0b1001), 4));
    assert_eq!(parse_flags(b"ab#", 2), (Flags::from_bits(0b10_0000), 3));
    assert_eq!(parse_flags(b"ab#", 7), (Flags::empty(), 7));
}

#[test]
fn parse_width_reads_digits_or_a_star() {
    let args = [VarArg::Int(17), VarArg::Long(3)];
    let mut list = VaList::new(&args);
    assert_eq!(parse_width(b"123x", 0, &mut list), Some((123, 3)));
    assert_eq!(parse_width(b"x", 0, &mut list), Some((0, 0)));
    assert_eq!(parse_width(b"", 0, &mut list), Some((0, 0)));
    assert_eq!(parse_width(b"007", 1, &mut list), Some((7, 3)));
    assert_eq!(parse_width(b"2147483647", 0, &mut list), Some((i32::MAX, 10)));
    assert_eq!(parse_width(b"2147483648", 0, &mut list), None);
    // Nothing has been fetched so far.
    assert_eq!(parse_width(b"*d", 0, &mut list), Some((17, 1)));
    // The next argument is no `int`, and stays.
    assert_eq!(parse_width(b"*d", 0, &mut list), None);
    assert_eq!(list.fetch_long(), Some(3));
    assert_eq!(parse_width(b"*d", 0, &mut list), None);
}

#[test]
fn parse_precision_reads_a_dot_and_a_width() {
    let args = [VarArg::Int(4)];
    let mut list = VaList::new(&args);
    assert_eq!(parse_precision(b".5d", 0, &mut list), Some((Some(5), 2)));
    assert_eq!(parse_precision(b"5d", 0, &mut list), Some((None, 0)));
    assert_eq!(parse_precision(b".d", 0, &mut list), Some((Some(0), 1)));
    assert_eq!(parse_precision(b".", 0, &mut list), Some((Some(0), 1)));
    assert_eq!(parse_precision(b"", 0, &mut list), Some((None, 0)));
    assert_eq!(parse_precision(b".99999999999d", 0, &mut list), None);
    assert_eq!(parse_precision(b".*d", 0, &mut list), Some((Some(4), 2)));
    assert_eq!(parse_precision(b".*d", 0, &mut list), None);
}

#[test]
fn parse_length_reads_the_modifier() {
    assert_eq!(parse_length(b"hhd", 0), (Length::Char, 2));
    assert_eq!(parse_length(b"hd", 0), (Length::Short, 1));
    assert_eq!(parse_length(b"h", 0), (Length::Short, 1));
    assert_eq!(parse_length(b"lld", 0), (Length::LongLong, 2));
    assert_eq!(parse_length(b"ld", 0), (Length::Long, 1));
    assert_eq!(parse_length(b"lhd", 0), (Length::Long, 1));
    assert_eq!(parse_length(b"zd", 0), (Length::Usize, 1));
    assert_eq!(parse_length(b"td", 0), (Length::Isize, 1));
    assert_eq!(parse_length(b"d", 0), (Length::Int, 0));
    assert_eq!(parse_length(b"", 0), (Length::Int, 0));
    assert_eq!(parse_length(b"xxhh", 2), (Length::Char, 4));
    assert_eq!(parse_length(b"hh", 5), (Length::Int, 5));
}

#[test]
fn lengths_fetch_their_type() {
    let args = [VarArg::Int(-2), VarArg::Int(0x1fe), VarArg::Size(usize::MAX), VarArg::Long(5)];
    let mut list = VaList::new(&args);
    assert_eq!(Length::Long.parse_signed(&mut list), None);
    assert_eq!(Length::Int.parse_signed(&mut list), Some(SignedInt::Int(-2)));
    assert_eq!(Length::Char.parse_unsigned(&mut list), Some(UnsignedInt::Char(0xfe)));
    assert_eq!(Length::Usize.parse_signed(&mut list), Some(SignedInt::Isize(-1)));
    assert_eq!(Length::LongLong.parse_unsigned(&mut list), None);
    assert_eq!(Length::Long.parse_unsigned(&mut list), Some(UnsignedInt::Long(5)));
    assert_eq!(Length::Int.parse_signed(&mut list), None);
}

#[test]
fn typed_fetches() {
    let text = cstr(b"text\0");
    let args = [
        VarArg::Int(1),
        VarArg::Long(2),
        VarArg::LongLong(3),
        VarArg::Size(4),
        VarArg::Double(5),
        VarArg::Pointer(6),
        VarArg::Str(text),
        VarArg::Pointer(0),
    ];
    let mut list = VaList::new(&args);
    assert_eq!(list.fetch_long(), None);
    assert_eq!(list.fetch_int(), Some(1));
    assert_eq!(list.fetch_int(), None);
    assert_eq!(list.fetch_long(), Some(2));
    assert_eq!(list.fetch_long_long(), Some(3));
    assert_eq!(list.fetch_double(), None);
    assert_eq!(list.fetch_usize(), Some(4));
    assert_eq!(list.fetch_double(), Some(5));
    assert_eq!(list.fetch_str(), None);
    assert_eq!(list.fetch_ptr(), Some(6));
    assert_eq!(list.fetch_ptr(), None);
    assert_eq!(list.fetch_str(), Some(Some(text)));
    assert_eq!(list.fetch_str(), Some(None));
    assert_eq!(list.fetch_str(), None);
    assert_eq!(list.fetch_ptr(), None);
    assert_eq!(list.fetch_int(), None);
}

#[test]
fn double_format_case() {
    let lower = [
        DoubleFormat::Normal,
        DoubleFormat::Scientific,
        DoubleFormat::Auto,
        DoubleFormat::Hex,
    ];
    let upper = [
        DoubleFormat::UpperNormal,
        DoubleFormat::UpperScientific,
        DoubleFormat::UpperAuto,
        DoubleFormat::UpperHex,
    ];
    for i in 0..4 {
        assert!(!lower[i].is_upper());
        assert!(upper[i].is_upper());
        assert_eq!(lower[i].set_upper(true), upper[i]);
        assert_eq!(lower[i].set_upper(false), lower[i]);
        assert_eq!(upper[i].set_upper(true), upper[i]);
        assert_eq!(upper[i].set_upper(false), lower[i]);
    }
}

#[test]
fn numbers_of_every_type() {
    assert_eq!(i64::from(SignedInt::Int(-5)), -5);
    assert_eq!(i64::from(SignedInt::Char(-128)), -128);
    assert_eq!(i64::from(SignedInt::Short(i16::MAX)), 32767);
    assert_eq!(i64::from(SignedInt::Long(i64::MIN)), i64::MIN);
    assert_eq!(i64::from(SignedInt::LongLong(7)), 7);
    assert_eq!(i64::from(SignedInt::Isize(-1)), -1);
    assert_eq!(u64::from(UnsignedInt::Int(u32::MAX)), 4294967295);
    assert_eq!(u64::from(UnsignedInt::Char(255)), 255);
    assert_eq!(u64::from(UnsignedInt::Short(65535)), 65535);
    assert_eq!(u64::from(UnsignedInt::Long(u64::MAX)), u64::MAX);
    assert_eq!(u64::from(UnsignedInt::LongLong(7)), 7);
    assert_eq!(u64::from(UnsignedInt::Isize(9)), 9);
    assert!(SignedInt::Int(-1).is_sign_negative());
    assert!(SignedInt::Char(-1).is_sign_negative());
    assert!(SignedInt::Short(-1).is_sign_negative());
    assert!(SignedInt::Long(-1).is_sign_negative());
    assert!(SignedInt::LongLong(-1).is_sign_negative());
    assert!(SignedInt::Isize(-1).is_sign_negative());
    assert!(!SignedInt::Int(0).is_sign_negative());
    assert!(!SignedInt::Long(1).is_sign_negative());
}

#[test]
fn numbers_as_text() {
    assert_eq!(SignedInt::Int(-42).to_string(), "-42");
    assert_eq!(SignedInt::Char(0).to_string(), "0");
    assert_eq!(SignedInt::LongLong(i64::MIN).to_string(), "-9223372036854775808");
    assert_eq!(UnsignedInt::Int(23125).to_string(), "23125");
    assert_eq!(UnsignedInt::Int(23125).to_lower_hex(), "5a55");
    assert_eq!(UnsignedInt::Int(23125).to_upper_hex(), "5A55");
    assert_eq!(UnsignedInt::Int(23125).to_octal(), "55125");
    assert_eq!(UnsignedInt::Char(0).to_lower_hex(), "0");
    assert_eq!(UnsignedInt::Long(u64::MAX).to_upper_hex(), "FFFFFFFFFFFFFFFF");
    assert_eq!(UnsignedInt::Short(9).to_octal(), "11");
}

#[test]
fn argument_of_a_specifier() {
    let argument = Argument::from(Specifier::Char(b'x'));
    assert_eq!(argument.flags, Flags::empty());
    assert_eq!(argument.width, 0);
    assert_eq!(argument.precision, None);
    assert_eq!(argument.specifier, Specifier::Char(b'x'));
}

#[test]
fn a_list_that_was_read_before() {
    let args = [VarArg::Int(1), VarArg::Int(2)];
    let mut list = VaList::new(&args);
    assert_eq!(list.fetch_int(), Some(1));
    let mut sink = ByteSink::new();
    assert_eq!(parser::format(cstr(b"%d\0"), list, &mut sink), 1);
    assert_eq!(sink.as_bytes(), b"2");
}

#[test]
fn sinks_collect_over_several_runs() {
    let mut sink = TextSink::new();
    assert_eq!(parser::format(cstr(b"a%d\0"), VaList::new(&[VarArg::Int(1)]), &mut sink), 2);
    assert_eq!(parser::format(cstr(b"b%d\0"), VaList::new(&[VarArg::Int(2)]), &mut sink), 2);
    assert_eq!(sink.as_str(), "a1b2");
}

#[test]
fn kinds_of_the_arguments_of_a_template() {
    assert_eq!(argument_kinds(b""), vec![]);
    assert_eq!(argument_kinds(b"no conversion, 100%% sure"), vec![]);
    assert_eq!(
        argument_kinds(b"%d %*.*f %s %% %ld %lli %zu %tx %hhd %c %p %n %E"),
        vec![
            ArgKind::Int,
            ArgKind::Int,
            ArgKind::Int,
            ArgKind::Double,
            ArgKind::Str,
            ArgKind::Long,
            ArgKind::LongLong,
            ArgKind::Size,
            ArgKind::Size,
            ArgKind::Int,
            ArgKind::Int,
            ArgKind::Pointer,
            ArgKind::Pointer,
            ArgKind::Double,
        ]
    );
    // Nothing is asked for behind the place where the template is malformed or ends.
    assert_eq!(argument_kinds(b"%d %*q %d"), vec![ArgKind::Int, ArgKind::Int]);
    assert_eq!(argument_kinds(b"%d %99999999999d %d"), vec![ArgKind::Int]);
    assert_eq!(argument_kinds(b"%d %.*"), vec![ArgKind::Int, ArgKind::Int]);
    assert_eq!(argument_kinds(b"%5%%d"), vec![ArgKind::Int]);
}

/// A handler that takes everything and writes nothing.
struct TakesAll;

impl Handler for TakesAll {
    fn handle(&mut self, _argument: Argument<'_>) -> i32 {
        0
    }
}

#[test]
fn arguments_of_the_kinds_asked_for_suffice() {
    let empty = cstr(b"\0");
    let templates: [&[u8]; 5] = [
        b"%d %*.*f %s %% %ld %lli %zu %tx %hhd %c %p %n %E\0",
        b"plain\0",
        b"%*d%*d%.*s\0",
        b"%s%s%s%\0",
        b"%d %q %d\0",
    ];
    let malformed = [false, false, false, false, true];
    for (template, malformed) in templates.iter().zip(malformed) {
        let kinds = argument_kinds(&template[..template.len() - 1]);
        let args: Vec<VarArg<'_>> = kinds
            .iter()
            .map(|kind| match kind {
                ArgKind::Int => VarArg::Int(1),
                ArgKind::Long => VarArg::Long(2),
                ArgKind::LongLong => VarArg::LongLong(3),
                ArgKind::Size => VarArg::Size(4),
                ArgKind::Double => VarArg::Double(5),
                ArgKind::Str => VarArg::Str(empty),
                ArgKind::Pointer => VarArg::Pointer(6),
            })
            .collect();
        let written = parser::format(cstr(template), VaList::new(&args), &mut TakesAll);
        assert_eq!(written, if malformed { -1 } else { 0 });
        // One argument less is one too few.
        if !malformed && !args.is_empty() {
            let fewer = &args[..args.len() - 1];
            assert_eq!(parser::format(cstr(template), VaList::new(fewer), &mut TakesAll), -1);
        }
    }
}
