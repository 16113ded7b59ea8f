use cstr_core::CStr;
use printf_compat::parser;
use printf_compat::{
    double_precision, fmt_write, io_write, render_double, render_scientific, Argument, ByteSink,
    Handler, Specifier, TextSink, VaList, VarArg,
};

fn c_str(bytes: &[u8]) -> &CStr {
    CStr::from_bytes_with_nul(bytes).unwrap()
}

/// Formats with the text sink and with the byte sink, which must agree.
fn rust_fmt_both(template: &[u8], args: &[VarArg<'_>]) -> (i32, String) {
    let mut s = TextSink::new();
    let bytes_written = parser::format(c_str(template), VaList::new(args), &mut s);
    assert!(bytes_written >= 0);
    let mut s2 = ByteSink::new();
    assert_eq!(bytes_written, parser::format(c_str(template), VaList::new(args), &mut s2));
    assert_eq!(s.as_str().as_bytes(), s2.as_bytes());
    (bytes_written, s.into_string())
}

fn assert_fmt(template: &[u8], args: &[VarArg<'_>], expected: &str) {
    let (bytes_written, s) = rust_fmt_both(template, args);
    assert_eq!(s, expected);
    assert_eq!(usize::try_from(bytes_written).unwrap(), expected.len());
}

/// The field of a floating-point directive: the digits are made here, and laid out by the
/// library.
fn digits_of_double(argument: &Argument<'_>) -> Option<Vec<u8>> {
    match argument.specifier {
        Specifier::Double { value, format } => {
            let value = f64::from_bits(value);
            let precision = double_precision(argument.precision) as usize;
            let negative = value.is_sign_negative();
            let (flags, width) = (argument.flags, argument.width);
            if format.is_scientific() {
                let text = format!("{:.*e}", precision, value.abs());
                let (mantissa, exponent) = text.split_once('e').unwrap();
                Some(render_scientific(
                    flags,
                    width,
                    negative,
                    mantissa.as_bytes(),
                    exponent.parse().unwrap(),
                    format.is_upper(),
                ))
            } else {
                let text = format!("{:.*}", precision, value.abs());
                Some(render_double(flags, width, negative, text.as_bytes()))
            }
        }
        _ => None,
    }
}

struct TextAndDoubles(String);

impl Handler for TextAndDoubles {
    fn handle(&mut self, argument: Argument<'_>) -> i32 {
        match digits_of_double(&argument) {
            Some(field) => {
                self.0.push_str(core::str::from_utf8(&field).unwrap());
                field.len() as i32
            }
            None => fmt_write(&mut self.0, &argument),
        }
    }
}

struct BytesAndDoubles(Vec<u8>);

impl Handler for BytesAndDoubles {
    fn handle(&mut self, argument: Argument<'_>) -> i32 {
        match digits_of_double(&argument) {
            Some(field) => {
                self.0.extend_from_slice(&field);
                field.len() as i32
            }
            None => io_write(&mut self.0, &argument),
        }
    }
}

fn assert_fmt_double(template: &[u8], args: &[VarArg<'_>], expected: &str) {
    let mut s = TextAndDoubles(String::new());
    let bytes_written = parser::format(c_str(template), VaList::new(args), &mut s);
    assert!(bytes_written >= 0);
    let mut s2 = BytesAndDoubles(Vec::new());
    assert_eq!(bytes_written, parser::format(c_str(template), VaList::new(args), &mut s2));
    assert_eq!(s.0.as_bytes(), &s2.0[..]);
    assert_eq!(s.0, expected);
    assert_eq!(usize::try_from(bytes_written).unwrap(), expected.len());
}

#[test]
fn tests_test_plain() {
    assert_fmt(b"abc\0", &[], "abc");
    assert_fmt(b"\0", &[], "");
    assert_fmt(b"%%\0", &[], "%");
    assert_fmt(b"%% def\0", &[], "% def");
    assert_fmt(b"abc %%\0", &[], "abc %");
    assert_fmt(b"abc %% def\0", &[], "abc % def");
    assert_fmt(b"abc %%%% def\0", &[], "abc %% def");
    assert_fmt(b"%%%%%%\0", &[], "%%%");
}

#[test]
fn tests_test_str() {
    let world = VarArg::Str(c_str(b"world\0"));
    assert_fmt(b"hello %s\0", &[world], "hello world");
    assert_fmt(b"hello %%%s\0", &[world], "hello %world");
    assert_fmt(b"%10s\0", &[world], "     world");
    assert_fmt(b"%.4s\0", &[world], "worl");
    assert_fmt(b"%10.4s\0", &[world], "      worl");
    assert_fmt(b"%-10.4s\0", &[world], "worl      ");
    assert_fmt(b"%-10s\0", &[world], "world     ");
}

#[test]
fn tests_test_int() {
    let n = VarArg::Int(23125);
    // The width comes first: 23125 columns for the number 17.
    let wide = format!(" {}17", "0".repeat(23122));
    assert_fmt(b"% 0*i\0", &[n, VarArg::Int(17)], &wide);
    assert_fmt(b"% 010i\0", &[n], " 000023125");
    assert_fmt(b"% 10i\0", &[n], "     23125");
    assert_fmt(b"% 5i\0", &[n], " 23125");
    assert_fmt(b"% 4i\0", &[n], " 23125");
    assert_fmt(b"%- 010i\0", &[n], " 23125    ");
    assert_fmt(b"%- 10i\0", &[n], " 23125    ");
    assert_fmt(b"%- 5i\0", &[n], " 23125");
    assert_fmt(b"%- 4i\0", &[n], " 23125");
    assert_fmt(b"%+ 010i\0", &[n], "+000023125");
    assert_fmt(b"%+ 10i\0", &[n], "    +23125");
    assert_fmt(b"%+ 5i\0", &[n], "+23125");
    assert_fmt(b"%+ 4i\0", &[n], "+23125");
    assert_fmt(b"%-010i\0", &[n], "23125     ");
    assert_fmt(b"%-10i\0", &[n], "23125     ");
    assert_fmt(b"%-5i\0", &[n], "23125");
    assert_fmt(b"%-4i\0", &[n], "23125");
}

#[test]
fn tests_test_octal() {
    let n = VarArg::Int(23125);
    assert_fmt(b"% 010o\0", &[n], "0000055125");
    assert_fmt(b"% 10o\0", &[n], "     55125");
    assert_fmt(b"% 5o\0", &[n], "55125");
    assert_fmt(b"% 4o\0", &[n], "55125");
    assert_fmt(b"%- 010o\0", &[n], "55125     ");
    assert_fmt(b"%- 10o\0", &[n], "55125     ");
    assert_fmt(b"%- 5o\0", &[n], "55125");
    assert_fmt(b"%- 4o\0", &[n], "55125");
    assert_fmt(b"%+ 010o\0", &[n], "0000055125");
    assert_fmt(b"%+ 10o\0", &[n], "     55125");
    assert_fmt(b"%+ 5o\0", &[n], "55125");
    assert_fmt(b"%+ 4o\0", &[n], "55125");
    assert_fmt(b"%-010o\0", &[n], "55125     ");
    assert_fmt(b"%-10o\0", &[n], "55125     ");
    assert_fmt(b"%-5o\0", &[n], "55125");
    assert_fmt(b"%-4o\0", &[n], "55125");
}

#[test]
fn tests_test_hex() {
    let n = VarArg::Int(23125);
    assert_fmt(b"% 010x\0", &[n], "0000005a55");
    assert_fmt(b"% 10x\0", &[n], "      5a55");
    assert_fmt(b"% 5x\0", &[n], " 5a55");
    assert_fmt(b"% 4x\0", &[n], "5a55");
    assert_fmt(b"%- 010x\0", &[n], "5a55      ");
    assert_fmt(b"%- 10x\0", &[n], "5a55      ");
    assert_fmt(b"%- 5x\0", &[n], "5a55 ");
    assert_fmt(b"%- 4x\0", &[n], "5a55");
    assert_fmt(b"%+ 010x\0", &[n], "0000005a55");
    assert_fmt(b"%+ 10x\0", &[n], "      5a55");
    assert_fmt(b"%+ 5x\0", &[n], " 5a55");
    assert_fmt(b"%+ 4x\0", &[n], "5a55");
    assert_fmt(b"%-010x\0", &[n], "5a55      ");
    assert_fmt(b"%-10x\0", &[n], "5a55      ");
    assert_fmt(b"%-5x\0", &[n], "5a55 ");
    assert_fmt(b"%-4x\0", &[n], "5a55");

    assert_fmt(b"%# 010x\0", &[n], "0x00005a55");
    assert_fmt(b"%# 10x\0", &[n], "    0x5a55");
    assert_fmt(b"%# 5x\0", &[n], "0x5a55");
    assert_fmt(b"%# 4x\0", &[n], "0x5a55");
    assert_fmt(b"%#- 010x\0", &[n], "0x5a55    ");
    assert_fmt(b"%#- 10x\0", &[n], "0x5a55    ");
    assert_fmt(b"%#- 5x\0", &[n], "0x5a55");
    assert_fmt(b"%#- 4x\0", &[n], "0x5a55");
    assert_fmt(b"%#+ 010x\0", &[n], "0x00005a55");
    assert_fmt(b"%#+ 10x\0", &[n], "    0x5a55");
    assert_fmt(b"%#+ 5x\0", &[n], "0x5a55");
    assert_fmt(b"%#+ 4x\0", &[n], "0x5a55");
    assert_fmt(b"%#-010x\0", &[n], "0x5a55    ");
    assert_fmt(b"%#-10x\0", &[n], "0x5a55    ");
    assert_fmt(b"%#-5x\0", &[n], "0x5a55");
    assert_fmt(b"%#-4x\0", &[n], "0x5a55");

    assert_fmt(b"% 010X\0", &[n], "0000005A55");
    assert_fmt(b"% 10X\0", &[n], "      5A55");
    assert_fmt(b"% 5X\0", &[n], " 5A55");
    assert_fmt(b"% 4X\0", &[n], "5A55");
    assert_fmt(b"%- 010X\0", &[n], "5A55      ");
    assert_fmt(b"%- 10X\0", &[n], "5A55      ");
    assert_fmt(b"%- 5X\0", &[n], "5A55 ");
    assert_fmt(b"%- 4X\0", &[n], "5A55");
    assert_fmt(b"%+ 010X\0", &[n], "0000005A55");
    assert_fmt(b"%+ 10X\0", &[n], "      5A55");
    assert_fmt(b"%+ 5X\0", &[n], " 5A55");
    assert_fmt(b"%+ 4X\0", &[n], "5A55");
    assert_fmt(b"%-010X\0", &[n], "5A55      ");
    assert_fmt(b"%-10X\0", &[n], "5A55      ");
    assert_fmt(b"%-5X\0", &[n], "5A55 ");
    assert_fmt(b"%-4X\0", &[n], "5A55");
}

#[test]
fn tests_test_float() {
    let x = VarArg::Double(1234f64.to_bits());
    assert_fmt_double(b"%f\0", &[x], "1234.000000");
    assert_fmt_double(b"%.5f\0", &[x], "1234.00000");
    // The precision that `*` asks for is fetched before the number.
    assert_fmt_double(b"%.*f\0", &[VarArg::Int(3), x], "1234.000");
}

#[test]
fn tests_test_char() {
    let a = VarArg::Int(b'a' as i32);
    assert_fmt(b"%c\0", &[a], "a");
    assert_fmt(b"%10c\0", &[a], "         a");
    assert_fmt(b"%-10c\0", &[a], "a         ");
}
