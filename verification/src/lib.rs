//! `printf` formatting: a format template and a list of variadic arguments are turned into a
//! stream of directives, and each directive into text.
//!
//! - [`parser::format`] runs through a template, fetches the arguments that its conversions ask
//!   for from a [`VaList`], and hands one [`Argument`] per literal run and per conversion to a
//!   [`Handler`]. [`Parser`] does the same one directive at a time.
//! - [`TextSink`] and [`ByteSink`] are handlers that collect the text of the directives, in a
//!   `String` and in a `Vec<u8>`; [`fmt_write`] and [`io_write`] write a single directive.
//!   [`output::display`] formats on demand.
//! - [`argument_kinds`] lists the arguments that a template asks for, for callers that have to
//!   read them from a variadic pack first.
//!
//! # What is proved
//!
//! Every function has a contract that says what it returns, over sequences of bytes.
//! [`parser::step`] says which directive a run hands out next, [`parser::replay`] what a run
//! returns with any handler, [`render::rendering`] what the text of a directive is, and
//! [`output::run`] what a run writes into one of the two sinks. The module [`laws`] holds what
//! follows for every template.
//!
//! # Differences from glibc
//!
//! - `%X` with `#` prints upper-case digits behind a lower-case `0x`.
//! - `%o` with `#` prints `0o` in front of the digits.
//! - `%x`, `%X` and `%o` with `#` keep their prefix when the value is zero.
//! - `%p` prints the null pointer as `0x0`.
//! - `%g`, `%G`, `%a` and `%A` are written like `%f` and `%F`.
//! - The digits of a floating-point number are not produced here. Both sinks refuse such a
//!   directive; [`render_double`] and [`render_scientific`] lay out the field around digits
//!   that the caller supplies.
//! - `%n` writes nothing: [`ByteSink`] passes over it and [`TextSink`] refuses it.
//! - A template that ends inside a conversion (`"100%"`) ends the run without an error and
//!   without output for the unfinished conversion.
//! - A width or precision that is written in digits and too large for a C `int` makes the
//!   template malformed. A negative width from a `*` argument leaves nothing to fill, and a
//!   negative precision from a `*` argument cuts nothing off a string.
//! - A run returns -1 as soon as the number of bytes written no longer fits a C `int`.

pub mod argument;
pub mod ascii;
pub mod c_str;
pub mod laws;
pub mod output;
pub mod parser;
pub mod render;
pub mod signature;
pub mod va_list;

pub use argument::{
    Argument, Directive, DoubleFormat, Flags, Payload, SignedInt, Specifier, UnsignedInt,
};
pub use output::{fmt_write, io_write, ByteSink, TextSink};
pub use parser::{Event, Handler, Length, Parser};
pub use render::{double_precision, render, render_double, render_scientific};
pub use signature::{argument_kinds, ArgKind};
pub use va_list::{VaList, VarArg};
