//! Various ways to output formatting data.

use crate::argument::{Argument, Directive, Payload, Specifier};
use crate::c_str::c_str_bytes;
use crate::parser::{lemma_step_advances, replay, step, Handler, State, Step};
use crate::render::{render, rendering};
use crate::va_list::{VaList, VarArg};
use cstr_core::CStr;
use cty::c_int;
use vstd::prelude::*;
use vstd::string::StringExecFns;
use vstd::utf8::{decode_utf8, encode_utf8, valid_utf8};

verus! {

/// What the byte sink writes for a directive: its text; nothing for `%n`. `None` where it
/// refuses the directive: a floating-point number, and a text of more bytes than a C `int`
/// can count.
pub open spec fn byte_text(d: Directive) -> Option<Seq<u8>> {
    match d.payload {
        Payload::WriteBytesWritten(..) => Some(Seq::empty()),
        _ => match rendering(d) {
            Some(text) => if text.len() <= c_int::MAX {
                Some(text)
            } else {
                None
            },
            None => None,
        },
    }
}

/// What the text sink writes for a directive: its text. `None` where it refuses the
/// directive: a floating-point number, `%n`, a text that is not valid UTF-8, and a text of
/// more bytes than a C `int` can count.
pub open spec fn utf8_text(d: Directive) -> Option<Seq<u8>> {
    match rendering(d) {
        Some(text) => if text.len() <= c_int::MAX && valid_utf8(text) {
            Some(text)
        } else {
            None
        },
        None => None,
    }
}

/// The answer of a sink that has written `text`, or has refused where that is `None`: the
/// number of bytes, or -1.
pub open spec fn answer(text: Option<Seq<u8>>) -> c_int {
    match text {
        Some(bytes) => bytes.len() as c_int,
        None => -1 as c_int,
    }
}

/// The encoding of a text is the encoding of its first part followed by that of the rest.
pub proof fn lemma_encode_utf8_add(a: Seq<char>, b: Seq<char>)
    ensures
        encode_utf8(a + b) == encode_utf8(a) + encode_utf8(b),
    decreases a.len(),
{
    if a.len() == 0 {
        assert(a + b =~= b);
        assert(encode_utf8(a) + encode_utf8(b) =~= encode_utf8(b));
    } else {
        lemma_encode_utf8_add(a.drop_first(), b);
        assert((a + b).drop_first() =~= a.drop_first() + b);
        assert(encode_utf8(a + b) =~= encode_utf8(a) + encode_utf8(b));
    }
}

/// Appends `b` to `w` if it is valid UTF-8, and says whether it was.
fn write_str(w: &mut String, b: &[u8]) -> (written: bool)
    ensures
        written == valid_utf8(b@),
        final(w)@ == if written {
            old(w)@ + decode_utf8(b@)
        } else {
            old(w)@
        },
{
    match core::str::from_utf8(b) {
        Ok(string) => {
            proof {
                vstd::utf8::encode_utf8_decode_utf8(string@);
            }
            w.append(string);
            true
        },
        Err(_) => false,
    }
}

/// Write to a `String`.
///
/// Appends the text of the directive to `w` and returns the number of bytes appended; returns
/// -1 and leaves `w` as it is where the text sink refuses the directive.
///
/// # Differences
///
/// There are a few differences from standard printf format:
///
/// - only valid UTF-8 data can be printed.
/// - an `X` format specifier with a `#` flag prints the hex data in uppercase,
///   but the leading `0x` is still lowercase
/// - an `o` format specifier with a `#` flag precedes the number with `0o`
///   instead of `0`
/// - the floating-point specifiers are refused: see
///   [`render_double`][crate::render::render_double]
/// - the `n` format specifier, [`Specifier::WriteBytesWritten`], is not
///   implemented and will cause an error if encountered.
pub fn fmt_write(w: &mut String, argument: &Argument<'_>) -> (n: c_int)
    ensures
        n == answer(utf8_text(argument@)),
        final(w)@ == match utf8_text(argument@) {
            Some(text) => old(w)@ + decode_utf8(text),
            None => old(w)@,
        },
{
    let bytes = match render(argument) {
        Some(bytes) => bytes,
        None => {
            return -1;
        },
    };
    if bytes.len() > c_int::MAX as usize {
        return -1;
    }
    if write_str(w, bytes.as_slice()) {
        bytes.len() as c_int
    } else {
        -1
    }
}

/// Write to a `Vec<u8>`.
///
/// Appends the text of the directive to `w` and returns the number of bytes appended; returns
/// -1 and leaves `w` as it is where the byte sink refuses the directive.
///
/// This shares the same caveats as [`fmt_write`], except that non-UTF-8 data is supported, and
/// that the `n` format specifier is passed over.
pub fn io_write(w: &mut Vec<u8>, argument: &Argument<'_>) -> (n: c_int)
    ensures
        n == answer(byte_text(argument@)),
        final(w)@ == match byte_text(argument@) {
            Some(text) => old(w)@ + text,
            None => old(w)@,
        },
{
    if let Specifier::WriteBytesWritten(..) = argument.specifier {
        assert(w@ + Seq::<u8>::empty() =~= w@);
        return 0;
    }
    match render(argument) {
        Some(bytes) => {
            if bytes.len() > c_int::MAX as usize {
                -1
            } else {
                w.extend_from_slice(bytes.as_slice());
                bytes.len() as c_int
            }
        },
        None => -1,
    }
}

/// Whether each answer in `log` is the one that a sink gives which writes `sink(d)` for the
/// directive `d`.
pub open spec fn faithful(
    log: Seq<(Directive, c_int)>,
    sink: spec_fn(Directive) -> Option<Seq<u8>>,
) -> bool {
    forall|i: int| 0 <= i < log.len() ==> (#[trigger] log[i]).1 == answer(sink(log[i].0))
}

/// What a sink has written that writes `sink(d)` for the directive `d`, once it has been
/// given the directives of `log`.
pub open spec fn written_by(
    log: Seq<(Directive, c_int)>,
    sink: spec_fn(Directive) -> Option<Seq<u8>>,
) -> Seq<u8>
    decreases log.len(),
{
    if log.len() == 0 {
        Seq::empty()
    } else {
        (match sink(log[0].0) {
            Some(text) => text,
            None => Seq::empty(),
        }) + written_by(log.skip(1), sink)
    }
}

/// What a sink has written after one more directive is what it had written before, followed
/// by what it writes for that directive.
pub proof fn lemma_written_by_push(
    log: Seq<(Directive, c_int)>,
    entry: (Directive, c_int),
    sink: spec_fn(Directive) -> Option<Seq<u8>>,
)
    ensures
        written_by(log.push(entry), sink) == written_by(log, sink) + match sink(entry.0) {
            Some(text) => text,
            None => Seq::empty(),
        },
    decreases log.len(),
{
    let piece = match sink(entry.0) {
        Some(text) => text,
        None => Seq::empty(),
    };
    if log.len() == 0 {
        assert(log.push(entry).skip(1) =~= log);
        assert(written_by(log.push(entry), sink) =~= piece + written_by(log, sink));
        assert(written_by(log.push(entry), sink) =~= written_by(log, sink) + piece);
    } else {
        lemma_written_by_push(log.skip(1), entry, sink);
        assert(log.push(entry).skip(1) =~= log.skip(1).push(entry));
        assert(written_by(log.push(entry), sink) =~= written_by(log, sink) + piece);
    }
}

/// What a run through the template `t` with the arguments `args` from the state `s` writes
/// and returns, with a sink that writes `sink(d)` for the directive `d` and refuses it where
/// that is `None`.
///
/// The texts of the directives follow each other in the output. The run returns the bytes
/// written where the template ends, and -1 where the template is malformed, where the sink
/// refuses a directive, and where the bytes written no longer fit a C `int`; what was written
/// before stays.
pub open spec fn run(
    t: Seq<u8>,
    args: Seq<VarArg<'_>>,
    s: State,
    sink: spec_fn(Directive) -> Option<Seq<u8>>,
) -> (Seq<u8>, c_int)
    decreases s.fuel(t),
    when 0 <= s.position <= t.len()
{
    match step(t, args, s) {
        Step::End => (Seq::empty(), s.written),
        Step::Malformed => (Seq::empty(), -1 as c_int),
        Step::Emit(directive, next) => match sink(directive) {
            None => (Seq::empty(), -1 as c_int),
            Some(text) => if s.written + text.len() > c_int::MAX {
                (text, -1 as c_int)
            } else {
                proof {
                    lemma_step_advances(t, args, s);
                }
                let rest = run(t, args, next.with_written(text.len() as c_int), sink);
                (text + rest.0, rest.1)
            },
        },
    }
}

/// The directives that a sink was given in a run, and its answers, determine what the run
/// wrote and returned: what [`run`] says.
pub proof fn lemma_replay_is_run(
    t: Seq<u8>,
    args: Seq<VarArg<'_>>,
    s: State,
    sink: spec_fn(Directive) -> Option<Seq<u8>>,
    log: Seq<(Directive, c_int)>,
    result: c_int,
)
    requires
        0 <= s.position <= t.len(),
        0 <= s.written,
        forall|d: Directive| (#[trigger] sink(d)) matches Some(text) ==> text.len() <= c_int::MAX,
        faithful(log, sink),
        replay(t, args, s, log) == Some(result),
    ensures
        run(t, args, s, sink) == (written_by(log, sink), result),
    decreases log.len(),
{
    match step(t, args, s) {
        Step::Emit(directive, next) => {
            assert(log[0].1 == answer(sink(log[0].0)));
            assert(log.skip(1).len() == log.len() - 1);
            match sink(directive) {
                None => {
                    assert(written_by(log.skip(1), sink) =~= Seq::empty());
                    assert(written_by(log, sink) =~= Seq::empty());
                },
                Some(text) => {
                    if s.written + text.len() > c_int::MAX {
                        assert(written_by(log.skip(1), sink) =~= Seq::empty());
                        assert(written_by(log, sink) =~= text);
                    } else {
                        lemma_step_advances(t, args, s);
                        let rest = log.skip(1);
                        assert forall|i: int| 0 <= i < rest.len() implies (#[trigger] rest[i]).1
                            == answer(sink(rest[i].0)) by {
                            assert(rest[i] == log[i + 1]);
                        }
                        lemma_replay_is_run(
                            t,
                            args,
                            next.with_written(log[0].1),
                            sink,
                            rest,
                            result,
                        );
                    }
                },
            }
        },
        _ => {
            assert(written_by(log, sink) =~= Seq::empty());
        },
    }
}

/// A handler that collects the output as text.
pub struct TextSink {
    text: String,
    log: Ghost<Seq<(Directive, c_int)>>,
}

impl TextSink {
    /// What has been written.
    pub closed spec fn text(&self) -> Seq<char> {
        self.text@
    }

    /// A sink that has written nothing.
    pub fn new() -> (sink: TextSink)
        ensures
            sink.inv(),
            sink.history() == Seq::<(Directive, c_int)>::empty(),
            sink.text() == Seq::<char>::empty(),
    {
        TextSink { text: String::new(), log: Ghost(Seq::empty()) }
    }

    /// What has been written.
    pub fn as_str(&self) -> (text: &str)
        ensures
            text@ == self.text(),
    {
        self.text.as_str()
    }

    /// What has been written.
    pub fn into_string(self) -> (text: String)
        ensures
            text@ == self.text(),
    {
        self.text
    }
}

impl Handler for TextSink {
    /// The answers were those of [`fmt_write`], and the text is what it wrote.
    open spec fn inv(&self) -> bool {
        &&& faithful(self.history(), |d: Directive| utf8_text(d))
        &&& encode_utf8(self.text()) == written_by(self.history(), |d: Directive| utf8_text(d))
    }

    closed spec fn history(&self) -> Seq<(Directive, c_int)> {
        self.log@
    }

    fn handle(&mut self, argument: Argument<'_>) -> (n: c_int) {
        let ghost before = self.text@;
        let n = fmt_write(&mut self.text, &argument);
        proof {
            let sink = |d: Directive| utf8_text(d);
            lemma_written_by_push(self.log@, (argument@, n), sink);
            match utf8_text(argument@) {
                Some(text) => {
                    lemma_encode_utf8_add(before, decode_utf8(text));
                    vstd::utf8::decode_utf8_encode_utf8(text);
                },
                None => {
                    assert(written_by(self.log@, sink) + Seq::<u8>::empty() =~= written_by(
                        self.log@,
                        sink,
                    ));
                },
            }
            self.log@ = self.log@.push((argument@, n));
        }
        n
    }
}

/// A handler that collects the output as bytes.
pub struct ByteSink {
    bytes: Vec<u8>,
    log: Ghost<Seq<(Directive, c_int)>>,
}

impl ByteSink {
    /// What has been written.
    pub closed spec fn bytes(&self) -> Seq<u8> {
        self.bytes@
    }

    /// A sink that has written nothing.
    pub fn new() -> (sink: ByteSink)
        ensures
            sink.inv(),
            sink.history() == Seq::<(Directive, c_int)>::empty(),
            sink.bytes() == Seq::<u8>::empty(),
    {
        ByteSink { bytes: Vec::new(), log: Ghost(Seq::empty()) }
    }

    /// What has been written.
    pub fn as_bytes(&self) -> (bytes: &[u8])
        ensures
            bytes@ == self.bytes(),
    {
        self.bytes.as_slice()
    }

    /// What has been written.
    pub fn into_bytes(self) -> (bytes: Vec<u8>)
        ensures
            bytes@ == self.bytes(),
    {
        self.bytes
    }
}

impl Handler for ByteSink {
    /// The answers were those of [`io_write`], and the bytes are what it wrote.
    open spec fn inv(&self) -> bool {
        &&& faithful(self.history(), |d: Directive| byte_text(d))
        &&& self.bytes() == written_by(self.history(), |d: Directive| byte_text(d))
    }

    closed spec fn history(&self) -> Seq<(Directive, c_int)> {
        self.log@
    }

    fn handle(&mut self, argument: Argument<'_>) -> (n: c_int) {
        let n = io_write(&mut self.bytes, &argument);
        proof {
            let sink = |d: Directive| byte_text(d);
            lemma_written_by_push(self.log@, (argument@, n), sink);
            if byte_text(argument@) is None {
                assert(written_by(self.log@, sink) + Seq::<u8>::empty() =~= written_by(
                    self.log@,
                    sink,
                ));
            }
            self.log@ = self.log@.push((argument@, n));
        }
        n
    }
}

/// Returns an object that formats a template and its arguments as text on demand. This is
/// slightly less performant than using [`fmt_write`], but may be the only option.
///
/// This shares the same caveats as [`fmt_write`].
pub fn display<'a>(format: &'a CStr, va_list: VaList<'a>) -> (display: VaListDisplay<'a>)
    ensures
        display.template() == c_str_bytes(format),
        display.args() == va_list.items(),
        display.fetched() == va_list.position(),
        display.written() == 0,
{
    VaListDisplay { format, va_list, written: 0 }
}

/// Helper struct created by [`display`] for printing `printf`-style formatting as text.
#[derive(Clone, Copy, Debug)]
pub struct VaListDisplay<'a> {
    format: &'a CStr,
    va_list: VaList<'a>,
    written: c_int,
}

impl<'a> VaListDisplay<'a> {
    /// The template.
    pub closed spec fn template(&self) -> Seq<u8> {
        c_str_bytes(self.format)
    }

    /// All arguments of the call.
    pub closed spec fn args(&self) -> Seq<VarArg<'a>> {
        self.va_list.items()
    }

    /// How many of the arguments had been fetched before.
    pub closed spec fn fetched(&self) -> int {
        self.va_list.position()
    }

    /// What the last formatting returned, 0 before the first.
    pub closed spec fn written(&self) -> c_int {
        self.written
    }

    /// What formatting writes and returns.
    pub open spec fn outcome(&self) -> (Seq<u8>, c_int) {
        run(self.template(), self.args(), State::start(self.fetched()), |d: Directive| utf8_text(d))
    }

    /// Get the number of bytes written by the last formatting, or -1 if there was an error.
    pub fn bytes_written(&self) -> (written: c_int)
        ensures
            written == self.written(),
    {
        self.written
    }

    /// Formats the template with its arguments: the text, or `None` if there was an error.
    /// Takes note of the number of bytes written for [`bytes_written`][Self::bytes_written].
    pub fn to_string(&mut self) -> (text: Option<String>)
        ensures
            final(self).template() == old(self).template(),
            final(self).args() == old(self).args(),
            final(self).fetched() == old(self).fetched(),
            final(self).written() == old(self).outcome().1,
            text is Some <==> old(self).outcome().1 >= 0,
            text matches Some(s) ==> encode_utf8(s@) == old(self).outcome().0,
    {
        let mut sink = TextSink::new();
        let written = crate::parser::format(self.format, self.va_list, &mut sink);
        proof {
            let log = sink.history();
            assert(log.skip(0) =~= log);
            lemma_replay_is_run(
                self.template(),
                self.args(),
                State::start(self.fetched()),
                |d: Directive| utf8_text(d),
                log,
                written,
            );
        }
        self.written = written;
        if written < 0 {
            None
        } else {
            Some(sink.into_string())
        }
    }
}

} // verus!
