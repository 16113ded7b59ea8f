//! What holds of every run through a template.

use crate::argument::{Directive, Payload};
use crate::ascii::{is_ascii, lemma_ascii_is_utf8, PERCENT};
use crate::output::{byte_text, lemma_replay_is_run, run, utf8_text, ByteSink, TextSink};
use crate::parser::{
    decimal, digits_end, flag_bits, flags_end, lemma_step_advances, length_at, literal_end,
    precision_at, replay, step, width_at, Handler, Length, Phase, State, Step,
};
use crate::render::{rendering, repeat, text_field};
use crate::signature::{asked_by_conversion, asked_by_precision, asked_by_width};
use crate::va_list::VarArg;
use cty::c_int;
use vstd::prelude::*;
use vstd::utf8::{encode_utf8, valid_utf8};

verus! {

/// The sum of the answers in `log`.
pub open spec fn total(log: Seq<(Directive, c_int)>) -> int
    decreases log.len(),
{
    if log.len() == 0 {
        0
    } else {
        log[0].1 + total(log.skip(1))
    }
}

/// A run that succeeds returns the bytes written before it plus the sum of the answers that
/// the handler gave in it, none of which is negative.
pub proof fn lemma_result_is_sum(
    t: Seq<u8>,
    args: Seq<VarArg<'_>>,
    s: State,
    log: Seq<(Directive, c_int)>,
    result: c_int,
)
    requires
        replay(t, args, s, log) == Some(result),
        0 <= s.written,
        0 <= result,
    ensures
        result == s.written + total(log),
        forall|i: int| 0 <= i < log.len() ==> (#[trigger] log[i]).1 >= 0,
    decreases log.len(),
{
    match step(t, args, s) {
        Step::Emit(directive, next) => {
            let rest = log.skip(1);
            lemma_result_is_sum(t, args, next.with_written(log[0].1), rest, result);
            assert forall|i: int| 0 <= i < log.len() implies (#[trigger] log[i]).1 >= 0 by {
                if i > 0 {
                    assert(log[i] == rest[i - 1]);
                }
            }
        },
        _ => {},
    }
}

/// A template without `%` is one literal run.
pub proof fn lemma_literal_to_the_end(t: Seq<u8>, from: int)
    requires
        0 <= from <= t.len(),
        forall|i: int| from <= i < t.len() ==> t[i] != PERCENT,
    ensures
        literal_end(t, from) == t.len(),
    decreases t.len() - from,
{
    if from < t.len() {
        lemma_literal_to_the_end(t, from + 1);
    }
}

/// A literal run without flags, width and precision is written as it is.
pub proof fn lemma_plain_bytes(bytes: Seq<u8>)
    ensures
        rendering(Directive::plain(Payload::Bytes(bytes))) == Some(bytes),
        bytes.len() <= c_int::MAX ==> byte_text(Directive::plain(Payload::Bytes(bytes))) == Some(
            bytes,
        ),
        bytes.len() <= c_int::MAX && valid_utf8(bytes) ==> utf8_text(
            Directive::plain(Payload::Bytes(bytes)),
        ) == Some(bytes),
{
    let d = Directive::plain(Payload::Bytes(bytes));
    assert(repeat(crate::ascii::SPACE, 0 - bytes.len()) =~= Seq::empty());
    assert(text_field(d.flags, 0, None, bytes) =~= bytes);
}

/// For a template that contains no `%`, the handler gets one directive, the template as a
/// literal run, and the run returns the handler's answer to it.
pub proof fn lemma_plain_template_directive(
    t: Seq<u8>,
    args: Seq<VarArg<'_>>,
    fetched: int,
    log: Seq<(Directive, c_int)>,
    result: c_int,
)
    requires
        forall|i: int| 0 <= i < t.len() ==> t[i] != PERCENT,
        replay(t, args, State::start(fetched), log) == Some(result),
    ensures
        log.len() == 1,
        log[0].0 == Directive::plain(Payload::Bytes(t)),
        result == if log[0].1 < 0 {
            -1
        } else {
            log[0].1 as int
        },
{
    let s = State::start(fetched);
    lemma_literal_to_the_end(t, 0);
    assert(t.subrange(0, t.len() as int) =~= t);
    if !(log[0].1 < 0 || s.written + log[0].1 > c_int::MAX) {
        let next = State { position: t.len() as int, phase: Phase::Finished, ..s };
        assert(step(t, args, next.with_written(log[0].1)) is End);
        assert(replay(t, args, next.with_written(log[0].1), log.skip(1)) == Some(result));
    }
}

/// For a template that contains no `%`, a sink that writes such a run as it is has written
/// exactly the template, and the run returns the length of the template. This holds of a
/// template that is no longer than a C `int` can count.
pub proof fn lemma_plain_template(
    t: Seq<u8>,
    args: Seq<VarArg<'_>>,
    fetched: int,
    sink: spec_fn(Directive) -> Option<Seq<u8>>,
)
    requires
        forall|i: int| 0 <= i < t.len() ==> t[i] != PERCENT,
        t.len() <= c_int::MAX,
        sink(Directive::plain(Payload::Bytes(t))) == Some(t),
    ensures
        run(t, args, State::start(fetched), sink) == (t, t.len() as c_int),
{
    let s = State::start(fetched);
    lemma_literal_to_the_end(t, 0);
    assert(t.subrange(0, t.len() as int) =~= t);
    let next = State { position: t.len() as int, phase: Phase::Finished, ..s };
    let last = next.with_written(t.len() as c_int);
    assert(step(t, args, last) is End);
    assert(run(t, args, last, sink) == (Seq::<u8>::empty(), t.len() as c_int));
    assert(t + Seq::<u8>::empty() =~= t);
}

/// For a template that contains no `%`, the byte sink has written exactly the template, and
/// the run returns the length of the template; so has the text sink, if the template is valid
/// UTF-8. This holds of a template that is no longer than a C `int` can count.
pub proof fn lemma_plain_template_output(t: Seq<u8>, args: Seq<VarArg<'_>>, fetched: int)
    requires
        forall|i: int| 0 <= i < t.len() ==> t[i] != PERCENT,
        t.len() <= c_int::MAX,
    ensures
        run(t, args, State::start(fetched), |d: Directive| byte_text(d)) == (t, t.len() as c_int),
        valid_utf8(t) ==> run(t, args, State::start(fetched), |d: Directive| utf8_text(d)) == (
            t,
            t.len() as c_int,
        ),
{
    lemma_plain_bytes(t);
    lemma_plain_template(t, args, fetched, |d: Directive| byte_text(d));
    if valid_utf8(t) {
        lemma_plain_template(t, args, fetched, |d: Directive| utf8_text(d));
    }
}

/// Where the text sink accepts a directive, the byte sink writes the same bytes for it.
pub proof fn lemma_text_is_bytes_of_directive(d: Directive)
    requires
        utf8_text(d) is Some,
    ensures
        byte_text(d) == utf8_text(d),
{
}

/// A run that succeeds with the text sink succeeds with the byte sink too, with the same
/// result, and both have written the same bytes.
pub proof fn lemma_text_is_bytes(t: Seq<u8>, args: Seq<VarArg<'_>>, s: State)
    requires
        0 <= s.position <= t.len(),
        run(t, args, s, |d: Directive| utf8_text(d)).1 >= 0,
    ensures
        run(t, args, s, |d: Directive| byte_text(d)) == run(t, args, s, |d: Directive| utf8_text(d)),
    decreases s.fuel(t),
{
    let text = |d: Directive| utf8_text(d);
    let bytes = |d: Directive| byte_text(d);
    match step(t, args, s) {
        Step::Emit(directive, next) => {
            match utf8_text(directive) {
                Some(written) => {
                    lemma_text_is_bytes_of_directive(directive);
                    if s.written + written.len() <= c_int::MAX {
                        lemma_step_advances(t, args, s);
                        lemma_text_is_bytes(t, args, next.with_written(written.len() as c_int));
                    }
                },
                None => {},
            }
        },
        _ => {},
    }
}

/// A `%` right behind the `%` that opens a conversion makes the directive of a literal `%`,
/// without flags, width or precision, takes no argument, and has an empty literal run behind
/// it. Its text is one `%`.
pub proof fn lemma_percent_percent(t: Seq<u8>, args: Seq<VarArg<'_>>, s: State)
    requires
        s.phase == Phase::Conversion,
        0 <= s.position < t.len(),
        t[s.position] == PERCENT,
    ensures
        step(t, args, s) == Step::Emit(
            Directive::plain(Payload::Percent),
            State { position: s.position + 1, phase: Phase::Escaped, ..s },
        ),
        rendering(Directive::plain(Payload::Percent)) == Some(seq![PERCENT]),
        byte_text(Directive::plain(Payload::Percent)) == Some(seq![PERCENT]),
        utf8_text(Directive::plain(Payload::Percent)) == Some(seq![PERCENT]),
{
    let at = s.position;
    assert(flags_end(t, at) == at);
    assert(flag_bits(t, at, at) == 0);
    assert(digits_end(t, at) == at);
    assert(decimal(t, at, at) == 0);
    assert(length_at(t, at) == (Length::Int, at));
    assert(is_ascii(seq![PERCENT]));
    lemma_ascii_is_utf8(seq![PERCENT]);
}

/// The template that is made of `n` times `%`.
pub open spec fn percent_signs(n: nat) -> Seq<u8> {
    Seq::new(n, |i: int| PERCENT)
}

/// In a template of nothing but `%`, a run that stands in front of a literal run writes one
/// `%` for every two `%` that are left in the template. A single `%` at the end writes
/// nothing.
pub proof fn lemma_percent_signs_from(
    n: nat,
    args: Seq<VarArg<'_>>,
    s: State,
    sink: spec_fn(Directive) -> Option<Seq<u8>>,
)
    requires
        s.phase == Phase::Literal,
        0 <= s.position <= n,
        0 <= s.written,
        s.written + (n - s.position) / 2 <= c_int::MAX,
        sink(Directive::plain(Payload::Bytes(Seq::empty()))) == Some(Seq::<u8>::empty()),
        sink(Directive::plain(Payload::Percent)) == Some(seq![PERCENT]),
    ensures
        run(percent_signs(n), args, s, sink) == (
            repeat(PERCENT, (n - s.position) / 2),
            (s.written + (n - s.position) / 2) as c_int,
        ),
    decreases n - s.position,
{
    let t = percent_signs(n);
    let at = s.position;
    let none = Seq::<u8>::empty();
    assert(t.subrange(at, at) =~= none);
    if at == n {
        let end = State { phase: Phase::Finished, ..s };
        assert(step(t, args, s) == Step::Emit(Directive::plain(Payload::Bytes(none)), end));
        assert(end.with_written(0) == end);
        assert(step(t, args, end) is End);
        assert(run(t, args, end, sink) == (none, s.written));
        assert(none + none =~= repeat(PERCENT, 0));
    } else {
        let opened = State { position: at + 1, phase: Phase::Conversion, ..s };
        assert(step(t, args, s) == Step::Emit(Directive::plain(Payload::Bytes(none)), opened));
        assert(opened.with_written(0) == opened);
        if at + 1 == n {
            assert(flags_end(t, at + 1) == at + 1);
            assert(digits_end(t, at + 1) == at + 1);
            assert(decimal(t, at + 1, at + 1) == 0);
            assert(length_at(t, at + 1) == (Length::Int, at + 1));
            assert(step(t, args, opened) is End);
            assert(run(t, args, opened, sink) == (none, s.written));
            assert(none + none =~= repeat(PERCENT, 0));
        } else {
            lemma_percent_percent(t, args, opened);
            let escaped = State { position: at + 2, phase: Phase::Escaped, ..s };
            let counted = escaped.with_written(1);
            let literal = State { phase: Phase::Literal, ..counted };
            assert(step(t, args, counted) == Step::Emit(
                Directive::plain(Payload::Bytes(none)),
                literal,
            ));
            assert(literal.with_written(0) == literal);
            lemma_percent_signs_from(n, args, literal, sink);
            let rest = repeat(PERCENT, (n - at - 2) / 2);
            assert(run(t, args, literal, sink) == (rest, (s.written + 1 + (n - at - 2) / 2) as c_int));
            assert(run(t, args, counted, sink) == (none + rest, run(t, args, literal, sink).1));
            assert(run(t, args, opened, sink) == (
                seq![PERCENT] + (none + rest),
                run(t, args, literal, sink).1,
            ));
            assert(none + (seq![PERCENT] + (none + rest)) =~= repeat(PERCENT, (n - at) / 2));
        }
    }
}

/// A template of `n` times `%` and nothing else writes `n / 2` times `%`, and its run returns
/// `n / 2`, with the byte sink and with the text sink: each pair of `%` writes one `%`, and a
/// single `%` that is left at the end writes nothing. This holds where `n / 2` is no more
/// than a C `int` can count.
pub proof fn lemma_percent_signs(n: nat, args: Seq<VarArg<'_>>, fetched: int)
    requires
        n / 2 <= c_int::MAX,
    ensures
        run(percent_signs(n), args, State::start(fetched), |d: Directive| byte_text(d)) == (
            repeat(PERCENT, n as int / 2),
            (n / 2) as c_int,
        ),
        run(percent_signs(n), args, State::start(fetched), |d: Directive| utf8_text(d)) == (
            repeat(PERCENT, n as int / 2),
            (n / 2) as c_int,
        ),
{
    let none = Seq::<u8>::empty();
    lemma_plain_bytes(none);
    assert(is_ascii(seq![PERCENT]));
    lemma_ascii_is_utf8(seq![PERCENT]);
    assert(valid_utf8(none));
    lemma_percent_signs_from(n, args, State::start(fetched), |d: Directive| byte_text(d));
    lemma_percent_signs_from(n, args, State::start(fetched), |d: Directive| utf8_text(d));
}

/// What [`format`][crate::parser::format] has written into a fresh byte sink and returned is
/// what [`run`] says of the byte sink.
pub proof fn lemma_byte_sink_run(
    t: Seq<u8>,
    args: Seq<VarArg<'_>>,
    fetched: int,
    sink: ByteSink,
    result: c_int,
)
    requires
        sink.inv(),
        replay(t, args, State::start(fetched), sink.history()) == Some(result),
    ensures
        run(t, args, State::start(fetched), |d: Directive| byte_text(d)) == (sink.bytes(), result),
{
    lemma_replay_is_run(
        t,
        args,
        State::start(fetched),
        |d: Directive| byte_text(d),
        sink.history(),
        result,
    );
}

/// What [`format`][crate::parser::format] has written into a fresh text sink and returned is
/// what [`run`] says of the text sink.
pub proof fn lemma_text_sink_run(
    t: Seq<u8>,
    args: Seq<VarArg<'_>>,
    fetched: int,
    sink: TextSink,
    result: c_int,
)
    requires
        sink.inv(),
        replay(t, args, State::start(fetched), sink.history()) == Some(result),
    ensures
        run(t, args, State::start(fetched), |d: Directive| utf8_text(d)) == (
            encode_utf8(sink.text()),
            result,
        ),
{
    lemma_replay_is_run(
        t,
        args,
        State::start(fetched),
        |d: Directive| utf8_text(d),
        sink.history(),
        result,
    );
}

/// Where a template and its arguments have been formatted into a fresh text sink and into a
/// fresh byte sink, and the text sink has taken it all, both runs have returned the same, and
/// the bytes of the text are the bytes in the byte sink.
pub proof fn lemma_sinks_agree(
    t: Seq<u8>,
    args: Seq<VarArg<'_>>,
    fetched: int,
    text: TextSink,
    text_result: c_int,
    bytes: ByteSink,
    bytes_result: c_int,
)
    requires
        text.inv(),
        bytes.inv(),
        replay(t, args, State::start(fetched), text.history()) == Some(text_result),
        replay(t, args, State::start(fetched), bytes.history()) == Some(bytes_result),
        text_result >= 0,
    ensures
        bytes_result == text_result,
        bytes.bytes() == encode_utf8(text.text()),
{
    lemma_text_sink_run(t, args, fetched, text, text_result);
    lemma_byte_sink_run(t, args, fetched, bytes, bytes_result);
    lemma_text_is_bytes(t, args, State::start(fetched));
}

/// A literal run takes no argument. A conversion takes the arguments that it asks for: one
/// for each `*`, and one more unless it is `%%`.
pub proof fn lemma_arguments_of_a_directive(t: Seq<u8>, args: Seq<VarArg<'_>>, s: State)
    requires
        0 <= s.position <= t.len(),
    ensures
        step(t, args, s) matches Step::Emit(directive, next) ==> if s.phase == Phase::Conversion {
            &&& asked_by_conversion(t, s.position).1 == Some(next.position)
            &&& next.fetched == s.fetched + asked_by_conversion(t, s.position).0.len()
            &&& directive.payload is Percent <==> t[next.position - 1] == PERCENT
            &&& directive.payload is Percent || next.fetched > s.fetched
        } else {
            &&& directive.payload is Bytes
            &&& next.fetched == s.fetched
        },
{
    if s.phase == Phase::Conversion {
        let flags_to = flags_end(t, s.position);
        if let Some(width) = width_at(t, flags_to, args, s.fetched) {
            if let Some(precision) = precision_at(t, width.end, args, width.fetched) {
                let (length, at) = length_at(t, precision.end);
                assert(asked_by_width(t, flags_to) is Some);
                assert(asked_by_precision(t, width.end) is Some);
            }
        }
    }
}

} // verus!
