//! Which arguments a template asks for: what a caller has to know to read a variadic pack
//! into a list of [`VarArg`]s.

use crate::argument::Directive;
use crate::ascii::{
    DOT, LOWER_C, LOWER_D, LOWER_I, LOWER_N, LOWER_O, LOWER_P, LOWER_S, LOWER_U, LOWER_X, PERCENT,
    STAR, UPPER_X,
};
use crate::output::run;
use crate::parser::{
    decimal, digits_end, double_format, flags_end, lemma_digits_end_bounds,
    lemma_flags_end_bounds, lemma_literal_end_bounds, length_at, literal_end, parse_flags,
    parse_length, parse_width, precision_at, step, width_at, Length, Phase, State, Step,
};
use crate::va_list::{VaList, VarArg};
use cty::c_int;
use vstd::prelude::*;

verus! {

/// The C type of a variadic argument.
#[derive(Clone, Copy, Debug, PartialEq, Eq, Hash, Structural)]
pub enum ArgKind {
    /// An `int` or `unsigned int`.
    Int,
    /// A `long` or `unsigned long`.
    Long,
    /// A `long long` or `unsigned long long`.
    LongLong,
    /// A `size_t`, `ssize_t` or `ptrdiff_t`.
    Size,
    /// A `double`.
    Double,
    /// A pointer to a null-terminated string, or the null pointer.
    Str,
    /// Any other pointer.
    Pointer,
}

impl<'a> VarArg<'a> {
    /// Whether the argument can be fetched where one of the kind `kind` is asked for.
    pub open spec fn is_of(self, kind: ArgKind) -> bool {
        match kind {
            ArgKind::Int => self is Int,
            ArgKind::Long => self is Long,
            ArgKind::LongLong => self is LongLong,
            ArgKind::Size => self is Size,
            ArgKind::Double => self is Double,
            ArgKind::Str => self is Str || self == VarArg::Pointer(0),
            ArgKind::Pointer => self is Pointer,
        }
    }
}

/// Whether the arguments of `args` from place `fetched` on are of the kinds `kinds`, one
/// after the other.
pub open spec fn conform(args: Seq<VarArg<'_>>, fetched: int, kinds: Seq<ArgKind>) -> bool {
    &&& 0 <= fetched
    &&& fetched + kinds.len() <= args.len()
    &&& forall|i: int|
        fetched <= i < fetched + kinds.len() ==> (#[trigger] args[i]).is_of(kinds[i - fetched])
}

impl Length {
    /// The kind of the argument that an integer conversion fetches under this length modifier.
    pub open spec fn asked(self) -> ArgKind {
        match self {
            Length::Int | Length::Char | Length::Short => ArgKind::Int,
            Length::Long => ArgKind::Long,
            Length::LongLong => ArgKind::LongLong,
            Length::Usize | Length::Isize => ArgKind::Size,
        }
    }

    /// The kind of the argument that an integer conversion fetches under this length modifier.
    pub fn kind(self) -> (kind: ArgKind)
        ensures
            kind == self.asked(),
    {
        match self {
            Length::Int | Length::Char | Length::Short => ArgKind::Int,
            Length::Long => ArgKind::Long,
            Length::LongLong => ArgKind::LongLong,
            Length::Usize | Length::Isize => ArgKind::Size,
        }
    }
}

/// What the conversion byte `c` fetches under the length modifier `length`: `None` where `c`
/// is no conversion, `Some(None)` for `%`, which fetches nothing, and the kind of the argument
/// for any other.
pub open spec fn asked_by_byte(c: u8, length: Length) -> Option<Option<ArgKind>> {
    if c == PERCENT {
        Some(None)
    } else if c == LOWER_D || c == LOWER_I || c == LOWER_X || c == UPPER_X || c == LOWER_U || c
        == LOWER_O {
        Some(Some(length.asked()))
    } else if double_format(c) is Some {
        Some(Some(ArgKind::Double))
    } else if c == LOWER_S {
        Some(Some(ArgKind::Str))
    } else if c == LOWER_C {
        Some(Some(ArgKind::Int))
    } else if c == LOWER_P || c == LOWER_N {
        Some(Some(ArgKind::Pointer))
    } else {
        None
    }
}

/// What a width field that starts at `from` fetches, and where it ends: an `int` for `*`,
/// nothing for digits. `None` where the digits write a number that a C `int` cannot hold.
pub open spec fn asked_by_width(t: Seq<u8>, from: int) -> Option<(Seq<ArgKind>, int)> {
    if 0 <= from < t.len() && t[from] == STAR {
        Some((seq![ArgKind::Int], from + 1))
    } else if decimal(t, from, digits_end(t, from)) <= c_int::MAX {
        Some((Seq::empty(), digits_end(t, from)))
    } else {
        None
    }
}

/// What a precision field that starts at `from` fetches, and where it ends.
pub open spec fn asked_by_precision(t: Seq<u8>, from: int) -> Option<(Seq<ArgKind>, int)> {
    if 0 <= from < t.len() && t[from] == DOT {
        asked_by_width(t, from + 1)
    } else {
        Some((Seq::empty(), from))
    }
}

/// What the conversion fetches whose first byte behind the `%` is at `from`, and the place
/// behind the conversion, where the run goes on; no such place where the run ends with this
/// conversion, because the template ends in it or is malformed.
pub open spec fn asked_by_conversion(t: Seq<u8>, from: int) -> (Seq<ArgKind>, Option<int>) {
    match asked_by_width(t, flags_end(t, from)) {
        None => (Seq::empty(), None),
        Some((width, width_end)) => match asked_by_precision(t, width_end) {
            None => (width, None),
            Some((precision, precision_end)) => {
                let (length, at) = length_at(t, precision_end);
                if at >= t.len() {
                    (width + precision, None)
                } else {
                    match asked_by_byte(t[at], length) {
                        None => (width + precision, None),
                        Some(None) => (width + precision, Some(at + 1)),
                        Some(Some(kind)) => (width + precision + seq![kind], Some(at + 1)),
                    }
                }
            },
        },
    }
}

/// A conversion ends behind its start and inside the template.
pub proof fn lemma_conversion_bounds(t: Seq<u8>, from: int)
    requires
        0 <= from <= t.len(),
    ensures
        asked_by_conversion(t, from).1 matches Some(next) ==> from < next <= t.len(),
        asked_by_conversion(t, from).0.len() <= 3,
{
    let flags_to = flags_end(t, from);
    lemma_flags_end_bounds(t, from);
    lemma_digits_end_bounds(t, flags_to);
    if let Some((width, width_end)) = asked_by_width(t, flags_to) {
        lemma_digits_end_bounds(t, width_end + 1);
    }
}

/// What a run asks for that stands in front of the literal run at `from`: the arguments of
/// every conversion from there on, in their order, up to the end of the template or to the
/// place where it is malformed.
pub open spec fn asked_from(t: Seq<u8>, from: int) -> Seq<ArgKind>
    decreases t.len() - from,
    when 0 <= from <= t.len()
{
    let end = literal_end(t, from);
    if end >= t.len() {
        Seq::empty()
    } else {
        let (kinds, next) = asked_by_conversion(t, end + 1);
        match next {
            None => kinds,
            Some(next) => {
                proof {
                    lemma_literal_end_bounds(t, from);
                    lemma_conversion_bounds(t, end + 1);
                }
                kinds + asked_from(t, next)
            },
        }
    }
}

/// Whether the conversion is malformed whose first byte behind the `%` is at `from`: its
/// width or precision is written in digits and too large for a C `int`, or the byte behind
/// its fields is no conversion.
pub open spec fn malformed_conversion(t: Seq<u8>, from: int) -> bool {
    match asked_by_width(t, flags_end(t, from)) {
        None => true,
        Some((_, width_end)) => match asked_by_precision(t, width_end) {
            None => true,
            Some((_, precision_end)) => {
                let (length, at) = length_at(t, precision_end);
                at < t.len() && asked_by_byte(t[at], length) is None
            },
        },
    }
}

/// Whether a conversion is malformed in the template from the literal run at `from` on.
pub open spec fn malformed_from(t: Seq<u8>, from: int) -> bool
    decreases t.len() - from,
    when 0 <= from <= t.len()
{
    let end = literal_end(t, from);
    if end >= t.len() {
        false
    } else {
        match asked_by_conversion(t, end + 1).1 {
            None => malformed_conversion(t, end + 1),
            Some(next) => {
                proof {
                    lemma_literal_end_bounds(t, from);
                    lemma_conversion_bounds(t, end + 1);
                }
                malformed_from(t, next)
            },
        }
    }
}

/// With arguments of the kinds that a conversion asks for, the conversion gives a directive
/// and the run goes on behind it with exactly the arguments asked for fetched, unless the
/// template ends in the conversion, which ends the run, or is malformed there.
pub proof fn lemma_conversion_fetches_what_it_asks(
    t: Seq<u8>,
    args: Seq<VarArg<'_>>,
    s: State,
)
    requires
        s.phase == Phase::Conversion,
        0 <= s.position <= t.len(),
        conform(args, s.fetched, asked_by_conversion(t, s.position).0),
    ensures
        match asked_by_conversion(t, s.position).1 {
            Some(next) => {
                &&& step(t, args, s) matches Step::Emit(_, state)
                &&& state.position == next
                &&& state.fetched == s.fetched + asked_by_conversion(t, s.position).0.len()
            },
            None => if malformed_conversion(t, s.position) {
                step(t, args, s) is Malformed
            } else {
                step(t, args, s) is End
            },
        },
{
    let kinds = asked_by_conversion(t, s.position).0;
    let flags_to = flags_end(t, s.position);
    if let Some((width, width_end)) = asked_by_width(t, flags_to) {
        if width.len() > 0 {
            assert(args[s.fetched + 0].is_of(kinds[0]));
        }
        let w = width_at(t, flags_to, args, s.fetched)->0;
        assert(w.end == width_end && w.fetched == s.fetched + width.len());
        if let Some((precision, precision_end)) = asked_by_precision(t, width_end) {
            if precision.len() > 0 {
                assert(args[s.fetched + width.len()].is_of(kinds[width.len() as int]));
            }
            let p = precision_at(t, width_end, args, w.fetched)->0;
            assert(p.end == precision_end && p.fetched == w.fetched + precision.len());
            let (length, at) = length_at(t, precision_end);
            if at < t.len() {
                if let Some(Some(kind)) = asked_by_byte(t[at], length) {
                    let last = (width + precision).len() as int;
                    assert(kinds[last] == kind);
                    assert(args[s.fetched + last].is_of(kinds[last]));
                }
            }
        }
    }
}

/// Arguments that are of some kinds and then of some more are of the first kinds, and behind
/// these of the others.
pub proof fn lemma_conform_split(
    args: Seq<VarArg<'_>>,
    fetched: int,
    first: Seq<ArgKind>,
    second: Seq<ArgKind>,
)
    requires
        conform(args, fetched, first + second),
    ensures
        conform(args, fetched, first),
        conform(args, fetched + first.len(), second),
{
    let all = first + second;
    let behind = fetched + first.len();
    assert forall|i: int| fetched <= i < behind implies (#[trigger] args[i]).is_of(
        first[i - fetched],
    ) by {
        assert(all[i - fetched] == first[i - fetched]);
    }
    assert forall|i: int| behind <= i < behind + second.len() implies (#[trigger] args[i]).is_of(
        second[i - behind],
    ) by {
        assert(all[i - fetched] == second[i - behind]);
    }
}

/// With arguments of the kinds that the template asks for, and a handler that takes every
/// directive, a run fails exactly if a conversion of the template is malformed: no argument is
/// missing, and none is of another type than the template asks for.
pub proof fn lemma_asked_arguments_suffice(t: Seq<u8>, args: Seq<VarArg<'_>>, s: State)
    requires
        s.phase == Phase::Literal,
        0 <= s.position <= t.len(),
        0 <= s.written,
        conform(args, s.fetched, asked_from(t, s.position)),
    ensures
        run(t, args, s, |d: Directive| Some(Seq::<u8>::empty())).1 == if malformed_from(
            t,
            s.position,
        ) {
            -1
        } else {
            s.written as int
        },
    decreases t.len() - s.position,
{
    let sink = |d: Directive| Some(Seq::<u8>::empty());
    let end = literal_end(t, s.position);
    lemma_literal_end_bounds(t, s.position);
    if end >= t.len() {
        let last = State { position: end, phase: Phase::Finished, ..s };
        assert(last.with_written(0) == last);
        assert(step(t, args, last) is End);
        assert(run(t, args, last, sink).1 == s.written);
    } else {
        let opened = State { position: end + 1, phase: Phase::Conversion, ..s };
        assert(opened.with_written(0) == opened);
        let (kinds, next) = asked_by_conversion(t, end + 1);
        lemma_conversion_bounds(t, end + 1);
        let all = asked_from(t, s.position);
        assert(all == match next {
            None => kinds,
            Some(place) => kinds + asked_from(t, place),
        });
        match next {
            None => {
                assert(kinds + Seq::<ArgKind>::empty() =~= kinds);
                lemma_conform_split(args, s.fetched, kinds, Seq::empty());
            },
            Some(place) => {
                lemma_conform_split(args, s.fetched, kinds, asked_from(t, place));
            },
        }
        lemma_conversion_fetches_what_it_asks(t, args, opened);
        match next {
            None => {
                assert(run(t, args, opened, sink).1 == if malformed_conversion(t, end + 1) {
                    -1
                } else {
                    s.written as int
                });
            },
            Some(place) => {
                let behind = step(t, args, opened)->Emit_1;
                assert(behind.with_written(0) == behind);
                let literal = State { phase: Phase::Literal, ..behind };
                assert(literal.with_written(0) == literal);
                assert(literal.fetched == s.fetched + kinds.len());
                lemma_asked_arguments_suffice(t, args, literal);
                if behind.phase == Phase::Escaped {
                    assert(step(t, args, behind) is Emit);
                    assert(run(t, args, behind, sink).1 == run(t, args, literal, sink).1);
                }
                assert(run(t, args, opened, sink).1 == run(t, args, literal, sink).1);
            },
        }
    }
}

/// The kind of argument that the conversion byte `c` fetches.
fn kind_of_byte(c: u8, length: Length) -> (kind: Option<Option<ArgKind>>)
    ensures
        kind == asked_by_byte(c, length),
{
    if c == PERCENT {
        Some(None)
    } else if c == LOWER_D || c == LOWER_I || c == LOWER_X || c == UPPER_X || c == LOWER_U || c
        == LOWER_O {
        Some(Some(length.kind()))
    } else if c == LOWER_S {
        Some(Some(ArgKind::Str))
    } else if c == LOWER_C {
        Some(Some(ArgKind::Int))
    } else if c == LOWER_P || c == LOWER_N {
        Some(Some(ArgKind::Pointer))
    } else if crate::parser::parse_double_format(c).is_some() {
        Some(Some(ArgKind::Double))
    } else {
        None
    }
}

/// Reads a width field for the argument it asks for: appends an `int` to `kinds` for `*`, and
/// returns where the field ends; `None` where its digits write too large a number.
fn width_kinds(t: &[u8], from: usize, kinds: &mut Vec<ArgKind>) -> (end: Option<usize>)
    ensures
        match asked_by_width(t@, from as int) {
            Some((asked, to)) => {
                &&& end matches Some(end)
                &&& end == to
                &&& final(kinds)@ == old(kinds)@ + asked
            },
            None => end is None && final(kinds)@ == old(kinds)@,
        },
{
    if from < t.len() && t[from] == STAR {
        kinds.push(ArgKind::Int);
        assert(kinds@ =~= old(kinds)@ + seq![ArgKind::Int]);
        return Some(from + 1);
    }
    let mut none = VaList::new(&[]);
    proof {
        lemma_digits_end_bounds(t@, from as int);
        assert(kinds@ =~= old(kinds)@ + Seq::<ArgKind>::empty());
    }
    match parse_width(t, from, &mut none) {
        Some((_, end)) => Some(end),
        None => None,
    }
}

/// Reads the conversion whose first byte behind the `%` is at `from` for the arguments it
/// asks for: appends their kinds to `kinds`, and returns the place behind the conversion, if
/// the run goes on there.
fn conversion_kinds(t: &[u8], from: usize, kinds: &mut Vec<ArgKind>) -> (next: Option<usize>)
    requires
        from <= t@.len(),
    ensures
        final(kinds)@ == old(kinds)@ + asked_by_conversion(t@, from as int).0,
        match asked_by_conversion(t@, from as int).1 {
            Some(place) => next matches Some(next) && next == place,
            None => next is None,
        },
{
    let (_, flags_to) = parse_flags(t, from);
    let ghost by_width = asked_by_width(t@, flags_to as int);
    let width_end = match width_kinds(t, flags_to, kinds) {
        Some(at) => at,
        None => {
            assert(kinds@ =~= old(kinds)@ + Seq::<ArgKind>::empty());
            return None;
        },
    };
    let ghost by_precision = asked_by_precision(t@, width_end as int);
    let precision_end = if width_end < t.len() && t[width_end] == DOT {
        match width_kinds(t, width_end + 1, kinds) {
            Some(at) => at,
            None => {
                return None;
            },
        }
    } else {
        width_end
    };
    assert(kinds@ =~= old(kinds)@ + (by_width.unwrap().0 + by_precision.unwrap().0));
    let (length, at) = parse_length(t, precision_end);
    if at >= t.len() {
        return None;
    }
    match kind_of_byte(t[at], length) {
        None => None,
        Some(None) => Some(at + 1),
        Some(Some(kind)) => {
            kinds.push(kind);
            assert(kinds@ =~= old(kinds)@ + (by_width.unwrap().0 + by_precision.unwrap().0
                + seq![kind]));
            Some(at + 1)
        },
    }
}

/// The kinds of the arguments that the template asks for, in the order in which a run fetches
/// them, up to the end of the template or to the place where it is malformed.
pub fn argument_kinds(template: &[u8]) -> (kinds: Vec<ArgKind>)
    ensures
        kinds@ == asked_from(template@, 0),
{
    let t = template;
    let mut kinds: Vec<ArgKind> = Vec::new();
    let mut from: usize = 0;
    assert(kinds@ + asked_from(t@, 0) =~= asked_from(t@, 0));
    loop
        invariant
            t@ == template@,
            from <= t@.len(),
            kinds@ + asked_from(t@, from as int) == asked_from(t@, 0),
        decreases t@.len() - from,
    {
        let ghost done = kinds@;
        let ghost rest = asked_from(t@, from as int);
        let mut end = from;
        while end < t.len() && t[end] != PERCENT
            invariant
                from <= end <= t@.len(),
                literal_end(t@, end as int) == literal_end(t@, from as int),
            decreases t.len() - end,
        {
            end = end + 1;
        }
        if end >= t.len() {
            assert(done + rest =~= done);
            return kinds;
        }
        proof {
            lemma_conversion_bounds(t@, end as int + 1);
        }
        match conversion_kinds(t, end + 1, &mut kinds) {
            None => {
                return kinds;
            },
            Some(next) => {
                assert(done + (asked_by_conversion(t@, end as int + 1).0 + asked_from(
                    t@,
                    next as int,
                )) =~= kinds@ + asked_from(t@, next as int));
                from = next;
            },
        }
    }
}

} // verus!
