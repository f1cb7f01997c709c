//! Parser combinators over lists of characters that know where in the source they are.

use vstd::prelude::*;
use crate::memory::{Memory, GcRef, PrimitiveValue, MetaValue, ConsCell};
use crate::metadata::Location;
use crate::native::read::copy_location;
use crate::util::{list_elems, vec_to_list, allocates, ptrs, sanitized};

verus! {

/// A list of characters, and where in the source its first character stands.
pub struct StringWithLocation {
    pub string: GcRef,
    pub location: Location,
}

/// `loc` moved to the start of the next line; unchanged where it has no line or the line cannot
/// grow.
pub open spec fn next_line(loc: Location) -> Location {
    match loc.line_of() {
        Some(l) => if l < usize::MAX { loc.with_position((l + 1) as usize, 0) } else { loc },
        None => loc,
    }
}

/// `loc` moved one column on; unchanged where it has no column or the column cannot grow.
pub open spec fn next_column(loc: Location) -> Location {
    match (loc.line_of(), loc.column_of()) {
        (Some(l), Some(c)) => if c < usize::MAX { loc.with_position(l, (c + 1) as usize) } else { loc },
        _ => loc,
    }
}

/// `loc` moved to the start of the next line.
fn step_line_of(loc: &Location) -> (r: Location)
    ensures
        r == next_line(*loc),
{
    let mut r = copy_location(loc);
    match r.get_line() {
        Some(l) => {
            if l < usize::MAX {
                r.step_line();
            }
        },
        None => {},
    }
    r
}

/// `loc` moved one column on.
fn step_column_of(loc: &Location) -> (r: Location)
    ensures
        r == next_column(*loc),
{
    let mut r = copy_location(loc);
    match (r.get_line(), r.get_column()) {
        (Some(_), Some(c)) => {
            if c < usize::MAX {
                r.step_column();
            }
        },
        _ => {},
    }
    r
}

impl StringWithLocation {
    /// A copy of this input.
    pub fn copy(&self, mem: &Memory) -> (r: Self)
        ensures
            r.string.ptr() == self.string.ptr(),
            r.location == self.location,
    {
        StringWithLocation { string: mem.make_ref(self.string.pointer), location: copy_location(&self.location) }
    }

    /// The input without a leading newline, on the next line; the same input where it does not
    /// start with a newline.
    pub fn trim(self, mem: &Memory) -> (r: Self)
        requires
            mem.wf(),
        ensures
            match mem.value_of(self.string.ptr()) {
                Some(PrimitiveValue::Cons(c)) => if mem.value_of(c.car) == Some(PrimitiveValue::Character('\n')) {
                    r.string.ptr() == c.cdr && r.location == next_line(self.location)
                } else {
                    r.string.ptr() == self.string.ptr() && r.location == self.location
                },
                _ => r.string.ptr() == self.string.ptr() && r.location == self.location,
            },
    {
        let next = match self.string.get(mem) {
            Some(PrimitiveValue::Cons(c)) => {
                let car = mem.make_ref(c.car);
                match car.get(mem) {
                    Some(PrimitiveValue::Character(ch)) => if *ch == '\n' { Some(c.cdr) } else { None },
                    _ => None,
                }
            },
            _ => None,
        };
        match next {
            Some(cdr) => StringWithLocation { string: mem.make_ref(cdr), location: step_line_of(&self.location) },
            None => self,
        }
    }
}

/// What a parser gives when it matches: the value it read, where that value starts, and the
/// input that follows it.
pub struct ParserOk {
    pub value: GcRef,
    pub location: Location,
    pub rest_of_input: StringWithLocation,
}

/// Why a parser did not match.
pub enum ParserError {
    /// The input does not match.
    NoMatch,
    /// The input ends before it could match.
    Incomplete,
    /// The input cannot match here nor in any other way.
    Fatal { message: String, location: Location, rest_of_input: StringWithLocation },
}

/// The error that two failed alternatives give together: no match wins, then an incomplete
/// input, then the first error.
pub open spec fn selected_error(e1: ParserError, e2: ParserError) -> ParserError {
    match e1 {
        ParserError::NoMatch => ParserError::NoMatch,
        ParserError::Incomplete => match e2 {
            ParserError::NoMatch => ParserError::NoMatch,
            ParserError::Incomplete => ParserError::Incomplete,
            _ => e1,
        },
        _ => e1,
    }
}

/// The error that two failed alternatives give together.
pub fn select_error(e1: ParserError, e2: ParserError) -> (r: ParserError)
    ensures
        r == selected_error(e1, e2),
{
    match e1 {
        ParserError::NoMatch => ParserError::NoMatch,
        ParserError::Incomplete => match e2 {
            ParserError::NoMatch => ParserError::NoMatch,
            ParserError::Incomplete => ParserError::Incomplete,
            _ => e1,
        },
        _ => e1,
    }
}

/// Something that reads a prefix of an input.
pub trait Parser {
    /// What reading the list `string`, which starts at `location`, may give when the heap goes
    /// from `old` to `new`.
    spec fn parses(&self, old: Memory, string: Option<usize>, location: Location, new: Memory,
        r: Result<ParserOk, ParserError>) -> bool;

    /// Reads a prefix of `input`.
    fn parse(&self, mem: &mut Memory, input: StringWithLocation) -> (r: Result<ParserOk, ParserError>)
        requires
            old(mem).wf(),
        ensures
            old(mem).evolves(&*final(mem)),
            self.parses(*old(mem), input.string.ptr(), input.location, *final(mem), r);
}

/// What reading one character of `string` at `location` gives.
pub open spec fn any_character_outcome(old: Memory, string: Option<usize>, location: Location, new: Memory,
    r: Result<ParserOk, ParserError>) -> bool
{
    &&& allocates(&old, &new)
    &&& match old.value_of(string) {
        None => r matches Err(ParserError::Incomplete),
        Some(PrimitiveValue::Cons(c)) => match old.value_of(c.car) {
            Some(PrimitiveValue::Character(ch)) => r matches Ok(o)
                && new.value_of(o.value.ptr()) == Some(PrimitiveValue::Character(ch))
                && o.location == location
                && o.rest_of_input.string.ptr() == c.cdr
                && o.rest_of_input.location == (if ch == '\n' { next_line(location) } else { next_column(location) }),
            _ => r matches Err(ParserError::NoMatch),
        },
        Some(_) => r matches Err(ParserError::NoMatch),
    }
}

/// What matching the end of `string` at `location` gives.
pub open spec fn end_of_input_outcome(old: Memory, string: Option<usize>, location: Location, new: Memory,
    r: Result<ParserOk, ParserError>) -> bool
{
    &&& new == old
    &&& old.is_nil_ptr(string) ==> (r matches Ok(o) && o.value.ptr() is None
        && o.location == location && o.rest_of_input.string.ptr() == string
        && o.rest_of_input.location == location)
    &&& !old.is_nil_ptr(string) ==> (r matches Err(ParserError::NoMatch))
}

/// A run of matches of `p`: the `k`-th read goes from the heap `mems[k]` and the input
/// `rests[k]` to `mems[k + 1]`, reads `outs[k]`, and leaves the input `rests[k + 1]`.
pub open spec fn is_run<P: Parser>(p: &P, mems: Seq<Memory>, rests: Seq<(Option<usize>, Location)>, outs: Seq<ParserOk>) -> bool {
    &&& mems.len() == outs.len() + 1
    &&& rests.len() == outs.len() + 1
    &&& forall|k: int| 0 <= k < outs.len() ==> #[trigger] p.parses(mems[k], rests[k].0, rests[k].1, mems[k + 1], Ok(outs[k]))
            && rests[k + 1] == (outs[k].rest_of_input.string.ptr(), outs[k].rest_of_input.location)
}

/// The values that a run of matches read.
pub open spec fn run_values(outs: Seq<ParserOk>) -> Seq<Option<usize>> {
    outs.map_values(|o: ParserOk| o.value.ptr())
}

/// The list that a repetition gives for `values` read before the heap became `after`, in the
/// heap `new`, starting at `location` with the input `rest` after it.
pub open spec fn repetition_list(after: Memory, values: Seq<Option<usize>>, location: Location,
    rest: (Option<usize>, Location), new: Memory, r: Result<ParserOk, ParserError>) -> bool
{
    &&& allocates(&after, &new)
    &&& r matches Ok(o)
    &&& o.location == location
    &&& list_elems(&new, o.value.ptr()) == Some(values.map_values(|v: Option<usize>| if after.live(v) { v } else { None }))
    &&& (o.rest_of_input.string.ptr(), o.rest_of_input.location) == rest
}

/// What reading with `p` as often as it matches gives: after the matches, the first failure
/// ends the repetition; a fatal one is the result, any other gives the list of what was read.
/// After `MAX_REPETITIONS` matches the repetition stops without another read.
pub open spec fn repetition_outcome<P: Parser>(p: &P, old: Memory, string: Option<usize>, location: Location,
    new: Memory, r: Result<ParserOk, ParserError>) -> bool
{
    exists|mems: Seq<Memory>, rests: Seq<(Option<usize>, Location)>, outs: Seq<ParserOk>|
        #[trigger] is_run(p, mems, rests, outs) && mems[0] == old && rests[0] == (string, location) && {
            ||| outs.len() == MAX_REPETITIONS && repetition_list(mems.last(), run_values(outs), location, rests.last(), new, r)
            ||| outs.len() < MAX_REPETITIONS && exists|after: Memory, stop: Result<ParserOk, ParserError>|
                #[trigger] p.parses(mems.last(), rests.last().0, rests.last().1, after, stop) && match stop {
                    Ok(_) => false,
                    Err(ParserError::Fatal { .. }) => new == after && r == stop,
                    Err(_) => repetition_list(after, run_values(outs), location, rests.last(), new, r),
                }
        }
}

/// Reads one character.
pub fn any_character(mem: &mut Memory, input: StringWithLocation) -> (r: Result<ParserOk, ParserError>)
    requires
        old(mem).wf(),
    ensures
        any_character_outcome(*old(mem), input.string.ptr(), input.location, *final(mem), r),
{
    let ghost m0 = *mem;
    let found = match input.string.get(mem) {
        Some(PrimitiveValue::Cons(c)) => {
            let car = mem.make_ref(c.car);
            match car.get(mem) {
                Some(PrimitiveValue::Character(ch)) => Some((*ch, c.cdr)),
                _ => None,
            }
        },
        _ => None,
    };
    proof { m0.lemma_evolves_refl(); }
    match found {
        Some((ch, cdr)) => {
            let rest_location = if ch == '\n' { step_line_of(&input.location) } else { step_column_of(&input.location) };
            let rest_string = mem.make_ref(cdr);
            let value = mem.allocate_character(ch);
            proof { m0.lemma_allocated_evolves(&*mem, value.ptr()->0); }
            Ok(ParserOk {
                value,
                location: input.location,
                rest_of_input: StringWithLocation { string: rest_string, location: rest_location },
            })
        },
        None => {
            if input.string.is_nil(mem) {
                Err(ParserError::Incomplete)
            } else {
                Err(ParserError::NoMatch)
            }
        },
    }
}

/// Matches the end of the input, reading nothing.
pub fn end_of_input(mem: &mut Memory, input: StringWithLocation) -> (r: Result<ParserOk, ParserError>)
    requires
        old(mem).wf(),
    ensures
        end_of_input_outcome(*old(mem), input.string.ptr(), input.location, *final(mem), r),
{
    if input.string.is_nil(mem) {
        let location = copy_location(&input.location);
        Ok(ParserOk { value: GcRef::nil(), location, rest_of_input: input })
    } else {
        Err(ParserError::NoMatch)
    }
}

/// The parser that reads one character.
pub struct AnyCharacter;

impl Parser for AnyCharacter {
    open spec fn parses(&self, old: Memory, string: Option<usize>, location: Location, new: Memory,
        r: Result<ParserOk, ParserError>) -> bool
    {
        any_character_outcome(old, string, location, new, r)
    }

    fn parse(&self, mem: &mut Memory, input: StringWithLocation) -> (r: Result<ParserOk, ParserError>) {
        any_character(mem, input)
    }
}

/// The parser that matches the end of the input.
pub struct EndOfInput;

impl Parser for EndOfInput {
    open spec fn parses(&self, old: Memory, string: Option<usize>, location: Location, new: Memory,
        r: Result<ParserOk, ParserError>) -> bool
    {
        end_of_input_outcome(old, string, location, new, r)
    }

    fn parse(&self, mem: &mut Memory, input: StringWithLocation) -> (r: Result<ParserOk, ParserError>) {
        let r = end_of_input(mem, input);
        proof { mem.lemma_evolves_refl(); }
        r
    }
}

/// The parser that tries `parser1`, then `parser2` on the same input.
pub struct OneOfTheseTwo<'a, P1: Parser, P2: Parser> {
    pub parser1: &'a P1,
    pub parser2: &'a P2,
}

/// The parser that tries `parser1`, then `parser2` on the same input.
pub fn one_of_these_two<'a, P1: Parser, P2: Parser>(parser1: &'a P1, parser2: &'a P2) -> (r: OneOfTheseTwo<'a, P1, P2>)
    ensures
        r.parser1 == parser1,
        r.parser2 == parser2,
{
    OneOfTheseTwo { parser1, parser2 }
}

impl<'a, P1: Parser, P2: Parser> Parser for OneOfTheseTwo<'a, P1, P2> {
    /// The first parser's match, or else the second's on the same input, or else the error
    /// that the two select.
    open spec fn parses(&self, old: Memory, string: Option<usize>, location: Location, new: Memory,
        r: Result<ParserOk, ParserError>) -> bool
    {
        exists|mid: Memory, r1: Result<ParserOk, ParserError>| #[trigger] self.parser1.parses(old, string, location, mid, r1)
            && match r1 {
                Ok(o1) => new == mid && r == Ok::<ParserOk, ParserError>(o1),
                Err(e1) => exists|r2: Result<ParserOk, ParserError>| #[trigger] self.parser2.parses(mid, string, location, new, r2)
                    && r == match r2 {
                        Ok(o2) => Ok::<ParserOk, ParserError>(o2),
                        Err(e2) => Err(selected_error(e1, e2)),
                    },
            }
    }

    fn parse(&self, mem: &mut Memory, input: StringWithLocation) -> (r: Result<ParserOk, ParserError>) {
        let ghost m0 = *mem;
        let ghost s = input.string.ptr();
        let ghost l = input.location;
        let again = input.copy(mem);
        let r1 = self.parser1.parse(mem, input);
        let ghost m1 = *mem;
        let ghost g1 = r1;
        assert(self.parser1.parses(m0, s, l, m1, g1));
        match r1 {
            Ok(output1) => Ok(output1),
            Err(err1) => {
                let r2 = self.parser2.parse(mem, again);
                let ghost g2 = r2;
                assert(self.parser2.parses(m1, s, l, *mem, g2));
                let r = match r2 {
                    Ok(output2) => Ok(output2),
                    Err(err2) => Err(select_error(err1, err2)),
                };
                proof { m0.lemma_evolves_trans(&m1, &*mem); }
                r
            },
        }
    }
}

/// The parser that tries `parser1`, then `parser2`, then `parser3` on the same input.
pub struct OneOfTheseThree<'a, P1: Parser, P2: Parser, P3: Parser> {
    pub parser1: &'a P1,
    pub parser2: &'a P2,
    pub parser3: &'a P3,
}

/// The parser that tries `parser1`, then `parser2`, then `parser3` on the same input.
pub fn one_of_these_three<'a, P1: Parser, P2: Parser, P3: Parser>(parser1: &'a P1, parser2: &'a P2, parser3: &'a P3)
    -> (r: OneOfTheseThree<'a, P1, P2, P3>)
    ensures
        r.parser1 == parser1,
        r.parser2 == parser2,
        r.parser3 == parser3,
{
    OneOfTheseThree { parser1, parser2, parser3 }
}

impl<'a, P1: Parser, P2: Parser, P3: Parser> Parser for OneOfTheseThree<'a, P1, P2, P3> {
    /// The first parser's match, or else the second's, or else the third's, all on the same
    /// input; or else the error that the three select.
    open spec fn parses(&self, old: Memory, string: Option<usize>, location: Location, new: Memory,
        r: Result<ParserOk, ParserError>) -> bool
    {
        exists|m1: Memory, r1: Result<ParserOk, ParserError>| #[trigger] self.parser1.parses(old, string, location, m1, r1)
            && match r1 {
                Ok(o1) => new == m1 && r == Ok::<ParserOk, ParserError>(o1),
                Err(e1) => exists|m2: Memory, r2: Result<ParserOk, ParserError>| #[trigger] self.parser2.parses(m1, string, location, m2, r2)
                    && match r2 {
                        Ok(o2) => new == m2 && r == Ok::<ParserOk, ParserError>(o2),
                        Err(e2) => exists|r3: Result<ParserOk, ParserError>| #[trigger] self.parser3.parses(m2, string, location, new, r3)
                            && r == match r3 {
                                Ok(o3) => Ok::<ParserOk, ParserError>(o3),
                                Err(e3) => Err(selected_error(e1, selected_error(e2, e3))),
                            },
                    },
            }
    }

    fn parse(&self, mem: &mut Memory, input: StringWithLocation) -> (r: Result<ParserOk, ParserError>) {
        let ghost m0 = *mem;
        let ghost s = input.string.ptr();
        let ghost l = input.location;
        let again = input.copy(mem);
        let third = input.copy(mem);
        let r1 = self.parser1.parse(mem, input);
        let ghost g1 = r1;
        let ghost m1 = *mem;
        assert(self.parser1.parses(m0, s, l, m1, g1));
        match r1 {
            Ok(output1) => Ok(output1),
            Err(err1) => {
                let r2 = self.parser2.parse(mem, again);
                let ghost g2 = r2;
                let ghost m2 = *mem;
                assert(self.parser2.parses(m1, s, l, m2, g2));
                match r2 {
                    Ok(output2) => {
                        proof { m0.lemma_evolves_trans(&m1, &*mem); }
                        Ok(output2)
                    },
                    Err(err2) => {
                        let r3 = self.parser3.parse(mem, third);
                        let ghost g3 = r3;
                        assert(self.parser3.parses(m2, s, l, *mem, g3));
                        let r = match r3 {
                            Ok(output3) => Ok(output3),
                            Err(err3) => Err(select_error(err1, select_error(err2, err3))),
                        };
                        proof {
                            m0.lemma_evolves_trans(&m1, &m2);
                            m0.lemma_evolves_trans(&m2, &*mem);
                        }
                        r
                    },
                }
            },
        }
    }
}

/// A test on a value that a parser has read.
pub trait ValuePredicate {
    /// Whether the value `value` of `mem` passes the test.
    spec fn accepts(&self, mem: Memory, value: Option<usize>) -> bool;

    /// Whether `value` passes the test.
    fn holds(&self, mem: &Memory, value: &GcRef) -> (r: bool)
        ensures
            r == self.accepts(*mem, value.ptr());
}

/// The parser that reads with `parser` and matches only where what it read passes `predicate`.
pub struct Satisfy<'a, P: Parser, Q: ValuePredicate> {
    pub parser: &'a P,
    pub predicate: &'a Q,
}

/// The parser that reads with `parser` and matches only where what it read passes `predicate`.
pub fn satisfy<'a, P: Parser, Q: ValuePredicate>(parser: &'a P, predicate: &'a Q) -> (r: Satisfy<'a, P, Q>)
    ensures
        r.parser == parser,
        r.predicate == predicate,
{
    Satisfy { parser, predicate }
}

impl<'a, P: Parser, Q: ValuePredicate> Parser for Satisfy<'a, P, Q> {
    /// The parser's match where what it read passes the predicate; no match where it does not;
    /// the parser's error where it fails.
    open spec fn parses(&self, old: Memory, string: Option<usize>, location: Location, new: Memory,
        r: Result<ParserOk, ParserError>) -> bool
    {
        exists|r1: Result<ParserOk, ParserError>| #[trigger] self.parser.parses(old, string, location, new, r1)
            && match r1 {
                Ok(o) => if self.predicate.accepts(new, o.value.ptr()) {
                    r == Ok::<ParserOk, ParserError>(o)
                } else {
                    r == Err::<ParserOk, ParserError>(ParserError::NoMatch)
                },
                Err(e) => r == Err::<ParserOk, ParserError>(e),
            }
    }

    fn parse(&self, mem: &mut Memory, input: StringWithLocation) -> (r: Result<ParserOk, ParserError>) {
        let ghost m0 = *mem;
        let ghost s = input.string.ptr();
        let ghost l = input.location;
        let r1 = self.parser.parse(mem, input);
        let ghost g1 = r1;
        assert(self.parser.parses(m0, s, l, *mem, g1));
        match r1 {
            Ok(output) => {
                if self.predicate.holds(mem, &output.value) {
                    Ok(output)
                } else {
                    Err(ParserError::NoMatch)
                }
            },
            Err(e) => Err(e),
        }
    }
}

/// How many times a repetition may read before it stops.
pub const MAX_REPETITIONS: u64 = 18446744073709551615;

/// The parser that reads with `parser` as often as it matches, giving the list of what it read.
pub struct ZeroOrMoreTimes<'a, P: Parser> {
    pub parser: &'a P,
}

/// The parser that reads with `parser` as often as it matches, giving the list of what it read.
pub fn zero_or_more_times<'a, P: Parser>(parser: &'a P) -> (r: ZeroOrMoreTimes<'a, P>)
    ensures
        r.parser == parser,
{
    ZeroOrMoreTimes { parser }
}

impl<'a, P: Parser> ZeroOrMoreTimes<'a, P> {
    /// Reads with the parser as often as it matches: the list of what it read, starting where the
    /// input starts; fails only where the parser fails fatally.
    pub fn repeat(&self, mem: &mut Memory, input: StringWithLocation) -> (r: Result<ParserOk, ParserError>)
        requires
            old(mem).wf(),
        ensures
            old(mem).evolves(&*final(mem)),
            repetition_outcome(self.parser, *old(mem), input.string.ptr(), input.location, *final(mem), r),
    {
        let ghost m0 = *mem;
        let ghost s0 = input.string.ptr();
        let ghost l0 = input.location;
        proof { m0.lemma_evolves_refl(); }
        let location = copy_location(&input.location);
        let mut outputs: Vec<GcRef> = Vec::new();
        let mut cursor = input.copy(mem);
        let mut prev_cursor = input;
        let mut fuel: u64 = MAX_REPETITIONS;
        let ghost mut stopped: Option<(Memory, Result<ParserOk, ParserError>)> = None;
        let ghost mut mems: Seq<Memory> = seq![m0];
        let ghost mut rests: Seq<(Option<usize>, Location)> = seq![(s0, l0)];
        let ghost mut outs: Seq<ParserOk> = Seq::empty();
        loop
            invariant_except_break
                stopped is None,
                *mem == mems.last(),
                fuel as int + outputs@.len() == MAX_REPETITIONS,
            invariant
                m0.wf(),
                m0 == *old(mem),
                m0.evolves(&*mem),
                m0.evolves(&mems.last()),
                location == l0,
                s0 == input.string.ptr(),
                l0 == input.location,
                cursor.string.ptr() == prev_cursor.string.ptr(),
                cursor.location == prev_cursor.location,
                outputs@.len() <= MAX_REPETITIONS,
                is_run(self.parser, mems, rests, outs),
                mems[0] == m0,
                rests[0] == (s0, l0),
                rests.last() == (cursor.string.ptr(), cursor.location),
                ptrs(outputs@) == run_values(outs),
                outs.len() == outputs@.len(),
            ensures
                m0.evolves(&*mem),
                is_run(self.parser, mems, rests, outs),
                mems[0] == m0,
                rests[0] == (s0, l0),
                rests.last() == (prev_cursor.string.ptr(), prev_cursor.location),
                ptrs(outputs@) == run_values(outs),
                outs.len() == outputs@.len(),
                stopped is None ==> *mem == mems.last() && outputs@.len() == MAX_REPETITIONS,
                stopped matches Some((after, stop)) ==> *mem == after && outputs@.len() < MAX_REPETITIONS
                    && self.parser.parses(mems.last(), rests.last().0, rests.last().1, after, stop)
                    && stop is Err && !(stop->Err_0 is Fatal),
            decreases fuel,
        {
            if fuel == 0 {
                break;
            }
            fuel = fuel - 1;
            let ghost m1 = *mem;
            let ghost cs = cursor.string.ptr();
            let ghost cl = cursor.location;
            assert(outputs@.len() < MAX_REPETITIONS);
            let step = self.parser.parse(mem, cursor);
            let ghost g = step;
            assert(self.parser.parses(m1, cs, cl, *mem, g));
            proof { m0.lemma_evolves_trans(&m1, &*mem); }
            match step {
                Ok(output) => {
                    let ghost o = output;
                    let ghost n = outs.len() as int;
                    let ghost old_ptrs = ptrs(outputs@);
                    outputs.push(output.value);
                    cursor = output.rest_of_input.copy(mem);
                    prev_cursor = output.rest_of_input;
                    proof {
                        assert(g == Ok::<ParserOk, ParserError>(o));
                        let old_mems = mems;
                        let old_rests = rests;
                        let old_outs = outs;
                        mems = mems.push(*mem);
                        rests = rests.push((cursor.string.ptr(), cursor.location));
                        outs = outs.push(o);
                        assert forall|k: int| 0 <= k < outs.len() implies #[trigger] self.parser.parses(mems[k], rests[k].0, rests[k].1, mems[k + 1], Ok(outs[k]))
                            && rests[k + 1] == (outs[k].rest_of_input.string.ptr(), outs[k].rest_of_input.location) by {
                            if k < n {
                                assert(mems[k] == old_mems[k] && mems[k + 1] == old_mems[k + 1]);
                                assert(rests[k] == old_rests[k] && rests[k + 1] == old_rests[k + 1]);
                                assert(outs[k] == old_outs[k]);
                            } else {
                                assert(mems[k] == m1 && rests[k] == (cs, cl) && outs[k] == o);
                            }
                        }
                        assert forall|k: int| 0 <= k < outs.len() implies #[trigger] ptrs(outputs@)[k] == run_values(outs)[k] by {
                            if k < n {
                                assert(ptrs(outputs@)[k] == old_ptrs[k]);
                                assert(run_values(outs)[k] == run_values(old_outs)[k]);
                            } else {
                                assert(outputs@[k] == o.value);
                            }
                        }
                        assert(ptrs(outputs@) =~= run_values(outs));
                    }
                },
                Err(ParserError::Fatal { message, location, rest_of_input }) => {
                    let r = Err(ParserError::Fatal { message, location, rest_of_input });
                    proof {
                        assert(r == g);
                        assert(self.parser.parses(mems.last(), rests.last().0, rests.last().1, *mem, g));
                        assert(is_run(self.parser, mems, rests, outs));
                        assert(outs.len() < MAX_REPETITIONS);
                        assert(mems[0] == m0 && rests[0] == (s0, l0));
                    }
                    return r;
                },
                Err(e) => {
                    proof { stopped = Some((*mem, g)); }
                    break;
                },
            }
        }
        let ghost m2 = *mem;
        let ghost vals = ptrs(outputs@);
        let value = vec_to_list(mem, outputs.as_slice());
        proof {
            m0.lemma_evolves_trans(&m2, &*mem);
            assert(vals.map_values(|v: Option<usize>| if m2.live(v) { v } else { None }) =~= sanitized(&m2, outputs@));
        }
        let r = Ok(ParserOk { value, location, rest_of_input: prev_cursor });
        proof {
            assert(repetition_list(m2, run_values(outs), l0, rests.last(), *mem, r));
            assert(is_run(self.parser, mems, rests, outs));
            match stopped {
                None => {
                    assert(m2 == mems.last());
                },
                Some((after, stop)) => {
                    assert(m2 == after);
                    assert(self.parser.parses(mems.last(), rests.last().0, rests.last().1, after, stop));
                },
            }
        }
        r
    }
}

impl<'a, P: Parser> Parser for ZeroOrMoreTimes<'a, P> {
    open spec fn parses(&self, old: Memory, string: Option<usize>, location: Location, new: Memory,
        r: Result<ParserOk, ParserError>) -> bool
    {
        repetition_outcome(self.parser, old, string, location, new, r)
    }

    fn parse(&self, mem: &mut Memory, input: StringWithLocation) -> (r: Result<ParserOk, ParserError>) {
        self.repeat(mem, input)
    }
}

/// The parser that reads with `parser` at least once, then as often as it matches.
pub struct AtLeastOnce<'a, P: Parser> {
    pub parser: &'a P,
}

/// The parser that reads with `parser` at least once, then as often as it matches.
pub fn at_least_once<'a, P: Parser>(parser: &'a P) -> (r: AtLeastOnce<'a, P>)
    ensures
        r.parser == parser,
{
    AtLeastOnce { parser }
}

impl<'a, P: Parser> Parser for AtLeastOnce<'a, P> {
    /// The parser's error where its first read fails; otherwise the repetition that follows,
    /// with what the first read gave put in front of its list.
    open spec fn parses(&self, old: Memory, string: Option<usize>, location: Location, new: Memory,
        r: Result<ParserOk, ParserError>) -> bool
    {
        exists|m1: Memory, r1: Result<ParserOk, ParserError>| #[trigger] self.parser.parses(old, string, location, m1, r1)
            && match r1 {
                Err(e) => new == m1 && r == Err::<ParserOk, ParserError>(e),
                Ok(o1) => exists|m2: Memory, rt: Result<ParserOk, ParserError>|
                    #[trigger] repetition_outcome(self.parser, m1, o1.rest_of_input.string.ptr(), o1.rest_of_input.location, m2, rt) && match rt {
                        Err(e) => new == m2 && r == Err::<ParserOk, ParserError>(e),
                        Ok(t) => r matches Ok(o) && o.value.ptr() is Some
                            && m2.allocated(&new, o.value.ptr()->0)
                            && new.mv(o.value.ptr()->0 as int) == MetaValue::Value(PrimitiveValue::Cons(ConsCell {
                                car: if m2.live(o1.value.ptr()) { o1.value.ptr() } else { None },
                                cdr: if m2.live(t.value.ptr()) { t.value.ptr() } else { None },
                            }))
                            && o.location == o1.location && o.rest_of_input == t.rest_of_input,
                    },
            }
    }

    fn parse(&self, mem: &mut Memory, input: StringWithLocation) -> (r: Result<ParserOk, ParserError>) {
        let ghost m0 = *mem;
        let ghost s = input.string.ptr();
        let ghost l = input.location;
        let r1 = self.parser.parse(mem, input);
        let ghost g1 = r1;
        let ghost m1 = *mem;
        assert(self.parser.parses(m0, s, l, m1, g1));
        match r1 {
            Ok(output) => {
                let ghost rl = output.rest_of_input.location;
                let ghost rs = output.rest_of_input.string.ptr();
                let rt = zero_or_more_times(self.parser).repeat(mem, output.rest_of_input);
                let ghost gt = rt;
                assert(repetition_outcome(self.parser, m1, rs, rl, *mem, gt));
                let tail = match rt {
                    Ok(t) => t,
                    Err(e) => {
                        proof { m0.lemma_evolves_trans(&m1, &*mem); }
                        return Err(e);
                    },
                };
                let ghost m2 = *mem;
                let list = mem.allocate_cons(output.value, tail.value);
                proof {
                    m0.lemma_evolves_trans(&m1, &m2);
                    m2.lemma_allocated_evolves(&*mem, list.ptr()->0);
                    m0.lemma_evolves_trans(&m2, &*mem);
                }
                Ok(ParserOk { value: list, location: output.location, rest_of_input: tail.rest_of_input })
            },
            Err(err) => Err(err),
        }
    }
}

/// The parser that reads with `parser`, or gives `default` without reading where it fails.
pub struct ParseOrDefault<'a, P: Parser> {
    pub parser: &'a P,
    pub default: &'a GcRef,
}

/// The parser that reads with `parser`, or gives `default` without reading where it fails.
pub fn parse_or_default<'a, P: Parser>(parser: &'a P, default: &'a GcRef) -> (r: ParseOrDefault<'a, P>)
    ensures
        r.parser == parser,
        r.default == default,
{
    ParseOrDefault { parser, default }
}

impl<'a, P: Parser> Parser for ParseOrDefault<'a, P> {
    /// The parser's match; where it fails, the default value, starting at the input, with all of
    /// the input after it.
    open spec fn parses(&self, old: Memory, string: Option<usize>, location: Location, new: Memory,
        r: Result<ParserOk, ParserError>) -> bool
    {
        exists|r1: Result<ParserOk, ParserError>| #[trigger] self.parser.parses(old, string, location, new, r1)
            && match r1 {
                Ok(o) => r == Ok::<ParserOk, ParserError>(o),
                Err(_) => r matches Ok(d) && d.value.ptr() == self.default.ptr() && d.location == location
                    && d.rest_of_input.string.ptr() == string && d.rest_of_input.location == location,
            }
    }

    fn parse(&self, mem: &mut Memory, input: StringWithLocation) -> (r: Result<ParserOk, ParserError>) {
        let ghost m0 = *mem;
        let ghost s = input.string.ptr();
        let ghost l = input.location;
        let location = copy_location(&input.location);
        let again = input.copy(mem);
        let r1 = self.parser.parse(mem, input);
        let ghost g1 = r1;
        assert(self.parser.parses(m0, s, l, *mem, g1));
        match r1 {
            Ok(output) => Ok(output),
            Err(_) => Ok(ParserOk { value: self.default.clone(), location, rest_of_input: again }),
        }
    }
}

} // verus!
