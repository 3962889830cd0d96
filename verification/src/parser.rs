//! Backtracking parsers over text. A parser looks at the start of its input
//! and either yields a value together with what it left unread, or fails and
//! hands the input back untouched.

use crate::text::starts_with;
use vstd::prelude::*;

verus! {

/// What a parser returns: the unread remainder and the value, or the whole
/// input where the parser does not match.
pub type ParseResult<'a, Output> = Result<(&'a str, Output), &'a str>;

/// Whether `result`, returned for `input`, is what `expected` asks for: the
/// same remainder and value on success, the input itself on failure.
pub open spec fn agrees<Output: DeepView>(
    result: ParseResult<Output>,
    input: Seq<char>,
    expected: Option<(Seq<char>, Output::V)>,
) -> bool {
    match result {
        Ok((rest, value)) => expected == Some((rest@, value.deep_view())),
        Err(rest) => expected is None && rest@ == input,
    }
}

/// A parser of values of type `Output`.
pub trait Parser<Output: DeepView> {
    /// What parsing `input` yields: the unread remainder and the value, or
    /// `None` where the parser does not match.
    spec fn spec_parse(&self, input: Seq<char>) -> Option<(Seq<char>, Output::V)>;

    /// A parser reads from the front: what it leaves is an end of its input.
    proof fn lemma_remainder(&self, input: Seq<char>)
        ensures
            self.spec_parse(input) matches Some((rest, _)) ==> rest.is_suffix_of(input),
    ;

    fn parse<'a>(&self, input: &'a str) -> (result: ParseResult<'a, Output>)
        ensures
            agrees(result, input@, self.spec_parse(input@)),
    ;
}

/// A function on parsed values, for [`map`].
pub trait Transform {
    type Input: DeepView;

    type Output: DeepView;

    /// The value that `input` is turned into.
    spec fn spec_apply(
        &self,
        input: <Self::Input as DeepView>::V,
    ) -> <Self::Output as DeepView>::V;

    fn apply(&self, input: Self::Input) -> (output: Self::Output)
        ensures
            output.deep_view() == self.spec_apply(input.deep_view()),
    ;
}

/// The parser made by [`literal`].
pub struct Literal {
    pub expected: &'static str,
}

impl Parser<String> for Literal {
    open spec fn spec_parse(&self, input: Seq<char>) -> Option<(Seq<char>, Seq<char>)> {
        if self.expected@.is_prefix_of(input) {
            Some((input.skip(self.expected@.len() as int), self.expected@))
        } else {
            None
        }
    }

    proof fn lemma_remainder(&self, input: Seq<char>) {
    }

    fn parse<'a>(&self, input: &'a str) -> (result: ParseResult<'a, String>) {
        if starts_with(input, self.expected) {
            let rest = input.substring_char(self.expected.unicode_len(), input.unicode_len());
            Ok((rest, self.expected.to_owned()))
        } else {
            Err(input)
        }
    }
}

/// Matches the text `expected` at the start of the input and yields it.
pub fn literal(expected: &'static str) -> (parser: Literal)
    ensures
        parser.expected == expected,
{
    Literal { expected }
}

/// Matches one character for which `test` holds, and yields it as a text.
pub fn predicate<'a, F: Fn(char) -> bool>(input: &'a str, test: F) -> (result: ParseResult<
    'a,
    String,
>)
    requires
        forall|c: char| test.requires((c,)),
    ensures
        match result {
            Ok((rest, matched)) => {
                &&& input@.len() > 0
                &&& test.ensures((input@[0],), true)
                &&& matched@ == input@.take(1)
                &&& rest@ == input@.skip(1)
            },
            Err(rest) => {
                &&& rest@ == input@
                &&& input@.len() == 0 || test.ensures((input@[0],), false)
            },
        },
{
    let len = input.unicode_len();
    if len == 0 {
        return Err(input);
    }
    if test(input.get_char(0)) {
        Ok((input.substring_char(1, len), input.substring_char(0, 1).to_owned()))
    } else {
        Err(input)
    }
}

/// Takes characters from the start of the input for as long as `test` holds
/// of them, and yields them as a text. Never fails: the run may be empty.
pub fn take_while<'a, F: Fn(char) -> bool>(input: &'a str, test: F) -> (result: ParseResult<
    'a,
    String,
>)
    requires
        forall|c: char| test.requires((c,)),
    ensures
        result matches Ok((rest, matched)) && {
            &&& matched@.len() <= input@.len()
            &&& matched@ == input@.take(matched@.len() as int)
            &&& rest@ == input@.skip(matched@.len() as int)
            &&& forall|i: int|
                0 <= i < matched@.len() ==> test.ensures((#[trigger] input@[i],), true)
            &&& matched@.len() < input@.len() ==> test.ensures(
                (input@[matched@.len() as int],),
                false,
            )
        },
{
    let len = input.unicode_len();
    let mut n: usize = 0;
    while n < len
        invariant
            len == input@.len(),
            n <= len,
            forall|c: char| test.requires((c,)),
            forall|i: int| 0 <= i < n ==> test.ensures((#[trigger] input@[i],), true),
        ensures
            n <= len,
            forall|i: int| 0 <= i < n ==> test.ensures((#[trigger] input@[i],), true),
            n < len ==> test.ensures((input@[n as int],), false),
        decreases len - n,
    {
        if !test(input.get_char(n)) {
            break ;
        }
        n += 1;
    }
    Ok((input.substring_char(n, len), input.substring_char(0, n).to_owned()))
}

/// As [`take_while`], but fails where not even one character matches.
pub fn one_or_more<'a, F: Fn(char) -> bool>(input: &'a str, test: F) -> (result: ParseResult<
    'a,
    String,
>)
    requires
        forall|c: char| test.requires((c,)),
    ensures
        match result {
            Ok((rest, matched)) => {
                &&& 0 < matched@.len() <= input@.len()
                &&& matched@ == input@.take(matched@.len() as int)
                &&& rest@ == input@.skip(matched@.len() as int)
                &&& forall|i: int|
                    0 <= i < matched@.len() ==> test.ensures((#[trigger] input@[i],), true)
                &&& matched@.len() < input@.len() ==> test.ensures(
                    (input@[matched@.len() as int],),
                    false,
                )
            },
            Err(rest) => {
                &&& rest@ == input@
                &&& input@.len() == 0 || test.ensures((input@[0],), false)
            },
        },
{
    match take_while(input, test) {
        Ok((rest, matched)) => {
            if matched.as_str().unicode_len() == 0 {
                Err(input)
            } else {
                Ok((rest, matched))
            }
        },
        Err(rest) => Err(rest),
    }
}

/// The parser made by [`pair`].
pub struct Pair<P, Q> {
    pub first: P,
    pub second: Q,
}

impl<A: DeepView, B: DeepView, P: Parser<A>, Q: Parser<B>> Parser<(A, B)> for Pair<
    P,
    Q,
> {
    open spec fn spec_parse(&self, input: Seq<char>) -> Option<(Seq<char>, (A::V, B::V))> {
        match self.first.spec_parse(input) {
            Some((middle, value1)) => match self.second.spec_parse(middle) {
                Some((rest, value2)) => Some((rest, (value1, value2))),
                None => None,
            },
            None => None,
        }
    }

    proof fn lemma_remainder(&self, input: Seq<char>) {
        self.first.lemma_remainder(input);
        if let Some((middle, _)) = self.first.spec_parse(input) {
            self.second.lemma_remainder(middle);
            if let Some((rest, _)) = self.second.spec_parse(middle) {
                assert(rest =~= input.subrange(input.len() - rest.len(), input.len() as int));
            }
        }
    }

    fn parse<'a>(&self, input: &'a str) -> (result: ParseResult<'a, (A, B)>) {
        match self.first.parse(input) {
            Ok((middle, value1)) => match self.second.parse(middle) {
                Ok((rest, value2)) => Ok((rest, (value1, value2))),
                Err(_) => Err(input),
            },
            Err(_) => Err(input),
        }
    }
}

/// Runs `parser1`, then `parser2` on what it left, and yields both values.
/// Fails, reading nothing, where either fails.
pub fn pair<P, Q, A, B>(parser1: P, parser2: Q) -> (parser: Pair<P, Q>) where
    A: DeepView,
    B: DeepView,
    P: Parser<A>,
    Q: Parser<B>,

    ensures
        parser.first == parser1,
        parser.second == parser2,
{
    Pair { first: parser1, second: parser2 }
}

/// The parser made by [`map`].
pub struct Mapped<P, F> {
    pub parser: P,
    pub map_fn: F,
}

impl<P: Parser<F::Input>, F: Transform> Parser<F::Output> for Mapped<P, F> {
    open spec fn spec_parse(&self, input: Seq<char>) -> Option<
        (Seq<char>, <F::Output as DeepView>::V),
    > {
        match self.parser.spec_parse(input) {
            Some((rest, value)) => Some((rest, self.map_fn.spec_apply(value))),
            None => None,
        }
    }

    proof fn lemma_remainder(&self, input: Seq<char>) {
        self.parser.lemma_remainder(input);
    }

    fn parse<'a>(&self, input: &'a str) -> (result: ParseResult<'a, F::Output>) {
        match self.parser.parse(input) {
            Ok((rest, value)) => Ok((rest, self.map_fn.apply(value))),
            Err(rest) => Err(rest),
        }
    }
}

/// Runs `parser` and hands the value it yields to `map_fn`. What is read
/// does not change.
pub fn map<P, F>(parser: P, map_fn: F) -> (mapped: Mapped<P, F>) where
    P: Parser<F::Input>,
    F: Transform,

    ensures
        mapped.parser == parser,
        mapped.map_fn == map_fn,
{
    Mapped { parser, map_fn }
}

/// What the first parser of `parsers`, from index `from` on, that matches
/// `input` yields.
pub open spec fn first_match<R: DeepView, P: Parser<R>>(
    parsers: Seq<P>,
    input: Seq<char>,
    from: int,
) -> Option<(Seq<char>, R::V)>
    decreases parsers.len() - from,
{
    if 0 <= from < parsers.len() {
        match parsers[from].spec_parse(input) {
            Some(found) => Some(found),
            None => first_match(parsers, input, from + 1),
        }
    } else {
        None
    }
}

/// The parser made by [`one_of`].
pub struct OneOf<P> {
    pub parsers: Vec<P>,
}

impl<R: DeepView, P: Parser<R>> Parser<R> for OneOf<P> {
    open spec fn spec_parse(&self, input: Seq<char>) -> Option<(Seq<char>, R::V)> {
        first_match(self.parsers@, input, 0)
    }

    proof fn lemma_remainder(&self, input: Seq<char>) {
        lemma_first_match_remainder(self.parsers@, input, 0);
    }

    fn parse<'a>(&self, input: &'a str) -> (result: ParseResult<'a, R>) {
        let mut i: usize = 0;
        while i < self.parsers.len()
            invariant
                i <= self.parsers.len(),
                first_match(self.parsers@, input@, 0) == first_match(
                    self.parsers@,
                    input@,
                    i as int,
                ),
            decreases self.parsers.len() - i,
        {
            if let Ok(found) = self.parsers[i].parse(input) {
                return Ok(found);
            }
            i += 1;
        }
        Err(input)
    }
}

proof fn lemma_first_match_remainder<R: DeepView, P: Parser<R>>(
    parsers: Seq<P>,
    input: Seq<char>,
    from: int,
)
    ensures
        first_match(parsers, input, from) matches Some((rest, _)) ==> rest.is_suffix_of(input),
    decreases parsers.len() - from,
{
    if 0 <= from < parsers.len() {
        parsers[from].lemma_remainder(input);
        lemma_first_match_remainder(parsers, input, from + 1);
    }
}

/// Tries each of `parsers` in turn on the same input and yields what the
/// first that matches yields. Fails where none matches.
pub fn one_of<P, R>(parsers: Vec<P>) -> (parser: OneOf<P>) where R: DeepView, P: Parser<R>
    ensures
        parser.parsers == parsers,
{
    OneOf { parsers }
}

/// The parser made by [`optional`].
pub struct Optional<P> {
    pub parser: P,
}

impl<R: DeepView, P: Parser<R>> Parser<Option<R>> for Optional<P> {
    open spec fn spec_parse(&self, input: Seq<char>) -> Option<(Seq<char>, Option<R::V>)> {
        match self.parser.spec_parse(input) {
            Some((rest, value)) => Some((rest, Some(value))),
            None => Some((input, None)),
        }
    }

    proof fn lemma_remainder(&self, input: Seq<char>) {
        self.parser.lemma_remainder(input);
        assert(input =~= input.subrange(0, input.len() as int));
    }

    fn parse<'a>(&self, input: &'a str) -> (result: ParseResult<'a, Option<R>>) {
        match self.parser.parse(input) {
            Ok((rest, value)) => Ok((rest, Some(value))),
            Err(rest) => Ok((rest, None)),
        }
    }
}

/// Runs `parser` and yields its value; where it fails, yields `None` and
/// reads nothing. Never fails.
pub fn optional<P, R>(parser: P) -> (optional: Optional<P>) where R: DeepView, P: Parser<R>
    ensures
        optional.parser == parser,
{
    Optional { parser }
}

} // verus!
