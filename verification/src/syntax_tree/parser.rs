//! The text parser: from the characters of a program to its syntax tree.

use vstd::prelude::*;
use vstd::string::StrSliceExecFns;
use crate::syntax_tree::grammar;
use crate::syntax_tree::grammar::Separator;
use crate::syntax_tree::{
    expr_of,
    lemma_plain_from_views,
    lemma_views_of_push,
    plain_all,
    texts_of,
    views_of,
    Cond,
    Expr,
    ExprInner,
    ExprView,
    FnCall,
    FnDef,
    FnRet,
    Literal,
    Loop,
    LoopBr,
    Program,
    Scope,
    VarAssign,
    VarCall,
    VarDef,
};
use crate::value::{Number, Value, ValueView};

verus! {

/// Why a text is no program.
#[derive(Debug, Clone, Copy, PartialEq, Eq, Structural)]
pub enum ParseError {
    /// The text does not follow the grammar.
    Unparsable,
}

/// A text to parse, held so that each of its characters is at hand.
pub struct Source {
    text: String,
    chars: Vec<char>,
}

impl View for Source {
    type V = Seq<char>;

    closed spec fn view(&self) -> Seq<char> {
        self.chars@
    }
}

impl Source {
    #[verifier::type_invariant]
    spec fn consistent(self) -> bool {
        self.chars@ == self.text@
    }

    /// The source that holds `input`.
    pub fn new(input: &str) -> (source: Self)
        ensures
            source@ == input@,
    {
        let mut chars: Vec<char> = Vec::new();
        for c in it: input.chars()
            invariant
                it.seq() == input@,
                chars@ == input@.take(it.index() as int),
        {
            assert(input@.take(it.index() + 1) == input@.take(it.index() as int).push(c));
            chars.push(c);
        }
        assert(input@.take(input@.len() as int) == input@);
        Source { text: input.to_owned(), chars }
    }

    /// The number of characters.
    pub fn len(&self) -> (n: usize)
        ensures
            n == self@.len(),
    {
        self.chars.len()
    }

    /// The character at `position`.
    pub fn at(&self, position: usize) -> (c: char)
        requires
            position < self@.len(),
        ensures
            c == self@[position as int],
    {
        self.chars[position]
    }

    /// The characters from `from` up to `to`, as text.
    pub fn slice(&self, from: usize, to: usize) -> (text: String)
        requires
            from <= to <= self@.len(),
        ensures
            text@ == self@.subrange(from as int, to as int),
    {
        proof {
            use_type_invariant(self);
        }
        self.text.as_str().substring_char(from, to).to_owned()
    }

    /// Whether the character `c` stands at `position`.
    pub fn has(&self, position: usize, c: char) -> (found: bool)
        ensures
            found == grammar::char_at(self@, position as int, c),
    {
        position < self.chars.len() && self.chars[position] == c
    }

    /// Whether `word` stands at `position`.
    pub fn has_word(&self, position: usize, word: &Vec<char>) -> (found: bool)
        ensures
            found == grammar::word_at(self@, position as int, word@),
    {
        if word.len() > self.chars.len() || position > self.chars.len() - word.len() {
            return false;
        }
        let mut i: usize = 0;
        while i < word.len()
            invariant
                i <= word.len(),
                position + word.len() <= self.chars.len(),
                self@.subrange(position as int, position + i) == word@.take(i as int),
            decreases word.len() - i,
        {
            if self.chars[position + i] != word[i] {
                assert(self@.subrange(position as int, position + word@.len())[i as int]
                    != word@[i as int]);
                return false;
            }
            assert(self@.subrange(position as int, position + i + 1) == self@.subrange(
                position as int,
                position + i,
            ).push(self@[position + i]));
            assert(word@.take(i + 1) == word@.take(i as int).push(word@[i as int]));
            i = i + 1;
        }
        assert(word@.take(word@.len() as int) == word@);
        true
    }
}

/// The values of the number literals of a text, by the text of each literal.
pub struct NumberTable {
    entries: Vec<(String, Number)>,
}

/// The values that `entries` hold: that of a text is the one given last.
pub open spec fn values_by_text(entries: Seq<(String, Number)>) -> Map<Seq<char>, Number>
    decreases entries.len(),
{
    if entries.len() == 0 {
        Map::empty()
    } else {
        values_by_text(entries.drop_last()).insert(entries.last().0@, entries.last().1)
    }
}

impl View for NumberTable {
    type V = Map<Seq<char>, Number>;

    closed spec fn view(&self) -> Map<Seq<char>, Number> {
        values_by_text(self.entries@)
    }
}

impl NumberTable {
    /// A table that holds no value.
    pub fn new() -> (table: Self)
        ensures
            table@ == Map::<Seq<char>, Number>::empty(),
    {
        NumberTable { entries: Vec::new() }
    }

    /// Gives the number literal `text` the value `value`.
    pub fn insert(&mut self, text: String, value: Number)
        ensures
            final(self)@ == old(self)@.insert(text@, value),
    {
        self.entries.push((text, value));
        assert(self.entries@.drop_last() == old(self).entries@);
    }

    /// The value of the number literal `text`, if the table holds one.
    pub fn get(&self, text: &String) -> (value: Option<Number>)
        ensures
            value == (if self@.contains_key(text@) {
                Some(self@[text@])
            } else {
                None
            }),
    {
        let mut i: usize = self.entries.len();
        assert(self.entries@.take(i as int) == self.entries@);
        while i > 0
            invariant
                i <= self.entries.len(),
                self@.contains_key(text@) == values_by_text(
                    self.entries@.take(i as int),
                ).contains_key(text@),
                self@.contains_key(text@) ==> self@[text@] == values_by_text(
                    self.entries@.take(i as int),
                )[text@],
            decreases i,
        {
            i = i - 1;
            proof {
                let upto = self.entries@.take(i + 1);
                assert(upto.drop_last() == self.entries@.take(i as int));
                assert(upto.last() == self.entries@[i as int]);
            }
            if self.entries[i].0 == *text {
                return Some(self.entries[i].1);
            }
        }
        None
    }
}

/// Whether `c` is white space.
pub fn is_whitespace(c: char) -> (white: bool)
    ensures
        white == grammar::is_whitespace(c),
{
    let code = c as u32;
    (0x09 <= code && code <= 0x0d) || code == 0x20 || code == 0x85 || code == 0xa0 || code
        == 0x1680 || (0x2000 <= code && code <= 0x200a) || code == 0x2028 || code == 0x2029 || code
        == 0x202f || code == 0x205f || code == 0x3000
}

/// Whether `c` is a decimal digit.
pub fn is_digit(c: char) -> (digit: bool)
    ensures
        digit == grammar::is_digit(c),
{
    '0' <= c && c <= '9'
}

/// Whether a name can begin with `c`.
pub fn is_name_start(c: char) -> (start: bool)
    ensures
        start == grammar::is_name_start(c),
{
    ('a' <= c && c <= 'z') || ('A' <= c && c <= 'Z')
}

/// Whether a name can go on with `c`.
pub fn is_name_rest(c: char) -> (rest: bool)
    ensures
        rest == grammar::is_name_rest(c),
{
    is_name_start(c) || is_digit(c) || c == '-' || c == '_' || c == '+' || c == '/' || c == '*'
}

/// Where the white space that begins at `position` ends.
pub fn skip_whitespace(source: &Source, position: usize) -> (end: usize)
    ensures
        end == grammar::skip_whitespace(source@, position as int),
        position <= end,
        position <= source@.len() ==> end <= source@.len(),
{
    let mut end = position;
    while end < source.len() && is_whitespace(source.at(end))
        invariant
            position <= end,
            position <= source@.len() ==> end <= source@.len(),
            grammar::skip_whitespace(source@, position as int) == grammar::skip_whitespace(
                source@,
                end as int,
            ),
        decreases source@.len() - end,
    {
        end = end + 1;
    }
    end
}

/// Where the digits that begin at `position` end.
pub fn skip_digits(source: &Source, position: usize) -> (end: usize)
    ensures
        end == grammar::skip_digits(source@, position as int),
        position <= end,
        position <= source@.len() ==> end <= source@.len(),
{
    let mut end = position;
    while end < source.len() && is_digit(source.at(end))
        invariant
            position <= end,
            position <= source@.len() ==> end <= source@.len(),
            grammar::skip_digits(source@, position as int) == grammar::skip_digits(
                source@,
                end as int,
            ),
        decreases source@.len() - end,
    {
        end = end + 1;
    }
    end
}

/// Where the characters of a name that begin at `position` end.
pub fn skip_name(source: &Source, position: usize) -> (end: usize)
    ensures
        end == grammar::skip_name(source@, position as int),
        position <= end,
        position <= source@.len() ==> end <= source@.len(),
{
    let mut end = position;
    while end < source.len() && is_name_rest(source.at(end))
        invariant
            position <= end,
            position <= source@.len() ==> end <= source@.len(),
            grammar::skip_name(source@, position as int) == grammar::skip_name(
                source@,
                end as int,
            ),
        decreases source@.len() - end,
    {
        end = end + 1;
    }
    end
}

/// Where the characters of a string literal that begin at `position` end.
pub fn skip_string(source: &Source, position: usize) -> (end: usize)
    ensures
        end == grammar::skip_string(source@, position as int),
        position <= end,
        position <= source@.len() ==> end <= source@.len(),
{
    let mut end = position;
    while end < source.len() && source.at(end) != '"'
        invariant
            position <= end,
            position <= source@.len() ==> end <= source@.len(),
            grammar::skip_string(source@, position as int) == grammar::skip_string(
                source@,
                end as int,
            ),
        decreases source@.len() - end,
    {
        end = end + 1;
    }
    end
}

/// A name at `position`: its text and where it ends.
pub fn name(source: &Source, position: usize) -> (found: Option<(String, usize)>)
    ensures
        match found {
            Some((text, end)) => grammar::name(source@, position as int) == Some(
                (text@, end as int),
            ) && position < end <= source@.len(),
            None => grammar::name(source@, position as int).is_none(),
        },
{
    if position < source.len() && is_name_start(source.at(position)) {
        let end = skip_name(source, position + 1);
        Some((source.slice(position, end), end))
    } else {
        None
    }
}

/// Where the number literal that begins at `position` ends.
pub fn number_end(source: &Source, position: usize) -> (end: Option<usize>)
    ensures
        match end {
            Some(end) => grammar::number_end(source@, position as int) == Some(end as int)
                && position < end <= source@.len(),
            None => grammar::number_end(source@, position as int).is_none(),
        },
{
    let n = source.len();
    let start = if source.has(position, '-') {
        position + 1
    } else {
        position
    };
    if start < n && is_digit(source.at(start)) {
        let whole = if source.at(start) == '0' {
            start + 1
        } else {
            skip_digits(source, start + 1)
        };
        if source.has(whole, '.') && whole + 1 < source.len() && is_digit(source.at(whole + 1)) {
            Some(skip_digits(source, whole + 2))
        } else {
            Some(whole)
        }
    } else {
        None
    }
}

/// Whether `numbers` holds a value for every number literal that stands
/// anywhere in `text`.
pub open spec fn covers_numbers(numbers: Map<Seq<char>, Number>, text: Seq<char>) -> bool {
    forall|position: int| #[trigger]
        grammar::number_end(text, position) matches Some(end) ==> numbers.contains_key(
            text.subrange(position, end),
        )
}

/// The text of every number literal that stands anywhere in `source`, in the
/// order of the places where they begin. A table that holds a value for each
/// of them holds one for every number that the parser asks for.
pub fn number_literals(source: &Source) -> (literals: Vec<String>)
    ensures
        forall|position: int| #[trigger]
            grammar::number_end(source@, position) matches Some(end) ==> exists|i: int|
                0 <= i < literals@.len() && (#[trigger] literals@[i])@ == source@.subrange(
                    position,
                    end,
                ),
{
    let mut literals: Vec<String> = Vec::new();
    let mut position: usize = 0;
    while position < source.len()
        invariant
            position <= source@.len(),
            forall|p: int|
                p < position ==> (#[trigger] grammar::number_end(source@, p) matches Some(end)
                    ==> exists|i: int|
                    0 <= i < literals@.len() && (#[trigger] literals@[i])@ == source@.subrange(
                        p,
                        end,
                    )),
        decreases source@.len() - position,
    {
        let ghost before = literals@;
        match number_end(source, position) {
            Some(end) => {
                literals.push(source.slice(position, end));
            },
            None => {},
        }
        proof {
            assert forall|p: int| p < position + 1 implies (#[trigger] grammar::number_end(
                source@,
                p,
            ) matches Some(end) ==> exists|i: int|
                0 <= i < literals@.len() && (#[trigger] literals@[i])@ == source@.subrange(
                    p,
                    end,
                )) by {
                if let Some(end) = grammar::number_end(source@, p) {
                    if p < position {
                        let i = choose|i: int|
                            0 <= i < before.len() && (#[trigger] before[i])@ == source@.subrange(
                                p,
                                end,
                            );
                        assert(literals@[i] == before[i]);
                    } else {
                        assert(literals@[literals@.len() - 1]@ == source@.subrange(p, end));
                    }
                }
            }
        }
        position = position + 1;
    }
    literals
}

/// A literal at `position`: its value and where it ends. The value of a
/// number is the one that `numbers` holds for its text; a number that
/// `numbers` holds no value for is no literal.
pub fn literal_value(source: &Source, position: usize, numbers: &NumberTable) -> (found: Option<
    (Value, usize),
>)
    ensures
        match found {
            Some((value, end)) => grammar::literal_value(source@, position as int, numbers@)
                == Some((value@, end as int)) && position < end <= source@.len(),
            None => grammar::literal_value(source@, position as int, numbers@).is_none(),
        },
{
    let n = source.len();
    if source.has_word(position, &vec!['f', 'a', 'l', 's', 'e']) {
        return Some((Value::Bool(false), position + 5));
    }
    if source.has_word(position, &vec!['t', 'r', 'u', 'e']) {
        return Some((Value::Bool(true), position + 4));
    }
    if source.has_word(position, &vec!['n', 'o', 'n', 'e']) {
        return Some((Value::Nil, position + 4));
    }
    if source.has(position, '"') {
        let end = skip_string(source, position + 1);
        if source.has(end, '"') {
            return Some((Value::String(source.slice(position + 1, end)), end + 1));
        }
    }
    match number_end(source, position) {
        Some(end) => {
            let text = source.slice(position, end);
            match numbers.get(&text) {
                Some(number) => Some((Value::Number(number), end)),
                None => None,
            }
        },
        None => None,
    }
}

/// A separator at `position`: where it ends.
pub fn separator(source: &Source, position: usize, kind: &Separator) -> (end: Option<usize>)
    ensures
        match end {
            Some(end) => grammar::separator(source@, position as int, *kind) == Some(end as int)
                && position < end <= source@.len(),
            None => grammar::separator(source@, position as int, *kind).is_none(),
        },
{
    let n = source.len();
    match kind {
        Separator::Semicolon => if source.has(position, ';') {
            Some(position + 1)
        } else {
            None
        },
        Separator::PaddedSemicolon => {
            let at = skip_whitespace(source, position);
            if source.has(at, ';') {
                Some(skip_whitespace(source, at + 1))
            } else {
                None
            }
        },
        Separator::PaddedComma => {
            let at = skip_whitespace(source, position);
            if source.has(at, ',') {
                Some(skip_whitespace(source, at + 1))
            } else {
                None
            }
        },
    }
}

/// The names of a list of parameters at `position`, and where the list ends.
pub fn names(source: &Source, position: usize) -> (found: (Vec<String>, usize))
    ensures
        grammar::names(source@, position as int) == (texts_of(found.0@), found.1 as int),
        position <= found.1,
        position <= source@.len() ==> found.1 <= source@.len(),
{
    let mut found: Vec<String> = Vec::new();
    let mut end = match name(source, position) {
        Some((first, end)) => {
            found.push(first);
            end
        },
        None => {
            assert(texts_of(found@) == Seq::<Seq<char>>::empty());
            return (found, position);
        },
    };
    assert(texts_of(found@) == seq![found@[0]@]);
    loop
        invariant
            position < end <= source@.len(),
            grammar::names(source@, position as int) == grammar::more_names(
                source@,
                end as int,
                texts_of(found@),
            ),
        decreases source@.len() - end,
    {
        let after = match separator(source, end, &Separator::PaddedComma) {
            Some(after) => after,
            None => {
                return (found, end);
            },
        };
        match name(source, after) {
            Some((next, next_end)) => {
                let ghost before = texts_of(found@);
                found.push(next);
                assert(texts_of(found@) == before.push(next@));
                end = next_end;
            },
            None => {
                return (found, end);
            },
        }
    }
}

/// An expression at `position`, with the white space around it, and where it
/// ends.
pub fn expression_parser(source: &Source, position: usize, numbers: &NumberTable) -> (found:
    Option<(Expr, usize)>)
    ensures
        match found {
            Some((expression, end)) => grammar::expression(source@, position as int, numbers@)
                == Some((expression@, end as int)) && position < end <= source@.len(),
            None => grammar::expression(source@, position as int, numbers@).is_none(),
        },
    decreases source@.len() - position, 9int,
{
    let start = skip_whitespace(source, position);
    if start > source.len() {
        return None;
    }
    let found = if let Some((condition, end)) = condition_parser(source, start, numbers) {
        Some((Expr(Box::new(ExprInner::Cond(condition))), end))
    } else if let Some((definition, end)) = function_definition_parser(source, start, numbers) {
        Some((Expr(Box::new(ExprInner::FnDef(definition))), end))
    } else if let Some((ret, end)) = function_return_parser(source, start, numbers) {
        Some((Expr(Box::new(ExprInner::FnRet(ret))), end))
    } else if let Some((l, end)) = loop_parser(source, start, numbers) {
        Some((Expr(Box::new(ExprInner::Loop(l))), end))
    } else if let Some((br, end)) = loop_break_parser(source, start, numbers) {
        Some((Expr(Box::new(ExprInner::LoopBr(br))), end))
    } else if let Some((scope, end)) = scope_parser(source, start, numbers) {
        Some((Expr(Box::new(ExprInner::Scope(scope))), end))
    } else if let Some((value, end)) = literal_value(source, start, numbers) {
        Some((Expr::new_literal(value), end))
    } else if let Some((definition, end)) = variable_definition_parser(source, start, numbers) {
        Some((Expr(Box::new(ExprInner::VarDef(definition))), end))
    } else if let Some((assignment, end)) = variable_assignement_parser(source, start, numbers) {
        Some((Expr(Box::new(ExprInner::VarAssign(assignment))), end))
    } else if let Some((call, end)) = function_call_parser(source, start, numbers) {
        Some((Expr(Box::new(ExprInner::FnCall(call))), end))
    } else if let Some((call, end)) = variable_call_parser(source, start) {
        Some((Expr(Box::new(ExprInner::VarCall(call))), end))
    } else {
        None
    };
    match found {
        Some((expression, end)) => {
            assert(grammar::alternatives(source@, start as int, numbers@) == Some(
                (expression@, end as int),
            ));
            Some((expression, skip_whitespace(source, end)))
        },
        None => {
            assert(grammar::alternatives(source@, start as int, numbers@).is_none());
            None
        },
    }
}

/// A variable that is read, with the white space around it, as an expression.
pub fn debugging_expression_parser(source: &Source, position: usize) -> (found: Option<
    (Expr, usize),
>)
    ensures
        match found {
            Some((expression, end)) => grammar::name(
                source@,
                grammar::skip_whitespace(source@, position as int),
            ) matches Some((text, after)) && expression@ == (ExprView::VarCall { name: text })
                && end == grammar::skip_whitespace(source@, after),
            None => grammar::name(
                source@,
                grammar::skip_whitespace(source@, position as int),
            ).is_none(),
        },
{
    let start = skip_whitespace(source, position);
    match variable_call_parser(source, start) {
        Some((call, end)) => Some(
            (Expr(Box::new(ExprInner::VarCall(call))), skip_whitespace(source, end)),
        ),
        None => None,
    }
}

/// A variable that is read.
pub fn variable_call_parser(source: &Source, position: usize) -> (found: Option<(VarCall, usize)>)
    ensures
        match found {
            Some((call, end)) => grammar::name(source@, position as int) == Some(
                (call.name@, end as int),
            ) && position < end <= source@.len(),
            None => grammar::name(source@, position as int).is_none(),
        },
{
    match name(source, position) {
        Some((name, end)) => Some((VarCall { name }, end)),
        None => None,
    }
}

/// A conditional.
pub fn condition_parser(source: &Source, position: usize, numbers: &NumberTable) -> (found: Option<
    (Cond, usize),
>)
    ensures
        match found {
            Some((cond, end)) => grammar::condition(source@, position as int, numbers@) == Some(
                (expr_of(ExprInner::Cond(cond))@, end as int),
            ) && position < end <= source@.len(),
            None => grammar::condition(source@, position as int, numbers@).is_none(),
        },
    decreases source@.len() - position, 7int,
{
    let n = source.len();
    if !source.has_word(position, &vec!['i', 'f', ' ']) {
        return None;
    }
    let (condition, after_test) = match expression_parser(source, position + 3, numbers) {
        Some(found) => found,
        None => {
            return None;
        },
    };
    let (arm_true, after_true) = match expression_parser(source, after_test, numbers) {
        Some(found) => found,
        None => {
            return None;
        },
    };
    let otherwise = if source.has_word(after_true, &vec!['e', 'l', 's', 'e', ' ']) {
        expression_parser(source, after_true + 5, numbers)
    } else {
        None
    };
    match otherwise {
        Some((arm_false, end)) => Some(
            (Cond { condition, arm_true, arm_false: Some(arm_false) }, end),
        ),
        None => Some((Cond { condition, arm_true, arm_false: None }, after_true)),
    }
}

/// A function literal.
pub fn function_definition_parser(source: &Source, position: usize, numbers: &NumberTable) -> (found:
    Option<(FnDef, usize)>)
    ensures
        match found {
            Some((definition, end)) => grammar::function_definition(
                source@,
                position as int,
                numbers@,
            ) == Some((expr_of(ExprInner::FnDef(definition))@, end as int)) && position < end
                <= source@.len(),
            None => grammar::function_definition(source@, position as int, numbers@).is_none(),
        },
    decreases source@.len() - position, 7int,
{
    let n = source.len();
    if !source.has(position, '(') {
        return None;
    }
    let (parameter_names, after_names) = names(source, skip_whitespace(source, position + 1));
    let close = skip_whitespace(source, after_names);
    if !source.has(close, ')') {
        return None;
    }
    let arrow = skip_whitespace(source, close + 1);
    if !source.has_word(arrow, &vec!['=', '>']) {
        return None;
    }
    let open = skip_whitespace(source, arrow + 2);
    match scope_parser(source, open, numbers) {
        Some((body, end)) => Some((FnDef { parameter_names, body }, end)),
        None => None,
    }
}

/// A `return`.
pub fn function_return_parser(source: &Source, position: usize, numbers: &NumberTable) -> (found:
    Option<(FnRet, usize)>)
    ensures
        match found {
            Some((ret, end)) => grammar::function_return(source@, position as int, numbers@)
                == Some((expr_of(ExprInner::FnRet(ret))@, end as int)) && position < end
                <= source@.len(),
            None => grammar::function_return(source@, position as int, numbers@).is_none(),
        },
    decreases source@.len() - position, 7int,
{
    let n = source.len();
    if !source.has_word(position, &vec!['r', 'e', 't', 'u', 'r', 'n']) {
        return None;
    }
    match expression_parser(source, position + 6, numbers) {
        Some((value, end)) => Some((FnRet { value }, end)),
        None => {
            let value = Expr::new_literal(Value::Bool(true));
            assert(value@ == ExprView::Literal(ValueView::Bool(true)));
            Some((FnRet { value }, position + 6))
        },
    }
}

/// A loop.
pub fn loop_parser(source: &Source, position: usize, numbers: &NumberTable) -> (found: Option<
    (Loop, usize),
>)
    ensures
        match found {
            Some((l, end)) => grammar::loop_(source@, position as int, numbers@) == Some(
                (expr_of(ExprInner::Loop(l))@, end as int),
            ) && position < end <= source@.len(),
            None => grammar::loop_(source@, position as int, numbers@).is_none(),
        },
    decreases source@.len() - position, 7int,
{
    let n = source.len();
    if !source.has_word(position, &vec!['l', 'o', 'o', 'p']) {
        return None;
    }
    let open = skip_whitespace(source, position + 4);
    match scope_parser(source, open, numbers) {
        Some((body, end)) => Some((Loop { body }, end)),
        None => None,
    }
}

/// A `break`.
pub fn loop_break_parser(source: &Source, position: usize, numbers: &NumberTable) -> (found: Option<
    (LoopBr, usize),
>)
    ensures
        match found {
            Some((br, end)) => grammar::loop_break(source@, position as int, numbers@) == Some(
                (expr_of(ExprInner::LoopBr(br))@, end as int),
            ) && position < end <= source@.len(),
            None => grammar::loop_break(source@, position as int, numbers@).is_none(),
        },
    decreases source@.len() - position, 7int,
{
    let n = source.len();
    if !source.has_word(position, &vec!['b', 'r', 'e', 'a', 'k', ' ']) {
        return None;
    }
    match expression_parser(source, position + 6, numbers) {
        Some((value, end)) => Some((LoopBr { value }, end)),
        None => None,
    }
}

/// A block.
pub fn scope_parser(source: &Source, position: usize, numbers: &NumberTable) -> (found: Option<
    (Scope, usize),
>)
    ensures
        match found {
            Some((scope, end)) => grammar::scope(source@, position as int, numbers@) == Some(
                (scope@, end as int),
            ) && position < end <= source@.len(),
            None => grammar::scope(source@, position as int, numbers@).is_none(),
        },
    decreases source@.len() - position, 7int,
{
    let n = source.len();
    if !source.has(position, '{') {
        return None;
    }
    let start = skip_whitespace(source, position + 1);
    let (instructions, after) = list(source, start, numbers, &Separator::Semicolon);
    let close = skip_whitespace(source, after);
    if source.has(close, '}') {
        Some((Scope { instructions }, close + 1))
    } else {
        None
    }
}

/// A declaration.
pub fn variable_definition_parser(source: &Source, position: usize, numbers: &NumberTable) -> (found:
    Option<(VarDef, usize)>)
    ensures
        match found {
            Some((definition, end)) => grammar::variable_definition(
                source@,
                position as int,
                numbers@,
            ) == Some((expr_of(ExprInner::VarDef(definition))@, end as int)) && position < end
                <= source@.len(),
            None => grammar::variable_definition(source@, position as int, numbers@).is_none(),
        },
    decreases source@.len() - position, 7int,
{
    let n = source.len();
    let (name, end) = match name(source, position) {
        Some(found) => found,
        None => {
            return None;
        },
    };
    let colon = skip_whitespace(source, end);
    if !source.has(colon, ':') {
        return None;
    }
    let start = skip_whitespace(source, colon + 1);
    match expression_parser(source, start, numbers) {
        Some((value, end)) => Some((VarDef { name, value }, end)),
        None => None,
    }
}

/// An assignment.
pub fn variable_assignement_parser(source: &Source, position: usize, numbers: &NumberTable) -> (found:
    Option<(VarAssign, usize)>)
    ensures
        match found {
            Some((assignment, end)) => grammar::variable_assignment(
                source@,
                position as int,
                numbers@,
            ) == Some((expr_of(ExprInner::VarAssign(assignment))@, end as int)) && position < end
                <= source@.len(),
            None => grammar::variable_assignment(source@, position as int, numbers@).is_none(),
        },
    decreases source@.len() - position, 7int,
{
    let n = source.len();
    let (name, end) = match name(source, position) {
        Some(found) => found,
        None => {
            return None;
        },
    };
    let arrow = skip_whitespace(source, end);
    if !source.has_word(arrow, &vec!['<', '-']) {
        return None;
    }
    let start = skip_whitespace(source, arrow + 2);
    match expression_parser(source, start, numbers) {
        Some((value, end)) => Some((VarAssign { name, value }, end)),
        None => None,
    }
}

/// A call.
pub fn function_call_parser(source: &Source, position: usize, numbers: &NumberTable) -> (found:
    Option<(FnCall, usize)>)
    ensures
        match found {
            Some((call, end)) => grammar::function_call(source@, position as int, numbers@)
                == Some((expr_of(ExprInner::FnCall(call))@, end as int)) && position < end
                <= source@.len(),
            None => grammar::function_call(source@, position as int, numbers@).is_none(),
        },
    decreases source@.len() - position, 7int,
{
    let n = source.len();
    let (name, end) = match name(source, position) {
        Some(found) => found,
        None => {
            return None;
        },
    };
    let open = skip_whitespace(source, end);
    if !source.has(open, '(') {
        return None;
    }
    let start = skip_whitespace(source, open + 1);
    let (arguments, after) = list(source, start, numbers, &Separator::PaddedComma);
    let close = skip_whitespace(source, after);
    if source.has(close, ')') {
        Some((FnCall { name, arguments }, skip_whitespace(source, close + 1)))
    } else {
        None
    }
}

/// A list of expressions with separators between them at `position`, and
/// where it ends.
pub fn list(source: &Source, position: usize, numbers: &NumberTable, kind: &Separator) -> (found: (
    Vec<Expr>,
    usize,
))
    ensures
        grammar::list(source@, position as int, numbers@, *kind) == (
            views_of(found.0@),
            found.1 as int,
        ),
        position <= found.1,
        position <= source@.len() ==> found.1 <= source@.len(),
    decreases source@.len() - position, 11int,
{
    let mut found: Vec<Expr> = Vec::new();
    let mut end = match expression_parser(source, position, numbers) {
        Some((first, end)) => {
            proof {
                lemma_views_of_push(found@, first);
            }
            found.push(first);
            end
        },
        None => {
            return (found, position);
        },
    };
    loop
        invariant
            position < end <= source@.len(),
            grammar::list(source@, position as int, numbers@, *kind) == grammar::more(
                source@,
                end as int,
                numbers@,
                *kind,
                views_of(found@),
            ),
        decreases source@.len() - end,
    {
        let after = match separator(source, end, kind) {
            Some(after) => after,
            None => {
                return (found, end);
            },
        };
        match expression_parser(source, after, numbers) {
            Some((next, next_end)) => {
                proof {
                    lemma_views_of_push(found@, next);
                }
                found.push(next);
                end = next_end;
            },
            None => {
                return (found, end);
            },
        }
    }
}

/// An operation written between its operands at `position`, as the call that
/// it stands for.
fn operation_parser(
    source: &Source,
    position: usize,
    numbers: &NumberTable,
    sign: &Vec<char>,
    function: &str,
) -> (found: Option<(Expr, usize)>)
    requires
        sign@.len() <= 4,
    ensures
        match found {
            Some((call, end)) => grammar::operation(
                source@,
                position as int,
                numbers@,
                sign@,
                function@,
            ) == Some((call@, end as int)),
            None => grammar::operation(source@, position as int, numbers@, sign@, function@).is_none(),
        },
{
    let n = source.len();
    let (left, after) = match expression_parser(source, position, numbers) {
        Some(found) => found,
        None => {
            return None;
        },
    };
    if !source.has_word(after, sign) {
        return None;
    }
    match expression_parser(source, after + sign.len(), numbers) {
        Some((right, end)) => {
            let ghost operands = seq![left@, right@];
            let mut arguments: Vec<Expr> = Vec::new();
            proof {
                lemma_views_of_push(arguments@, left);
            }
            arguments.push(left);
            proof {
                lemma_views_of_push(arguments@, right);
            }
            arguments.push(right);
            assert(views_of(arguments@) == operands);
            Some((Expr::new_function_call(function, arguments), end))
        },
        None => None,
    }
}

/// The names of the functions that the operations stand for, as text.
proof fn lemma_operation_names()
    ensures
        grammar::operations().len() == 7,
        grammar::operations()[0] == (seq![' ', '=', '=', ' '], "eq"@),
        grammar::operations()[1] == (seq![' ', '+', ' '], "add"@),
        grammar::operations()[2] == (seq![' ', '-', ' '], "sub"@),
        grammar::operations()[3] == (seq![' ', '>', ' '], "sup"@),
        grammar::operations()[4] == (seq![' ', '<', ' '], "inf"@),
        grammar::operations()[5] == (seq![' ', '|', '|', ' '], "or"@),
        grammar::operations()[6] == (seq![' ', '&', '&', ' '], "and"@),
{
    reveal_strlit("eq");
    reveal_strlit("add");
    reveal_strlit("sub");
    reveal_strlit("sup");
    reveal_strlit("inf");
    reveal_strlit("or");
    reveal_strlit("and");
    assert("eq"@ == seq!['e', 'q']);
    assert("add"@ == seq!['a', 'd', 'd']);
    assert("sub"@ == seq!['s', 'u', 'b']);
    assert("sup"@ == seq!['s', 'u', 'p']);
    assert("inf"@ == seq!['i', 'n', 'f']);
    assert("or"@ == seq!['o', 'r']);
    assert("and"@ == seq!['a', 'n', 'd']);
}

/// The operations from the `from`-th on at `position`, the `from`-th being
/// the one with the sign `sign` for the function `function`.
fn sugar_from(
    source: &Source,
    position: usize,
    numbers: &NumberTable,
    from: usize,
    sign: &Vec<char>,
    function: &str,
    rest: Option<(Expr, usize)>,
) -> (found: Option<(Expr, usize)>)
    requires
        from < grammar::operations().len(),
        grammar::operations()[from as int] == (sign@, function@),
        sign@.len() <= 4,
        match rest {
            Some((call, end)) => grammar::sugar_from(
                source@,
                position as int,
                numbers@,
                from + 1,
            ) == Some((call@, end as int)),
            None => grammar::sugar_from(source@, position as int, numbers@, from + 1).is_none(),
        },
    ensures
        match found {
            Some((call, end)) => grammar::sugar_from(
                source@,
                position as int,
                numbers@,
                from as int,
            ) == Some((call@, end as int)),
            None => grammar::sugar_from(source@, position as int, numbers@, from as int).is_none(),
        },
{
    match operation_parser(source, position, numbers, sign, function) {
        Some(found) => Some(found),
        None => rest,
    }
}

/// An operation written between its operands at `position`: equality, sum,
/// difference, comparison, disjunction or conjunction, as the call that it
/// stands for. The grammar of expressions does not use this rule.
pub fn sugar_parser(source: &Source, position: usize, numbers: &NumberTable) -> (found: Option<
    (Expr, usize),
>)
    ensures
        match found {
            Some((call, end)) => grammar::sugar(source@, position as int, numbers@) == Some(
                (call@, end as int),
            ),
            None => grammar::sugar(source@, position as int, numbers@).is_none(),
        },
{
    proof {
        lemma_operation_names();
    }
    let found = sugar_from(source, position, numbers, 6, &vec![' ', '&', '&', ' '], "and", None);
    let found = sugar_from(source, position, numbers, 5, &vec![' ', '|', '|', ' '], "or", found);
    let found = sugar_from(source, position, numbers, 4, &vec![' ', '<', ' '], "inf", found);
    let found = sugar_from(source, position, numbers, 3, &vec![' ', '>', ' '], "sup", found);
    let found = sugar_from(source, position, numbers, 2, &vec![' ', '-', ' '], "sub", found);
    let found = sugar_from(source, position, numbers, 1, &vec![' ', '+', ' '], "add", found);
    sugar_from(source, position, numbers, 0, &vec![' ', '=', '=', ' '], "eq", found)
}

/// A whole program: the text of `source` from its beginning to its end.
pub fn parser(source: &Source, numbers: &NumberTable) -> (found: Option<Program>)
    ensures
        match found {
            Some(program) => grammar::program(source@, numbers@) == Some(program@),
            None => grammar::program(source@, numbers@).is_none(),
        },
{
    let (instructions, after) = list(source, 0, numbers, &Separator::PaddedSemicolon);
    let end = match separator(source, after, &Separator::PaddedSemicolon) {
        Some(end) => end,
        None => after,
    };
    if end == source.len() {
        Some(Program { body: Scope { instructions } })
    } else {
        None
    }
}

/// Parses programs whose numbers have the values of a table.
pub struct ParserWrapper {
    numbers: NumberTable,
}

impl ParserWrapper {
    /// A parser that reads each number literal as the value that `numbers`
    /// holds for its text.
    pub fn new(numbers: NumberTable) -> (wrapper: Self)
        ensures
            wrapper.numbers()@ == numbers@,
    {
        ParserWrapper { numbers }
    }

    /// The table that the number literals are read from.
    pub closed spec fn numbers(&self) -> NumberTable {
        self.numbers
    }

    /// The program that `input` is, or the failure where it is none. No
    /// literal of the program is a function.
    pub fn parse(&self, input: &str) -> (program: Result<Program, ParseError>)
        ensures
            match program {
                Ok(program) => grammar::program(input@, self.numbers()@) == Some(program@)
                    && plain_all(program.body.instructions@),
                Err(_) => grammar::program(input@, self.numbers()@).is_none(),
            },
    {
        proof {
            grammar::lemma_program_plain(input@, self.numbers()@);
        }
        let source = Source::new(input);
        match parser(&source, &self.numbers) {
            Some(program) => {
                proof {
                    lemma_plain_from_views(program.body.instructions@);
                }
                Ok(program)
            },
            None => Err(ParseError::Unparsable),
        }
    }
}

impl Default for ParserWrapper {
    /// A parser for programs without number literals.
    fn default() -> (wrapper: Self)
        ensures
            wrapper.numbers()@ == Map::<Seq<char>, Number>::empty(),
    {
        ParserWrapper::new(NumberTable::new())
    }
}

} // verus!
