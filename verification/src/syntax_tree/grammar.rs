//! The grammar of the language: what text is a program, and which program it
//! is.
//!
//! The grammar is a parsing expression grammar: alternatives are tried in
//! order and the first that matches is taken for good. Each function here
//! says what one rule matches at a position of the text: `None` where it does
//! not match, else what it stands for and where the match ends.

use vstd::prelude::*;
use crate::syntax_tree::{plain_view, plain_views, ExprView};
use crate::value::{Number, ValueView};

verus! {

/// Whether `c` is white space: a character with the Unicode property
/// `White_Space`.
pub open spec fn is_whitespace(c: char) -> bool {
    let code = c as u32;
    ||| 0x09 <= code <= 0x0d
    ||| code == 0x20
    ||| code == 0x85
    ||| code == 0xa0
    ||| code == 0x1680
    ||| 0x2000 <= code <= 0x200a
    ||| code == 0x2028
    ||| code == 0x2029
    ||| code == 0x202f
    ||| code == 0x205f
    ||| code == 0x3000
}

/// Whether `c` is a decimal digit.
pub open spec fn is_digit(c: char) -> bool {
    '0' <= c <= '9'
}

/// Whether a name can begin with `c`: a letter of the Latin alphabet.
pub open spec fn is_name_start(c: char) -> bool {
    'a' <= c <= 'z' || 'A' <= c <= 'Z'
}

/// Whether a name can go on with `c`.
pub open spec fn is_name_rest(c: char) -> bool {
    is_name_start(c) || is_digit(c) || c == '-' || c == '_' || c == '+' || c == '/' || c == '*'
}

/// Where the white space that begins at `position` ends.
pub open spec fn skip_whitespace(text: Seq<char>, position: int) -> int
    decreases text.len() - position,
{
    if 0 <= position < text.len() && is_whitespace(text[position]) {
        skip_whitespace(text, position + 1)
    } else {
        position
    }
}

/// Where the digits that begin at `position` end.
pub open spec fn skip_digits(text: Seq<char>, position: int) -> int
    decreases text.len() - position,
{
    if 0 <= position < text.len() && is_digit(text[position]) {
        skip_digits(text, position + 1)
    } else {
        position
    }
}

/// Where the characters of a name that begin at `position` end.
pub open spec fn skip_name(text: Seq<char>, position: int) -> int
    decreases text.len() - position,
{
    if 0 <= position < text.len() && is_name_rest(text[position]) {
        skip_name(text, position + 1)
    } else {
        position
    }
}

/// Where the characters of a string literal that begin at `position` end: at
/// the next double quote, or at the end of the text.
pub open spec fn skip_string(text: Seq<char>, position: int) -> int
    decreases text.len() - position,
{
    if 0 <= position < text.len() && text[position] != '"' {
        skip_string(text, position + 1)
    } else {
        position
    }
}

/// Whether `word` stands in `text` at `position`.
pub open spec fn word_at(text: Seq<char>, position: int, word: Seq<char>) -> bool {
    0 <= position && position + word.len() <= text.len() && text.subrange(
        position,
        position + word.len(),
    ) == word
}

/// Whether the character `c` stands in `text` at `position`.
pub open spec fn char_at(text: Seq<char>, position: int, c: char) -> bool {
    0 <= position < text.len() && text[position] == c
}

/// A name: a letter, then letters, digits and the signs `-`, `_`, `+`, `/`
/// and `*`, as many as follow.
pub open spec fn name(text: Seq<char>, position: int) -> Option<(Seq<char>, int)> {
    if 0 <= position < text.len() && is_name_start(text[position]) {
        let end = skip_name(text, position + 1);
        Some((text.subrange(position, end), end))
    } else {
        None
    }
}

/// Where the number literal that begins at `position` ends: an optional minus
/// sign, then `0` or digits that do not begin with `0`, then optionally a
/// point and digits.
pub open spec fn number_end(text: Seq<char>, position: int) -> Option<int> {
    let start = if char_at(text, position, '-') {
        position + 1
    } else {
        position
    };
    if 0 <= start < text.len() && is_digit(text[start]) {
        let whole = if text[start] == '0' {
            start + 1
        } else {
            skip_digits(text, start + 1)
        };
        if char_at(text, whole, '.') && 0 <= whole + 1 < text.len() && is_digit(text[whole + 1]) {
            Some(skip_digits(text, whole + 2))
        } else {
            Some(whole)
        }
    } else {
        None
    }
}

/// A literal: `false`, `true`, `none`, a string between double quotes, or a
/// number. The value of a number is what `numbers` holds for its text; where
/// `numbers` holds nothing for it, it is no literal.
pub open spec fn literal_value(
    text: Seq<char>,
    position: int,
    numbers: Map<Seq<char>, Number>,
) -> Option<(ValueView, int)> {
    if word_at(text, position, seq!['f', 'a', 'l', 's', 'e']) {
        Some((ValueView::Bool(false), position + 5))
    } else if word_at(text, position, seq!['t', 'r', 'u', 'e']) {
        Some((ValueView::Bool(true), position + 4))
    } else if word_at(text, position, seq!['n', 'o', 'n', 'e']) {
        Some((ValueView::Nil, position + 4))
    } else if char_at(text, position, '"') && char_at(
        text,
        skip_string(text, position + 1),
        '"',
    ) {
        let end = skip_string(text, position + 1);
        Some((ValueView::String(text.subrange(position + 1, end)), end + 1))
    } else {
        match number_end(text, position) {
            Some(end) => {
                if numbers.contains_key(text.subrange(position, end)) {
                    Some((ValueView::Number(numbers[text.subrange(position, end)]), end))
                } else {
                    None
                }
            },
            None => None,
        }
    }
}

/// What separates the items of a list.
pub enum Separator {
    /// A semicolon, as between the instructions of a block.
    Semicolon,
    /// A semicolon with white space around it, as between the instructions of
    /// a program.
    PaddedSemicolon,
    /// A comma with white space around it, as between arguments and between
    /// parameters.
    PaddedComma,
}

/// A separator: where it ends.
pub open spec fn separator(text: Seq<char>, position: int, kind: Separator) -> Option<int> {
    match kind {
        Separator::Semicolon => if char_at(text, position, ';') {
            Some(position + 1)
        } else {
            None
        },
        Separator::PaddedSemicolon => {
            let at = skip_whitespace(text, position);
            if char_at(text, at, ';') {
                Some(skip_whitespace(text, at + 1))
            } else {
                None
            }
        },
        Separator::PaddedComma => {
            let at = skip_whitespace(text, position);
            if char_at(text, at, ',') {
                Some(skip_whitespace(text, at + 1))
            } else {
                None
            }
        },
    }
}

/// More names of a list of parameters, each after a comma: the names, after
/// those in `found`, and where the list ends.
pub open spec fn more_names(text: Seq<char>, position: int, found: Seq<Seq<char>>) -> (
    Seq<Seq<char>>,
    int,
)
    decreases text.len() - position,
{
    match separator(text, position, Separator::PaddedComma) {
        None => (found, position),
        Some(after) => match name(text, after) {
            None => (found, position),
            Some((next, end)) => {
                if position < end <= text.len() {
                    more_names(text, end, found.push(next))
                } else {
                    (found.push(next), end)
                }
            },
        },
    }
}

/// The names of a list of parameters, separated by commas, and where the list
/// ends. The list may be empty.
pub open spec fn names(text: Seq<char>, position: int) -> (Seq<Seq<char>>, int) {
    match name(text, position) {
        None => (Seq::empty(), position),
        Some((first, end)) => more_names(text, end, seq![first]),
    }
}

/// An expression, with the white space around it.
///
/// The alternatives, in the order in which they are tried: a conditional, a
/// function literal, a `return`, a loop, a `break`, a block, a literal, a
/// declaration, an assignment, a call, a variable.
pub open spec fn expression(text: Seq<char>, position: int, numbers: Map<Seq<char>, Number>) -> Option<
    (ExprView, int),
>
    decreases text.len() - position, 9int,
{
    let start = skip_whitespace(text, position);
    if position <= start <= text.len() {
        match alternatives(text, start, numbers) {
            Some((found, end)) => Some((found, skip_whitespace(text, end))),
            None => None,
        }
    } else {
        None
    }
}

/// The alternatives of an expression, without white space before or after.
pub open spec fn alternatives(text: Seq<char>, position: int, numbers: Map<Seq<char>, Number>) -> Option<
    (ExprView, int),
>
    decreases text.len() - position, 8int,
{
    if condition(text, position, numbers) is Some {
        condition(text, position, numbers)
    } else if function_definition(text, position, numbers) is Some {
        function_definition(text, position, numbers)
    } else if function_return(text, position, numbers) is Some {
        function_return(text, position, numbers)
    } else if loop_(text, position, numbers) is Some {
        loop_(text, position, numbers)
    } else if loop_break(text, position, numbers) is Some {
        loop_break(text, position, numbers)
    } else if scope(text, position, numbers) is Some {
        match scope(text, position, numbers) {
            Some((body, end)) => Some((ExprView::Scope(body), end)),
            None => None,
        }
    } else if literal_value(text, position, numbers) is Some {
        match literal_value(text, position, numbers) {
            Some((value, end)) => Some((ExprView::Literal(value), end)),
            None => None,
        }
    } else if variable_definition(text, position, numbers) is Some {
        variable_definition(text, position, numbers)
    } else if variable_assignment(text, position, numbers) is Some {
        variable_assignment(text, position, numbers)
    } else if function_call(text, position, numbers) is Some {
        function_call(text, position, numbers)
    } else {
        match name(text, position) {
            Some((found, end)) => Some((ExprView::VarCall { name: found }, end)),
            None => None,
        }
    }
}

/// A conditional: `if `, the condition, the expression taken when it holds,
/// and optionally `else ` and the expression taken when it does not.
pub open spec fn condition(text: Seq<char>, position: int, numbers: Map<Seq<char>, Number>) -> Option<
    (ExprView, int),
>
    decreases text.len() - position, 7int,
{
    if word_at(text, position, seq!['i', 'f', ' ']) && position + 3 <= text.len() {
        match expression(text, position + 3, numbers) {
            None => None,
            Some((tested, after_test)) => {
                if position < after_test <= text.len() {
                    match expression(text, after_test, numbers) {
                        None => None,
                        Some((arm_true, after_true)) => {
                            let otherwise = if word_at(
                                text,
                                after_true,
                                seq!['e', 'l', 's', 'e', ' '],
                            ) && position < after_true && after_true + 5 <= text.len() {
                                expression(text, after_true + 5, numbers)
                            } else {
                                None
                            };
                            match otherwise {
                                Some((arm_false, end)) => Some(
                                    (
                                        ExprView::Cond {
                                            condition: Box::new(tested),
                                            arm_true: Box::new(arm_true),
                                            arm_false: Some(Box::new(arm_false)),
                                        },
                                        end,
                                    ),
                                ),
                                None => Some(
                                    (
                                        ExprView::Cond {
                                            condition: Box::new(tested),
                                            arm_true: Box::new(arm_true),
                                            arm_false: None,
                                        },
                                        after_true,
                                    ),
                                ),
                            }
                        },
                    }
                } else {
                    None
                }
            },
        }
    } else {
        None
    }
}

/// A function literal: the names of the parameters between parentheses, `=>`,
/// and the body, a block.
pub open spec fn function_definition(
    text: Seq<char>,
    position: int,
    numbers: Map<Seq<char>, Number>,
) -> Option<(ExprView, int)>
    decreases text.len() - position, 7int,
{
    if char_at(text, position, '(') {
        let (parameter_names, after_names) = names(text, skip_whitespace(text, position + 1));
        let close = skip_whitespace(text, after_names);
        if char_at(text, close, ')') {
            let arrow = skip_whitespace(text, close + 1);
            if word_at(text, arrow, seq!['=', '>']) {
                let open = skip_whitespace(text, arrow + 2);
                if position < open <= text.len() {
                    match scope(text, open, numbers) {
                        Some((body, end)) => Some(
                            (ExprView::FnDef { parameter_names, body }, end),
                        ),
                        None => None,
                    }
                } else {
                    None
                }
            } else {
                None
            }
        } else {
            None
        }
    } else {
        None
    }
}

/// A `return`: the word, then optionally the value returned. Without a value,
/// `true` is returned.
pub open spec fn function_return(
    text: Seq<char>,
    position: int,
    numbers: Map<Seq<char>, Number>,
) -> Option<(ExprView, int)>
    decreases text.len() - position, 7int,
{
    if word_at(text, position, seq!['r', 'e', 't', 'u', 'r', 'n']) && position + 6 <= text.len() {
        match expression(text, position + 6, numbers) {
            Some((value, end)) => Some((ExprView::FnRet { value: Box::new(value) }, end)),
            None => Some(
                (
                    ExprView::FnRet { value: Box::new(ExprView::Literal(ValueView::Bool(true))) },
                    position + 6,
                ),
            ),
        }
    } else {
        None
    }
}

/// A loop: the word `loop`, then the body, a block.
pub open spec fn loop_(text: Seq<char>, position: int, numbers: Map<Seq<char>, Number>) -> Option<
    (ExprView, int),
>
    decreases text.len() - position, 7int,
{
    if word_at(text, position, seq!['l', 'o', 'o', 'p']) {
        let open = skip_whitespace(text, position + 4);
        if position < open <= text.len() {
            match scope(text, open, numbers) {
                Some((body, end)) => Some((ExprView::Loop { body }, end)),
                None => None,
            }
        } else {
            None
        }
    } else {
        None
    }
}

/// A `break`: the word, a space, and the value that the loop yields.
pub open spec fn loop_break(text: Seq<char>, position: int, numbers: Map<Seq<char>, Number>) -> Option<
    (ExprView, int),
>
    decreases text.len() - position, 7int,
{
    if word_at(text, position, seq!['b', 'r', 'e', 'a', 'k', ' ']) && position + 6 <= text.len() {
        match expression(text, position + 6, numbers) {
            Some((value, end)) => Some((ExprView::LoopBr { value: Box::new(value) }, end)),
            None => None,
        }
    } else {
        None
    }
}

/// A block: its instructions, separated by semicolons, between braces. A
/// semicolon after the last instruction is not part of a block.
pub open spec fn scope(text: Seq<char>, position: int, numbers: Map<Seq<char>, Number>) -> Option<
    (Seq<ExprView>, int),
>
    decreases text.len() - position, 7int,
{
    if char_at(text, position, '{') {
        let start = skip_whitespace(text, position + 1);
        if position < start <= text.len() {
            let (instructions, after) = list(text, start, numbers, Separator::Semicolon);
            let close = skip_whitespace(text, after);
            if char_at(text, close, '}') {
                Some((instructions, close + 1))
            } else {
                None
            }
        } else {
            None
        }
    } else {
        None
    }
}

/// A declaration: the name, a colon, and the value.
pub open spec fn variable_definition(
    text: Seq<char>,
    position: int,
    numbers: Map<Seq<char>, Number>,
) -> Option<(ExprView, int)>
    decreases text.len() - position, 7int,
{
    match name(text, position) {
        None => None,
        Some((found, end)) => {
            let colon = skip_whitespace(text, end);
            let start = skip_whitespace(text, colon + 1);
            if char_at(text, colon, ':') && position < start <= text.len() {
                match expression(text, start, numbers) {
                    Some((value, end)) => Some(
                        (ExprView::VarDef { name: found, value: Box::new(value) }, end),
                    ),
                    None => None,
                }
            } else {
                None
            }
        },
    }
}

/// An assignment: the name, an arrow `<-`, and the value.
pub open spec fn variable_assignment(
    text: Seq<char>,
    position: int,
    numbers: Map<Seq<char>, Number>,
) -> Option<(ExprView, int)>
    decreases text.len() - position, 7int,
{
    match name(text, position) {
        None => None,
        Some((found, end)) => {
            let arrow = skip_whitespace(text, end);
            let start = skip_whitespace(text, arrow + 2);
            if word_at(text, arrow, seq!['<', '-']) && position < start <= text.len() {
                match expression(text, start, numbers) {
                    Some((value, end)) => Some(
                        (ExprView::VarAssign { name: found, value: Box::new(value) }, end),
                    ),
                    None => None,
                }
            } else {
                None
            }
        },
    }
}

/// A call: the name of the function, then the arguments, separated by commas,
/// between parentheses.
pub open spec fn function_call(
    text: Seq<char>,
    position: int,
    numbers: Map<Seq<char>, Number>,
) -> Option<(ExprView, int)>
    decreases text.len() - position, 7int,
{
    match name(text, position) {
        None => None,
        Some((found, end)) => {
            let open = skip_whitespace(text, end);
            if char_at(text, open, '(') {
                let start = skip_whitespace(text, open + 1);
                if position < start <= text.len() {
                    let (arguments, after) = list(text, start, numbers, Separator::PaddedComma);
                    let close = skip_whitespace(text, after);
                    if char_at(text, close, ')') {
                        Some(
                            (
                                ExprView::FnCall { name: found, arguments },
                                skip_whitespace(text, close + 1),
                            ),
                        )
                    } else {
                        None
                    }
                } else {
                    None
                }
            } else {
                None
            }
        },
    }
}

/// A list of expressions with separators between them, and where it ends. The
/// list may be empty; a separator that no expression follows is not part of
/// it.
pub open spec fn list(
    text: Seq<char>,
    position: int,
    numbers: Map<Seq<char>, Number>,
    kind: Separator,
) -> (Seq<ExprView>, int)
    decreases text.len() - position, 11int,
{
    match expression(text, position, numbers) {
        None => (Seq::empty(), position),
        Some((first, end)) => {
            if position < end <= text.len() {
                more(text, end, numbers, kind, seq![first])
            } else {
                (seq![first], end)
            }
        },
    }
}

/// More expressions of a list, each after a separator: the expressions, after
/// those in `found`, and where the list ends.
pub open spec fn more(
    text: Seq<char>,
    position: int,
    numbers: Map<Seq<char>, Number>,
    kind: Separator,
    found: Seq<ExprView>,
) -> (Seq<ExprView>, int)
    decreases text.len() - position, 10int,
{
    match separator(text, position, kind) {
        None => (found, position),
        Some(after) => {
            if position < after <= text.len() {
                match expression(text, after, numbers) {
                    None => (found, position),
                    Some((next, end)) => {
                        if position < end <= text.len() {
                            more(text, end, numbers, kind, found.push(next))
                        } else {
                            (found.push(next), end)
                        }
                    },
                }
            } else {
                (found, position)
            }
        },
    }
}

/// A program: its instructions, separated by semicolons, then optionally one
/// more semicolon, up to the end of the text.
pub open spec fn program(text: Seq<char>, numbers: Map<Seq<char>, Number>) -> Option<Seq<ExprView>> {
    let (instructions, after) = list(text, 0, numbers, Separator::PaddedSemicolon);
    let end = match separator(text, after, Separator::PaddedSemicolon) {
        Some(end) => end,
        None => after,
    };
    if end == text.len() {
        Some(instructions)
    } else {
        None
    }
}

/// An operation written between its operands: an expression, the sign of the
/// operation, and an expression. It stands for the call of the function
/// `function` with the two operands.
pub open spec fn operation(
    text: Seq<char>,
    position: int,
    numbers: Map<Seq<char>, Number>,
    sign: Seq<char>,
    function: Seq<char>,
) -> Option<(ExprView, int)> {
    match expression(text, position, numbers) {
        None => None,
        Some((left, after)) => {
            if word_at(text, after, sign) {
                match expression(text, after + sign.len(), numbers) {
                    Some((right, end)) => Some(
                        (ExprView::FnCall { name: function, arguments: seq![left, right] }, end),
                    ),
                    None => None,
                }
            } else {
                None
            }
        },
    }
}

/// The signs of the operations that can be written between their operands,
/// with a space on each side, and the functions they stand for, in the order
/// in which they are tried.
pub open spec fn operations() -> Seq<(Seq<char>, Seq<char>)> {
    seq![
        (seq![' ', '=', '=', ' '], seq!['e', 'q']),
        (seq![' ', '+', ' '], seq!['a', 'd', 'd']),
        (seq![' ', '-', ' '], seq!['s', 'u', 'b']),
        (seq![' ', '>', ' '], seq!['s', 'u', 'p']),
        (seq![' ', '<', ' '], seq!['i', 'n', 'f']),
        (seq![' ', '|', '|', ' '], seq!['o', 'r']),
        (seq![' ', '&', '&', ' '], seq!['a', 'n', 'd']),
    ]
}

/// The first of the operations from the `from`-th on that stands at
/// `position`.
pub open spec fn sugar_from(
    text: Seq<char>,
    position: int,
    numbers: Map<Seq<char>, Number>,
    from: int,
) -> Option<(ExprView, int)>
    decreases operations().len() - from,
{
    if 0 <= from < operations().len() {
        match operation(text, position, numbers, operations()[from].0, operations()[from].1) {
            Some(found) => Some(found),
            None => sugar_from(text, position, numbers, from + 1),
        }
    } else {
        None
    }
}

/// An operation written between its operands: equality, sum, difference,
/// comparison, disjunction or conjunction.
///
/// No expression of the language is such an operation: the grammar of
/// expressions does not use this rule. As an expression takes the white space
/// after it, and each sign begins with a space, the rule matches no text.
pub open spec fn sugar(text: Seq<char>, position: int, numbers: Map<Seq<char>, Number>) -> Option<
    (ExprView, int),
> {
    sugar_from(text, position, numbers, 0)
}

/// White space ends at or after the place where it begins, inside the text.
pub proof fn lemma_skip_whitespace_bounds(text: Seq<char>, position: int)
    ensures
        position <= skip_whitespace(text, position),
        position <= text.len() ==> skip_whitespace(text, position) <= text.len(),
    decreases text.len() - position,
{
    if 0 <= position < text.len() && is_whitespace(text[position]) {
        lemma_skip_whitespace_bounds(text, position + 1);
    }
}

/// Digits end at or after the place where they begin, inside the text.
pub proof fn lemma_skip_digits_bounds(text: Seq<char>, position: int)
    ensures
        position <= skip_digits(text, position),
        position <= text.len() ==> skip_digits(text, position) <= text.len(),
    decreases text.len() - position,
{
    if 0 <= position < text.len() && is_digit(text[position]) {
        lemma_skip_digits_bounds(text, position + 1);
    }
}

/// The characters of a name end at or after the place where they begin,
/// inside the text.
pub proof fn lemma_skip_name_bounds(text: Seq<char>, position: int)
    ensures
        position <= skip_name(text, position),
        position <= text.len() ==> skip_name(text, position) <= text.len(),
    decreases text.len() - position,
{
    if 0 <= position < text.len() && is_name_rest(text[position]) {
        lemma_skip_name_bounds(text, position + 1);
    }
}

/// The characters of a string end at or after the place where they begin,
/// inside the text.
pub proof fn lemma_skip_string_bounds(text: Seq<char>, position: int)
    ensures
        position <= skip_string(text, position),
        position <= text.len() ==> skip_string(text, position) <= text.len(),
    decreases text.len() - position,
{
    if 0 <= position < text.len() && text[position] != '"' {
        lemma_skip_string_bounds(text, position + 1);
    }
}

/// A name, a number, a literal and a separator take at least one character
/// and end inside the text.
pub proof fn lemma_tokens_advance(
    text: Seq<char>,
    position: int,
    numbers: Map<Seq<char>, Number>,
    kind: Separator,
)
    ensures
        name(text, position) matches Some((_, end)) ==> position < end <= text.len(),
        number_end(text, position) matches Some(end) ==> position < end <= text.len(),
        literal_value(text, position, numbers) matches Some((_, end)) ==> position < end
            <= text.len(),
        separator(text, position, kind) matches Some(end) ==> position < end <= text.len(),
{
    lemma_skip_name_bounds(text, position + 1);
    lemma_skip_string_bounds(text, position + 1);
    lemma_skip_whitespace_bounds(text, position);
    lemma_skip_whitespace_bounds(text, skip_whitespace(text, position) + 1);
    let start = if char_at(text, position, '-') {
        position + 1
    } else {
        position
    };
    lemma_skip_digits_bounds(text, start + 1);
    if 0 <= start < text.len() && is_digit(text[start]) {
        let whole = if text[start] == '0' {
            start + 1
        } else {
            skip_digits(text, start + 1)
        };
        lemma_skip_digits_bounds(text, whole + 2);
    }
}

/// The names of a list of parameters end at or after the place where they
/// begin, inside the text.
pub proof fn lemma_more_names_bounds(text: Seq<char>, position: int, found: Seq<Seq<char>>)
    requires
        0 <= position <= text.len(),
    ensures
        position <= more_names(text, position, found).1 <= text.len(),
    decreases text.len() - position,
{
    lemma_tokens_advance(text, position, Map::empty(), Separator::PaddedComma);
    match separator(text, position, Separator::PaddedComma) {
        None => {},
        Some(after) => {
            lemma_tokens_advance(text, after, Map::empty(), Separator::PaddedComma);
            match name(text, after) {
                None => {},
                Some((next, end)) => {
                    lemma_more_names_bounds(text, end, found.push(next));
                },
            }
        },
    }
}

/// Every expression takes at least one character and ends inside the text.
/// So the places where the rules of the grammar go on always lie further on
/// in the text.
pub proof fn lemma_expression_advances(
    text: Seq<char>,
    position: int,
    numbers: Map<Seq<char>, Number>,
)
    requires
        0 <= position,
    ensures
        expression(text, position, numbers) matches Some((_, end)) ==> position < end
            <= text.len(),
    decreases text.len() - position, 9int,
{
    lemma_skip_whitespace_bounds(text, position);
    let start = skip_whitespace(text, position);
    if position <= start <= text.len() {
        lemma_alternatives_advance(text, start, numbers);
        match alternatives(text, start, numbers) {
            Some((found, end)) => {
                lemma_skip_whitespace_bounds(text, end);
            },
            None => {},
        }
    }
}

/// Every alternative of an expression takes at least one character and ends
/// inside the text.
pub proof fn lemma_alternatives_advance(
    text: Seq<char>,
    position: int,
    numbers: Map<Seq<char>, Number>,
)
    requires
        0 <= position <= text.len(),
    ensures
        alternatives(text, position, numbers) matches Some((_, end)) ==> position < end
            <= text.len(),
    decreases text.len() - position, 8int,
{
    lemma_tokens_advance(text, position, numbers, Separator::Semicolon);
    lemma_condition_advances(text, position, numbers);
    lemma_function_definition_advances(text, position, numbers);
    lemma_function_return_advances(text, position, numbers);
    lemma_loop_advances(text, position, numbers);
    lemma_loop_break_advances(text, position, numbers);
    lemma_scope_advances(text, position, numbers);
    lemma_variable_definition_advances(text, position, numbers);
    lemma_variable_assignment_advances(text, position, numbers);
    lemma_function_call_advances(text, position, numbers);
}

/// A conditional takes at least one character and ends inside the text.
pub proof fn lemma_condition_advances(
    text: Seq<char>,
    position: int,
    numbers: Map<Seq<char>, Number>,
)
    requires
        0 <= position <= text.len(),
    ensures
        condition(text, position, numbers) matches Some((_, end)) ==> position < end
            <= text.len(),
    decreases text.len() - position, 7int,
{
    if word_at(text, position, seq!['i', 'f', ' ']) && position + 3 <= text.len() {
        lemma_expression_advances(text, position + 3, numbers);
        match expression(text, position + 3, numbers) {
            None => {},
            Some((tested, after_test)) => {
                lemma_expression_advances(text, after_test, numbers);
                match expression(text, after_test, numbers) {
                    None => {},
                    Some((arm_true, after_true)) => {
                        if word_at(text, after_true, seq!['e', 'l', 's', 'e', ' ']) {
                            lemma_expression_advances(text, after_true + 5, numbers);
                        }
                    },
                }
            },
        }
    }
}

/// A function literal takes at least one character and ends inside the text.
pub proof fn lemma_function_definition_advances(
    text: Seq<char>,
    position: int,
    numbers: Map<Seq<char>, Number>,
)
    requires
        0 <= position <= text.len(),
    ensures
        function_definition(text, position, numbers) matches Some((_, end)) ==> position < end
            <= text.len(),
    decreases text.len() - position, 7int,
{
    if char_at(text, position, '(') {
        lemma_skip_whitespace_bounds(text, position + 1);
        let first = skip_whitespace(text, position + 1);
        lemma_tokens_advance(text, first, numbers, Separator::PaddedComma);
        match name(text, first) {
            None => {},
            Some((found, end)) => {
                lemma_more_names_bounds(text, end, seq![found]);
            },
        }
        let (parameter_names, after_names) = names(text, first);
        lemma_skip_whitespace_bounds(text, after_names);
        let close = skip_whitespace(text, after_names);
        lemma_skip_whitespace_bounds(text, close + 1);
        let arrow = skip_whitespace(text, close + 1);
        lemma_skip_whitespace_bounds(text, arrow + 2);
        let open = skip_whitespace(text, arrow + 2);
        if char_at(text, close, ')') && word_at(text, arrow, seq!['=', '>']) && position < open
            <= text.len() {
            lemma_scope_advances(text, open, numbers);
        }
    }
}

/// A `return` takes at least one character and ends inside the text.
pub proof fn lemma_function_return_advances(
    text: Seq<char>,
    position: int,
    numbers: Map<Seq<char>, Number>,
)
    requires
        0 <= position <= text.len(),
    ensures
        function_return(text, position, numbers) matches Some((_, end)) ==> position < end
            <= text.len(),
    decreases text.len() - position, 7int,
{
    if word_at(text, position, seq!['r', 'e', 't', 'u', 'r', 'n']) && position + 6 <= text.len() {
        lemma_expression_advances(text, position + 6, numbers);
    }
}

/// A loop takes at least one character and ends inside the text.
pub proof fn lemma_loop_advances(text: Seq<char>, position: int, numbers: Map<Seq<char>, Number>)
    requires
        0 <= position <= text.len(),
    ensures
        loop_(text, position, numbers) matches Some((_, end)) ==> position < end <= text.len(),
    decreases text.len() - position, 7int,
{
    if word_at(text, position, seq!['l', 'o', 'o', 'p']) {
        lemma_skip_whitespace_bounds(text, position + 4);
        let open = skip_whitespace(text, position + 4);
        if position < open <= text.len() {
            lemma_scope_advances(text, open, numbers);
        }
    }
}

/// A `break` takes at least one character and ends inside the text.
pub proof fn lemma_loop_break_advances(
    text: Seq<char>,
    position: int,
    numbers: Map<Seq<char>, Number>,
)
    requires
        0 <= position <= text.len(),
    ensures
        loop_break(text, position, numbers) matches Some((_, end)) ==> position < end
            <= text.len(),
    decreases text.len() - position, 7int,
{
    if word_at(text, position, seq!['b', 'r', 'e', 'a', 'k', ' ']) && position + 6 <= text.len() {
        lemma_expression_advances(text, position + 6, numbers);
    }
}

/// A block takes at least one character and ends inside the text.
pub proof fn lemma_scope_advances(text: Seq<char>, position: int, numbers: Map<Seq<char>, Number>)
    requires
        0 <= position <= text.len(),
    ensures
        scope(text, position, numbers) matches Some((_, end)) ==> position < end <= text.len(),
    decreases text.len() - position, 7int,
{
    if char_at(text, position, '{') {
        lemma_skip_whitespace_bounds(text, position + 1);
        let start = skip_whitespace(text, position + 1);
        if position < start <= text.len() {
            lemma_list_bounds(text, start, numbers, Separator::Semicolon);
            let (instructions, after) = list(text, start, numbers, Separator::Semicolon);
            lemma_skip_whitespace_bounds(text, after);
        }
    }
}

/// A declaration takes at least one character and ends inside the text.
pub proof fn lemma_variable_definition_advances(
    text: Seq<char>,
    position: int,
    numbers: Map<Seq<char>, Number>,
)
    requires
        0 <= position <= text.len(),
    ensures
        variable_definition(text, position, numbers) matches Some((_, end)) ==> position < end
            <= text.len(),
    decreases text.len() - position, 7int,
{
    lemma_tokens_advance(text, position, numbers, Separator::Semicolon);
    match name(text, position) {
        None => {},
        Some((found, end)) => {
            lemma_skip_whitespace_bounds(text, end);
            let colon = skip_whitespace(text, end);
            lemma_skip_whitespace_bounds(text, colon + 1);
            let start = skip_whitespace(text, colon + 1);
            if char_at(text, colon, ':') && position < start <= text.len() {
                lemma_expression_advances(text, start, numbers);
            }
        },
    }
}

/// An assignment takes at least one character and ends inside the text.
pub proof fn lemma_variable_assignment_advances(
    text: Seq<char>,
    position: int,
    numbers: Map<Seq<char>, Number>,
)
    requires
        0 <= position <= text.len(),
    ensures
        variable_assignment(text, position, numbers) matches Some((_, end)) ==> position < end
            <= text.len(),
    decreases text.len() - position, 7int,
{
    lemma_tokens_advance(text, position, numbers, Separator::Semicolon);
    match name(text, position) {
        None => {},
        Some((found, end)) => {
            lemma_skip_whitespace_bounds(text, end);
            let arrow = skip_whitespace(text, end);
            lemma_skip_whitespace_bounds(text, arrow + 2);
            let start = skip_whitespace(text, arrow + 2);
            if word_at(text, arrow, seq!['<', '-']) && position < start <= text.len() {
                lemma_expression_advances(text, start, numbers);
            }
        },
    }
}

/// A call takes at least one character and ends inside the text.
pub proof fn lemma_function_call_advances(
    text: Seq<char>,
    position: int,
    numbers: Map<Seq<char>, Number>,
)
    requires
        0 <= position <= text.len(),
    ensures
        function_call(text, position, numbers) matches Some((_, end)) ==> position < end
            <= text.len(),
    decreases text.len() - position, 7int,
{
    lemma_tokens_advance(text, position, numbers, Separator::Semicolon);
    match name(text, position) {
        None => {},
        Some((found, end)) => {
            lemma_skip_whitespace_bounds(text, end);
            let open = skip_whitespace(text, end);
            lemma_skip_whitespace_bounds(text, open + 1);
            let start = skip_whitespace(text, open + 1);
            if char_at(text, open, '(') && position < start <= text.len() {
                lemma_list_bounds(text, start, numbers, Separator::PaddedComma);
                let (arguments, after) = list(text, start, numbers, Separator::PaddedComma);
                lemma_skip_whitespace_bounds(text, after);
                let close = skip_whitespace(text, after);
                lemma_skip_whitespace_bounds(text, close + 1);
            }
        },
    }
}

/// A list ends at or after the place where it begins, inside the text.
pub proof fn lemma_list_bounds(
    text: Seq<char>,
    position: int,
    numbers: Map<Seq<char>, Number>,
    kind: Separator,
)
    requires
        0 <= position <= text.len(),
    ensures
        position <= list(text, position, numbers, kind).1 <= text.len(),
    decreases text.len() - position, 11int,
{
    lemma_expression_advances(text, position, numbers);
    match expression(text, position, numbers) {
        None => {},
        Some((first, end)) => {
            lemma_more_bounds(text, end, numbers, kind, seq![first]);
        },
    }
}

/// The rest of a list ends at or after the place where it begins, inside the
/// text.
pub proof fn lemma_more_bounds(
    text: Seq<char>,
    position: int,
    numbers: Map<Seq<char>, Number>,
    kind: Separator,
    found: Seq<ExprView>,
)
    requires
        0 <= position <= text.len(),
    ensures
        position <= more(text, position, numbers, kind, found).1 <= text.len(),
    decreases text.len() - position, 10int,
{
    lemma_tokens_advance(text, position, numbers, kind);
    match separator(text, position, kind) {
        None => {},
        Some(after) => {
            lemma_expression_advances(text, after, numbers);
            match expression(text, after, numbers) {
                None => {},
                Some((next, end)) => {
                    lemma_more_bounds(text, end, numbers, kind, found.push(next));
                },
            }
        },
    }
}

/// Where `numbers` holds a value for every number literal of the text, every
/// number literal is read: what begins like a number and is none of `false`,
/// `true`, `none` or a string is a literal with the value that `numbers`
/// holds for it.
pub proof fn lemma_numbers_are_read(
    text: Seq<char>,
    position: int,
    numbers: Map<Seq<char>, Number>,
)
    requires
        forall|at: int| #[trigger]
            number_end(text, at) matches Some(end) ==> numbers.contains_key(
                text.subrange(at, end),
            ),
    ensures
        number_end(text, position) matches Some(end) ==> literal_value(text, position, numbers)
            == Some((ValueView::Number(numbers[text.subrange(position, end)]), end)),
{
    if let Some(end) = number_end(text, position) {
        assert(0 <= position < text.len());
        assert(is_digit(text[position]) || text[position] == '-');
        if word_at(text, position, seq!['f', 'a', 'l', 's', 'e']) {
            assert(text.subrange(position, position + 5)[0] == 'f');
        }
        if word_at(text, position, seq!['t', 'r', 'u', 'e']) {
            assert(text.subrange(position, position + 4)[0] == 't');
        }
        if word_at(text, position, seq!['n', 'o', 'n', 'e']) {
            assert(text.subrange(position, position + 4)[0] == 'n');
        }
    }
}

/// White space ends where the text ends or a character is no white space.
pub proof fn lemma_skip_whitespace_stops(text: Seq<char>, position: int)
    requires
        0 <= position,
    ensures
        !(0 <= skip_whitespace(text, position) < text.len() && is_whitespace(
            text[skip_whitespace(text, position)],
        )),
    decreases text.len() - position,
{
    if 0 <= position < text.len() && is_whitespace(text[position]) {
        lemma_skip_whitespace_stops(text, position + 1);
    }
}

/// An operation written between its operands matches no text: the left
/// operand, being an expression, takes the white space after it, so the space
/// that the sign begins with is never found.
pub proof fn lemma_sugar_matches_nothing(
    text: Seq<char>,
    position: int,
    numbers: Map<Seq<char>, Number>,
)
    requires
        0 <= position,
    ensures
        sugar(text, position, numbers).is_none(),
{
    reveal_with_fuel(sugar_from, 8);
    lemma_skip_whitespace_bounds(text, position);
    let start = skip_whitespace(text, position);
    if position <= start <= text.len() {
        lemma_alternatives_advance(text, start, numbers);
        match alternatives(text, start, numbers) {
            Some((found, end)) => {
                lemma_skip_whitespace_stops(text, end);
                let after = skip_whitespace(text, end);
                assert forall|i: int| 0 <= i < operations().len() implies !word_at(
                    text,
                    after,
                    #[trigger] operations()[i].0,
                ) by {
                    let sign = operations()[i].0;
                    assert(sign[0] == ' ');
                    if word_at(text, after, sign) {
                        assert(text.subrange(after, after + sign.len())[0] == sign[0]);
                        assert(is_whitespace(text[after]));
                    }
                }
                assert(!word_at(text, after, operations()[0].0));
                assert(!word_at(text, after, operations()[1].0));
                assert(!word_at(text, after, operations()[2].0));
                assert(!word_at(text, after, operations()[3].0));
                assert(!word_at(text, after, operations()[4].0));
                assert(!word_at(text, after, operations()[5].0));
                assert(!word_at(text, after, operations()[6].0));
            },
            None => {},
        }
    }
}

/// Appending a plain expression to plain expressions gives plain
/// expressions.
pub proof fn lemma_plain_push(found: Seq<ExprView>, next: ExprView)
    requires
        plain_views(found),
        plain_view(next),
    ensures
        plain_views(found.push(next)),
{
    assert(found.push(next).drop_last() == found);
}

/// No literal that the grammar reads is a function: an expression that is
/// read from text is plain.
pub proof fn lemma_expression_plain(
    text: Seq<char>,
    position: int,
    numbers: Map<Seq<char>, Number>,
)
    requires
        0 <= position,
    ensures
        expression(text, position, numbers) matches Some((found, _)) ==> plain_view(found),
    decreases text.len() - position, 9int,
{
    lemma_skip_whitespace_bounds(text, position);
    let start = skip_whitespace(text, position);
    if position <= start <= text.len() {
        lemma_alternatives_plain(text, start, numbers);
    }
}

/// Every alternative of an expression that is read from text is plain.
pub proof fn lemma_alternatives_plain(
    text: Seq<char>,
    position: int,
    numbers: Map<Seq<char>, Number>,
)
    requires
        0 <= position <= text.len(),
    ensures
        alternatives(text, position, numbers) matches Some((found, _)) ==> plain_view(found),
    decreases text.len() - position, 8int,
{
    lemma_condition_plain(text, position, numbers);
    lemma_function_definition_plain(text, position, numbers);
    lemma_function_return_plain(text, position, numbers);
    lemma_loop_plain(text, position, numbers);
    lemma_loop_break_plain(text, position, numbers);
    lemma_scope_plain(text, position, numbers);
    lemma_variable_definition_plain(text, position, numbers);
    lemma_variable_assignment_plain(text, position, numbers);
    lemma_function_call_plain(text, position, numbers);
}

/// A conditional that is read from text is plain.
pub proof fn lemma_condition_plain(text: Seq<char>, position: int, numbers: Map<Seq<char>, Number>)
    requires
        0 <= position <= text.len(),
    ensures
        condition(text, position, numbers) matches Some((found, _)) ==> plain_view(found),
    decreases text.len() - position, 7int,
{
    if word_at(text, position, seq!['i', 'f', ' ']) && position + 3 <= text.len() {
        lemma_expression_plain(text, position + 3, numbers);
        match expression(text, position + 3, numbers) {
            None => {},
            Some((tested, after_test)) => {
                if position < after_test <= text.len() {
                    lemma_expression_plain(text, after_test, numbers);
                    match expression(text, after_test, numbers) {
                        None => {},
                        Some((arm_true, after_true)) => {
                            if word_at(text, after_true, seq!['e', 'l', 's', 'e', ' ']) && position
                                < after_true && after_true + 5 <= text.len() {
                                lemma_expression_plain(text, after_true + 5, numbers);
                            }
                        },
                    }
                }
            },
        }
    }
}

/// A function literal that is read from text is plain.
pub proof fn lemma_function_definition_plain(
    text: Seq<char>,
    position: int,
    numbers: Map<Seq<char>, Number>,
)
    requires
        0 <= position <= text.len(),
    ensures
        function_definition(text, position, numbers) matches Some((found, _)) ==> plain_view(found),
    decreases text.len() - position, 7int,
{
    if char_at(text, position, '(') {
        let (parameter_names, after_names) = names(text, skip_whitespace(text, position + 1));
        let close = skip_whitespace(text, after_names);
        let arrow = skip_whitespace(text, close + 1);
        let open = skip_whitespace(text, arrow + 2);
        if position < open <= text.len() {
            lemma_scope_plain(text, open, numbers);
        }
    }
}

/// A `return` that is read from text is plain.
pub proof fn lemma_function_return_plain(
    text: Seq<char>,
    position: int,
    numbers: Map<Seq<char>, Number>,
)
    requires
        0 <= position <= text.len(),
    ensures
        function_return(text, position, numbers) matches Some((found, _)) ==> plain_view(found),
    decreases text.len() - position, 7int,
{
    if word_at(text, position, seq!['r', 'e', 't', 'u', 'r', 'n']) && position + 6 <= text.len() {
        lemma_expression_plain(text, position + 6, numbers);
        assert(plain_view(ExprView::Literal(ValueView::Bool(true))));
    }
}

/// A loop that is read from text is plain.
pub proof fn lemma_loop_plain(text: Seq<char>, position: int, numbers: Map<Seq<char>, Number>)
    requires
        0 <= position <= text.len(),
    ensures
        loop_(text, position, numbers) matches Some((found, _)) ==> plain_view(found),
    decreases text.len() - position, 7int,
{
    if word_at(text, position, seq!['l', 'o', 'o', 'p']) {
        let open = skip_whitespace(text, position + 4);
        if position < open <= text.len() {
            lemma_scope_plain(text, open, numbers);
        }
    }
}

/// A `break` that is read from text is plain.
pub proof fn lemma_loop_break_plain(text: Seq<char>, position: int, numbers: Map<Seq<char>, Number>)
    requires
        0 <= position <= text.len(),
    ensures
        loop_break(text, position, numbers) matches Some((found, _)) ==> plain_view(found),
    decreases text.len() - position, 7int,
{
    if word_at(text, position, seq!['b', 'r', 'e', 'a', 'k', ' ']) && position + 6 <= text.len() {
        lemma_expression_plain(text, position + 6, numbers);
    }
}

/// The instructions of a block that is read from text are plain.
pub proof fn lemma_scope_plain(text: Seq<char>, position: int, numbers: Map<Seq<char>, Number>)
    requires
        0 <= position <= text.len(),
    ensures
        scope(text, position, numbers) matches Some((found, _)) ==> plain_views(found),
    decreases text.len() - position, 7int,
{
    if char_at(text, position, '{') {
        let start = skip_whitespace(text, position + 1);
        if position < start <= text.len() {
            lemma_list_plain(text, start, numbers, Separator::Semicolon);
        }
    }
}

/// A declaration that is read from text is plain.
pub proof fn lemma_variable_definition_plain(
    text: Seq<char>,
    position: int,
    numbers: Map<Seq<char>, Number>,
)
    requires
        0 <= position <= text.len(),
    ensures
        variable_definition(text, position, numbers) matches Some((found, _)) ==> plain_view(found),
    decreases text.len() - position, 7int,
{
    match name(text, position) {
        None => {},
        Some((found, end)) => {
            let colon = skip_whitespace(text, end);
            let start = skip_whitespace(text, colon + 1);
            if char_at(text, colon, ':') && position < start <= text.len() {
                lemma_expression_plain(text, start, numbers);
            }
        },
    }
}

/// An assignment that is read from text is plain.
pub proof fn lemma_variable_assignment_plain(
    text: Seq<char>,
    position: int,
    numbers: Map<Seq<char>, Number>,
)
    requires
        0 <= position <= text.len(),
    ensures
        variable_assignment(text, position, numbers) matches Some((found, _)) ==> plain_view(found),
    decreases text.len() - position, 7int,
{
    match name(text, position) {
        None => {},
        Some((found, end)) => {
            let arrow = skip_whitespace(text, end);
            let start = skip_whitespace(text, arrow + 2);
            if word_at(text, arrow, seq!['<', '-']) && position < start <= text.len() {
                lemma_expression_plain(text, start, numbers);
            }
        },
    }
}

/// A call that is read from text is plain.
pub proof fn lemma_function_call_plain(
    text: Seq<char>,
    position: int,
    numbers: Map<Seq<char>, Number>,
)
    requires
        0 <= position <= text.len(),
    ensures
        function_call(text, position, numbers) matches Some((found, _)) ==> plain_view(found),
    decreases text.len() - position, 7int,
{
    match name(text, position) {
        None => {},
        Some((found, end)) => {
            let open = skip_whitespace(text, end);
            let start = skip_whitespace(text, open + 1);
            if char_at(text, open, '(') && position < start <= text.len() {
                lemma_list_plain(text, start, numbers, Separator::PaddedComma);
            }
        },
    }
}

/// The expressions of a list that is read from text are plain.
pub proof fn lemma_list_plain(
    text: Seq<char>,
    position: int,
    numbers: Map<Seq<char>, Number>,
    kind: Separator,
)
    requires
        0 <= position <= text.len(),
    ensures
        plain_views(list(text, position, numbers, kind).0),
    decreases text.len() - position, 11int,
{
    lemma_expression_plain(text, position, numbers);
    match expression(text, position, numbers) {
        None => {},
        Some((first, end)) => {
            lemma_plain_push(Seq::empty(), first);
            assert(seq![first] == Seq::<ExprView>::empty().push(first));
            if position < end <= text.len() {
                lemma_more_plain(text, end, numbers, kind, seq![first]);
            }
        },
    }
}

/// The expressions of the rest of a list that is read from text are plain.
pub proof fn lemma_more_plain(
    text: Seq<char>,
    position: int,
    numbers: Map<Seq<char>, Number>,
    kind: Separator,
    found: Seq<ExprView>,
)
    requires
        0 <= position <= text.len(),
        plain_views(found),
    ensures
        plain_views(more(text, position, numbers, kind, found).0),
    decreases text.len() - position, 10int,
{
    match separator(text, position, kind) {
        None => {},
        Some(after) => {
            if position < after <= text.len() {
                lemma_expression_plain(text, after, numbers);
                match expression(text, after, numbers) {
                    None => {},
                    Some((next, end)) => {
                        lemma_plain_push(found, next);
                        if position < end <= text.len() {
                            lemma_more_plain(text, end, numbers, kind, found.push(next));
                        }
                    },
                }
            }
        },
    }
}

/// The instructions of a program that is read from text are plain.
pub proof fn lemma_program_plain(text: Seq<char>, numbers: Map<Seq<char>, Number>)
    ensures
        program(text, numbers) matches Some(instructions) ==> plain_views(instructions),
{
    lemma_list_plain(text, 0, numbers, Separator::PaddedSemicolon);
}

} // verus!
