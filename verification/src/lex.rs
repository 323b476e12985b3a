//! The lexer: an ordered list of recognizers, each a regular expression of
//! the `regex` crate with a rule that turns the matched text into a token.
//! The first recognizer that accepts wins.

use crate::ast::{Register, Token, TokenView, token_views};
use crate::text::str_eq;
use regex::Regex;
use vstd::prelude::*;

verus! {

/// The error type of the `regex` crate.
#[verifier::external_type_specification]
#[verifier::external_body]
pub struct ExRegexError(regex::Error);

/// Whether `Regex::new` of the `regex` crate compiles `pattern`.
pub uninterp spec fn regex_accepts(pattern: Seq<char>) -> bool;

/// What `Regex::captures` of the `regex` crate finds for the regular
/// expression `pattern` in `input`: nothing where the pattern does not
/// compile or does not match; else the texts of the first and second capture
/// group of the first match, each absent where the pattern has no such group
/// or the group took no part in the match.
pub uninterp spec fn regex_groups(pattern: Seq<char>, input: Seq<char>) -> Option<
    (Option<Seq<char>>, Option<Seq<char>>),
>;

/// The characters of an optional text.
pub open spec fn text_view(text: Option<String>) -> Option<Seq<char>> {
    match text {
        Some(s) => Some(s@),
        None => None,
    }
}

/// The characters of two captured texts.
pub open spec fn groups_view(found: Option<(Option<String>, Option<String>)>) -> Option<
    (Option<Seq<char>>, Option<Seq<char>>),
> {
    match found {
        Some((first, second)) => Some((text_view(first), text_view(second))),
        None => None,
    }
}

/// Calls `Regex::new` on `pattern` and drops the compiled expression. The
/// contract claims only that the outcome is a function of the pattern: it
/// is `Ok` exactly where `regex_accepts` holds.
#[verifier::external_body]
fn compile(pattern: &str) -> (r: Result<(), regex::Error>)
    ensures
        r is Ok <==> regex_accepts(pattern@),
{
    Regex::new(pattern).map(|_| ())
}

/// Calls `Regex::new` on `pattern` and `Regex::captures` on `input`, and
/// copies out the first two capture groups with `Captures::get`. The
/// contract claims only that the outcome is a function of the two texts,
/// and calls it `regex_groups`.
#[verifier::external_body]
fn captures(pattern: &str, input: &str) -> (found: Option<(Option<String>, Option<String>)>)
    ensures
        groups_view(found) == regex_groups(pattern@, input@),
{
    let re = Regex::new(pattern).ok()?;
    let caps = re.captures(input)?;
    Some((caps.get(1).map(|m| m.as_str().to_string()), caps.get(2).map(|m| m.as_str().to_string())))
}

/// How a matched text becomes a token.
#[derive(Debug, Clone, Copy, PartialEq, Eq, Structural)]
pub enum Handler {
    /// `0x` and hexadecimal digits: a number.
    Hex,
    /// Decimal digits: a number.
    Decimal,
    /// A punctuation mark or a keyword.
    Keyword,
    /// One letter from A to D, in either case, that no identifier character
    /// follows: a register.
    Register,
    /// Any text: an identifier.
    Identifier,
    /// A comment: discarded.
    Comment,
    /// Line breaks: their number.
    Newlines,
    /// Other blank text: discarded.
    Blank,
}

/// The value of the digit `c` in a base up to sixteen, if it is a digit.
pub open spec fn digit_value(c: char, radix: nat) -> Option<nat> {
    let v: int = if '0' <= c <= '9' {
        c as int - '0' as int
    } else if 'a' <= c <= 'f' {
        c as int - 'a' as int + 10
    } else if 'A' <= c <= 'F' {
        c as int - 'A' as int + 10
    } else {
        16
    };
    if v < radix {
        Some(v as nat)
    } else {
        None
    }
}

/// The number that `digits` spell in base `radix`, most significant digit
/// first, if all of them are digits. No digits spell zero.
pub open spec fn digits_value(digits: Seq<char>, radix: nat) -> Option<nat>
    decreases digits.len(),
{
    if digits.len() == 0 {
        Some(0)
    } else {
        match (digits_value(digits.drop_last(), radix), digit_value(digits.last(), radix)) {
            (Some(v), Some(d)) => Some(v * radix + d),
            _ => None,
        }
    }
}

/// What a longer text spells is no less than what its front part spells.
pub proof fn lemma_digits_grow(digits: Seq<char>, k: int, radix: nat)
    requires
        0 <= k <= digits.len(),
        radix >= 1,
        digits_value(digits, radix) is Some,
    ensures
        digits_value(digits.take(k), radix) is Some,
        digits_value(digits.take(k), radix)->0 <= digits_value(digits, radix)->0,
    decreases digits.len(),
{
    if k == digits.len() {
        assert(digits.take(k) =~= digits);
    } else {
        let front = digits.drop_last();
        lemma_digits_grow(front, k, radix);
        assert(front.take(k) =~= digits.take(k));
        let v = digits_value(front, radix)->0;
        assert(v * radix >= v) by (nonlinear_arith)
            requires
                radix >= 1,
                v >= 0,
        ;
    }
}

/// The value of the digit `c` in base `radix`.
fn digit_of(c: char, radix: u8) -> (r: Option<u8>)
    requires
        radix <= 16,
    ensures
        match digit_value(c, radix as nat) {
            Some(v) => r == Some(v as u8),
            None => r is None,
        },
{
    let v: u8 = if '0' <= c && c <= '9' {
        (c as u32 - '0' as u32) as u8
    } else if 'a' <= c && c <= 'f' {
        (c as u32 - 'a' as u32) as u8 + 10
    } else if 'A' <= c && c <= 'F' {
        (c as u32 - 'A' as u32) as u8 + 10
    } else {
        16
    };
    if v < radix {
        Some(v)
    } else {
        None
    }
}

/// The number that the characters of `text` from position `from` on spell
/// in base `radix`, if they are digits and the number fits.
fn parse_digits(text: &str, from: usize, radix: u8) -> (r: Option<usize>)
    requires
        1 <= radix <= 16,
        from <= text@.len(),
    ensures
        match digits_value(text@.skip(from as int), radix as nat) {
            Some(v) => if v <= usize::MAX {
                r == Some(v as usize)
            } else {
                r is None
            },
            None => r is None,
        },
{
    let ghost digits = text@.skip(from as int);
    let n = text.unicode_len();
    let mut value: usize = 0;
    let mut overflow = false;
    let mut i: usize = from;
    assert(digits.take(0) =~= Seq::<char>::empty());
    while i < n
        invariant
            from <= i <= n,
            n == text@.len(),
            1 <= radix <= 16,
            digits == text@.skip(from as int),
            digits_value(digits.take(i - from), radix as nat) is Some,
            !overflow ==> digits_value(digits.take(i - from), radix as nat) == Some(value as nat),
            overflow ==> digits_value(digits.take(i - from), radix as nat)->0 > usize::MAX,
        decreases n - i,
    {
        let c = text.get_char(i);
        let ghost front = digits.take(i - from);
        let ghost next = digits.take(i - from + 1);
        proof {
            assert(next.drop_last() =~= front);
            assert(next.last() == c);
        }
        let d = match digit_of(c, radix) {
            Some(d) => d,
            None => {
                proof {
                    if digits_value(digits, radix as nat) is Some {
                        lemma_digits_grow(digits, i - from + 1, radix as nat);
                    }
                }
                return None;
            },
        };
        if !overflow {
            match value.checked_mul(radix as usize) {
                Some(scaled) => match scaled.checked_add(d as usize) {
                    Some(v) => {
                        value = v;
                    },
                    None => {
                        overflow = true;
                    },
                },
                None => {
                    overflow = true;
                },
            }
        } else {
            proof {
                let v = digits_value(front, radix as nat)->0;
                assert(v * radix >= v) by (nonlinear_arith)
                    requires
                        radix >= 1,
                        v >= 0,
                ;
            }
        }
        i += 1;
    }
    assert(digits.take(n - from) =~= digits);
    if overflow {
        None
    } else {
        Some(value)
    }
}

/// The token that a punctuation mark or keyword spells. Any other text is
/// discarded.
pub open spec fn spec_keyword(text: Seq<char>) -> TokenView {
    if text == "$"@ {
        TokenView::Literal
    } else if text == ":"@ {
        TokenView::Label
    } else if text == "("@ {
        TokenView::Open
    } else if text == ")"@ {
        TokenView::Close
    } else if text == "*"@ {
        TokenView::Deref
    } else if text == "jump"@ {
        TokenView::Jump
    } else if text == "from"@ {
        TokenView::From
    } else if text == "inc"@ {
        TokenView::Inc
    } else if text == "halt"@ {
        TokenView::Halt
    } else if text == "io"@ {
        TokenView::Io
    } else if text == "backwards"@ {
        TokenView::Backwards
    } else if text == "forwards"@ {
        TokenView::Forwards
    } else if text == "reverse"@ {
        TokenView::Reverse
    } else if text == "if"@ {
        TokenView::If
    } else if text == ">="@ {
        TokenView::Gte
    } else if text == "<="@ {
        TokenView::Lte
    } else if text == ">"@ {
        TokenView::Gt
    } else if text == "="@ {
        TokenView::Eq
    } else if text == "<"@ {
        TokenView::Lt
    } else if text == "and"@ {
        TokenView::And
    } else if text == "or"@ {
        TokenView::Or
    } else {
        TokenView::Nop
    }
}

/// The token that the punctuation mark or keyword `text` spells.
fn keyword(text: &str) -> (tok: Token)
    ensures
        tok@ == spec_keyword(text@),
{
    if str_eq(text, "$") {
        Token::Literal
    } else if str_eq(text, ":") {
        Token::Label
    } else if str_eq(text, "(") {
        Token::Open
    } else if str_eq(text, ")") {
        Token::Close
    } else if str_eq(text, "*") {
        Token::Deref
    } else if str_eq(text, "jump") {
        Token::Jump
    } else if str_eq(text, "from") {
        Token::From
    } else if str_eq(text, "inc") {
        Token::Inc
    } else if str_eq(text, "halt") {
        Token::Halt
    } else if str_eq(text, "io") {
        Token::Io
    } else if str_eq(text, "backwards") {
        Token::Backwards
    } else if str_eq(text, "forwards") {
        Token::Forwards
    } else if str_eq(text, "reverse") {
        Token::Reverse
    } else if str_eq(text, "if") {
        Token::If
    } else if str_eq(text, ">=") {
        Token::Gte
    } else if str_eq(text, "<=") {
        Token::Lte
    } else if str_eq(text, ">") {
        Token::Gt
    } else if str_eq(text, "=") {
        Token::Eq
    } else if str_eq(text, "<") {
        Token::Lt
    } else if str_eq(text, "and") {
        Token::And
    } else if str_eq(text, "or") {
        Token::Or
    } else {
        Token::Nop
    }
}

/// The register that the letter `c` names, in either case.
pub open spec fn register_of(c: char) -> Option<Register> {
    if c == 'A' || c == 'a' {
        Some(Register::A)
    } else if c == 'B' || c == 'b' {
        Some(Register::B)
    } else if c == 'C' || c == 'c' {
        Some(Register::C)
    } else if c == 'D' || c == 'd' {
        Some(Register::D)
    } else {
        None
    }
}

/// Whether `c` can stand in an identifier: a letter, a digit or a hyphen.
pub open spec fn is_ident_char(c: char) -> bool {
    ('a' <= c <= 'z') || ('A' <= c <= 'Z') || ('0' <= c <= '9') || c == '-'
}

/// The token that a matched text becomes, if it becomes one. `rest` is what
/// follows the text in the input. A number must fit the machine's word; a
/// register name must not run on into an identifier.
pub open spec fn spec_handle(on_match: Handler, text: Seq<char>, rest: Seq<char>) -> Option<
    TokenView,
> {
    match on_match {
        Handler::Hex => if text.len() > 2 && text[0] == '0' && text[1] == 'x' {
            match digits_value(text.skip(2), 16) {
                Some(v) => if v <= usize::MAX {
                    Some(TokenView::Num(v as usize))
                } else {
                    None
                },
                None => None,
            }
        } else {
            None
        },
        Handler::Decimal => if text.len() > 0 {
            match digits_value(text, 10) {
                Some(v) => if v <= usize::MAX {
                    Some(TokenView::Num(v as usize))
                } else {
                    None
                },
                None => None,
            }
        } else {
            None
        },
        Handler::Keyword => Some(spec_keyword(text)),
        Handler::Register => if text.len() == 1 && !(rest.len() > 0 && is_ident_char(rest[0])) {
            match register_of(text[0]) {
                Some(r) => Some(TokenView::Reg(r)),
                None => None,
            }
        } else {
            None
        },
        Handler::Identifier => Some(TokenView::Identifier(text)),
        Handler::Comment => Some(TokenView::Nop),
        Handler::Newlines => Some(TokenView::Newlines(text.len() as usize)),
        Handler::Blank => Some(TokenView::Nop),
    }
}

/// The value of an optional token.
pub open spec fn token_option_view(tok: Option<Token>) -> Option<TokenView> {
    match tok {
        Some(t) => Some(t@),
        None => None,
    }
}

impl Handler {
    /// Turns the matched `text` into a token; `rest` is what follows it.
    pub fn handle(&self, text: &str, rest: &str) -> (tok: Option<Token>)
        ensures
            token_option_view(tok) == spec_handle(*self, text@, rest@),
    {
        match self {
            Handler::Hex => {
                let n = text.unicode_len();
                if n > 2 && text.get_char(0) == '0' && text.get_char(1) == 'x' {
                    match parse_digits(text, 2, 16) {
                        Some(v) => Some(Token::Num(v)),
                        None => None,
                    }
                } else {
                    None
                }
            },
            Handler::Decimal => {
                if text.unicode_len() > 0 {
                    assert(text@.skip(0) =~= text@);
                    match parse_digits(text, 0, 10) {
                        Some(v) => Some(Token::Num(v)),
                        None => None,
                    }
                } else {
                    None
                }
            },
            Handler::Keyword => Some(keyword(text)),
            Handler::Register => {
                if text.unicode_len() != 1 {
                    return None;
                }
                if rest.unicode_len() > 0 {
                    let c = rest.get_char(0);
                    if ('a' <= c && c <= 'z') || ('A' <= c && c <= 'Z') || ('0' <= c && c <= '9')
                        || c == '-' {
                        return None;
                    }
                }
                let c = text.get_char(0);
                if c == 'A' || c == 'a' {
                    Some(Token::Reg(Register::A))
                } else if c == 'B' || c == 'b' {
                    Some(Token::Reg(Register::B))
                } else if c == 'C' || c == 'c' {
                    Some(Token::Reg(Register::C))
                } else if c == 'D' || c == 'd' {
                    Some(Token::Reg(Register::D))
                } else {
                    None
                }
            },
            Handler::Identifier => Some(Token::Identifier(text.to_owned())),
            Handler::Comment => Some(Token::Nop),
            Handler::Newlines => Some(Token::Newlines(text.unicode_len())),
            Handler::Blank => Some(Token::Nop),
        }
    }
}

/// A recognizer: a regular expression and what to make of the text it
/// matches. The expression is kept as text, so that a recognizer is a plain
/// value, and is compiled at each attempt.
#[derive(Debug)]
pub struct TokenMatcher {
    pub pattern: String,
    pub on_match: Handler,
}

/// The mathematical value of a `TokenMatcher`.
pub struct MatcherView {
    pub pattern: Seq<char>,
    pub on_match: Handler,
}

impl View for TokenMatcher {
    type V = MatcherView;

    open spec fn view(&self) -> MatcherView {
        MatcherView { pattern: self.pattern@, on_match: self.on_match }
    }
}

/// The values of a list of recognizers, in order.
pub open spec fn matcher_views(matchers: Seq<TokenMatcher>) -> Seq<MatcherView> {
    matchers.map_values(|m: TokenMatcher| m@)
}

/// What a recognizer makes of what its pattern found in an input of
/// `input_len` characters: the token and the rest of the input, where the
/// first group holds some text, the second group holds less than the whole
/// input, and the text becomes a token. The second group is taken as the
/// rest of the input.
pub open spec fn spec_accept(
    on_match: Handler,
    found: Option<(Option<Seq<char>>, Option<Seq<char>>)>,
    input_len: nat,
) -> Option<(TokenView, Seq<char>)> {
    match found {
        Some((Some(text), Some(rest))) => if text.len() > 0 && rest.len() < input_len {
            match spec_handle(on_match, text, rest) {
                Some(tok) => Some((tok, rest)),
                None => None,
            }
        } else {
            None
        },
        _ => None,
    }
}

/// Decides what to make of what a pattern found in an input of `input_len`
/// characters: where the recognizer accepts, the token goes behind `tokens`
/// and the rest of the input comes back; else `tokens` stays as it is.
pub fn accept(
    on_match: &Handler,
    found: Option<(Option<String>, Option<String>)>,
    input_len: usize,
    tokens: &mut Vec<Token>,
) -> (r: Option<String>)
    ensures
        match spec_accept(*on_match, groups_view(found), input_len as nat) {
            Some((tok, rest)) => {
                &&& r matches Some(s) && s@ == rest
                &&& token_views(final(tokens)@) == token_views(old(tokens)@).push(tok)
            },
            None => r is None && final(tokens)@ == old(tokens)@,
        },
{
    match found {
        Some((Some(text), Some(rest))) => {
            if text.as_str().unicode_len() == 0 {
                return None;
            }
            if rest.as_str().unicode_len() >= input_len {
                return None;
            }
            match on_match.handle(text.as_str(), rest.as_str()) {
                Some(tok) => {
                    let ghost before = tokens@;
                    tokens.push(tok);
                    assert(token_views(tokens@) =~= token_views(before).push(tok@));
                    Some(rest)
                },
                None => None,
            }
        },
        _ => None,
    }
}

/// What a recognizer finds at the front of `input`.
pub open spec fn spec_try_match(m: MatcherView, input: Seq<char>) -> Option<(TokenView, Seq<char>)> {
    spec_accept(m.on_match, regex_groups(m.pattern, input), input.len())
}

impl TokenMatcher {
    /// Tries the recognizer at the front of `input`. Where it accepts, the
    /// token goes behind `tokens` and the rest of the input comes back.
    pub fn try_match(&self, input: &String, tokens: &mut Vec<Token>) -> (r: Option<String>)
        ensures
            match spec_try_match(self@, input@) {
                Some((tok, rest)) => {
                    &&& r matches Some(s) && s@ == rest
                    &&& token_views(final(tokens)@) == token_views(old(tokens)@).push(tok)
                },
                None => r is None && final(tokens)@ == old(tokens)@,
            },
    {
        let found = captures(self.pattern.as_str(), input.as_str());
        accept(&self.on_match, found, input.as_str().unicode_len(), tokens)
    }
}

/// A pattern that `Regex::new` refused.
#[derive(Debug, Clone, Copy, PartialEq, Eq, Structural)]
pub struct PatternError;

/// An ordered list of recognizers. The first that accepts wins.
#[derive(Debug)]
pub struct Tokenizer {
    pub matchers: Vec<TokenMatcher>,
}

/// A pattern made to match at the front of the input only: leading spaces,
/// then `sregex` as the first group, then all the rest, line breaks
/// included, as another group.
pub open spec fn anchored(sregex: Seq<char>) -> Seq<char> {
    "^[ ]*("@ + sregex + ")(?s)(.*)$"@
}

/// The recognizers with one more behind them, for the pattern `sregex`, if
/// the anchored pattern compiles; else the recognizers as they are.
pub open spec fn with_matcher(
    matchers: Seq<MatcherView>,
    sregex: Seq<char>,
    on_match: Handler,
) -> Seq<MatcherView> {
    if regex_accepts(anchored(sregex)) {
        matchers.push(MatcherView { pattern: anchored(sregex), on_match })
    } else {
        matchers
    }
}

/// What the first of the recognizers from position `from` on that accepts
/// finds at the front of `input`.
pub open spec fn first_match(matchers: Seq<MatcherView>, input: Seq<char>, from: int) -> Option<
    (TokenView, Seq<char>),
>
    decreases matchers.len() - from,
{
    if from < 0 || from >= matchers.len() {
        None
    } else {
        match spec_try_match(matchers[from], input) {
            Some(hit) => Some(hit),
            None => first_match(matchers, input, from + 1),
        }
    }
}

/// The tokens at the front of `input`, as far as recognizers accept, and
/// the rest of the input that was not split. At each point the first
/// recognizer that accepts gives the token; the rest is empty where the
/// input was split to its end.
pub open spec fn spec_split(matchers: Seq<MatcherView>, input: Seq<char>) -> (
    Seq<TokenView>,
    Seq<char>,
)
    decreases input.len(),
{
    if input.len() == 0 {
        (Seq::empty(), input)
    } else {
        match first_match(matchers, input, 0) {
            Some((tok, rest)) => {
                proof {
                    lemma_first_match_shrinks(matchers, input, 0);
                }
                let (more, left) = spec_split(matchers, rest);
                (seq![tok] + more, left)
            },
            None => (Seq::empty(), input),
        }
    }
}

/// The tokens of `input`, where it can be split to its end. Where at some
/// point no recognizer accepts, there are no tokens at all.
pub open spec fn spec_tokenize(matchers: Seq<MatcherView>, input: Seq<char>) -> Option<
    Seq<TokenView>,
> {
    let (tokens, left) = spec_split(matchers, input);
    if left.len() == 0 {
        Some(tokens)
    } else {
        None
    }
}

/// What is left when the input cannot be split is less than the input, or
/// all of it.
pub proof fn lemma_split_shrinks(matchers: Seq<MatcherView>, input: Seq<char>)
    ensures
        spec_split(matchers, input).1.len() <= input.len(),
    decreases input.len(),
{
    if input.len() > 0 {
        match first_match(matchers, input, 0) {
            Some((_, rest)) => {
                lemma_first_match_shrinks(matchers, input, 0);
                lemma_split_shrinks(matchers, rest);
            },
            None => {},
        }
    }
}

/// What a recognizer finds leaves less input than there was.
pub proof fn lemma_first_match_shrinks(matchers: Seq<MatcherView>, input: Seq<char>, from: int)
    ensures
        first_match(matchers, input, from) matches Some((_, rest)) ==> rest.len() < input.len(),
    decreases matchers.len() - from,
{
    if 0 <= from < matchers.len() {
        lemma_first_match_shrinks(matchers, input, from + 1);
    }
}

/// The tokens as an `Option` of their values.
pub open spec fn tokens_option_view(tokens: Option<Vec<Token>>) -> Option<Seq<TokenView>> {
    match tokens {
        Some(v) => Some(token_views(v@)),
        None => None,
    }
}

impl Tokenizer {
    /// A tokenizer without recognizers.
    pub fn new() -> (t: Tokenizer)
        ensures
            t.matchers@ == Seq::<TokenMatcher>::empty(),
    {
        Tokenizer { matchers: Vec::new() }
    }

    /// Puts a recognizer for the pattern `sregex` behind the others, unless
    /// the anchored pattern does not compile.
    pub fn def_match(&mut self, sregex: &str, on_match: Handler) -> (r: Result<(), PatternError>)
        ensures
            r is Ok <==> regex_accepts(anchored(sregex@)),
            matcher_views(final(self).matchers@) == with_matcher(
                matcher_views(old(self).matchers@),
                sregex@,
                on_match,
            ),
    {
        let mut pattern = String::from_str("^[ ]*(");
        pattern.append(sregex);
        pattern.append(")(?s)(.*)$");
        match compile(pattern.as_str()) {
            Ok(_) => {
                let ghost before = self.matchers@;
                let matcher = TokenMatcher { pattern, on_match };
                self.matchers.push(matcher);
                assert(matcher_views(self.matchers@) =~= matcher_views(before).push(matcher@));
                Ok(())
            },
            Err(_) => Err(PatternError),
        }
    }

    /// Tries the recognizers in order at the front of `input`, up to the
    /// first that accepts.
    fn try_all(&self, input: &String, tokens: &mut Vec<Token>) -> (r: Option<String>)
        ensures
            match first_match(matcher_views(self.matchers@), input@, 0) {
                Some((tok, rest)) => {
                    &&& r matches Some(s) && s@ == rest
                    &&& token_views(final(tokens)@) == token_views(old(tokens)@).push(tok)
                },
                None => r is None && final(tokens)@ == old(tokens)@,
            },
    {
        let ghost matchers = matcher_views(self.matchers@);
        let mut i: usize = 0;
        while i < self.matchers.len()
            invariant
                i <= self.matchers.len(),
                matchers == matcher_views(self.matchers@),
                first_match(matchers, input@, 0) == first_match(matchers, input@, i as int),
                tokens@ == old(tokens)@,
            decreases self.matchers.len() - i,
        {
            match self.matchers[i].try_match(input, tokens) {
                Some(rest) => {
                    return Some(rest);
                },
                None => {},
            }
            i += 1;
        }
        None
    }

    /// Splits `input` into tokens as far as it goes: at each point the
    /// recognizers are tried in order and the first that accepts gives the
    /// token. Hands back the tokens and the rest that no recognizer
    /// accepts, which is empty where the input was split to its end.
    pub fn split(&self, input: String) -> (r: (Vec<Token>, String))
        ensures
            (token_views(r.0@), r.1@) == spec_split(matcher_views(self.matchers@), input@),
    {
        let ghost matchers = matcher_views(self.matchers@);
        let ghost goal = spec_split(matchers, input@);
        let mut left = input;
        let mut tokens: Vec<Token> = Vec::new();
        assert(token_views(tokens@) =~= Seq::<TokenView>::empty());
        loop
            invariant
                matchers == matcher_views(self.matchers@),
                goal == spec_split(matchers, input@),
                goal == (
                    token_views(tokens@) + spec_split(matchers, left@).0,
                    spec_split(matchers, left@).1,
                ),
            ensures
                goal == spec_split(matchers, input@),
                goal == (token_views(tokens@), left@),
            decreases left@.len(),
        {
            if left.as_str().is_empty() {
                assert(token_views(tokens@) + Seq::<TokenView>::empty() =~= token_views(tokens@));
                break ;
            }
            let ghost done = token_views(tokens@);
            let ghost text = left@;
            let next = self.try_all(&left, &mut tokens);
            match next {
                Some(rest) => {
                    proof {
                        lemma_first_match_shrinks(matchers, text, 0);
                        let (tok, after) = first_match(matchers, text, 0)->0;
                        let more = spec_split(matchers, after).0;
                        assert(done + (seq![tok] + more) =~= done.push(tok) + more);
                    }
                    left = rest;
                },
                None => {
                    assert(token_views(tokens@) + Seq::<TokenView>::empty() =~= token_views(
                        tokens@,
                    ));
                    break ;
                },
            }
        }
        (tokens, left)
    }

    /// Splits `input` into tokens. Where at some point no recognizer
    /// accepts, no tokens come back.
    pub fn tokenize(&self, input: String) -> (r: Option<Vec<Token>>)
        ensures
            tokens_option_view(r) == spec_tokenize(matcher_views(self.matchers@), input@),
    {
        let (tokens, left) = self.split(input);
        if left.as_str().is_empty() {
            Some(tokens)
        } else {
            None
        }
    }
}

/// Hexadecimal numbers.
pub const HEX_PATTERN: &'static str = "0x[0-9a-fA-F]+";

/// Decimal numbers.
pub const DECIMAL_PATTERN: &'static str = "[0-9]+";

/// Punctuation marks and keywords.
pub const KEYWORD_PATTERN: &'static str =
    "[\\$:\\(\\)\\*]|jump|from|inc|halt|io|backwards|forwards|reverse|if|<=|>=|>|=|<|and|or";

/// The letter of a register name.
pub const REGISTER_PATTERN: &'static str = "[A-Da-d]";

/// Identifiers: letters, digits and hyphens.
pub const IDENTIFIER_PATTERN: &'static str = "[a-zA-Z\\-0-9]+";

/// Comments: from a semicolon to the end of the line.
pub const COMMENT_PATTERN: &'static str = ";.*";

/// Runs of line breaks.
pub const NEWLINES_PATTERN: &'static str = "\\n+";

/// Any other blank text.
pub const BLANK_PATTERN: &'static str = "\\s*";

/// The recognizers of the language, in the order in which they are tried:
/// numbers before keywords, keywords before register names, register names
/// before identifiers, then comments, line breaks and other blank text.
pub open spec fn language() -> Seq<MatcherView> {
    let m = Seq::<MatcherView>::empty();
    let m = with_matcher(m, HEX_PATTERN@, Handler::Hex);
    let m = with_matcher(m, DECIMAL_PATTERN@, Handler::Decimal);
    let m = with_matcher(m, KEYWORD_PATTERN@, Handler::Keyword);
    let m = with_matcher(m, REGISTER_PATTERN@, Handler::Register);
    let m = with_matcher(m, IDENTIFIER_PATTERN@, Handler::Identifier);
    let m = with_matcher(m, COMMENT_PATTERN@, Handler::Comment);
    let m = with_matcher(m, NEWLINES_PATTERN@, Handler::Newlines);
    let m = with_matcher(m, BLANK_PATTERN@, Handler::Blank);
    m
}

/// Where a program text could not be split into tokens.
#[derive(Debug, Clone, Copy, PartialEq, Eq, Structural)]
pub struct LexFailure {
    /// How many characters stand before the point of failure.
    pub offset: usize,
    /// The number of the line with the point of failure, counted from 1.
    pub line: usize,
}

/// How many line breaks `text` holds.
pub open spec fn newlines(text: Seq<char>) -> nat
    decreases text.len(),
{
    if text.len() == 0 {
        0
    } else {
        newlines(text.drop_last()) + if text.last() == '\n' {
            1nat
        } else {
            0nat
        }
    }
}

/// A text holds no more line breaks than characters.
pub proof fn lemma_newlines_bound(text: Seq<char>)
    ensures
        newlines(text) <= text.len(),
    decreases text.len(),
{
    if text.len() > 0 {
        lemma_newlines_bound(text.drop_last());
    }
}

/// How many line breaks stand among the first `upto` characters of `text`.
fn count_newlines(text: &str, upto: usize) -> (n: usize)
    requires
        upto <= text@.len(),
    ensures
        n == newlines(text@.take(upto as int)),
{
    let mut n: usize = 0;
    let mut i: usize = 0;
    assert(text@.take(0) =~= Seq::<char>::empty());
    while i < upto
        invariant
            i <= upto <= text@.len(),
            n == newlines(text@.take(i as int)),
            n <= i,
        decreases upto - i,
    {
        let c = text.get_char(i);
        proof {
            assert(text@.take(i + 1).drop_last() =~= text@.take(i as int));
            assert(text@.take(i + 1).last() == c);
        }
        if c == '\n' {
            n += 1;
        }
        i += 1;
    }
    n
}

/// The point in `input` before the last `left` characters.
pub open spec fn failure_at(input: Seq<char>, left: nat) -> LexFailure {
    let offset = input.len() - left;
    LexFailure { offset: offset as usize, line: (newlines(input.take(offset)) + 1) as usize }
}

/// The tokens of a program text, or the point at which no recognizer
/// accepts.
pub open spec fn spec_lex_located(input: Seq<char>) -> Result<Seq<TokenView>, LexFailure> {
    let (tokens, left) = spec_split(language(), input);
    if left.len() == 0 {
        Ok(tokens)
    } else {
        Err(failure_at(input, left.len()))
    }
}

/// The tokens of a program text.
pub open spec fn spec_lex(input: Seq<char>) -> Option<Seq<TokenView>> {
    spec_tokenize(language(), input)
}

/// Splits a program text into tokens. No tokens come back where the text
/// cannot be split to its end.
pub fn lex(input: String) -> (r: Option<Vec<Token>>)
    ensures
        tokens_option_view(r) == spec_lex(input@),
{
    language_tokenizer().tokenize(input)
}

/// The tokens as a `Result` of their values.
pub open spec fn tokens_result_view(tokens: Result<Vec<Token>, LexFailure>) -> Result<
    Seq<TokenView>,
    LexFailure,
> {
    match tokens {
        Ok(v) => Ok(token_views(v@)),
        Err(e) => Err(e),
    }
}

/// The tokenizer of the language.
fn language_tokenizer() -> (tokenizer: Tokenizer)
    ensures
        matcher_views(tokenizer.matchers@) == language(),
{
    let mut tokenizer = Tokenizer::new();
    assert(matcher_views(tokenizer.matchers@) =~= Seq::<MatcherView>::empty());
    let _ = tokenizer.def_match(HEX_PATTERN, Handler::Hex);
    let _ = tokenizer.def_match(DECIMAL_PATTERN, Handler::Decimal);
    let _ = tokenizer.def_match(KEYWORD_PATTERN, Handler::Keyword);
    let _ = tokenizer.def_match(REGISTER_PATTERN, Handler::Register);
    let _ = tokenizer.def_match(IDENTIFIER_PATTERN, Handler::Identifier);
    let _ = tokenizer.def_match(COMMENT_PATTERN, Handler::Comment);
    let _ = tokenizer.def_match(NEWLINES_PATTERN, Handler::Newlines);
    let _ = tokenizer.def_match(BLANK_PATTERN, Handler::Blank);
    tokenizer
}

/// Splits a program text into tokens, or says where it cannot be split:
/// how many characters stand before the text that no recognizer accepts,
/// and on which line that text begins.
pub fn lex_located(input: String) -> (r: Result<Vec<Token>, LexFailure>)
    ensures
        tokens_result_view(r) == spec_lex_located(input@),
        spec_lex(input@) == (match spec_lex_located(input@) {
            Ok(tokens) => Some(tokens),
            Err(_) => None,
        }),
{
    let tokenizer = language_tokenizer();
    let total = input.as_str().unicode_len();
    let (tokens, left) = tokenizer.split(input.clone());
    if left.as_str().is_empty() {
        Ok(tokens)
    } else {
        proof {
            lemma_split_shrinks(language(), input@);
            lemma_newlines_bound(input@.take(input@.len() - left@.len()));
        }
        let offset = total - left.as_str().unicode_len();
        let line = count_newlines(input.as_str(), offset) + 1;
        Err(LexFailure { offset, line })
    }
}

} // verus!
