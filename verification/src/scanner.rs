use crate::literal::{Literal, LiteralView};
use crate::numeral::{digits_value, is_digit_char};
use crate::token::{tokens_view, Token, TokenView};
use crate::token_type::TokenType;
use vstd::prelude::*;
use vstd::string::StrSliceExecFns;

verus! {

/// The scanner: it cuts a source text into tokens.
///
/// `start` is where the lexeme that is being read begins, `current` the
/// character that is read next, `line` the line on which it stands. What the
/// scanner cannot read it reports in `errors`.
pub struct Scanner {
    pub source: String,
    pub tokens: Vec<Token>,
    pub start: usize,
    pub current: usize,
    pub line: usize,
    pub errors: Vec<String>,
    pub length: usize,
}

/// The mathematical value of a [`Scanner`].
pub struct Scanning {
    pub source: Seq<char>,
    pub tokens: Seq<TokenView>,
    pub start: usize,
    pub current: usize,
    pub line: usize,
    pub errors: Seq<Seq<char>>,
}

/// Whether `c` is a letter of the Latin alphabet or an underscore.
pub open spec fn is_alpha_char(c: char) -> bool {
    'a' <= c && c <= 'z' || 'A' <= c && c <= 'Z' || c == '_'
}

/// Whether `c` may stand in a name.
pub open spec fn is_alphanumeric_char(c: char) -> bool {
    is_alpha_char(c) || is_digit_char(c)
}

/// The first place from `pos` on at which the text ends or holds a
/// character that is not `wanted`.
pub open spec fn span_end(source: Seq<char>, pos: int, wanted: spec_fn(char) -> bool) -> int
    decreases source.len() - pos,
{
    if 0 <= pos < source.len() && wanted(source[pos]) {
        span_end(source, pos + 1, wanted)
    } else {
        pos
    }
}

/// The number of line ends among the characters from `from` up to `to`.
pub open spec fn count_newlines(source: Seq<char>, from: int, to: int) -> nat
    decreases to - from,
{
    if from >= to || to > source.len() || from < 0 {
        0
    } else {
        count_newlines(source, from, to - 1) + if source[to - 1] == '\n' {
            1nat
        } else {
            0nat
        }
    }
}

/// Whether the text holds nothing but digits.
pub open spec fn all_digits(text: Seq<char>) -> bool {
    forall|i: int| 0 <= i < text.len() ==> is_digit_char(#[trigger] text[i])
}

/// The keyword that a name is, if it is one.
pub open spec fn keyword_of(text: Seq<char>) -> Option<TokenType> {
    if text == "else"@ {
        Some(TokenType::ELSE)
    } else if text == "and"@ {
        Some(TokenType::AND)
    } else if text == "class"@ {
        Some(TokenType::CLASS)
    } else if text == "false"@ {
        Some(TokenType::FALSE)
    } else if text == "for"@ {
        Some(TokenType::FOR)
    } else if text == "fun"@ {
        Some(TokenType::FUN)
    } else if text == "if"@ {
        Some(TokenType::IF)
    } else if text == "nil"@ {
        Some(TokenType::NIL)
    } else if text == "or"@ {
        Some(TokenType::OR)
    } else if text == "print"@ {
        Some(TokenType::PRINT)
    } else if text == "return"@ {
        Some(TokenType::RETURN)
    } else if text == "super"@ {
        Some(TokenType::SUPER)
    } else if text == "this"@ {
        Some(TokenType::THIS)
    } else if text == "true"@ {
        Some(TokenType::TRUE)
    } else if text == "var"@ {
        Some(TokenType::VAR)
    } else if text == "while"@ {
        Some(TokenType::WHILE)
    } else {
        None
    }
}

/// The message for a character with which no lexeme begins.
pub open spec fn msg_unexpected_character() -> Seq<char> {
    "Unexpected character."@
}

/// The message for a string without a closing quote.
pub open spec fn msg_unterminated_string() -> Seq<char> {
    "Unterminated string."@
}

/// The message for a number that is not a 32-bit integer.
pub open spec fn msg_invalid_number() -> Seq<char> {
    "Invalid number."@
}

impl Scanning {
    /// The places are in order and within the text, and the line number is
    /// no more than one above the number of characters read.
    pub open spec fn wf(self) -> bool {
        &&& self.start <= self.current <= self.source.len()
        &&& self.source.len() < usize::MAX
        &&& self.line <= self.current + 1
    }

    /// Whether the text has been read to its end.
    pub open spec fn at_end(self) -> bool {
        self.current >= self.source.len()
    }

    /// The character that is read next; `'\0'` at the end of the text.
    pub open spec fn peek(self) -> char {
        if self.at_end() {
            '\0'
        } else {
            self.source[self.current as int]
        }
    }

    /// The character after the next; `'\0'` if the text has none.
    pub open spec fn peek_next(self) -> char {
        if self.current + 1 >= self.source.len() {
            '\0'
        } else {
            self.source[self.current + 1]
        }
    }

    /// The scanner at another place of the text.
    pub open spec fn moved(self, current: int) -> Scanning {
        Scanning { current: current as usize, ..self }
    }

    /// The scanner on another line.
    pub open spec fn on_line(self, line: int) -> Scanning {
        Scanning { line: line as usize, ..self }
    }

    /// The scanner at the start of a new lexeme.
    pub open spec fn begin(self) -> Scanning {
        Scanning { start: self.current, ..self }
    }

    /// The text of the lexeme that is being read.
    pub open spec fn lexeme(self) -> Seq<char> {
        self.source.subrange(self.start as int, self.current as int)
    }

    /// The scanner after it made a token of the lexeme that is being read.
    pub open spec fn add_token(self, of_type: TokenType, literal: Option<LiteralView>) -> Scanning {
        Scanning {
            tokens: self.tokens.push(
                TokenView { of_type, lexeme: self.lexeme(), literal, line: self.line },
            ),
            ..self
        }
    }

    /// The scanner after it reported what it could not read.
    pub open spec fn report(self, message: Seq<char>) -> Scanning {
        Scanning { errors: self.errors.push(message), ..self }
    }

    /// The scanner after it read `next`, if that is the next character.
    pub open spec fn advance_if_then(self, next: char) -> (Scanning, bool) {
        if self.at_end() || self.source[self.current as int] != next {
            (self, false)
        } else {
            (self.moved(self.current + 1), true)
        }
    }

    /// The scanner after a token of one or two characters: `double` if the
    /// next character is `=`, which is then read, and `single` if not.
    pub open spec fn operator(self, double: TokenType, single: TokenType) -> Scanning {
        let (s, matched) = self.advance_if_then('=');
        if matched {
            s.add_token(double, None)
        } else {
            s.add_token(single, None)
        }
    }

    /// The scanner after it read a name, whose first character it has read:
    /// the name runs as far as letters, digits and underscores follow, and
    /// makes a keyword token if it is a keyword, an identifier if not.
    pub open spec fn identifier(self) -> Scanning {
        let s = self.moved(span_end(self.source, self.current as int, |c: char| is_alphanumeric_char(c)));
        match keyword_of(s.lexeme()) {
            Some(keyword) => s.add_token(keyword, None),
            None => s.add_token(TokenType::IDENTIFIER, None),
        }
    }

    /// The scanner after it read a number, whose first digit it has read.
    ///
    /// The number runs as far as digits follow. A number with a fraction, one
    /// above the largest 32-bit number, or a lexeme that holds anything but
    /// digits is read to its end and reported; any other makes a number
    /// token.
    pub open spec fn number(self) -> Scanning {
        let whole = self.moved(span_end(self.source, self.current as int, |c: char| is_digit_char(c)));
        if whole.peek() == '.' && is_digit_char(whole.peek_next()) {
            whole.moved(
                span_end(self.source, whole.current + 1, |c: char| is_digit_char(c)),
            ).report(msg_invalid_number())
        } else if !all_digits(whole.lexeme()) || digits_value(whole.lexeme()) > i32::MAX {
            whole.report(msg_invalid_number())
        } else {
            whole.add_token(
                TokenType::NUMBER,
                Some(LiteralView::Number(digits_value(whole.lexeme()) as i32)),
            )
        }
    }

    /// The scanner after it read a string, whose opening quote it has read.
    ///
    /// The string runs up to the next quote and may span lines. Its token
    /// holds the text between the quotes. A string that the text ends
    /// before is reported.
    pub open spec fn string(self) -> Scanning {
        let end = span_end(self.source, self.current as int, |c: char| c != '"');
        let line = self.line + count_newlines(self.source, self.current as int, end);
        if end >= self.source.len() {
            self.moved(end).on_line(line).report(msg_unterminated_string())
        } else {
            let s = self.moved(end + 1).on_line(line);
            s.add_token(
                TokenType::STRING,
                Some(LiteralView::String(self.source.subrange(self.start + 1, end))),
            )
        }
    }

    /// The scanner after it read one lexeme from a text that has not ended.
    pub open spec fn scan_token(self) -> Scanning {
        let c = self.source[self.current as int];
        let s = self.moved(self.current + 1);
        if c == '(' {
            s.add_token(TokenType::LEFT_PAREN, None)
        } else if c == ')' {
            s.add_token(TokenType::RIGHT_PAREN, None)
        } else if c == '{' {
            s.add_token(TokenType::LEFT_BRACE, None)
        } else if c == '}' {
            s.add_token(TokenType::RIGHT_BRACE, None)
        } else if c == ',' {
            s.add_token(TokenType::COMMA, None)
        } else if c == '.' {
            s.add_token(TokenType::DOT, None)
        } else if c == '-' {
            s.add_token(TokenType::MINUS, None)
        } else if c == '+' {
            s.add_token(TokenType::PLUS, None)
        } else if c == ';' {
            s.add_token(TokenType::SEMICOLON, None)
        } else if c == '*' {
            s.add_token(TokenType::STAR, None)
        } else if c == '!' {
            s.operator(TokenType::BANG_EQUAL, TokenType::BANG)
        } else if c == '=' {
            s.operator(TokenType::EQUAL_EQUAL, TokenType::EQUAL)
        } else if c == '<' {
            s.operator(TokenType::LESS_EQUAL, TokenType::LESS)
        } else if c == '>' {
            s.operator(TokenType::GREATER_EQUAL, TokenType::GREATER)
        } else if c == '/' {
            let (t, matched) = s.advance_if_then('/');
            if matched {
                t.moved(span_end(self.source, t.current as int, |c: char| c != '\n'))
            } else {
                t.add_token(TokenType::SLASH, None)
            }
        } else if c == ' ' || c == '\r' || c == '\t' {
            s
        } else if c == '\n' {
            s.on_line(self.line + 1)
        } else if c == '"' {
            s.string()
        } else if is_digit_char(c) {
            s.number()
        } else if is_alpha_char(c) {
            s.identifier()
        } else {
            s.report(msg_unexpected_character())
        }
    }

    /// The scanner after it read the rest of the text, lexeme by lexeme.
    pub open spec fn scan_all(self) -> Scanning
        decreases self.source.len() - self.current,
    {
        if self.at_end() {
            self
        } else {
            let s = self.begin().scan_token();
            if self.current < s.current <= s.source.len() && s.source == self.source {
                s.scan_all()
            } else {
                s
            }
        }
    }

    /// The scanner after it read the rest of the text and closed the list of
    /// tokens with the token that marks the end.
    pub open spec fn scan_tokens(self) -> Scanning {
        let s = self.scan_all();
        Scanning {
            tokens: s.tokens.push(
                TokenView {
                    of_type: TokenType::EOF,
                    lexeme: Seq::empty(),
                    literal: None,
                    line: s.line,
                },
            ),
            ..s
        }
    }
}

/// A number does not shrink when a digit is written behind it.
pub proof fn lemma_digits_value_grows(s: Seq<char>, k: int)
    requires
        0 <= k <= s.len(),
        forall|i: int| 0 <= i < s.len() ==> is_digit_char(#[trigger] s[i]),
    ensures
        digits_value(s.subrange(0, k)) <= digits_value(s),
    decreases s.len() - k,
{
    if k < s.len() {
        assert(s.subrange(0, k + 1).drop_last() =~= s.subrange(0, k));
        lemma_digits_value_grows(s, k + 1);
    } else {
        assert(s.subrange(0, k) =~= s);
    }
}

impl View for Scanner {
    type V = Scanning;

    open spec fn view(&self) -> Scanning {
        Scanning {
            source: self.source@,
            tokens: tokens_view(self.tokens@),
            start: self.start,
            current: self.current,
            line: self.line,
            errors: Seq::new(self.errors@.len(), |i: int| self.errors@[i]@),
        }
    }
}

impl Scanner {
    /// The scanner knows the length of its text, and its places are in order.
    pub open spec fn wf(&self) -> bool {
        &&& self@.wf()
        &&& self.length == self.source@.len()
    }

    /// A scanner at the start of `source`, on line 1.
    pub fn new(source: String) -> (r: Self)
        requires
            source@.len() < usize::MAX,
        ensures
            r.wf(),
            r@ == (Scanning {
                source: source@,
                tokens: Seq::empty(),
                start: 0,
                current: 0,
                line: 1,
                errors: Seq::empty(),
            }),
    {
        let length = source.as_str().unicode_len();
        let r = Self {
            source,
            tokens: Vec::new(),
            start: 0,
            current: 0,
            line: 1,
            errors: Vec::new(),
            length,
        };
        assert(r@.tokens =~= Seq::empty());
        assert(r@.errors =~= Seq::empty());
        r
    }

    fn is_at_end(&self) -> (b: bool)
        requires
            self.wf(),
        ensures
            b == self@.at_end(),
    {
        self.current >= self.length
    }

    /// Reads the next character.
    pub fn advance(&mut self) -> (c: char)
        requires
            old(self).wf(),
            !old(self)@.at_end(),
        ensures
            final(self).wf(),
            c == old(self)@.source[old(self).current as int],
            final(self)@ == old(self)@.moved(old(self).current + 1),
    {
        self.current += 1;
        self.source.as_str().get_char(self.current - 1)
    }

    /// Makes a token of the lexeme that is being read.
    pub fn add_token(&mut self, of_type: TokenType, literal: Option<Literal>)
        requires
            old(self).wf(),
        ensures
            final(self).wf(),
            final(self)@ == old(self)@.add_token(
                of_type,
                match literal {
                    Some(l) => Some(l@),
                    None => None,
                },
            ),
    {
        self.add_token_val(of_type, literal)
    }

    /// Makes a token of the lexeme that is being read.
    pub fn add_token_val(&mut self, of_type: TokenType, literal: Option<Literal>)
        requires
            old(self).wf(),
        ensures
            final(self).wf(),
            final(self)@ == old(self)@.add_token(
                of_type,
                match literal {
                    Some(l) => Some(l@),
                    None => None,
                },
            ),
    {
        let text = self.source.as_str().substring_char(self.start, self.current);
        let token = Token::new(of_type, text.to_owned(), literal, self.line);
        let ghost before = self@.tokens;
        self.tokens.push(token);
        assert(self@.tokens =~= before.push(token@));
    }

    /// Notes what the scanner could not read.
    fn report(&mut self, message: &str)
        requires
            old(self).wf(),
        ensures
            final(self).wf(),
            final(self)@ == old(self)@.report(message@),
    {
        let ghost before = self@.errors;
        self.errors.push(message.to_owned());
        assert(self@.errors =~= before.push(message@));
    }

    /// Reads `next` if it is the next character, and tells whether it was.
    pub fn advance_if_then(&mut self, next: char) -> (b: bool)
        requires
            old(self).wf(),
        ensures
            final(self).wf(),
            (final(self)@, b) == old(self)@.advance_if_then(next),
    {
        if self.is_at_end() {
            return false;
        } else if self.source.as_str().get_char(self.current) != next {
            return false;
        } else {
            self.current += 1;
            true
        }
    }

    /// Reads a token that is `double` if `=` follows and `single` if not.
    fn operator(&mut self, double: TokenType, single: TokenType)
        requires
            old(self).wf(),
        ensures
            final(self).wf(),
            final(self)@ == old(self)@.operator(double, single),
    {
        if self.advance_if_then('=') {
            self.add_token(double, None)
        } else {
            self.add_token(single, None)
        }
    }

    /// Reads one lexeme.
    pub fn scan_token(&mut self)
        requires
            old(self).wf(),
            !old(self)@.at_end(),
        ensures
            final(self).wf(),
            final(self)@ == old(self)@.scan_token(),
            old(self).current < final(self).current,
            final(self)@.source == old(self)@.source,
    {
        let c = self.advance();
        match c {
            '(' => self.add_token(TokenType::LEFT_PAREN, None),
            ')' => self.add_token(TokenType::RIGHT_PAREN, None),
            '{' => self.add_token(TokenType::LEFT_BRACE, None),
            '}' => self.add_token(TokenType::RIGHT_BRACE, None),
            ',' => self.add_token(TokenType::COMMA, None),
            '.' => self.add_token(TokenType::DOT, None),
            '-' => self.add_token(TokenType::MINUS, None),
            '+' => self.add_token(TokenType::PLUS, None),
            ';' => self.add_token(TokenType::SEMICOLON, None),
            '*' => self.add_token(TokenType::STAR, None),
            '!' => self.operator(TokenType::BANG_EQUAL, TokenType::BANG),
            '=' => self.operator(TokenType::EQUAL_EQUAL, TokenType::EQUAL),
            '<' => self.operator(TokenType::LESS_EQUAL, TokenType::LESS),
            '>' => self.operator(TokenType::GREATER_EQUAL, TokenType::GREATER),
            '/' => {
                if self.advance_if_then('/') {
                    let ghost from = self.current;
                    while self.peek() != '\n' && !self.is_at_end()
                        invariant
                            self.wf(),
                            from <= self.current,
                            from == old(self).current + 2,
                            self@ == old(self)@.moved(self.current as int),
                            span_end(self@.source, self.current as int, |c: char| c != '\n')
                                == span_end(self@.source, from as int, |c: char| c != '\n'),
                        decreases self.length - self.current,
                    {
                        self.current += 1;
                    }
                } else {
                    self.add_token(TokenType::SLASH, None);
                }
            },
            ' ' | '\r' | '\t' => (),
            '\n' => self.line += 1,
            '"' => {
                self.string();
            },
            _ => {
                if self.is_digit(c) {
                    self.number();
                } else if self.is_apha(c) {
                    self.identifier()
                } else {
                    self.report("Unexpected character.")
                }
            },
        }
    }

    /// Reads a name, whose first character has been read.
    pub fn identifier(&mut self)
        requires
            old(self).wf(),
        ensures
            final(self).wf(),
            final(self)@ == old(self)@.identifier(),
            old(self).current <= final(self).current,
            final(self)@.source == old(self)@.source,
    {
        while self.is_alphanumeric(self.peek())
            invariant
                self.wf(),
                old(self).current <= self.current,
                self@ == old(self)@.moved(self.current as int),
                span_end(self@.source, self.current as int, |c: char| is_alphanumeric_char(c))
                    == span_end(
                    self@.source,
                    old(self).current as int,
                    |c: char| is_alphanumeric_char(c),
                ),
            decreases self.length - self.current,
        {
            self.advance();
        }
        let text = self.source.as_str().substring_char(self.start, self.current);
        if let Some(token_type) = self.match_identifier(text.to_owned()) {
            self.add_token(token_type, None)
        } else {
            self.add_token(TokenType::IDENTIFIER, None)
        }
    }

    /// The keyword that `c` is, if it is one.
    pub fn match_identifier(&mut self, c: String) -> (r: Option<TokenType>)
        ensures
            *final(self) == *old(self),
            r == keyword_of(c@),
    {
        if c == "else".to_owned() {
            Some(TokenType::ELSE)
        } else if c == "and".to_owned() {
            Some(TokenType::AND)
        } else if c == "class".to_owned() {
            Some(TokenType::CLASS)
        } else if c == "false".to_owned() {
            Some(TokenType::FALSE)
        } else if c == "for".to_owned() {
            Some(TokenType::FOR)
        } else if c == "fun".to_owned() {
            Some(TokenType::FUN)
        } else if c == "if".to_owned() {
            Some(TokenType::IF)
        } else if c == "nil".to_owned() {
            Some(TokenType::NIL)
        } else if c == "or".to_owned() {
            Some(TokenType::OR)
        } else if c == "print".to_owned() {
            Some(TokenType::PRINT)
        } else if c == "return".to_owned() {
            Some(TokenType::RETURN)
        } else if c == "super".to_owned() {
            Some(TokenType::SUPER)
        } else if c == "this".to_owned() {
            Some(TokenType::THIS)
        } else if c == "true".to_owned() {
            Some(TokenType::TRUE)
        } else if c == "var".to_owned() {
            Some(TokenType::VAR)
        } else if c == "while".to_owned() {
            Some(TokenType::WHILE)
        } else {
            None
        }
    }

    /// Whether `c` is a letter of the Latin alphabet or an underscore.
    pub fn is_apha(&mut self, c: char) -> (b: bool)
        ensures
            *final(self) == *old(self),
            b == is_alpha_char(c),
    {
        c >= 'a' && c <= 'z' || c >= 'A' && c <= 'Z' || c == '_'
    }

    /// Whether `c` may stand in a name.
    pub fn is_alphanumeric(&mut self, c: char) -> (b: bool)
        ensures
            *final(self) == *old(self),
            b == is_alphanumeric_char(c),
    {
        self.is_apha(c) || self.is_digit(c)
    }

    /// Whether `c` is a decimal digit.
    pub fn is_digit(&mut self, c: char) -> (b: bool)
        ensures
            *final(self) == *old(self),
            b == is_digit_char(c),
    {
        c >= '0' && c <= '9'
    }

    /// Reads a number, whose first digit has been read.
    pub fn number(&mut self)
        requires
            old(self).wf(),
        ensures
            final(self).wf(),
            final(self)@ == old(self)@.number(),
            old(self).current <= final(self).current,
            final(self)@.source == old(self)@.source,
    {
        while self.is_digit(self.peek())
            invariant
                self.wf(),
                old(self).current <= self.current,
                self@ == old(self)@.moved(self.current as int),
                span_end(self@.source, self.current as int, |c: char| is_digit_char(c))
                    == span_end(
                    self@.source,
                    old(self).current as int,
                    |c: char| is_digit_char(c),
                ),
            decreases self.length - self.current,
        {
            self.advance();
        }
        let ghost whole = self@;
        let peek_next = self.peek_next();
        if self.peek() == '.' && self.is_digit(peek_next) {
            self.advance();
            while self.is_digit(self.peek())
                invariant
                    self.wf(),
                    whole.current + 1 <= self.current,
                    whole == old(self)@.moved(whole.current as int),
                    self@ == old(self)@.moved(self.current as int),
                    span_end(self@.source, self.current as int, |c: char| is_digit_char(c))
                        == span_end(
                        self@.source,
                        whole.current + 1,
                        |c: char| is_digit_char(c),
                    ),
                decreases self.length - self.current,
            {
                self.advance();
            }
            self.report("Invalid number.");
            return ;
        }
        // Reads the digits as a 32-bit number.
        let ghost lexeme = self@.lexeme();
        let mut value: u64 = 0;
        let mut i: usize = self.start;
        assert(lexeme.subrange(0, 0) =~= Seq::<char>::empty());
        #[verifier::loop_isolation(false)]
        while i < self.current
            invariant
                self.wf(),
                self@ == whole,
                whole == old(self)@.moved(whole.current as int),
                self.start <= i <= self.current,
                lexeme == self@.lexeme(),
                forall|k: int| 0 <= k < i - self.start ==> is_digit_char(#[trigger] lexeme[k]),
                value == digits_value(lexeme.subrange(0, i - self.start)),
                value <= i32::MAX,
            decreases self.current - i,
        {
            let c = self.source.as_str().get_char(i);
            assert(c == lexeme[i - self.start]);
            if !self.is_digit(c) {
                self.report("Invalid number.");
                return ;
            }
            let digit = (c as u32 - '0' as u32) as u64;
            assert(lexeme.subrange(0, i - self.start + 1).drop_last() =~= lexeme.subrange(
                0,
                i - self.start,
            ));
            value = value * 10 + digit;
            i += 1;
            if value > 0x7fff_ffff {
                proof {
                    if all_digits(lexeme) {
                        lemma_digits_value_grows(lexeme, i - self.start);
                    }
                }
                self.report("Invalid number.");
                return ;
            }
        }
        assert(lexeme.subrange(0, i - self.start) =~= lexeme);
        self.add_token(TokenType::NUMBER, Some(Literal::Number(value as i32)));
    }

    /// The character after the next; `'\0'` if the text has none.
    pub fn peek_next(&mut self) -> (c: char)
        requires
            old(self).wf(),
        ensures
            *final(self) == *old(self),
            c == old(self)@.peek_next(),
    {
        if self.current >= self.length || self.current + 1 >= self.length {
            let character = '\0';
            return character;
        } else {
            self.source.as_str().get_char(self.current + 1)
        }
    }

    /// Reads a string, whose opening quote has been read.
    pub fn string(&mut self)
        requires
            old(self).wf(),
            old(self).start < old(self).current,
        ensures
            final(self).wf(),
            final(self)@ == old(self)@.string(),
            old(self).current <= final(self).current,
            final(self)@.source == old(self)@.source,
    {
        while self.peek() != '"' && !self.is_at_end()
            invariant
                self.wf(),
                old(self).current <= self.current,
                self@ == old(self)@.moved(self.current as int).on_line(self.line as int),
                self.line == old(self).line + count_newlines(
                    self@.source,
                    old(self).current as int,
                    self.current as int,
                ),
                span_end(self@.source, self.current as int, |c: char| c != '"') == span_end(
                    self@.source,
                    old(self).current as int,
                    |c: char| c != '"',
                ),
            decreases self.length - self.current,
        {
            let newline = self.peek() == '\n';
            self.advance();
            if newline {
                self.line += 1;
            }
        }
        if self.is_at_end() {
            self.report("Unterminated string.");
            return ;
        }
        self.advance();
        let value = self.source.as_str().substring_char(self.start + 1, self.current - 1);
        self.add_token(TokenType::STRING, Some(Literal::String(value.to_owned())));
    }

    /// The character that is read next; `'\0'` at the end of the text.
    pub fn peek(&self) -> (c: char)
        requires
            self.wf(),
        ensures
            c == self@.peek(),
    {
        if self.is_at_end() {
            return '\0';
        } else {
            self.source.as_str().get_char(self.current)
        }
    }

    /// Reads the rest of the text and closes the list of tokens with the
    /// token that marks the end.
    pub fn scan_tokens(&mut self) -> (r: &Vec<Token>)
        requires
            old(self).wf(),
        ensures
            final(self).wf(),
            final(self)@ == old(self)@.scan_tokens(),
            *r == final(self).tokens,
            r@.len() > 0,
            r@.last().of_type == TokenType::EOF,
    {
        while !self.is_at_end()
            invariant
                self.wf(),
                self@.scan_all() == old(self)@.scan_all(),
            decreases self.length - self.current,
        {
            self.start = self.current;
            self.scan_token();
        }
        let ghost before = self@.tokens;
        let token = Token::new(TokenType::EOF, "".to_owned(), None, self.line);
        proof {
            reveal_strlit("");
            assert(token.lexeme@ =~= Seq::<char>::empty());
        }
        self.tokens.push(token);
        assert(self@.tokens =~= before.push(token@));
        &self.tokens
    }

    /// The tokens made so far.
    pub fn tokens_helper(self) -> (r: Vec<Token>)
        ensures
            r == self.tokens,
    {
        self.tokens
    }
}

} // verus!
