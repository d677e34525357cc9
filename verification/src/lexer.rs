//! The scanner for the surface syntax.  String interpolation needs a lexer
//! that switches between in-string and out-of-string scanning modes and
//! keeps track of how deeply interpolated expressions are nested, so that a
//! `}` closing an interpolation is told apart from a `}` closing an
//! attribute set.

use vstd::prelude::*;

verus! {

/// Scanning mode: outside any string literal.
pub const STATE_NORMAL: usize = 0;

/// Scanning mode: inside a string literal.
pub const STATE_STRING: usize = 1;

/// The token kinds of the surface syntax.
#[allow(non_camel_case_types)]
#[derive(Debug, Clone, PartialEq)]
pub enum Token {
    INT(i64),
    FLOAT(String),
    ID(String),
    PATH(String),
    STRING_QUOTE,
    STRING_PART(String),
    DOLLAR_CURLY,
    OPEN_CURLY,
    CLOSE_CURLY,
    OPEN_PAREN,
    CLOSE_PAREN,
    OPEN_BRACKET,
    CLOSE_BRACKET,
    COMMA,
    COLON,
    SEMICOLON,
    ASSIGN,
    DOT,
    QUESTION,
    AT,
    ELLIPSIS,
    IF,
    THEN,
    ELSE,
    ASSERT,
    WITH,
    LET,
    IN,
    REC,
    INHERIT,
    OR_KW,
    PLUS,
    MINUS,
    MULT,
    DIV,
    UPDATE,
    CONCAT,
    EQ,
    NEQ,
    LT,
    GT,
    LEQ,
    GEQ,
    AND,
    OR,
    IMPL,
    NOT,
}

/// The scanner's own failure signals: the end of the input, or a character
/// no rule matches.
#[allow(non_camel_case_types)]
#[derive(Debug, Clone, Copy, PartialEq, Eq, Structural)]
pub enum Error {
    EOF,
    Unmatch,
}

/// A positioned lexical error as handed to the consumer of the token
/// stream: (line number, token start, token start, position).
#[derive(Debug)]
pub enum LexicalError {
    NotGood((usize, usize, usize, usize)),
}

/// The mathematical mirror of the scanner state.
#[verifier::ext_equal]
pub ghost struct LexerV {
    pub input: Seq<char>,
    pub pos: usize,
    pub tok_start: usize,
    pub lineno: usize,
    pub state: usize,
    pub states: Seq<usize>,
}

/// The scanner: the input text, the scan position (in characters), the
/// start of the token scanned last, the current line number, the current
/// mode and the stack of modes to return to at each pending `}`.
pub struct Lexer {
    input: String,
    pos: usize,
    tok_start: usize,
    lineno: usize,
    state: usize,
    states: Vec<usize>,
}

impl View for Lexer {
    type V = LexerV;

    closed spec fn view(&self) -> LexerV {
        LexerV {
            input: self.input@,
            pos: self.pos,
            tok_start: self.tok_start,
            lineno: self.lineno,
            state: self.state,
            states: self.states@,
        }
    }
}

/// A decimal digit.
pub open spec fn is_digit_c(c: char) -> bool {
    48 <= c as int <= 57
}

/// A character that may start an identifier.
pub open spec fn is_id_start_c(c: char) -> bool {
    (65 <= c as int <= 90) || (97 <= c as int <= 122) || c == '_'
}

/// A character that may continue an identifier.
pub open spec fn is_id_c(c: char) -> bool {
    is_id_start_c(c) || is_digit_c(c) || c == '\'' || c == '-'
}

/// A character that may stand in a path segment.
pub open spec fn is_path_c(c: char) -> bool {
    is_id_start_c(c) || is_digit_c(c) || c == '.' || c == '+' || c == '-'
}

/// Whitespace.
pub open spec fn is_space_c(c: char) -> bool {
    c == ' ' || c == '\t' || c == '\n' || c == '\r'
}

/// All characters of `s` are decimal digits.
pub open spec fn all_digits(s: Seq<char>) -> bool {
    forall|i: int| 0 <= i < s.len() ==> is_digit_c(#[trigger] s[i])
}

/// The number a digit sequence denotes.
pub open spec fn digits_value(s: Seq<char>) -> int
    decreases s.len(),
{
    if s.len() == 0 {
        0
    } else {
        digits_value(s.drop_last()) * 10 + (s.last() as int - 48)
    }
}

/// The end of the run of decimal digits starting at `i`.
pub open spec fn digit_run_end(s: Seq<char>, i: int) -> int
    decreases s.len() - i when 0 <= i <= s.len()
{
    if i >= s.len() || !is_digit_c(s[i]) {
        i
    } else {
        digit_run_end(s, i + 1)
    }
}

/// A float literal starts at `i`: a digit run, a dot, and a further digit.
pub open spec fn float_shaped_at(s: Seq<char>, i: int) -> bool {
    let e = digit_run_end(s, i);
    e < s.len() && s[e] == '.' && e + 1 < s.len() && is_digit_c(s[e + 1])
}

/// A token may start at position `i`: any path or identifier character, a
/// digit, an operator or punctuation character, a quote, an interpolation
/// opening, or one of the two-character operators whose first character
/// cannot stand alone.
pub open spec fn token_can_start(s: Seq<char>, i: int) -> bool {
    ||| is_path_c(s[i])
    ||| s[i] == '/'
    ||| s[i] == '"'
    ||| s[i] == '{'
    ||| s[i] == '}'
    ||| s[i] == '('
    ||| s[i] == ')'
    ||| s[i] == '['
    ||| s[i] == ']'
    ||| s[i] == ','
    ||| s[i] == ';'
    ||| s[i] == ':'
    ||| s[i] == '?'
    ||| s[i] == '@'
    ||| s[i] == '*'
    ||| s[i] == '<'
    ||| s[i] == '>'
    ||| s[i] == '!'
    ||| s[i] == '='
    ||| (s[i] == '$' && i + 1 < s.len() && s[i + 1] == '{')
    ||| (s[i] == '&' && i + 1 < s.len() && s[i + 1] == '&')
    ||| (s[i] == '|' && i + 1 < s.len() && s[i + 1] == '|')
}

/// An unmatchable position: no token can start there, or an integer
/// literal too large for the machine's integers starts there.
pub open spec fn unmatchable_at(s: Seq<char>, i: int) -> bool {
    ||| !token_can_start(s, i)
    ||| (is_digit_c(s[i]) && !float_shaped_at(s, i) && digits_value(
        s.subrange(i, digit_run_end(s, i)),
    ) > i64::MAX)
}

/// The end of the run of path characters starting at `i`.
pub open spec fn path_run_end(s: Seq<char>, i: int) -> int
    decreases s.len() - i when 0 <= i <= s.len()
{
    if i >= s.len() || !is_path_c(s[i]) {
        i
    } else {
        path_run_end(s, i + 1)
    }
}

/// A path literal starts at `i`: after the leading run of path characters
/// comes a slash followed by a further path character.
pub open spec fn path_starts_at(s: Seq<char>, i: int) -> bool {
    let p = path_run_end(s, i);
    p < s.len() && s[p] == '/' && p + 1 < s.len() && is_path_c(s[p + 1])
}

/// The end of the string part starting at `i`: everything up to the end
/// of the input, the closing quote or the next interpolation opening, a
/// backslash carrying the following character verbatim.
pub open spec fn part_run_end(s: Seq<char>, i: int) -> int
    decreases s.len() - i when 0 <= i <= s.len()
{
    if i >= s.len() {
        i
    } else if s[i] == '"' {
        i
    } else if s[i] == '$' && i + 1 < s.len() && s[i + 1] == '{' {
        i
    } else if s[i] == '\\' && i + 1 < s.len() {
        part_run_end(s, i + 2)
    } else {
        part_run_end(s, i + 1)
    }
}

/// A scanned token cannot be extended in place: the character after it, if
/// any, does not continue it, and a one-character spelling is not the cut
/// prefix of a longer one.
pub open spec fn token_maximal(t: Token, s: Seq<char>, end: int) -> bool {
    match t {
        Token::INT(_) => (end >= s.len() || !is_digit_c(s[end])) && (end + 1 >= s.len()
            || s[end] != '.' || !is_digit_c(s[end + 1])),
        Token::FLOAT(_) => end >= s.len() || !is_digit_c(s[end]),
        Token::ID(_) => end >= s.len() || !is_id_c(s[end]),
        Token::IF => end >= s.len() || !is_id_c(s[end]),
        Token::THEN => end >= s.len() || !is_id_c(s[end]),
        Token::ELSE => end >= s.len() || !is_id_c(s[end]),
        Token::ASSERT => end >= s.len() || !is_id_c(s[end]),
        Token::WITH => end >= s.len() || !is_id_c(s[end]),
        Token::LET => end >= s.len() || !is_id_c(s[end]),
        Token::IN => end >= s.len() || !is_id_c(s[end]),
        Token::REC => end >= s.len() || !is_id_c(s[end]),
        Token::INHERIT => end >= s.len() || !is_id_c(s[end]),
        Token::OR_KW => end >= s.len() || !is_id_c(s[end]),
        Token::STRING_PART(_) => end >= s.len() || s[end] == '"' || (s[end] == '$' && end + 1
            < s.len() && s[end + 1] == '{'),
        Token::PATH(_) => end >= s.len() || (!is_path_c(s[end]) && (s[end] != '/' || end + 1
            >= s.len() || !is_path_c(s[end + 1]))),
        Token::DIV => end >= s.len() || s[end] != '/',
        Token::PLUS => end >= s.len() || s[end] != '+',
        Token::MINUS => end >= s.len() || s[end] != '>',
        Token::ASSIGN => end >= s.len() || s[end] != '=',
        Token::NOT => end >= s.len() || s[end] != '=',
        Token::LT => end >= s.len() || s[end] != '=',
        Token::GT => end >= s.len() || s[end] != '=',
        Token::DOT => end + 1 >= s.len() || s[end] != '.' || s[end + 1] != '.',
        _ => true,
    }
}

/// How one scan moves the mode and the mode stack: a quote toggles between
/// string and normal mode; an interpolation or attribute-set opening pushes
/// the mode to return to; a closing brace pops it (an unmatched one falls
/// back to normal mode); every other token, and every failure, leaves both
/// untouched.
pub open spec fn mode_transition(pre: LexerV, post: LexerV, r: Result<Token, Error>) -> bool {
    match r {
        Ok(t) => match t {
            Token::STRING_QUOTE => post.states == pre.states && post.state == (
            if pre.state == STATE_STRING {
                STATE_NORMAL
            } else {
                STATE_STRING
            }),
            Token::DOLLAR_CURLY => post.state == (
            if pre.state == STATE_STRING {
                STATE_NORMAL
            } else {
                pre.state
            }) && post.states == pre.states.push(
                if pre.state == STATE_STRING {
                    STATE_STRING
                } else {
                    STATE_NORMAL
                },
            ),
            Token::OPEN_CURLY => post.state == pre.state && post.states == pre.states.push(
                STATE_NORMAL,
            ),
            Token::CLOSE_CURLY => if pre.states.len() > 0 {
                post.state == pre.states.last() && post.states == pre.states.drop_last()
            } else {
                post.state == STATE_NORMAL && post.states == pre.states
            },
            _ => post.state == pre.state && post.states == pre.states,
        },
        Err(_) => post.state == pre.state && post.states == pre.states,
    }
}

/// Everything one scan promises.  The input never changes and the position
/// never moves backwards; the mode and mode stack evolve exactly as
/// `mode_transition` says.  A token is scanned at the first non-whitespace
/// position, represents exactly the consumed slice, cannot be extended in
/// place, and is never a path prefix cut short; string parts come only in
/// string mode, where nothing but parts, quotes and interpolation openings
/// is produced.  The end of the input is reported only when (at most
/// whitespace short of) reached, and a position is unmatchable only when no
/// token can start there.
pub open spec fn scan_post(pre: LexerV, post: LexerV, r: Result<Token, Error>) -> bool {
    &&& post.input == pre.input
    &&& pre.pos <= post.pos
    &&& mode_transition(pre, post, r)
    &&& match r {
        Ok(t) => {
            &&& pre.pos <= post.tok_start < post.pos
            &&& forall|k: int|
                pre.pos <= k < post.tok_start ==> is_space_c(#[trigger] post.input[k])
            &&& token_represents(
                t,
                post.input.subrange(post.tok_start as int, post.pos as int),
            )
            &&& token_maximal(t, post.input, post.pos as int)
            &&& (t matches Token::STRING_PART(_) ==> pre.state == STATE_STRING)
            &&& (pre.state == STATE_STRING ==> (t matches Token::STRING_PART(_) || t
                == Token::STRING_QUOTE || t == Token::DOLLAR_CURLY))
            &&& (pre.state != STATE_STRING && !(t matches Token::PATH(_))
                ==> !path_starts_at(post.input, post.tok_start as int))
            &&& (t matches Token::PATH(_) ==> pre.state != STATE_STRING && path_starts_at(
                post.input,
                post.tok_start as int,
            ))
            &&& (t matches Token::STRING_PART(_) ==> post.pos == part_run_end(
                post.input,
                post.tok_start as int,
            ))
        },
        Err(e) => if e == Error::EOF {
            post.pos == post.input.len() && (forall|k: int|
                pre.pos <= k < post.input.len() ==> is_space_c(#[trigger] post.input[k]))
        } else {
            post.tok_start < post.input.len() && (forall|k: int|
                pre.pos <= k < post.tok_start ==> is_space_c(#[trigger] post.input[k]))
                && unmatchable_at(post.input, post.tok_start as int)
        },
    }
}

/// The value a digit run denotes is never negative.
proof fn lemma_digits_value_nonneg(s: Seq<char>)
    requires
        all_digits(s),
    ensures
        digits_value(s) >= 0,
    decreases s.len(),
{
    if s.len() > 0 {
        assert(all_digits(s.drop_last())) by {
            assert(forall|i: int|
                0 <= i < s.drop_last().len() ==> s.drop_last()[i] == s[i] && is_digit_c(
                    #[trigger] s.drop_last()[i],
                ));
        }
        lemma_digits_value_nonneg(s.drop_last());
        assert(s.last() as int >= 48);
    }
}

/// Extending a digit run never shrinks its value.
proof fn lemma_digits_value_extend_ge(s: Seq<char>, k: int)
    requires
        all_digits(s),
        0 <= k <= s.len(),
    ensures
        digits_value(s) >= digits_value(s.subrange(0, k)),
    decreases s.len() - k,
{
    if k == s.len() {
        assert(s.subrange(0, k) =~= s);
    } else {
        let t = s.drop_last();
        assert(all_digits(t)) by {
            assert(forall|i: int|
                0 <= i < t.len() ==> t[i] == s[i] && is_digit_c(#[trigger] t[i]));
        }
        lemma_digits_value_extend_ge(t, k);
        assert(t.subrange(0, k) =~= s.subrange(0, k));
        lemma_digits_value_nonneg(t);
        assert(s.last() as int >= 48);
        assert(digits_value(s) == digits_value(t) * 10 + (s.last() as int - 48));
        assert(digits_value(s) >= digits_value(t));
    }
}

/// The spellings reserved for keywords: an identifier token never carries
/// one of them.
pub open spec fn is_keyword_spelling(s: Seq<char>) -> bool {
    ||| s == "if"@
    ||| s == "then"@
    ||| s == "else"@
    ||| s == "assert"@
    ||| s == "with"@
    ||| s == "let"@
    ||| s == "in"@
    ||| s == "rec"@
    ||| s == "inherit"@
    ||| s == "or"@
}

/// What each token kind promises about the slice of input it was scanned
/// from: literal-carrying tokens carry exactly that slice (an integer
/// carries its value), fixed tokens stand for their exact spelling.
pub open spec fn token_represents(t: Token, s: Seq<char>) -> bool {
    match t {
        Token::INT(v) => s.len() > 0 && all_digits(s) && v as int == digits_value(s),
        Token::FLOAT(x) => x@ == s && s.len() >= 3 && (exists|k: int|
            0 < k < s.len() - 1 && s[k] == '.' && (forall|i: int|
                0 <= i < s.len() && i != k ==> is_digit_c(#[trigger] s[i]))),
        Token::ID(x) => x@ == s && s.len() > 0 && is_id_start_c(s[0]) && (forall|i: int|
            0 <= i < s.len() ==> is_id_c(#[trigger] s[i])) && !is_keyword_spelling(s),
        Token::PATH(x) => x@ == s && (exists|k: int| 0 <= k < s.len() && s[k] == '/'),
        Token::STRING_QUOTE => s == seq!['"'],
        Token::STRING_PART(x) => x@ == s,
        Token::DOLLAR_CURLY => s == seq!['$', '{'],
        Token::OPEN_CURLY => s == seq!['{'],
        Token::CLOSE_CURLY => s == seq!['}'],
        Token::OPEN_PAREN => s == seq!['('],
        Token::CLOSE_PAREN => s == seq![')'],
        Token::OPEN_BRACKET => s == seq!['['],
        Token::CLOSE_BRACKET => s == seq![']'],
        Token::COMMA => s == seq![','],
        Token::COLON => s == seq![':'],
        Token::SEMICOLON => s == seq![';'],
        Token::ASSIGN => s == seq!['='],
        Token::DOT => s == seq!['.'],
        Token::QUESTION => s == seq!['?'],
        Token::AT => s == seq!['@'],
        Token::ELLIPSIS => s == seq!['.', '.', '.'],
        Token::IF => s == "if"@,
        Token::THEN => s == "then"@,
        Token::ELSE => s == "else"@,
        Token::ASSERT => s == "assert"@,
        Token::WITH => s == "with"@,
        Token::LET => s == "let"@,
        Token::IN => s == "in"@,
        Token::REC => s == "rec"@,
        Token::INHERIT => s == "inherit"@,
        Token::OR_KW => s == "or"@,
        Token::PLUS => s == seq!['+'],
        Token::MINUS => s == seq!['-'],
        Token::MULT => s == seq!['*'],
        Token::DIV => s == seq!['/'],
        Token::UPDATE => s == seq!['/', '/'],
        Token::CONCAT => s == seq!['+', '+'],
        Token::EQ => s == seq!['=', '='],
        Token::NEQ => s == seq!['!', '='],
        Token::LT => s == seq!['<'],
        Token::GT => s == seq!['>'],
        Token::LEQ => s == seq!['<', '='],
        Token::GEQ => s == seq!['>', '='],
        Token::AND => s == seq!['&', '&'],
        Token::OR => s == seq!['|', '|'],
        Token::IMPL => s == seq!['-', '>'],
        Token::NOT => s == seq!['!'],
    }
}

fn is_digit(c: char) -> (r: bool)
    ensures
        r == is_digit_c(c),
{
    let u = c as u32;
    48 <= u && u <= 57
}

fn is_id_start(c: char) -> (r: bool)
    ensures
        r == is_id_start_c(c),
{
    let u = c as u32;
    (65 <= u && u <= 90) || (97 <= u && u <= 122) || c == '_'
}

fn is_id_char(c: char) -> (r: bool)
    ensures
        r == is_id_c(c),
{
    is_id_start(c) || is_digit(c) || c == '\'' || c == '-'
}

fn is_path_char(c: char) -> (r: bool)
    ensures
        r == is_path_c(c),
{
    is_id_start(c) || is_digit(c) || c == '.' || c == '+' || c == '-'
}

fn is_space(c: char) -> (r: bool)
    ensures
        r == is_space_c(c),
{
    c == ' ' || c == '\t' || c == '\n' || c == '\r'
}

/// Whether an identifier's text equals the given keyword spelling.
fn word_is(s: &String, lit: &str) -> (r: bool)
    ensures
        r == (s@ == lit@),
{
    let l = String::from_str(lit);
    let r = *s == l;
    proof {
        if s@ == l@ {
            assert(s@ == lit@);
        }
    }
    r
}

impl Lexer {
    /// The scanner is never past the end of its input, the last token never
    /// ends before it starts, and no more lines were seen than characters.
    pub open spec fn wf(&self) -> bool {
        self@.pos <= self@.input.len() && self@.tok_start <= self@.pos && self@.lineno
            <= self@.pos
    }

    /// A fresh scanner over the given text, with the given mode stack and
    /// initial mode.
    pub fn new(input: &str, states: Vec<usize>, start_state: usize) -> (l: Lexer)
        ensures
            l.wf(),
            l@.input == input@,
            l@.pos == 0,
            l@.tok_start == 0,
            l@.lineno == 0,
            l@.state == start_state,
            l@.states == states@,
    {
        Lexer {
            input: String::from_str(input),
            pos: 0,
            tok_start: 0,
            lineno: 0,
            state: start_state,
            states,
        }
    }

    /// The character at position `i`.
    fn ch(&self, i: usize) -> (c: char)
        requires
            i < self@.input.len(),
        ensures
            c == self@.input[i as int],
    {
        self.input.as_str().get_char(i)
    }

    /// The text between two character positions.
    fn take(&self, a: usize, b: usize) -> (s: String)
        requires
            a <= b <= self@.input.len(),
        ensures
            s@ == self@.input.subrange(a as int, b as int),
    {
        let sub = self.input.as_str().substring_char(a, b);
        String::from_str(sub)
    }

    /// The length, in characters, of the token scanned last.
    pub fn yylength(&self) -> (r: usize)
        requires
            self.wf(),
        ensures
            r == self@.pos - self@.tok_start,
    {
        self.pos - self.tok_start
    }

    /// The position bookkeeping reported with errors and spans:
    /// (line number, token start, token start, position).
    pub fn error_state(&self) -> (r: (usize, usize, usize, usize))
        ensures
            r == (self@.lineno, self@.tok_start, self@.tok_start, self@.pos),
    {
        (self.lineno, self.tok_start, self.tok_start, self.pos)
    }

    /// Advance over whitespace, counting line breaks.
    fn skip_space(&mut self, n: usize)
        requires
            old(self).wf(),
            n == old(self)@.input.len(),
        ensures
            final(self).wf(),
            final(self)@.input == old(self)@.input,
            final(self)@.state == old(self)@.state,
            final(self)@.states == old(self)@.states,
            final(self)@.tok_start == old(self)@.tok_start,
            old(self)@.pos <= final(self)@.pos <= n,
            final(self)@.pos < n ==> !is_space_c(final(self)@.input[final(self)@.pos as int]),
            forall|k: int|
                old(self)@.pos <= k < final(self)@.pos ==> is_space_c(
                    #[trigger] final(self)@.input[k],
                ),
    {
        loop
            invariant
                self.wf(),
                self@.input == old(self)@.input,
                n == self@.input.len(),
                self@.state == old(self)@.state,
                self@.states == old(self)@.states,
                self@.tok_start == old(self)@.tok_start,
                old(self)@.pos <= self@.pos <= n,
                forall|k: int|
                    old(self)@.pos <= k < self@.pos ==> is_space_c(#[trigger] self@.input[k]),
            ensures
                self@.pos < n ==> !is_space_c(self@.input[self@.pos as int]),
            decreases n - self@.pos,
        {
            if self.pos >= n {
                break ;
            }
            let c = self.ch(self.pos);
            if !is_space(c) {
                break ;
            }
            if c == '\n' {
                self.lineno = self.lineno + 1;
            }
            self.pos = self.pos + 1;
        }
    }

    /// The end of the run of decimal digits starting at `from`.
    fn scan_digit_end(&self, from: usize, n: usize) -> (j: usize)
        requires
            n == self@.input.len(),
            from <= n,
        ensures
            from <= j <= n,
            forall|i: int| from <= i < j ==> is_digit_c(#[trigger] self@.input[i]),
            from < n && is_digit_c(self@.input[from as int]) ==> from < j,
            j == digit_run_end(self@.input, from as int),
            j < n ==> !is_digit_c(self@.input[j as int]),
    {
        let mut j = from;
        loop
            invariant
                from <= j <= n,
                n == self@.input.len(),
                forall|i: int| from <= i < j ==> is_digit_c(#[trigger] self@.input[i]),
                digit_run_end(self@.input, from as int) == digit_run_end(
                    self@.input,
                    j as int,
                ),
            ensures
                from <= j <= n,
                forall|i: int| from <= i < j ==> is_digit_c(#[trigger] self@.input[i]),
                j < n ==> !is_digit_c(self@.input[j as int]),
                j == digit_run_end(self@.input, from as int),
            decreases n - j,
        {
            if j >= n {
                break ;
            }
            if !is_digit(self.ch(j)) {
                break ;
            }
            j = j + 1;
        }
        j
    }

    /// The end of the run of path characters starting at `from`.
    fn scan_path_end(&self, from: usize, n: usize) -> (j: usize)
        requires
            n == self@.input.len(),
            from <= n,
        ensures
            from <= j <= n,
            from < n && is_path_c(self@.input[from as int]) ==> from < j,
            j == path_run_end(self@.input, from as int),
            j < n ==> !is_path_c(self@.input[j as int]),
    {
        let mut j = from;
        loop
            invariant
                from <= j <= n,
                n == self@.input.len(),
                path_run_end(self@.input, from as int) == path_run_end(self@.input, j as int),
            ensures
                from <= j <= n,
                j < n ==> !is_path_c(self@.input[j as int]),
                j == path_run_end(self@.input, from as int),
            decreases n - j,
        {
            if j >= n {
                break ;
            }
            if !is_path_char(self.ch(j)) {
                break ;
            }
            j = j + 1;
        }
        j
    }

    /// The end of the path literal starting at `start` — segments of path
    /// characters joined by slashes, with at least one slash-joined segment
    /// — or `start` itself when no path literal starts there.
    fn path_token_end(&self, start: usize, n: usize) -> (j: usize)
        requires
            n == self@.input.len(),
            start < n,
        ensures
            start <= j <= n,
            j == start ==> !path_starts_at(self@.input, start as int),
            j > start ==> path_starts_at(self@.input, start as int),
            j > start ==> exists|k: int| start <= k < j && #[trigger] self@.input[k] == '/',
            j > start ==> (j >= n || (!is_path_c(self@.input[j as int]) && (self@.input[j as int]
                != '/' || j + 1 >= n || !is_path_c(self@.input[j as int + 1])))),
    {
        let pre = self.scan_path_end(start, n);
        let mut j = pre;
        let mut reps: usize = 0;
        loop
            invariant
                start <= pre <= j <= n,
                n == self@.input.len(),
                pre == path_run_end(self@.input, start as int),
                reps <= j,
                reps == 0 ==> j == pre,
                reps > 0 ==> j > start,
                reps > 0 ==> path_starts_at(self@.input, start as int),
                reps > 0 ==> exists|k: int|
                    start <= k < j && #[trigger] self@.input[k] == '/',
                j < n ==> !is_path_c(self@.input[j as int]),
            ensures
                start <= pre <= j <= n,
                reps == 0 ==> j == pre,
                reps > 0 ==> j > start,
                reps > 0 ==> path_starts_at(self@.input, start as int),
                reps > 0 ==> exists|k: int|
                    start <= k < j && #[trigger] self@.input[k] == '/',
                j < n ==> !is_path_c(self@.input[j as int]),
                j >= n || self@.input[j as int] != '/' || j + 1 >= n || !is_path_c(
                    self@.input[j as int + 1],
                ),
            decreases n - j,
        {
            if j >= n {
                break ;
            }
            if self.ch(j) != '/' {
                break ;
            }
            if j + 1 >= n {
                break ;
            }
            if !is_path_char(self.ch(j + 1)) {
                break ;
            }
            let ghost slash = j as int;
            j = self.scan_path_end(j + 1, n);
            reps = reps + 1;
            proof {
                assert(start <= slash < j && self@.input[slash] == '/');
            }
        }
        if reps > 0 {
            j
        } else {
            proof {
                assert(path_run_end(self@.input, start as int) == pre);
                assert(!path_starts_at(self@.input, start as int));
            }
            start
        }
    }

    /// The end of the run of identifier characters starting at `from`.
    fn scan_id_end(&self, from: usize, n: usize) -> (j: usize)
        requires
            n == self@.input.len(),
            from <= n,
        ensures
            from <= j <= n,
            from < n && is_id_c(self@.input[from as int]) ==> from < j,
            j < n ==> !is_id_c(self@.input[j as int]),
            forall|i: int| from <= i < j ==> is_id_c(#[trigger] self@.input[i]),
    {
        let mut j = from;
        loop
            invariant
                from <= j <= n,
                n == self@.input.len(),
                forall|i: int| from <= i < j ==> is_id_c(#[trigger] self@.input[i]),
            ensures
                from <= j <= n,
                j < n ==> !is_id_c(self@.input[j as int]),
                forall|i: int| from <= i < j ==> is_id_c(#[trigger] self@.input[i]),
            decreases n - j,
        {
            if j >= n {
                break ;
            }
            if !is_id_char(self.ch(j)) {
                break ;
            }
            j = j + 1;
        }
        j
    }

    /// The number of line breaks between two positions.
    fn count_newlines(&self, a: usize, b: usize) -> (nl: usize)
        requires
            a <= b <= self@.input.len(),
        ensures
            nl <= b - a,
    {
        let mut nl: usize = 0;
        let mut j = a;
        loop
            invariant
                a <= j <= b <= self@.input.len(),
                nl <= j - a,
            ensures
                nl <= b - a,
            decreases b - j,
        {
            if j >= b {
                break ;
            }
            if self.ch(j) == '\n' {
                nl = nl + 1;
            }
            j = j + 1;
        }
        nl
    }

    /// The value of the digit run between `a` and `b`, or nothing on
    /// overflow.
    fn int_value(&self, a: usize, b: usize) -> (r: Option<i64>)
        requires
            a <= b <= self@.input.len(),
            forall|i: int| a <= i < b ==> is_digit_c(#[trigger] self@.input[i]),
        ensures
            r matches Some(v) ==> v as int == digits_value(
                self@.input.subrange(a as int, b as int),
            ),
            r is None ==> digits_value(self@.input.subrange(a as int, b as int)) > i64::MAX,
    {
        let ghost whole = self@.input.subrange(a as int, b as int);
        proof {
            assert(all_digits(whole)) by {
                assert(forall|i: int|
                    0 <= i < whole.len() ==> whole[i] == self@.input[a + i] && is_digit_c(
                        #[trigger] whole[i],
                    ));
            }
        }
        let mut v: i64 = 0;
        let mut j = a;
        loop
            invariant
                a <= j <= b <= self@.input.len(),
                forall|i: int| a <= i < b ==> is_digit_c(#[trigger] self@.input[i]),
                whole == self@.input.subrange(a as int, b as int),
                all_digits(whole),
                v >= 0,
                v as int == digits_value(self@.input.subrange(a as int, j as int)),
            ensures
                j == b,
                v >= 0,
                v as int == digits_value(self@.input.subrange(a as int, b as int)),
            decreases b - j,
        {
            if j >= b {
                break ;
            }
            let c = self.ch(j);
            proof {
                assert(is_digit_c(c));
            }
            let d = (c as u32 - 48) as i64;
            proof {
                let pre1 = self@.input.subrange(a as int, j as int + 1);
                assert(pre1.drop_last() =~= self@.input.subrange(a as int, j as int));
                assert(pre1.last() == c);
                assert(digits_value(pre1) == v as int * 10 + (c as int - 48));
                assert(pre1 =~= whole.subrange(0, j + 1 - a));
            }
            let v10 = match v.checked_mul(10) {
                Some(x) => x,
                None => {
                    proof {
                        let pre1 = self@.input.subrange(a as int, j as int + 1);
                        assert(digits_value(pre1) > i64::MAX);
                        lemma_digits_value_extend_ge(whole, j + 1 - a);
                    }
                    return None;
                },
            };
            let v2 = match v10.checked_add(d) {
                Some(y) => y,
                None => {
                    proof {
                        let pre1 = self@.input.subrange(a as int, j as int + 1);
                        assert(digits_value(pre1) > i64::MAX);
                        lemma_digits_value_extend_ge(whole, j + 1 - a);
                    }
                    return None;
                },
            };
            proof {
                let pre = self@.input.subrange(a as int, j as int);
                let ext = self@.input.subrange(a as int, j as int + 1);
                assert(ext.drop_last() =~= pre);
                assert(ext.last() == c);
            }
            v = v2;
            j = j + 1;
        }
        Some(v)
    }

    /// One token scanned in string mode: a closing quote, the opening of an
    /// interpolation, or a maximal string part (a backslash carries the
    /// following character verbatim).
    fn lex_string(&mut self) -> (r: Result<Token, Error>)
        requires
            old(self).wf(),
            old(self)@.state == STATE_STRING,
        ensures
            final(self).wf(),
            scan_post(old(self)@, final(self)@, r),
    {
        let n = self.input.as_str().unicode_len();
        self.tok_start = self.pos;
        if self.pos >= n {
            return Err(Error::EOF);
        }
        let start = self.pos;
        let c = self.ch(start);
        if c == '"' {
            self.pos = start + 1;
            self.state = STATE_NORMAL;
            proof {
                assert(self@.input.subrange(start as int, start as int + 1) =~= seq!['"']);
            }
            return Ok(Token::STRING_QUOTE);
        }
        if c == '$' && start + 1 < n {
            if self.ch(start + 1) == '{' {
                self.pos = start + 2;
                self.states.push(STATE_STRING);
                self.state = STATE_NORMAL;
                proof {
                    assert(self@.input.subrange(start as int, start as int + 2) =~= seq![
                        '$',
                        '{',
                    ]);
                }
                return Ok(Token::DOLLAR_CURLY);
            }
        }
        let j = self.string_part_end(start, n);
        let nl = self.count_newlines(start, j);
        let s = self.take(start, j);
        self.lineno = self.lineno + nl;
        self.pos = j;
        Ok(Token::STRING_PART(s))
    }

    /// The end of the string part starting at `from`: everything up to the
    /// closing quote or the next interpolation, a backslash carrying the
    /// following character verbatim.
    fn string_part_end(&self, from: usize, n: usize) -> (j: usize)
        requires
            n == self@.input.len(),
            from < n,
            self@.input[from as int] != '"',
            !(self@.input[from as int] == '$' && from + 1 < n && self@.input[from as int + 1]
                == '{'),
        ensures
            from < j <= n,
            j < n ==> self@.input[j as int] == '"' || (self@.input[j as int] == '$' && j + 1 < n
                && self@.input[j as int + 1] == '{'),
            j == part_run_end(self@.input, from as int),
    {
        let c0 = self.ch(from);
        let mut j: usize = if c0 == '\\' && from + 1 < n {
            from + 2
        } else {
            from + 1
        };
        loop
            invariant
                from < j <= n,
                n == self@.input.len(),
                part_run_end(self@.input, from as int) == part_run_end(self@.input, j as int),
            ensures
                from < j <= n,
                j < n ==> self@.input[j as int] == '"' || (self@.input[j as int] == '$' && j + 1
                    < n && self@.input[j as int + 1] == '{'),
                j == part_run_end(self@.input, from as int),
            decreases n - j,
        {
            if j >= n {
                break ;
            }
            let c = self.ch(j);
            if c == '"' {
                break ;
            }
            if c == '$' && j + 1 < n {
                if self.ch(j + 1) == '{' {
                    break ;
                }
            }
            if c == '\\' && j + 1 < n {
                j = j + 2;
            } else {
                j = j + 1;
            }
        }
        j
    }

    /// One token scanned in normal mode: paths, numbers, identifiers and
    /// keywords, string openings, interpolation braces, operators and
    /// punctuation, after skipping whitespace.
    fn lex_normal(&mut self) -> (r: Result<Token, Error>)
        requires
            old(self).wf(),
            old(self)@.state != STATE_STRING,
        ensures
            final(self).wf(),
            scan_post(old(self)@, final(self)@, r),
    {
        let n = self.input.as_str().unicode_len();
        self.skip_space(n);
        self.tok_start = self.pos;
        if self.pos >= n {
            return Err(Error::EOF);
        }
        let start = self.pos;
        let c = self.ch(start);

        // A path literal takes precedence over every other reading of its
        // first character.
        let pend = self.path_token_end(start, n);
        if pend > start {
            let s = self.take(start, pend);
            self.pos = pend;
            proof {
                let sl = self@.input.subrange(start as int, pend as int);
                let k = choose|k: int|
                    start <= k < pend && #[trigger] self@.input[k] == '/';
                assert(sl[k - start] == '/');
            }
            return Ok(Token::PATH(s));
        }
        // From here on no path literal starts at the token position.

        // A number: an integer, or a float carried as its literal text.
        if is_digit(c) {
            let dend = self.scan_digit_end(start, n);
            if dend < n {
                let mut is_float = false;
                if self.ch(dend) == '.' && dend + 1 < n {
                    if is_digit(self.ch(dend + 1)) {
                        is_float = true;
                    }
                }
                if is_float {
                    let fend = self.scan_digit_end(dend + 1, n);
                    let s = self.take(start, fend);
                    self.pos = fend;
                    proof {
                        let sl = self@.input.subrange(start as int, fend as int);
                        assert(sl[0] == self@.input[start as int]);
                        assert(sl[sl.len() - 1] == self@.input[fend - 1]);
                        assert(sl[dend - start] == '.');
                        assert(0 < dend - start < sl.len() - 1);
                    }
                    return Ok(Token::FLOAT(s));
                }
            }
            match self.int_value(start, dend) {
                Some(v) => {
                    self.pos = dend;
                    return Ok(Token::INT(v));
                },
                None => {
                    self.pos = dend;
                    return Err(Error::Unmatch);
                },
            }
        }

        // An identifier or a keyword.
        if is_id_start(c) {
            let iend = self.scan_id_end(start, n);
            let s = self.take(start, iend);
            self.pos = iend;
            if word_is(&s, "if") {
                return Ok(Token::IF);
            }
            if word_is(&s, "then") {
                return Ok(Token::THEN);
            }
            if word_is(&s, "else") {
                return Ok(Token::ELSE);
            }
            if word_is(&s, "assert") {
                return Ok(Token::ASSERT);
            }
            if word_is(&s, "with") {
                return Ok(Token::WITH);
            }
            if word_is(&s, "let") {
                return Ok(Token::LET);
            }
            if word_is(&s, "in") {
                return Ok(Token::IN);
            }
            if word_is(&s, "rec") {
                return Ok(Token::REC);
            }
            if word_is(&s, "inherit") {
                return Ok(Token::INHERIT);
            }
            if word_is(&s, "or") {
                return Ok(Token::OR_KW);
            }
            return Ok(Token::ID(s));
        }

        // A string opening: switch to string mode.
        if c == '"' {
            self.pos = start + 1;
            self.state = STATE_STRING;
            proof {
                assert(self@.input.subrange(start as int, start as int + 1) =~= seq!['"']);
            }
            return Ok(Token::STRING_QUOTE);
        }

        // Interpolation and braces: remember which mode each pending `}`
        // returns to.
        if c == '$' && start + 1 < n {
            if self.ch(start + 1) == '{' {
                self.pos = start + 2;
                self.states.push(STATE_NORMAL);
                proof {
                    assert(self@.input.subrange(start as int, start as int + 2) =~= seq![
                        '$',
                        '{',
                    ]);
                    assert(self@.states =~= old(self)@.states.push(STATE_NORMAL));
                }
                return Ok(Token::DOLLAR_CURLY);
            }
        }
        if c == '{' {
            self.pos = start + 1;
            self.states.push(STATE_NORMAL);
            proof {
                assert(self@.input.subrange(start as int, start as int + 1) =~= seq!['{']);
            }
            return Ok(Token::OPEN_CURLY);
        }
        if c == '}' {
            self.pos = start + 1;
            match self.states.pop() {
                Some(v) => {
                    self.state = v;
                },
                None => {
                    self.state = STATE_NORMAL;
                },
            }
            proof {
                assert(self@.input.subrange(start as int, start as int + 1) =~= seq!['}']);
            }
            return Ok(Token::CLOSE_CURLY);
        }

        // Operators and punctuation, longest spelling first.
        let c2: char = if start + 1 < n {
            self.ch(start + 1)
        } else {
            ' '
        };
        let has2 = start + 1 < n;
        if c == '.' {
            if has2 && c2 == '.' && start + 2 < n {
                if self.ch(start + 2) == '.' {
                    self.pos = start + 3;
                    proof {
                        assert(self@.input.subrange(start as int, start as int + 3) =~= seq![
                            '.',
                            '.',
                            '.',
                        ]);
                    }
                    return Ok(Token::ELLIPSIS);
                }
            }
            self.pos = start + 1;
            proof {
                assert(self@.input.subrange(start as int, start as int + 1) =~= seq!['.']);
            }
            return Ok(Token::DOT);
        }
        if c == '/' {
            if has2 && c2 == '/' {
                self.pos = start + 2;
                proof {
                    assert(self@.input.subrange(start as int, start as int + 2) =~= seq![
                        '/',
                        '/',
                    ]);
                }
                return Ok(Token::UPDATE);
            }
            self.pos = start + 1;
            proof {
                assert(self@.input.subrange(start as int, start as int + 1) =~= seq!['/']);
            }
            return Ok(Token::DIV);
        }
        if c == '+' {
            if has2 && c2 == '+' {
                self.pos = start + 2;
                proof {
                    assert(self@.input.subrange(start as int, start as int + 2) =~= seq![
                        '+',
                        '+',
                    ]);
                }
                return Ok(Token::CONCAT);
            }
            self.pos = start + 1;
            proof {
                assert(self@.input.subrange(start as int, start as int + 1) =~= seq!['+']);
            }
            return Ok(Token::PLUS);
        }
        if c == '-' {
            if has2 && c2 == '>' {
                self.pos = start + 2;
                proof {
                    assert(self@.input.subrange(start as int, start as int + 2) =~= seq![
                        '-',
                        '>',
                    ]);
                }
                return Ok(Token::IMPL);
            }
            self.pos = start + 1;
            proof {
                assert(self@.input.subrange(start as int, start as int + 1) =~= seq!['-']);
            }
            return Ok(Token::MINUS);
        }
        if c == '=' {
            if has2 && c2 == '=' {
                self.pos = start + 2;
                proof {
                    assert(self@.input.subrange(start as int, start as int + 2) =~= seq![
                        '=',
                        '=',
                    ]);
                }
                return Ok(Token::EQ);
            }
            self.pos = start + 1;
            proof {
                assert(self@.input.subrange(start as int, start as int + 1) =~= seq!['=']);
            }
            return Ok(Token::ASSIGN);
        }
        if c == '!' {
            if has2 && c2 == '=' {
                self.pos = start + 2;
                proof {
                    assert(self@.input.subrange(start as int, start as int + 2) =~= seq![
                        '!',
                        '=',
                    ]);
                }
                return Ok(Token::NEQ);
            }
            self.pos = start + 1;
            proof {
                assert(self@.input.subrange(start as int, start as int + 1) =~= seq!['!']);
            }
            return Ok(Token::NOT);
        }
        if c == '<' {
            if has2 && c2 == '=' {
                self.pos = start + 2;
                proof {
                    assert(self@.input.subrange(start as int, start as int + 2) =~= seq![
                        '<',
                        '=',
                    ]);
                }
                return Ok(Token::LEQ);
            }
            self.pos = start + 1;
            proof {
                assert(self@.input.subrange(start as int, start as int + 1) =~= seq!['<']);
            }
            return Ok(Token::LT);
        }
        if c == '>' {
            if has2 && c2 == '=' {
                self.pos = start + 2;
                proof {
                    assert(self@.input.subrange(start as int, start as int + 2) =~= seq![
                        '>',
                        '=',
                    ]);
                }
                return Ok(Token::GEQ);
            }
            self.pos = start + 1;
            proof {
                assert(self@.input.subrange(start as int, start as int + 1) =~= seq!['>']);
            }
            return Ok(Token::GT);
        }
        if c == '&' && has2 && c2 == '&' {
            self.pos = start + 2;
            proof {
                assert(self@.input.subrange(start as int, start as int + 2) =~= seq!['&', '&']);
            }
            return Ok(Token::AND);
        }
        if c == '|' && has2 && c2 == '|' {
            self.pos = start + 2;
            proof {
                assert(self@.input.subrange(start as int, start as int + 2) =~= seq!['|', '|']);
            }
            return Ok(Token::OR);
        }
        if c == '*' || c == '(' || c == ')' || c == '[' || c == ']' || c == ',' || c == ';' || c
            == ':' || c == '?' || c == '@' {
            self.pos = start + 1;
            proof {
                assert(self@.input.subrange(start as int, start as int + 1) =~= seq![c]);
            }
            if c == '*' {
                return Ok(Token::MULT);
            }
            if c == '(' {
                return Ok(Token::OPEN_PAREN);
            }
            if c == ')' {
                return Ok(Token::CLOSE_PAREN);
            }
            if c == '[' {
                return Ok(Token::OPEN_BRACKET);
            }
            if c == ']' {
                return Ok(Token::CLOSE_BRACKET);
            }
            if c == ',' {
                return Ok(Token::COMMA);
            }
            if c == ';' {
                return Ok(Token::SEMICOLON);
            }
            if c == ':' {
                return Ok(Token::COLON);
            }
            if c == '?' {
                return Ok(Token::QUESTION);
            }
            return Ok(Token::AT);
        }
        Err(Error::Unmatch)
    }

    /// One token: string mode or normal mode, as the current state says.
    pub fn yylex(&mut self) -> (r: Result<Token, Error>)
        requires
            old(self).wf(),
        ensures
            final(self).wf(),
            scan_post(old(self)@, final(self)@, r),
    {
        if self.state == STATE_STRING {
            self.lex_string()
        } else {
            self.lex_normal()
        }
    }

    /// One span of the token stream: `(line number, token, end offset)`, a
    /// positioned lexical error, or nothing at the end of the input.
    pub fn next(&mut self) -> (r: Option<Result<(usize, Token, usize), LexicalError>>)
        requires
            old(self).wf(),
        ensures
            final(self).wf(),
            scan_post(
                old(self)@,
                final(self)@,
                match r {
                    None => Err(Error::EOF),
                    Some(item) => match item {
                        Ok(sp) => Ok(sp.1),
                        Err(_) => Err(Error::Unmatch),
                    },
                },
            ),
            match r {
                None => true,
                Some(item) => match item {
                    Ok(sp) => sp.0 == final(self)@.lineno && sp.2 == final(self)@.pos,
                    Err(err) => err == (LexicalError::NotGood(
                        (
                            final(self)@.lineno,
                            final(self)@.tok_start,
                            final(self)@.tok_start,
                            final(self)@.pos,
                        ),
                    )),
                },
            },
    {
        match self.yylex() {
            Ok(next_item) => {
                let es = self.error_state();
                Some(Ok((es.0, next_item, es.3)))
            },
            Err(Error::EOF) => None,
            Err(Error::Unmatch) => Some(Err(LexicalError::NotGood(self.error_state()))),
        }
    }
}

} // verus!


