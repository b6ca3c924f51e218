use vstd::prelude::*;
use crate::error::SaturdayResult;
use crate::object::Object;
use crate::text::{characters, collect, is_word};
use crate::token::Token;
use crate::token_type::TokenType;

verus! {

/// A decimal digit.
pub open spec fn is_digit(c: char) -> bool {
    '0' <= c && c <= '9'
}

/// A letter of the Latin alphabet or the underscore.
pub open spec fn is_alpha(c: char) -> bool {
    ('a' <= c && c <= 'z') || ('A' <= c && c <= 'Z') || c == '_'
}

/// A letter, a digit or the underscore.
pub open spec fn is_alpha_numeric(c: char) -> bool {
    is_alpha(c) || is_digit(c)
}

/// The first position at or after `i` that holds no digit.
pub open spec fn digits_end(s: Seq<char>, i: int) -> int
    decreases s.len() - i,
{
    if 0 <= i < s.len() && is_digit(s[i]) {
        digits_end(s, i + 1)
    } else {
        i
    }
}

/// The first position at or after `i` that holds neither a letter, a digit nor an underscore.
pub open spec fn word_end(s: Seq<char>, i: int) -> int
    decreases s.len() - i,
{
    if 0 <= i < s.len() && is_alpha_numeric(s[i]) {
        word_end(s, i + 1)
    } else {
        i
    }
}

/// The first position at or after `i` that holds `stop`, or the end of the source.
pub open spec fn find(s: Seq<char>, i: int, stop: char) -> int
    decreases s.len() - i,
{
    if 0 <= i < s.len() && s[i] != stop {
        find(s, i + 1, stop)
    } else {
        i
    }
}

/// Where a number that starts at `i` ends: digits, and a fraction if a dot
/// with a digit behind it follows them.
pub open spec fn number_end(s: Seq<char>, i: int) -> int {
    let d = digits_end(s, i);
    if d + 1 < s.len() && s[d] == '.' && is_digit(s[d + 1]) {
        digits_end(s, d + 1)
    } else {
        d
    }
}

/// Where the block comment ends whose inside starts at `i`, with `depth`
/// further comments open around that position; `None` if the source ends
/// before every one of them is closed.
pub open spec fn comment_end(s: Seq<char>, i: int, depth: nat) -> Option<int>
    decreases s.len() - i,
{
    if i < 0 || i >= s.len() {
        None
    } else if s[i] == '*' && i + 1 < s.len() && s[i + 1] == '/' {
        if depth == 0 {
            Some(i + 2)
        } else {
            comment_end(s, i + 2, (depth - 1) as nat)
        }
    } else if s[i] == '/' && i + 1 < s.len() && s[i + 1] == '*' {
        comment_end(s, i + 2, depth + 1)
    } else {
        comment_end(s, i + 1, depth)
    }
}

/// The number of line breaks in `s` from `from` up to `to`.
pub open spec fn newlines(s: Seq<char>, from: int, to: int) -> nat
    decreases to - from,
{
    if from >= to || to > s.len() || from < 0 {
        0
    } else {
        newlines(s, from, to - 1) + if s[to - 1] == '\n' {
            1nat
        } else {
            0nat
        }
    }
}

/// The line of position `i`: lines are counted from 1.
pub open spec fn line_of(s: Seq<char>, i: int) -> int {
    1 + newlines(s, 0, i) as int
}

/// The kind of a reserved word, `None` for every other text.
pub open spec fn keyword(text: Seq<char>) -> Option<TokenType> {
    if text == "and"@ {
        Some(TokenType::And)
    } else if text == "class"@ {
        Some(TokenType::Class)
    } else if text == "else"@ {
        Some(TokenType::Else)
    } else if text == "false"@ {
        Some(TokenType::False)
    } else if text == "for"@ {
        Some(TokenType::For)
    } else if text == "fun"@ {
        Some(TokenType::Fun)
    } else if text == "if"@ {
        Some(TokenType::If)
    } else if text == "nil"@ {
        Some(TokenType::Nil)
    } else if text == "or"@ {
        Some(TokenType::Or)
    } else if text == "print"@ {
        Some(TokenType::Print)
    } else if text == "return"@ {
        Some(TokenType::Return)
    } else if text == "super"@ {
        Some(TokenType::Super)
    } else if text == "this"@ {
        Some(TokenType::This)
    } else if text == "true"@ {
        Some(TokenType::True)
    } else if text == "var"@ {
        Some(TokenType::Var)
    } else if text == "while"@ {
        Some(TokenType::While)
    } else if text == "def"@ {
        Some(TokenType::Def)
    } else if text == "break"@ {
        Some(TokenType::Break)
    } else {
        None
    }
}

/// An error of the scanner: its line and its message.
pub struct Fault {
    pub line: int,
    pub message: Seq<char>,
}

/// What the scanner makes of the source at one position: where it goes on,
/// the kind of the token that lies between, if there is one, and the error,
/// if there is one.
pub struct Step {
    pub end: int,
    pub kind: Option<TokenType>,
    pub fault: Option<Fault>,
}

/// A token as a slice of the source: its kind, where it starts and ends, and
/// the line on which it starts.
pub struct Lexeme {
    pub kind: TokenType,
    pub start: int,
    pub end: int,
    pub line: int,
}

/// A step that makes a token of the kind `kind` and goes on at `end`.
pub open spec fn token_step(kind: TokenType, end: int) -> Step {
    Step { end, kind: Some(kind), fault: None }
}

/// A step that makes nothing and goes on at `end`.
pub open spec fn skip_step(end: int) -> Step {
    Step { end, kind: None, fault: None }
}

/// A step that finds an error and goes on at `end`.
pub open spec fn fault_step(end: int, line: int, message: Seq<char>) -> Step {
    Step { end, kind: None, fault: Some(Fault { line, message }) }
}

/// `two` if `=` stands at `i + 1`, and then the token is two characters long; else `one`.
pub open spec fn with_equal(s: Seq<char>, i: int, two: TokenType, one: TokenType) -> Step {
    if i + 1 < s.len() && s[i + 1] == '=' {
        token_step(two, i + 2)
    } else {
        token_step(one, i + 1)
    }
}

/// The rules of the scanner, for a position `i` inside the source.
pub open spec fn scan_step(s: Seq<char>, i: int) -> Step {
    let c = s[i];
    if c == '(' {
        token_step(TokenType::LeftParen, i + 1)
    } else if c == ')' {
        token_step(TokenType::RightParen, i + 1)
    } else if c == '{' {
        token_step(TokenType::LeftBrace, i + 1)
    } else if c == '}' {
        token_step(TokenType::RightBrace, i + 1)
    } else if c == ',' {
        token_step(TokenType::Comma, i + 1)
    } else if c == '.' {
        token_step(TokenType::Dot, i + 1)
    } else if c == '-' {
        token_step(TokenType::Minus, i + 1)
    } else if c == '+' {
        token_step(TokenType::Plus, i + 1)
    } else if c == ';' {
        token_step(TokenType::SemiColon, i + 1)
    } else if c == '*' {
        token_step(TokenType::Star, i + 1)
    } else if c == '!' {
        with_equal(s, i, TokenType::BangEqual, TokenType::Bang)
    } else if c == '=' {
        with_equal(s, i, TokenType::Equal, TokenType::Assign)
    } else if c == '<' {
        with_equal(s, i, TokenType::LessEqual, TokenType::Less)
    } else if c == '>' {
        with_equal(s, i, TokenType::GreaterEqual, TokenType::Greater)
    } else if c == '/' {
        if i + 1 < s.len() && s[i + 1] == '/' {
            skip_step(find(s, i + 2, '\n'))
        } else if i + 1 < s.len() && s[i + 1] == '*' {
            match comment_end(s, i + 2, 0) {
                Some(end) => skip_step(end),
                None => fault_step(s.len() as int, line_of(s, s.len() as int), "Unterminated comment"@),
            }
        } else {
            token_step(TokenType::Slash, i + 1)
        }
    } else if c == ' ' || c == '\r' || c == '\t' || c == '\n' {
        skip_step(i + 1)
    } else if c == '"' {
        let quote = find(s, i + 1, '"');
        if quote < s.len() {
            token_step(TokenType::String, quote + 1)
        } else {
            fault_step(s.len() as int, line_of(s, i), "Unterminated string."@)
        }
    } else if is_digit(c) {
        token_step(TokenType::Number, number_end(s, i))
    } else if is_alpha(c) {
        let end = word_end(s, i);
        match keyword(s.subrange(i, end)) {
            Some(kind) => token_step(kind, end),
            None => token_step(TokenType::Identifier, end),
        }
    } else {
        fault_step(i + 1, line_of(s, i), "Unexpected character"@)
    }
}

/// Digits end at or behind their start, inside the source.
pub proof fn lemma_digits_end(s: Seq<char>, i: int)
    requires
        0 <= i <= s.len(),
    ensures
        i <= digits_end(s, i) <= s.len(),
    decreases s.len() - i,
{
    if i < s.len() && is_digit(s[i]) {
        lemma_digits_end(s, i + 1);
    }
}

/// A word ends at or behind its start, inside the source.
pub proof fn lemma_word_end(s: Seq<char>, i: int)
    requires
        0 <= i <= s.len(),
    ensures
        i <= word_end(s, i) <= s.len(),
    decreases s.len() - i,
{
    if i < s.len() && is_alpha_numeric(s[i]) {
        lemma_word_end(s, i + 1);
    }
}

/// What is looked for is found at or behind the start, or at the end of the source.
pub proof fn lemma_find(s: Seq<char>, i: int, stop: char)
    requires
        0 <= i <= s.len(),
    ensures
        i <= find(s, i, stop) <= s.len(),
    decreases s.len() - i,
{
    if i < s.len() && s[i] != stop {
        lemma_find(s, i + 1, stop);
    }
}

/// A comment that ends, ends behind its start, inside the source.
pub proof fn lemma_comment_end(s: Seq<char>, i: int, depth: nat)
    requires
        0 <= i <= s.len(),
    ensures
        comment_end(s, i, depth) matches Some(end) ==> i < end <= s.len(),
    decreases s.len() - i,
{
    if i < s.len() {
        if s[i] == '*' && i + 1 < s.len() && s[i + 1] == '/' {
            if depth > 0 {
                lemma_comment_end(s, i + 2, (depth - 1) as nat);
            }
        } else if s[i] == '/' && i + 1 < s.len() && s[i + 1] == '*' {
            lemma_comment_end(s, i + 2, depth + 1);
        } else {
            lemma_comment_end(s, i + 1, depth);
        }
    }
}

/// Every step of the scanner consumes at least one character and stays inside the source.
pub proof fn lemma_step_advances(s: Seq<char>, i: int)
    requires
        0 <= i < s.len(),
    ensures
        i < scan_step(s, i).end <= s.len(),
{
    lemma_digits_end(s, i + 1);
    if digits_end(s, i) + 1 <= s.len() {
        lemma_digits_end(s, digits_end(s, i) + 1);
    }
    lemma_word_end(s, i + 1);
    lemma_find(s, i + 1, '"');
    if i + 2 <= s.len() {
        lemma_find(s, i + 2, '\n');
        lemma_comment_end(s, i + 2, 0);
    }
}

/// There are no more line breaks than characters.
pub proof fn lemma_newlines_bound(s: Seq<char>, from: int, to: int)
    ensures
        newlines(s, from, to) <= if to > from {
            to - from
        } else {
            0
        },
    decreases to - from,
{
    if !(from >= to || to > s.len() || from < 0) {
        lemma_newlines_bound(s, from, to - 1);
    }
}

/// The tokens of the source from position `i` on, the end-of-file token included.
pub open spec fn lexemes(s: Seq<char>, i: int) -> Seq<Lexeme>
    decreases s.len() - i,
{
    if i < 0 || i >= s.len() {
        seq![
            Lexeme {
                kind: TokenType::Eof,
                start: s.len() as int,
                end: s.len() as int,
                line: line_of(s, s.len() as int),
            },
        ]
    } else {
        let step = scan_step(s, i);
        proof {
            lemma_step_advances(s, i);
        }
        match step.kind {
            Some(kind) => seq![Lexeme { kind, start: i, end: step.end, line: line_of(s, i) }]
                + lexemes(s, step.end),
            None => lexemes(s, step.end),
        }
    }
}

/// The errors of the source from position `i` on, in the order of the source.
pub open spec fn faults(s: Seq<char>, i: int) -> Seq<Fault>
    decreases s.len() - i,
{
    if i < 0 || i >= s.len() {
        Seq::empty()
    } else {
        let step = scan_step(s, i);
        proof {
            lemma_step_advances(s, i);
        }
        match step.fault {
            Some(fault) => seq![fault] + faults(s, step.end),
            None => faults(s, step.end),
        }
    }
}

/// Whether `t` is the token that the lexeme `x` of the source `s` stands for:
/// the lexeme is the exact slice of the source; a number carries its own
/// numeral, a string the text between its quotes, and no other token carries
/// a literal.
pub open spec fn describes(x: Lexeme, s: Seq<char>, t: Token) -> bool {
    &&& t.t_type == x.kind
    &&& t.lexeme@ == s.subrange(x.start, x.end)
    &&& t.line == x.line
    &&& match x.kind {
        TokenType::Number => t.literal matches Some(Object::Num(n)) && n@ == s.subrange(
            x.start,
            x.end,
        ),
        TokenType::String => t.literal matches Some(Object::Str(n)) && n@ == s.subrange(
            x.start + 1,
            x.end - 1,
        ),
        _ => t.literal is None,
    }
}

/// Whether the tokens `ts` are, one by one, what the lexemes `xs` stand for.
pub open spec fn describes_all(xs: Seq<Lexeme>, s: Seq<char>, ts: Seq<Token>) -> bool {
    &&& ts.len() == xs.len()
    &&& forall|k: int| 0 <= k < xs.len() ==> describes(#[trigger] xs[k], s, ts[k])
}

/// Whether `e` reports the fault `f`.
pub open spec fn reports(f: Fault, e: SaturdayResult) -> bool {
    e matches SaturdayResult::Error { line, message } && line == f.line && message@ == f.message
}

/// Whether `r` is an error that reports the fault `f`.
pub open spec fn fails_with(r: Result<(), SaturdayResult>, f: Fault) -> bool {
    r matches Err(e) && reports(f, e)
}

/// Whether the errors `es` report, one by one, the faults `fs`.
pub open spec fn reports_all(fs: Seq<Fault>, es: Seq<SaturdayResult>) -> bool {
    &&& es.len() == fs.len()
    &&& forall|k: int| 0 <= k < fs.len() ==> reports(#[trigger] fs[k], es[k])
}

/// The lexemes of a source are never none, and the last one is the end of the file.
pub proof fn lemma_lexemes_end(s: Seq<char>, i: int)
    ensures
        lexemes(s, i).len() > 0,
        lexemes(s, i).last().kind == TokenType::Eof,
    decreases s.len() - i,
{
    if 0 <= i < s.len() {
        let step = scan_step(s, i);
        lemma_step_advances(s, i);
        lemma_lexemes_end(s, step.end);
    }
}

/// A blank or a line break.
pub open spec fn is_blank(c: char) -> bool {
    c == ' ' || c == '\r' || c == '\t' || c == '\n'
}

/// Whether a comment starts at position `i`.
pub open spec fn starts_comment(s: Seq<char>, i: int) -> bool {
    s[i] == '/' && i + 1 < s.len() && (s[i + 1] == '/' || s[i + 1] == '*')
}

/// The source from position `i` on without its blanks, line breaks and
/// comments: everything else is kept, in its place.
pub open spec fn without_blanks_and_comments(s: Seq<char>, i: int) -> Seq<char>
    decreases s.len() - i,
{
    if i < 0 || i >= s.len() {
        Seq::empty()
    } else {
        let end = scan_step(s, i).end;
        proof {
            lemma_step_advances(s, i);
        }
        if is_blank(s[i]) || starts_comment(s, i) {
            without_blanks_and_comments(s, end)
        } else {
            s.subrange(i, end) + without_blanks_and_comments(s, end)
        }
    }
}

/// The slices of the lexemes `xs`, one behind the other.
pub open spec fn joined(xs: Seq<Lexeme>, s: Seq<char>) -> Seq<char>
    decreases xs.len(),
{
    if xs.len() == 0 {
        Seq::empty()
    } else {
        s.subrange(xs[0].start, xs[0].end) + joined(xs.drop_first(), s)
    }
}

/// The lexemes of the tokens `ts`, one behind the other.
pub open spec fn spelled(ts: Seq<Token>) -> Seq<char>
    decreases ts.len(),
{
    if ts.len() == 0 {
        Seq::empty()
    } else {
        ts[0].lexeme@ + spelled(ts.drop_first())
    }
}

/// Whether two tokens are the same but for where their texts are kept.
pub open spec fn same_token(a: Token, b: Token) -> bool {
    &&& a.t_type == b.t_type
    &&& a.lexeme@ == b.lexeme@
    &&& a.line == b.line
    &&& match (a.literal, b.literal) {
        (Some(Object::Num(x)), Some(Object::Num(y))) => x@ == y@,
        (Some(Object::Str(x)), Some(Object::Str(y))) => x@ == y@,
        (None, None) => true,
        _ => false,
    }
}

/// The lexemes of a source without faults, put one behind the other, are
/// the source without its blanks, line breaks and comments.
pub proof fn lemma_round_trip(s: Seq<char>, i: int)
    requires
        0 <= i <= s.len(),
        faults(s, i).len() == 0,
    ensures
        joined(lexemes(s, i), s) == without_blanks_and_comments(s, i),
    decreases s.len() - i,
{
    if i >= s.len() {
        let xs = lexemes(s, i);
        assert(xs.drop_first().len() == 0);
        assert(joined(xs.drop_first(), s) == Seq::<char>::empty());
        assert(s.subrange(s.len() as int, s.len() as int) =~= Seq::<char>::empty());
        assert(joined(xs, s) =~= Seq::<char>::empty());
    } else {
        let step = scan_step(s, i);
        lemma_step_advances(s, i);
        match step.fault {
            Some(fault) => {
                assert(faults(s, i) == seq![fault] + faults(s, step.end));
            },
            None => {
                lemma_round_trip(s, step.end);
                match step.kind {
                    Some(kind) => {
                        let x = Lexeme { kind, start: i, end: step.end, line: line_of(s, i) };
                        let xs = lexemes(s, i);
                        assert(xs == seq![x] + lexemes(s, step.end));
                        assert(xs.drop_first() =~= lexemes(s, step.end));
                        assert(xs[0] == x);
                    },
                    None => {},
                }
            },
        }
    }
}

/// The lexemes of tokens, put one behind the other, are the slices of the
/// source that the tokens stand for, put one behind the other.
pub proof fn lemma_spelled(xs: Seq<Lexeme>, s: Seq<char>, ts: Seq<Token>)
    requires
        describes_all(xs, s, ts),
    ensures
        spelled(ts) == joined(xs, s),
    decreases xs.len(),
{
    if xs.len() > 0 {
        assert(describes(xs[0], s, ts[0]));
        assert forall|k: int| 0 <= k < xs.drop_first().len() implies describes(
            #[trigger] xs.drop_first()[k],
            s,
            ts.drop_first()[k],
        ) by {
            assert(describes(xs[k + 1], s, ts[k + 1]));
        }
        lemma_spelled(xs.drop_first(), s, ts.drop_first());
    }
}

/// The round trip of the scanner: the lexemes of the tokens of a source
/// without faults, put one behind the other, are the source without its
/// blanks, line breaks and comments.
pub proof fn lemma_tokens_spell_the_source(s: Seq<char>, ts: Seq<Token>)
    requires
        faults(s, 0).len() == 0,
        describes_all(lexemes(s, 0), s, ts),
    ensures
        spelled(ts) == without_blanks_and_comments(s, 0),
{
    lemma_round_trip(s, 0);
    lemma_spelled(lexemes(s, 0), s, ts);
}

/// Scanning is a function of the source: two token streams of one source
/// agree token by token, in kind, lexeme, literal and line.
pub proof fn lemma_two_scans_agree(s: Seq<char>, a: Seq<Token>, b: Seq<Token>)
    requires
        describes_all(lexemes(s, 0), s, a),
        describes_all(lexemes(s, 0), s, b),
    ensures
        a.len() == b.len(),
        forall|k: int| 0 <= k < a.len() ==> same_token(#[trigger] a[k], b[k]),
{
    let xs = lexemes(s, 0);
    assert forall|k: int| 0 <= k < a.len() implies same_token(#[trigger] a[k], b[k]) by {
        assert(describes(xs[k], s, a[k]));
        assert(describes(xs[k], s, b[k]));
    }
}

/// The scanner: a cursor over the characters of a source, the tokens made so
/// far, and the errors met so far.
pub struct Scanner {
    source: Vec<char>,
    tokens: Vec<Token>,
    errors: Vec<SaturdayResult>,
    start: usize,
    current: usize,
    line: usize,
}

impl Scanner {
    /// The characters of the source.
    pub closed spec fn source(&self) -> Seq<char> {
        self.source@
    }

    /// The tokens made so far.
    pub closed spec fn tokens(&self) -> Seq<Token> {
        self.tokens@
    }

    /// The errors met so far.
    pub closed spec fn reported(&self) -> Seq<SaturdayResult> {
        self.errors@
    }

    /// The position of the next character to read.
    pub closed spec fn position(&self) -> int {
        self.current as int
    }

    /// The cursor lies inside the source and the line counter is the line of the cursor.
    pub closed spec fn wf(&self) -> bool {
        &&& self.source@.len() < usize::MAX
        &&& self.start <= self.current <= self.source@.len()
        &&& self.line == line_of(self.source@, self.current as int)
    }

    spec fn moved_from(&self, before: &Scanner) -> bool {
        &&& self.wf()
        &&& self.source@ == before.source@
        &&& self.tokens@ == before.tokens@
        &&& self.errors@ == before.errors@
        &&& self.start == before.start
    }

    spec fn pushed_from(&self, before: &Scanner, x: Lexeme) -> bool {
        &&& self.wf()
        &&& self.source@ == before.source@
        &&& self.errors@ == before.errors@
        &&& self.start == before.start
        &&& self.tokens@.len() == before.tokens@.len() + 1
        &&& self.tokens@.drop_last() == before.tokens@
        &&& describes(x, self.source@, self.tokens@.last())
    }

    /// A scanner at the start of `source`.
    pub fn new(source: String) -> (r: Scanner)
        requires
            source@.len() < usize::MAX,
        ensures
            r.wf(),
            r.source() == source@,
            r.position() == 0,
            r.tokens() == Seq::<Token>::empty(),
            r.reported() == Seq::<SaturdayResult>::empty(),
    {
        Scanner {
            source: characters(source.as_str()),
            tokens: Vec::new(),
            errors: Vec::new(),
            start: 0,
            current: 0,
            line: 1,
        }
    }

    /// Every error met so far, in the order of the source.
    pub fn errors(&self) -> (r: &Vec<SaturdayResult>)
        ensures
            r@ == self.reported(),
    {
        &self.errors
    }

    /// Scans the rest of the source. The tokens are exactly the lexemes of
    /// the source from the cursor on, closed by the end-of-file token, and the
    /// errors are exactly its faults. The result is the first of these
    /// errors, or every token made so far if there is none.
    pub fn scan_tokens(&mut self) -> (r: Result<Vec<Token>, SaturdayResult>)
        requires
            old(self).wf(),
        ensures
            final(self).wf(),
            final(self).source() == old(self).source(),
            final(self).position() == old(self).source().len(),
            final(self).tokens().len() >= old(self).tokens().len(),
            final(self).tokens().subrange(0, old(self).tokens().len() as int) == old(self).tokens(),
            describes_all(
                lexemes(old(self).source(), old(self).position()),
                old(self).source(),
                final(self).tokens().subrange(
                    old(self).tokens().len() as int,
                    final(self).tokens().len() as int,
                ),
            ),
            final(self).reported().len() >= old(self).reported().len(),
            final(self).reported().subrange(0, old(self).reported().len() as int) == old(
                self,
            ).reported(),
            reports_all(
                faults(old(self).source(), old(self).position()),
                final(self).reported().subrange(
                    old(self).reported().len() as int,
                    final(self).reported().len() as int,
                ),
            ),
            match r {
                Ok(ts) => faults(old(self).source(), old(self).position()).len() == 0 && ts@
                    == final(self).tokens(),
                Err(e) => faults(old(self).source(), old(self).position()).len() > 0 && reports(
                    faults(old(self).source(), old(self).position())[0],
                    e,
                ) && e == final(self).reported()[old(self).reported().len() as int],
            },
    {
        let ghost s = self.source@;
        let ghost p0 = self.current as int;
        let ghost n0 = self.tokens@.len() as int;
        let ghost e0 = self.errors@.len() as int;
        let ghost mut xs: Seq<Lexeme> = Seq::empty();
        let ghost mut fs: Seq<Fault> = Seq::empty();
        let mut had_error: Option<SaturdayResult> = None;
        assert(self.tokens@.subrange(0, n0) =~= self.tokens@);
        assert(self.errors@.subrange(0, e0) =~= self.errors@);
        while !self.is_at_end()
            invariant
                self.wf(),
                self.source@ == s,
                s == old(self).source@,
                p0 == old(self).current,
                n0 == old(self).tokens@.len(),
                e0 == old(self).errors@.len(),
                0 <= p0 <= self.current,
                n0 <= self.tokens@.len(),
                e0 <= self.errors@.len(),
                self.tokens@.subrange(0, n0) == old(self).tokens@,
                self.errors@.subrange(0, e0) == old(self).errors@,
                lexemes(s, p0) == xs + lexemes(s, self.current as int),
                faults(s, p0) == fs + faults(s, self.current as int),
                describes_all(xs, s, self.tokens@.subrange(n0, self.tokens@.len() as int)),
                reports_all(fs, errors_from(self.errors@, e0)),
                had_error is None <==> fs.len() == 0,
                had_error matches Some(e) ==> reports(fs[0], e) && e0 < self.errors@.len() && e
                    == self.errors@[e0],
            decreases s.len() - self.current,
        {
            let ghost before = *self;
            let ghost i = self.current as int;
            let ghost step = scan_step(s, i);
            proof {
                lemma_step_advances(s, i);
            }
            self.start = self.current;
            let outcome = self.scan_token();
            proof {
                let ts0 = before.tokens@.subrange(n0, before.tokens@.len() as int);
                let ts1 = self.tokens@.subrange(n0, self.tokens@.len() as int);
                match step.kind {
                    Some(kind) => {
                        let x = Lexeme { kind, start: i, end: step.end, line: line_of(s, i) };
                        assert(ts1.drop_last() =~= ts0);
                        assert(ts1.last() == self.tokens@.last());
                        assert(self.tokens@.subrange(0, n0) =~= self.tokens@.drop_last().subrange(
                            0,
                            n0,
                        ));
                        assert(lexemes(s, p0) =~= xs.push(x) + lexemes(s, step.end));
                        assert forall|k: int| 0 <= k < xs.push(x).len() implies describes(
                            #[trigger] xs.push(x)[k],
                            s,
                            ts1[k],
                        ) by {
                            if k < xs.len() {
                                assert(ts1[k] == ts0[k]);
                                assert(describes(xs[k], s, ts0[k]));
                            }
                        }
                        xs = xs.push(x);
                    },
                    None => {
                        assert(ts1 =~= ts0);
                    },
                }
            }
            match outcome {
                Ok(()) => {},
                Err(e) => {
                    let copy = e.clone_error();
                    self.errors.push(e);
                    proof {
                        let f = step.fault->Some_0;
                        let es0 = errors_from(before.errors@, e0);
                        let es1 = errors_from(self.errors@, e0);
                        assert(es1.drop_last() =~= es0);
                        assert(self.errors@.subrange(0, e0) =~= before.errors@.subrange(0, e0));
                        assert(faults(s, p0) =~= fs.push(f) + faults(s, step.end));
                        assert forall|k: int| 0 <= k < fs.push(f).len() implies reports(
                            #[trigger] fs.push(f)[k],
                            es1[k],
                        ) by {
                            if k < fs.len() {
                                assert(es1[k] == es0[k]);
                                assert(reports(fs[k], es0[k]));
                            }
                        }
                        fs = fs.push(f);
                    }
                    if had_error.is_none() {
                        had_error = Some(copy);
                    }
                },
            }
        }
        let ghost before = *self;
        self.tokens.push(Token::eof(self.line));
        proof {
            let x = Lexeme {
                kind: TokenType::Eof,
                start: s.len() as int,
                end: s.len() as int,
                line: line_of(s, s.len() as int),
            };
            let ts0 = before.tokens@.subrange(n0, before.tokens@.len() as int);
            let ts1 = self.tokens@.subrange(n0, self.tokens@.len() as int);
            assert(ts1.drop_last() =~= ts0);
            assert(ts1.last() == self.tokens@.last());
            assert(s.subrange(s.len() as int, s.len() as int) =~= Seq::<char>::empty());
            assert(self.tokens@.subrange(0, n0) =~= before.tokens@.subrange(0, n0));
            assert(lexemes(s, p0) =~= xs.push(x));
            assert(faults(s, p0) =~= fs);
            assert forall|k: int| 0 <= k < xs.push(x).len() implies describes(
                #[trigger] xs.push(x)[k],
                s,
                ts1[k],
            ) by {
                if k < xs.len() {
                    assert(ts1[k] == ts0[k]);
                    assert(describes(xs[k], s, ts0[k]));
                }
            }
        }
        match had_error {
            Some(e) => Err(e),
            None => Ok(copy_tokens(&self.tokens)),
        }
    }

    /// Whether the whole source has been read.
    fn is_at_end(&self) -> (r: bool)
        ensures
            r == (self.current >= self.source@.len()),
    {
        self.current >= self.source.len()
    }

    /// Scans one token, comment or blank at the cursor, by the rules of `scan_step`.
    fn scan_token(&mut self) -> (r: Result<(), SaturdayResult>)
        requires
            old(self).wf(),
            old(self).current < old(self).source@.len(),
            old(self).start == old(self).current,
        ensures
            final(self).current == scan_step(old(self).source@, old(self).current as int).end,
            match scan_step(old(self).source@, old(self).current as int).kind {
                Some(kind) => final(self).pushed_from(
                    old(self),
                    Lexeme {
                        kind,
                        start: old(self).current as int,
                        end: final(self).current as int,
                        line: old(self).line as int,
                    },
                ),
                None => final(self).moved_from(old(self)),
            },
            match scan_step(old(self).source@, old(self).current as int).fault {
                Some(f) => fails_with(r, f),
                None => r is Ok,
            },
    {
        let line = self.line;
        let ghost s = self.source@;
        let ghost i = self.current as int;
        proof {
            lemma_step_advances(s, i);
        }
        let c = self.advance();
        if c == '(' {
            self.add_token(TokenType::LeftParen, line);
        } else if c == ')' {
            self.add_token(TokenType::RightParen, line);
        } else if c == '{' {
            self.add_token(TokenType::LeftBrace, line);
        } else if c == '}' {
            self.add_token(TokenType::RightBrace, line);
        } else if c == ',' {
            self.add_token(TokenType::Comma, line);
        } else if c == '.' {
            self.add_token(TokenType::Dot, line);
        } else if c == '-' {
            self.add_token(TokenType::Minus, line);
        } else if c == '+' {
            self.add_token(TokenType::Plus, line);
        } else if c == ';' {
            self.add_token(TokenType::SemiColon, line);
        } else if c == '*' {
            self.add_token(TokenType::Star, line);
        } else if c == '!' {
            let tok = if self.match_char('=') {
                TokenType::BangEqual
            } else {
                TokenType::Bang
            };
            self.add_token(tok, line);
        } else if c == '=' {
            let tok = if self.match_char('=') {
                TokenType::Equal
            } else {
                TokenType::Assign
            };
            self.add_token(tok, line);
        } else if c == '<' {
            let tok = if self.match_char('=') {
                TokenType::LessEqual
            } else {
                TokenType::Less
            };
            self.add_token(tok, line);
        } else if c == '>' {
            let tok = if self.match_char('=') {
                TokenType::GreaterEqual
            } else {
                TokenType::Greater
            };
            self.add_token(tok, line);
        } else if c == '/' {
            if self.match_char('/') {
                self.skip_until('\n');
            } else if self.match_char('*') {
                return self.scan_comment();
            } else {
                self.add_token(TokenType::Slash, line);
            }
        } else if c == ' ' || c == '\r' || c == '\t' || c == '\n' {
        } else if c == '"' {
            return self.string(line);
        } else if Scanner::is_digit(Some(c)) {
            self.number(line);
        } else if Scanner::is_alpha(c) {
            self.identifier(line);
        } else {
            return Err(SaturdayResult::error(line, "Unexpected character"));
        }
        Ok(())
    }

    /// Passes over a block comment, of which `/*` has been read.
    fn scan_comment(&mut self) -> (r: Result<(), SaturdayResult>)
        requires
            old(self).wf(),
        ensures
            final(self).moved_from(old(self)),
            match comment_end(old(self).source@, old(self).current as int, 0) {
                Some(end) => r is Ok && final(self).current == end,
                None => final(self).current == old(self).source@.len() && fails_with(
                    r,
                    Fault {
                        line: line_of(old(self).source@, old(self).source@.len() as int),
                        message: "Unterminated comment"@,
                    },
                ),
            },
    {
        let ghost s = self.source@;
        let ghost i0 = self.current as int;
        let mut depth: usize = 0;
        loop
            invariant
                self.moved_from(old(self)),
                i0 == old(self).current,
                i0 <= self.current,
                depth <= self.current,
                comment_end(s, i0, 0) == comment_end(s, self.current as int, depth as nat),
                s == self.source@,
            decreases s.len() - self.current,
        {
            match self.peek() {
                None => {
                    return Err(SaturdayResult::error(self.line, "Unterminated comment"));
                },
                Some(c) => {
                    self.advance();
                    if c == '*' {
                        if self.match_char('/') {
                            if depth == 0 {
                                return Ok(());
                            }
                            depth = depth - 1;
                        }
                    } else if c == '/' {
                        if self.match_char('*') {
                            depth = depth + 1;
                        }
                    }
                },
            }
        }
    }

    fn is_alpha(c: char) -> (r: bool)
        ensures
            r == is_alpha(c),
    {
        (c >= 'a' && c <= 'z') || (c >= 'A' && c <= 'Z') || c == '_'
    }

    fn is_alpha_numeric(ch: Option<char>) -> (r: bool)
        ensures
            r == (ch matches Some(c) && is_alpha_numeric(c)),
    {
        match ch {
            Some(c) => Scanner::is_alpha(c) || (c >= '0' && c <= '9'),
            None => false,
        }
    }

    /// Scans an identifier or a reserved word, of which the first character has been read.
    fn identifier(&mut self, line: usize)
        requires
            old(self).wf(),
            old(self).current == old(self).start + 1,
            is_alpha(old(self).source@[old(self).start as int]),
            line == line_of(old(self).source@, old(self).start as int),
        ensures
            final(self).current == word_end(old(self).source@, old(self).start as int),
            final(self).pushed_from(
                old(self),
                Lexeme {
                    kind: match keyword(
                        old(self).source@.subrange(old(self).start as int, final(self).current as int),
                    ) {
                        Some(kind) => kind,
                        None => TokenType::Identifier,
                    },
                    start: old(self).start as int,
                    end: final(self).current as int,
                    line: line as int,
                },
            ),
    {
        let ghost s = self.source@;
        while Scanner::is_alpha_numeric(self.peek())
            invariant
                self.moved_from(old(self)),
                s == self.source@,
                word_end(s, self.current as int) == word_end(s, old(self).start as int),
            decreases s.len() - self.current,
        {
            self.advance();
        }
        let text = collect(&self.source, self.start, self.current);
        match Scanner::keywords(&text) {
            Some(t_type) => {
                self.add_token(t_type, line);
            },
            None => {
                self.add_token(TokenType::Identifier, line);
            },
        }
    }

    /// Passes over digits.
    fn digits(&mut self)
        requires
            old(self).wf(),
        ensures
            final(self).moved_from(old(self)),
            final(self).current == digits_end(old(self).source@, old(self).current as int),
    {
        let ghost s = self.source@;
        proof {
            lemma_digits_end(s, self.current as int);
        }
        while Scanner::is_digit(self.peek())
            invariant
                self.moved_from(old(self)),
                s == self.source@,
                digits_end(s, self.current as int) == digits_end(s, old(self).current as int),
            decreases s.len() - self.current,
        {
            self.advance();
        }
    }

    /// Scans a number, of which the first digit has been read.
    fn number(&mut self, line: usize)
        requires
            old(self).wf(),
            old(self).current == old(self).start + 1,
            is_digit(old(self).source@[old(self).start as int]),
            line == line_of(old(self).source@, old(self).start as int),
        ensures
            final(self).current == number_end(old(self).source@, old(self).start as int),
            final(self).pushed_from(
                old(self),
                Lexeme {
                    kind: TokenType::Number,
                    start: old(self).start as int,
                    end: final(self).current as int,
                    line: line as int,
                },
            ),
    {
        self.digits();
        if self.peek() == Some('.') && Scanner::is_digit(self.peek_next()) {
            self.advance();
            self.digits();
        }
        let value = collect(&self.source, self.start, self.current);
        self.add_token_object(TokenType::Number, Some(Object::Num(value)), line);
    }

    fn peek_next(&self) -> (r: Option<char>)
        requires
            self.wf(),
        ensures
            r == (if self.current + 1 < self.source@.len() {
                Some(self.source@[self.current + 1])
            } else {
                None
            }),
    {
        if self.current + 1 < self.source.len() {
            Some(self.source[self.current + 1])
        } else {
            None
        }
    }

    fn is_digit(ch: Option<char>) -> (r: bool)
        ensures
            r == (ch matches Some(c) && is_digit(c)),
    {
        match ch {
            Some(c) => c >= '0' && c <= '9',
            None => false,
        }
    }

    /// Passes over every character up to the next `stop`, which it leaves unread.
    fn skip_until(&mut self, stop: char)
        requires
            old(self).wf(),
        ensures
            final(self).moved_from(old(self)),
            final(self).current == find(old(self).source@, old(self).current as int, stop),
    {
        let ghost s = self.source@;
        loop
            invariant
                self.moved_from(old(self)),
                s == self.source@,
                find(s, self.current as int, stop) == find(s, old(self).current as int, stop),
            ensures
                self.moved_from(old(self)),
                self.current == find(s, old(self).current as int, stop),
            decreases s.len() - self.current,
        {
            match self.peek() {
                Some(ch) => {
                    if ch != stop {
                        self.advance();
                    } else {
                        break ;
                    }
                },
                None => {
                    break ;
                },
            }
        }
    }

    /// Scans a string, of which the opening quote has been read.
    fn string(&mut self, line: usize) -> (r: Result<(), SaturdayResult>)
        requires
            old(self).wf(),
            old(self).current == old(self).start + 1,
            line == line_of(old(self).source@, old(self).start as int),
        ensures
            find(old(self).source@, old(self).current as int, '"') < old(self).source@.len() ==> r
                is Ok && final(self).current == find(
                old(self).source@,
                old(self).current as int,
                '"',
            ) + 1 && final(self).pushed_from(
                old(self),
                Lexeme {
                    kind: TokenType::String,
                    start: old(self).start as int,
                    end: final(self).current as int,
                    line: line as int,
                },
            ),
            find(old(self).source@, old(self).current as int, '"') >= old(self).source@.len()
                ==> final(self).moved_from(old(self)) && final(self).current == old(
                self,
            ).source@.len() && fails_with(
                r,
                Fault { line: line as int, message: "Unterminated string."@ },
            ),
    {
        proof {
            lemma_find(self.source@, self.current as int, '"');
        }
        self.skip_until('"');
        if self.is_at_end() {
            return Err(SaturdayResult::error(line, "Unterminated string."));
        }
        self.advance();
        let value = collect(&self.source, self.start + 1, self.current - 1);
        self.add_token_object(TokenType::String, Some(Object::Str(value)), line);
        Ok(())
    }

    /// Reads the character at the cursor.
    fn advance(&mut self) -> (c: char)
        requires
            old(self).wf(),
            old(self).current < old(self).source@.len(),
        ensures
            final(self).moved_from(old(self)),
            final(self).current == old(self).current + 1,
            c == old(self).source@[old(self).current as int],
    {
        let result = self.source[self.current];
        proof {
            lemma_newlines_bound(self.source@, 0, self.current as int);
        }
        self.current = self.current + 1;
        if result == '\n' {
            self.line = self.line + 1;
        }
        result
    }

    /// Adds the token of a kind that carries no literal.
    fn add_token(&mut self, t_type: TokenType, line: usize)
        requires
            old(self).wf(),
            t_type != TokenType::Number,
            t_type != TokenType::String,
        ensures
            final(self).current == old(self).current,
            final(self).pushed_from(
                old(self),
                Lexeme {
                    kind: t_type,
                    start: old(self).start as int,
                    end: old(self).current as int,
                    line: line as int,
                },
            ),
    {
        self.add_token_object(t_type, None, line);
    }

    /// Adds the token whose lexeme lies between the start of the scan and the cursor.
    fn add_token_object(&mut self, t_type: TokenType, literal: Option<Object>, line: usize)
        requires
            old(self).wf(),
        ensures
            final(self).wf(),
            final(self).current == old(self).current,
            final(self).source@ == old(self).source@,
            final(self).errors@ == old(self).errors@,
            final(self).start == old(self).start,
            final(self).tokens@.len() == old(self).tokens@.len() + 1,
            final(self).tokens@.drop_last() == old(self).tokens@,
            final(self).tokens@.last().t_type == t_type,
            final(self).tokens@.last().lexeme@ == old(self).source@.subrange(
                old(self).start as int,
                old(self).current as int,
            ),
            final(self).tokens@.last().literal == literal,
            final(self).tokens@.last().line == line,
    {
        let lexeme = collect(&self.source, self.start, self.current);
        self.tokens.push(Token::new(t_type, lexeme, literal, line));
        assert(self.tokens@.drop_last() =~= old(self).tokens@);
    }

    /// Reads the character at the cursor if it is `expected`.
    fn match_char(&mut self, expected: char) -> (r: bool)
        requires
            old(self).wf(),
        ensures
            final(self).moved_from(old(self)),
            r == (old(self).current < old(self).source@.len() && old(self).source@[old(
                self,
            ).current as int] == expected),
            final(self).current == if r {
                old(self).current + 1
            } else {
                old(self).current as int
            },
    {
        if self.current < self.source.len() && self.source[self.current] == expected {
            self.advance();
            true
        } else {
            false
        }
    }

    /// The character at the cursor.
    fn peek(&self) -> (r: Option<char>)
        requires
            self.wf(),
        ensures
            r == (if self.current < self.source@.len() {
                Some(self.source@[self.current as int])
            } else {
                None
            }),
    {
        if self.current < self.source.len() {
            Some(self.source[self.current])
        } else {
            None
        }
    }

    /// The kind of a reserved word.
    fn keywords(check: &String) -> (r: Option<TokenType>)
        ensures
            r == keyword(check@),
    {
        if is_word(check, "and") {
            Some(TokenType::And)
        } else if is_word(check, "class") {
            Some(TokenType::Class)
        } else if is_word(check, "else") {
            Some(TokenType::Else)
        } else if is_word(check, "false") {
            Some(TokenType::False)
        } else if is_word(check, "for") {
            Some(TokenType::For)
        } else if is_word(check, "fun") {
            Some(TokenType::Fun)
        } else if is_word(check, "if") {
            Some(TokenType::If)
        } else if is_word(check, "nil") {
            Some(TokenType::Nil)
        } else if is_word(check, "or") {
            Some(TokenType::Or)
        } else if is_word(check, "print") {
            Some(TokenType::Print)
        } else if is_word(check, "return") {
            Some(TokenType::Return)
        } else if is_word(check, "super") {
            Some(TokenType::Super)
        } else if is_word(check, "this") {
            Some(TokenType::This)
        } else if is_word(check, "true") {
            Some(TokenType::True)
        } else if is_word(check, "var") {
            Some(TokenType::Var)
        } else if is_word(check, "while") {
            Some(TokenType::While)
        } else if is_word(check, "def") {
            Some(TokenType::Def)
        } else if is_word(check, "break") {
            Some(TokenType::Break)
        } else {
            None
        }
    }
}

/// The errors from index `from` on.
pub open spec fn errors_from(es: Seq<SaturdayResult>, from: int) -> Seq<SaturdayResult> {
    es.subrange(from, es.len() as int)
}

/// A copy of a token stream.
pub fn copy_tokens(tokens: &Vec<Token>) -> (r: Vec<Token>)
    ensures
        r@ == tokens@,
{
    let mut out: Vec<Token> = Vec::new();
    let mut i: usize = 0;
    while i < tokens.len()
        invariant
            i <= tokens.len(),
            out@ == tokens@.subrange(0, i as int),
        decreases tokens.len() - i,
    {
        out.push(tokens[i].dup());
        i = i + 1;
        assert(out@ =~= tokens@.subrange(0, i as int));
    }
    assert(out@ =~= tokens@);
    out
}

} // verus!
