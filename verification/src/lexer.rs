use vstd::prelude::*;
use vstd::string::*;

verus! {

/// Extra data of a string-literal token: the text between the quotes.
#[derive(Debug, Clone, PartialEq, Eq, PartialOrd, Ord)]
pub struct StringTokenProps {
    pub value: String,
}

#[derive(Debug, Clone, Copy, PartialEq, Eq, Structural, PartialOrd, Ord)]
pub enum LexTokenType {
    Unsigned,
    Signed,
    Char,
    Short,
    Int,
    Float,
    Long,
    Double,
    Void,
    While,
    If,
    Else,
    Return,
    Identifier,

    Numeral,
    String,

    Negation,
    Assign,
    Comma,
    Semi,

    Plus,
    PlusPlus,
    Minus,
    MinusMinus,
    Asterisk,
    Div,
    Question,
    Colon,
    LessThan,
    BiggerThan,
    LessEqual,

    LParen,
    RParen,
    LSquare,
    RSquare,
    LBrace,
    RBrace,

    EOF,
    Unknown,
}

#[derive(Debug, Clone, PartialEq, Eq, PartialOrd, Ord)]
pub enum LexTokenProps {
    Empty,
    String(StringTokenProps),
    Numeral,
}

#[derive(Debug, Clone, PartialEq, Eq, PartialOrd, Ord)]
pub struct LexToken {
    pub ty: LexTokenType,
    pub start: usize,  // inclusive, in characters
    pub end: usize,  // exclusive, in characters
    pub literal: String,
    pub props: LexTokenProps,
}

/// The mathematical content of a token's extra data.
pub enum PropsView {
    Plain,
    Text(Seq<char>),
    Number,
}

/// The mathematical content of a token.
pub struct TokenView {
    pub ty: LexTokenType,
    pub start: nat,
    pub end: nat,
    pub literal: Seq<char>,
    pub props: PropsView,
}

impl View for LexTokenProps {
    type V = PropsView;

    open spec fn view(&self) -> PropsView {
        match self {
            LexTokenProps::Empty => PropsView::Plain,
            LexTokenProps::String(p) => PropsView::Text(p.value@),
            LexTokenProps::Numeral => PropsView::Number,
        }
    }
}

impl View for LexToken {
    type V = TokenView;

    open spec fn view(&self) -> TokenView {
        TokenView {
            ty: self.ty,
            start: self.start as nat,
            end: self.end as nat,
            literal: self.literal@,
            props: self.props@,
        }
    }
}

/// The views of a sequence of tokens.
pub open spec fn token_views(ts: Seq<LexToken>) -> Seq<TokenView> {
    ts.map_values(|t: LexToken| t@)
}

// ---------------------------------------------------------------------------
// Character classes of std: exact on ASCII, named beyond it.
// ---------------------------------------------------------------------------

/// Whether std's `char::is_alphabetic` holds of a character beyond ASCII (the Unicode
/// `Alphabetic` property).
pub uninterp spec fn alphabetic_beyond_ascii(c: char) -> bool;

/// Whether std's `char::is_numeric` holds of a character beyond ASCII (the general
/// categories Nd, Nl and No).
pub uninterp spec fn numeric_beyond_ascii(c: char) -> bool;

/// Whether std's `char::is_alphabetic` holds of `c`: among ASCII characters exactly the
/// letters.
pub open spec fn char_is_alphabetic(c: char) -> bool {
    if (c as u32) < 128 {
        is_ascii_letter(c)
    } else {
        alphabetic_beyond_ascii(c)
    }
}

/// Whether std's `char::is_numeric` holds of `c`: among ASCII characters exactly the
/// decimal digits.
pub open spec fn char_is_numeric(c: char) -> bool {
    if (c as u32) < 128 {
        is_ascii_digit(c)
    } else {
        numeric_beyond_ascii(c)
    }
}

/// Whether `c` has the Unicode `White_Space` property, which std's `char::is_whitespace`
/// tests: the 25 code points of that property.
pub open spec fn char_is_whitespace(c: char) -> bool {
    ('\u{9}' <= c && c <= '\u{d}') || c == ' ' || c == '\u{85}' || c == '\u{a0}' || c == '\u{1680}'
        || ('\u{2000}' <= c && c <= '\u{200a}') || c == '\u{2028}' || c == '\u{2029}' || c == '\u{202f}'
        || c == '\u{205f}' || c == '\u{3000}'
}

/// Whether `c` is an ASCII letter.
pub open spec fn is_ascii_letter(c: char) -> bool {
    ('a' <= c && c <= 'z') || ('A' <= c && c <= 'Z')
}

/// Whether `c` is an ASCII decimal digit.
pub open spec fn is_ascii_digit(c: char) -> bool {
    '0' <= c && c <= '9'
}

/// Calls std's `char::is_alphabetic`. The contract states what std documents of ASCII
/// (exactly the letters have the `Alphabetic` property there) and names the result beyond.
#[verifier::external_body]
fn is_alphabetic(c: char) -> (r: bool)
    ensures
        r == if (c as u32) < 128 {
            is_ascii_letter(c)
        } else {
            alphabetic_beyond_ascii(c)
        },
{
    c.is_alphabetic()
}

/// Calls std's `char::is_numeric`. The contract states what std documents of ASCII
/// (exactly the decimal digits are numeric there) and names the result beyond.
#[verifier::external_body]
fn is_numeric(c: char) -> (r: bool)
    ensures
        r == if (c as u32) < 128 {
            is_ascii_digit(c)
        } else {
            numeric_beyond_ascii(c)
        },
{
    c.is_numeric()
}

/// Whether `c` is white space, as std's `char::is_whitespace` defines it.
fn is_whitespace(c: char) -> (r: bool)
    ensures
        r == char_is_whitespace(c),
{
    ('\u{9}' <= c && c <= '\u{d}') || c == ' ' || c == '\u{85}' || c == '\u{a0}' || c == '\u{1680}'
        || ('\u{2000}' <= c && c <= '\u{200a}') || c == '\u{2028}' || c == '\u{2029}' || c == '\u{202f}'
        || c == '\u{205f}' || c == '\u{3000}'
}

// ---------------------------------------------------------------------------
// The tokenizer as mathematics.
// ---------------------------------------------------------------------------

/// The character at `p`, or `'\0'` past the end of the input.
pub open spec fn char_at(s: Seq<char>, p: int) -> char {
    if 0 <= p < s.len() {
        s[p]
    } else {
        '\0'
    }
}

/// The first position at or after `p` that does not hold whitespace.
pub open spec fn skip_whitespace_from(s: Seq<char>, p: int) -> int
    decreases s.len() - p,
{
    if 0 <= p < s.len() && char_is_whitespace(s[p]) {
        skip_whitespace_from(s, p + 1)
    } else {
        p
    }
}

/// The first position at or after `p` that does not hold an alphabetic character.
pub open spec fn scan_alphabetic(s: Seq<char>, p: int) -> int
    decreases s.len() - p,
{
    if 0 <= p < s.len() && char_is_alphabetic(s[p]) {
        scan_alphabetic(s, p + 1)
    } else {
        p
    }
}

/// The first position at or after `p` that does not hold a numeric character.
pub open spec fn scan_numeric(s: Seq<char>, p: int) -> int
    decreases s.len() - p,
{
    if 0 <= p < s.len() && char_is_numeric(s[p]) {
        scan_numeric(s, p + 1)
    } else {
        p
    }
}

/// Where a string literal whose scan stands at `q` ends: just past the closing
/// quote, or at the first `'\0'` (or the end of the input) when it is not closed.
pub open spec fn string_end(s: Seq<char>, q: int) -> int
    decreases s.len() - q,
{
    if q < 0 || q >= s.len() {
        q
    } else if char_at(s, q + 1) == '"' {
        q + 2
    } else if char_at(s, q + 1) == '\0' {
        q + 1
    } else {
        string_end(s, q + 1)
    }
}

/// The token type of a word: a keyword or an identifier.
pub open spec fn word_type(w: Seq<char>) -> LexTokenType {
    if w == "unsigned"@ {
        LexTokenType::Unsigned
    } else if w == "signed"@ {
        LexTokenType::Signed
    } else if w == "char"@ {
        LexTokenType::Char
    } else if w == "short"@ {
        LexTokenType::Short
    } else if w == "int"@ {
        LexTokenType::Int
    } else if w == "long"@ {
        LexTokenType::Long
    } else if w == "float"@ {
        LexTokenType::Float
    } else if w == "double"@ {
        LexTokenType::Double
    } else if w == "void"@ {
        LexTokenType::Void
    } else if w == "while"@ {
        LexTokenType::While
    } else if w == "if"@ {
        LexTokenType::If
    } else if w == "else"@ {
        LexTokenType::Else
    } else if w == "return"@ {
        LexTokenType::Return
    } else {
        LexTokenType::Identifier
    }
}

/// The token type of a character that stands for itself.
pub open spec fn punct_type(c: char) -> LexTokenType {
    if c == '!' {
        LexTokenType::Negation
    } else if c == '=' {
        LexTokenType::Assign
    } else if c == ',' {
        LexTokenType::Comma
    } else if c == ';' {
        LexTokenType::Semi
    } else if c == '*' {
        LexTokenType::Asterisk
    } else if c == '/' {
        LexTokenType::Div
    } else if c == '?' {
        LexTokenType::Question
    } else if c == ':' {
        LexTokenType::Colon
    } else if c == '<' {
        LexTokenType::LessThan
    } else if c == '>' {
        LexTokenType::BiggerThan
    } else if c == '(' {
        LexTokenType::LParen
    } else if c == ')' {
        LexTokenType::RParen
    } else if c == '[' {
        LexTokenType::LSquare
    } else if c == ']' {
        LexTokenType::RSquare
    } else if c == '{' {
        LexTokenType::LBrace
    } else if c == '}' {
        LexTokenType::RBrace
    } else if c == '\0' {
        LexTokenType::EOF
    } else {
        LexTokenType::Unknown
    }
}

/// The two-character operator that `c` followed by `d` spells, if any: `<=`.
pub open spec fn comparison_type(c: char, d: char) -> Option<LexTokenType> {
    if c == '<' && d == '=' {
        Some(LexTokenType::LessEqual)
    } else {
        None
    }
}

/// A one-character token at `q`, whose text is the character there (`'\0'` past the end).
pub open spec fn single_token(s: Seq<char>, ty: LexTokenType, q: int) -> TokenView {
    TokenView { ty, start: q as nat, end: (q + 1) as nat, literal: seq![char_at(s, q)], props: PropsView::Plain }
}

/// A token covering `s[start..end]`.
pub open spec fn span_token(s: Seq<char>, ty: LexTokenType, start: int, end: int, props: PropsView) -> TokenView {
    TokenView { ty, start: start as nat, end: end as nat, literal: s.subrange(start, end), props }
}

/// One step of the tokenizer from position `p`: the token read and the position after it,
/// or `None` where the scan of a string literal ends right after its opening quote.
pub open spec fn lex_step(s: Seq<char>, p: int) -> Option<(TokenView, int)> {
    let q = skip_whitespace_from(s, p);
    if q >= s.len() {
        Some((single_token(s, LexTokenType::EOF, q), q))
    } else {
        let ch = s[q];
        if char_is_alphabetic(ch) {
            let e = scan_alphabetic(s, q + 1);
            Some((span_token(s, word_type(s.subrange(q, e)), q, e, PropsView::Plain), e))
        } else if char_is_numeric(ch) {
            let e = scan_numeric(s, q + 1);
            Some((span_token(s, LexTokenType::Numeral, q, e, PropsView::Number), e))
        } else if ch == '"' {
            let e = string_end(s, q);
            if e < q + 2 {
                None
            } else {
                Some(
                    (
                        span_token(s, LexTokenType::String, q, e, PropsView::Text(s.subrange(q + 1, e - 1))),
                        e,
                    ),
                )
            }
        } else if ch == '+' {
            if char_at(s, q + 1) == '+' {
                Some((span_token(s, LexTokenType::PlusPlus, q, q + 2, PropsView::Plain), q + 2))
            } else {
                Some((single_token(s, LexTokenType::Plus, q), q + 1))
            }
        } else if ch == '-' {
            if char_at(s, q + 1) == '-' {
                Some((span_token(s, LexTokenType::MinusMinus, q, q + 2, PropsView::Plain), q + 2))
            } else {
                Some((single_token(s, LexTokenType::Minus, q), q + 1))
            }
        } else if comparison_type(ch, char_at(s, q + 1)) is Some {
            Some(
                (
                    span_token(s, comparison_type(ch, char_at(s, q + 1)).unwrap(), q, q + 2, PropsView::Plain),
                    q + 2,
                ),
            )
        } else {
            Some((single_token(s, punct_type(ch), q), q + 1))
        }
    }
}

/// The tokens read from position `p` up to and including the first end-of-input token,
/// or `None` where a step of the tokenizer fails.
pub open spec fn lex_from(s: Seq<char>, p: int) -> Option<Seq<TokenView>>
    decreases s.len() - p,
{
    match lex_step(s, p) {
        None => None,
        Some((t, p2)) => {
            if t.ty == LexTokenType::EOF {
                Some(seq![t])
            } else if p < p2 <= s.len() {
                match lex_from(s, p2) {
                    None => None,
                    Some(rest) => Some(seq![t] + rest),
                }
            } else {
                None
            }
        },
    }
}

/// The tokens of a whole input.
pub open spec fn lex(s: Seq<char>) -> Option<Seq<TokenView>> {
    lex_from(s, 0)
}

// ---------------------------------------------------------------------------
// Facts about the scans.
// ---------------------------------------------------------------------------

proof fn lemma_skip_whitespace_bounds(s: Seq<char>, p: int)
    requires
        0 <= p <= s.len(),
    ensures
        p <= skip_whitespace_from(s, p) <= s.len(),
    decreases s.len() - p,
{
    if p < s.len() && char_is_whitespace(s[p]) {
        lemma_skip_whitespace_bounds(s, p + 1);
    }
}

proof fn lemma_scan_alphabetic_bounds(s: Seq<char>, p: int)
    requires
        0 <= p <= s.len(),
    ensures
        p <= scan_alphabetic(s, p) <= s.len(),
    decreases s.len() - p,
{
    if p < s.len() && char_is_alphabetic(s[p]) {
        lemma_scan_alphabetic_bounds(s, p + 1);
    }
}

proof fn lemma_scan_numeric_bounds(s: Seq<char>, p: int)
    requires
        0 <= p <= s.len(),
    ensures
        p <= scan_numeric(s, p) <= s.len(),
    decreases s.len() - p,
{
    if p < s.len() && char_is_numeric(s[p]) {
        lemma_scan_numeric_bounds(s, p + 1);
    }
}

proof fn lemma_string_end_bounds(s: Seq<char>, q: int)
    requires
        0 <= q < s.len(),
    ensures
        q < string_end(s, q) <= s.len(),
    decreases s.len() - q,
{
    if char_at(s, q + 1) != '"' && char_at(s, q + 1) != '\0' {
        lemma_string_end_bounds(s, q + 1);
    }
}

/// A step of the tokenizer stays within the input, and one that does not read the end
/// of the input moves forward.
pub proof fn lemma_lex_step_progress(s: Seq<char>, p: int)
    requires
        0 <= p <= s.len(),
        lex_step(s, p) is Some,
    ensures
        ({
            let (t, p2) = lex_step(s, p).unwrap();
            &&& p <= t.start
            &&& t.start < t.end
            &&& p2 <= s.len()
            &&& t.ty != LexTokenType::EOF ==> p < p2 && t.end <= s.len() && t.end == p2
                && t.literal == s.subrange(t.start as int, t.end as int)
        }),
{
    lemma_skip_whitespace_bounds(s, p);
    let q = skip_whitespace_from(s, p);
    if q < s.len() {
        let ch = s[q];
        if char_is_alphabetic(ch) {
            lemma_scan_alphabetic_bounds(s, q + 1);
        } else if char_is_numeric(ch) {
            lemma_scan_numeric_bounds(s, q + 1);
        } else if ch == '"' {
            lemma_string_end_bounds(s, q);
        } else if ch == '+' || ch == '-' || comparison_type(ch, char_at(s, q + 1)) is Some {
        } else {
            assert(s.subrange(q, q + 1) =~= seq![char_at(s, q)]);
        }
    }
}

/// The tokens from `p` end with the end-of-input token and no earlier one is an
/// end-of-input token; there are at most as many as characters left, plus one.
pub proof fn lemma_lex_shape(s: Seq<char>, p: int)
    requires
        0 <= p <= s.len(),
        lex_from(s, p) is Some,
    ensures
        ({
            let ts = lex_from(s, p).unwrap();
            &&& 1 <= ts.len() <= s.len() - p + 1
            &&& ts.last().ty == LexTokenType::EOF
            &&& forall|i: int| 0 <= i < ts.len() - 1 ==> #[trigger] ts[i].ty != LexTokenType::EOF
        }),
    decreases s.len() - p,
{
    let (t, p2) = lex_step(s, p).unwrap();
    lemma_lex_step_progress(s, p);
    if t.ty != LexTokenType::EOF {
        lemma_lex_shape(s, p2);
        let rest = lex_from(s, p2).unwrap();
        let ts = seq![t] + rest;
        assert(lex_from(s, p).unwrap() == ts);
        assert forall|i: int| 0 <= i < ts.len() - 1 implies #[trigger] ts[i].ty != LexTokenType::EOF by {
            if i > 0 {
                assert(ts[i] == rest[i - 1]);
            }
        }
    }
}

/// Every token but the last covers, in order and without overlap, the characters it
/// holds: its literal is the text between its start and its end.
pub proof fn lemma_lex_spans(s: Seq<char>, p: int)
    requires
        0 <= p <= s.len(),
        lex_from(s, p) is Some,
    ensures
        ({
            let ts = lex_from(s, p).unwrap();
            &&& forall|i: int|
                0 <= i < ts.len() - 1 ==> p <= #[trigger] ts[i].start && ts[i].start < ts[i].end <= s.len()
                    && ts[i].literal == s.subrange(ts[i].start as int, ts[i].end as int)
            &&& forall|i: int| 0 <= i < ts.len() - 1 ==> #[trigger] ts[i].end <= ts[i + 1].start
            &&& p <= ts.last().start
        }),
    decreases s.len() - p,
{
    let (t, p2) = lex_step(s, p).unwrap();
    lemma_lex_step_progress(s, p);
    if t.ty != LexTokenType::EOF {
        lemma_lex_spans(s, p2);
        lemma_lex_shape(s, p2);
        let rest = lex_from(s, p2).unwrap();
        let ts = seq![t] + rest;
        assert(lex_from(s, p).unwrap() == ts);
        assert forall|i: int| 0 <= i < ts.len() - 1 implies p <= #[trigger] ts[i].start && ts[i].start
            < ts[i].end <= s.len() && ts[i].literal == s.subrange(ts[i].start as int, ts[i].end as int) by {
            if i > 0 {
                assert(ts[i] == rest[i - 1]);
            }
        }
        assert forall|i: int| 0 <= i < ts.len() - 1 implies #[trigger] ts[i].end <= ts[i + 1].start by {
            if i > 0 {
                assert(ts[i] == rest[i - 1]);
                assert(ts[i + 1] == rest[i]);
            } else {
                assert(ts[1] == rest[0]);
                if rest.len() == 1 {
                    assert(rest.last() == rest[0]);
                }
            }
        }
        assert(ts.last() == rest.last());
    }
}

// ---------------------------------------------------------------------------
// Executable tokenizer.
// ---------------------------------------------------------------------------

/// Whether two strings have the same characters.
pub(crate) fn str_eq(a: &str, b: &str) -> (r: bool)
    ensures
        r == (a@ == b@),
{
    let x: String = a.to_owned();
    let y: String = b.to_owned();
    x == y
}

impl LexToken {
    pub fn new(ty: LexTokenType, start: usize, end: usize, literal: &str) -> (t: Self)
        ensures
            t@ == (TokenView { ty, start: start as nat, end: end as nat, literal: literal@, props: PropsView::Plain }),
    {
        Self { ty, start, end, literal: literal.to_owned(), props: LexTokenProps::Empty }
    }

    pub fn new_with_props(
        ty: LexTokenType,
        start: usize,
        end: usize,
        literal: &str,
        props: LexTokenProps,
    ) -> (t: Self)
        ensures
            t@ == (TokenView { ty, start: start as nat, end: end as nat, literal: literal@, props: props@ }),
    {
        Self { ty, start, end, literal: literal.to_owned(), props }
    }
}

pub struct Lexer {
    str: String,
    len: usize,
    pos: usize,
}

impl Lexer {
    /// The characters of the input.
    pub closed spec fn text(&self) -> Seq<char> {
        self.str@
    }

    /// The position (in characters) of the next character to read.
    pub closed spec fn position(&self) -> int {
        self.pos as int
    }

    pub closed spec fn wf(&self) -> bool {
        &&& self.len == self.str@.len()
        &&& self.len < usize::MAX
        &&& self.pos <= self.len
    }

    pub fn new(s: &str) -> (l: Self)
        requires
            s@.len() < usize::MAX,
        ensures
            l.wf(),
            l.text() == s@,
            l.position() == 0,
    {
        let len = s.unicode_len();
        Self { str: s.to_owned(), len, pos: 0 }
    }

    fn current_ch(&self) -> (ch: char)
        requires
            self.wf(),
        ensures
            ch == char_at(self.str@, self.pos as int),
    {
        self.char_at(self.pos)
    }

    fn peek_ch(&self) -> (ch: char)
        requires
            self.wf(),
        ensures
            ch == char_at(self.str@, self.pos + 1),
    {
        if self.pos >= self.len {
            return '\0';
        }
        self.char_at(self.pos + 1)
    }

    fn read_ch(&mut self) -> (ch: char)
        requires
            old(self).wf(),
        ensures
            final(self).wf(),
            final(self).str == old(self).str,
            final(self).len == old(self).len,
            old(self).pos >= old(self).len ==> final(self).pos == old(self).pos && ch == '\0',
            old(self).pos < old(self).len ==> final(self).pos == old(self).pos + 1 && ch == char_at(
                final(self).str@,
                final(self).pos as int,
            ),
    {
        if self.pos >= self.len {
            return '\0';
        }
        self.pos += 1;
        let ch = self.current_ch();

        ch
    }

    fn read_ch_offset(&mut self, offset: usize)
        requires
            old(self).wf(),
            old(self).pos + offset <= old(self).len,
        ensures
            final(self).wf(),
            final(self).str == old(self).str,
            final(self).len == old(self).len,
            final(self).pos == old(self).pos + offset,
    {
        self.pos += offset;
    }

    fn get_literal(&self, start: usize, end: usize) -> (lit: &str)
        requires
            self.wf(),
            start <= end <= self.len,
        ensures
            lit@ == self.str@.subrange(start as int, end as int),
    {
        self.str.as_str().substring_char(start, end)
    }

    fn make_token(&self, ty: LexTokenType) -> (t: LexToken)
        requires
            self.wf(),
        ensures
            t@ == single_token(self.str@, ty, self.pos as int),
    {
        if self.pos < self.len {
            let lit = self.get_literal(self.pos, self.pos + 1);
            assert(self.str@.subrange(self.pos as int, self.pos + 1) =~= seq![char_at(self.str@, self.pos as int)]);
            LexToken::new(ty, self.pos, self.pos + 1, lit)
        } else {
            let lit = "\0";
            proof {
                reveal_strlit("\0");
            }
            assert(lit@ =~= seq![char_at(self.str@, self.pos as int)]);
            LexToken::new(ty, self.pos, self.pos + 1, lit)
        }
    }

    fn make_token_advance(&mut self, ty: LexTokenType) -> (t: LexToken)
        requires
            old(self).wf(),
        ensures
            final(self).wf(),
            final(self).str == old(self).str,
            final(self).len == old(self).len,
            t@ == single_token(old(self).str@, ty, old(self).pos as int),
            final(self).pos == if old(self).pos < old(self).len {
                old(self).pos + 1
            } else {
                old(self).pos as int
            },
    {
        let token = self.make_token(ty);
        self.read_ch();

        token
    }

    fn make_token_pos(&self, ty: LexTokenType, start: usize, end: usize, props: LexTokenProps) -> (t: LexToken)
        requires
            self.wf(),
            start <= end <= self.len,
        ensures
            t@ == span_token(self.str@, ty, start as int, end as int, props@),
    {
        LexToken::new_with_props(ty, start, end, self.get_literal(start, end), props)
    }

    fn make_doubled_advance(&mut self, ty: LexTokenType) -> (t: LexToken)
        requires
            old(self).wf(),
            old(self).pos + 2 <= old(self).len,
        ensures
            final(self).wf(),
            final(self).str == old(self).str,
            final(self).len == old(self).len,
            t@ == span_token(old(self).str@, ty, old(self).pos as int, old(self).pos + 2, PropsView::Plain),
            final(self).pos == old(self).pos + 2,
    {
        let token = self.make_token_pos(ty, self.pos, self.pos + 2, LexTokenProps::Empty);
        self.read_ch_offset(2);

        token
    }

    fn char_at(&self, pos: usize) -> (ch: char)
        requires
            self.wf(),
        ensures
            ch == char_at(self.str@, pos as int),
    {
        if pos >= self.len {
            return '\0';
        }
        let ch = self.str.as_str().get_char(pos);

        ch
    }

    fn get_word_type(&self, start: usize, end: usize) -> (ty: LexTokenType)
        requires
            self.wf(),
            start <= end <= self.len,
        ensures
            ty == word_type(self.str@.subrange(start as int, end as int)),
    {
        let literal = self.get_literal(start, end);

        if str_eq(literal, "unsigned") {
            LexTokenType::Unsigned
        } else if str_eq(literal, "signed") {
            LexTokenType::Signed
        } else if str_eq(literal, "char") {
            LexTokenType::Char
        } else if str_eq(literal, "short") {
            LexTokenType::Short
        } else if str_eq(literal, "int") {
            LexTokenType::Int
        } else if str_eq(literal, "long") {
            LexTokenType::Long
        } else if str_eq(literal, "float") {
            LexTokenType::Float
        } else if str_eq(literal, "double") {
            LexTokenType::Double
        } else if str_eq(literal, "void") {
            LexTokenType::Void
        } else if str_eq(literal, "while") {
            LexTokenType::While
        } else if str_eq(literal, "if") {
            LexTokenType::If
        } else if str_eq(literal, "else") {
            LexTokenType::Else
        } else if str_eq(literal, "return") {
            LexTokenType::Return
        } else {
            LexTokenType::Identifier
        }
    }

    fn read_word(&mut self) -> (t: LexToken)
        requires
            old(self).wf(),
            old(self).pos < old(self).len,
        ensures
            final(self).wf(),
            final(self).str == old(self).str,
            final(self).len == old(self).len,
            final(self).pos == scan_alphabetic(old(self).str@, old(self).pos + 1),
            t@ == span_token(
                old(self).str@,
                word_type(old(self).str@.subrange(old(self).pos as int, final(self).pos as int)),
                old(self).pos as int,
                final(self).pos as int,
                PropsView::Plain,
            ),
    {
        let start = self.pos;
        let ghost s = self.str@;
        let ghost target = scan_alphabetic(s, start + 1);

        loop
            invariant_except_break
                self.wf(),
                self.str@ == s,
                self.str == old(self).str,
                self.len == old(self).len,
                start <= self.pos < self.len,
                scan_alphabetic(s, self.pos + 1) == target,
            ensures
                self.wf(),
                self.str == old(self).str,
                self.len == old(self).len,
                self.pos == target,
            decreases self.len - self.pos,
        {
            if self.pos + 1 >= self.len {
                self.read_ch();
                break;
            }
            let ch = self.read_ch();
            if !is_alphabetic(ch) {
                break;
            }
        }
        proof {
            lemma_scan_alphabetic_bounds(s, start + 1);
        }

        let end = self.pos;
        let ty = self.get_word_type(start, end);

        self.make_token_pos(ty, start, end, LexTokenProps::Empty)
    }

    fn read_numeral(&mut self) -> (t: LexToken)
        requires
            old(self).wf(),
            old(self).pos < old(self).len,
        ensures
            final(self).wf(),
            final(self).str == old(self).str,
            final(self).len == old(self).len,
            final(self).pos == scan_numeric(old(self).str@, old(self).pos + 1),
            t@ == span_token(
                old(self).str@,
                LexTokenType::Numeral,
                old(self).pos as int,
                final(self).pos as int,
                PropsView::Number,
            ),
    {
        let start = self.pos;
        let ghost s = self.str@;
        let ghost target = scan_numeric(s, start + 1);

        loop
            invariant_except_break
                self.wf(),
                self.str@ == s,
                self.str == old(self).str,
                self.len == old(self).len,
                start <= self.pos < self.len,
                scan_numeric(s, self.pos + 1) == target,
            ensures
                self.wf(),
                self.str == old(self).str,
                self.len == old(self).len,
                self.pos == target,
            decreases self.len - self.pos,
        {
            if self.pos + 1 >= self.len {
                self.read_ch();
                break;
            }
            let ch = self.read_ch();
            if !is_numeric(ch) {
                break;
            }
        }
        proof {
            lemma_scan_numeric_bounds(s, start + 1);
        }

        let end = self.pos;
        self.make_token_pos(LexTokenType::Numeral, start, end, LexTokenProps::Numeral)
    }

    fn read_string(&mut self) -> (t: LexToken)
        requires
            old(self).wf(),
            old(self).pos < old(self).len,
            string_end(old(self).str@, old(self).pos as int) >= old(self).pos + 2,
        ensures
            final(self).wf(),
            final(self).str == old(self).str,
            final(self).len == old(self).len,
            final(self).pos == string_end(old(self).str@, old(self).pos as int),
            t@ == span_token(
                old(self).str@,
                LexTokenType::String,
                old(self).pos as int,
                final(self).pos as int,
                PropsView::Text(old(self).str@.subrange(old(self).pos + 1, final(self).pos - 1)),
            ),
    {
        let start = self.pos;
        let ghost s = self.str@;
        let ghost target = string_end(s, start as int);
        proof {
            lemma_string_end_bounds(s, start as int);
        }

        loop
            invariant_except_break
                self.wf(),
                self.str@ == s,
                self.str == old(self).str,
                self.len == old(self).len,
                start <= self.pos,
                string_end(s, self.pos as int) == target,
            ensures
                self.wf(),
                self.str == old(self).str,
                self.len == old(self).len,
                self.pos == target,
            decreases self.len - self.pos,
        {
            let ch = self.read_ch();
            if ch == '"' {
                self.read_ch();
                break;
            } else if ch == '\0' {
                break;
            }
        }

        let end = self.pos;
        let val = self.get_literal(start + 1, end - 1);

        self.make_token_pos(
            LexTokenType::String,
            start,
            end,
            LexTokenProps::String(StringTokenProps { value: val.to_owned() }),
        )
    }

    fn read_plus(&mut self) -> (t: LexToken)
        requires
            old(self).wf(),
            old(self).pos < old(self).len,
        ensures
            final(self).wf(),
            final(self).str == old(self).str,
            final(self).len == old(self).len,
            char_at(old(self).str@, old(self).pos + 1) == '+' ==> final(self).pos == old(self).pos + 2
                && t@ == span_token(old(self).str@, LexTokenType::PlusPlus, old(self).pos as int, old(self).pos + 2, PropsView::Plain),
            char_at(old(self).str@, old(self).pos + 1) != '+' ==> final(self).pos == old(self).pos + 1
                && t@ == single_token(old(self).str@, LexTokenType::Plus, old(self).pos as int),
    {
        let peek = self.peek_ch();

        match peek {
            '+' => self.make_doubled_advance(LexTokenType::PlusPlus),
            _ => self.make_token_advance(LexTokenType::Plus),
        }
    }

    fn read_minus(&mut self) -> (t: LexToken)
        requires
            old(self).wf(),
            old(self).pos < old(self).len,
        ensures
            final(self).wf(),
            final(self).str == old(self).str,
            final(self).len == old(self).len,
            char_at(old(self).str@, old(self).pos + 1) == '-' ==> final(self).pos == old(self).pos + 2
                && t@ == span_token(old(self).str@, LexTokenType::MinusMinus, old(self).pos as int, old(self).pos + 2, PropsView::Plain),
            char_at(old(self).str@, old(self).pos + 1) != '-' ==> final(self).pos == old(self).pos + 1
                && t@ == single_token(old(self).str@, LexTokenType::Minus, old(self).pos as int),
    {
        let peek = self.peek_ch();

        match peek {
            '-' => self.make_doubled_advance(LexTokenType::MinusMinus),
            _ => self.make_token_advance(LexTokenType::Minus),
        }
    }

    fn skip_whitespace(&mut self)
        requires
            old(self).wf(),
        ensures
            final(self).wf(),
            final(self).str == old(self).str,
            final(self).len == old(self).len,
            final(self).pos == skip_whitespace_from(old(self).str@, old(self).pos as int),
    {
        let ghost s = self.str@;
        let ghost target = skip_whitespace_from(s, self.pos as int);
        while self.pos < self.len && is_whitespace(self.current_ch())
            invariant
                self.wf(),
                self.str@ == s,
                self.str == old(self).str,
                self.len == old(self).len,
                skip_whitespace_from(s, self.pos as int) == target,
            decreases self.len - self.pos,
        {
            self.read_ch();
        }
    }

    fn punct_type(ch: char) -> (ty: LexTokenType)
        ensures
            ty == punct_type(ch),
    {
        match ch {
            '!' => LexTokenType::Negation,
            '=' => LexTokenType::Assign,
            ',' => LexTokenType::Comma,
            ';' => LexTokenType::Semi,
            '*' => LexTokenType::Asterisk,
            '/' => LexTokenType::Div,
            '?' => LexTokenType::Question,
            ':' => LexTokenType::Colon,
            '<' => LexTokenType::LessThan,
            '>' => LexTokenType::BiggerThan,
            '(' => LexTokenType::LParen,
            ')' => LexTokenType::RParen,
            '[' => LexTokenType::LSquare,
            ']' => LexTokenType::RSquare,
            '{' => LexTokenType::LBrace,
            '}' => LexTokenType::RBrace,
            '\0' => LexTokenType::EOF,
            _ => LexTokenType::Unknown,
        }
    }

    /// Reads one token; `None` where the step cannot complete (a string literal whose
    /// opening quote is the last character).
    fn next_token(&mut self) -> (t: Option<LexToken>)
        requires
            old(self).wf(),
        ensures
            final(self).wf(),
            final(self).str == old(self).str,
            final(self).len == old(self).len,
            t is None <==> lex_step(old(self).str@, old(self).pos as int) is None,
            t is Some ==> (t.unwrap()@, final(self).pos as int) == lex_step(old(self).str@, old(self).pos as int).unwrap(),
    {
        self.skip_whitespace();

        if self.pos >= self.len {
            return Some(self.make_token_advance(LexTokenType::EOF));
        }
        let ch = self.current_ch();
        if is_alphabetic(ch) {
            Some(self.read_word())
        } else if is_numeric(ch) {
            Some(self.read_numeral())
        } else if ch == '"' {
            let ghost s = self.str@;
            let ghost q = self.pos as int;
            if self.peek_ch() == '\0' {
                return None;
            }
            proof {
                if char_at(s, q + 1) != '"' {
                    lemma_string_end_bounds(s, q + 1);
                }
            }
            Some(self.read_string())
        } else if ch == '+' {
            Some(self.read_plus())
        } else if ch == '-' {
            Some(self.read_minus())
        } else {
            let peek = self.peek_ch();
            match Self::comparison_type(ch, peek) {
                Some(ty) => Some(self.make_doubled_advance(ty)),
                None => Some(self.make_token_advance(Self::punct_type(ch))),
            }
        }
    }

    fn comparison_type(c: char, d: char) -> (ty: Option<LexTokenType>)
        ensures
            ty == comparison_type(c, d),
    {
        if c == '<' && d == '=' {
            Some(LexTokenType::LessEqual)
        } else {
            None
        }
    }

    /// Reads the tokens up to and including the end-of-input token; `None` where the
    /// input cannot be tokenized.
    pub fn try_read(&mut self) -> (result: Option<Vec<LexToken>>)
        requires
            old(self).wf(),
        ensures
            final(self).wf(),
            final(self).text() == old(self).text(),
            result is None <==> lex_from(old(self).text(), old(self).position()) is None,
            result is Some ==> token_views(result.unwrap()@) == lex_from(old(self).text(), old(self).position()).unwrap(),
    {
        let mut result: Vec<LexToken> = Vec::new();
        let ghost s = self.str@;
        let ghost p0 = self.pos as int;

        loop
            invariant_except_break
                self.wf(),
                self.str@ == s,
                self.str == old(self).str,
                p0 == old(self).pos,
                lex_from(s, p0) is Some <==> lex_from(s, self.pos as int) is Some,
                lex_from(s, self.pos as int) is Some ==> lex_from(s, p0).unwrap() == token_views(result@)
                    + lex_from(s, self.pos as int).unwrap(),
            ensures
                self.wf(),
                self.str == old(self).str,
                lex_from(s, p0) == Some(token_views(result@)),
            decreases self.len - self.pos,
        {
            let ghost p = self.pos as int;
            let token = match self.next_token() {
                Some(t) => t,
                None => {
                    assert(lex_from(s, p) is None);
                    return None;
                },
            };
            proof {
                lemma_lex_step_progress(s, p);
            }
            let is_eof = token.ty == LexTokenType::EOF;
            let ghost tv = token@;
            let ghost before = result@;
            result.push(token);
            assert(token_views(result@) =~= token_views(before).push(tv));
            if is_eof {
                assert(lex_from(s, p0).unwrap() =~= token_views(result@));
                break;
            }
            proof {
                let p2 = self.pos as int;
                assert(lex_from(s, p) is Some <==> lex_from(s, p2) is Some);
                if lex_from(s, p2) is Some {
                    assert(lex_from(s, p).unwrap() == seq![tv] + lex_from(s, p2).unwrap());
                    assert(lex_from(s, p0).unwrap() =~= token_views(result@) + lex_from(s, p2).unwrap());
                }
            }
        }

        Some(result)
    }

    /// Reads the tokens up to and including the end-of-input token.
    pub fn read(&mut self) -> (result: Vec<LexToken>)
        requires
            old(self).wf(),
            lex_from(old(self).text(), old(self).position()) is Some,
        ensures
            final(self).wf(),
            final(self).text() == old(self).text(),
            token_views(result@) == lex_from(old(self).text(), old(self).position()).unwrap(),
    {
        self.try_read().unwrap()
    }
}

} // verus!
