use c_wasm_interpreter::lexer::{LexToken, LexTokenProps, LexTokenType, Lexer, StringTokenProps};

fn lex(s: &str) -> Vec<LexToken> {
    Lexer::new(s).read()
}

#[test]
fn read_ends_with_one_end_of_input() {
    let res = lex("int a = b + 12; while (a < b) a = a - 1;");
    assert_eq!(res.last().unwrap().ty, LexTokenType::EOF);
    let eofs = res.iter().filter(|t| t.ty == LexTokenType::EOF).count();
    assert_eq!(eofs, 1);
}

#[test]
fn empty_input_is_only_end_of_input() {
    let res = lex("");
    assert_eq!(res.len(), 1);
    assert_eq!(res[0].ty, LexTokenType::EOF);
    assert_eq!(res[0].start, 0);
    assert_eq!(res[0].end, 1);
    assert_eq!(res[0].literal, "\0");
}

#[test]
fn literals_are_the_source_spans() {
    let src = "  long   x=42 ;";
    let chars: Vec<char> = src.chars().collect();
    let res = lex(src);
    assert_eq!(res.len(), 6);
    for t in &res[..res.len() - 1] {
        let span: String = chars[t.start..t.end].iter().collect();
        assert_eq!(t.literal, span);
    }
    for w in res.windows(2) {
        assert!(w[0].end <= w[1].start);
    }
    assert_eq!(res[0].start, 2);
    assert_eq!(res[0].end, 6);
    assert_eq!(res[2].literal, "=");
    assert_eq!(res[3].literal, "42");
    assert_eq!(res[3].props, LexTokenProps::Numeral);
}

#[test]
fn keywords_and_comparisons() {
    let res = lex("void while char short float double signed whilex < > ! , : ? / * [ ] @");
    let tys: Vec<LexTokenType> = res.iter().map(|t| t.ty).collect();
    assert_eq!(
        tys,
        vec![
            LexTokenType::Void,
            LexTokenType::While,
            LexTokenType::Char,
            LexTokenType::Short,
            LexTokenType::Float,
            LexTokenType::Double,
            LexTokenType::Signed,
            LexTokenType::Identifier,
            LexTokenType::LessThan,
            LexTokenType::BiggerThan,
            LexTokenType::Negation,
            LexTokenType::Comma,
            LexTokenType::Colon,
            LexTokenType::Question,
            LexTokenType::Div,
            LexTokenType::Asterisk,
            LexTokenType::LSquare,
            LexTokenType::RSquare,
            LexTokenType::Unknown,
            LexTokenType::EOF,
        ]
    );
}

#[test]
fn only_less_or_equal_joins_two_characters() {
    let res = lex("a<=b>=c==d!=e< =");
    let tys: Vec<LexTokenType> = res.iter().map(|t| t.ty).collect();
    assert_eq!(
        tys,
        vec![
            LexTokenType::Identifier,
            LexTokenType::LessEqual,
            LexTokenType::Identifier,
            LexTokenType::BiggerThan,
            LexTokenType::Assign,
            LexTokenType::Identifier,
            LexTokenType::Assign,
            LexTokenType::Assign,
            LexTokenType::Identifier,
            LexTokenType::Negation,
            LexTokenType::Assign,
            LexTokenType::Identifier,
            LexTokenType::LessThan,
            LexTokenType::Assign,
            LexTokenType::EOF,
        ]
    );
    assert_eq!(res[1].literal, "<=");
    let res = lex("if else return iff");
    assert_eq!(res[0].ty, LexTokenType::If);
    assert_eq!(res[1].ty, LexTokenType::Else);
    assert_eq!(res[2].ty, LexTokenType::Return);
    assert_eq!(res[3].ty, LexTokenType::Identifier);
}

#[test]
fn punctuation_one_character_each() {
    let res = lex("!=,;*/?:()[]{}");
    let tys: Vec<LexTokenType> = res.iter().map(|t| t.ty).collect();
    assert_eq!(
        tys,
        vec![
            LexTokenType::Negation,
            LexTokenType::Assign,
            LexTokenType::Comma,
            LexTokenType::Semi,
            LexTokenType::Asterisk,
            LexTokenType::Div,
            LexTokenType::Question,
            LexTokenType::Colon,
            LexTokenType::LParen,
            LexTokenType::RParen,
            LexTokenType::LSquare,
            LexTokenType::RSquare,
            LexTokenType::LBrace,
            LexTokenType::RBrace,
            LexTokenType::EOF,
        ]
    );
    let chars: Vec<char> = "!=,;*/?:()[]{}".chars().collect();
    for i in 0..14 {
        assert_eq!((res[i].start, res[i].end), (i, i + 1));
        assert_eq!(res[i].literal, chars[i].to_string());
    }
}

#[test]
fn unicode_whitespace_is_skipped() {
    let res = lex("\u{a0}a\u{3000}\u{2009}b");
    assert_eq!(res.len(), 3);
    assert_eq!(res[0].start, 1);
    assert_eq!(res[1].start, 4);
}

#[test]
fn words_and_numbers_split_by_character_class() {
    let res = lex("abc123def");
    assert_eq!(res.len(), 4);
    assert_eq!(res[0].literal, "abc");
    assert_eq!(res[0].ty, LexTokenType::Identifier);
    assert_eq!(res[1].literal, "123");
    assert_eq!(res[1].ty, LexTokenType::Numeral);
    assert_eq!(res[2].literal, "def");
    assert_eq!(res[2].start, 6);
}

#[test]
fn whitespace_of_all_kinds_is_skipped() {
    let res = lex("\t\n a\r\n");
    assert_eq!(res.len(), 2);
    assert_eq!(res[0].literal, "a");
    assert_eq!(res[0].start, 3);
    assert_eq!(res[1].ty, LexTokenType::EOF);
    assert_eq!(res[1].start, 6);
}

#[test]
fn unterminated_string_runs_to_the_end() {
    let res = lex("\"abc");
    assert_eq!(res.len(), 2);
    assert_eq!(res[0].ty, LexTokenType::String);
    assert_eq!(res[0].literal, "\"abc");
    assert_eq!(res[0].props, LexTokenProps::String(StringTokenProps { value: "ab".into() }));
}

#[test]
fn empty_string_literal() {
    let res = lex("\"\"x");
    assert_eq!(res[0].ty, LexTokenType::String);
    assert_eq!(res[0].props, LexTokenProps::String(StringTokenProps { value: "".into() }));
    assert_eq!(res[1].literal, "x");
}

#[test]
fn quote_at_the_very_end_does_not_tokenize() {
    let mut lexer = Lexer::new("x \"");
    assert!(lexer.try_read().is_none());
    let mut lexer = Lexer::new("x \"y\"");
    assert_eq!(lexer.try_read().unwrap().len(), 3);
}

#[test]
fn token_constructors() {
    let t = LexToken::new(LexTokenType::Plus, 3, 4, "+");
    assert_eq!(t.ty, LexTokenType::Plus);
    assert_eq!((t.start, t.end), (3, 4));
    assert_eq!(t.literal, "+");
    assert_eq!(t.props, LexTokenProps::Empty);
    let t = LexToken::new_with_props(LexTokenType::Numeral, 0, 2, "42", LexTokenProps::Numeral);
    assert_eq!(t.props, LexTokenProps::Numeral);
    assert_eq!(t.literal, "42");
}
