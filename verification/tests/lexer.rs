use c_wasm_interpreter::lexer::{LexTokenProps, LexTokenType, Lexer, StringTokenProps};

#[test]
fn simple_words() {
    let mut lexer = Lexer::new("int main \"string test\"");
    let res = lexer.read();

    assert_eq!(res.len(), 4);
    assert_eq!(res[0].literal, "int");
    assert_eq!(res[0].ty, LexTokenType::Int);
    assert_eq!(res[1].literal, "main");
    assert_eq!(res[1].ty, LexTokenType::Identifier);
    assert_eq!(res[2].ty, LexTokenType::String);
    assert_eq!(res[2].props, LexTokenProps::String(StringTokenProps { value: "string test".into() }));
    assert_eq!(res[3].ty, LexTokenType::EOF);
}

#[test]
fn simple_numerals() {
    //let mut lexer = Lexer::new("0x123");
}

#[test]
fn simple() {
    let mut lexer = Lexer::new("int main() { int i = 5; }");
    let res = lexer.read();

    assert_eq!(res.len(), 12);
    assert_eq!(res[0].ty, LexTokenType::Int);
    assert_eq!(res[1].ty, LexTokenType::Identifier);
    assert_eq!(res[2].ty, LexTokenType::LParen);
    assert_eq!(res[3].ty, LexTokenType::RParen);
    assert_eq!(res[4].ty, LexTokenType::LBrace);
    assert_eq!(res[5].ty, LexTokenType::Int);
    assert_eq!(res[6].ty, LexTokenType::Identifier);
    assert_eq!(res[7].ty, LexTokenType::Assign);
    assert_eq!(res[8].ty, LexTokenType::Numeral);
    assert_eq!(res[9].ty, LexTokenType::Semi);
    assert_eq!(res[10].ty, LexTokenType::RBrace);
    assert_eq!(res[11].ty, LexTokenType::EOF);
}

#[test]
fn simple_types() {
    let mut lexer = Lexer::new("unsigned long long int");
    let res = lexer.read();

    assert_eq!(res.len(), 5);
    assert_eq!(res[0].ty, LexTokenType::Unsigned);
    assert_eq!(res[1].ty, LexTokenType::Long);
    assert_eq!(res[2].ty, LexTokenType::Long);
    assert_eq!(res[3].ty, LexTokenType::Int);
}

#[test]
fn simple_incr_decr() {
    let mut lexer = Lexer::new("+++----");
    let res = lexer.read();

    //assert_eq!(res.len(), 5);
    assert_eq!(res[0].ty, LexTokenType::PlusPlus);
    assert_eq!(res[1].ty, LexTokenType::Plus);
    assert_eq!(res[2].ty, LexTokenType::MinusMinus);
    assert_eq!(res[3].ty, LexTokenType::MinusMinus);
}
