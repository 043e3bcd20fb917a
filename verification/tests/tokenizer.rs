use tape_vm::{tokenize_source, Token};

fn spell(tokens: &[Token]) -> String {
    let mut text = String::new();
    for token in tokens {
        text.push(token.to_char());
    }
    text
}

#[test]
fn each_instruction_character_is_recognized() {
    assert_eq!(Token::try_from('>'), Ok(Token::IncDataPtr));
    assert_eq!(Token::try_from('<'), Ok(Token::DecDataPtr));
    assert_eq!(Token::try_from('+'), Ok(Token::IncValue));
    assert_eq!(Token::try_from('-'), Ok(Token::DecValue));
    assert_eq!(Token::try_from('.'), Ok(Token::Output));
    assert_eq!(Token::try_from(','), Ok(Token::GetInput));
    assert_eq!(Token::try_from('['), Ok(Token::JumpForward));
    assert_eq!(Token::try_from(']'), Ok(Token::JumpBackward));
}

#[test]
fn other_characters_come_back_as_the_error() {
    assert_eq!(Token::try_from('a'), Err('a'));
    assert_eq!(Token::try_from(' '), Err(' '));
    assert_eq!(Token::try_from('\n'), Err('\n'));
    assert_eq!(Token::try_from('('), Err('('));
    assert_eq!(Token::try_from('é'), Err('é'));
    assert_eq!(Token::try_from('\u{10FFFF}'), Err('\u{10FFFF}'));
}

#[test]
fn to_char_inverts_try_from() {
    for c in ['>', '<', '+', '-', '.', ',', '[', ']'] {
        let token = Token::try_from(c).unwrap();
        assert_eq!(token.to_char(), c);
    }
}

#[test]
fn tokenize_keeps_instructions_in_order() {
    assert_eq!(
        tokenize_source("+[-]>,.<"),
        vec![
            Token::IncValue,
            Token::JumpForward,
            Token::DecValue,
            Token::JumpBackward,
            Token::IncDataPtr,
            Token::GetInput,
            Token::Output,
            Token::DecDataPtr,
        ]
    );
}

#[test]
fn tokenize_drops_comments_and_whitespace() {
    assert_eq!(
        tokenize_source("add one: +\n\tthen print (.) twice!\r\n. ünïcödé"),
        vec![Token::IncValue, Token::Output, Token::Output]
    );
}

#[test]
fn tokenize_empty_text_is_empty_program() {
    assert_eq!(tokenize_source(""), Vec::<Token>::new());
}

#[test]
fn tokenize_text_without_instructions_is_empty_program() {
    assert_eq!(tokenize_source("no instructions here"), Vec::<Token>::new());
}

#[test]
fn tokenize_accepts_owned_text() {
    let text = String::from("a+b-c");
    assert_eq!(tokenize_source(&text), vec![Token::IncValue, Token::DecValue]);
}

#[test]
fn tokenize_is_idempotent_under_respelling() {
    let texts = [
        "",
        "plain words",
        "+[-]",
        "++ [ > ++ < - ] comment . , ]] [[",
        "++++++++[>++++[>++>+++>+++>+<<<<-]>+>+>->>+[<]<-]>>.>---.+++++++..+++.",
    ];
    for text in texts {
        let tokens = tokenize_source(text);
        let respelled = spell(&tokens);
        assert_eq!(tokenize_source(&respelled), tokens);
    }
}

#[test]
fn respelling_is_the_text_without_unrecognized_characters() {
    let text = "x+ y[ z- ]!";
    let kept: String = text.chars().filter(|c| "><+-.,[]".contains(*c)).collect();
    assert_eq!(spell(&tokenize_source(text)), kept);
    assert_eq!(kept, "+[-]");
    assert_eq!(tokenize_source(&kept), tokenize_source(text));
}
