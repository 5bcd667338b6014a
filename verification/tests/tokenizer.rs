use outline_shaping::tokenizer::{classify, Lexer, Tok};

#[test]
fn lexer_hands_out_one_token_per_codepoint() {
    let input = [0x13000u32, 0x13430, 0x13001, 0x41];
    let mut lexer = Lexer::new(&input);
    assert_eq!(lexer.next(), Some(Ok((0, Tok::Sign(0x13000), 1))));
    assert_eq!(lexer.next(), Some(Ok((1, Tok::Vert, 2))));
    assert_eq!(lexer.next(), Some(Ok((2, Tok::Sign(0x13001), 3))));
    assert_eq!(lexer.next(), Some(Ok((3, Tok::Other(0x41), 4))));
    assert_eq!(lexer.next(), None);
    assert_eq!(lexer.next(), None);
}

#[test]
fn lexer_on_empty_input_ends_at_once() {
    let input: [u32; 0] = [];
    let mut lexer = Lexer::new(&input);
    assert_eq!(lexer.next(), None);
}

#[test]
fn every_format_control_has_its_token() {
    assert_eq!(classify(0x13430), Tok::Vert);
    assert_eq!(classify(0x13431), Tok::Hor);
    assert_eq!(classify(0x13432), Tok::St);
    assert_eq!(classify(0x13433), Tok::Sb);
    assert_eq!(classify(0x13434), Tok::Et);
    assert_eq!(classify(0x13435), Tok::Eb);
    assert_eq!(classify(0x13436), Tok::Overlay);
    assert_eq!(classify(0x13437), Tok::Begin);
    assert_eq!(classify(0x13438), Tok::End);
}

#[test]
fn signs_end_where_the_controls_begin() {
    assert_eq!(classify(0x12FFF), Tok::Other(0x12FFF));
    assert_eq!(classify(0x13000), Tok::Sign(0x13000));
    assert_eq!(classify(0x1342F), Tok::Sign(0x1342F));
    assert_eq!(classify(0x13439), Tok::Other(0x13439));
    assert_eq!(classify(0), Tok::Other(0));
    assert_eq!(classify(u32::MAX), Tok::Other(u32::MAX));
}

#[test]
fn tokens_collects_what_is_left() {
    let input = [0x13437u32, 0x13010, 0x13431, 0x13011, 0x13438];
    let mut lexer = Lexer::new(&input);
    assert_eq!(lexer.next(), Some(Ok((0, Tok::Begin, 1))));
    let rest = lexer.tokens();
    assert_eq!(rest, vec![Tok::Sign(0x13010), Tok::Hor, Tok::Sign(0x13011), Tok::End]);
    assert_eq!(lexer.next(), None);
    assert_eq!(lexer.tokens(), vec![]);
}
