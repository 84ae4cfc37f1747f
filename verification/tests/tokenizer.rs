use mdparse::{Token, Tokenizer};

fn tokens_of(source: &str) -> Vec<Token> {
    Tokenizer::new(0, source).collect()
}

fn span(token: &Token) -> (usize, usize) {
    match *token {
        Token::RightCaret(s) => s,
        Token::Hash(s) => s,
        Token::Dash(s) => s,
        Token::Asterisk(s) => s,
        Token::Plus(s) => s,
        Token::NumDot(s) => s,
        Token::NumParen(s) => s,
        Token::Plaintext(s) => s,
        Token::Whitespace(s) => s,
        Token::Newline(s) => s,
    }
}

#[test]
fn test_plaintext() {
    let tokenizer = Tokenizer::new(0, "Hello, World!");
    let result = tokenizer.collect();

    assert_eq!(
        result,
        vec![
            Token::Plaintext((0, 6)),
            Token::Whitespace((6, 7)),
            Token::Plaintext((7, 13)),
        ]
    );
}

#[test]
fn test_hash() {
    let tokenizer = Tokenizer::new(0, "### Header Text");
    let result = tokenizer.collect();

    assert_eq!(
        result,
        vec![
            Token::Hash((0, 3)),
            Token::Whitespace((3, 4)),
            Token::Plaintext((4, 10)),
            Token::Whitespace((10, 11)),
            Token::Plaintext((11, 15)),
        ]
    );
}

#[test]
fn test_numbers() {
    let tokenizer = Tokenizer::new(0, "1. Item\n12. Item");
    let result = tokenizer.collect();

    assert_eq!(
        result,
        vec![
            Token::NumDot((0, 2)),
            Token::Whitespace((2, 3)),
            Token::Plaintext((3, 7)),
            Token::Newline((7, 8)),
            Token::NumDot((8, 11)),
            Token::Whitespace((11, 12)),
            Token::Plaintext((12, 16)),
        ]
    );
}

#[test]
fn empty_source_has_no_tokens() {
    assert_eq!(tokens_of(""), vec![]);
}

#[test]
fn start_at_or_past_the_end_has_no_tokens() {
    assert_eq!(Tokenizer::new(3, "abc").collect(), vec![]);
    assert_eq!(Tokenizer::new(5, "abc").collect(), vec![]);
    assert_eq!(Tokenizer::new(usize::MAX, "abc").collect(), vec![]);
}

#[test]
fn a_tokenizer_can_start_in_the_middle() {
    assert_eq!(
        Tokenizer::new(3, "### Header Text").collect(),
        vec![
            Token::Whitespace((3, 4)),
            Token::Plaintext((4, 10)),
            Token::Whitespace((10, 11)),
            Token::Plaintext((11, 15)),
        ]
    );
    assert_eq!(
        Tokenizer::new(1, "### x").collect(),
        vec![Token::Hash((1, 3)), Token::Whitespace((3, 4)), Token::Plaintext((4, 5))]
    );
}

#[test]
fn next_yields_one_token_per_call_and_then_none() {
    let mut tokenizer = Tokenizer::new(0, "a b");
    assert_eq!(tokenizer.next(), Some(Token::Plaintext((0, 1))));
    assert_eq!(tokenizer.next(), Some(Token::Whitespace((1, 2))));
    assert_eq!(tokenizer.next(), Some(Token::Plaintext((2, 3))));
    assert_eq!(tokenizer.next(), None);
    assert_eq!(tokenizer.next(), None);
}

#[test]
fn dash_asterisk_and_plus_are_never_merged() {
    assert_eq!(
        tokens_of("--**++"),
        vec![
            Token::Dash((0, 1)),
            Token::Dash((1, 2)),
            Token::Asterisk((2, 3)),
            Token::Asterisk((3, 4)),
            Token::Plus((4, 5)),
            Token::Plus((5, 6)),
        ]
    );
}

#[test]
fn right_caret_and_newline_are_single_characters() {
    assert_eq!(
        tokens_of(">>\n\n>"),
        vec![
            Token::RightCaret((0, 1)),
            Token::RightCaret((1, 2)),
            Token::Newline((2, 3)),
            Token::Newline((3, 4)),
            Token::RightCaret((4, 5)),
        ]
    );
}

#[test]
fn a_hash_run_of_any_length_is_one_token() {
    assert_eq!(tokens_of("#"), vec![Token::Hash((0, 1))]);
    assert_eq!(tokens_of("########"), vec![Token::Hash((0, 8))]);
    assert_eq!(tokens_of("##a"), vec![Token::Hash((0, 2)), Token::Plaintext((2, 3))]);
    assert_eq!(
        tokens_of("####### x"),
        vec![Token::Hash((0, 7)), Token::Whitespace((7, 8)), Token::Plaintext((8, 9))]
    );
}

#[test]
fn spaces_and_tabs_make_one_whitespace_token() {
    assert_eq!(
        tokens_of(" \t \tx\t"),
        vec![Token::Whitespace((0, 4)), Token::Plaintext((4, 5)), Token::Whitespace((5, 6))]
    );
}

#[test]
fn plaintext_ends_only_at_white_space_or_newline() {
    assert_eq!(tokens_of("a-b*c+d#e>f1."), vec![Token::Plaintext((0, 13))]);
    assert_eq!(
        tokens_of("ab\ncd"),
        vec![Token::Plaintext((0, 2)), Token::Newline((2, 3)), Token::Plaintext((3, 5))]
    );
}

#[test]
fn digits_and_a_dot_make_a_num_dot() {
    assert_eq!(tokens_of("7."), vec![Token::NumDot((0, 2))]);
    assert_eq!(tokens_of("0123456789."), vec![Token::NumDot((0, 11))]);
    assert_eq!(tokens_of("1.5"), vec![Token::NumDot((0, 2)), Token::Plaintext((2, 3))]);
}

#[test]
fn digits_and_a_paren_make_a_num_paren() {
    assert_eq!(
        tokens_of("12) x"),
        vec![Token::NumParen((0, 3)), Token::Whitespace((3, 4)), Token::Plaintext((4, 5))]
    );
}

#[test]
fn digits_followed_by_a_letter_are_one_plaintext() {
    assert_eq!(tokens_of("12abc"), vec![Token::Plaintext((0, 5))]);
    assert_eq!(
        tokens_of("12abc def"),
        vec![Token::Plaintext((0, 5)), Token::Whitespace((5, 6)), Token::Plaintext((6, 9))]
    );
}

#[test]
fn the_character_after_the_digits_joins_the_plaintext() {
    assert_eq!(tokens_of("12 abc"), vec![Token::Plaintext((0, 6))]);
    assert_eq!(tokens_of("12 "), vec![Token::Plaintext((0, 3))]);
    assert_eq!(tokens_of("12\nx y"), vec![
        Token::Plaintext((0, 4)),
        Token::Whitespace((4, 5)),
        Token::Plaintext((5, 6)),
    ]);
    assert_eq!(tokens_of("3#"), vec![Token::Plaintext((0, 2))]);
}

#[test]
fn digits_at_the_end_of_input_close_as_plaintext() {
    assert_eq!(tokens_of("12"), vec![Token::Plaintext((0, 2))]);
    assert_eq!(
        tokens_of("x 7"),
        vec![Token::Plaintext((0, 1)), Token::Whitespace((1, 2)), Token::Plaintext((2, 3))]
    );
}

#[test]
fn characters_outside_ascii_are_plaintext() {
    assert_eq!(
        tokens_of("héllo wörld"),
        vec![Token::Plaintext((0, 6)), Token::Whitespace((6, 7)), Token::Plaintext((7, 13))]
    );
    assert_eq!(tokens_of("é"), vec![Token::Plaintext((0, 2))]);
    assert_eq!(tokens_of("1é"), vec![Token::Plaintext((0, 3))]);
    assert_eq!(
        tokens_of("# 日本語"),
        vec![Token::Hash((0, 1)), Token::Whitespace((1, 2)), Token::Plaintext((2, 11))]
    );
}

#[test]
fn tokens_cover_the_source_without_gap_or_overlap() {
    let sources = [
        "",
        "Hello, World!",
        "### Header Text",
        "1. Item\n12. Item",
        "12",
        "12 abc",
        "- a\n* b\n+ c\n> d\n",
        "####### x",
        " \t\n\n#\n1)2.3",
        "héllo wörld 42",
    ];
    for source in sources {
        let tokens = tokens_of(source);
        let mut at = 0;
        let mut total = 0;
        for token in &tokens {
            let (start, end) = span(token);
            assert_eq!(start, at);
            assert!(start < end);
            total += end - start;
            at = end;
        }
        assert_eq!(at, source.len());
        assert_eq!(total, source.len());
        let rebuilt: String = tokens.iter().map(|t| &source[span(t).0..span(t).1]).collect();
        assert_eq!(rebuilt, source);
    }
}

#[test]
fn tokens_from_an_offset_cover_the_rest() {
    let source = "## Title\n1. one";
    for start in 0..=source.len() {
        let mut at = start;
        for token in Tokenizer::new(start, source).collect() {
            let (s, e) = span(&token);
            assert_eq!(s, at);
            assert!(s < e);
            at = e;
        }
        assert_eq!(at, source.len());
    }
}

#[test]
fn tokenizing_twice_gives_the_same_tokens() {
    let source = "# Title\n\n1. first\n2) second\n- 12abc > x";
    let first = Tokenizer::new(0, source).collect();
    let second = Tokenizer::new(0, source).collect();
    assert_eq!(first, second);
    assert_eq!(Tokenizer::new(9, source).collect(), Tokenizer::new(9, source).collect());

    let mut stepwise = Vec::new();
    let mut tokenizer = Tokenizer::new(0, source);
    while let Some(token) = tokenizer.next() {
        stepwise.push(token);
    }
    assert_eq!(stepwise, first);
}

#[test]
fn every_token_ends_on_a_character_boundary() {
    let sources = ["héllo wörld", "# 日本語 12é.", "1é 2) ü\tß\n€#", "é", "12€"];
    for source in sources {
        for start in 0..=source.len() {
            for token in Tokenizer::new(start, source).collect() {
                let (s, e) = span(&token);
                assert!(source.is_char_boundary(e));
                if source.is_char_boundary(start) {
                    assert!(source.is_char_boundary(s));
                    assert!(source.get(s..e).is_some());
                }
            }
        }
    }
}
