use nekonomicon::tokenizer::tokenize;
use nekonomicon::token::TokenType;

#[test]
fn tokenize_skips_comment_at_end_of_line() {
    // Arrange & Act
    let tokens = tokenize("say 'hi' ~this is a comment");

    // Assert
    assert!(tokens.iter().any(|t| t.kind == TokenType::Instruction && t.value == "say"));
    assert!(tokens.iter().any(|t| t.kind == TokenType::Literal && t.value == "hi"));
    assert_eq!(tokens.len(), 2);
}

#[test]
fn tokenize_skips_comment_in_middle_of_line() {
    // Arrange & Act
    let tokens = tokenize("say ~this is a comment 'hi'");

    // Assert
    assert!(tokens.iter().any(|t| t.kind == TokenType::Instruction && t.value == "say"));
    assert_eq!(tokens.len(), 1);
}

#[test]
fn tokenize_line_with_only_comment_results_in_no_tokens() {
    // Arrange & Act
    let tokens = tokenize("~this is a comment say 'hi'");

    // Assert
    assert_eq!(tokens.len(), 0);
}

#[test]
fn comment_stripping_leaves_tokens_unchanged() {
    let plain = tokenize("say 'hi'");
    let commented = tokenize("say 'hi'~comment");
    assert_eq!(plain.len(), commented.len());
    for (a, b) in plain.iter().zip(commented.iter()) {
        assert_eq!(a.kind, b.kind);
        assert_eq!(a.value, b.value);
    }
}

#[test]
fn extra_whitespace_between_tokens_is_immaterial() {
    let tight = tokenize("say 'hi'");
    let loose = tokenize("say  \t  'hi'");
    assert_eq!(tight.len(), loose.len());
    for (a, b) in tight.iter().zip(loose.iter()) {
        assert_eq!(a.kind, b.kind);
        assert_eq!(a.value, b.value);
    }
}

#[test]
fn literal_round_trip() {
    let tokens = tokenize("say 'hi'");
    assert_eq!(tokens.len(), 2);
    assert_eq!(tokens[0].kind, TokenType::Instruction);
    assert_eq!(tokens[0].value, "say");
    assert_eq!(tokens[1].kind, TokenType::Literal);
    assert_eq!(tokens[1].value, "hi");
}

#[test]
fn variable_with_hint() {
    let tokens = tokenize("say @x{number}");
    assert_eq!(tokens.len(), 3);
    assert_eq!(tokens[0].kind, TokenType::Instruction);
    assert_eq!(tokens[0].value, "say");
    assert_eq!(tokens[1].kind, TokenType::Variable);
    assert_eq!(tokens[1].value, "x");
    assert_eq!(tokens[2].kind, TokenType::Interpolation);
    assert_eq!(tokens[2].value, "number");
}

#[test]
fn reserved_words_are_classified() {
    let tokens = tokenize("as with and or not plain");
    assert_eq!(tokens.len(), 6);
    assert_eq!(tokens[0].kind, TokenType::Modifier);
    assert_eq!(tokens[1].kind, TokenType::Modifier);
    assert_eq!(tokens[2].kind, TokenType::Logical);
    assert_eq!(tokens[3].kind, TokenType::Logical);
    assert_eq!(tokens[4].kind, TokenType::Logical);
    assert_eq!(tokens[5].kind, TokenType::Instruction);
}

#[test]
fn comparison_operators_become_logical_tokens() {
    let tokens = tokenize("a <= b");
    assert_eq!(tokens.len(), 3);
    assert_eq!(tokens[1].kind, TokenType::Logical);
    assert_eq!(tokens[1].value, "<=");
    let tokens = tokenize("a < b");
    assert_eq!(tokens[1].kind, TokenType::Logical);
    assert_eq!(tokens[1].value, "<");
}

#[test]
fn unterminated_literal_runs_to_end_of_input() {
    let tokens = tokenize("say 'never closed");
    assert_eq!(tokens.len(), 2);
    assert_eq!(tokens[1].kind, TokenType::Literal);
    assert_eq!(tokens[1].value, "never closed");
}

#[test]
fn unicode_words_stay_whole() {
    let tokens = tokenize("héllo wörld");
    assert_eq!(tokens.len(), 2);
    assert_eq!(tokens[0].value, "héllo");
    assert_eq!(tokens[1].value, "wörld");
}

#[test]
fn empty_input_yields_no_tokens() {
    assert_eq!(tokenize("").len(), 0);
}
