use nekonomicon::command::{parse, Command};
use nekonomicon::parser::Expected;

#[test]
fn test_simple_say() {
    let result = parse("say 'Hello, World!'.");
    match result {
        Ok(Command::Say { text }) => {
            assert_eq!(text, "Hello, World!");
        }
        Err(e) => {
            panic!("Parse failed: {:?}", e);
        }
    }
}

#[test]
fn test_say_with_quotes() {
    let result = parse("say 'I\\'m learning nekonomicon!'.");
    match result {
        Ok(Command::Say { text }) => {
            assert_eq!(text, "I'm learning nekonomicon!");
        }
        Err(e) => {
            panic!("Parse failed: {:?}", e);
        }
    }
}

#[test]
fn escaped_backslashes_are_decoded() {
    let result = parse("say 'a\\\\b'.").unwrap();
    let Command::Say { text } = result;
    assert_eq!(text, "a\\b");
}

#[test]
fn a_missing_say_keyword_is_reported() {
    let err = parse("shout 'hi'.").unwrap_err();
    assert_eq!(err.expected, Expected::SayCommand);
    assert_eq!(err.found.as_deref(), Some("shout"));
}

#[test]
fn a_missing_literal_is_reported() {
    let err = parse("say hi.").unwrap_err();
    assert_eq!(err.expected, Expected::StringLiteral);
    assert_eq!(err.found.as_deref(), Some("h"));
}

#[test]
fn an_unterminated_literal_is_reported() {
    let err = parse("say 'hi").unwrap_err();
    assert_eq!(err.expected, Expected::StringLiteral);
    assert_eq!(err.found, None);
}

#[test]
fn a_missing_say_terminator_is_reported() {
    let err = parse("say 'hi'").unwrap_err();
    assert_eq!(err.expected, Expected::Terminator);
    assert_eq!(err.found, None);
}
