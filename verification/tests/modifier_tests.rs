use nekonomicon::modifier::{handler, Modifier, ModifierKind, ModifierMode};

fn words(args: &[&str]) -> Vec<String> {
    args.iter().map(|s| s.to_string()).collect()
}

#[test]
fn a_quoted_value_makes_a_key_value_modifier() {
    let mods = handler(&words(&["with", "style", "'brief'"]));
    assert_eq!(
        mods,
        vec![Modifier {
            mode: ModifierMode::With,
            kind: ModifierKind::KeyValue { key: "style".to_string(), value: "brief".to_string() },
        }]
    );
}

#[test]
fn a_bare_key_makes_a_flag_modifier() {
    let mods = handler(&words(&["without", "color"]));
    assert_eq!(
        mods,
        vec![Modifier {
            mode: ModifierMode::Without,
            kind: ModifierKind::Flag("color".to_string()),
        }]
    );
}

#[test]
fn unrelated_words_are_skipped() {
    let mods = handler(&words(&["story", "with", "style", "full", "extra"]));
    assert_eq!(mods.len(), 1);
    assert_eq!(
        mods[0],
        Modifier {
            mode: ModifierMode::With,
            kind: ModifierKind::Flag("style".to_string()),
        }
    );
}

#[test]
fn a_trailing_mode_word_is_dropped() {
    assert_eq!(handler(&words(&["with"])), vec![]);
    assert_eq!(handler(&words(&[])), vec![]);
}

#[test]
fn an_unquoted_third_word_starts_its_own_clause() {
    let mods = handler(&words(&["with", "a", "without", "b"]));
    assert_eq!(mods.len(), 2);
    assert!(matches!(&mods[0].kind, ModifierKind::Flag(k) if k == "a"));
    assert_eq!(mods[0].mode, ModifierMode::With);
    assert!(matches!(&mods[1].kind, ModifierKind::Flag(k) if k == "b"));
    assert_eq!(mods[1].mode, ModifierMode::Without);
}

#[test]
fn quotes_are_trimmed_from_the_value() {
    let mods = handler(&words(&["with", "k", "''"]));
    assert!(matches!(
        &mods[0].kind,
        ModifierKind::KeyValue { key, value } if key == "k" && value == ""
    ));
    let mods = handler(&words(&["with", "k", "'"]));
    assert!(matches!(
        &mods[0].kind,
        ModifierKind::KeyValue { key, value } if key == "k" && value == ""
    ));
}
