use combo_notation::asset::{find_asset, resolve_asset};
use combo_notation::tokenizer::Token;

fn table(entries: &[(&str, &str)]) -> Vec<(String, String)> {
    entries.iter().map(|(k, v)| (k.to_string(), v.to_string())).collect()
}

#[test]
fn game_table_comes_first() {
    let game = table(&[("5HP", "game\\5hp.png"), ("J", "game\\jump.png")]);
    let movement = table(&[("J", "default\\up.gif"), ("_", "default\\err.png")]);
    let token = Token::Word("J".to_string());
    assert_eq!(resolve_asset(&token, &game, &movement), Some("game\\jump.png".to_string()));
}

#[test]
fn movement_table_is_second() {
    let game = table(&[("5HP", "game\\5hp.png")]);
    let movement = table(&[("8", "default\\up.gif"), ("_", "default\\err.png")]);
    let token = Token::Word("8".to_string());
    assert_eq!(resolve_asset(&token, &game, &movement), Some("default\\up.gif".to_string()));
}

#[test]
fn unknown_tokens_get_the_default() {
    let game = table(&[("5HP", "game\\5hp.png")]);
    let movement = table(&[(" ", "default\\space.png"), ("_", "default\\err.png")]);
    let word = Token::Word("XX".to_string());
    assert_eq!(resolve_asset(&word, &game, &movement), Some("default\\err.png".to_string()));
    assert_eq!(
        resolve_asset(&Token::Unrecognized, &game, &movement),
        Some("default\\err.png".to_string())
    );
    assert_eq!(
        resolve_asset(&Token::Separator, &game, &movement),
        Some("default\\space.png".to_string())
    );
}

#[test]
fn no_default_entry_gives_none() {
    let game = table(&[]);
    let movement = table(&[("8", "default\\up.gif")]);
    assert_eq!(resolve_asset(&Token::Unrecognized, &game, &movement), None);
}

#[test]
fn first_entry_of_a_key_wins() {
    let t = table(&[("A", "one"), ("B", "two"), ("A", "three")]);
    assert_eq!(find_asset(&t, "A"), Some("one".to_string()));
    assert_eq!(find_asset(&t, "B"), Some("two".to_string()));
    assert_eq!(find_asset(&t, "C"), None);
}
