use combo_notation::tokenizer::{
    normalize_combo, to_upper_ascii, tokenize_combo, tokenize_line, Token, VocabularyMatcher,
};

fn vocab(words: &[&str]) -> Vec<String> {
    words.iter().map(|s| s.to_string()).collect()
}

fn word(s: &str) -> Token {
    Token::Word(s.to_string())
}

#[test]
fn longest_match_wins() {
    let v = vocab(&["5HP", "5H"]);
    assert_eq!(tokenize_line("5HP", &v), Ok(vec![word("5HP")]));
}

#[test]
fn longest_match_wins_whatever_the_order() {
    let v = vocab(&["5H", "5HP"]);
    assert_eq!(tokenize_line("5HP", &v), Ok(vec![word("5HP")]));
}

#[test]
fn structural_characters_are_literal() {
    for spelling in ["2MP 5[HP] 214P~P", "2LK(1)", "236LP+LK", "P*?", "a|b", "x.y{2}^$#&-\\"] {
        let v = vocab(&["2MP", "5", spelling]);
        assert_eq!(tokenize_line(spelling, &v), Ok(vec![word(spelling)]));
    }
}

#[test]
fn plus_is_not_a_quantifier() {
    let v = vocab(&["236LP+LK"]);
    assert_eq!(
        tokenize_line("236LPLK", &v),
        Ok(vec![Token::Unrecognized; 7])
    );
}

#[test]
fn empty_vocabulary_gives_unrecognized() {
    let v = vocab(&[]);
    assert_eq!(
        tokenize_line("XYZ", &v),
        Ok(vec![Token::Unrecognized, Token::Unrecognized, Token::Unrecognized])
    );
}

#[test]
fn empty_line_gives_no_tokens() {
    let v = vocab(&["JHP"]);
    assert_eq!(tokenize_line("", &v), Ok(vec![]));
}

#[test]
fn end_to_end_scenario() {
    let v = vocab(&["JHP", "JMK", "236LP+LK"]);
    assert_eq!(
        tokenize_line("JMK JHP", &v),
        Ok(vec![word("JMK"), Token::Separator, word("JHP")])
    );
}

#[test]
fn unknown_characters_between_words() {
    let v = vocab(&["2LK", "5HK"]);
    assert_eq!(
        tokenize_line("2LK(1)5HK", &v),
        Ok(vec![
            word("2LK"),
            Token::Unrecognized,
            Token::Unrecognized,
            Token::Unrecognized,
            word("5HK"),
        ])
    );
}

#[test]
fn leftmost_match_beats_a_longer_later_one() {
    let v = vocab(&["AB", "BCDE"]);
    assert_eq!(
        tokenize_line("ABCDE", &v),
        Ok(vec![word("AB"), Token::Unrecognized, Token::Unrecognized, Token::Unrecognized])
    );
}

#[test]
fn empty_words_are_ignored() {
    let v = vocab(&["", "HP"]);
    assert_eq!(tokenize_line("HP", &v), Ok(vec![word("HP")]));
    let only_empty = vocab(&[""]);
    assert_eq!(tokenize_line("H", &only_empty), Ok(vec![Token::Unrecognized]));
}

#[test]
fn every_character_is_consumed_once() {
    let v = vocab(&["5HP", "5H", "236", "LP", "+", "LK"]);
    let line = "5HP 236LP+LK Q5H";
    let tokens = tokenize_line(line, &v).unwrap();
    let total: usize = tokens
        .iter()
        .map(|t| match t {
            Token::Word(w) => w.chars().count(),
            _ => 1,
        })
        .sum();
    assert_eq!(total, line.chars().count());
}

#[test]
fn non_ascii_characters_are_single_tokens() {
    let v = vocab(&["ÉP", "K"]);
    assert_eq!(
        tokenize_line("ÉPéK", &v),
        Ok(vec![word("ÉP"), Token::Unrecognized, word("K")])
    );
}

#[test]
fn tokenizing_twice_gives_the_same_tokens() {
    let v = vocab(&["JHP", "JMK", "2MP", "5[HP]"]);
    let line = "2MP 5[HP] JMK?JHP";
    let first = tokenize_line(line, &v);
    let second = tokenize_line(line, &v);
    assert_eq!(first, second);
    let m = VocabularyMatcher::new(&v).unwrap();
    assert_eq!(m.tokenize(line), m.tokenize(line));
    assert_eq!(Ok(m.tokenize(line)), first);
}

#[test]
fn combo_is_split_into_lines() {
    let v = vocab(&["2LK", "5HK", "JMK", "JHP"]);
    assert_eq!(
        tokenize_combo("2LK 5HK\nJMK JHP\n", &v),
        Ok(vec![
            vec![word("2LK"), Token::Separator, word("5HK")],
            vec![word("JMK"), Token::Separator, word("JHP")],
            vec![],
        ])
    );
}

#[test]
fn matcher_is_reusable() {
    let v = vocab(&["LP", "LK"]);
    let m = VocabularyMatcher::new(&v).unwrap();
    assert_eq!(m.tokenize("LK LP"), vec![word("LK"), Token::Separator, word("LP")]);
    assert_eq!(m.tokenize("LX"), vec![Token::Unrecognized, Token::Unrecognized]);
}

#[test]
fn combo_text_is_normalized() {
    assert_eq!(normalize_combo("jmk, jhp\n2lk(1)"), "JMK  JHP\n2LK(1)");
    assert_eq!(normalize_combo("é,Ü"), "é Ü");
}

#[test]
fn vocabulary_words_are_upper_cased() {
    assert_eq!(to_upper_ascii("236lp+lk"), "236LP+LK");
    assert_eq!(to_upper_ascii("a,b"), "A,B");
}

#[test]
fn normalized_combo_meets_upper_case_vocabulary() {
    let v = vec![to_upper_ascii("jmk"), to_upper_ascii("jhp")];
    let text = normalize_combo("jmk,jhp");
    assert_eq!(
        tokenize_line(&text, &v),
        Ok(vec![word("JMK"), Token::Separator, word("JHP")])
    );
}
