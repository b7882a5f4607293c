//! Which display asset a token stands for: the game's own table is asked
//! first, then the shared movement table, and an unknown token gets the
//! movement table's default entry.
use vstd::prelude::*;
use crate::tokenizer::{Token, TokenView};

verus! {

/// The key under which the movement table holds the default asset.
pub const DEFAULT_KEY: &'static str = "_";

/// The key under which the tables hold the asset of a separator.
pub const SEPARATOR_KEY: &'static str = " ";

/// The value of the first entry of `table` whose key is `key`.
pub open spec fn lookup(table: Seq<(Seq<char>, Seq<char>)>, key: Seq<char>) -> Option<Seq<char>>
    decreases table.len(),
{
    if table.len() == 0 {
        None
    } else if table[0].0 == key {
        Some(table[0].1)
    } else {
        lookup(table.drop_first(), key)
    }
}

/// The key that a token is looked up under, if any.
pub open spec fn key_of(t: TokenView) -> Option<Seq<char>> {
    match t {
        TokenView::Word(w) => Some(w),
        TokenView::Separator => Some(SEPARATOR_KEY@),
        TokenView::Unrecognized => None,
    }
}

/// The asset of a token: its key in the game table, else in the movement
/// table, else the movement table's default entry.
pub open spec fn asset_of(
    t: TokenView,
    game: Seq<(Seq<char>, Seq<char>)>,
    movement: Seq<(Seq<char>, Seq<char>)>,
) -> Option<Seq<char>> {
    let found = match key_of(t) {
        Some(k) => match lookup(game, k) {
            Some(a) => Some(a),
            None => lookup(movement, k),
        },
        None => None,
    };
    match found {
        Some(a) => Some(a),
        None => lookup(movement, DEFAULT_KEY@),
    }
}

/// The value of the first entry of `table` whose key is `key`.
pub fn find_asset(table: &Vec<(String, String)>, key: &str) -> (r: Option<String>)
    ensures
        r is Some == lookup(table.deep_view(), key@) is Some,
        r is Some ==> r->Some_0@ == lookup(table.deep_view(), key@)->Some_0,
{
    let ghost t = table.deep_view();
    let n = table.len();
    let mut i: usize = 0;
    assert(t.skip(0) =~= t);
    while i < n
        invariant
            n == table@.len(),
            t == table.deep_view(),
            i <= n,
            lookup(t.skip(i as int), key@) == lookup(t, key@),
        decreases n - i,
    {
        let entry = &table[i];
        assert(t.skip(i as int)[0] == t[i as int]);
        assert(t.skip(i as int).drop_first() =~= t.skip(i + 1));
        if String::from_str(key) == entry.0 {
            return Some(entry.1.clone());
        }
        i = i + 1;
    }
    assert(t.skip(n as int) =~= Seq::<(Seq<char>, Seq<char>)>::empty());
    None
}

/// The asset that a token is drawn with: looked up in the game table, then
/// in the movement table, with the movement table's default entry as the
/// last resort. `None` only when that default entry is missing too.
pub fn resolve_asset(
    token: &Token,
    game: &Vec<(String, String)>,
    movement: &Vec<(String, String)>,
) -> (r: Option<String>)
    ensures
        r is Some == asset_of(token@, game.deep_view(), movement.deep_view()) is Some,
        r is Some ==> r->Some_0@ == asset_of(token@, game.deep_view(), movement.deep_view())->Some_0,
{
    let key: Option<&str> = match token {
        Token::Word(w) => Some(w.as_str()),
        Token::Separator => Some(SEPARATOR_KEY),
        Token::Unrecognized => None,
    };
    let found = match key {
        Some(k) => match find_asset(game, k) {
            Some(a) => Some(a),
            None => find_asset(movement, k),
        },
        None => None,
    };
    match found {
        Some(a) => Some(a),
        None => find_asset(movement, DEFAULT_KEY),
    }
}

} // verus!
