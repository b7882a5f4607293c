//! The vocabulary tokenizer: a line is read left to right; where a word of
//! the vocabulary starts, the longest such word becomes a token, and any
//! other character becomes a token of its own (a separator for a space, an
//! unrecognised character otherwise).
use vstd::prelude::*;
use crate::pattern::{
    alternation, alternation_pattern, lemma_alternation_reads_back, leftmost_match_start,
    literal_alternatives, occurs_at, push_char, regex_accepts, regex_source,
};

verus! {

/// One unit of decoded notation.
#[derive(Debug, Clone, PartialEq, Eq)]
pub enum Token {
    /// A spelling of the vocabulary, as it stands in the line.
    Word(String),
    /// A space that starts no word.
    Separator,
    /// A character that starts no word.
    Unrecognized,
}

/// A token as a value: a word's characters, or which kind of character.
pub enum TokenView {
    Word(Seq<char>),
    Separator,
    Unrecognized,
}

impl View for Token {
    type V = TokenView;

    open spec fn view(&self) -> TokenView {
        match self {
            Token::Word(w) => TokenView::Word(w@),
            Token::Separator => TokenView::Separator,
            Token::Unrecognized => TokenView::Unrecognized,
        }
    }
}

/// The views of a sequence of tokens.
pub open spec fn views(ts: Seq<Token>) -> Seq<TokenView> {
    ts.map_values(|t: Token| t@)
}

/// The vocabulary couldn't be turned into a matcher: the pattern engine
/// refused its alternation (it grew past the engine's size limit).
#[derive(Debug, Clone, Copy, PartialEq, Eq)]
pub enum VocabularyError {
    PatternRejected,
}

/// `w` is a prefix of `text`.
pub open spec fn is_prefix(w: Seq<char>, text: Seq<char>) -> bool {
    w.len() <= text.len() && text.take(w.len() as int) == w
}

/// The length of the longest word of `words` that is a non-empty prefix of
/// `text`, or 0 when there is none.
pub open spec fn longest_prefix(text: Seq<char>, words: Seq<Seq<char>>) -> nat
    decreases words.len(),
{
    if words.len() == 0 {
        0
    } else {
        let best = longest_prefix(text, words.drop_last());
        let w = words.last();
        if w.len() > best && is_prefix(w, text) {
            w.len()
        } else {
            best
        }
    }
}

/// The tokens of a line: at each position the longest word of the
/// vocabulary that starts there, else one character, as a separator if it
/// is a space and as unrecognised otherwise.
pub open spec fn tokens_of(text: Seq<char>, words: Seq<Seq<char>>) -> Seq<TokenView>
    decreases text.len(),
{
    if text.len() == 0 {
        Seq::empty()
    } else {
        let n = longest_prefix(text, words);
        if 0 < n <= text.len() {
            seq![TokenView::Word(text.take(n as int))] + tokens_of(text.skip(n as int), words)
        } else if text[0] == ' ' {
            seq![TokenView::Separator] + tokens_of(text.drop_first(), words)
        } else {
            seq![TokenView::Unrecognized] + tokens_of(text.drop_first(), words)
        }
    }
}

/// The words that are not empty, in order.
pub open spec fn nonempty(words: Seq<Seq<char>>) -> Seq<Seq<char>>
    decreases words.len(),
{
    if words.len() == 0 {
        Seq::empty()
    } else {
        let init = nonempty(words.drop_last());
        if words.last().len() > 0 {
            init.push(words.last())
        } else {
            init
        }
    }
}

/// The longest prefix found is at most the text, is one of the words when it
/// is not 0, and is at least as long as any word that is a prefix.
pub proof fn lemma_longest_prefix(text: Seq<char>, words: Seq<Seq<char>>)
    ensures
        longest_prefix(text, words) <= text.len(),
        longest_prefix(text, words) > 0 ==> exists|k: int|
            0 <= k < words.len() && (#[trigger] words[k]).len() == longest_prefix(text, words)
                && is_prefix(words[k], text),
        forall|k: int|
            0 <= k < words.len() && is_prefix(#[trigger] words[k], text) ==> words[k].len()
                <= longest_prefix(text, words),
    decreases words.len(),
{
    if words.len() > 0 {
        let init = words.drop_last();
        lemma_longest_prefix(text, init);
        if longest_prefix(text, words) > 0 && longest_prefix(text, words) == longest_prefix(text, init) {
            let k = choose|k: int|
                0 <= k < init.len() && (#[trigger] init[k]).len() == longest_prefix(text, init)
                    && is_prefix(init[k], text);
            assert(words[k] == init[k]);
        }
        assert forall|k: int|
            0 <= k < words.len() && is_prefix(#[trigger] words[k], text) implies words[k].len()
                <= longest_prefix(text, words) by {
            if k < init.len() {
                assert(words[k] == init[k]);
            }
        }
    }
}

/// Leaving out the empty words does not change the longest prefix.
pub proof fn lemma_longest_prefix_nonempty(text: Seq<char>, words: Seq<Seq<char>>)
    ensures
        longest_prefix(text, nonempty(words)) == longest_prefix(text, words),
    decreases words.len(),
{
    if words.len() > 0 {
        lemma_longest_prefix_nonempty(text, words.drop_last());
        let f = nonempty(words);
        if words.last().len() > 0 {
            assert(f.drop_last() =~= nonempty(words.drop_last()));
            assert(f.last() == words.last());
        }
    }
}

/// Leaving out the empty words does not change the tokens of any text.
pub proof fn lemma_tokens_nonempty(text: Seq<char>, words: Seq<Seq<char>>)
    ensures
        tokens_of(text, nonempty(words)) == tokens_of(text, words),
    decreases text.len(),
{
    if text.len() > 0 {
        lemma_longest_prefix_nonempty(text, words);
        let n = longest_prefix(text, words);
        if 0 < n <= text.len() {
            lemma_tokens_nonempty(text.skip(n as int), words);
        } else {
            lemma_tokens_nonempty(text.drop_first(), words);
        }
    }
}

/// Whether `w` is a prefix of `text`.
pub fn starts_with_word(text: &str, w: &str) -> (r: bool)
    ensures
        r == is_prefix(w@, text@),
{
    let wn = w.unicode_len();
    let tn = text.unicode_len();
    if wn > tn {
        return false;
    }
    let mut i: usize = 0;
    while i < wn
        invariant
            wn == w@.len(),
            tn == text@.len(),
            wn <= tn,
            i <= wn,
            forall|j: int| 0 <= j < i ==> text@[j] == w@[j],
        decreases wn - i,
    {
        if text.get_char(i) != w.get_char(i) {
            assert(text@.take(wn as int)[i as int] != w@[i as int]);
            return false;
        }
        i = i + 1;
    }
    assert(text@.take(wn as int) =~= w@);
    true
}

/// A character upper-cased if it is an ASCII lower-case letter, kept
/// otherwise.
pub open spec fn upper_ascii(c: char) -> char {
    if 'a' <= c && c <= 'z' {
        ((c as u8) - 32) as u8 as char
    } else {
        c
    }
}

/// A character of combo text as the tokenizer expects it: a comma is a
/// space, and ASCII letters are upper case.
pub open spec fn combo_char(c: char) -> char {
    if c == ',' {
        ' '
    } else {
        upper_ascii(c)
    }
}

/// `s` with its ASCII letters upper-cased, and its commas made spaces when
/// `comma_is_space` is set.
fn map_chars(s: &str, comma_is_space: bool) -> (r: String)
    ensures
        r@ == s@.map_values(|c: char| if comma_is_space { combo_char(c) } else { upper_ascii(c) }),
{
    let n = s.unicode_len();
    let mut out = String::new();
    let mut i: usize = 0;
    while i < n
        invariant
            n == s@.len(),
            i <= n,
            out@ == s@.take(i as int).map_values(
                |c: char| if comma_is_space { combo_char(c) } else { upper_ascii(c) },
            ),
        decreases n - i,
    {
        let c = s.get_char(i);
        let d = if comma_is_space && c == ',' {
            ' '
        } else if 'a' <= c && c <= 'z' {
            ((c as u8) - 32) as char
        } else {
            c
        };
        push_char(&mut out, d);
        assert(s@.take(i + 1) =~= s@.take(i as int).push(c));
        assert(out@ =~= s@.take(i + 1).map_values(
            |c: char| if comma_is_space { combo_char(c) } else { upper_ascii(c) },
        ));
        i = i + 1;
    }
    assert(s@.take(n as int) =~= s@);
    out
}

/// Upper-cases the ASCII letters of a vocabulary word, as the tokenizer
/// expects its spellings.
pub fn to_upper_ascii(s: &str) -> (r: String)
    ensures
        r@ == s@.map_values(|c: char| upper_ascii(c)),
{
    let r = map_chars(s, false);
    assert(r@ =~= s@.map_values(|c: char| upper_ascii(c)));
    r
}

/// Prepares combo text for the tokenizer: commas become spaces and ASCII
/// letters are upper-cased.
pub fn normalize_combo(s: &str) -> (r: String)
    ensures
        r@ == s@.map_values(|c: char| combo_char(c)),
{
    let r = map_chars(s, true);
    assert(r@ =~= s@.map_values(|c: char| combo_char(c)));
    r
}

/// Whether a vocabulary can be made ready for matching: it has no
/// non-empty word, or the pattern engine accepts the alternation of those
/// words.
pub open spec fn vocabulary_accepted(vocabulary: Seq<Seq<char>>) -> bool {
    nonempty(vocabulary).len() == 0 || regex_accepts(alternation(nonempty(vocabulary)))
}

/// A vocabulary made ready for matching: its non-empty words, in order,
/// and the pattern of their alternation, compiled.
pub struct VocabularyMatcher {
    words: Vec<String>,
    re: Option<regex::Regex>,
}

impl VocabularyMatcher {
    /// The words that the matcher recognises.
    pub closed spec fn words(&self) -> Seq<Seq<char>> {
        self.words.deep_view()
    }

    #[verifier::type_invariant]
    spec fn well_formed(&self) -> bool {
        &&& forall|k: int| 0 <= k < self.words@.len() ==> (#[trigger] self.words@[k])@.len() > 0
        &&& match self.re {
            None => self.words@.len() == 0,
            Some(re) => literal_alternatives(regex_source(re)) == Some(self.words.deep_view()),
        }
    }

    /// Prepares a vocabulary: its empty words are left out (they can never
    /// be a token) and the others compiled into one pattern. Fails exactly
    /// when the pattern engine refuses that pattern.
    pub fn new(vocabulary: &Vec<String>) -> (r: Result<VocabularyMatcher, VocabularyError>)
        ensures
            r is Ok <==> vocabulary_accepted(vocabulary.deep_view()),
            r is Ok ==> r->Ok_0.words() == nonempty(vocabulary.deep_view()),
    {
        let ghost vs = vocabulary.deep_view();
        let n = vocabulary.len();
        let mut words: Vec<String> = Vec::new();
        let mut i: usize = 0;
        assert(vs.take(0) =~= Seq::<Seq<char>>::empty());
        while i < n
            invariant
                n == vocabulary@.len(),
                vs == vocabulary.deep_view(),
                i <= n,
                words.deep_view() == nonempty(vs.take(i as int)),
                forall|k: int| 0 <= k < words@.len() ==> (#[trigger] words@[k])@.len() > 0,
            decreases n - i,
        {
            assert(vs.take(i + 1).drop_last() =~= vs.take(i as int));
            assert(vs[i as int] == vocabulary[i as int]@);
            if vocabulary[i].unicode_len() > 0 {
                let w = vocabulary[i].clone();
                let ghost before = words.deep_view();
                words.push(w);
                assert(words.deep_view() =~= before.push(vs[i as int]));
            }
            i = i + 1;
        }
        assert(vs.take(n as int) =~= vs);
        if words.len() == 0 {
            return Ok(VocabularyMatcher { words, re: None });
        }
        let pattern = alternation_pattern(&words);
        proof {
            lemma_alternation_reads_back(words.deep_view());
        }
        match regex::Regex::new(pattern.as_str()) {
            Ok(re) => Ok(VocabularyMatcher { words, re: Some(re) }),
            Err(_) => Err(VocabularyError::PatternRejected),
        }
    }

    /// The length of the longest recognised word that is a prefix of `text`,
    /// or 0 when there is none.
    fn longest_word_at(&self, text: &str) -> (r: usize)
        ensures
            r == longest_prefix(text@, self.words()),
    {
        let n = self.words.len();
        let ghost ws = self.words();
        let mut best: usize = 0;
        let mut j: usize = 0;
        assert(ws.take(0) =~= Seq::<Seq<char>>::empty());
        while j < n
            invariant
                n == self.words@.len(),
                ws == self.words(),
                j <= n,
                best == longest_prefix(text@, ws.take(j as int)),
            decreases n - j,
        {
            proof {
                lemma_longest_prefix(text@, ws.take(j as int));
            }
            assert(ws.take(j + 1).drop_last() =~= ws.take(j as int));
            assert(ws[j as int] == self.words[j as int]@);
            let len = self.words[j].unicode_len();
            if len > best && starts_with_word(text, self.words[j].as_str()) {
                best = len;
            }
            j = j + 1;
        }
        assert(ws.take(n as int) =~= ws);
        best
    }

    /// Splits one line into tokens.
    pub fn tokenize(&self, line: &str) -> (r: Vec<Token>)
        ensures
            views(r@) == tokens_of(line@, self.words()),
    {
        proof {
            use_type_invariant(self);
        }
        let ghost ws = self.words();
        let n = line.unicode_len();
        let mut out: Vec<Token> = Vec::new();
        let mut pos: usize = 0;
        assert(line@.skip(0) =~= line@);
        assert(views(out@) + tokens_of(line@, ws) =~= tokens_of(line@, ws));
        while pos < n
            invariant
                n == line@.len(),
                pos <= n,
                ws == self.words(),
                forall|k: int| 0 <= k < ws.len() ==> (#[trigger] ws[k]).len() > 0,
                self.re is None ==> ws.len() == 0,
                self.re is Some ==> literal_alternatives(regex_source(self.re->Some_0)) == Some(ws),
                views(out@) + tokens_of(line@.skip(pos as int), ws) == tokens_of(line@, ws),
            decreases n - pos,
        {
            let rest = line.substring_char(pos, n);
            assert(rest@ =~= line@.skip(pos as int));
            let found = match &self.re {
                Some(re) => leftmost_match_start(re, rest),
                None => None,
            };
            let at_start = match found {
                Some(s) => s == 0,
                None => false,
            };
            proof {
                lemma_longest_prefix(rest@, ws);
            }
            let ghost before = views(out@);
            if at_start {
                let best = self.longest_word_at(rest);
                proof {
                    let k = choose|k: int| 0 <= k < ws.len() && #[trigger] occurs_at(rest@, 0, ws[k]);
                    assert(rest@.take(ws[k].len() as int) =~= rest@.subrange(0, ws[k].len() as int));
                    assert(is_prefix(ws[k], rest@));
                }
                let word = String::from_str(rest.substring_char(0, best));
                out.push(Token::Word(word));
                assert(rest@.skip(best as int) =~= line@.skip(pos + best));
                assert(views(out@) =~= before.push(TokenView::Word(rest@.take(best as int))));
                pos = pos + best;
            } else {
                proof {
                    if longest_prefix(rest@, ws) > 0 {
                        let k = choose|k: int|
                            0 <= k < ws.len() && (#[trigger] ws[k]).len() == longest_prefix(rest@, ws)
                                && is_prefix(ws[k], rest@);
                        assert(rest@.take(ws[k].len() as int) =~= rest@.subrange(0, ws[k].len() as int));
                        assert(occurs_at(rest@, 0, ws[k]));
                    }
                }
                let c = rest.get_char(0);
                if c == ' ' {
                    out.push(Token::Separator);
                    assert(views(out@) =~= before.push(TokenView::Separator));
                } else {
                    out.push(Token::Unrecognized);
                    assert(views(out@) =~= before.push(TokenView::Unrecognized));
                }
                assert(rest@.drop_first() =~= line@.skip(pos + 1));
                pos = pos + 1;
            }
        }
        assert(line@.skip(n as int) =~= Seq::<char>::empty());
        assert(views(out@) =~= tokens_of(line@, ws));
        out
    }
}

/// The lines of a text, split at each `'\n'` (a text without one is one
/// line; the empty text is one empty line).
pub open spec fn lines_of(text: Seq<char>) -> Seq<Seq<char>>
    decreases text.len(),
{
    if text.len() == 0 {
        seq![Seq::empty()]
    } else {
        let init = lines_of(text.drop_last());
        if text.last() == '\n' {
            init.push(Seq::empty())
        } else {
            init.update(init.len() - 1, init.last().push(text.last()))
        }
    }
}

/// The token views of each line.
pub open spec fn line_views(lines: Seq<Vec<Token>>) -> Seq<Seq<TokenView>> {
    lines.map_values(|l: Vec<Token>| views(l@))
}

/// Splits one line into tokens against a vocabulary.
pub fn tokenize_line(line: &str, vocabulary: &Vec<String>) -> (r: Result<Vec<Token>, VocabularyError>)
    ensures
        r is Ok <==> vocabulary_accepted(vocabulary.deep_view()),
        r is Ok ==> views(r->Ok_0@) == tokens_of(line@, vocabulary.deep_view()),
{
    let m = VocabularyMatcher::new(vocabulary)?;
    let r = m.tokenize(line);
    proof {
        lemma_tokens_nonempty(line@, vocabulary.deep_view());
    }
    Ok(r)
}

/// Splits a combo into lines at each `'\n'` and each line into tokens; the
/// vocabulary is prepared once for all lines.
pub fn tokenize_combo(text: &str, vocabulary: &Vec<String>) -> (r: Result<Vec<Vec<Token>>, VocabularyError>)
    ensures
        r is Ok ==> line_views(r->Ok_0@) == lines_of(text@).map_values(
            |l: Seq<char>| tokens_of(l, vocabulary.deep_view()),
        ),
        r is Ok <==> vocabulary_accepted(vocabulary.deep_view()),
{
    let ghost vs = vocabulary.deep_view();
    let m = VocabularyMatcher::new(vocabulary)?;
    let n = text.unicode_len();
    let mut done: Vec<Vec<Token>> = Vec::new();
    let mut current = String::new();
    let mut i: usize = 0;
    assert(text@.take(0) =~= Seq::<char>::empty());
    while i < n
        invariant
            n == text@.len(),
            i <= n,
            vs == vocabulary.deep_view(),
            m.words() == nonempty(vs),
            lines_of(text@.take(i as int)) == lines_of(text@.take(i as int)).take(
                done@.len() as int,
            ).push(current@),
            line_views(done@) == lines_of(text@.take(i as int)).take(done@.len() as int).map_values(
                |l: Seq<char>| tokens_of(l, vs),
            ),
            lines_of(text@.take(i as int)).len() == done@.len() + 1,
        decreases n - i,
    {
        let c = text.get_char(i);
        let ghost prev = lines_of(text@.take(i as int));
        assert(text@.take(i + 1).drop_last() =~= text@.take(i as int));
        if c == '\n' {
            let ghost line = current@;
            let toks = m.tokenize(current.as_str());
            proof {
                lemma_tokens_nonempty(line, vs);
            }
            let ghost done_before = line_views(done@);
            done.push(toks);
            current = String::new();
            let ghost next = lines_of(text@.take(i + 1));
            assert(next == prev.push(Seq::empty()));
            assert(next.take(done@.len() as int) =~= prev);
            assert(line_views(done@) =~= done_before.push(tokens_of(line, vs)));
            assert(next.take(done@.len() as int).map_values(|l: Seq<char>| tokens_of(l, vs))
                =~= prev.take(done@.len() - 1).map_values(|l: Seq<char>| tokens_of(l, vs)).push(tokens_of(line, vs)));
            assert(next =~= next.take(done@.len() as int).push(current@));
        } else {
            push_char(&mut current, c);
            let ghost next = lines_of(text@.take(i + 1));
            assert(next.take(done@.len() as int) =~= prev.take(done@.len() as int));
            assert(next =~= next.take(done@.len() as int).push(current@));
        }
        i = i + 1;
    }
    assert(text@.take(n as int) =~= text@);
    let ghost all = lines_of(text@);
    let toks = m.tokenize(current.as_str());
    proof {
        lemma_tokens_nonempty(current@, vs);
    }
    let ghost done_before = line_views(done@);
    done.push(toks);
    assert(line_views(done@) =~= done_before.push(tokens_of(current@, vs)));
    assert(all.map_values(|l: Seq<char>| tokens_of(l, vs)) =~= all.take(all.len() - 1).map_values(
        |l: Seq<char>| tokens_of(l, vs),
    ).push(tokens_of(current@, vs)));
    Ok(done)
}

/// How many characters of the line a token stands for.
pub open spec fn consumed(t: TokenView) -> nat {
    match t {
        TokenView::Word(w) => w.len(),
        _ => 1,
    }
}

/// The characters that a sequence of tokens stands for, in all.
pub open spec fn total_consumed(ts: Seq<TokenView>) -> nat
    decreases ts.len(),
{
    if ts.len() == 0 {
        0
    } else {
        consumed(ts[0]) + total_consumed(ts.drop_first())
    }
}

/// Every character of a line is accounted for exactly once: the characters
/// that its tokens stand for add up to the length of the line.
pub proof fn lemma_total_consumption(text: Seq<char>, words: Seq<Seq<char>>)
    ensures
        total_consumed(tokens_of(text, words)) == text.len(),
    decreases text.len(),
{
    if text.len() > 0 {
        let ts = tokens_of(text, words);
        let n = longest_prefix(text, words);
        if 0 < n <= text.len() {
            lemma_total_consumption(text.skip(n as int), words);
            assert(ts.drop_first() =~= tokens_of(text.skip(n as int), words));
        } else {
            lemma_total_consumption(text.drop_first(), words);
            assert(ts.drop_first() =~= tokens_of(text.drop_first(), words));
        }
    }
}

/// A line that is exactly one non-empty word of the vocabulary is one
/// token, that word, whatever punctuation the word holds.
pub proof fn lemma_single_word(words: Seq<Seq<char>>, k: int)
    requires
        0 <= k < words.len(),
        words[k].len() > 0,
    ensures
        tokens_of(words[k], words) == seq![TokenView::Word(words[k])],
{
    let w = words[k];
    lemma_longest_prefix(w, words);
    assert(w.take(w.len() as int) =~= w);
    assert(is_prefix(w, w));
    assert(tokens_of(w.skip(w.len() as int), words) == Seq::<TokenView>::empty());
    assert(seq![TokenView::Word(w)] + Seq::<TokenView>::empty() =~= seq![TokenView::Word(w)]);
}

/// Every word token is a spelling of the vocabulary.
pub proof fn lemma_words_come_from_vocabulary(text: Seq<char>, words: Seq<Seq<char>>)
    ensures
        forall|i: int|
            0 <= i < tokens_of(text, words).len() && (#[trigger] tokens_of(text, words)[i]) is Word
                ==> words.contains(tokens_of(text, words)[i]->Word_0),
    decreases text.len(),
{
    if text.len() > 0 {
        let ts = tokens_of(text, words);
        let n = longest_prefix(text, words);
        lemma_longest_prefix(text, words);
        let rest = if 0 < n <= text.len() {
            text.skip(n as int)
        } else {
            text.drop_first()
        };
        lemma_words_come_from_vocabulary(rest, words);
        assert(ts.drop_first() =~= tokens_of(rest, words));
        assert forall|i: int|
            0 <= i < ts.len() && (#[trigger] ts[i]) is Word implies words.contains(ts[i]->Word_0) by {
            if i == 0 {
                let k = choose|k: int|
                    0 <= k < words.len() && (#[trigger] words[k]).len() == n && is_prefix(words[k], text);
                assert(ts[0]->Word_0 == words[k]);
            } else {
                assert(ts[i] == tokens_of(rest, words)[i - 1]);
            }
        }
    }
}

/// The token of a character that starts no word.
pub open spec fn lone_char_token(c: char) -> TokenView {
    if c == ' ' {
        TokenView::Separator
    } else {
        TokenView::Unrecognized
    }
}

/// With an empty vocabulary every character is a token of its own: a
/// separator for a space, unrecognised otherwise.
pub proof fn lemma_empty_vocabulary(text: Seq<char>)
    ensures
        tokens_of(text, Seq::empty()) == text.map_values(|c: char| lone_char_token(c)),
    decreases text.len(),
{
    if text.len() > 0 {
        lemma_empty_vocabulary(text.drop_first());
        assert(text.map_values(|c: char| lone_char_token(c)) =~= seq![lone_char_token(text[0])]
            + text.drop_first().map_values(|c: char| lone_char_token(c)));
    } else {
        assert(text.map_values(|c: char| lone_char_token(c)) =~= Seq::<TokenView>::empty());
    }
}

/// Tokenizing keeps no state between calls: two tokenizations of the same
/// line against the same vocabulary give the same tokens.
pub proof fn lemma_tokenizing_repeats(
    line: Seq<char>,
    vocabulary: Seq<Seq<char>>,
    first: Seq<TokenView>,
    second: Seq<TokenView>,
)
    requires
        first == tokens_of(line, vocabulary),
        second == tokens_of(line, vocabulary),
    ensures
        first == second,
{
}

} // verus!
