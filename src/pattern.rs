//! Literal alternation patterns: every word of a vocabulary escaped so that
//! its punctuation matches literally, the words joined by `|`, and the
//! search for the leftmost occurrence of any of them, made by the regex crate.
use vstd::prelude::*;

verus! {

/// The characters that the pattern syntax gives a meaning of their own;
/// each of them matches literally once preceded by a backslash.
pub open spec fn is_meta(c: char) -> bool {
    c == '\\' || c == '.' || c == '+' || c == '*' || c == '?' || c == '(' || c == ')' || c == '|'
        || c == '[' || c == ']' || c == '{' || c == '}' || c == '^' || c == '$' || c == '#'
        || c == '&' || c == '-' || c == '~'
}

/// A word written as a pattern that matches exactly that word.
pub open spec fn escaped(w: Seq<char>) -> Seq<char>
    decreases w.len(),
{
    if w.len() == 0 {
        Seq::empty()
    } else {
        let head = if is_meta(w[0]) {
            seq!['\\', w[0]]
        } else {
            seq![w[0]]
        };
        head + escaped(w.drop_first())
    }
}

/// The escaped words joined by `|`.
pub open spec fn alternation(ws: Seq<Seq<char>>) -> Seq<char>
    decreases ws.len(),
{
    if ws.len() == 0 {
        Seq::empty()
    } else if ws.len() == 1 {
        escaped(ws[0])
    } else {
        escaped(ws[0]) + seq!['|'] + alternation(ws.drop_first())
    }
}

/// The alternatives with `w` put in front of the first one.
pub open spec fn prefix_first(w: Seq<char>, alts: Seq<Seq<char>>) -> Seq<Seq<char>> {
    seq![w + alts[0]] + alts.skip(1)
}

/// Reads a pattern made only of literal characters, escaped meta
/// characters and `|`: `Some` of its alternatives, in order, or `None` when
/// the pattern holds anything else.
pub open spec fn literal_alternatives(p: Seq<char>) -> Option<Seq<Seq<char>>>
    decreases p.len(),
{
    if p.len() == 0 {
        Some(seq![Seq::empty()])
    } else if p[0] == '|' {
        match literal_alternatives(p.drop_first()) {
            Some(alts) => Some(seq![Seq::empty()] + alts),
            None => None,
        }
    } else if p[0] == '\\' {
        if p.len() >= 2 && is_meta(p[1]) {
            match literal_alternatives(p.skip(2)) {
                Some(alts) => Some(prefix_first(seq![p[1]], alts)),
                None => None,
            }
        } else {
            None
        }
    } else if is_meta(p[0]) {
        None
    } else {
        match literal_alternatives(p.drop_first()) {
            Some(alts) => Some(prefix_first(seq![p[0]], alts)),
            None => None,
        }
    }
}

/// `w` occurs in `text` starting at position `pos`.
pub open spec fn occurs_at(text: Seq<char>, pos: int, w: Seq<char>) -> bool {
    0 <= pos && pos + w.len() <= text.len() && text.subrange(pos, pos + w.len()) == w
}

/// Reading an escaped word followed by more pattern puts the word in
/// front of the first alternative of the rest.
pub proof fn lemma_read_escaped(w: Seq<char>, rest: Seq<char>)
    ensures
        literal_alternatives(escaped(w) + rest) == match literal_alternatives(rest) {
            Some(alts) => Some(prefix_first(w, alts)),
            None => None,
        },
    decreases w.len(),
{
    if w.len() == 0 {
        assert(escaped(w) + rest =~= rest);
        match literal_alternatives(rest) {
            Some(alts) => {
                assert(prefix_first(w, alts) =~= alts);
            },
            None => {},
        }
    } else {
        let tail = w.drop_first();
        lemma_read_escaped(tail, rest);
        let p = escaped(w) + rest;
        let q = escaped(tail) + rest;
        if is_meta(w[0]) {
            assert(p =~= seq!['\\', w[0]] + q);
            assert(p.skip(2) =~= q);
        } else {
            assert(p =~= seq![w[0]] + q);
            assert(p.drop_first() =~= q);
        }
        match literal_alternatives(rest) {
            Some(alts) => {
                let inner = prefix_first(tail, alts);
                assert(prefix_first(seq![w[0]], inner) =~= prefix_first(w, alts)) by {
                    assert(seq![w[0]] + (tail + alts[0]) =~= w + alts[0]);
                    assert(inner.skip(1) =~= alts.skip(1));
                };
            },
            None => {},
        }
    }
}

/// The alternation of a non-empty list of words reads back as exactly
/// those words, whatever punctuation they hold.
pub proof fn lemma_alternation_reads_back(ws: Seq<Seq<char>>)
    requires
        ws.len() > 0,
    ensures
        literal_alternatives(alternation(ws)) == Some(ws),
    decreases ws.len(),
{
    if ws.len() == 1 {
        lemma_read_escaped(ws[0], Seq::empty());
        assert(escaped(ws[0]) + Seq::<char>::empty() =~= escaped(ws[0]));
        assert(prefix_first(ws[0], seq![Seq::<char>::empty()]) =~= ws);
    } else {
        let rest = seq!['|'] + alternation(ws.drop_first());
        lemma_alternation_reads_back(ws.drop_first());
        lemma_read_escaped(ws[0], rest);
        assert(escaped(ws[0]) + seq!['|'] + alternation(ws.drop_first()) =~= escaped(ws[0]) + rest);
        assert(rest.drop_first() =~= alternation(ws.drop_first()));
        let alts = seq![Seq::<char>::empty()] + ws.drop_first();
        assert(prefix_first(ws[0], alts) =~= ws) by {
            assert(ws[0] + alts[0] =~= ws[0]);
            assert(alts.skip(1) =~= ws.drop_first());
        };
    }
}

/// Relies on `String::push`: the character is appended at the end.
#[verifier::external_body]
pub(crate) fn push_char(s: &mut String, c: char)
    ensures
        final(s)@ == old(s)@.push(c),
{
    s.push(c);
}

/// Whether the pattern syntax gives `c` a meaning of its own.
pub fn is_meta_char(c: char) -> (r: bool)
    ensures
        r == is_meta(c),
{
    c == '\\' || c == '.' || c == '+' || c == '*' || c == '?' || c == '(' || c == ')' || c == '|'
        || c == '[' || c == ']' || c == '{' || c == '}' || c == '^' || c == '$' || c == '#'
        || c == '&' || c == '-' || c == '~'
}

/// Appends `w`, escaped, to `out`.
pub fn escape_into(out: &mut String, w: &str)
    ensures
        final(out)@ == old(out)@ + escaped(w@),
{
    let n = w.unicode_len();
    let ghost start = out@;
    let mut i: usize = 0;
    assert(w@.subrange(0, n as int) =~= w@);
    assert(start + escaped(w@) =~= out@ + escaped(w@.subrange(0, n as int)));
    while i < n
        invariant
            n == w@.len(),
            i <= n,
            start + escaped(w@) == out@ + escaped(w@.subrange(i as int, n as int)),
        decreases n - i,
    {
        let c = w.get_char(i);
        let ghost before = out@;
        let ghost rest = w@.subrange(i as int, n as int);
        assert(rest.drop_first() =~= w@.subrange(i + 1, n as int));
        if is_meta_char(c) {
            push_char(out, '\\');
            assert(before + escaped(rest) =~= out@ + seq![c] + escaped(rest.drop_first()));
        } else {
            assert(before + escaped(rest) =~= out@ + seq![c] + escaped(rest.drop_first()));
        }
        push_char(out, c);
        assert(before + escaped(rest) =~= out@ + escaped(w@.subrange(i + 1, n as int)));
        i = i + 1;
    }
    assert(escaped(w@.subrange(n as int, n as int)) =~= Seq::<char>::empty());
    assert(start + escaped(w@) =~= out@);
}

/// The pattern that matches any one of `words`, each literally.
pub fn alternation_pattern(words: &Vec<String>) -> (r: String)
    ensures
        r@ == alternation(words.deep_view()),
{
    let ghost ws = words.deep_view();
    let n = words.len();
    let mut out = String::new();
    let mut i: usize = 0;
    while i < n
        invariant
            n == words@.len(),
            ws == words.deep_view(),
            i <= n,
            0 < i < n ==> alternation(ws) == out@ + seq!['|'] + alternation(ws.subrange(i as int, n as int)),
            i == 0 ==> out@ == Seq::<char>::empty(),
            i == n && n > 0 ==> alternation(ws) == out@,
        decreases n - i,
    {
        let ghost before = out@;
        let ghost rest = ws.subrange(i as int, n as int);
        assert(i == 0 ==> rest =~= ws);
        assert(rest.drop_first() =~= ws.subrange(i + 1, n as int));
        assert(rest[0] == words[i as int]@);
        if i > 0 {
            push_char(&mut out, '|');
        }
        escape_into(&mut out, words[i].as_str());
        if i + 1 < n {
            assert(alternation(ws) =~= out@ + seq!['|'] + alternation(ws.subrange(i + 1, n as int)));
        } else {
            assert(alternation(ws) =~= out@);
        }
        i = i + 1;
    }
    if n == 0 {
        assert(ws =~= Seq::<Seq<char>>::empty());
    }
    out
}

#[verifier::external_type_specification]
#[verifier::external_body]
pub struct ExRegex(regex::Regex);

#[verifier::external_type_specification]
#[verifier::external_body]
pub struct ExRegexError(regex::Error);

/// The pattern text of a regex built by `regex::Regex::new`, as
/// `regex::Regex::as_str` gives it back.
pub uninterp spec fn regex_source(re: regex::Regex) -> Seq<char>;

/// Whether `regex::Regex::new` accepts a pattern: it refuses an invalid
/// pattern and one over the default size limit, which depends on the
/// pattern alone.
pub uninterp spec fn regex_accepts(p: Seq<char>) -> bool;

/// Relies on `regex::Regex::new`: it succeeds exactly on the patterns it
/// accepts, and a compiled regex keeps the text it was built from.
pub assume_specification[ regex::Regex::new ](re: &str) -> (r: Result<regex::Regex, regex::Error>)
    ensures
        r is Ok <==> regex_accepts(re@),
        r is Ok ==> regex_source(r->Ok_0) == re@,
;

/// Relies on `regex::Regex::find`: the first match in the haystack, the
/// one that starts leftmost. For a pattern of literal alternatives a match
/// is an occurrence of one of them. The match's start, a byte offset, is
/// returned as a count of characters.
#[verifier::external_body]
pub(crate) fn leftmost_match_start(re: &regex::Regex, hay: &str) -> (r: Option<usize>)
    requires
        literal_alternatives(regex_source(*re)) is Some,
    ensures
        ({
            let alts = literal_alternatives(regex_source(*re))->Some_0;
            match r {
                None => forall|p: int, k: int|
                    0 <= k < alts.len() ==> !#[trigger] occurs_at(hay@, p, alts[k]),
                Some(s) => {
                    &&& s <= hay@.len()
                    &&& exists|k: int| 0 <= k < alts.len() && #[trigger] occurs_at(hay@, s as int, alts[k])
                    &&& forall|p: int, k: int|
                        0 <= p < s && 0 <= k < alts.len() ==> !#[trigger] occurs_at(hay@, p, alts[k])
                },
            }
        }),
{
    re.find(hay).map(|m| hay[..m.start()].chars().count())
}

} // verus!
