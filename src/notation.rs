//! The character-level notation strategy: numeric-pad directions, weighted
//! normals (`LP` is a light punch), jump and chain markers, separators.
use vstd::prelude::*;

verus! {

/// What `char::to_lowercase` yields for a character, as a string.
pub uninterp spec fn lower_of(c: char) -> Seq<char>;

/// True for `'A'..='Z'`.
pub open spec fn is_ascii_upper(c: char) -> bool {
    'A' <= c && c <= 'Z'
}

/// True for `'a'..='z'`.
pub open spec fn is_ascii_lower(c: char) -> bool {
    'a' <= c && c <= 'z'
}

/// Relies on `char::to_lowercase`, collected into a `String`: the lowercase
/// mapping of the character, which for ASCII letters is the usual one.
#[verifier::external_body]
fn lowercase(c: char) -> (r: String)
    ensures
        r@ == lower_of(c),
        is_ascii_upper(c) ==> r@.len() == 1 && r@[0] as int == c as int + 32,
        is_ascii_lower(c) ==> r@ == seq![c],
{
    c.to_lowercase().collect::<String>()
}

/// The icon that the numeric pad gives a character: `None` for a non-digit,
/// one of eight arrows or the neutral icon for `1..=9`, the error icon for `0`.
pub open spec fn arrow_of(c: char) -> Option<Seq<char>> {
    if c == '1' {
        Some("default\\down-left.gif"@)
    } else if c == '2' {
        Some("default\\down.gif"@)
    } else if c == '3' {
        Some("default\\down-right.gif"@)
    } else if c == '4' {
        Some("default\\left.gif"@)
    } else if c == '5' {
        Some("default\\neutral.png"@)
    } else if c == '6' {
        Some("default\\right.gif"@)
    } else if c == '7' {
        Some("default\\up-left.gif"@)
    } else if c == '8' {
        Some("default\\up.gif"@)
    } else if c == '9' {
        Some("default\\up-right.gif"@)
    } else if c == '0' {
        Some(ERROR_ICON@)
    } else {
        None
    }
}

/// Icon of an unrecognised character.
pub const ERROR_ICON: &'static str = "default\\err.png";

/// Icon of a separator (a space or a line break).
pub const SPACE_ICON: &'static str = "default\\space.png";

/// Icon of a chain or cancel marker (`+`, `~`).
pub const PLUS_ICON: &'static str = "default\\plus.png";

/// Icon of the jump marker `J`.
pub const UP_ICON: &'static str = "default\\up.gif";

/// The numeric-pad pass: maps a decimal digit to its direction icon.
pub fn convert_to_arrow(c: char) -> (r: Option<String>)
    ensures
        r.is_some() == ('0' <= c && c <= '9'),
        r is Some ==> arrow_of(c) is Some && r->Some_0@ == arrow_of(c)->Some_0,
        r is None ==> arrow_of(c) is None,
{
    let s = if c == '1' {
        "default\\down-left.gif"
    } else if c == '2' {
        "default\\down.gif"
    } else if c == '3' {
        "default\\down-right.gif"
    } else if c == '4' {
        "default\\left.gif"
    } else if c == '5' {
        "default\\neutral.png"
    } else if c == '6' {
        "default\\right.gif"
    } else if c == '7' {
        "default\\up-left.gif"
    } else if c == '8' {
        "default\\up.gif"
    } else if c == '9' {
        "default\\up-right.gif"
    } else if c == '0' {
        ERROR_ICON
    } else {
        return None;
    };
    Some(String::from_str(s))
}

/// The weight letter (`l`, `m` or `h`) that a character announces, if any.
pub open spec fn weight_of(c: char) -> Option<char> {
    if c == 'L' || c == 'l' {
        Some('l')
    } else if c == 'M' || c == 'm' {
        Some('m')
    } else if c == 'H' || c == 'h' {
        Some('h')
    } else {
        None
    }
}

/// The button letter (`p` or `k`) that a character names, if any.
pub open spec fn button_of(c: char) -> Option<char> {
    if c == 'P' || c == 'p' {
        Some('p')
    } else if c == 'K' || c == 'k' {
        Some('k')
    } else {
        None
    }
}

/// The icon of a button, fused with a pending weight when there is one:
/// `Sg_lp.png` for a light punch, `Sg_p.png` for a bare punch.
pub open spec fn button_icon(weight: Seq<char>, letter: Seq<char>) -> Seq<char> {
    "Sg_"@ + weight + letter + ".png"@
}

/// The icon of a character that is neither a digit, a weight nor a button.
pub open spec fn marker_icon(c: char) -> Seq<char> {
    if c == 'J' || c == 'j' {
        UP_ICON@
    } else if c == '+' || c == '~' {
        PLUS_ICON@
    } else if c == '\n' || c == ' ' {
        SPACE_ICON@
    } else {
        ERROR_ICON@
    }
}

/// Emits the icon of a button letter, fused with the pending weight when
/// `append_next` is set; the pending weight is consumed either way.
pub fn check_weight(append_next: &mut bool, weight: &Option<String>, c: char) -> (r: Option<String>)
    requires
        *old(append_next) ==> weight is Some,
    ensures
        !*final(append_next),
        is_ascii_upper(c) ==> lower_of(c).len() == 1 && lower_of(c)[0] as int == c as int + 32,
        is_ascii_lower(c) ==> lower_of(c) == seq![c],
        r is Some,
        r->Some_0@ == button_icon(
            if *old(append_next) {
                weight->Some_0@
            } else {
                Seq::<char>::empty()
            },
            lower_of(c),
        ),
{
    let letter = lowercase(c);
    let mut icon = String::from_str("Sg_");
    if *append_next {
        *append_next = false;
        match weight {
            Some(w) => icon.append(w.as_str()),
            None => {},
        }
    }
    icon.append(letter.as_str());
    icon.append(".png");
    Some(icon)
}

/// One step of the letter machine: a weight letter is held until the next
/// button letter, with which it fuses; `J`, `+`, `~`, spaces and line breaks
/// have fixed icons, and a line break raises `nl`; any other character gives
/// the error icon.
pub fn translate_inputs(
    append_next: &mut bool,
    weight: &mut Option<String>,
    c: char,
    nl: &mut bool,
) -> (r: Option<String>)
    requires
        *old(append_next) ==> (*old(weight)) is Some,
    ensures
        weight_of(c) is Some ==> {
            &&& r is None
            &&& *final(append_next)
            &&& (*final(weight)) is Some
            &&& (*final(weight))->Some_0@ == seq![weight_of(c)->Some_0]
            &&& *final(nl) == *old(nl)
        },
        button_of(c) is Some ==> {
            &&& r is Some
            &&& r->Some_0@ == button_icon(
                if *old(append_next) {
                    (*old(weight))->Some_0@
                } else {
                    Seq::<char>::empty()
                },
                seq![button_of(c)->Some_0],
            )
            &&& !*final(append_next)
            &&& *final(weight) == *old(weight)
            &&& *final(nl) == *old(nl)
        },
        weight_of(c) is None && button_of(c) is None ==> {
            &&& r is Some
            &&& r->Some_0@ == marker_icon(c)
            &&& *final(append_next) == *old(append_next)
            &&& *final(weight) == *old(weight)
            &&& *final(nl) == (*old(nl) || c == '\n')
        },
{
    if c == 'L' || c == 'l' || c == 'M' || c == 'm' || c == 'H' || c == 'h' {
        *append_next = true;
        let w = if c == 'L' || c == 'l' {
            "l"
        } else if c == 'M' || c == 'm' {
            "m"
        } else {
            "h"
        };
        proof {
            reveal_strlit("l");
            reveal_strlit("m");
            reveal_strlit("h");
        }
        *weight = Some(String::from_str(w));
        None
    } else if c == 'P' || c == 'p' || c == 'K' || c == 'k' {
        let r = check_weight(append_next, weight, c);
        proof {
            let l = lower_of(c)[0];
            if is_ascii_upper(c) {
                assert(l as int == button_of(c)->Some_0 as int);
                assert(l == button_of(c)->Some_0);
            }
            assert(lower_of(c) =~= seq![button_of(c)->Some_0]);
        }
        r
    } else if c == 'J' || c == 'j' {
        Some(String::from_str(UP_ICON))
    } else if c == '+' || c == '~' {
        Some(String::from_str(PLUS_ICON))
    } else if c == '\n' {
        *nl = true;
        Some(String::from_str(SPACE_ICON))
    } else if c == ' ' {
        Some(String::from_str(SPACE_ICON))
    } else {
        Some(String::from_str(ERROR_ICON))
    }
}

/// The state of the strategy after a prefix of the text: the icons of each
/// line so far (the last one still open), whether a weight is pending, and
/// the pending weight letter.
pub struct NotationRun {
    pub lines: Seq<Seq<Seq<char>>>,
    pub append_next: bool,
    pub weight: Seq<char>,
}

/// The run with one more icon at the end of its open line.
pub open spec fn emit(run: NotationRun, icon: Seq<char>) -> NotationRun {
    NotationRun {
        lines: run.lines.update(run.lines.len() - 1, run.lines.last().push(icon)),
        ..run
    }
}

/// One character of the strategy: the numeric pad is tried first, then the
/// letter machine; a line break closes the open line after its icon.
pub open spec fn notation_step(run: NotationRun, c: char) -> NotationRun {
    if arrow_of(c) is Some {
        emit(run, arrow_of(c)->Some_0)
    } else if weight_of(c) is Some {
        NotationRun { append_next: true, weight: seq![weight_of(c)->Some_0], ..run }
    } else if button_of(c) is Some {
        let fused = if run.append_next {
            run.weight
        } else {
            Seq::empty()
        };
        NotationRun {
            append_next: false,
            ..emit(run, button_icon(fused, seq![button_of(c)->Some_0]))
        }
    } else if c == '\n' {
        let closed = emit(run, marker_icon(c));
        NotationRun { lines: closed.lines.push(Seq::empty()), ..closed }
    } else {
        emit(run, marker_icon(c))
    }
}

/// The strategy run over a whole text, from one empty line and no pending
/// weight.
pub open spec fn run_notation(text: Seq<char>) -> NotationRun
    decreases text.len(),
{
    if text.len() == 0 {
        NotationRun { lines: seq![Seq::empty()], append_next: false, weight: Seq::empty() }
    } else {
        notation_step(run_notation(text.drop_last()), text.last())
    }
}

/// A weight letter followed by a button letter adds exactly one icon, the
/// fused one, whatever came before them.
pub proof fn lemma_weight_fuses_with_button(text: Seq<char>, w: char, b: char)
    requires
        weight_of(w) is Some,
        button_of(b) is Some,
    ensures
        run_notation(text.push(w).push(b)).lines == emit(
            run_notation(text),
            button_icon(seq![weight_of(w)->Some_0], seq![button_of(b)->Some_0]),
        ).lines,
        !run_notation(text.push(w).push(b)).append_next,
{
    assert(text.push(w).push(b).drop_last() =~= text.push(w));
    assert(text.push(w).drop_last() =~= text);
    let before = run_notation(text);
    let pending = run_notation(text.push(w));
    assert(pending == notation_step(before, w));
    assert(pending.append_next && pending.weight == seq![weight_of(w)->Some_0]);
    assert(pending.lines == before.lines);
    assert(run_notation(text.push(w).push(b)) == notation_step(pending, b));
}

/// A weight letter adds no icon by itself: one that no button follows is
/// dropped.
pub proof fn lemma_weight_alone_adds_nothing(text: Seq<char>, w: char)
    requires
        weight_of(w) is Some,
    ensures
        run_notation(text.push(w)).lines == run_notation(text).lines,
{
    assert(text.push(w).drop_last() =~= text);
}

/// Decodes a combo written in the shorthand into the icons of each line.
/// A weight still pending at the end of the text is dropped.
pub fn translate_notation(text: &str) -> (r: Vec<Vec<String>>)
    ensures
        r.deep_view() == run_notation(text@).lines,
{
    let n = text.unicode_len();
    let mut done: Vec<Vec<String>> = Vec::new();
    let mut current: Vec<String> = Vec::new();
    let mut append_next = false;
    let mut weight: Option<String> = None;
    let mut nl = false;
    let mut i: usize = 0;
    assert(text@.take(0) =~= Seq::<char>::empty());
    assert(done.deep_view().push(current.deep_view()) =~~= seq![Seq::<Seq<char>>::empty()]);
    while i < n
        invariant
            n == text@.len(),
            i <= n,
            !nl,
            append_next ==> weight is Some,
            run_notation(text@.take(i as int)).lines == done.deep_view().push(current.deep_view()),
            run_notation(text@.take(i as int)).append_next == append_next,
            append_next ==> run_notation(text@.take(i as int)).weight == weight->Some_0@,
        decreases n - i,
    {
        let c = text.get_char(i);
        assert(text@.take(i + 1).drop_last() =~= text@.take(i as int));
        let ghost before = run_notation(text@.take(i as int));
        let ghost lines0 = current.deep_view();
        match convert_to_arrow(c) {
            Some(icon) => {
                current.push(icon);
                assert(current.deep_view() =~= lines0.push(arrow_of(c)->Some_0));
            },
            None => {
                let icon = translate_inputs(&mut append_next, &mut weight, c, &mut nl);
                match icon {
                    Some(icon) => {
                        let ghost v = icon@;
                        current.push(icon);
                        assert(current.deep_view() =~= lines0.push(v));
                    },
                    None => {},
                }
                let ghost done0 = done.deep_view();
                let ghost lines1 = current.deep_view();
                if nl {
                    done.push(current);
                    current = Vec::new();
                    nl = false;
                    assert(done.deep_view() =~= done0.push(lines1));
                    assert(current.deep_view() =~= Seq::<Seq<char>>::empty());
                }
            },
        }
        assert(run_notation(text@.take(i + 1)).lines =~~= done.deep_view().push(current.deep_view()));
        i = i + 1;
    }
    assert(text@.take(n as int) =~= text@);
    done.push(current);
    assert(done.deep_view() =~~= run_notation(text@).lines);
    done
}

} // verus!
