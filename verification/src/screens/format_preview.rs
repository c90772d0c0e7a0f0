//! Pieces of the formatting preview that stand on their own.
use vstd::prelude::*;

use crate::text::{chars_of, concat3, push_char, string_of};

verus! {

/// How a character of changed text is drawn: line break, tab, space and the
/// full-width space get a visible sign.
pub open spec fn visible_char(c: char) -> char {
    if c == '\n' {
        '⏎'
    } else if c == '\t' {
        '⇥'
    } else if c == ' ' {
        '·'
    } else if c == '\u{3000}' {
        '□'
    } else {
        c
    }
}

pub open spec fn spec_visible(s: Seq<char>) -> Seq<char> {
    if s.len() == 0 {
        "（空）"@
    } else {
        "「"@ + s.map_values(|c: char| visible_char(c)) + "」"@
    }
}

/// Shows white space in changed text; the empty text reads "（空）".
pub fn visible(s: &str) -> (r: String)
    ensures
        r@ == spec_visible(s@),
{
    let v = chars_of(s);
    if v.len() == 0 {
        return string_of("（空）");
    }
    let mut shown = String::new();
    let mut i: usize = 0;
    while i < v.len()
        invariant
            i <= v.len(),
            shown@ == v@.take(i as int).map_values(|c: char| visible_char(c)),
        decreases v.len() - i,
    {
        let c = v[i];
        let d = if c == '\n' {
            '⏎'
        } else if c == '\t' {
            '⇥'
        } else if c == ' ' {
            '·'
        } else if c == '\u{3000}' {
            '□'
        } else {
            c
        };
        push_char(&mut shown, d);
        assert(v@.take(i as int + 1) == v@.take(i as int).push(c));
        assert(v@.take(i as int + 1).map_values(|c: char| visible_char(c))
            == v@.take(i as int).map_values(|c: char| visible_char(c)).push(visible_char(c)));
        i = i + 1;
    }
    assert(v@.take(v.len() as int) == v@);
    concat3("「", shown.as_str(), "」")
}

} // verus!
