//! Text classification of the engine's word model.

use vstd::prelude::*;

use crate::text::chars_of;

verus! {

/// The broad range U+0800–U+9FFC, or a Hangul syllable.
pub open spec fn cjk_like(c: char) -> bool {
    ('\u{0800}' <= c && c <= '\u{9FFC}') || ('\u{AC00}' <= c && c <= '\u{D7AF}')
}

/// Whether the text is non-empty and every character is in the broad CJK
/// range (U+0800–U+9FFC) or a Hangul syllable.
pub fn is_cjk_text(text: &str) -> (r: bool)
    ensures
        r == (text@.len() > 0 && forall|i: int| 0 <= i < text@.len() ==> cjk_like(#[trigger] text@[i])),
{
    let v = chars_of(text);
    if v.len() == 0 {
        return false;
    }
    let mut i: usize = 0;
    while i < v.len()
        invariant
            i <= v.len(),
            v@ == text@,
            forall|j: int| 0 <= j < i ==> cjk_like(#[trigger] v@[j]),
        decreases v.len() - i,
    {
        let c = v[i];
        if !(('\u{0800}' <= c && c <= '\u{9FFC}') || ('\u{AC00}' <= c && c <= '\u{D7AF}')) {
            assert(!cjk_like(text@[i as int]));
            return false;
        }
        i += 1;
    }
    true
}

} // verus!
