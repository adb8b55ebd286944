use vstd::prelude::*;

verus! {

/// The byte that a character is drawn by: the low eight bits of its code.
pub open spec fn glyph_byte(c: char) -> int {
    (c as u32) as int % 256
}

/// The sprite that draws `c` in the ASCII sprite sheet, which starts at the
/// space character (code 32).
pub open spec fn sprite_of(c: char) -> u16 {
    (glyph_byte(c) - 32) as u16
}

/// Whether every character of `text` has a sprite: its byte is at least 32.
pub open spec fn drawable(text: Seq<char>) -> bool {
    forall|i: int| 0 <= i < text.len() ==> glyph_byte(#[trigger] text[i]) >= 32
}

/// The sprite indices for a line of text, one per character, in order.
pub fn sprite_indices(text: &Vec<char>) -> (r: Vec<u16>)
    requires
        drawable(text@),
    ensures
        r@ == text@.map_values(|c: char| sprite_of(c)),
        r@.len() == text@.len(),
        forall|i: int| 0 <= i < r@.len() ==> r@[i] + 32 == (text@[i] as u32) % 256,
{
    let mut r: Vec<u16> = Vec::new();
    let n = text.len();
    for i in 0..n
        invariant
            n == text@.len(),
            drawable(text@),
            r@ == text@.subrange(0, i as int).map_values(|c: char| sprite_of(c)),
    {
        let a = text[i];
        let code: u32 = a as u32;
        let ascii: u32 = code % 256;
        assert(glyph_byte(text@[i as int]) >= 32);
        r.push((ascii - 32) as u16);
        assert(text@.subrange(0, i + 1) =~= text@.subrange(0, i as int).push(a));
        assert(r@ =~= text@.subrange(0, i + 1).map_values(|c: char| sprite_of(c)));
    }
    assert(text@.subrange(0, n as int) =~= text@);
    proof {
        assert forall|i: int| 0 <= i < r@.len() implies r@[i] + 32 == (text@[i] as u32) % 256 by {
            lemma_sprite_sheet_offset(text@[i]);
        }
    }
    r
}

/// The sprite sheet starts at the space character and follows the byte
/// order: a drawable character is drawn by the sprite at its byte less 32,
/// so every printable ASCII character (32 to 126) has its own sprite.
pub proof fn lemma_sprite_sheet_offset(c: char)
    requires
        (c as u32) % 256 >= 32,
    ensures
        sprite_of(c) + 32 == (c as u32) % 256,
        32 <= (c as u32) <= 126 ==> sprite_of(c) == (c as u32) - 32,
{
}

} // verus!
