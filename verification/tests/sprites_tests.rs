use kpt_lib::sprites::sprite_indices;

#[test]
fn sprites_start_at_space() {
    let text: Vec<char> = "D: exports dxf".chars().collect();
    let r = sprite_indices(&text);
    assert_eq!(r, vec![36, 26, 0, 69, 88, 80, 79, 82, 84, 83, 0, 68, 88, 70]);
}

#[test]
fn sprites_use_low_byte_of_code() {
    // 'é' is U+00E9, drawn by byte 0xE9 = 233.
    assert_eq!(sprite_indices(&vec!['é', ' ', '~']), vec![201, 0, 94]);
    // U+0141 has low byte 0x41 = 'A'.
    assert_eq!(sprite_indices(&vec!['\u{141}']), vec![33]);
}

#[test]
fn empty_text_has_no_sprites() {
    assert_eq!(sprite_indices(&vec![]), Vec::<u16>::new());
}
