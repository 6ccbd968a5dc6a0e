use silent_cartographer::unicode::is_whitespace;

#[test]
fn whitespace_agrees_with_the_standard_library_on_every_character() {
    for v in 0u32..=0x10FFFF {
        if let Some(c) = char::from_u32(v) {
            assert_eq!(is_whitespace(c), c.is_whitespace(), "U+{v:04X}");
        }
    }
}
