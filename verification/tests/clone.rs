use silent_cartographer::graph::clone::{clone_keys, CloneKeys};
use silent_cartographer::graph::syntax::{SpelledToken, TokenClass};

const KEYWORDS: &[&str] = &["fn", "let", "u32", "usize"];

/// The spelled tokens of a small Rust fixture, as the parser yields them for a function: comments
/// and whitespace dropped, `->` one token, numbers literals, non-keyword words identifiers.
fn spell(source: &str) -> Vec<SpelledToken> {
    let chars: Vec<char> = source.chars().collect();
    let mut out = Vec::new();
    let mut i = 0;
    while i < chars.len() {
        let c = chars[i];
        if c.is_whitespace() {
            i += 1;
        } else if c == '/' && i + 1 < chars.len() && chars[i + 1] == '/' {
            while i < chars.len() && chars[i] != '\n' {
                i += 1;
            }
        } else if c.is_alphanumeric() || c == '_' {
            let start = i;
            while i < chars.len() && (chars[i].is_alphanumeric() || chars[i] == '_') {
                i += 1;
            }
            let text: String = chars[start..i].iter().collect();
            let class = if text.chars().all(|d| d.is_ascii_digit()) {
                TokenClass::Literal
            } else if KEYWORDS.contains(&text.as_str()) {
                TokenClass::Other
            } else {
                TokenClass::Identifier
            };
            out.push(SpelledToken { text, class });
        } else if c == '-' && i + 1 < chars.len() && chars[i + 1] == '>' {
            out.push(SpelledToken { text: "->".to_string(), class: TokenClass::Other });
            i += 2;
        } else {
            out.push(SpelledToken { text: c.to_string(), class: TokenClass::Other });
            i += 1;
        }
    }
    out
}

fn keys_of(source: &str) -> CloneKeys {
    clone_keys(&spell(source)).expect("a function spells tokens")
}

/// Sources differing only in whitespace and comments share the formatting-insensitive key.
#[test]
fn formatting_variants_share_the_formatting_key() {
    let a = keys_of("fn add(x: u32, y: u32) -> u32 { x + y }");
    let b = keys_of("fn add(\n    x: u32, // the left addend\n    y: u32\n) -> u32 {\n    x + y\n}");
    assert_eq!(a.formatting_key, b.formatting_key);
    assert_eq!(a.substitution_key, b.substitution_key);
}

/// A consistently renamed copy shares only the substitution-insensitive key.
#[test]
fn renamed_copy_shares_only_the_substitution_key() {
    let a = keys_of("fn add(x: u32, y: u32) -> u32 { let total = x + y; total }");
    let b = keys_of("fn plus(a: u32, b: u32) -> u32 { let sum = a + b; sum }");
    assert_ne!(a.formatting_key, b.formatting_key);
    assert_eq!(a.substitution_key, b.substitution_key);
}

/// A copy differing only in its literal values shares only the substitution-insensitive key.
#[test]
fn literal_substituted_copy_shares_only_the_substitution_key() {
    let a = keys_of("fn retries() -> u32 { 3 + 3 }");
    let b = keys_of("fn retries() -> u32 { 5 + 5 }");
    assert_ne!(a.formatting_key, b.formatting_key);
    assert_eq!(a.substitution_key, b.substitution_key);
}

/// Merging two distinct identifiers into one changes the ordinal pattern.
#[test]
fn merged_identifiers_share_neither_key() {
    let a = keys_of("fn f(x: u32, y: u32) -> u32 { x + y }");
    let b = keys_of("fn f(x: u32, x2: u32) -> u32 { x + x }");
    assert_ne!(a.formatting_key, b.formatting_key);
    assert_ne!(a.substitution_key, b.substitution_key);
}

/// Structurally different code shares neither key.
#[test]
fn unrelated_code_shares_neither_key() {
    let a = keys_of("fn f(x: u32) -> u32 { x * 2 }");
    let b = keys_of("fn g(items: Vec<u32>) -> usize { items.len() }");
    assert_ne!(a.formatting_key, b.formatting_key);
    assert_ne!(a.substitution_key, b.substitution_key);
}

/// Comments never enter the token sequence.
#[test]
fn comments_never_enter_the_sequence() {
    let a = keys_of("fn f() -> u32 { 1 }");
    let b = keys_of("/// Documented.\nfn f() -> u32 {\n    // inner note\n    1\n}");
    assert_eq!(a.formatting_key, b.formatting_key);
}

#[test]
fn no_tokens_yield_no_keys() {
    assert!(clone_keys(&[]).is_none());
}

#[test]
fn keys_are_lowercase_sha256_hex() {
    let k = keys_of("fn f() {}");
    assert_eq!(k.formatting_key.len(), 64);
    assert!(k.formatting_key.chars().all(|c| c.is_ascii_hexdigit() && !c.is_ascii_uppercase()));
    assert_ne!(k.formatting_key, "0".repeat(64));
}

/// The formatting key is SHA-256 over each token's length as eight little-endian bytes and then
/// its bytes: one token `a` frames as `01 00 00 00 00 00 00 00 61`.
#[test]
fn the_formatting_key_hashes_length_prefixed_tokens() {
    let k = clone_keys(&[SpelledToken { text: "a".to_string(), class: TokenClass::Identifier }]).unwrap();
    assert_eq!(k.formatting_key, "ae6121c88ba555f64c3d812123eb799d128015541f850c5e9bf1d54c08ad8481");
    // The identifier canonicalizes to its first ordinal, `i0`.
    assert_eq!(k.substitution_key, "fa960abcd5193357b043f2599a9b5fb35b5565bb53f91805ab56831442263506");
    let twin = clone_keys(&[SpelledToken { text: "b".to_string(), class: TokenClass::Identifier }]).unwrap();
    assert_ne!(k.formatting_key, twin.formatting_key);
    assert_eq!(k.substitution_key, twin.substitution_key);
}
