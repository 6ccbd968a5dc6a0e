//! Clone-equivalence keys over a leaf declaration's spelled token sequence.
//!
//! The formatting-insensitive key hashes the tokens as spelled, so two declarations differing only
//! in whitespace and comments share it. The substitution-insensitive key hashes the tokens with
//! each distinct identifier and each distinct literal replaced by its first-occurrence ordinal, one
//! ordinal space per token class, so a consistently renamed copy shares it. Each token is
//! length-prefixed before hashing, so no concatenation of neighboring tokens can spell another
//! sequence's bytes.

use vstd::prelude::*;
use vstd::string::StringSliceAdditionalSpecFns;
use vstd::utf8::encode_utf8;

use crate::digest::{hex, hex_of, sha256, sha256_of};
use crate::text::{chars_eq, chars_of, decimal, push_char, push_decimal, push_str, string_of};

use super::syntax::{SpelledToken, TokenClass};

verus! {

/// The pair of equivalence keys for one leaf declaration.
#[derive(Debug, Clone, PartialEq, Eq)]
pub struct CloneKeys {
    /// Collides exactly when the token sequences are identical as spelled.
    pub formatting_key: String,
    /// Collides exactly when the sequences match under a consistent one-to-one substitution of
    /// identifiers and literal values.
    pub substitution_key: String,
}

/// A token as values: its text and its class.
pub type TokView = (Seq<char>, TokenClass);

/// The tokens' values.
pub open spec fn tokens_view(tokens: Seq<SpelledToken>) -> Seq<TokView> {
    tokens.map_values(|t: SpelledToken| (t.text@, t.class))
}

/// The little-endian bytes of the low `n` bytes of `x`.
pub open spec fn le_bytes(x: nat, n: nat) -> Seq<u8>
    decreases n,
{
    if n == 0 {
        Seq::empty()
    } else {
        seq![(x % 256) as u8] + le_bytes(x / 256, (n - 1) as nat)
    }
}

/// One token's framed bytes: its UTF-8 byte length as eight little-endian bytes, then its bytes.
pub open spec fn framed_token(text: Seq<char>) -> Seq<u8> {
    le_bytes(encode_utf8(text).len(), 8) + encode_utf8(text)
}

/// The framed bytes of a token text sequence, in order.
pub open spec fn framed_texts(texts: Seq<Seq<char>>) -> Seq<u8>
    decreases texts.len(),
{
    if texts.len() == 0 {
        Seq::empty()
    } else {
        framed_texts(texts.drop_last()) + framed_token(texts.last())
    }
}

/// The position of `text` in `seen`, or the length of `seen` when absent.
pub open spec fn position_in(seen: Seq<Seq<char>>, text: Seq<char>) -> nat
    decreases seen.len(),
{
    if seen.len() == 0 {
        0
    } else if position_in(seen.drop_last(), text) < seen.len() - 1 {
        position_in(seen.drop_last(), text)
    } else if seen.last() == text {
        (seen.len() - 1) as nat
    } else {
        seen.len()
    }
}

/// The distinct texts of class `class` among the first `n` tokens, in first-appearance order.
pub open spec fn seen_of(toks: Seq<TokView>, class: TokenClass, n: int) -> Seq<Seq<char>>
    decreases n,
{
    if n <= 0 {
        Seq::empty()
    } else {
        let s = seen_of(toks, class, n - 1);
        let t = toks[n - 1];
        if t.1 == class && position_in(s, t.0) == s.len() {
            s.push(t.0)
        } else {
            s
        }
    }
}

/// The canonical spelling of token `k`: an identifier's or literal's first-occurrence ordinal
/// within its class, prefixed `i` or `l`; any other token's own text.
pub open spec fn canonical_token(toks: Seq<TokView>, k: int) -> Seq<char> {
    let t = toks[k];
    match t.1 {
        TokenClass::Identifier => seq!['i'] + decimal(
            position_in(seen_of(toks, TokenClass::Identifier, k), t.0),
        ),
        TokenClass::Literal => seq!['l'] + decimal(
            position_in(seen_of(toks, TokenClass::Literal, k), t.0),
        ),
        TokenClass::Other => t.0,
    }
}

/// The canonical spellings of all tokens.
pub open spec fn canonical_tokens(toks: Seq<TokView>) -> Seq<Seq<char>> {
    Seq::new(toks.len(), |k: int| canonical_token(toks, k))
}

/// The key of a text sequence: the lowercase-hex SHA-256 of its framed bytes.
pub open spec fn sequence_key(texts: Seq<Seq<char>>) -> Seq<char> {
    hex_of(sha256_of(framed_texts(texts)))
}

/// The texts of the tokens.
pub open spec fn token_texts(toks: Seq<TokView>) -> Seq<Seq<char>> {
    toks.map_values(|t: TokView| t.0)
}

/// Append the framed bytes of one token text.
fn push_framed(out: &mut Vec<u8>, text: &str)
    ensures
        final(out)@ == old(out)@ + framed_token(text@),
{
    let b = text.as_bytes();
    let mut v: u64 = b.len() as u64;
    let ghost start = out@;
    let mut i: usize = 0;
    assert(le_bytes(b.len() as nat, 8) == le_bytes(b.len() as nat, 8).take(0) + le_bytes(
        v as nat,
        8,
    ));
    while i < 8
        invariant
            i <= 8,
            b@ == encode_utf8(text@),
            le_bytes(b.len() as nat, 8) == le_bytes(b.len() as nat, 8).take(i as int) + le_bytes(
                v as nat,
                (8 - i) as nat,
            ),
            out@ == start + le_bytes(b.len() as nat, 8).take(i as int),
        decreases 8 - i,
    {
        let ghost full = le_bytes(b.len() as nat, 8);
        let byte = (v % 256) as u8;
        out.push(byte);
        proof {
            let rest = le_bytes(v as nat, (8 - i) as nat);
            lemma_le_bytes_len(b.len() as nat, 8);
            assert(rest == seq![byte] + le_bytes((v / 256) as nat, (8 - i - 1) as nat));
            assert(full.take(i as int).len() == i);
            assert(full[i as int] == byte);
            assert(full.take(i + 1) =~= full.take(i as int).push(byte));
            assert(full =~= full.take(i + 1) + le_bytes((v / 256) as nat, (8 - i - 1) as nat));
        }
        v = v / 256;
        i = i + 1;
    }
    proof {
        assert(le_bytes(b.len() as nat, 8).take(8) =~= le_bytes(b.len() as nat, 8)) by {
            lemma_le_bytes_len(b.len() as nat, 8);
        }
    }
    let mut k: usize = 0;
    let ghost mid = out@;
    while k < b.len()
        invariant
            k <= b.len(),
            out@ == mid + b@.take(k as int),
        decreases b.len() - k,
    {
        out.push(b[k]);
        assert(b@.take(k + 1) =~= b@.take(k as int).push(b@[k as int]));
        k = k + 1;
    }
    assert(b@.take(b.len() as int) =~= b@);
    assert(out@ =~= start + (le_bytes(b.len() as nat, 8) + encode_utf8(text@)));
}

/// `le_bytes` yields exactly `n` bytes.
pub proof fn lemma_le_bytes_len(x: nat, n: nat)
    ensures
        le_bytes(x, n).len() == n,
    decreases n,
{
    if n > 0 {
        lemma_le_bytes_len(x / 256, (n - 1) as nat);
    }
}

/// Hash a text sequence into a hex key, each text framed by its length.
fn hash_texts(texts: &Vec<String>) -> (r: String)
    ensures
        r@ == sequence_key(crate::text::strings_view(texts@)),
{
    let ghost tv = crate::text::strings_view(texts@);
    let mut framed: Vec<u8> = Vec::new();
    let mut k: usize = 0;
    assert(tv.take(0) =~= Seq::<Seq<char>>::empty());
    while k < texts.len()
        invariant
            tv == crate::text::strings_view(texts@),
            k <= texts.len(),
            framed@ == framed_texts(tv.take(k as int)),
        decreases texts.len() - k,
    {
        push_framed(&mut framed, texts[k].as_str());
        proof {
            assert(tv.take(k + 1).drop_last() =~= tv.take(k as int));
            assert(tv.take(k + 1).last() == texts@[k as int]@);
        }
        k = k + 1;
    }
    assert(tv.take(texts.len() as int) =~= tv);
    let digest = sha256(framed.as_slice());
    hex(digest.as_slice())
}

/// The first-occurrence ordinal of `text` among `seen`, registering it when first seen.
fn ordinal(seen: &mut Vec<Vec<char>>, text: &[char]) -> (r: usize)
    ensures
        r == position_in(crate::text::vecs_view(old(seen)@), text@),
        crate::text::vecs_view(final(seen)@) == if r == old(seen)@.len() {
            crate::text::vecs_view(old(seen)@).push(text@)
        } else {
            crate::text::vecs_view(old(seen)@)
        },
{
    let ghost sv = crate::text::vecs_view(seen@);
    let mut i: usize = 0;
    assert(sv.take(0) =~= Seq::<Seq<char>>::empty());
    while i < seen.len()
        invariant
            i <= seen.len(),
            sv == crate::text::vecs_view(seen@),
            position_in(sv.take(i as int), text@) == i,
        decreases seen.len() - i,
    {
        proof {
            assert(sv.take(i + 1).drop_last() =~= sv.take(i as int));
        }
        if chars_eq(&seen[i], text) {
            proof {
                lemma_position_in_prefix(sv, text@, i + 1);
            }
            return i;
        }
        i = i + 1;
    }
    assert(sv.take(seen.len() as int) =~= sv);
    let n = seen.len();
    seen.push(crate::text::slice_to_vec(text, 0, text.len()));
    assert(text@.subrange(0, text@.len() as int) =~= text@);
    assert(crate::text::vecs_view(seen@) =~= sv.push(text@));
    n
}

/// A position found in a prefix is the position in the whole.
proof fn lemma_position_in_prefix(s: Seq<Seq<char>>, text: Seq<char>, n: int)
    requires
        0 < n <= s.len(),
        position_in(s.take(n), text) == n - 1,
    ensures
        position_in(s, text) == n - 1,
    decreases s.len(),
{
    if n < s.len() {
        assert(s.drop_last().take(n) =~= s.take(n));
        lemma_position_in_prefix(s.drop_last(), text, n);
    } else {
        assert(s.take(n) =~= s);
    }
}

/// Compute both keys over a spelled token sequence; `None` for an empty sequence.
pub fn clone_keys(tokens: &[SpelledToken]) -> (r: Option<CloneKeys>)
    ensures
        tokens.len() == 0 ==> r is None,
        tokens.len() > 0 ==> (r matches Some(k) && k.formatting_key@ == sequence_key(
            token_texts(tokens_view(tokens@)),
        ) && k.substitution_key@ == sequence_key(canonical_tokens(tokens_view(tokens@)))),
{
    if tokens.len() == 0 {
        return None;
    }
    let ghost tv = tokens_view(tokens@);
    let mut spelled: Vec<String> = Vec::new();
    let mut canonical: Vec<String> = Vec::new();
    let mut identifiers: Vec<Vec<char>> = Vec::new();
    let mut literals: Vec<Vec<char>> = Vec::new();
    let mut k: usize = 0;
    while k < tokens.len()
        invariant
            tv == tokens_view(tokens@),
            k <= tokens.len(),
            spelled.len() == k,
            canonical.len() == k,
            forall|j: int| 0 <= j < k ==> (#[trigger] spelled@[j])@ == tv[j].0,
            forall|j: int| 0 <= j < k ==> (#[trigger] canonical@[j])@ == canonical_token(tv, j),
            crate::text::vecs_view(identifiers@) == seen_of(tv, TokenClass::Identifier, k as int),
            crate::text::vecs_view(literals@) == seen_of(tv, TokenClass::Literal, k as int),
        decreases tokens.len() - k,
    {
        let token = &tokens[k];
        spelled.push(token.text.clone());
        let text = chars_of(token.text.as_str());
        let mut c = String::new();
        match token.class {
            TokenClass::Identifier => {
                let o = ordinal(&mut identifiers, &text);
                push_char(&mut c, 'i');
                push_decimal(&mut c, o as u64);
            },
            TokenClass::Literal => {
                let o = ordinal(&mut literals, &text);
                push_char(&mut c, 'l');
                push_decimal(&mut c, o as u64);
            },
            TokenClass::Other => {
                push_str(&mut c, token.text.as_str());
            },
        }
        canonical.push(c);
        proof {
            assert(Seq::<char>::empty() + seq!['i'] =~= seq!['i']);
            assert(Seq::<char>::empty() + seq!['l'] =~= seq!['l']);
            assert(Seq::<char>::empty() + token.text@ =~= token.text@);
        }
        k = k + 1;
    }
    proof {
        assert(crate::text::strings_view(spelled@) =~= token_texts(tv));
        assert(crate::text::strings_view(canonical@) =~= canonical_tokens(tv));
    }
    let formatting_key = hash_texts(&spelled);
    let substitution_key = hash_texts(&canonical);
    Some(CloneKeys { formatting_key, substitution_key })
}

/// Whether a text substitution is one-to-one.
pub open spec fn one_to_one(f: spec_fn(Seq<char>) -> Seq<char>) -> bool {
    forall|a: Seq<char>, b: Seq<char>| #[trigger] f(a) == #[trigger] f(b) ==> a == b
}

/// The tokens with every identifier's text substituted by `f` and every literal's by `g`; other
/// tokens kept as spelled.
pub open spec fn substituted(
    toks: Seq<TokView>,
    f: spec_fn(Seq<char>) -> Seq<char>,
    g: spec_fn(Seq<char>) -> Seq<char>,
) -> Seq<TokView> {
    toks.map_values(
        |t: TokView|
            match t.1 {
                TokenClass::Identifier => (f(t.0), t.1),
                TokenClass::Literal => (g(t.0), t.1),
                TokenClass::Other => t,
            },
    )
}

/// The substitution applied to a token class: `f` for identifiers, `g` for literals.
pub open spec fn class_map(
    class: TokenClass,
    f: spec_fn(Seq<char>) -> Seq<char>,
    g: spec_fn(Seq<char>) -> Seq<char>,
) -> spec_fn(Seq<char>) -> Seq<char> {
    match class {
        TokenClass::Identifier => f,
        TokenClass::Literal => g,
        TokenClass::Other => |t: Seq<char>| t,
    }
}

/// A one-to-one substitution keeps every position.
proof fn lemma_position_substituted(seen: Seq<Seq<char>>, h: spec_fn(Seq<char>) -> Seq<char>, text: Seq<char>)
    requires
        one_to_one(h),
    ensures
        position_in(seen.map_values(|t: Seq<char>| h(t)), h(text)) == position_in(seen, text),
    decreases seen.len(),
{
    if seen.len() > 0 {
        let m = seen.map_values(|t: Seq<char>| h(t));
        assert(m.drop_last() =~= seen.drop_last().map_values(|t: Seq<char>| h(t)));
        lemma_position_substituted(seen.drop_last(), h, text);
        assert(m.last() == h(seen.last()));
        if h(seen.last()) == h(text) {
            assert(seen.last() == text);
        }
    }
}

/// The distinct texts seen of a class are substituted along with the tokens.
proof fn lemma_seen_substituted(
    toks: Seq<TokView>,
    f: spec_fn(Seq<char>) -> Seq<char>,
    g: spec_fn(Seq<char>) -> Seq<char>,
    class: TokenClass,
    n: int,
)
    requires
        one_to_one(f),
        one_to_one(g),
        class != TokenClass::Other,
        0 <= n <= toks.len(),
    ensures
        seen_of(substituted(toks, f, g), class, n) == seen_of(toks, class, n).map_values(
            |t: Seq<char>| class_map(class, f, g)(t),
        ),
    decreases n,
{
    let h = class_map(class, f, g);
    let st = substituted(toks, f, g);
    if n > 0 {
        lemma_seen_substituted(toks, f, g, class, n - 1);
        let s = seen_of(toks, class, n - 1);
        let s2 = seen_of(st, class, n - 1);
        let t = toks[n - 1];
        assert(s2 == s.map_values(|x: Seq<char>| h(x)));
        if t.1 == class {
            assert(st[n - 1] == (h(t.0), t.1));
            lemma_position_substituted(s, h, t.0);
            if position_in(s, t.0) == s.len() {
                assert(s.push(t.0).map_values(|x: Seq<char>| h(x)) =~= s2.push(h(t.0)));
            }
        } else {
            assert(st[n - 1].1 == t.1);
        }
    } else {
        assert(seen_of(toks, class, 0).map_values(|x: Seq<char>| h(x)) =~= Seq::<Seq<char>>::empty());
    }
}

/// A consistently substituted copy shares the substitution-insensitive key: replacing identifiers
/// one-to-one, and literal values one-to-one, leaves every token's canonical spelling, and so the
/// key, unchanged.
pub proof fn lemma_substitution_keeps_key(
    toks: Seq<TokView>,
    f: spec_fn(Seq<char>) -> Seq<char>,
    g: spec_fn(Seq<char>) -> Seq<char>,
)
    requires
        one_to_one(f),
        one_to_one(g),
    ensures
        canonical_tokens(substituted(toks, f, g)) == canonical_tokens(toks),
        sequence_key(canonical_tokens(substituted(toks, f, g))) == sequence_key(canonical_tokens(toks)),
{
    let st = substituted(toks, f, g);
    assert forall|k: int| 0 <= k < toks.len() implies canonical_token(st, k) == canonical_token(toks, k) by {
        let t = toks[k];
        match t.1 {
            TokenClass::Identifier => {
                lemma_seen_substituted(toks, f, g, TokenClass::Identifier, k);
                lemma_position_substituted(seen_of(toks, TokenClass::Identifier, k), f, t.0);
                assert(st[k] == (f(t.0), t.1));
            },
            TokenClass::Literal => {
                lemma_seen_substituted(toks, f, g, TokenClass::Literal, k);
                lemma_position_substituted(seen_of(toks, TokenClass::Literal, k), g, t.0);
                assert(st[k] == (g(t.0), t.1));
            },
            TokenClass::Other => {
                assert(st[k] == t);
            },
        }
    }
    assert(canonical_tokens(st) =~= canonical_tokens(toks));
}

} // verus!
