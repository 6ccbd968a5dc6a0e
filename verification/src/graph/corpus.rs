//! The semantic corpus: which symbols contribute a passage, and the deterministic per-symbol render
//! that becomes the passage's content.
//!
//! A leaf (a symbol containing no other persisted symbol) contributes its own source content; a
//! container contributes its interface tier, so no passage derives from a container's full body.
//! The render front-loads retrieval evidence: the symbol's name split into words, its kind, its
//! module-path words, its signature and its own documentation, then the content text.

use vstd::prelude::*;

use crate::identity::CanonicalId;
use crate::order::{chars_less, chars_lt};
use crate::text::{
    chars_eq, chars_of, concat_all, double_colon, find_from, find_from_exec, is_digit, join_strings,
    join_with, last_index_of, last_index_of_exec, opt_chars, opt_str_eq, slice_to_vec,
    split_on, split_pieces, str_eq, string_of, strings_view, strip_prefix_chars, strip_prefix_of,
    strip_suffix_chars, strip_suffix_of, vecs_view,
};
use crate::unicode::{
    char_is_alphanumeric, char_is_lowercase, char_is_numeric, char_is_uppercase, char_lowercase,
    is_alphanumeric, is_lowercase, is_numeric, is_uppercase, lowercase_of, trim, trim_chars,
};

use super::range::ByteSpan;

verus! {

/// The corpus definition version: part of the semantic-index identity.
pub const CORPUS_DEFINITION_VERSION: u32 = 2;

// ---------------------------------------------------------------------------------------------
// Splitting identifiers into words.
// ---------------------------------------------------------------------------------------------

/// Whether a new word starts at `cs[i]`: a lowercase-or-digit to uppercase step (camel case), or
/// the last capital of an acronym run before a lowercase letter (`HTTPClient`).
pub open spec fn word_boundary(cs: Seq<char>, i: int) -> bool {
    let prev = cs[i - 1];
    let c = cs[i];
    ||| (char_is_lowercase(prev) || char_is_numeric(prev)) && char_is_uppercase(c)
    ||| char_is_uppercase(prev) && char_is_uppercase(c) && i + 1 < cs.len() && char_is_lowercase(
        cs[i + 1],
    )
}

/// The finished words and the word in progress after the first `n` characters of `cs`.
pub open spec fn split_state(cs: Seq<char>, n: int) -> (Seq<Seq<char>>, Seq<char>)
    decreases n,
{
    if n <= 0 {
        (Seq::empty(), Seq::empty())
    } else {
        let i = n - 1;
        let (words, cur) = split_state(cs, i);
        let c = cs[i];
        if !char_is_alphanumeric(c) {
            if cur.len() > 0 {
                (words.push(cur), Seq::empty())
            } else {
                (words, cur)
            }
        } else if cur.len() > 0 && i >= 1 && word_boundary(cs, i) {
            (words.push(cur), char_lowercase(c))
        } else {
            (words, cur + char_lowercase(c))
        }
    }
}

/// The lowercase words of an identifier: separated at every non-alphanumeric character, at camel
/// case steps and at the end of acronym runs; digit runs stay attached to their word.
pub open spec fn words_of(cs: Seq<char>) -> Seq<Seq<char>> {
    let (words, cur) = split_state(cs, cs.len() as int);
    if cur.len() > 0 {
        words.push(cur)
    } else {
        words
    }
}

/// Split the identifier held in `chars` into lowercase words.
fn split_word_chars(chars: &[char]) -> (words: Vec<String>)
    ensures
        strings_view(words@) == words_of(chars@),
{
    let ghost cs = chars@;
    let n = chars.len();
    let mut words: Vec<String> = Vec::new();
    let mut current: Vec<char> = Vec::new();
    let mut i: usize = 0;
    while i < n
        invariant
            n == chars.len(),
            cs == chars@,
            i <= n,
            (strings_view(words@), current@) == split_state(cs, i as int),
        decreases n - i,
    {
        let c = chars[i];
        let ghost before = strings_view(words@);
        if !is_alphanumeric(c) {
            if current.len() > 0 {
                words.push(string_of(&current));
                current = Vec::new();
                proof {
                    assert(strings_view(words@) =~= before.push(split_state(cs, i as int).1));
                }
            }
        } else {
            if current.len() > 0 && i >= 1 {
                let prev = chars[i - 1];
                let camel = (is_lowercase(prev) || is_numeric(prev)) && is_uppercase(c);
                let acronym = is_uppercase(prev) && is_uppercase(c) && i + 1 < n && is_lowercase(
                    chars[i + 1],
                );
                if camel || acronym {
                    words.push(string_of(&current));
                    current = Vec::new();
                    proof {
                        assert(strings_view(words@) =~= before.push(split_state(cs, i as int).1));
                    }
                }
            }
            let lower = lowercase_of(c);
            let ghost cur0 = current@;
            let mut k: usize = 0;
            while k < lower.len()
                invariant
                    k <= lower.len(),
                    current@ == cur0 + lower@.take(k as int),
                decreases lower.len() - k,
            {
                current.push(lower[k]);
                proof {
                    assert(lower@.take(k + 1) =~= lower@.take(k as int).push(lower@[k as int]));
                }
                k = k + 1;
            }
            proof {
                assert(lower@.take(lower.len() as int) =~= lower@);
                if cur0.len() == 0 {
                    assert(cur0 + lower@ =~= lower@);
                }
            }
        }
        i = i + 1;
    }
    if current.len() > 0 {
        let ghost before = strings_view(words@);
        words.push(string_of(&current));
        proof {
            assert(strings_view(words@) =~= before.push(current@));
        }
    }
    words
}

/// Split an identifier into lowercase words: `_`/`-`/`.` and other non-alphanumeric separators,
/// camel-case boundaries, and acronym runs (`HTTPClient` splits as `http client`). Digit runs
/// stay attached to their word (`sha256` stays one word).
pub fn split_words(identifier: &str) -> (words: Vec<String>)
    ensures
        strings_view(words@) == words_of(identifier@),
{
    let chars = chars_of(identifier);
    split_word_chars(&chars)
}

// ---------------------------------------------------------------------------------------------
// Eligibility.
// ---------------------------------------------------------------------------------------------

/// The corpus-eligibility predicate over a symbol's tier content: the body tier is persisted, and
/// the tiers are not all the bare name token.
pub open spec fn contributes_spec(
    name: Seq<char>,
    signature: Option<Seq<char>>,
    interface: Option<Seq<char>>,
    body: Option<Seq<char>>,
) -> bool {
    match body {
        None => false,
        Some(b) => !(b == name && signature == Some(b) && interface == Some(b)),
    }
}

/// Whether a symbol with these tiers contributes a passage: its body tier is persisted, and that
/// content is more than its own bare name token.
pub fn content_contributes(
    display_name: &str,
    signature_text: Option<&str>,
    interface_text: Option<&str>,
    span_text: Option<&str>,
) -> (r: bool)
    ensures
        r == contributes_spec(
            display_name@,
            opt_chars(signature_text),
            opt_chars(interface_text),
            opt_chars(span_text),
        ),
{
    let span_text = match span_text {
        Some(t) => t,
        None => return false,
    };
    let name_only = str_eq(span_text, display_name) && opt_str_eq(signature_text, span_text)
        && opt_str_eq(interface_text, span_text);
    !name_only
}

// ---------------------------------------------------------------------------------------------
// Sources and passages.
// ---------------------------------------------------------------------------------------------

/// The corpus-relevant view of one persisted in-workspace symbol.
pub struct CorpusSource<'a> {
    /// The symbol's canonical identity.
    pub canonical_id: &'a CanonicalId,
    /// The symbol's display name (its terminal name).
    pub display_name: &'a str,
    /// The persisted kind tag (`function`, `type`, `module`, ...).
    pub kind: &'a str,
    /// The document the definition sits in, if any.
    pub document_path: Option<&'a str>,
    /// The definition span within that document, if any.
    pub span: Option<ByteSpan>,
    /// The signature tier, when persisted.
    pub signature_text: Option<&'a str>,
    /// The interface tier, when persisted.
    pub interface_text: Option<&'a str>,
    /// The body tier (the symbol's full source text), when persisted.
    pub span_text: Option<&'a str>,
    /// Whether the symbol contains another persisted symbol.
    pub contains_persisted: bool,
}

/// A corpus source as values.
pub struct SourceView {
    pub id: Seq<char>,
    pub name: Seq<char>,
    pub kind: Seq<char>,
    pub path: Option<Seq<char>>,
    pub span: Option<ByteSpan>,
    pub signature: Option<Seq<char>>,
    pub interface: Option<Seq<char>>,
    pub body: Option<Seq<char>>,
    pub container: bool,
}

impl<'a> View for CorpusSource<'a> {
    type V = SourceView;

    open spec fn view(&self) -> SourceView {
        SourceView {
            id: self.canonical_id@,
            name: self.display_name@,
            kind: self.kind@,
            path: opt_chars(self.document_path),
            span: self.span,
            signature: opt_chars(self.signature_text),
            interface: opt_chars(self.interface_text),
            body: opt_chars(self.span_text),
            container: self.contains_persisted,
        }
    }
}

/// Whether a source contributes a passage.
pub open spec fn source_contributes(s: SourceView) -> bool {
    contributes_spec(s.name, s.signature, s.interface, s.body)
}

impl CorpusSource<'_> {
    /// Whether this symbol contributes a passage: its body tier is persisted, and that content is
    /// more than its own bare name token.
    pub fn contributes(&self) -> (r: bool)
        ensures
            r == source_contributes(self@),
    {
        content_contributes(
            self.display_name,
            self.signature_text,
            self.interface_text,
            self.span_text,
        )
    }
}

/// One passage: a symbol identity, the render text its representations derive from, and the
/// render's parts.
#[derive(Debug, PartialEq, Eq)]
pub struct Passage {
    /// The contributing symbol.
    pub symbol_id: CanonicalId,
    /// The render text: the header identity, the documentation, then the content, joined by
    /// newlines.
    pub render: String,
    /// The identity-bearing header head: name words, kind, module-path words, and signature.
    pub header_identity: String,
    /// The symbol's own documentation, when its tiers carry any.
    pub documentation: Option<String>,
    /// The content part: a leaf's own source, a container's interface tier.
    pub content: String,
    /// Where the content lives, when it is exactly a leaf's definition span.
    pub content_location: Option<(String, ByteSpan)>,
}

/// A passage as values.
pub struct PassageView {
    pub id: Seq<char>,
    pub render: Seq<char>,
    pub header: Seq<char>,
    pub documentation: Option<Seq<char>>,
    pub content: Seq<char>,
    pub location: Option<(Seq<char>, ByteSpan)>,
}

/// The characters of an optional owned string.
pub open spec fn opt_string_chars(o: Option<String>) -> Option<Seq<char>> {
    match o {
        Some(s) => Some(s@),
        None => None,
    }
}

impl View for Passage {
    type V = PassageView;

    open spec fn view(&self) -> PassageView {
        PassageView {
            id: self.symbol_id@,
            render: self.render@,
            header: self.header_identity@,
            documentation: opt_string_chars(self.documentation),
            content: self.content@,
            location: match self.content_location {
                Some((p, s)) => Some((p@, s)),
                None => None,
            },
        }
    }
}

/// `t` when it is not empty.
pub open spec fn non_empty(t: Seq<char>) -> Option<Seq<char>> {
    if t.len() > 0 {
        Some(t)
    } else {
        None
    }
}

/// The symbol's own documentation recovered from its tier pair: the interface with the signature
/// removed from whichever end it occupies, trimmed; `None` when the tiers are equal, when the
/// pair has no such shape, or when nothing but whitespace remains.
pub open spec fn documentation_of(
    signature: Option<Seq<char>>,
    interface: Option<Seq<char>>,
) -> Option<Seq<char>> {
    match (signature, interface) {
        (Some(s), Some(i)) => if i == s {
            None
        } else {
            match strip_suffix_of(i, s) {
                Some(p) => non_empty(trim(p)),
                None => match strip_prefix_of(i, s) {
                    Some(q) => non_empty(trim(q)),
                    None => None,
                },
            }
        },
        _ => None,
    }
}

/// The symbol's own documentation, recovered from its tier pair.
fn own_documentation(signature: Option<&str>, interface: Option<&str>) -> (r: Option<String>)
    ensures
        opt_string_chars(r) == documentation_of(opt_chars(signature), opt_chars(interface)),
{
    let signature = match signature {
        Some(s) => s,
        None => return None,
    };
    let interface = match interface {
        Some(i) => i,
        None => return None,
    };
    if str_eq(interface, signature) {
        return None;
    }
    let ic = chars_of(interface);
    let sc = chars_of(signature);
    match strip_suffix_chars(&ic, &sc) {
        Some(prefix) => {
            let docs = trim_chars(&prefix);
            if docs.len() > 0 {
                Some(string_of(&docs))
            } else {
                None
            }
        },
        None => match strip_prefix_chars(&ic, &sc) {
            Some(suffix) => {
                let docs = trim_chars(&suffix);
                if docs.len() > 0 {
                    Some(string_of(&docs))
                } else {
                    None
                }
            },
            None => None,
        },
    }
}

/// Whether every character of `s` is an ASCII digit.
pub open spec fn all_digits(s: Seq<char>) -> bool {
    forall|k: int| 0 <= k < s.len() ==> is_digit(#[trigger] s[k])
}

/// An identity with its workspace segment removed and any trailing `#<digits>` disambiguator
/// stripped.
pub open spec fn qualified_path_of(id: Seq<char>) -> Seq<char> {
    let qualified = match find_from(id, seq![':', ':'], 0) {
        Some(i) => id.skip(i + 2),
        None => Seq::empty(),
    };
    match last_index_of(qualified, '#') {
        Some(h) => if all_digits(qualified.skip(h + 1)) {
            qualified.take(h)
        } else {
            qualified
        },
        None => qualified,
    }
}

/// The words of an identity's module path: every path segment between the workspace segment and
/// the terminal name, split into words.
pub open spec fn module_path_words_of(id: Seq<char>) -> Seq<Seq<char>> {
    let segments = split_pieces(qualified_path_of(id), seq![':', ':']);
    let path = segments.drop_last();
    concat_all(path.map_values(|seg: Seq<char>| words_of(seg)))
}

/// The words of the symbol's module path.
fn module_path_words(id: &CanonicalId) -> (r: Vec<String>)
    ensures
        strings_view(r@) == module_path_words_of(id@),
{
    let cs = chars_of(id.as_str());
    let sep = double_colon();
    let qualified: Vec<char> = match find_from_exec(&cs, &sep, 0) {
        Some(i) => {
            proof {
                crate::text::lemma_find_from(cs@, sep@, 0);
                assert(crate::text::occurs_at(cs@, sep@, i as int));
                assert(sep@.len() == 2);
                assert(i + 2 <= cs@.len());
            }
            let n = cs.len();
            slice_to_vec(&cs, i + 2, n)
        },
        None => Vec::new(),
    };
    assert(qualified@ =~= match find_from(id@, seq![':', ':'], 0) {
        Some(i) => id@.skip(i + 2),
        None => Seq::<char>::empty(),
    });
    let without_rank: Vec<char> = match last_index_of_exec(&qualified, '#') {
        Some(h) => {
            proof {
                lemma_last_index_of_bound(qualified@, '#');
            }
            let mut all = true;
            let mut k = h + 1;
            while k < qualified.len()
                invariant
                    h < qualified.len(),
                    h + 1 <= k <= qualified.len(),
                    all == all_digits(qualified@.subrange(h + 1, k as int)),
                decreases qualified.len() - k,
            {
                let c = qualified[k];
                let digit = '0' <= c && c <= '9';
                proof {
                    let old_sub = qualified@.subrange(h + 1, k as int);
                    let new_sub = qualified@.subrange(h + 1, k + 1);
                    assert(new_sub =~= old_sub.push(c));
                    if all_digits(old_sub) && digit {
                        assert forall|j: int| 0 <= j < new_sub.len() implies is_digit(
                            #[trigger] new_sub[j],
                        ) by {
                            if j < old_sub.len() {
                                assert(new_sub[j] == old_sub[j]);
                            }
                        }
                    }
                    if all_digits(new_sub) {
                        assert(is_digit(new_sub[new_sub.len() - 1]));
                        assert forall|j: int| 0 <= j < old_sub.len() implies is_digit(
                            #[trigger] old_sub[j],
                        ) by {
                            assert(new_sub[j] == old_sub[j]);
                        }
                    }
                }
                all = all && digit;
                k = k + 1;
            }
            assert(qualified@.subrange(h + 1, qualified.len() as int) =~= qualified@.skip(h + 1));
            if all {
                slice_to_vec(&qualified, 0, h)
            } else {
                qualified
            }
        },
        None => qualified,
    };
    proof {
        if let Some(h) = last_index_of(qualified@, '#') {
            assert(qualified@.subrange(0, h) =~= qualified@.take(h));
        }
    }
    let segments = split_on(&without_rank, &sep);
    let ghost segs = vecs_view(segments@);
    let mut words: Vec<String> = Vec::new();
    let count = if segments.len() > 0 {
        segments.len() - 1
    } else {
        0
    };
    let mut k: usize = 0;
    while k < count
        invariant
            segs == vecs_view(segments@),
            count <= segments.len(),
            count == if segments.len() > 0 {
                segments.len() - 1
            } else {
                0
            },
            k <= count,
            strings_view(words@) == concat_all(
                segs.drop_last().take(k as int).map_values(|seg: Seq<char>| words_of(seg)),
            ),
        decreases count - k,
    {
        let part = split_word_chars(&segments[k]);
        let ghost before = strings_view(words@);
        let mut m: usize = 0;
        while m < part.len()
            invariant
                m <= part.len(),
                strings_view(words@) == before + strings_view(part@).take(m as int),
            decreases part.len() - m,
        {
            let ghost wb = words@;
            words.push(part[m].clone());
            proof {
                assert(strings_view(words@) =~= strings_view(wb).push(part@[m as int]@));
                assert(strings_view(part@).take(m + 1) =~= strings_view(part@).take(m as int).push(
                    part@[m as int]@,
                ));
                assert(strings_view(words@) =~= before + strings_view(part@).take(m + 1));
            }
            m = m + 1;
        }
        proof {
            let f = |seg: Seq<char>| words_of(seg);
            let path = segs.drop_last();
            assert(strings_view(part@).take(part.len() as int) =~= strings_view(part@));
            assert(path.take(k + 1).map_values(f).drop_last() =~= path.take(k as int).map_values(
                f,
            ));
            assert(path.take(k + 1).map_values(f).last() == words_of(segs[k as int]));
        }
        k = k + 1;
    }
    proof {
        let path = segs.drop_last();
        assert(path.take(count as int) =~= path);
    }
    words
}

/// The last occurrence index lies within the sequence and holds the character.
proof fn lemma_last_index_of_bound(s: Seq<char>, c: char)
    ensures
        last_index_of(s, c) matches Some(h) ==> 0 <= h < s.len() && s[h] == c,
    decreases s.len(),
{
    if s.len() > 0 && s.last() != c {
        lemma_last_index_of_bound(s.drop_last(), c);
    }
}

/// The header's parts: name words, kind, module-path words, and signature.
pub open spec fn header_parts_of(s: SourceView) -> Seq<Seq<char>> {
    let name_words = words_of(s.name);
    let a: Seq<Seq<char>> = if name_words.len() > 0 {
        seq![join_with(name_words, seq![' '])]
    } else {
        Seq::empty()
    };
    let b = a.push(s.kind);
    let path_words = module_path_words_of(s.id);
    let c = if path_words.len() > 0 {
        b.push(join_with(path_words, seq![' ']))
    } else {
        b
    };
    match s.signature {
        Some(sig) => c.push(sig),
        None => c,
    }
}

/// A passage's content: a container's interface tier (its signature tier as the fallback), or a
/// leaf's own body tier.
pub open spec fn content_of(s: SourceView) -> Seq<char> {
    if s.container {
        match s.interface {
            Some(i) => i,
            None => match s.signature {
                Some(g) => g,
                None => Seq::empty(),
            },
        }
    } else {
        match s.body {
            Some(b) => b,
            None => Seq::empty(),
        }
    }
}

/// Where a passage's content lives: a leaf's document and definition span, when its body tier,
/// document and span are all known; synthesized container content has no location.
pub open spec fn location_of(s: SourceView) -> Option<(Seq<char>, ByteSpan)> {
    if s.container {
        None
    } else {
        match (s.body, s.path, s.span) {
            (Some(_), Some(p), Some(sp)) => Some((p, sp)),
            _ => None,
        }
    }
}

/// The render's parts: the header, the documentation when present, the content when not empty.
pub open spec fn render_parts_of(
    header: Seq<char>,
    documentation: Option<Seq<char>>,
    content: Seq<char>,
) -> Seq<Seq<char>> {
    let a = seq![header];
    let b = match documentation {
        Some(d) => a.push(d),
        None => a,
    };
    if content.len() > 0 {
        b.push(content)
    } else {
        b
    }
}

/// The deterministic passage of one symbol.
pub open spec fn passage_spec(s: SourceView) -> PassageView {
    let header = join_with(header_parts_of(s), seq!['\n']);
    let documentation = documentation_of(s.signature, s.interface);
    let content = content_of(s);
    PassageView {
        id: s.id,
        render: join_with(render_parts_of(header, documentation, content), seq!['\n']),
        header,
        documentation,
        content,
        location: location_of(s),
    }
}

/// The passage of one symbol.
fn passage_of(source: &CorpusSource<'_>) -> (p: Passage)
    ensures
        p@ == passage_spec(source@),
{
    let ghost sv = source@;
    let mut head: Vec<String> = Vec::new();
    let name_words = split_words(source.display_name);
    if name_words.len() > 0 {
        head.push(join_strings(&name_words, ' '));
    }
    head.push(source.kind.to_owned());
    let path_words = module_path_words(source.canonical_id);
    if path_words.len() > 0 {
        head.push(join_strings(&path_words, ' '));
    }
    match source.signature_text {
        Some(sig) => head.push(sig.to_owned()),
        None => {},
    }
    proof {
        assert(strings_view(head@) =~= header_parts_of(sv));
    }
    let header_identity = join_strings(&head, '\n');
    let documentation = own_documentation(source.signature_text, source.interface_text);
    let content: String = if source.contains_persisted {
        match source.interface_text {
            Some(i) => i.to_owned(),
            None => match source.signature_text {
                Some(g) => g.to_owned(),
                None => String::new(),
            },
        }
    } else {
        match source.span_text {
            Some(b) => b.to_owned(),
            None => String::new(),
        }
    };
    let content_location: Option<(String, ByteSpan)> = if source.contains_persisted {
        None
    } else {
        match (source.span_text, source.document_path, source.span) {
            (Some(_), Some(path), Some(span)) => Some((path.to_owned(), span)),
            _ => None,
        }
    };
    let mut parts: Vec<String> = Vec::new();
    parts.push(header_identity.clone());
    match &documentation {
        Some(d) => parts.push(d.clone()),
        None => {},
    }
    if !content.as_str().is_empty() {
        parts.push(content.clone());
    }
    proof {
        assert(strings_view(parts@) =~= render_parts_of(
            header_identity@,
            opt_string_chars(documentation),
            content@,
        ));
    }
    let render = join_strings(&parts, '\n');
    Passage {
        symbol_id: source.canonical_id.clone(),
        render,
        header_identity,
        documentation,
        content,
        content_location,
    }
}

/// The passages of the contributing sources, in input order.
pub open spec fn eligible_passages(srcs: Seq<SourceView>) -> Seq<PassageView>
    decreases srcs.len(),
{
    if srcs.len() == 0 {
        Seq::empty()
    } else {
        let p = eligible_passages(srcs.drop_last());
        if source_contributes(srcs.last()) {
            p.push(passage_spec(srcs.last()))
        } else {
            p
        }
    }
}

/// Whether `e[j]` is the first of `e` carrying its identity.
#[verifier::opaque]
pub open spec fn first_with_id(e: Seq<PassageView>, j: int) -> bool {
    forall|j2: int| 0 <= j2 < j ==> e[j2].id != e[j].id
}

/// Whether `out` is ordered strictly by identity.
#[verifier::opaque]
pub open spec fn sorted_by_id(out: Seq<PassageView>) -> bool {
    forall|a: int, b: int|
        0 <= a < b < out.len() ==> chars_lt(#[trigger] out[a].id, #[trigger] out[b].id)
}

/// Whether `out[k]` is the first passage of `e` carrying its identity.
pub open spec fn drawn_at(e: Seq<PassageView>, out: Seq<PassageView>, k: int) -> bool {
    exists|j: int| 0 <= j < e.len() && #[trigger] e[j] == out[k] && first_with_id(e, j)
}

/// Whether `e[j]`'s identity appears in `out`.
pub open spec fn covered_at(e: Seq<PassageView>, out: Seq<PassageView>, j: int) -> bool {
    exists|k: int| 0 <= k < out.len() && #[trigger] out[k].id == e[j].id
}

/// Whether every passage of `out` is the first passage of `e` carrying its identity.
#[verifier::opaque]
pub open spec fn drawn_from_firsts(e: Seq<PassageView>, out: Seq<PassageView>) -> bool {
    forall|k: int| 0 <= k < out.len() ==> #[trigger] drawn_at(e, out, k)
}

/// Whether every identity of `e` appears in `out`.
#[verifier::opaque]
pub open spec fn covers_ids(e: Seq<PassageView>, out: Seq<PassageView>) -> bool {
    forall|j: int| 0 <= j < e.len() ==> #[trigger] covered_at(e, out, j)
}

/// Whether `out` is the corpus of the passages `e`: ordered strictly by identity, holding for every
/// identity in `e` exactly the first passage carrying it, and nothing else.
pub open spec fn is_corpus_of(e: Seq<PassageView>, out: Seq<PassageView>) -> bool {
    &&& sorted_by_id(out)
    &&& drawn_from_firsts(e, out)
    &&& covers_ids(e, out)
}

proof fn lemma_first_with_id_push(e0: Seq<PassageView>, x: PassageView, j: int)
    requires
        0 <= j < e0.len(),
        first_with_id(e0, j),
    ensures
        first_with_id(e0.push(x), j),
{
    reveal(first_with_id);
    assert forall|j2: int| 0 <= j2 < j implies #[trigger] e0.push(x)[j2].id != e0.push(x)[j].id by {
        assert(e0.push(x)[j2] == e0[j2]);
    }
}

proof fn lemma_first_with_id_new(e0: Seq<PassageView>, x: PassageView)
    requires
        forall|j2: int| 0 <= j2 < e0.len() ==> #[trigger] e0[j2].id != x.id,
    ensures
        first_with_id(e0.push(x), e0.len() as int),
{
    reveal(first_with_id);
    assert forall|j2: int| 0 <= j2 < e0.len() implies #[trigger] e0.push(x)[j2].id != e0.push(
        x,
    )[e0.len() as int].id by {
        assert(e0.push(x)[j2] == e0[j2]);
    }
}

proof fn lemma_sorted_insert(ov: Seq<PassageView>, pv: PassageView, pos: int)
    requires
        sorted_by_id(ov),
        0 <= pos <= ov.len(),
        forall|m: int| 0 <= m < pos ==> chars_lt(#[trigger] ov[m].id, pv.id),
        forall|m: int| pos <= m < ov.len() ==> chars_lt(pv.id, #[trigger] ov[m].id),
    ensures
        sorted_by_id(ov.insert(pos, pv)),
{
    reveal(sorted_by_id);
    let nv = ov.insert(pos, pv);
    assert forall|a: int, b: int| 0 <= a < b < nv.len() implies chars_lt(
        #[trigger] nv[a].id,
        #[trigger] nv[b].id,
    ) by {
        if b < pos {
            assert(nv[a] == ov[a] && nv[b] == ov[b]);
            assert(chars_lt(ov[a].id, ov[b].id));
        } else if b == pos {
            assert(nv[a] == ov[a]);
            assert(nv[b] == pv);
        } else if a < pos {
            assert(nv[a] == ov[a]);
            assert(nv[b] == ov[b - 1]);
            crate::order::lemma_chars_lt_transitive(ov[a].id, pv.id, ov[b - 1].id);
        } else if a == pos {
            assert(nv[a] == pv);
            assert(nv[b] == ov[b - 1]);
        } else {
            assert(nv[a] == ov[a - 1]);
            assert(nv[b] == ov[b - 1]);
            assert(chars_lt(ov[a - 1].id, ov[b - 1].id));
        }
    }
}

proof fn lemma_drawn_insert(e0: Seq<PassageView>, ov: Seq<PassageView>, pv: PassageView, pos: int)
    requires
        drawn_from_firsts(e0, ov),
        0 <= pos <= ov.len(),
        forall|j2: int| 0 <= j2 < e0.len() ==> #[trigger] e0[j2].id != pv.id,
    ensures
        drawn_from_firsts(e0.push(pv), ov.insert(pos, pv)),
{
    reveal(drawn_from_firsts);
    let e1 = e0.push(pv);
    let nv = ov.insert(pos, pv);
    lemma_first_with_id_new(e0, pv);
    assert forall|k: int| 0 <= k < nv.len() implies #[trigger] drawn_at(e1, nv, k) by {
        if k == pos {
            assert(nv[k] == pv);
            assert(e1[e0.len() as int] == nv[k]);
        } else {
            let k0 = if k < pos {
                k
            } else {
                k - 1
            };
            assert(nv[k] == ov[k0]);
            assert(drawn_at(e0, ov, k0));
            let j = choose|j: int| 0 <= j < e0.len() && #[trigger] e0[j] == ov[k0] && first_with_id(
                e0,
                j,
            );
            lemma_first_with_id_push(e0, pv, j);
            assert(e1[j] == nv[k]);
        }
    }
}

proof fn lemma_covers_insert(e0: Seq<PassageView>, ov: Seq<PassageView>, pv: PassageView, pos: int)
    requires
        covers_ids(e0, ov),
        0 <= pos <= ov.len(),
    ensures
        covers_ids(e0.push(pv), ov.insert(pos, pv)),
{
    reveal(covers_ids);
    let e1 = e0.push(pv);
    let nv = ov.insert(pos, pv);
    assert forall|j: int| 0 <= j < e1.len() implies #[trigger] covered_at(e1, nv, j) by {
        if j == e0.len() {
            assert(nv[pos] == pv);
            assert(nv[pos].id == e1[j].id);
        } else {
            assert(e1[j] == e0[j]);
            assert(covered_at(e0, ov, j));
            let k = choose|k: int| 0 <= k < ov.len() && #[trigger] ov[k].id == e0[j].id;
            if k < pos {
                assert(nv[k] == ov[k]);
                assert(nv[k].id == e1[j].id);
            } else {
                assert(nv[k + 1] == ov[k]);
                assert(nv[k + 1].id == e1[j].id);
            }
        }
    }
}

/// An identity absent from a corpus is absent from its passages.
proof fn lemma_absent_id(e0: Seq<PassageView>, ov: Seq<PassageView>, id: Seq<char>)
    requires
        covers_ids(e0, ov),
        forall|m: int| 0 <= m < ov.len() ==> #[trigger] ov[m].id != id,
    ensures
        forall|j2: int| 0 <= j2 < e0.len() ==> #[trigger] e0[j2].id != id,
{
    reveal(covers_ids);
    assert forall|j2: int| 0 <= j2 < e0.len() implies #[trigger] e0[j2].id != id by {
        assert(covered_at(e0, ov, j2));
        let k = choose|k: int| 0 <= k < ov.len() && #[trigger] ov[k].id == e0[j2].id;
        assert(ov[k].id != id);
    }
}

/// Inserting a passage whose identity is new, at the position that keeps the order, keeps the
/// corpus.
proof fn lemma_insert_keeps_corpus(
    e0: Seq<PassageView>,
    ov: Seq<PassageView>,
    pv: PassageView,
    pos: int,
)
    requires
        is_corpus_of(e0, ov),
        0 <= pos <= ov.len(),
        forall|m: int| 0 <= m < pos ==> chars_lt(#[trigger] ov[m].id, pv.id),
        pos < ov.len() ==> !chars_lt(ov[pos].id, pv.id) && ov[pos].id != pv.id,
    ensures
        is_corpus_of(e0.push(pv), ov.insert(pos, pv)),
{
    assert forall|m: int| pos <= m < ov.len() implies chars_lt(pv.id, #[trigger] ov[m].id) by {
        crate::order::lemma_chars_lt_total(ov[pos].id, pv.id);
        if m > pos {
            reveal(sorted_by_id);
            assert(chars_lt(ov[pos].id, ov[m].id));
            crate::order::lemma_chars_lt_transitive(pv.id, ov[pos].id, ov[m].id);
        }
    }
    assert forall|m: int| 0 <= m < ov.len() implies #[trigger] ov[m].id != pv.id by {
        crate::order::lemma_chars_lt_irreflexive(pv.id);
        if m < pos {
            assert(chars_lt(ov[m].id, pv.id));
        } else {
            assert(chars_lt(pv.id, ov[m].id));
        }
    }
    lemma_absent_id(e0, ov, pv.id);
    lemma_sorted_insert(ov, pv, pos);
    lemma_drawn_insert(e0, ov, pv, pos);
    lemma_covers_insert(e0, ov, pv, pos);
}

/// A passage whose identity the corpus already holds leaves the corpus unchanged.
proof fn lemma_duplicate_keeps_corpus(
    e0: Seq<PassageView>,
    ov: Seq<PassageView>,
    pv: PassageView,
    pos: int,
)
    requires
        is_corpus_of(e0, ov),
        0 <= pos < ov.len(),
        ov[pos].id == pv.id,
    ensures
        is_corpus_of(e0.push(pv), ov),
{
    let e1 = e0.push(pv);
    assert(drawn_from_firsts(e1, ov)) by {
        reveal(drawn_from_firsts);
        assert forall|k: int| 0 <= k < ov.len() implies #[trigger] drawn_at(e1, ov, k) by {
            assert(drawn_at(e0, ov, k));
            let j = choose|j: int|
                0 <= j < e0.len() && #[trigger] e0[j] == ov[k] && first_with_id(e0, j);
            lemma_first_with_id_push(e0, pv, j);
            assert(e1[j] == ov[k]);
        }
    }
    assert(covers_ids(e1, ov)) by {
        reveal(covers_ids);
        assert forall|j: int| 0 <= j < e1.len() implies #[trigger] covered_at(e1, ov, j) by {
            if j == e0.len() {
                assert(ov[pos].id == e1[j].id);
            } else {
                assert(e1[j] == e0[j]);
                assert(covered_at(e0, ov, j));
                let k = choose|k: int| 0 <= k < ov.len() && #[trigger] ov[k].id == e0[j].id;
                assert(ov[k].id == e1[j].id);
            }
        }
    }
}

proof fn lemma_empty_corpus()
    ensures
        is_corpus_of(Seq::empty(), Seq::empty()),
{
    reveal(sorted_by_id);
    reveal(drawn_from_firsts);
    reveal(covers_ids);
}

/// The values of a sequence of sources.
pub open spec fn sources_view<'a>(srcs: Seq<CorpusSource<'a>>) -> Seq<SourceView> {
    srcs.map_values(|s: CorpusSource<'a>| s@)
}

/// The values of a sequence of passages.
pub open spec fn passages_view(ps: Seq<Passage>) -> Seq<PassageView> {
    ps.map_values(|p: Passage| p@)
}

/// Assemble the corpus over the given symbols: one passage per contributing symbol, ordered by
/// canonical identity, the first contributor kept where identities repeat. Identical inputs yield
/// identical corpora, whatever their order.
pub fn assemble(sources: &[CorpusSource<'_>]) -> (passages: Vec<Passage>)
    ensures
        is_corpus_of(eligible_passages(sources_view(sources@)), passages_view(passages@)),
{
    let ghost sv = sources_view(sources@);
    let mut out: Vec<Passage> = Vec::new();
    let mut keys: Vec<Vec<char>> = Vec::new();
    let mut k: usize = 0;
    proof {
        lemma_empty_corpus();
        assert(sv.take(0) =~= Seq::<SourceView>::empty());
        assert(passages_view(out@) =~= Seq::<PassageView>::empty());
    }
    while k < sources.len()
        invariant
            sv == sources_view(sources@),
            k <= sources.len(),
            keys.len() == out.len(),
            forall|m: int| 0 <= m < out.len() ==> (#[trigger] keys@[m])@ == out@[m]@.id,
            is_corpus_of(eligible_passages(sv.take(k as int)), passages_view(out@)),
        decreases sources.len() - k,
    {
        let ghost e0 = eligible_passages(sv.take(k as int));
        let ghost ov = passages_view(out@);
        proof {
            assert(sv.take(k + 1).drop_last() =~= sv.take(k as int));
            assert(sv.take(k + 1).last() == sources@[k as int]@);
        }
        if sources[k].contributes() {
            let p = passage_of(&sources[k]);
            let id = chars_of(p.symbol_id.as_str());
            let ghost e1 = e0.push(p@);
            assert(eligible_passages(sv.take(k + 1)) == e1);
            let mut pos: usize = 0;
            while pos < keys.len() && chars_less(&keys[pos], &id)
                invariant
                    pos <= keys.len(),
                    keys.len() == out.len(),
                    forall|m: int| 0 <= m < pos ==> chars_lt(#[trigger] keys@[m]@, id@),
                decreases keys.len() - pos,
            {
                pos = pos + 1;
            }
            let duplicate = pos < keys.len() && chars_eq(&keys[pos], &id);
            if !duplicate {
                proof {
                    if pos < keys.len() {
                        assert(keys@[pos as int]@ == ov[pos as int].id);
                    }
                    assert forall|m: int| 0 <= m < pos implies chars_lt(ov[m].id, p@.id) by {
                        assert(chars_lt(keys@[m]@, id@));
                    }
                    lemma_insert_keeps_corpus(e0, ov, p@, pos as int);
                }
                let ghost keys0 = keys@;
                let ghost out0 = out@;
                let ghost pv = p@;
                out.insert(pos, p);
                keys.insert(pos, id);
                proof {
                    assert(passages_view(out@) =~= ov.insert(pos as int, pv));
                    assert forall|m: int| 0 <= m < out.len() implies (#[trigger] keys@[m])@
                        == out@[m]@.id by {
                        if m < pos {
                            assert(keys@[m] == keys0[m]);
                            assert(out@[m] == out0[m]);
                        } else if m > pos {
                            assert(keys@[m] == keys0[m - 1]);
                            assert(out@[m] == out0[m - 1]);
                        }
                    }
                }
            } else {
                proof {
                    assert(keys@[pos as int]@ == ov[pos as int].id);
                    lemma_duplicate_keeps_corpus(e0, ov, p@, pos as int);
                }
            }
        }
        k = k + 1;
    }
    proof {
        assert(sv.take(sources.len() as int) =~= sv);
    }
    out
}

// ---------------------------------------------------------------------------------------------
// The corpus is a function of the contributing sources, whatever their order.
// ---------------------------------------------------------------------------------------------

/// Whether `p` is the passage of a contributing source of `s`.
pub open spec fn passage_of_some(s: Seq<SourceView>, p: PassageView) -> bool {
    exists|a: int| 0 <= a < s.len() && source_contributes(#[trigger] s[a]) && passage_spec(s[a]) == p
}

/// Whether no two contributing sources of `s` share an identity.
pub open spec fn contributing_ids_distinct(s: Seq<SourceView>) -> bool {
    forall|a: int, b: int|
        0 <= a < b < s.len() && source_contributes(#[trigger] s[a]) && source_contributes(
            #[trigger] s[b],
        ) ==> s[a].id != s[b].id
}

/// The eligible passages are exactly the passages of the contributing sources.
proof fn lemma_eligible_members(s: Seq<SourceView>)
    ensures
        forall|j: int|
            0 <= j < eligible_passages(s).len() ==> passage_of_some(
                s,
                #[trigger] eligible_passages(s)[j],
            ),
        forall|a: int|
            0 <= a < s.len() && source_contributes(#[trigger] s[a]) ==> eligible_passages(
                s,
            ).contains(passage_spec(s[a])),
    decreases s.len(),
{
    if s.len() > 0 {
        let d = s.drop_last();
        lemma_eligible_members(d);
        let e = eligible_passages(s);
        let ed = eligible_passages(d);
        assert forall|j: int| 0 <= j < e.len() implies passage_of_some(s, #[trigger] e[j]) by {
            if j < ed.len() {
                assert(e[j] == ed[j]);
                assert(passage_of_some(d, ed[j]));
                let a = choose|a: int|
                    0 <= a < d.len() && source_contributes(#[trigger] d[a]) && passage_spec(d[a])
                        == ed[j];
                assert(s[a] == d[a]);
            } else {
                assert(source_contributes(s[s.len() - 1]));
                assert(e[j] == passage_spec(s[s.len() - 1]));
            }
        }
        assert forall|a: int| 0 <= a < s.len() && source_contributes(#[trigger] s[a]) implies e.contains(
            passage_spec(s[a]),
        ) by {
            if a < d.len() {
                assert(s[a] == d[a]);
                assert(ed.contains(passage_spec(d[a])));
                let j = choose|j: int| 0 <= j < ed.len() && ed[j] == passage_spec(d[a]);
                assert(e[j] == ed[j]);
            } else {
                assert(e[ed.len() as int] == passage_spec(s[a]));
            }
        }
    }
}

/// Distinct contributing identities make the eligible passages' identities distinct.
proof fn lemma_eligible_ids_distinct(s: Seq<SourceView>)
    requires
        contributing_ids_distinct(s),
    ensures
        forall|j1: int, j2: int|
            0 <= j1 < j2 < eligible_passages(s).len() ==> #[trigger] eligible_passages(s)[j1].id
                != #[trigger] eligible_passages(s)[j2].id,
    decreases s.len(),
{
    if s.len() > 0 {
        let d = s.drop_last();
        assert forall|a: int, b: int|
            0 <= a < b < d.len() && source_contributes(#[trigger] d[a]) && source_contributes(
                #[trigger] d[b],
            ) implies d[a].id != d[b].id by {
            assert(s[a] == d[a] && s[b] == d[b]);
        }
        lemma_eligible_ids_distinct(d);
        lemma_eligible_members(d);
        let e = eligible_passages(s);
        let ed = eligible_passages(d);
        let last = s[s.len() - 1];
        assert forall|j1: int, j2: int| 0 <= j1 < j2 < e.len() implies #[trigger] e[j1].id
            != #[trigger] e[j2].id by {
            if j2 < ed.len() {
                assert(e[j1] == ed[j1] && e[j2] == ed[j2]);
            } else {
                assert(e[j1] == ed[j1]);
                assert(e[j2] == passage_spec(last));
                assert(passage_of_some(d, ed[j1]));
                let a = choose|a: int|
                    0 <= a < d.len() && source_contributes(#[trigger] d[a]) && passage_spec(d[a])
                        == ed[j1];
                assert(s[a] == d[a]);
                assert(source_contributes(s[s.len() - 1]));
            }
        }
    }
}

/// Over passages with distinct identities, every passage is the first with its identity.
proof fn lemma_all_first(e: Seq<PassageView>, j: int)
    requires
        0 <= j < e.len(),
        forall|j1: int, j2: int| 0 <= j1 < j2 < e.len() ==> #[trigger] e[j1].id != #[trigger] e[j2].id,
    ensures
        first_with_id(e, j),
{
    reveal(first_with_id);
}

/// Over passages with distinct identities, a corpus holds exactly the passages.
proof fn lemma_corpus_members(e: Seq<PassageView>, out: Seq<PassageView>)
    requires
        is_corpus_of(e, out),
        forall|j1: int, j2: int| 0 <= j1 < j2 < e.len() ==> #[trigger] e[j1].id != #[trigger] e[j2].id,
    ensures
        forall|p: PassageView| out.contains(p) <==> e.contains(p),
{
    reveal(drawn_from_firsts);
    reveal(covers_ids);
    assert forall|p: PassageView| out.contains(p) implies e.contains(p) by {
        let k = choose|k: int| 0 <= k < out.len() && out[k] == p;
        assert(drawn_at(e, out, k));
    }
    assert forall|p: PassageView| e.contains(p) implies out.contains(p) by {
        let j = choose|j: int| 0 <= j < e.len() && e[j] == p;
        assert(covered_at(e, out, j));
        let k = choose|k: int| 0 <= k < out.len() && #[trigger] out[k].id == e[j].id;
        assert(drawn_at(e, out, k));
        let j2 = choose|j2: int| 0 <= j2 < e.len() && #[trigger] e[j2] == out[k] && first_with_id(
            e,
            j2,
        );
        if j2 != j {
            if j2 < j {
                assert(e[j2].id != e[j].id);
            } else {
                assert(e[j].id != e[j2].id);
            }
        }
        assert(out[k] == p);
    }
}

/// Two sequences ordered strictly by identity and holding the same passages are equal.
proof fn lemma_sorted_same_members(o1: Seq<PassageView>, o2: Seq<PassageView>)
    requires
        sorted_by_id(o1),
        sorted_by_id(o2),
        forall|p: PassageView| o1.contains(p) <==> o2.contains(p),
    ensures
        o1 == o2,
    decreases o1.len(),
{
    reveal(sorted_by_id);
    if o1.len() == 0 {
        if o2.len() > 0 {
            assert(o2.contains(o2[0]));
        }
        assert(o1 =~= o2);
    } else {
        assert(o1.contains(o1[0]));
        let k = choose|k: int| 0 <= k < o2.len() && o2[k] == o1[0];
        assert(o2.contains(o2[0]));
        let m = choose|m: int| 0 <= m < o1.len() && o1[m] == o2[0];
        crate::order::lemma_chars_lt_irreflexive(o1[0].id);
        if k > 0 {
            assert(chars_lt(o2[0].id, o2[k].id));
            if m > 0 {
                assert(chars_lt(o1[0].id, o1[m].id));
                crate::order::lemma_chars_lt_asymmetric(o1[0].id, o1[m].id);
            }
        }
        assert(o1[0] == o2[0]);
        let t1 = o1.drop_first();
        let t2 = o2.drop_first();
        assert forall|a: int, b: int| 0 <= a < b < t1.len() implies chars_lt(
            #[trigger] t1[a].id,
            #[trigger] t1[b].id,
        ) by {
            assert(t1[a] == o1[a + 1] && t1[b] == o1[b + 1]);
        }
        assert forall|a: int, b: int| 0 <= a < b < t2.len() implies chars_lt(
            #[trigger] t2[a].id,
            #[trigger] t2[b].id,
        ) by {
            assert(t2[a] == o2[a + 1] && t2[b] == o2[b + 1]);
        }
        assert forall|p: PassageView| t1.contains(p) <==> t2.contains(p) by {
            if t1.contains(p) {
                let i = choose|i: int| 0 <= i < t1.len() && t1[i] == p;
                assert(o1[i + 1] == p);
                assert(chars_lt(o1[0].id, o1[i + 1].id));
                assert(o2.contains(p));
                let i2 = choose|i2: int| 0 <= i2 < o2.len() && o2[i2] == p;
                assert(i2 != 0);
                assert(t2[i2 - 1] == p);
            }
            if t2.contains(p) {
                let i = choose|i: int| 0 <= i < t2.len() && t2[i] == p;
                assert(o2[i + 1] == p);
                assert(chars_lt(o2[0].id, o2[i + 1].id));
                assert(o1.contains(p));
                let i1 = choose|i1: int| 0 <= i1 < o1.len() && o1[i1] == p;
                assert(i1 != 0);
                assert(t1[i1 - 1] == p);
            }
        }
        reveal(sorted_by_id);
        lemma_sorted_same_members(t1, t2);
        assert(o1 =~= seq![o1[0]] + t1);
        assert(o2 =~= seq![o2[0]] + t2);
    }
}

/// Identical inputs yield identical corpora regardless of input order: two source sequences
/// holding the same sources, in any order and with no two contributing sources sharing an
/// identity, assemble to the same corpus.
pub proof fn lemma_assembly_order_independent(
    s1: Seq<SourceView>,
    s2: Seq<SourceView>,
    o1: Seq<PassageView>,
    o2: Seq<PassageView>,
)
    requires
        s1.to_multiset() == s2.to_multiset(),
        contributing_ids_distinct(s1),
        contributing_ids_distinct(s2),
        is_corpus_of(eligible_passages(s1), o1),
        is_corpus_of(eligible_passages(s2), o2),
    ensures
        o1 == o2,
{
    broadcast use vstd::seq_lib::group_to_multiset_ensures;

    let e1 = eligible_passages(s1);
    let e2 = eligible_passages(s2);
    lemma_eligible_ids_distinct(s1);
    lemma_eligible_ids_distinct(s2);
    lemma_eligible_members(s1);
    lemma_eligible_members(s2);
    lemma_corpus_members(e1, o1);
    lemma_corpus_members(e2, o2);
    assert forall|p: PassageView| e1.contains(p) implies e2.contains(p) by {
        let j = choose|j: int| 0 <= j < e1.len() && e1[j] == p;
        assert(passage_of_some(s1, e1[j]));
        let a = choose|a: int|
            0 <= a < s1.len() && source_contributes(#[trigger] s1[a]) && passage_spec(s1[a]) == e1[j];
        assert(s1.to_multiset().count(s1[a]) > 0);
        assert(s2.contains(s1[a]));
        let b = choose|b: int| 0 <= b < s2.len() && s2[b] == s1[a];
        assert(source_contributes(s2[b]));
    }
    assert forall|p: PassageView| e2.contains(p) implies e1.contains(p) by {
        let j = choose|j: int| 0 <= j < e2.len() && e2[j] == p;
        assert(passage_of_some(s2, e2[j]));
        let a = choose|a: int|
            0 <= a < s2.len() && source_contributes(#[trigger] s2[a]) && passage_spec(s2[a]) == e2[j];
        assert(s2.to_multiset().count(s2[a]) > 0);
        assert(s1.contains(s2[a]));
        let b = choose|b: int| 0 <= b < s1.len() && s1[b] == s2[a];
        assert(source_contributes(s1[b]));
    }
    lemma_sorted_same_members(o1, o2);
}


/// A symbol's own documentation is what its interface tier adds to its signature tier, trimmed:
/// the text after the signature (a docstring) when the interface does not also end with the
/// signature, or the text before it (a doc comment). Equal tiers carry no documentation, and
/// neither does a symbol missing either tier.
pub proof fn lemma_documentation_is_what_the_interface_adds(s: Seq<char>, d: Seq<char>, p: Seq<char>)
    ensures
        d.len() > 0 && trim(d).len() > 0 && !(exists|x: Seq<char>| x + s == s + d) ==> documentation_of(
            Some(s),
            Some(s + d),
        ) == Some(trim(d)),
        p.len() > 0 && trim(p).len() > 0 ==> documentation_of(Some(s), Some(p + s)) == Some(trim(p)),
        documentation_of(Some(s), Some(s)) is None,
        documentation_of(None, Some(s)) is None,
        documentation_of(Some(s), None) is None,
{
    if d.len() > 0 && trim(d).len() > 0 && !(exists|x: Seq<char>| x + s == s + d) {
        let i = s + d;
        assert(i.len() > s.len());
        assert(i != s);
        if strip_suffix_of(i, s) is Some {
            let x = i.take(i.len() - s.len());
            assert(x + s =~= i);
            assert(false);
        }
        assert(i.take(s.len() as int) =~= s);
        assert(i.skip(s.len() as int) =~= d);
    }
    if p.len() > 0 && trim(p).len() > 0 {
        let i = p + s;
        assert(i.len() > s.len());
        assert(i != s);
        assert(i.skip(i.len() - s.len()) =~= s);
        assert(i.take(i.len() - s.len()) =~= p);
    }
}

} // verus!
