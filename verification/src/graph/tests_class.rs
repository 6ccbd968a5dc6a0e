//! Test classification: which documents the test configuration gates, and which convention marks
//! a symbol as test code.

use vstd::prelude::*;

use crate::text::{chars_of, last_index_of, last_index_of_exec, slice_to_vec, split_on, split_pieces, str_eq, strip_prefix_of, strip_suffix_of, vecs_view};

use super::range::ByteSpan;
use super::syntax::Language;

verus! {

/// Whether a path lies under a directory named `tests`: some component other than the last (the
/// file name) is `tests`.
pub open spec fn under_tests_directory(path: Seq<char>) -> bool {
    let dirs = split_pieces(path, seq!['/']).drop_last();
    exists|k: int| 0 <= k < dirs.len() && #[trigger] dirs[k] == "tests"@
}

/// Whether a workspace-relative document path lies under a directory named `tests`.
pub fn has_tests_directory_component(path: &str) -> (r: bool)
    ensures
        r == under_tests_directory(path@),
{
    let pc = chars_of(path);
    let mut slash: Vec<char> = Vec::new();
    slash.push('/');
    assert(slash@ =~= seq!['/']);
    let parts = split_on(&pc, &slash);
    proof {
        crate::text::lemma_split_pieces_nonempty(pc@, slash@);
    }
    let ghost dirs = vecs_view(parts@).drop_last();
    let tests = chars_of("tests");
    let mut k: usize = 0;
    while k + 1 < parts.len()
        invariant
            parts.len() >= 1,
            dirs == vecs_view(parts@).drop_last(),
            vecs_view(parts@) == split_pieces(path@, seq!['/']),
            tests@ == "tests"@,
            k + 1 <= parts.len(),
            forall|j: int| 0 <= j < k ==> dirs[j] != "tests"@,
        decreases parts.len() - k,
    {
        assert(dirs[k as int] == parts@[k as int]@);
        if crate::text::chars_eq(&parts[k], &tests) {
            return true;
        }
        k = k + 1;
    }
    false
}

/// The file name of a path: what follows its last `/`.
pub open spec fn last_component(path: Seq<char>) -> Seq<char> {
    match last_index_of(path, '/') {
        Some(i) => path.skip(i + 1),
        None => path,
    }
}

/// Whether a Python document's file name follows the test runners' collection conventions:
/// `test_*.py`, `*_test.py`, `tests.py`, or the fixture file `conftest.py`.
pub open spec fn python_test_file(path: Seq<char>) -> bool {
    let name = last_component(path);
    name == "tests.py"@ || name == "conftest.py"@ || match strip_suffix_of(name, ".py"@) {
        Some(stem) => strip_prefix_of(stem, "test_"@) is Some || strip_suffix_of(stem, "_test"@) is Some,
        None => false,
    }
}

/// Whether a Python document's file name marks it as test code.
pub fn is_python_test_file_name(path: &str) -> (r: bool)
    ensures
        r == python_test_file(path@),
{
    let pc = chars_of(path);
    let name = match last_index_of_exec(&pc, '/') {
        Some(i) => {
            let n = slice_to_vec(&pc, i + 1, pc.len());
            assert(n@ =~= path@.skip(i + 1));
            n
        },
        None => pc,
    };
    let tests_py = chars_of("tests.py");
    let conftest = chars_of("conftest.py");
    if crate::text::chars_eq(&name, &tests_py) || crate::text::chars_eq(&name, &conftest) {
        return true;
    }
    let py = chars_of(".py");
    match crate::text::strip_suffix_chars(&name, &py) {
        Some(stem) => {
            let test_ = chars_of("test_");
            let _test = chars_of("_test");
            crate::text::strip_prefix_chars(&stem, &test_).is_some()
                || crate::text::strip_suffix_chars(&stem, &_test).is_some()
        },
        None => false,
    }
}

/// The convention that marks a symbol as test code, strongest evidence first: in Rust a test
/// attribute, then the test configuration, then a `tests` directory; in Python a test file name,
/// then a `tests` directory.
pub open spec fn test_rule_spec(language: Language, doc: Seq<char>, attributed: bool, configured: bool) -> Option<Seq<char>> {
    match language {
        Language::Rust => if attributed {
            Some("test_attribute"@)
        } else if configured {
            Some("test_configuration"@)
        } else if under_tests_directory(doc) {
            Some("test_directory"@)
        } else {
            None
        },
        Language::Python => if python_test_file(doc) {
            Some("test_file"@)
        } else if under_tests_directory(doc) {
            Some("test_directory"@)
        } else {
            None
        },
    }
}

/// The test-classification rule of a symbol defined in `doc`: `attributed` says a test attribute
/// marks its declaration, `configured` that the test configuration gates it.
pub fn test_rule(language: Language, doc: &str, attributed: bool, configured: bool) -> (r: Option<&'static str>)
    ensures
        match r {
            Some(t) => test_rule_spec(language, doc@, attributed, configured) == Some(t@),
            None => test_rule_spec(language, doc@, attributed, configured) is None,
        },
{
    match language {
        Language::Rust => if attributed {
            Some("test_attribute")
        } else if configured {
            Some("test_configuration")
        } else if has_tests_directory_component(doc) {
            Some("test_directory")
        } else {
            None
        },
        Language::Python => if is_python_test_file_name(doc) {
            Some("test_file")
        } else if has_tests_directory_component(doc) {
            Some("test_directory")
        } else {
            None
        },
    }
}

/// The characters of some strings.
pub open spec fn names(v: Seq<String>) -> Seq<Seq<char>> {
    v.map_values(|s: String| s@)
}

/// The out-of-line module edges as plain values: (declaring document, declared module's document).
pub open spec fn edges_view(v: Seq<(String, String)>) -> Seq<(Seq<char>, Seq<char>)> {
    v.map_values(|e: (String, String)| (e.0@, e.1@))
}

/// Whether `x` is among the documents.
pub open spec fn holds(v: Seq<Seq<char>>, x: Seq<char>) -> bool {
    exists|k: int| 0 <= k < v.len() && #[trigger] v[k] == x
}

/// Whether `docs` is the closure of `seeds` under `edges`: it holds every seed, it is closed
/// under the edges, and each document in it is a seed or the target of an edge from a document
/// listed before it.
pub open spec fn is_gated_closure(docs: Seq<Seq<char>>, seeds: Seq<Seq<char>>, edges: Seq<(Seq<char>, Seq<char>)>) -> bool {
    &&& forall|s: int| 0 <= s < seeds.len() ==> holds(docs, #[trigger] seeds[s])
    &&& forall|e: int| 0 <= e < edges.len() && holds(docs, (#[trigger] edges[e]).0) ==> holds(docs, edges[e].1)
    &&& forall|i: int|
        0 <= i < docs.len() ==> holds(seeds, #[trigger] docs[i]) || exists|e: int, j: int|
            0 <= e < edges.len() && 0 <= j < i && edges[e].1 == docs[i] && #[trigger] edges[e].0 == #[trigger] docs[j]
}

/// Whether `x` is among `v`.
fn contains_name(v: &Vec<String>, x: &str) -> (r: bool)
    ensures
        r == holds(names(v@), x@),
{
    let mut k: usize = 0;
    while k < v.len()
        invariant
            k <= v.len(),
            forall|j: int| 0 <= j < k ==> names(v@)[j] != x@,
        decreases v.len() - k,
    {
        if str_eq(v[k].as_str(), x) {
            assert(names(v@)[k as int] == x@);
            return true;
        }
        k = k + 1;
    }
    false
}

/// The documents the test configuration gates: the documents of the gated out-of-line module
/// declarations (`seeds`), closed over the out-of-line module declarations each gated document
/// contains (`edges`, from a declaring document to the declared module's document).
pub fn gated_documents(seeds: &Vec<String>, edges: &Vec<(String, String)>) -> (r: Vec<String>)
    ensures
        is_gated_closure(names(r@), names(seeds@), edges_view(edges@)),
{
    let ghost sv = names(seeds@);
    let ghost ev = edges_view(edges@);
    let mut docs: Vec<String> = Vec::new();
    let mut k: usize = 0;
    while k < seeds.len()
        invariant
            k <= seeds.len(),
            sv == names(seeds@),
            forall|s: int| 0 <= s < k ==> holds(names(docs@), #[trigger] sv[s]),
            forall|i: int| 0 <= i < docs@.len() ==> holds(sv, #[trigger] names(docs@)[i]),
        decreases seeds.len() - k,
    {
        let ghost before = names(docs@);
        if !contains_name(&docs, seeds[k].as_str()) {
            docs.push(seeds[k].clone());
            proof {
                assert(names(docs@) =~= before.push(sv[k as int]));
                assert forall|s: int| 0 <= s <= k implies holds(names(docs@), #[trigger] sv[s]) by {
                    if s < k {
                        let w = choose|w: int| 0 <= w < before.len() && before[w] == sv[s];
                        assert(names(docs@)[w] == sv[s]);
                    } else {
                        assert(names(docs@)[before.len() as int] == sv[s]);
                    }
                }
                assert forall|i: int| 0 <= i < docs@.len() implies holds(sv, #[trigger] names(docs@)[i]) by {
                    if i < before.len() {
                        assert(names(docs@)[i] == before[i]);
                    } else {
                        assert(names(docs@)[i] == sv[k as int]);
                    }
                }
            }
        } else {
            proof {
                assert(names(docs@) == before);
            }
        }
        k = k + 1;
    }
    let mut fired: Vec<bool> = Vec::new();
    let mut e: usize = 0;
    while e < edges.len()
        invariant
            e <= edges.len(),
            fired@.len() == e,
            forall|x: int| 0 <= x < e ==> !fired@[x],
        decreases edges.len() - e,
    {
        fired.push(false);
        e = e + 1;
    }
    proof {
        crate::counting::lemma_count_where_all(fired@, |b: bool| !b);
    }
    let mut unfired: usize = edges.len();
    let mut changed = true;
    while changed
        invariant
            sv == names(seeds@),
            ev == edges_view(edges@),
            fired@.len() == edges.len(),
            unfired <= edges.len(),
            unfired == crate::counting::count_where(fired@, |b: bool| !b),
            forall|s: int| 0 <= s < sv.len() ==> holds(names(docs@), #[trigger] sv[s]),
            forall|x: int| 0 <= x < edges.len() && fired@[x] ==> holds(names(docs@), (#[trigger] ev[x]).1),
            !changed ==> forall|x: int| 0 <= x < edges.len() && holds(names(docs@), (#[trigger] ev[x]).0) ==> fired@[x],
            forall|i: int|
                0 <= i < docs@.len() ==> holds(sv, #[trigger] names(docs@)[i]) || exists|x: int, j: int|
                    0 <= x < ev.len() && 0 <= j < i && ev[x].1 == names(docs@)[i] && #[trigger] ev[x].0
                        == #[trigger] names(docs@)[j],
        decreases unfired + if changed { 1int } else { 0int },
    {
        changed = false;
        let ghost unfired_at_start = unfired;
        let mut x: usize = 0;
        while x < edges.len()
            invariant
                x <= edges.len(),
                sv == names(seeds@),
                ev == edges_view(edges@),
                fired@.len() == edges.len(),
                unfired <= edges.len(),
                unfired == crate::counting::count_where(fired@, |b: bool| !b),
                changed ==> unfired < unfired_at_start,
                !changed ==> unfired == unfired_at_start,
                forall|s: int| 0 <= s < sv.len() ==> holds(names(docs@), #[trigger] sv[s]),
                forall|y: int| 0 <= y < edges.len() && fired@[y] ==> holds(names(docs@), (#[trigger] ev[y]).1),
                !changed ==> forall|y: int| 0 <= y < x && holds(names(docs@), (#[trigger] ev[y]).0) ==> fired@[y],
                forall|i: int|
                    0 <= i < docs@.len() ==> holds(sv, #[trigger] names(docs@)[i]) || exists|y: int, j: int|
                        0 <= y < ev.len() && 0 <= j < i && ev[y].1 == names(docs@)[i] && #[trigger] ev[y].0
                            == #[trigger] names(docs@)[j],
            decreases edges.len() - x,
        {
            let (from, to) = &edges[x];
            assert(ev[x as int] == (from@, to@));
            if !fired[x] && contains_name(&docs, from.as_str()) {
                let ghost before = names(docs@);
                let ghost fired_before = fired@;
                if !contains_name(&docs, to.as_str()) {
                    let ghost j = choose|j: int| 0 <= j < before.len() && before[j] == from@;
                    docs.push(to.clone());
                    proof {
                        assert(names(docs@) =~= before.push(to@));
                        assert forall|s: int| 0 <= s < sv.len() implies holds(names(docs@), #[trigger] sv[s]) by {
                            let w = choose|w: int| 0 <= w < before.len() && before[w] == sv[s];
                            assert(names(docs@)[w] == sv[s]);
                        }
                        assert forall|y: int| 0 <= y < edges.len() && fired@[y] implies holds(names(docs@), (#[trigger] ev[y]).1) by {
                            let w = choose|w: int| 0 <= w < before.len() && before[w] == ev[y].1;
                            assert(names(docs@)[w] == ev[y].1);
                        }
                        assert forall|i: int| 0 <= i < docs@.len() implies holds(sv, #[trigger] names(docs@)[i]) || exists|y: int, j2: int|
                            0 <= y < ev.len() && 0 <= j2 < i && ev[y].1 == names(docs@)[i] && #[trigger] ev[y].0
                                == #[trigger] names(docs@)[j2] by {
                            if i < before.len() {
                                assert(names(docs@)[i] == before[i]);
                                if !holds(sv, before[i]) {
                                    let (y, j2) = choose|y: int, j2: int| 0 <= y < ev.len() && 0 <= j2 < i && ev[y].1 == before[i] && ev[y].0 == before[j2];
                                    assert(names(docs@)[j2] == before[j2]);
                                }
                            } else {
                                assert(names(docs@)[i] == to@);
                                assert(names(docs@)[j] == from@);
                                assert(ev[x as int].0 == names(docs@)[j]);
                            }
                        }
                    }
                }
                fired.set(x, true);
                proof {
                    crate::counting::lemma_count_where_update(fired_before, x as int, true, |b: bool| !b);
                    assert(holds(names(docs@), ev[x as int].1)) by {
                        if holds(before, to@) {
                            let w = choose|w: int| 0 <= w < before.len() && before[w] == to@;
                            assert(names(docs@)[w] == to@);
                        } else {
                            assert(names(docs@)[before.len() as int] == to@);
                        }
                    }
                }
                unfired = unfired - 1;
                changed = true;
            }
            x = x + 1;
        }
    }
    docs
}

/// Whether some span of `spans` contains `span`.
pub open spec fn held_in(spans: Seq<ByteSpan>, span: ByteSpan) -> bool {
    exists|i: int| 0 <= i < spans.len() && (#[trigger] spans[i]).start <= span.start && span.end <= spans[i].end
}

/// Whether some span of `spans` contains `span`.
fn any_contains(spans: &[ByteSpan], span: ByteSpan) -> (r: bool)
    ensures
        r == held_in(spans@, span),
{
    let mut i: usize = 0;
    while i < spans.len()
        invariant
            i <= spans.len(),
            forall|j: int| 0 <= j < i ==> !((#[trigger] spans@[j]).start <= span.start && span.end <= spans@[j].end),
        decreases spans.len() - i,
    {
        if spans[i].contains(&span) {
            return true;
        }
        i = i + 1;
    }
    false
}

/// Whether `span` is one of `spans`.
pub open spec fn among(spans: Seq<ByteSpan>, span: ByteSpan) -> bool {
    exists|i: int| 0 <= i < spans.len() && #[trigger] spans[i] == span
}

/// The test-classification rule of one symbol of `doc`, from its document's test signals: the
/// name spans of its test-attributed declarations, the spans of its inline test-configured module
/// bodies, and whether the document itself is test-configured. A symbol with no aligned
/// definition span classifies through its document alone.
pub fn symbol_test_rule(
    language: Language,
    doc: &str,
    name_span: Option<ByteSpan>,
    attributed_names: &[ByteSpan],
    inline_gated: &[ByteSpan],
    doc_gated: bool,
) -> (r: Option<&'static str>)
    ensures
        ({
            let attributed = name_span is Some && among(attributed_names@, name_span.unwrap());
            let configured = doc_gated || (name_span is Some && held_in(inline_gated@, name_span.unwrap()));
            match r {
                Some(t) => test_rule_spec(language, doc@, attributed, configured) == Some(t@),
                None => test_rule_spec(language, doc@, attributed, configured) is None,
            }
        }),
{
    let attributed = match name_span {
        Some(span) => {
            let mut found = false;
            let mut i: usize = 0;
            while i < attributed_names.len()
                invariant
                    i <= attributed_names.len(),
                    found == exists|j: int| 0 <= j < i && #[trigger] attributed_names@[j] == span,
                decreases attributed_names.len() - i,
            {
                if attributed_names[i].same_as(&span) {
                    found = true;
                }
                i = i + 1;
            }
            found
        },
        None => false,
    };
    let configured = doc_gated || match name_span {
        Some(span) => any_contains(inline_gated, span),
        None => false,
    };
    test_rule(language, doc, attributed, configured)
}

/// The out-of-line module declarations lying inside an inline test-configured module body: through
/// them, test configuration carries into other documents.
pub fn gated_declarations(inline_gated: &[ByteSpan], out_of_line: &[ByteSpan]) -> (r: Vec<ByteSpan>)
    ensures
        r@ == out_of_line@.filter(|d: ByteSpan| held_in(inline_gated@, d)),
{
    let mut r: Vec<ByteSpan> = Vec::new();
    let mut k: usize = 0;
    while k < out_of_line.len()
        invariant
            k <= out_of_line.len(),
            r@ == out_of_line@.take(k as int).filter(|d: ByteSpan| held_in(inline_gated@, d)),
        decreases out_of_line.len() - k,
    {
        proof {
            reveal(Seq::filter);
            assert(out_of_line@.take(k + 1).drop_last() =~= out_of_line@.take(k as int));
            assert(out_of_line@.take(k + 1).last() == out_of_line@[k as int]);
        }
        if any_contains(inline_gated, out_of_line[k]) {
            r.push(out_of_line[k]);
        }
        k = k + 1;
    }
    assert(out_of_line@.take(out_of_line.len() as int) =~= out_of_line@);
    r
}

} // verus!
