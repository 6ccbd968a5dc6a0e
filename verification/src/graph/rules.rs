//! The alignment rules' small decisions: which construct an operator method desugars from, which
//! range type a range operator spells, how a type spelling reduces to its base name, and how a
//! token relates to a module's dotted name or to the module that contains it.

use vstd::prelude::*;

use crate::identity::{kind_position, kind_rank, Descriptor, SegmentKind};
use crate::text::{chars_of, chars_eq, occurs_at, occurs_at_exec, slice_to_vec, str_eq, strip_suffix_of};
use crate::unicode::{char_is_alphanumeric, is_alphanumeric, trim, trim_chars};

use crate::model::{is_definition, is_module_kind, OccurrenceRole, SymbolKind};

use super::join::AlignmentRule;
use super::range::ByteSpan;
use super::syntax::{is_rust, ConstructAt, Language, RangeShape};

verus! {

/// The construct an operator method is located at: the construct's node kind, and the operator
/// token it must carry, where the kind carries one.
pub open spec fn desugar_spec(method: Seq<char>) -> Option<(Seq<char>, Option<Seq<char>>)> {
    if method == "branch"@ {
        Some(("try_expression"@, None))
    } else if method == "eq"@ {
        Some(("binary_expression"@, Some("=="@)))
    } else if method == "ne"@ {
        Some(("binary_expression"@, Some("!="@)))
    } else if method == "lt"@ {
        Some(("binary_expression"@, Some("<"@)))
    } else if method == "le"@ {
        Some(("binary_expression"@, Some("<="@)))
    } else if method == "gt"@ {
        Some(("binary_expression"@, Some(">"@)))
    } else if method == "ge"@ {
        Some(("binary_expression"@, Some(">="@)))
    } else if method == "add"@ {
        Some(("binary_expression"@, Some("+"@)))
    } else if method == "sub"@ {
        Some(("binary_expression"@, Some("-"@)))
    } else if method == "mul"@ {
        Some(("binary_expression"@, Some("*"@)))
    } else if method == "div"@ {
        Some(("binary_expression"@, Some("/"@)))
    } else if method == "rem"@ {
        Some(("binary_expression"@, Some("%"@)))
    } else if method == "add_assign"@ {
        Some(("compound_assignment_expr"@, Some("+="@)))
    } else if method == "sub_assign"@ {
        Some(("compound_assignment_expr"@, Some("-="@)))
    } else if method == "mul_assign"@ {
        Some(("compound_assignment_expr"@, Some("*="@)))
    } else if method == "div_assign"@ {
        Some(("compound_assignment_expr"@, Some("/="@)))
    } else if method == "rem_assign"@ {
        Some(("compound_assignment_expr"@, Some("%="@)))
    } else if method == "bitand"@ {
        Some(("binary_expression"@, Some("&"@)))
    } else if method == "bitor"@ {
        Some(("binary_expression"@, Some("|"@)))
    } else if method == "bitxor"@ {
        Some(("binary_expression"@, Some("^"@)))
    } else if method == "shl"@ {
        Some(("binary_expression"@, Some("<<"@)))
    } else if method == "shr"@ {
        Some(("binary_expression"@, Some(">>"@)))
    } else if method == "bitand_assign"@ {
        Some(("compound_assignment_expr"@, Some("&="@)))
    } else if method == "bitor_assign"@ {
        Some(("compound_assignment_expr"@, Some("|="@)))
    } else if method == "bitxor_assign"@ {
        Some(("compound_assignment_expr"@, Some("^="@)))
    } else if method == "shl_assign"@ {
        Some(("compound_assignment_expr"@, Some("<<="@)))
    } else if method == "shr_assign"@ {
        Some(("compound_assignment_expr"@, Some(">>="@)))
    } else if method == "neg"@ {
        Some(("unary_expression"@, Some("-"@)))
    } else if method == "not"@ {
        Some(("unary_expression"@, Some("!"@)))
    } else if method == "index"@ || method == "index_mut"@ {
        Some(("index_expression"@, None))
    } else if method == "deref"@ || method == "deref_mut"@ {
        Some(("unary_expression"@, Some("*"@)))
    } else if method == "call"@ || method == "call_mut"@ || method == "call_once"@ {
        Some(("call_expression"@, None))
    } else if method == "into_iter"@ || method == "next"@ {
        Some(("for_expression"@, None))
    } else {
        None
    }
}

/// The construct expectation of one method in the closed operator-desugar correspondence.
#[derive(Debug, Clone, Copy, PartialEq, Eq)]
pub struct DesugarExpectation {
    /// The node kind of the construct.
    pub kind: &'static str,
    /// The operator token the construct must carry, where its kind carries one.
    pub operator: Option<&'static str>,
}

/// An expectation as plain values.
pub open spec fn expectation_view(e: DesugarExpectation) -> (Seq<char>, Option<Seq<char>>) {
    (e.kind@, match e.operator {
        Some(o) => Some(o@),
        None => None,
    })
}

/// An expectation on a kind alone.
fn kind_only(kind: &'static str) -> (r: Option<DesugarExpectation>)
    ensures
        r matches Some(e) && expectation_view(e) == (kind@, None::<Seq<char>>),
{
    Some(DesugarExpectation { kind, operator: None })
}

/// An expectation on a kind and its operator token.
fn with_operator(kind: &'static str, operator: &'static str) -> (r: Option<DesugarExpectation>)
    ensures
        r matches Some(e) && expectation_view(e) == (kind@, Some(operator@)),
{
    Some(DesugarExpectation { kind, operator: Some(operator) })
}

/// The closed method-to-construct correspondence for the operator-desugar rule. Autoderef at `.`
/// is excluded: `deref` and `deref_mut` accept only an explicit unary `*`.
pub fn desugar_construct(method: &str) -> (r: Option<DesugarExpectation>)
    ensures
        match r {
            Some(e) => desugar_spec(method@) == Some(expectation_view(e)),
            None => desugar_spec(method@) is None,
        },
{
    let b = "binary_expression";
    let c = "compound_assignment_expr";
    let u = "unary_expression";
    if str_eq(method, "branch") {
        kind_only("try_expression")
    } else if str_eq(method, "eq") {
        with_operator(b, "==")
    } else if str_eq(method, "ne") {
        with_operator(b, "!=")
    } else if str_eq(method, "lt") {
        with_operator(b, "<")
    } else if str_eq(method, "le") {
        with_operator(b, "<=")
    } else if str_eq(method, "gt") {
        with_operator(b, ">")
    } else if str_eq(method, "ge") {
        with_operator(b, ">=")
    } else if str_eq(method, "add") {
        with_operator(b, "+")
    } else if str_eq(method, "sub") {
        with_operator(b, "-")
    } else if str_eq(method, "mul") {
        with_operator(b, "*")
    } else if str_eq(method, "div") {
        with_operator(b, "/")
    } else if str_eq(method, "rem") {
        with_operator(b, "%")
    } else if str_eq(method, "add_assign") {
        with_operator(c, "+=")
    } else if str_eq(method, "sub_assign") {
        with_operator(c, "-=")
    } else if str_eq(method, "mul_assign") {
        with_operator(c, "*=")
    } else if str_eq(method, "div_assign") {
        with_operator(c, "/=")
    } else if str_eq(method, "rem_assign") {
        with_operator(c, "%=")
    } else if str_eq(method, "bitand") {
        with_operator(b, "&")
    } else if str_eq(method, "bitor") {
        with_operator(b, "|")
    } else if str_eq(method, "bitxor") {
        with_operator(b, "^")
    } else if str_eq(method, "shl") {
        with_operator(b, "<<")
    } else if str_eq(method, "shr") {
        with_operator(b, ">>")
    } else if str_eq(method, "bitand_assign") {
        with_operator(c, "&=")
    } else if str_eq(method, "bitor_assign") {
        with_operator(c, "|=")
    } else if str_eq(method, "bitxor_assign") {
        with_operator(c, "^=")
    } else if str_eq(method, "shl_assign") {
        with_operator(c, "<<=")
    } else if str_eq(method, "shr_assign") {
        with_operator(c, ">>=")
    } else if str_eq(method, "neg") {
        with_operator(u, "-")
    } else if str_eq(method, "not") {
        with_operator(u, "!")
    } else if str_eq(method, "index") || str_eq(method, "index_mut") {
        kind_only("index_expression")
    } else if str_eq(method, "deref") || str_eq(method, "deref_mut") {
        with_operator(u, "*")
    } else if str_eq(method, "call") || str_eq(method, "call_mut") || str_eq(method, "call_once") {
        kind_only("call_expression")
    } else if str_eq(method, "into_iter") || str_eq(method, "next") {
        kind_only("for_expression")
    } else {
        None
    }
}

/// Whether a construct satisfies an expectation: the same kind, and the same operator token where
/// the expectation names one.
pub open spec fn construct_satisfies(expected: (Seq<char>, Option<Seq<char>>), construct: ConstructAt) -> bool {
    &&& construct.kind@ == expected.0
    &&& match expected.1 {
        Some(op) => construct.operator matches Some(o) && o@ == op,
        None => true,
    }
}

impl DesugarExpectation {
    /// Whether the construct at an occurrence's location satisfies this expectation exactly.
    pub fn matches(&self, construct: &ConstructAt) -> (r: bool)
        ensures
            r == construct_satisfies(expectation_view(*self), *construct),
    {
        if !str_eq(construct.kind.as_str(), self.kind) {
            return false;
        }
        match self.operator {
            Some(op) => match &construct.operator {
                Some(o) => str_eq(o.as_str(), op),
                None => false,
            },
            None => true,
        }
    }
}

/// The `std::ops` range type a range operator's shape spells; an inclusive operator without an
/// end has none.
pub open spec fn range_type_spec(shape: RangeShape) -> Option<Seq<char>> {
    if shape.inclusive && !shape.has_end {
        None
    } else if shape.inclusive {
        Some(if shape.has_start { "RangeInclusive"@ } else { "RangeToInclusive"@ })
    } else if shape.has_start {
        Some(if shape.has_end { "Range"@ } else { "RangeFrom"@ })
    } else {
        Some(if shape.has_end { "RangeTo"@ } else { "RangeFull"@ })
    }
}

/// The range type name a range operator's shape corresponds to, or `None` for a shape with no
/// corresponding type.
pub fn range_type_name(shape: RangeShape) -> (r: Option<&'static str>)
    ensures
        match r {
            Some(n) => range_type_spec(shape) == Some(n@),
            None => range_type_spec(shape) is None,
        },
{
    match (shape.has_start, shape.has_end, shape.inclusive) {
        (true, true, false) => Some("Range"),
        (true, false, false) => Some("RangeFrom"),
        (false, true, false) => Some("RangeTo"),
        (false, false, false) => Some("RangeFull"),
        (true, true, true) => Some("RangeInclusive"),
        (false, true, true) => Some("RangeToInclusive"),
        (true, false, true) | (false, false, true) => None,
    }
}

/// The characters before the first `c` of `s` (all of `s` when it has none).
pub open spec fn before_first(s: Seq<char>, c: char) -> Seq<char>
    decreases s.len(),
{
    if s.len() == 0 {
        s
    } else if s[0] == c {
        Seq::empty()
    } else {
        seq![s[0]] + before_first(s.drop_first(), c)
    }
}

/// The start of the last occurrence of `pat` in `s`.
pub open spec fn rfind(s: Seq<char>, pat: Seq<char>) -> Option<int>
    decreases s.len(),
{
    if s.len() < pat.len() {
        None
    } else if occurs_at(s, pat, s.len() - pat.len()) {
        Some(s.len() - pat.len())
    } else if s.len() == 0 {
        None
    } else {
        rfind(s.drop_last(), pat)
    }
}

/// What follows the last `::` of `s` (all of `s` when it has none).
pub open spec fn after_last_path_sep(s: Seq<char>) -> Seq<char> {
    match rfind(s, "::"@) {
        Some(i) => s.skip(i + 2),
        None => s,
    }
}

/// The base name of a type spelling: generic arguments stripped and any path qualifier dropped,
/// each step trimmed.
pub open spec fn base_type_spec(name: Seq<char>) -> Seq<char> {
    trim(after_last_path_sep(trim(before_first(name, '<'))))
}

/// The characters of `s` before its first `c`.
fn before_first_exec(s: &[char], c: char) -> (r: Vec<char>)
    ensures
        r@ == before_first(s@, c),
{
    let mut i: usize = 0;
    assert(s@.skip(0) =~= s@);
    assert(s@.take(0) + before_first(s@, c) =~= before_first(s@, c));
    while i < s.len() && s[i] != c
        invariant
            i <= s.len(),
            forall|j: int| 0 <= j < i ==> s@[j] != c,
            before_first(s@, c) == s@.take(i as int) + before_first(s@.skip(i as int), c),
        decreases s.len() - i,
    {
        proof {
            assert(s@.skip(i as int)[0] == s@[i as int]);
            assert(s@.skip(i as int).drop_first() =~= s@.skip(i + 1));
            assert(s@.take(i + 1) =~= s@.take(i as int) + seq![s@[i as int]]);
        }
        i = i + 1;
    }
    proof {
        if i < s.len() {
            assert(s@.skip(i as int)[0] == c);
        } else {
            assert(s@.skip(i as int) =~= Seq::<char>::empty());
        }
        assert(s@.take(i as int) + Seq::<char>::empty() =~= s@.take(i as int));
    }
    slice_to_vec(s, 0, i)
}

/// What follows the last `::` of `s`.
fn after_last_path_sep_exec(s: &[char]) -> (r: Vec<char>)
    ensures
        r@ == after_last_path_sep(s@),
{
    let sep = chars_of("::");
    proof {
        reveal_strlit("::");
    }
    let mut n = s.len();
    assert(s@.take(n as int) =~= s@);
    while n >= 2
        invariant
            n <= s.len(),
            sep@ == "::"@,
            "::"@ =~= seq![':', ':'],
            rfind(s@, "::"@) == rfind(s@.take(n as int), "::"@),
        decreases n,
    {
        let ghost t = s@.take(n as int);
        if occurs_at_exec(s, &sep, n - 2) {
            proof {
                assert(t.subrange(n - 2, n as int) =~= s@.subrange(n - 2, n as int));
                assert(occurs_at(t, "::"@, t.len() - 2));
            }
            let r = slice_to_vec(s, n, s.len());
            assert(r@ =~= s@.skip(n - 2 + 2));
            return r;
        }
        proof {
            assert(t.subrange(n - 2, n as int) =~= s@.subrange(n - 2, n as int));
            assert(t.drop_last() =~= s@.take(n - 1));
        }
        n = n - 1;
    }
    proof {
        assert(s@.take(n as int).len() < 2);
    }
    slice_to_vec(s, 0, s.len())
}

/// The base name of a type spelling, as `base_type_spec` states it.
pub fn base_type_name(name: &str) -> (r: Vec<char>)
    ensures
        r@ == base_type_spec(name@),
{
    let nc = chars_of(name);
    let head = before_first_exec(&nc, '<');
    let t = trim_chars(&head);
    let tail = after_last_path_sep_exec(&t);
    trim_chars(&tail)
}

/// `s` without its leading `.` characters.
pub open spec fn trim_leading_dots(s: Seq<char>) -> Seq<char>
    decreases s.len(),
{
    if s.len() > 0 && s[0] == '.' {
        trim_leading_dots(s.drop_first())
    } else {
        s
    }
}

/// `s` without its leading `.` characters.
fn trim_leading_dots_exec(s: &[char]) -> (r: Vec<char>)
    ensures
        r@ == trim_leading_dots(s@),
{
    let mut i: usize = 0;
    assert(s@.skip(0) =~= s@);
    while i < s.len() && s[i] == '.'
        invariant
            i <= s.len(),
            trim_leading_dots(s@) == trim_leading_dots(s@.skip(i as int)),
        decreases s.len() - i,
    {
        assert(s@.skip(i as int).drop_first() =~= s@.skip(i + 1));
        i = i + 1;
    }
    let r = slice_to_vec(s, i, s.len());
    assert(r@ =~= s@.skip(i as int));
    r
}

/// Whether `text`, after its leading dots, is the whole dotted name or a trailing run of its
/// components starting right after a dot.
pub open spec fn trailing_run_spec(text: Seq<char>, dotted_name: Seq<char>) -> bool {
    let run = trim_leading_dots(text);
    run.len() > 0 && (run == dotted_name || strip_suffix_of(dotted_name, seq!['.'] + run) is Some)
}

/// Whether `text` names a trailing component run of `dotted_name`.
pub fn trailing_component_run_matches(text: &str, dotted_name: &str) -> (r: bool)
    ensures
        r == trailing_run_spec(text@, dotted_name@),
{
    let tc = chars_of(text);
    let run = trim_leading_dots_exec(&tc);
    if run.len() == 0 {
        return false;
    }
    let dc = chars_of(dotted_name);
    if chars_eq(&run, &dc) {
        return true;
    }
    let mut dotted_run: Vec<char> = Vec::new();
    dotted_run.push('.');
    let mut k: usize = 0;
    while k < run.len()
        invariant
            k <= run.len(),
            dotted_run@ == seq!['.'] + run@.take(k as int),
        decreases run.len() - k,
    {
        dotted_run.push(run[k]);
        assert(run@.take(k + 1) =~= run@.take(k as int).push(run@[k as int]));
        k = k + 1;
    }
    assert(run@.take(run.len() as int) =~= run@);
    crate::text::strip_suffix_chars(&dc, &dotted_run).is_some()
}

/// Whether every character of `part` is alphanumeric or `_`.
pub open spec fn identifier_chars(part: Seq<char>) -> bool {
    forall|k: int| 0 <= k < part.len() ==> (char_is_alphanumeric(#[trigger] part[k]) || part[k] == '_')
}

/// Whether every component is non-empty and made of identifier characters.
pub open spec fn identifier_components(parts: Seq<Seq<char>>) -> bool {
    forall|k: int| 0 <= k < parts.len() ==> (#[trigger] parts[k]).len() > 0 && identifier_chars(parts[k])
}

/// Whether a span's text has the shape of a possibly relative Python module path: leading dots,
/// then a non-empty dotted path whose every component is non-empty and made of identifier
/// characters.
pub open spec fn relative_module_path_spec(text: Seq<char>) -> bool {
    let rest = trim_leading_dots(text);
    rest.len() > 0 && identifier_components(crate::text::split_pieces(rest, seq!['.']))
}

/// Whether `text` is a possibly relative dotted module path.
pub fn is_relative_module_path(text: &str) -> (r: bool)
    ensures
        r == relative_module_path_spec(text@),
{
    let tc = chars_of(text);
    let rest = trim_leading_dots_exec(&tc);
    if rest.len() == 0 {
        return false;
    }
    let mut dot: Vec<char> = Vec::new();
    dot.push('.');
    assert(dot@ =~= seq!['.']);
    let parts = crate::text::split_on(&rest, &dot);
    let ghost pv = crate::text::vecs_view(parts@);
    let mut k: usize = 0;
    while k < parts.len()
        invariant
            k <= parts.len(),
            pv == crate::text::vecs_view(parts@),
            pv == crate::text::split_pieces(rest@, seq!['.']),
            forall|j: int| 0 <= j < k ==> (#[trigger] pv[j]).len() > 0 && identifier_chars(pv[j]),
            rest@ == trim_leading_dots(text@),
            rest@.len() > 0,
        decreases parts.len() - k,
    {
        let part = &parts[k];
        assert(pv[k as int] == part@);
        if part.len() == 0 {
            assert(!identifier_components(pv));
            return false;
        }
        let mut i: usize = 0;
        while i < part.len()
            invariant
                i <= part.len(),
                pv[k as int] == part@,
                k < parts.len(),
                pv.len() == parts.len(),
                pv == crate::text::split_pieces(rest@, seq!['.']),
                rest@ == trim_leading_dots(text@),
                forall|j: int| 0 <= j < i ==> (char_is_alphanumeric(#[trigger] part@[j]) || part@[j] == '_'),
            decreases part.len() - i,
        {
            let ch = part[i];
            if !(is_alphanumeric(ch) || ch == '_') {
                assert(!(char_is_alphanumeric(part@[i as int]) || part@[i as int] == '_'));
                assert(!identifier_chars(pv[k as int]));
                assert(!identifier_components(pv));
                return false;
            }
            i = i + 1;
        }
        k = k + 1;
    }
    true
}

/// The dotted namespace name of a module descriptor: the segment just before an `__init__` meta
/// terminal.
pub open spec fn module_dotted_spec(d: Descriptor) -> Option<Seq<char>> {
    let segs = d@.1;
    if segs.len() >= 2 && segs.last().0 == "__init__"@ && segs.last().1 == SegmentKind::Meta {
        Some(segs[segs.len() - 2].0)
    } else {
        None
    }
}

/// The dotted namespace name a module descriptor carries, if it has the module shape.
pub fn module_dotted_name(d: &Descriptor) -> (r: Option<&str>)
    ensures
        match r {
            Some(n) => module_dotted_spec(*d) == Some(n@),
            None => module_dotted_spec(*d) is None,
        },
{
    let n = d.segments.len();
    if n < 2 {
        return None;
    }
    let terminal = &d.segments[n - 1];
    assert(d@.1.last() == terminal@);
    if !str_eq(terminal.name.as_str(), "__init__") {
        return None;
    }
    match terminal.kind {
        SegmentKind::Meta => {},
        _ => return None,
    }
    assert(d@.1[n - 2] == d.segments@[n - 2]@);
    Some(d.segments[n - 2].name.as_str())
}

/// The (package, dotted name) a module descriptor spells: under the `__init__`-terminal shape, or
/// as a single module segment.
pub open spec fn module_identity_spec(d: Descriptor) -> Option<(Seq<char>, Seq<char>)> {
    match module_dotted_spec(d) {
        Some(n) => Some((d@.0, n)),
        None => if d@.1.len() == 1 && d@.1[0].1 == SegmentKind::Module {
            Some((d@.0, d@.1[0].0))
        } else {
            None
        },
    }
}

/// The module identity a descriptor spells, if any.
pub fn module_identity_parts(d: &Descriptor) -> (r: Option<(&str, &str)>)
    ensures
        match r {
            Some((p, n)) => module_identity_spec(*d) == Some((p@, n@)),
            None => module_identity_spec(*d) is None,
        },
{
    if let Some(n) = module_dotted_name(d) {
        return Some((d.package.as_str(), n));
    }
    if d.segments.len() == 1 {
        assert(d@.1[0] == d.segments@[0]@);
        match d.segments[0].kind {
            SegmentKind::Module => return Some((d.package.as_str(), d.segments[0].name.as_str())),
            _ => {},
        }
    }
    None
}

/// `s` with every `-` read as `_`.
pub open spec fn underscored(s: Seq<char>) -> Seq<char> {
    s.map_values(|c: char| if c == '-' { '_' } else { c })
}

/// `s` with every `-` replaced by `_`.
fn underscored_exec(s: &str) -> (r: Vec<char>)
    ensures
        r@ == underscored(s@),
{
    let sc = chars_of(s);
    let mut r: Vec<char> = Vec::new();
    let mut k: usize = 0;
    while k < sc.len()
        invariant
            k <= sc.len(),
            r@ == underscored(sc@.take(k as int)),
        decreases sc.len() - k,
    {
        let c = if sc[k] == '-' {
            '_'
        } else {
            sc[k]
        };
        r.push(c);
        assert(underscored(sc@.take(k + 1)) =~= underscored(sc@.take(k as int)).push(c));
        k = k + 1;
    }
    assert(sc@.take(sc.len() as int) =~= sc@);
    r
}

/// Whether a source token names a package: package names may spell `-` where source identifiers
/// spell `_`, so both are compared with `-` read as `_`.
pub fn package_matches(found: &str, package: &str) -> (r: bool)
    ensures
        r == (underscored(found@) == underscored(package@)),
{
    let a = underscored_exec(found);
    let b = underscored_exec(package);
    chars_eq(&a, &b)
}

/// Whether `expected` is the ancestor, `depth` `super` hops up, of the containing module: the
/// document module's segments extended by the inline `mod` names enclosing the occurrence. The
/// part within the document module compares as whole segments; the part within the inline
/// extension compares by name against module-kind segments. An empty remainder never matches.
pub open spec fn ancestor_matches_spec(
    expected: Descriptor,
    doc: Descriptor,
    inline_modules: Seq<Seq<char>>,
    depth: int,
) -> bool {
    let total = doc@.1.len() + inline_modules.len();
    let ancestor_len = total - depth;
    let identity_len = if ancestor_len < doc@.1.len() { ancestor_len } else { doc@.1.len() as int };
    &&& 0 <= depth < total
    &&& expected@.1.len() == ancestor_len
    &&& expected@.1.take(identity_len) == doc@.1.take(identity_len)
    &&& forall|k: int|
        identity_len <= k < ancestor_len ==> (#[trigger] expected@.1[k]).1 == SegmentKind::Module
            && expected@.1[k].0 == inline_modules[k - identity_len]
}

/// Whether `expected` is the containing module's ancestor at `depth` `super` hops.
pub fn containing_module_ancestor_matches(
    expected: &Descriptor,
    doc: &Descriptor,
    inline_modules: &Vec<String>,
    depth: usize,
) -> (r: bool)
    requires
        doc.segments.len() + inline_modules.len() <= usize::MAX,
    ensures
        r == ancestor_matches_spec(*expected, *doc, inline_modules@.map_values(|s: String| s@), depth as int),
{
    let ghost iv = inline_modules@.map_values(|s: String| s@);
    let total = doc.segments.len() + inline_modules.len();
    if depth >= total {
        return false;
    }
    let ancestor_len = total - depth;
    if expected.segments.len() != ancestor_len {
        return false;
    }
    let identity_len = if ancestor_len < doc.segments.len() {
        ancestor_len
    } else {
        doc.segments.len()
    };
    let mut k: usize = 0;
    while k < identity_len
        invariant
            k <= identity_len,
            total == doc.segments.len() + inline_modules.len(),
            depth < total,
            ancestor_len == total - depth,
            expected.segments.len() == ancestor_len,
            identity_len == (if ancestor_len < doc.segments.len() { ancestor_len } else { doc.segments.len() }),
            identity_len <= expected.segments.len(),
            identity_len <= doc.segments.len(),
            expected@.1.take(k as int) == doc@.1.take(k as int),
        decreases identity_len - k,
    {
        let a = &expected.segments[k];
        let b = &doc.segments[k];
        assert(expected@.1[k as int] == a@ && doc@.1[k as int] == b@);
        let same_kind = kind_position(a.kind) == kind_position(b.kind);
        proof {
            if same_kind {
                assert(kind_rank(a.kind) == kind_rank(b.kind));
                assert(a.kind == b.kind);
            }
        }
        if !(str_eq(a.name.as_str(), b.name.as_str()) && same_kind) {
            assert(expected@.1.take(identity_len as int)[k as int] != doc@.1.take(identity_len as int)[k as int]);
            return false;
        }
        assert(expected@.1.take(k + 1) =~= doc@.1.take(k + 1)) by {
            assert(expected@.1.take(k + 1) =~= expected@.1.take(k as int).push(a@));
            assert(doc@.1.take(k + 1) =~= doc@.1.take(k as int).push(b@));
        }
        k = k + 1;
    }
    let mut j = identity_len;
    while j < ancestor_len
        invariant
            identity_len <= j <= ancestor_len,
            total == doc.segments.len() + inline_modules.len(),
            depth < total,
            ancestor_len == total - depth,
            identity_len == (if ancestor_len < doc.segments.len() { ancestor_len } else { doc.segments.len() }),
            expected@.1.take(identity_len as int) == doc@.1.take(identity_len as int),
            ancestor_len == expected.segments.len(),
            ancestor_len - identity_len <= inline_modules.len(),
            iv == inline_modules@.map_values(|s: String| s@),
            forall|m: int|
                identity_len <= m < j ==> (#[trigger] expected@.1[m]).1 == SegmentKind::Module
                    && expected@.1[m].0 == iv[m - identity_len],
        decreases ancestor_len - j,
    {
        let seg = &expected.segments[j];
        assert(expected@.1[j as int] == seg@);
        let name = &inline_modules[j - identity_len];
        assert(iv[j - identity_len] == name@);
        let module_kind = match seg.kind {
            SegmentKind::Module => true,
            _ => false,
        };
        if !(module_kind && str_eq(seg.name.as_str(), name.as_str())) {
            return false;
        }
        j = j + 1;
    }
    true
}

/// What the syntax tree shows at one occurrence span, as plain values: each field answers one
/// question the alignment rules ask of the tree at that span.
#[derive(Debug, Clone, PartialEq, Eq)]
pub struct SiteFacts {
    /// The span of the identifier-like name node containing the span, if any.
    pub name_span: Option<ByteSpan>,
    /// The source text at `name_span`.
    pub name_text: Option<String>,
    /// The source text at the span itself.
    pub span_text: Option<String>,
    /// The construct located at the span.
    pub construct: Option<ConstructAt>,
    /// Whether any syntactic construct sits at the span.
    pub has_construct: bool,
    /// The length of the document's source, in bytes.
    pub source_len: usize,
    /// The self type of the nearest `impl` enclosing the span's start.
    pub impl_self_type: Option<String>,
    /// The trait name of the nearest `impl` enclosing the span's start.
    pub impl_trait_name: Option<String>,
    /// The shape of the range operator at the span.
    pub range_shape: Option<RangeShape>,
    /// For a use-list `self` token, the text of the enclosing use path's terminal segment.
    pub use_list_terminal: Option<String>,
    /// Whether the span is a `self` token starting a path.
    pub path_start_self: bool,
    /// For a `super` token, its depth in its `super` chain.
    pub super_depth: Option<usize>,
    /// The inline `mod` names enclosing the span's start, outermost first.
    pub inline_modules: Vec<String>,
    /// The enclosing dotted constructs, innermost first, each with its source text.
    pub dotted_constructs: Vec<(ByteSpan, Option<String>)>,
}

/// An optional string's characters.
pub open spec fn ostr(o: Option<String>) -> Option<Seq<char>> {
    match o {
        Some(s) => Some(s@),
        None => None,
    }
}

/// A borrowed optional descriptor as a value.
pub open spec fn odesc(o: Option<&Descriptor>) -> Option<Descriptor> {
    match o {
        Some(d) => Some(*d),
        None => None,
    }
}

/// The first verdict that is present.
pub open spec fn first_of(a: Option<(AlignmentRule, ByteSpan)>, b: Option<(AlignmentRule, ByteSpan)>) -> Option<
    (AlignmentRule, ByteSpan),
> {
    if a is Some {
        a
    } else {
        b
    }
}

/// Default rule: the name node's text equals the expected name.
pub open spec fn exact_rule(f: SiteFacts, expected: Seq<char>) -> Option<(AlignmentRule, ByteSpan)> {
    match (f.name_span, ostr(f.name_text)) {
        (Some(ns), Some(t)) => if t == expected {
            Some((AlignmentRule::Exact, ns))
        } else {
            None
        },
        _ => None,
    }
}

/// Crate-root rule: a `crate` descriptor at a token naming its package, or at the `crate` keyword.
pub open spec fn crate_root_rule(d: Option<Descriptor>, expected: Seq<char>, f: SiteFacts) -> Option<
    (AlignmentRule, ByteSpan),
> {
    if expected == "crate"@ && d is Some {
        let pkg = d.unwrap().package@;
        if f.name_span is Some && ostr(f.name_text) is Some && underscored(ostr(f.name_text).unwrap())
            == underscored(pkg) {
            Some((AlignmentRule::CrateRoot, f.name_span.unwrap()))
        } else if f.construct is Some && f.construct.unwrap().kind@ == "crate"@ {
            Some((AlignmentRule::CrateRoot, f.construct.unwrap().span))
        } else {
            None
        }
    } else {
        None
    }
}

/// Operator-desugar rule: a reference to an operator method at the construct it desugars from.
pub open spec fn desugar_rule(role: OccurrenceRole, expected: Seq<char>, f: SiteFacts) -> Option<
    (AlignmentRule, ByteSpan),
> {
    if role == OccurrenceRole::Reference && desugar_spec(expected) is Some && f.construct is Some
        && construct_satisfies(desugar_spec(expected).unwrap(), f.construct.unwrap()) {
        Some((AlignmentRule::OperatorDesugar, f.construct.unwrap().span))
    } else {
        None
    }
}

/// Module-span rule: a module definition spanning its whole document.
pub open spec fn module_span_rule(kind: SymbolKind, role: OccurrenceRole, span: ByteSpan, f: SiteFacts) -> Option<
    (AlignmentRule, ByteSpan),
> {
    if role == OccurrenceRole::Definition && kind == SymbolKind::Module && span.start == 0 && span.end
        == f.source_len {
        Some((AlignmentRule::ModuleSpan, span))
    } else {
        None
    }
}

/// Whether a symbol may be the target of a `Self` token: a type, or an implementation symbol.
pub open spec fn self_target_spec(kind: SymbolKind, d: Option<Descriptor>) -> bool {
    kind == SymbolKind::Type || (kind == SymbolKind::Other && d is Some && exists|k: int|
        0 <= k < d.unwrap()@.1.len() && #[trigger] d.unwrap()@.1[k].0 == "impl"@)
}

/// Self-keyword rule: a reference to a type at a `Self` token inside an impl of that type or trait.
pub open spec fn self_keyword_rule(
    kind: SymbolKind,
    d: Option<Descriptor>,
    role: OccurrenceRole,
    expected: Seq<char>,
    f: SiteFacts,
) -> Option<(AlignmentRule, ByteSpan)> {
    let base = base_type_spec(expected);
    if role == OccurrenceRole::Reference && self_target_spec(kind, d) && f.name_span is Some && ostr(
        f.name_text,
    ) == Some("Self"@) && ((ostr(f.impl_self_type) is Some && base_type_spec(
        ostr(f.impl_self_type).unwrap(),
    ) == base) || (ostr(f.impl_trait_name) is Some && base_type_spec(ostr(f.impl_trait_name).unwrap())
        == base)) {
        Some((AlignmentRule::SelfKeyword, f.name_span.unwrap()))
    } else {
        None
    }
}

/// Range-literal rule: a reference to a range type at a range operator of the matching shape.
pub open spec fn range_literal_rule(role: OccurrenceRole, span: ByteSpan, expected: Seq<char>, f: SiteFacts) -> Option<
    (AlignmentRule, ByteSpan),
> {
    if role == OccurrenceRole::Reference && f.range_shape is Some && range_type_spec(
        f.range_shape.unwrap(),
    ) == Some(base_type_spec(expected)) {
        Some((AlignmentRule::RangeLiteral, span))
    } else {
        None
    }
}

/// Use-list-self rule: a module reference at a use-list `self` whose path ends with its name.
pub open spec fn use_list_self_rule(
    kind: SymbolKind,
    role: OccurrenceRole,
    span: ByteSpan,
    expected: Seq<char>,
    f: SiteFacts,
) -> Option<(AlignmentRule, ByteSpan)> {
    if role == OccurrenceRole::Reference && kind == SymbolKind::Module && ostr(f.use_list_terminal)
        == Some(expected) {
        Some((AlignmentRule::UseListSelf, span))
    } else {
        None
    }
}

/// Whether a module reference's descriptor is the containing module's ancestor at `depth`.
pub open spec fn containing_ancestor(d: Option<Descriptor>, doc: Option<Descriptor>, f: SiteFacts, depth: int) -> bool {
    &&& d is Some
    &&& doc is Some
    &&& d.unwrap()@.0 == doc.unwrap()@.0
    &&& ancestor_matches_spec(d.unwrap(), doc.unwrap(), f.inline_modules@.map_values(|s: String| s@), depth)
}

/// Path-start-self rule: a module reference at a path-start `self` that is the containing module.
pub open spec fn path_start_self_rule(
    kind: SymbolKind,
    d: Option<Descriptor>,
    role: OccurrenceRole,
    span: ByteSpan,
    f: SiteFacts,
    doc: Option<Descriptor>,
) -> Option<(AlignmentRule, ByteSpan)> {
    if role == OccurrenceRole::Reference && kind == SymbolKind::Module && f.path_start_self
        && containing_ancestor(d, doc, f, 0) {
        Some((AlignmentRule::SelfName, span))
    } else {
        None
    }
}

/// Super-keyword rule: a module reference at a `super` that is the containing module's ancestor
/// at the token's chain depth.
pub open spec fn super_rule(
    kind: SymbolKind,
    d: Option<Descriptor>,
    role: OccurrenceRole,
    span: ByteSpan,
    f: SiteFacts,
    doc: Option<Descriptor>,
) -> Option<(AlignmentRule, ByteSpan)> {
    if role == OccurrenceRole::Reference && kind == SymbolKind::Module && f.super_depth is Some
        && containing_ancestor(d, doc, f, f.super_depth.unwrap() as int) {
        Some((AlignmentRule::SuperKeyword, span))
    } else {
        None
    }
}

/// The Rust kind-scoped rules, in order.
pub open spec fn rust_rules(
    kind: SymbolKind,
    d: Option<Descriptor>,
    role: OccurrenceRole,
    span: ByteSpan,
    expected: Seq<char>,
    f: SiteFacts,
    doc: Option<Descriptor>,
) -> Option<(AlignmentRule, ByteSpan)> {
    first_of(
        crate_root_rule(d, expected, f),
        first_of(
            desugar_rule(role, expected, f),
            first_of(
                module_span_rule(kind, role, span, f),
                first_of(
                    self_keyword_rule(kind, d, role, expected, f),
                    first_of(
                        range_literal_rule(role, span, expected, f),
                        first_of(
                            use_list_self_rule(kind, role, span, expected, f),
                            first_of(
                                path_start_self_rule(kind, d, role, span, f, doc),
                                super_rule(kind, d, role, span, f, doc),
                            ),
                        ),
                    ),
                ),
            ),
        ),
    )
}

/// The first enclosing dotted construct whose text is a module path naming a trailing run of
/// `dotted`.
pub open spec fn first_dotted_match(cs: Seq<(ByteSpan, Option<Seq<char>>)>, dotted: Seq<char>) -> Option<ByteSpan>
    decreases cs.len(),
{
    if cs.len() == 0 {
        None
    } else if cs[0].1 is Some && relative_module_path_spec(cs[0].1.unwrap()) && trailing_run_spec(
        cs[0].1.unwrap(),
        dotted,
    ) {
        Some(cs[0].0)
    } else {
        first_dotted_match(cs.drop_first(), dotted)
    }
}

/// The dotted constructs as plain values.
pub open spec fn dotted_view(cs: Seq<(ByteSpan, Option<String>)>) -> Seq<(ByteSpan, Option<Seq<char>>)> {
    cs.map_values(|c: (ByteSpan, Option<String>)| (c.0, ostr(c.1)))
}

/// Module-name rule (Python): the token, or failing that an enclosing dotted construct, spells a
/// trailing component run of the module's dotted name.
pub open spec fn module_name_rule(kind: SymbolKind, d: Option<Descriptor>, span: ByteSpan, f: SiteFacts) -> Option<
    (AlignmentRule, ByteSpan),
> {
    if kind == SymbolKind::Module && d is Some && module_dotted_spec(d.unwrap()) is Some {
        let dn = module_dotted_spec(d.unwrap()).unwrap();
        let candidate: Option<(Seq<char>, ByteSpan)> = match f.name_span {
            Some(ns) => match ostr(f.name_text) {
                Some(t) => Some((t, ns)),
                None => None,
            },
            None => match ostr(f.span_text) {
                Some(t) => if relative_module_path_spec(t) {
                    Some((t, span))
                } else {
                    None
                },
                None => None,
            },
        };
        if candidate is Some && trailing_run_spec(candidate.unwrap().0, dn) {
            Some((AlignmentRule::ModuleName, candidate.unwrap().1))
        } else {
            match first_dotted_match(dotted_view(f.dotted_constructs@), dn) {
                Some(cs) => Some((AlignmentRule::ModuleName, cs)),
                None => None,
            }
        }
    } else {
        None
    }
}

/// Self-name rule (Python): a module reference at `__name__` or `__file__` that is the document's
/// own module.
pub open spec fn python_self_name_rule(kind: SymbolKind, d: Option<Descriptor>, f: SiteFacts, doc: Option<Descriptor>) -> Option<
    (AlignmentRule, ByteSpan),
> {
    if kind == SymbolKind::Module && f.name_span is Some && (ostr(f.name_text) == Some("__name__"@)
        || ostr(f.name_text) == Some("__file__"@)) && d is Some && module_identity_spec(d.unwrap()) is Some
        && doc is Some && module_identity_spec(doc.unwrap()) == module_identity_spec(d.unwrap()) {
        Some((AlignmentRule::SelfName, f.name_span.unwrap()))
    } else {
        None
    }
}

/// Module-marker rule (Python): a module definition at the empty span at its document's origin.
pub open spec fn module_marker_rule(kind: SymbolKind, role: OccurrenceRole, span: ByteSpan) -> Option<
    (AlignmentRule, ByteSpan),
> {
    if role == OccurrenceRole::Definition && kind == SymbolKind::Module && span.start == 0 && span.end == 0 {
        Some((AlignmentRule::ModuleMarker, span))
    } else {
        None
    }
}

/// The Python kind-scoped rules, in order.
pub open spec fn python_rules(
    kind: SymbolKind,
    d: Option<Descriptor>,
    role: OccurrenceRole,
    span: ByteSpan,
    f: SiteFacts,
    doc: Option<Descriptor>,
) -> Option<(AlignmentRule, ByteSpan)> {
    first_of(
        module_name_rule(kind, d, span, f),
        first_of(python_self_name_rule(kind, d, f, doc), module_marker_rule(kind, role, span)),
    )
}

/// The alignment verdict at one span: the default rule, then the kind-scoped rules of the
/// document's language, in order; the first that accepts gives the rule and the matched span.
pub open spec fn rules_verdict(
    kind: SymbolKind,
    d: Option<Descriptor>,
    role: OccurrenceRole,
    span: ByteSpan,
    expected: Seq<char>,
    f: SiteFacts,
    language: Language,
    doc: Option<Descriptor>,
) -> Option<(AlignmentRule, ByteSpan)> {
    first_of(
        exact_rule(f, expected),
        match language {
            Language::Rust => rust_rules(kind, d, role, span, expected, f, doc),
            Language::Python => python_rules(kind, d, role, span, f, doc),
        },
    )
}

/// Whether an optional string holds exactly `t`.
fn opt_is(o: &Option<String>, t: &str) -> (r: bool)
    ensures
        r == (ostr(*o) == Some(t@)),
{
    match o {
        Some(s) => str_eq(s.as_str(), t),
        None => false,
    }
}

/// Default rule.
fn exact_at(f: &SiteFacts, expected: &str) -> (r: Option<(AlignmentRule, ByteSpan)>)
    ensures
        r == exact_rule(*f, expected@),
{
    match f.name_span {
        Some(ns) => if opt_is(&f.name_text, expected) {
            Some((AlignmentRule::Exact, ns))
        } else {
            None
        },
        None => None,
    }
}

/// Crate-root rule.
fn crate_root_at(d: Option<&Descriptor>, expected: &str, f: &SiteFacts) -> (r: Option<(AlignmentRule, ByteSpan)>)
    ensures
        r == crate_root_rule(odesc(d), expected@, *f),
{
    if !str_eq(expected, "crate") {
        return None;
    }
    let desc = match d {
        Some(x) => x,
        None => return None,
    };
    if let (Some(ns), Some(found)) = (f.name_span, &f.name_text) {
        if package_matches(found.as_str(), desc.package.as_str()) {
            return Some((AlignmentRule::CrateRoot, ns));
        }
    }
    match &f.construct {
        Some(c) => if str_eq(c.kind.as_str(), "crate") {
            Some((AlignmentRule::CrateRoot, c.span))
        } else {
            None
        },
        None => None,
    }
}

/// Whether a role is the reference role.
fn is_reference(role: OccurrenceRole) -> (r: bool)
    ensures
        r == (role == OccurrenceRole::Reference),
{
    !is_definition(role)
}

/// Operator-desugar rule.
fn desugar_at(role: OccurrenceRole, expected: &str, f: &SiteFacts) -> (r: Option<(AlignmentRule, ByteSpan)>)
    ensures
        r == desugar_rule(role, expected@, *f),
{
    if !is_reference(role) {
        return None;
    }
    let e = match desugar_construct(expected) {
        Some(e) => e,
        None => return None,
    };
    match &f.construct {
        Some(c) => if e.matches(c) {
            Some((AlignmentRule::OperatorDesugar, c.span))
        } else {
            None
        },
        None => None,
    }
}

/// Module-span rule.
fn module_span_at(kind: SymbolKind, role: OccurrenceRole, span: ByteSpan, f: &SiteFacts) -> (r: Option<
    (AlignmentRule, ByteSpan),
>)
    ensures
        r == module_span_rule(kind, role, span, *f),
{
    if is_definition(role) && is_module_kind(kind) && span.start == 0 && span.end == f.source_len {
        Some((AlignmentRule::ModuleSpan, span))
    } else {
        None
    }
}

/// Whether a symbol may be the target of a `Self` token.
fn is_self_target(kind: SymbolKind, d: Option<&Descriptor>) -> (r: bool)
    ensures
        r == self_target_spec(kind, odesc(d)),
{
    match kind {
        SymbolKind::Type => true,
        SymbolKind::Other => match d {
            Some(desc) => {
                let mut k: usize = 0;
                while k < desc.segments.len()
                    invariant
                        k <= desc.segments.len(),
                        kind == SymbolKind::Other,
                        odesc(d) == Some(*desc),
                        forall|j: int| 0 <= j < k ==> desc@.1[j].0 != "impl"@,
                    decreases desc.segments.len() - k,
                {
                    assert(desc@.1[k as int] == desc.segments@[k as int]@);
                    if str_eq(desc.segments[k].name.as_str(), "impl") {
                        assert(odesc(d).unwrap()@.1[k as int].0 == "impl"@);
                        return true;
                    }
                    k = k + 1;
                }
                false
            },
            None => false,
        },
        _ => false,
    }
}

/// Whether an optional type spelling has the base name `base`.
fn base_is(o: &Option<String>, base: &Vec<char>) -> (r: bool)
    ensures
        r == (ostr(*o) is Some && base_type_spec(ostr(*o).unwrap()) == base@),
{
    match o {
        Some(t) => {
            let b = base_type_name(t.as_str());
            chars_eq(&b, base)
        },
        None => false,
    }
}

/// Self-keyword rule.
fn self_keyword_at(
    kind: SymbolKind,
    d: Option<&Descriptor>,
    role: OccurrenceRole,
    expected: &str,
    f: &SiteFacts,
) -> (r: Option<(AlignmentRule, ByteSpan)>)
    ensures
        r == self_keyword_rule(kind, odesc(d), role, expected@, *f),
{
    if !is_reference(role) || !is_self_target(kind, d) {
        return None;
    }
    let ns = match f.name_span {
        Some(ns) => ns,
        None => return None,
    };
    if !opt_is(&f.name_text, "Self") {
        return None;
    }
    let base = base_type_name(expected);
    if base_is(&f.impl_self_type, &base) || base_is(&f.impl_trait_name, &base) {
        Some((AlignmentRule::SelfKeyword, ns))
    } else {
        None
    }
}

/// Range-literal rule.
fn range_literal_at(role: OccurrenceRole, span: ByteSpan, expected: &str, f: &SiteFacts) -> (r: Option<
    (AlignmentRule, ByteSpan),
>)
    ensures
        r == range_literal_rule(role, span, expected@, *f),
{
    if !is_reference(role) {
        return None;
    }
    let shape = match f.range_shape {
        Some(s) => s,
        None => return None,
    };
    match range_type_name(shape) {
        Some(n) => {
            let base = base_type_name(expected);
            let nc = chars_of(n);
            if chars_eq(&base, &nc) {
                Some((AlignmentRule::RangeLiteral, span))
            } else {
                None
            }
        },
        None => None,
    }
}

/// Use-list-self rule.
fn use_list_self_at(kind: SymbolKind, role: OccurrenceRole, span: ByteSpan, expected: &str, f: &SiteFacts) -> (r: Option<
    (AlignmentRule, ByteSpan),
>)
    ensures
        r == use_list_self_rule(kind, role, span, expected@, *f),
{
    if is_reference(role) && is_module_kind(kind) && opt_is(&f.use_list_terminal, expected) {
        Some((AlignmentRule::UseListSelf, span))
    } else {
        None
    }
}

/// Whether the module reference's descriptor is the containing module's ancestor at `depth`.
fn containing_ancestor_at(d: Option<&Descriptor>, doc: Option<&Descriptor>, f: &SiteFacts, depth: usize) -> (r: bool)
    requires
        doc matches Some(dd) ==> dd.segments.len() + f.inline_modules.len() <= usize::MAX,
    ensures
        r == containing_ancestor(odesc(d), odesc(doc), *f, depth as int),
{
    match (d, doc) {
        (Some(e), Some(dd)) => str_eq(e.package.as_str(), dd.package.as_str())
            && containing_module_ancestor_matches(e, dd, &f.inline_modules, depth),
        _ => false,
    }
}

/// Path-start-self rule.
fn path_start_self_at(
    kind: SymbolKind,
    d: Option<&Descriptor>,
    role: OccurrenceRole,
    span: ByteSpan,
    f: &SiteFacts,
    doc: Option<&Descriptor>,
) -> (r: Option<(AlignmentRule, ByteSpan)>)
    requires
        doc matches Some(dd) ==> dd.segments.len() + f.inline_modules.len() <= usize::MAX,
    ensures
        r == path_start_self_rule(kind, odesc(d), role, span, *f, odesc(doc)),
{
    if is_reference(role) && is_module_kind(kind) && f.path_start_self && containing_ancestor_at(d, doc, f, 0) {
        Some((AlignmentRule::SelfName, span))
    } else {
        None
    }
}

/// Super-keyword rule.
fn super_at(
    kind: SymbolKind,
    d: Option<&Descriptor>,
    role: OccurrenceRole,
    span: ByteSpan,
    f: &SiteFacts,
    doc: Option<&Descriptor>,
) -> (r: Option<(AlignmentRule, ByteSpan)>)
    requires
        doc matches Some(dd) ==> dd.segments.len() + f.inline_modules.len() <= usize::MAX,
    ensures
        r == super_rule(kind, odesc(d), role, span, *f, odesc(doc)),
{
    if !(is_reference(role) && is_module_kind(kind)) {
        return None;
    }
    match f.super_depth {
        Some(depth) => if containing_ancestor_at(d, doc, f, depth) {
            Some((AlignmentRule::SuperKeyword, span))
        } else {
            None
        },
        None => None,
    }
}

/// The first enclosing dotted construct naming a trailing run of `dotted`.
fn first_dotted_at(cs: &Vec<(ByteSpan, Option<String>)>, dotted: &str) -> (r: Option<ByteSpan>)
    ensures
        r == first_dotted_match(dotted_view(cs@), dotted@),
{
    let ghost dv = dotted_view(cs@);
    let mut k: usize = 0;
    assert(dv.skip(0) =~= dv);
    while k < cs.len()
        invariant
            k <= cs.len(),
            dv == dotted_view(cs@),
            first_dotted_match(dv, dotted@) == first_dotted_match(dv.skip(k as int), dotted@),
        decreases cs.len() - k,
    {
        let (span, text) = &cs[k];
        assert(dv.skip(k as int)[0] == dv[k as int]);
        assert(dv[k as int] == (*span, ostr(*text)));
        assert(dv.skip(k as int).drop_first() =~= dv.skip(k + 1));
        if let Some(t) = text {
            if is_relative_module_path(t.as_str()) && trailing_component_run_matches(t.as_str(), dotted) {
                return Some(*span);
            }
        }
        k = k + 1;
    }
    assert(dv.skip(k as int) =~= Seq::<(ByteSpan, Option<Seq<char>>)>::empty());
    None
}

/// Module-name rule.
fn module_name_at(kind: SymbolKind, d: Option<&Descriptor>, span: ByteSpan, f: &SiteFacts) -> (r: Option<
    (AlignmentRule, ByteSpan),
>)
    ensures
        r == module_name_rule(kind, odesc(d), span, *f),
{
    if !is_module_kind(kind) {
        return None;
    }
    let desc = match d {
        Some(x) => x,
        None => return None,
    };
    let dn = match module_dotted_name(desc) {
        Some(n) => n,
        None => return None,
    };
    let candidate: Option<(&str, ByteSpan)> = match f.name_span {
        Some(ns) => match &f.name_text {
            Some(t) => Some((t.as_str(), ns)),
            None => None,
        },
        None => match &f.span_text {
            Some(t) => if is_relative_module_path(t.as_str()) {
                Some((t.as_str(), span))
            } else {
                None
            },
            None => None,
        },
    };
    if let Some((text, matched)) = candidate {
        if trailing_component_run_matches(text, dn) {
            return Some((AlignmentRule::ModuleName, matched));
        }
    }
    match first_dotted_at(&f.dotted_constructs, dn) {
        Some(cs) => Some((AlignmentRule::ModuleName, cs)),
        None => None,
    }
}

/// Whether two optional module identities are the same present identity.
fn same_identity(a: Option<(&str, &str)>, b: Option<(&str, &str)>) -> (r: bool)
    ensures
        r == (a is Some && b is Some && a.unwrap().0@ == b.unwrap().0@ && a.unwrap().1@ == b.unwrap().1@),
{
    match (a, b) {
        (Some((p, n)), Some((q, m))) => str_eq(p, q) && str_eq(n, m),
        _ => false,
    }
}

/// Self-name rule (Python).
fn python_self_name_at(kind: SymbolKind, d: Option<&Descriptor>, f: &SiteFacts, doc: Option<&Descriptor>) -> (r: Option<
    (AlignmentRule, ByteSpan),
>)
    ensures
        r == python_self_name_rule(kind, odesc(d), *f, odesc(doc)),
{
    if !is_module_kind(kind) {
        return None;
    }
    let ns = match f.name_span {
        Some(ns) => ns,
        None => return None,
    };
    if !(opt_is(&f.name_text, "__name__") || opt_is(&f.name_text, "__file__")) {
        return None;
    }
    let (desc, dd) = match (d, doc) {
        (Some(x), Some(y)) => (x, y),
        _ => return None,
    };
    let own = module_identity_parts(desc);
    let theirs = module_identity_parts(dd);
    if same_identity(own, theirs) {
        Some((AlignmentRule::SelfName, ns))
    } else {
        None
    }
}

/// Module-marker rule (Python).
fn module_marker_at(kind: SymbolKind, role: OccurrenceRole, span: ByteSpan) -> (r: Option<(AlignmentRule, ByteSpan)>)
    ensures
        r == module_marker_rule(kind, role, span),
{
    if is_definition(role) && is_module_kind(kind) && span.start == 0 && span.end == 0 {
        Some((AlignmentRule::ModuleMarker, span))
    } else {
        None
    }
}

/// The alignment rules at one span, in order: the default name-token rule, then the Rust
/// kind-scoped rules (crate root, operator desugar, module span, `Self`, range literal, use-list
/// `self`, path-start `self`, `super`) or the Python ones (module name with dotted completion,
/// `__name__`/`__file__`, module marker). The accepting rule and the matched construct's span, or
/// `None` when no rule's expectation is satisfied.
pub fn evaluate_rules_at(
    kind: SymbolKind,
    descriptor: Option<&Descriptor>,
    role: OccurrenceRole,
    span: ByteSpan,
    expected_name: &str,
    facts: &SiteFacts,
    language: Language,
    document_module: Option<&Descriptor>,
) -> (r: Option<(AlignmentRule, ByteSpan)>)
    requires
        document_module matches Some(dd) ==> dd.segments.len() + facts.inline_modules.len() <= usize::MAX,
    ensures
        r == rules_verdict(kind, odesc(descriptor), role, span, expected_name@, *facts, language, odesc(document_module)),
{
    let hit = exact_at(facts, expected_name);
    if hit.is_some() {
        return hit;
    }
    if is_rust(language) {
        let hit = crate_root_at(descriptor, expected_name, facts);
        if hit.is_some() {
            return hit;
        }
        let hit = desugar_at(role, expected_name, facts);
        if hit.is_some() {
            return hit;
        }
        let hit = module_span_at(kind, role, span, facts);
        if hit.is_some() {
            return hit;
        }
        let hit = self_keyword_at(kind, descriptor, role, expected_name, facts);
        if hit.is_some() {
            return hit;
        }
        let hit = range_literal_at(role, span, expected_name, facts);
        if hit.is_some() {
            return hit;
        }
        let hit = use_list_self_at(kind, role, span, expected_name, facts);
        if hit.is_some() {
            return hit;
        }
        let hit = path_start_self_at(kind, descriptor, role, span, facts, document_module);
        if hit.is_some() {
            return hit;
        }
        super_at(kind, descriptor, role, span, facts, document_module)
    } else {
        let hit = module_name_at(kind, descriptor, span, facts);
        if hit.is_some() {
            return hit;
        }
        let hit = python_self_name_at(kind, descriptor, facts, document_module);
        if hit.is_some() {
            return hit;
        }
        module_marker_at(kind, role, span)
    }
}


/// The methods the operator-desugar rule knows are the `std::ops` and comparison traits' methods,
/// each at the construct its trait overloads: the comparison and arithmetic and bit operators at
/// a binary expression carrying the trait's operator (`sub` at `-`, `add` at `+`, `shl` at `<<`,
/// ...), their `_assign` forms at a compound assignment carrying that operator with `=`, `neg` and
/// `not` at a unary `-` and `!`, `deref`/`deref_mut` at an explicit unary `*`, `index`/`index_mut`
/// at an index expression, the `Fn` traits' methods at a call, `branch` (`Try`) at `?`, and
/// `into_iter`/`next` at a `for` loop.
pub proof fn lemma_desugar_follows_the_operator_traits()
    ensures
        desugar_spec("branch"@) == Some(("try_expression"@, None::<Seq<char>>)),
        desugar_spec("eq"@) == Some(("binary_expression"@, Some("=="@))),
        desugar_spec("ne"@) == Some(("binary_expression"@, Some("!="@))),
        desugar_spec("lt"@) == Some(("binary_expression"@, Some("<"@))),
        desugar_spec("le"@) == Some(("binary_expression"@, Some("<="@))),
        desugar_spec("gt"@) == Some(("binary_expression"@, Some(">"@))),
        desugar_spec("ge"@) == Some(("binary_expression"@, Some(">="@))),
        desugar_spec("add"@) == Some(("binary_expression"@, Some("+"@))),
        desugar_spec("sub"@) == Some(("binary_expression"@, Some("-"@))),
        desugar_spec("mul"@) == Some(("binary_expression"@, Some("*"@))),
        desugar_spec("div"@) == Some(("binary_expression"@, Some("/"@))),
        desugar_spec("rem"@) == Some(("binary_expression"@, Some("%"@))),
        desugar_spec("add_assign"@) == Some(("compound_assignment_expr"@, Some("+="@))),
        desugar_spec("sub_assign"@) == Some(("compound_assignment_expr"@, Some("-="@))),
        desugar_spec("mul_assign"@) == Some(("compound_assignment_expr"@, Some("*="@))),
        desugar_spec("div_assign"@) == Some(("compound_assignment_expr"@, Some("/="@))),
        desugar_spec("rem_assign"@) == Some(("compound_assignment_expr"@, Some("%="@))),
        desugar_spec("bitand"@) == Some(("binary_expression"@, Some("&"@))),
        desugar_spec("bitor"@) == Some(("binary_expression"@, Some("|"@))),
        desugar_spec("bitxor"@) == Some(("binary_expression"@, Some("^"@))),
        desugar_spec("shl"@) == Some(("binary_expression"@, Some("<<"@))),
        desugar_spec("shr"@) == Some(("binary_expression"@, Some(">>"@))),
        desugar_spec("bitand_assign"@) == Some(("compound_assignment_expr"@, Some("&="@))),
        desugar_spec("bitor_assign"@) == Some(("compound_assignment_expr"@, Some("|="@))),
        desugar_spec("bitxor_assign"@) == Some(("compound_assignment_expr"@, Some("^="@))),
        desugar_spec("shl_assign"@) == Some(("compound_assignment_expr"@, Some("<<="@))),
        desugar_spec("shr_assign"@) == Some(("compound_assignment_expr"@, Some(">>="@))),
        desugar_spec("neg"@) == Some(("unary_expression"@, Some("-"@))),
        desugar_spec("not"@) == Some(("unary_expression"@, Some("!"@))),
        desugar_spec("index"@) == Some(("index_expression"@, None::<Seq<char>>)),
        desugar_spec("index_mut"@) == Some(("index_expression"@, None::<Seq<char>>)),
        desugar_spec("deref"@) == Some(("unary_expression"@, Some("*"@))),
        desugar_spec("deref_mut"@) == Some(("unary_expression"@, Some("*"@))),
        desugar_spec("call"@) == Some(("call_expression"@, None::<Seq<char>>)),
        desugar_spec("call_mut"@) == Some(("call_expression"@, None::<Seq<char>>)),
        desugar_spec("call_once"@) == Some(("call_expression"@, None::<Seq<char>>)),
        desugar_spec("into_iter"@) == Some(("for_expression"@, None::<Seq<char>>)),
        desugar_spec("next"@) == Some(("for_expression"@, None::<Seq<char>>)),
{
    reveal_strlit("branch");
    reveal_strlit("eq");
    reveal_strlit("ne");
    reveal_strlit("lt");
    reveal_strlit("le");
    reveal_strlit("gt");
    reveal_strlit("ge");
    reveal_strlit("add");
    reveal_strlit("sub");
    reveal_strlit("mul");
    reveal_strlit("div");
    reveal_strlit("rem");
    reveal_strlit("add_assign");
    reveal_strlit("sub_assign");
    reveal_strlit("mul_assign");
    reveal_strlit("div_assign");
    reveal_strlit("rem_assign");
    reveal_strlit("bitand");
    reveal_strlit("bitor");
    reveal_strlit("bitxor");
    reveal_strlit("shl");
    reveal_strlit("shr");
    reveal_strlit("bitand_assign");
    reveal_strlit("bitor_assign");
    reveal_strlit("bitxor_assign");
    reveal_strlit("shl_assign");
    reveal_strlit("shr_assign");
    reveal_strlit("neg");
    reveal_strlit("not");
    reveal_strlit("index");
    reveal_strlit("index_mut");
    reveal_strlit("deref");
    reveal_strlit("deref_mut");
    reveal_strlit("call");
    reveal_strlit("call_mut");
    reveal_strlit("call_once");
    reveal_strlit("into_iter");
    reveal_strlit("next");
    assert("branch"@.len() == 6);
    assert("eq"@.len() == 2);
    assert("ne"@.len() == 2);
    assert("lt"@.len() == 2);
    assert("le"@.len() == 2);
    assert("gt"@.len() == 2);
    assert("ge"@.len() == 2);
    assert("add"@.len() == 3);
    assert("sub"@.len() == 3);
    assert("mul"@.len() == 3);
    assert("div"@.len() == 3);
    assert("rem"@.len() == 3);
    assert("add_assign"@.len() == 10);
    assert("sub_assign"@.len() == 10);
    assert("mul_assign"@.len() == 10);
    assert("div_assign"@.len() == 10);
    assert("rem_assign"@.len() == 10);
    assert("bitand"@.len() == 6);
    assert("bitor"@.len() == 5);
    assert("bitxor"@.len() == 6);
    assert("shl"@.len() == 3);
    assert("shr"@.len() == 3);
    assert("bitand_assign"@.len() == 13);
    assert("bitor_assign"@.len() == 12);
    assert("bitxor_assign"@.len() == 13);
    assert("shl_assign"@.len() == 10);
    assert("shr_assign"@.len() == 10);
    assert("neg"@.len() == 3);
    assert("not"@.len() == 3);
    assert("index"@.len() == 5);
    assert("index_mut"@.len() == 9);
    assert("deref"@.len() == 5);
    assert("deref_mut"@.len() == 9);
    assert("call"@.len() == 4);
    assert("call_mut"@.len() == 8);
    assert("call_once"@.len() == 9);
    assert("into_iter"@.len() == 9);
    assert("next"@.len() == 4);
    assert("branch"@[1] != "bitand"@[1]);
    assert("branch"@ != "bitand"@);
    assert("branch"@[1] != "bitxor"@[1]);
    assert("branch"@ != "bitxor"@);
    assert("eq"@[0] != "ne"@[0]);
    assert("eq"@ != "ne"@);
    assert("eq"@[0] != "lt"@[0]);
    assert("eq"@ != "lt"@);
    assert("eq"@[0] != "le"@[0]);
    assert("eq"@ != "le"@);
    assert("eq"@[0] != "gt"@[0]);
    assert("eq"@ != "gt"@);
    assert("eq"@[0] != "ge"@[0]);
    assert("eq"@ != "ge"@);
    assert("ne"@[0] != "lt"@[0]);
    assert("ne"@ != "lt"@);
    assert("ne"@[0] != "le"@[0]);
    assert("ne"@ != "le"@);
    assert("ne"@[0] != "gt"@[0]);
    assert("ne"@ != "gt"@);
    assert("ne"@[0] != "ge"@[0]);
    assert("ne"@ != "ge"@);
    assert("lt"@[1] != "le"@[1]);
    assert("lt"@ != "le"@);
    assert("lt"@[0] != "gt"@[0]);
    assert("lt"@ != "gt"@);
    assert("lt"@[0] != "ge"@[0]);
    assert("lt"@ != "ge"@);
    assert("le"@[0] != "gt"@[0]);
    assert("le"@ != "gt"@);
    assert("le"@[0] != "ge"@[0]);
    assert("le"@ != "ge"@);
    assert("gt"@[1] != "ge"@[1]);
    assert("gt"@ != "ge"@);
    assert("add"@[0] != "sub"@[0]);
    assert("add"@ != "sub"@);
    assert("add"@[0] != "mul"@[0]);
    assert("add"@ != "mul"@);
    assert("add"@[0] != "div"@[0]);
    assert("add"@ != "div"@);
    assert("add"@[0] != "rem"@[0]);
    assert("add"@ != "rem"@);
    assert("add"@[0] != "shl"@[0]);
    assert("add"@ != "shl"@);
    assert("add"@[0] != "shr"@[0]);
    assert("add"@ != "shr"@);
    assert("add"@[0] != "neg"@[0]);
    assert("add"@ != "neg"@);
    assert("add"@[0] != "not"@[0]);
    assert("add"@ != "not"@);
    assert("sub"@[0] != "mul"@[0]);
    assert("sub"@ != "mul"@);
    assert("sub"@[0] != "div"@[0]);
    assert("sub"@ != "div"@);
    assert("sub"@[0] != "rem"@[0]);
    assert("sub"@ != "rem"@);
    assert("sub"@[1] != "shl"@[1]);
    assert("sub"@ != "shl"@);
    assert("sub"@[1] != "shr"@[1]);
    assert("sub"@ != "shr"@);
    assert("sub"@[0] != "neg"@[0]);
    assert("sub"@ != "neg"@);
    assert("sub"@[0] != "not"@[0]);
    assert("sub"@ != "not"@);
    assert("mul"@[0] != "div"@[0]);
    assert("mul"@ != "div"@);
    assert("mul"@[0] != "rem"@[0]);
    assert("mul"@ != "rem"@);
    assert("mul"@[0] != "shl"@[0]);
    assert("mul"@ != "shl"@);
    assert("mul"@[0] != "shr"@[0]);
    assert("mul"@ != "shr"@);
    assert("mul"@[0] != "neg"@[0]);
    assert("mul"@ != "neg"@);
    assert("mul"@[0] != "not"@[0]);
    assert("mul"@ != "not"@);
    assert("div"@[0] != "rem"@[0]);
    assert("div"@ != "rem"@);
    assert("div"@[0] != "shl"@[0]);
    assert("div"@ != "shl"@);
    assert("div"@[0] != "shr"@[0]);
    assert("div"@ != "shr"@);
    assert("div"@[0] != "neg"@[0]);
    assert("div"@ != "neg"@);
    assert("div"@[0] != "not"@[0]);
    assert("div"@ != "not"@);
    assert("rem"@[0] != "shl"@[0]);
    assert("rem"@ != "shl"@);
    assert("rem"@[0] != "shr"@[0]);
    assert("rem"@ != "shr"@);
    assert("rem"@[0] != "neg"@[0]);
    assert("rem"@ != "neg"@);
    assert("rem"@[0] != "not"@[0]);
    assert("rem"@ != "not"@);
    assert("add_assign"@[0] != "sub_assign"@[0]);
    assert("add_assign"@ != "sub_assign"@);
    assert("add_assign"@[0] != "mul_assign"@[0]);
    assert("add_assign"@ != "mul_assign"@);
    assert("add_assign"@[0] != "div_assign"@[0]);
    assert("add_assign"@ != "div_assign"@);
    assert("add_assign"@[0] != "rem_assign"@[0]);
    assert("add_assign"@ != "rem_assign"@);
    assert("add_assign"@[0] != "shl_assign"@[0]);
    assert("add_assign"@ != "shl_assign"@);
    assert("add_assign"@[0] != "shr_assign"@[0]);
    assert("add_assign"@ != "shr_assign"@);
    assert("sub_assign"@[0] != "mul_assign"@[0]);
    assert("sub_assign"@ != "mul_assign"@);
    assert("sub_assign"@[0] != "div_assign"@[0]);
    assert("sub_assign"@ != "div_assign"@);
    assert("sub_assign"@[0] != "rem_assign"@[0]);
    assert("sub_assign"@ != "rem_assign"@);
    assert("sub_assign"@[1] != "shl_assign"@[1]);
    assert("sub_assign"@ != "shl_assign"@);
    assert("sub_assign"@[1] != "shr_assign"@[1]);
    assert("sub_assign"@ != "shr_assign"@);
    assert("mul_assign"@[0] != "div_assign"@[0]);
    assert("mul_assign"@ != "div_assign"@);
    assert("mul_assign"@[0] != "rem_assign"@[0]);
    assert("mul_assign"@ != "rem_assign"@);
    assert("mul_assign"@[0] != "shl_assign"@[0]);
    assert("mul_assign"@ != "shl_assign"@);
    assert("mul_assign"@[0] != "shr_assign"@[0]);
    assert("mul_assign"@ != "shr_assign"@);
    assert("div_assign"@[0] != "rem_assign"@[0]);
    assert("div_assign"@ != "rem_assign"@);
    assert("div_assign"@[0] != "shl_assign"@[0]);
    assert("div_assign"@ != "shl_assign"@);
    assert("div_assign"@[0] != "shr_assign"@[0]);
    assert("div_assign"@ != "shr_assign"@);
    assert("rem_assign"@[0] != "shl_assign"@[0]);
    assert("rem_assign"@ != "shl_assign"@);
    assert("rem_assign"@[0] != "shr_assign"@[0]);
    assert("rem_assign"@ != "shr_assign"@);
    assert("bitand"@[3] != "bitxor"@[3]);
    assert("bitand"@ != "bitxor"@);
    assert("bitor"@[0] != "index"@[0]);
    assert("bitor"@ != "index"@);
    assert("bitor"@[0] != "deref"@[0]);
    assert("bitor"@ != "deref"@);
    assert("shl"@[2] != "shr"@[2]);
    assert("shl"@ != "shr"@);
    assert("shl"@[0] != "neg"@[0]);
    assert("shl"@ != "neg"@);
    assert("shl"@[0] != "not"@[0]);
    assert("shl"@ != "not"@);
    assert("shr"@[0] != "neg"@[0]);
    assert("shr"@ != "neg"@);
    assert("shr"@[0] != "not"@[0]);
    assert("shr"@ != "not"@);
    assert("bitand_assign"@[3] != "bitxor_assign"@[3]);
    assert("bitand_assign"@ != "bitxor_assign"@);
    assert("shl_assign"@[2] != "shr_assign"@[2]);
    assert("shl_assign"@ != "shr_assign"@);
    assert("neg"@[1] != "not"@[1]);
    assert("neg"@ != "not"@);
    assert("index"@[0] != "deref"@[0]);
    assert("index"@ != "deref"@);
    assert("index_mut"@[0] != "deref_mut"@[0]);
    assert("index_mut"@ != "deref_mut"@);
    assert("index_mut"@[0] != "call_once"@[0]);
    assert("index_mut"@ != "call_once"@);
    assert("index_mut"@[2] != "into_iter"@[2]);
    assert("index_mut"@ != "into_iter"@);
    assert("deref_mut"@[0] != "call_once"@[0]);
    assert("deref_mut"@ != "call_once"@);
    assert("deref_mut"@[0] != "into_iter"@[0]);
    assert("deref_mut"@ != "into_iter"@);
    assert("call"@[0] != "next"@[0]);
    assert("call"@ != "next"@);
    assert("call_once"@[0] != "into_iter"@[0]);
    assert("call_once"@ != "into_iter"@);
}

/// Each operator token of a binary or compound assignment expression desugars from exactly one
/// method: two methods expecting the same such construct are the same method.
pub proof fn lemma_desugar_operators_are_distinct(m1: Seq<char>, m2: Seq<char>)
    requires
        desugar_spec(m1) is Some,
        desugar_spec(m1) == desugar_spec(m2),
        desugar_spec(m1).unwrap().0 == "binary_expression"@ || desugar_spec(m1).unwrap().0 == "compound_assignment_expr"@,
    ensures
        m1 == m2,
{
    reveal_strlit("!");
    reveal_strlit("!=");
    reveal_strlit("%");
    reveal_strlit("%=");
    reveal_strlit("&");
    reveal_strlit("&=");
    reveal_strlit("*");
    reveal_strlit("*=");
    reveal_strlit("+");
    reveal_strlit("+=");
    reveal_strlit("-");
    reveal_strlit("-=");
    reveal_strlit("/");
    reveal_strlit("/=");
    reveal_strlit("<");
    reveal_strlit("<<");
    reveal_strlit("<<=");
    reveal_strlit("<=");
    reveal_strlit("==");
    reveal_strlit(">");
    reveal_strlit(">=");
    reveal_strlit(">>");
    reveal_strlit(">>=");
    reveal_strlit("^");
    reveal_strlit("^=");
    reveal_strlit("|");
    reveal_strlit("|=");
    reveal_strlit("binary_expression");
    reveal_strlit("compound_assignment_expr");
    reveal_strlit("unary_expression");
    reveal_strlit("try_expression");
    reveal_strlit("index_expression");
    reveal_strlit("call_expression");
    reveal_strlit("for_expression");
    assert("!"@.len() == 1);
    assert("!="@.len() == 2);
    assert("%"@.len() == 1);
    assert("%="@.len() == 2);
    assert("&"@.len() == 1);
    assert("&="@.len() == 2);
    assert("*"@.len() == 1);
    assert("*="@.len() == 2);
    assert("+"@.len() == 1);
    assert("+="@.len() == 2);
    assert("-"@.len() == 1);
    assert("-="@.len() == 2);
    assert("/"@.len() == 1);
    assert("/="@.len() == 2);
    assert("<"@.len() == 1);
    assert("<<"@.len() == 2);
    assert("<<="@.len() == 3);
    assert("<="@.len() == 2);
    assert("=="@.len() == 2);
    assert(">"@.len() == 1);
    assert(">="@.len() == 2);
    assert(">>"@.len() == 2);
    assert(">>="@.len() == 3);
    assert("^"@.len() == 1);
    assert("^="@.len() == 2);
    assert("|"@.len() == 1);
    assert("|="@.len() == 2);
    assert("binary_expression"@.len() == 17);
    assert("compound_assignment_expr"@.len() == 24);
    assert("unary_expression"@.len() == 16);
    assert("try_expression"@.len() == 14);
    assert("index_expression"@.len() == 16);
    assert("call_expression"@.len() == 15);
    assert("for_expression"@.len() == 14);
    assert("!"@[0] != "%"@[0]);
    assert("!"@ != "%"@);
    assert("!"@[0] != "&"@[0]);
    assert("!"@ != "&"@);
    assert("!"@[0] != "*"@[0]);
    assert("!"@ != "*"@);
    assert("!"@[0] != "+"@[0]);
    assert("!"@ != "+"@);
    assert("!"@[0] != "-"@[0]);
    assert("!"@ != "-"@);
    assert("!"@[0] != "/"@[0]);
    assert("!"@ != "/"@);
    assert("!"@[0] != "<"@[0]);
    assert("!"@ != "<"@);
    assert("!"@[0] != ">"@[0]);
    assert("!"@ != ">"@);
    assert("!"@[0] != "^"@[0]);
    assert("!"@ != "^"@);
    assert("!"@[0] != "|"@[0]);
    assert("!"@ != "|"@);
    assert("!="@[0] != "%="@[0]);
    assert("!="@ != "%="@);
    assert("!="@[0] != "&="@[0]);
    assert("!="@ != "&="@);
    assert("!="@[0] != "*="@[0]);
    assert("!="@ != "*="@);
    assert("!="@[0] != "+="@[0]);
    assert("!="@ != "+="@);
    assert("!="@[0] != "-="@[0]);
    assert("!="@ != "-="@);
    assert("!="@[0] != "/="@[0]);
    assert("!="@ != "/="@);
    assert("!="@[0] != "<<"@[0]);
    assert("!="@ != "<<"@);
    assert("!="@[0] != "<="@[0]);
    assert("!="@ != "<="@);
    assert("!="@[0] != "=="@[0]);
    assert("!="@ != "=="@);
    assert("!="@[0] != ">="@[0]);
    assert("!="@ != ">="@);
    assert("!="@[0] != ">>"@[0]);
    assert("!="@ != ">>"@);
    assert("!="@[0] != "^="@[0]);
    assert("!="@ != "^="@);
    assert("!="@[0] != "|="@[0]);
    assert("!="@ != "|="@);
    assert("%"@[0] != "&"@[0]);
    assert("%"@ != "&"@);
    assert("%"@[0] != "*"@[0]);
    assert("%"@ != "*"@);
    assert("%"@[0] != "+"@[0]);
    assert("%"@ != "+"@);
    assert("%"@[0] != "-"@[0]);
    assert("%"@ != "-"@);
    assert("%"@[0] != "/"@[0]);
    assert("%"@ != "/"@);
    assert("%"@[0] != "<"@[0]);
    assert("%"@ != "<"@);
    assert("%"@[0] != ">"@[0]);
    assert("%"@ != ">"@);
    assert("%"@[0] != "^"@[0]);
    assert("%"@ != "^"@);
    assert("%"@[0] != "|"@[0]);
    assert("%"@ != "|"@);
    assert("%="@[0] != "&="@[0]);
    assert("%="@ != "&="@);
    assert("%="@[0] != "*="@[0]);
    assert("%="@ != "*="@);
    assert("%="@[0] != "+="@[0]);
    assert("%="@ != "+="@);
    assert("%="@[0] != "-="@[0]);
    assert("%="@ != "-="@);
    assert("%="@[0] != "/="@[0]);
    assert("%="@ != "/="@);
    assert("%="@[0] != "<<"@[0]);
    assert("%="@ != "<<"@);
    assert("%="@[0] != "<="@[0]);
    assert("%="@ != "<="@);
    assert("%="@[0] != "=="@[0]);
    assert("%="@ != "=="@);
    assert("%="@[0] != ">="@[0]);
    assert("%="@ != ">="@);
    assert("%="@[0] != ">>"@[0]);
    assert("%="@ != ">>"@);
    assert("%="@[0] != "^="@[0]);
    assert("%="@ != "^="@);
    assert("%="@[0] != "|="@[0]);
    assert("%="@ != "|="@);
    assert("&"@[0] != "*"@[0]);
    assert("&"@ != "*"@);
    assert("&"@[0] != "+"@[0]);
    assert("&"@ != "+"@);
    assert("&"@[0] != "-"@[0]);
    assert("&"@ != "-"@);
    assert("&"@[0] != "/"@[0]);
    assert("&"@ != "/"@);
    assert("&"@[0] != "<"@[0]);
    assert("&"@ != "<"@);
    assert("&"@[0] != ">"@[0]);
    assert("&"@ != ">"@);
    assert("&"@[0] != "^"@[0]);
    assert("&"@ != "^"@);
    assert("&"@[0] != "|"@[0]);
    assert("&"@ != "|"@);
    assert("&="@[0] != "*="@[0]);
    assert("&="@ != "*="@);
    assert("&="@[0] != "+="@[0]);
    assert("&="@ != "+="@);
    assert("&="@[0] != "-="@[0]);
    assert("&="@ != "-="@);
    assert("&="@[0] != "/="@[0]);
    assert("&="@ != "/="@);
    assert("&="@[0] != "<<"@[0]);
    assert("&="@ != "<<"@);
    assert("&="@[0] != "<="@[0]);
    assert("&="@ != "<="@);
    assert("&="@[0] != "=="@[0]);
    assert("&="@ != "=="@);
    assert("&="@[0] != ">="@[0]);
    assert("&="@ != ">="@);
    assert("&="@[0] != ">>"@[0]);
    assert("&="@ != ">>"@);
    assert("&="@[0] != "^="@[0]);
    assert("&="@ != "^="@);
    assert("&="@[0] != "|="@[0]);
    assert("&="@ != "|="@);
    assert("*"@[0] != "+"@[0]);
    assert("*"@ != "+"@);
    assert("*"@[0] != "-"@[0]);
    assert("*"@ != "-"@);
    assert("*"@[0] != "/"@[0]);
    assert("*"@ != "/"@);
    assert("*"@[0] != "<"@[0]);
    assert("*"@ != "<"@);
    assert("*"@[0] != ">"@[0]);
    assert("*"@ != ">"@);
    assert("*"@[0] != "^"@[0]);
    assert("*"@ != "^"@);
    assert("*"@[0] != "|"@[0]);
    assert("*"@ != "|"@);
    assert("*="@[0] != "+="@[0]);
    assert("*="@ != "+="@);
    assert("*="@[0] != "-="@[0]);
    assert("*="@ != "-="@);
    assert("*="@[0] != "/="@[0]);
    assert("*="@ != "/="@);
    assert("*="@[0] != "<<"@[0]);
    assert("*="@ != "<<"@);
    assert("*="@[0] != "<="@[0]);
    assert("*="@ != "<="@);
    assert("*="@[0] != "=="@[0]);
    assert("*="@ != "=="@);
    assert("*="@[0] != ">="@[0]);
    assert("*="@ != ">="@);
    assert("*="@[0] != ">>"@[0]);
    assert("*="@ != ">>"@);
    assert("*="@[0] != "^="@[0]);
    assert("*="@ != "^="@);
    assert("*="@[0] != "|="@[0]);
    assert("*="@ != "|="@);
    assert("+"@[0] != "-"@[0]);
    assert("+"@ != "-"@);
    assert("+"@[0] != "/"@[0]);
    assert("+"@ != "/"@);
    assert("+"@[0] != "<"@[0]);
    assert("+"@ != "<"@);
    assert("+"@[0] != ">"@[0]);
    assert("+"@ != ">"@);
    assert("+"@[0] != "^"@[0]);
    assert("+"@ != "^"@);
    assert("+"@[0] != "|"@[0]);
    assert("+"@ != "|"@);
    assert("+="@[0] != "-="@[0]);
    assert("+="@ != "-="@);
    assert("+="@[0] != "/="@[0]);
    assert("+="@ != "/="@);
    assert("+="@[0] != "<<"@[0]);
    assert("+="@ != "<<"@);
    assert("+="@[0] != "<="@[0]);
    assert("+="@ != "<="@);
    assert("+="@[0] != "=="@[0]);
    assert("+="@ != "=="@);
    assert("+="@[0] != ">="@[0]);
    assert("+="@ != ">="@);
    assert("+="@[0] != ">>"@[0]);
    assert("+="@ != ">>"@);
    assert("+="@[0] != "^="@[0]);
    assert("+="@ != "^="@);
    assert("+="@[0] != "|="@[0]);
    assert("+="@ != "|="@);
    assert("-"@[0] != "/"@[0]);
    assert("-"@ != "/"@);
    assert("-"@[0] != "<"@[0]);
    assert("-"@ != "<"@);
    assert("-"@[0] != ">"@[0]);
    assert("-"@ != ">"@);
    assert("-"@[0] != "^"@[0]);
    assert("-"@ != "^"@);
    assert("-"@[0] != "|"@[0]);
    assert("-"@ != "|"@);
    assert("-="@[0] != "/="@[0]);
    assert("-="@ != "/="@);
    assert("-="@[0] != "<<"@[0]);
    assert("-="@ != "<<"@);
    assert("-="@[0] != "<="@[0]);
    assert("-="@ != "<="@);
    assert("-="@[0] != "=="@[0]);
    assert("-="@ != "=="@);
    assert("-="@[0] != ">="@[0]);
    assert("-="@ != ">="@);
    assert("-="@[0] != ">>"@[0]);
    assert("-="@ != ">>"@);
    assert("-="@[0] != "^="@[0]);
    assert("-="@ != "^="@);
    assert("-="@[0] != "|="@[0]);
    assert("-="@ != "|="@);
    assert("/"@[0] != "<"@[0]);
    assert("/"@ != "<"@);
    assert("/"@[0] != ">"@[0]);
    assert("/"@ != ">"@);
    assert("/"@[0] != "^"@[0]);
    assert("/"@ != "^"@);
    assert("/"@[0] != "|"@[0]);
    assert("/"@ != "|"@);
    assert("/="@[0] != "<<"@[0]);
    assert("/="@ != "<<"@);
    assert("/="@[0] != "<="@[0]);
    assert("/="@ != "<="@);
    assert("/="@[0] != "=="@[0]);
    assert("/="@ != "=="@);
    assert("/="@[0] != ">="@[0]);
    assert("/="@ != ">="@);
    assert("/="@[0] != ">>"@[0]);
    assert("/="@ != ">>"@);
    assert("/="@[0] != "^="@[0]);
    assert("/="@ != "^="@);
    assert("/="@[0] != "|="@[0]);
    assert("/="@ != "|="@);
    assert("<"@[0] != ">"@[0]);
    assert("<"@ != ">"@);
    assert("<"@[0] != "^"@[0]);
    assert("<"@ != "^"@);
    assert("<"@[0] != "|"@[0]);
    assert("<"@ != "|"@);
    assert("<<"@[1] != "<="@[1]);
    assert("<<"@ != "<="@);
    assert("<<"@[0] != "=="@[0]);
    assert("<<"@ != "=="@);
    assert("<<"@[0] != ">="@[0]);
    assert("<<"@ != ">="@);
    assert("<<"@[0] != ">>"@[0]);
    assert("<<"@ != ">>"@);
    assert("<<"@[0] != "^="@[0]);
    assert("<<"@ != "^="@);
    assert("<<"@[0] != "|="@[0]);
    assert("<<"@ != "|="@);
    assert("<<="@[0] != ">>="@[0]);
    assert("<<="@ != ">>="@);
    assert("<="@[0] != "=="@[0]);
    assert("<="@ != "=="@);
    assert("<="@[0] != ">="@[0]);
    assert("<="@ != ">="@);
    assert("<="@[0] != ">>"@[0]);
    assert("<="@ != ">>"@);
    assert("<="@[0] != "^="@[0]);
    assert("<="@ != "^="@);
    assert("<="@[0] != "|="@[0]);
    assert("<="@ != "|="@);
    assert("=="@[0] != ">="@[0]);
    assert("=="@ != ">="@);
    assert("=="@[0] != ">>"@[0]);
    assert("=="@ != ">>"@);
    assert("=="@[0] != "^="@[0]);
    assert("=="@ != "^="@);
    assert("=="@[0] != "|="@[0]);
    assert("=="@ != "|="@);
    assert(">"@[0] != "^"@[0]);
    assert(">"@ != "^"@);
    assert(">"@[0] != "|"@[0]);
    assert(">"@ != "|"@);
    assert(">="@[1] != ">>"@[1]);
    assert(">="@ != ">>"@);
    assert(">="@[0] != "^="@[0]);
    assert(">="@ != "^="@);
    assert(">="@[0] != "|="@[0]);
    assert(">="@ != "|="@);
    assert(">>"@[0] != "^="@[0]);
    assert(">>"@ != "^="@);
    assert(">>"@[0] != "|="@[0]);
    assert(">>"@ != "|="@);
    assert("^"@[0] != "|"@[0]);
    assert("^"@ != "|"@);
    assert("^="@[0] != "|="@[0]);
    assert("^="@ != "|="@);
    assert("unary_expression"@[0] != "index_expression"@[0]);
    assert("unary_expression"@ != "index_expression"@);
    assert("try_expression"@[0] != "for_expression"@[0]);
    assert("try_expression"@ != "for_expression"@);
}


/// The operator-desugar rule aligns a reference to a method of the correspondence exactly at a
/// construct of the kind the method expects carrying its operator, where it expects one, and
/// aligns it at that construct's span; a definition never aligns under it.
pub proof fn lemma_desugar_aligns_at_its_construct(expected: Seq<char>, f: SiteFacts, kind: Seq<char>, operator: Option<Seq<char>>)
    requires
        desugar_spec(expected) == Some((kind, operator)),
    ensures
        (desugar_rule(OccurrenceRole::Reference, expected, f) is Some) <==> (f.construct is Some && f.construct.unwrap().kind@
            == kind && (operator is Some ==> f.construct.unwrap().operator is Some
            && f.construct.unwrap().operator.unwrap()@ == operator.unwrap())),
        desugar_rule(OccurrenceRole::Reference, expected, f) is Some ==> desugar_rule(OccurrenceRole::Reference, expected, f)
            == Some((AlignmentRule::OperatorDesugar, f.construct.unwrap().span)),
        desugar_rule(OccurrenceRole::Definition, expected, f) is None,
{
}

} // verus!
