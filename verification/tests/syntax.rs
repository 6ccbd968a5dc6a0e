use silent_cartographer::graph::range::ByteSpan;
use silent_cartographer::graph::syntax::{ConstructAt, Language, RangeShape, SyntaxTree};

const SRC: &str = "\
mod net {
    pub struct Client;
    impl Client {
        pub fn connect(&self) {}
    }
    pub fn open() {
        let f = || connect();
    }
}
";

/// The byte span of the `occurrence`-th (1-based) appearance of `token` in `SRC`.
fn span_of_token(token: &str, occurrence: usize) -> ByteSpan {
    let abs = SRC.match_indices(token).nth(occurrence - 1).expect("token present").0;
    ByteSpan {
        start: abs,
        end: abs + token.len(),
    }
}

#[test]
fn name_node_containing_finds_identifier() {
    let tree = SyntaxTree::parse(SRC, Language::Rust).unwrap();
    let connect_def = span_of_token("connect", 1);
    let name = tree.name_node_containing(connect_def).unwrap();
    assert_eq!(tree.text_at(name), Some("connect"));
}

#[test]
fn enclosing_declarations_skips_closures() {
    let tree = SyntaxTree::parse(SRC, Language::Rust).unwrap();
    // The `connect()` call inside the closure in `open`.
    let call = span_of_token("connect", 2);
    let chain = tree.enclosing_declarations(call.start);
    // Innermost persisted declaration is the function `open`, not the closure.
    assert_eq!(chain.first().map(|d| tree.text_at(d.name_span)), Some(Some("open")));
}

#[test]
fn module_level_offset_has_module_as_outermost() {
    let tree = SyntaxTree::parse(SRC, Language::Rust).unwrap();
    let client_ref = span_of_token("Client", 2); // in `impl Client`
    let chain = tree.enclosing_declarations(client_ref.start);
    // The outermost declaration is the module `net`.
    assert_eq!(chain.last().map(|d| tree.text_at(d.name_span)), Some(Some("net")));
}

/// The construct at the first occurrence of `token` in `src`.
fn construct_at_token(src: &str, token: &str) -> ConstructAt {
    let tree = SyntaxTree::parse(src, Language::Rust).unwrap();
    let start = src.find(token).expect("token present");
    tree.construct_at(ByteSpan {
        start,
        end: start + token.len(),
    })
    .expect("construct present")
}

// The construct kinds the operator-desugar correspondence dispatches on, one per family.
#[test]
fn construct_at_resolves_operator_families() {
    let try_c = construct_at_token("fn f(x: Option<u8>) -> Option<u8> { Some(x?) }\n", "?");
    assert_eq!(try_c.kind, "try_expression");

    let eq = construct_at_token("fn f(a: u8, b: u8) -> bool { a == b }\n", "==");
    assert_eq!(
        (eq.kind.as_str(), eq.operator.as_deref()),
        ("binary_expression", Some("=="))
    );

    let add_assign = construct_at_token("fn f(mut a: u8) { a += 1; }\n", "+=");
    assert_eq!(
        (add_assign.kind.as_str(), add_assign.operator.as_deref()),
        ("compound_assignment_expr", Some("+="))
    );

    let neg = construct_at_token("fn f(a: i8) -> i8 { -a }\n", "-a");
    assert_eq!(
        (neg.kind.as_str(), neg.operator.as_deref()),
        ("unary_expression", Some("-"))
    );

    let index = construct_at_token("fn f(v: &[u8]) -> u8 { v[0] }\n", "[0]");
    assert_eq!(index.kind, "index_expression");

    let call = construct_at_token("fn f(g: fn()) { g(); }\n", "g()");
    assert_eq!(call.kind, "call_expression");

    let for_loop = construct_at_token("fn f(v: Vec<u8>) { for _x in v {} }\n", "for");
    assert_eq!(for_loop.kind, "for_expression");
}

// A single-byte span on whitespace beside a sigil resolves to the surrounding expression (the
// live rust-analyzer adjacency case), while a span on an operand resolves to the operand.
#[test]
fn construct_at_whitespace_beside_sigil_is_the_expression() {
    let src = "fn f(a: u8, b: u8) -> u8 { a + b }\n";
    let tree = SyntaxTree::parse(src, Language::Rust).unwrap();
    let space_before_plus = src.find(" + ").unwrap(); // the space between `a` and `+`
    let c = tree
        .construct_at(ByteSpan {
            start: space_before_plus,
            end: space_before_plus + 1,
        })
        .unwrap();
    assert_eq!(
        (c.kind.as_str(), c.operator.as_deref()),
        ("binary_expression", Some("+"))
    );

    // A span on the operand `a` itself is the identifier, never the surrounding expression.
    let a_pos = src.find("{ a ").unwrap() + 2;
    let operand = tree
        .construct_at(ByteSpan {
            start: a_pos,
            end: a_pos + 1,
        })
        .unwrap();
    assert_eq!(operand.kind, "identifier");
}

// The `crate` path keyword is its own named node kind, distinct from identifiers.
#[test]
fn construct_at_crate_keyword() {
    let c = construct_at_token("use crate::thing::Thing;\n", "crate");
    assert_eq!(c.kind, "crate");
}

// Each of the six Rust range forms yields its shape at the operator token; a span not on a range
// operator yields `None`. `..=b` (no start operand) has no unambiguous expression-position parse
// in the grammar, so it is exercised in pattern position, which `range_shape` reads uniformly
// with expression position.
#[test]
fn range_shape_reads_all_six_shapes() {
    let src = "fn f(a: usize, b: usize) -> usize { let _r1 = a..b; let _r2 = a..; let _r3 = ..b; \
                    let _r4 = ..; let _r5 = a..=b; a }\n";
    let tree = SyntaxTree::parse(src, Language::Rust).unwrap();
    let span = |token: &str, occurrence: usize| {
        let abs = src.match_indices(token).nth(occurrence - 1).expect("token present").0;
        ByteSpan {
            start: abs,
            end: abs + token.len(),
        }
    };

    assert_eq!(
        tree.range_shape(span("..", 1)), // a..b
        Some(RangeShape {
            has_start: true,
            has_end: true,
            inclusive: false
        })
    );
    assert_eq!(
        tree.range_shape(span("..", 2)), // a..
        Some(RangeShape {
            has_start: true,
            has_end: false,
            inclusive: false
        })
    );
    assert_eq!(
        tree.range_shape(span("..", 3)), // ..b
        Some(RangeShape {
            has_start: false,
            has_end: true,
            inclusive: false
        })
    );
    assert_eq!(
        tree.range_shape(span("..", 4)), // ..
        Some(RangeShape {
            has_start: false,
            has_end: false,
            inclusive: false
        })
    );
    assert_eq!(
        tree.range_shape(span("..=", 1)), // a..=b
        Some(RangeShape {
            has_start: true,
            has_end: true,
            inclusive: true
        })
    );

    // `..=b` (no start) in pattern position: the only grammar shape that parses it as a range
    // rather than an assignment.
    let pat_src = "fn f(n: i32) -> i32 { match n { ..=3 => 1, _ => 0 } }\n";
    let pat_tree = SyntaxTree::parse(pat_src, Language::Rust).unwrap();
    let pat_pos = pat_src.find("..=3").unwrap();
    assert_eq!(
        pat_tree.range_shape(ByteSpan {
            start: pat_pos,
            end: pat_pos + 3,
        }),
        Some(RangeShape {
            has_start: false,
            has_end: true,
            inclusive: true
        })
    );

    // A span not on a range operator (an operand, or unrelated syntax) yields `None`.
    assert_eq!(tree.range_shape(span("a..b", 1)), None);
    assert_eq!(tree.range_shape(span("fn", 1)), None);
}

// A module-declaration name token is recognized; a use-style path segment spelling the same
// module name, and non-module identifiers, are not.
#[test]
fn module_declaration_name_is_distinguished_from_use_style_references() {
    let src = "\
mod sub;
mod inline_mod {
    pub fn f() {}
}
use sub::thing;
fn not_a_mod() {}
";
    let tree = SyntaxTree::parse(src, Language::Rust).unwrap();
    let span = |token: &str, occurrence: usize| {
        let abs = src.match_indices(token).nth(occurrence - 1).expect("token present").0;
        ByteSpan {
            start: abs,
            end: abs + token.len(),
        }
    };

    // Declaration sites: `mod sub;` and `mod inline_mod { .. }`.
    assert!(tree.is_module_declaration_name(span("sub", 1)), "`mod sub;` name");
    assert!(
        tree.is_module_declaration_name(span("inline_mod", 1)),
        "inline module name"
    );

    // A use-style path segment naming the module is not a declaration site.
    assert!(
        !tree.is_module_declaration_name(span("sub", 2)),
        "`use sub::thing` path segment is not a declaration"
    );

    // A non-module identifier is not a declaration site.
    assert!(!tree.is_module_declaration_name(span("not_a_mod", 1)), "fn name");
}

// `Self` is a name node in both type position and path-segment position, and the nearest
// enclosing impl's self type is readable for the cross-check; a trait body has none.
#[test]
fn self_token_is_a_name_node_and_impl_self_type_is_readable() {
    let src = "\
struct A;
impl<T> A {
    fn f() -> Self { Self::g() }
}
trait Tr {
    fn t() -> Self;
}
";
    let tree = SyntaxTree::parse(src, Language::Rust).unwrap();

    // Both `Self` positions resolve through the name-node path with text `Self`.
    for pos in [src.find("Self").unwrap(), src.find("Self::").unwrap()] {
        let name = tree
            .name_node_containing(ByteSpan {
                start: pos,
                end: pos + 4,
            })
            .expect("Self is a name node");
        assert_eq!(tree.text_at(name), Some("Self"));
    }

    // Inside the impl: the self type (verbatim, generics included where written).
    let in_impl = src.find("Self").unwrap();
    assert_eq!(tree.enclosing_impl_self_type(in_impl).as_deref(), Some("A"));

    // Inside the trait body: no impl to cross-check against.
    let in_trait = src.rfind("Self").unwrap();
    assert_eq!(tree.enclosing_impl_self_type(in_trait), None);
}

// A tuple-field index (`x.0`) is a name node only in field position; the same digit as a
// standalone integer literal, or as an array-length operand, is not.
#[test]
fn tuple_index_is_name_node_only_in_field_position() {
    let src = "fn f(x: (u8, u8)) -> u8 { x.0 }\nfn g() { let _a = [0; 4]; let _b = 0; }\n";
    let tree = SyntaxTree::parse(src, Language::Rust).unwrap();
    let span = |token: &str, occurrence: usize| {
        let abs = src.match_indices(token).nth(occurrence - 1).expect("token present").0;
        ByteSpan {
            start: abs,
            end: abs + token.len(),
        }
    };

    // The `0` in `x.0` is the field child of a `field_expression`: a name node.
    let field_zero = span("x.0", 1);
    let field_zero = ByteSpan {
        start: field_zero.end - 1,
        end: field_zero.end,
    };
    let name = tree
        .name_node_containing(field_zero)
        .expect("tuple field index is a name node");
    assert_eq!(tree.text_at(name), Some("0"));

    // The array-length `4` in `[0; 4]` is an integer literal outside field position: not a name
    // node.
    assert_eq!(tree.name_node_containing(span("4]", 1)), None);

    // A standalone integer literal (`let _b = 0;`) is not a name node.
    let standalone_zero = span("_b = 0", 1);
    let standalone_zero = ByteSpan {
        start: standalone_zero.end - 1,
        end: standalone_zero.end,
    };
    assert_eq!(tree.name_node_containing(standalone_zero), None);
}

const PY_SRC: &str = "\
class Widget:
    def method(self):
        pass

@decorator
def decorated():
    pass

async def async_fn():
    pass

TOP_LEVEL = 1
";

/// The byte span of the `occurrence`-th (1-based) appearance of `token` in `src`.
fn py_span_of(src: &str, token: &str, occurrence: usize) -> ByteSpan {
    let abs = src.match_indices(token).nth(occurrence - 1).expect("token present").0;
    ByteSpan {
        start: abs,
        end: abs + token.len(),
    }
}

// Every persisted Python declaration enumerates with its kind, name text, and span; a
// decorated declaration's span is the wrapper's span (decorators included), while its name node
// is the inner definition's `name` field.
#[test]
fn python_declarations_enumerate_with_names_and_spans() {
    let tree = SyntaxTree::parse(PY_SRC, Language::Python).unwrap();
    let decls = tree.all_declarations();

    let class = decls.iter().find(|d| d.node_kind == "class_definition").unwrap();
    assert_eq!(tree.text_at(class.name_span), Some("Widget"));
    assert_eq!(
        tree.text_at(class.full_span),
        Some("class Widget:\n    def method(self):\n        pass")
    );

    let method = decls
        .iter()
        .find(|d| d.node_kind == "function_definition" && tree.text_at(d.name_span) == Some("method"))
        .unwrap();
    assert_eq!(tree.text_at(method.full_span), Some("def method(self):\n        pass"));

    let decorated = decls
        .iter()
        .find(|d| tree.text_at(d.name_span) == Some("decorated"))
        .unwrap();
    assert_eq!(decorated.node_kind, "function_definition");
    // The decorated span includes the decorator line, not just the `def` header.
    let decorated_start = py_span_of(PY_SRC, "@decorator", 1).start;
    assert_eq!(decorated.full_span.start, decorated_start);
    assert_eq!(
        tree.text_at(decorated.full_span),
        Some("@decorator\ndef decorated():\n    pass")
    );

    let async_fn = decls
        .iter()
        .find(|d| tree.text_at(d.name_span) == Some("async_fn"))
        .unwrap();
    assert_eq!(async_fn.node_kind, "function_definition");
    assert_eq!(
        tree.text_at(async_fn.full_span),
        Some("async def async_fn():\n    pass")
    );
}

// A position inside a method body encloses [method, class]; a position at module top level
// encloses nothing (Python's `module` has no name field, so it never appears in the chain — the
// same "no wrapping declaration" shape as Rust's top level).
#[test]
fn python_enclosing_declarations_innermost_first() {
    let tree = SyntaxTree::parse(PY_SRC, Language::Python).unwrap();

    let in_method_body = PY_SRC.find("pass").unwrap();
    let chain = tree.enclosing_declarations(in_method_body);
    let names: Vec<Option<&str>> = chain.iter().map(|d| tree.text_at(d.name_span)).collect();
    assert_eq!(names, vec![Some("method"), Some("Widget")]);

    let at_module_top = PY_SRC.find("TOP_LEVEL").unwrap();
    assert_eq!(tree.enclosing_declarations(at_module_top), Vec::new());
}

// A span inside an identifier resolves to that identifier's own span; a span on a keyword (not
// an identifier-kind node in the Python grammar) resolves to nothing.
#[test]
fn python_name_node_containment() {
    let tree = SyntaxTree::parse(PY_SRC, Language::Python).unwrap();

    let widget_span = py_span_of(PY_SRC, "Widget", 1);
    let name = tree.name_node_containing(widget_span).unwrap();
    assert_eq!(tree.text_at(name), Some("Widget"));

    let class_keyword = py_span_of(PY_SRC, "class", 1);
    assert_eq!(tree.name_node_containing(class_keyword), None);
}

// Both Python alias forms yield their declared bindings with correct target/alias spans; a plain
// `import x` (no `as` clause) yields none.
#[test]
fn python_alias_bindings_enumerate() {
    let src = "import a.b as c\nfrom m import n as c2\nimport x\n";
    let tree = SyntaxTree::parse(src, Language::Python).unwrap();
    let bindings = tree.alias_bindings();
    assert_eq!(
        bindings.len(),
        2,
        "only the two `as`-aliased imports bind: {bindings:?}"
    );

    let dotted_target = py_span_of(src, "a.b", 1);
    let dotted_alias = py_span_of(src, "c", 1);
    let dotted_binding = py_span_of(src, "a.b as c", 1);
    assert!(
        bindings.iter().any(|b| b.target_token_span == dotted_target
            && b.alias_name_span == dotted_alias
            && b.binding_span == dotted_binding),
        "`import a.b as c` binds alias `c` to target `a.b` across binding span `a.b as c`: {bindings:?}"
    );

    let from_target = py_span_of(src, "n", 1);
    let from_alias = py_span_of(src, "c2", 1);
    let from_binding = py_span_of(src, "n as c2", 1);
    assert!(
        bindings.iter().any(|b| b.target_token_span == from_target
            && b.alias_name_span == from_alias
            && b.binding_span == from_binding),
        "`from m import n as c2` binds alias `c2` to target `n` across binding span `n as c2`: {bindings:?}"
    );
}

// Both Rust `use ... as` forms (bare and `pub`) yield their declared bindings; a plain `use a::b;`
// (no `as` clause) yields none.
#[test]
fn rust_use_as_bindings_enumerate() {
    let src = "use alpha::beta as gamma;\npub use delta as epsilon;\nuse alpha::beta;\n";
    let tree = SyntaxTree::parse(src, Language::Rust).unwrap();
    let bindings = tree.alias_bindings();
    assert_eq!(bindings.len(), 2, "only the two `as`-aliased uses bind: {bindings:?}");

    let span = |token: &str, occurrence: usize| {
        let abs = src.match_indices(token).nth(occurrence - 1).expect("token present").0;
        ByteSpan {
            start: abs,
            end: abs + token.len(),
        }
    };

    let scoped_target = span("beta", 1); // the `beta` in `alpha::beta as gamma`
    let scoped_alias = span("gamma", 1);
    let scoped_binding = span("alpha::beta as gamma", 1);
    assert!(
        bindings.iter().any(|b| b.target_token_span == scoped_target
            && b.alias_name_span == scoped_alias
            && b.binding_span == scoped_binding),
        "`use alpha::beta as gamma;` binds alias `gamma` to the terminal segment `beta` across the whole \
             clause: {bindings:?}"
    );

    let bare_target = span("delta", 1);
    let bare_alias = span("epsilon", 1);
    let bare_binding = span("delta as epsilon", 1);
    assert!(
        bindings.iter().any(|b| b.target_token_span == bare_target
            && b.alias_name_span == bare_alias
            && b.binding_span == bare_binding),
        "`pub use delta as epsilon;` binds alias `epsilon` to target `delta` across the whole clause: \
             {bindings:?}"
    );
}

// A `self` token inside a use-list resolves to the terminal segment of its nearest enclosing use
// path, at any nesting depth; a method's `self` parameter is not inside a use-list and yields
// `None`.
#[test]
fn use_list_self_resolves_enclosing_path_terminal() {
    let src = "use a::walk::{self, x};\nuse a::{b::{self}};\nstruct S; impl S { fn f(self) {} }\n";
    let tree = SyntaxTree::parse(src, Language::Rust).unwrap();
    let span = |token: &str, occurrence: usize| {
        let abs = src.match_indices(token).nth(occurrence - 1).expect("token present").0;
        ByteSpan {
            start: abs,
            end: abs + token.len(),
        }
    };

    // `use a::walk::{self, x};` — `self` resolves to the enclosing path's terminal segment `walk`.
    let walk_self = span("self", 1);
    let resolved = tree.use_list_self_context(walk_self).expect("use-list self resolves");
    assert_eq!(tree.text_at(resolved), Some("walk"));

    // `use a::{b::{self}};` — nested use-list, terminal segment `b`.
    let nested_self = span("self", 2);
    let resolved = tree
        .use_list_self_context(nested_self)
        .expect("nested use-list self resolves");
    assert_eq!(tree.text_at(resolved), Some("b"));

    // A method's `self` parameter is not inside a use-list.
    let param_self = span("self", 3);
    assert_eq!(tree.use_list_self_context(param_self), None);

    // An aliased self-import resolves through its `use_as_clause` to the same path terminal.
    let aliased_src = "use a::walk::{self as w};\n";
    let aliased_tree = SyntaxTree::parse(aliased_src, Language::Rust).unwrap();
    let aliased_self = ByteSpan {
        start: aliased_src.find("self").unwrap(),
        end: aliased_src.find("self").unwrap() + 4,
    };
    let resolved = aliased_tree
        .use_list_self_context(aliased_self)
        .expect("aliased use-list self resolves");
    assert_eq!(aliased_tree.text_at(resolved), Some("walk"));

    // Path-start `self::` (no use-list) is not a use-list self context.
    let path_start_src = "use self::x;\n";
    let path_start_tree = SyntaxTree::parse(path_start_src, Language::Rust).unwrap();
    let path_start_self = ByteSpan {
        start: path_start_src.find("self").unwrap(),
        end: path_start_src.find("self").unwrap() + 4,
    };
    assert_eq!(path_start_tree.use_list_self_context(path_start_self), None);
}

// A `super` token's chain depth is 1 plus the number of `super` segments preceding it in the same
// path; a span off a `super` token yields `None`.
#[test]
fn super_chain_depth_counts_position() {
    let src = "use super::x;\nuse super::super::y;\n";
    let tree = SyntaxTree::parse(src, Language::Rust).unwrap();
    let span = |token: &str, occurrence: usize| {
        let abs = src.match_indices(token).nth(occurrence - 1).expect("token present").0;
        ByteSpan {
            start: abs,
            end: abs + token.len(),
        }
    };

    // `use super::x;` — the single `super` is the first segment: depth 1.
    assert_eq!(tree.super_chain_depth(span("super", 1)), Some(1));

    // `use super::super::y;` — the first `super` is depth 1, the second is depth 2.
    assert_eq!(tree.super_chain_depth(span("super", 2)), Some(1));
    assert_eq!(tree.super_chain_depth(span("super", 3)), Some(2));

    // A span not on a `super` token yields `None`.
    assert_eq!(tree.super_chain_depth(span("x", 1)), None);
}

// A path-start `self` (the leading segment of a `self::…` path) is recognized in use and
// expression position; receiver, parameter, and use-list shapes are not path-start.
#[test]
fn path_start_self_recognized_only_at_path_start() {
    let src = "use self::x;\nfn f(&self) { self.a; self::h(); }\nuse a::{self};\n";
    let tree = SyntaxTree::parse(src, Language::Rust).unwrap();
    let span = |occurrence: usize| {
        let abs = src.match_indices("self").nth(occurrence - 1).expect("token present").0;
        ByteSpan {
            start: abs,
            end: abs + 4,
        }
    };

    // `use self::x;` and the expression path `self::h()` are path-start.
    assert!(tree.path_start_self(span(1)));
    assert!(tree.path_start_self(span(4)));

    // A method parameter, a receiver, and a use-list `self` are not.
    assert!(!tree.path_start_self(span(2)));
    assert!(!tree.path_start_self(span(3)));
    assert!(!tree.path_start_self(span(5)));
}

// The chain at a prefix token inside a multi-segment dotted construct contains every enclosing
// dotted span, innermost first; a bare identifier outside any dotted construct yields an empty
// chain.
#[test]
fn python_dotted_construct_chain_at_token() {
    let src = "h2.connection.H2Connection(1)\nx\n";
    let tree = SyntaxTree::parse(src, Language::Python).unwrap();

    let h2_token = py_span_of(src, "h2", 1);
    let chain = tree.enclosing_dotted_constructs(h2_token);
    let texts: Vec<Option<&str>> = chain.iter().map(|s| tree.text_at(*s)).collect();
    assert!(
        texts.contains(&Some("h2.connection")),
        "chain contains the inner dotted span: {texts:?}"
    );
    assert!(
        texts.contains(&Some("h2.connection.H2Connection")),
        "chain contains the wider dotted span: {texts:?}"
    );
    assert_eq!(
        texts.first().copied(),
        Some(Some("h2.connection")),
        "innermost enclosing construct comes first: {texts:?}"
    );

    let bare = py_span_of(src, "x", 1);
    assert_eq!(
        tree.enclosing_dotted_constructs(bare),
        Vec::new(),
        "a bare identifier outside any dotted construct has no enclosing chain"
    );
}

#[test]
fn trait_impls_read_terminal_name_tokens() {
    let src = "impl fmt::Display for Wrapper<T> {}\nimpl Plain {}\nimpl From<Arg> for Target {}\n";
    let tree = SyntaxTree::parse(src, Language::Rust).unwrap();
    let impls = tree.trait_impls();
    assert_eq!(impls.len(), 2);
    let mut pairs: Vec<(Option<&str>, Option<&str>)> = impls
        .iter()
        .map(|t| (tree.text_at(t.trait_name_span), tree.text_at(t.type_name_span)))
        .collect();
    pairs.sort();
    assert_eq!(pairs, vec![(Some("Display"), Some("Wrapper")), (Some("From"), Some("Target"))]);
}

#[test]
fn class_bases_keep_declaration_order_and_skip_keywords() {
    let src = "class Sub(pkg.Base, Other, metaclass=Meta):\n    pass\nclass Lone:\n    pass\n";
    let tree = SyntaxTree::parse(src, Language::Python).unwrap();
    let classes = tree.class_bases();
    assert_eq!(classes.len(), 2);
    let sub = classes.iter().find(|c| tree.text_at(c.class_name_span) == Some("Sub")).unwrap();
    let bases: Vec<Option<&str>> = sub.base_name_spans.iter().map(|s| tree.text_at(*s)).collect();
    assert_eq!(bases, vec![Some("Base"), Some("Other")]);
    let lone = classes.iter().find(|c| tree.text_at(c.class_name_span) == Some("Lone")).unwrap();
    assert!(lone.base_name_spans.is_empty());
}

#[test]
fn rust_declarations_enumerate_with_impl_anchor() {
    let src = "struct S;\nimpl S { fn go(&self) {} }\n";
    let tree = SyntaxTree::parse(src, Language::Rust).unwrap();
    let decls = tree.all_declarations();
    let kinds: Vec<&str> = decls.iter().map(|d| d.node_kind.as_str()).collect();
    assert_eq!(kinds.len(), 3);
    let imp = decls.iter().find(|d| d.node_kind == "impl_item").unwrap();
    assert_eq!(tree.text_at(imp.name_span), Some("S"));
    let go = decls.iter().find(|d| d.node_kind == "function_item").unwrap();
    assert_eq!(tree.text_at(go.full_span), Some("fn go(&self) {}"));
}

#[test]
fn impl_trait_name_is_read_only_for_trait_impls() {
    let src = "impl Show for A { fn f() -> Self { todo() } }\nimpl B { fn g() -> Self { todo() } }\n";
    let tree = SyntaxTree::parse(src, Language::Rust).unwrap();
    let in_trait_impl = src.find("Self").unwrap();
    assert_eq!(tree.enclosing_impl_trait_name(in_trait_impl).as_deref(), Some("Show"));
    assert_eq!(tree.enclosing_impl_self_type(in_trait_impl).as_deref(), Some("A"));
    let in_inherent = src.rfind("Self").unwrap();
    assert_eq!(tree.enclosing_impl_trait_name(in_inherent), None);
    assert_eq!(tree.enclosing_impl_self_type(in_inherent).as_deref(), Some("B"));
}

#[test]
fn text_at_refuses_spans_off_character_boundaries() {
    let src = "fn é() {}\n";
    let tree = SyntaxTree::parse(src, Language::Rust).unwrap();
    assert_eq!(tree.source(), src);
    assert_eq!(tree.text_at(ByteSpan { start: 3, end: 5 }), Some("é"));
    assert_eq!(tree.text_at(ByteSpan { start: 3, end: 4 }), None);
    assert_eq!(tree.text_at(ByteSpan { start: 5, end: 3 }), None);
    assert_eq!(tree.text_at(ByteSpan { start: 0, end: 100 }), None);
    assert!(tree.has_construct_at(ByteSpan { start: 0, end: 2 }));
    assert!(!tree.has_construct_at(ByteSpan { start: 100, end: 101 }));
}

#[test]
fn site_facts_gather_what_the_tree_shows_at_a_span() {
    let src = "mod outer {\n    mod inner {\n        fn f() { self::g(); }\n    }\n}\n";
    let tree = SyntaxTree::parse(src, Language::Rust).unwrap();
    let at = src.find("self").unwrap();
    let facts = tree.site_facts(ByteSpan { start: at, end: at + 4 });
    assert_eq!(facts.span_text.as_deref(), Some("self"));
    assert!(facts.path_start_self);
    assert_eq!(facts.super_depth, None);
    assert_eq!(facts.inline_modules, vec!["outer".to_string(), "inner".to_string()]);
    assert_eq!(facts.source_len, src.len());
    assert!(facts.has_construct);
    assert_eq!(facts.construct.map(|c| c.kind), Some("self".to_string()));
    assert_eq!(facts.impl_self_type, None);

    let g = src.find("g()").unwrap();
    let facts = tree.site_facts(ByteSpan { start: g, end: g + 1 });
    assert_eq!(facts.name_text.as_deref(), Some("g"));
    assert_eq!(facts.name_span, Some(ByteSpan { start: g, end: g + 1 }));
    assert!(!facts.path_start_self);
}
