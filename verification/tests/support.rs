use silent_cartographer::graph::range::ByteSpan;
use silent_cartographer::graph::syntax::Language;
use silent_cartographer::graph::tests_class::{
    gated_declarations, gated_documents, has_tests_directory_component, is_python_test_file_name,
    symbol_test_rule, test_rule,
};
use silent_cartographer::manifest::{derive_structure, ArgSpec, CommandSpec, SURFACE_VERSION};
use silent_cartographer::pairs::SourceSet;
use silent_cartographer::text::{lines, parse_usize};

fn flag(long: &str, takes_value: bool, values: &[&str], default: Option<&str>, global: bool) -> ArgSpec {
    ArgSpec {
        id: long.replace('-', "_"),
        long: Some(long.to_string()),
        positional: false,
        global,
        takes_value,
        possible_values: values.iter().map(|v| v.to_string()).collect(),
        defaults: default.iter().map(|v| v.to_string()).collect(),
        required: false,
    }
}

#[test]
fn the_surface_lists_positionals_own_flags_then_globals() {
    let top = vec![flag("db", true, &[], Some(".c10r/index.db"), true), flag("help", false, &[], None, false)];
    let symbol = ArgSpec {
        id: "symbol".to_string(),
        long: None,
        positional: true,
        global: false,
        takes_value: true,
        possible_values: Vec::new(),
        defaults: Vec::new(),
        required: true,
    };
    let get = CommandSpec {
        name: "get".to_string(),
        about: Some("Read one symbol".to_string()),
        args: vec![
            symbol,
            flag("detail", true, &["location", "signature"], Some("signature"), false),
            flag("json", false, &["true", "false"], None, false),
            flag("help", false, &[], None, false),
        ],
    };
    let surface = derive_structure(&top, &[get]);
    assert_eq!(surface.surface_version, SURFACE_VERSION);
    assert_eq!(surface.help, "c10r <command> --help");
    let command = &surface.commands[0];
    assert_eq!(command.name, "get");
    assert_eq!(command.about.as_deref(), Some("Read one symbol"));
    assert_eq!(command.args.len(), 1);
    assert_eq!(command.args[0].name, "symbol");
    assert!(command.args[0].required);
    let names: Vec<&str> = command.flags.iter().map(|f| f.name.as_str()).collect();
    assert_eq!(names, ["detail", "json", "db"]);
    assert_eq!(command.flags[0].values, ["location", "signature"]);
    assert_eq!(command.flags[0].default.as_deref(), Some("signature"));
    assert!(command.flags[1].values.is_empty(), "a flag taking no value lists no values");
    assert!(command.flags[2].global);
    assert!(!command.flags[0].global);
}

#[test]
fn sources_are_held_in_path_order() {
    let mut set = SourceSet::new();
    set.insert("b".to_string(), "2".to_string());
    set.insert("a".to_string(), "1".to_string());
    set.insert("b".to_string(), "3".to_string());
    set.remove("zzz");
    assert_eq!(set.get("b"), Some("3".to_string()));
    assert_eq!(set.get("c"), None);
    set.remove("a");
    assert_eq!(set.into_pairs(), vec![("b".to_string(), "3".to_string())]);
    let from = SourceSet::from_pairs(&[("x".to_string(), "1".to_string()), ("x".to_string(), "2".to_string())]);
    assert_eq!(from.get("x"), Some("2".to_string()));
}

#[test]
fn integers_parse_as_usize_from_str_does() {
    let p = |s: &str| parse_usize(&s.chars().collect::<Vec<char>>());
    assert_eq!(p("42"), Some(42));
    assert_eq!(p("+42"), Some(42));
    assert_eq!(p("007"), Some(7));
    assert_eq!(p(""), None);
    assert_eq!(p("+"), None);
    assert_eq!(p("-1"), None);
    assert_eq!(p("4 2"), None);
    assert_eq!(p(&usize::MAX.to_string()), Some(usize::MAX));
    assert_eq!(p("99999999999999999999999"), None);
}

#[test]
fn lines_split_as_str_lines_does() {
    assert_eq!(lines("a\r\nb\nc"), vec!["a", "b", "c"]);
    assert_eq!(lines("a\n"), vec!["a"]);
    assert_eq!(lines(""), Vec::<String>::new());
    assert_eq!(lines("\n\n"), vec!["", ""]);
    assert_eq!(lines("x\r"), vec!["x\r"]);
}

#[test]
fn test_conventions_classify_by_path() {
    assert!(has_tests_directory_component("crate/tests/it.rs"));
    assert!(!has_tests_directory_component("tests.rs"));
    assert!(!has_tests_directory_component("src/testsuite/a.rs"));
    assert!(is_python_test_file_name("pkg/test_shapes.py"));
    assert!(is_python_test_file_name("pkg/shapes_test.py"));
    assert!(is_python_test_file_name("conftest.py"));
    assert!(is_python_test_file_name("pkg/tests.py"));
    assert!(!is_python_test_file_name("pkg/testimony.py"));
    assert_eq!(test_rule(Language::Rust, "src/a.rs", true, true), Some("test_attribute"));
    assert_eq!(test_rule(Language::Rust, "src/a.rs", false, true), Some("test_configuration"));
    assert_eq!(test_rule(Language::Rust, "tests/a.rs", false, false), Some("test_directory"));
    assert_eq!(test_rule(Language::Rust, "src/a.rs", false, false), None);
    assert_eq!(test_rule(Language::Python, "tests/test_a.py", false, false), Some("test_file"));
    assert_eq!(test_rule(Language::Python, "tests/helpers.py", false, false), Some("test_directory"));
}

#[test]
fn gating_closes_over_out_of_line_modules() {
    let seeds = vec!["src/tests.rs".to_string()];
    let edges = vec![
        ("src/tests/helpers.rs".to_string(), "src/tests/helpers/deep.rs".to_string()),
        ("src/tests.rs".to_string(), "src/tests/helpers.rs".to_string()),
        ("src/lib.rs".to_string(), "src/real.rs".to_string()),
    ];
    let gated = gated_documents(&seeds, &edges);
    assert_eq!(gated.len(), 3);
    for doc in ["src/tests.rs", "src/tests/helpers.rs", "src/tests/helpers/deep.rs"] {
        assert!(gated.contains(&doc.to_string()), "{doc} is gated");
    }
    assert!(!gated.contains(&"src/real.rs".to_string()));
}

fn bspan(start: usize, end: usize) -> ByteSpan {
    ByteSpan { start, end }
}

#[test]
fn a_symbols_test_signals_decide_its_rule_in_order() {
    let attributed = [bspan(10, 14)];
    let inline = [bspan(100, 200)];
    assert_eq!(symbol_test_rule(Language::Rust, "src/a.rs", Some(bspan(10, 14)), &attributed, &inline, false), Some("test_attribute"));
    assert_eq!(symbol_test_rule(Language::Rust, "src/a.rs", Some(bspan(120, 125)), &attributed, &inline, false), Some("test_configuration"));
    assert_eq!(symbol_test_rule(Language::Rust, "src/a.rs", Some(bspan(20, 25)), &attributed, &inline, true), Some("test_configuration"));
    assert_eq!(symbol_test_rule(Language::Rust, "src/a.rs", Some(bspan(20, 25)), &attributed, &inline, false), None);
    // Without a span only the document-scoped rules apply.
    assert_eq!(symbol_test_rule(Language::Rust, "tests/a.rs", None, &attributed, &inline, false), Some("test_directory"));
    assert_eq!(symbol_test_rule(Language::Python, "pkg/test_a.py", None, &[], &[], false), Some("test_file"));
}

#[test]
fn out_of_line_declarations_inside_a_gated_body_carry_the_gating() {
    let inline = [bspan(100, 200)];
    let decls = [bspan(5, 9), bspan(110, 115), bspan(190, 201)];
    assert_eq!(gated_declarations(&inline, &decls), vec![bspan(110, 115)]);
    assert!(gated_declarations(&[], &decls).is_empty());
}
