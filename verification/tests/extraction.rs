use csharp_rust_migrator::extractor::{listing_in_bounds, listing_nests, sort_units, units_from_syntax, CSharpExtractor, SyntaxNode, Unit};

const README_INPUT: &str = "enum Status { Active, Inactive, Pending }

interface IGreeter {
    string Greet(string name);
    void Reset();
}

class User {
    public int Id { get; set; }
    public string Name { get; set; }
    public bool IsActive { get; set; }

    public string Greet(string greeting) { }
    public int AddPoints(int amount) { }
}
";

fn node(kind: &str, start: usize, end: usize, depth: usize) -> SyntaxNode {
    SyntaxNode { kind: kind.to_string(), start, end, depth }
}

fn unit(kind: &str, name: &str, source: &str, start: usize) -> Unit {
    Unit { kind: kind.to_string(), name: name.to_string(), source: source.to_string(), start }
}

#[test]
fn parses_readme_example_into_three_units() {
    let mut ex = CSharpExtractor::new();
    let units = ex.parse(README_INPUT);
    let names: Vec<&str> = units.iter().map(|u| u.name.as_str()).collect();
    let kinds: Vec<&str> = units.iter().map(|u| u.kind.as_str()).collect();
    assert_eq!(names, vec!["Status", "IGreeter", "User"]);
    assert_eq!(kinds, vec!["enum_declaration", "interface_declaration", "class_declaration"]);
    assert_eq!(units[0].source, "enum Status { Active, Inactive, Pending }");
    assert_eq!(units[0].start, 0);
    assert!(units[2].source.starts_with("class User {"));
    assert!(units[2].source.ends_with('}'));
    assert!(units[0].start < units[1].start && units[1].start < units[2].start);
}

#[test]
fn class_methods_travel_with_their_class() {
    let mut ex = CSharpExtractor::new();
    let units = ex.parse("namespace App {\n    class Calculator {\n        int Add(int a, int b) { return a + b; }\n    }\n}\n");
    assert_eq!(units.len(), 1);
    assert_eq!(units[0].kind, "class_declaration");
    assert_eq!(units[0].name, "Calculator");
    assert!(units[0].source.contains("int Add"));
}

#[test]
fn record_and_struct_declarations_are_units() {
    let mut ex = CSharpExtractor::new();
    let units = ex.parse("struct Point { public int X; }\nrecord Person(string Name);\n");
    let kinds: Vec<&str> = units.iter().map(|u| u.kind.as_str()).collect();
    assert_eq!(kinds, vec!["struct_declaration", "record_declaration"]);
    assert_eq!(units[0].name, "Point");
    assert_eq!(units[1].name, "Person");
}

#[test]
fn empty_source_has_no_units() {
    let mut ex = CSharpExtractor::new();
    assert!(ex.parse("").is_empty());
    assert!(ex.parse("// nothing here\n").is_empty());
}

#[test]
fn non_ascii_source_keeps_exact_text() {
    let mut ex = CSharpExtractor::new();
    let src = "// héllo\nclass Café { }\n";
    let units = ex.parse(src);
    assert_eq!(units.len(), 1);
    assert_eq!(units[0].name, "Café");
    assert_eq!(units[0].source, "class Café { }");
    assert_eq!(units[0].start, src.find("class").unwrap());
}

#[test]
fn listing_captures_outermost_units_only() {
    // compilation_unit
    //   class_declaration "class A { void M() {} }"
    //     identifier "A"
    //     method_declaration "void M() {}"
    //       identifier "M"
    //   enum_declaration "enum E"  (no identifier child)
    let code = "class A { void M() {} } enum E";
    let nodes = vec![
        node("compilation_unit", 0, 30, 0),
        node("class_declaration", 0, 23, 1),
        node("identifier", 6, 7, 2),
        node("method_declaration", 10, 21, 2),
        node("identifier", 15, 16, 3),
        node("enum_declaration", 24, 30, 1),
    ];
    let units = units_from_syntax(&nodes, code);
    assert_eq!(units.len(), 2);
    assert_eq!(units[0].kind, "class_declaration");
    assert_eq!(units[0].name, "A");
    assert_eq!(units[0].source, "class A { void M() {} }");
    assert_eq!(units[0].start, 0);
    assert_eq!(units[1].kind, "enum_declaration");
    assert_eq!(units[1].name, "<anonymous>");
    assert_eq!(units[1].source, "enum E");
}

#[test]
fn name_is_a_direct_child_identifier() {
    // The identifier two levels down is not the unit's name.
    let code = "interface I { x }";
    let nodes = vec![
        node("compilation_unit", 0, 17, 0),
        node("interface_declaration", 0, 17, 1),
        node("declaration_list", 12, 17, 2),
        node("identifier", 14, 15, 3),
    ];
    let units = units_from_syntax(&nodes, code);
    assert_eq!(units.len(), 1);
    assert_eq!(units[0].name, "<anonymous>");
}

#[test]
fn invalid_utf8_inside_a_range_is_replaced() {
    // A range that splits a two-byte character yields U+FFFD, as
    // `String::from_utf8_lossy` does.
    let code = "é";
    let nodes = vec![node("method_declaration", 0, 1, 0)];
    let units = units_from_syntax(&nodes, code);
    assert_eq!(units.len(), 1);
    assert_eq!(units[0].source, "\u{FFFD}");
}

#[test]
fn units_are_ordered_by_start() {
    let code = "abcdef";
    let nodes = vec![
        node("compilation_unit", 0, 6, 0),
        node("method_declaration", 4, 6, 1),
        node("method_declaration", 0, 2, 1),
    ];
    let units = units_from_syntax(&nodes, code);
    assert_eq!(units.len(), 2);
    assert_eq!(units[0].source, "ab");
    assert_eq!(units[1].source, "ef");
}

#[test]
fn sort_by_kind_is_stable() {
    let units = vec![
        unit("method_declaration", "m1", "", 0),
        unit("class_declaration", "C", "", 1),
        unit("enum_declaration", "E1", "", 2),
        unit("record_declaration", "R", "", 3),
        unit("enum_declaration", "E2", "", 4),
        unit("struct_declaration", "S", "", 5),
        unit("interface_declaration", "I", "", 6),
        unit("method_declaration", "m2", "", 7),
    ];
    let sorted = sort_units(units, true);
    let names: Vec<&str> = sorted.iter().map(|u| u.name.as_str()).collect();
    assert_eq!(names, vec!["E1", "E2", "R", "S", "I", "C", "m1", "m2"]);
}

#[test]
fn sort_by_start_is_stable() {
    let units = vec![unit("a", "x", "", 5), unit("b", "y", "", 1), unit("c", "z", "", 5)];
    let sorted = sort_units(units, false);
    let names: Vec<&str> = sorted.iter().map(|u| u.name.as_str()).collect();
    assert_eq!(names, vec!["y", "x", "z"]);
}

#[test]
fn listing_bounds_are_checked() {
    let nodes = vec![node("compilation_unit", 0, 4, 0), node("identifier", 1, 3, 1)];
    assert!(listing_in_bounds(&nodes, 4));
    assert!(!listing_in_bounds(&nodes, 3));
    assert!(!listing_in_bounds(&vec![node("x", 2, 1, 0)], 5));
    assert!(listing_in_bounds(&Vec::new(), 0));
}

#[test]
fn listing_nesting_is_checked() {
    let good = vec![
        node("compilation_unit", 0, 20, 0),
        node("class_declaration", 0, 10, 1),
        node("identifier", 6, 7, 2),
        node("class_declaration", 11, 20, 1),
    ];
    assert!(listing_nests(&good));
    let child_outside = vec![node("compilation_unit", 0, 10, 0), node("identifier", 5, 12, 1)];
    assert!(!listing_nests(&child_outside));
    let siblings_overlap = vec![
        node("compilation_unit", 0, 20, 0),
        node("class_declaration", 0, 10, 1),
        node("class_declaration", 9, 20, 1),
    ];
    assert!(!listing_nests(&siblings_overlap));
    assert!(listing_nests(&Vec::new()));
}

#[test]
fn parsed_units_do_not_overlap() {
    let mut ex = CSharpExtractor::new();
    let src = "namespace App {\n    class A { void F() {} }\n    struct B { int x; }\n}\nenum C { X }\ninterface I { void G(); }\n";
    let units = ex.parse(src);
    assert_eq!(units.len(), 4);
    for pair in units.windows(2) {
        assert!(pair[0].start + pair[0].source.len() <= pair[1].start);
    }
    for u in &units {
        assert_eq!(&src[u.start..u.start + u.source.len()], u.source);
    }
}
