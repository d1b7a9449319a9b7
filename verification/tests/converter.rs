use csharp_rust_migrator::converter::{brace_delta, extract_rust_signatures, failure_comment, kind_order, rust_module_body};

#[test]
fn kind_order_ranks_types_before_methods() {
    assert_eq!(kind_order("enum_declaration"), 0);
    assert_eq!(kind_order("struct_declaration"), 1);
    assert_eq!(kind_order("record_declaration"), 1);
    assert_eq!(kind_order("interface_declaration"), 2);
    assert_eq!(kind_order("class_declaration"), 3);
    assert_eq!(kind_order("method_declaration"), 4);
    assert_eq!(kind_order("namespace_declaration"), 99);
    assert_eq!(kind_order(""), 99);
}

#[test]
fn type_items_keep_their_whole_block() {
    let rust = "#[derive(Debug)]\npub struct Point {\n    pub x: i32,\n    pub y: i32,\n}\n\nimpl Point {\n    pub fn norm(&self) -> i32 {\n        self.x\n    }\n}";
    let sigs = extract_rust_signatures(rust);
    assert_eq!(
        sigs,
        vec![
            "pub struct Point {\n    pub x: i32,\n    pub y: i32,\n}".to_string(),
            "pub fn norm(&self) -> i32".to_string(),
        ]
    );
}

#[test]
fn one_line_items_and_unit_structs() {
    let rust = "pub struct Marker;\npub type Id = u32;\npub enum E { A, B }\nfn private() {}\n  pub fn  spaced() {{\n";
    let sigs = extract_rust_signatures(rust);
    assert_eq!(
        sigs,
        vec![
            "pub struct Marker;".to_string(),
            "pub type Id = u32;".to_string(),
            "pub enum E { A, B }".to_string(),
            "pub fn  spaced()".to_string(),
        ]
    );
}

#[test]
fn unterminated_block_runs_to_the_end() {
    let rust = "pub trait T {\n    fn a(&self);\n\n";
    let sigs = extract_rust_signatures(rust);
    assert_eq!(sigs, vec!["pub trait T {\n    fn a(&self);\n".to_string()]);
}

#[test]
fn crlf_lines_are_split_like_str_lines() {
    let rust = "pub fn a() {\r\n}\r\npub fn b()\r";
    let sigs = extract_rust_signatures(rust);
    assert_eq!(sigs, vec!["pub fn a()".to_string(), "pub fn b()".to_string()]);
}

#[test]
fn no_signatures_in_plain_code() {
    assert!(extract_rust_signatures("").is_empty());
    assert!(extract_rust_signatures("fn main() {}\nimpl X {}\n").is_empty());
}

#[test]
fn module_body_joins_with_blank_lines_and_trims() {
    let units = vec!["\n  enum A {}".to_string(), "struct B;".to_string(), "fn c() {}\n\n".to_string()];
    assert_eq!(rust_module_body(&units), "enum A {}\n\nstruct B;\n\nfn c() {}");
    assert_eq!(rust_module_body(&Vec::new()), "");
}

#[test]
fn failure_comment_comments_every_line() {
    assert_eq!(
        failure_comment("writing cargo project: denied\nsecond line"),
        "// C# -> Rust conversion failed:\n// writing cargo project: denied\n// second line\n"
    );
    assert_eq!(failure_comment(""), "// C# -> Rust conversion failed:\n// \n");
    for line in failure_comment("a\n\nb\n").lines() {
        assert!(line.starts_with("//"));
    }
}


#[test]
fn signatures_of_joined_snippets_split_over_the_parts() {
    let a = "pub struct A {\n    x: i32,\n}\npub fn f() {";
    let b = "pub enum E {\n    X,\n}\nfn private() {}";
    let joined = format!("{a}\n{b}");
    let mut expected = extract_rust_signatures(a);
    expected.extend(extract_rust_signatures(b));
    assert_eq!(extract_rust_signatures(&joined), expected);
    assert_eq!(expected, vec!["pub struct A {\n    x: i32,\n}", "pub fn f()", "pub enum E {\n    X,\n}"]);
    let a2 = "pub trait T {\n";
    let joined2 = format!("{a2}\n{b}");
    assert_ne!(extract_rust_signatures(&joined2).len(), extract_rust_signatures(a2).len() + extract_rust_signatures(b).len());
}

#[test]
fn brace_delta_counts_and_adds() {
    assert_eq!(brace_delta("impl A { fn f() {"), 2);
    assert_eq!(brace_delta("}"), -1);
    assert_eq!(brace_delta(""), 0);
    assert_eq!(brace_delta("{ \"}\" }"), -1);
    let a = "impl A { fn f() {";
    let b = "} }";
    assert_eq!(brace_delta(&format!("{a}{b}")), brace_delta(a) + brace_delta(b));
}
