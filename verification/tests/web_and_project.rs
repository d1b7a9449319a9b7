use csharp_rust_migrator::cargo_project::{check_report, main_rs_source, CheckRun, CARGO_TOML};
use csharp_rust_migrator::web::{html_escape, render_result, AppState, JobTable};

#[test]
fn escapes_markup_characters() {
    assert_eq!(html_escape("a < b && c > \"d\" 'e'"), "a &lt; b &amp;&amp; c &gt; &quot;d&quot; 'e'");
    assert_eq!(html_escape(""), "");
    assert_eq!(html_escape("&lt;"), "&amp;lt;");
}

#[test]
fn escaped_text_has_no_tags() {
    let e = html_escape("<script>alert(\"x\")</script>");
    assert!(!e.contains('<') && !e.contains('>') && !e.contains('"'));
}

#[test]
fn escaping_matches_the_chain_of_replacements() {
    for s in ["", "plain", "&<>\"", "a&amp;b", "<<&>>\"\"'", "é & ü < ö"] {
        let chained = s.replace('&', "&amp;").replace('<', "&lt;").replace('>', "&gt;").replace('"', "&quot;");
        assert_eq!(html_escape(s), chained);
    }
}

#[test]
fn fills_the_result_template() {
    let page = render_result("<h1>{{NAME}}</h1><pre>{{SRC}}</pre><pre>{{OUTPUT}}</pre>{{NAME}}", "a<b>.cs", "class A {}", "pub struct A;");
    assert_eq!(page, "<h1>a&lt;b&gt;.cs</h1><pre>class A {}</pre><pre>pub struct A;</pre>a&lt;b&gt;.cs");
}

#[test]
fn placeholders_are_replaced_in_order() {
    // The name is substituted first, so a name that spells a later
    // placeholder is filled in as that placeholder.
    let page = render_result("{{NAME}}|{{OUTPUT}}", "{{SRC}}", "S", "O");
    assert_eq!(page, "S|O");
}

#[test]
fn job_table_serves_a_page_once() {
    let mut jobs = JobTable::new();
    jobs.insert("1".to_string(), "<p>one</p>".to_string());
    jobs.insert("2".to_string(), "<p>two</p>".to_string());
    jobs.insert("1".to_string(), "<p>uno</p>".to_string());
    assert_eq!(jobs.take("1"), Some("<p>uno</p>".to_string()));
    assert_eq!(jobs.take("1"), None);
    assert_eq!(jobs.take("3"), None);
    assert_eq!(jobs.take("2"), Some("<p>two</p>".to_string()));
}

#[test]
fn app_state_starts_empty() {
    let state = AppState::new();
    let shared = state.clone();
    assert_eq!(shared.jobs.lock().unwrap().take("anything"), None);
    state.jobs.lock().unwrap().insert("7".to_string(), "page".to_string());
    assert_eq!(shared.jobs.lock().unwrap().take("7"), Some("page".to_string()));
}

#[test]
fn main_rs_wraps_the_units() {
    let units = vec!["pub struct A;".to_string(), "pub enum B {}".to_string()];
    assert_eq!(
        main_rs_source(&units),
        "#![allow(dead_code)]\n\npub struct A;\n\npub enum B {}\n\nfn main() {\n    // entry point for the transpiled crate\n}\n"
    );
    assert!(CARGO_TOML.starts_with("[package]\nname = \"transpiled\"\n"));
    assert!(CARGO_TOML.ends_with("path = \"src/main.rs\"\n"));
}

#[test]
fn check_report_reads_cargo_outcome() {
    assert_eq!(check_report(CheckRun::Finished { success: true, stderr: b"warning".to_vec() }), (true, String::new()));
    assert_eq!(
        check_report(CheckRun::Finished { success: false, stderr: b"\n error[E0308]: mismatched types \n".to_vec() }),
        (false, "error[E0308]: mismatched types".to_string())
    );
    assert_eq!(
        check_report(CheckRun::Finished { success: false, stderr: vec![b'x', 0xff, b'y'] }),
        (false, "x\u{FFFD}y".to_string())
    );
    assert_eq!(
        check_report(CheckRun::NotStarted { message: "no such file".to_string() }),
        (false, "could not run cargo: no such file".to_string())
    );
}

#[test]
fn escaping_is_undone_by_reverse_replacements() {
    for s in ["a < b && c > \"d\"", "&amp;lt;", "plain", "", "&quot;\"&"] {
        let escaped = html_escape(s);
        let back = escaped.replace("&quot;", "\"").replace("&gt;", ">").replace("&lt;", "<").replace("&amp;", "&");
        assert_eq!(back, s);
    }
}

#[test]
fn new_state_has_an_empty_job_table() {
    let state = AppState::new();
    assert_eq!(std::sync::Arc::strong_count(&state.jobs), 1);
    let mut table = state.jobs.lock().unwrap();
    assert_eq!(table.take(""), None);
    assert_eq!(table.take("1"), None);
}
