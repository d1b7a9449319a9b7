use csharp_rust_migrator::llm::{
    clean, dotenv_value, env_key, finish_api_call, mock_translate, strip_fences, translate,
    user_prompt, ApiReply, ContentBlock, TranslateStep, MAX_TOKENS, SYSTEM_PROMPT,
};

#[test]
fn strips_a_rust_fence() {
    assert_eq!(strip_fences("  ```rust\npub struct A;\n```\n"), "pub struct A;");
    assert_eq!(strip_fences("```\nfn a() {}\n```trailing"), "fn a() {}");
}

#[test]
fn keeps_text_without_a_closing_fence() {
    assert_eq!(strip_fences("```rust\npub struct A;"), "```rust\npub struct A;");
    assert_eq!(strip_fences("```rust"), "```rust");
    assert_eq!(strip_fences("\n pub struct A; \n"), "pub struct A;");
}

#[test]
fn fence_search_uses_the_last_fence() {
    assert_eq!(strip_fences("```rust\nlet a = \"```\";\nb\n```"), "let a = \"```\";\nb");
}

#[test]
fn clean_removes_main_and_banned_imports() {
    let text = "use std::fmt;\nuse chrono::Utc;\n  use serde::{Serialize};\nuse tokio;\nuse randomness::x;\npub struct A;\n\nfn main() {\n    run();\n}\npub struct B;";
    assert_eq!(clean(text), "use std::fmt;\nuse randomness::x;\npub struct A;\n\n\npub struct B;");
}

#[test]
fn clean_keeps_main_without_closing_brace() {
    assert_eq!(clean("fn main() {"), "fn main() {");
    assert_eq!(clean("fn main()"), "fn main()");
    assert_eq!(clean("fn main() { }"), "");
    assert_eq!(clean("  use uuid;  \n\n"), "");
}

#[test]
fn clean_cuts_only_the_main_block() {
    assert_eq!(clean("fn main() {}\npub struct B {\n    x: i32,\n}"), "pub struct B {\n    x: i32,\n}");
    assert_eq!(
        clean("pub struct A;\nfn main() {\n    if x { y(); }\n    let v = {\n1 };\n}\npub fn f() {}"),
        "pub struct A;\n\npub fn f() {}"
    );
}

#[test]
fn mock_translator_knows_the_sample_units() {
    assert!(mock_translate("enum AccountType { Checking }", None).starts_with("#[derive(Debug, Clone, Copy)]\npub enum AccountType"));
    assert!(mock_translate("interface ITransactable {}", None).starts_with("pub trait ITransactable"));
    let account = mock_translate("class Account : ITransactable { public double Balance { get; set; } }", None);
    assert!(account.starts_with("pub struct Account {\npub id: i32,"));
    assert!(account.contains("impl ITransactable for Account {"));
    assert!(mock_translate("class Account {}", None).starts_with("pub struct Account"));
    assert_eq!(
        mock_translate("enum Status { Active, Inactive }", None),
        "#[derive(Debug, Clone, Copy)]\npub enum Status {\n    Active,\n    Inactive,\n}"
    );
    assert!(mock_translate("struct Point { }", Some("e")).starts_with("#[derive(Debug, Clone, Copy)]\npub struct Point"));
    assert_eq!(mock_translate("class Other {}", None), "// (mock) unhandled unit");
}

#[test]
fn mock_calculator_is_fixed_on_repair() {
    let first = mock_translate("class Calculator { }", None);
    let fixed = mock_translate("class Calculator { }", Some("error[E0308]"));
    assert!(first.contains("let r: i64 = (a + b) as i64;"));
    assert!(!fixed.contains("i64"));
    assert!(fixed.contains("a + b\n}"));
}

#[test]
fn prompt_without_context() {
    let p = user_prompt("class A {}", &Vec::new(), None, None);
    assert_eq!(
        p,
        "Already-translated Rust signatures (already in the output file \u{2014} do NOT redefine these):\n(none yet)\n\nTranslate ONLY this C# declaration to Rust. Output just the new item(s), nothing already listed above:\n```csharp\nclass A {}\n```"
    );
}

#[test]
fn prompt_with_context_and_errors() {
    let sigs = vec!["pub enum E".to_string(), "pub fn f()".to_string()];
    let p = user_prompt("class A {}", &sigs, Some("bad"), None);
    assert!(p.contains("these):\npub enum E\npub fn f()\n\nTranslate ONLY"));
    assert!(p.ends_with("```\n\nYour previous Rust output failed to compile. Fix these errors:\n```\nbad\n```\nOutput the corrected full Rust for this unit."));
}

#[test]
fn prompt_with_errors_carries_the_current_rust() {
    let p = user_prompt("class A {}", &Vec::new(), Some("bad"), Some("pub struct A;"));
    assert!(p.ends_with("```\n\nYour previous Rust output failed to compile. Fix these errors:\n```\nbad\n```\nThe current Rust for this unit:\n```rust\npub struct A;\n```\nOutput the corrected full Rust for this unit."));
    assert_eq!(user_prompt("class A {}", &Vec::new(), None, Some("pub struct A;")), user_prompt("class A {}", &Vec::new(), None, None));
}

#[test]
fn translate_without_key_runs_the_mock() {
    match translate("struct Point {}", &Vec::new(), None, None, None, "") {
        TranslateStep::Done(r) => assert!(r.starts_with("#[derive(Debug, Clone, Copy)]\npub struct Point")),
        TranslateStep::CallApi(_) => panic!("expected the mock"),
    }
}

#[test]
fn translate_with_key_builds_the_request() {
    match translate("class A {}", &Vec::new(), Some("oops"), Some("pub struct A;"), Some("sk-test".to_string()), "test-model") {
        TranslateStep::CallApi(req) => {
            assert_eq!(req.key, "sk-test");
            assert_eq!(req.model, "test-model");
            assert_eq!(req.max_tokens, MAX_TOKENS);
            assert_eq!(req.max_tokens, 2000);
            assert_eq!(req.system, SYSTEM_PROMPT);
            assert!(req.user.contains("```csharp\nclass A {}\n```"));
            assert!(req.user.contains("errors:\n```\noops\n```"));
            assert!(req.user.contains("```rust\npub struct A;\n```"));
        }
        TranslateStep::Done(_) => panic!("expected an API call"),
    }
}

#[test]
fn api_errors_are_reported() {
    assert_eq!(
        finish_api_call(ApiReply::Status { code: 429, detail: "slow down".to_string() }),
        Err("Anthropic API returned 429: slow down".to_string())
    );
    assert_eq!(
        finish_api_call(ApiReply::Status { code: 0, detail: String::new() }),
        Err("Anthropic API returned 0: ".to_string())
    );
    assert_eq!(
        finish_api_call(ApiReply::Transport { message: "dns".to_string() }),
        Err("request to Anthropic API failed: dns".to_string())
    );
    assert_eq!(
        finish_api_call(ApiReply::Unreadable { message: "eof".to_string() }),
        Err("reading Anthropic API response: eof".to_string())
    );
}

#[test]
fn api_reply_text_blocks_are_joined_and_cleaned() {
    let blocks = vec![
        ContentBlock { block_type: Some("text".to_string()), text: Some("```rust\npub struct A;\n".to_string()) },
        ContentBlock { block_type: Some("tool_use".to_string()), text: Some("ignored".to_string()) },
        ContentBlock { block_type: None, text: Some("ignored".to_string()) },
        ContentBlock { block_type: Some("text".to_string()), text: None },
        ContentBlock { block_type: Some("text".to_string()), text: Some("use serde::X;\nfn main() {\n}\n```".to_string()) },
    ];
    assert_eq!(finish_api_call(ApiReply::Body { content: Some(blocks) }), Ok("pub struct A;".to_string()));
    assert_eq!(finish_api_call(ApiReply::Body { content: None }), Ok(String::new()));
}

#[test]
fn blank_environment_key_does_not_count() {
    assert_eq!(env_key(None), None);
    assert_eq!(env_key(Some(" \t".to_string())), None);
    assert_eq!(env_key(Some(" k ".to_string())), Some(" k ".to_string()));
}

#[test]
fn dotenv_lookup() {
    let files = vec![
        "# comment\nOTHER=1\nANTHROPIC_API_KEY=\n".to_string(),
        "  ANTHROPIC_API_KEY = \"'sk-1'\"  \nANTHROPIC_API_KEY=sk-2".to_string(),
    ];
    assert_eq!(dotenv_value("ANTHROPIC_API_KEY", &files), Some("sk-1".to_string()));
    assert_eq!(dotenv_value("MISSING", &files), None);
    assert_eq!(dotenv_value("OTHER", &files), Some("1".to_string()));
    assert_eq!(dotenv_value("A", &vec!["#A=1\nA==b=c".to_string()]), Some("=b=c".to_string()));
    assert_eq!(dotenv_value("A", &Vec::new()), None);
}
