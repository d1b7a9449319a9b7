use csharp_rust_migrator::extractor::Unit;
use csharp_rust_migrator::llm::{mock_translate, translate, TranslateStep};
use csharp_rust_migrator::pipeline::{Migration, Outcome, Progress, Request, Step, MAX_REPAIRS};

const SAMPLE: &str = "public class Calculator {
    public int Total;
    public int Add(int a, int b) { return a + b; }
}

public enum Status { Active, Inactive }

public struct Point { public int X; public int Y; }
";

/// Drives a pipeline with the mock translator; `check` answers each
/// `cargo check` (None: cargo is not installed).
fn drive(src: &str, mut check: impl FnMut(&str, usize) -> Option<(bool, String)>) -> (String, Vec<Progress>, Vec<Request>) {
    let (mut m, first) = Migration::start(src);
    let mut progress = first.progress;
    let mut requests = Vec::new();
    let mut request = first.request;
    let mut checks = 0;
    loop {
        let outcome = match &request {
            Request::Translate { source, known_signatures, prior_errors, prior_rust } => {
                match translate(source, known_signatures, prior_errors.as_deref(), prior_rust.as_deref(), None, "") {
                    TranslateStep::Done(r) => Outcome::Translated(Ok(r)),
                    TranslateStep::CallApi(_) => unreachable!(),
                }
            }
            Request::ProbeCargo => Outcome::CargoAvailable(check("", 0).is_some()),
            Request::Check { main_rs } => {
                checks += 1;
                let (ok, errors) = check(main_rs, checks).unwrap();
                Outcome::Checked { ok, errors }
            }
            Request::Finish { output } => return (output.clone(), progress, requests),
        };
        requests.push(request);
        let Step { progress: p, request: next } = m.advance(outcome);
        progress.extend(p);
        request = next;
    }
}

#[test]
fn translates_types_before_classes_without_cargo() {
    let (output, progress, requests) = drive(SAMPLE, |_, _| None);
    let expected = vec![
        mock_translate("enum Status", None),
        mock_translate("struct Point", None),
        mock_translate("class Calculator", None),
    ]
    .join("\n\n");
    assert_eq!(output, expected);
    match &progress[0] {
        Progress::Extracted { units } => {
            let names: Vec<&str> = units.iter().map(|(n, _)| n.as_str()).collect();
            assert_eq!(names, vec!["Status", "Point", "Calculator"]);
        }
        _ => panic!("first report should list the units"),
    }
    assert!(matches!(progress.last(), Some(Progress::CheckSkipped)));
    assert!(matches!(progress[progress.len() - 2], Progress::Assembling));
    assert_eq!(requests.len(), 4);
}

#[test]
fn known_signatures_grow_with_each_translation() {
    let (_, _, requests) = drive(SAMPLE, |_, _| None);
    let contexts: Vec<Vec<String>> = requests
        .iter()
        .filter_map(|r| match r {
            Request::Translate { known_signatures, .. } => Some(known_signatures.clone()),
            _ => None,
        })
        .collect();
    assert_eq!(contexts[0], Vec::<String>::new());
    assert_eq!(contexts[1], vec!["pub enum Status {\n    Active,\n    Inactive,\n}".to_string()]);
    assert_eq!(
        contexts[2],
        vec![
            "pub enum Status {\n    Active,\n    Inactive,\n}".to_string(),
            "pub struct Point {\n    pub x: i32,\n    pub y: i32,\n}".to_string(),
        ]
    );
}

#[test]
fn failed_check_triggers_a_repair_pass() {
    let (output, progress, requests) = drive(SAMPLE, |main_rs, n| {
        if n == 0 {
            return Some((true, String::new()));
        }
        if main_rs.contains("as i64") {
            Some((false, "error[E0308]: mismatched types".to_string()))
        } else {
            Some((true, String::new()))
        }
    });
    assert!(output.contains("pub fn add(&self, a: i32, b: i32) -> i32 {\na + b\n}"));
    assert!(!output.contains("i64"));
    let repairs: Vec<&Option<String>> = requests
        .iter()
        .filter_map(|r| match r {
            Request::Translate { prior_errors, .. } => Some(prior_errors),
            _ => None,
        })
        .collect();
    assert_eq!(repairs.len(), 6);
    assert!(repairs[..3].iter().all(|e| e.is_none()));
    assert!(repairs[3..].iter().all(|e| e.as_deref() == Some("error[E0308]: mismatched types")));
    let checks: Vec<(bool, usize, Option<bool>)> = progress
        .iter()
        .filter_map(|p| match p {
            Progress::Checked { ok, attempt, last } => Some((*ok, *attempt, *last)),
            _ => None,
        })
        .collect();
    assert_eq!(checks, vec![(false, 1, Some(false)), (true, 2, None)]);
    let current: Vec<&Option<String>> = requests
        .iter()
        .filter_map(|r| match r {
            Request::Translate { prior_rust, .. } => Some(prior_rust),
            _ => None,
        })
        .collect();
    assert!(current[..3].iter().all(|r| r.is_none()));
    assert_eq!(current[3].as_deref(), Some(mock_translate("enum Status", None).as_str()));
    assert_eq!(current[4].as_deref(), Some(mock_translate("struct Point", None).as_str()));
    assert_eq!(current[5].as_deref(), Some(mock_translate("class Calculator", None).as_str()));
}

#[test]
fn repairs_stop_after_max_checks() {
    let (output, progress, requests) = drive(SAMPLE, |_, n| {
        if n == 0 {
            Some((true, String::new()))
        } else {
            Some((false, "still broken".to_string()))
        }
    });
    let attempts: Vec<usize> = progress
        .iter()
        .filter_map(|p| match p {
            Progress::Checked { attempt, .. } => Some(*attempt),
            _ => None,
        })
        .collect();
    assert_eq!(attempts, vec![1, 2, 3, 4]);
    assert_eq!(MAX_REPAIRS, 3);
    assert!(matches!(progress.last(), Some(Progress::Checked { ok: false, attempt: 4, last: Some(true) })));
    let lasts: Vec<Option<bool>> = progress
        .iter()
        .filter_map(|p| match p {
            Progress::Checked { last, .. } => Some(*last),
            _ => None,
        })
        .collect();
    assert_eq!(lasts, vec![Some(false), Some(false), Some(false), Some(true)]);
    let repair_rounds = requests
        .iter()
        .filter(|r| matches!(r, Request::Translate { prior_errors: Some(_), .. }))
        .count();
    assert_eq!(repair_rounds, 3 * MAX_REPAIRS);
    assert!(output.starts_with("#[derive(Debug, Clone, Copy)]\npub enum Status"));
}

#[test]
fn translation_error_ends_with_a_comment() {
    let unit = Unit { kind: "class_declaration".to_string(), name: "A".to_string(), source: "class A {}".to_string(), start: 0 };
    let (mut m, first) = Migration::new(vec![unit]);
    assert!(matches!(first.request, Request::Translate { .. }));
    let step = m.advance(Outcome::Translated(Err("Anthropic API returned 401: bad key".to_string())));
    match step.request {
        Request::Finish { output } => {
            assert_eq!(output, "// C# -> Rust conversion failed:\n// Anthropic API returned 401: bad key\n")
        }
        _ => panic!("expected the end"),
    }
    assert!(matches!(&step.progress[..], [Progress::Failed { message }] if message == "Anthropic API returned 401: bad key"));
}

#[test]
fn write_failure_ends_with_a_comment() {
    let (mut m, first) = Migration::new(Vec::new());
    assert!(matches!(first.request, Request::ProbeCargo));
    assert_eq!(first.progress.len(), 2);
    let step = m.advance(Outcome::CargoAvailable(true));
    match &step.request {
        Request::Check { main_rs } => assert_eq!(main_rs, "#![allow(dead_code)]\n\n\n\nfn main() {\n    // entry point for the transpiled crate\n}\n"),
        _ => panic!("expected a check"),
    }
    let step = m.advance(Outcome::WriteFailed("permission denied".to_string()));
    match step.request {
        Request::Finish { output } => assert_eq!(output, "// C# -> Rust conversion failed:\n// writing cargo project: permission denied\n"),
        _ => panic!("expected the end"),
    }
}

#[test]
fn empty_source_checks_again_after_a_failure() {
    let (mut m, _) = Migration::new(Vec::new());
    m.advance(Outcome::CargoAvailable(true));
    let step = m.advance(Outcome::Checked { ok: false, errors: "e".to_string() });
    assert!(matches!(step.request, Request::Check { .. }));
    let step = m.advance(Outcome::Checked { ok: true, errors: String::new() });
    match step.request {
        Request::Finish { output } => assert_eq!(output, ""),
        _ => panic!("expected the end"),
    }
}

const BANK: &str = "using System;

public class Account : ITransactable {
    public int Id { get; set; }
    public void Deposit(double amount) { }
}

public interface ITransactable {
    void Deposit(double amount);
}

public enum AccountType { Checking, Savings, Credit }
";

#[test]
fn bank_sample_converts_offline() {
    let (output, progress, _) = drive(BANK, |_, _| None);
    let expected = vec![
        mock_translate("enum AccountType", None),
        mock_translate("interface ITransactable", None),
        mock_translate("class Account", None),
    ]
    .join("\n\n");
    assert_eq!(output, expected);
    let translated: Vec<(String, usize)> = progress
        .iter()
        .filter_map(|p| match p {
            Progress::Translated { name, chars, .. } => Some((name.clone(), *chars)),
            _ => None,
        })
        .collect();
    assert_eq!(translated[0].0, "AccountType");
    assert_eq!(translated[0].1, mock_translate("enum AccountType", None).len());
    assert_eq!(translated[1].0, "ITransactable");
    assert_eq!(translated[2].0, "Account");
    let sigs: Vec<usize> = progress
        .iter()
        .filter_map(|p| match p {
            Progress::Translated { signatures, .. } => Some(*signatures),
            _ => None,
        })
        .collect();
    assert_eq!(sigs, vec![1, 1, 2]);
}
