//! The Cargo project in which the translated units are checked: its files,
//! and the reading of `cargo check`'s outcome.
use vstd::prelude::*;
use crate::text::{join, join_strings, text_of_bytes, trim, trimmed, utf8_lossy, views};

verus! {

/// The manifest of the project that holds the translation.
pub const CARGO_TOML: &'static str = "[package]\nname = \"transpiled\"\nversion = \"0.1.0\"\nedition = \"2021\"\n\n[[bin]]\nname = \"transpiled\"\npath = \"src/main.rs\"\n";

/// The `src/main.rs` of the project: the units separated by blank lines,
/// under `#![allow(dead_code)]` and followed by an empty `main`.
pub open spec fn main_rs_text(units: Seq<Seq<char>>) -> Seq<char> {
    "#![allow(dead_code)]\n\n"@ + join(units, "\n\n"@)
        + "\n\nfn main() {\n    // entry point for the transpiled crate\n}\n"@
}

/// The `src/main.rs` of the project that holds the translated units.
pub fn main_rs_source(rust_units: &Vec<String>) -> (out: String)
    ensures
        out@ == main_rs_text(views(rust_units@)),
{
    let mut out = String::new();
    out.append("#![allow(dead_code)]\n\n");
    let body = join_strings(rust_units, "\n\n");
    out.append(body.as_str());
    out.append("\n\nfn main() {\n    // entry point for the transpiled crate\n}\n");
    out
}

/// How a run of `cargo check` went.
pub enum CheckRun {
    /// cargo ran; whether it exited successfully, and what it wrote to stderr.
    Finished { success: bool, stderr: Vec<u8> },
    /// cargo could not be started; the reason.
    NotStarted { message: String },
}

/// Whether the check passed, and the errors to feed back when it did not.
pub open spec fn check_outcome(run: CheckRun) -> (bool, Seq<char>) {
    match run {
        CheckRun::Finished { success, stderr } => if success {
            (true, Seq::<char>::empty())
        } else {
            (false, trim(utf8_lossy(stderr@)))
        },
        CheckRun::NotStarted { message } => (false, "could not run cargo: "@ + message@),
    }
}

/// Reads the outcome of `cargo check`: success with no error text, or the
/// trimmed compiler output (or the reason cargo did not run).
pub fn check_report(run: CheckRun) -> (r: (bool, String))
    ensures
        (r.0, r.1@) == check_outcome(run),
{
    match run {
        CheckRun::Finished { success, stderr } => {
            if success {
                (true, String::new())
            } else {
                let text = text_of_bytes(stderr.as_slice());
                (false, trimmed(text.as_str()))
            }
        },
        CheckRun::NotStarted { message } => {
            let mut out = String::new();
            out.append("could not run cargo: ");
            out.append(message.as_str());
            (false, out)
        },
    }
}

} // verus!
