//! The translation step: the prompt sent to the language model, the handling
//! of its reply (fence stripping and clean-up of what the model should not
//! emit), the offline mock translator, and the API-key lookup rules.
use vstd::prelude::*;
use crate::text::{
    chars_of, contains, find, find_at_or_after, find_from, find_last, has_substring, join,
    join_strings, lines, line_bounds, range_starts_with, range_texts, ranges_within, rfind,
    same_text, skip_ws_forward, starts_with, string_of, trim, trim_bounds, trim_start,
    trimmed, views, is_ws, is_ws_char, trim_char, skip_char_forward, skip_char_backward,
};

verus! {

/// The largest reply, in tokens, the live translator asks for.
pub const MAX_TOKENS: u32 = 2000;

/// The system prompt of the live translator.
pub const SYSTEM_PROMPT: &'static str = "You are a C#-to-Rust transpiler. You translate ONE C# declaration at a time into idiomatic, compilable Rust.\n\nRules:\n- Output ONLY Rust code. No prose, no markdown fences, no explanations.\n- Map C# classes to `struct` + `impl`. Interfaces to `trait`. Enums to `enum`.\n- Map exceptions to `Result<T, E>`, LINQ to iterator chains, `null` to `Option`.\n- Use snake_case for fields/methods, PascalCase for types.\n- ONLY use the Rust standard library (`std`). Do NOT import or use any external\n  crates (no chrono, no serde, no tokio, etc.). Use `std::time::SystemTime` for\n  dates, `f64` for decimals.\n- Do NOT emit `fn main()`. Do NOT redefine types that appear in the already-\n  translated signatures list \u{2014} those are already present in the final file.\n- If a referenced type is not yet defined, assume it will exist; do not redefine it.\n- Do not include `use` imports for types you are not directly using in this unit.\n";

pub const ACCOUNT_TYPE_RUST: &'static str = "#[derive(Debug, Clone, Copy)]\npub enum AccountType {\nChecking,\nSavings,\nCredit,\n}";

pub const TRANSACTABLE_RUST: &'static str = "pub trait ITransactable {\nfn deposit(&mut self, amount: f64);\nfn withdraw(&mut self, amount: f64) -> bool;\n}";

pub const ACCOUNT_RUST: &'static str = "pub struct Account {\npub id: i32,\npub owner: String,\npub balance: f64,\npub is_frozen: bool,\n}\n\nimpl ITransactable for Account {\nfn deposit(&mut self, amount: f64) {\nself.balance += amount;\n}\n\nfn withdraw(&mut self, amount: f64) -> bool {\nif self.is_frozen || self.balance < amount { return false; }\nself.balance -= amount;\ntrue\n}\n}\n\nimpl Account {\npub fn get_balance(&self) -> f64 {\nself.balance\n}\n}";

pub const STATUS_RUST: &'static str = "#[derive(Debug, Clone, Copy)]\npub enum Status {\n    Active,\n    Inactive,\n}";

pub const POINT_RUST: &'static str = "#[derive(Debug, Clone, Copy)]\npub struct Point {\n    pub x: i32,\n    pub y: i32,\n}";

/// The mock's first translation of `Calculator`: `add` returns an `i64`
/// where an `i32` is declared, so that the repair loop has work to do.
pub const CALCULATOR_FIRST_RUST: &'static str = "pub struct Calculator {\npub total: i32,\npub name: String,\n}\n\nimpl Calculator {\npub fn add(&self, a: i32, b: i32) -> i32 {\nlet r: i64 = (a + b) as i64;\nr\n}\n\npub fn sum(&self, values: &[i32]) -> i32 {\nvalues.iter().sum()\n}\n}";

/// The mock's repaired translation of `Calculator`.
pub const CALCULATOR_FIXED_RUST: &'static str = "pub struct Calculator {\npub total: i32,\npub name: String,\n}\n\nimpl Calculator {\npub fn add(&self, a: i32, b: i32) -> i32 {\na + b\n}\n\npub fn sum(&self, values: &[i32]) -> i32 {\nvalues.iter().sum()\n}\n}";

pub const UNHANDLED_RUST: &'static str = "// (mock) unhandled unit";

/// What the offline mock translator answers for a C# unit: a fixed
/// translation chosen by the first marker that the source contains (a class
/// `Account` is recognised before the interface it implements, so that the
/// sample yields compilable Rust), the deliberately broken `Calculator`
/// unless this is a repair attempt.
pub open spec fn mock_rust(src: Seq<char>, repairing: bool) -> Seq<char> {
    if contains(src, "enum AccountType"@) {
        ACCOUNT_TYPE_RUST@
    } else if contains(src, "class Account"@) {
        ACCOUNT_RUST@
    } else if contains(src, "ITransactable"@) {
        TRANSACTABLE_RUST@
    } else if contains(src, "enum Status"@) {
        STATUS_RUST@
    } else if contains(src, "struct Point"@) {
        POINT_RUST@
    } else if contains(src, "class Calculator"@) {
        if repairing {
            CALCULATOR_FIXED_RUST@
        } else {
            CALCULATOR_FIRST_RUST@
        }
    } else {
        UNHANDLED_RUST@
    }
}

fn owned(s: &str) -> (out: String)
    ensures
        out@ == s@,
{
    let mut out = String::new();
    out.append(s);
    out
}

/// The offline translator used when no API key is configured.
pub fn mock_translate(csharp_source: &str, prior_errors: Option<&str>) -> (out: String)
    ensures
        out@ == mock_rust(csharp_source@, prior_errors is Some),
{
    let s = chars_of(csharp_source);
    if has_substring(&s, &chars_of("enum AccountType")) {
        owned(ACCOUNT_TYPE_RUST)
    } else if has_substring(&s, &chars_of("class Account")) {
        owned(ACCOUNT_RUST)
    } else if has_substring(&s, &chars_of("ITransactable")) {
        owned(TRANSACTABLE_RUST)
    } else if has_substring(&s, &chars_of("enum Status")) {
        owned(STATUS_RUST)
    } else if has_substring(&s, &chars_of("struct Point")) {
        owned(POINT_RUST)
    } else if has_substring(&s, &chars_of("class Calculator")) {
        if prior_errors.is_none() {
            owned(CALCULATOR_FIRST_RUST)
        } else {
            owned(CALCULATOR_FIXED_RUST)
        }
    } else {
        owned(UNHANDLED_RUST)
    }
}

// ---------------------------------------------------------------------------
// Clean-up of the model's reply
// ---------------------------------------------------------------------------

/// The reply without the Markdown fence the model may wrap it in: after
/// trimming, a reply that opens with three backticks loses its first line and
/// everything from its last three backticks on, and is trimmed again.
pub open spec fn fences_stripped(text: Seq<char>) -> Seq<char> {
    let t = trim(text);
    if starts_with(t, "```"@) {
        match find(t, "\n"@) {
            Some(nl) => {
                let after = t.subrange(nl + 1, t.len() as int);
                match rfind(after, "```"@) {
                    Some(end) => trim(after.subrange(0, end)),
                    None => t,
                }
            },
            None => t,
        }
    } else {
        t
    }
}

/// The characters `cs[from..to]` as a vector.
fn sub_chars(cs: &Vec<char>, from: usize, to: usize) -> (out: Vec<char>)
    requires
        from <= to <= cs@.len(),
    ensures
        out@ == cs@.subrange(from as int, to as int),
{
    let mut out: Vec<char> = Vec::new();
    let mut i = from;
    while i < to
        invariant
            from <= i <= to <= cs@.len(),
            out@ == cs@.subrange(from as int, i as int),
        decreases to - i,
    {
        out.push(cs[i]);
        i += 1;
    }
    out
}

/// Removes a Markdown code fence around the model's reply.
pub fn strip_fences(text: &str) -> (out: String)
    ensures
        out@ == fences_stripped(text@),
{
    proof {
        reveal_strlit("```");
        reveal_strlit("\n");
    }
    let t = trimmed(text);
    let tc = chars_of(t.as_str());
    let fence = chars_of("```");
    if range_starts_with(&tc, 0, tc.len(), &fence) {
        assert(tc@.subrange(0, tc@.len() as int) =~= tc@);
        if let Some(nl) = find_at_or_after(&tc, &chars_of("\n"), 0) {
            proof {
                crate::text::lemma_find_from(tc@, "\n"@, 0);
            }
            let after = sub_chars(&tc, nl + 1, tc.len());
            if let Some(end) = find_last(&after, &fence) {
                proof {
                    crate::text::lemma_rfind_upto(after@, "```"@, after@.len() - 3);
                }
                let inner = string_of(&after, 0, end);
                return trimmed(inner.as_str());
            }
        }
    } else {
        assert(tc@.subrange(0, tc@.len() as int) =~= tc@);
    }
    t
}

/// The names of crates whose imports are removed from the model's reply.
pub open spec fn banned_crate(root: Seq<char>) -> bool {
    ||| root == "chrono"@
    ||| root == "serde"@
    ||| root == "tokio"@
    ||| root == "rand"@
    ||| root == "anyhow"@
    ||| root == "thiserror"@
    ||| root == "uuid"@
}

/// A character that ends the crate name of a `use` line.
pub open spec fn ends_path_root(c: char) -> bool {
    c == ':' || c == ';' || is_ws(c)
}

/// The leading part of `s` before the first path separator, `;` or whitespace.
pub open spec fn path_root(s: Seq<char>) -> Seq<char>
    decreases s.len(),
{
    if s.len() == 0 || ends_path_root(s[0]) {
        seq![]
    } else {
        seq![s[0]] + path_root(s.drop_first())
    }
}

/// A line that survives clean-up: anything but a `use` of a banned crate.
pub open spec fn keeps_line(line: Seq<char>) -> bool {
    let t = trim_start(line);
    !(starts_with(t, "use "@) && banned_crate(path_root(t.subrange(4, t.len() as int))))
}

/// The lines that survive clean-up, in order.
pub open spec fn kept_lines(ls: Seq<Seq<char>>) -> Seq<Seq<char>>
    decreases ls.len(),
{
    if ls.len() == 0 {
        seq![]
    } else {
        kept_lines(ls.drop_last()) + if keeps_line(ls.last()) {
            seq![ls.last()]
        } else {
            seq![]
        }
    }
}

/// The index of the `}` that closes a block, scanning from `j` with `depth`
/// blocks open (`None` when the text ends first).
pub open spec fn block_close(s: Seq<char>, j: int, depth: nat) -> Option<int>
    decreases s.len() - j,
{
    if j < 0 || j >= s.len() {
        None
    } else if s[j] == '}' {
        if depth <= 1 {
            Some(j)
        } else {
            block_close(s, j + 1, (depth - 1) as nat)
        }
    } else if s[j] == '{' {
        block_close(s, j + 1, depth + 1)
    } else {
        block_close(s, j + 1, depth)
    }
}

/// The reply without its first `fn main()` block: from `fn main()` through the
/// `}` that closes the block its first `{` opens (unchanged when there is no
/// such block).
pub open spec fn without_main(s: Seq<char>) -> Seq<char> {
    match find(s, "fn main()"@) {
        Some(start) => match find_from(s, "{"@, start) {
            Some(open) => match block_close(s, open + 1, 1) {
                Some(close) => s.subrange(0, start) + s.subrange(close + 1, s.len() as int),
                None => s,
            },
            None => s,
        },
        None => s,
    }
}

/// The cleaned reply: no `fn main()` block, no imports of banned crates,
/// trimmed.
pub open spec fn cleaned(text: Seq<char>) -> Seq<char> {
    trim(join(kept_lines(lines(without_main(text))), "\n"@))
}

/// Whether `cs[from..to]` equals `p`.
fn range_equals(cs: &Vec<char>, from: usize, to: usize, p: &str) -> (r: bool)
    requires
        from <= to <= cs@.len(),
    ensures
        r == (cs@.subrange(from as int, to as int) == p@),
{
    let pc = chars_of(p);
    if pc.len() != to - from {
        return false;
    }
    let ok = range_starts_with(cs, from, to, &pc);
    assert(cs@.subrange(from as int, to as int).subrange(0, pc@.len() as int) =~= cs@.subrange(
        from as int,
        to as int,
    ));
    ok
}

/// Whether the line `cs[from..to]` survives clean-up.
fn keep_line(cs: &Vec<char>, from: usize, to: usize) -> (r: bool)
    requires
        from <= to <= cs@.len(),
    ensures
        r == keeps_line(cs@.subrange(from as int, to as int)),
{
    proof {
        reveal_strlit("use ");
    }
    let a = skip_ws_forward(cs, from, to);
    let ghost t = cs@.subrange(a as int, to as int);
    if !range_starts_with(cs, a, to, &chars_of("use ")) {
        return true;
    }
    let start = a + 4;
    let mut r = start;
    assert(t.subrange(4, t.len() as int) =~= cs@.subrange(start as int, to as int));
    while r < to && !(cs[r] == ':' || cs[r] == ';' || is_ws_char(cs[r]))
        invariant
            start <= r <= to <= cs@.len(),
            path_root(cs@.subrange(start as int, to as int)) == cs@.subrange(start as int, r as int)
                + path_root(cs@.subrange(r as int, to as int)),
        decreases to - r,
    {
        assert(cs@.subrange(r as int, to as int).drop_first() =~= cs@.subrange(r + 1, to as int));
        assert(cs@.subrange(start as int, r + 1) =~= cs@.subrange(start as int, r as int) + seq![
            cs@[r as int],
        ]);
        r += 1;
    }
    assert(path_root(cs@.subrange(r as int, to as int)) =~= Seq::<char>::empty());
    assert(cs@.subrange(start as int, r as int) + Seq::<char>::empty() =~= cs@.subrange(
        start as int,
        r as int,
    ));
    let banned = range_equals(cs, start, r, "chrono") || range_equals(cs, start, r, "serde")
        || range_equals(cs, start, r, "tokio") || range_equals(cs, start, r, "rand")
        || range_equals(cs, start, r, "anyhow") || range_equals(cs, start, r, "thiserror")
        || range_equals(cs, start, r, "uuid");
    !banned
}

/// The index of the `}` closing the block opened just before `from`.
fn block_end_from(cs: &Vec<char>, from: usize) -> (r: Option<usize>)
    requires
        1 <= from <= cs@.len(),
    ensures
        r matches Some(c) ==> from <= c < cs@.len() && block_close(cs@, from as int, 1) == Some(
            c as int,
        ),
        r is None ==> block_close(cs@, from as int, 1) is None,
{
    let mut j = from;
    let mut depth: usize = 1;
    let mut found: Option<usize> = None;
    while found.is_none() && j < cs.len()
        invariant
            1 <= from <= j <= cs@.len(),
            1 <= depth <= j - from + 1,
            found is None ==> block_close(cs@, from as int, 1) == block_close(
                cs@,
                j as int,
                depth as nat,
            ),
            found matches Some(c) ==> from <= c < cs@.len() && block_close(cs@, from as int, 1)
                == Some(c as int),
        decreases cs@.len() - j + if found is None { 1int } else { 0int },
    {
        if cs[j] == '}' {
            if depth == 1 {
                found = Some(j);
            } else {
                depth -= 1;
                j += 1;
            }
        } else if cs[j] == '{' {
            assert(depth < cs.len());
            depth += 1;
            j += 1;
        } else {
            j += 1;
        }
    }
    found
}

/// Removes a `fn main()` block and imports of crates the translation must
/// not use, then trims.
pub fn clean(text: &str) -> (out: String)
    ensures
        out@ == cleaned(text@),
{
    proof {
        reveal_strlit("{");
    }
    let cs = chars_of(text);
    let mut s: Vec<char> = cs.clone();
    assert(s@ == cs@);
    if let Some(start) = find_at_or_after(&cs, &chars_of("fn main()"), 0) {
        if let Some(open) = find_at_or_after(&cs, &chars_of("{"), start) {
            proof {
                crate::text::lemma_find_from(cs@, "{"@, start as int);
            }
            let close = block_end_from(&cs, open + 1);
            if let Some(c) = close {
                let mut m = sub_chars(&cs, 0, start);
                let mut k = c + 1;
                while k < cs.len()
                    invariant
                        c + 1 <= k <= cs@.len(),
                        m@ == cs@.subrange(0, start as int) + cs@.subrange(c + 1, k as int),
                    decreases cs@.len() - k,
                {
                    m.push(cs[k]);
                    k += 1;
                }
                s = m;
            }
        }
    }
    assert(s@ == without_main(text@));
    let lb = line_bounds(&s);
    let ghost texts = lines(s@);
    let mut out = String::new();
    let mut any = false;
    let mut i: usize = 0;
    while i < lb.len()
        invariant
            texts == range_texts(s@, lb@),
            ranges_within(lb@, s@.len() as int),
            i <= lb@.len(),
            any == (kept_lines(texts.take(i as int)).len() > 0),
            out@ == join(kept_lines(texts.take(i as int)), "\n"@),
        decreases lb@.len() - i,
    {
        let (from, to) = lb[i];
        assert(lb@[i as int].0 <= lb@[i as int].1 <= s@.len());
        assert(texts[i as int] == s@.subrange(from as int, to as int));
        assert(texts.take(i + 1).drop_last() =~= texts.take(i as int));
        let ghost prev = kept_lines(texts.take(i as int));
        if keep_line(&s, from, to) {
            let line = string_of(&s, from, to);
            assert(kept_lines(texts.take(i + 1)) == prev.push(texts[i as int]));
            assert(prev.push(texts[i as int]).drop_last() =~= prev);
            if any {
                out.append("\n");
            } else {
                assert(prev.len() == 0);
                assert(out@ =~= Seq::<char>::empty());
            }
            out.append(line.as_str());
            any = true;
        } else {
            assert(kept_lines(texts.take(i + 1)) =~= prev);
        }
        i += 1;
    }
    assert(texts.take(lb@.len() as int) =~= texts);
    trimmed(out.as_str())
}

// ---------------------------------------------------------------------------
// The prompt, the translation decision, and the reply of the live API
// ---------------------------------------------------------------------------

/// The symbol-table part of the prompt.
pub open spec fn signature_context(sigs: Seq<Seq<char>>) -> Seq<char> {
    if sigs.len() == 0 {
        "(none yet)"@
    } else {
        join(sigs, "\n"@)
    }
}

/// The Rust under repair, in a `rust` fence, when there is one.
pub open spec fn current_code_block(rust: Option<Seq<char>>) -> Seq<char> {
    match rust {
        Some(r) => "\nThe current Rust for this unit:\n```rust\n"@ + r + "\n```"@,
        None => Seq::<char>::empty(),
    }
}

/// The user message sent to the model for one C# unit: the signatures
/// translated so far, the unit in a `csharp` fence, and on a repair attempt
/// the compiler errors to fix with the current Rust of the unit.
pub open spec fn prompt_text(
    src: Seq<char>,
    sigs: Seq<Seq<char>>,
    errors: Option<Seq<char>>,
    rust: Option<Seq<char>>,
) -> Seq<char> {
    "Already-translated Rust signatures (already in the output file \u{2014} do NOT redefine these):\n"@
        + signature_context(sigs)
        + "\n\nTranslate ONLY this C# declaration to Rust. Output just the new item(s), nothing already listed above:\n```csharp\n"@
        + src + "\n```"@ + match errors {
        Some(e) => "\n\nYour previous Rust output failed to compile. Fix these errors:\n```\n"@ + e
            + "\n```"@ + current_code_block(rust) + "\nOutput the corrected full Rust for this unit."@,
        None => Seq::<char>::empty(),
    }
}

/// The view of an optional string slice.
pub open spec fn opt_view(o: Option<&str>) -> Option<Seq<char>> {
    match o {
        Some(e) => Some(e@),
        None => None,
    }
}

/// The user message for one C# unit.
pub fn user_prompt(
    csharp_source: &str,
    known_signatures: &Vec<String>,
    prior_errors: Option<&str>,
    prior_rust: Option<&str>,
) -> (out: String)
    ensures
        out@ == prompt_text(
            csharp_source@,
            views(known_signatures@),
            opt_view(prior_errors),
            opt_view(prior_rust),
        ),
{
    let mut out = String::new();
    out.append(
        "Already-translated Rust signatures (already in the output file \u{2014} do NOT redefine these):\n",
    );
    if known_signatures.len() == 0 {
        out.append("(none yet)");
    } else {
        let context = join_strings(known_signatures, "\n");
        out.append(context.as_str());
    }
    out.append(
        "\n\nTranslate ONLY this C# declaration to Rust. Output just the new item(s), nothing already listed above:\n```csharp\n",
    );
    out.append(csharp_source);
    out.append("\n```");
    if let Some(errors) = prior_errors {
        out.append("\n\nYour previous Rust output failed to compile. Fix these errors:\n```\n");
        out.append(errors);
        out.append("\n```");
        if let Some(rust) = prior_rust {
            out.append("\nThe current Rust for this unit:\n```rust\n");
            out.append(rust);
            out.append("\n```");
        }
        out.append("\nOutput the corrected full Rust for this unit.");
    }
    out
}

/// A request to the Anthropic Messages API for one unit.
pub struct ApiRequest {
    pub key: String,
    /// The model asked.
    pub model: String,
    pub max_tokens: u32,
    pub system: String,
    pub user: String,
}

/// What translating one unit takes: either the translation itself (the mock,
/// when no API key is configured) or a call to the live API.
pub enum TranslateStep {
    Done(String),
    CallApi(ApiRequest),
}

/// Translates one C# unit: with no API key the mock answers; with a key,
/// the request to `model` is returned for the caller to send, and its reply
/// is turned into Rust by `finish_api_call`.
pub fn translate(
    csharp_source: &str,
    known_signatures: &Vec<String>,
    prior_errors: Option<&str>,
    prior_rust: Option<&str>,
    api_key: Option<String>,
    model: &str,
) -> (step: TranslateStep)
    ensures
        api_key is None ==> step is Done && step->Done_0@ == mock_rust(
            csharp_source@,
            prior_errors is Some,
        ),
        api_key matches Some(k) ==> step is CallApi && step->CallApi_0.key == k
            && step->CallApi_0.model@ == model@ && step->CallApi_0.max_tokens == MAX_TOKENS
            && step->CallApi_0.system@ == SYSTEM_PROMPT@ && step->CallApi_0.user@ == prompt_text(
            csharp_source@,
            views(known_signatures@),
            opt_view(prior_errors),
            opt_view(prior_rust),
        ),
{
    match api_key {
        Some(key) => TranslateStep::CallApi(
            ApiRequest {
                key,
                model: owned(model),
                max_tokens: MAX_TOKENS,
                system: owned(SYSTEM_PROMPT),
                user: user_prompt(csharp_source, known_signatures, prior_errors, prior_rust),
            },
        ),
        None => TranslateStep::Done(mock_translate(csharp_source, prior_errors)),
    }
}

/// One block of the `content` array of an API reply: its `type` and `text`
/// members where they are strings.
pub struct ContentBlock {
    pub block_type: Option<String>,
    pub text: Option<String>,
}

/// How a call to the live API ended.
pub enum ApiReply {
    /// The API answered with an error status and this body.
    Status { code: u16, detail: String },
    /// The request did not get an answer.
    Transport { message: String },
    /// The answer's body could not be read as JSON.
    Unreadable { message: String },
    /// The answer's `content` member, when it is an array.
    Body { content: Option<Vec<ContentBlock>> },
}

/// The text a content block contributes: its `text` when its type is `"text"`.
pub open spec fn block_text(b: ContentBlock) -> Seq<char> {
    if b.block_type matches Some(t) && t@ == "text"@ && b.text is Some {
        b.text->0@
    } else {
        Seq::<char>::empty()
    }
}

/// The concatenated text of the blocks.
pub open spec fn blocks_text(bs: Seq<ContentBlock>) -> Seq<char>
    decreases bs.len(),
{
    if bs.len() == 0 {
        seq![]
    } else {
        blocks_text(bs.drop_last()) + block_text(bs.last())
    }
}

/// The decimal digit of `d < 10`.
pub open spec fn digit_char(d: nat) -> char {
    if d == 0 {
        '0'
    } else if d == 1 {
        '1'
    } else if d == 2 {
        '2'
    } else if d == 3 {
        '3'
    } else if d == 4 {
        '4'
    } else if d == 5 {
        '5'
    } else if d == 6 {
        '6'
    } else if d == 7 {
        '7'
    } else if d == 8 {
        '8'
    } else {
        '9'
    }
}

/// The decimal representation of `n`.
pub open spec fn decimal(n: nat) -> Seq<char>
    decreases n,
{
    if n < 10 {
        seq![digit_char(n)]
    } else {
        decimal(n / 10) + seq![digit_char(n % 10)]
    }
}

fn digit(d: u64) -> (c: char)
    requires
        d < 10,
    ensures
        c == digit_char(d as nat),
{
    if d == 0 {
        '0'
    } else if d == 1 {
        '1'
    } else if d == 2 {
        '2'
    } else if d == 3 {
        '3'
    } else if d == 4 {
        '4'
    } else if d == 5 {
        '5'
    } else if d == 6 {
        '6'
    } else if d == 7 {
        '7'
    } else if d == 8 {
        '8'
    } else {
        '9'
    }
}

/// Writes `n` in decimal after `out`.
fn push_decimal(out: &mut String, n: u64)
    ensures
        final(out)@ == old(out)@ + decimal(n as nat),
    decreases n,
{
    if n >= 10 {
        push_decimal(out, n / 10);
    }
    out.push(digit(n % 10));
}

/// The error text, or the cleaned Rust, that a reply of the live API gives.
pub open spec fn api_outcome(reply: ApiReply) -> Result<Seq<char>, Seq<char>> {
    match reply {
        ApiReply::Status { code, detail } => Err(
            "Anthropic API returned "@ + decimal(code as nat) + ": "@ + detail@,
        ),
        ApiReply::Transport { message } => Err("request to Anthropic API failed: "@ + message@),
        ApiReply::Unreadable { message } => Err("reading Anthropic API response: "@ + message@),
        ApiReply::Body { content } => Ok(
            cleaned(
                fences_stripped(
                    match content {
                        Some(bs) => blocks_text(bs@),
                        None => Seq::<char>::empty(),
                    },
                ),
            ),
        ),
    }
}

/// The views of a `Result` of strings.
pub open spec fn result_view(r: Result<String, String>) -> Result<Seq<char>, Seq<char>> {
    match r {
        Ok(s) => Ok(s@),
        Err(e) => Err(e@),
    }
}

/// Turns the reply of the live API into the unit's Rust, or an error.
pub fn finish_api_call(reply: ApiReply) -> (r: Result<String, String>)
    ensures
        result_view(r) == api_outcome(reply),
{
    match reply {
        ApiReply::Status { code, detail } => {
            let mut msg = String::new();
            msg.append("Anthropic API returned ");
            push_decimal(&mut msg, code as u64);
            msg.append(": ");
            msg.append(detail.as_str());
            Err(msg)
        },
        ApiReply::Transport { message } => {
            let mut msg = String::new();
            msg.append("request to Anthropic API failed: ");
            msg.append(message.as_str());
            Err(msg)
        },
        ApiReply::Unreadable { message } => {
            let mut msg = String::new();
            msg.append("reading Anthropic API response: ");
            msg.append(message.as_str());
            Err(msg)
        },
        ApiReply::Body { content } => {
            let mut text = String::new();
            match &content {
                Some(bs) => {
                    let mut i: usize = 0;
                    while i < bs.len()
                        invariant
                            i <= bs@.len(),
                            text@ == blocks_text(bs@.take(i as int)),
                        decreases bs@.len() - i,
                    {
                        assert(bs@.take(i + 1).drop_last() =~= bs@.take(i as int));
                        let b = &bs[i];
                        if let Some(t) = &b.block_type {
                            if same_text(t.as_str(), "text") {
                                if let Some(body) = &b.text {
                                    text.append(body.as_str());
                                }
                            }
                        }
                        i += 1;
                    }
                    assert(bs@.take(bs@.len() as int) =~= bs@);
                },
                None => {},
            }
            let stripped = strip_fences(text.as_str());
            Ok(clean(stripped.as_str()))
        },
    }
}

// ---------------------------------------------------------------------------
// The API key
// ---------------------------------------------------------------------------

/// The value of `ANTHROPIC_API_KEY` counts when it is not blank.
pub fn env_key(value: Option<String>) -> (key: Option<String>)
    ensures
        key == (match value {
            Some(v) => if trim(v@).len() > 0 {
                Some(v)
            } else {
                None
            },
            None => None,
        }),
{
    match value {
        Some(v) => {
            let t = trimmed(v.as_str());
            if t.as_str().is_empty() {
                None
            } else {
                Some(v)
            }
        },
        None => None,
    }
}

/// The value a `.env` line assigns to `name`: the line, trimmed, is not a
/// comment and holds `KEY=VALUE` where the trimmed key is `name`; the value
/// is trimmed and loses surrounding double, then single, quotes, and counts
/// when something is left.
pub open spec fn dotenv_line_value(line: Seq<char>, name: Seq<char>) -> Option<Seq<char>> {
    let l = trim(line);
    if l.len() == 0 || l[0] == '#' {
        None
    } else {
        match find(l, "="@) {
            Some(k) => if trim(l.subrange(0, k)) == name {
                let v = trim_char(trim_char(trim(l.subrange(k + 1, l.len() as int)), '"'), '\'');
                if v.len() > 0 {
                    Some(v)
                } else {
                    None
                }
            } else {
                None
            },
            None => None,
        }
    }
}

/// The first value the lines assign to `name`.
pub open spec fn dotenv_lines_value(ls: Seq<Seq<char>>, name: Seq<char>) -> Option<Seq<char>>
    decreases ls.len(),
{
    if ls.len() == 0 {
        None
    } else {
        match dotenv_line_value(ls[0], name) {
            Some(v) => Some(v),
            None => dotenv_lines_value(ls.drop_first(), name),
        }
    }
}

/// The first value that the files, in order, assign to `name`.
pub open spec fn dotenv_files_value(files: Seq<Seq<char>>, name: Seq<char>) -> Option<Seq<char>>
    decreases files.len(),
{
    if files.len() == 0 {
        None
    } else {
        match dotenv_lines_value(lines(files[0]), name) {
            Some(v) => Some(v),
            None => dotenv_files_value(files.drop_first(), name),
        }
    }
}

/// The value that the `.env` files, read in order, assign to `name`.
pub fn dotenv_value(name: &str, files: &Vec<String>) -> (v: Option<String>)
    ensures
        match v {
            Some(s) => dotenv_files_value(views(files@), name@) == Some(s@),
            None => dotenv_files_value(views(files@), name@) is None,
        },
{
    let mut f: usize = 0;
    assert(views(files@).subrange(0, files@.len() as int) =~= views(files@));
    while f < files.len()
        invariant
            f <= files@.len(),
            dotenv_files_value(views(files@), name@) == dotenv_files_value(
                views(files@).subrange(f as int, files@.len() as int),
                name@,
            ),
        decreases files@.len() - f,
    {
        assert(views(files@).subrange(f as int, files@.len() as int).drop_first() =~= views(
            files@,
        ).subrange(f + 1, files@.len() as int));
        let cs = chars_of(files[f].as_str());
        let lb = line_bounds(&cs);
        let ghost texts = lines(cs@);
        let mut i: usize = 0;
        assert(texts.subrange(0, texts.len() as int) =~= texts);
        assert(views(files@)[f as int] == files@[f as int]@);
        while i < lb.len()
            invariant
                f < files@.len(),
                cs@ == files@[f as int]@,
                texts == lines(cs@),
                dotenv_files_value(views(files@), name@) == dotenv_files_value(
                    views(files@).subrange(f as int, files@.len() as int),
                    name@,
                ),
                texts == range_texts(cs@, lb@),
                ranges_within(lb@, cs@.len() as int),
                i <= lb@.len(),
                dotenv_lines_value(texts, name@) == dotenv_lines_value(
                    texts.subrange(i as int, texts.len() as int),
                    name@,
                ),
            decreases lb@.len() - i,
        {
            assert(texts.subrange(i as int, texts.len() as int).drop_first() =~= texts.subrange(
                i + 1,
                texts.len() as int,
            ));
            let (from, to) = lb[i];
            assert(lb@[i as int].0 <= lb@[i as int].1 <= cs@.len());
            assert(texts[i as int] == cs@.subrange(from as int, to as int));
            if let Some(value) = dotenv_line(&cs, from, to, name) {
                return Some(value);
            }
            i += 1;
        }
        assert(texts.subrange(i as int, texts.len() as int) =~= Seq::<Seq<char>>::empty());
        f += 1;
    }
    assert(views(files@).subrange(f as int, files@.len() as int) =~= Seq::<Seq<char>>::empty());
    None
}

/// The value that the line `cs[from..to]` of a `.env` file assigns to `name`.
fn dotenv_line(cs: &Vec<char>, from: usize, to: usize, name: &str) -> (v: Option<String>)
    requires
        from <= to <= cs@.len(),
    ensures
        match v {
            Some(s) => dotenv_line_value(cs@.subrange(from as int, to as int), name@) == Some(s@),
            None => dotenv_line_value(cs@.subrange(from as int, to as int), name@) is None,
        },
{
    proof {
        reveal_strlit("=");
    }
    let (a, b) = trim_bounds(cs, from, to);
    let l = sub_chars(cs, a, b);
    if l.len() == 0 || l[0] == '#' {
        return None;
    }
    match find_at_or_after(&l, &chars_of("="), 0) {
        Some(k) => {
            proof {
                crate::text::lemma_find_from(l@, "="@, 0);
            }
            let (ka, kb) = trim_bounds(&l, 0, k);
            if !range_equals(&l, ka, kb, name) {
                return None;
            }
            let (va, vb) = trim_bounds(&l, k + 1, l.len());
            let qa = skip_char_forward(&l, va, vb, '"');
            let qb = skip_char_backward(&l, qa, vb, '"');
            let sa = skip_char_forward(&l, qa, qb, '\'');
            let sb = skip_char_backward(&l, sa, qb, '\'');
            if sa == sb {
                None
            } else {
                Some(string_of(&l, sa, sb))
            }
        },
        None => None,
    }
}

/// Clean-up removes every import of a banned crate and keeps every other
/// line, in order.
pub proof fn law_clean_drops_banned_imports(ls: Seq<Seq<char>>)
    ensures
        forall|i: int| 0 <= i < kept_lines(ls).len() ==> keeps_line(#[trigger] kept_lines(ls)[i]),
        kept_lines(ls).len() <= ls.len(),
    decreases ls.len(),
{
    if ls.len() > 0 {
        law_clean_drops_banned_imports(ls.drop_last());
        let prev = kept_lines(ls.drop_last());
        assert forall|i: int| 0 <= i < kept_lines(ls).len() implies keeps_line(
            #[trigger] kept_lines(ls)[i],
        ) by {
            if i < prev.len() {
                assert(kept_lines(ls)[i] == prev[i]);
            }
        }
    }
}

/// The crate name at the head of a path is read up to the first `:`, `;` or
/// whitespace.
proof fn lemma_path_root_of_name(n: Seq<char>, rest: Seq<char>)
    requires
        forall|k: int| 0 <= k < n.len() ==> !ends_path_root(#[trigger] n[k]),
        rest.len() == 0 || ends_path_root(rest[0]),
    ensures
        path_root(n + rest) == n,
    decreases n.len(),
{
    if n.len() == 0 {
        assert(n + rest =~= rest);
    } else {
        lemma_path_root_of_name(n.drop_first(), rest);
        assert((n + rest).drop_first() =~= n.drop_first() + rest);
        assert(n =~= seq![n[0]] + n.drop_first());
    }
}

/// An import of any of the crates the translation must not use (`chrono`,
/// `serde`, `tokio`, `rand`, `anyhow`, `thiserror`, `uuid`) does not survive
/// clean-up, whatever follows the crate name (`::X;`, `;`, ` as y;`).
pub proof fn law_banned_imports_are_dropped(n: Seq<char>, rest: Seq<char>)
    requires
        n == "chrono"@ || n == "serde"@ || n == "tokio"@ || n == "rand"@ || n == "anyhow"@
            || n == "thiserror"@ || n == "uuid"@,
        rest.len() == 0 || rest[0] == ':' || rest[0] == ';' || is_ws(rest[0]),
    ensures
        !keeps_line("use "@ + n + rest),
{
    reveal_strlit("use ");
    reveal_strlit("chrono");
    reveal_strlit("serde");
    reveal_strlit("tokio");
    reveal_strlit("rand");
    reveal_strlit("anyhow");
    reveal_strlit("thiserror");
    reveal_strlit("uuid");
    let line = "use "@ + n + rest;
    assert(line[0] == 'u');
    assert(trim_start(line) == line);
    assert(line.subrange(0, 4) =~= "use "@);
    assert(starts_with(line, "use "@));
    assert(line.subrange(4, line.len() as int) =~= n + rest);
    assert forall|k: int| 0 <= k < n.len() implies !ends_path_root(#[trigger] n[k]) by {
        assert(n[k] != ':' && n[k] != ';' && !is_ws(n[k]));
    }
    lemma_path_root_of_name(n, rest);
    assert(banned_crate(n));
}

/// The mock answers the `AccountType` enum only for the unit that declares
/// it; a class `Account` (which mentions `AccountType` among its members)
/// gets the `Account` translation, and the interface alone gets the trait.
pub proof fn law_mock_account_rules(src: Seq<char>, repairing: bool)
    ensures
        contains(src, "enum AccountType"@) ==> mock_rust(src, repairing) == ACCOUNT_TYPE_RUST@,
        !contains(src, "enum AccountType"@) && contains(src, "class Account"@) ==> mock_rust(
            src,
            repairing,
        ) == ACCOUNT_RUST@,
        !contains(src, "enum AccountType"@) && !contains(src, "class Account"@) && contains(
            src,
            "ITransactable"@,
        ) ==> mock_rust(src, repairing) == TRANSACTABLE_RUST@,
{
}

/// `.env` files are consulted in order: a file that assigns the name a value
/// decides, whatever the later files say; a file that does not is skipped.
pub proof fn law_first_env_file_wins(first: Seq<char>, rest: Seq<Seq<char>>, name: Seq<char>)
    ensures
        dotenv_files_value(seq![first], name) is Some ==> dotenv_files_value(seq![first] + rest, name)
            == dotenv_files_value(seq![first], name),
        dotenv_files_value(seq![first], name) is None ==> dotenv_files_value(seq![first] + rest, name)
            == dotenv_files_value(rest, name),
        dotenv_files_value(seq![first], name) == dotenv_lines_value(lines(first), name),
{
    let all = seq![first] + rest;
    assert(all[0] == first);
    assert(all.drop_first() =~= rest);
    let one = seq![first];
    assert(one[0] == first);
    assert(one.drop_first() =~= Seq::<Seq<char>>::empty());
    assert(dotenv_files_value(one.drop_first(), name) is None);
    assert(dotenv_files_value(one, name) == dotenv_lines_value(lines(first), name));
    assert(dotenv_files_value(all, name) == match dotenv_lines_value(lines(first), name) {
        Some(v) => Some(v),
        None => dotenv_files_value(rest, name),
    });
}

} // verus!
