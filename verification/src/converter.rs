//! The text-level steps of the C# -> Rust conversion pipeline: ordering the
//! extracted units, harvesting the public signatures of each translation into
//! the running symbol table, and assembling the final module.
use vstd::prelude::*;
use crate::text::{
    chars_of, count_char, count_in_range, lemma_count_char_concat, lemma_lines_joined, join, join_strings, line_bounds, lines, range_starts_with,
    range_texts, ranges_ascending, ranges_within, replace, replace_all, replace_from, occurs_at, same_text,
    skip_char_backward, starts_with, string_of, trim, trim_bounds, trim_end_char, trimmed, views,
};

verus! {

/// Translation rank of a declaration kind: enums first, then structs and
/// records, interfaces, classes, free methods, and anything else last.
pub open spec fn kind_rank(kind: Seq<char>) -> u8 {
    if kind == "enum_declaration"@ {
        0
    } else if kind == "struct_declaration"@ || kind == "record_declaration"@ {
        1
    } else if kind == "interface_declaration"@ {
        2
    } else if kind == "class_declaration"@ {
        3
    } else if kind == "method_declaration"@ {
        4
    } else {
        99
    }
}

/// The translation rank of a declaration kind.
pub fn kind_order(kind: &str) -> (r: u8)
    ensures
        r == kind_rank(kind@),
{
    if same_text(kind, "enum_declaration") {
        0
    } else if same_text(kind, "struct_declaration") || same_text(kind, "record_declaration") {
        1
    } else if same_text(kind, "interface_declaration") {
        2
    } else if same_text(kind, "class_declaration") {
        3
    } else if same_text(kind, "method_declaration") {
        4
    } else {
        99
    }
}

/// Opening braces minus closing braces on a line.
pub open spec fn brace_balance(line: Seq<char>) -> int {
    count_char(line, '{') - count_char(line, '}')
}

/// The brace balance of two pieces of text put together is the sum of their
/// balances: `{` and `}` are counted one by one.
pub proof fn law_brace_balance_adds(a: Seq<char>, b: Seq<char>)
    ensures
        brace_balance(a + b) == brace_balance(a) + brace_balance(b),
{
    lemma_count_char_concat(a, b, '{');
    lemma_count_char_concat(a, b, '}');
}

/// A trimmed line that opens a public type item whose body may span lines.
pub open spec fn opens_type_item(t: Seq<char>) -> bool {
    ||| starts_with(t, "pub trait "@)
    ||| starts_with(t, "pub struct "@)
    ||| starts_with(t, "pub enum "@)
    ||| starts_with(t, "pub type "@)
}

/// A trimmed line that declares a public function.
pub open spec fn opens_pub_fn(t: Seq<char>) -> bool {
    starts_with(t, "pub fn "@)
}

/// The index just past a block whose brace depth is `depth` before line `j`:
/// lines are taken while the depth stays positive.
pub open spec fn block_end(lines: Seq<Seq<char>>, j: int, depth: int) -> int
    decreases lines.len() - j,
{
    if 0 <= j < lines.len() && depth > 0 {
        block_end(lines, j + 1, depth + brace_balance(lines[j]))
    } else {
        j
    }
}

pub proof fn lemma_block_end(lines: Seq<Seq<char>>, j: int, depth: int)
    requires
        0 <= j <= lines.len(),
    ensures
        j <= block_end(lines, j, depth) <= lines.len(),
    decreases lines.len() - j,
{
    if j < lines.len() && depth > 0 {
        lemma_block_end(lines, j + 1, depth + brace_balance(lines[j]));
    }
}

/// The public signatures found in `lines[i..]`: a line opening a public
/// type item contributes that line and every following line up to the one
/// that balances its braces, joined by line feeds; a `pub fn` line
/// contributes itself, trimmed and without its trailing `{`.
pub open spec fn signatures_from(lines: Seq<Seq<char>>, i: int) -> Seq<Seq<char>>
    decreases lines.len() - i,
{
    if i < 0 || i >= lines.len() {
        seq![]
    } else if opens_type_item(trim(lines[i])) {
        let e = block_end(lines, i + 1, brace_balance(lines[i]));
        proof {
            lemma_block_end(lines, i + 1, brace_balance(lines[i]));
        }
        seq![join(lines.subrange(i, e), "\n"@)] + signatures_from(lines, e)
    } else if opens_pub_fn(trim(lines[i])) {
        seq![trim(trim_end_char(trim(lines[i]), '{'))] + signatures_from(lines, i + 1)
    } else {
        signatures_from(lines, i + 1)
    }
}

/// Adding a line to a text joined with line feeds adds its braces.
proof fn lemma_join_balance(ls: Seq<Seq<char>>, x: Seq<char>)
    requires
        ls.len() > 0,
    ensures
        brace_balance(join(ls.push(x), "\n"@)) == brace_balance(join(ls, "\n"@)) + brace_balance(x),
{
    reveal_strlit("\n");
    assert(ls.push(x).drop_last() =~= ls);
    assert(join(ls.push(x), "\n"@) == join(ls, "\n"@) + "\n"@ + x);
    law_brace_balance_adds(join(ls, "\n"@) + "\n"@, x);
    law_brace_balance_adds(join(ls, "\n"@), "\n"@);
    assert("\n"@ =~= seq!['\n']);
    let nl = "\n"@;
    assert(nl.drop_last() =~= Seq::<char>::empty());
    assert(nl.last() == '\n');
    assert(count_char(Seq::<char>::empty(), '{') == 0);
    assert(count_char(Seq::<char>::empty(), '}') == 0);
    assert(count_char(nl, '{') == count_char(nl.drop_last(), '{'));
    assert(count_char(nl, '}') == count_char(nl.drop_last(), '}'));
    assert(count_char("\n"@, '{') == 0);
    assert(count_char("\n"@, '}') == 0);
}

proof fn lemma_block_end_balance(lines: Seq<Seq<char>>, i: int, j: int)
    requires
        0 <= i < j <= lines.len(),
        forall|k: int| i < k < j ==> brace_balance(join(#[trigger] lines.subrange(i, k), "\n"@)) > 0,
    ensures
        ({
            let e = block_end(lines, j, brace_balance(join(lines.subrange(i, j), "\n"@)));
            &&& j <= e <= lines.len()
            &&& forall|k: int|
                i < k < e ==> brace_balance(join(#[trigger] lines.subrange(i, k), "\n"@)) > 0
            &&& e < lines.len() ==> brace_balance(join(lines.subrange(i, e), "\n"@)) <= 0
        }),
    decreases lines.len() - j,
{
    let d = brace_balance(join(lines.subrange(i, j), "\n"@));
    if j < lines.len() && d > 0 {
        assert(lines.subrange(i, j + 1) =~= lines.subrange(i, j).push(lines[j]));
        lemma_join_balance(lines.subrange(i, j), lines[j]);
        lemma_block_end_balance(lines, i, j + 1);
    }
}

/// A public type item's signature runs from its opening line to the first
/// line at which the braces opened since the start of the item are all
/// closed (or to the end of the text): every shorter run of its lines has
/// more `{` than `}`, so balanced braces nested in the item (a default
/// method body, a struct variant) never end it.
pub proof fn law_type_item_runs_to_balance(lines: Seq<Seq<char>>, i: int)
    requires
        0 <= i < lines.len(),
        opens_type_item(trim(lines[i])),
    ensures
        ({
            let e = block_end(lines, i + 1, brace_balance(lines[i]));
            &&& i < e <= lines.len()
            &&& signatures_from(lines, i)[0] == join(lines.subrange(i, e), "\n"@)
            &&& forall|k: int|
                i < k < e ==> brace_balance(join(#[trigger] lines.subrange(i, k), "\n"@)) > 0
            &&& e < lines.len() ==> brace_balance(join(lines.subrange(i, e), "\n"@)) <= 0
        }),
{
    assert(join(lines.subrange(i, i + 1), "\n"@) == lines[i]);
    lemma_block_end_balance(lines, i, i + 1);
    lemma_block_end(lines, i + 1, brace_balance(lines[i]));
}

/// The public signatures of a Rust snippet.
pub open spec fn rust_signatures(rust: Seq<char>) -> Seq<Seq<char>> {
    signatures_from(lines(rust), 0)
}

/// A block whose brace depth is `depth` before line `j` closes (its depth
/// drops to zero or below) within `lines`.
pub open spec fn block_closed(lines: Seq<Seq<char>>, j: int, depth: int) -> bool
    decreases lines.len() - j,
{
    if depth <= 0 {
        true
    } else if 0 <= j < lines.len() {
        block_closed(lines, j + 1, depth + brace_balance(lines[j]))
    } else {
        false
    }
}

/// Every public type item that the scan of `lines[i..]` opens closes within
/// `lines`: the scan ends with no block open.
pub open spec fn blocks_close(lines: Seq<Seq<char>>, i: int) -> bool
    decreases lines.len() - i,
{
    if i < 0 || i >= lines.len() {
        true
    } else if opens_type_item(trim(lines[i])) {
        let e = block_end(lines, i + 1, brace_balance(lines[i]));
        proof {
            lemma_block_end(lines, i + 1, brace_balance(lines[i]));
        }
        block_closed(lines, i + 1, brace_balance(lines[i])) && blocks_close(lines, e)
    } else {
        blocks_close(lines, i + 1)
    }
}

proof fn lemma_block_end_shift(p: Seq<Seq<char>>, r: Seq<Seq<char>>, j: int, depth: int)
    requires
        0 <= j <= r.len(),
    ensures
        block_end(p + r, p.len() + j, depth) == p.len() + block_end(r, j, depth),
    decreases r.len() - j,
{
    if j < r.len() && depth > 0 {
        assert((p + r)[p.len() + j] == r[j]);
        lemma_block_end_shift(p, r, j + 1, depth + brace_balance(r[j]));
    }
}

proof fn lemma_signatures_shift(p: Seq<Seq<char>>, r: Seq<Seq<char>>, k: int)
    requires
        0 <= k <= r.len(),
    ensures
        signatures_from(p + r, p.len() + k) == signatures_from(r, k),
    decreases r.len() - k,
{
    if k < r.len() {
        let l = p + r;
        assert(l[p.len() + k] == r[k]);
        if opens_type_item(trim(r[k])) {
            let e = block_end(r, k + 1, brace_balance(r[k]));
            lemma_block_end(r, k + 1, brace_balance(r[k]));
            lemma_block_end_shift(p, r, k + 1, brace_balance(r[k]));
            assert(l.subrange(p.len() + k, p.len() + e) =~= r.subrange(k, e));
            lemma_signatures_shift(p, r, e);
        } else {
            lemma_signatures_shift(p, r, k + 1);
        }
    }
}

proof fn lemma_block_end_prefix(l: Seq<Seq<char>>, r: Seq<Seq<char>>, j: int, depth: int)
    requires
        0 <= j <= l.len(),
        block_closed(l, j, depth),
    ensures
        block_end(l + r, j, depth) == block_end(l, j, depth),
    decreases l.len() - j,
{
    if depth > 0 {
        assert((l + r)[j] == l[j]);
        lemma_block_end_prefix(l, r, j + 1, depth + brace_balance(l[j]));
    }
}

proof fn lemma_signatures_prefix(l: Seq<Seq<char>>, r: Seq<Seq<char>>, i: int)
    requires
        0 <= i <= l.len(),
        blocks_close(l, i),
    ensures
        signatures_from(l + r, i) == signatures_from(l, i) + signatures_from(r, 0),
    decreases l.len() - i,
{
    let s = l + r;
    if i == l.len() {
        lemma_signatures_shift(l, r, 0);
        assert(signatures_from(l, i) =~= Seq::<Seq<char>>::empty());
        assert(signatures_from(s, i) =~= signatures_from(l, i) + signatures_from(r, 0));
    } else {
        assert(s[i] == l[i]);
        if opens_type_item(trim(l[i])) {
            let e = block_end(l, i + 1, brace_balance(l[i]));
            lemma_block_end(l, i + 1, brace_balance(l[i]));
            lemma_block_end_prefix(l, r, i + 1, brace_balance(l[i]));
            assert(s.subrange(i, e) =~= l.subrange(i, e));
            lemma_signatures_prefix(l, r, e);
            let head = seq![join(l.subrange(i, e), "\n"@)];
            assert(head + (signatures_from(l, e) + signatures_from(r, 0)) =~= head
                + signatures_from(l, e) + signatures_from(r, 0));
        } else if opens_pub_fn(trim(l[i])) {
            lemma_signatures_prefix(l, r, i + 1);
            let head = seq![trim(trim_end_char(trim(l[i]), '{'))];
            assert(head + (signatures_from(l, i + 1) + signatures_from(r, 0)) =~= head
                + signatures_from(l, i + 1) + signatures_from(r, 0));
        } else {
            lemma_signatures_prefix(l, r, i + 1);
        }
    }
}

/// The signatures of two snippets put together with a line feed between
/// them are those of the first followed by those of the second, when every
/// public type item the first opens also closes in it (and it does not end
/// with a carriage return, which would merge with the line feed).
pub proof fn law_signatures_of_joined_snippets(a: Seq<char>, b: Seq<char>)
    requires
        a.len() > 0 ==> a.last() != '\r',
        blocks_close(lines(a), 0),
    ensures
        rust_signatures(a + "\n"@ + b) == rust_signatures(a) + rust_signatures(b),
{
    reveal_strlit("\n");
    assert("\n"@ =~= seq!['\n']);
    lemma_lines_joined(a, b);
    let la = lines(a);
    let lb = lines(b);
    let mid = if a.len() == 0 || a.last() == '\n' {
        seq![Seq::<char>::empty()]
    } else {
        Seq::<Seq<char>>::empty()
    };
    let rest = mid + lb;
    assert(lines(a + "\n"@ + b) =~= la + rest);
    lemma_signatures_prefix(la, rest, 0);
    if mid.len() == 0 {
        assert(rest =~= lb);
    } else {
        reveal_strlit("pub trait ");
        reveal_strlit("pub struct ");
        reveal_strlit("pub enum ");
        reveal_strlit("pub type ");
        reveal_strlit("pub fn ");
        assert(trim(Seq::<char>::empty()) =~= Seq::<char>::empty());
        assert(rest[0] == Seq::<char>::empty());
        assert(!opens_type_item(trim(rest[0])));
        assert(!opens_pub_fn(trim(rest[0])));
        assert(rest =~= seq![Seq::<char>::empty()] + lb);
        lemma_signatures_shift(seq![Seq::<char>::empty()], lb, 0);
    }
}

/// Opening braces minus closing braces in a line.
pub fn brace_delta(line: &str) -> (d: i32)
    requires
        line@.len() <= i32::MAX,
    ensures
        d == brace_balance(line@),
{
    let cs = chars_of(line);
    let opens = count_in_range(&cs, 0, cs.len(), '{');
    let closes = count_in_range(&cs, 0, cs.len(), '}');
    assert(cs@.subrange(0, cs@.len() as int) =~= line@);
    opens as i32 - closes as i32
}

/// Opening braces minus closing braces in `cs[from..to]`.
fn brace_delta_in(cs: &Vec<char>, from: usize, to: usize) -> (d: i128)
    requires
        from <= to <= cs@.len(),
    ensures
        d == brace_balance(cs@.subrange(from as int, to as int)),
        -(to - from) <= d <= to - from,
{
    let opens = count_in_range(cs, from, to, '{');
    let closes = count_in_range(cs, from, to, '}');
    opens as i128 - closes as i128
}

/// The public signatures declared in a Rust snippet, for the running symbol
/// table that later translations receive as context.
#[verifier::rlimit(40)]
pub fn extract_rust_signatures(rust: &str) -> (sigs: Vec<String>)
    ensures
        views(sigs@) == rust_signatures(rust@),
{
    let cs = chars_of(rust);
    let lb = line_bounds(&cs);
    let ghost texts = lines(cs@);
    let p_trait = chars_of("pub trait ");
    let p_struct = chars_of("pub struct ");
    let p_enum = chars_of("pub enum ");
    let p_type = chars_of("pub type ");
    let p_fn = chars_of("pub fn ");
    let mut sigs: Vec<String> = Vec::new();
    let mut i: usize = 0;
    while i < lb.len()
        invariant
            cs@ == rust@,
            texts == lines(cs@),
            texts == range_texts(cs@, lb@),
            ranges_within(lb@, cs@.len() as int),
            ranges_ascending(lb@),
            p_trait@ == "pub trait "@,
            p_struct@ == "pub struct "@,
            p_enum@ == "pub enum "@,
            p_type@ == "pub type "@,
            p_fn@ == "pub fn "@,
            i <= lb@.len(),
            rust_signatures(rust@) == views(sigs@) + signatures_from(texts, i as int),
        decreases lb@.len() - i,
    {
        let (from, to) = lb[i];
        assert(texts[i as int] == cs@.subrange(from as int, to as int));
        assert(lb@[i as int].0 <= lb@[i as int].1 <= cs@.len());
        let (a, b) = trim_bounds(&cs, from, to);
        let ghost t = trim(texts[i as int]);
        if range_starts_with(&cs, a, b, &p_trait) || range_starts_with(&cs, a, b, &p_struct)
            || range_starts_with(&cs, a, b, &p_enum) || range_starts_with(&cs, a, b, &p_type) {
            let mut block = string_of(&cs, from, to);
            let mut depth = brace_delta_in(&cs, from, to);
            let ghost d0 = depth as int;
            let mut j = i + 1;
            assert(texts.subrange(i as int, j as int) =~= seq![texts[i as int]]);
            while j < lb.len() && depth > 0
                invariant
                    cs@ == rust@,
                    texts == range_texts(cs@, lb@),
                    ranges_within(lb@, cs@.len() as int),
                    ranges_ascending(lb@),
                    i < j <= lb@.len(),
                    block@ == join(texts.subrange(i as int, j as int), "\n"@),
                    block_end(texts, i + 1, d0) == block_end(texts, j as int, depth as int),
                    -(lb@[j - 1].1 as int) <= depth <= lb@[j - 1].1,
                decreases lb@.len() - j,
            {
                let (f2, t2) = lb[j];
                assert(lb@[j as int].0 <= lb@[j as int].1 <= cs@.len());
                assert(lb@[j - 1].1 <= lb@[j as int].0);
                assert(texts[j as int] == cs@.subrange(f2 as int, t2 as int));
                let line = string_of(&cs, f2, t2);
                block.append("\n");
                block.append(line.as_str());
                assert(texts.subrange(i as int, j + 1).drop_last() =~= texts.subrange(
                    i as int,
                    j as int,
                ));
                let d = brace_delta_in(&cs, f2, t2);
                depth = depth + d;
                j += 1;
            }
            proof {
                lemma_block_end(texts, i + 1, d0);
            }
            sigs.push(block);
            proof {
                assert(views(sigs@) =~= views(sigs@.drop_last()) + seq![sigs@.last()@]);
            }
            i = j;
        } else if range_starts_with(&cs, a, b, &p_fn) {
            let b2 = skip_char_backward(&cs, a, b, '{');
            let (a3, b3) = trim_bounds(&cs, a, b2);
            sigs.push(string_of(&cs, a3, b3));
            proof {
                assert(views(sigs@) =~= views(sigs@.drop_last()) + seq![sigs@.last()@]);
            }
            i += 1;
        } else {
            i += 1;
        }
    }
    sigs
}

/// The assembled module: the translated units separated by blank lines,
/// trimmed.
pub open spec fn module_body(units: Seq<Seq<char>>) -> Seq<char> {
    trim(join(units, "\n\n"@))
}

/// The final Rust module built from the translated units.
pub fn rust_module_body(rust_units: &Vec<String>) -> (out: String)
    ensures
        out@ == module_body(views(rust_units@)),
{
    let joined = join_strings(rust_units, "\n\n");
    trimmed(joined.as_str())
}

/// The text that stands in for the module when the pipeline fails: the
/// error, each of its lines behind a `// ` comment marker.
pub open spec fn failure_text(e: Seq<char>) -> Seq<char> {
    "// C# -> Rust conversion failed:\n// "@ + replace(e, "\n"@, "\n// "@) + "\n"@
}

/// The output of a failed conversion.
pub fn failure_comment(e: &str) -> (out: String)
    ensures
        out@ == failure_text(e@),
{
    let mut out = String::new();
    out.append("// C# -> Rust conversion failed:\n// ");
    proof {
        reveal_strlit("\n");
    }
    let body = replace_all(e, "\n", "\n// ");
    out.append(body.as_str());
    out.append("\n");
    out
}

/// Every line feed in `e` with `"\n"` replaced by `"\n// "` is followed by `//`.
proof fn lemma_commented_lines(e: Seq<char>, i: int)
    requires
        0 <= i <= e.len(),
    ensures
        ({
            let r = replace_from(e, "\n"@, "\n// "@, i);
            forall|k: int|
                0 <= k < r.len() && #[trigger] r[k] == '\n' ==> k + 2 < r.len() && r[k + 1] == '/'
                    && r[k + 2] == '/'
        }),
    decreases e.len() - i,
{
    reveal_strlit("\n");
    reveal_strlit("\n// ");
    if i < e.len() {
        let r = replace_from(e, "\n"@, "\n// "@, i);
        if occurs_at(e, "\n"@, i) {
            lemma_commented_lines(e, i + 1);
            let rest = replace_from(e, "\n"@, "\n// "@, i + 1);
            assert(r == "\n// "@ + rest);
            assert forall|k: int| 0 <= k < r.len() && #[trigger] r[k] == '\n' implies k + 2 < r.len()
                && r[k + 1] == '/' && r[k + 2] == '/' by {
                if k >= 4 {
                    assert(r[k] == rest[k - 4]);
                    assert(r[k + 1] == rest[k - 3]);
                    assert(r[k + 2] == rest[k - 2]);
                }
            }
        } else {
            lemma_commented_lines(e, i + 1);
            let rest = replace_from(e, "\n"@, "\n// "@, i + 1);
            assert(e.subrange(i, i + 1) =~= seq![e[i]]);
            if e[i] == '\n' {
                assert(e.subrange(i, i + 1) =~= "\n"@);
            }
            assert(e[i] != '\n');
            assert(r == seq![e[i]] + rest);
            assert forall|k: int| 0 <= k < r.len() && #[trigger] r[k] == '\n' implies k + 2 < r.len()
                && r[k + 1] == '/' && r[k + 2] == '/' by {
                if k >= 1 {
                    assert(r[k] == rest[k - 1]);
                    assert(r[k + 1] == rest[k]);
                    assert(r[k + 2] == rest[k + 1]);
                }
            }
        }
    }
}

/// The output of a failed conversion is a Rust comment: it starts with
/// `//`, and every line after a line feed (but the empty end) does too.
pub proof fn law_failure_output_is_comment(e: Seq<char>)
    ensures
        ({
            let out = failure_text(e);
            &&& starts_with(out, "//"@)
            &&& forall|k: int|
                0 <= k < out.len() - 1 && #[trigger] out[k] == '\n' ==> k + 2 < out.len() && out[k
                    + 1] == '/' && out[k + 2] == '/'
        }),
{
    reveal_strlit("//");
    reveal_strlit("\n");
    reveal_strlit("// C# -> Rust conversion failed:\n// ");
    let head = "// C# -> Rust conversion failed:\n// "@;
    let body = replace(e, "\n"@, "\n// "@);
    let out = failure_text(e);
    lemma_commented_lines(e, 0);
    assert(out == head + body + "\n"@);
    assert(out.subrange(0, 2) =~= "//"@);
    assert forall|k: int| 0 <= k < out.len() - 1 && #[trigger] out[k] == '\n' implies k + 2 < out.len()
        && out[k + 1] == '/' && out[k + 2] == '/' by {
        if k < head.len() {
            assert(k == 32);
        } else {
            assert(k < head.len() + body.len());
            assert(out[k] == body[k - head.len()]);
            assert(out[k + 1] == body[k + 1 - head.len()]);
            assert(out[k + 2] == body[k + 2 - head.len()]);
        }
    }
}

} // verus!
