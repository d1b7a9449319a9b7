//! What the web UI computes: HTML escaping, the result page, and the table
//! of finished conversions waiting to be fetched.
use vstd::prelude::*;
use std::sync::{Arc, Mutex};
use crate::text::{
    lacks, lemma_replace_lacks, char_map, chars_of, lemma_char_map_compose, lemma_char_map_ext, lemma_char_map_identity,
    lemma_char_map_single, lemma_replace_char, lemma_replace_char_map, lemma_subst_absent,
    meets_whole, replace, replace_all, replaced_piece, same_text, subst,
};

verus! {

/// What one character becomes in HTML text.
pub open spec fn escape_char(c: char) -> Seq<char> {
    if c == '&' {
        "&amp;"@
    } else if c == '<' {
        "&lt;"@
    } else if c == '>' {
        "&gt;"@
    } else if c == '"' {
        "&quot;"@
    } else {
        seq![c]
    }
}

/// `s` with `&`, `<`, `>` and `"` written as character references.
pub open spec fn html_escaped(s: Seq<char>) -> Seq<char>
    decreases s.len(),
{
    if s.len() == 0 {
        seq![]
    } else {
        html_escaped(s.drop_last()) + escape_char(s.last())
    }
}

/// Escapes text for inclusion in HTML.
pub fn html_escape(s: &str) -> (out: String)
    ensures
        out@ == html_escaped(s@),
{
    let cs = chars_of(s);
    let mut out = String::new();
    let mut i: usize = 0;
    while i < cs.len()
        invariant
            cs@ == s@,
            i <= cs@.len(),
            out@ == html_escaped(cs@.take(i as int)),
        decreases cs@.len() - i,
    {
        assert(cs@.take(i + 1).drop_last() =~= cs@.take(i as int));
        let c = cs[i];
        if c == '&' {
            out.append("&amp;");
        } else if c == '<' {
            out.append("&lt;");
        } else if c == '>' {
            out.append("&gt;");
        } else if c == '"' {
            out.append("&quot;");
        } else {
            out.push(c);
        }
        i += 1;
    }
    assert(cs@.take(cs@.len() as int) =~= cs@);
    out
}

/// Escaped text holds no `<`, `>` or `"`: it cannot open a tag or close an
/// attribute value.
pub proof fn law_escaped_has_no_markup(s: Seq<char>)
    ensures
        forall|i: int|
            0 <= i < html_escaped(s).len() ==> {
                let c = #[trigger] html_escaped(s)[i];
                c != '<' && c != '>' && c != '"'
            },
    decreases s.len(),
{
    reveal_strlit("&amp;");
    reveal_strlit("&lt;");
    reveal_strlit("&gt;");
    reveal_strlit("&quot;");
    if s.len() > 0 {
        law_escaped_has_no_markup(s.drop_last());
        let prev = html_escaped(s.drop_last());
        let tail = escape_char(s.last());
        assert forall|i: int| 0 <= i < html_escaped(s).len() implies {
            let c = #[trigger] html_escaped(s)[i];
            c != '<' && c != '>' && c != '"'
        } by {
            if i >= prev.len() {
                assert(html_escaped(s)[i] == tail[i - prev.len()]);
            } else {
                assert(html_escaped(s)[i] == prev[i]);
            }
        }
    }
}

/// `html_escaped` is `char_map` with `escape_char`.
proof fn lemma_escaped_char_map(s: Seq<char>)
    ensures
        html_escaped(s) == char_map(s, |x: char| escape_char(x)),
    decreases s.len(),
{
    if s.len() > 0 {
        lemma_escaped_char_map(s.drop_last());
    }
}

/// Escaping is the chain of replacements `&` -> `&amp;`, `<` -> `&lt;`,
/// `>` -> `&gt;`, `"` -> `&quot;`, in that order.
pub proof fn law_escape_is_chained_replace(s: Seq<char>)
    ensures
        html_escaped(s) == replace(
            replace(replace(replace(s, "&"@, "&amp;"@), "<"@, "&lt;"@), ">"@, "&gt;"@),
            "\""@,
            "&quot;"@,
        ),
{
    reveal_strlit("&");
    reveal_strlit("<");
    reveal_strlit(">");
    reveal_strlit("\"");
    reveal_strlit("&amp;");
    reveal_strlit("&lt;");
    reveal_strlit("&gt;");
    reveal_strlit("&quot;");
    let amp = "&amp;"@;
    let lt = "&lt;"@;
    let gt = "&gt;"@;
    let quot = "&quot;"@;
    assert("&"@ =~= seq!['&']);
    assert("<"@ =~= seq!['<']);
    assert(">"@ =~= seq!['>']);
    assert("\""@ =~= seq!['"']);
    let g1 = subst('&', amp);
    let g2 = subst('<', lt);
    let g3 = subst('>', gt);
    let g4 = subst('"', quot);
    let r1 = replace(s, "&"@, amp);
    let r2 = replace(r1, "<"@, lt);
    let r3 = replace(r2, ">"@, gt);
    let r4 = replace(r3, "\""@, quot);
    lemma_replace_char(s, '&', amp, 0);
    lemma_replace_char(r1, '<', lt, 0);
    lemma_replace_char(r2, '>', gt, 0);
    lemma_replace_char(r3, '"', quot, 0);
    assert(s.subrange(0, s.len() as int) =~= s);
    assert(r1.subrange(0, r1.len() as int) =~= r1);
    assert(r2.subrange(0, r2.len() as int) =~= r2);
    assert(r3.subrange(0, r3.len() as int) =~= r3);
    let h12 = |x: char| char_map(g1(x), g2);
    let h123 = |x: char| char_map(h12(x), g3);
    let h = |x: char| char_map(h123(x), g4);
    lemma_char_map_compose(s, g1, g2);
    lemma_char_map_compose(s, h12, g3);
    lemma_char_map_compose(s, h123, g4);
    assert(r4 == char_map(s, h));
    assert(amp =~= seq!['&', 'a', 'm', 'p', ';']);
    assert(lt =~= seq!['&', 'l', 't', ';']);
    assert(gt =~= seq!['&', 'g', 't', ';']);
    assert(quot =~= seq!['&', 'q', 'u', 'o', 't', ';']);
    assert forall|x: char| #[trigger] h(x) == escape_char(x) by {
        lemma_char_map_single(x, g2);
        lemma_char_map_single(x, g3);
        lemma_char_map_single(x, g4);
        if x == '&' {
            lemma_subst_absent(amp, '<', lt);
            lemma_subst_absent(amp, '>', gt);
            lemma_subst_absent(amp, '"', quot);
        } else if x == '<' {
            lemma_subst_absent(lt, '>', gt);
            lemma_subst_absent(lt, '"', quot);
        } else if x == '>' {
            lemma_subst_absent(gt, '"', quot);
        } else if x == '"' {
        } else {
        }
    }
    lemma_char_map_ext(s, h, |x: char| escape_char(x));
    lemma_escaped_char_map(s);
}

/// What a character is written as once `"`, then `>`, then `<` are written
/// back: references for the rest, the character itself for those.
pub open spec fn partly_escaped(x: char, quot: bool, gt: bool, lt: bool) -> Seq<char> {
    if (quot && x == '"') || (gt && x == '>') || (lt && x == '<') {
        seq![x]
    } else {
        escape_char(x)
    }
}

/// Escaping is undone by the replacements `&quot;` -> `"`, `&gt;` -> `>`,
/// `&lt;` -> `<`, `&amp;` -> `&`, in that order: the escaped text gives the
/// original back.
pub proof fn law_escape_is_undone(s: Seq<char>)
    ensures
        replace(
            replace(replace(replace(html_escaped(s), "&quot;"@, "\""@), "&gt;"@, ">"@), "&lt;"@, "<"@),
            "&amp;"@,
            "&"@,
        ) == s,
{
    reveal_strlit("&");
    reveal_strlit("<");
    reveal_strlit(">");
    reveal_strlit("\"");
    reveal_strlit("&amp;");
    reveal_strlit("&lt;");
    reveal_strlit("&gt;");
    reveal_strlit("&quot;");
    let amp = "&amp;"@;
    let lt = "&lt;"@;
    let gt = "&gt;"@;
    let quot = "&quot;"@;
    assert(amp =~= seq!['&', 'a', 'm', 'p', ';']);
    assert(lt =~= seq!['&', 'l', 't', ';']);
    assert(gt =~= seq!['&', 'g', 't', ';']);
    assert(quot =~= seq!['&', 'q', 'u', 'o', 't', ';']);
    assert("&"@ =~= seq!['&']);
    assert("<"@ =~= seq!['<']);
    assert(">"@ =~= seq!['>']);
    assert("\""@ =~= seq!['"']);
    let e0 = |x: char| partly_escaped(x, false, false, false);
    let e1 = |x: char| partly_escaped(x, true, false, false);
    let e2 = |x: char| partly_escaped(x, true, true, false);
    let e3 = |x: char| partly_escaped(x, true, true, true);
    let e4 = |x: char| seq![x];
    assert forall|x: char|
        #![trigger partly_escaped(x, false, false, false)]
        meets_whole(partly_escaped(x, false, false, false), quot) && meets_whole(
            partly_escaped(x, true, false, false),
            gt,
        ) && meets_whole(partly_escaped(x, true, true, false), lt) && meets_whole(
            partly_escaped(x, true, true, true),
            amp,
        ) by {
        assert(forall|k: int| 1 <= k < amp.len() ==> #[trigger] amp[k] != '&');
        assert(forall|k: int| 1 <= k < lt.len() ==> #[trigger] lt[k] != '&');
        assert(forall|k: int| 1 <= k < gt.len() ==> #[trigger] gt[k] != '&');
        assert(forall|k: int| 1 <= k < quot.len() ==> #[trigger] quot[k] != '&');
    }
    lemma_escaped_char_map(s);
    lemma_char_map_ext(s, |x: char| escape_char(x), e0);
    lemma_replace_char_map(s, e0, quot, "\""@);
    lemma_char_map_ext(s, |x: char| replaced_piece(e0(x), quot, "\""@), e1);
    lemma_replace_char_map(s, e1, gt, ">"@);
    lemma_char_map_ext(s, |x: char| replaced_piece(e1(x), gt, ">"@), e2);
    lemma_replace_char_map(s, e2, lt, "<"@);
    lemma_char_map_ext(s, |x: char| replaced_piece(e2(x), lt, "<"@), e3);
    lemma_replace_char_map(s, e3, amp, "&"@);
    lemma_char_map_ext(s, |x: char| replaced_piece(e3(x), amp, "&"@), e4);
    lemma_char_map_identity(s);
}

/// The result page: the template with `{{NAME}}`, `{{SRC}}` and
/// `{{OUTPUT}}` replaced, in that order, by the escaped file name, C# source
/// and Rust output.
pub open spec fn result_page(
    template: Seq<char>,
    name: Seq<char>,
    src: Seq<char>,
    output: Seq<char>,
) -> Seq<char> {
    replace(
        replace(replace(template, "{{NAME}}"@, html_escaped(name)), "{{SRC}}"@, html_escaped(src)),
        "{{OUTPUT}}"@,
        html_escaped(output),
    )
}

/// Whatever the file name, the C# source and the Rust output hold, the
/// filled page holds no `<`, `>` or `"` that its template does not: every
/// substituted value is escaped.
pub proof fn law_page_adds_no_markup(
    template: Seq<char>,
    name: Seq<char>,
    src: Seq<char>,
    output: Seq<char>,
)
    requires
        lacks(template, '<'),
        lacks(template, '>'),
        lacks(template, '"'),
    ensures
        lacks(result_page(template, name, src, output), '<'),
        lacks(result_page(template, name, src, output), '>'),
        lacks(result_page(template, name, src, output), '"'),
{
    law_escaped_has_no_markup(name);
    law_escaped_has_no_markup(src);
    law_escaped_has_no_markup(output);
    let n = html_escaped(name);
    let s = html_escaped(src);
    let o = html_escaped(output);
    lemma_page_lacks(template, n, s, o, '<');
    lemma_page_lacks(template, n, s, o, '>');
    lemma_page_lacks(template, n, s, o, '"');
}

proof fn lemma_page_lacks(template: Seq<char>, n: Seq<char>, s: Seq<char>, o: Seq<char>, c: char)
    requires
        lacks(template, c),
        lacks(n, c),
        lacks(s, c),
        lacks(o, c),
    ensures
        lacks(replace(replace(replace(template, "{{NAME}}"@, n), "{{SRC}}"@, s), "{{OUTPUT}}"@, o), c),
{
    let p1 = replace(template, "{{NAME}}"@, n);
    lemma_replace_lacks(template, "{{NAME}}"@, n, 0, c);
    let p2 = replace(p1, "{{SRC}}"@, s);
    lemma_replace_lacks(p1, "{{SRC}}"@, s, 0, c);
    lemma_replace_lacks(p2, "{{OUTPUT}}"@, o, 0, c);
}

/// Fills the result page template.
pub fn render_result(template: &str, name: &str, src: &str, output: &str) -> (page: String)
    ensures
        page@ == result_page(template@, name@, src@, output@),
{
    proof {
        reveal_strlit("{{NAME}}");
        reveal_strlit("{{SRC}}");
        reveal_strlit("{{OUTPUT}}");
    }
    let a = replace_all(template, "{{NAME}}", html_escape(name).as_str());
    let b = replace_all(a.as_str(), "{{SRC}}", html_escape(src).as_str());
    replace_all(b.as_str(), "{{OUTPUT}}", html_escape(output).as_str())
}

// ---------------------------------------------------------------------------
// Finished conversions
// ---------------------------------------------------------------------------

/// The page stored under `id` among `entries`, the latest entry winning.
pub open spec fn lookup(entries: Seq<(String, String)>, id: Seq<char>) -> Option<Seq<char>>
    decreases entries.len(),
{
    if entries.len() == 0 {
        None
    } else if entries.last().0@ == id {
        Some(entries.last().1@)
    } else {
        lookup(entries.drop_last(), id)
    }
}

/// No two entries share an id.
pub open spec fn distinct_ids(entries: Seq<(String, String)>) -> bool {
    forall|i: int, j: int|
        0 <= i < j < entries.len() ==> #[trigger] entries[i].0@ != #[trigger] entries[j].0@
}

proof fn lemma_lookup(entries: Seq<(String, String)>, id: Seq<char>)
    requires
        distinct_ids(entries),
    ensures
        lookup(entries, id) is None <==> forall|i: int|
            0 <= i < entries.len() ==> #[trigger] entries[i].0@ != id,
        forall|i: int|
            0 <= i < entries.len() && #[trigger] entries[i].0@ == id ==> lookup(entries, id) == Some(
                entries[i].1@,
            ),
    decreases entries.len(),
{
    if entries.len() > 0 {
        let init = entries.drop_last();
        assert(distinct_ids(init));
        lemma_lookup(init, id);
        assert forall|i: int| 0 <= i < entries.len() && #[trigger] entries[i].0@ == id implies lookup(
            entries,
            id,
        ) == Some(entries[i].1@) by {
            if i < entries.len() - 1 {
                assert(entries[i] == init[i]);
            }
        }
        if lookup(entries, id) is None {
            assert forall|i: int| 0 <= i < entries.len() implies #[trigger] entries[i].0@ != id by {
                if i < entries.len() - 1 {
                    assert(entries[i] == init[i]);
                }
            }
        }
    }
}

/// The conversions whose result page has not been fetched yet, by job id.
pub struct JobTable {
    entries: Vec<(String, String)>,
}

impl View for JobTable {
    type V = Map<Seq<char>, Seq<char>>;

    closed spec fn view(&self) -> Map<Seq<char>, Seq<char>> {
        Map::new(|id: Seq<char>| lookup(self.entries@, id) is Some, |id: Seq<char>| lookup(self.entries@, id)->0)
    }
}

impl JobTable {
    #[verifier::type_invariant]
    closed spec fn well_formed(self) -> bool {
        distinct_ids(self.entries@)
    }

    /// An empty table.
    pub fn new() -> (t: Self)
        ensures
            t@ == Map::<Seq<char>, Seq<char>>::empty(),
    {
        let t = JobTable { entries: Vec::new() };
        assert(t@ =~= Map::<Seq<char>, Seq<char>>::empty());
        t
    }

    /// The index of the entry for `id`.
    fn position(&self, id: &str) -> (r: Option<usize>)
        ensures
            match r {
                Some(i) => i < self.entries@.len() && self.entries@[i as int].0@ == id@,
                None => forall|i: int|
                    0 <= i < self.entries@.len() ==> #[trigger] self.entries@[i].0@ != id@,
            },
    {
        let mut i: usize = 0;
        while i < self.entries.len()
            invariant
                i <= self.entries@.len(),
                forall|k: int| 0 <= k < i ==> #[trigger] self.entries@[k].0@ != id@,
            decreases self.entries@.len() - i,
        {
            if same_text(self.entries[i].0.as_str(), id) {
                return Some(i);
            }
            i += 1;
        }
        None
    }

    /// Stores the result page of job `id`, replacing an earlier one.
    pub fn insert(&mut self, id: String, html: String)
        ensures
            final(self)@ == old(self)@.insert(id@, html@),
    {
        proof {
            use_type_invariant(&*self);
        }
        let ghost old_entries = self.entries@;
        let ghost key = id@;
        let ghost value = html@;
        match self.position(id.as_str()) {
            Some(i) => {
                let mut entries: Vec<(String, String)> = Vec::new();
                std::mem::swap(&mut entries, &mut self.entries);
                entries.set(i, (id, html));
                let ghost ne = entries@;
                assert(ne =~= old_entries.update(i as int, ne[i as int]));
                assert(distinct_ids(ne)) by {
                    assert forall|a: int, b: int| 0 <= a < b < ne.len() implies #[trigger] ne[a].0@
                        != #[trigger] ne[b].0@ by {
                        if a != i && b != i {
                            assert(ne[a] == old_entries[a] && ne[b] == old_entries[b]);
                        } else if a == i {
                            assert(ne[b] == old_entries[b]);
                        } else {
                            assert(ne[a] == old_entries[a]);
                        }
                    }
                }
                self.entries = entries;
                proof {
                    lemma_lookup(old_entries, key);
                    lemma_lookup(ne, key);
                    assert(ne[i as int].0@ == key && ne[i as int].1@ == value);
                    assert(lookup(ne, key) == Some(value));
                    assert forall|k: Seq<char>| k != key implies lookup(ne, k) == lookup(
                        old_entries,
                        k,
                    ) by {
                        lemma_lookup(ne, k);
                        lemma_lookup(old_entries, k);
                        if lookup(old_entries, k) is Some {
                            let j = choose|j: int|
                                0 <= j < old_entries.len() && #[trigger] old_entries[j].0@ == k;
                            assert(ne[j] == old_entries[j]);
                        }
                        if lookup(ne, k) is Some {
                            let j = choose|j: int| 0 <= j < ne.len() && #[trigger] ne[j].0@ == k;
                            assert(ne[j] == old_entries[j]);
                        }
                    }
                    assert(self@ =~= old(self)@.insert(key, value));
                }
            },
            None => {
                let mut entries: Vec<(String, String)> = Vec::new();
                std::mem::swap(&mut entries, &mut self.entries);
                entries.push((id, html));
                let ghost ne = entries@;
                assert(ne.drop_last() =~= old_entries);
                assert(distinct_ids(ne)) by {
                    assert forall|a: int, b: int| 0 <= a < b < ne.len() implies #[trigger] ne[a].0@
                        != #[trigger] ne[b].0@ by {
                        if b == ne.len() - 1 {
                            assert(ne[a] == old_entries[a]);
                        } else {
                            assert(ne[a] == old_entries[a] && ne[b] == old_entries[b]);
                        }
                    }
                }
                self.entries = entries;
                proof {
                    assert(ne.last().0@ == key && ne.last().1@ == value);
                    assert(lookup(ne, key) == Some(value));
                    assert forall|k: Seq<char>| k != key implies lookup(ne, k) == lookup(
                        old_entries,
                        k,
                    ) by {
                        assert(ne.drop_last() =~= old_entries);
                    }
                    assert(self@ =~= old(self)@.insert(key, value));
                }
            },
        }
    }

    /// Takes the result page of job `id` out of the table: a page is served
    /// once.
    pub fn take(&mut self, id: &str) -> (html: Option<String>)
        ensures
            match html {
                Some(h) => old(self)@.contains_key(id@) && old(self)@[id@] == h@,
                None => !old(self)@.contains_key(id@),
            },
            final(self)@ == old(self)@.remove(id@),
    {
        proof {
            use_type_invariant(&*self);
        }
        let ghost old_entries = self.entries@;
        proof {
            lemma_lookup(old_entries, id@);
        }
        match self.position(id) {
            Some(i) => {
                let mut entries: Vec<(String, String)> = Vec::new();
                std::mem::swap(&mut entries, &mut self.entries);
                let (_, html) = entries.remove(i);
                let ghost ne = entries@;
                assert(ne =~= old_entries.remove(i as int));
                assert(distinct_ids(ne)) by {
                    assert forall|a: int, b: int| 0 <= a < b < ne.len() implies #[trigger] ne[a].0@
                        != #[trigger] ne[b].0@ by {
                        if a < i && b < i {
                            assert(ne[a] == old_entries[a] && ne[b] == old_entries[b]);
                        } else if a < i {
                            assert(ne[a] == old_entries[a] && ne[b] == old_entries[b + 1]);
                        } else {
                            assert(ne[a] == old_entries[a + 1] && ne[b] == old_entries[b + 1]);
                        }
                    }
                }
                self.entries = entries;
                proof {
                    lemma_lookup(ne, id@);
                    assert forall|k: Seq<char>| k != id@ implies lookup(ne, k) == lookup(
                        old_entries,
                        k,
                    ) by {
                        lemma_lookup(ne, k);
                        lemma_lookup(old_entries, k);
                        if lookup(old_entries, k) is Some {
                            let j = choose|j: int|
                                0 <= j < old_entries.len() && #[trigger] old_entries[j].0@ == k;
                            if j < i {
                                assert(ne[j] == old_entries[j]);
                            } else {
                                assert(ne[j - 1] == old_entries[j]);
                            }
                        }
                        if lookup(ne, k) is Some {
                            let j = choose|j: int| 0 <= j < ne.len() && #[trigger] ne[j].0@ == k;
                            if j < i {
                                assert(ne[j] == old_entries[j]);
                            } else {
                                assert(ne[j] == old_entries[j + 1]);
                            }
                        }
                    }
                    assert(self@ =~= old(self)@.remove(id@));
                }
                Some(html)
            },
            None => {
                assert(old(self)@.remove(id@) =~= old(self)@);
                None
            },
        }
    }
}

/// A stored result page is served once: fetching it after it was stored
/// gives that page, and fetching it again gives nothing; other jobs are
/// untouched.
pub proof fn law_page_served_once(
    jobs: Map<Seq<char>, Seq<char>>,
    id: Seq<char>,
    html: Seq<char>,
    other: Seq<char>,
)
    requires
        other != id,
    ensures
        jobs.insert(id, html).contains_key(id),
        jobs.insert(id, html)[id] == html,
        !jobs.insert(id, html).remove(id).contains_key(id),
        jobs.insert(id, html).remove(id).contains_key(other) == jobs.contains_key(other),
        jobs.contains_key(other) ==> jobs.insert(id, html).remove(id)[other] == jobs[other],
        jobs.insert(id, html).remove(id) == jobs.remove(id),
{
    assert(jobs.insert(id, html).remove(id) =~= jobs.remove(id));
}

#[verifier::external_type_specification]
#[verifier::external_body]
#[verifier::reject_recursive_types(T)]
pub struct ExMutex<T: ?Sized>(Mutex<T>);

/// The job table that a lock was created holding. (What it holds later
/// changes behind shared references, and is not named.)
pub uninterp spec fn jobs_at_creation(lock: Mutex<JobTable>) -> Map<Seq<char>, Seq<char>>;

/// `std::sync::Mutex::new`: a lock around `table`. The contract claims, as
/// the documentation says, that the new lock holds `table`, named as the
/// table the lock was created holding.
#[verifier::external_body]
fn guarded(table: JobTable) -> (m: Mutex<JobTable>)
    ensures
        jobs_at_creation(m) == table@,
{
    Mutex::new(table)
}

/// The state shared by the request handlers: the finished conversions.
#[derive(Clone)]
pub struct AppState {
    pub jobs: Arc<Mutex<JobTable>>,
}

impl AppState {
    /// State with no finished conversion: a fresh, empty job table.
    pub fn new() -> (s: Self)
        ensures
            jobs_at_creation(*s.jobs) == Map::<Seq<char>, Seq<char>>::empty(),
    {
        AppState { jobs: Arc::new(guarded(JobTable::new())) }
    }
}

} // verus!
