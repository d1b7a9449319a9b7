//! Character-level text primitives: the subset of `str`'s behaviour that the
//! migrator relies on (whitespace trimming, line splitting, searching,
//! replacing and joining), stated over `Seq<char>` and implemented over
//! vectors of characters.
use vstd::prelude::*;
use vstd::utf8::{decode_utf8, valid_utf8};

verus! {

broadcast use vstd::string::group_string_axioms;

/// `String::push`, as its documentation states it: the character is appended
/// at the end of the string. Believed, not proved.
pub assume_specification[ String::push ](s: &mut String, ch: char)
    ensures
        final(s)@ == old(s)@.push(ch),
;

// ---------------------------------------------------------------------------
// Whitespace and trimming
// ---------------------------------------------------------------------------

/// Unicode `White_Space`, the property behind `char::is_whitespace`.
pub open spec fn is_ws(c: char) -> bool {
    ||| c == '\t' || c == '\n' || c == '\x0B' || c == '\x0C' || c == '\r' || c == ' '
    ||| c == '\u{85}' || c == '\u{A0}' || c == '\u{1680}'
    ||| ('\u{2000}' <= c && c <= '\u{200A}')
    ||| c == '\u{2028}' || c == '\u{2029}' || c == '\u{202F}' || c == '\u{205F}'
    ||| c == '\u{3000}'
}

pub fn is_ws_char(c: char) -> (r: bool)
    ensures
        r == is_ws(c),
{
    c == '\t' || c == '\n' || c == '\x0B' || c == '\x0C' || c == '\r' || c == ' ' || c == '\u{85}'
        || c == '\u{A0}' || c == '\u{1680}' || ('\u{2000}' <= c && c <= '\u{200A}') || c
        == '\u{2028}' || c == '\u{2029}' || c == '\u{202F}' || c == '\u{205F}' || c == '\u{3000}'
}

/// `s` without its leading whitespace (`str::trim_start`).
pub open spec fn trim_start(s: Seq<char>) -> Seq<char>
    decreases s.len(),
{
    if s.len() > 0 && is_ws(s[0]) {
        trim_start(s.drop_first())
    } else {
        s
    }
}

/// `s` without its trailing whitespace (`str::trim_end`).
pub open spec fn trim_end(s: Seq<char>) -> Seq<char>
    decreases s.len(),
{
    if s.len() > 0 && is_ws(s.last()) {
        trim_end(s.drop_last())
    } else {
        s
    }
}

/// `s` without leading and trailing whitespace (`str::trim`).
pub open spec fn trim(s: Seq<char>) -> Seq<char> {
    trim_end(trim_start(s))
}

/// Whether two texts are equal.
pub fn same_text(a: &str, b: &str) -> (r: bool)
    ensures
        r == (a@ == b@),
{
    let x = chars_of(a);
    let y = chars_of(b);
    if x.len() != y.len() {
        return false;
    }
    let mut i: usize = 0;
    while i < x.len()
        invariant
            x@ == a@,
            y@ == b@,
            x@.len() == y@.len(),
            i <= x@.len(),
            forall|k: int| 0 <= k < i ==> x@[k] == y@[k],
        decreases x@.len() - i,
    {
        if x[i] != y[i] {
            return false;
        }
        i += 1;
    }
    assert(x@ =~= y@);
    true
}

/// `s` without the trailing run of `c` (`str::trim_end_matches` with a char).
pub open spec fn trim_end_char(s: Seq<char>, c: char) -> Seq<char>
    decreases s.len(),
{
    if s.len() > 0 && s.last() == c {
        trim_end_char(s.drop_last(), c)
    } else {
        s
    }
}

/// Skips the leading whitespace of `cs[from..to]`.
pub fn skip_ws_forward(cs: &Vec<char>, from: usize, to: usize) -> (a: usize)
    requires
        from <= to <= cs@.len(),
    ensures
        from <= a <= to,
        cs@.subrange(a as int, to as int) == trim_start(cs@.subrange(from as int, to as int)),
{
    let mut i = from;
    while i < to && is_ws_char(cs[i])
        invariant
            from <= i <= to <= cs@.len(),
            trim_start(cs@.subrange(i as int, to as int)) == trim_start(
                cs@.subrange(from as int, to as int),
            ),
        decreases to - i,
    {
        assert(cs@.subrange(i as int, to as int).drop_first() =~= cs@.subrange(
            i + 1,
            to as int,
        ));
        i += 1;
    }
    i
}

/// Skips the trailing whitespace of `cs[from..to]`.
pub fn skip_ws_backward(cs: &Vec<char>, from: usize, to: usize) -> (b: usize)
    requires
        from <= to <= cs@.len(),
    ensures
        from <= b <= to,
        cs@.subrange(from as int, b as int) == trim_end(cs@.subrange(from as int, to as int)),
{
    let mut j = to;
    while j > from && is_ws_char(cs[j - 1])
        invariant
            from <= j <= to <= cs@.len(),
            trim_end(cs@.subrange(from as int, j as int)) == trim_end(
                cs@.subrange(from as int, to as int),
            ),
        decreases j,
    {
        assert(cs@.subrange(from as int, j as int).drop_last() =~= cs@.subrange(
            from as int,
            j - 1,
        ));
        j -= 1;
    }
    j
}

/// `s` without the leading and trailing runs of `c` (`str::trim_matches`).
pub open spec fn trim_char(s: Seq<char>, c: char) -> Seq<char> {
    trim_end_char(trim_start_char(s, c), c)
}

/// `s` without the leading run of `c`.
pub open spec fn trim_start_char(s: Seq<char>, c: char) -> Seq<char>
    decreases s.len(),
{
    if s.len() > 0 && s[0] == c {
        trim_start_char(s.drop_first(), c)
    } else {
        s
    }
}

/// Skips the leading run of `c` in `cs[from..to]`.
pub fn skip_char_forward(cs: &Vec<char>, from: usize, to: usize, c: char) -> (a: usize)
    requires
        from <= to <= cs@.len(),
    ensures
        from <= a <= to,
        cs@.subrange(a as int, to as int) == trim_start_char(cs@.subrange(from as int, to as int), c),
{
    let mut i = from;
    while i < to && cs[i] == c
        invariant
            from <= i <= to <= cs@.len(),
            trim_start_char(cs@.subrange(i as int, to as int), c) == trim_start_char(
                cs@.subrange(from as int, to as int),
                c,
            ),
        decreases to - i,
    {
        assert(cs@.subrange(i as int, to as int).drop_first() =~= cs@.subrange(i + 1, to as int));
        i += 1;
    }
    i
}

/// Skips the trailing run of `c` in `cs[from..to]`.
pub fn skip_char_backward(cs: &Vec<char>, from: usize, to: usize, c: char) -> (b: usize)
    requires
        from <= to <= cs@.len(),
    ensures
        from <= b <= to,
        cs@.subrange(from as int, b as int) == trim_end_char(cs@.subrange(from as int, to as int), c),
{
    let mut j = to;
    while j > from && cs[j - 1] == c
        invariant
            from <= j <= to <= cs@.len(),
            trim_end_char(cs@.subrange(from as int, j as int), c) == trim_end_char(
                cs@.subrange(from as int, to as int),
                c,
            ),
        decreases j,
    {
        assert(cs@.subrange(from as int, j as int).drop_last() =~= cs@.subrange(
            from as int,
            j - 1,
        ));
        j -= 1;
    }
    j
}

/// The bounds of `trim(cs[from..to])` inside `cs`.
pub fn trim_bounds(cs: &Vec<char>, from: usize, to: usize) -> (r: (usize, usize))
    requires
        from <= to <= cs@.len(),
    ensures
        from <= r.0 <= r.1 <= to,
        cs@.subrange(r.0 as int, r.1 as int) == trim(cs@.subrange(from as int, to as int)),
{
    let a = skip_ws_forward(cs, from, to);
    let b = skip_ws_backward(cs, a, to);
    (a, b)
}

// ---------------------------------------------------------------------------
// Searching
// ---------------------------------------------------------------------------

/// `p` occurs in `s` starting at index `k`.
pub open spec fn occurs_at(s: Seq<char>, p: Seq<char>, k: int) -> bool {
    0 <= k && k + p.len() <= s.len() && s.subrange(k, k + p.len()) == p
}

/// `s` begins with `p` (`str::starts_with`).
pub open spec fn starts_with(s: Seq<char>, p: Seq<char>) -> bool {
    occurs_at(s, p, 0)
}

/// `p` occurs somewhere in `s` (`str::contains`).
pub open spec fn contains(s: Seq<char>, p: Seq<char>) -> bool {
    exists|k: int| occurs_at(s, p, k)
}

/// The first index at or after `i` where `p` occurs in `s`.
pub open spec fn find_from(s: Seq<char>, p: Seq<char>, i: int) -> Option<int>
    decreases s.len() + 1 - i,
{
    if i < 0 || i + p.len() > s.len() {
        None
    } else if occurs_at(s, p, i) {
        Some(i)
    } else {
        find_from(s, p, i + 1)
    }
}

/// The first index where `p` occurs in `s` (`str::find`).
pub open spec fn find(s: Seq<char>, p: Seq<char>) -> Option<int> {
    find_from(s, p, 0)
}

/// The last index at or before `i` where `p` occurs in `s`.
pub open spec fn rfind_upto(s: Seq<char>, p: Seq<char>, i: int) -> Option<int>
    decreases i + 1,
{
    if i < 0 {
        None
    } else if occurs_at(s, p, i) {
        Some(i)
    } else {
        rfind_upto(s, p, i - 1)
    }
}

/// The last index where `p` occurs in `s` (`str::rfind`).
pub open spec fn rfind(s: Seq<char>, p: Seq<char>) -> Option<int> {
    rfind_upto(s, p, s.len() - p.len())
}

pub proof fn lemma_find_from(s: Seq<char>, p: Seq<char>, i: int)
    requires
        0 <= i,
    ensures
        find_from(s, p, i) matches Some(k) ==> i <= k && occurs_at(s, p, k) && forall|j: int|
            i <= j < k ==> !occurs_at(s, p, j),
        find_from(s, p, i) is None ==> forall|j: int| i <= j ==> !occurs_at(s, p, j),
    decreases s.len() + 1 - i,
{
    if i + p.len() <= s.len() && !occurs_at(s, p, i) {
        lemma_find_from(s, p, i + 1);
    }
}

pub proof fn lemma_rfind_upto(s: Seq<char>, p: Seq<char>, i: int)
    requires
        i + p.len() <= s.len(),
    ensures
        rfind_upto(s, p, i) matches Some(k) ==> k <= i && occurs_at(s, p, k) && forall|j: int|
            k < j <= i ==> !occurs_at(s, p, j),
        rfind_upto(s, p, i) is None ==> forall|j: int| j <= i ==> !occurs_at(s, p, j),
    decreases i + 1,
{
    if i >= 0 && !occurs_at(s, p, i) {
        lemma_rfind_upto(s, p, i - 1);
    }
}

/// `p` is found in `s` exactly when it occurs in it.
pub proof fn lemma_find_contains(s: Seq<char>, p: Seq<char>)
    ensures
        find(s, p) is Some <==> contains(s, p),
{
    lemma_find_from(s, p, 0);
}

/// Whether `p` occurs in `cs` at index `k`.
pub fn matches_at(cs: &Vec<char>, p: &Vec<char>, k: usize) -> (r: bool)
    ensures
        r == occurs_at(cs@, p@, k as int),
{
    if k > cs.len() || p.len() > cs.len() - k {
        return false;
    }
    let mut j: usize = 0;
    while j < p.len()
        invariant
            k + p.len() <= cs.len(),
            j <= p@.len(),
            forall|m: int| 0 <= m < j ==> cs@[k + m] == p@[m],
        decreases p@.len() - j,
    {
        if cs[k + j] != p[j] {
            assert(cs@.subrange(k as int, k + p@.len())[j as int] != p@[j as int]);
            return false;
        }
        j += 1;
    }
    assert(cs@.subrange(k as int, k + p@.len()) =~= p@);
    true
}

/// `str::find` from index `from` on.
pub fn find_at_or_after(cs: &Vec<char>, p: &Vec<char>, from: usize) -> (r: Option<usize>)
    ensures
        r matches Some(k) ==> find_from(cs@, p@, from as int) == Some(k as int),
        r is None ==> find_from(cs@, p@, from as int) is None,
{
    if p.len() == 0 {
        if from <= cs.len() {
            assert(cs@.subrange(from as int, from as int) =~= p@);
            return Some(from);
        }
        return None;
    }
    let mut i = from;
    proof {
        lemma_find_from(cs@, p@, from as int);
    }
    while p.len() <= cs.len() && i <= cs.len() - p.len()
        invariant
            from <= i,
            1 <= p@.len(),
            find_from(cs@, p@, from as int) == find_from(cs@, p@, i as int),
        decreases cs@.len() - i,
    {
        if matches_at(cs, p, i) {
            return Some(i);
        }
        i += 1;
    }
    None
}

/// `str::rfind`.
pub fn find_last(cs: &Vec<char>, p: &Vec<char>) -> (r: Option<usize>)
    ensures
        r matches Some(k) ==> rfind(cs@, p@) == Some(k as int),
        r is None ==> rfind(cs@, p@) is None,
{
    if p.len() > cs.len() {
        return None;
    }
    let mut i = cs.len() - p.len();
    loop
        invariant
            i + p@.len() <= cs@.len(),
            rfind(cs@, p@) == rfind_upto(cs@, p@, i as int),
        decreases i,
    {
        if matches_at(cs, p, i) {
            return Some(i);
        }
        if i == 0 {
            assert(rfind_upto(cs@, p@, -1) is None);
            return None;
        }
        i -= 1;
    }
}

/// Whether `p` occurs in `cs`.
pub fn has_substring(cs: &Vec<char>, p: &Vec<char>) -> (r: bool)
    ensures
        r == contains(cs@, p@),
{
    proof {
        lemma_find_contains(cs@, p@);
    }
    find_at_or_after(cs, p, 0).is_some()
}

/// Whether `cs[from..to]` begins with `p`.
pub fn range_starts_with(cs: &Vec<char>, from: usize, to: usize, p: &Vec<char>) -> (r: bool)
    requires
        from <= to <= cs@.len(),
    ensures
        r == starts_with(cs@.subrange(from as int, to as int), p@),
{
    let ghost s = cs@.subrange(from as int, to as int);
    if p.len() > to - from {
        return false;
    }
    let mut j: usize = 0;
    while j < p.len()
        invariant
            from <= to <= cs@.len(),
            p@.len() <= to - from,
            s == cs@.subrange(from as int, to as int),
            j <= p@.len(),
            forall|m: int| 0 <= m < j ==> s[m] == p@[m],
        decreases p@.len() - j,
    {
        if cs[from + j] != p[j] {
            assert(s.subrange(0, p@.len() as int)[j as int] != p@[j as int]);
            return false;
        }
        j += 1;
    }
    assert(s.subrange(0, p@.len() as int) =~= p@);
    true
}

// ---------------------------------------------------------------------------
// Lines
// ---------------------------------------------------------------------------

/// The index of the first `'\n'` at or after `i`, or `s.len()` if there is none.
pub open spec fn next_newline(s: Seq<char>, i: int) -> int
    decreases s.len() - i,
{
    if i < 0 || i >= s.len() {
        s.len() as int
    } else if s[i] == '\n' {
        i
    } else {
        next_newline(s, i + 1)
    }
}

pub proof fn lemma_next_newline(s: Seq<char>, i: int)
    requires
        0 <= i <= s.len(),
    ensures
        i <= next_newline(s, i) <= s.len(),
        next_newline(s, i) < s.len() ==> s[next_newline(s, i)] == '\n',
        forall|k: int| i <= k < next_newline(s, i) ==> s[k] != '\n',
    decreases s.len() - i,
{
    if i < s.len() && s[i] != '\n' {
        lemma_next_newline(s, i + 1);
    }
}

/// The line that starts at `i` and ends at the line feed (or the end of the
/// text) at `j`: a carriage return just before a line feed is not part of it.
pub open spec fn line_text(s: Seq<char>, i: int, j: int) -> Seq<char> {
    if j < s.len() && j > i && s[j - 1] == '\r' {
        s.subrange(i, j - 1)
    } else {
        s.subrange(i, j)
    }
}

/// The lines of `s[i..]`, as `str::lines` yields them: split at `'\n'`, a
/// `"\r\n"` ending counts as one line ending, and a final line ending does
/// not start an empty line.
pub open spec fn lines_from(s: Seq<char>, i: int) -> Seq<Seq<char>>
    decreases s.len() - i,
{
    if i < 0 || i >= s.len() {
        seq![]
    } else {
        let j = next_newline(s, i);
        proof {
            lemma_next_newline(s, i);
        }
        seq![line_text(s, i, j)] + if j < s.len() {
            lines_from(s, j + 1)
        } else {
            seq![]
        }
    }
}

/// The lines of `s` (`str::lines`).
pub open spec fn lines(s: Seq<char>) -> Seq<Seq<char>> {
    lines_from(s, 0)
}

/// Finding the next line feed in a text put after `p` is finding it in the
/// text, shifted by the length of `p`.
pub proof fn lemma_next_newline_shift(p: Seq<char>, b: Seq<char>, k: int)
    requires
        0 <= k <= b.len(),
    ensures
        next_newline(p + b, p.len() + k) == p.len() + next_newline(b, k),
    decreases b.len() - k,
{
    if k < b.len() {
        assert((p + b)[p.len() + k] == b[k]);
        if b[k] != '\n' {
            lemma_next_newline_shift(p, b, k + 1);
        }
    }
}

/// The lines of a text put after `p`, from a position in it, are the lines
/// of the text from there.
pub proof fn lemma_lines_shift(p: Seq<char>, b: Seq<char>, k: int)
    requires
        0 <= k <= b.len(),
    ensures
        lines_from(p + b, p.len() + k) == lines_from(b, k),
    decreases b.len() - k,
{
    if k < b.len() {
        let j = next_newline(b, k);
        lemma_next_newline(b, k);
        lemma_next_newline_shift(p, b, k);
        let s = p + b;
        if j < b.len() && j > k && b[j - 1] == '\r' {
            assert(s.subrange(p.len() + k, p.len() + j - 1) =~= b.subrange(k, j - 1));
        } else {
            assert(s.subrange(p.len() + k, p.len() + j) =~= b.subrange(k, j));
        }
        assert(line_text(s, p.len() + k, p.len() + j) == line_text(b, k, j));
        if j < b.len() {
            lemma_lines_shift(p, b, j + 1);
        }
    }
}

/// Up to the end of `a`, the next line feed in `a` followed by a line feed
/// is the one in `a`, or the added one where `a` has none.
pub proof fn lemma_next_newline_prefix(a: Seq<char>, r: Seq<char>, i: int)
    requires
        0 <= i <= a.len(),
        r.len() > 0,
        r[0] == '\n',
    ensures
        next_newline(a + r, i) == next_newline(a, i),
    decreases a.len() - i,
{
    if i < a.len() {
        assert((a + r)[i] == a[i]);
        if a[i] != '\n' {
            lemma_next_newline_prefix(a, r, i + 1);
        }
    } else {
        assert((a + r)[i] == r[0]);
    }
}

/// The lines of `a`, a line feed and `b`, from a position inside `a`: the
/// lines of `a` from there, an empty line when `a` ends with a line feed,
/// and the lines of `b`.
pub proof fn lemma_lines_prefix(a: Seq<char>, b: Seq<char>, i: int)
    requires
        0 <= i < a.len(),
        a.last() != '\r',
    ensures
        lines_from(a + seq!['\n'] + b, i) == lines_from(a, i) + (if a.last() == '\n' {
            seq![Seq::<char>::empty()]
        } else {
            Seq::<Seq<char>>::empty()
        }) + lines(b),
    decreases a.len() - i,
{
    let r = seq!['\n'] + b;
    let s = a + r;
    assert(a + seq!['\n'] + b =~= s);
    let j = next_newline(a, i);
    lemma_next_newline(a, i);
    lemma_next_newline_prefix(a, r, i);
    lemma_lines_shift(a + seq!['\n'], b, 0);
    assert(a + seq!['\n'] + b =~= (a + seq!['\n']) + b);
    if j < a.len() {
        assert(s[j] == a[j]);
        if j > i {
            assert(s[j - 1] == a[j - 1]);
        }
        if j > i && a[j - 1] == '\r' {
            assert(s.subrange(i, j - 1) =~= a.subrange(i, j - 1));
        } else {
            assert(s.subrange(i, j) =~= a.subrange(i, j));
        }
        let lt = line_text(a, i, j);
        assert(line_text(s, i, j) == lt);
        assert(lines_from(s, i) == seq![lt] + lines_from(s, j + 1));
        assert(lines_from(a, i) == seq![lt] + lines_from(a, j + 1));
        if j + 1 < a.len() {
            lemma_lines_prefix(a, b, j + 1);
            let mid = if a.last() == '\n' {
                seq![Seq::<char>::empty()]
            } else {
                Seq::<Seq<char>>::empty()
            };
            assert(seq![lt] + (lines_from(a, j + 1) + mid + lines(b)) =~= seq![lt] + lines_from(
                a,
                j + 1,
            ) + mid + lines(b));
        } else {
            assert(a.last() == '\n');
            lemma_next_newline_prefix(a, r, a.len() as int);
            assert(s[a.len() as int] == '\n');
            assert(next_newline(s, a.len() as int) == a.len());
            assert(line_text(s, a.len() as int, a.len() as int) =~= Seq::<char>::empty());
            assert(lines_from(s, a.len() as int) == seq![Seq::<char>::empty()] + lines_from(
                s,
                a.len() as int + 1,
            ));
            assert(lines_from(a, a.len() as int) =~= Seq::<Seq<char>>::empty());
            assert(lines_from(s, a.len() as int + 1) == lines(b));
            assert(lines_from(s, i) =~= lines_from(a, i) + seq![Seq::<char>::empty()] + lines(b));
        }
    } else {
        assert(a[a.len() - 1] != '\n');
        assert(s[a.len() - 1] == a[a.len() - 1]);
        assert(s.subrange(i, j) =~= a.subrange(i, j));
        let lt = line_text(a, i, j);
        assert(line_text(s, i, j) == lt);
        assert(lines_from(s, i) == seq![lt] + lines_from(s, j + 1));
        assert(lines_from(a, i) == seq![lt]);
        assert(lines_from(s, a.len() as int + 1) == lines(b));
        assert(lines_from(s, i) =~= lines_from(a, i) + Seq::<Seq<char>>::empty() + lines(b));
    }
}

/// The lines of `a`, a line feed and `b` are those of `a`, an empty line
/// when `a` is empty or ends with a line feed, and those of `b`.
pub proof fn lemma_lines_joined(a: Seq<char>, b: Seq<char>)
    requires
        a.len() > 0 ==> a.last() != '\r',
    ensures
        lines(a + seq!['\n'] + b) == lines(a) + (if a.len() == 0 || a.last() == '\n' {
            seq![Seq::<char>::empty()]
        } else {
            Seq::<Seq<char>>::empty()
        }) + lines(b),
{
    if a.len() == 0 {
        let s = a + seq!['\n'] + b;
        assert(s =~= seq!['\n'] + b);
        assert(s[0] == '\n');
        assert(line_text(s, 0, 0) =~= Seq::<char>::empty());
        lemma_lines_shift(seq!['\n'], b, 0);
        assert(lines(a) =~= Seq::<Seq<char>>::empty());
    } else {
        lemma_lines_prefix(a, b, 0);
    }
}

/// The texts that index ranges pick out of `s`.
pub open spec fn range_texts(s: Seq<char>, ranges: Seq<(usize, usize)>) -> Seq<Seq<char>> {
    ranges.map_values(|r: (usize, usize)| s.subrange(r.0 as int, r.1 as int))
}

/// Every range lies inside a text of length `n`.
pub open spec fn ranges_within(ranges: Seq<(usize, usize)>, n: int) -> bool {
    forall|k: int| 0 <= k < ranges.len() ==> #[trigger] ranges[k].0 <= ranges[k].1 <= n
}

/// Each range ends before the next one starts.
pub open spec fn ranges_ascending(ranges: Seq<(usize, usize)>) -> bool {
    forall|k: int| 0 <= k < ranges.len() - 1 ==> #[trigger] ranges[k].1 <= ranges[k + 1].0
}

/// The bounds of each line of `cs`.
pub fn line_bounds(cs: &Vec<char>) -> (out: Vec<(usize, usize)>)
    ensures
        ranges_within(out@, cs@.len() as int),
        ranges_ascending(out@),
        range_texts(cs@, out@) == lines(cs@),
{
    let n = cs.len();
    let mut out: Vec<(usize, usize)> = Vec::new();
    let mut i: usize = 0;
    while i < n
        invariant
            n == cs@.len(),
            i <= n,
            ranges_within(out@, n as int),
            ranges_ascending(out@),
            out@.len() > 0 ==> out@.last().1 <= i,
            lines(cs@) == range_texts(cs@, out@) + lines_from(cs@, i as int),
        decreases n - i,
    {
        let mut j = i;
        while j < n && cs[j] != '\n'
            invariant
                n == cs@.len(),
                i <= j <= n,
                next_newline(cs@, i as int) == next_newline(cs@, j as int),
            decreases n - j,
        {
            j += 1;
        }
        let end = if j < n && j > i && cs[j - 1] == '\r' {
            j - 1
        } else {
            j
        };
        proof {
            lemma_next_newline(cs@, i as int);
            let ghost old_out = out@;
            assert(lines_from(cs@, (n + 1) as int) =~= Seq::<Seq<char>>::empty());
            assert(lines_from(cs@, i as int) == seq![cs@.subrange(i as int, end as int)]
                + lines_from(cs@, j + 1));
            assert(range_texts(cs@, old_out.push((i, end))) =~= range_texts(cs@, old_out) + seq![
                cs@.subrange(i as int, end as int),
            ]);
        }
        out.push((i, end));
        i = if j < n {
            j + 1
        } else {
            n
        };
        proof {
            assert(lines_from(cs@, n as int) =~= Seq::<Seq<char>>::empty());
            assert(lines_from(cs@, (n + 1) as int) =~= Seq::<Seq<char>>::empty());
        }
    }
    assert(lines_from(cs@, i as int) =~= Seq::<Seq<char>>::empty());
    assert(lines(cs@) =~= range_texts(cs@, out@));
    out
}

// ---------------------------------------------------------------------------
// Joining, replacing, counting
// ---------------------------------------------------------------------------

/// The parts, in order, with `sep` between each two (`[T]::join`).
pub open spec fn join(parts: Seq<Seq<char>>, sep: Seq<char>) -> Seq<char>
    decreases parts.len(),
{
    if parts.len() == 0 {
        seq![]
    } else if parts.len() == 1 {
        parts[0]
    } else {
        join(parts.drop_last(), sep) + sep + parts.last()
    }
}

/// The views of a list of strings.
pub open spec fn views(v: Seq<String>) -> Seq<Seq<char>> {
    v.map_values(|s: String| s@)
}

/// `parts.join(sep)`.
pub fn join_strings(parts: &Vec<String>, sep: &str) -> (out: String)
    ensures
        out@ == join(views(parts@), sep@),
{
    let mut out = String::new();
    let mut i: usize = 0;
    while i < parts.len()
        invariant
            i <= parts@.len(),
            out@ == join(views(parts@).take(i as int), sep@),
        decreases parts@.len() - i,
    {
        assert(views(parts@).take(i + 1).drop_last() =~= views(parts@).take(i as int));
        if i != 0 {
            out.append(sep);
        }
        out.append(parts[i].as_str());
        i += 1;
    }
    assert(views(parts@).take(parts@.len() as int) =~= views(parts@));
    out
}

/// `s[i..]` with every occurrence of the non-empty `p`, found from left to
/// right without overlap, replaced by `r` (`str::replace`).
pub open spec fn replace_from(s: Seq<char>, p: Seq<char>, r: Seq<char>, i: int) -> Seq<char>
    decreases s.len() - i,
{
    if i < 0 || i >= s.len() || p.len() == 0 {
        seq![]
    } else if occurs_at(s, p, i) {
        r + replace_from(s, p, r, i + p.len())
    } else {
        seq![s[i]] + replace_from(s, p, r, i + 1)
    }
}

/// `s.replace(p, r)` for a non-empty pattern `p`.
pub open spec fn replace(s: Seq<char>, p: Seq<char>, r: Seq<char>) -> Seq<char> {
    replace_from(s, p, r, 0)
}

/// `s.replace(p, r)`.
pub fn replace_all(s: &str, p: &str, r: &str) -> (out: String)
    requires
        p@.len() > 0,
    ensures
        out@ == replace(s@, p@, r@),
{
    let cs = chars_of(s);
    let pc = chars_of(p);
    let n = cs.len();
    let mut out = String::new();
    let mut i: usize = 0;
    while i < n
        invariant
            n == cs@.len(),
            cs@ == s@,
            pc@ == p@,
            pc@.len() > 0,
            i <= n,
            replace(s@, p@, r@) == out@ + replace_from(s@, p@, r@, i as int),
        decreases n - i,
    {
        if matches_at(&cs, &pc, i) {
            out.append(r);
            i = i + pc.len();
        } else {
            out.push(cs[i]);
            i += 1;
        }
    }
    assert(replace_from(s@, p@, r@, i as int) =~= Seq::<char>::empty());
    out
}

// ---------------------------------------------------------------------------
// Character-wise rewriting
// ---------------------------------------------------------------------------

/// `s` with every character `x` rewritten to `f(x)`.
pub open spec fn char_map(s: Seq<char>, f: spec_fn(char) -> Seq<char>) -> Seq<char>
    decreases s.len(),
{
    if s.len() == 0 {
        seq![]
    } else {
        char_map(s.drop_last(), f) + f(s.last())
    }
}

/// Replacing in a text put after `p`, from a position in it, is replacing in
/// the text from there.
pub proof fn lemma_replace_shift(p: Seq<char>, u: Seq<char>, pat: Seq<char>, r: Seq<char>, k: int)
    requires
        0 <= k <= u.len(),
    ensures
        replace_from(p + u, pat, r, p.len() + k) == replace_from(u, pat, r, k),
    decreases u.len() - k,
{
    if k < u.len() && pat.len() > 0 {
        let t = p + u;
        assert(t[p.len() + k] == u[k]);
        if occurs_at(u, pat, k) {
            assert(t.subrange(p.len() + k, p.len() + k + pat.len()) =~= u.subrange(k, k + pat.len()));
            lemma_replace_shift(p, u, pat, r, k + pat.len());
        } else {
            if p.len() + k + pat.len() <= t.len() {
                assert(t.subrange(p.len() + k, p.len() + k + pat.len()) =~= u.subrange(k, k + pat.len()));
            }
            lemma_replace_shift(p, u, pat, r, k + 1);
        }
    }
}

/// A piece of text that a replacement of `pat` meets whole: the pattern
/// itself, one character that cannot start it, or a reference that starts
/// as the pattern does, differs from it in its second character and does
/// not hold the first character again.
pub open spec fn meets_whole(w: Seq<char>, pat: Seq<char>) -> bool {
    ||| w == pat
    ||| (w.len() == 1 && pat.len() > 0 && w[0] != pat[0])
    ||| (w.len() >= 2 && pat.len() >= 2 && w[0] == pat[0] && w[1] != pat[1] && forall|k: int|
        1 <= k < w.len() ==> #[trigger] w[k] != pat[0])
}

/// What replacing `pat` by `r` makes of a piece it meets whole.
pub open spec fn replaced_piece(w: Seq<char>, pat: Seq<char>, r: Seq<char>) -> Seq<char> {
    if w == pat {
        r
    } else {
        w
    }
}

proof fn lemma_replace_inside(w: Seq<char>, u: Seq<char>, pat: Seq<char>, r: Seq<char>, k: int)
    requires
        1 <= k <= w.len(),
        pat.len() > 0,
        forall|j: int| 1 <= j < w.len() ==> #[trigger] w[j] != pat[0],
    ensures
        replace_from(w + u, pat, r, k) == w.subrange(k, w.len() as int) + replace_from(u, pat, r, 0),
    decreases w.len() - k,
{
    if k == w.len() {
        lemma_replace_shift(w, u, pat, r, 0);
        assert(w.subrange(k, w.len() as int) =~= Seq::<char>::empty());
    } else {
        let t = w + u;
        assert(t[k] == w[k]);
        if k + pat.len() <= t.len() {
            assert(t.subrange(k, k + pat.len())[0] == w[k]);
        }
        lemma_replace_inside(w, u, pat, r, k + 1);
        assert(w.subrange(k, w.len() as int) =~= seq![w[k]] + w.subrange(k + 1, w.len() as int));
    }
}

/// Replacing `pat` in a piece it meets whole followed by more text.
pub proof fn lemma_replace_piece(w: Seq<char>, u: Seq<char>, pat: Seq<char>, r: Seq<char>)
    requires
        pat.len() > 0,
        meets_whole(w, pat),
    ensures
        replace_from(w + u, pat, r, 0) == replaced_piece(w, pat, r) + replace_from(u, pat, r, 0),
{
    let t = w + u;
    if w == pat {
        assert(t.subrange(0, pat.len() as int) =~= pat);
        lemma_replace_shift(w, u, pat, r, 0);
    } else if w.len() == 1 {
        if pat.len() <= t.len() {
            assert(t.subrange(0, pat.len() as int)[0] == w[0]);
        }
        lemma_replace_shift(w, u, pat, r, 0);
        assert(w =~= seq![t[0]]);
    } else {
        if pat.len() <= t.len() {
            assert(t.subrange(0, pat.len() as int)[1] == w[1]);
        }
        lemma_replace_inside(w, u, pat, r, 1);
        assert(w =~= seq![t[0]] + w.subrange(1, w.len() as int));
    }
}

/// Replacing `pat` in a text rewritten character by character, when `pat`
/// meets every rewritten character whole, rewrites the characters whose
/// rewriting is `pat` to `r` instead.
pub proof fn lemma_replace_char_map(s: Seq<char>, f: spec_fn(char) -> Seq<char>, pat: Seq<char>, r: Seq<char>)
    requires
        pat.len() > 0,
        forall|x: char| meets_whole(#[trigger] f(x), pat),
    ensures
        replace(char_map(s, f), pat, r) == char_map(s, |x: char| replaced_piece(f(x), pat, r)),
    decreases s.len(),
{
    let g = |x: char| replaced_piece(f(x), pat, r);
    if s.len() == 0 {
        assert(char_map(s, f) =~= Seq::<char>::empty());
    } else {
        let rest = s.drop_first();
        assert(s =~= seq![s[0]] + rest);
        lemma_char_map_concat(seq![s[0]], rest, f);
        lemma_char_map_concat(seq![s[0]], rest, g);
        lemma_char_map_single(s[0], f);
        lemma_char_map_single(s[0], g);
        lemma_replace_piece(f(s[0]), char_map(rest, f), pat, r);
        lemma_replace_char_map(rest, f, pat, r);
    }
}

/// Rewriting each character to itself leaves the text unchanged.
pub proof fn lemma_char_map_identity(s: Seq<char>)
    ensures
        char_map(s, |x: char| seq![x]) == s,
    decreases s.len(),
{
    if s.len() > 0 {
        lemma_char_map_identity(s.drop_last());
        assert(s.drop_last() + seq![s.last()] =~= s);
    }
}

/// `s` holds no `c`.
pub open spec fn lacks(s: Seq<char>, c: char) -> bool {
    forall|k: int| 0 <= k < s.len() ==> #[trigger] s[k] != c
}

/// Replacing brings in no character that neither the text nor the
/// replacement holds.
pub proof fn lemma_replace_lacks(s: Seq<char>, p: Seq<char>, r: Seq<char>, i: int, c: char)
    requires
        lacks(s, c),
        lacks(r, c),
    ensures
        lacks(replace_from(s, p, r, i), c),
    decreases s.len() - i,
{
    if !(i < 0 || i >= s.len() || p.len() == 0) {
        if occurs_at(s, p, i) {
            lemma_replace_lacks(s, p, r, i + p.len(), c);
            let t = replace_from(s, p, r, i + p.len());
            assert forall|k: int| 0 <= k < (r + t).len() implies #[trigger] (r + t)[k] != c by {
                if k >= r.len() {
                    assert((r + t)[k] == t[k - r.len()]);
                }
            }
        } else {
            lemma_replace_lacks(s, p, r, i + 1, c);
            let t = replace_from(s, p, r, i + 1);
            assert forall|k: int| 0 <= k < (seq![s[i]] + t).len() implies #[trigger] (seq![s[i]] + t)[k] != c by {
                if k >= 1 {
                    assert((seq![s[i]] + t)[k] == t[k - 1]);
                }
            }
        }
    }
}

/// The rewriting that replaces the character `c` by `r`.
pub open spec fn subst(c: char, r: Seq<char>) -> spec_fn(char) -> Seq<char> {
    |x: char|
        if x == c {
            r
        } else {
            seq![x]
        }
}

pub proof fn lemma_char_map_concat(a: Seq<char>, b: Seq<char>, f: spec_fn(char) -> Seq<char>)
    ensures
        char_map(a + b, f) == char_map(a, f) + char_map(b, f),
    decreases b.len(),
{
    if b.len() == 0 {
        assert(a + b =~= a);
    } else {
        lemma_char_map_concat(a, b.drop_last(), f);
        assert((a + b).drop_last() =~= a + b.drop_last());
        assert((a + b).last() == b.last());
    }
}

/// Replacing a one-character pattern rewrites each occurrence of that
/// character and leaves every other character.
pub proof fn lemma_replace_char(s: Seq<char>, c: char, r: Seq<char>, i: int)
    requires
        0 <= i <= s.len(),
    ensures
        replace_from(s, seq![c], r, i) == char_map(s.subrange(i, s.len() as int), subst(c, r)),
    decreases s.len() - i,
{
    let tail = s.subrange(i, s.len() as int);
    if i == s.len() {
        assert(tail =~= Seq::<char>::empty());
    } else {
        lemma_replace_char(s, c, r, i + 1);
        let rest = s.subrange(i + 1, s.len() as int);
        assert(tail =~= seq![s[i]] + rest);
        lemma_char_map_concat(seq![s[i]], rest, subst(c, r));
        lemma_char_map_single(s[i], subst(c, r));
        if s[i] == c {
            assert(s.subrange(i, i + 1) =~= seq![c]);
        } else {
            assert(s.subrange(i, i + 1)[0] != seq![c][0]);
        }
    }
}

/// Rewriting twice is rewriting once with the composed rewriting.
pub proof fn lemma_char_map_compose(
    s: Seq<char>,
    f: spec_fn(char) -> Seq<char>,
    g: spec_fn(char) -> Seq<char>,
)
    ensures
        char_map(char_map(s, f), g) == char_map(s, |x: char| char_map(f(x), g)),
    decreases s.len(),
{
    if s.len() > 0 {
        lemma_char_map_compose(s.drop_last(), f, g);
        lemma_char_map_concat(char_map(s.drop_last(), f), f(s.last()), g);
    }
}

/// Rewriting a character that does not occur changes nothing.
pub proof fn lemma_subst_absent(t: Seq<char>, c: char, r: Seq<char>)
    requires
        forall|i: int| 0 <= i < t.len() ==> t[i] != c,
    ensures
        char_map(t, subst(c, r)) == t,
    decreases t.len(),
{
    if t.len() > 0 {
        lemma_subst_absent(t.drop_last(), c, r);
        assert(t.drop_last() + seq![t.last()] =~= t);
    }
}

pub proof fn lemma_char_map_single(x: char, f: spec_fn(char) -> Seq<char>)
    ensures
        char_map(seq![x], f) == f(x),
{
    let one = seq![x];
    assert(one.drop_last() =~= Seq::<char>::empty());
    assert(one.last() == x);
    assert(char_map(one.drop_last(), f) =~= Seq::<char>::empty());
    assert(char_map(one, f) == char_map(one.drop_last(), f) + f(x));
    assert(Seq::<char>::empty() + f(x) =~= f(x));
}

pub proof fn lemma_char_map_ext(s: Seq<char>, f: spec_fn(char) -> Seq<char>, g: spec_fn(char) -> Seq<char>)
    requires
        forall|x: char| #[trigger] f(x) == g(x),
    ensures
        char_map(s, f) == char_map(s, g),
    decreases s.len(),
{
    if s.len() > 0 {
        lemma_char_map_ext(s.drop_last(), f, g);
    }
}

/// The number of occurrences of `c` in `s`.
pub open spec fn count_char(s: Seq<char>, c: char) -> int
    decreases s.len(),
{
    if s.len() == 0 {
        0
    } else {
        count_char(s.drop_last(), c) + if s.last() == c {
            1int
        } else {
            0int
        }
    }
}

pub proof fn lemma_count_char_bound(s: Seq<char>, c: char)
    ensures
        0 <= count_char(s, c) <= s.len(),
    decreases s.len(),
{
    if s.len() > 0 {
        lemma_count_char_bound(s.drop_last(), c);
    }
}

/// Counting occurrences adds up over concatenation.
pub proof fn lemma_count_char_concat(a: Seq<char>, b: Seq<char>, c: char)
    ensures
        count_char(a + b, c) == count_char(a, c) + count_char(b, c),
    decreases b.len(),
{
    if b.len() == 0 {
        assert(a + b =~= a);
    } else {
        lemma_count_char_concat(a, b.drop_last(), c);
        assert((a + b).drop_last() =~= a + b.drop_last());
    }
}

/// The number of occurrences of `c` in `cs[from..to]`.
pub fn count_in_range(cs: &Vec<char>, from: usize, to: usize, c: char) -> (k: usize)
    requires
        from <= to <= cs@.len(),
    ensures
        k == count_char(cs@.subrange(from as int, to as int), c),
        k <= to - from,
{
    let mut k: usize = 0;
    let mut i = from;
    while i < to
        invariant
            from <= i <= to <= cs@.len(),
            k == count_char(cs@.subrange(from as int, i as int), c),
            k <= i - from,
        decreases to - i,
    {
        assert(cs@.subrange(from as int, i + 1).drop_last() =~= cs@.subrange(from as int, i as int));
        if cs[i] == c {
            k += 1;
        }
        i += 1;
    }
    k
}

/// Name for what `String::from_utf8_lossy` makes of `bytes`: their text,
/// with each invalid UTF-8 sequence replaced by U+FFFD.
pub uninterp spec fn utf8_lossy(bytes: Seq<u8>) -> Seq<char>;

/// `String::from_utf8_lossy(bytes).into_owned()`. The contract claims that the
/// result is a function of the bytes alone, and, as its documentation says,
/// that valid UTF-8 is decoded unchanged; what it makes of invalid sequences
/// is left unsaid beyond that.
#[verifier::external_body]
pub(crate) fn text_of_bytes(bytes: &[u8]) -> (s: String)
    ensures
        s@ == utf8_lossy(bytes@),
        valid_utf8(bytes@) ==> s@ == decode_utf8(bytes@),
{
    String::from_utf8_lossy(bytes).into_owned()
}

/// The characters of `s`, in order.
pub fn chars_of(s: &str) -> (out: Vec<char>)
    ensures
        out@ == s@,
{
    let mut out: Vec<char> = Vec::new();
    for c in it: s.chars()
        invariant
            out@ == it.seq().take(it.index() as int),
    {
        out.push(c);
    }
    out
}

/// A string made of the characters `cs[from..to]`.
pub fn string_of(cs: &Vec<char>, from: usize, to: usize) -> (out: String)
    requires
        from <= to <= cs@.len(),
    ensures
        out@ == cs@.subrange(from as int, to as int),
{
    let mut out = String::new();
    let mut i = from;
    while i < to
        invariant
            from <= i <= to <= cs@.len(),
            out@ == cs@.subrange(from as int, i as int),
        decreases to - i,
    {
        out.push(cs[i]);
        i += 1;
    }
    out
}

/// `str::trim`, as an owned string.
pub fn trimmed(s: &str) -> (out: String)
    ensures
        out@ == trim(s@),
{
    let cs = chars_of(s);
    let (a, b) = trim_bounds(&cs, 0, cs.len());
    assert(cs@.subrange(0, cs@.len() as int) =~= cs@);
    string_of(&cs, a, b)
}

} // verus!
