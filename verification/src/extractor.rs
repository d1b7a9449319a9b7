//! Extraction of the translatable units of a C# file: type declarations
//! (classes, structs, enums, interfaces, records) and free-standing methods,
//! each taken whole, in source order.
//!
//! The syntax tree comes from tree-sitter's C# grammar. The library reads it
//! as a `SyntaxNode` listing: the nodes in pre-order, each with its kind, its
//! byte range in the source and its depth below the root.
use vstd::prelude::*;
use vstd::slice::slice_subrange;
use vstd::string::StringSliceAdditionalSpecFns;
use crate::converter::{kind_order, kind_rank};
use crate::text::{same_text, text_of_bytes, utf8_lossy};
use crate::syntax::{
    csharp_node, csharp_node_count, grammar_loaded, load_csharp_grammar, new_parser, node_at,
    node_count, parse_tree, CSharpParser,
};
use vstd::utf8::{
    decode_utf8, decode_utf8_encode_utf8, encode_utf8, encode_utf8_valid_utf8, is_char_boundary,
    is_char_boundary_iff_not_is_continuation_byte, is_char_boundary_start_end_of_seq, valid_utf8,
    valid_utf8_split,
};

verus! {

/// One node of a syntax tree listed in pre-order.
pub struct SyntaxNode {
    pub kind: String,
    pub start: usize,
    pub end: usize,
    pub depth: usize,
}

/// One translatable unit of C# source.
#[derive(Debug, Clone)]
pub struct Unit {
    /// e.g. "class_declaration"
    pub kind: String,
    /// the identifier, e.g. "Calculator"
    pub name: String,
    /// the exact C# text of this node
    pub source: String,
    /// byte offset (for ordering)
    pub start: usize,
}

/// What a `Unit` holds, as values.
pub struct UnitView {
    pub kind: Seq<char>,
    pub name: Seq<char>,
    pub source: Seq<char>,
    pub start: usize,
}

impl View for Unit {
    type V = UnitView;

    open spec fn view(&self) -> UnitView {
        UnitView { kind: self.kind@, name: self.name@, source: self.source@, start: self.start }
    }
}

/// The views of a list of units.
pub open spec fn unit_views(units: Seq<Unit>) -> Seq<UnitView> {
    units.map_values(|u: Unit| u@)
}

// ---------------------------------------------------------------------------
// Stable sorting of units
// ---------------------------------------------------------------------------

/// The key units are sorted by: the translation rank of their kind, or
/// their position in the source.
pub open spec fn unit_key(u: UnitView, by_rank: bool) -> int {
    if by_rank {
        kind_rank(u.kind) as int
    } else {
        u.start as int
    }
}

/// `out` is `orig` rearranged by `p` (`out[k] == orig[p[k]]`) into ascending
/// key order, units with equal keys keeping their original order.
pub open spec fn stable_arrangement(
    orig: Seq<UnitView>,
    out: Seq<UnitView>,
    p: Seq<int>,
    by_rank: bool,
) -> bool {
    &&& p.len() == out.len() == orig.len()
    &&& forall|k: int| 0 <= k < p.len() ==> 0 <= #[trigger] p[k] < orig.len() && out[k] == orig[p[k]]
    &&& forall|k1: int, k2: int| 0 <= k1 < k2 < p.len() ==> #[trigger] p[k1] != #[trigger] p[k2]
    &&& forall|k1: int, k2: int|
        0 <= k1 < k2 < out.len() ==> unit_key(#[trigger] out[k1], by_rank) <= unit_key(
            #[trigger] out[k2],
            by_rank,
        )
    &&& forall|k1: int, k2: int|
        0 <= k1 < k2 < out.len() && unit_key(#[trigger] out[k1], by_rank) == unit_key(
            #[trigger] out[k2],
            by_rank,
        ) ==> p[k1] < p[k2]
}

/// `out` is the stable sort of `orig` by key (`slice::sort_by_key`).
pub open spec fn stably_sorted(orig: Seq<UnitView>, out: Seq<UnitView>, by_rank: bool) -> bool {
    exists|p: Seq<int>| stable_arrangement(orig, out, p, by_rank)
}

fn key_of(u: &Unit, by_rank: bool) -> (k: usize)
    ensures
        k as int == unit_key(u@, by_rank),
{
    if by_rank {
        kind_order(u.kind.as_str()) as usize
    } else {
        u.start
    }
}

/// Sorts units by key, keeping units with equal keys in their order.
pub fn sort_units(units: Vec<Unit>, by_rank: bool) -> (out: Vec<Unit>)
    ensures
        stably_sorted(unit_views(units@), unit_views(out@), by_rank),
{
    let ghost orig = unit_views(units@);
    assert(orig.len() == units.len());
    let mut rest = units;
    let mut out: Vec<Unit> = Vec::new();
    let ghost mut p: Seq<int> = Seq::empty();
    let mut t: usize = 0;
    while rest.len() > 0
        invariant
            t + rest@.len() == orig.len(),
            orig.len() <= usize::MAX,
            unit_views(rest@) == orig.subrange(t as int, orig.len() as int),
            stable_arrangement(orig.subrange(0, t as int), unit_views(out@), p, by_rank),
        decreases rest@.len(),
    {
        let ghost old_rest = rest@;
        let x = rest.remove(0);
        assert(unit_views(old_rest)[0] == orig.subrange(t as int, orig.len() as int)[0]);
        assert(x@ == orig[t as int]);
        assert(unit_views(rest@) =~= unit_views(old_rest).subrange(1, old_rest.len() as int));
        assert(unit_views(rest@) =~= orig.subrange(t + 1, orig.len() as int));
        let kx = key_of(&x, by_rank);
        let ghost vs = unit_views(out@);
        let mut j = out.len();
        while j > 0 && key_of(&out[j - 1], by_rank) > kx
            invariant
                j <= out@.len(),
                vs == unit_views(out@),
                kx as int == unit_key(x@, by_rank),
                forall|k: int| j <= k < vs.len() ==> unit_key(#[trigger] vs[k], by_rank) > kx,
            decreases j,
        {
            j -= 1;
        }
        let ghost old_p = p;
        out.insert(j, x);
        proof {
            let nvs = unit_views(out@);
            assert(nvs =~= vs.insert(j as int, x@));
            p = old_p.insert(j as int, t as int);
            let o2 = orig.subrange(0, t + 1);
            assert forall|k: int| 0 <= k < p.len() implies 0 <= #[trigger] p[k] < o2.len() && nvs[k]
                == o2[p[k]] by {
                if k < j {
                } else if k == j {
                } else {
                    assert(p[k] == old_p[k - 1]);
                }
            }
            assert forall|k1: int, k2: int| 0 <= k1 < k2 < p.len() implies #[trigger] p[k1]
                != #[trigger] p[k2] by {
                if k1 == j {
                    assert(p[k2] == old_p[k2 - 1]);
                } else if k2 == j {
                } else if k1 > j {
                    assert(p[k1] == old_p[k1 - 1] && p[k2] == old_p[k2 - 1]);
                } else if k2 > j {
                    assert(p[k2] == old_p[k2 - 1]);
                }
            }
            assert forall|k1: int, k2: int| 0 <= k1 < k2 < nvs.len() implies unit_key(
                #[trigger] nvs[k1],
                by_rank,
            ) <= unit_key(#[trigger] nvs[k2], by_rank) by {
                if k1 == j {
                    assert(nvs[k2] == vs[k2 - 1]);
                } else if k2 == j {
                    if j > 0 {
                        assert(unit_key(vs[j - 1], by_rank) <= kx);
                        if k1 < j - 1 {
                            assert(unit_key(vs[k1], by_rank) <= unit_key(vs[j - 1], by_rank));
                        }
                    }
                } else if k1 > j {
                    assert(nvs[k1] == vs[k1 - 1] && nvs[k2] == vs[k2 - 1]);
                } else if k2 > j {
                    assert(nvs[k2] == vs[k2 - 1]);
                }
            }
            assert forall|k1: int, k2: int|
                0 <= k1 < k2 < nvs.len() && unit_key(#[trigger] nvs[k1], by_rank) == unit_key(
                    #[trigger] nvs[k2],
                    by_rank,
                ) implies p[k1] < p[k2] by {
                if k1 == j {
                    assert(nvs[k2] == vs[k2 - 1]);
                } else if k2 == j {
                } else if k1 > j {
                    assert(nvs[k1] == vs[k1 - 1] && nvs[k2] == vs[k2 - 1]);
                    assert(p[k1] == old_p[k1 - 1] && p[k2] == old_p[k2 - 1]);
                } else if k2 > j {
                    assert(nvs[k2] == vs[k2 - 1]);
                    assert(p[k2] == old_p[k2 - 1]);
                }
            }
        }
        t += 1;
    }
    assert(orig.subrange(0, t as int) =~= orig);
    out
}

// ---------------------------------------------------------------------------
// Reading the pre-order listing
// ---------------------------------------------------------------------------

/// Node `i` lies in the subtree below node `a`: it comes after `a`, and no
/// node from `a` up to `i` is as shallow as `a`.
pub open spec fn below(nodes: Seq<SyntaxNode>, a: int, i: int) -> bool {
    &&& 0 <= a < i < nodes.len()
    &&& forall|k: int| a < k <= i ==> #[trigger] nodes[k].depth > nodes[a].depth
}

/// The subtree of node `a` has not ended before position `i`.
pub open spec fn open_at(nodes: Seq<SyntaxNode>, a: int, i: int) -> bool {
    &&& 0 <= a < i
    &&& forall|k: int| a < k < i ==> #[trigger] nodes[k].depth > nodes[a].depth
}

/// A kind that is translated as one unit: a type declaration or a method.
pub open spec fn unit_kind(kind: Seq<char>) -> bool {
    ||| kind == "class_declaration"@
    ||| kind == "struct_declaration"@
    ||| kind == "enum_declaration"@
    ||| kind == "interface_declaration"@
    ||| kind == "record_declaration"@
    ||| kind == "method_declaration"@
}

/// Node `i` is taken as a unit: its kind is a unit kind and no node above
/// it is (a unit carries its members with it).
pub open spec fn captured(nodes: Seq<SyntaxNode>, i: int) -> bool {
    &&& 0 <= i < nodes.len()
    &&& unit_kind(nodes[i].kind@)
    &&& forall|a: int| #[trigger] below(nodes, a, i) ==> !unit_kind(nodes[a].kind@)
}

/// Node `k` is an identifier among the children of node `i`.
pub open spec fn identifier_child(nodes: Seq<SyntaxNode>, i: int, k: int) -> bool {
    &&& below(nodes, i, k)
    &&& nodes[k].depth == nodes[i].depth + 1
    &&& nodes[k].kind@ == "identifier"@
}

/// The first identifier among the children of node `i`, which holds its name.
pub open spec fn name_child(nodes: Seq<SyntaxNode>, i: int) -> Option<int> {
    if exists|k: int| identifier_child(nodes, i, k) {
        Some(
            choose|k: int|
                identifier_child(nodes, i, k) && forall|k2: int|
                    identifier_child(nodes, i, k2) ==> k <= k2,
        )
    } else {
        None
    }
}

/// The text of node `n` in the source `bytes`: the bytes of its range
/// decoded, invalid UTF-8 as `String::from_utf8_lossy` makes it.
pub open spec fn node_text(bytes: Seq<u8>, n: SyntaxNode) -> Seq<char> {
    let piece = bytes.subrange(n.start as int, n.end as int);
    if valid_utf8(piece) {
        decode_utf8(piece)
    } else {
        utf8_lossy(piece)
    }
}

/// The unit that node `i` makes.
pub open spec fn unit_of(nodes: Seq<SyntaxNode>, bytes: Seq<u8>, i: int) -> UnitView {
    UnitView {
        kind: nodes[i].kind@,
        name: match name_child(nodes, i) {
            Some(k) => node_text(bytes, nodes[k]),
            None => "<anonymous>"@,
        },
        source: node_text(bytes, nodes[i]),
        start: nodes[i].start,
    }
}

/// The units that the first `n` nodes make, in pre-order.
pub open spec fn captured_units(nodes: Seq<SyntaxNode>, bytes: Seq<u8>, n: int) -> Seq<UnitView>
    decreases n,
{
    if n <= 0 {
        seq![]
    } else {
        captured_units(nodes, bytes, n - 1) + if captured(nodes, n - 1) {
            seq![unit_of(nodes, bytes, n - 1)]
        } else {
            seq![]
        }
    }
}

/// Every node's byte range lies within a source of `len` bytes.
pub open spec fn listing_fits(nodes: Seq<SyntaxNode>, len: int) -> bool {
    forall|k: int| 0 <= k < nodes.len() ==> #[trigger] nodes[k].start <= nodes[k].end <= len
}

/// The byte ranges of nodes `i < j` are laid out as a tree's: inside the
/// range of `i` when `j` lies below `i`, after it otherwise.
pub open spec fn ranges_nest(nodes: Seq<SyntaxNode>, i: int, j: int) -> bool {
    if below(nodes, i, j) {
        nodes[i].start <= nodes[j].start && nodes[j].end <= nodes[i].end
    } else {
        nodes[i].end <= nodes[j].start
    }
}

/// Node `n`'s range starts and ends on a character boundary of the source.
pub open spec fn node_on_boundaries(bytes: Seq<u8>, n: SyntaxNode) -> bool {
    is_char_boundary(bytes, n.start as int) && is_char_boundary(bytes, n.end as int)
}

/// Every node's range starts and ends on a character boundary of the source.
pub open spec fn on_char_boundaries(nodes: Seq<SyntaxNode>, bytes: Seq<u8>) -> bool {
    forall|k: int| 0 <= k < nodes.len() ==> #[trigger] node_on_boundaries(bytes, nodes[k])
}

/// Every pair of nodes of the listing has tree-shaped byte ranges.
pub open spec fn listing_nested(nodes: Seq<SyntaxNode>) -> bool {
    forall|i: int, j: int| 0 <= i < j < nodes.len() ==> #[trigger] ranges_nest(nodes, i, j)
}

/// `units` are what the extraction yields for the C# source `code`, whose
/// UTF-8 bytes are `bytes`: the units of tree-sitter's syntax tree of it,
/// ordered by start position, when every node lies within the text, on
/// character boundaries, and the node ranges nest as a tree's, and none
/// otherwise.
pub open spec fn extracted_from(code: Seq<char>, bytes: Seq<u8>, units: Seq<UnitView>) -> bool {
    exists|nodes: Seq<SyntaxNode>|
        #![trigger node_views(nodes)]
        node_views(nodes) == csharp_listing(code) && if listing_fits(nodes, bytes.len() as int)
            && listing_nested(nodes) && on_char_boundaries(nodes, bytes) {
            stably_sorted(captured_units(nodes, bytes, nodes.len() as int), units, false)
        } else {
            units.len() == 0
        }
}

/// Whether every node's byte range lies within a source of `len` bytes.
pub fn listing_in_bounds(nodes: &Vec<SyntaxNode>, len: usize) -> (r: bool)
    ensures
        r == listing_fits(nodes@, len as int),
{
    let mut i: usize = 0;
    while i < nodes.len()
        invariant
            i <= nodes@.len(),
            forall|k: int| 0 <= k < i ==> #[trigger] nodes@[k].start <= nodes@[k].end <= len,
        decreases nodes@.len() - i,
    {
        if nodes[i].start > nodes[i].end || nodes[i].end > len {
            return false;
        }
        i += 1;
    }
    true
}

/// Whether every node's range starts and ends on a character boundary of
/// `code`.
pub fn listing_on_boundaries(nodes: &Vec<SyntaxNode>, code: &str) -> (r: bool)
    ensures
        r == on_char_boundaries(nodes@, code.spec_bytes()),
{
    let mut i: usize = 0;
    while i < nodes.len()
        invariant
            i <= nodes@.len(),
            forall|k: int| 0 <= k < i ==> #[trigger] node_on_boundaries(code.spec_bytes(), nodes@[k]),
        decreases nodes@.len() - i,
    {
        let at_start = code.is_char_boundary(nodes[i].start);
        let at_end = code.is_char_boundary(nodes[i].end);
        if !(at_start && at_end) {
            assert(!node_on_boundaries(code.spec_bytes(), nodes@[i as int]));
            return false;
        }
        assert(node_on_boundaries(code.spec_bytes(), nodes@[i as int]));
        i += 1;
    }
    true
}

/// Whether the byte ranges of the listing nest as a tree's.
pub fn listing_nests(nodes: &Vec<SyntaxNode>) -> (r: bool)
    ensures
        r == listing_nested(nodes@),
{
    let n = nodes.len();
    let mut i: usize = 0;
    while i < n
        invariant
            n == nodes@.len(),
            i <= n,
            forall|a: int, b: int| 0 <= a < i && a < b < n ==> #[trigger] ranges_nest(nodes@, a, b),
        decreases n - i,
    {
        let mut j = i + 1;
        let mut inside = true;
        while j < n
            invariant
                n == nodes@.len(),
                i < n,
                i + 1 <= j <= n,
                inside == (forall|k: int| i < k < j ==> #[trigger] nodes@[k].depth > nodes@[i as int].depth),
                forall|b: int| i < b < j ==> #[trigger] ranges_nest(nodes@, i as int, b),
            decreases n - j,
        {
            inside = inside && nodes[j].depth > nodes[i].depth;
            assert(inside == below(nodes@, i as int, j as int));
            if inside {
                if !(nodes[i].start <= nodes[j].start && nodes[j].end <= nodes[i].end) {
                    assert(!ranges_nest(nodes@, i as int, j as int));
                    return false;
                }
            } else if !(nodes[i].end <= nodes[j].start) {
                assert(!ranges_nest(nodes@, i as int, j as int));
                return false;
            }
            assert(ranges_nest(nodes@, i as int, j as int));
            j += 1;
        }
        i += 1;
    }
    true
}

fn is_unit_kind(kind: &String) -> (r: bool)
    ensures
        r == unit_kind(kind@),
{
    let k = kind.as_str();
    same_text(k, "class_declaration") || same_text(k, "struct_declaration") || same_text(
        k,
        "enum_declaration",
    ) || same_text(k, "interface_declaration") || same_text(k, "record_declaration")
        || same_text(k, "method_declaration")
}

/// The text of `n` in the source.
fn text_of_node(bytes: &[u8], n: &SyntaxNode) -> (s: String)
    requires
        n.start <= n.end <= bytes@.len(),
    ensures
        s@ == node_text(bytes@, *n),
{
    text_of_bytes(slice_subrange(bytes, n.start, n.end))
}

/// The first identifier child, when it is `k`, is the name child.
proof fn lemma_name_child(nodes: Seq<SyntaxNode>, i: int, k: int)
    requires
        identifier_child(nodes, i, k),
        forall|m: int| i < m < k ==> !identifier_child(nodes, i, m),
    ensures
        name_child(nodes, i) == Some(k),
{
    let c = choose|c: int|
        identifier_child(nodes, i, c) && forall|k2: int| identifier_child(nodes, i, k2) ==> c <= k2;
    assert forall|k2: int| identifier_child(nodes, i, k2) implies k <= k2 by {
        if k2 < k {
            assert(i < k2);
        }
    }
    assert(c <= k && k <= c);
}

/// The name of the unit at node `i`.
fn name_of(nodes: &Vec<SyntaxNode>, i: usize, bytes: &[u8]) -> (name: String)
    requires
        i < nodes@.len(),
        listing_fits(nodes@, bytes@.len() as int),
    ensures
        name@ == match name_child(nodes@, i as int) {
            Some(k) => node_text(bytes@, nodes@[k]),
            None => "<anonymous>"@,
        },
{
    let n = nodes.len();
    let d = nodes[i].depth;
    let mut k = i + 1;
    let mut found: Option<usize> = None;
    while found.is_none() && k < n && nodes[k].depth > d
        invariant
            n == nodes@.len(),
            i < k <= n,
            d == nodes@[i as int].depth,
            forall|m: int| i < m < k ==> #[trigger] nodes@[m].depth > d,
            forall|m: int| i < m < k ==> !identifier_child(nodes@, i as int, m),
            found matches Some(f) ==> f == k && identifier_child(nodes@, i as int, f as int),
        decreases n - k + if found is None {
            1int
        } else {
            0int
        },
    {
        if nodes[k].depth - 1 == d && same_text(nodes[k].kind.as_str(), "identifier") {
            found = Some(k);
        } else {
            k += 1;
        }
    }
    match found {
        Some(k) => {
            proof {
                lemma_name_child(nodes@, i as int, k as int);
            }
            assert(nodes@[k as int].start <= nodes@[k as int].end <= bytes@.len());
            text_of_node(bytes, &nodes[k])
        },
        None => {
            assert forall|m: int| !identifier_child(nodes@, i as int, m) by {
                if m >= k && identifier_child(nodes@, i as int, m) {
                    assert(k < n);
                    assert(nodes@[k as int].depth > d);
                }
            }
            let mut anonymous = String::new();
            anonymous.append("<anonymous>");
            anonymous
        },
    }
}

/// The unit that node `i` makes.
fn make_unit(nodes: &Vec<SyntaxNode>, i: usize, bytes: &[u8]) -> (u: Unit)
    requires
        i < nodes@.len(),
        listing_fits(nodes@, bytes@.len() as int),
    ensures
        u@ == unit_of(nodes@, bytes@, i as int),
{
    let ghost node = nodes@[i as int];
    assert(node.start <= node.end <= bytes@.len());
    Unit {
        kind: nodes[i].kind.clone(),
        name: name_of(nodes, i, bytes),
        source: text_of_node(bytes, &nodes[i]),
        start: nodes[i].start,
    }
}

/// The units of a C# source, given its syntax tree as a pre-order listing:
/// every node of a unit kind with no unit-kind node above it, ordered by
/// start position.
pub fn units_from_syntax(nodes: &Vec<SyntaxNode>, code: &str) -> (units: Vec<Unit>)
    requires
        listing_fits(nodes@, code.spec_bytes().len() as int),
    ensures
        stably_sorted(
            captured_units(nodes@, code.spec_bytes(), nodes@.len() as int),
            unit_views(units@),
            false,
        ),
{
    let bytes = code.as_bytes();
    let mut found: Vec<Unit> = Vec::new();
    let mut skip: Option<usize> = None;
    let ghost mut c: int = 0;
    let mut i: usize = 0;
    while i < nodes.len()
        invariant
            bytes@ == code.spec_bytes(),
            listing_fits(nodes@, bytes@.len() as int),
            i <= nodes@.len(),
            unit_views(found@) == captured_units(nodes@, bytes@, i as int),
            skip is None ==> forall|a: int| #[trigger] open_at(nodes@, a, i as int) ==> !unit_kind(
                nodes@[a].kind@,
            ),
            skip matches Some(sd) ==> {
                &&& 0 <= c < i
                &&& unit_kind(nodes@[c].kind@)
                &&& nodes@[c].depth == sd
                &&& open_at(nodes@, c, i as int)
                &&& forall|a: int| #[trigger] open_at(nodes@, a, i as int) && a < c ==> !unit_kind(
                    nodes@[a].kind@,
                )
            },
        decreases nodes@.len() - i,
    {
        let d = nodes[i].depth;
        let inside = match skip {
            Some(sd) => d > sd,
            None => false,
        };
        let ghost old_found = unit_views(found@);
        proof {
            // The nodes above `i` are the open ones deeper than nothing at `i`.
            assert forall|a: int| #[trigger] below(nodes@, a, i as int) implies open_at(
                nodes@,
                a,
                i as int,
            ) && nodes@[i as int].depth > nodes@[a].depth by {}
            if inside {
                assert(below(nodes@, c, i as int));
                assert(!captured(nodes@, i as int));
            } else {
                assert forall|a: int| #[trigger] below(nodes@, a, i as int) implies !unit_kind(
                    nodes@[a].kind@,
                ) by {
                    assert(open_at(nodes@, a, i as int));
                    if skip is Some && a > c {
                        assert(nodes@[a].depth > nodes@[c].depth);
                    }
                }
            }
        }
        if !inside {
            skip = None;
            if is_unit_kind(&nodes[i].kind) {
                let u = make_unit(nodes, i, bytes);
                found.push(u);
                skip = Some(d);
                proof {
                    c = i as int;
                    assert(captured(nodes@, i as int));
                    assert(unit_views(found@) =~= old_found + seq![u@]);
                }
            } else {
                assert(unit_views(found@) =~= old_found);
            }
        } else {
            assert(unit_views(found@) =~= old_found);
        }
        proof {
            let ni = (i + 1) as int;
            assert forall|a: int| #[trigger] open_at(nodes@, a, ni) && a != i implies open_at(
                nodes@,
                a,
                i as int,
            ) && nodes@[i as int].depth > nodes@[a].depth by {
                assert(nodes@[i as int].depth > nodes@[a].depth);
            }
            if skip is Some {
                assert forall|k: int| c < k < ni implies #[trigger] nodes@[k].depth
                    > nodes@[c].depth by {
                    if k < i {
                        assert(open_at(nodes@, c, i as int));
                    }
                }
            }
        }
        i += 1;
    }
    sort_units(found, false)
}

// ---------------------------------------------------------------------------
// Laws
// ---------------------------------------------------------------------------

/// Units do not nest: no unit lies inside another one.
pub proof fn law_units_not_nested(nodes: Seq<SyntaxNode>, a: int, i: int)
    requires
        captured(nodes, a),
        captured(nodes, i),
    ensures
        !below(nodes, a, i),
{
}

/// Units do not overlap: in a listing whose ranges nest as a tree's, a unit
/// ends before any later unit starts.
pub proof fn law_units_disjoint(nodes: Seq<SyntaxNode>, a: int, i: int)
    requires
        listing_nested(nodes),
        captured(nodes, a),
        captured(nodes, i),
        a < i,
    ensures
        nodes[a].end <= nodes[i].start,
{
    assert(ranges_nest(nodes, a, i));
}

/// The text of a node whose range lies on character boundaries of a source
/// is exactly the source's text in that range: encoded, it gives back the
/// bytes of the range.
pub proof fn law_node_text_is_code_slice(code: Seq<char>, n: SyntaxNode)
    requires
        n.start <= n.end <= encode_utf8(code).len(),
        node_on_boundaries(encode_utf8(code), n),
    ensures
        encode_utf8(node_text(encode_utf8(code), n)) == encode_utf8(code).subrange(
            n.start as int,
            n.end as int,
        ),
{
    let bytes = encode_utf8(code);
    let i = n.start as int;
    let j = n.end as int;
    encode_utf8_valid_utf8(code);
    valid_utf8_split(bytes, i);
    let suffix = bytes.subrange(i, bytes.len() as int);
    if j < bytes.len() {
        is_char_boundary_iff_not_is_continuation_byte(bytes, j);
        is_char_boundary_iff_not_is_continuation_byte(suffix, j - i);
        assert(suffix[j - i] == bytes[j]);
    } else {
        is_char_boundary_start_end_of_seq(suffix);
    }
    valid_utf8_split(suffix, j - i);
    assert(suffix.subrange(0, j - i) =~= bytes.subrange(i, j));
    decode_utf8_encode_utf8(bytes.subrange(i, j));
}

/// Where a unit's text ends in the source, in bytes.
pub open spec fn unit_end(u: UnitView) -> int {
    u.start + encode_utf8(u.source).len()
}

/// A unit's text is the source's text at the unit's position.
pub open spec fn is_code_slice(bytes: Seq<u8>, u: UnitView) -> bool {
    unit_end(u) <= bytes.len() && encode_utf8(u.source) == bytes.subrange(u.start as int, unit_end(u))
}

proof fn lemma_captured_units_laid_out(code: Seq<char>, nodes: Seq<SyntaxNode>, n: int)
    requires
        0 <= n <= nodes.len(),
        listing_fits(nodes, encode_utf8(code).len() as int),
        listing_nested(nodes),
        on_char_boundaries(nodes, encode_utf8(code)),
    ensures
        forall|m: int|
            0 <= m < captured_units(nodes, encode_utf8(code), n).len() ==> is_code_slice(
                encode_utf8(code),
                #[trigger] captured_units(nodes, encode_utf8(code), n)[m],
            ),
        forall|m1: int, m2: int|
            0 <= m1 < m2 < captured_units(nodes, encode_utf8(code), n).len() ==> unit_end(
                #[trigger] captured_units(nodes, encode_utf8(code), n)[m1],
            ) <= (#[trigger] captured_units(nodes, encode_utf8(code), n)[m2]).start,
        forall|m: int, k: int|
            0 <= m < captured_units(nodes, encode_utf8(code), n).len() && n <= k && #[trigger] captured(
                nodes,
                k,
            ) ==> unit_end(#[trigger] captured_units(nodes, encode_utf8(code), n)[m]) <= nodes[k].start,
    decreases n,
{
    let bytes = encode_utf8(code);
    if n > 0 {
        lemma_captured_units_laid_out(code, nodes, n - 1);
        let prev = captured_units(nodes, bytes, n - 1);
        let cur = captured_units(nodes, bytes, n);
        if captured(nodes, n - 1) {
            let b = n - 1;
            let ub = unit_of(nodes, bytes, b);
            assert(cur == prev.push(ub));
            assert(nodes[b].start <= nodes[b].end <= bytes.len());
            assert(node_on_boundaries(bytes, nodes[b]));
            law_node_text_is_code_slice(code, nodes[b]);
            assert(unit_end(ub) == nodes[b].end);
            assert(is_code_slice(bytes, ub));
            assert forall|m: int| 0 <= m < cur.len() implies is_code_slice(bytes, #[trigger] cur[m]) by {
                if m < prev.len() {
                    assert(cur[m] == prev[m]);
                }
            }
            assert forall|m1: int, m2: int|
                0 <= m1 < m2 < cur.len() implies unit_end(#[trigger] cur[m1]) <= (#[trigger] cur[m2]).start by {
                assert(cur[m1] == prev[m1]);
                if m2 < prev.len() {
                    assert(cur[m2] == prev[m2]);
                } else {
                    assert(cur[m2] == ub);
                    assert(captured(nodes, b));
                }
            }
            assert forall|m: int, k: int|
                0 <= m < cur.len() && n <= k && #[trigger] captured(nodes, k) implies unit_end(
                    #[trigger] cur[m],
                ) <= nodes[k].start by {
                if m < prev.len() {
                    assert(cur[m] == prev[m]);
                } else {
                    assert(cur[m] == ub);
                    law_units_disjoint(nodes, b, k);
                }
            }
        } else {
            assert(cur =~= prev);
        }
    } else {
        assert(captured_units(nodes, bytes, 0) =~= Seq::<UnitView>::empty());
    }
}

/// What extraction yields is the source's own text: each unit's text is the
/// source's text at the unit's position, and units do not overlap, each
/// ending before the next one starts.
pub proof fn law_extracted_units_are_code_slices(code: Seq<char>, units: Seq<UnitView>)
    requires
        extracted_from(code, encode_utf8(code), units),
    ensures
        forall|k: int| 0 <= k < units.len() ==> is_code_slice(encode_utf8(code), #[trigger] units[k]),
        forall|k1: int, k2: int|
            0 <= k1 < k2 < units.len() ==> unit_end(#[trigger] units[k1]) <= (#[trigger] units[k2]).start,
{
    let bytes = encode_utf8(code);
    let nodes = choose|nodes: Seq<SyntaxNode>|
        #![trigger node_views(nodes)]
        node_views(nodes) == csharp_listing(code) && if listing_fits(nodes, bytes.len() as int)
            && listing_nested(nodes) && on_char_boundaries(nodes, bytes) {
            stably_sorted(captured_units(nodes, bytes, nodes.len() as int), units, false)
        } else {
            units.len() == 0
        };
    if listing_fits(nodes, bytes.len() as int) && listing_nested(nodes) && on_char_boundaries(nodes, bytes) {
        let orig = captured_units(nodes, bytes, nodes.len() as int);
        lemma_captured_units_laid_out(code, nodes, nodes.len() as int);
        let p = choose|p: Seq<int>| stable_arrangement(orig, units, p, false);
        assert forall|k: int| 0 <= k < units.len() implies is_code_slice(bytes, #[trigger] units[k]) by {
            assert(units[k] == orig[p[k]]);
        }
        assert forall|k1: int, k2: int|
            0 <= k1 < k2 < units.len() implies unit_end(#[trigger] units[k1]) <= (#[trigger] units[k2]).start by {
            assert(units[k1] == orig[p[k1]]);
            assert(units[k2] == orig[p[k2]]);
            assert(p[k1] != p[k2]);
            assert(unit_key(units[k1], false) <= unit_key(units[k2], false));
            if p[k1] > p[k2] {
                assert(unit_end(orig[p[k2]]) <= orig[p[k1]].start);
                assert(units[k2].start <= unit_end(units[k2]));
                assert(unit_key(units[k1], false) == unit_key(units[k2], false));
                assert(p[k1] < p[k2]);
            }
        }
    }
}

/// Nodes below a node below `a` are below `a`.
proof fn lemma_below_transitive(nodes: Seq<SyntaxNode>, a: int, b: int, i: int)
    requires
        below(nodes, a, b),
        below(nodes, b, i),
    ensures
        below(nodes, a, i),
{
    assert forall|k: int| a < k <= i implies #[trigger] nodes[k].depth > nodes[a].depth by {
        if k > b {
            assert(nodes[k].depth > nodes[b].depth);
            assert(nodes[b].depth > nodes[a].depth);
        }
    }
}

/// Every declaration is translated: a node of a unit kind is a unit itself
/// or lies inside one (a class carries its methods, a namespace carries
/// nothing and its declarations are units).
pub proof fn law_every_declaration_covered(nodes: Seq<SyntaxNode>, i: int)
    requires
        0 <= i < nodes.len(),
        unit_kind(nodes[i].kind@),
    ensures
        captured(nodes, i) || exists|a: int| #[trigger] captured(nodes, a) && below(nodes, a, i),
    decreases i,
{
    if !captured(nodes, i) {
        let a = choose|a: int| #[trigger] below(nodes, a, i) && unit_kind(nodes[a].kind@);
        law_every_declaration_covered(nodes, a);
        if !captured(nodes, a) {
            let c = choose|c: int| #[trigger] captured(nodes, c) && below(nodes, c, a);
            lemma_below_transitive(nodes, c, a, i);
            assert(captured(nodes, c) && below(nodes, c, i));
        } else {
            assert(captured(nodes, a) && below(nodes, a, i));
        }
    }
}

/// Sorted units come in ascending key order: by position in the source, or
/// by the translation rank of their kind (types before methods).
pub proof fn law_sorted_order(orig: Seq<UnitView>, out: Seq<UnitView>, by_rank: bool)
    requires
        stably_sorted(orig, out, by_rank),
    ensures
        out.len() == orig.len(),
        forall|i: int, j: int|
            0 <= i < j < out.len() ==> unit_key(#[trigger] out[i], by_rank) <= unit_key(
                #[trigger] out[j],
                by_rank,
            ),
{
    let p = choose|p: Seq<int>| stable_arrangement(orig, out, p, by_rank);
}

// ---------------------------------------------------------------------------
// tree-sitter
// ---------------------------------------------------------------------------

/// The whole pre-order listing of the C# syntax tree of `code`.
pub open spec fn csharp_listing(code: Seq<char>) -> Seq<(Seq<char>, usize, usize, usize)> {
    Seq::new(csharp_node_count(code), |i: int| csharp_node(code, i))
}

/// What a listed node holds, as values.
pub open spec fn node_view(n: SyntaxNode) -> (Seq<char>, usize, usize, usize) {
    (n.kind@, n.start, n.end, n.depth)
}

/// The views of a listing.
pub open spec fn node_views(nodes: Seq<SyntaxNode>) -> Seq<(Seq<char>, usize, usize, usize)> {
    nodes.map_values(|n: SyntaxNode| node_view(n))
}

/// A C# parser.
pub struct CSharpExtractor {
    parser: CSharpParser,
}

impl CSharpExtractor {
    /// The parser holds tree-sitter's C# grammar.
    pub closed spec fn has_grammar(&self) -> bool {
        self.parser.has_grammar()
    }

    /// A parser set up with tree-sitter's C# grammar.
    pub fn new() -> (e: Self)
        ensures
            e.has_grammar(),
    {
        CSharpExtractor { parser: load_csharp_grammar(new_parser()) }
    }

    /// The pre-order listing of the syntax tree of `code`: the named listing
    /// of tree-sitter's C# tree, which starts with the root, at depth 0.
    fn syntax_listing(&mut self, code: &str) -> (nodes: Option<Vec<SyntaxNode>>)
        ensures
            final(self).has_grammar() == old(self).has_grammar(),
            old(self).has_grammar() == nodes is Some,
            nodes matches Some(v) ==> node_views(v@) == csharp_listing(code@),
            nodes matches Some(v) ==> v@.len() >= 1 && v@[0].depth == 0,
    {
        if !grammar_loaded(&self.parser) {
            return None;
        }
        match parse_tree(&mut self.parser, code) {
            Some(parsed) => {
                let count = node_count(&parsed);
                let mut nodes: Vec<SyntaxNode> = Vec::new();
                let mut i: usize = 0;
                while i < count
                    invariant
                        i <= count,
                        count as nat == csharp_node_count(parsed@),
                        parsed@ == code@,
                        nodes@.len() == i,
                        forall|k: int| 0 <= k < i ==> node_view(#[trigger] nodes@[k]) == csharp_node(code@, k),
                        i > 0 ==> nodes@[0].depth == 0,
                    decreases count - i,
                {
                    nodes.push(node_at(&parsed, i));
                    i += 1;
                }
                assert(node_views(nodes@) =~= csharp_listing(code@));
                Some(nodes)
            },
            None => None,
        }
    }

    /// The translatable units of `code`, in source order: the units that
    /// `units_from_syntax` finds in the tree tree-sitter builds, or none when
    /// a node of it lies outside the text or off a character boundary, or
    /// the node ranges do not nest. Each unit's text is the text of `code`
    /// at the unit's position, and units do not overlap.
    pub fn parse(&mut self, code: &str) -> (units: Vec<Unit>)
        ensures
            old(self).has_grammar() ==> extracted_from(code@, code.spec_bytes(), unit_views(units@)),
            !old(self).has_grammar() ==> units@.len() == 0,
            final(self).has_grammar() == old(self).has_grammar(),
            forall|k: int| 0 <= k < units@.len() ==> is_code_slice(code.spec_bytes(), #[trigger] units@[k]@),
            forall|k1: int, k2: int|
                0 <= k1 < k2 < units@.len() ==> unit_end(#[trigger] units@[k1]@) <= (#[trigger] units@[k2]@).start,
    {
        let units = self.parse_units(code);
        proof {
            if units@.len() > 0 {
                law_extracted_units_are_code_slices(code@, unit_views(units@));
                assert forall|k: int| 0 <= k < units@.len() implies is_code_slice(
                    code.spec_bytes(),
                    #[trigger] units@[k]@,
                ) by {
                    assert(unit_views(units@)[k] == units@[k]@);
                }
                assert forall|k1: int, k2: int|
                    0 <= k1 < k2 < units@.len() implies unit_end(#[trigger] units@[k1]@) <= (
                    #[trigger] units@[k2]@).start by {
                    assert(unit_views(units@)[k1] == units@[k1]@);
                    assert(unit_views(units@)[k2] == units@[k2]@);
                }
            }
        }
        units
    }

    /// The units of `code`, as `parse` describes them.
    fn parse_units(&mut self, code: &str) -> (units: Vec<Unit>)
        ensures
            old(self).has_grammar() ==> extracted_from(code@, code.spec_bytes(), unit_views(units@)),
            !old(self).has_grammar() ==> units@.len() == 0,
            final(self).has_grammar() == old(self).has_grammar(),
    {
        match self.syntax_listing(code) {
            Some(nodes) => {
                let fits = listing_in_bounds(&nodes, code.as_bytes().len()) && listing_nests(&nodes)
                    && listing_on_boundaries(&nodes, code);
                let units = if fits {
                    units_from_syntax(&nodes, code)
                } else {
                    Vec::new()
                };
                proof {
                    let bytes = code.spec_bytes();
                    assert(fits == (listing_fits(nodes@, bytes.len() as int) && listing_nested(nodes@)
                        && on_char_boundaries(nodes@, bytes)));
                    assert(node_views(nodes@) == csharp_listing(code@));
                    assert(if listing_fits(nodes@, bytes.len() as int) && listing_nested(nodes@)
                        && on_char_boundaries(nodes@, bytes) {
                        stably_sorted(captured_units(nodes@, bytes, nodes@.len() as int), unit_views(units@), false)
                    } else {
                        unit_views(units@).len() == 0
                    });
                }
                units
            },
            None => Vec::new(),
        }
    }
}

} // verus!
