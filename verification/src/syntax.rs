//! The calls into tree-sitter: a parser holding the C# grammar, the tree it
//! builds for a source, and that tree's nodes in pre-order.
use vstd::prelude::*;
use crate::extractor::{node_view, SyntaxNode};

verus! {

#[verifier::external_type_specification]
#[verifier::external_body]
pub struct ExParser(tree_sitter::Parser);

#[verifier::external_type_specification]
#[verifier::external_body]
pub struct ExTree(tree_sitter::Tree);

/// The number of nodes, the root included, of the syntax tree that
/// tree-sitter's C# grammar builds for `code`.
pub uninterp spec fn csharp_node_count(code: Seq<char>) -> nat;

/// Node `index`, in pre-order, of the syntax tree that tree-sitter's C#
/// grammar builds for `code`: its kind, start byte, end byte and depth below
/// the root.
pub uninterp spec fn csharp_node(code: Seq<char>, index: int) -> (Seq<char>, usize, usize, usize);

/// A tree-sitter parser that has been given the C# grammar. Only
/// `load_csharp_grammar` makes one, so every value of this type went through
/// `set_language` with that grammar.
pub struct CSharpParser {
    parser: tree_sitter::Parser,
    loaded: bool,
}

impl CSharpParser {
    /// `set_language` with the C# grammar succeeded on this parser.
    pub closed spec fn has_grammar(&self) -> bool {
        self.loaded
    }
}

/// Whether the parser holds the C# grammar.
pub fn grammar_loaded(parser: &CSharpParser) -> (b: bool)
    ensures
        b == parser.has_grammar(),
{
    parser.loaded
}

/// A C# source together with the syntax tree tree-sitter built for it.
pub struct ParsedSource {
    tree: tree_sitter::Tree,
    code: String,
}

impl View for ParsedSource {
    type V = Seq<char>;

    /// The source the tree was built for.
    closed spec fn view(&self) -> Seq<char> {
        self.code@
    }
}

/// `tree_sitter::Parser::new`: a parser with no language yet.
#[verifier::external_body]
pub fn new_parser() -> (p: tree_sitter::Parser) {
    tree_sitter::Parser::new()
}

/// `tree_sitter::Parser::set_language` with the grammar of
/// `tree_sitter_c_sharp::LANGUAGE`, on the parser it takes over; the result
/// records whether it succeeded. It fails only when the grammar's ABI
/// version lies outside `MIN_COMPATIBLE_LANGUAGE_VERSION..=LANGUAGE_VERSION`
/// of the library; the contract claims success because the grammar's version
/// (15, in its `parser.c`) lies in the library's range (13 to 15, in its
/// `api.h`).
#[verifier::external_body]
pub fn load_csharp_grammar(parser: tree_sitter::Parser) -> (loaded: CSharpParser)
    ensures
        loaded.has_grammar(),
{
    let mut parser = parser;
    let loaded = parser.set_language(&tree_sitter_c_sharp::LANGUAGE.into()).is_ok();
    CSharpParser { parser, loaded }
}

/// `tree_sitter::Parser::parse` of the whole of `code` with no earlier tree,
/// kept with the code. The documentation says it returns no tree only when
/// the parser has no language, or when a timeout, a cancellation flag or a
/// progress callback set on it stops it; this library sets none of them, so
/// the contract claims a tree when the C# grammar is loaded.
#[verifier::external_body]
pub fn parse_tree(parser: &mut CSharpParser, code: &str) -> (parsed: Option<ParsedSource>)
    ensures
        final(parser).has_grammar() == old(parser).has_grammar(),
        old(parser).has_grammar() ==> parsed is Some,
        parsed matches Some(t) ==> t@ == code@,
{
    match parser.parser.parse(code, None) {
        Some(tree) => Some(ParsedSource { tree, code: code.to_string() }),
        None => None,
    }
}

/// `tree_sitter::Node::descendant_count` of the root node of the tree: the
/// number of nodes in it. The contract names that number
/// (`csharp_node_count` of the source) and claims, as the documentation
/// says, that the root itself is counted.
#[verifier::external_body]
pub fn node_count(parsed: &ParsedSource) -> (n: usize)
    ensures
        n as nat == csharp_node_count(parsed@),
        n >= 1,
{
    parsed.tree.root_node().descendant_count()
}

/// `tree_sitter::TreeCursor::goto_descendant`, on a cursor from
/// `tree_sitter::Tree::walk`, to the node of pre-order index `index`, and that
/// node's kind, byte range and depth (`TreeCursor::depth`). The contract
/// names the result (`csharp_node` of the source and the index) and claims,
/// as the documentation of both methods says, that index 0 is the root, at
/// depth 0.
#[verifier::external_body]
pub fn node_at(parsed: &ParsedSource, index: usize) -> (node: SyntaxNode)
    requires
        index < csharp_node_count(parsed@),
    ensures
        node_view(node) == csharp_node(parsed@, index as int),
        index == 0 ==> node.depth == 0,
{
    let mut cursor = parsed.tree.walk();
    cursor.goto_descendant(index);
    let node = cursor.node();
    SyntaxNode {
        kind: node.kind().to_string(),
        start: node.start_byte(),
        end: node.end_byte(),
        depth: cursor.depth() as usize,
    }
}

} // verus!
