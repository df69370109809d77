//! Bash syntax trees from tree-sitter, read as a preorder list of plain
//! node records.
use vstd::prelude::*;
use vstd::utf8::*;
use vstd::string::StringSliceAdditionalSpecFns;
use crate::text::{line_feeds, lines_of, lemma_lines_count};

verus! {

#[verifier::external_type_specification]
#[verifier::external_body]
pub struct ExTree(tree_sitter::Tree);

/// A node record: grammar kind, zero-based start row, start byte, end byte.
pub type NodeRecord = (Seq<char>, nat, nat, nat);

/// The nodes of a parsed tree in preorder (a node before its children,
/// children in source order), as tree-sitter numbers its descendants.
pub uninterp spec fn tree_nodes(tree: tree_sitter::Tree) -> Seq<(Seq<char>, nat, nat, nat)>;

/// The preorder node records tree-sitter's bash grammar gives for a source
/// text, or `None` where the parser returns no tree.
pub uninterp spec fn bash_syntax(source: Seq<char>) -> Option<Seq<(Seq<char>, nat, nat, nat)>>;

/// One node of a syntax tree as the library reads it.
pub struct SyntaxNode {
    pub kind: String,
    pub row: usize,
    pub start_byte: usize,
    pub end_byte: usize,
}

impl View for SyntaxNode {
    type V = NodeRecord;

    open spec fn view(&self) -> NodeRecord {
        (self.kind@, self.row as nat, self.start_byte as nat, self.end_byte as nat)
    }
}

/// What parsing a source text with the bash grammar gave.
pub enum BashParse {
    Parsed(tree_sitter::Tree),
    NoTree,
    LanguageRejected,
}

/// The number of line feed bytes among the first `n` bytes of `b`.
pub open spec fn newlines_before(b: Seq<u8>, n: int) -> nat
    decreases n,
{
    if n <= 0 {
        0
    } else {
        newlines_before(b, n - 1) + (if n - 1 < b.len() && b[n - 1] == 10u8 {
            1nat
        } else {
            0nat
        })
    }
}

proof fn lemma_newlines_prefix(x: Seq<u8>, y: Seq<u8>, n: int)
    requires
        0 <= n <= x.len(),
    ensures
        newlines_before(x + y, n) == newlines_before(x, n),
    decreases n,
{
    if n > 0 {
        lemma_newlines_prefix(x, y, n - 1);
        assert((x + y)[n - 1] == x[n - 1]);
    }
}

proof fn lemma_newlines_concat(x: Seq<u8>, y: Seq<u8>, m: int)
    requires
        0 <= m <= y.len(),
    ensures
        newlines_before(x + y, x.len() + m) == newlines_before(x, x.len() as int) + newlines_before(
            y,
            m,
        ),
    decreases m,
{
    if m == 0 {
        lemma_newlines_prefix(x, y, x.len() as int);
    } else {
        lemma_newlines_concat(x, y, m - 1);
        assert((x + y)[x.len() + m - 1] == y[m - 1]);
    }
}

proof fn lemma_high_bytes(x: u8)
    by (bit_vector)
    ensures
        (0x80u8 | x) != 10u8,
        (0xC0u8 | x) != 10u8,
        (0xE0u8 | x) != 10u8,
        (0xF0u8 | x) != 10u8,
{
}

proof fn lemma_low_byte(u: u32)
    by (bit_vector)
    requires
        u <= 0x7f,
    ensures
        ((u & 0x7F) as u8 == 10u8) <==> (u == 10),
{
}

/// A character's UTF-8 bytes hold a line feed exactly when it is one, and
/// then as its last byte.
proof fn lemma_scalar_newline(c: char)
    ensures
        newlines_before(encode_scalar(c as u32), encode_scalar(c as u32).len() as int) == (if c
            == '\n' {
            1nat
        } else {
            0nat
        }),
        encode_scalar(c as u32).len() > 0,
        (encode_scalar(c as u32).last() == 10u8) <==> (c == '\n'),
{
    let u = c as u32;
    char_is_scalar(c);
    reveal_with_fuel(newlines_before, 5);
    if has_width_1_encoding(u) {
        lemma_low_byte(u);
        assert(('\n' as u32) == 10);
        assert(c == '\n' <==> u == 10);
    } else if has_width_2_encoding(u) {
        lemma_high_bytes(((u >> 6) & 0x1F) as u8);
        lemma_high_bytes((u & 0x3F) as u8);
    } else if has_width_3_encoding(u) {
        lemma_high_bytes(((u >> 12) & 0x0F) as u8);
        lemma_high_bytes(((u >> 6) & 0x3F) as u8);
        lemma_high_bytes((u & 0x3F) as u8);
    } else {
        lemma_high_bytes(((u >> 18) & 0x7) as u8);
        lemma_high_bytes(((u >> 12) & 0x3F) as u8);
        lemma_high_bytes(((u >> 6) & 0x3F) as u8);
        lemma_high_bytes((u & 0x3F) as u8);
    }
}

/// The line feed bytes of a text's UTF-8 encoding are its line feeds.
pub proof fn lemma_encoded_line_feeds(s: Seq<char>)
    ensures
        newlines_before(encode_utf8(s), encode_utf8(s).len() as int) == line_feeds(s),
        s.len() > 0 ==> encode_utf8(s).len() > 0 && ((encode_utf8(s).last() == 10u8) <==> (
        s.last() == '\n')),
    decreases s.len(),
{
    if s.len() > 0 {
        let x = encode_scalar(s[0] as u32);
        let y = encode_utf8(s.drop_first());
        lemma_encoded_line_feeds(s.drop_first());
        lemma_scalar_newline(s[0]);
        assert(encode_utf8(s) == x + y);
        lemma_newlines_concat(x, y, y.len() as int);
        if s.drop_first().len() > 0 {
            assert(s.drop_first().last() == s.last());
            assert((x + y).last() == y.last());
        } else {
            assert(y.len() == 0);
            assert(s.last() == s[0]);
            assert((x + y).last() == x.last());
            assert(newlines_before(y, 0) == 0);
        }
    }
}

proof fn lemma_newlines_monotone_bytes(b: Seq<u8>, m: int, n: int)
    requires
        m <= n,
    ensures
        newlines_before(b, m) <= newlines_before(b, n),
    decreases n - m,
{
    if m < n {
        lemma_newlines_monotone_bytes(b, m, n - 1);
    }
}

/// A position inside the source lies on one of its lines: the line feeds
/// before it number fewer than the lines `str::lines` gives.
pub proof fn lemma_row_within_lines(source: Seq<char>, start: int)
    requires
        0 <= start < encode_utf8(source).len(),
    ensures
        newlines_before(encode_utf8(source), start) + 1 <= lines_of(source).len(),
{
    let b = encode_utf8(source);
    lemma_encoded_line_feeds(source);
    lemma_lines_count(source);
    lemma_newlines_monotone_bytes(b, start, b.len() - 1);
    if source.len() == 0 {
        assert(b.len() == 0);
    }
    assert(b.last() == b[b.len() - 1]);
}

/// Where the nodes of a tree sit in the source they were parsed from: each
/// node's byte range lies within the UTF-8 source, its row is the number of
/// line feeds before its start, and in preorder the start bytes never go
/// back (a child starts within its parent, a later sibling after an
/// earlier one).
pub open spec fn nodes_placed(source: Seq<char>, nodes: Seq<NodeRecord>) -> bool {
    let b = encode_utf8(source);
    &&& forall|i: int|
        0 <= i < nodes.len() ==> (#[trigger] nodes[i]).2 <= nodes[i].3 <= b.len() && nodes[i].1
            == newlines_before(b, nodes[i].2 as int)
    &&& forall|i: int, j: int|
        0 <= i <= j < nodes.len() ==> (#[trigger] nodes[i]).2 <= (#[trigger] nodes[j]).2
}

/// Creates a `tree_sitter::Parser`, sets `tree_sitter_bash::LANGUAGE` with
/// `Parser::set_language` and calls `Parser::parse` on the source.
/// `set_language` fails only on an ABI version outside 13..=14; the bash
/// grammar brought here is generated with version 14, so the contract
/// excludes `LanguageRejected`. `Parser::parse` gives no tree only without
/// a language, on a timeout or cancellation (none is set here) or on an
/// error of a WebAssembly scanner (the bash scanner is native), so the
/// contract excludes `NoTree`. Which nodes the tree holds is named by
/// `bash_syntax`; of their positions the contract states what tree-sitter's
/// lexer and tree layout give: byte ranges within the source, rows counted
/// in line feeds, start bytes in preorder order.
#[verifier::external_body]
pub(crate) fn parse_bash(source: &str) -> (r: BashParse)
    ensures
        !(r is LanguageRejected),
        !(r is NoTree),
        r matches BashParse::Parsed(t) ==> bash_syntax(source@) == Some(tree_nodes(t)),
        r matches BashParse::Parsed(t) ==> nodes_placed(source@, tree_nodes(t)),
{
    let mut parser = tree_sitter::Parser::new();
    if parser.set_language(&tree_sitter_bash::LANGUAGE.into()).is_err() {
        return BashParse::LanguageRejected;
    }
    match parser.parse(source, None) {
        Some(tree) => BashParse::Parsed(tree),
        None => BashParse::NoTree,
    }
}

/// Calls `Node::descendant_count` on `Tree::root_node`: the number of nodes
/// of the tree, the root included.
#[verifier::external_body]
pub(crate) fn node_count(tree: &tree_sitter::Tree) -> (r: usize)
    ensures
        r == tree_nodes(*tree).len(),
{
    tree.root_node().descendant_count()
}

/// Moves a `TreeCursor` from the root to descendant `i` with
/// `TreeCursor::goto_descendant` (preorder numbering, the root is 0) and
/// reads `Node::kind`, `Node::start_position().row`, `Node::start_byte` and
/// `Node::end_byte`. tree-sitter keeps rows and byte offsets as `uint32_t`;
/// a row counts the line breaks before the node, so it stays below the
/// source's length in bytes, itself at most `isize::MAX`.
#[verifier::external_body]
pub(crate) fn node_at(tree: &tree_sitter::Tree, i: usize) -> (r: SyntaxNode)
    requires
        i < tree_nodes(*tree).len(),
    ensures
        r@ == tree_nodes(*tree)[i as int],
        r.row <= u32::MAX,
        r.row < usize::MAX,
        r.start_byte <= u32::MAX,
        r.end_byte <= u32::MAX,
{
    let mut cursor = tree.walk();
    cursor.goto_descendant(i);
    let node = cursor.node();
    SyntaxNode {
        kind: node.kind().to_string(),
        row: node.start_position().row,
        start_byte: node.start_byte(),
        end_byte: node.end_byte(),
    }
}

/// The text of `source` between two byte offsets, where both offsets fall on
/// character boundaries of its UTF-8 encoding and `start <= end`
/// (`&source[start..end]` is defined exactly then).
pub open spec fn byte_range_text(source: Seq<char>, start: int, end: int) -> Option<Seq<char>> {
    let b = encode_utf8(source);
    if start <= end && is_char_boundary(b, start) && is_char_boundary(b, end) {
        Some(decode_utf8(b.subrange(start, end)))
    } else {
        None
    }
}

/// A character boundary at or after `s` stays one, shifted, in the
/// suffix from `s`.
proof fn lemma_boundary_in_suffix(b: Seq<u8>, s: int, e: int)
    requires
        valid_utf8(b),
        is_char_boundary(b, s),
        is_char_boundary(b, e),
        s <= e,
    ensures
        valid_utf8(b.subrange(s, b.len() as int)),
        is_char_boundary(b.subrange(s, b.len() as int), e - s),
    decreases b.len(),
{
    broadcast use valid_utf8_split;

    if s == 0 {
        assert(b.subrange(0, b.len() as int) =~= b);
    } else {
        let l = length_of_first_scalar(b);
        let t = pop_first_scalar(b);
        assert(t.len() < b.len());
        assert(is_char_boundary(t, s - l));
        assert(is_char_boundary(t, e - l));
        assert(s - l >= 0);
        assert(0 < l <= b.len());
        lemma_boundary_in_suffix(t, s - l, e - l);
        assert(t.subrange(s - l, t.len() as int) =~= b.subrange(s, b.len() as int));
    }
}

/// `&source[start..end]` where that slice is defined, `None` elsewhere.
pub fn text_in_range(source: &str, start: usize, end: usize) -> (r: Option<&str>)
    ensures
        match r {
            Some(t) => byte_range_text(source@, start as int, end as int) == Some(t@),
            None => byte_range_text(source@, start as int, end as int) is None,
        },
{
    let ghost b = encode_utf8(source@);
    proof {
        encode_utf8_valid_utf8(source@);
    }
    if start > end || !source.is_char_boundary(start) || !source.is_char_boundary(end) {
        return None;
    }
    let (_, rest) = source.split_at(start);
    proof {
        lemma_boundary_in_suffix(b, start as int, end as int);
        assert(rest.spec_bytes() =~= b.subrange(start as int, b.len() as int));
    }
    let (mid, _) = rest.split_at(end - start);
    proof {
        assert(mid.spec_bytes() =~= b.subrange(start as int, end as int));
        encode_utf8_decode_utf8(mid@);
    }
    Some(mid)
}

} // verus!
