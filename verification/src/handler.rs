use crate::digest::{blake3_digest, digest};
use crate::syntax::{
    children, end_byte, end_position, kind, node_outline, parse, root, start_byte, start_position,
    tree_outline, utf8_text, Outline,
};
use crate::text::{same_text, sentence_count, tally, trim, trimmed, word_count};
use vstd::prelude::*;
use vstd::utf8::{decode_utf8, encode_utf8, encode_utf8_decode_utf8, valid_utf8};

pub mod registry;

verus! {

/// Sentence and word counts of a block's text.
#[derive(Debug, Clone, Copy)]
pub struct Stat {
    /// How many sentences the text holds.
    pub lines: usize,
    /// How many words its sentences hold together.
    pub words: usize,
}

/// What identifies a block whatever its place in the document.
#[derive(Debug, Clone, Copy)]
pub struct Metadata {
    /// BLAKE3 digest of the block's text.
    pub hash: [u8; 32],
}

/// A paragraph or a heading of the document: its text without surrounding white space, where
/// it starts and ends (row, column), its counts and its digest.
#[derive(Debug)]
pub struct Block {
    pub text: String,
    pub start: (usize, usize),
    pub end: (usize, usize),
    pub stat: Stat,
    pub metadata: Metadata,
}

/// A block as plain values.
pub struct BlockView {
    pub text: Seq<char>,
    pub start: (usize, usize),
    pub end: (usize, usize),
    pub lines: nat,
    pub words: nat,
    pub hash: Seq<u8>,
}

impl View for Block {
    type V = BlockView;

    open spec fn view(&self) -> BlockView {
        BlockView {
            text: self.text@,
            start: self.start,
            end: self.end,
            lines: self.stat.lines as nat,
            words: self.stat.words as nat,
            hash: self.metadata.hash@,
        }
    }
}

/// The block that a leaf with text `raw`, from `start` to `end`, gives.
pub open spec fn block_of(raw: Seq<char>, start: (usize, usize), end: (usize, usize)) -> BlockView {
    let text = trimmed(raw);
    BlockView {
        text,
        start,
        end,
        lines: sentence_count(text),
        words: word_count(text),
        hash: blake3_digest(encode_utf8(text)),
    }
}

impl Stat {
    /// Counts the sentences and words of `text`.
    pub fn of(text: &str) -> (stat: Stat)
        ensures
            stat.lines == sentence_count(text@),
            stat.words == word_count(text@),
    {
        let counts = tally(text);
        Stat { lines: counts.0, words: counts.1 }
    }

    /// Words per sentence as whole part and remainder: `words == whole * lines + rest`.
    /// A text without sentences has no average.
    pub fn mean(&self) -> (r: Option<(usize, usize)>)
        ensures
            self.lines == 0 <==> r is None,
            r matches Some((whole, rest)) ==> whole == self.words / self.lines && rest
                == self.words % self.lines,
    {
        if self.lines == 0 {
            None
        } else {
            Some((self.words / self.lines, self.words % self.lines))
        }
    }
}

impl BlockView {
    /// Whether the digest is that of the text: true of every block that `Block::new` made.
    pub open spec fn addressed(self) -> bool {
        self.hash == blake3_digest(encode_utf8(self.text))
    }
}

impl Block {
    /// The block of a leaf whose text in the document is `raw`.
    pub fn new(raw: &str, start: (usize, usize), end: (usize, usize)) -> (block: Block)
        ensures
            block@ == block_of(raw@, start, end),
    {
        let text = trim(raw);
        let stat = Stat::of(text);
        let hash = digest(text.as_bytes());
        Block { text: text.to_owned(), start, end, stat, metadata: Metadata { hash } }
    }
}

impl Clone for Block {
    fn clone(&self) -> (copy: Block)
        ensures
            copy@ == self@,
    {
        Block {
            text: self.text.clone(),
            start: self.start,
            end: self.end,
            stat: self.stat,
            metadata: self.metadata,
        }
    }
}

/// Why a document could not be indexed.
#[derive(Debug, Clone, Copy, PartialEq, Eq, Structural)]
pub enum HandleError {
    /// The parser handed out no tree.
    ParseFailure,
    /// A leaf of the tree does not lie in the text, or what lies there is not UTF-8.
    UnreadableSpan,
}

impl HandleError {
    /// What went wrong, in words.
    pub fn message(&self) -> (text: String)
        ensures
            text@ == match self {
                HandleError::ParseFailure => "Failed to parse the text with the parser"@,
                HandleError::UnreadableSpan => "Failed to read the text of a block"@,
            },
    {
        match self {
            HandleError::ParseFailure => "Failed to parse the text with the parser".to_owned(),
            HandleError::UnreadableSpan => "Failed to read the text of a block".to_owned(),
        }
    }
}

/// Whether a node of this grammar kind is a block: the body of a paragraph or of a heading.
pub open spec fn yields_block(kind: Seq<char>) -> bool {
    kind == "paragraph"@ || kind == "heading_content"@
}

/// The block-yielding nodes at or below `node`, in document order. Below such a node nothing
/// is looked for.
pub open spec fn leaves(node: Outline) -> Seq<Outline>
    decreases node, 0nat,
{
    if yields_block(node.kind) {
        seq![node]
    } else {
        leaves_among(node.children)
    }
}

/// The block-yielding nodes at or below `nodes`, in document order.
pub open spec fn leaves_among(nodes: Seq<Outline>) -> Seq<Outline>
    decreases nodes, 1nat,
{
    if nodes.len() == 0 {
        seq![]
    } else {
        leaves_among(nodes.drop_last()) + leaves(nodes.last())
    }
}

/// The bytes of `source` that `node` spans.
pub open spec fn span_bytes(node: Outline, source: Seq<u8>) -> Seq<u8> {
    source.subrange(node.first_byte as int, node.end_byte as int)
}

/// Whether the text of `node` can be read out of `source`.
pub open spec fn legible(node: Outline, source: Seq<u8>) -> bool {
    &&& node.first_byte <= node.end_byte <= source.len()
    &&& valid_utf8(span_bytes(node, source))
}

/// The block that the leaf `node` gives over `source`.
pub open spec fn leaf_block(node: Outline, source: Seq<u8>) -> BlockView {
    block_of(decode_utf8(span_bytes(node, source)), node.start, node.end)
}

/// Whether every leaf of `nodes` can be read out of `source`.
pub open spec fn all_legible(nodes: Seq<Outline>, source: Seq<u8>) -> bool {
    forall|i: int| 0 <= i < nodes.len() ==> legible(#[trigger] nodes[i], source)
}

/// The blocks that `nodes` give over `source`, one for one.
pub open spec fn blocks_from(nodes: Seq<Outline>, source: Seq<u8>) -> Seq<BlockView> {
    nodes.map_values(|node: Outline| leaf_block(node, source))
}

/// The blocks as plain values.
pub open spec fn views(blocks: Seq<Block>) -> Seq<BlockView> {
    blocks.map_values(|block: Block| block@)
}

/// The leaves of the first `n` nodes are among the leaves of all of them.
pub proof fn lemma_leaves_prefix(nodes: Seq<Outline>, n: int, source: Seq<u8>)
    requires
        0 <= n <= nodes.len(),
        all_legible(leaves_among(nodes), source),
    ensures
        all_legible(leaves_among(nodes.subrange(0, n)), source),
        n < nodes.len() ==> all_legible(leaves(nodes[n]), source),
    decreases nodes.len(),
{
    if nodes.len() == 0 {
        assert(nodes.subrange(0, n) =~= nodes);
    } else {
        let front = nodes.drop_last();
        let head = leaves_among(front);
        let tail = leaves(nodes.last());
        assert forall|i: int| 0 <= i < head.len() implies legible(#[trigger] head[i], source) by {
            assert((head + tail)[i] == head[i]);
        }
        assert forall|i: int| 0 <= i < tail.len() implies legible(#[trigger] tail[i], source) by {
            assert((head + tail)[i + head.len()] == tail[i]);
        }
        if n == nodes.len() {
            assert(nodes.subrange(0, n) =~= nodes);
        } else {
            lemma_leaves_prefix(front, n, source);
            assert(front.subrange(0, n) =~= nodes.subrange(0, n));
            if n < front.len() {
                assert(front[n] == nodes[n]);
            }
        }
    }
}

/// Appends to `blocks` the blocks at or below `node`, in document order, reading their text
/// out of `text`. Fails if a leaf cannot be read; what `blocks` then holds is of no use.
pub fn construct_blocks(node: &tree_sitter::Node<'_>, blocks: &mut Vec<Block>, text: &str) -> (r:
    Result<(), HandleError>)
    ensures
        r is Ok <==> all_legible(leaves(node_outline(*node)), encode_utf8(text@)),
        r is Ok ==> views(final(blocks)@) == views(old(blocks)@) + blocks_from(
            leaves(node_outline(*node)),
            encode_utf8(text@),
        ),
        r matches Err(e) ==> e == HandleError::UnreadableSpan,
    decreases node_outline(*node),
{
    let ghost outline = node_outline(*node);
    let ghost source = encode_utf8(text@);
    let ghost before = views(blocks@);
    let name = kind(node);
    proof {
        assert(leaves(outline) == if yields_block(outline.kind) {
            seq![outline]
        } else {
            leaves_among(outline.children)
        });
    }
    if same_text(name, "paragraph") || same_text(name, "heading_content") {
        assert(leaves(outline)[0] == outline);
        let first = start_byte(node);
        let last = end_byte(node);
        if first > last || last > text.as_bytes().len() {
            return Err(HandleError::UnreadableSpan);
        }
        match utf8_text(node, text) {
            None => Err(HandleError::UnreadableSpan),
            Some(raw) => {
                let block = Block::new(raw, start_position(node), end_position(node));
                proof {
                    encode_utf8_decode_utf8(raw@);
                    assert(block@ == leaf_block(outline, source));
                    assert(views(blocks@.push(block)) =~= before + blocks_from(
                        leaves(outline),
                        source,
                    ));
                }
                blocks.push(block);
                Ok(())
            },
        }
    } else {
        let kids = children(node);
        let mut i: usize = 0;
        proof {
            assert(outline.children.subrange(0, 0) =~= Seq::<Outline>::empty());
            assert(views(blocks@) =~= before + blocks_from(Seq::<Outline>::empty(), source));
        }
        while i < kids.len()
            invariant
                i <= kids@.len(),
                outline == node_outline(*node),
                source == encode_utf8(text@),
                !yields_block(outline.kind),
                kids@.len() == outline.children.len(),
                forall|k: int|
                    0 <= k < kids@.len() ==> node_outline(#[trigger] kids@[k])
                        == outline.children[k],
                all_legible(leaves_among(outline.children.subrange(0, i as int)), source),
                views(blocks@) == before + blocks_from(
                    leaves_among(outline.children.subrange(0, i as int)),
                    source,
                ),
            decreases kids@.len() - i,
        {
            let ghost sofar = views(blocks@);
            let ghost front = outline.children.subrange(0, i as int);
            let ghost next = outline.children.subrange(0, i + 1);
            proof {
                assert(next.drop_last() =~= front);
                assert(next.last() == outline.children[i as int]);
            }
            match construct_blocks(&kids[i], blocks, text) {
                Err(e) => {
                    proof {
                        if all_legible(leaves(outline), source) {
                            lemma_leaves_prefix(outline.children, i as int, source);
                        }
                    }
                    return Err(e);
                },
                Ok(()) => {
                    proof {
                        let head = leaves_among(front);
                        let tail = leaves(outline.children[i as int]);
                        assert(leaves_among(next) == head + tail);
                        assert(blocks_from(head + tail, source) =~= blocks_from(head, source)
                            + blocks_from(tail, source));
                        assert(views(blocks@) =~= before + blocks_from(head + tail, source));
                    }
                },
            }
            i = i + 1;
        }
        proof {
            assert(outline.children.subrange(0, i as int) =~= outline.children);
        }
        Ok(())
    }
}

/// Whether position `a` (row, column) comes strictly before position `b`.
pub open spec fn precedes(a: (usize, usize), b: (usize, usize)) -> bool {
    a.0 < b.0 || (a.0 == b.0 && a.1 < b.1)
}

/// Tells whether position `a` comes strictly before position `b`.
pub fn comes_before(a: (usize, usize), b: (usize, usize)) -> (yes: bool)
    ensures
        yes == precedes(a, b),
{
    a.0 < b.0 || (a.0 == b.0 && a.1 < b.1)
}

impl BlockView {
    /// Whether `at` lies in the block: not before its start and not after its end.
    pub open spec fn covers(self, at: (usize, usize)) -> bool {
        !precedes(at, self.start) && !precedes(self.end, at)
    }
}

/// Whether the blocks stand in document order without overlap: none ends before it starts,
/// and each ends before the next one starts.
pub open spec fn ordered(blocks: Seq<BlockView>) -> bool {
    &&& forall|i: int| 0 <= i < blocks.len() ==> !precedes((#[trigger] blocks[i]).end, blocks[i].start)
    &&& forall|i: int, j: int|
        0 <= i < j < blocks.len() ==> precedes((#[trigger] blocks[i]).end, (#[trigger] blocks[j]).start)
}

/// Among ordered blocks a position lies in one block at most.
pub proof fn lemma_one_block_covers(blocks: Seq<BlockView>, at: (usize, usize), i: int, j: int)
    requires
        ordered(blocks),
        0 <= i < blocks.len(),
        0 <= j < blocks.len(),
        blocks[i].covers(at),
        blocks[j].covers(at),
    ensures
        i == j,
{
    if i < j {
        assert(precedes(blocks[i].end, blocks[j].start));
    } else if j < i {
        assert(precedes(blocks[j].end, blocks[i].start));
    }
}

/// The index of an open document: its syntax tree and the blocks read out of it.
#[derive(Debug)]
pub struct Handle {
    /// The tree that the parser made of the document, kept for the next parse to reuse.
    pub tree: tree_sitter::Tree,
    /// The blocks of the document, in the order in which the tree holds them.
    pub blocks: Vec<Block>,
}

impl Handle {
    /// What the tree of this handle holds.
    pub open spec fn outline(&self) -> Outline {
        tree_outline(self.tree)
    }

    /// Whether the blocks are those that the tree gives over `text`.
    pub open spec fn reflects(&self, text: Seq<char>) -> bool {
        &&& all_legible(leaves(self.outline()), encode_utf8(text))
        &&& views(self.blocks@) == blocks_from(leaves(self.outline()), encode_utf8(text))
    }

    /// Indexes `text` given what the parser made of it: fails if it made nothing, or if a leaf
    /// of the tree cannot be read out of `text`.
    pub fn from_parse(parsed: Option<tree_sitter::Tree>, text: &str) -> (r: Result<
        Handle,
        HandleError,
    >)
        ensures
            match r {
                Ok(handle) => parsed matches Some(tree) && handle.outline() == tree_outline(tree)
                    && handle.reflects(text@),
                Err(HandleError::ParseFailure) => parsed is None,
                Err(HandleError::UnreadableSpan) => parsed matches Some(tree) && !all_legible(
                    leaves(tree_outline(tree)),
                    encode_utf8(text@),
                ),
            },
    {
        match parsed {
            None => Err(HandleError::ParseFailure),
            Some(tree) => {
                let mut blocks: Vec<Block> = Vec::new();
                let outcome = construct_blocks(&root(&tree), &mut blocks, text);
                match outcome {
                    Err(e) => Err(e),
                    Ok(()) => {
                        proof {
                            assert(views(Seq::<Block>::empty()) =~= Seq::<BlockView>::empty());
                            assert(views(blocks@) =~= blocks_from(
                                leaves(tree_outline(tree)),
                                encode_utf8(text@),
                            ));
                        }
                        Ok(Handle { tree, blocks })
                    },
                }
            },
        }
    }

    /// Parses `text` from nothing and indexes it.
    pub fn new(text: &str, parser: &mut tree_sitter::Parser) -> (r: Result<Handle, HandleError>)
        ensures
            r matches Ok(handle) ==> handle.reflects(text@),
    {
        Handle::from_parse(parse(parser, text, None), text)
    }

    /// Puts the index of `text` in place of this one, given what the parser made of `text`.
    /// On failure nothing changes.
    pub fn replace(&mut self, parsed: Option<tree_sitter::Tree>, text: &str) -> (r: Result<
        (),
        HandleError,
    >)
        ensures
            match r {
                Ok(()) => parsed matches Some(tree) && final(self).outline() == tree_outline(tree)
                    && final(self).reflects(text@),
                Err(HandleError::ParseFailure) => parsed is None && *final(self) == *old(self),
                Err(HandleError::UnreadableSpan) => parsed matches Some(tree) && !all_legible(
                    leaves(tree_outline(tree)),
                    encode_utf8(text@),
                ) && *final(self) == *old(self),
            },
    {
        match Handle::from_parse(parsed, text) {
            Err(e) => Err(e),
            Ok(handle) => {
                *self = handle;
                Ok(())
            },
        }
    }

    /// Parses `text` again, letting the parser reuse the tree held, and indexes it. On
    /// failure nothing changes.
    pub fn update(&mut self, text: &str, parser: &mut tree_sitter::Parser) -> (r: Result<
        (),
        HandleError,
    >)
        ensures
            r is Ok ==> final(self).reflects(text@),
            r is Err ==> *final(self) == *old(self),
    {
        let parsed = parse(parser, text, Some(&self.tree));
        self.replace(parsed, text)
    }

    /// Tells whether the blocks stand in document order without overlap, which is what
    /// `get_block` relies on to find every position that lies in a block.
    pub fn is_ordered(&self) -> (yes: bool)
        ensures
            yes == ordered(views(self.blocks@)),
    {
        let ghost all = views(self.blocks@);
        let mut i: usize = 0;
        while i < self.blocks.len()
            invariant
                i <= self.blocks@.len(),
                all == views(self.blocks@),
                forall|a: int| 0 <= a < i ==> !precedes((#[trigger] all[a]).end, all[a].start),
                forall|a: int, b: int|
                    0 <= a < b < i ==> precedes((#[trigger] all[a]).end, (#[trigger] all[b]).start),
            decreases self.blocks@.len() - i,
        {
            let block = &self.blocks[i];
            assert(all[i as int] == block@);
            if comes_before(block.end, block.start) {
                return false;
            }
            if i > 0 {
                let last = &self.blocks[i - 1];
                assert(all[i - 1] == last@);
                if !comes_before(last.end, block.start) {
                    return false;
                }
                assert forall|a: int| 0 <= a < i implies precedes(
                    (#[trigger] all[a]).end,
                    all[i as int].start,
                ) by {
                    if a < i - 1 {
                        assert(precedes(all[a].end, all[i - 1].start));
                    }
                }
            }
            i = i + 1;
        }
        true
    }

    /// The block in which row `target_row`, column `target_col` lies, by binary search.
    pub fn get_block(&self, target_row: usize, target_col: usize) -> (found: Option<Block>)
        ensures
            found matches Some(block) ==> block@.covers((target_row, target_col)) && exists|i: int|
                0 <= i < self.blocks@.len() && block@ == (#[trigger] self.blocks@[i])@,
            (forall|i: int|
                0 <= i < self.blocks@.len() ==> !(#[trigger] self.blocks@[i])@.covers(
                    (target_row, target_col),
                )) ==> found is None,
            ordered(views(self.blocks@)) ==> forall|i: int|
                0 <= i < self.blocks@.len() && (#[trigger] self.blocks@[i])@.covers(
                    (target_row, target_col),
                ) ==> found is Some && found->0@ == self.blocks@[i]@,
    {
        let ghost at = (target_row, target_col);
        let ghost all = views(self.blocks@);
        let mut left: usize = 0;
        let mut right: usize = self.blocks.len();
        while left < right
            invariant
                left <= right <= self.blocks@.len(),
                at == (target_row, target_col),
                all == views(self.blocks@),
                ordered(all) ==> forall|i: int|
                    0 <= i < left ==> !(#[trigger] self.blocks@[i])@.covers(at),
                ordered(all) ==> forall|i: int|
                    right <= i < self.blocks@.len() ==> !(#[trigger] self.blocks@[i])@.covers(at),
            decreases right - left,
        {
            let mid = left + (right - left) / 2;
            let block = &self.blocks[mid];
            if target_row < block.start.0 || (target_row == block.start.0 && target_col
                < block.start.1) {
                proof {
                    if ordered(all) {
                        assert forall|i: int| mid <= i < self.blocks@.len() implies !(
                        #[trigger] self.blocks@[i])@.covers(at) by {
                            assert(all[mid as int] == self.blocks@[mid as int]@);
                            assert(all[i] == self.blocks@[i]@);
                        }
                    }
                }
                right = mid;
            } else if target_row > block.end.0 || (target_row == block.end.0 && target_col
                > block.end.1) {
                proof {
                    if ordered(all) {
                        assert forall|i: int| 0 <= i <= mid implies !(
                        #[trigger] self.blocks@[i])@.covers(at) by {
                            assert(all[mid as int] == self.blocks@[mid as int]@);
                            assert(all[i] == self.blocks@[i]@);
                        }
                    }
                }
                left = mid + 1;
            } else {
                let found = block.clone();
                proof {
                    if ordered(all) {
                        assert forall|i: int|
                            0 <= i < self.blocks@.len() && (#[trigger] self.blocks@[i])@.covers(
                                at,
                            ) implies i == mid by {
                            assert(all[mid as int] == self.blocks@[mid as int]@);
                            assert(all[i] == self.blocks@[i]@);
                        }
                    }
                }
                return Some(found);
            }
        }
        None
    }
}

/// Extraction is a function of tree and text: two indexes of the same text whose trees hold
/// the same have the same blocks, in number, places, counts and digests.
pub proof fn lemma_same_tree_same_blocks(first: Handle, second: Handle, text: Seq<char>)
    requires
        first.reflects(text),
        second.reflects(text),
        first.outline() == second.outline(),
    ensures
        views(first.blocks@) == views(second.blocks@),
{
}

/// The digest and the counts of a block depend on its text without surrounding white space
/// alone, not on where the block stands.
pub proof fn lemma_same_text_same_digest(
    first_raw: Seq<char>,
    first_start: (usize, usize),
    first_end: (usize, usize),
    second_raw: Seq<char>,
    second_start: (usize, usize),
    second_end: (usize, usize),
)
    requires
        trimmed(first_raw) == trimmed(second_raw),
    ensures
        block_of(first_raw, first_start, first_end).hash == block_of(
            second_raw,
            second_start,
            second_end,
        ).hash,
        block_of(first_raw, first_start, first_end).lines == block_of(
            second_raw,
            second_start,
            second_end,
        ).lines,
        block_of(first_raw, first_start, first_end).words == block_of(
            second_raw,
            second_start,
            second_end,
        ).words,
        block_of(first_raw, first_start, first_end).addressed(),
{
}

/// Every block of an index that reflects a text stands under the digest of its own text.
pub proof fn lemma_blocks_addressed(handle: Handle, text: Seq<char>, i: int)
    requires
        handle.reflects(text),
        0 <= i < handle.blocks@.len(),
    ensures
        handle.blocks@[i]@.addressed(),
{
    assert(views(handle.blocks@)[i] == handle.blocks@[i]@);
    assert(views(handle.blocks@).len() == leaves(handle.outline()).len());
}

} // verus!
