use crate::handler::{views, Block, BlockView};
use crate::store::{
    embeddings_entries, embeddings_has, embeddings_insert, embeddings_keys, embeddings_new,
    embeddings_remove, keywords_entries, keywords_get, keywords_has, keywords_insert,
    keywords_keys, keywords_new, keywords_remove, live_entries, live_has, live_insert, live_new,
    summaries_entries, summaries_get, summaries_has, summaries_insert, summaries_keys,
    summaries_new, summaries_remove, EmbeddingMap, KeywordMap, LiveMap, SummaryMap,
};
use vstd::prelude::*;

verus! {

/// A block shorter than this many words gets no summary.
pub const SUMMARY_THRESHOLD: usize = 100;

/// The bits of the 32-bit float 0.4: a keyword must score above it to be kept.
pub const SCORE_FLOOR: u32 = 0x3ECC_CCCD;

/// The bits of positive infinity, the greatest 32-bit float there is.
pub const SCORE_CEILING: u32 = 0x7F80_0000;

/// What a keyword model proposes: a term and its score, the score as the bits of a 32-bit
/// float.
#[derive(Debug)]
pub struct Keyword {
    pub text: String,
    pub score: u32,
}

/// A proposed keyword as plain values.
pub struct KeywordView {
    pub text: Seq<char>,
    pub score: u32,
}

impl View for Keyword {
    type V = KeywordView;

    open spec fn view(&self) -> KeywordView {
        KeywordView { text: self.text@, score: self.score }
    }
}

/// Why the registry turned down what a model or a provider handed in.
#[derive(Debug, Clone, Copy, PartialEq, Eq, Structural)]
pub enum RegistryError {
    /// The keyword model answered for no text at all.
    NoKeywords,
    /// The embedding provider answered with more or fewer vectors than it was asked for.
    EmbeddingCountMismatch,
}

impl RegistryError {
    /// What went wrong, in words.
    pub fn message(&self) -> (text: String)
        ensures
            text@ == match self {
                RegistryError::NoKeywords => "No keywords found"@,
                RegistryError::EmbeddingCountMismatch => "Embeddings do not match the texts"@,
            },
    {
        match self {
            RegistryError::NoKeywords => "No keywords found".to_owned(),
            RegistryError::EmbeddingCountMismatch => "Embeddings do not match the texts".to_owned(),
        }
    }
}

/// Whether `score`, the bits of a 32-bit float, is a number greater than 0.4. Among the
/// floats that are not negative the bits grow with the number; above those of infinity they
/// are no number, and with the sign bit set they exceed all of these.
pub open spec fn scores_high(score: u32) -> bool {
    SCORE_FLOOR < score <= SCORE_CEILING
}

/// Tells whether a keyword with this score is kept.
pub fn score_passes(score: u32) -> (kept: bool)
    ensures
        kept == scores_high(score),
{
    SCORE_FLOOR < score && score <= SCORE_CEILING
}

/// The proposals as plain values.
pub open spec fn keyword_views(found: Seq<Keyword>) -> Seq<KeywordView> {
    found.map_values(|keyword: Keyword| keyword@)
}

/// The terms among `found` that score above 0.4, in the order in which they were proposed.
pub open spec fn chosen(found: Seq<KeywordView>) -> Seq<Seq<char>>
    decreases found.len(),
{
    if found.len() == 0 {
        seq![]
    } else if scores_high(found.last().score) {
        chosen(found.drop_last()).push(found.last().text)
    } else {
        chosen(found.drop_last())
    }
}

/// The strings as plain values.
pub open spec fn texts(strings: Seq<String>) -> Seq<Seq<char>> {
    strings.map_values(|string: String| string@)
}

/// The keywords to store for a text, given what the model proposed for a batch that held
/// this text alone: the terms of the first answer that score above 0.4.
pub fn generate_keywords(predicted: &Vec<Vec<Keyword>>) -> (r: Result<Vec<String>, RegistryError>)
    ensures
        match r {
            Ok(terms) => predicted@.len() > 0 && texts(terms@) == chosen(
                keyword_views(predicted@[0]@),
            ),
            Err(e) => predicted@.len() == 0 && e == RegistryError::NoKeywords,
        },
{
    if predicted.len() == 0 {
        return Err(RegistryError::NoKeywords);
    }
    let found = &predicted[0];
    let mut terms: Vec<String> = Vec::new();
    let mut i: usize = 0;
    proof {
        assert(keyword_views(found@).subrange(0, 0) =~= Seq::<KeywordView>::empty());
        assert(texts(terms@) =~= Seq::<Seq<char>>::empty());
    }
    while i < found.len()
        invariant
            i <= found@.len(),
            texts(terms@) == chosen(keyword_views(found@).subrange(0, i as int)),
        decreases found@.len() - i,
    {
        proof {
            let next = keyword_views(found@).subrange(0, i + 1);
            assert(next.drop_last() =~= keyword_views(found@).subrange(0, i as int));
            assert(next.last() == found@[i as int]@);
        }
        if score_passes(found[i].score) {
            let term = found[i].text.clone();
            proof {
                assert(texts(terms@.push(term)) =~= texts(terms@).push(term@));
            }
            terms.push(term);
        }
        i = i + 1;
    }
    proof {
        assert(keyword_views(found@).subrange(0, i as int) =~= keyword_views(found@));
    }
    Ok(terms)
}

/// What the registry holds, as plain values: keyword lists, summaries and embeddings by
/// digest, and under `live` the block last seen with each digest.
pub struct RegistryView {
    pub keywords: Map<Seq<u8>, Seq<Seq<char>>>,
    pub summaries: Map<Seq<u8>, Seq<char>>,
    pub embeddings: Map<Seq<u8>, Seq<u32>>,
    pub live: Map<Seq<u8>, BlockView>,
}

impl RegistryView {
    /// Whether keywords are still to be computed for `block`.
    pub open spec fn wants_keywords(self, block: BlockView) -> bool {
        !self.keywords.contains_key(block.hash)
    }

    /// Whether a summary is still to be computed for `block`: none is stored, and the block
    /// is long enough to be worth one.
    pub open spec fn wants_summary(self, block: BlockView) -> bool {
        !self.summaries.contains_key(block.hash) && block.words >= SUMMARY_THRESHOLD
    }

    /// Whether an embedding is still to be computed for `block`.
    pub open spec fn wants_embedding(self, block: BlockView) -> bool {
        !self.embeddings.contains_key(block.hash)
    }

    /// What a reader gets as the keywords of `block`: a stored list that is not empty.
    pub open spec fn keywords_of(self, block: BlockView) -> Option<Seq<Seq<char>>> {
        if self.keywords.contains_key(block.hash) && self.keywords[block.hash].len() > 0 {
            Some(self.keywords[block.hash])
        } else {
            None
        }
    }

    /// What a reader gets as the summary of `block`: a stored text that is not empty.
    pub open spec fn summary_of(self, block: BlockView) -> Option<Seq<char>> {
        if self.summaries.contains_key(block.hash) && self.summaries[block.hash].len() > 0 {
            Some(self.summaries[block.hash])
        } else {
            None
        }
    }

    /// The registry after a collection: of each kind only what is stored under a live
    /// digest; the live blocks as they were.
    pub open spec fn collected(self) -> RegistryView {
        RegistryView {
            keywords: self.keywords.restrict(self.live.dom()),
            summaries: self.summaries.restrict(self.live.dom()),
            embeddings: self.embeddings.restrict(self.live.dom()),
            live: self.live,
        }
    }
}

/// The live blocks after `blocks` were seen one after the other: each stands under its
/// digest, a later one in place of an earlier one with the same digest.
pub open spec fn seen(live: Map<Seq<u8>, BlockView>, blocks: Seq<BlockView>) -> Map<
    Seq<u8>,
    BlockView,
>
    decreases blocks.len(),
{
    if blocks.len() == 0 {
        live
    } else {
        seen(live, blocks.drop_last()).insert(blocks.last().hash, blocks.last())
    }
}

/// The blocks from index `from` up to index `to`, or none where these are no range of
/// `blocks`.
pub open spec fn stretch(blocks: Seq<BlockView>, from: int, to: int) -> Seq<BlockView> {
    if 0 <= from <= to <= blocks.len() {
        blocks.subrange(from, to)
    } else {
        seq![]
    }
}

/// The blocks among `blocks` for which no embedding is stored in `cached`, in their order.
pub open spec fn pending(blocks: Seq<BlockView>, cached: Map<Seq<u8>, Seq<u32>>) -> Seq<
    BlockView,
>
    decreases blocks.len(),
{
    if blocks.len() == 0 {
        seq![]
    } else if cached.contains_key(blocks.last().hash) {
        pending(blocks.drop_last(), cached)
    } else {
        pending(blocks.drop_last(), cached).push(blocks.last())
    }
}

/// The embeddings after `vectors` were stored under `keys`, one for one and first to last.
pub open spec fn filed(
    stored: Map<Seq<u8>, Seq<u32>>,
    keys: Seq<Seq<u8>>,
    vectors: Seq<Seq<u32>>,
) -> Map<Seq<u8>, Seq<u32>>
    decreases keys.len(),
{
    if keys.len() == 0 || vectors.len() == 0 {
        stored
    } else {
        filed(stored, keys.drop_last(), vectors.drop_last()).insert(keys.last(), vectors.last())
    }
}

/// The digests of the blocks, one for one.
pub open spec fn hashes(blocks: Seq<BlockView>) -> Seq<Seq<u8>> {
    blocks.map_values(|block: BlockView| block.hash)
}

/// The texts of the blocks, one for one.
pub open spec fn bodies(blocks: Seq<BlockView>) -> Seq<Seq<char>> {
    blocks.map_values(|block: BlockView| block.text)
}

/// The digests as plain values.
pub open spec fn digests(keys: Seq<[u8; 32]>) -> Seq<Seq<u8>> {
    keys.map_values(|key: [u8; 32]| key@)
}

/// The vectors as plain values.
pub open spec fn vectors(embeddings: Seq<Vec<u32>>) -> Seq<Seq<u32>> {
    embeddings.map_values(|embedding: Vec<u32>| embedding@)
}

/// What is left of `stored` once the first `upto` of `keys` were looked at and those that
/// are not in `live` were removed.
pub open spec fn swept<V>(
    stored: Map<Seq<u8>, V>,
    keys: Seq<Seq<u8>>,
    upto: int,
    live: Set<Seq<u8>>,
) -> Map<Seq<u8>, V> {
    stored.restrict(
        Set::new(
            |key: Seq<u8>|
                live.contains(key) || !exists|j: int| 0 <= j < upto && #[trigger] keys[j] == key,
        ),
    )
}

/// Before any key was looked at, everything is still there.
pub proof fn lemma_swept_none<V>(stored: Map<Seq<u8>, V>, keys: Seq<Seq<u8>>, live: Set<Seq<u8>>)
    ensures
        swept(stored, keys, 0, live) == stored,
{
    assert(swept(stored, keys, 0, live) =~= stored);
}

/// Looking at one more key removes it if it is not live, and changes nothing if it is.
pub proof fn lemma_swept_next<V>(
    stored: Map<Seq<u8>, V>,
    keys: Seq<Seq<u8>>,
    upto: int,
    live: Set<Seq<u8>>,
)
    requires
        0 <= upto < keys.len(),
    ensures
        live.contains(keys[upto]) ==> swept(stored, keys, upto + 1, live) == swept(
            stored,
            keys,
            upto,
            live,
        ),
        !live.contains(keys[upto]) ==> swept(stored, keys, upto + 1, live) == swept(
            stored,
            keys,
            upto,
            live,
        ).remove(keys[upto]),
{
    let now = swept(stored, keys, upto, live);
    let next = swept(stored, keys, upto + 1, live);
    if live.contains(keys[upto]) {
        assert forall|key: Seq<u8>| now.contains_key(key) <==> next.contains_key(key) by {
            if exists|j: int| 0 <= j < upto + 1 && #[trigger] keys[j] == key {
                let j = choose|j: int| 0 <= j < upto + 1 && #[trigger] keys[j] == key;
                if j < upto {
                    assert(keys[j] == key);
                }
            }
        }
        assert(next =~= now);
    } else {
        assert forall|key: Seq<u8>|
            now.remove(keys[upto]).contains_key(key) <==> next.contains_key(key) by {
            if key == keys[upto] {
                assert(keys[upto] == key);
            } else if exists|j: int| 0 <= j < upto + 1 && #[trigger] keys[j] == key {
                let j = choose|j: int| 0 <= j < upto + 1 && #[trigger] keys[j] == key;
                assert(j < upto);
            }
        }
        assert(next =~= now.remove(keys[upto]));
    }
}

/// Once every key of `stored` was looked at, what is left is what stands under a live key.
pub proof fn lemma_swept_all<V>(stored: Map<Seq<u8>, V>, keys: Seq<Seq<u8>>, live: Set<Seq<u8>>)
    requires
        forall|key: Seq<u8>| #[trigger]
            stored.contains_key(key) ==> exists|j: int|
                0 <= j < keys.len() && #[trigger] keys[j] == key,
    ensures
        swept(stored, keys, keys.len() as int, live) == stored.restrict(live),
{
    assert(swept(stored, keys, keys.len() as int, live) =~= stored.restrict(live));
}

/// Where an embedding is stored for every block, none is pending.
pub proof fn lemma_pending_none(blocks: Seq<BlockView>, cached: Map<Seq<u8>, Seq<u32>>)
    requires
        forall|i: int| 0 <= i < blocks.len() ==> cached.contains_key((#[trigger] blocks[i]).hash),
    ensures
        pending(blocks, cached).len() == 0,
    decreases blocks.len(),
{
    if blocks.len() > 0 {
        let front = blocks.drop_last();
        assert forall|i: int| 0 <= i < front.len() implies cached.contains_key(
            (#[trigger] front[i]).hash,
        ) by {
            assert(front[i] == blocks[i]);
        }
        lemma_pending_none(front, cached);
        assert(cached.contains_key(blocks[blocks.len() - 1].hash));
    }
}

/// Content addressing: two blocks that hold the same text, each under the digest of its
/// text, have the same digest, and the registry treats them alike: it wants the same for
/// both and hands out the same keywords and summary for both, wherever each block stands.
pub proof fn lemma_same_text_same_entries(registry: RegistryView, a: BlockView, b: BlockView)
    requires
        a.addressed(),
        b.addressed(),
        a.text == b.text,
    ensures
        a.hash == b.hash,
        registry.keywords_of(a) == registry.keywords_of(b),
        registry.summary_of(a) == registry.summary_of(b),
        registry.wants_keywords(a) == registry.wants_keywords(b),
        registry.wants_embedding(a) == registry.wants_embedding(b),
{
}

/// After a collection every keyword list, summary and embedding left stands under the
/// digest of a live block, and what was stored under such a digest is still there.
pub proof fn lemma_collected_is_live(registry: RegistryView, key: Seq<u8>)
    ensures
        registry.collected().keywords.contains_key(key) <==> registry.keywords.contains_key(key)
            && registry.live.contains_key(key),
        registry.collected().summaries.contains_key(key) <==> registry.summaries.contains_key(key)
            && registry.live.contains_key(key),
        registry.collected().embeddings.contains_key(key) <==> registry.embeddings.contains_key(
            key,
        ) && registry.live.contains_key(key),
        registry.collected().live == registry.live,
{
}

/// A second collection right after a first one removes nothing.
pub proof fn lemma_collected_twice(registry: RegistryView)
    ensures
        registry.collected().collected() == registry.collected(),
{
    let once = registry.collected();
    let twice = once.collected();
    assert(twice.keywords =~= once.keywords);
    assert(twice.summaries =~= once.summaries);
    assert(twice.embeddings =~= once.embeddings);
}

/// How far a pass over the blocks of a document got.
#[derive(Debug, Clone, Copy, PartialEq, Eq, Structural)]
pub enum Step {
    /// Every block was looked at and none needs anything.
    Done,
    /// The block at this index needs the model: run it, hand in what it says, and go on
    /// from the next index.
    Run(usize),
}

/// The texts to embed and the digests under which the vectors are to be stored, one for one.
#[derive(Debug)]
pub struct EmbeddingBatch {
    pub keys: Vec<[u8; 32]>,
    pub texts: Vec<String>,
}

/// Keywords, summaries and embeddings of blocks, each kind stored under the digest of the
/// block's text, and the blocks by which a collection tells what is still in use.
pub struct Registry {
    keyword_registry: KeywordMap,
    reverse_index: LiveMap,
    embedding_registry: EmbeddingMap,
    summary_registry: SummaryMap,
}

impl View for Registry {
    type V = RegistryView;

    closed spec fn view(&self) -> RegistryView {
        RegistryView {
            keywords: keywords_entries(self.keyword_registry),
            summaries: summaries_entries(self.summary_registry),
            embeddings: embeddings_entries(self.embedding_registry),
            live: live_entries(self.reverse_index),
        }
    }
}

impl Registry {
    /// A registry that holds nothing.
    pub fn new() -> (registry: Registry)
        ensures
            registry@.keywords == Map::<Seq<u8>, Seq<Seq<char>>>::empty(),
            registry@.summaries == Map::<Seq<u8>, Seq<char>>::empty(),
            registry@.embeddings == Map::<Seq<u8>, Seq<u32>>::empty(),
            registry@.live == Map::<Seq<u8>, BlockView>::empty(),
    {
        let registry = Registry {
            keyword_registry: keywords_new(),
            reverse_index: live_new(),
            embedding_registry: embeddings_new(),
            summary_registry: summaries_new(),
        };
        proof {
            assert(registry@.keywords =~= Map::<Seq<u8>, Seq<Seq<char>>>::empty());
            assert(registry@.summaries =~= Map::<Seq<u8>, Seq<char>>::empty());
            assert(registry@.embeddings =~= Map::<Seq<u8>, Seq<u32>>::empty());
            assert(registry@.live =~= Map::<Seq<u8>, BlockView>::empty());
        }
        registry
    }

    /// Goes through `content` from index `from`, noting each block as live, up to the first
    /// block for which no keywords are stored. That block is reported for the keyword model
    /// to be run on it; `accept_keywords` takes what the model says.
    pub fn keyword_text(&mut self, content: &[Block], from: usize) -> (step: Step)
        ensures
            final(self)@.keywords == old(self)@.keywords,
            final(self)@.summaries == old(self)@.summaries,
            final(self)@.embeddings == old(self)@.embeddings,
            (forall|i: int|
                from <= i < content@.len() ==> !old(self)@.wants_keywords(
                    (#[trigger] content@[i])@,
                )) ==> step == Step::Done,
            match step {
                Step::Run(at) => {
                    &&& from <= at < content@.len()
                    &&& old(self)@.wants_keywords(content@[at as int]@)
                    &&& forall|i: int|
                        from <= i < at ==> !old(self)@.wants_keywords((#[trigger] content@[i])@)
                    &&& final(self)@.live == seen(
                        old(self)@.live,
                        stretch(views(content@), from as int, at + 1),
                    )
                },
                Step::Done => {
                    &&& forall|i: int|
                        from <= i < content@.len() ==> !old(self)@.wants_keywords(
                            (#[trigger] content@[i])@,
                        )
                    &&& final(self)@.live == seen(
                        old(self)@.live,
                        stretch(views(content@), from as int, content@.len() as int),
                    )
                },
            },
    {
        let mut i: usize = from;
        proof {
            assert(stretch(views(content@), from as int, from as int) =~= Seq::<BlockView>::empty());
        }
        while i < content.len()
            invariant
                from <= i,
                i <= content@.len() || i == from,
                self@.keywords == old(self)@.keywords,
                self@.summaries == old(self)@.summaries,
                self@.embeddings == old(self)@.embeddings,
                forall|k: int| from <= k < i ==> !old(self)@.wants_keywords((#[trigger] content@[k])@),
                self@.live == seen(
                    old(self)@.live,
                    stretch(views(content@), from as int, i as int),
                ),
            decreases content@.len() - i,
        {
            let block = &content[i];
            proof {
                let next = stretch(views(content@), from as int, i + 1);
                assert(next.drop_last() =~= stretch(views(content@), from as int, i as int));
                assert(next.last() == block@);
            }
            live_insert(&mut self.reverse_index, block.metadata.hash, block.clone());
            let cached = keywords_has(&self.keyword_registry, &block.metadata.hash);
            if !cached {
                return Step::Run(i);
            }
            i = i + 1;
        }
        Step::Done
    }

    /// Stores for `block` the keywords that `generate_keywords` draws from `predicted`,
    /// unless keywords are stored for it already. Fails, and stores nothing, if the model
    /// answered for no text.
    pub fn accept_keywords(&mut self, block: &Block, predicted: &Vec<Vec<Keyword>>) -> (r: Result<
        (),
        RegistryError,
    >)
        ensures
            final(self)@.summaries == old(self)@.summaries,
            final(self)@.embeddings == old(self)@.embeddings,
            final(self)@.live == old(self)@.live,
            r is Ok <==> predicted@.len() > 0,
            r matches Err(e) ==> e == RegistryError::NoKeywords,
            final(self)@.keywords == if r is Ok && old(self)@.wants_keywords(block@) {
                old(self)@.keywords.insert(block@.hash, chosen(keyword_views(predicted@[0]@)))
            } else {
                old(self)@.keywords
            },
    {
        match generate_keywords(predicted) {
            Err(e) => Err(e),
            Ok(terms) => {
                proof {
                    assert(terms.deep_view() =~= texts(terms@));
                }
                if !keywords_has(&self.keyword_registry, &block.metadata.hash) {
                    keywords_insert(&mut self.keyword_registry, block.metadata.hash, terms);
                }
                Ok(())
            },
        }
    }

    /// Goes through `content` from index `from`, noting each block as live, up to the first
    /// block that is long enough for a summary and has none stored. That block is reported
    /// for the summarization model to be run on it; `accept_summary` takes what it says.
    pub fn summarize_text(&mut self, content: &[Block], from: usize) -> (step: Step)
        ensures
            final(self)@.keywords == old(self)@.keywords,
            final(self)@.summaries == old(self)@.summaries,
            final(self)@.embeddings == old(self)@.embeddings,
            (forall|i: int|
                from <= i < content@.len() ==> !old(self)@.wants_summary(
                    (#[trigger] content@[i])@,
                )) ==> step == Step::Done,
            match step {
                Step::Run(at) => {
                    &&& from <= at < content@.len()
                    &&& old(self)@.wants_summary(content@[at as int]@)
                    &&& forall|i: int|
                        from <= i < at ==> !old(self)@.wants_summary((#[trigger] content@[i])@)
                    &&& final(self)@.live == seen(
                        old(self)@.live,
                        stretch(views(content@), from as int, at + 1),
                    )
                },
                Step::Done => {
                    &&& forall|i: int|
                        from <= i < content@.len() ==> !old(self)@.wants_summary(
                            (#[trigger] content@[i])@,
                        )
                    &&& final(self)@.live == seen(
                        old(self)@.live,
                        stretch(views(content@), from as int, content@.len() as int),
                    )
                },
            },
    {
        let mut i: usize = from;
        proof {
            assert(stretch(views(content@), from as int, from as int) =~= Seq::<BlockView>::empty());
        }
        while i < content.len()
            invariant
                from <= i,
                i <= content@.len() || i == from,
                self@.keywords == old(self)@.keywords,
                self@.summaries == old(self)@.summaries,
                self@.embeddings == old(self)@.embeddings,
                forall|k: int| from <= k < i ==> !old(self)@.wants_summary((#[trigger] content@[k])@),
                self@.live == seen(
                    old(self)@.live,
                    stretch(views(content@), from as int, i as int),
                ),
            decreases content@.len() - i,
        {
            let block = &content[i];
            proof {
                let next = stretch(views(content@), from as int, i + 1);
                assert(next.drop_last() =~= stretch(views(content@), from as int, i as int));
                assert(next.last() == block@);
            }
            live_insert(&mut self.reverse_index, block.metadata.hash, block.clone());
            let cached = summaries_has(&self.summary_registry, &block.metadata.hash);
            if !cached && block.stat.words >= SUMMARY_THRESHOLD {
                return Step::Run(i);
            }
            i = i + 1;
        }
        Step::Done
    }

    /// Stores for `block` the first of the summaries that the model produced for a batch
    /// that held this block's text alone. Stores nothing if the model produced none, if a
    /// summary is stored for the block already, or if the block is too short for one.
    pub fn accept_summary(&mut self, block: &Block, produced: &Vec<String>)
        ensures
            final(self)@.keywords == old(self)@.keywords,
            final(self)@.embeddings == old(self)@.embeddings,
            final(self)@.live == old(self)@.live,
            final(self)@.summaries == if produced@.len() > 0 && old(self)@.wants_summary(block@) {
                old(self)@.summaries.insert(block@.hash, produced@[0]@)
            } else {
                old(self)@.summaries
            },
    {
        if produced.len() > 0 && block.stat.words >= SUMMARY_THRESHOLD && !summaries_has(
            &self.summary_registry,
            &block.metadata.hash,
        ) {
            summaries_insert(&mut self.summary_registry, block.metadata.hash, produced[0].clone());
        }
    }

    /// Picks the blocks of `content` for which no embedding is stored: their digests and
    /// their texts, in the order of `content`. The texts go to the embedding provider as one
    /// batch; `accept_embeddings` takes what it returns.
    pub fn embed_text(&self, content: &[Block]) -> (batch: EmbeddingBatch)
        ensures
            digests(batch.keys@) == hashes(pending(views(content@), self@.embeddings)),
            texts(batch.texts@) == bodies(pending(views(content@), self@.embeddings)),
            (forall|i: int|
                0 <= i < content@.len() ==> !self@.wants_embedding((#[trigger] content@[i])@))
                ==> batch.keys@.len() == 0 && batch.texts@.len() == 0,
    {
        let mut keys: Vec<[u8; 32]> = Vec::new();
        let mut words: Vec<String> = Vec::new();
        let ghost cached = self@.embeddings;
        let ghost all = views(content@);
        let mut i: usize = 0;
        proof {
            assert(all.subrange(0, 0) =~= Seq::<BlockView>::empty());
            assert(digests(keys@) =~= hashes(pending(all.subrange(0, 0), cached)));
            assert(texts(words@) =~= bodies(pending(all.subrange(0, 0), cached)));
        }
        while i < content.len()
            invariant
                i <= content@.len(),
                cached == self@.embeddings,
                all == views(content@),
                digests(keys@) == hashes(pending(all.subrange(0, i as int), cached)),
                texts(words@) == bodies(pending(all.subrange(0, i as int), cached)),
            decreases content@.len() - i,
        {
            let block = &content[i];
            proof {
                let next = all.subrange(0, i + 1);
                assert(next.drop_last() =~= all.subrange(0, i as int));
                assert(next.last() == block@);
            }
            if !embeddings_has(&self.embedding_registry, &block.metadata.hash) {
                let key = block.metadata.hash;
                let text = block.text.clone();
                proof {
                    let before = pending(all.subrange(0, i as int), cached);
                    assert(digests(keys@.push(key)) =~= digests(keys@).push(key@));
                    assert(hashes(before.push(block@)) =~= hashes(before).push(block@.hash));
                    assert(texts(words@.push(text)) =~= texts(words@).push(text@));
                    assert(bodies(before.push(block@)) =~= bodies(before).push(block@.text));
                }
                keys.push(key);
                words.push(text);
            }
            i = i + 1;
        }
        proof {
            assert(all.subrange(0, i as int) =~= all);
            if forall|i: int|
                0 <= i < content@.len() ==> !self@.wants_embedding((#[trigger] content@[i])@) {
                assert forall|i: int| 0 <= i < all.len() implies cached.contains_key(
                    (#[trigger] all[i]).hash,
                ) by {
                    assert(all[i] == content@[i]@);
                }
                lemma_pending_none(all, cached);
            }
        }
        EmbeddingBatch { keys, texts: words }
    }

    /// Stores the vectors that the provider returned for a batch under the digests of that
    /// batch, one for one and first to last. Stores nothing if there are more or fewer
    /// vectors than digests.
    pub fn accept_embeddings(&mut self, keys: &Vec<[u8; 32]>, embeddings: &Vec<Vec<u32>>) -> (r:
        Result<(), RegistryError>)
        ensures
            final(self)@.keywords == old(self)@.keywords,
            final(self)@.summaries == old(self)@.summaries,
            final(self)@.live == old(self)@.live,
            match r {
                Ok(()) => keys@.len() == embeddings@.len() && final(self)@.embeddings == filed(
                    old(self)@.embeddings,
                    digests(keys@),
                    vectors(embeddings@),
                ),
                Err(e) => keys@.len() != embeddings@.len() && e
                    == RegistryError::EmbeddingCountMismatch && final(self)@.embeddings == old(self)@.embeddings,
            },
    {
        if keys.len() != embeddings.len() {
            return Err(RegistryError::EmbeddingCountMismatch);
        }
        let mut i: usize = 0;
        proof {
            assert(digests(keys@).subrange(0, 0) =~= Seq::<Seq<u8>>::empty());
        }
        while i < keys.len()
            invariant
                i <= keys@.len(),
                keys@.len() == embeddings@.len(),
                self@.keywords == old(self)@.keywords,
                self@.summaries == old(self)@.summaries,
                self@.live == old(self)@.live,
                self@.embeddings == filed(
                    old(self)@.embeddings,
                    digests(keys@).subrange(0, i as int),
                    vectors(embeddings@).subrange(0, i as int),
                ),
            decreases keys@.len() - i,
        {
            let vector = embeddings[i].clone();
            proof {
                assert(vector@ =~= embeddings@[i as int]@);
                let ks = digests(keys@).subrange(0, i + 1);
                let vs = vectors(embeddings@).subrange(0, i + 1);
                assert(ks.drop_last() =~= digests(keys@).subrange(0, i as int));
                assert(vs.drop_last() =~= vectors(embeddings@).subrange(0, i as int));
                assert(ks.last() == keys@[i as int]@);
                assert(vs.last() == embeddings@[i as int]@);
            }
            embeddings_insert(&mut self.embedding_registry, keys[i], vector);
            i = i + 1;
        }
        proof {
            assert(digests(keys@).subrange(0, i as int) =~= digests(keys@));
            assert(vectors(embeddings@).subrange(0, i as int) =~= vectors(embeddings@));
        }
        Ok(())
    }

    /// Removes every keyword list, summary and embedding whose digest is that of no live
    /// block. The live blocks stay as they are. This never fails.
    pub fn garbage_collect(&mut self) -> (r: Result<(), RegistryError>)
        ensures
            r is Ok,
            final(self)@ == old(self)@.collected(),
    {
        let ghost live = self@.live.dom();
        let ghost before = self@;

        let k_keys = keywords_keys(&self.keyword_registry);
        let mut i: usize = 0;
        proof {
            lemma_swept_none(before.keywords, digests(k_keys@), live);
        }
        while i < k_keys.len()
            invariant
                i <= k_keys@.len(),
                live == self@.live.dom(),
                self@.live == before.live,
                self@.summaries == before.summaries,
                self@.embeddings == before.embeddings,
                self@.keywords == swept(before.keywords, digests(k_keys@), i as int, live),
            decreases k_keys@.len() - i,
        {
            proof {
                lemma_swept_next(before.keywords, digests(k_keys@), i as int, live);
            }
            if !live_has(&self.reverse_index, &k_keys[i]) {
                keywords_remove(&mut self.keyword_registry, &k_keys[i]);
            }
            i = i + 1;
        }
        proof {
            assert forall|key: Seq<u8>| #[trigger]
                before.keywords.contains_key(key) implies exists|j: int|
                0 <= j < digests(k_keys@).len() && #[trigger] digests(k_keys@)[j] == key by {
                let j = choose|j: int| 0 <= j < k_keys@.len() && #[trigger] k_keys@[j]@ == key;
                assert(digests(k_keys@)[j] == key);
            }
            lemma_swept_all(before.keywords, digests(k_keys@), live);
        }

        let e_keys = embeddings_keys(&self.embedding_registry);
        let mut i: usize = 0;
        proof {
            lemma_swept_none(before.embeddings, digests(e_keys@), live);
        }
        while i < e_keys.len()
            invariant
                i <= e_keys@.len(),
                live == self@.live.dom(),
                self@.live == before.live,
                self@.summaries == before.summaries,
                self@.keywords == before.keywords.restrict(live),
                self@.embeddings == swept(before.embeddings, digests(e_keys@), i as int, live),
            decreases e_keys@.len() - i,
        {
            proof {
                lemma_swept_next(before.embeddings, digests(e_keys@), i as int, live);
            }
            if !live_has(&self.reverse_index, &e_keys[i]) {
                embeddings_remove(&mut self.embedding_registry, &e_keys[i]);
            }
            i = i + 1;
        }
        proof {
            assert forall|key: Seq<u8>| #[trigger]
                before.embeddings.contains_key(key) implies exists|j: int|
                0 <= j < digests(e_keys@).len() && #[trigger] digests(e_keys@)[j] == key by {
                let j = choose|j: int| 0 <= j < e_keys@.len() && #[trigger] e_keys@[j]@ == key;
                assert(digests(e_keys@)[j] == key);
            }
            lemma_swept_all(before.embeddings, digests(e_keys@), live);
        }

        let s_keys = summaries_keys(&self.summary_registry);
        let mut i: usize = 0;
        proof {
            lemma_swept_none(before.summaries, digests(s_keys@), live);
        }
        while i < s_keys.len()
            invariant
                i <= s_keys@.len(),
                live == self@.live.dom(),
                self@.live == before.live,
                self@.keywords == before.keywords.restrict(live),
                self@.embeddings == before.embeddings.restrict(live),
                self@.summaries == swept(before.summaries, digests(s_keys@), i as int, live),
            decreases s_keys@.len() - i,
        {
            proof {
                lemma_swept_next(before.summaries, digests(s_keys@), i as int, live);
            }
            if !live_has(&self.reverse_index, &s_keys[i]) {
                summaries_remove(&mut self.summary_registry, &s_keys[i]);
            }
            i = i + 1;
        }
        proof {
            assert forall|key: Seq<u8>| #[trigger]
                before.summaries.contains_key(key) implies exists|j: int|
                0 <= j < digests(s_keys@).len() && #[trigger] digests(s_keys@)[j] == key by {
                let j = choose|j: int| 0 <= j < s_keys@.len() && #[trigger] s_keys@[j]@ == key;
                assert(digests(s_keys@)[j] == key);
            }
            lemma_swept_all(before.summaries, digests(s_keys@), live);
        }
        Ok(())
    }

    /// The keywords stored for `content`, unless none are stored or the stored list is
    /// empty.
    pub fn get_keywords(&self, content: &Block) -> (found: Option<Vec<String>>)
        ensures
            match found {
                Some(terms) => self@.keywords_of(content@) == Some(texts(terms@)),
                None => self@.keywords_of(content@) is None,
            },
    {
        match keywords_get(&self.keyword_registry, &content.metadata.hash) {
            None => None,
            Some(terms) => {
                proof {
                    assert(terms.deep_view() =~= texts(terms@));
                }
                if terms.len() == 0 {
                    None
                } else {
                    Some(terms)
                }
            },
        }
    }

    /// The summary stored for `content`, unless none is stored or the stored text is empty.
    pub fn get_summary(&self, content: &Block) -> (found: Option<String>)
        ensures
            match found {
                Some(summary) => self@.summary_of(content@) == Some(summary@),
                None => self@.summary_of(content@) is None,
            },
    {
        match summaries_get(&self.summary_registry, &content.metadata.hash) {
            None => None,
            Some(summary) => {
                if summary.as_str().is_empty() {
                    None
                } else {
                    Some(summary)
                }
            },
        }
    }
}

impl Default for Registry {
    fn default() -> (registry: Registry)
        ensures
            registry@.keywords == Map::<Seq<u8>, Seq<Seq<char>>>::empty(),
            registry@.summaries == Map::<Seq<u8>, Seq<char>>::empty(),
            registry@.embeddings == Map::<Seq<u8>, Seq<u32>>::empty(),
            registry@.live == Map::<Seq<u8>, BlockView>::empty(),
    {
        Registry::new()
    }
}

} // verus!
