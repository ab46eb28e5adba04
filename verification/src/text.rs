use vstd::prelude::*;
use vstd::utf8::{encode_utf8, encode_utf8_decode_utf8};

verus! {

/// White space as Unicode defines it (the derived core property `White_Space`).
pub open spec fn is_white_space(c: char) -> bool {
    let u = c as u32;
    ||| 0x09 <= u <= 0x0D
    ||| u == 0x20
    ||| u == 0x85
    ||| u == 0xA0
    ||| u == 0x1680
    ||| 0x2000 <= u <= 0x200A
    ||| u == 0x2028
    ||| u == 0x2029
    ||| u == 0x202F
    ||| u == 0x205F
    ||| u == 0x3000
}

/// Tells whether `c` is white space.
pub fn white_space(c: char) -> (r: bool)
    ensures
        r == is_white_space(c),
{
    let u: u32 = c as u32;
    (0x09 <= u && u <= 0x0D) || u == 0x20 || u == 0x85 || u == 0xA0 || u == 0x1680 || (0x2000 <= u
        && u <= 0x200A) || u == 0x2028 || u == 0x2029 || u == 0x202F || u == 0x205F || u == 0x3000
}

/// `s` without its leading white space.
pub open spec fn trim_start(s: Seq<char>) -> Seq<char>
    decreases s.len(),
{
    if s.len() > 0 && is_white_space(s[0]) {
        trim_start(s.drop_first())
    } else {
        s
    }
}

/// `s` without its trailing white space.
pub open spec fn trim_end(s: Seq<char>) -> Seq<char>
    decreases s.len(),
{
    if s.len() > 0 && is_white_space(s.last()) {
        trim_end(s.drop_last())
    } else {
        s
    }
}

/// `s` without leading and trailing white space.
pub open spec fn trimmed(s: Seq<char>) -> Seq<char> {
    trim_end(trim_start(s))
}

/// Where leading white space ends: `trim_start` keeps what follows the first `a` characters.
pub proof fn lemma_trim_start(s: Seq<char>, a: int)
    requires
        0 <= a <= s.len(),
        forall|k: int| 0 <= k < a ==> is_white_space(#[trigger] s[k]),
        a < s.len() ==> !is_white_space(s[a]),
    ensures
        trim_start(s) == s.subrange(a, s.len() as int),
    decreases a,
{
    if a == 0 {
        assert(s.subrange(0, s.len() as int) =~= s);
    } else {
        let rest = s.drop_first();
        assert forall|k: int| 0 <= k < a - 1 implies is_white_space(#[trigger] rest[k]) by {
            assert(rest[k] == s[k + 1]);
        }
        lemma_trim_start(rest, a - 1);
        assert(rest.subrange(a - 1, rest.len() as int) =~= s.subrange(a, s.len() as int));
    }
}

/// Where trailing white space begins: `trim_end` keeps the first `b` characters.
pub proof fn lemma_trim_end(s: Seq<char>, b: int)
    requires
        0 <= b <= s.len(),
        forall|k: int| b <= k < s.len() ==> is_white_space(#[trigger] s[k]),
        b > 0 ==> !is_white_space(s[b - 1]),
    ensures
        trim_end(s) == s.subrange(0, b),
    decreases s.len() - b,
{
    if b == s.len() {
        assert(s.subrange(0, b) =~= s);
    } else {
        let rest = s.drop_last();
        lemma_trim_end(rest, b);
        assert(rest.subrange(0, b) =~= s.subrange(0, b));
    }
}

/// Removes leading and trailing white space, as `str::trim` does.
pub fn trim(s: &str) -> (r: &str)
    ensures
        r@ == trimmed(s@),
{
    let total = s.unicode_len();
    let mut first: usize = total;
    let mut after: usize = 0;
    let mut i: usize = 0;
    for c in it: s.chars()
        invariant
            it.seq() == s@,
            i == it.index(),
            total == s@.len(),
            first <= total,
            after <= i,
            first == total ==> after == 0,
            first < total ==> first < after && !is_white_space(s@[first as int]),
            forall|k: int| 0 <= k < i && k < first ==> is_white_space(#[trigger] s@[k]),
            forall|k: int| after <= k < i ==> is_white_space(#[trigger] s@[k]),
            after > 0 ==> !is_white_space(s@[after - 1]),
    {
        if !white_space(c) {
            if first == total {
                first = i;
            }
            after = i + 1;
        }
        i = i + 1;
    }
    proof {
        let whole = s@;
        if first == total {
            lemma_trim_start(whole, total as int);
            assert(whole.subrange(total as int, total as int) =~= Seq::<char>::empty());
            assert(whole.subrange(0, 0) =~= Seq::<char>::empty());
        } else {
            lemma_trim_start(whole, first as int);
            let tail = whole.subrange(first as int, total as int);
            assert forall|k: int| after - first <= k < tail.len() implies is_white_space(
                #[trigger] tail[k],
            ) by {
                assert(tail[k] == whole[k + first]);
            }
            assert(tail[after - first - 1] == whole[after - 1]);
            lemma_trim_end(tail, after - first);
            assert(tail.subrange(0, after - first) =~= whole.subrange(first as int, after as int));
        }
    }
    if first == total {
        s.substring_char(0, 0)
    } else {
        s.substring_char(first, after)
    }
}

/// Whether `c` belongs to a sentence: every character but the full stop does.
pub open spec fn in_sentence(c: char) -> bool {
    c != '.'
}

/// Whether `c` belongs to a word: it is neither a full stop nor white space.
pub open spec fn in_word(c: char) -> bool {
    c != '.' && !is_white_space(c)
}

/// Number of maximal runs in `s` of characters that `inside` accepts.
pub open spec fn runs(s: Seq<char>, inside: spec_fn(char) -> bool) -> nat
    decreases s.len(),
{
    if s.len() == 0 {
        0
    } else {
        let before = runs(s.drop_last(), inside);
        if inside(s.last()) && (s.len() == 1 || !inside(s[s.len() - 2])) {
            before + 1
        } else {
            before
        }
    }
}

/// Number of sentences in `s`: the non-empty pieces that splitting at each full stop leaves.
pub open spec fn sentence_count(s: Seq<char>) -> nat {
    runs(s, |c: char| in_sentence(c))
}

/// Number of words in `s`: the pieces that splitting each sentence at white space leaves.
pub open spec fn word_count(s: Seq<char>) -> nat {
    runs(s, |c: char| in_word(c))
}

/// Number of pieces of `s` that splitting at white space leaves, empty ones aside.
pub open spec fn token_count(s: Seq<char>) -> nat {
    runs(s, |c: char| !is_white_space(c))
}

/// Two ways of telling characters apart that agree on the characters of `s` find the same
/// number of runs in it.
pub proof fn lemma_runs_agree(
    s: Seq<char>,
    first: spec_fn(char) -> bool,
    second: spec_fn(char) -> bool,
)
    requires
        forall|i: int| 0 <= i < s.len() ==> first(#[trigger] s[i]) == second(s[i]),
    ensures
        runs(s, first) == runs(s, second),
    decreases s.len(),
{
    if s.len() > 0 {
        let front = s.drop_last();
        assert forall|i: int| 0 <= i < front.len() implies first(#[trigger] front[i]) == second(
            front[i],
        ) by {
            assert(front[i] == s[i]);
        }
        lemma_runs_agree(front, first, second);
        assert(first(s[s.len() - 1]) == second(s[s.len() - 1]));
        if s.len() > 1 {
            assert(first(s[s.len() - 2]) == second(s[s.len() - 2]));
        }
    }
}

/// A character that is not `inside` parts the runs: what stands before it and what stands
/// after it hold their runs apart from each other.
pub proof fn lemma_runs_across(
    before: Seq<char>,
    gap: char,
    after: Seq<char>,
    inside: spec_fn(char) -> bool,
)
    requires
        !inside(gap),
    ensures
        runs(before.push(gap) + after, inside) == runs(before, inside) + runs(after, inside),
    decreases after.len(),
{
    let whole = before.push(gap) + after;
    if after.len() == 0 {
        assert(whole =~= before.push(gap));
        assert(whole.drop_last() =~= before);
    } else {
        let shorter = before.push(gap) + after.drop_last();
        assert(whole.drop_last() =~= shorter);
        lemma_runs_across(before, gap, after.drop_last(), inside);
        assert(whole.last() == after.last());
        if after.len() == 1 {
            assert(whole[whole.len() - 2] == gap);
        } else {
            assert(whole[whole.len() - 2] == after[after.len() - 2]);
        }
    }
}

/// A full stop parts sentences: the counts of a text are the counts of what stands before
/// a full stop and of what stands after it, added.
pub proof fn lemma_counts_across_stop(before: Seq<char>, after: Seq<char>)
    ensures
        sentence_count(before.push('.') + after) == sentence_count(before) + sentence_count(after),
        word_count(before.push('.') + after) == word_count(before) + word_count(after),
{
    lemma_runs_across(before, '.', after, |c: char| in_sentence(c));
    lemma_runs_across(before, '.', after, |c: char| in_word(c));
}

/// A text without a full stop is one sentence, unless it is empty, and its words are the
/// pieces that splitting it at white space leaves.
pub proof fn lemma_counts_of_sentence(s: Seq<char>)
    requires
        forall|i: int| 0 <= i < s.len() ==> #[trigger] s[i] != '.',
    ensures
        sentence_count(s) == if s.len() > 0 {
            1nat
        } else {
            0nat
        },
        word_count(s) == token_count(s),
    decreases s.len(),
{
    lemma_runs_agree(s, |c: char| in_word(c), |c: char| !is_white_space(c));
    if s.len() > 0 {
        let front = s.drop_last();
        assert forall|i: int| 0 <= i < front.len() implies #[trigger] front[i] != '.' by {
            assert(front[i] == s[i]);
        }
        lemma_counts_of_sentence(front);
        assert(in_sentence(s[s.len() - 1]));
        if s.len() > 1 {
            assert(in_sentence(s[s.len() - 2]));
        }
    }
}

/// Counts the sentences and the words of `text` in one pass.
pub fn tally(text: &str) -> (counts: (usize, usize))
    ensures
        counts.0 == sentence_count(text@),
        counts.1 == word_count(text@),
{
    let total = text.unicode_len();
    let mut lines: usize = 0;
    let mut words: usize = 0;
    let mut sentence_open = false;
    let mut word_open = false;
    let mut i: usize = 0;
    for c in it: text.chars()
        invariant
            it.seq() == text@,
            i == it.index(),
            total == text@.len(),
            lines == sentence_count(text@.subrange(0, i as int)),
            words == word_count(text@.subrange(0, i as int)),
            lines <= i,
            words <= i,
            sentence_open == (i > 0 && in_sentence(text@[i - 1])),
            word_open == (i > 0 && in_word(text@[i - 1])),
    {
        proof {
            let next = text@.subrange(0, i + 1);
            assert(next.drop_last() =~= text@.subrange(0, i as int));
            assert(next.last() == c);
            if i > 0 {
                assert(next[next.len() - 2] == text@[i - 1]);
            }
        }
        let stop = c == '.';
        let word = !stop && !white_space(c);
        if !stop && !sentence_open {
            lines = lines + 1;
        }
        if word && !word_open {
            words = words + 1;
        }
        sentence_open = !stop;
        word_open = word;
        i = i + 1;
    }
    proof {
        assert(text@.subrange(0, i as int) =~= text@);
    }
    (lines, words)
}

/// Tells whether two string slices hold the same characters.
pub fn same_text(a: &str, b: &str) -> (same: bool)
    ensures
        same == (a@ == b@),
{
    let x = a.as_bytes();
    let y = b.as_bytes();
    proof {
        encode_utf8_decode_utf8(a@);
        encode_utf8_decode_utf8(b@);
    }
    if x.len() != y.len() {
        return false;
    }
    let mut i: usize = 0;
    while i < x.len()
        invariant
            i <= x@.len(),
            x@.len() == y@.len(),
            x@ == encode_utf8(a@),
            y@ == encode_utf8(b@),
            forall|k: int| 0 <= k < i ==> x@[k] == y@[k],
        decreases x@.len() - i,
    {
        if x[i] != y[i] {
            return false;
        }
        i = i + 1;
    }
    assert(x@ =~= y@);
    true
}

} // verus!
