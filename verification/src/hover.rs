use crate::handler::registry::{texts, Registry};
use crate::handler::Block;
use vstd::prelude::*;

verus! {

/// The character that stands for the digit `d`.
pub open spec fn digit(d: nat) -> char {
    seq!['0', '1', '2', '3', '4', '5', '6', '7', '8', '9'][d as int]
}

/// `n` written in decimal digits, without leading zeros.
pub open spec fn decimal(n: nat) -> Seq<char>
    decreases n,
{
    if n < 10 {
        seq![digit(n)]
    } else {
        decimal(n / 10).push(digit(n % 10))
    }
}

/// The string that holds the digit `d`.
fn digit_text(d: usize) -> (text: &'static str)
    requires
        d < 10,
    ensures
        text@ == seq![digit(d as nat)],
{
    proof {
        reveal_strlit("0");
        reveal_strlit("1");
        reveal_strlit("2");
        reveal_strlit("3");
        reveal_strlit("4");
        reveal_strlit("5");
        reveal_strlit("6");
        reveal_strlit("7");
        reveal_strlit("8");
        reveal_strlit("9");
    }
    let text = if d == 0 {
        "0"
    } else if d == 1 {
        "1"
    } else if d == 2 {
        "2"
    } else if d == 3 {
        "3"
    } else if d == 4 {
        "4"
    } else if d == 5 {
        "5"
    } else if d == 6 {
        "6"
    } else if d == 7 {
        "7"
    } else if d == 8 {
        "8"
    } else {
        "9"
    };
    assert(text@ =~= seq![digit(d as nat)]);
    text
}

/// Writes `n` in decimal digits.
pub fn to_decimal(n: usize) -> (text: String)
    ensures
        text@ == decimal(n as nat),
    decreases n,
{
    if n < 10 {
        digit_text(n).to_owned()
    } else {
        let mut text = to_decimal(n / 10);
        let last = digit_text(n % 10);
        proof {
            assert(text@ + last@ =~= decimal((n / 10) as nat).push(digit((n % 10) as nat)));
        }
        text.append(last);
        text
    }
}

/// The terms, each between double quotes, with a comma and a blank between one and the next.
pub open spec fn quoted(terms: Seq<Seq<char>>) -> Seq<char>
    decreases terms.len(),
{
    if terms.len() == 0 {
        seq![]
    } else if terms.len() == 1 {
        "\""@ + terms[0] + "\""@
    } else {
        quoted(terms.drop_last()) + ", "@ + "\""@ + terms.last() + "\""@
    }
}

/// The line of a hover text that lists the keywords, if there are any.
pub open spec fn listing(keywords: Option<Seq<Seq<char>>>) -> Seq<char> {
    match keywords {
        Some(terms) => "\nkeywords = ["@ + quoted(terms) + "]"@,
        None => seq![],
    }
}

/// The line of a hover text that holds the summary, if there is one.
pub open spec fn telling(summary: Option<Seq<char>>) -> Seq<char> {
    match summary {
        Some(text) => "\nsummary = \""@ + text + "\""@,
        None => seq![],
    }
}

/// The part of a hover text that tells what was derived from the block: nothing where there
/// is neither a keyword list nor a summary.
pub open spec fn analytics(keywords: Option<Seq<Seq<char>>>, summary: Option<Seq<char>>) -> Seq<
    char,
> {
    if keywords is None && summary is None {
        seq![]
    } else {
        "\n[analytics]"@ + listing(keywords) + telling(summary)
    }
}

/// The keyword list as plain values.
pub open spec fn terms_of(keywords: Option<Vec<String>>) -> Option<Seq<Seq<char>>> {
    match keywords {
        Some(terms) => Some(texts(terms@)),
        None => None,
    }
}

/// The summary as plain values.
pub open spec fn summary_view(summary: Option<String>) -> Option<Seq<char>> {
    match summary {
        Some(text) => Some(text@),
        None => None,
    }
}

/// The part of a hover text that tells the counts of the block, `average` being the words
/// per sentence as the caller wrote that number out.
pub open spec fn statistics(lines: nat, words: nat, average: Seq<char>) -> Seq<char> {
    "[statistics]\nlines = "@ + decimal(lines) + "\nwords = "@ + decimal(words)
        + "\naverage.line_size = "@ + average
}

/// Writes the terms out, each between double quotes, separated by a comma and a blank.
pub fn quote(terms: &Vec<String>) -> (text: String)
    ensures
        text@ == quoted(texts(terms@)),
{
    let mut text = String::new();
    let mut i: usize = 0;
    proof {
        assert(texts(terms@).subrange(0, 0) =~= Seq::<Seq<char>>::empty());
    }
    while i < terms.len()
        invariant
            i <= terms@.len(),
            text@ == quoted(texts(terms@).subrange(0, i as int)),
        decreases terms@.len() - i,
    {
        proof {
            let next = texts(terms@).subrange(0, i + 1);
            assert(next.drop_last() =~= texts(terms@).subrange(0, i as int));
            assert(next.last() == terms@[i as int]@);
            if i == 0 {
                assert(next[0] == terms@[0]@);
                assert(Seq::<char>::empty() + "\""@ + terms@[0]@ + "\""@ =~= "\""@ + terms@[0]@
                    + "\""@);
            }
        }
        if i > 0 {
            text.append(", ");
        }
        text.append("\"");
        text.append(terms[i].as_str());
        text.append("\"");
        i = i + 1;
    }
    proof {
        assert(texts(terms@).subrange(0, i as int) =~= texts(terms@));
    }
    text
}

/// The text shown for `block`: its counts and, below them, the keywords and the summary as
/// far as there are any.
pub fn describe(
    block: &Block,
    average: &str,
    keywords: Option<Vec<String>>,
    summary: Option<String>,
) -> (text: String)
    ensures
        text@ == statistics(block@.lines, block@.words, average@) + analytics(
            terms_of(keywords),
            summary_view(summary),
        ),
{
    let mut text = "[statistics]\nlines = ".to_owned();
    text.append(to_decimal(block.stat.lines).as_str());
    text.append("\nwords = ");
    text.append(to_decimal(block.stat.words).as_str());
    text.append("\naverage.line_size = ");
    text.append(average);
    let ghost head = text@;
    if keywords.is_none() && summary.is_none() {
        proof {
            assert(head + Seq::<char>::empty() =~= head);
        }
        return text;
    }
    text.append("\n[analytics]");
    if let Some(terms) = &keywords {
        text.append("\nkeywords = [");
        text.append(quote(terms).as_str());
        text.append("]");
    }
    assert(text@ =~= head + "\n[analytics]"@ + listing(terms_of(keywords)));
    if let Some(told) = &summary {
        text.append("\nsummary = \"");
        text.append(told.as_str());
        text.append("\"");
    }
    assert(text@ =~= head + ("\n[analytics]"@ + listing(terms_of(keywords)) + telling(
        summary_view(summary),
    )));
    text
}

/// The text shown for `block`, with what `registry` holds for it; with no registry, the
/// counts alone.
pub fn hover(block: &Block, average: &str, registry: Option<&Registry>) -> (text: String)
    ensures
        text@ == statistics(block@.lines, block@.words, average@) + match registry {
            Some(registry) => analytics(
                registry@.keywords_of(block@),
                registry@.summary_of(block@),
            ),
            None => analytics(None, None),
        },
{
    match registry {
        Some(registry) => describe(
            block,
            average,
            registry.get_keywords(block),
            registry.get_summary(block),
        ),
        None => describe(block, average, None, None),
    }
}

} // verus!
