//! The search engine: scans content line by line for a term.

use crate::config::Config;
use crate::text::contains_str;
use crate::text::contains_substr;
use crate::text::split_lines;
use crate::text::split_lines_str;
use crate::text::trim_spec;
use crate::text::trim_str;
use vstd::prelude::*;

verus! {

/// The lowercasing of `s`, as `str::to_lowercase` computes it: a pure
/// function of the characters, left unspecified here.
pub uninterp spec fn lower_of(s: Seq<char>) -> Seq<char>;

/// Relies on `str::to_lowercase`: the result is the Unicode lowercasing of
/// the input, a function of its characters alone.
#[verifier::external_body]
fn to_lowercase_str(s: &str) -> (r: String)
    ensures
        r@ == lower_of(s@),
{
    s.to_lowercase()
}

/// The line matches the term: plain substring containment when case
/// matters, containment of the lowercased term in the lowercased line
/// when it does not.
pub open spec fn line_matches(line: Seq<char>, word: Seq<char>, ignore_case: bool) -> bool {
    if ignore_case {
        contains_substr(lower_of(line), lower_of(word))
    } else {
        contains_substr(line, word)
    }
}

/// The matching lines among `lines`, in order, each trimmed of surrounding
/// whitespace.
pub open spec fn search_lines(lines: Seq<Seq<char>>, word: Seq<char>, ignore_case: bool) -> Seq<
    Seq<char>,
>
    decreases lines.len(),
{
    if lines.len() == 0 {
        Seq::empty()
    } else {
        let rest = search_lines(lines.drop_first(), word, ignore_case);
        if line_matches(lines[0], word, ignore_case) {
            seq![trim_spec(lines[0])] + rest
        } else {
            rest
        }
    }
}

/// What a search returns: the matching lines of `contents`, in file order,
/// trimmed.
pub open spec fn search_spec(word: Seq<char>, contents: Seq<char>, ignore_case: bool) -> Seq<
    Seq<char>,
> {
    search_lines(split_lines(contents), word, ignore_case)
}

/// Case-sensitive search: every line of `contents` containing `word`,
/// in order, trimmed.
pub fn search_sensitive<'a>(word: &str, contents: &'a str) -> (r: Vec<&'a str>)
    ensures
        r.deep_view() == search_spec(word@, contents@, false),
{
    let lines = split_lines_str(contents);
    let ghost lseq = lines.deep_view();
    let mut result: Vec<&'a str> = Vec::new();
    let mut i: usize = 0;
    proof {
        assert(lseq.subrange(0, lseq.len() as int) =~= lseq);
        assert(result.deep_view() =~= Seq::<Seq<char>>::empty());
        assert(Seq::<Seq<char>>::empty() + search_lines(lseq, word@, false) =~= search_lines(
            lseq,
            word@,
            false,
        ));
    }
    while i < lines.len()
        invariant
            i <= lines.len(),
            lseq == lines.deep_view(),
            lseq.len() == lines.len(),
            lseq == split_lines(contents@),
            result.deep_view() + search_lines(lseq.subrange(i as int, lseq.len() as int), word@, false)
                == search_spec(word@, contents@, false),
        decreases lines.len() - i,
    {
        let ghost prev = result.deep_view();
        let ghost sub = lseq.subrange(i as int, lseq.len() as int);
        proof {
            assert(sub[0] == lseq[i as int]);
            assert(sub.drop_first() =~= lseq.subrange(i + 1, lseq.len() as int));
        }
        let line = lines[i];
        if contains_str(line, word) {
            let trimmed = trim_str(line);
            result.push(trimmed);
            proof {
                assert(result.deep_view() =~= prev.push(trim_spec(lseq[i as int])));
                assert(prev + (seq![trim_spec(sub[0])] + search_lines(
                    sub.drop_first(),
                    word@,
                    false,
                )) =~= prev.push(trim_spec(sub[0])) + search_lines(sub.drop_first(), word@, false));
            }
        }
        i = i + 1;
    }
    proof {
        assert(lseq.subrange(lseq.len() as int, lseq.len() as int) =~= Seq::<Seq<char>>::empty());
        assert(result.deep_view() + Seq::<Seq<char>>::empty() =~= result.deep_view());
    }
    result
}

/// Case-insensitive search: every line of `contents` whose lowercasing
/// contains the lowercased `word`, in order, trimmed.
pub fn search_insensitive<'a>(word: &str, contents: &'a str) -> (r: Vec<&'a str>)
    ensures
        r.deep_view() == search_spec(word@, contents@, true),
{
    let lword = to_lowercase_str(word);
    let lines = split_lines_str(contents);
    let ghost lseq = lines.deep_view();
    let mut result: Vec<&'a str> = Vec::new();
    let mut i: usize = 0;
    proof {
        assert(lseq.subrange(0, lseq.len() as int) =~= lseq);
        assert(result.deep_view() =~= Seq::<Seq<char>>::empty());
        assert(Seq::<Seq<char>>::empty() + search_lines(lseq, word@, true) =~= search_lines(
            lseq,
            word@,
            true,
        ));
    }
    while i < lines.len()
        invariant
            i <= lines.len(),
            lseq == lines.deep_view(),
            lseq.len() == lines.len(),
            lseq == split_lines(contents@),
            lword@ == lower_of(word@),
            result.deep_view() + search_lines(lseq.subrange(i as int, lseq.len() as int), word@, true)
                == search_spec(word@, contents@, true),
        decreases lines.len() - i,
    {
        let ghost prev = result.deep_view();
        let ghost sub = lseq.subrange(i as int, lseq.len() as int);
        proof {
            assert(sub[0] == lseq[i as int]);
            assert(sub.drop_first() =~= lseq.subrange(i + 1, lseq.len() as int));
        }
        let line = lines[i];
        let lline = to_lowercase_str(line);
        if contains_str(lline.as_str(), lword.as_str()) {
            let trimmed = trim_str(line);
            result.push(trimmed);
            proof {
                assert(result.deep_view() =~= prev.push(trim_spec(lseq[i as int])));
                assert(prev + (seq![trim_spec(sub[0])] + search_lines(
                    sub.drop_first(),
                    word@,
                    true,
                )) =~= prev.push(trim_spec(sub[0])) + search_lines(sub.drop_first(), word@, true));
            }
        }
        i = i + 1;
    }
    proof {
        assert(lseq.subrange(lseq.len() as int, lseq.len() as int) =~= Seq::<Seq<char>>::empty());
        assert(result.deep_view() + Seq::<Seq<char>>::empty() =~= result.deep_view());
    }
    result
}

/// Among a fixed line list, whenever a case-sensitive match of a line
/// implies a case-insensitive one, every line in the sensitive result is
/// in the insensitive result.
proof fn lemma_search_lines_subset(lines: Seq<Seq<char>>, word: Seq<char>)
    requires
        forall|k: int|
            0 <= k < lines.len() && line_matches(#[trigger] lines[k], word, false)
                ==> line_matches(lines[k], word, true),
    ensures
        forall|x: Seq<char>|
            search_lines(lines, word, false).contains(x) ==> search_lines(
                lines,
                word,
                true,
            ).contains(x),
    decreases lines.len(),
{
    if lines.len() > 0 {
        let rest = lines.drop_first();
        assert(forall|k: int| 0 <= k < rest.len() ==> #[trigger] rest[k] == lines[k + 1]);
        lemma_search_lines_subset(rest, word);
        let rest_s = search_lines(rest, word, false);
        let rest_i = search_lines(rest, word, true);
        let t = trim_spec(lines[0]);
        assert(forall|x: Seq<char>| rest_i.contains(x) ==> (seq![t] + rest_i).contains(x)) by {
            assert forall|x: Seq<char>| rest_i.contains(x) implies (seq![t] + rest_i).contains(
                x,
            ) by {
                let idx = choose|idx: int| 0 <= idx < rest_i.len() && rest_i[idx] == x;
                assert((seq![t] + rest_i)[idx + 1] == x);
            }
        }
        assert forall|x: Seq<char>|
            search_lines(lines, word, false).contains(x) implies search_lines(
            lines,
            word,
            true,
        ).contains(x) by {
            if line_matches(lines[0], word, false) {
                let idx = choose|idx: int|
                    0 <= idx < (seq![t] + rest_s).len() && (seq![t] + rest_s)[idx] == x;
                if idx == 0 {
                    assert((seq![t] + rest_i)[0] == x);
                } else {
                    assert(rest_s[idx - 1] == x);
                    assert(rest_s.contains(x));
                }
            }
        }
    }
}

/// Case-insensitive search is a superset of case-sensitive search: under
/// the premise that lowercasing preserves each line's containment of the
/// term, every line that the sensitive search returns, the insensitive
/// search returns too. (The premise holds wherever the lowercasing acts
/// character by character on the characters involved.)
pub proof fn lemma_sensitive_subset_of_insensitive(word: Seq<char>, contents: Seq<char>)
    requires
        forall|k: int|
            0 <= k < split_lines(contents).len() && contains_substr(
                #[trigger] split_lines(contents)[k],
                word,
            ) ==> contains_substr(lower_of(split_lines(contents)[k]), lower_of(word)),
    ensures
        forall|x: Seq<char>|
            search_spec(word, contents, false).contains(x) ==> search_spec(
                word,
                contents,
                true,
            ).contains(x),
{
    lemma_search_lines_subset(split_lines(contents), word);
}

/// Two runs over unchanged content with the same configuration return the
/// same ordered result: the outcome is a function of term, content and
/// case mode alone.
pub proof fn lemma_search_idempotent(
    r1: Seq<Seq<char>>,
    r2: Seq<Seq<char>>,
    word: Seq<char>,
    contents: Seq<char>,
    ignore_case: bool,
)
    requires
        r1 == search_spec(word, contents, ignore_case),
        r2 == search_spec(word, contents, ignore_case),
    ensures
        r1 == r2,
{
}

/// Runs the search that `config` selects over `contents`: the matching
/// lines in file order, trimmed, under the configured case mode.
pub fn search<'a>(config: &Config, contents: &'a str) -> (r: Vec<&'a str>)
    ensures
        r.deep_view() == search_spec(config.word@, contents@, config.ignore_case),
{
    if config.ignore_case {
        search_insensitive(config.word.as_str(), contents)
    } else {
        search_sensitive(config.word.as_str(), contents)
    }
}

} // verus!
