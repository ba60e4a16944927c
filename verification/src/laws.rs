//! Proved laws of the search: vacuous queries match everything parseable,
//! substring tokens match, matching is case-insensitive, and unparseable
//! documents are excluded.

use vstd::prelude::*;
use crate::header::{spec_parse_header, HeaderView};
use crate::search::{
    fold_header, header_matches, result_of, spec_matching_header, spec_search, token_matches,
    DocView, ResultView,
};
use crate::text::{folded_tokens, is_space, is_substring, lower_of, tokenize};

verus! {

proof fn lemma_tokenize_all_space(s: Seq<char>)
    requires
        forall|i: int| 0 <= i < s.len() ==> is_space(s[i]),
    ensures
        tokenize(s) == Seq::<Seq<char>>::empty(),
    decreases s.len(),
{
    if s.len() > 0 {
        assert(is_space(s[0]));
        assert forall|i: int| 0 <= i < s.skip(1).len() implies is_space(s.skip(1)[i]) by {
            assert(s.skip(1)[i] == s[i + 1]);
        }
        lemma_tokenize_all_space(s.skip(1));
    }
}

proof fn lemma_search_no_words(docs: Seq<DocView>, words: Seq<Seq<char>>)
    requires
        words.len() == 0,
    ensures
        spec_search(docs, words) == spec_search_all(docs),
    decreases docs.len(),
{
    if docs.len() > 0 {
        lemma_search_no_words(docs.skip(1), words);
        match spec_parse_header(docs[0].content) {
            Some(h) => {
                assert(header_matches(h, words));
            },
            None => {},
        }
    }
}

/// Every parseable document, one hit each, in listing order: what a search
/// with no tokens returns.
pub open spec fn spec_search_all(docs: Seq<DocView>) -> Seq<ResultView>
    decreases docs.len(),
{
    if docs.len() == 0 {
        Seq::empty()
    } else {
        let rest = spec_search_all(docs.skip(1));
        match spec_parse_header(docs[0].content) {
            Some(h) => seq![result_of(docs[0].name, h)] + rest,
            None => rest,
        }
    }
}

/// A query of whitespace alone (or empty) has no tokens and so matches every
/// header: the search returns exactly one hit per parseable document.
pub proof fn lemma_vacuous_query(q: Seq<char>, docs: Seq<DocView>)
    requires
        forall|i: int| 0 <= i < q.len() ==> is_space(q[i]),
    ensures
        spec_search(docs, folded_tokens(q)) == spec_search_all(docs),
{
    lemma_tokenize_all_space(q);
    assert(folded_tokens(q) =~= Seq::<Seq<char>>::empty());
    lemma_search_no_words(docs, folded_tokens(q));
}

/// A token drawn as a substring from a case-folded field of a header
/// matches that header as a whole single-token query.
pub proof fn lemma_substring_token_matches(h: HeaderView, w: Seq<char>)
    requires
        is_substring(w, lower_of(h.artist)) || is_substring(w, lower_of(h.title)) || (h.genre
            is Some && is_substring(w, lower_of(h.genre->Some_0))),
    ensures
        header_matches(h, seq![w]),
{
    assert(token_matches(fold_header(h), w));
    assert(seq![w][0] == w);
}

/// A matching document's hit is among the search results.
pub proof fn lemma_match_included(docs: Seq<DocView>, words: Seq<Seq<char>>, i: int)
    requires
        0 <= i < docs.len(),
        spec_matching_header(docs[i].content, words) is Some,
    ensures
        spec_search(docs, words).contains(
            result_of(docs[i].name, spec_matching_header(docs[i].content, words)->Some_0),
        ),
    decreases docs.len(),
{
    let res = result_of(docs[i].name, spec_matching_header(docs[i].content, words)->Some_0);
    if i == 0 {
        let out = spec_search(docs, words);
        assert(out[0] == res);
        assert(out.contains(res));
    } else {
        assert(docs.skip(1)[i - 1] == docs[i]);
        lemma_match_included(docs.skip(1), words, i - 1);
        let rest = spec_search(docs.skip(1), words);
        let k = choose|k: int| 0 <= k < rest.len() && rest[k] == res;
        match spec_matching_header(docs[0].content, words) {
            Some(h) => {
                let out = spec_search(docs, words);
                assert(out[k + 1] == res);
                assert(out.contains(res));
            },
            None => {},
        }
    }
}

/// A query whose sole token is any substring of a case-folded header field
/// of a parseable document matches that document: its hit is in the results.
pub proof fn lemma_substring_query_included(docs: Seq<DocView>, i: int, w: Seq<char>)
    requires
        0 <= i < docs.len(),
        spec_parse_header(docs[i].content) is Some,
        ({
            let h = spec_parse_header(docs[i].content)->Some_0;
            is_substring(w, lower_of(h.artist)) || is_substring(w, lower_of(h.title)) || (h.genre
                is Some && is_substring(w, lower_of(h.genre->Some_0)))
        }),
    ensures
        spec_search(docs, seq![w]).contains(
            result_of(docs[i].name, spec_parse_header(docs[i].content)->Some_0),
        ),
{
    let h = spec_parse_header(docs[i].content)->Some_0;
    lemma_substring_token_matches(h, w);
    assert(spec_matching_header(docs[i].content, seq![w]) == Some(h));
    lemma_match_included(docs, seq![w], i);
}

/// Matching is case-insensitive: recasing a header (anything with the same
/// case-folded fields) or a token (anything with the same case-folded form)
/// leaves the outcome unchanged.
pub proof fn lemma_case_insensitive(h1: HeaderView, h2: HeaderView, t1: Seq<char>, t2: Seq<char>)
    requires
        fold_header(h1) == fold_header(h2),
        lower_of(t1) == lower_of(t2),
    ensures
        token_matches(fold_header(h1), lower_of(t1)) == token_matches(
            fold_header(h2),
            lower_of(t2),
        ),
{
}

/// An unparseable document contributes nothing: for any query, the results
/// over a directory equal the results over the directory without it.
pub proof fn lemma_unparseable_excluded(docs: Seq<DocView>, i: int, words: Seq<Seq<char>>)
    requires
        0 <= i < docs.len(),
        spec_parse_header(docs[i].content) is None,
    ensures
        spec_search(docs, words) == spec_search(docs.remove(i), words),
    decreases docs.len(),
{
    if i == 0 {
        assert(docs.remove(0) =~= docs.skip(1));
    } else {
        assert(docs.skip(1)[i - 1] == docs[i]);
        lemma_unparseable_excluded(docs.skip(1), i - 1, words);
        assert(docs.remove(i)[0] == docs[0]);
        assert(docs.remove(i).skip(1) =~= docs.skip(1).remove(i - 1));
    }
}

} // verus!
