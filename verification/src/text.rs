//! Character-level text primitives: whitespace splitting, substring
//! containment, case folding, and string equality.

use vstd::prelude::*;

verus! {

/// A character with the Unicode `White_Space` property, the set that
/// `str::split_whitespace` splits on.
pub open spec fn is_space(c: char) -> bool {
    c == ' ' || c == '\t' || c == '\n' || c == '\r' || c == '\u{b}' || c == '\u{c}'
        || c == '\u{85}' || c == '\u{a0}' || c == '\u{1680}' || c == '\u{2000}' || c == '\u{2001}'
        || c == '\u{2002}' || c == '\u{2003}' || c == '\u{2004}' || c == '\u{2005}'
        || c == '\u{2006}' || c == '\u{2007}' || c == '\u{2008}' || c == '\u{2009}'
        || c == '\u{200a}' || c == '\u{2028}' || c == '\u{2029}' || c == '\u{202f}'
        || c == '\u{205f}' || c == '\u{3000}'
}

/// Executable test for [`is_space`].
pub fn is_space_char(c: char) -> (r: bool)
    ensures
        r == is_space(c),
{
    c == ' ' || c == '\t' || c == '\n' || c == '\r' || c == '\u{b}' || c == '\u{c}'
        || c == '\u{85}' || c == '\u{a0}' || c == '\u{1680}' || c == '\u{2000}' || c == '\u{2001}'
        || c == '\u{2002}' || c == '\u{2003}' || c == '\u{2004}' || c == '\u{2005}'
        || c == '\u{2006}' || c == '\u{2007}' || c == '\u{2008}' || c == '\u{2009}'
        || c == '\u{200a}' || c == '\u{2028}' || c == '\u{2029}' || c == '\u{202f}'
        || c == '\u{205f}' || c == '\u{3000}'
}

/// Length of the maximal whitespace-free prefix of `s`: the index of the
/// first whitespace character, or `s.len()` if there is none.
pub open spec fn word_end(s: Seq<char>) -> int
    decreases s.len(),
{
    if s.len() == 0 {
        0
    } else if is_space(s[0]) {
        0
    } else {
        1 + word_end(s.skip(1))
    }
}

pub proof fn lemma_word_end_bounds(s: Seq<char>)
    ensures
        0 <= word_end(s) <= s.len(),
        forall|m: int| 0 <= m < word_end(s) ==> !is_space(s[m]),
        word_end(s) < s.len() ==> is_space(s[word_end(s)]),
    decreases s.len(),
{
    if s.len() == 0 || is_space(s[0]) {
    } else {
        lemma_word_end_bounds(s.skip(1));
        assert forall|m: int| 0 <= m < word_end(s) implies !is_space(s[m]) by {
            if m > 0 {
                assert(s.skip(1)[m - 1] == s[m]);
            }
        }
        if word_end(s) < s.len() {
            assert(s.skip(1)[word_end(s) - 1] == s[word_end(s)]);
        }
    }
}

pub proof fn lemma_word_end_at(s: Seq<char>, k: int)
    requires
        0 <= k <= s.len(),
        forall|m: int| 0 <= m < k ==> !is_space(s[m]),
        k < s.len() ==> is_space(s[k]),
    ensures
        word_end(s) == k,
    decreases s.len(),
{
    if s.len() == 0 {
    } else if is_space(s[0]) {
        assert(k == 0);
    } else {
        assert(k > 0);
        assert forall|m: int| 0 <= m < k - 1 implies !is_space(s.skip(1)[m]) by {
            assert(s.skip(1)[m] == s[m + 1]);
        }
        if k - 1 < s.skip(1).len() {
            assert(s.skip(1)[k - 1] == s[k]);
        }
        lemma_word_end_at(s.skip(1), k - 1);
    }
}

/// Index of the first occurrence of `c` in `s`, or `s.len()` if `c` does
/// not occur.
pub open spec fn find_char(s: Seq<char>, c: char) -> int
    decreases s.len(),
{
    if s.len() == 0 {
        0
    } else if s[0] == c {
        0
    } else {
        1 + find_char(s.skip(1), c)
    }
}

pub proof fn lemma_find_char_bounds(s: Seq<char>, c: char)
    ensures
        0 <= find_char(s, c) <= s.len(),
        forall|m: int| 0 <= m < find_char(s, c) ==> s[m] != c,
        find_char(s, c) < s.len() ==> s[find_char(s, c)] == c,
    decreases s.len(),
{
    if s.len() == 0 || s[0] == c {
    } else {
        lemma_find_char_bounds(s.skip(1), c);
        assert forall|m: int| 0 <= m < find_char(s, c) implies s[m] != c by {
            if m > 0 {
                assert(s.skip(1)[m - 1] == s[m]);
            }
        }
        if find_char(s, c) < s.len() {
            assert(s.skip(1)[find_char(s, c) - 1] == s[find_char(s, c)]);
        }
    }
}

pub proof fn lemma_find_char_at(s: Seq<char>, c: char, k: int)
    requires
        0 <= k <= s.len(),
        forall|m: int| 0 <= m < k ==> s[m] != c,
        k < s.len() ==> s[k] == c,
    ensures
        find_char(s, c) == k,
    decreases s.len(),
{
    if s.len() == 0 {
    } else if s[0] == c {
        assert(k == 0);
    } else {
        assert(k > 0);
        assert forall|m: int| 0 <= m < k - 1 implies s.skip(1)[m] != c by {
            assert(s.skip(1)[m] == s[m + 1]);
        }
        if k - 1 < s.skip(1).len() {
            assert(s.skip(1)[k - 1] == s[k]);
        }
        lemma_find_char_at(s.skip(1), c, k - 1);
    }
}

/// The whitespace-delimited words of `s`, in order: the unique sequence of
/// maximal non-empty runs of non-whitespace characters.
pub open spec fn tokenize(s: Seq<char>) -> Seq<Seq<char>>
    decreases s.len(),
    via tokenize_decreases
{
    if s.len() == 0 {
        Seq::empty()
    } else if is_space(s[0]) {
        tokenize(s.skip(1))
    } else {
        seq![s.take(word_end(s))] + tokenize(s.skip(word_end(s)))
    }
}

#[via_fn]
proof fn tokenize_decreases(s: Seq<char>) {
    if s.len() > 0 && !is_space(s[0]) {
        lemma_word_end_bounds(s);
        lemma_word_end_bounds(s.skip(1));
    }
}

/// What `str::to_lowercase` returns on a string whose view is `s`.
pub uninterp spec fn lower_of(s: Seq<char>) -> Seq<char>;

/// Relies on `str::to_lowercase`: the result is a function of the input
/// characters alone (the Unicode lowercase mapping, locale-independent).
#[verifier::external_body]
pub(crate) fn lowercase(s: &str) -> (r: String)
    ensures
        r@ == lower_of(s@),
{
    s.to_lowercase()
}

/// The case-folded tokens of a query: its whitespace-delimited words, each
/// passed through the lowercase mapping.
pub open spec fn folded_tokens(q: Seq<char>) -> Seq<Seq<char>> {
    tokenize(q).map_values(|t: Seq<char>| lower_of(t))
}

/// `pat` occurs contiguously somewhere inside `text`.
pub open spec fn is_substring(pat: Seq<char>, text: Seq<char>) -> bool {
    exists|i: int|
        0 <= i && i + pat.len() <= text.len() && #[trigger] text.subrange(
            i,
            i + pat.len() as int,
        ) == pat
}

/// Character-for-character equality of two string slices.
pub fn str_eq(a: &str, b: &str) -> (r: bool)
    ensures
        r == (a@ == b@),
{
    let alen = a.unicode_len();
    let blen = b.unicode_len();
    if alen != blen {
        return false;
    }
    let mut i: usize = 0;
    while i < alen
        invariant
            alen == a@.len(),
            alen == b@.len(),
            i <= alen,
            forall|m: int| 0 <= m < i ==> a@[m] == b@[m],
        decreases alen - i,
    {
        if a.get_char(i) != b.get_char(i) {
            return false;
        }
        i += 1;
    }
    proof {
        assert(a@ =~= b@);
    }
    true
}

/// Substring search: decides [`is_substring`] for string slices.
pub fn contains_str(text: &str, pat: &str) -> (r: bool)
    ensures
        r == is_substring(pat@, text@),
{
    let tlen = text.unicode_len();
    let plen = pat.unicode_len();
    if plen == 0 {
        proof {
            assert(text@.subrange(0, 0 + pat@.len() as int) =~= pat@);
        }
        return true;
    }
    if plen > tlen {
        proof {
            assert(!is_substring(pat@, text@));
        }
        return false;
    }
    let mut i: usize = 0;
    while i <= tlen - plen
        invariant
            tlen == text@.len(),
            plen == pat@.len(),
            0 < plen <= tlen,
            i <= tlen - plen + 1,
            forall|m: int|
                0 <= m < i ==> #[trigger] text@.subrange(m, m + pat@.len() as int) != pat@,
        decreases tlen - i,
    {
        let mut j: usize = 0;
        let mut ok = true;
        while ok && j < plen
            invariant
                tlen == text@.len(),
                plen == pat@.len(),
                i + plen <= tlen,
                j <= plen,
                ok ==> forall|m: int| 0 <= m < j ==> text@[i + m] == pat@[m],
                !ok ==> j < plen && text@[i + j] != pat@[j as int],
            decreases plen - j + (if ok { 1int } else { 0int }),
        {
            if text.get_char(i + j) != pat.get_char(j) {
                ok = false;
            } else {
                j += 1;
            }
        }
        if ok {
            proof {
                assert(text@.subrange(i as int, i + pat@.len() as int) =~= pat@);
            }
            return true;
        }
        proof {
            assert(text@.subrange(i as int, i + pat@.len() as int)[j as int] == text@[i + j]);
            assert(text@.subrange(i as int, i + pat@.len() as int) != pat@);
        }
        i += 1;
    }
    proof {
        assert forall|m: int|
            0 <= m && m + pat@.len() <= text@.len() implies #[trigger] text@.subrange(
            m,
            m + pat@.len() as int,
        ) != pat@ by {
            assert(m < i);
        }
    }
    false
}

/// Splits a string into its whitespace-delimited words.
pub fn split_words(s: &str) -> (r: Vec<String>)
    ensures
        r.deep_view() == tokenize(s@),
{
    let slen = s.unicode_len();
    let mut r: Vec<String> = Vec::new();
    let mut i: usize = 0;
    proof {
        assert(s@.skip(0) =~= s@);
        assert(r.deep_view() =~= Seq::<Seq<char>>::empty());
    }
    while i < slen
        invariant
            slen == s@.len(),
            i <= slen,
            tokenize(s@) == r.deep_view() + tokenize(s@.skip(i as int)),
        decreases slen - i,
    {
        if is_space_char(s.get_char(i)) {
            proof {
                assert(s@.skip(i as int)[0] == s@[i as int]);
                assert(s@.skip(i as int).skip(1) =~= s@.skip(i + 1));
            }
            i += 1;
        } else {
            let mut j: usize = i + 1;
            while j < slen && !is_space_char(s.get_char(j))
                invariant
                    slen == s@.len(),
                    i < j <= slen,
                    forall|m: int| i <= m < j ==> !is_space(s@[m]),
                decreases slen - j,
            {
                j += 1;
            }
            proof {
                let sk = s@.skip(i as int);
                assert forall|m: int| 0 <= m < j - i implies !is_space(sk[m]) by {
                    assert(sk[m] == s@[m + i]);
                }
                if j - i < sk.len() {
                    assert(sk[j - i] == s@[j as int]);
                }
                lemma_word_end_at(sk, j - i);
                assert(sk.take(j - i) =~= s@.subrange(i as int, j as int));
                assert(sk.skip(j - i) =~= s@.skip(j as int));
            }
            let word = s.substring_char(i, j).to_owned();
            let ghost r0 = r.deep_view();
            r.push(word);
            proof {
                assert(r.deep_view() =~= r0.push(s@.subrange(i as int, j as int)));
                assert(r0.push(s@.subrange(i as int, j as int)) =~= r0 + seq![
                    s@.subrange(i as int, j as int),
                ]);
                assert((r0 + seq![s@.subrange(i as int, j as int)]) + tokenize(s@.skip(j as int))
                    =~= r0 + (seq![s@.subrange(i as int, j as int)] + tokenize(s@.skip(j as int))));
            }
            i = j;
        }
    }
    proof {
        assert(s@.skip(slen as int) =~= Seq::<char>::empty());
        assert(tokenize(s@) =~= r.deep_view());
    }
    r
}

/// Splits a query into whitespace-delimited tokens and case-folds each one.
pub fn search_tokens(q: &str) -> (r: Vec<String>)
    ensures
        r.deep_view() == folded_tokens(q@),
{
    let words = split_words(q);
    let mut r: Vec<String> = Vec::new();
    let mut k: usize = 0;
    proof {
        assert(r.deep_view() =~= folded_tokens(q@).take(0));
    }
    while k < words.len()
        invariant
            words.deep_view() == tokenize(q@),
            k <= words.len(),
            r.deep_view() == folded_tokens(q@).take(k as int),
        decreases words.len() - k,
    {
        let w = lowercase(words[k].as_str());
        let ghost r0 = r.deep_view();
        r.push(w);
        proof {
            assert(words@[k as int].deep_view() == words.deep_view()[k as int]);
            assert(r.deep_view() =~= r0.push(lower_of(tokenize(q@)[k as int])));
            assert(folded_tokens(q@)[k as int] == lower_of(tokenize(q@)[k as int]));
            assert(r.deep_view() =~= folded_tokens(q@).take(k + 1));
        }
        k += 1;
    }
    proof {
        assert(words.deep_view().len() == words@.len());
        assert(folded_tokens(q@).take(words@.len() as int) =~= folded_tokens(q@));
    }
    r
}

/// Joins a directory name and a file name with a `/` separator, the same
/// discipline used both for result paths and for the routes that serve
/// the files back.
pub fn join_path(dir: &str, name: &str) -> (r: String)
    ensures
        r@ == dir@ + "/"@ + name@,
{
    let mut r = dir.to_owned();
    r.append("/");
    r.append(name);
    r
}

} // verus!
