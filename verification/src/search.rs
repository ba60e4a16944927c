//! The search engine core: matches parsed headers against case-folded
//! query tokens over a listed directory of documents.

use vstd::prelude::*;
use crate::header::{opt_header_view, parse_header, spec_parse_header, HeaderView, SongHeader};
use crate::text::{
    contains_str, folded_tokens, is_substring, join_path, lower_of, lowercase, search_tokens,
};

verus! {

/// One directory entry handed to the search: a file name and the file's
/// full text content.
pub struct Document {
    pub name: String,
    pub content: String,
}

/// The mathematical view of a document.
#[verifier::ext_equal]
pub ghost struct DocView {
    pub name: Seq<char>,
    pub content: Seq<char>,
}

impl View for Document {
    type V = DocView;

    open spec fn view(&self) -> DocView {
        DocView { name: self.name@, content: self.content@ }
    }
}

impl DeepView for Document {
    type V = DocView;

    open spec fn deep_view(&self) -> DocView {
        self@
    }
}

/// One search hit: the original (non-folded) header fields and a path under
/// which the document itself can be fetched.
pub struct SearchResult {
    pub path: String,
    pub title: String,
    pub artist: String,
    pub genre: Option<String>,
}

/// The mathematical view of a search hit.
#[verifier::ext_equal]
pub ghost struct ResultView {
    pub path: Seq<char>,
    pub title: Seq<char>,
    pub artist: Seq<char>,
    pub genre: Option<Seq<char>>,
}

impl View for SearchResult {
    type V = ResultView;

    open spec fn view(&self) -> ResultView {
        ResultView {
            path: self.path@,
            title: self.title@,
            artist: self.artist@,
            genre: match self.genre {
                Some(g) => Some(g@),
                None => None,
            },
        }
    }
}

impl DeepView for SearchResult {
    type V = ResultView;

    open spec fn deep_view(&self) -> ResultView {
        self@
    }
}

/// A header with every searchable field case-folded.
pub open spec fn fold_header(h: HeaderView) -> HeaderView {
    HeaderView {
        title: lower_of(h.title),
        artist: lower_of(h.artist),
        genre: match h.genre {
            Some(g) => Some(lower_of(g)),
            None => None,
        },
    }
}

/// One token matches a header when it occurs as a substring of the artist,
/// the title, or the genre, if one is present.
pub open spec fn token_matches(h: HeaderView, w: Seq<char>) -> bool {
    is_substring(w, h.artist) || is_substring(w, h.title) || (match h.genre {
        Some(g) => is_substring(w, g),
        None => false,
    })
}

/// A header matches a query when every token matches its case-folded form;
/// a query without tokens matches every header.
pub open spec fn header_matches(h: HeaderView, words: Seq<Seq<char>>) -> bool {
    forall|k: int| 0 <= k < words.len() ==> token_matches(fold_header(h), words[k])
}

/// The header of a matching document: `Some` exactly when the content
/// parses and every search word matches.
pub open spec fn spec_matching_header(
    content: Seq<char>,
    words: Seq<Seq<char>>,
) -> Option<HeaderView> {
    match spec_parse_header(content) {
        Some(h) => if header_matches(h, words) {
            Some(h)
        } else {
            None
        },
        None => None,
    }
}

/// Decides whether one token occurs in a header whose fields were already
/// case-folded by the caller.
pub fn matches_header(header: &SongHeader, word: &str) -> (r: bool)
    ensures
        r == token_matches(header@, word@),
{
    if contains_str(header.artist.as_str(), word) {
        return true;
    }
    if contains_str(header.title.as_str(), word) {
        return true;
    }
    match &header.genre {
        Some(g) => contains_str(g.as_str(), word),
        None => false,
    }
}

/// A copy of a header with the searchable fields case-folded; the original
/// is left as parsed, for the result that is reported.
pub fn normalize_header(h: &SongHeader) -> (r: SongHeader)
    ensures
        r@ == fold_header(h@),
{
    let r = SongHeader {
        title: lowercase(h.title.as_str()),
        artist: lowercase(h.artist.as_str()),
        genre: match &h.genre {
            Some(g) => Some(lowercase(g.as_str())),
            None => None,
        },
    };
    proof {
        assert(r@ =~= fold_header(h@));
    }
    r
}

/// Parses a document and keeps its header exactly when every search word
/// matches; the returned header carries the original casing.
pub fn get_matching_header(content: &str, search_words: &Vec<String>) -> (r: Option<SongHeader>)
    ensures
        opt_header_view(r) == spec_matching_header(content@, search_words.deep_view()),
{
    let parsed = parse_header(content);
    match parsed {
        None => None,
        Some(original) => {
            let ghost h = original@;
            let ghost words = search_words.deep_view();
            let folded = normalize_header(&original);
            let mut k: usize = 0;
            while k < search_words.len()
                invariant
                    words == search_words.deep_view(),
                    words.len() == search_words@.len(),
                    k <= search_words@.len(),
                    original@ == h,
                    folded@ == fold_header(h),
                    spec_parse_header(content@) == Some(h),
                    forall|t: int| 0 <= t < k ==> token_matches(fold_header(h), words[t]),
                decreases search_words@.len() - k,
            {
                if !matches_header(&folded, search_words[k].as_str()) {
                    proof {
                        assert(words[k as int] == search_words@[k as int]@);
                        assert(!header_matches(h, words));
                    }
                    return None;
                }
                proof {
                    assert(words[k as int] == search_words@[k as int]@);
                }
                k += 1;
            }
            proof {
                assert(header_matches(h, words));
            }
            Some(original)
        },
    }
}

/// The search hit built for a document with file name `name` and header `h`.
pub open spec fn result_of(name: Seq<char>, h: HeaderView) -> ResultView {
    ResultView { path: "song/"@ + name, title: h.title, artist: h.artist, genre: h.genre }
}

/// The hits of a query over a listed directory, in listing order: one hit
/// per document whose header parses and matches every token.
pub open spec fn spec_search(docs: Seq<DocView>, words: Seq<Seq<char>>) -> Seq<ResultView>
    decreases docs.len(),
{
    if docs.len() == 0 {
        Seq::empty()
    } else {
        let rest = spec_search(docs.skip(1), words);
        match spec_matching_header(docs[0].content, words) {
            Some(h) => seq![result_of(docs[0].name, h)] + rest,
            None => rest,
        }
    }
}

pub proof fn lemma_spec_search_concat(d1: Seq<DocView>, d2: Seq<DocView>, words: Seq<Seq<char>>)
    ensures
        spec_search(d1 + d2, words) == spec_search(d1, words) + spec_search(d2, words),
    decreases d1.len(),
{
    if d1.len() == 0 {
        assert(d1 + d2 =~= d2);
        assert(spec_search(d1, words) + spec_search(d2, words) =~= spec_search(d2, words));
    } else {
        assert((d1 + d2).skip(1) =~= d1.skip(1) + d2);
        lemma_spec_search_concat(d1.skip(1), d2, words);
        assert((d1 + d2)[0] == d1[0]);
        match spec_matching_header(d1[0].content, words) {
            Some(h) => {
                assert(seq![result_of(d1[0].name, h)] + (spec_search(d1.skip(1), words)
                    + spec_search(d2, words)) =~= (seq![result_of(d1[0].name, h)] + spec_search(
                    d1.skip(1),
                    words,
                )) + spec_search(d2, words));
            },
            None => {},
        }
    }
}

/// Runs a query against a listed directory of documents. The query is split
/// into whitespace-delimited tokens and case-folded; the hits follow the
/// listing order, each carrying the original header fields and a
/// `song/`-prefixed path.
pub fn search(q: &str, docs: &Vec<Document>) -> (r: Vec<SearchResult>)
    ensures
        r.deep_view() == spec_search(docs.deep_view(), folded_tokens(q@)),
{
    let words = search_tokens(q);
    let ghost w = folded_tokens(q@);
    let ghost dv = docs.deep_view();
    let mut r: Vec<SearchResult> = Vec::new();
    let mut i: usize = 0;
    proof {
        assert(dv.take(0) =~= Seq::<DocView>::empty());
        assert(r.deep_view() =~= spec_search(dv.take(0), w));
    }
    while i < docs.len()
        invariant
            words.deep_view() == w,
            w == folded_tokens(q@),
            dv == docs.deep_view(),
            dv.len() == docs@.len(),
            i <= docs@.len(),
            r.deep_view() == spec_search(dv.take(i as int), w),
        decreases docs@.len() - i,
    {
        let doc = &docs[i];
        let matched = get_matching_header(doc.content.as_str(), &words);
        proof {
            assert(dv[i as int] == docs@[i as int]@);
            assert(dv.take(i + 1) =~= dv.take(i as int) + seq![dv[i as int]]);
            lemma_spec_search_concat(dv.take(i as int), seq![dv[i as int]], w);
            assert(seq![dv[i as int]].skip(1) =~= Seq::<DocView>::empty());
        }
        match matched {
            Some(h) => {
                let ghost hv = h@;
                proof {
                    assert(doc.content@ == dv[i as int].content);
                    assert(Some(hv) == spec_matching_header(dv[i as int].content, w));
                    assert(spec_search(Seq::<DocView>::empty(), w) =~= Seq::<ResultView>::empty());
                    assert(seq![dv[i as int]][0] == dv[i as int]);
                    assert(spec_search(seq![dv[i as int]], w) == seq![
                        result_of(dv[i as int].name, hv),
                    ] + spec_search(seq![dv[i as int]].skip(1), w));
                    assert(spec_search(seq![dv[i as int]], w) =~= seq![
                        result_of(dv[i as int].name, hv),
                    ]);
                }
                let path = join_path("song", doc.name.as_str());
                let res = SearchResult {
                    path,
                    title: h.title,
                    artist: h.artist,
                    genre: h.genre,
                };
                let ghost resv = res@;
                let ghost r0 = r.deep_view();
                r.push(res);
                proof {
                    reveal_strlit("song/");
                    reveal_strlit("song");
                    reveal_strlit("/");
                    assert("song"@ + "/"@ =~= "song/"@);
                    assert(resv =~= result_of(dv[i as int].name, hv));
                    assert(r.deep_view() =~= r0 + seq![resv]);
                    assert(spec_search(dv.take(i + 1), w) =~= r0 + seq![resv]);
                }
            },
            None => {
                proof {
                    assert(doc.content@ == dv[i as int].content);
                    assert(spec_matching_header(dv[i as int].content, w) is None);
                    assert(spec_search(Seq::<DocView>::empty(), w) =~= Seq::<ResultView>::empty());
                    assert(spec_search(seq![dv[i as int]], w) =~= Seq::<ResultView>::empty());
                    assert(spec_search(dv.take(i as int), w) + Seq::<ResultView>::empty()
                        =~= spec_search(dv.take(i as int), w));
                }
            },
        }
        i += 1;
    }
    proof {
        assert(dv.take(docs@.len() as int) =~= dv);
    }
    r
}

} // verus!
