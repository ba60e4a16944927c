//! The song header: its structure, the line-tagged text format, and a
//! verified parser.

use vstd::prelude::*;
use crate::text::{find_char, lemma_find_char_at, lemma_find_char_bounds, str_eq};

verus! {

/// The metadata block at the top of a song document. The genre is optional;
/// an absent genre is distinct from an empty one.
pub struct SongHeader {
    pub title: String,
    pub artist: String,
    pub genre: Option<String>,
}

/// The mathematical view of a header: its fields as character sequences.
#[verifier::ext_equal]
pub ghost struct HeaderView {
    pub title: Seq<char>,
    pub artist: Seq<char>,
    pub genre: Option<Seq<char>>,
}

impl View for SongHeader {
    type V = HeaderView;

    open spec fn view(&self) -> HeaderView {
        HeaderView {
            title: self.title@,
            artist: self.artist@,
            genre: match self.genre {
                Some(g) => Some(g@),
                None => None,
            },
        }
    }
}

/// Fields collected so far while reading header lines.
#[verifier::ext_equal]
pub ghost struct PartialHeader {
    pub title: Option<Seq<char>>,
    pub artist: Option<Seq<char>>,
    pub genre: Option<Seq<char>>,
}

pub open spec fn empty_partial() -> PartialHeader {
    PartialHeader { title: None, artist: None, genre: None }
}

/// The fields collected in three optional exec values, as a [`PartialHeader`].
pub open spec fn partial_of(t: Option<String>, a: Option<String>, g: Option<String>) -> PartialHeader {
    PartialHeader {
        title: match t {
            Some(x) => Some(x@),
            None => None,
        },
        artist: match a {
            Some(x) => Some(x@),
            None => None,
        },
        genre: match g {
            Some(x) => Some(x@),
            None => None,
        },
    }
}

/// A line with a trailing carriage return removed, so that documents with
/// CRLF line endings parse the same as LF ones.
pub open spec fn strip_cr(l: Seq<char>) -> Seq<char> {
    if l.len() > 0 && l[l.len() - 1] == '\r' {
        l.take(l.len() - 1)
    } else {
        l
    }
}

/// Records one `#TAG:VALUE` line: a recognized tag stores its value, a later
/// occurrence overriding an earlier one; an unknown tag is ignored.
pub open spec fn apply_tag(acc: PartialHeader, tag: Seq<char>, value: Seq<char>) -> PartialHeader {
    if tag == "TITLE"@ {
        PartialHeader { title: Some(value), artist: acc.artist, genre: acc.genre }
    } else if tag == "ARTIST"@ {
        PartialHeader { title: acc.title, artist: Some(value), genre: acc.genre }
    } else if tag == "GENRE"@ {
        PartialHeader { title: acc.title, artist: acc.artist, genre: Some(value) }
    } else {
        acc
    }
}

/// Reads header lines from the front of `s` into `acc`. A line that is
/// empty or does not begin with `#` ends the header; a header line without
/// a `:` separator makes the document unparseable.
pub open spec fn parse_lines(s: Seq<char>, acc: PartialHeader) -> Option<PartialHeader>
    decreases s.len(),
    via parse_lines_decreases
{
    if s.len() == 0 {
        Some(acc)
    } else {
        let e = find_char(s, '\n');
        let line = strip_cr(s.take(e));
        if line.len() == 0 || line[0] != '#' {
            Some(acc)
        } else {
            let c = find_char(line, ':');
            if c == line.len() {
                None
            } else {
                let acc2 = apply_tag(
                    acc,
                    line.subrange(1, c),
                    line.subrange(c + 1, line.len() as int),
                );
                if e == s.len() {
                    Some(acc2)
                } else {
                    parse_lines(s.skip(e + 1), acc2)
                }
            }
        }
    }
}

#[via_fn]
proof fn parse_lines_decreases(s: Seq<char>, acc: PartialHeader) {
    if s.len() > 0 {
        lemma_find_char_bounds(s, '\n');
    }
}

/// The header of a document, if it has one: the collected tag values, with
/// both a title and an artist required.
pub open spec fn spec_parse_header(s: Seq<char>) -> Option<HeaderView> {
    match parse_lines(s, empty_partial()) {
        Some(p) => if p.title is Some && p.artist is Some {
            Some(
                HeaderView {
                    title: p.title->Some_0,
                    artist: p.artist->Some_0,
                    genre: p.genre,
                },
            )
        } else {
            None
        },
        None => None,
    }
}

/// The view of an optional header.
pub open spec fn opt_header_view(r: Option<SongHeader>) -> Option<HeaderView> {
    match r {
        Some(h) => Some(h@),
        None => None,
    }
}

/// Parses the tagged header from the full text of one song document.
/// Returns `None` exactly when the document is unparseable: a header line
/// lacks its `:` separator, or the title or the artist is missing.
pub fn parse_header(content: &str) -> (r: Option<SongHeader>)
    ensures
        opt_header_view(r) == spec_parse_header(content@),
{
    let tlen = content.unicode_len();
    let mut title: Option<String> = None;
    let mut artist: Option<String> = None;
    let mut genre: Option<String> = None;
    let mut i: usize = 0;
    proof {
        assert(content@.skip(0) =~= content@);
        assert(partial_of(title, artist, genre) =~= empty_partial());
    }
    loop
        invariant
            tlen == content@.len(),
            i <= tlen,
            parse_lines(content@, empty_partial()) == parse_lines(
                content@.skip(i as int),
                partial_of(title, artist, genre),
            ),
        ensures
            parse_lines(content@, empty_partial()) == Some(partial_of(title, artist, genre)),
        decreases tlen - i,
    {
        if i == tlen {
            proof {
                assert(content@.skip(tlen as int) =~= Seq::<char>::empty());
            }
            break;
        }
        let mut j: usize = i;
        while j < tlen && content.get_char(j) != '\n'
            invariant
                tlen == content@.len(),
                i <= j <= tlen,
                forall|m: int| i <= m < j ==> content@[m] != '\n',
            decreases tlen - j,
        {
            j += 1;
        }
        proof {
            let sk = content@.skip(i as int);
            assert forall|m: int| 0 <= m < j - i implies sk[m] != '\n' by {
                assert(sk[m] == content@[m + i]);
            }
            if j - i < sk.len() {
                assert(sk[j - i] == content@[j as int]);
            }
            lemma_find_char_at(sk, '\n', j - i);
        }
        let k: usize = if j > i && content.get_char(j - 1) == '\r' {
            j - 1
        } else {
            j
        };
        proof {
            let sk = content@.skip(i as int);
            let e = j - i;
            assert(sk.take(e) =~= content@.subrange(i as int, j as int));
            if e > 0 {
                assert(sk.take(e)[e - 1] == content@[j - 1]);
            }
            assert(strip_cr(sk.take(e)) =~= content@.subrange(i as int, k as int));
        }
        if k == i || content.get_char(i) != '#' {
            proof {
                let line = content@.subrange(i as int, k as int);
                if k > i {
                    assert(line[0] == content@[i as int]);
                }
            }
            break;
        }
        let mut m: usize = i;
        while m < k && content.get_char(m) != ':'
            invariant
                tlen == content@.len(),
                k <= tlen,
                i <= m <= k,
                forall|t: int| i <= t < m ==> content@[t] != ':',
            decreases k - m,
        {
            m += 1;
        }
        proof {
            let line = content@.subrange(i as int, k as int);
            assert forall|t: int| 0 <= t < m - i implies line[t] != ':' by {
                assert(line[t] == content@[t + i]);
            }
            if m - i < line.len() {
                assert(line[m - i] == content@[m as int]);
            }
            lemma_find_char_at(line, ':', m - i);
        }
        if m == k {
            return None;
        }
        let tag = content.substring_char(i + 1, m);
        let value = content.substring_char(m + 1, k).to_owned();
        proof {
            let line = content@.subrange(i as int, k as int);
            let c = m - i;
            assert(line.subrange(1, c as int) =~= content@.subrange(i + 1, m as int));
            assert(line.subrange(c + 1, line.len() as int) =~= content@.subrange(
                m + 1,
                k as int,
            ));
        }
        let ghost acc0 = partial_of(title, artist, genre);
        if str_eq(tag, "TITLE") {
            title = Some(value);
        } else if str_eq(tag, "ARTIST") {
            artist = Some(value);
        } else if str_eq(tag, "GENRE") {
            genre = Some(value);
        }
        proof {
            assert(partial_of(title, artist, genre) =~= apply_tag(
                acc0,
                content@.subrange(i + 1, m as int),
                content@.subrange(m + 1, k as int),
            ));
        }
        if j < tlen {
            proof {
                assert(content@.skip(i as int).skip((j - i) + 1) =~= content@.skip(j + 1));
            }
            i = j + 1;
        } else {
            proof {
                assert(content@.skip(tlen as int) =~= Seq::<char>::empty());
            }
            i = tlen;
        }
    }
    match (title, artist) {
        (Some(t), Some(a)) => Some(SongHeader { title: t, artist: a, genre }),
        _ => None,
    }
}

} // verus!
