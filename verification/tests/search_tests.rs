use song_search::search::{get_matching_header, matches_header, normalize_header, search, Document};
use song_search::text::{contains_str, join_path, search_tokens, split_words, str_eq};

fn library() -> Vec<Document> {
    vec![
        Document {
            name: "a.txt".to_string(),
            content: "#TITLE:Bohemian Rhapsody\n#ARTIST:Queen\n#GENRE:Rock\nbody".to_string(),
        },
        Document {
            name: "b.txt".to_string(),
            content: "#TITLE:Imagine\n#ARTIST:John Lennon\nbody".to_string(),
        },
    ]
}

#[test]
fn single_token_query_finds_one_song() {
    let results = search("queen", &library());
    assert_eq!(results.len(), 1);
    assert_eq!(results[0].path, "song/a.txt");
    assert_eq!(results[0].title, "Bohemian Rhapsody");
    assert_eq!(results[0].artist, "Queen");
    assert_eq!(results[0].genre.as_deref(), Some("Rock"));
}

#[test]
fn tokens_must_all_match_one_document() {
    let results = search("rock imagine", &library());
    assert!(results.is_empty());
}

#[test]
fn empty_query_matches_every_parseable_document() {
    let results = search("", &library());
    assert_eq!(results.len(), 2);
    assert_eq!(results[0].path, "song/a.txt");
    assert_eq!(results[1].path, "song/b.txt");
    assert_eq!(results[1].genre, None);
}

#[test]
fn whitespace_query_matches_every_parseable_document() {
    let results = search(" \t \u{a0} \n ", &library());
    assert_eq!(results.len(), 2);
}

#[test]
fn two_matching_tokens_find_the_song() {
    let results = search("lennon imagine", &library());
    assert_eq!(results.len(), 1);
    assert_eq!(results[0].path, "song/b.txt");
    assert_eq!(results[0].title, "Imagine");
    assert_eq!(results[0].artist, "John Lennon");
    assert_eq!(results[0].genre, None);
}

#[test]
fn matching_is_case_insensitive() {
    assert_eq!(search("QuEeN", &library()).len(), 1);
    assert_eq!(search("ROCK", &library()).len(), 1);
    assert_eq!(search("imagine", &library()).len(), 1);
}

#[test]
fn token_matches_inside_words() {
    let docs = vec![Document {
        name: "c.txt".to_string(),
        content: "#TITLE:Song\n#ARTIST:cartoon\n".to_string(),
    }];
    assert_eq!(search("art", &docs).len(), 1);
}

#[test]
fn unparseable_documents_are_skipped_silently() {
    let mut docs = library();
    docs.push(Document {
        name: "bad.txt".to_string(),
        content: "\u{0}\u{1} binary garbage".to_string(),
    });
    docs.push(Document {
        name: "incomplete.txt".to_string(),
        content: "#TITLE:No Artist Given\n".to_string(),
    });
    let all = search("", &docs);
    assert_eq!(all.len(), 2);
    let queen = search("queen", &docs);
    assert_eq!(queen.len(), 1);
}

#[test]
fn search_tokens_splits_and_folds() {
    let tokens = search_tokens("  Foo   BAR\tbaz ");
    assert_eq!(tokens, vec!["foo".to_string(), "bar".to_string(), "baz".to_string()]);
    assert!(search_tokens("").is_empty());
    assert!(search_tokens(" \t\n ").is_empty());
}

#[test]
fn split_words_keeps_casing_and_order() {
    let words = split_words("One  two THREE");
    assert_eq!(words, vec!["One".to_string(), "two".to_string(), "THREE".to_string()]);
}

#[test]
fn contains_str_is_substring_containment() {
    assert!(contains_str("cartoon", "art"));
    assert!(contains_str("cartoon", ""));
    assert!(contains_str("cartoon", "cartoon"));
    assert!(!contains_str("cartoon", "artist"));
    assert!(!contains_str("", "a"));
}

#[test]
fn str_eq_compares_characters() {
    assert!(str_eq("abc", "abc"));
    assert!(!str_eq("abc", "abd"));
    assert!(!str_eq("abc", "ab"));
}

#[test]
fn join_path_uses_a_slash() {
    assert_eq!(join_path("song", "a.txt"), "song/a.txt");
}

#[test]
fn get_matching_header_requires_every_word() {
    let content = "#TITLE:Bohemian Rhapsody\n#ARTIST:Queen\n#GENRE:Rock\n";
    let hit = get_matching_header(content, &vec!["queen".to_string(), "rock".to_string()]);
    assert!(hit.is_some());
    let miss = get_matching_header(content, &vec!["queen".to_string(), "imagine".to_string()]);
    assert!(miss.is_none());
}

#[test]
fn matches_header_checks_all_three_fields() {
    let h = parse_and_fold("#TITLE:Imagine\n#ARTIST:John Lennon\n#GENRE:Soft Rock\n");
    assert!(matches_header(&h, "imagine"));
    assert!(matches_header(&h, "lennon"));
    assert!(matches_header(&h, "soft"));
    assert!(!matches_header(&h, "queen"));
}

fn parse_and_fold(content: &str) -> song_search::header::SongHeader {
    normalize_header(&song_search::header::parse_header(content).unwrap())
}
