use song_search::header::parse_header;

#[test]
fn parses_title_artist_genre() {
    let content = "#TITLE:Bohemian Rhapsody\n#ARTIST:Queen\n#GENRE:Rock\nbody line";
    let h = parse_header(content).unwrap();
    assert_eq!(h.title, "Bohemian Rhapsody");
    assert_eq!(h.artist, "Queen");
    assert_eq!(h.genre.as_deref(), Some("Rock"));
}

#[test]
fn genre_is_optional() {
    let h = parse_header("#TITLE:Imagine\n#ARTIST:John Lennon\n").unwrap();
    assert_eq!(h.title, "Imagine");
    assert_eq!(h.artist, "John Lennon");
    assert!(h.genre.is_none());
}

#[test]
fn missing_title_is_unparseable() {
    assert!(parse_header("#ARTIST:Queen\n#GENRE:Rock\n").is_none());
}

#[test]
fn missing_artist_is_unparseable() {
    assert!(parse_header("#TITLE:Bohemian Rhapsody\n").is_none());
}

#[test]
fn empty_document_is_unparseable() {
    assert!(parse_header("").is_none());
}

#[test]
fn garbage_is_unparseable() {
    assert!(parse_header("\u{0}\u{1}\u{2} not a header\nrandom noise").is_none());
}

#[test]
fn header_line_without_separator_is_unparseable() {
    assert!(parse_header("#TITLE:A\n#BROKEN\n#ARTIST:B\n").is_none());
}

#[test]
fn crlf_line_endings_are_stripped() {
    let h = parse_header("#TITLE:A\r\n#ARTIST:B\r\n#GENRE:C\r\nbody\r\n").unwrap();
    assert_eq!(h.title, "A");
    assert_eq!(h.artist, "B");
    assert_eq!(h.genre.as_deref(), Some("C"));
}

#[test]
fn empty_value_is_kept_distinct_from_absent() {
    let h = parse_header("#TITLE:\n#ARTIST:X\n").unwrap();
    assert_eq!(h.title, "");
    assert_eq!(h.artist, "X");
    assert!(h.genre.is_none());
}

#[test]
fn later_tag_overrides_earlier() {
    let h = parse_header("#TITLE:First\n#TITLE:Second\n#ARTIST:A\n").unwrap();
    assert_eq!(h.title, "Second");
}

#[test]
fn unknown_tags_are_ignored() {
    let h = parse_header("#TITLE:T\n#MP3:file.mp3\n#BPM:320\n#ARTIST:A\n").unwrap();
    assert_eq!(h.title, "T");
    assert_eq!(h.artist, "A");
    assert!(h.genre.is_none());
}

#[test]
fn header_ends_at_first_body_line() {
    let h = parse_header("#TITLE:T\n#ARTIST:A\n: 0 4 0 la\n#GENRE:Late\n").unwrap();
    assert_eq!(h.title, "T");
    assert_eq!(h.artist, "A");
    assert!(h.genre.is_none());
}

#[test]
fn last_line_without_newline_is_read() {
    let h = parse_header("#TITLE:T\n#ARTIST:A").unwrap();
    assert_eq!(h.title, "T");
    assert_eq!(h.artist, "A");
}

#[test]
fn value_may_contain_colons() {
    let h = parse_header("#TITLE:Intro: The Beginning\n#ARTIST:A\n").unwrap();
    assert_eq!(h.title, "Intro: The Beginning");
}
