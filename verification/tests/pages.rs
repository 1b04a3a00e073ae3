use hypedown::page::{join_fragments, Page};
use hypedown::song::Song;
use hypedown::text::decimal_text;

fn song(id: &str, key: &str, artist: &str, title: &str) -> Song {
    Song::new(id.to_string(), key.to_string(), artist.to_string(), title.to_string())
}

#[test]
fn filename_joins_artist_and_title() {
    let s = song("2abc", "k3y", "Daft Punk", "One More Time");
    assert_eq!(s.filename(), "Daft Punk - One More Time.mp3");
}

#[test]
fn filename_drops_slashes() {
    let s = song("1", "2", "AC/DC", "Back/in Black");
    assert_eq!(s.filename(), "ACDC - Backin Black.mp3");
    let s = song("1", "2", "../..", "/etc/passwd");
    assert_eq!(s.filename(), ".... - etcpasswd.mp3");
}

#[test]
fn filename_of_empty_names() {
    assert_eq!(song("", "", "", "").filename(), " - .mp3");
}

#[test]
fn song_source_address() {
    let s = song("2abc", "k3y", "a", "b");
    assert_eq!(s.source_url(), "http://hypem.com/serve/source/2abc/k3y");
    let uri = s.url().unwrap();
    assert_eq!(uri.host(), Some("hypem.com"));
    assert_eq!(uri.path(), "/serve/source/2abc/k3y");
}

#[test]
fn song_address_with_a_space_is_rejected() {
    assert!(song("a b", "k", "x", "y").url().is_err());
}

#[test]
fn song_getters() {
    let s = song("i", "k", "a", "t");
    assert_eq!((s.id(), s.key(), s.artist_name(), s.song_name()), ("i", "k", "a", "t"));
}

#[test]
fn default_page() {
    let page = Page::default();
    assert_eq!(page.account(), "popular");
    assert_eq!(page.page_number(), 1);
    assert!(page.track_song().is_empty());
    assert_eq!(page.url_text(), "http://hypem.com/popular/1");
}

#[test]
fn new_page_of_an_account() {
    let page = Page::new("SirC".to_string());
    assert_eq!(page.account(), "SirC");
    assert_eq!(page.page_number(), 1);
    assert!(page.track_song().is_empty());
    let uri = page.url();
    assert_eq!(uri.path(), "/SirC/1");
    assert_eq!(page.try_url().unwrap().host(), Some("hypem.com"));
}

#[test]
fn page_address_of_any_number() {
    let page = Page::from_parts("x".to_string(), 123, Vec::new());
    assert_eq!(page.url_text(), "http://hypem.com/x/123");
    let page = Page::from_parts("x".to_string(), -12, Vec::new());
    assert_eq!(page.url_text(), "http://hypem.com/x/-12");
    let page = Page::from_parts("x".to_string(), 0, Vec::new());
    assert_eq!(page.url_text(), "http://hypem.com/x/0");
    let page = Page::from_parts("x".to_string(), i32::MIN, Vec::new());
    assert_eq!(page.url_text(), "http://hypem.com/x/-2147483648");
    let page = Page::from_parts("x".to_string(), i32::MAX, Vec::new());
    assert_eq!(page.url_text(), "http://hypem.com/x/2147483647");
}

#[test]
fn page_address_with_a_space_is_rejected() {
    let page = Page::new("Sir C".to_string());
    assert!(page.try_url().is_none());
}

#[test]
fn decimal_text_matches_to_string() {
    for n in [0, 7, 10, 99, 100, 4096, -1, -10, i32::MAX, i32::MIN, 1_000_000_007] {
        assert_eq!(decimal_text(n), n.to_string());
    }
}

#[test]
fn page_data_is_the_content_of_the_display_list() {
    let html = "<html><head><script type=\"application/json\" id=\"displayList-data\">{\"tracks\":[]}</script></head><body><p>x</p></body></html>";
    assert_eq!(Page::extract_page_data(html), "{\"tracks\":[]}");
    assert_eq!(Page::try_extract_page_data(html), Some("{\"tracks\":[]}".to_string()));
}

#[test]
fn page_data_of_a_listing_without_it() {
    assert_eq!(Page::extract_page_data("<html><body><p>x</p></body></html>"), "");
}

#[test]
fn page_data_of_several_elements_is_joined() {
    let html = "<div id=\"displayList-data\">ab</div><div id=\"displayList-data\">cd</div>";
    assert_eq!(Page::extract_page_data(html), "abcd");
}

#[test]
fn downloads_of_the_first_tracks() {
    let tracks = vec![song("1", "a", "A", "x"), song("2", "b", "B/C", "y"), song("3", "c", "D", "z")];
    let page = Page::from_parts("SirC".to_string(), 1, tracks);
    let jobs = page.download_songs(2);
    assert_eq!(jobs.len(), 2);
    assert_eq!(jobs[0].url, "http://hypem.com/serve/source/1/a");
    assert_eq!(jobs[0].filename, "A - x.mp3");
    assert_eq!(jobs[1].url, "http://hypem.com/serve/source/2/b");
    assert_eq!(jobs[1].filename, "BC - y.mp3");
}

#[test]
fn downloads_are_limited_by_the_tracks() {
    let page = Page::from_parts("SirC".to_string(), 1, vec![song("1", "a", "A", "x")]);
    assert_eq!(page.download_songs(40).len(), 1);
    let page = Page::from_parts("SirC".to_string(), 1, vec![song("1", "a", "A", "x")]);
    assert_eq!(page.download_songs(0).len(), 0);
}

#[test]
fn fragments_are_joined_in_order() {
    let fragments = vec!["{\"a\":".to_string(), String::new(), "1}".to_string()];
    assert_eq!(join_fragments(&fragments), "{\"a\":1}");
    assert_eq!(join_fragments(&Vec::new()), "");
}
