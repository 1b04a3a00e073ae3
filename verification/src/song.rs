//! A track of a page and the names under which it is fetched and stored.

use crate::text::push_char;
use crate::uri::{parse_uri, uri_from_text};
use http::uri::{InvalidUri, Uri};
use vstd::prelude::*;

verus! {

/// The contents of a `Song`.
pub struct SongView {
    pub id: Seq<char>,
    pub key: Seq<char>,
    pub artist_name: Seq<char>,
    pub song_name: Seq<char>,
}

/// A track as the page data lists it.
pub struct Song {
    // The id given by the "API"
    id: String,
    key: String,
    artist_name: String,
    song_name: String,
}

impl View for Song {
    type V = SongView;

    closed spec fn view(&self) -> SongView {
        SongView {
            id: self.id@,
            key: self.key@,
            artist_name: self.artist_name@,
            song_name: self.song_name@,
        }
    }
}

/// The address from which a song is served:
/// `http://hypem.com/serve/source/{id}/{key}`.
pub open spec fn source_text(song: SongView) -> Seq<char> {
    "http://hypem.com/serve/source/"@ + song.id + "/"@ + song.key
}

/// Whether a character may stay in a file name: every '/' is dropped, so that
/// a name cannot reach into another directory.
pub open spec fn kept_in_file_name() -> spec_fn(char) -> bool {
    |c: char| c != '/'
}

/// `{artist_name} - {song_name}.mp3` with every '/' removed.
pub open spec fn file_name(song: SongView) -> Seq<char> {
    (song.artist_name + " - "@ + song.song_name + ".mp3"@).filter(kept_in_file_name())
}

proof fn lemma_filter_keeps_all(s: Seq<char>, keep: spec_fn(char) -> bool)
    requires
        forall|i: int| 0 <= i < s.len() ==> keep(#[trigger] s[i]),
    ensures
        s.filter(keep) == s,
    decreases s.len(),
{
    reveal(Seq::filter);
    if s.len() > 0 {
        lemma_filter_keeps_all(s.drop_last(), keep);
        assert(s.drop_last().push(s.last()) == s);
    }
}

/// The source address of a song is "http://hypem.com/serve/source/", then
/// the song's id, then '/', then its key.
pub proof fn lemma_source_text_layout(song: SongView)
    ensures
        source_text(song).len() == (31 + song.id.len()) as int + song.key.len(),
        source_text(song).take(30) == seq![
            'h', 't', 't', 'p', ':', '/', '/', 'h', 'y', 'p', 'e', 'm', '.', 'c', 'o', 'm', '/',
            's', 'e', 'r', 'v', 'e', '/', 's', 'o', 'u', 'r', 'c', 'e', '/',
        ],
        source_text(song).subrange(30, (30 + song.id.len()) as int) == song.id,
        source_text(song)[(30 + song.id.len()) as int] == '/',
        source_text(song).skip((31 + song.id.len()) as int) == song.key,
{
    reveal_strlit("http://hypem.com/serve/source/");
    reveal_strlit("/");
    let t = source_text(song);
    assert(t.take(30) == "http://hypem.com/serve/source/"@);
    assert(t.subrange(30, (30 + song.id.len()) as int) == song.id);
    assert(t.skip((31 + song.id.len()) as int) == song.key);
}

/// A file name never holds a '/'.
pub proof fn lemma_file_name_has_no_slash(song: SongView)
    ensures
        !file_name(song).contains('/'),
{
    let formatted = song.artist_name + " - "@ + song.song_name + ".mp3"@;
    assert forall|i: int| 0 <= i < file_name(song).len() implies file_name(song)[i] != '/' by {
        formatted.lemma_filter_pred(kept_in_file_name(), i);
    }
}

/// A file name ends with ".mp3": what comes before it is the artist's name,
/// " - " and the song's name, with every '/' removed.
pub proof fn lemma_file_name_ends_with_mp3(song: SongView)
    ensures
        file_name(song) == (song.artist_name + " - "@ + song.song_name).filter(kept_in_file_name())
            + ".mp3"@,
{
    reveal_strlit(".mp3");
    Seq::filter_distributes_over_add(
        song.artist_name + " - "@ + song.song_name,
        ".mp3"@,
        kept_in_file_name(),
    );
    lemma_filter_keeps_all(".mp3"@, kept_in_file_name());
}

/// When neither the artist's name nor the song's name holds a '/', the file
/// name is exactly `{artist_name} - {song_name}.mp3`.
pub proof fn lemma_file_name_of_plain_names(song: SongView)
    requires
        !song.artist_name.contains('/'),
        !song.song_name.contains('/'),
    ensures
        file_name(song) == song.artist_name + " - "@ + song.song_name + ".mp3"@,
{
    reveal_strlit(" - ");
    reveal_strlit(".mp3");
    let formatted = song.artist_name + " - "@ + song.song_name + ".mp3"@;
    assert forall|i: int| 0 <= i < formatted.len() implies kept_in_file_name()(#[trigger] formatted[i]) by {
        if i < song.artist_name.len() {
            assert(formatted[i] == song.artist_name[i]);
        } else if i < song.artist_name.len() + 3 {
        } else if i < song.artist_name.len() + 3 + song.song_name.len() {
            assert(formatted[i] == song.song_name[i - song.artist_name.len() - 3]);
        }
    }
    lemma_filter_keeps_all(formatted, kept_in_file_name());
}

impl Song {
    pub fn new(id: String, key: String, artist_name: String, song_name: String) -> (song: Song)
        ensures
            song@ == (SongView { id: id@, key: key@, artist_name: artist_name@, song_name: song_name@ }),
    {
        Song { id, key, artist_name, song_name }
    }

    pub fn id(&self) -> (id: &str)
        ensures
            id@ == self@.id,
    {
        self.id.as_str()
    }

    pub fn key(&self) -> (key: &str)
        ensures
            key@ == self@.key,
    {
        self.key.as_str()
    }

    pub fn artist_name(&self) -> (artist_name: &str)
        ensures
            artist_name@ == self@.artist_name,
    {
        self.artist_name.as_str()
    }

    pub fn song_name(&self) -> (song_name: &str)
        ensures
            song_name@ == self@.song_name,
    {
        self.song_name.as_str()
    }

    /// The text of the address from which the song is served.
    pub fn source_url(&self) -> (text: String)
        ensures
            text@ == source_text(self@),
    {
        let mut text = String::from_str("http://hypem.com/serve/source/");
        text.append(self.id.as_str());
        text.append("/");
        text.append(self.key.as_str());
        text
    }

    /// The address from which the song is served, parsed.
    pub fn url(&self) -> (res: Result<Uri, InvalidUri>)
        ensures
            res == uri_from_text(source_text(self@)),
    {
        let text = self.source_url();
        parse_uri(text.as_str())
    }

    /// The name of the file in which the song is stored.
    pub fn filename(&self) -> (name: String)
        ensures
            name@ == file_name(self@),
    {
        let mut file_name = String::from_str(self.artist_name.as_str());
        file_name.append(" - ");
        file_name.append(self.song_name.as_str());
        file_name.append(".mp3");
        let ghost formatted = file_name@;
        let mut kept = String::new();
        for c in it: file_name.chars()
            invariant
                it.seq() == formatted,
                kept@ == formatted.take(it.index() as int).filter(kept_in_file_name()),
        {
            let ghost before = formatted.take(it.index() as int);
            assert(formatted.take(it.index() + 1) == before.push(c));
            proof {
                before.lemma_filter_push(c, kept_in_file_name());
            }
            if c != '/' {
                push_char(&mut kept, c);
            }
        }
        assert(formatted.take(formatted.len() as int) == formatted);
        kept
    }
}

} // verus!
