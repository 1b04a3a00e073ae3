//! A page of a Hype Machine account: its address, the data that its listing
//! embeds, and the downloads of its tracks.

use crate::song::{
    file_name, lemma_file_name_has_no_slash, lemma_file_name_of_plain_names, lemma_source_text_layout,
    source_text, Song, SongView,
};
use crate::text::{decimal, push_decimal};
use crate::uri::{parse_uri, uri_from_text};
use http::uri::Uri;
use scraper::{Html, Selector};
use vstd::prelude::*;

verus! {

/// The contents of a `Page`.
pub struct PageView {
    pub account: Seq<char>,
    pub page: int,
    pub track_song: Seq<SongView>,
}

/// A page of an account's favourites.
pub struct Page {
    // The page url
    account: String,
    // The page number where at
    page: i32,
    // The list of track retrievable on this page
    track_song: Vec<Song>,
}

impl View for Page {
    type V = PageView;

    closed spec fn view(&self) -> PageView {
        PageView {
            account: self.account@,
            page: self.page as int,
            track_song: self.track_song@.map_values(|song: Song| song@),
        }
    }
}

/// A track to download: the address it is served from and the file to
/// store it in.
pub struct DownloadJob {
    pub url: String,
    pub filename: String,
}

/// `job` downloads `song`: from the address it is served from, into the
/// file named after it.
pub open spec fn job_of(job: DownloadJob, song: SongView) -> bool {
    &&& job.url@ == source_text(song)
    &&& job.filename@ == file_name(song)
}

/// The address of a page: `http://hypem.com/{account}/{page}`.
pub open spec fn page_url_text(page: PageView) -> Seq<char> {
    "http://hypem.com/"@ + page.account + "/"@ + decimal(page.page)
}

/// A download job for a song fetches it from its source address and stores
/// it under its file name: without '/', ending in ".mp3", and, when the
/// names hold no '/', exactly `{artist_name} - {song_name}.mp3`.
pub proof fn lemma_job_of_song(job: DownloadJob, song: SongView)
    requires
        job_of(job, song),
    ensures
        job.url@ == source_text(song),
        job.url@.subrange(30, (30 + song.id.len()) as int) == song.id,
        job.url@.skip((31 + song.id.len()) as int) == song.key,
        job.filename@ == file_name(song),
        !job.filename@.contains('/'),
        !song.artist_name.contains('/') && !song.song_name.contains('/') ==> job.filename@
            == song.artist_name + seq![' ', '-', ' '] + song.song_name + seq!['.', 'm', 'p', '3'],
{
    lemma_source_text_layout(song);
    lemma_file_name_has_no_slash(song);
    reveal_strlit(" - ");
    reveal_strlit(".mp3");
    assert(" - "@ == seq![' ', '-', ' ']);
    assert(".mp3"@ == seq!['.', 'm', 'p', '3']);
    if !song.artist_name.contains('/') && !song.song_name.contains('/') {
        lemma_file_name_of_plain_names(song);
    }
}

/// The address of a page is "http://hypem.com/", then the account, then
/// '/', then the page number in decimal.
pub proof fn lemma_page_url_layout(page: PageView)
    ensures
        page_url_text(page).take(17) == seq![
            'h', 't', 't', 'p', ':', '/', '/', 'h', 'y', 'p', 'e', 'm', '.', 'c', 'o', 'm', '/',
        ],
        page_url_text(page).subrange(17, (17 + page.account.len()) as int) == page.account,
        page_url_text(page)[(17 + page.account.len()) as int] == '/',
        page_url_text(page).skip((18 + page.account.len()) as int) == decimal(page.page),
{
    reveal_strlit("http://hypem.com/");
    reveal_strlit("/");
    let t = page_url_text(page);
    assert(t.take(17) == "http://hypem.com/"@);
    assert(t.subrange(17, (17 + page.account.len()) as int) == page.account);
    assert(t.skip((18 + page.account.len()) as int) == decimal(page.page));
}

/// The page data is picked by the id selector of "displayList-data".
pub proof fn lemma_page_data_selector_is_the_display_list_id()
    ensures
        page_data_selector() == seq![
            '#', 'd', 'i', 's', 'p', 'l', 'a', 'y', 'L', 'i', 's', 't', '-', 'd', 'a', 't', 'a',
        ],
{
    reveal_strlit("#displayList-data");
}

/// The CSS selector of the element whose content is the page data.
pub open spec fn page_data_selector() -> Seq<char> {
    "#displayList-data"@
}

/// What the elements that `selector` picks in the HTML document `html` hold,
/// in document order; `None` when the selector is rejected.
pub uninterp spec fn css_select_inner_html(html: Seq<char>, selector: Seq<char>) -> Option<Seq<Seq<char>>>;

/// `Selector::parse(selector)`, then `Html::parse_document(html)`, its
/// `select` with that selector and the `inner_html` of each element picked,
/// from the `scraper` crate.  What is picked is named, not stated: it depends
/// on the document and the selector alone, and whether the selector is
/// rejected depends on the selector alone.
#[verifier::external_body]
fn select_inner_html(html: &str, selector: &str) -> (res: Option<Vec<String>>)
    ensures
        match res {
            Some(fragments) => css_select_inner_html(html@, selector@) == Some(
                fragments@.map_values(|fragment: String| fragment@),
            ),
            None => css_select_inner_html(html@, selector@) is None,
        },
        (res is Some) == (css_select_inner_html(Seq::empty(), selector@) is Some),
{
    let selector = Selector::parse(selector).ok()?;
    let document = Html::parse_document(html);
    Some(document.select(&selector).map(|element| element.inner_html()).collect())
}

/// The fragments joined in order, as `collect::<String>()` joins them.
pub fn join_fragments(fragments: &Vec<String>) -> (joined: String)
    ensures
        joined@ == fragments@.map_values(|fragment: String| fragment@).flatten(),
{
    let ghost views = fragments@.map_values(|fragment: String| fragment@);
    let mut joined = String::new();
    let mut i: usize = 0;
    while i < fragments.len()
        invariant
            i <= fragments.len(),
            views == fragments@.map_values(|fragment: String| fragment@),
            joined@ == views.take(i as int).flatten(),
        decreases fragments.len() - i,
    {
        proof {
            views.take(i as int).lemma_flatten_push(views[i as int]);
            assert(views.take(i + 1) == views.take(i as int).push(views[i as int]));
        }
        joined.append(fragments[i].as_str());
        i += 1;
    }
    assert(views.take(fragments.len() as int) == views);
    joined
}

impl Page {
    /// The first page of the "popular" account, with no track yet.
    pub fn default() -> (page: Page)
        ensures
            page@ == (PageView { account: "popular"@, page: 1, track_song: Seq::empty() }),
    {
        let page = Page {
            account: String::from_str("popular"),
            page: 1,
            track_song: Vec::with_capacity(40),  // Because a page is 40 songs long
        };
        assert(page@.track_song == Seq::<SongView>::empty());
        page
    }

    /// The first page of `account`, with no track yet.
    pub fn new(account: String) -> (page: Self)
        ensures
            page@ == (PageView { account: account@, page: 1, track_song: Seq::empty() }),
    {
        Page { account, ..Page::default() }
    }

    /// A page with the given contents.
    pub fn from_parts(account: String, page: i32, track_song: Vec<Song>) -> (res: Page)
        ensures
            res@ == (PageView {
                account: account@,
                page: page as int,
                track_song: track_song@.map_values(|song: Song| song@),
            }),
    {
        Page { account, page, track_song }
    }

    pub fn account(&self) -> (account: &str)
        ensures
            account@ == self@.account,
    {
        self.account.as_str()
    }

    pub fn page_number(&self) -> (page: i32)
        ensures
            page as int == self@.page,
    {
        self.page
    }

    pub fn track_song(&self) -> (tracks: &Vec<Song>)
        ensures
            tracks@.map_values(|song: Song| song@) == self@.track_song,
    {
        &self.track_song
    }

    /// The text of the page's address.
    pub fn url_text(&self) -> (text: String)
        ensures
            text@ == page_url_text(self@),
    {
        let mut text = String::from_str("http://hypem.com/");
        text.append(self.account.as_str());
        text.append("/");
        push_decimal(&mut text, self.page);
        text
    }

    /// The page's address, parsed; for a page whose address text is a URI.
    pub fn url(&self) -> (uri: Uri)
        requires
            uri_from_text(page_url_text(self@)) is Ok,
        ensures
            uri_from_text(page_url_text(self@)) == Ok::<Uri, http::uri::InvalidUri>(uri),
    {
        let text = self.url_text();
        parse_uri(text.as_str()).unwrap()
    }

    /// The page's address, parsed, or `None` when its text is not a URI.
    pub fn try_url(&self) -> (uri: Option<Uri>)
        ensures
            match uri {
                Some(uri) => uri_from_text(page_url_text(self@)) == Ok::<Uri, http::uri::InvalidUri>(uri),
                None => uri_from_text(page_url_text(self@)) is Err,
            },
    {
        let text = self.url_text();
        if parse_uri(text.as_str()).is_ok() {
            Some(self.url())
        } else {
            None
        }
    }

    /// The page data that an HTML listing embeds: the contents of the
    /// elements with the id "displayList-data", joined in document order.
    pub fn extract_page_data(html: &str) -> (data: String)
        requires
            css_select_inner_html(Seq::empty(), page_data_selector()) is Some,
        ensures
            css_select_inner_html(html@, page_data_selector()) matches Some(fragments) && data@
                == fragments.flatten(),
    {
        let fragments = select_inner_html(html, "#displayList-data").unwrap();
        join_fragments(&fragments)
    }

    /// The page data that an HTML listing embeds, or `None` when the
    /// selector of the page data is rejected.
    pub fn try_extract_page_data(html: &str) -> (data: Option<String>)
        ensures
            match data {
                Some(data) => css_select_inner_html(html@, page_data_selector()) matches Some(fragments)
                    && data@ == fragments.flatten(),
                None => css_select_inner_html(Seq::empty(), page_data_selector()) is None,
            },
    {
        proof {
            reveal_strlit("");
        }
        if select_inner_html("", "#displayList-data").is_some() {
            Some(Self::extract_page_data(html))
        } else {
            None
        }
    }

    /// The downloads of the page's first `limit` tracks (all of them when
    /// there are fewer), in the order of the page.
    pub fn download_songs(self, limit: usize) -> (jobs: Vec<DownloadJob>)
        ensures
            jobs.len() == if limit < self@.track_song.len() {
                limit as int
            } else {
                self@.track_song.len() as int
            },
            forall|i: int| 0 <= i < jobs.len() ==> job_of(#[trigger] jobs@[i], self@.track_song[i]),
    {
        let count: usize = if limit < self.track_song.len() {
            limit
        } else {
            self.track_song.len()
        };
        let mut jobs: Vec<DownloadJob> = Vec::new();
        let mut i: usize = 0;
        while i < count
            invariant
                count <= self.track_song.len(),
                i <= count,
                jobs.len() == i,
                forall|j: int| 0 <= j < i ==> job_of(#[trigger] jobs@[j], self@.track_song[j]),
            decreases count - i,
        {
            let song = &self.track_song[i];
            let job = DownloadJob { url: song.source_url(), filename: song.filename() };
            jobs.push(job);
            i += 1;
        }
        jobs
    }
}

} // verus!
