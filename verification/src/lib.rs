//! Planning and naming logic of a downloader for the favourites of a Hype
//! Machine page: byte ranges of parallel chunk downloads, page and song
//! addresses, song file names, and the embedded page data of a listing.

pub mod chunk;
pub mod page;
pub mod song;
pub mod text;
pub mod transfer;
pub mod uri;
