# hypedown

The logic of a downloader for the favourites of a Hype Machine account,
verified with Verus.

- `src/chunk.rs`: splitting a remote content into byte-range requests for
  parallel download, with the proof that the chunks tile the content.
- `src/transfer.rs`: the bookkeeping of one chunk's transfer (write offsets,
  progress reports, result).
- `src/song.rs`: a track's source address and the file name it is stored
  under, with the proofs that a file name holds no '/' and ends in ".mp3".
- `src/page.rs`: a page's address, the page data embedded in its listing,
  and the downloads of its first tracks.
- `src/text.rs`, `src/uri.rs`: decimal notation and URI parsing.
- `app/`: the command line, the HTTP requests, the threads and the files.
