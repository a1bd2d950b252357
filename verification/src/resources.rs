use vstd::prelude::*;

verus! {

/// The texts that the playlists and subtitles are written from. In each,
/// `{}` stands for a value that is filled in, and `{{` and `}}` for braces.
pub struct Templates {
    /// The master playlist: the query (three times), the bitrate, the
    /// dimension and the framerate.
    pub master: String,
    /// The head of the live playlist: the first sequence number, the date
    /// of the first fragment and the map line.
    pub live: String,
    /// The head of the playlist of a stretch: the first sequence number,
    /// the playlist type, the date of the first fragment and whether it is a
    /// subtitle playlist.
    pub vod: String,
    /// The head of a subtitle fragment: its start.
    pub vtt: String,
}

} // verus!
