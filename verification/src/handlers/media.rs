use vstd::prelude::*;
use crate::api_error::{ApiError, is_api_error};
use crate::models::asset::{
    Asset, build_live_manifest, build_vod_manifest, live_answer, optional_text, text_view, vod_outcome,
};
use crate::utility::clock_in_timescale;
use crate::models::fragment::FragmentParams;
use crate::models::query::Query;
use crate::mp4utils::{mp4_error_message, patch_outcome, try_patch_fragment};
use crate::resources::Templates;
use crate::vtt::{try_generate, vtt_fragment_defined, vtt_fragment_text};

verus! {

/// The two tracks that requests can name.
#[derive(Clone, Copy, Debug, PartialEq, Eq, Structural)]
pub enum Track {
    Video,
    Audio,
}

/// The track that `name` names: `video` or `audio`.
pub open spec fn named_track(name: Seq<char>) -> Option<Track> {
    if name == "video"@ {
        Some(Track::Video)
    } else if name == "audio"@ {
        Some(Track::Audio)
    } else {
        None
    }
}

/// The track that `name` names, if any.
pub fn select_track(name: &str) -> (res: Option<Track>)
    ensures
        res == named_track(name@),
{
    let name = String::from_str(name);
    if name == String::from_str("video") {
        Some(Track::Video)
    } else if name == String::from_str("audio") {
        Some(Track::Audio)
    } else {
        None
    }
}

pub open spec fn track_params(asset: Asset, track: Track) -> FragmentParams {
    match track {
        Track::Video => asset.video,
        Track::Audio => asset.audio,
    }
}

/// `res` answers a playlist request `query` for `fragment`'s track: for a
/// query with a start, the playlist of that stretch; else the live playlist.
/// Where the stretch runs until now, and for the live playlist, the time is
/// some reading of the clock, in the track's timescale.
pub open spec fn playlist_answer(res: Option<Result<String, ApiError>>, query: Query, fragment: FragmentParams, is_vtt: bool, templates: Templates, extinf: Seq<char>) -> bool {
    &&& query.start is Some ==> exists|reading: Option<u128>|
        #[trigger] vod_outcome(
            optional_text(query.start),
            optional_text(query.end),
            clock_in_timescale(reading, fragment.timescale as int),
            templates.vod@,
            extinf,
            is_vtt,
            fragment.duration as int,
            fragment.timescale as int,
        ) == text_view(res)
    &&& query.start is None ==> exists|reading: Option<u128>|
        text_view(res) == live_answer(
            #[trigger] clock_in_timescale(reading, fragment.timescale as int),
            templates.live@,
            extinf,
            is_vtt,
            fragment.duration as int,
            fragment.timescale as int,
        )
}

/// The playlist of `fragment`'s track that `query` asks for: the playlist of
/// a stretch where the query has a start, else the live playlist. `None`
/// where it cannot be computed.
pub fn get_media_playlist(query: &Query, fragment: &FragmentParams, is_vtt: bool, templates: &Templates, extinf: &str) -> (res: Option<Result<String, ApiError>>)
    ensures
        playlist_answer(res, *query, *fragment, is_vtt, *templates, extinf@),
{
    match query.start {
        Some(_) => build_vod_manifest(query, fragment, is_vtt, templates.vod.as_str(), extinf),
        None => build_live_manifest(fragment, is_vtt, templates.live.as_str(), extinf),
    }
}

/// The playlist of the track that `track` names (video or audio), or the
/// answer `404 Track not found`.
pub fn get_media_track(asset: &Asset, track: &str, query: &Query, templates: &Templates, video_extinf: &str, audio_extinf: &str) -> (res: Option<Result<String, ApiError>>)
    ensures
        match named_track(track@) {
            None => res matches Some(Err(err)) && is_api_error(err, 404, "Track not found"@),
            Some(Track::Video) => playlist_answer(res, *query, asset.video, false, *templates, video_extinf@),
            Some(Track::Audio) => playlist_answer(res, *query, asset.audio, false, *templates, audio_extinf@),
        },
{
    match select_track(track) {
        Some(Track::Video) => get_media_playlist(query, &asset.video, false, templates, video_extinf),
        Some(Track::Audio) => get_media_playlist(query, &asset.audio, false, templates, audio_extinf),
        None => Some(Err(ApiError::new(404, "Track not found"))),
    }
}

/// The subtitle playlist: the playlist of the video track, for subtitles.
pub fn get_vtt_track(asset: &Asset, query: &Query, templates: &Templates, extinf: &str) -> (res: Option<Result<String, ApiError>>)
    ensures
        playlist_answer(res, *query, asset.video, true, *templates, extinf@),
{
    get_media_playlist(query, &asset.video, true, templates, extinf)
}

/// Subtitle fragment `sequence`, or `None` where its times overflow.
pub fn get_vtt_fragment(asset: &Asset, sequence: i64, templates: &Templates) -> (res: Option<Result<String, ApiError>>)
    ensures
        res is None <==> !vtt_fragment_defined(sequence as int, asset.video.duration as int, asset.video.timescale as int),
        res matches Some(answer) ==> answer matches Ok(text) && text@ == vtt_fragment_text(
            templates.vtt@,
            sequence as int,
            asset.video.duration as int,
            asset.video.timescale as int,
        ),
{
    try_generate(sequence, &asset.video, templates.vtt.as_str())
}

/// The init segment of the track that `track` names, or the answer
/// `404 Track not found`.
pub fn get_media_init<'a>(asset: &'a Asset, track: &str) -> (res: Result<&'a [u8], ApiError>)
    ensures
        match named_track(track@) {
            Some(t) => res matches Ok(blob) && blob@ == track_params(*asset, t).init@,
            None => res matches Err(err) && is_api_error(err, 404, "Track not found"@),
        },
{
    match select_track(track) {
        Some(Track::Video) => Ok(asset.video.init.as_slice()),
        Some(Track::Audio) => Ok(asset.audio.init.as_slice()),
        None => Err(ApiError::new(404, "Track not found")),
    }
}

fn patched_copy(fragment: &FragmentParams, sequence: i64) -> (res: Option<Result<Vec<u8>, ApiError>>)
    ensures
        res is None <==> patch_outcome(fragment.fragment@, sequence, fragment.duration as i64) is None,
        res matches Some(answer) ==> {
            let outcome = patch_outcome(fragment.fragment@, sequence, fragment.duration as i64).unwrap();
            match outcome.1 {
                Ok(()) => answer matches Ok(blob) && blob@ == outcome.0,
                Err(e) => answer matches Err(err) && is_api_error(err, 500, mp4_error_message(e)),
            }
        },
{
    let mut blob = fragment.fragment.clone();
    let outcome = try_patch_fragment(blob.as_mut_slice(), sequence, fragment.duration as i64);
    match outcome {
        None => None,
        Some(Ok(())) => Some(Ok(blob)),
        Some(Err(err)) => Some(Err(err)),
    }
}

/// Fragment `sequence` of the track that `track` names: a copy of the
/// track's fragment, patched with the sequence number and decode time; or
/// the answer `404 Fragment not found`. `None` where patching comes to no
/// answer.
pub fn get_media_fragment(asset: &Asset, track: &str, sequence: i64) -> (res: Option<Result<Vec<u8>, ApiError>>)
    ensures
        match named_track(track@) {
            None => res matches Some(Err(err)) && is_api_error(err, 404, "Fragment not found"@),
            Some(t) => {
                let params = track_params(*asset, t);
                let outcome = patch_outcome(params.fragment@, sequence, params.duration as i64);
                &&& res is None <==> outcome is None
                &&& res matches Some(answer) ==> match outcome.unwrap().1 {
                    Ok(()) => answer matches Ok(blob) && blob@ == outcome.unwrap().0,
                    Err(e) => answer matches Err(err) && is_api_error(err, 500, mp4_error_message(e)),
                }
            },
        },
{
    match select_track(track) {
        Some(Track::Video) => patched_copy(&asset.video, sequence),
        Some(Track::Audio) => patched_copy(&asset.audio, sequence),
        None => Some(Err(ApiError::new(404, "Fragment not found"))),
    }
}

} // verus!
