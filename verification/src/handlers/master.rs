use vstd::prelude::*;
use crate::api_error::ApiError;
use crate::models::asset::Asset;
use crate::models::dimension::dimension_text;
use crate::models::fragment::{FragmentParams, bitrate_spec};
use crate::resources::Templates;
use crate::text::{decimal, fill, fill_template, texts, append_decimal};

verus! {

/// The bitrate of a track can be computed without a division by zero or an
/// overflow.
pub open spec fn bitrate_defined(fragment: FragmentParams) -> bool {
    &&& fragment.duration > 0
    &&& fragment.fragment@.len() * 8 <= u64::MAX
    &&& fragment.fragment@.len() * 8 * fragment.timescale <= u64::MAX
}

pub open spec fn track_bitrate(fragment: FragmentParams) -> int {
    bitrate_spec(fragment.fragment@.len() as int, fragment.timescale as int, fragment.duration as int) as int
}

/// The master playlist can be computed: both bitrates, and their sum as a `u32`.
pub open spec fn master_defined(asset: Asset) -> bool {
    &&& bitrate_defined(asset.video)
    &&& bitrate_defined(asset.audio)
    &&& track_bitrate(asset.video) + track_bitrate(asset.audio) <= u32::MAX
}

/// The master playlist: `template` filled with the query string (three
/// times), the bitrate of both tracks together, the video dimension and the
/// framerate.
pub open spec fn master_text(template: Seq<char>, query: Seq<char>, asset: Asset, framerate: Seq<char>) -> Seq<char> {
    fill(
        template,
        seq![
            query,
            query,
            decimal((track_bitrate(asset.video) + track_bitrate(asset.audio)) as nat),
            dimension_text(asset.video.dimension.width, asset.video.dimension.height),
            framerate,
            query,
        ],
    )
}

fn bitrate_possible(fragment: &FragmentParams) -> (res: bool)
    ensures
        res == bitrate_defined(*fragment),
{
    if fragment.duration == 0 {
        return false;
    }
    let len = fragment.fragment.len() as u64;
    match len.checked_mul(8) {
        Some(bits) => bits.checked_mul(fragment.timescale as u64).is_some(),
        None => false,
    }
}

/// The master playlist, which points players at the video, audio and
/// subtitle playlists; `query` is the request's query string, passed on to
/// them, and `framerate` the video framerate as text. `None` where the
/// bitrates cannot be computed.
pub fn get_master(asset: &Asset, query: &str, framerate: &str, templates: &Templates) -> (res: Option<Result<String, ApiError>>)
    ensures
        res is None <==> !master_defined(*asset),
        res matches Some(answer) ==> answer matches Ok(text) && text@ == master_text(
            templates.master@,
            query@,
            *asset,
            framerate@,
        ),
{
    if !bitrate_possible(&asset.video) || !bitrate_possible(&asset.audio) {
        return None;
    }
    let bitrate = match asset.video.bitrate().checked_add(asset.audio.bitrate()) {
        Some(b) => b,
        None => return None,
    };
    let mut rate = String::new();
    append_decimal(&mut rate, bitrate as u64);
    let mut args: Vec<String> = Vec::new();
    args.push(String::from_str(query));
    args.push(String::from_str(query));
    args.push(rate);
    args.push(asset.video.dimension.to_string());
    args.push(String::from_str(framerate));
    args.push(String::from_str(query));
    assert(texts(args@) =~= seq![
        query@,
        query@,
        decimal((track_bitrate(asset.video) + track_bitrate(asset.audio)) as nat),
        dimension_text(asset.video.dimension.width, asset.video.dimension.height),
        framerate@,
        query@,
    ]);
    Some(Ok(fill_template(templates.master.as_str(), args.as_slice())))
}

} // verus!
