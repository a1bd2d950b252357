use vstd::prelude::*;
use crate::api_error::ApiError;
use crate::arith::{fits_i64, tdiv, lemma_tdiv_bounds, lemma_tdiv_monotonic};
use crate::datetime::{parse_rfc3339_millis, rfc3339_millis, rfc3339_text, rfc3339_from_millis};
use crate::models::query::Query;
use crate::models::fragment::FragmentParams;
use crate::text::{append_i64, bool_text, decimal_int, fill, fill_template, format_i64, texts};
use crate::utility::{clock_in_timescale, millis_to_timescale, now_in_timescale, scale_millis};

verus! {

/// The two tracks of the stream.
pub struct Asset {
    pub video: FragmentParams,
    pub audio: FragmentParams,
}

impl Asset {
    pub fn new(video: FragmentParams, audio: FragmentParams) -> (res: Asset)
        ensures
            res.video == video,
            res.audio == audio,
    {
        Asset { video, audio }
    }
}

/// The live playlist lists this many fragments, the last of them the one
/// that is playing now.
pub const LIVE_FRAGMENT_COUNT: i64 = 8;

/// A playlist of a past stretch of the stream lists at most this many fragments.
pub const MAX_VOD_FRAGMENT_COUNT: i64 = 65536;

/// The playlist entry of fragment `n`, which lasts `extinf` seconds.
pub open spec fn fragment_entry(extinf: Seq<char>, n: int) -> Seq<char> {
    "#EXTINF:"@ + extinf + ",no-desc\r\n"@ + decimal_int(n) + ".fragment\r\n"@
}

/// The entries of `count` fragments in a row, the first of them `sequence`.
pub open spec fn fragment_list(sequence: int, count: int, extinf: Seq<char>) -> Seq<char>
    decreases count,
{
    if count <= 0 {
        Seq::empty()
    } else {
        fragment_list(sequence, count - 1, extinf) + fragment_entry(extinf, sequence + count - 1)
    }
}

/// The playlist entries of `fragment_count` fragments from `sequence` on,
/// each `extinf` seconds long.
pub fn create_fragment_list(sequence: i64, fragment_count: i64, extinf: &str) -> (res: Result<String, ApiError>)
    requires
        fragment_count <= 0 || sequence + fragment_count - 1 <= i64::MAX,
    ensures
        res matches Ok(list) && list@ == fragment_list(sequence as int, fragment_count as int, extinf@),
{
    let mut fragments = String::new();
    let mut n: i64 = 0;
    while n < fragment_count
        invariant
            0 <= n,
            fragment_count <= 0 ==> n == 0,
            fragment_count > 0 ==> n <= fragment_count && sequence + fragment_count - 1 <= i64::MAX,
            fragments@ == fragment_list(sequence as int, n as int, extinf@),
        decreases fragment_count - n,
    {
        proof {
            reveal_strlit("#EXTINF:");
            reveal_strlit(",no-desc\r\n");
            reveal_strlit(".fragment\r\n");
        }
        let ghost before = fragments@;
        fragments.append("#EXTINF:");
        fragments.append(extinf);
        fragments.append(",no-desc\r\n");
        append_i64(&mut fragments, sequence + n);
        fragments.append(".fragment\r\n");
        assert(fragments@ =~= before + fragment_entry(extinf@, sequence + n));
        n = n + 1;
    }
    Ok(fragments)
}

/// The line that points players at the init segment; subtitle playlists have none.
pub open spec fn map_line(is_vtt: bool) -> Seq<char> {
    if is_vtt {
        Seq::empty()
    } else {
        "\n#EXT-X-MAP:URI=\"init.m4i\""@
    }
}

/// The first fragment of the live playlist at `end` (in timescale units
/// since the epoch): the one playing then, less `LIVE_FRAGMENT_COUNT`.
pub open spec fn live_sequence(end: int, duration: int) -> int {
    tdiv(end, duration) - LIVE_FRAGMENT_COUNT
}

/// When that fragment starts, in milliseconds since the epoch.
pub open spec fn live_pdt_millis(sequence: int, duration: int, timescale: int) -> int {
    tdiv(sequence * duration * 1000, timescale)
}

/// The live playlist at `end` can be computed without a division by zero or
/// an overflow, and its start can be written as a date.
pub open spec fn live_manifest_defined(end: int, duration: int, timescale: int) -> bool {
    let sequence = live_sequence(end, duration);
    &&& duration > 0
    &&& timescale > 0
    &&& i64::MIN <= sequence
    &&& i64::MIN <= sequence * duration <= i64::MAX
    &&& i64::MIN <= sequence * duration * 1000 <= i64::MAX
    &&& rfc3339_text(live_pdt_millis(sequence, duration, timescale) as i64) is Some
}

/// The live playlist at `end`: `template` filled with the first sequence
/// number, the date and time at which that fragment starts, and the map
/// line; then the entries of `LIVE_FRAGMENT_COUNT` fragments.
pub open spec fn live_manifest_text(template: Seq<char>, extinf: Seq<char>, is_vtt: bool, end: int, duration: int, timescale: int) -> Seq<char> {
    let sequence = live_sequence(end, duration);
    let pdt = rfc3339_text(live_pdt_millis(sequence, duration, timescale) as i64).unwrap();
    fill(template, seq![decimal_int(sequence), pdt, map_line(is_vtt)]) + fragment_list(
        sequence,
        LIVE_FRAGMENT_COUNT as int,
        extinf,
    )
}

fn map_line_text(is_vtt: bool) -> (res: String)
    ensures
        res@ == map_line(is_vtt),
{
    if is_vtt {
        String::new()
    } else {
        String::from_str("\n#EXT-X-MAP:URI=\"init.m4i\"")
    }
}

/// The live playlist of `fragment`'s track at the time `end_since_epoch` (in
/// timescale units), or `None` where it cannot be computed.
pub fn live_manifest_at(fragment: &FragmentParams, is_vtt: bool, template: &str, extinf: &str, end_since_epoch: i64) -> (res: Option<Result<String, ApiError>>)
    ensures
        res is None <==> !live_manifest_defined(end_since_epoch as int, fragment.duration as int, fragment.timescale as int),
        res matches Some(answer) ==> answer matches Ok(text) && text@ == live_manifest_text(
            template@,
            extinf@,
            is_vtt,
            end_since_epoch as int,
            fragment.duration as int,
            fragment.timescale as int,
        ),
{
    let duration = fragment.duration as i64;
    let timescale = fragment.timescale as i64;
    if duration == 0 || timescale == 0 {
        return None;
    }
    proof {
        lemma_tdiv_bounds(end_since_epoch as int, duration as int);
    }
    let sequence = match (end_since_epoch / duration).checked_sub(LIVE_FRAGMENT_COUNT) {
        Some(s) => s,
        None => return None,
    };
    let scaled = match sequence.checked_mul(duration) {
        Some(t) => match t.checked_mul(1000) {
            Some(v) => v,
            None => return None,
        },
        None => return None,
    };
    proof {
        lemma_tdiv_bounds(scaled as int, timescale as int);
    }
    let pdt_millis = scaled / timescale;
    let pdt = match rfc3339_from_millis(pdt_millis) {
        Some(text) => text,
        None => return None,
    };
    let mut args: Vec<String> = Vec::new();
    args.push(format_i64(sequence));
    args.push(pdt);
    args.push(map_line_text(is_vtt));
    assert(texts(args@) =~= seq![decimal_int(sequence as int), rfc3339_text(pdt_millis).unwrap(), map_line(is_vtt)]);
    let mut text = fill_template(template, args.as_slice());
    let fragments = match create_fragment_list(sequence, LIVE_FRAGMENT_COUNT, extinf) {
        Ok(list) => list,
        Err(err) => return Some(Err(err)),
    };
    text.append(fragments.as_str());
    Some(Ok(text))
}

/// The answer to a live playlist request when the clock reads `now` (in
/// timescale units; `None` where there is no reading): `None` without a
/// reading or where the playlist at that time cannot be computed, else the
/// live playlist at that time.
pub open spec fn live_answer(now: Option<i64>, template: Seq<char>, extinf: Seq<char>, is_vtt: bool, duration: int, timescale: int) -> Option<Result<Seq<char>, (u16, Seq<char>)>> {
    match now {
        None => None,
        Some(end) => {
            if live_manifest_defined(end as int, duration, timescale) {
                Some(Ok(live_manifest_text(template, extinf, is_vtt, end as int, duration, timescale)))
            } else {
                None
            }
        },
    }
}

/// The live playlist of `fragment`'s track now, or `None` where it cannot be
/// computed (the clock lies before the epoch, or its time leads to an
/// overflow or to a date that cannot be written).
pub fn build_live_manifest(fragment: &FragmentParams, is_vtt: bool, template: &str, extinf: &str) -> (res: Option<Result<String, ApiError>>)
    ensures
        exists|reading: Option<u128>|
            text_view(res) == live_answer(
                #[trigger] clock_in_timescale(reading, fragment.timescale as int),
                template@,
                extinf@,
                is_vtt,
                fragment.duration as int,
                fragment.timescale as int,
            ),
        res matches Some(answer) ==> exists|end: i64|
            live_manifest_defined(end as int, fragment.duration as int, fragment.timescale as int)
            && (answer matches Ok(text) && text@ == live_manifest_text(
                template@,
                extinf@,
                is_vtt,
                end as int,
                fragment.duration as int,
                fragment.timescale as int,
            )),
{
    let now = now_in_timescale(fragment.timescale as i64);
    let ghost reading = choose|reading: Option<u128>| now == #[trigger] clock_in_timescale(reading, fragment.timescale as int);
    assert(now == clock_in_timescale(reading, fragment.timescale as int));
    let ghost answer = live_answer(now, template@, extinf@, is_vtt, fragment.duration as int, fragment.timescale as int);
    let end_since_epoch = match now {
        Some(now) => now,
        None => {
            assert(text_view(None) == answer);
            return None;
        },
    };
    let res = live_manifest_at(fragment, is_vtt, template, extinf, end_since_epoch);
    assert(text_view(res) == answer);
    res
}

/// The live playlist never goes back: at a later time it starts at the same
/// fragment or a later one.
pub proof fn lemma_live_sequence_monotonic(end1: int, end2: int, duration: int)
    requires
        duration > 0,
        end1 <= end2,
    ensures
        live_sequence(end1, duration) <= live_sequence(end2, duration),
{
    lemma_tdiv_monotonic(end1, end2, duration);
}

/// The live playlist at `end` ends with the latest fragment that has been
/// played to its end by then (fragment `end / duration - 1`).
pub proof fn lemma_live_playlist_ends_with_latest_fragment(end: int, duration: int, extinf: Seq<char>)
    requires
        duration > 0,
    ensures
        fragment_list(live_sequence(end, duration), LIVE_FRAGMENT_COUNT as int, extinf)
            == fragment_list(live_sequence(end, duration), LIVE_FRAGMENT_COUNT - 1, extinf)
            + fragment_entry(extinf, tdiv(end, duration) - 1),
{
}

} // verus!

verus! {

/// The answer to a date that does not parse.
pub open spec fn invalid_time_format() -> (u16, Seq<char>) {
    (400, "Invalid time format"@)
}

/// The answer to a stretch that ends before it starts.
pub open spec fn end_before_start() -> (u16, Seq<char>) {
    (400, "end < start"@)
}

/// The texts of an optional string.
pub open spec fn optional_text(o: Option<String>) -> Option<Seq<char>> {
    match o {
        Some(s) => Some(s@),
        None => None,
    }
}

/// An error as its status and message.
pub open spec fn error_view(e: ApiError) -> (u16, Seq<char>) {
    (e.status, e.message@)
}

/// The stretch of a playlist request: `start` and `end` (RFC 3339 texts of
/// the query), in units of `timescale` since the epoch, and the playlist
/// type, `VOD` for a closed stretch and `EVENT` for one that runs until
/// `now` (the clock's reading in timescale units; `None` where there is
/// none). `None`: no answer (no start, an overflow, or no reading).
pub open spec fn playlist_parameters_spec(start: Option<Seq<char>>, end: Option<Seq<char>>, timescale: int, now: Option<i64>) -> Option<Result<(int, int, Seq<char>), (u16, Seq<char>)>> {
    match start {
        None => None,
        Some(start_text) => match rfc3339_millis(start_text) {
            None => Some(Err(invalid_time_format())),
            Some(start_millis) => match end {
                Some(end_text) => match rfc3339_millis(end_text) {
                    None => Some(Err(invalid_time_format())),
                    Some(end_millis) => {
                        if !fits_i64(start_millis * timescale) || !fits_i64(end_millis * timescale) {
                            None
                        } else {
                            let s = millis_to_timescale(start_millis as int, timescale);
                            let e = millis_to_timescale(end_millis as int, timescale);
                            if e < s {
                                Some(Err(end_before_start()))
                            } else {
                                Some(Ok((s, e, "VOD"@)))
                            }
                        }
                    },
                },
                None => {
                    if !fits_i64(start_millis * timescale) {
                        None
                    } else {
                        match now {
                            None => None,
                            Some(n) => {
                                let s = millis_to_timescale(start_millis as int, timescale);
                                if n < s {
                                    Some(Err(end_before_start()))
                                } else {
                                    Some(Ok((s, n as int, "EVENT"@)))
                                }
                            },
                        }
                    }
                },
            },
        },
    }
}

pub open spec fn parameters_view(r: Option<Result<(i64, i64, &'static str), ApiError>>) -> Option<Result<(int, int, Seq<char>), (u16, Seq<char>)>> {
    match r {
        None => None,
        Some(Err(e)) => Some(Err(error_view(e))),
        Some(Ok((s, e, t))) => Some(Ok((s as int, e as int, t@))),
    }
}

/// The stretch that a playlist request asks for, in units of `fragment`'s
/// timescale since the epoch, and its playlist type, where `now` is the
/// clock's reading in that timescale (`None` where there is none; it is
/// used only for a query with a start and no end).
pub fn playlist_parameters_at(query: &Query, fragment: &FragmentParams, now: Option<i64>) -> (res: Option<Result<(i64, i64, &'static str), ApiError>>)
    ensures
        parameters_view(res) == playlist_parameters_spec(
            optional_text(query.start),
            optional_text(query.end),
            fragment.timescale as int,
            now,
        ),
{
    proof {
        reveal_strlit("VOD");
        reveal_strlit("EVENT");
    }
    let ghost spec_start = optional_text(query.start);
    let ghost spec_end = optional_text(query.end);
    let ghost ts = fragment.timescale as int;
    let start_text = match &query.start {
        Some(text) => text,
        None => {
            assert(playlist_parameters_spec(spec_start, spec_end, ts, now) == parameters_view(None));
            return None;
        },
    };
    let start_millis = match parse_rfc3339_millis(start_text.as_str()) {
        Ok(millis) => millis,
        Err(err) => {
            let res = Some(Err(ApiError::from_parse_error(err)));
            assert(playlist_parameters_spec(spec_start, spec_end, ts, now) == parameters_view(res));
            return res;
        },
    };
    let end_millis = match &query.end {
        Some(text) => match parse_rfc3339_millis(text.as_str()) {
            Ok(millis) => Some(millis),
            Err(err) => {
                let res = Some(Err(ApiError::from_parse_error(err)));
                assert(playlist_parameters_spec(spec_start, spec_end, ts, now) == parameters_view(res));
                return res;
            },
        },
        None => None,
    };
    let timescale = fragment.timescale as i64;
    if start_millis.checked_mul(timescale).is_none() {
        assert(playlist_parameters_spec(spec_start, spec_end, ts, now) == parameters_view(None));
        return None;
    }
    let start_since_epoch = scale_millis(start_millis, timescale);
    let playlist_type: &'static str;
    let end_since_epoch = match end_millis {
        Some(millis) => {
            if millis.checked_mul(timescale).is_none() {
                assert(playlist_parameters_spec(spec_start, spec_end, ts, now) == parameters_view(None));
                return None;
            }
            playlist_type = "VOD";
            scale_millis(millis, timescale)
        },
        None => {
            playlist_type = "EVENT";
            match now {
                Some(now) => now,
                None => {
                    assert(playlist_parameters_spec(spec_start, spec_end, ts, now) == parameters_view(None));
                    return None;
                },
            }
        },
    };
    if end_since_epoch < start_since_epoch {
        let res = Some(Err(ApiError::new(400, "end < start")));
        assert(playlist_parameters_spec(spec_start, spec_end, ts, now) == parameters_view(res));
        return res;
    }
    let res = Some(Ok((start_since_epoch, end_since_epoch, playlist_type)));
    assert(playlist_parameters_spec(spec_start, spec_end, ts, now) == parameters_view(res));
    res
}


/// The stretch that a playlist request asks for, in units of `fragment`'s
/// timescale since the epoch, and its playlist type. For a query with a
/// start and no end, the stretch runs until now: the clock is read.
pub fn get_playlist_parameters(query: &Query, fragment: &FragmentParams) -> (res: Option<Result<(i64, i64, &'static str), ApiError>>)
    ensures
        exists|reading: Option<u128>|
            #[trigger] playlist_parameters_spec(
                optional_text(query.start),
                optional_text(query.end),
                fragment.timescale as int,
                clock_in_timescale(reading, fragment.timescale as int),
            ) == parameters_view(res),
        query.end is Some ==> parameters_view(res) == playlist_parameters_spec(
            optional_text(query.start),
            optional_text(query.end),
            fragment.timescale as int,
            None,
        ),
{
    let ghost ts = fragment.timescale as int;
    let now = if query.start.is_some() && query.end.is_none() {
        now_in_timescale(fragment.timescale as i64)
    } else {
        None
    };
    let ghost reading = choose|r: Option<u128>| now == #[trigger] clock_in_timescale(r, ts);
    proof {
        if !(query.start.is_some() && query.end.is_none()) {
            assert(now == clock_in_timescale(None, ts));
        }
    }
    assert(now == clock_in_timescale(reading, ts));
    let res = playlist_parameters_at(query, fragment, now);
    assert(playlist_parameters_spec(optional_text(query.start), optional_text(query.end), ts, clock_in_timescale(reading, ts)) == parameters_view(res));
    res
}

} // verus!

verus! {

/// The number of fragments in a playlist of the stretch `start..end`: enough
/// to cover it, but at most `MAX_VOD_FRAGMENT_COUNT`.
pub open spec fn vod_fragment_count(start: int, end: int, duration: int) -> int {
    let needed = tdiv(end - start + duration - 1, duration);
    if needed < MAX_VOD_FRAGMENT_COUNT {
        needed
    } else {
        MAX_VOD_FRAGMENT_COUNT as int
    }
}

/// The playlist of the stretch `start..end` of type `playlist_type`:
/// `template` filled with the first sequence number, the playlist type, the
/// date of the first fragment (its start in timescale units, read as
/// milliseconds) and whether it is a subtitle playlist; then the fragment
/// entries; then, for a closed (`VOD`) stretch, the end-of-list tag.
/// `None`: no answer (a division by zero, an overflow, or a date that cannot
/// be written).
pub open spec fn vod_manifest_spec(template: Seq<char>, extinf: Seq<char>, is_vtt: bool, duration: int, start: int, end: int, playlist_type: Seq<char>) -> Option<Seq<char>> {
    if duration <= 0 || !fits_i64(end - start) || !fits_i64(end - start + duration) {
        None
    } else {
        let count = vod_fragment_count(start, end, duration);
        let sequence = tdiv(start, duration);
        if !fits_i64(sequence * duration) || rfc3339_text((sequence * duration) as i64) is None
            || (count > 0 && sequence + count - 1 > i64::MAX) {
            None
        } else {
            let pdt = rfc3339_text((sequence * duration) as i64).unwrap();
            let header = fill(template, seq![decimal_int(sequence), playlist_type, pdt, bool_text(is_vtt)]);
            let tail = if playlist_type == "VOD"@ { "#EXT-X-ENDLIST\r\n"@ } else { Seq::empty() };
            Some(header + fragment_list(sequence, count, extinf) + tail)
        }
    }
}

/// A playlist request answered: its stretch (with the clock's reading
/// `now`), then the playlist of that stretch.
pub open spec fn vod_outcome(start: Option<Seq<char>>, end: Option<Seq<char>>, now: Option<i64>, template: Seq<char>, extinf: Seq<char>, is_vtt: bool, duration: int, timescale: int) -> Option<Result<Seq<char>, (u16, Seq<char>)>> {
    match playlist_parameters_spec(start, end, timescale, now) {
        None => None,
        Some(Err(e)) => Some(Err(e)),
        Some(Ok((s, e, playlist_type))) => match vod_manifest_spec(template, extinf, is_vtt, duration, s, e, playlist_type) {
            None => None,
            Some(text) => Some(Ok(text)),
        },
    }
}

pub open spec fn text_view(r: Option<Result<String, ApiError>>) -> Option<Result<Seq<char>, (u16, Seq<char>)>> {
    match r {
        None => None,
        Some(Err(e)) => Some(Err(error_view(e))),
        Some(Ok(text)) => Some(Ok(text@)),
    }
}

fn bool_string(b: bool) -> (res: String)
    ensures
        res@ == bool_text(b),
{
    if b {
        String::from_str("true")
    } else {
        String::from_str("false")
    }
}

/// The playlist of the stretch that `query` asks for, where `now` is the
/// clock's reading in `fragment`'s timescale (`None` where there is none; it
/// is used only for a query with a start and no end), or `None` where it
/// cannot be computed.
pub fn vod_manifest_at(query: &Query, fragment: &FragmentParams, now: Option<i64>, is_vtt: bool, template: &str, extinf: &str) -> (res: Option<Result<String, ApiError>>)
    ensures
        text_view(res) == vod_outcome(
            optional_text(query.start),
            optional_text(query.end),
            now,
            template@,
            extinf@,
            is_vtt,
            fragment.duration as int,
            fragment.timescale as int,
        ),
{
    proof {
        reveal_strlit("VOD");
        reveal_strlit("EVENT");
        reveal_strlit("#EXT-X-ENDLIST\r\n");
    }
    let ghost spec_start = optional_text(query.start);
    let ghost spec_end = optional_text(query.end);
    let ghost ts = fragment.timescale as int;
    let ghost dur = fragment.duration as int;
    let params = playlist_parameters_at(query, fragment, now);
    let ghost outcome = vod_outcome(spec_start, spec_end, now, template@, extinf@, is_vtt, dur, ts);
    let (start_since_epoch, end_since_epoch, playlist_type) = match params {
        None => {
            assert(outcome == text_view(None));
            return None;
        },
        Some(Err(err)) => {
            let res = Some(Err(err));
            assert(outcome == text_view(res));
            return res;
        },
        Some(Ok(p)) => p,
    };
    let duration = fragment.duration as i64;
    if duration == 0 {
        assert(outcome == text_view(None));
        return None;
    }
    let span = match end_since_epoch.checked_sub(start_since_epoch) {
        Some(d) => match d.checked_add(duration) {
            Some(v) => v,
            None => {
                assert(outcome == text_view(None));
                return None;
            },
        },
        None => {
            assert(outcome == text_view(None));
            return None;
        },
    };
    proof {
        lemma_tdiv_bounds(span - 1, duration as int);
        lemma_tdiv_bounds(start_since_epoch as int, duration as int);
    }
    let needed = (span - 1) / duration;
    let fragment_count = if needed < MAX_VOD_FRAGMENT_COUNT { needed } else { MAX_VOD_FRAGMENT_COUNT };
    let sequence = start_since_epoch / duration;
    let pdt_millis = match sequence.checked_mul(duration) {
        Some(m) => m,
        None => {
            assert(outcome == text_view(None));
            return None;
        },
    };
    let pdt = match rfc3339_from_millis(pdt_millis) {
        Some(text) => text,
        None => {
            assert(outcome == text_view(None));
            return None;
        },
    };
    if fragment_count > 0 && sequence > i64::MAX - (fragment_count - 1) {
        assert(outcome == text_view(None));
        return None;
    }
    let mut args: Vec<String> = Vec::new();
    args.push(format_i64(sequence));
    args.push(String::from_str(playlist_type));
    args.push(pdt);
    args.push(bool_string(is_vtt));
    assert(texts(args@) =~= seq![decimal_int(sequence as int), playlist_type@, rfc3339_text(pdt_millis).unwrap(), bool_text(is_vtt)]);
    let mut text = fill_template(template, args.as_slice());
    let fragments = match create_fragment_list(sequence, fragment_count, extinf) {
        Ok(list) => list,
        Err(err) => return Some(Err(err)),
    };
    text.append(fragments.as_str());
    if query.end.is_some() {
        text.append("#EXT-X-ENDLIST\r\n");
    }
    let res = Some(Ok(text));
    assert(playlist_parameters_spec(spec_start, spec_end, ts, now) == Some(Ok::<(int, int, Seq<char>), (u16, Seq<char>)>((start_since_epoch as int, end_since_epoch as int, playlist_type@))));
    assert(fragment_count == vod_fragment_count(start_since_epoch as int, end_since_epoch as int, dur));
    proof {
        if query.end.is_some() {
            assert(playlist_type@ == "VOD"@);
        } else {
            assert(playlist_type@ == "EVENT"@);
            assert("EVENT"@.len() != "VOD"@.len());
        }
    }
    assert((playlist_type@ == "VOD"@) == query.end.is_some());
    assert(vod_manifest_spec(template@, extinf@, is_vtt, dur, start_since_epoch as int, end_since_epoch as int, playlist_type@) == Some(text@));
    assert(outcome == text_view(res));
    res
}


/// The playlist of the stretch that `query` asks for (a closed stretch, or
/// one that runs until now), or `None` where it cannot be computed.
pub fn build_vod_manifest(query: &Query, fragment: &FragmentParams, is_vtt: bool, template: &str, extinf: &str) -> (res: Option<Result<String, ApiError>>)
    ensures
        exists|reading: Option<u128>|
            #[trigger] vod_outcome(
                optional_text(query.start),
                optional_text(query.end),
                clock_in_timescale(reading, fragment.timescale as int),
                template@,
                extinf@,
                is_vtt,
                fragment.duration as int,
                fragment.timescale as int,
            ) == text_view(res),
        query.end is Some ==> text_view(res) == vod_outcome(
            optional_text(query.start),
            optional_text(query.end),
            None,
            template@,
            extinf@,
            is_vtt,
            fragment.duration as int,
            fragment.timescale as int,
        ),
{
    let ghost ts = fragment.timescale as int;
    let now = if query.start.is_some() && query.end.is_none() {
        now_in_timescale(fragment.timescale as i64)
    } else {
        None
    };
    let ghost reading = choose|r: Option<u128>| now == #[trigger] clock_in_timescale(r, ts);
    proof {
        if !(query.start.is_some() && query.end.is_none()) {
            assert(now == clock_in_timescale(None, ts));
        }
    }
    assert(now == clock_in_timescale(reading, ts));
    let res = vod_manifest_at(query, fragment, now, is_vtt, template, extinf);
    assert(vod_outcome(
        optional_text(query.start),
        optional_text(query.end),
        clock_in_timescale(reading, ts),
        template@,
        extinf@,
        is_vtt,
        fragment.duration as int,
        ts,
    ) == text_view(res));
    res
}

} // verus!

verus! {

/// A list of fragments in a row is the list of its first `a` fragments
/// followed by the list of the `b` fragments after them.
pub proof fn lemma_fragment_list_split(sequence: int, a: int, b: int, extinf: Seq<char>)
    requires
        a >= 0,
        b >= 0,
    ensures
        fragment_list(sequence, a + b, extinf) == fragment_list(sequence, a, extinf) + fragment_list(
            sequence + a,
            b,
            extinf,
        ),
    decreases b,
{
    if b == 0 {
        assert(fragment_list(sequence, a, extinf) + fragment_list(sequence + a, 0, extinf) =~= fragment_list(
            sequence,
            a,
            extinf,
        ));
    } else {
        lemma_fragment_list_split(sequence, a, b - 1, extinf);
        assert(fragment_list(sequence, a, extinf) + fragment_list(sequence + a, b, extinf) =~= (fragment_list(
            sequence,
            a,
            extinf,
        ) + fragment_list(sequence + a, b - 1, extinf)) + fragment_entry(extinf, sequence + a + b - 1));
    }
}

/// The playlist of a stretch lists enough fragments to cover it, and no
/// more, unless that would be more than `MAX_VOD_FRAGMENT_COUNT`; then it
/// lists that many.
pub proof fn lemma_vod_fragments_cover_stretch(start: int, end: int, duration: int)
    requires
        duration > 0,
        start <= end,
    ensures
        ({
            let count = vod_fragment_count(start, end, duration);
            &&& 0 <= count <= MAX_VOD_FRAGMENT_COUNT
            &&& (count - 1) * duration < end - start
            &&& count < MAX_VOD_FRAGMENT_COUNT ==> count * duration >= end - start
        }),
{
    let span = end - start + duration - 1;
    lemma_tdiv_bounds(span, duration);
    let needed = tdiv(span, duration);
    assert(needed == span / duration);
    vstd::arithmetic::div_mod::lemma_fundamental_div_mod(span, duration);
    vstd::arithmetic::div_mod::lemma_mod_pos_bound(span, duration);
    assert(needed * duration == duration * needed) by (nonlinear_arith);
    assert((needed - 1) * duration == needed * duration - duration) by (nonlinear_arith);
    if needed >= MAX_VOD_FRAGMENT_COUNT {
        assert((MAX_VOD_FRAGMENT_COUNT - 1) * duration <= (needed - 1) * duration) by (nonlinear_arith)
            requires needed >= MAX_VOD_FRAGMENT_COUNT, duration > 0;
    }
}

} // verus!

verus! {

/// The playlist of a stretch lists, from the fragment in which the stretch
/// starts on, the number `count` of fragments that covers the stretch
/// (`count * duration >= end - start`) with none to spare
/// (`(count - 1) * duration < end - start`), or `MAX_VOD_FRAGMENT_COUNT`
/// fragments where the stretch needs more.
pub proof fn lemma_vod_playlist_lists_covering_fragments(
    template: Seq<char>,
    extinf: Seq<char>,
    is_vtt: bool,
    duration: int,
    start: int,
    end: int,
    playlist_type: Seq<char>,
    count: int,
)
    requires
        duration > 0,
        start <= end,
        0 <= count <= MAX_VOD_FRAGMENT_COUNT,
        (count - 1) * duration < end - start,
        count < MAX_VOD_FRAGMENT_COUNT ==> count * duration >= end - start,
        vod_manifest_spec(template, extinf, is_vtt, duration, start, end, playlist_type) is Some,
    ensures
        ({
            let first = tdiv(start, duration);
            let header = fill(
                template,
                seq![
                    decimal_int(first),
                    playlist_type,
                    rfc3339_text((first * duration) as i64).unwrap(),
                    bool_text(is_vtt),
                ],
            );
            let tail = if playlist_type == "VOD"@ { "#EXT-X-ENDLIST\r\n"@ } else { Seq::<char>::empty() };
            vod_manifest_spec(template, extinf, is_vtt, duration, start, end, playlist_type).unwrap() == header
                + fragment_list(first, count, extinf) + tail
        }),
{
    lemma_vod_fragments_cover_stretch(start, end, duration);
    let c = vod_fragment_count(start, end, duration);
    if count < c {
        assert(count * duration <= (c - 1) * duration) by (nonlinear_arith)
            requires count <= c - 1, duration > 0;
    } else if c < count {
        assert(c * duration <= (count - 1) * duration) by (nonlinear_arith)
            requires c <= count - 1, duration > 0;
    }
    assert(c == count);
}

/// Every fragment that the live playlist at `end` lists (where `end` is not
/// before the epoch) has been played to its end by then: fragment `n` spans
/// `n * duration .. (n + 1) * duration`, the span that its patched decode
/// time starts.
pub proof fn lemma_live_fragments_have_elapsed(end: int, duration: int, n: int)
    requires
        duration > 0,
        end >= 0,
        live_sequence(end, duration) <= n < live_sequence(end, duration) + LIVE_FRAGMENT_COUNT,
    ensures
        (n + 1) * duration <= end,
{
    lemma_tdiv_bounds(end, duration);
    let q = tdiv(end, duration);
    assert(n + 1 <= q);
    assert((n + 1) * duration <= q * duration) by (nonlinear_arith)
        requires n + 1 <= q, duration > 0;
}

} // verus!

verus! {

/// The live playlist depends on the time only through its first sequence
/// number: two times at which the same fragments are listed give the same
/// playlist, date included.
pub proof fn lemma_live_playlist_follows_sequence(template: Seq<char>, extinf: Seq<char>, is_vtt: bool, end1: int, end2: int, duration: int, timescale: int)
    requires
        live_sequence(end1, duration) == live_sequence(end2, duration),
    ensures
        live_manifest_defined(end1, duration, timescale) == live_manifest_defined(end2, duration, timescale),
        live_manifest_text(template, extinf, is_vtt, end1, duration, timescale) == live_manifest_text(
            template,
            extinf,
            is_vtt,
            end2,
            duration,
            timescale,
        ),
{
}

/// The date in the live playlist is the time, in whole milliseconds since
/// the epoch, at which its first fragment starts: fragment `n` starts
/// `n * duration` units of `timescale` after the epoch, and `millis` is that
/// time rounded down.
pub proof fn lemma_live_date_is_first_fragment_start(template: Seq<char>, extinf: Seq<char>, is_vtt: bool, end: int, duration: int, timescale: int, millis: int)
    requires
        duration > 0,
        timescale > 0,
        live_sequence(end, duration) >= 0,
        millis * timescale <= live_sequence(end, duration) * duration * 1000 < (millis + 1) * timescale,
    ensures
        live_manifest_text(template, extinf, is_vtt, end, duration, timescale) == fill(
            template,
            seq![
                decimal_int(live_sequence(end, duration)),
                rfc3339_text(millis as i64).unwrap(),
                map_line(is_vtt),
            ],
        ) + fragment_list(live_sequence(end, duration), LIVE_FRAGMENT_COUNT as int, extinf),
{
    let n = live_sequence(end, duration);
    let x = n * duration * 1000;
    assert(x >= 0) by (nonlinear_arith)
        requires n >= 0, duration > 0, x == n * duration * 1000;
    let q = x / timescale;
    assert(live_pdt_millis(n, duration, timescale) == q);
    vstd::arithmetic::div_mod::lemma_fundamental_div_mod(x, timescale);
    vstd::arithmetic::div_mod::lemma_mod_pos_bound(x, timescale);
    assert(q * timescale <= x < (q + 1) * timescale) by (nonlinear_arith)
        requires x == timescale * q + x % timescale, 0 <= x % timescale < timescale;
    if millis < q {
        assert((millis + 1) * timescale <= q * timescale) by (nonlinear_arith)
            requires millis + 1 <= q, timescale > 0;
    } else if q < millis {
        assert((q + 1) * timescale <= millis * timescale) by (nonlinear_arith)
            requires q + 1 <= millis, timescale > 0;
    }
    assert(millis == q);
}

} // verus!
