use vstd::prelude::*;
use crate::api_error::{ApiError, is_api_error};
use crate::arith::fits_i64;
use vstd::string::StringSliceAdditionalSpecFns;
use crate::bytes::{be_u16_at, be_u32_at, be_u64_at, read_be_u16, read_be_u32, read_be_u64, write_be_u32, write_be_u64, write_bytes, u32_be_bytes, u64_be_bytes, lemma_u32_round_trip, lemma_u64_round_trip};

verus! {

/// What can go wrong while reading the boxes of an MP4 blob.
#[derive(Clone, Copy, Debug, PartialEq, Eq, Structural)]
pub enum Mp4Error {
    BoxNotFound,
    MalformedBox,
    InvalidTfdtVersion,
    NoSegments,
}

/// The message that reports each error.
pub open spec fn mp4_error_message(e: Mp4Error) -> Seq<char> {
    match e {
        Mp4Error::BoxNotFound => "box not found"@,
        Mp4Error::MalformedBox => "malformed box"@,
        Mp4Error::InvalidTfdtVersion => "Invalid tfdt version"@,
        Mp4Error::NoSegments => "No segments in SIDX box"@,
    }
}

/// Every MP4 error is answered as an internal server error with its message.
pub fn mp4_error(e: Mp4Error) -> (res: ApiError)
    ensures
        is_api_error(res, 500, mp4_error_message(e)),
{
    match e {
        Mp4Error::BoxNotFound => ApiError::new(500, "box not found"),
        Mp4Error::MalformedBox => ApiError::new(500, "malformed box"),
        Mp4Error::InvalidTfdtVersion => ApiError::new(500, "Invalid tfdt version"),
        Mp4Error::NoSegments => ApiError::new(500, "No segments in SIDX box"),
    }
}

/// A path such as `/moof/traf/tfdt` names a box by the four-letter types of
/// the boxes that lead to it. Its text is cut at byte positions, which must
/// fall on character boundaries: `i` is one unless it lies inside the UTF-8
/// encoding of a character.
pub open spec fn is_boundary(p: Seq<u8>, i: int) -> bool {
    i == p.len() || (0 <= i < p.len() && !(0x80 <= p[i] && p[i] < 0xC0))
}

/// The size recorded in the header of the box at `offset` (the 32-bit size,
/// or, where that is 1, the 64-bit size that follows the type).
pub open spec fn box_size(blob: Seq<u8>, offset: int) -> int {
    if be_u32_at(blob, offset) == 1 {
        be_u64_at(blob, offset + 8)
    } else {
        be_u32_at(blob, offset)
    }
}

/// The length of the header of the box at `offset`.
pub open spec fn box_header_size(blob: Seq<u8>, offset: int) -> int {
    if be_u32_at(blob, offset) == 1 {
        16
    } else {
        8
    }
}

pub open spec fn search_measure(blob: Seq<u8>, offset: int) -> int {
    if offset <= blob.len() {
        blob.len() - offset + 1
    } else {
        0
    }
}

/// The search for the box named by `path` among the boxes that start at
/// `offset` and follow each other in `blob`.
/// `Some(Ok((start, end)))`: the box was found and spans `start..end`.
/// `Some(Err(e))`: the search reports `e`.
/// `None`: the search does not come to an answer (it would read past the blob,
/// step by a box of size 0 forever, compute past `usize`, or cut the path
/// inside a character).
pub open spec fn box_search(blob: Seq<u8>, path: Seq<u8>, offset: int) -> Option<Result<(int, int), Mp4Error>>
    decreases search_measure(blob, offset),
{
    if path.len() < 5 {
        Some(Err(Mp4Error::BoxNotFound))
    } else if offset < 0 || offset > blob.len() {
        None
    } else if blob.len() - offset < 8 {
        Some(Err(Mp4Error::BoxNotFound))
    } else if !is_boundary(path, 1) || !is_boundary(path, 5) {
        None
    } else if be_u32_at(blob, offset) == 1 && blob.len() - offset < 16 {
        Some(Err(Mp4Error::MalformedBox))
    } else {
        let size = box_size(blob, offset);
        let next = offset + box_header_size(blob, offset);
        if path.subrange(1, 5) == blob.subrange(offset + 4, offset + 8) {
            if path.len() > 5 {
                if next > usize::MAX {
                    None
                } else {
                    box_search(blob, path.subrange(5, path.len() as int), next)
                }
            } else if offset + size > usize::MAX {
                None
            } else {
                Some(Ok((offset, offset + size)))
            }
        } else if size == 0 || offset + size > usize::MAX {
            None
        } else {
            box_search(blob, path, offset + size)
        }
    }
}

/// `r` is the answer that `outcome` describes.
pub open spec fn range_matches(r: Result<core::ops::Range<usize>, Mp4Error>, outcome: Result<(int, int), Mp4Error>) -> bool {
    match outcome {
        Ok((start, end)) => r matches Ok(range) && range.start == start && range.end == end,
        Err(e) => r == Err::<core::ops::Range<usize>, Mp4Error>(e),
    }
}

/// `r` is the answer that `outcome` describes, where there is one.
pub open spec fn search_matches(r: Option<Result<core::ops::Range<usize>, Mp4Error>>, outcome: Option<Result<(int, int), Mp4Error>>) -> bool {
    match outcome {
        None => r is None,
        Some(o) => r matches Some(found) && range_matches(found, o),
    }
}

fn find_box(blob: &[u8], path: &[u8], pos: usize, offset: usize) -> (res: Option<Result<core::ops::Range<usize>, Mp4Error>>)
    requires
        pos <= path@.len(),
    ensures
        search_matches(res, box_search(blob@, path@.subrange(pos as int, path@.len() as int), offset as int)),
    decreases search_measure(blob@, offset as int),
{
    let ghost p = path@.subrange(pos as int, path@.len() as int);
    let plen = path.len() - pos;
    if plen < 5 {
        return Some(Err(Mp4Error::BoxNotFound));
    }
    if offset > blob.len() {
        return None;
    }
    if blob.len() - offset < 8 {
        return Some(Err(Mp4Error::BoxNotFound));
    }
    let boundary_1 = !(0x80 <= path[pos + 1] && path[pos + 1] < 0xC0);
    let boundary_5 = plen == 5 || !(0x80 <= path[pos + 5] && path[pos + 5] < 0xC0);
    if !boundary_1 || !boundary_5 {
        return None;
    }
    let found = path[pos + 1] == blob[offset + 4] && path[pos + 2] == blob[offset + 5]
        && path[pos + 3] == blob[offset + 6] && path[pos + 4] == blob[offset + 7];
    assert(found <==> p.subrange(1, 5) =~= blob@.subrange(offset + 4, offset + 8)) by {
        if p.subrange(1, 5) =~= blob@.subrange(offset + 4, offset + 8) {
            assert(p.subrange(1, 5)[0] == blob@[offset + 4]);
            assert(p.subrange(1, 5)[1] == blob@[offset + 5]);
            assert(p.subrange(1, 5)[2] == blob@[offset + 6]);
            assert(p.subrange(1, 5)[3] == blob@[offset + 7]);
        }
    }
    let size32 = read_be_u32(blob, offset);
    let mut header: usize = 8;
    let mut size: u64 = size32 as u64;
    if size32 == 1 {
        if blob.len() - offset < 16 {
            return Some(Err(Mp4Error::MalformedBox));
        }
        header = 16;
        size = read_be_u64(blob, offset + 8);
    }
    assert(size as int == box_size(blob@, offset as int));
    assert(header as int == box_header_size(blob@, offset as int));
    let room = (usize::MAX - offset) as u64;
    if found {
        if plen > 5 {
            if header > usize::MAX - offset {
                return None;
            }
            assert(path@.subrange(pos + 5, path@.len() as int) =~= p.subrange(5, p.len() as int));
            return find_box(blob, path, pos + 5, offset + header);
        }
        if size > room {
            return None;
        }
        return Some(Ok(core::ops::Range { start: offset, end: offset + size as usize }));
    }
    if size == 0 || size > room {
        return None;
    }
    find_box(blob, path, pos, offset + size as usize)
}

/// Searches `blob` for the box named by `path`, from `offset` on.
fn locate(blob: &[u8], path: &str, offset: usize) -> (res: Option<Result<core::ops::Range<usize>, Mp4Error>>)
    ensures
        search_matches(res, box_search(blob@, path.spec_bytes(), offset as int)),
{
    let p = path.as_bytes();
    assert(p@.subrange(0, p@.len() as int) =~= p@);
    find_box(blob, p, 0, offset)
}

} // verus!

verus! {

/// The bytes of an ASCII text.
pub open spec fn ascii_bytes(s: Seq<char>) -> Seq<u8> {
    Seq::new(s.len(), |i: int| s[i] as u8)
}

/// `res` reports `outcome` as the library answers it to its callers.
pub open spec fn box_range_reported(res: Result<core::ops::Range<usize>, ApiError>, outcome: Result<(int, int), Mp4Error>) -> bool {
    match outcome {
        Ok((start, end)) => res matches Ok(range) && range.start == start && range.end == end,
        Err(e) => res matches Err(err) && is_api_error(err, 500, mp4_error_message(e)),
    }
}

/// Finds the box named by `path` (such as `/moof/traf/tfdt`) among the boxes
/// that follow each other in `blob` from `blob_offset` on, and returns the
/// byte range that the box spans.
pub fn get_box_range(blob: &[u8], path: &str, blob_offset: usize) -> (res: Result<core::ops::Range<usize>, ApiError>)
    requires
        box_search(blob@, path.spec_bytes(), blob_offset as int) is Some,
    ensures
        box_range_reported(res, box_search(blob@, path.spec_bytes(), blob_offset as int).unwrap()),
{
    match locate(blob, path, blob_offset) {
        Some(Ok(range)) => Ok(range),
        Some(Err(e)) => Err(mp4_error(e)),
        None => Err(mp4_error(Mp4Error::BoxNotFound)),
    }
}

pub open spec fn mfhd_path() -> Seq<u8> {
    ascii_bytes("/moof/mfhd"@)
}

pub open spec fn tfdt_path() -> Seq<u8> {
    ascii_bytes("/moof/traf/tfdt"@)
}

pub open spec fn mdhd_path() -> Seq<u8> {
    ascii_bytes("/moov/trak/mdia/mdhd"@)
}

pub open spec fn sidx_path() -> Seq<u8> {
    ascii_bytes("/sidx"@)
}

/// The second step of patching: the decode time written into the tfdt box of
/// `blob`, whose mfhd box already holds the sequence number.
pub open spec fn patch_decode_time(blob: Seq<u8>, sequence: i64, duration: i64) -> Option<(Seq<u8>, Result<(), Mp4Error>)> {
    match box_search(blob, tfdt_path(), 0) {
        None => None,
        Some(Err(e)) => Some((blob, Err(e))),
        Some(Ok((start, end))) => {
            if end > blob.len() || end - start < 9 {
                None
            } else if blob[start + 8] == 0 {
                if end - start < 16 || !fits_i64(sequence * duration) {
                    None
                } else {
                    Some((write_bytes(blob, start + 12, u32_be_bytes((sequence * duration) as u32)), Ok(())))
                }
            } else if blob[start + 8] == 1 {
                if end - start < 20 || !fits_i64(sequence * duration) {
                    None
                } else {
                    Some((write_bytes(blob, start + 12, u64_be_bytes((sequence * duration) as u64)), Ok(())))
                }
            } else {
                Some((blob, Err(Mp4Error::InvalidTfdtVersion)))
            }
        },
    }
}

/// Patching a fragment: the sequence number goes into its mfhd box, then the
/// decode time (sequence times duration) into its tfdt box, in the 32-bit or
/// the 64-bit field that the box's version selects. The result is the blob
/// after the writes that took place, and whether patching succeeded.
/// `None`: patching does not come to an answer (a search does not, or a box
/// is too short for the field that is written or read).
pub open spec fn patch_outcome(blob: Seq<u8>, sequence: i64, duration: i64) -> Option<(Seq<u8>, Result<(), Mp4Error>)> {
    match box_search(blob, mfhd_path(), 0) {
        None => None,
        Some(Err(e)) => Some((blob, Err(e))),
        Some(Ok((start, end))) => {
            if end > blob.len() || end - start < 16 {
                None
            } else {
                patch_decode_time(write_bytes(blob, start + 12, u32_be_bytes(sequence as u32)), sequence, duration)
            }
        },
    }
}

proof fn lemma_path_bytes(s: &str)
    requires
        vstd::string::is_ascii(s),
    ensures
        s.spec_bytes() == ascii_bytes(s@),
{
    broadcast use vstd::string::is_ascii_spec_bytes;
    assert(s.spec_bytes() =~= ascii_bytes(s@));
}

/// `res` reports the answer that `outcome` describes.
pub open spec fn patch_reported(res: Result<(), ApiError>, outcome: Result<(), Mp4Error>) -> bool {
    match outcome {
        Ok(()) => res is Ok,
        Err(e) => res matches Err(err) && is_api_error(err, 500, mp4_error_message(e)),
    }
}

/// Patches a fragment as `patch_fragment` does, and answers `None` where
/// patching comes to no answer.
pub fn try_patch_fragment(blob: &mut [u8], sequence: i64, duration: i64) -> (res: Option<Result<(), ApiError>>)
    ensures
        res is None <==> patch_outcome(old(blob)@, sequence, duration) is None,
        res matches Some(answer) ==> {
            &&& final(blob)@ == patch_outcome(old(blob)@, sequence, duration).unwrap().0
            &&& patch_reported(answer, patch_outcome(old(blob)@, sequence, duration).unwrap().1)
        },
{
    proof {
        reveal_strlit("/moof/mfhd");
        reveal_strlit("/moof/traf/tfdt");
        lemma_path_bytes("/moof/mfhd");
        lemma_path_bytes("/moof/traf/tfdt");
    }
    let len = blob.len();
    let mfhd = match locate(blob, "/moof/mfhd", 0) {
        None => return None,
        Some(Err(e)) => return Some(Err(mp4_error(e))),
        Some(Ok(range)) => range,
    };
    proof {
        lemma_found_box_has_named_type(blob@, mfhd_path(), 0);
    }
    if mfhd.end > len || mfhd.end - mfhd.start < 16 {
        return None;
    }
    write_be_u32(blob, mfhd.start + 12, #[verifier::truncate] (sequence as u32));
    let tfdt = match locate(blob, "/moof/traf/tfdt", 0) {
        None => return None,
        Some(Err(e)) => return Some(Err(mp4_error(e))),
        Some(Ok(range)) => range,
    };
    proof {
        lemma_found_box_has_named_type(blob@, tfdt_path(), 0);
    }
    if tfdt.end > len || tfdt.end - tfdt.start < 9 {
        return None;
    }
    let version = blob[tfdt.start + 8];
    if version == 0 {
        if tfdt.end - tfdt.start < 16 {
            return None;
        }
        let time = match sequence.checked_mul(duration) {
            Some(time) => time,
            None => return None,
        };
        write_be_u32(blob, tfdt.start + 12, #[verifier::truncate] (time as u32));
    } else if version == 1 {
        if tfdt.end - tfdt.start < 20 {
            return None;
        }
        let time = match sequence.checked_mul(duration) {
            Some(time) => time,
            None => return None,
        };
        write_be_u64(blob, tfdt.start + 12, #[verifier::truncate] (time as u64));
    } else {
        return Some(Err(mp4_error(Mp4Error::InvalidTfdtVersion)));
    }
    Some(Ok(()))
}

/// Writes the sequence number and the decode time of a fragment into its
/// mfhd and tfdt boxes, and gives the patched blob back.
pub fn patch_fragment(blob: &mut [u8], sequence: i64, duration: i64) -> (res: Result<&[u8], ApiError>)
    requires
        patch_outcome(old(blob)@, sequence, duration) is Some,
    ensures
        final(blob)@ == patch_outcome(old(blob)@, sequence, duration).unwrap().0,
        match patch_outcome(old(blob)@, sequence, duration).unwrap().1 {
            Ok(()) => res matches Ok(patched) && patched@ == final(blob)@,
            Err(e) => res matches Err(err) && is_api_error(err, 500, mp4_error_message(e)),
        },
{
    match try_patch_fragment(blob, sequence, duration) {
        Some(Ok(())) => Ok(blob),
        Some(Err(err)) => Err(err),
        None => Err(mp4_error(Mp4Error::BoxNotFound)),
    }
}

} // verus!

verus! {

/// Reading the timescale of a track from the mdhd box of its init segment: a
/// 32-bit number 20 bytes into the box (28 bytes for a version 1 box).
pub open spec fn timescale_outcome(blob: Seq<u8>) -> Option<Result<int, Mp4Error>> {
    match box_search(blob, mdhd_path(), 0) {
        None => None,
        Some(Err(e)) => Some(Err(e)),
        Some(Ok((start, end))) => {
            if end > blob.len() || end - start < 9 {
                None
            } else {
                let field = if blob[start + 8] == 1 { 28int } else { 20int };
                if end - start < field + 4 {
                    None
                } else {
                    Some(Ok(be_u32_at(blob, start + field)))
                }
            }
        },
    }
}

/// Reading the duration of a fragment from its sidx box: the reference count
/// stands 30 bytes into the box (38 for a version 1 box); when it is not 0,
/// the duration of the first segment reference follows 6 bytes later.
pub open spec fn duration_outcome(blob: Seq<u8>) -> Option<Result<int, Mp4Error>> {
    match box_search(blob, sidx_path(), 0) {
        None => None,
        Some(Err(e)) => Some(Err(e)),
        Some(Ok((start, end))) => {
            if end > blob.len() || end - start < 9 {
                None
            } else {
                let count_field = if blob[start + 8] == 1 { 38int } else { 30int };
                if end - start < count_field + 2 {
                    None
                } else if be_u16_at(blob, start + count_field) == 0 {
                    Some(Err(Mp4Error::NoSegments))
                } else if end - start < count_field + 14 {
                    None
                } else {
                    Some(Ok(be_u32_at(blob, start + count_field + 6)))
                }
            }
        },
    }
}

/// `res` reports the number that `outcome` describes.
pub open spec fn number_reported(res: Result<u32, ApiError>, outcome: Result<int, Mp4Error>) -> bool {
    match outcome {
        Ok(v) => res matches Ok(n) && n as int == v,
        Err(e) => res matches Err(err) && is_api_error(err, 500, mp4_error_message(e)),
    }
}

/// `res` reports the number that `outcome` describes, where there is one.
pub open spec fn number_search_reported(res: Option<Result<u32, ApiError>>, outcome: Option<Result<int, Mp4Error>>) -> bool {
    match outcome {
        None => res is None,
        Some(o) => res matches Some(answer) && number_reported(answer, o),
    }
}

/// Reads the timescale as `get_timescale` does, and answers `None` where
/// reading comes to no answer.
pub fn try_get_timescale(blob: &[u8]) -> (res: Option<Result<u32, ApiError>>)
    ensures
        number_search_reported(res, timescale_outcome(blob@)),
{
    proof {
        reveal_strlit("/moov/trak/mdia/mdhd");
        lemma_path_bytes("/moov/trak/mdia/mdhd");
    }
    let len = blob.len();
    let mdhd = match locate(blob, "/moov/trak/mdia/mdhd", 0) {
        None => return None,
        Some(Err(e)) => return Some(Err(mp4_error(e))),
        Some(Ok(range)) => range,
    };
    proof {
        lemma_found_box_has_named_type(blob@, mdhd_path(), 0);
    }
    if mdhd.end > len || mdhd.end - mdhd.start < 9 {
        return None;
    }
    let version = blob[mdhd.start + 8];
    let field: usize = if version == 1 { 12 + 16 } else { 12 + 8 };
    if mdhd.end - mdhd.start < field + 4 {
        return None;
    }
    Some(Ok(read_be_u32(blob, mdhd.start + field)))
}

/// The timescale (units per second) of the track that `blob`, an init
/// segment, describes.
pub fn get_timescale(blob: &[u8]) -> (res: Result<u32, ApiError>)
    requires
        timescale_outcome(blob@) is Some,
    ensures
        number_reported(res, timescale_outcome(blob@).unwrap()),
{
    match try_get_timescale(blob) {
        Some(answer) => answer,
        None => Err(mp4_error(Mp4Error::BoxNotFound)),
    }
}

/// Reads the duration as `get_fragment_duration` does, and answers `None`
/// where reading comes to no answer.
pub fn try_get_fragment_duration(blob: &[u8]) -> (res: Option<Result<u32, ApiError>>)
    ensures
        number_search_reported(res, duration_outcome(blob@)),
{
    proof {
        reveal_strlit("/sidx");
        lemma_path_bytes("/sidx");
    }
    let len = blob.len();
    let sidx = match locate(blob, "/sidx", 0) {
        None => return None,
        Some(Err(e)) => return Some(Err(mp4_error(e))),
        Some(Ok(range)) => range,
    };
    proof {
        lemma_found_box_has_named_type(blob@, sidx_path(), 0);
    }
    if sidx.end > len || sidx.end - sidx.start < 9 {
        return None;
    }
    let version = blob[sidx.start + 8];
    let count_field: usize = if version == 1 { 12 + 8 + 16 + 2 } else { 12 + 8 + 8 + 2 };
    if sidx.end - sidx.start < count_field + 2 {
        return None;
    }
    let reference_count = read_be_u16(blob, sidx.start + count_field);
    if reference_count == 0 {
        return Some(Err(mp4_error(Mp4Error::NoSegments)));
    }
    if sidx.end - sidx.start < count_field + 14 {
        return None;
    }
    let reference = sidx.start + count_field + 2;
    Some(Ok(read_be_u32(blob, reference + 4)))
}

/// The duration, in timescale units, of the fragment `blob`, as its segment
/// index records it.
pub fn get_fragment_duration(blob: &[u8]) -> (res: Result<u32, ApiError>)
    requires
        duration_outcome(blob@) is Some,
    ensures
        number_reported(res, duration_outcome(blob@).unwrap()),
{
    match try_get_fragment_duration(blob) {
        Some(answer) => answer,
        None => Err(mp4_error(Mp4Error::BoxNotFound)),
    }
}

} // verus!

verus! {

/// A box that the search finds lies in the blob past the place where the
/// search began, spans its recorded size, and has the type that the last
/// element of the path names.
pub proof fn lemma_found_box_has_named_type(blob: Seq<u8>, path: Seq<u8>, offset: int)
    requires
        box_search(blob, path, offset) matches Some(Ok(_)),
    ensures
        box_search(blob, path, offset) matches Some(Ok((start, end))) && {
            &&& offset <= start
            &&& start + 8 <= blob.len()
            &&& end == start + box_size(blob, start)
            &&& start <= end
            &&& path.len() >= 5
            &&& blob.subrange(start + 4, start + 8) == path.subrange(path.len() - 4, path.len() as int)
        },
    decreases search_measure(blob, offset),
{
    let size = box_size(blob, offset);
    let next = offset + box_header_size(blob, offset);
    if path.subrange(1, 5) == blob.subrange(offset + 4, offset + 8) {
        if path.len() > 5 {
            let rest = path.subrange(5, path.len() as int);
            lemma_found_box_has_named_type(blob, rest, next);
            assert(rest.subrange(rest.len() - 4, rest.len() as int) =~= path.subrange(path.len() - 4, path.len() as int));
        } else {
            assert(path.subrange(1, 5) =~= path.subrange(path.len() - 4, path.len() as int));
        }
    } else {
        lemma_found_box_has_named_type(blob, path, offset + size);
    }
}

/// What patching writes, a read gives back: the decode time stands in the
/// tfdt box of the patched fragment, and the sequence number in its mfhd box
/// (where the two fields do not overlap).
pub proof fn lemma_patch_read_back(blob: Seq<u8>, sequence: i64, duration: i64)
    requires
        patch_outcome(blob, sequence, duration) matches Some((_, Ok(()))),
    ensures
        box_search(blob, mfhd_path(), 0) matches Some(Ok((mfhd, _))) && {
            let after_mfhd = write_bytes(blob, mfhd + 12, u32_be_bytes(sequence as u32));
            let patched = patch_outcome(blob, sequence, duration).unwrap().0;
            &&& be_u32_at(after_mfhd, mfhd + 12) == sequence as u32
            &&& box_search(after_mfhd, tfdt_path(), 0) matches Some(Ok((tfdt, _))) && {
                let version = after_mfhd[tfdt + 8];
                let field_end = if version == 0 { tfdt + 16 } else { tfdt + 20 };
                &&& version == 0 ==> be_u32_at(patched, tfdt + 12) == (sequence * duration) as u32
                &&& version == 1 ==> be_u64_at(patched, tfdt + 12) == (sequence * duration) as u64
                &&& (field_end <= mfhd + 12 || mfhd + 16 <= tfdt + 12) ==> be_u32_at(patched, mfhd + 12)
                    == sequence as u32
            }
        },
{
    let (mfhd, mfhd_end) = box_search(blob, mfhd_path(), 0).unwrap().unwrap();
    let after_mfhd = write_bytes(blob, mfhd + 12, u32_be_bytes(sequence as u32));
    lemma_found_box_has_named_type(blob, mfhd_path(), 0);
    lemma_u32_round_trip(blob, mfhd + 12, sequence as u32);
    let (tfdt, tfdt_end) = box_search(after_mfhd, tfdt_path(), 0).unwrap().unwrap();
    lemma_found_box_has_named_type(after_mfhd, tfdt_path(), 0);
    let patched = patch_outcome(blob, sequence, duration).unwrap().0;
    let version = after_mfhd[tfdt + 8];
    if version == 0 {
        lemma_u32_round_trip(after_mfhd, tfdt + 12, (sequence * duration) as u32);
        if tfdt + 16 <= mfhd + 12 || mfhd + 16 <= tfdt + 12 {
            assert(patched[mfhd + 12] == after_mfhd[mfhd + 12]);
            assert(patched[mfhd + 13] == after_mfhd[mfhd + 13]);
            assert(patched[mfhd + 14] == after_mfhd[mfhd + 14]);
            assert(patched[mfhd + 15] == after_mfhd[mfhd + 15]);
        }
    } else {
        lemma_u64_round_trip(after_mfhd, tfdt + 12, (sequence * duration) as u64);
        if tfdt + 20 <= mfhd + 12 || mfhd + 16 <= tfdt + 12 {
            assert(patched[mfhd + 12] == after_mfhd[mfhd + 12]);
            assert(patched[mfhd + 13] == after_mfhd[mfhd + 13]);
            assert(patched[mfhd + 14] == after_mfhd[mfhd + 14]);
            assert(patched[mfhd + 15] == after_mfhd[mfhd + 15]);
        }
    }
}

} // verus!

verus! {

/// The length of the header that the search reads at `offset`.
pub open spec fn header_read_len(blob: Seq<u8>, offset: int) -> int {
    if be_u32_at(blob, offset) == 1 && blob.len() - offset >= 16 {
        16
    } else {
        8
    }
}

/// The search for `path` from `offset` reads no byte in `lo..hi`: every box
/// header it visits lies outside that range.
pub open spec fn search_avoids(blob: Seq<u8>, path: Seq<u8>, offset: int, lo: int, hi: int) -> bool
    decreases search_measure(blob, offset),
{
    if path.len() < 5 || offset < 0 || offset > blob.len() || blob.len() - offset < 8 || !is_boundary(path, 1)
        || !is_boundary(path, 5) {
        true
    } else {
        let disjoint = offset + header_read_len(blob, offset) <= lo || hi <= offset;
        if be_u32_at(blob, offset) == 1 && blob.len() - offset < 16 {
            disjoint
        } else {
            let size = box_size(blob, offset);
            let next = offset + box_header_size(blob, offset);
            disjoint && if path.subrange(1, 5) == blob.subrange(offset + 4, offset + 8) {
                if path.len() > 5 && next <= usize::MAX {
                    search_avoids(blob, path.subrange(5, path.len() as int), next, lo, hi)
                } else {
                    true
                }
            } else if size == 0 || offset + size > usize::MAX {
                true
            } else {
                search_avoids(blob, path, offset + size, lo, hi)
            }
        }
    }
}

/// Two blobs that differ only in `lo..hi` give the same search result, where
/// the search reads nothing there; and what the search avoids in one it
/// avoids in the other.
pub proof fn lemma_search_frame(b1: Seq<u8>, b2: Seq<u8>, path: Seq<u8>, offset: int, lo: int, hi: int, lo2: int, hi2: int)
    requires
        b1.len() == b2.len(),
        search_avoids(b1, path, offset, lo, hi),
        forall|i: int| 0 <= i < b1.len() && !(lo <= i < hi) ==> #[trigger] b1[i] == b2[i],
    ensures
        box_search(b2, path, offset) == box_search(b1, path, offset),
        search_avoids(b2, path, offset, lo, hi),
        search_avoids(b1, path, offset, lo2, hi2) ==> search_avoids(b2, path, offset, lo2, hi2),
    decreases search_measure(b1, offset),
{
    if path.len() < 5 || offset < 0 || offset > b1.len() || b1.len() - offset < 8 || !is_boundary(path, 1)
        || !is_boundary(path, 5) {
    } else {
        assert(b1[offset] == b2[offset]);
        assert(b1[offset + 1] == b2[offset + 1]);
        assert(b1[offset + 2] == b2[offset + 2]);
        assert(b1[offset + 3] == b2[offset + 3]);
        assert(b1[offset + 4] == b2[offset + 4]);
        assert(b1[offset + 5] == b2[offset + 5]);
        assert(b1[offset + 6] == b2[offset + 6]);
        assert(b1[offset + 7] == b2[offset + 7]);
        assert(b1.subrange(offset + 4, offset + 8) =~= b2.subrange(offset + 4, offset + 8));
        if be_u32_at(b1, offset) == 1 && b1.len() - offset >= 16 {
            assert(b1[offset + 8] == b2[offset + 8]);
            assert(b1[offset + 9] == b2[offset + 9]);
            assert(b1[offset + 10] == b2[offset + 10]);
            assert(b1[offset + 11] == b2[offset + 11]);
            assert(b1[offset + 12] == b2[offset + 12]);
            assert(b1[offset + 13] == b2[offset + 13]);
            assert(b1[offset + 14] == b2[offset + 14]);
            assert(b1[offset + 15] == b2[offset + 15]);
        }
        assert(box_header_size(b1, offset) == box_header_size(b2, offset));
        if be_u32_at(b1, offset) == 1 && b1.len() - offset < 16 {
        } else {
            assert(box_size(b1, offset) == box_size(b2, offset));
            let size = box_size(b1, offset);
            let next = offset + box_header_size(b1, offset);
            if path.subrange(1, 5) == b1.subrange(offset + 4, offset + 8) {
                if path.len() > 5 && next <= usize::MAX {
                    lemma_search_frame(b1, b2, path.subrange(5, path.len() as int), next, lo, hi, lo2, hi2);
                }
            } else if size == 0 || offset + size > usize::MAX {
            } else {
                lemma_search_frame(b1, b2, path, offset + size, lo, hi, lo2, hi2);
            }
        }
    }
}

} // verus!

verus! {

/// Patching `blob` with `sequence` writes its two fields where neither box
/// search reads, and the tfdt version byte lies outside the mfhd field.
/// (So it is for a fragment whose mfhd and tfdt boxes have plain 32-bit
/// sizes and hold the fields they are patched in.)
pub open spec fn patch_fields_apart(blob: Seq<u8>, sequence: i64) -> bool {
    box_search(blob, mfhd_path(), 0) matches Some(Ok((m, _))) && {
        let b1 = write_bytes(blob, m + 12, u32_be_bytes(sequence as u32));
        box_search(b1, tfdt_path(), 0) matches Some(Ok((t, _))) && {
            let w: int = if b1[t + 8] == 0 { 4 } else { 8 };
            &&& search_avoids(blob, mfhd_path(), 0, m + 12, m + 16)
            &&& search_avoids(blob, mfhd_path(), 0, t + 12, t + 12 + w)
            &&& search_avoids(b1, tfdt_path(), 0, m + 12, m + 16)
            &&& search_avoids(b1, tfdt_path(), 0, t + 12, t + 12 + w)
            &&& !(m + 12 <= t + 8 < m + 16)
        }
    }
}

/// A patched fragment can be patched again, and the last patch wins:
/// patching it for another sequence number and duration gives what patching
/// the unpatched fragment for those gives (in particular, patching twice
/// with the same numbers changes nothing more).
pub proof fn lemma_repatch(blob: Seq<u8>, first: i64, second: i64, first_duration: i64, second_duration: i64)
    requires
        patch_outcome(blob, first, first_duration) matches Some((_, Ok(()))),
        patch_fields_apart(blob, first),
    ensures
        patch_outcome(patch_outcome(blob, first, first_duration).unwrap().0, second, second_duration)
            == patch_outcome(blob, second, second_duration),
{
    let (m, e1) = box_search(blob, mfhd_path(), 0).unwrap().unwrap();
    let b1 = write_bytes(blob, m + 12, u32_be_bytes(first as u32));
    let (t, e2) = box_search(b1, tfdt_path(), 0).unwrap().unwrap();
    let version = b1[t + 8];
    let w: int = if version == 0 { 4 } else { 8 };
    let patched = patch_outcome(blob, first, first_duration).unwrap().0;
    lemma_found_box_has_named_type(blob, mfhd_path(), 0);
    lemma_found_box_has_named_type(b1, tfdt_path(), 0);
    // The mfhd search finds the same box in the patched fragment.
    lemma_search_frame(blob, b1, mfhd_path(), 0, m + 12, m + 16, t + 12, t + 12 + w);
    assert(patched.len() == blob.len());
    assert forall|i: int| 0 <= i < b1.len() && !(t + 12 <= i < t + 12 + w) implies #[trigger] b1[i] == patched[i] by {}
    lemma_search_frame(b1, patched, mfhd_path(), 0, t + 12, t + 12 + w, 0, 0);
    // The tfdt search finds the same box after the second sequence number is written.
    let c0 = write_bytes(blob, m + 12, u32_be_bytes(second as u32));
    let c1 = write_bytes(patched, m + 12, u32_be_bytes(second as u32));
    assert forall|i: int| 0 <= i < b1.len() && !(m + 12 <= i < m + 16) implies #[trigger] b1[i] == c0[i] by {}
    lemma_search_frame(b1, c0, tfdt_path(), 0, m + 12, m + 16, t + 12, t + 12 + w);
    assert forall|i: int| 0 <= i < c0.len() && !(t + 12 <= i < t + 12 + w) implies #[trigger] c0[i] == c1[i] by {}
    lemma_search_frame(c0, c1, tfdt_path(), 0, t + 12, t + 12 + w, 0, 0);
    assert(c0[t + 8] == b1[t + 8]);
    assert(c1[t + 8] == c0[t + 8]);
    if version == 0 {
        let bytes = u32_be_bytes((second * second_duration) as u32);
        assert(write_bytes(c1, t + 12, bytes) =~= write_bytes(c0, t + 12, bytes));
    } else {
        let bytes = u64_be_bytes((second * second_duration) as u64);
        assert(write_bytes(c1, t + 12, bytes) =~= write_bytes(c0, t + 12, bytes));
    }
}

} // verus!

verus! {

/// The timescale is the 32-bit big-endian field 20 bytes into the mdhd box
/// (28 bytes into a version 1 box), whatever the size of the box, wherever
/// the box holds that field.
pub proof fn lemma_timescale_field(blob: Seq<u8>, start: int, end: int)
    requires
        box_search(blob, mdhd_path(), 0) == Some(Ok::<(int, int), Mp4Error>((start, end))),
        end <= blob.len(),
        end - start >= 9,
    ensures
        blob[start + 8] != 1 && end - start >= 24 ==> timescale_outcome(blob) == Some(
            Ok::<int, Mp4Error>(blob[start + 20] * 16777216 + blob[start + 21] * 65536 + blob[start + 22] * 256
                + blob[start + 23]),
        ),
        blob[start + 8] == 1 && end - start >= 32 ==> timescale_outcome(blob) == Some(
            Ok::<int, Mp4Error>(blob[start + 28] * 16777216 + blob[start + 29] * 65536 + blob[start + 30] * 256
                + blob[start + 31]),
        ),
{
}

/// The duration of a fragment is the 32-bit big-endian field 36 bytes into
/// its sidx box (44 bytes into a version 1 box), the duration of the first
/// segment reference, where the reference count before it (30 or 38 bytes
/// in) is not 0; whatever the size of the box, wherever the box holds it.
pub proof fn lemma_duration_field(blob: Seq<u8>, start: int, end: int)
    requires
        box_search(blob, sidx_path(), 0) == Some(Ok::<(int, int), Mp4Error>((start, end))),
        end <= blob.len(),
        end - start >= 9,
    ensures
        blob[start + 8] != 1 && end - start >= 44 ==> duration_outcome(blob) == if blob[start + 30] == 0
            && blob[start + 31] == 0 {
            Some(Err::<int, Mp4Error>(Mp4Error::NoSegments))
        } else {
            Some(
                Ok::<int, Mp4Error>(blob[start + 36] * 16777216 + blob[start + 37] * 65536 + blob[start + 38]
                    * 256 + blob[start + 39]),
            )
        },
        blob[start + 8] == 1 && end - start >= 52 ==> duration_outcome(blob) == if blob[start + 38] == 0
            && blob[start + 39] == 0 {
            Some(Err::<int, Mp4Error>(Mp4Error::NoSegments))
        } else {
            Some(
                Ok::<int, Mp4Error>(blob[start + 44] * 16777216 + blob[start + 45] * 65536 + blob[start + 46]
                    * 256 + blob[start + 47]),
            )
        },
{
}

} // verus!
