use vstd::prelude::*;
use crate::api_error::{ApiError, is_api_error};
use crate::models::dimension::Dimension;
use crate::mp4utils::{
    Mp4Error, duration_outcome, get_fragment_duration, get_timescale, mp4_error_message,
    timescale_outcome, try_get_fragment_duration, try_get_timescale,
};

verus! {

/// One track of the stream: its init segment, the single fragment that is
/// played over and over, and what was read from them.
pub struct FragmentParams {
    pub init: Vec<u8>,
    pub fragment: Vec<u8>,
    /// Units of time per second.
    pub timescale: u32,
    /// The length of the fragment, in timescale units.
    pub duration: u32,
    pub dimension: Dimension,
    /// The number of samples (frames) in the fragment.
    pub sample_count: u32,
}

/// Reading a track: the timescale from its init segment, then the duration
/// from its fragment.
pub open spec fn fragment_params_outcome(init: Seq<u8>, fragment: Seq<u8>) -> Option<Result<(int, int), Mp4Error>> {
    match timescale_outcome(init) {
        None => None,
        Some(Err(e)) => Some(Err(e)),
        Some(Ok(timescale)) => match duration_outcome(fragment) {
            None => None,
            Some(Err(e)) => Some(Err(e)),
            Some(Ok(duration)) => Some(Ok((timescale, duration))),
        },
    }
}

/// The bitrate of a fragment of `len` bytes that lasts `duration` units of
/// `timescale`, in bits per second, as a `u32` keeps it.
pub open spec fn bitrate_spec(len: int, timescale: int, duration: int) -> u32 {
    ((len * 8 * timescale) / duration) as u32
}

/// The bitrate is the number of bits in the fragment, times the units per
/// second, divided by the fragment's length in units: its bits per second,
/// rounded down, wherever that number fits a `u32`.
pub proof fn lemma_bitrate_is_bits_per_second(len: int, timescale: int, duration: int)
    requires
        len >= 0,
        timescale >= 0,
        duration > 0,
    ensures
        (len * 8 * timescale) / duration <= u32::MAX ==> bitrate_spec(len, timescale, duration) as int == (len
            * 8 * timescale) / duration,
{
}

impl FragmentParams {
    /// Reads the timescale and the duration of a track from its init
    /// segment and its fragment; the dimension and the number of samples
    /// are given.
    pub fn new(init: Vec<u8>, fragment: Vec<u8>, dimension: Dimension, sample_count: u32) -> (res: Result<FragmentParams, ApiError>)
        requires
            fragment_params_outcome(init@, fragment@) is Some,
        ensures
            match fragment_params_outcome(init@, fragment@).unwrap() {
                Ok((timescale, duration)) => res matches Ok(params) && {
                    &&& params.init@ == init@
                    &&& params.fragment@ == fragment@
                    &&& params.timescale == timescale
                    &&& params.duration == duration
                    &&& params.dimension == dimension
                    &&& params.sample_count == sample_count
                },
                Err(e) => res matches Err(err) && is_api_error(err, 500, mp4_error_message(e)),
            },
    {
        let timescale = match get_timescale(init.as_slice()) {
            Ok(t) => t,
            Err(err) => return Err(err),
        };
        let duration = match get_fragment_duration(fragment.as_slice()) {
            Ok(d) => d,
            Err(err) => return Err(err),
        };
        Ok(FragmentParams { init, fragment, timescale, duration, dimension, sample_count })
    }

    /// Reads a track as `new` does, and answers `None` where reading comes to
    /// no answer.
    pub fn try_new(init: Vec<u8>, fragment: Vec<u8>, dimension: Dimension, sample_count: u32) -> (res: Option<Result<FragmentParams, ApiError>>)
        ensures
            res is None <==> fragment_params_outcome(init@, fragment@) is None,
            res matches Some(answer) ==> match fragment_params_outcome(init@, fragment@).unwrap() {
                Ok((timescale, duration)) => answer matches Ok(params) && {
                    &&& params.init@ == init@
                    &&& params.fragment@ == fragment@
                    &&& params.timescale == timescale
                    &&& params.duration == duration
                    &&& params.dimension == dimension
                    &&& params.sample_count == sample_count
                },
                Err(e) => answer matches Err(err) && is_api_error(err, 500, mp4_error_message(e)),
            },
    {
        match try_get_timescale(init.as_slice()) {
            None => return None,
            Some(Err(err)) => return Some(Err(err)),
            Some(Ok(_)) => {},
        }
        match try_get_fragment_duration(fragment.as_slice()) {
            None => return None,
            Some(_) => {},
        }
        Some(FragmentParams::new(init, fragment, dimension, sample_count))
    }

    /// The bitrate of the track, in bits per second.
    pub fn bitrate(&self) -> (res: u32)
        requires
            self.duration > 0,
            self.fragment@.len() * 8 <= u64::MAX,
            self.fragment@.len() * 8 * self.timescale <= u64::MAX,
        ensures
            res == bitrate_spec(self.fragment@.len() as int, self.timescale as int, self.duration as int),
            self.fragment@.len() * 8 * self.timescale / (self.duration as int) <= u32::MAX ==> res as int
                == self.fragment@.len() * 8 * self.timescale / (self.duration as int),
    {
        proof {
            lemma_bitrate_is_bits_per_second(self.fragment@.len() as int, self.timescale as int, self.duration as int);
        }
        let bits = self.fragment.len() as u64 * 8;
        #[verifier::truncate] ((bits * self.timescale as u64 / self.duration as u64) as u32)
    }
}

} // verus!
