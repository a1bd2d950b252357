use vstd::prelude::*;
use crate::api_error::ApiError;
use crate::arith::{tdiv, trem, lemma_tdiv_bounds, lemma_tdiv_monotonic};
use crate::models::fragment::FragmentParams;
use vstd::arithmetic::div_mod::{lemma_div_denominator, lemma_fundamental_div_mod, lemma_div_pos_is_pos, lemma_mod_pos_bound};
use crate::text::{all_digits, decimal, decimal_int, digits_value, fill, fill_template, format_i64, format_i64_padded, lemma_decimal_short, lemma_zero_padded_reads_back, texts, zero_padded};

verus! {

/// Subtitle cues are timed in units of 1/90000 of a second.
pub const VTT_TIMESCALE: i64 = 90000;

/// The hours, minutes, seconds and milliseconds that a cue time of `t`
/// milliseconds is written with.
pub open spec fn cue_time_parts(t: int) -> (int, int, int, int) {
    (tdiv(t, 3600000), trem(tdiv(t, 60000), 60), trem(tdiv(t, 1000), 60), t - tdiv(t, 1000) * 1000)
}

/// A cue time written as `hh:mm:ss.mmm`.
pub open spec fn cue_time_text(t: int) -> Seq<char> {
    let (hh, mm, ss, ms) = cue_time_parts(t);
    zero_padded(decimal_int(hh), 2) + seq![':'] + zero_padded(decimal_int(mm), 2) + seq![':']
        + zero_padded(decimal_int(ss), 2) + seq!['.'] + zero_padded(decimal_int(ms), 3)
}

/// Writes a time of `time_offset_ms` milliseconds as a cue time, `hh:mm:ss.mmm`.
pub fn format_cue_time(time_offset_ms: i64) -> (res: String)
    ensures
        res@ == cue_time_text(time_offset_ms as int),
{
    let t = time_offset_ms;
    proof {
        lemma_tdiv_bounds(t as int, 1000);
        lemma_tdiv_bounds(t as int, 60000);
        lemma_tdiv_bounds(tdiv(t as int, 60000), 60);
        lemma_tdiv_bounds(tdiv(t as int, 1000), 60);
        reveal_strlit(":");
        reveal_strlit(".");
    }
    let hh = t / 3600000;
    let mm = (t / 60000) % 60;
    let ss = (t / 1000) % 60;
    let ms = t - (t / 1000) * 1000;
    let mut out = format_i64_padded(hh, 2);
    out.append(":");
    out.append(format_i64_padded(mm, 2).as_str());
    out.append(":");
    out.append(format_i64_padded(ss, 2).as_str());
    out.append(".");
    out.append(format_i64_padded(ms, 3).as_str());
    out
}

/// The text of the cue that is shown in the `i`-th second of the stream
/// (counted modulo five).
pub open spec fn cue_line_text(i: int) -> Seq<char> {
    if i == 0 {
        "&#x1F60B; &#x1f918;"@
    } else if i == 1 {
        "&#x1F61B; &#x1f918;"@
    } else if i == 2 {
        "&#x1F61C; &#x1f918;"@
    } else if i == 3 {
        "&#x1F92A; &#x1f918;"@
    } else {
        "Woooosshh..."@
    }
}

/// The number of cue texts that follow each other.
pub const CUE_LINE_COUNT: usize = 5;

fn cue_line(i: usize) -> (res: &'static str)
    requires
        i < CUE_LINE_COUNT,
    ensures
        res@ == cue_line_text(i as int),
{
    if i == 0 {
        "&#x1F60B; &#x1f918;"
    } else if i == 1 {
        "&#x1F61B; &#x1f918;"
    } else if i == 2 {
        "&#x1F61C; &#x1f918;"
    } else if i == 3 {
        "&#x1F92A; &#x1f918;"
    } else {
        "Woooosshh..."
    }
}

/// The first whole second at or after the start of the fragment, in VTT units.
pub open spec fn vtt_start(fragment_start: int) -> int {
    tdiv(fragment_start + 89999, 90000) * 90000
}

/// The number of that second since the epoch, as a `usize` keeps it.
pub open spec fn start_line(fragment_start: int) -> usize {
    tdiv(vtt_start(fragment_start), 90000) as usize
}

/// The number of the first whole second at or after the end of the fragment.
pub open spec fn end_line(fragment_end: int) -> usize {
    tdiv(fragment_end + 89999, 90000) as usize
}

/// Where the first cue starts, in milliseconds into the fragment.
pub open spec fn cue_base(fragment_start: int) -> int {
    tdiv((vtt_start(fragment_start) - fragment_start) * 1000, 90000)
}

/// The number of cues of the fragment: one for each second that starts in it.
pub open spec fn cue_count(fragment_start: int, fragment_end: int) -> int {
    end_line(fragment_end) - start_line(fragment_start)
}

/// The `line`-th cue of a fragment: one second long, from `cue_base + line`
/// seconds on, with the text of its second of the stream.
pub open spec fn cue_text(fragment_start: int, line: int) -> Seq<char> {
    seq!['\n'] + cue_time_text(cue_base(fragment_start) + line * 1000) + " --> "@ + cue_time_text(
        cue_base(fragment_start) + (line + 1) * 1000,
    ) + seq!['\n'] + cue_line_text((start_line(fragment_start) + line) % 5) + seq!['\n']
}

/// The first `n` cues of a fragment.
pub open spec fn cue_list(fragment_start: int, n: nat) -> Seq<char>
    decreases n,
{
    if n == 0 {
        Seq::empty()
    } else {
        cue_list(fragment_start, (n - 1) as nat) + cue_text(fragment_start, n - 1)
    }
}

/// The cues of a fragment can be computed without overflow or underflow.
pub open spec fn cue_list_defined(fragment_start: int, fragment_end: int) -> bool {
    &&& fragment_start + 90000 <= i64::MAX
    &&& fragment_end + 90000 <= i64::MAX
    &&& start_line(fragment_start) <= end_line(fragment_end)
    &&& cue_base(fragment_start) + cue_count(fragment_start, fragment_end) * 1000 <= i64::MAX
}

proof fn lemma_vtt_start_bounds(fragment_start: int)
    requires
        fragment_start + 90000 <= i64::MAX,
        i64::MIN <= fragment_start,
    ensures
        i64::MIN <= vtt_start(fragment_start) <= i64::MAX,
        0 <= vtt_start(fragment_start) - fragment_start <= 179998,
        0 <= cue_base(fragment_start) <= 1999,
{
    let x = fragment_start + 89999;
    lemma_tdiv_bounds(x, 90000);
    let offset = vtt_start(fragment_start) - fragment_start;
    lemma_tdiv_bounds(offset * 1000, 90000);
    assert(tdiv(offset * 1000, 90000) <= 1999) by {
        assert(offset * 1000 <= 179998000);
        assert((offset * 1000) / 90000 <= 179998000int / 90000) by (nonlinear_arith)
            requires 0 <= offset * 1000 <= 179998000;
    }
}

fn append_cue(cues: &mut String, fragment_start: i64, base: i64, first_line: usize, line: usize)
    requires
        base == cue_base(fragment_start as int),
        first_line == start_line(fragment_start as int),
        0 <= base,
        base + (line + 1) * 1000 <= i64::MAX,
        first_line + line < usize::MAX,
    ensures
        final(cues)@ == old(cues)@ + cue_text(fragment_start as int, line as int),
{
    proof {
        reveal_strlit("\n");
        reveal_strlit(" --> ");
    }
    let cue_start = base + line as i64 * 1000;
    let cue_end = base + (line as i64 + 1) * 1000;
    cues.append("\n");
    cues.append(format_cue_time(cue_start).as_str());
    cues.append(" --> ");
    cues.append(format_cue_time(cue_end).as_str());
    cues.append("\n");
    cues.append(cue_line((first_line + line) % CUE_LINE_COUNT));
    cues.append("\n");
    assert(cues@ =~= old(cues)@ + cue_text(fragment_start as int, line as int));
}

/// The cues of the subtitle fragment that spans `fragment_start` to
/// `fragment_end` (in VTT units): one for each whole second that starts in it.
pub fn create_cue_list(fragment_start: i64, fragment_end: i64) -> (res: Result<String, ApiError>)
    requires
        cue_list_defined(fragment_start as int, fragment_end as int),
    ensures
        res matches Ok(cues) && cues@ == cue_list(
            fragment_start as int,
            cue_count(fragment_start as int, fragment_end as int) as nat,
        ),
{
    proof {
        lemma_vtt_start_bounds(fragment_start as int);
        lemma_tdiv_bounds(fragment_end + 89999, 90000);
    }
    let mut cues = String::new();
    let vtt_start = (fragment_start + VTT_TIMESCALE - 1) / VTT_TIMESCALE * VTT_TIMESCALE;
    let offset = vtt_start - fragment_start;
    let first_line = (vtt_start / VTT_TIMESCALE) as usize;
    let line_count = ((fragment_end + VTT_TIMESCALE - 1) / VTT_TIMESCALE) as usize - first_line;
    let base = offset * 1000 / VTT_TIMESCALE;
    assert(base == cue_base(fragment_start as int));
    for line in 0..line_count
        invariant
            base == cue_base(fragment_start as int),
            first_line == start_line(fragment_start as int),
            line_count == cue_count(fragment_start as int, fragment_end as int),
            base + line_count * 1000 <= i64::MAX,
            0 <= base <= 1999,
            first_line + line_count <= usize::MAX,
            cues@ == cue_list(fragment_start as int, line as nat),
    {
        append_cue(&mut cues, fragment_start, base, first_line, line);
    }
    Ok(cues)
}

} // verus!

verus! {

/// Where the subtitle fragment `sequence` starts, in VTT units (the
/// subtitles follow the video: fragments of `duration` units of `timescale`).
pub open spec fn vtt_fragment_start(sequence: int, duration: int, timescale: int) -> int {
    tdiv(sequence * duration * 90000, timescale)
}

/// Where it ends.
pub open spec fn vtt_fragment_end(sequence: int, duration: int, timescale: int) -> int {
    vtt_fragment_start(sequence, duration, timescale) + tdiv(duration * 90000, timescale)
}

/// The subtitle fragment `sequence` can be computed without overflow.
pub open spec fn vtt_fragment_defined(sequence: int, duration: int, timescale: int) -> bool {
    &&& timescale > 0
    &&& i64::MIN <= sequence * duration <= i64::MAX
    &&& i64::MIN <= sequence * duration * 90000 <= i64::MAX
    &&& vtt_fragment_end(sequence, duration, timescale) <= i64::MAX
    &&& cue_list_defined(
        vtt_fragment_start(sequence, duration, timescale),
        vtt_fragment_end(sequence, duration, timescale),
    )
}

/// The subtitle fragment `sequence`: `template` filled with its start, then its cues.
pub open spec fn vtt_fragment_text(template: Seq<char>, sequence: int, duration: int, timescale: int) -> Seq<char> {
    let start = vtt_fragment_start(sequence, duration, timescale);
    let end = vtt_fragment_end(sequence, duration, timescale);
    fill(template, seq![decimal_int(start)]) + cue_list(start, cue_count(start, end) as nat)
}

/// The WebVTT subtitles of fragment `sequence` of the stream whose video
/// track is `fragment`; `template` is the header, in which `{}` stands for
/// the start of the fragment.
pub fn generate(sequence: i64, fragment: &FragmentParams, template: &str) -> (res: Result<String, ApiError>)
    requires
        vtt_fragment_defined(sequence as int, fragment.duration as int, fragment.timescale as int),
    ensures
        res matches Ok(text) && text@ == vtt_fragment_text(
            template@,
            sequence as int,
            fragment.duration as int,
            fragment.timescale as int,
        ),
{
    let duration = fragment.duration as i64;
    let timescale = fragment.timescale as i64;
    proof {
        lemma_tdiv_bounds(sequence * duration * 90000, timescale as int);
        lemma_tdiv_bounds(duration * 90000, timescale as int);
    }
    let fragment_start = sequence * duration * VTT_TIMESCALE / timescale;
    let fragment_end = fragment_start + duration * VTT_TIMESCALE / timescale;
    let mut args: Vec<String> = Vec::new();
    args.push(format_i64(fragment_start));
    assert(texts(args@) =~= seq![decimal_int(fragment_start as int)]);
    let header = fill_template(template, args.as_slice());
    let cues = match create_cue_list(fragment_start, fragment_end) {
        Ok(cues) => cues,
        Err(err) => return Err(err),
    };
    let mut text = header;
    text.append(cues.as_str());
    Ok(text)
}

} // verus!

verus! {

/// A cue time reads back as the time it was written for: for a time of
/// `t >= 0` milliseconds, the hours, minutes (below 60), seconds (below 60)
/// and milliseconds (below 1000) that it is written with add up to `t`.
pub proof fn lemma_cue_time_parts_add_up(t: int)
    requires
        t >= 0,
    ensures
        ({
            let (hh, mm, ss, ms) = cue_time_parts(t);
            &&& 0 <= hh
            &&& 0 <= mm < 60
            &&& 0 <= ss < 60
            &&& 0 <= ms < 1000
            &&& hh * 3600000 + mm * 60000 + ss * 1000 + ms == t
        }),
{
    let seconds = t / 1000;
    let minutes = t / 60000;
    let hours = t / 3600000;
    lemma_div_pos_is_pos(t, 1000);
    lemma_div_pos_is_pos(t, 60000);
    lemma_div_pos_is_pos(t, 3600000);
    lemma_div_denominator(t, 1000, 60);
    lemma_div_denominator(t, 60000, 60);
    assert(seconds / 60 == minutes);
    assert(minutes / 60 == hours);
    lemma_fundamental_div_mod(t, 1000);
    lemma_fundamental_div_mod(seconds, 60);
    lemma_fundamental_div_mod(minutes, 60);
    lemma_mod_pos_bound(t, 1000);
    lemma_mod_pos_bound(seconds, 60);
    lemma_mod_pos_bound(minutes, 60);
    assert(trem(minutes, 60) == minutes % 60);
    assert(trem(seconds, 60) == seconds % 60);
    assert(t - seconds * 1000 == t % 1000);
    assert(hours * 3600000 + (minutes % 60) * 60000 == minutes * 60000) by (nonlinear_arith)
        requires minutes == 60 * hours + minutes % 60;
    assert(minutes * 60000 + (seconds % 60) * 1000 == seconds * 1000) by (nonlinear_arith)
        requires seconds == 60 * minutes + seconds % 60;
}

} // verus!

verus! {

fn cue_list_possible(fragment_start: i64, fragment_end: i64) -> (res: bool)
    ensures
        res == cue_list_defined(fragment_start as int, fragment_end as int),
{
    if fragment_start > i64::MAX - VTT_TIMESCALE || fragment_end > i64::MAX - VTT_TIMESCALE {
        return false;
    }
    proof {
        lemma_vtt_start_bounds(fragment_start as int);
        lemma_tdiv_bounds(fragment_end + 89999, 90000);
    }
    let vtt_start = (fragment_start + VTT_TIMESCALE - 1) / VTT_TIMESCALE * VTT_TIMESCALE;
    let first_line = (vtt_start / VTT_TIMESCALE) as usize;
    let last_line = ((fragment_end + VTT_TIMESCALE - 1) / VTT_TIMESCALE) as usize;
    if first_line > last_line {
        return false;
    }
    let base = (vtt_start - fragment_start) * 1000 / VTT_TIMESCALE;
    let count = last_line - first_line;
    // base <= 1999, so the bound holds exactly when the count is small enough.
    count as u128 * 1000 + base as u128 <= i64::MAX as u128
}

/// The subtitle fragment as `generate` writes it, or `None` where its times
/// cannot be computed without overflow.
pub fn try_generate(sequence: i64, fragment: &FragmentParams, template: &str) -> (res: Option<Result<String, ApiError>>)
    ensures
        res is None <==> !vtt_fragment_defined(sequence as int, fragment.duration as int, fragment.timescale as int),
        res matches Some(answer) ==> answer matches Ok(text) && text@ == vtt_fragment_text(
            template@,
            sequence as int,
            fragment.duration as int,
            fragment.timescale as int,
        ),
{
    if fragment.timescale == 0 {
        return None;
    }
    let duration = fragment.duration as i64;
    let timescale = fragment.timescale as i64;
    let scaled = match sequence.checked_mul(duration) {
        Some(t) => match t.checked_mul(VTT_TIMESCALE) {
            Some(v) => v,
            None => return None,
        },
        None => return None,
    };
    proof {
        lemma_tdiv_bounds(scaled as int, timescale as int);
        lemma_tdiv_bounds(duration * 90000, timescale as int);
    }
    let fragment_start = scaled / timescale;
    let length = duration * VTT_TIMESCALE / timescale;
    let fragment_end = match fragment_start.checked_add(length) {
        Some(end) => end,
        None => return None,
    };
    if !cue_list_possible(fragment_start, fragment_end) {
        return None;
    }
    Some(generate(sequence, fragment, template))
}

} // verus!

verus! {

/// Where a fragment lasts a whole number of VTT units, the subtitle
/// fragments of consecutive sequence numbers adjoin: each ends where the
/// next starts.
pub proof fn lemma_vtt_fragments_adjoin(sequence: int, duration: int, timescale: int)
    requires
        timescale > 0,
        duration >= 0,
        (duration * 90000) % timescale == 0,
    ensures
        vtt_fragment_end(sequence, duration, timescale) == vtt_fragment_start(sequence + 1, duration, timescale),
{
    let m = (duration * 90000) / timescale;
    lemma_fundamental_div_mod(duration * 90000, timescale);
    assert(duration * 90000 == timescale * m);
    assert(sequence * duration * 90000 == (sequence * m) * timescale) by (nonlinear_arith)
        requires duration * 90000 == timescale * m;
    assert((sequence + 1) * duration * 90000 == ((sequence + 1) * m) * timescale) by (nonlinear_arith)
        requires duration * 90000 == timescale * m;
    lemma_tdiv_exact(sequence * m, timescale);
    lemma_tdiv_exact((sequence + 1) * m, timescale);
    lemma_tdiv_exact(m, timescale);
    assert(m * timescale == duration * 90000) by (nonlinear_arith)
        requires duration * 90000 == timescale * m;
    assert(tdiv(sequence * duration * 90000, timescale) == sequence * m);
    assert(tdiv((sequence + 1) * duration * 90000, timescale) == (sequence + 1) * m);
    assert(tdiv(duration * 90000, timescale) == m);
    assert(sequence * m + m == (sequence + 1) * m) by (nonlinear_arith);
}

proof fn lemma_tdiv_exact(q: int, b: int)
    requires
        b > 0,
    ensures
        tdiv(q * b, b) == q,
{
    if q >= 0 {
        assert(q * b >= 0) by (nonlinear_arith)
            requires q >= 0, b > 0;
        vstd::arithmetic::div_mod::lemma_div_multiples_vanish(q, b);
        assert(b * q == q * b) by (nonlinear_arith);
    } else {
        assert(q * b < 0) by (nonlinear_arith)
            requires q < 0, b > 0;
        vstd::arithmetic::div_mod::lemma_div_multiples_vanish(-q, b);
        assert(b * (-q) == -(q * b)) by (nonlinear_arith);
    }
}

} // verus!

verus! {

proof fn lemma_tdiv_shift(x: int, k: int)
    requires
        x >= 0,
        k >= 0,
    ensures
        tdiv(x + k * 90000, 90000) == tdiv(x, 90000) + k,
{
    let q = x / 90000;
    let r = x % 90000;
    lemma_fundamental_div_mod(x, 90000);
    lemma_mod_pos_bound(x, 90000);
    assert(x + k * 90000 == (q + k) * 90000 + r) by (nonlinear_arith)
        requires x == 90000 * q + r;
    vstd::arithmetic::div_mod::lemma_fundamental_div_mod_converse_div(x + k * 90000, 90000, q + k, r);
}

proof fn lemma_cue_list_congruent(a: int, b: int, n: nat)
    requires
        forall|line: int| 0 <= line < n ==> #[trigger] cue_text(a, line) == cue_text(b, line),
    ensures
        cue_list(a, n) == cue_list(b, n),
    decreases n,
{
    if n > 0 {
        lemma_cue_list_congruent(a, b, (n - 1) as nat);
        assert(cue_text(a, n - 1) == cue_text(b, n - 1));
    }
}

/// The cue texts repeat every five seconds: a subtitle fragment shifted by
/// five whole seconds (450000 VTT units) has the same cues.
pub proof fn lemma_cue_list_shift_by_cycle(fragment_start: int, fragment_end: int)
    requires
        0 <= fragment_start <= fragment_end,
        fragment_end + 540000 <= i64::MAX,
        tdiv(fragment_end + 450000 + 89999, 90000) <= usize::MAX,
    ensures
        cue_count(fragment_start + 450000, fragment_end + 450000) == cue_count(fragment_start, fragment_end),
        cue_list(fragment_start + 450000, cue_count(fragment_start + 450000, fragment_end + 450000) as nat)
            == cue_list(fragment_start, cue_count(fragment_start, fragment_end) as nat),
{
    let fs = fragment_start;
    let fe = fragment_end;
    let qx = tdiv(fs + 89999, 90000);
    let qy = tdiv(fe + 89999, 90000);
    lemma_tdiv_shift(fs + 89999, 5);
    lemma_tdiv_shift(fe + 89999, 5);
    assert(fs + 450000 + 89999 == (fs + 89999) + 5 * 90000);
    assert(fe + 450000 + 89999 == (fe + 89999) + 5 * 90000);
    lemma_tdiv_monotonic(fs + 89999, fe + 89999, 90000);
    lemma_tdiv_bounds(fs + 89999, 90000);
    lemma_tdiv_exact(qx, 90000);
    lemma_tdiv_exact(qx + 5, 90000);
    assert(vtt_start(fs) == qx * 90000);
    assert(vtt_start(fs + 450000) == (qx + 5) * 90000);
    assert((qx + 5) * 90000 == qx * 90000 + 450000) by (nonlinear_arith);
    assert(vtt_start(fs + 450000) - (fs + 450000) == vtt_start(fs) - fs);
    assert(cue_base(fs + 450000) == cue_base(fs));
    assert(start_line(fs) == qx);
    assert(start_line(fs + 450000) == qx + 5);
    assert(end_line(fe) == qy);
    assert(end_line(fe + 450000) == qy + 5);
    assert forall|line: int| 0 <= line < cue_count(fs, fe) implies #[trigger] cue_text(fs + 450000, line) == cue_text(fs, line) by {
        vstd::arithmetic::div_mod::lemma_mod_multiples_vanish(1, qx + line, 5);
        assert(qx + 5 + line == 5 * 1 + (qx + line));
    }
    lemma_cue_list_congruent(fs + 450000, fs, cue_count(fs, fe) as nat);
}

} // verus!

verus! {

/// A cue time's text reads back as the time: for `t >= 0` milliseconds it
/// is `H:MM:SS.mmm`, with at least two digits of hours and exactly two of
/// minutes, two of seconds and three of milliseconds; the minutes and
/// seconds are below 60, and the four numbers add up to `t`.
pub proof fn lemma_cue_time_text_reads_back(t: int)
    requires
        t >= 0,
    ensures
        ({
            let text = cue_time_text(t);
            let h = text.len() - 10;
            let hours = digits_value(text.subrange(0, h));
            let minutes = digits_value(text.subrange(h + 1, h + 3));
            let seconds = digits_value(text.subrange(h + 4, h + 6));
            let millis = digits_value(text.subrange(h + 7, h + 10));
            &&& h >= 2
            &&& text[h] == ':' && text[h + 3] == ':' && text[h + 6] == '.'
            &&& all_digits(text.subrange(0, h))
            &&& all_digits(text.subrange(h + 1, h + 3))
            &&& all_digits(text.subrange(h + 4, h + 6))
            &&& all_digits(text.subrange(h + 7, h + 10))
            &&& minutes < 60 && seconds < 60
            &&& hours * 3600000 + minutes * 60000 + seconds * 1000 + millis == t
        }),
{
    lemma_cue_time_parts_add_up(t);
    let (hh, mm, ss, ms) = cue_time_parts(t);
    lemma_zero_padded_reads_back(hh as nat, 2);
    lemma_zero_padded_reads_back(mm as nat, 2);
    lemma_zero_padded_reads_back(ss as nat, 2);
    lemma_zero_padded_reads_back(ms as nat, 3);
    lemma_decimal_short(mm as nat);
    lemma_decimal_short(ss as nat);
    lemma_decimal_short(ms as nat);
    let hours = zero_padded(decimal(hh as nat), 2);
    let minutes = zero_padded(decimal(mm as nat), 2);
    let seconds = zero_padded(decimal(ss as nat), 2);
    let millis = zero_padded(decimal(ms as nat), 3);
    let text = cue_time_text(t);
    assert(text =~= hours + seq![':'] + minutes + seq![':'] + seconds + seq!['.'] + millis);
    let h = hours.len() as int;
    assert(text.len() == h + 10);
    assert(text.subrange(0, h) =~= hours);
    assert(text.subrange(h + 1, h + 3) =~= minutes);
    assert(text.subrange(h + 4, h + 6) =~= seconds);
    assert(text.subrange(h + 7, h + 10) =~= millis);
}

} // verus!

verus! {

/// Each cue belongs to a whole second of the stream and shows that second's
/// text: for a fragment starting at `fragment_start` (VTT units since the
/// epoch), whose first whole second is `second` (the least `k` with
/// `k * 90000 >= fragment_start`), cue `line` runs from that second plus
/// `line` seconds, one second long, and shows the text of second
/// `second + line` of the stream: `LINES[(second + line) % 5]`.
pub proof fn lemma_cue_follows_stream_second(fragment_start: int, line: int, second: int)
    requires
        0 <= fragment_start,
        fragment_start + 90000 <= i64::MAX,
        0 <= line,
        (second - 1) * 90000 < fragment_start <= second * 90000,
        second <= usize::MAX,
    ensures
        cue_text(fragment_start, line) == seq!['\n'] + cue_time_text(
            tdiv((second * 90000 - fragment_start) * 1000, 90000) + line * 1000,
        ) + " --> "@ + cue_time_text(tdiv((second * 90000 - fragment_start) * 1000, 90000) + (line + 1) * 1000)
            + seq!['\n'] + cue_line_text((second + line) % 5) + seq!['\n'],
{
    let x = fragment_start + 89999;
    assert(second >= 0) by (nonlinear_arith)
        requires fragment_start <= second * 90000, 0 <= fragment_start, (second - 1) * 90000 < fragment_start;
    assert(x == second * 90000 + (x - second * 90000));
    assert(0 <= x - second * 90000 < 90000) by (nonlinear_arith)
        requires (second - 1) * 90000 < fragment_start <= second * 90000, x == fragment_start + 89999;
    vstd::arithmetic::div_mod::lemma_fundamental_div_mod_converse_div(x, 90000, second, x - second * 90000);
    assert(tdiv(x, 90000) == second);
    assert(vtt_start(fragment_start) == second * 90000);
    lemma_tdiv_exact(second, 90000);
    assert(start_line(fragment_start) == second);
}

} // verus!
