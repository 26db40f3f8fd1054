//! Scrub previews of videos: frames sampled at a fixed interval, listed in a
//! manifest that is rewritten whole after each frame so that it can be read
//! while the frames are still being made.
//!
//! Times are counted in hundredths of a second.
use vstd::prelude::*;
use crate::error::AppError;
use crate::keys::{child, child_path, digest_hex, path_digest, preview_dir_from_digest, preview_dir_text};
use crate::media::MediaKind;
use crate::paths::seg_views;
use crate::text::{
    all_digits, decimal_text, decimal_value, digit_char, digit_value, is_digit, parse_u64, parse_u64_spec,
    padded_u64_text, push_char, push_two_digits, trim_space, trim_space_of, two_digits, u64_text,
    zero_padded,
};

verus! {

/// The value of a fraction's digits in hundredths, the rest cut off.
pub open spec fn hundredths(frac: Seq<char>) -> nat {
    if frac.len() == 0 {
        0
    } else if frac.len() == 1 {
        10 * decimal_value(frac.subrange(0, 1))
    } else {
        decimal_value(frac.subrange(0, 2))
    }
}

/// `k` is the position of the point in a number `<digits>.<digits>`.
pub open spec fn point_at(t: Seq<char>, k: int) -> bool {
    &&& 0 < k < t.len()
    &&& t[k] == '.'
    &&& all_digits(t.subrange(0, k))
    &&& all_digits(t.subrange(k + 1, t.len() as int))
}

/// The duration, in hundredths of a second, that the probe tool printed: a
/// number of seconds with an optional fraction, cut to hundredths.
pub open spec fn duration_from_text(out: Seq<char>) -> Option<u64> {
    let t = trim_space(out);
    if t.len() > 0 && all_digits(t) {
        if decimal_value(t) * 100 <= u64::MAX {
            Some((decimal_value(t) * 100) as u64)
        } else {
            None
        }
    } else if exists|k: int| point_at(t, k) {
        let k = choose|k: int| point_at(t, k);
        let v = decimal_value(t.subrange(0, k)) * 100 + hundredths(t.subrange(k + 1, t.len() as int));
        if v <= u64::MAX {
            Some(v as u64)
        } else {
            None
        }
    } else {
        None
    }
}

proof fn lemma_parse_digits(d: Seq<char>)
    requires
        d.len() > 0,
        all_digits(d),
    ensures
        parse_u64_spec(d) is None ==> decimal_value(d) > u64::MAX,
        parse_u64_spec(d) matches Some(v) ==> v == decimal_value(d),
{
    assert(is_digit(d[0]));
}

proof fn lemma_two_digit_values(f: Seq<char>)
    requires
        all_digits(f),
    ensures
        hundredths(f) < 100,
        f.len() == 1 ==> hundredths(f) == 10 * digit_value(f[0]),
        f.len() >= 2 ==> hundredths(f) == 10 * digit_value(f[0]) + digit_value(f[1]),
{
    if f.len() >= 1 {
        let a = f.subrange(0, 1);
        assert(a.drop_last() =~= Seq::<char>::empty());
        assert(decimal_value(Seq::<char>::empty()) == 0);
        assert(a.last() == f[0]);
        assert(decimal_value(a) == digit_value(f[0]));
        assert(is_digit(f[0]));
    }
    if f.len() >= 2 {
        let b = f.subrange(0, 2);
        assert(b.drop_last() =~= f.subrange(0, 1));
        assert(b.last() == f[1]);
        assert(is_digit(f[1]));
        assert(decimal_value(b) == decimal_value(f.subrange(0, 1)) * 10 + digit_value(f[1]));
    }
}

fn digit_at(s: &str, i: usize) -> (r: bool)
    requires
        i < s@.len(),
    ensures
        r == is_digit(s@[i as int]),
{
    let c = s.get_char(i);
    '0' <= c && c <= '9'
}

fn hundredths_at(t: &str, from: usize) -> (r: u64)
    requires
        from <= t@.len(),
        all_digits(t@.subrange(from as int, t@.len() as int)),
    ensures
        r as nat == hundredths(t@.subrange(from as int, t@.len() as int)),
        r < 100,
{
    let n = t.unicode_len();
    let ghost frac = t@.subrange(from as int, n as int);
    proof {
        lemma_two_digit_values(frac);
    }
    if n - from == 0 {
        0
    } else if n - from == 1 {
        let d = t.get_char(from);
        assert(frac.subrange(0, 1).drop_last() =~= Seq::<char>::empty());
        assert(frac[0] == d);
        assert(is_digit(frac[0]));
        10 * ((d as u32 - '0' as u32) as u64)
    } else {
        let d1 = t.get_char(from);
        let d2 = t.get_char(from + 1);
        assert(frac.subrange(0, 2).drop_last() =~= frac.subrange(0, 1));
        assert(frac.subrange(0, 1).drop_last() =~= Seq::<char>::empty());
        assert(frac[0] == d1 && frac[1] == d2);
        assert(is_digit(frac[0]) && is_digit(frac[1]));
        10 * ((d1 as u32 - '0' as u32) as u64) + ((d2 as u32 - '0' as u32) as u64)
    }
}

/// Reads the duration that the probe tool printed.
pub fn parse_duration(out: &str) -> (r: Option<u64>)
    ensures
        r == duration_from_text(out@),
{
    let t = trim_space_of(out);
    let n = t.as_str().unicode_len();
    let mut k: usize = 0;
    while k < n && digit_at(t.as_str(), k)
        invariant
            n == t@.len(),
            0 <= k <= n,
            all_digits(t@.subrange(0, k as int)),
        decreases n - k,
    {
        assert(t@.subrange(0, k + 1).drop_last() =~= t@.subrange(0, k as int));
        k = k + 1;
    }
    if k == 0 {
        assert(!point_at(t@, 0int));
        assert(!exists|j: int| point_at(t@, j)) by {
            assert forall|j: int| !point_at(t@, j) by {
                if point_at(t@, j) {
                    assert(t@.subrange(0, j)[0] == t@[0]);
                }
            }
        }
        return None;
    }
    let whole = t.as_str().substring_char(0, k);
    let int_part = match parse_u64(whole) {
        Some(v) => v,
        None => {
            proof {
                lemma_parse_digits(t@.subrange(0, k as int));
                if k == n {
                    assert(t@.subrange(0, k as int) =~= t@);
                } else {
                    assert forall|j: int| point_at(t@, j) implies j == k by {
                        if j < k {
                            assert(t@.subrange(0, k as int)[j] == t@[j]);
                        }
                        if j > k {
                            assert(t@.subrange(0, j)[k as int] == t@[k as int]);
                        }
                    }
                    if exists|j: int| point_at(t@, j) {
                        let j = choose|j: int| point_at(t@, j);
                        assert(j == k);
                    }
                }
            }
            return None;
        },
    };
    proof {
        lemma_parse_digits(t@.subrange(0, k as int));
    }
    if k == n {
        assert(t@.subrange(0, k as int) =~= t@);
        if int_part > (u64::MAX / 100) {
            return None;
        }
        return Some(int_part * 100);
    }
    // the first character past the digits must be the point, and all the rest digits
    let c = t.as_str().get_char(k);
    let mut m: usize = k + 1;
    if c == '.' {
        while m < n && digit_at(t.as_str(), m)
            invariant
                n == t@.len(),
                k < m <= n,
                all_digits(t@.subrange(k + 1, m as int)),
            decreases n - m,
        {
            assert(t@.subrange(k + 1, m + 1).drop_last() =~= t@.subrange(k + 1, m as int));
            m = m + 1;
        }
    }
    assert forall|j: int| point_at(t@, j) implies j == k by {
        if j < k {
            assert(t@.subrange(0, k as int)[j] == t@[j]);
        }
        if j > k {
            assert(t@.subrange(0, j)[k as int] == t@[k as int]);
        }
    }
    assert(!all_digits(t@)) by {
        assert(!is_digit(t@[k as int]));
    }
    if c != '.' || m < n {
        proof {
            if exists|j: int| point_at(t@, j) {
                let j = choose|j: int| point_at(t@, j);
                assert(j == k);
                if m < n {
                    assert(t@.subrange(k + 1, n as int)[m - k - 1] == t@[m as int]);
                }
            }
        }
        return None;
    }
    assert(point_at(t@, k as int));
    let f = hundredths_at(t.as_str(), k + 1);
    let ghost frac = t@.subrange(k + 1, n as int);
    proof {
        let j = choose|j: int| point_at(t@, j);
        assert(j == k);
        assert(int_part as nat == decimal_value(t@.subrange(0, k as int)));
        assert(f as nat == hundredths(frac));
    }
    if int_part > (u64::MAX - f) / 100 {
        return None;
    }
    Some(int_part * 100 + f)
}

/// The sampling interval: a hundredth of the duration, at least a second,
/// so that about a hundred frames are taken whatever the length.
pub open spec fn interval_for(duration: u64) -> u64 {
    if duration / 100 >= 100 {
        (duration / 100) as u64
    } else {
        100
    }
}

/// How many frames a duration sampled at `interval` gives: the duration
/// divided by the interval, rounded up, at least one.
pub open spec fn expected_frames(duration: u64, interval: u64) -> u64 {
    let q = duration / interval + if duration % interval != 0 {
        1int
    } else {
        0int
    };
    if q >= 1 {
        q as u64
    } else {
        1
    }
}

pub fn preview_interval(duration: u64) -> (r: u64)
    ensures
        r == interval_for(duration),
        r >= 100,
{
    if duration / 100 >= 100 {
        duration / 100
    } else {
        100
    }
}

pub fn expected_count(duration: u64, interval: u64) -> (r: u64)
    requires
        interval > 0,
    ensures
        r == expected_frames(duration, interval),
{
    let q = duration / interval;
    let q = if duration % interval != 0 {
        proof {
            if interval == 1 {
                vstd::arithmetic::div_mod::lemma_small_mod(0, 1);
                assert(duration % 1 == 0);
            }
            vstd::arithmetic::div_mod::lemma_div_is_ordered_by_denominator(duration as int, 2, interval as int);
        }
        q + 1
    } else {
        q
    };
    if q >= 1 {
        q
    } else {
        1
    }
}

/// The file name of the frame taken at `time`: seconds with two decimals,
/// zero-padded to eight characters.
pub open spec fn frame_name_text(time: u64) -> Seq<char> {
    "thumb_"@ + zero_padded(decimal_text((time / 100) as nat), 5) + seq!['.'] + two_digits(
        (time % 100) as nat,
    ) + ".jpg"@
}

pub fn frame_name(time: u64) -> (r: String)
    ensures
        r@ == frame_name_text(time),
{
    let mut r = "thumb_".to_owned();
    let secs = padded_u64_text(time / 100, 5);
    r.append(secs.as_str());
    push_char(&mut r, '.');
    push_two_digits(&mut r, time % 100);
    r.append(".jpg");
    r
}

/// A time in seconds as the frame-extraction tool reads it: no fraction
/// for whole seconds, and no trailing zero.
pub open spec fn seconds_text(time: u64) -> Seq<char> {
    let s = decimal_text((time / 100) as nat);
    let c = time % 100;
    if c == 0 {
        s
    } else if c % 10 == 0 {
        s + seq!['.', digit_char((c / 10) as nat)]
    } else {
        s + seq!['.'] + two_digits(c as nat)
    }
}

pub fn seconds_arg(time: u64) -> (r: String)
    ensures
        r@ == seconds_text(time),
{
    let mut r = u64_text(time / 100);
    let c = time % 100;
    if c == 0 {
        r
    } else if c % 10 == 0 {
        push_char(&mut r, '.');
        let d = u64_text(c / 10);
        r.append(d.as_str());
        r
    } else {
        push_char(&mut r, '.');
        push_two_digits(&mut r, c);
        r
    }
}

/// The arguments of the probe tool that prints a video's duration.
pub open spec fn probe_args_text(source: Seq<char>) -> Seq<Seq<char>> {
    seq![
        "-v"@,
        "quiet"@,
        "-show_entries"@,
        "format=duration"@,
        "-of"@,
        "csv=p=0"@,
        source,
    ]
}

pub fn probe_args(source: &str) -> (r: Vec<String>)
    ensures
        seg_views(r@) == probe_args_text(source@),
{
    let mut v: Vec<String> = Vec::new();
    v.push("-v".to_owned());
    v.push("quiet".to_owned());
    v.push("-show_entries".to_owned());
    v.push("format=duration".to_owned());
    v.push("-of".to_owned());
    v.push("csv=p=0".to_owned());
    v.push(source.to_owned());
    assert(seg_views(v@) =~= probe_args_text(source@));
    v
}

/// The arguments of the frame-extraction tool for the preview frame at
/// `time`: scaled and letterboxed to 160 x 90.
pub open spec fn frame_args_text(source: Seq<char>, dest: Seq<char>, time: u64) -> Seq<Seq<char>> {
    seq![
        "-y"@,
        "-ss"@,
        seconds_text(time),
        "-i"@,
        source,
        "-frames:v"@,
        "1"@,
        "-vf"@,
        "scale=160:90:force_original_aspect_ratio=decrease,pad=160:90:(ow-iw)/2:(oh-ih)/2"@,
        "-q:v"@,
        "5"@,
        dest,
    ]
}

pub fn frame_args(source: &str, dest: &str, time: u64) -> (r: Vec<String>)
    ensures
        seg_views(r@) == frame_args_text(source@, dest@, time),
{
    let mut v: Vec<String> = Vec::new();
    v.push("-y".to_owned());
    v.push("-ss".to_owned());
    v.push(seconds_arg(time));
    v.push("-i".to_owned());
    v.push(source.to_owned());
    v.push("-frames:v".to_owned());
    v.push("1".to_owned());
    v.push("-vf".to_owned());
    v.push("scale=160:90:force_original_aspect_ratio=decrease,pad=160:90:(ow-iw)/2:(oh-ih)/2".to_owned());
    v.push("-q:v".to_owned());
    v.push("5".to_owned());
    v.push(dest.to_owned());
    assert(seg_views(v@) =~= frame_args_text(source@, dest@, time));
    v
}

/// One captured frame: its time and file name.
pub struct VideoThumbnail {
    pub time: u64,
    pub filename: String,
}

/// The manifest of a video's preview: its duration, the sampling interval,
/// the frames captured so far, and how many are expected in all.
pub struct VideoPreviewInfo {
    pub duration: u64,
    pub interval: u64,
    pub thumbnails: Vec<VideoThumbnail>,
    pub expected_count: u64,
}

pub struct InfoView {
    pub duration: u64,
    pub interval: u64,
    pub frames: Seq<(u64, Seq<char>)>,
    pub expected_count: u64,
}

pub open spec fn frames_of(v: Seq<VideoThumbnail>) -> Seq<(u64, Seq<char>)> {
    v.map_values(|f: VideoThumbnail| (f.time, f.filename@))
}

impl View for VideoPreviewInfo {
    type V = InfoView;

    open spec fn view(&self) -> InfoView {
        InfoView {
            duration: self.duration,
            interval: self.interval,
            frames: frames_of(self.thumbnails@),
            expected_count: self.expected_count,
        }
    }
}

impl VideoPreviewInfo {
    /// A copy of the manifest.
    pub fn copy(&self) -> (r: VideoPreviewInfo)
        ensures
            r@ == self@,
    {
        let mut frames: Vec<VideoThumbnail> = Vec::new();
        let mut i: usize = 0;
        while i < self.thumbnails.len()
            invariant
                0 <= i <= self.thumbnails@.len(),
                frames@.len() == i,
                forall|k: int|
                    0 <= k < i ==> (#[trigger] frames@[k]).time == self.thumbnails@[k].time
                        && frames@[k].filename@ == self.thumbnails@[k].filename@,
            decreases self.thumbnails@.len() - i,
        {
            let f = &self.thumbnails[i];
            frames.push(VideoThumbnail { time: f.time, filename: f.filename.clone() });
            i = i + 1;
        }
        assert(frames_of(frames@) =~= frames_of(self.thumbnails@));
        VideoPreviewInfo {
            duration: self.duration,
            interval: self.interval,
            thumbnails: frames,
            expected_count: self.expected_count,
        }
    }
}

/// A manifest as generation writes it: frames at increasing multiples of
/// the interval within the duration, each named after its time.
pub open spec fn manifest_wf(m: InfoView) -> bool {
    &&& m.interval > 0
    &&& m.expected_count >= 1
    &&& forall|k: int|
        0 <= k < m.frames.len() ==> {
            let f = #[trigger] m.frames[k];
            &&& f.0 < m.duration
            &&& f.0 % m.interval == 0
            &&& f.1 == frame_name_text(f.0)
        }
    &&& forall|j: int, k: int| 0 <= j < k < m.frames.len() ==> m.frames[j].0 < m.frames[k].0
}

/// The manifest written before any frame is taken.
pub open spec fn initial_info(duration: u64) -> InfoView {
    InfoView {
        duration,
        interval: interval_for(duration),
        frames: seq![],
        expected_count: expected_frames(duration, interval_for(duration)),
    }
}

/// Where a preview request stands.
#[derive(Debug, Clone, Copy, PartialEq, Eq, Structural)]
pub enum PreviewStage {
    /// First read of the manifest, without the lock.
    Reading,
    /// Waiting for the video's lock.
    Locking,
    /// Second read, under the lock.
    Rereading,
    /// Creating the preview directory.
    Preparing,
    /// Asking the probe tool for the duration.
    Probing,
    /// Writing the manifest with no frames.
    Starting,
    /// Taking the frame at the current time.
    Sampling,
    /// Writing the manifest with the frame just taken.
    Recording,
    /// Done: the manifest is known.
    Ready,
    /// Done: no preview for this file.
    Unavailable,
    /// Done: generation failed.
    Failed,
}

/// What happened to the work a preview request asked for.
pub enum PreviewEvent {
    /// The manifest on disk, if there is one that parses.
    Manifest(Option<VideoPreviewInfo>),
    /// The video's lock is held.
    Locked,
    /// Whether the preview directory could be created.
    DirCreated(bool),
    /// What the probe tool printed, if it succeeded.
    Probed(Option<String>),
    /// Whether the manifest was written and moved into place.
    Written(bool),
    /// Whether the frame was taken.
    Extracted(bool),
}

pub enum EventView {
    Manifest(Option<InfoView>),
    Locked,
    DirCreated(bool),
    Probed(Option<Seq<char>>),
    Written(bool),
    Extracted(bool),
}

impl View for PreviewEvent {
    type V = EventView;

    open spec fn view(&self) -> EventView {
        match self {
            PreviewEvent::Manifest(Some(m)) => EventView::Manifest(Some(m@)),
            PreviewEvent::Manifest(None) => EventView::Manifest(None),
            PreviewEvent::Locked => EventView::Locked,
            PreviewEvent::DirCreated(b) => EventView::DirCreated(*b),
            PreviewEvent::Probed(Some(o)) => EventView::Probed(Some(o@)),
            PreviewEvent::Probed(None) => EventView::Probed(None),
            PreviewEvent::Written(b) => EventView::Written(*b),
            PreviewEvent::Extracted(b) => EventView::Extracted(*b),
        }
    }
}

/// The next piece of work of a preview request.
pub enum PreviewAction {
    /// Read and parse the manifest at this path, if it is there.
    ReadManifest(String),
    /// Take the lock of this key; hold it until the job ends.
    AcquireLock(String),
    /// Create this directory and its parents.
    CreateDir(String),
    /// Run the probe tool with these arguments and hand back what it printed.
    RunProbe(Vec<String>),
    /// Write the manifest to `temp`, then rename it to `path`.
    WriteManifest { temp: String, path: String, info: VideoPreviewInfo },
    /// Run the frame-extraction tool with these arguments.
    RunTool(Vec<String>),
    /// The request is answered: the manifest, or none.
    Finish(Option<VideoPreviewInfo>),
    /// The request fails.
    Fail(AppError),
}

/// The state of a preview request: its stage, its manifest, and the time of
/// the frame being taken.
pub struct PreviewState {
    pub stage: PreviewStage,
    pub info: InfoView,
    pub time: u64,
}

/// The state after a frame at `s.time` is done with: the next sample time
/// while it lies within the duration, otherwise ready.
pub open spec fn after_sample(s: PreviewState) -> PreviewState {
    if (s.info.interval as int) < s.info.duration - s.time {
        PreviewState { stage: PreviewStage::Sampling, info: s.info, time: (s.time + s.info.interval) as u64 }
    } else {
        PreviewState { stage: PreviewStage::Ready, ..s }
    }
}

/// The state after `event`; an event that does not answer the stage's work
/// leaves the state as it is.
pub open spec fn preview_next(s: PreviewState, event: EventView) -> PreviewState {
    match (s.stage, event) {
        (PreviewStage::Reading, EventView::Manifest(Some(m))) => PreviewState { stage: PreviewStage::Ready, info: m, ..s },
        (PreviewStage::Reading, EventView::Manifest(None)) => PreviewState { stage: PreviewStage::Locking, ..s },
        (PreviewStage::Locking, EventView::Locked) => PreviewState { stage: PreviewStage::Rereading, ..s },
        (PreviewStage::Rereading, EventView::Manifest(Some(m))) => PreviewState { stage: PreviewStage::Ready, info: m, ..s },
        (PreviewStage::Rereading, EventView::Manifest(None)) => PreviewState { stage: PreviewStage::Preparing, ..s },
        (PreviewStage::Preparing, EventView::DirCreated(true)) => PreviewState { stage: PreviewStage::Probing, ..s },
        (PreviewStage::Preparing, EventView::DirCreated(false)) => PreviewState { stage: PreviewStage::Failed, ..s },
        (PreviewStage::Probing, EventView::Probed(Some(out))) => match duration_from_text(out) {
            Some(d) => PreviewState { stage: PreviewStage::Starting, info: initial_info(d), time: 0 },
            None => PreviewState { stage: PreviewStage::Failed, ..s },
        },
        (PreviewStage::Probing, EventView::Probed(None)) => PreviewState { stage: PreviewStage::Failed, ..s },
        (PreviewStage::Starting, EventView::Written(true)) => if 0 < s.info.duration {
            PreviewState { stage: PreviewStage::Sampling, time: 0, ..s }
        } else {
            PreviewState { stage: PreviewStage::Ready, ..s }
        },
        (PreviewStage::Starting, EventView::Written(false)) => PreviewState { stage: PreviewStage::Failed, ..s },
        (PreviewStage::Sampling, EventView::Extracted(true)) => PreviewState {
            stage: PreviewStage::Recording,
            info: InfoView { frames: s.info.frames.push((s.time, frame_name_text(s.time))), ..s.info },
            time: s.time,
        },
        (PreviewStage::Sampling, EventView::Extracted(false)) => after_sample(s),
        (PreviewStage::Recording, EventView::Written(_)) => after_sample(s),
        _ => s,
    }
}

/// What holds of a request's state while it generates: the manifest is
/// well formed, and the current time is a sample time past every frame
/// taken before it.
pub open spec fn preview_inv(s: PreviewState) -> bool {
    &&& (s.stage == PreviewStage::Starting || s.stage == PreviewStage::Sampling || s.stage
        == PreviewStage::Recording) ==> manifest_wf(s.info)
    &&& s.stage == PreviewStage::Starting ==> s.info.frames.len() == 0
    &&& (s.stage == PreviewStage::Sampling || s.stage == PreviewStage::Recording) ==> {
        &&& s.time < s.info.duration
        &&& s.time % s.info.interval == 0
    }
    &&& s.stage == PreviewStage::Sampling ==> forall|k: int|
        0 <= k < s.info.frames.len() ==> (#[trigger] s.info.frames[k]).0 < s.time
    &&& s.stage == PreviewStage::Recording ==> forall|k: int|
        0 <= k < s.info.frames.len() ==> (#[trigger] s.info.frames[k]).0 <= s.time
}

proof fn lemma_initial_info_wf(d: u64)
    ensures
        manifest_wf(initial_info(d)),
{
    let i = interval_for(d);
    assert(i >= 100);
    vstd::arithmetic::div_mod::lemma_div_pos_is_pos(d as int, i as int);
    vstd::arithmetic::div_mod::lemma_div_is_ordered_by_denominator(d as int, 100, i as int);
    assert(expected_frames(d, i) >= 1);
}

/// While a preview is generated, every manifest written is well formed, and
/// each one holds the frames of the one before, in order, with at most one
/// more: a reader sees a complete manifest whenever it looks.
pub proof fn lemma_manifest_stays_valid(s: PreviewState, event: EventView)
    requires
        preview_inv(s),
    ensures
        preview_inv(preview_next(s, event)),
        ({
            let t = preview_next(s, event);
            (s.stage == PreviewStage::Starting || s.stage == PreviewStage::Sampling || s.stage
                == PreviewStage::Recording) ==> {
                &&& t.info.frames.len() <= s.info.frames.len() + 1
                &&& t.info.frames.subrange(0, s.info.frames.len() as int) == s.info.frames
            }
        }),
{
    let t = preview_next(s, event);
    match (s.stage, event) {
        (PreviewStage::Probing, EventView::Probed(Some(out))) => {
            if let Some(d) = duration_from_text(out) {
                lemma_initial_info_wf(d);
            }
        },
        (PreviewStage::Sampling, EventView::Extracted(true)) => {
            assert(t.info.frames.subrange(0, s.info.frames.len() as int) =~= s.info.frames);
            assert forall|j: int, k: int|
                0 <= j < k < t.info.frames.len() implies t.info.frames[j].0 < t.info.frames[k].0 by {
                if k == s.info.frames.len() {
                    assert(s.info.frames[j].0 < s.time);
                }
            }
            assert forall|k: int| 0 <= k < t.info.frames.len() implies {
                let f = #[trigger] t.info.frames[k];
                &&& f.0 < t.info.duration
                &&& f.0 % t.info.interval == 0
                &&& f.1 == frame_name_text(f.0)
            } by {
                if k < s.info.frames.len() {
                    assert(t.info.frames[k] == s.info.frames[k]);
                }
            }
        },
        (PreviewStage::Sampling, EventView::Extracted(false)) | (
            PreviewStage::Recording,
            EventView::Written(_),
        ) => {
            assert(t.info.frames.subrange(0, s.info.frames.len() as int) =~= s.info.frames);
            if (s.info.interval as int) < s.info.duration - s.time {
                vstd::arithmetic::div_mod::lemma_mod_add_multiples_vanish(
                    s.time as int,
                    s.info.interval as int,
                );
                assert(s.time + s.info.interval == s.info.interval + s.time);
            }
        },
        _ => {
            if s.stage == PreviewStage::Starting || s.stage == PreviewStage::Sampling || s.stage
                == PreviewStage::Recording {
                assert(t.info.frames.subrange(0, s.info.frames.len() as int) =~= s.info.frames);
            }
        },
    }
}

/// A preview request: the video, where its preview lives, the stage
/// reached, the manifest, and the time of the frame being taken.
pub struct PreviewJob {
    pub source: String,
    pub key: String,
    pub dir: String,
    pub info_path: String,
    pub temp_path: String,
    pub stage: PreviewStage,
    pub info: VideoPreviewInfo,
    pub time: u64,
}

impl PreviewJob {
    pub open spec fn state(&self) -> PreviewState {
        PreviewState { stage: self.stage, info: self.info@, time: self.time }
    }
}

/// `action` is the work that `job` asks for in its stage.
pub open spec fn preview_action(job: &PreviewJob, action: &PreviewAction) -> bool {
    match job.stage {
        PreviewStage::Reading | PreviewStage::Rereading => action matches PreviewAction::ReadManifest(p)
            && p@ == job.info_path@,
        PreviewStage::Locking => action matches PreviewAction::AcquireLock(k) && k@ == job.key@,
        PreviewStage::Preparing => action matches PreviewAction::CreateDir(d) && d@ == job.dir@,
        PreviewStage::Probing => action matches PreviewAction::RunProbe(a) && seg_views(a@)
            == probe_args_text(job.source@),
        PreviewStage::Starting | PreviewStage::Recording => action matches PreviewAction::WriteManifest {
            temp,
            path,
            info,
        } && temp@ == job.temp_path@ && path@ == job.info_path@ && info@ == job.info@,
        PreviewStage::Sampling => action matches PreviewAction::RunTool(a) && seg_views(a@)
            == frame_args_text(job.source@, child_path(job.dir@, frame_name_text(job.time)), job.time),
        PreviewStage::Ready => action matches PreviewAction::Finish(Some(i)) && i@ == job.info@,
        PreviewStage::Unavailable => action matches PreviewAction::Finish(None),
        PreviewStage::Failed => action matches PreviewAction::Fail(AppError::Internal(_)),
    }
}

/// The first stage of a preview request: previews are made of videos only,
/// and only with the tools.
pub open spec fn preview_start(kind: MediaKind, tool_available: bool) -> PreviewStage {
    if tool_available && kind == MediaKind::Video {
        PreviewStage::Reading
    } else {
        PreviewStage::Unavailable
    }
}

impl PreviewJob {
    /// Starts the preview request for the video `source` in `video_dir`,
    /// whose request path has the digest `digest`.
    pub fn with_digest(
        video_dir: &str,
        digest: &str,
        source: &str,
        kind: MediaKind,
        tool_available: bool,
    ) -> (r: (PreviewJob, PreviewAction))
        ensures
            r.0.source@ == source@,
            r.0.key@ == digest@,
            r.0.dir@ == preview_dir_text(video_dir@, digest@),
            r.0.info_path@ == child_path(r.0.dir@, "info.json"@),
            r.0.temp_path@ == child_path(r.0.dir@, "info.json.tmp"@),
            r.0.stage == preview_start(kind, tool_available),
            preview_inv(r.0.state()),
            preview_action(&r.0, &r.1),
    {
        let dir = preview_dir_from_digest(video_dir, digest);
        let info_path = child(dir.as_str(), "info.json");
        let temp_path = child(dir.as_str(), "info.json.tmp");
        let stage = if tool_available && kind == MediaKind::Video {
            PreviewStage::Reading
        } else {
            PreviewStage::Unavailable
        };
        let job = PreviewJob {
            source: source.to_owned(),
            key: digest.to_owned(),
            dir,
            info_path,
            temp_path,
            stage,
            info: VideoPreviewInfo { duration: 0, interval: 100, thumbnails: Vec::new(), expected_count: 1 },
            time: 0,
        };
        let action = job.action();
        (job, action)
    }

    /// Starts the preview request for the video `source` in `video_dir`,
    /// requested as `rel_path`.
    pub fn new(
        video_dir: &str,
        rel_path: &str,
        source: &str,
        kind: MediaKind,
        tool_available: bool,
    ) -> (r: (PreviewJob, PreviewAction))
        ensures
            r.0.source@ == source@,
            r.0.key@ == digest_hex(rel_path@),
            r.0.dir@ == preview_dir_text(video_dir@, digest_hex(rel_path@)),
            r.0.info_path@ == child_path(r.0.dir@, "info.json"@),
            r.0.temp_path@ == child_path(r.0.dir@, "info.json.tmp"@),
            r.0.stage == preview_start(kind, tool_available),
            preview_inv(r.0.state()),
            preview_action(&r.0, &r.1),
    {
        let digest = path_digest(rel_path);
        PreviewJob::with_digest(video_dir, digest.as_str(), source, kind, tool_available)
    }

    /// The work this job asks for in its stage.
    pub fn action(&self) -> (r: PreviewAction)
        ensures
            preview_action(self, &r),
    {
        match self.stage {
            PreviewStage::Reading | PreviewStage::Rereading => PreviewAction::ReadManifest(
                self.info_path.clone(),
            ),
            PreviewStage::Locking => PreviewAction::AcquireLock(self.key.clone()),
            PreviewStage::Preparing => PreviewAction::CreateDir(self.dir.clone()),
            PreviewStage::Probing => PreviewAction::RunProbe(probe_args(self.source.as_str())),
            PreviewStage::Starting | PreviewStage::Recording => PreviewAction::WriteManifest {
                temp: self.temp_path.clone(),
                path: self.info_path.clone(),
                info: self.info.copy(),
            },
            PreviewStage::Sampling => {
                let name = frame_name(self.time);
                let dest = child(self.dir.as_str(), name.as_str());
                PreviewAction::RunTool(frame_args(self.source.as_str(), dest.as_str(), self.time))
            },
            PreviewStage::Ready => PreviewAction::Finish(Some(self.info.copy())),
            PreviewStage::Unavailable => PreviewAction::Finish(None),
            PreviewStage::Failed => PreviewAction::Fail(
                AppError::Internal("Failed to generate the video preview".to_owned()),
            ),
        }
    }

    fn after_sample(&mut self)
        requires
            old(self).stage == PreviewStage::Sampling || old(self).stage == PreviewStage::Recording,
        ensures
            final(self).state() == after_sample(old(self).state()),
            final(self).source == old(self).source,
            final(self).key == old(self).key,
            final(self).dir == old(self).dir,
            final(self).info_path == old(self).info_path,
            final(self).temp_path == old(self).temp_path,
    {
        if self.time < self.info.duration && self.info.interval < self.info.duration - self.time {
            self.time = self.time + self.info.interval;
            self.stage = PreviewStage::Sampling;
        } else {
            self.stage = PreviewStage::Ready;
        }
    }

    /// Takes in what happened to the work asked for, and asks for the next.
    pub fn advance(&mut self, event: PreviewEvent) -> (r: PreviewAction)
        ensures
            final(self).state() == preview_next(old(self).state(), event@),
            preview_inv(old(self).state()) ==> preview_inv(final(self).state()),
            final(self).source == old(self).source,
            final(self).key == old(self).key,
            final(self).dir == old(self).dir,
            final(self).info_path == old(self).info_path,
            final(self).temp_path == old(self).temp_path,
            preview_action(&*final(self), &r),
    {
        proof {
            if preview_inv(self.state()) {
                lemma_manifest_stays_valid(self.state(), event@);
            }
        }
        match (self.stage, event) {
            (PreviewStage::Reading, PreviewEvent::Manifest(Some(m))) => {
                self.info = m;
                self.stage = PreviewStage::Ready;
            },
            (PreviewStage::Reading, PreviewEvent::Manifest(None)) => {
                self.stage = PreviewStage::Locking;
            },
            (PreviewStage::Locking, PreviewEvent::Locked) => {
                self.stage = PreviewStage::Rereading;
            },
            (PreviewStage::Rereading, PreviewEvent::Manifest(Some(m))) => {
                self.info = m;
                self.stage = PreviewStage::Ready;
            },
            (PreviewStage::Rereading, PreviewEvent::Manifest(None)) => {
                self.stage = PreviewStage::Preparing;
            },
            (PreviewStage::Preparing, PreviewEvent::DirCreated(ok)) => {
                self.stage = if ok {
                    PreviewStage::Probing
                } else {
                    PreviewStage::Failed
                };
            },
            (PreviewStage::Probing, PreviewEvent::Probed(Some(out))) => {
                match parse_duration(out.as_str()) {
                    Some(d) => {
                        let interval = preview_interval(d);
                        let expected = expected_count(d, interval);
                        self.info = VideoPreviewInfo {
                            duration: d,
                            interval,
                            thumbnails: Vec::new(),
                            expected_count: expected,
                        };
                        assert(frames_of(self.info.thumbnails@) =~= seq![]);
                        self.time = 0;
                        self.stage = PreviewStage::Starting;
                    },
                    None => {
                        self.stage = PreviewStage::Failed;
                    },
                }
            },
            (PreviewStage::Probing, PreviewEvent::Probed(None)) => {
                self.stage = PreviewStage::Failed;
            },
            (PreviewStage::Starting, PreviewEvent::Written(ok)) => {
                if !ok {
                    self.stage = PreviewStage::Failed;
                } else if 0 < self.info.duration {
                    self.time = 0;
                    self.stage = PreviewStage::Sampling;
                } else {
                    self.stage = PreviewStage::Ready;
                }
            },
            (PreviewStage::Sampling, PreviewEvent::Extracted(ok)) => {
                if ok {
                    let ghost before = self.info.thumbnails@;
                    let name = frame_name(self.time);
                    self.info.thumbnails.push(VideoThumbnail { time: self.time, filename: name });
                    assert(frames_of(self.info.thumbnails@) =~= frames_of(before).push(
                        (self.time, frame_name_text(self.time)),
                    ));
                    self.stage = PreviewStage::Recording;
                } else {
                    self.after_sample();
                }
            },
            (PreviewStage::Recording, PreviewEvent::Written(_)) => {
                self.after_sample();
            },
            (_, _) => {},
        }
        self.action()
    }

    /// Whether the request is answered.
    pub fn is_done(&self) -> (r: bool)
        ensures
            r == (self.stage == PreviewStage::Ready || self.stage == PreviewStage::Unavailable
                || self.stage == PreviewStage::Failed),
    {
        self.stage == PreviewStage::Ready || self.stage == PreviewStage::Unavailable || self.stage
            == PreviewStage::Failed
    }
}

/// How far apart two times are.
pub open spec fn time_gap(a: u64, b: u64) -> int {
    if a >= b {
        a - b
    } else {
        b - a
    }
}

/// Frame `i` is the one nearest to `target`, and the first of those as near.
pub open spec fn is_closest(frames: Seq<(u64, Seq<char>)>, target: u64, i: int) -> bool {
    &&& 0 <= i < frames.len()
    &&& forall|j: int|
        0 <= j < frames.len() ==> time_gap(frames[i].0, target) <= time_gap(
            #[trigger] frames[j].0,
            target,
        )
    &&& forall|j: int|
        0 <= j < i ==> time_gap(#[trigger] frames[j].0, target) > time_gap(frames[i].0, target)
}

fn gap(a: u64, b: u64) -> (r: u64)
    ensures
        r == time_gap(a, b),
{
    if a >= b {
        a - b
    } else {
        b - a
    }
}

/// The frame nearest to `target`; none when no frame is taken yet.
pub fn closest_frame(info: &VideoPreviewInfo, target: u64) -> (r: Option<usize>)
    ensures
        r is None <==> info@.frames.len() == 0,
        r matches Some(i) ==> is_closest(info@.frames, target, i as int),
{
    let frames = &info.thumbnails;
    if frames.len() == 0 {
        return None;
    }
    let ghost f = info@.frames;
    let mut best: usize = 0;
    let mut best_gap = gap(frames[0].time, target);
    let mut i: usize = 1;
    while i < frames.len()
        invariant
            f == frames_of(frames@),
            1 <= i <= frames@.len(),
            best < i,
            best_gap == time_gap(f[best as int].0, target),
            forall|j: int| 0 <= j < i ==> best_gap <= time_gap(#[trigger] f[j].0, target),
            forall|j: int| 0 <= j < best ==> time_gap(#[trigger] f[j].0, target) > best_gap,
        decreases frames@.len() - i,
    {
        let g = gap(frames[i].time, target);
        if g < best_gap {
            best = i;
            best_gap = g;
        }
        i = i + 1;
    }
    Some(best)
}

/// The file of the preview frame nearest to `target_time`, in the preview
/// directory `preview_dir`; none when no frame is taken yet.
pub fn get_preview_thumbnail_path(
    preview_dir: &str,
    target_time: u64,
    preview_info: &VideoPreviewInfo,
) -> (r: Option<String>)
    ensures
        r is None <==> preview_info@.frames.len() == 0,
        r matches Some(p) ==> exists|i: int|
            is_closest(preview_info@.frames, target_time, i) && p@ == child_path(
                preview_dir@,
                preview_info@.frames[i].1,
            ),
{
    match closest_frame(preview_info, target_time) {
        Some(i) => Some(child(preview_dir, preview_info.thumbnails[i].filename.as_str())),
        None => None,
    }
}

} // verus!
