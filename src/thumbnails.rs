//! Thumbnails of images and videos, built at most once per key.
//!
//! A request is a [`ThumbJob`]: a step machine that the caller drives. It
//! names the next piece of outside work (check a file, take the key's lock,
//! create the cache directory, encode or extract into a side file, move it
//! into place), and the caller answers
//! with what happened. The lock is taken before the second check and held
//! until the job ends.
use vstd::prelude::*;
use crate::error::AppError;
use crate::keys::{thumb_cache_key, thumb_dir, thumb_file, thumb_dir_text, thumb_file_text, thumb_key_text, digest_hex};
use crate::media::MediaKind;
use crate::paths::seg_views;
use crate::text::{decimal_text, u64_text};

verus! {

/// The width and height that the header of the image held in `bytes`
/// gives, if its format is recognized and the header reads.
pub uninterp spec fn image_size(bytes: Seq<u8>) -> Option<(u32, u32)>;

/// The JPEG encoding of the image held in `bytes`, at its own size.
pub uninterp spec fn jpeg_reencoded(bytes: Seq<u8>) -> Option<Seq<u8>>;

/// The JPEG encoding of the image held in `bytes`, resized with the
/// Lanczos3 filter to fit `width` x `height`.
pub uninterp spec fn jpeg_resized(bytes: Seq<u8>, width: u32, height: u32) -> Option<Seq<u8>>;

pub open spec fn bytes_opt_view(o: Option<Vec<u8>>) -> Option<Seq<u8>> {
    match o {
        Some(b) => Some(b@),
        None => None,
    }
}

/// Relies on `ImageReader::with_guessed_format` and
/// `ImageReader::into_dimensions`: the size the image's header gives, a
/// function of the bytes alone.
#[verifier::external_body]
fn read_image_size(bytes: &[u8]) -> (r: Option<(u32, u32)>)
    ensures
        r == image_size(bytes@),
{
    match image::ImageReader::new(std::io::Cursor::new(bytes)).with_guessed_format() {
        Ok(reader) => match reader.into_dimensions() {
            Ok(size) => Some(size),
            Err(_) => None,
        },
        Err(_) => None,
    }
}

/// Relies on `image::load_from_memory` and `DynamicImage::write_to` with
/// `ImageFormat::Jpeg`: the decoded image encoded as JPEG, a function of the
/// bytes alone.
#[verifier::external_body]
fn reencode_jpeg(bytes: &[u8]) -> (r: Option<Vec<u8>>)
    ensures
        bytes_opt_view(r) == jpeg_reencoded(bytes@),
{
    let img = match image::load_from_memory(bytes) {
        Ok(img) => img,
        Err(_) => return None,
    };
    let mut out = std::io::Cursor::new(Vec::new());
    match img.write_to(&mut out, image::ImageFormat::Jpeg) {
        Ok(()) => Some(out.into_inner()),
        Err(_) => None,
    }
}

/// Relies on `image::load_from_memory`, `DynamicImage::resize` with the
/// Lanczos3 filter and `DynamicImage::write_to` with `ImageFormat::Jpeg`:
/// the decoded image resized and encoded as JPEG, a function of the bytes
/// and the size alone.
#[verifier::external_body]
fn resize_to_jpeg(bytes: &[u8], width: u32, height: u32) -> (r: Option<Vec<u8>>)
    ensures
        bytes_opt_view(r) == jpeg_resized(bytes@, width, height),
{
    let img = match image::load_from_memory(bytes) {
        Ok(img) => img,
        Err(_) => return None,
    };
    let resized = img.resize(width, height, image::imageops::FilterType::Lanczos3);
    let mut out = std::io::Cursor::new(Vec::new());
    match resized.write_to(&mut out, image::ImageFormat::Jpeg) {
        Ok(()) => Some(out.into_inner()),
        Err(_) => None,
    }
}

/// `size` scaled by `target / m`, rounded down, but never below one pixel.
pub open spec fn scaled_edge(size: u32, target: u32, m: u32) -> u32 {
    let e = size * target / (m as int);
    if e >= 1 {
        e as u32
    } else {
        1
    }
}

/// The size an image of `width` x `height` is scaled to so that its longer
/// edge is `target`, keeping its aspect ratio (rounded down, at least one
/// pixel); `None` when the longer edge is already at most `target`, so the
/// image is never enlarged.
pub open spec fn thumbnail_size(width: u32, height: u32, target: u32) -> Option<(u32, u32)> {
    let m = if width >= height { width } else { height };
    if m <= target {
        None
    } else {
        Some((scaled_edge(width, target, m), scaled_edge(height, target, m)))
    }
}

/// Plans the scaling of an image for a thumbnail `target` pixels wide on
/// its longer edge.
pub fn thumbnail_dims(width: u32, height: u32, target: u32) -> (r: Option<(u32, u32)>)
    ensures
        r == thumbnail_size(width, height, target),
        r is None <==> (width <= target && height <= target),
        r matches Some((w, h)) ==> 1 <= w && 1 <= h,
        r matches Some((w, h)) ==> target >= 1 ==> w <= target && h <= target && (w == target || h
            == target),
{
    let m: u32 = if width >= height {
        width
    } else {
        height
    };
    if m <= target {
        return None;
    }
    assert((width as u64) * (target as u64) <= u64::MAX) by (nonlinear_arith)
        requires
            width <= u32::MAX,
            target <= u32::MAX,
    ;
    assert((height as u64) * (target as u64) <= u64::MAX) by (nonlinear_arith)
        requires
            height <= u32::MAX,
            target <= u32::MAX,
    ;
    let w = (width as u64) * (target as u64) / (m as u64);
    let h = (height as u64) * (target as u64) / (m as u64);
    proof {
        assert((width as int) * (target as int) / (m as int) <= target as int) by (nonlinear_arith)
            requires
                width <= m,
                m > 0,
        ;
        assert((height as int) * (target as int) / (m as int) <= target as int) by (nonlinear_arith)
            requires
                height <= m,
                m > 0,
        ;
        assert((m as int) * (target as int) / (m as int) == target as int) by (nonlinear_arith)
            requires
                m > 0,
        ;
    }
    let w: u32 = if w >= 1 {
        w as u32
    } else {
        1
    };
    let h: u32 = if h >= 1 {
        h as u32
    } else {
        1
    };
    Some((w, h))
}

/// The JPEG thumbnail of the image held in `bytes` for a planned size:
/// resized to it, or re-encoded at its own size when there is none.
pub open spec fn thumbnail_jpeg(bytes: Seq<u8>, size: Option<(u32, u32)>) -> Option<Seq<u8>> {
    match size {
        Some((w, h)) => jpeg_resized(bytes, w, h),
        None => jpeg_reencoded(bytes),
    }
}

/// Builds the JPEG thumbnail of the image held in `source`: scaled down to
/// `width` on its longer edge when it is larger, otherwise re-encoded at its
/// own size. An image that cannot be read or encoded is an internal error.
pub fn build_image_thumbnail(source: &[u8], width: u32) -> (r: Result<Vec<u8>, AppError>)
    ensures
        r is Ok <==> (image_size(source@) matches Some((w, h)) && thumbnail_jpeg(
            source@,
            thumbnail_size(w, h, width),
        ) is Some),
        r matches Ok(b) ==> (image_size(source@) matches Some((w, h)) && thumbnail_jpeg(
            source@,
            thumbnail_size(w, h, width),
        ) == Some(b@)),
        r matches Err(e) ==> e is Internal,
{
    let (w, h) = match read_image_size(source) {
        Some(size) => size,
        None => {
            return Err(AppError::Internal("Failed to decode image".to_owned()));
        },
    };
    let encoded = match thumbnail_dims(w, h, width) {
        Some((nw, nh)) => resize_to_jpeg(source, nw, nh),
        None => reencode_jpeg(source),
    };
    match encoded {
        Some(bytes) => Ok(bytes),
        None => Err(AppError::Internal("Failed to encode thumbnail".to_owned())),
    }
}

/// The arguments of the frame-extraction tool for a video thumbnail: one
/// frame near the first second, scaled so that neither edge exceeds `width`.
pub open spec fn video_thumb_args(source: Seq<char>, dest: Seq<char>, width: u32) -> Seq<Seq<char>> {
    seq![
        "-y"@,
        "-ss"@,
        "1"@,
        "-i"@,
        source,
        "-frames:v"@,
        "1"@,
        "-vf"@,
        "scale='min("@ + decimal_text(width as nat) + ",iw)':'min("@ + decimal_text(width as nat)
            + ",ih)':force_original_aspect_ratio=decrease"@,
        "-q:v"@,
        "2"@,
        dest,
    ]
}

pub fn video_thumbnail_args(source: &str, dest: &str, width: u32) -> (r: Vec<String>)
    ensures
        seg_views(r@) == video_thumb_args(source@, dest@, width),
{
    let w = u64_text(width as u64);
    let mut filter = "scale='min(".to_owned();
    filter.append(w.as_str());
    filter.append(",iw)':'min(");
    filter.append(w.as_str());
    filter.append(",ih)':force_original_aspect_ratio=decrease");
    let mut v: Vec<String> = Vec::new();
    v.push("-y".to_owned());
    v.push("-ss".to_owned());
    v.push("1".to_owned());
    v.push("-i".to_owned());
    v.push(source.to_owned());
    v.push("-frames:v".to_owned());
    v.push("1".to_owned());
    v.push("-vf".to_owned());
    v.push(filter);
    v.push("-q:v".to_owned());
    v.push("2".to_owned());
    v.push(dest.to_owned());
    assert(seg_views(v@) =~= video_thumb_args(source@, dest@, width));
    v
}

/// Where a thumbnail request stands.
#[derive(Debug, Clone, Copy, PartialEq, Eq, Structural)]
pub enum ThumbStage {
    /// First look for the artifact, without the lock.
    Checking,
    /// Waiting for the key's lock.
    Locking,
    /// Second look, under the lock.
    Rechecking,
    /// Creating the cache directory, under the lock.
    Preparing,
    /// Encoding or extracting into a side file, under the lock.
    Building,
    /// Moving the side file into place, under the lock.
    Publishing,
    /// Done: the artifact is there.
    Found,
    /// Done: no artifact can or should exist; a placeholder is served.
    Unavailable,
    /// Done: the build of an image failed.
    Failed,
}

/// What happened to the work a job asked for.
#[derive(Debug, Clone, Copy, PartialEq, Eq, Structural)]
pub enum ThumbEvent {
    /// Whether the artifact file exists.
    Exists(bool),
    /// The key's lock is held.
    Locked,
    /// Whether the cache directory could be created.
    DirCreated(bool),
    /// Whether the side file was written.
    Built(bool),
    /// Whether the side file was moved into place.
    Moved(bool),
}

/// The next piece of work of a thumbnail request.
#[derive(Debug)]
pub enum ThumbAction {
    /// Look whether this file exists.
    CheckExists(String),
    /// Take the lock of this key; hold it until the job ends.
    AcquireLock(String),
    /// Create this directory and its parents.
    CreateDir(String),
    /// Read the image at `source`, build its thumbnail with
    /// [`build_image_thumbnail`], and write it to `dest`.
    EncodeImage { source: String, dest: String, width: u32 },
    /// Run the frame-extraction tool with these arguments.
    RunTool(Vec<String>),
    /// Rename the file `from` to `to`, replacing it in one step.
    MoveIntoPlace { from: String, to: String },
    /// The request is answered: the artifact, or none.
    Finish(Option<String>),
    /// The request fails.
    Fail(AppError),
}

/// A thumbnail request: the source file, its kind, the width asked for,
/// whether the frame-extraction tool is there, where the artifact goes (and
/// the side file it is built in, so that no reader sees it half written),
/// and the stage reached.
pub struct ThumbJob {
    pub source: String,
    pub kind: MediaKind,
    pub width: u32,
    pub tool_available: bool,
    pub key: String,
    pub dir: String,
    pub path: String,
    pub part: String,
    pub stage: ThumbStage,
}

/// Whether a build is attempted once the artifact is known to be missing:
/// always for an image, for a video only with the tool.
pub open spec fn builds_artifact(kind: MediaKind, tool_available: bool) -> bool {
    kind == MediaKind::Image || (kind == MediaKind::Video && tool_available)
}

/// The first stage of a request for a file of `kind`.
pub open spec fn thumb_start(kind: MediaKind) -> ThumbStage {
    if kind == MediaKind::Image || kind == MediaKind::Video {
        ThumbStage::Checking
    } else {
        ThumbStage::Unavailable
    }
}

/// The stage after `event`; an event that does not answer the stage's work
/// leaves it where it is.
pub open spec fn thumb_next(
    kind: MediaKind,
    tool_available: bool,
    stage: ThumbStage,
    event: ThumbEvent,
) -> ThumbStage {
    match (stage, event) {
        (ThumbStage::Checking, ThumbEvent::Exists(true)) => ThumbStage::Found,
        (ThumbStage::Checking, ThumbEvent::Exists(false)) => ThumbStage::Locking,
        (ThumbStage::Locking, ThumbEvent::Locked) => ThumbStage::Rechecking,
        (ThumbStage::Rechecking, ThumbEvent::Exists(true)) => ThumbStage::Found,
        (ThumbStage::Rechecking, ThumbEvent::Exists(false)) => if builds_artifact(
            kind,
            tool_available,
        ) {
            ThumbStage::Preparing
        } else {
            ThumbStage::Unavailable
        },
        (ThumbStage::Preparing, ThumbEvent::DirCreated(true)) => ThumbStage::Building,
        (ThumbStage::Preparing, ThumbEvent::DirCreated(false)) => ThumbStage::Failed,
        (ThumbStage::Building, ThumbEvent::Built(true)) => ThumbStage::Publishing,
        (ThumbStage::Building, ThumbEvent::Built(false)) => if kind == MediaKind::Image {
            ThumbStage::Failed
        } else {
            ThumbStage::Unavailable
        },
        (ThumbStage::Publishing, ThumbEvent::Moved(true)) => ThumbStage::Found,
        (ThumbStage::Publishing, ThumbEvent::Moved(false)) => if kind == MediaKind::Image {
            ThumbStage::Failed
        } else {
            ThumbStage::Unavailable
        },
        _ => stage,
    }
}

/// Whether the job holds its key's lock in this stage.
pub open spec fn holds_lock(stage: ThumbStage) -> bool {
    stage == ThumbStage::Rechecking || stage == ThumbStage::Preparing || stage
        == ThumbStage::Building || stage == ThumbStage::Publishing
}

/// `action` is the work that `job` asks for in its stage.
pub open spec fn thumb_action(job: &ThumbJob, action: &ThumbAction) -> bool {
    match job.stage {
        ThumbStage::Checking | ThumbStage::Rechecking => action matches ThumbAction::CheckExists(p)
            && p@ == job.path@,
        ThumbStage::Locking => action matches ThumbAction::AcquireLock(k) && k@ == job.key@,
        ThumbStage::Preparing => action matches ThumbAction::CreateDir(d) && d@ == job.dir@,
        ThumbStage::Building => if job.kind == MediaKind::Image {
            action matches ThumbAction::EncodeImage { source, dest, width } && source@
                == job.source@ && dest@ == job.part@ && width == job.width
        } else {
            action matches ThumbAction::RunTool(args) && seg_views(args@) == video_thumb_args(
                job.source@,
                job.part@,
                job.width,
            )
        },
        ThumbStage::Publishing => action matches ThumbAction::MoveIntoPlace { from, to } && from@
            == job.part@ && to@ == job.path@,
        ThumbStage::Found => action matches ThumbAction::Finish(Some(p)) && p@ == job.path@,
        ThumbStage::Unavailable => action matches ThumbAction::Finish(None),
        ThumbStage::Failed => action matches ThumbAction::Fail(AppError::Internal(_)),
    }
}

impl ThumbJob {
    /// Starts the request for the thumbnail of the file `source`, of the
    /// given kind, at `width`, with its artifact keyed by `key` under the
    /// sandbox root `base`.
    pub fn with_key(
        base: &str,
        key: &str,
        source: &str,
        kind: MediaKind,
        width: u32,
        tool_available: bool,
    ) -> (r: (ThumbJob, ThumbAction))
        ensures
            r.0.source@ == source@,
            r.0.kind == kind,
            r.0.width == width,
            r.0.tool_available == tool_available,
            r.0.key@ == key@,
            r.0.dir@ == thumb_dir_text(base@),
            r.0.path@ == thumb_file_text(base@, key@),
            r.0.part@ == thumb_file_text(base@, key@ + ".part"@),
            r.0.stage == thumb_start(kind),
            thumb_action(&r.0, &r.1),
    {
        let stage = if kind.has_thumbnail() {
            ThumbStage::Checking
        } else {
            ThumbStage::Unavailable
        };
        let mut part_key = key.to_owned();
        part_key.append(".part");
        let job = ThumbJob {
            source: source.to_owned(),
            kind,
            width,
            tool_available,
            key: key.to_owned(),
            dir: thumb_dir(base),
            path: thumb_file(base, key),
            part: thumb_file(base, part_key.as_str()),
            stage,
        };
        let action = job.action();
        (job, action)
    }

    /// Starts the request for the thumbnail of `rel_path` at `width`; its key
    /// is the digest of `rel_path` and the width.
    pub fn new(
        base: &str,
        rel_path: &str,
        source: &str,
        kind: MediaKind,
        width: u32,
        tool_available: bool,
    ) -> (r: (ThumbJob, ThumbAction))
        ensures
            r.0.source@ == source@,
            r.0.kind == kind,
            r.0.width == width,
            r.0.tool_available == tool_available,
            r.0.key@ == thumb_key_text(digest_hex(rel_path@), width),
            r.0.dir@ == thumb_dir_text(base@),
            r.0.path@ == thumb_file_text(base@, r.0.key@),
            r.0.part@ == thumb_file_text(base@, r.0.key@ + ".part"@),
            r.0.stage == thumb_start(kind),
            thumb_action(&r.0, &r.1),
    {
        let key = thumb_cache_key(rel_path, width);
        ThumbJob::with_key(base, key.as_str(), source, kind, width, tool_available)
    }

    /// The work this job asks for in its stage.
    pub fn action(&self) -> (r: ThumbAction)
        ensures
            thumb_action(self, &r),
    {
        match self.stage {
            ThumbStage::Checking | ThumbStage::Rechecking => ThumbAction::CheckExists(
                self.path.clone(),
            ),
            ThumbStage::Locking => ThumbAction::AcquireLock(self.key.clone()),
            ThumbStage::Preparing => ThumbAction::CreateDir(self.dir.clone()),
            ThumbStage::Building => match self.kind {
                MediaKind::Image => ThumbAction::EncodeImage {
                    source: self.source.clone(),
                    dest: self.part.clone(),
                    width: self.width,
                },
                _ => ThumbAction::RunTool(
                    video_thumbnail_args(self.source.as_str(), self.part.as_str(), self.width),
                ),
            },
            ThumbStage::Publishing => ThumbAction::MoveIntoPlace {
                from: self.part.clone(),
                to: self.path.clone(),
            },
            ThumbStage::Found => ThumbAction::Finish(Some(self.path.clone())),
            ThumbStage::Unavailable => ThumbAction::Finish(None),
            ThumbStage::Failed => ThumbAction::Fail(
                AppError::Internal("Failed to build thumbnail".to_owned()),
            ),
        }
    }

    /// Takes in what happened to the work asked for, and asks for the next.
    pub fn advance(&mut self, event: ThumbEvent) -> (r: ThumbAction)
        ensures
            final(self).stage == thumb_next(old(self).kind, old(self).tool_available, old(self).stage, event),
            final(self).source == old(self).source,
            final(self).kind == old(self).kind,
            final(self).width == old(self).width,
            final(self).tool_available == old(self).tool_available,
            final(self).key == old(self).key,
            final(self).dir == old(self).dir,
            final(self).path == old(self).path,
            final(self).part == old(self).part,
            thumb_action(&*final(self), &r),
    {
        let next = match (self.stage, event) {
            (ThumbStage::Checking, ThumbEvent::Exists(true)) => ThumbStage::Found,
            (ThumbStage::Checking, ThumbEvent::Exists(false)) => ThumbStage::Locking,
            (ThumbStage::Locking, ThumbEvent::Locked) => ThumbStage::Rechecking,
            (ThumbStage::Rechecking, ThumbEvent::Exists(true)) => ThumbStage::Found,
            (ThumbStage::Rechecking, ThumbEvent::Exists(false)) => {
                if self.kind == MediaKind::Image || (self.kind == MediaKind::Video
                    && self.tool_available) {
                    ThumbStage::Preparing
                } else {
                    ThumbStage::Unavailable
                }
            },
            (ThumbStage::Preparing, ThumbEvent::DirCreated(true)) => ThumbStage::Building,
            (ThumbStage::Preparing, ThumbEvent::DirCreated(false)) => ThumbStage::Failed,
            (ThumbStage::Building, ThumbEvent::Built(true)) => ThumbStage::Publishing,
            (ThumbStage::Building, ThumbEvent::Built(false)) | (
                ThumbStage::Publishing,
                ThumbEvent::Moved(false),
            ) => {
                if self.kind == MediaKind::Image {
                    ThumbStage::Failed
                } else {
                    ThumbStage::Unavailable
                }
            },
            (ThumbStage::Publishing, ThumbEvent::Moved(true)) => ThumbStage::Found,
            (s, _) => s,
        };
        self.stage = next;
        self.action()
    }

    /// Whether the request is answered.
    pub fn is_done(&self) -> (r: bool)
        ensures
            r == (self.stage == ThumbStage::Found || self.stage == ThumbStage::Unavailable
                || self.stage == ThumbStage::Failed),
    {
        self.stage == ThumbStage::Found || self.stage == ThumbStage::Unavailable || self.stage
            == ThumbStage::Failed
    }
}

/// A thumbnail request for an existing artifact is answered at its first
/// check with that artifact, before it takes the lock: it never reaches the
/// stages that create the directory or build, and stays answered.
pub proof fn lemma_existing_artifact_not_rebuilt(
    kind: MediaKind,
    tool_available: bool,
    event: ThumbEvent,
)
    requires
        kind == MediaKind::Image || kind == MediaKind::Video,
    ensures
        thumb_start(kind) == ThumbStage::Checking,
        thumb_next(kind, tool_available, ThumbStage::Checking, ThumbEvent::Exists(true))
            == ThumbStage::Found,
        thumb_next(kind, tool_available, ThumbStage::Found, event) == ThumbStage::Found,
{
}

/// Many thumbnail requests for one key, run side by side: whether the
/// artifact exists, which request holds the key's lock, how many builds ran,
/// and the stage of each request.
pub struct ThumbWorld {
    pub exists: bool,
    pub owner: Option<nat>,
    pub builds: nat,
    pub stages: Seq<ThumbStage>,
}

/// `n` requests that have not started, with no artifact and the lock free.
pub open spec fn world_start(n: nat) -> ThumbWorld {
    ThumbWorld {
        exists: false,
        owner: None,
        builds: 0,
        stages: Seq::new(n, |i: int| ThumbStage::Checking),
    }
}

/// Who holds the lock after request `i` reaches `next`.
pub open spec fn owner_after(owner: Option<nat>, i: int, next: ThumbStage) -> Option<nat> {
    if holds_lock(next) {
        Some(i as nat)
    } else if owner == Some(i as nat) {
        None
    } else {
        owner
    }
}

/// Request `i`, for a file of `kind`, does its next piece of work, which
/// succeeds: a check sees the disk, the lock is taken only when free, a
/// build writes the side file, and the move puts the whole artifact in place.
pub open spec fn world_step(
    kind: MediaKind,
    tool_available: bool,
    w: ThumbWorld,
    i: int,
    w2: ThumbWorld,
) -> bool {
    let s = w.stages[i];
    let event = match s {
        ThumbStage::Checking | ThumbStage::Rechecking => ThumbEvent::Exists(w.exists),
        ThumbStage::Locking => ThumbEvent::Locked,
        ThumbStage::Preparing => ThumbEvent::DirCreated(true),
        ThumbStage::Building => ThumbEvent::Built(true),
        _ => ThumbEvent::Moved(true),
    };
    let next = thumb_next(kind, tool_available, s, event);
    &&& 0 <= i < w.stages.len()
    &&& s != ThumbStage::Found && s != ThumbStage::Unavailable && s != ThumbStage::Failed
    &&& s == ThumbStage::Locking ==> w.owner is None
    &&& w2.stages == w.stages.update(i, next)
    &&& w2.owner == owner_after(w.owner, i, next)
    &&& w2.exists == (w.exists || s == ThumbStage::Publishing)
    &&& w2.builds == (if s == ThumbStage::Building {
        w.builds + 1
    } else {
        w.builds
    })
}

pub open spec fn world_inv(kind: MediaKind, tool_available: bool, w: ThumbWorld) -> bool {
    &&& w.builds <= 1
    &&& w.exists ==> w.builds == 1
    &&& w.builds == 1 && !w.exists ==> (w.owner matches Some(j) && j < w.stages.len() && w.stages[j
        as int] == ThumbStage::Publishing)
    &&& forall|i: int|
        0 <= i < w.stages.len() && #[trigger] w.stages[i] == ThumbStage::Publishing ==> !w.exists
            && w.builds == 1
    &&& forall|i: int|
        0 <= i < w.stages.len() && holds_lock(#[trigger] w.stages[i]) ==> w.owner == Some(
            i as nat,
        )
    &&& forall|i: int|
        0 <= i < w.stages.len() && (#[trigger] w.stages[i] == ThumbStage::Preparing
            || w.stages[i] == ThumbStage::Building) ==> !w.exists && w.builds == 0 && builds_artifact(
            kind,
            tool_available,
        )
    &&& forall|i: int| 0 <= i < w.stages.len() ==> #[trigger] w.stages[i] != ThumbStage::Failed
    &&& forall|i: int|
        0 <= i < w.stages.len() && builds_artifact(kind, tool_available) ==> #[trigger] w.stages[i]
            != ThumbStage::Unavailable
    &&& forall|i: int| 0 <= i < w.stages.len() && #[trigger] w.stages[i] == ThumbStage::Found ==> w.exists
}

proof fn lemma_world_inv_step(
    kind: MediaKind,
    tool_available: bool,
    w: ThumbWorld,
    i: int,
    w2: ThumbWorld,
)
    requires
        world_inv(kind, tool_available, w),
        world_step(kind, tool_available, w, i, w2),
    ensures
        world_inv(kind, tool_available, w2),
{
    assert forall|j: int|
        0 <= j < w2.stages.len() && holds_lock(#[trigger] w2.stages[j]) implies w2.owner == Some(
        j as nat,
    ) by {
        if j != i {
            assert(w.stages[j] == w2.stages[j]);
            assert(w.owner == Some(j as nat));
        }
    }
}

/// However `n` requests for the thumbnail of one image, or of one video, for
/// one key interleave: at most one build runs; a request answered with the
/// artifact finds it whole; without a build to make (a video without the
/// tool) none runs; and otherwise, once every request is answered, exactly
/// one build has run and every answer is the artifact.
pub proof fn lemma_single_build(
    kind: MediaKind,
    tool_available: bool,
    n: nat,
    worlds: Seq<ThumbWorld>,
    picks: Seq<int>,
)
    requires
        kind == MediaKind::Image || kind == MediaKind::Video,
        worlds.len() == picks.len() + 1,
        worlds[0] == world_start(n),
        forall|k: int|
            0 <= k < picks.len() ==> world_step(
                kind,
                tool_available,
                worlds[k],
                #[trigger] picks[k],
                worlds[k + 1],
            ),
    ensures
        forall|k: int| 0 <= k < worlds.len() ==> (#[trigger] worlds[k]).builds <= 1,
        forall|k: int, i: int|
            0 <= k < worlds.len() && 0 <= i < worlds[k].stages.len() && (#[trigger] worlds[k].stages[i])
                == ThumbStage::Found ==> worlds[k].exists,
        !builds_artifact(kind, tool_available) ==> forall|k: int|
            0 <= k < worlds.len() ==> (#[trigger] worlds[k]).builds == 0,
        builds_artifact(kind, tool_available) && n > 0 && (forall|i: int|
            0 <= i < n ==> #[trigger] worlds.last().stages[i] == ThumbStage::Found
                || worlds.last().stages[i] == ThumbStage::Unavailable || worlds.last().stages[i]
                == ThumbStage::Failed) ==> worlds.last().builds == 1 && forall|i: int|
            0 <= i < n ==> #[trigger] worlds.last().stages[i] == ThumbStage::Found,
{
    assert forall|k: int| 0 <= k < worlds.len() implies world_inv(kind, tool_available, #[trigger] worlds[k]) by {
        lemma_world_trace_inv(kind, tool_available, worlds, picks, k);
    }
    assert forall|k: int| 0 <= k < worlds.len() implies (#[trigger] worlds[k]).builds <= 1 by {
        assert(world_inv(kind, tool_available, worlds[k]));
    }
    assert forall|k: int, i: int|
        0 <= k < worlds.len() && 0 <= i < worlds[k].stages.len() && (#[trigger] worlds[k].stages[i])
            == ThumbStage::Found implies worlds[k].exists by {
        assert(world_inv(kind, tool_available, worlds[k]));
    }
    if !builds_artifact(kind, tool_available) {
        assert forall|k: int| 0 <= k < worlds.len() implies (#[trigger] worlds[k]).builds == 0 by {
            lemma_no_build_without_tool(kind, tool_available, worlds, picks, k);
        }
    }
    let last = worlds.last();
    assert(world_inv(kind, tool_available, worlds[worlds.len() - 1]));
    lemma_world_stages_len(kind, tool_available, worlds, picks, worlds.len() - 1);
    if builds_artifact(kind, tool_available) && n > 0 && (forall|i: int|
        0 <= i < n ==> #[trigger] last.stages[i] == ThumbStage::Found || last.stages[i]
            == ThumbStage::Unavailable || last.stages[i] == ThumbStage::Failed) {
        assert(last.stages[0] == ThumbStage::Found);
    }
}

proof fn lemma_world_trace_inv(
    kind: MediaKind,
    tool_available: bool,
    worlds: Seq<ThumbWorld>,
    picks: Seq<int>,
    k: int,
)
    requires
        kind == MediaKind::Image || kind == MediaKind::Video,
        worlds.len() == picks.len() + 1,
        worlds[0] == world_start(worlds[0].stages.len()),
        forall|q: int|
            0 <= q < picks.len() ==> world_step(
                kind,
                tool_available,
                worlds[q],
                #[trigger] picks[q],
                worlds[q + 1],
            ),
        0 <= k < worlds.len(),
    ensures
        world_inv(kind, tool_available, worlds[k]),
    decreases k,
{
    if k > 0 {
        lemma_world_trace_inv(kind, tool_available, worlds, picks, k - 1);
        lemma_world_inv_step(kind, tool_available, worlds[k - 1], picks[k - 1], worlds[k]);
    }
}

proof fn lemma_no_build_without_tool(
    kind: MediaKind,
    tool_available: bool,
    worlds: Seq<ThumbWorld>,
    picks: Seq<int>,
    k: int,
)
    requires
        kind == MediaKind::Image || kind == MediaKind::Video,
        !builds_artifact(kind, tool_available),
        worlds.len() == picks.len() + 1,
        worlds[0] == world_start(worlds[0].stages.len()),
        forall|q: int|
            0 <= q < picks.len() ==> world_step(
                kind,
                tool_available,
                worlds[q],
                #[trigger] picks[q],
                worlds[q + 1],
            ),
        0 <= k < worlds.len(),
    ensures
        worlds[k].builds == 0,
    decreases k,
{
    if k > 0 {
        lemma_no_build_without_tool(kind, tool_available, worlds, picks, k - 1);
        lemma_world_trace_inv(kind, tool_available, worlds, picks, k - 1);
        assert(world_step(kind, tool_available, worlds[k - 1], picks[k - 1], worlds[k]));
    }
}

proof fn lemma_world_stages_len(
    kind: MediaKind,
    tool_available: bool,
    worlds: Seq<ThumbWorld>,
    picks: Seq<int>,
    k: int,
)
    requires
        worlds.len() == picks.len() + 1,
        forall|q: int|
            0 <= q < picks.len() ==> world_step(
                kind,
                tool_available,
                worlds[q],
                #[trigger] picks[q],
                worlds[q + 1],
            ),
        0 <= k < worlds.len(),
    ensures
        worlds[k].stages.len() == worlds[0].stages.len(),
    decreases k,
{
    if k > 0 {
        lemma_world_stages_len(kind, tool_available, worlds, picks, k - 1);
        assert(world_step(kind, tool_available, worlds[k - 1], picks[k - 1], worlds[k]));
    }
}

} // verus!
