use media_serve::keys::{thumb_cache_key, thumb_dir, thumb_file};
use media_serve::media::MediaKind;
use media_serve::thumbnails::{
    build_image_thumbnail, thumbnail_dims, video_thumbnail_args, ThumbAction, ThumbEvent, ThumbJob,
};
use std::collections::HashSet;

fn png_bytes(width: u32, height: u32) -> Vec<u8> {
    let img = image::DynamicImage::new_rgb8(width, height);
    let mut out = std::io::Cursor::new(Vec::new());
    img.write_to(&mut out, image::ImageFormat::Png).unwrap();
    out.into_inner()
}

fn jpeg_dims(bytes: &[u8]) -> (u32, u32) {
    let img = image::load_from_memory(bytes).unwrap();
    (img.width(), img.height())
}

#[test]
fn thumb_key_is_digest_and_width() {
    let key = thumb_cache_key("photos/cat.jpg", 320);
    let digest = blake3::hash("photos/cat.jpg".as_bytes()).to_string();
    assert_eq!(key, format!("{}-w320", digest));
    assert_eq!(digest.len(), 64);
    assert_ne!(thumb_cache_key("photos/cat.jpg", 320), thumb_cache_key("photos/dog.jpg", 320));
    assert_eq!(thumb_dir("/r"), "/r/.cache/thumbs");
    assert_eq!(thumb_file("/r", "k"), "/r/.cache/thumbs/k.jpg");
}

#[test]
fn dims_scale_longer_edge_to_width() {
    assert_eq!(thumbnail_dims(1000, 500, 320), Some((320, 160)));
    assert_eq!(thumbnail_dims(500, 1000, 320), Some((160, 320)));
    assert_eq!(thumbnail_dims(333, 1000, 100), Some((33, 100)));
}

#[test]
fn dims_keep_at_least_one_pixel() {
    assert_eq!(thumbnail_dims(10000, 1, 100), Some((100, 1)));
    assert_eq!(thumbnail_dims(1, 10000, 100), Some((1, 100)));
    assert_eq!(thumbnail_dims(50, 40, 0), Some((1, 1)));
}

#[test]
fn elongated_image_keeps_its_thin_edge() {
    let out = build_image_thumbnail(&png_bytes(1000, 5), 100).unwrap();
    assert_eq!(jpeg_dims(&out), (100, 1));
}

#[test]
fn dims_never_upscale() {
    assert_eq!(thumbnail_dims(100, 50, 320), None);
    assert_eq!(thumbnail_dims(320, 200, 320), None);
}

#[test]
fn small_image_keeps_its_size() {
    let out = build_image_thumbnail(&png_bytes(100, 50), 320).unwrap();
    assert_eq!(&out[..2], &[0xFF, 0xD8]);
    assert_eq!(jpeg_dims(&out), (100, 50));
}

#[test]
fn large_image_is_scaled_down() {
    let out = build_image_thumbnail(&png_bytes(640, 320), 320).unwrap();
    assert_eq!(jpeg_dims(&out), (320, 160));
}

#[test]
fn undecodable_image_is_internal_error() {
    let r = build_image_thumbnail(b"not an image", 320);
    assert!(matches!(r, Err(media_serve::error::AppError::Internal(_))));
}

#[test]
fn video_args_cap_both_edges() {
    let args = video_thumbnail_args("/r/v.mp4", "/r/.cache/thumbs/k.jpg", 320);
    let expected: Vec<String> = [
        "-y", "-ss", "1", "-i", "/r/v.mp4", "-frames:v", "1", "-vf",
        "scale='min(320,iw)':'min(320,ih)':force_original_aspect_ratio=decrease",
        "-q:v", "2", "/r/.cache/thumbs/k.jpg",
    ]
    .iter()
    .map(|s| s.to_string())
    .collect();
    assert_eq!(args, expected);
}

#[test]
fn image_job_builds_under_lock() {
    let (mut job, a) = ThumbJob::with_key("/r", "k", "/r/a.png", MediaKind::Image, 320, false);
    assert!(matches!(a, ThumbAction::CheckExists(ref p) if p == "/r/.cache/thumbs/k.jpg"));
    assert!(matches!(job.advance(ThumbEvent::Exists(false)), ThumbAction::AcquireLock(ref k) if k == "k"));
    assert!(matches!(job.advance(ThumbEvent::Locked), ThumbAction::CheckExists(_)));
    assert!(matches!(job.advance(ThumbEvent::Exists(false)), ThumbAction::CreateDir(ref d) if d == "/r/.cache/thumbs"));
    match job.advance(ThumbEvent::DirCreated(true)) {
        ThumbAction::EncodeImage { source, dest, width } => {
            assert_eq!(source, "/r/a.png");
            assert_eq!(dest, "/r/.cache/thumbs/k.part.jpg");
            assert_eq!(width, 320);
        }
        other => panic!("unexpected {:?}", other),
    }
    match job.advance(ThumbEvent::Built(true)) {
        ThumbAction::MoveIntoPlace { from, to } => {
            assert_eq!(from, "/r/.cache/thumbs/k.part.jpg");
            assert_eq!(to, "/r/.cache/thumbs/k.jpg");
        }
        other => panic!("unexpected {:?}", other),
    }
    assert!(!job.is_done());
    assert!(matches!(job.advance(ThumbEvent::Moved(true)), ThumbAction::Finish(Some(ref p)) if p == "/r/.cache/thumbs/k.jpg"));
    assert!(job.is_done());
}

#[test]
fn existing_thumbnail_is_served_without_work() {
    let (mut job, _) = ThumbJob::with_key("/r", "k", "/r/a.png", MediaKind::Image, 320, false);
    let a = job.advance(ThumbEvent::Exists(true));
    assert!(matches!(a, ThumbAction::Finish(Some(ref p)) if p == "/r/.cache/thumbs/k.jpg"));
    // nothing moves it any more
    assert!(matches!(job.advance(ThumbEvent::Built(false)), ThumbAction::Finish(Some(_))));
}

#[test]
fn non_media_has_no_thumbnail() {
    let (job, a) = ThumbJob::with_key("/r", "k", "/r/a.pdf", MediaKind::Pdf, 320, true);
    assert!(matches!(a, ThumbAction::Finish(None)));
    assert!(job.is_done());
}

#[test]
fn video_without_tool_degrades_to_placeholder() {
    let (mut job, _) = ThumbJob::with_key("/r", "k", "/r/v.mp4", MediaKind::Video, 320, false);
    job.advance(ThumbEvent::Exists(false));
    job.advance(ThumbEvent::Locked);
    assert!(matches!(job.advance(ThumbEvent::Exists(false)), ThumbAction::Finish(None)));
}

#[test]
fn failed_video_extraction_degrades_to_placeholder() {
    let (mut job, _) = ThumbJob::with_key("/r", "k", "/r/v.mp4", MediaKind::Video, 320, true);
    job.advance(ThumbEvent::Exists(false));
    job.advance(ThumbEvent::Locked);
    job.advance(ThumbEvent::Exists(false));
    match job.advance(ThumbEvent::DirCreated(true)) {
        ThumbAction::RunTool(args) => assert_eq!(args[11], "/r/.cache/thumbs/k.part.jpg"),
        other => panic!("unexpected {:?}", other),
    }
    assert!(matches!(job.advance(ThumbEvent::Built(false)), ThumbAction::Finish(None)));
}

#[test]
fn failed_move_of_image_is_an_error() {
    let (mut job, _) = ThumbJob::with_key("/r", "k", "/r/a.png", MediaKind::Image, 320, false);
    job.advance(ThumbEvent::Exists(false));
    job.advance(ThumbEvent::Locked);
    job.advance(ThumbEvent::Exists(false));
    job.advance(ThumbEvent::DirCreated(true));
    job.advance(ThumbEvent::Built(true));
    assert!(matches!(job.advance(ThumbEvent::Moved(false)), ThumbAction::Fail(_)));
}

#[test]
fn failed_image_build_is_an_error() {
    let (mut job, _) = ThumbJob::with_key("/r", "k", "/r/a.png", MediaKind::Image, 320, false);
    job.advance(ThumbEvent::Exists(false));
    job.advance(ThumbEvent::Locked);
    job.advance(ThumbEvent::Exists(false));
    job.advance(ThumbEvent::DirCreated(true));
    assert!(matches!(job.advance(ThumbEvent::Built(false)), ThumbAction::Fail(_)));
}

/// Fifty requests for one key, interleaved round-robin over a shared disk
/// and lock: one build, fifty answers with the same artifact.
#[test]
fn concurrent_requests_build_once() {
    let n = 50;
    let mut jobs = Vec::new();
    let mut pending = Vec::new();
    for _ in 0..n {
        let (job, a) = ThumbJob::with_key("/r", "k", "/r/a.png", MediaKind::Image, 320, false);
        jobs.push(job);
        pending.push(Some(a));
    }
    let mut exists = false;
    let mut owner: Option<usize> = None;
    let mut builds = 0;
    let mut answers = Vec::new();
    let mut done = HashSet::new();
    while done.len() < n {
        for i in 0..n {
            if done.contains(&i) {
                continue;
            }
            let action = pending[i].take().unwrap();
            let event = match &action {
                ThumbAction::CheckExists(_) => ThumbEvent::Exists(exists),
                ThumbAction::AcquireLock(_) => {
                    if owner.is_some() {
                        pending[i] = Some(action);
                        continue;
                    }
                    owner = Some(i);
                    ThumbEvent::Locked
                }
                ThumbAction::CreateDir(_) => ThumbEvent::DirCreated(true),
                ThumbAction::EncodeImage { .. } => {
                    builds += 1;
                    ThumbEvent::Built(true)
                }
                ThumbAction::MoveIntoPlace { .. } => {
                    exists = true;
                    ThumbEvent::Moved(true)
                }
                other => panic!("unexpected {:?}", other),
            };
            let next = jobs[i].advance(event);
            if let ThumbAction::Finish(r) = &next {
                answers.push(r.clone());
                done.insert(i);
                if owner == Some(i) {
                    owner = None;
                }
            }
            pending[i] = Some(next);
        }
    }
    assert_eq!(builds, 1);
    assert_eq!(answers.len(), n);
    assert!(answers.iter().all(|a| a.as_deref() == Some("/r/.cache/thumbs/k.jpg")));
}
