use media_serve::previews::{
    closest_frame, expected_count, frame_args, frame_name, get_preview_thumbnail_path,
    parse_duration, preview_interval, probe_args, seconds_arg, PreviewAction, PreviewEvent,
    PreviewJob, PreviewStage, VideoPreviewInfo, VideoThumbnail,
};
use media_serve::media::MediaKind;

fn frame(time: u64) -> VideoThumbnail {
    VideoThumbnail { time, filename: frame_name(time) }
}

#[test]
fn duration_from_probe_output() {
    assert_eq!(parse_duration("10.000000\n"), Some(1000));
    assert_eq!(parse_duration("  12.349\r\n"), Some(1234));
    assert_eq!(parse_duration("7"), Some(700));
    assert_eq!(parse_duration("7."), Some(700));
    assert_eq!(parse_duration("0.5"), Some(50));
    assert_eq!(parse_duration("N/A"), None);
    assert_eq!(parse_duration(""), None);
    assert_eq!(parse_duration("1.2.3"), None);
    assert_eq!(parse_duration(".5"), None);
}

#[test]
fn interval_is_a_hundredth_but_at_least_a_second() {
    assert_eq!(preview_interval(1000), 100);
    assert_eq!(preview_interval(60_000), 600);
    assert_eq!(preview_interval(0), 100);
    assert_eq!(expected_count(1000, 200), 5);
    assert_eq!(expected_count(1050, 100), 11);
    assert_eq!(expected_count(0, 100), 1);
}

#[test]
fn frame_names_and_seek_times() {
    assert_eq!(frame_name(0), "thumb_00000.00.jpg");
    assert_eq!(frame_name(200), "thumb_00002.00.jpg");
    assert_eq!(frame_name(12345), "thumb_00123.45.jpg");
    assert_eq!(frame_name(12_345_678), "thumb_123456.78.jpg");
    assert_eq!(seconds_arg(200), "2");
    assert_eq!(seconds_arg(250), "2.5");
    assert_eq!(seconds_arg(205), "2.05");
    assert_eq!(probe_args("/v.mp4").last().map(|s| s.as_str()), Some("/v.mp4"));
    assert_eq!(frame_args("/v.mp4", "/d/f.jpg", 250)[2], "2.5");
}

fn drive_from_start(duration: u64, interval: u64, fail_at: Option<u64>) -> (Vec<VideoPreviewInfo>, VideoPreviewInfo) {
    let (mut job, _) = PreviewJob::with_digest("/r", "d", "/r/v.mp4", MediaKind::Video, true);
    job.stage = PreviewStage::Starting;
    job.info = VideoPreviewInfo {
        duration,
        interval,
        thumbnails: Vec::new(),
        expected_count: expected_count(duration, interval),
    };
    let mut action = job.action();
    let mut written = Vec::new();
    loop {
        let event = match action {
            PreviewAction::WriteManifest { info, .. } => {
                written.push(info);
                PreviewEvent::Written(true)
            }
            PreviewAction::RunTool(args) => {
                let ok = fail_at.map_or(true, |t| args[2] != seconds_arg(t));
                PreviewEvent::Extracted(ok)
            }
            PreviewAction::Finish(Some(info)) => return (written, info),
            _ => panic!("unexpected action"),
        };
        action = job.advance(event);
    }
}

#[test]
fn ten_seconds_at_two_second_interval() {
    let (written, info) = drive_from_start(1000, 200, None);
    let times: Vec<u64> = info.thumbnails.iter().map(|f| f.time).collect();
    assert_eq!(times, vec![0, 200, 400, 600, 800]);
    assert_eq!(info.expected_count, 5);
    // the manifest is written before any frame and after each one
    assert_eq!(written.len(), 6);
    for (k, m) in written.iter().enumerate() {
        assert_eq!(m.thumbnails.len(), k);
        assert!(m.thumbnails.windows(2).all(|w| w[0].time < w[1].time));
        assert!(m.thumbnails.iter().all(|f| f.time < m.duration && f.filename == frame_name(f.time)));
    }
}

#[test]
fn failed_frame_is_skipped() {
    let (written, info) = drive_from_start(1000, 200, Some(400));
    let times: Vec<u64> = info.thumbnails.iter().map(|f| f.time).collect();
    assert_eq!(times, vec![0, 200, 600, 800]);
    assert_eq!(written.len(), 5);
}

#[test]
fn full_preview_run() {
    let (mut job, a) = PreviewJob::with_digest("/r/videos", "d", "/r/videos/v.mp4", MediaKind::Video, true);
    assert!(matches!(a, PreviewAction::ReadManifest(ref p) if p == "/r/videos/.video-previews/d/info.json"));
    assert!(matches!(job.advance(PreviewEvent::Manifest(None)), PreviewAction::AcquireLock(ref k) if k == "d"));
    assert!(matches!(job.advance(PreviewEvent::Locked), PreviewAction::ReadManifest(_)));
    assert!(matches!(job.advance(PreviewEvent::Manifest(None)), PreviewAction::CreateDir(ref d) if d == "/r/videos/.video-previews/d"));
    assert!(matches!(job.advance(PreviewEvent::DirCreated(true)), PreviewAction::RunProbe(_)));
    match job.advance(PreviewEvent::Probed(Some("3.5\n".to_string()))) {
        PreviewAction::WriteManifest { temp, path, info } => {
            assert_eq!(temp, "/r/videos/.video-previews/d/info.json.tmp");
            assert_eq!(path, "/r/videos/.video-previews/d/info.json");
            assert_eq!(info.duration, 350);
            assert_eq!(info.interval, 100);
            assert_eq!(info.expected_count, 4);
            assert!(info.thumbnails.is_empty());
        }
        _ => panic!("expected the first manifest"),
    }
    match job.advance(PreviewEvent::Written(true)) {
        PreviewAction::RunTool(args) => {
            assert_eq!(args[2], "0");
            assert_eq!(args[11], "/r/videos/.video-previews/d/thumb_00000.00.jpg");
        }
        _ => panic!("expected a frame"),
    }
}

#[test]
fn existing_manifest_is_returned() {
    let (mut job, _) = PreviewJob::with_digest("/r", "d", "/r/v.mp4", MediaKind::Video, true);
    let m = VideoPreviewInfo { duration: 500, interval: 100, thumbnails: vec![frame(0)], expected_count: 5 };
    match job.advance(PreviewEvent::Manifest(Some(m))) {
        PreviewAction::Finish(Some(info)) => assert_eq!(info.thumbnails.len(), 1),
        _ => panic!("expected the manifest"),
    }
}

#[test]
fn no_preview_without_tool_or_for_images() {
    let (_, a) = PreviewJob::with_digest("/r", "d", "/r/v.mp4", MediaKind::Video, false);
    assert!(matches!(a, PreviewAction::Finish(None)));
    let (_, a) = PreviewJob::with_digest("/r", "d", "/r/a.png", MediaKind::Image, true);
    assert!(matches!(a, PreviewAction::Finish(None)));
}

#[test]
fn probe_failure_fails_the_build() {
    let (mut job, _) = PreviewJob::with_digest("/r", "d", "/r/v.mp4", MediaKind::Video, true);
    job.advance(PreviewEvent::Manifest(None));
    job.advance(PreviewEvent::Locked);
    job.advance(PreviewEvent::Manifest(None));
    job.advance(PreviewEvent::DirCreated(true));
    assert!(matches!(job.advance(PreviewEvent::Probed(Some("N/A".to_string()))), PreviewAction::Fail(_)));
}

#[test]
fn nearest_frame_is_found() {
    let info = VideoPreviewInfo {
        duration: 1000,
        interval: 200,
        thumbnails: vec![frame(0), frame(200), frame(400)],
        expected_count: 5,
    };
    assert_eq!(closest_frame(&info, 290), Some(1));
    assert_eq!(closest_frame(&info, 300), Some(1));
    assert_eq!(closest_frame(&info, 5000), Some(2));
    assert_eq!(
        get_preview_thumbnail_path("/r/.video-previews/d", 390, &info).as_deref(),
        Some("/r/.video-previews/d/thumb_00004.00.jpg")
    );
    let empty = VideoPreviewInfo { duration: 0, interval: 100, thumbnails: vec![], expected_count: 1 };
    assert_eq!(closest_frame(&empty, 0), None);
    assert_eq!(get_preview_thumbnail_path("/d", 0, &empty), None);
}
