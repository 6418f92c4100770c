use ywpm::display_mode::{AlignX, AlignY, DisplayMode, FitMode};
use ywpm::node::Wallpaper;
use ywpm::non_fitting::{
    find_non_fitting, get_display_resolution, get_files_info, is_codec_type_video, run,
    DisplayEntry, FileProbe, StreamInfo, VideoError,
};
use ywpm::resolution::Resolution;

fn wp(p: &str) -> Wallpaper {
    Wallpaper::new(p.to_string(), DisplayMode::new())
}

fn stream(codec: Option<&str>, w: Option<i64>, h: Option<i64>) -> StreamInfo {
    StreamInfo { codec_type: codec.map(|c| c.to_string()), width: w, height: h }
}

fn displays() -> Result<Vec<DisplayEntry>, String> {
    Ok(vec![
        DisplayEntry { id: 1, width: 1920, height: 1080 },
        DisplayEntry { id: 2, width: 1280, height: 1024 },
    ])
}

#[test]
fn choosing_the_display() {
    assert_eq!(get_display_resolution(&displays(), Some(2), false).ok(), Some(Resolution::new(1280, 1024)));
    assert_eq!(
        get_display_resolution(&displays(), Some(3), false).err().unwrap().message(),
        "Display with ID 3 not found"
    );
    assert_eq!(
        get_display_resolution(&displays(), None, false).err().unwrap().message(),
        "More than one display was detected. Use --display-id to specify the display id. Available displays: #1 (1920x1080), #2 (1280x1024)"
    );
    let one = Ok(vec![DisplayEntry { id: 9, width: 800, height: 600 }]);
    assert_eq!(get_display_resolution(&one, None, false).ok(), Some(Resolution::new(800, 600)));
    assert_eq!(
        get_display_resolution(&Ok(Vec::new()), None, true).err().unwrap().message(),
        "Ни один дисплей не найден"
    );
    assert_eq!(
        get_display_resolution(&Err("no X".to_string()), None, false).err().unwrap().message(),
        "no X"
    );
}

#[test]
fn codec_type() {
    assert!(is_codec_type_video(&Some("video".to_string())));
    assert!(!is_codec_type_video(&Some("audio".to_string())));
    assert!(!is_codec_type_video(&None));
}

fn sample() -> (Vec<Wallpaper>, Vec<FileProbe>) {
    let mut contain = wp("/contain.png");
    contain.mode = DisplayMode::new_with_fields(FitMode::Contain, AlignX::Center, AlignY::Center);
    let ws = vec![
        wp("/v.mp4"),
        wp("/fit.png"),
        wp("/bad.png"),
        wp("/wide.png"),
        contain,
        wp("/audio.mp3"),
        wp("/nores.mkv"),
        wp("/io.avi"),
        wp("/ok.mp4"),
    ];
    let ps = vec![
        FileProbe::Video(Ok(vec![stream(Some("audio"), None, None), stream(Some("video"), Some(1280), Some(720))])),
        FileProbe::Image { width: 3840, height: 2160 },
        FileProbe::CorruptedImage,
        FileProbe::Image { width: 2560, height: 1080 },
        FileProbe::Image { width: 100, height: 100 },
        FileProbe::Video(Ok(vec![stream(Some("audio"), None, None)])),
        FileProbe::Video(Ok(vec![stream(Some("video"), None, Some(5))])),
        FileProbe::Video(Err(VideoError::Io("broken pipe".to_string()))),
        FileProbe::Video(Ok(vec![stream(Some("video"), Some(1920), Some(1080))])),
    ];
    (ws, ps)
}

#[test]
fn files_info_in_two_passes() {
    let (ws, ps) = sample();
    let (infos, warning) = get_files_info(&ws, &ps);
    let paths: Vec<&str> = infos.iter().map(|i| i.path.as_str()).collect();
    assert_eq!(paths, vec!["/fit.png", "/wide.png", "/contain.png", "/v.mp4", "/ok.mp4"]);
    assert!(infos[3].is_video);
    assert_eq!(infos[3].resolution, Resolution::new(1280, 720));
    assert_eq!(
        warning.message(),
        "Warning: Image corrupted: '/bad.png'\n\
         Warning: File doesn't contain video stream: '/audio.mp3'\n\
         Warning: Unable to get video resolution: '/nores.mkv'\n\
         Warning: ffprobe I/O error: broken pipe: '/io.avi'\n"
    );
}

#[test]
fn short_report() {
    let (ws, ps) = sample();
    let w = find_non_fitting(&ws, &ps, &Resolution::new(1920, 1080), false);
    assert!(w.message().ends_with(
        "2560x1080, 64:27, /wide.png\n1280x720, 16:9, /v.mp4\n"
    ));
}

#[test]
fn verbose_report() {
    let (ws, ps) = sample();
    let m = run(&ws, &ps, &Ok(vec![DisplayEntry { id: 1, width: 1920, height: 1080 }]), None, true, false)
        .ok()
        .unwrap();
    assert!(m.ends_with(
        "Warning: image ratio (2560x1080, 64:27) doesn't match with display ratio (1920x1080, 16:9): '/wide.png'\n\
         Warning: video resolution (1280x720) doesn't match with display resolution (1920x1080): '/v.mp4'\n"
    ));
    assert!(run(&ws, &ps, &displays(), None, true, false).is_err());
}

#[test]
fn other_ffprobe_errors() {
    let ws = vec![wp("/x.webm")];
    let ps = vec![FileProbe::Video(Err(VideoError::Other("exit status 1".to_string())))];
    let (infos, warning) = get_files_info(&ws, &ps);
    assert!(infos.is_empty());
    assert_eq!(warning.message(), "Warning: ffprobe error: exit status 1: '/x.webm'\n");
}

#[test]
fn same_ratio_exactly_when_same_ratio_text() {
    let pairs = [
        (Resolution::new(1920, 1080), Resolution::new(3840, 2160), true),
        (Resolution::new(1920, 1080), Resolution::new(1280, 720), true),
        (Resolution::new(1920, 1080), Resolution::new(1920, 1200), false),
        (Resolution::new(2560, 1080), Resolution::new(1920, 1080), false),
        (Resolution::new(7, 3), Resolution::new(14, 6), true),
    ];
    for (a, b, same) in pairs {
        assert_eq!(a.ratio_equals(&b), same);
        assert_eq!(b.ratio_equals(&a), same);
        assert_eq!(a.ratio_str() == b.ratio_str(), same);
    }
}
