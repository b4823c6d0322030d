use ims_rs::error::Failure;
use ims_rs::video::{
    ffmpeg_demuxer_create_from_files, ffmpeg_demuxer_create_from_json, ffmpeg_run, find,
    get_thumbnail_size, get_video_dimm_from_images, images_to_resize, most_frequent,
    round_up_to_even, VideoEncodeSettings, VideoOpts, VideoPreset,
};

fn preset(
    name: &str,
    container: Option<&str>,
    two_pass: Option<bool>,
    slider: Option<&str>,
    args: &str,
) -> VideoPreset {
    VideoPreset {
        name: name.to_string(),
        settings: VideoEncodeSettings {
            container: container.map(|c| c.to_string()),
            two_pass,
            quality_slider: slider.map(|c| c.to_string()),
            args: args.to_string(),
        },
    }
}

fn presets() -> Vec<VideoPreset> {
    vec![
        preset("default", Some("mp4"), Some(false), Some("crf"), ""),
        preset("x264", Some("mp4"), None, None, "-c:v libx264"),
        preset("x265", None, Some(true), None, "-c:v libx265"),
        preset("webp", Some("webp"), None, Some("qscale"), "-c:v libwebp_anim"),
    ]
}

fn strings(v: &[&str]) -> Vec<String> {
    v.iter().map(|s| s.to_string()).collect()
}

#[test]
fn defaults_come_from_the_preset_named_default() {
    let opts = VideoOpts::new(presets()).unwrap();
    assert_eq!(opts.container, "mp4");
    assert!(!opts.two_pass);
    assert_eq!(opts.args, "");
    assert_eq!(opts.quality_slider, "crf");
    assert_eq!(opts.json.len(), 4);
}

#[test]
fn defaults_have_to_be_complete() {
    assert!(matches!(VideoOpts::new(vec![]), Err(Failure::Config)));
    assert!(matches!(
        VideoOpts::new(vec![preset("x264", Some("mp4"), Some(true), Some("crf"), "")]),
        Err(Failure::Config)
    ));
    for missing in 0..3 {
        let d = preset(
            "default",
            if missing == 0 { None } else { Some("mp4") },
            if missing == 1 { None } else { Some(false) },
            if missing == 2 { None } else { Some("crf") },
            "",
        );
        assert!(matches!(VideoOpts::new(vec![d]), Err(Failure::Config)));
    }
}

#[test]
fn preset_brings_its_arguments_and_the_quality() {
    let mut opts = VideoOpts::new(presets()).unwrap();
    opts.args_match("x265", &None, &None, "17");
    assert_eq!(opts.args, "-c:v libx265 -crf 17 -fps_mode passthrough");
    assert_eq!(opts.container, "mp4");
    assert!(opts.two_pass);
    let mut opts = VideoOpts::new(presets()).unwrap();
    opts.args_match("webp", &None, &None, "80.5");
    assert_eq!(opts.args, "-c:v libwebp_anim -crf 80.5 -fps_mode passthrough");
    assert_eq!(opts.container, "webp");
    assert!(!opts.two_pass);
}

#[test]
fn command_line_overrides_the_preset() {
    let mut opts = VideoOpts::new(presets()).unwrap();
    opts.args_match("x265", &Some("mkv".to_string()), &Some(false), "17");
    assert_eq!(opts.container, "mkv");
    assert!(!opts.two_pass);
}

#[test]
fn other_arguments_are_taken_as_they_are() {
    let mut opts = VideoOpts::new(presets()).unwrap();
    opts.args = "-an ".to_string();
    opts.args_match("-c:v copy", &None, &Some(true), "17");
    assert_eq!(opts.args, "-an -c:v copy");
    assert_eq!(opts.container, "mp4");
    assert!(opts.two_pass);
}

#[test]
fn presets_are_listed_by_name() {
    let mut opts = VideoOpts::new(presets()).unwrap();
    assert_eq!(opts.presets_list(), vec!["default", "x264", "x265", "webp"]);
    assert!(!opts.args_ispreset());
    opts.args = "x264".to_string();
    assert!(opts.args_ispreset());
    opts.args = "x264 ".to_string();
    assert!(!opts.args_ispreset());
    assert_eq!(find(&opts.json, "webp").unwrap().args, "-c:v libwebp_anim");
    assert!(find(&opts.json, "vp9").is_none());
}

#[test]
fn one_pass_runs_ffmpeg_once() {
    let runs = ffmpeg_run("-r 4 -i list", "clip", false, "mp4");
    assert_eq!(runs, vec![strings(&["-r", "4", "-i", "list", "clip.mp4"])]);
    let runs = ffmpeg_run("a  b", "clip", false, "mp4");
    assert_eq!(runs, vec![strings(&["a", "", "b", "clip.mp4"])]);
}

#[test]
fn two_passes_run_ffmpeg_twice() {
    let runs = ffmpeg_run("-i list", "clip", true, "webm");
    assert_eq!(
        runs,
        vec![
            strings(&["-i", "list", "-pass", "1", "-an", "-f", "null", "/dev/null"]),
            strings(&["-i", "list", "-pass", "2", "-hide_banner", "clip.webm"]),
        ]
    );
}

#[test]
fn list_of_files_repeats_the_last_one() {
    let text = ffmpeg_demuxer_create_from_files(&strings(&["a.png", "b c.png"]));
    assert_eq!(text, "ffconcat version 1.0\nfile 'a.png'\nfile 'b c.png'\nfile 'b c.png'");
    let text = ffmpeg_demuxer_create_from_files(&strings(&["a.png"]));
    assert_eq!(text, "ffconcat version 1.0\nfile 'a.png'\nfile 'a.png'");
}

#[test]
fn list_of_frames_gives_each_its_duration() {
    let frames = vec![("0.jpg".to_string(), "0.1".to_string()), ("1.jpg".to_string(), "0.25".to_string())];
    let text = ffmpeg_demuxer_create_from_json(&frames);
    assert_eq!(
        text,
        "ffconcat version 1.0\nfile '0.jpg'\nduration 0.1\nfile '1.jpg'\nduration 0.25\nfile 1.jpg\n"
    );
}

#[test]
fn thumbnail_size_is_two_numbers_around_an_x() {
    assert_eq!(get_thumbnail_size("2x2").ok(), Some((2, 2)));
    assert_eq!(get_thumbnail_size("10x3").ok(), Some((10, 3)));
    assert_eq!(get_thumbnail_size("+1x02").ok(), Some((1, 2)));
    for bad in ["", "x", "2x", "x2", "2", "2X2", "2x2x2", "a x b", "-1x2", "99999999999999999999999x1"] {
        assert!(matches!(get_thumbnail_size(bad), Err(Failure::Config)), "{:?}", bad);
    }
}

#[test]
fn most_frequent_value_occurs_most_often() {
    assert_eq!(most_frequent(&vec![]), None);
    assert_eq!(most_frequent(&vec![5]), Some(5));
    assert_eq!(most_frequent(&vec![1, 2, 2, 3, 2, 1]), Some(2));
    assert_eq!(most_frequent(&vec![7, 7, 8, 8, 8, 7, 7]), Some(7));
    let tie = most_frequent(&vec![1, 2]).unwrap();
    assert!(tie == 1 || tie == 2);
}

#[test]
fn video_takes_the_most_frequent_size() {
    let dims = vec![(640, 481), (640, 480), (641, 481), (320, 481)];
    assert_eq!(get_video_dimm_from_images(&dims, false), Some((640, 481)));
    assert_eq!(get_video_dimm_from_images(&dims, true), Some((640, 482)));
    assert_eq!(get_video_dimm_from_images(&vec![], false), None);
    assert_eq!(images_to_resize(&dims, (640, 481)), vec![1, 2, 3]);
    assert_eq!(images_to_resize(&dims, (640, 482)), vec![0, 1, 2, 3]);
    assert_eq!(images_to_resize(&vec![(1, 1)], (1, 1)), Vec::<usize>::new());
}

#[test]
fn odd_numbers_are_rounded_up() {
    assert_eq!(round_up_to_even(0), 0);
    assert_eq!(round_up_to_even(1), 2);
    assert_eq!(round_up_to_even(2), 2);
    assert_eq!(round_up_to_even(481), 482);
    assert_eq!(round_up_to_even(u32::MAX - 1), u32::MAX - 1);
}
