use image::imageops::FilterType;
use video2gd::data::{Color, Filter, Optimization, PixelUpdate, Video};
use video2gd::settings::{
    choose_color_precision, choose_filter, choose_max_pixels, choose_optimization,
    DEFAULT_COLOR_PRECISION, DEFAULT_FILTER, DEFAULT_OPTIMIZATION, DEFAULT_PIXELS,
};
use video2gd::stats::progress_percent;

fn px(x: usize, y: usize, v: u8) -> PixelUpdate {
    PixelUpdate { position: (x, y), color: Color { r: v, g: v, b: v } }
}

fn video(opt: Optimization) -> Video {
    Video::new("clip".to_string(), true, false, opt, Filter::Linear, 6, 999)
}

/// Three frames of two pixels: pixel 0 stays 10 throughout, pixel 1 goes
/// 20, 30, 30.
fn three_frames() -> Vec<Vec<PixelUpdate>> {
    vec![
        vec![px(0, 0, 10), px(1, 0, 20)],
        vec![px(0, 0, 10), px(1, 0, 30)],
        vec![px(0, 0, 10), px(1, 0, 30)],
    ]
}

#[test]
fn new_video_is_empty() {
    let v = video(Optimization::Both);
    assert_eq!(v.name, "clip");
    assert!(v.frames.is_empty());
    assert_eq!(v.frame_count, 0);
    assert_eq!((v.width, v.height), (0, 0));
    assert_eq!(v.optimization, Optimization::Both);
    assert_eq!(v.color_precision, 6);
    assert_eq!(v.max_pixels, 999);
}

#[test]
fn optimize_off_keeps_everything() {
    let out = video(Optimization::Off).optimize_frames(three_frames());
    assert_eq!(out, three_frames());
}

#[test]
fn optimize_forward_drops_unchanged_pixels() {
    let out = video(Optimization::Forward).optimize_frames(three_frames());
    assert_eq!(out, vec![vec![px(0, 0, 10), px(1, 0, 20)], vec![px(1, 0, 30)], vec![]]);
}

#[test]
fn optimize_backward_drops_pixels_repeated_next() {
    let out = video(Optimization::Backward).optimize_frames(three_frames());
    assert_eq!(out, vec![vec![px(1, 0, 20)], vec![], vec![px(0, 0, 10), px(1, 0, 30)]]);
}

#[test]
fn optimize_both_drops_only_pixels_equal_on_both_sides() {
    let out = video(Optimization::Both).optimize_frames(three_frames());
    assert_eq!(
        out,
        vec![
            vec![px(0, 0, 10), px(1, 0, 20)],
            vec![px(1, 0, 30)],
            vec![px(0, 0, 10), px(1, 0, 30)],
        ]
    );
    let fwd = video(Optimization::Forward).optimize_frames(three_frames());
    let bwd = video(Optimization::Backward).optimize_frames(three_frames());
    for k in 0..3 {
        assert!(out[k].len() >= fwd[k].len());
        assert!(out[k].len() >= bwd[k].len());
    }
}

#[test]
fn optimize_empty_video() {
    let out = video(Optimization::Both).optimize_frames(vec![]);
    assert!(out.is_empty());
}

fn replay(anim: &[Vec<PixelUpdate>], upto: usize, pos: (usize, usize)) -> Option<Color> {
    let mut shown = None;
    for frame in &anim[..=upto] {
        for u in frame {
            if u.position == pos {
                shown = Some(u.color);
            }
        }
    }
    shown
}

#[test]
fn forward_output_replays_every_frame() {
    let frames = three_frames();
    for opt in [Optimization::Off, Optimization::Forward, Optimization::Both] {
        let out = video(opt).optimize_frames(frames.clone());
        for k in 0..frames.len() {
            for u in &frames[k] {
                assert_eq!(replay(&out, k, u.position), Some(u.color));
            }
        }
    }
}

#[test]
fn backward_output_replays_in_reverse() {
    let frames = three_frames();
    let mut out = video(Optimization::Backward).optimize_frames(frames.clone());
    out.reverse();
    let n = frames.len();
    for k in 0..n {
        for u in &frames[k] {
            assert_eq!(replay(&out, n - 1 - k, u.position), Some(u.color));
        }
    }
}

#[test]
fn frame_updates_quantises_and_places() {
    let mut v = video(Optimization::Forward);
    v.width = 2;
    v.height = 1;
    let updates = v.frame_updates(&vec![77, 255, 3, 0, 8, 12]);
    assert_eq!(
        updates,
        vec![
            PixelUpdate { position: (0, 0), color: Color { r: 76, g: 255, b: 4 } },
            PixelUpdate { position: (1, 0), color: Color { r: 0, g: 8, b: 12 } },
        ]
    );
}

#[test]
fn process_frame_same_size_keeps_pixels() {
    let mut v = video(Optimization::Forward);
    v.width = 2;
    v.height = 1;
    let rgb = vec![77, 255, 3, 0, 8, 12];
    let updates = v.process_frame(rgb.clone(), 2, 1);
    assert_eq!(updates, v.frame_updates(&rgb));
}

#[test]
fn process_frame_scales_to_video_size() {
    let mut v = video(Optimization::Forward);
    v.width = 2;
    v.height = 2;
    v.filter = Filter::Nearest;
    let rgb = vec![200u8; 4 * 4 * 3];
    let updates = v.process_frame(rgb, 4, 4);
    assert_eq!(updates.len(), 4);
    for (i, u) in updates.iter().enumerate() {
        assert_eq!(u.position, (i % 2, i / 2));
        assert_eq!(u.color, Color { r: 200, g: 200, b: 200 });
    }
}

#[test]
fn names_round_trip() {
    for o in [Optimization::Off, Optimization::Forward, Optimization::Backward, Optimization::Both] {
        assert_eq!(Optimization::from_name(o.to_str()), Some(o));
    }
    for f in [Filter::Nearest, Filter::Linear, Filter::Cubic, Filter::Gaussian, Filter::Lanczos3] {
        assert_eq!(Filter::from_name(f.to_str()), Some(f));
    }
    assert_eq!(Optimization::Off.to_str(), "none");
    assert_eq!(Filter::Linear.to_str(), "linear");
    assert_eq!(Optimization::from_name("sideways"), None);
    assert_eq!(Filter::from_name("bilinear"), None);
}

#[test]
fn settings_defaults() {
    assert_eq!(choose_optimization(None), Some(DEFAULT_OPTIMIZATION));
    assert_eq!(DEFAULT_OPTIMIZATION, Optimization::Forward);
    assert_eq!(choose_optimization(Some("both")), Some(Optimization::Both));
    assert_eq!(choose_optimization(Some("fast")), None);
    assert_eq!(choose_filter(None), Some(DEFAULT_FILTER));
    assert_eq!(DEFAULT_FILTER, Filter::Linear);
    assert_eq!(choose_filter(Some("cubic")), Some(Filter::Cubic));
    assert_eq!(choose_filter(Some("bicubic")), None);
    assert_eq!(choose_color_precision(Some(3)), 3);
    assert_eq!(choose_color_precision(Some(0)), DEFAULT_COLOR_PRECISION);
    assert_eq!(choose_color_precision(Some(9)), 6);
    assert_eq!(choose_color_precision(None), 6);
    assert_eq!(choose_max_pixels(Some(50)), 50);
    assert_eq!(choose_max_pixels(None), DEFAULT_PIXELS);
    assert_eq!(DEFAULT_PIXELS, 999);
}

#[test]
fn file_names() {
    let v = video(Optimization::Forward);
    assert_eq!(v.file_name(""), "clip");
    assert_eq!(v.file_name("txt"), "clip.txt");
    assert_eq!(v.frame_pattern(), "clip.%6d.png");
}

#[test]
fn progress_and_stats() {
    assert_eq!(progress_percent(1, 3), 33);
    assert_eq!(progress_percent(3, 3), 100);
    assert_eq!(progress_percent(0, 0), 100);
    let mut v = video(Optimization::Forward);
    v.width = 20;
    v.height = 30;
    v.frame_count = 3;
    v.frames = v.optimize_frames(three_frames());
    assert_eq!(v.required_frames(), 2);
    assert_eq!(v.required_percent(), 66);
    assert_eq!(v.change_triggers(), 3);
    assert_eq!(v.pixel_count(), 600);
}

#[test]
fn backward_is_forward_on_reversed_video() {
    let frames = three_frames();
    let bwd = video(Optimization::Backward).optimize_frames(frames.clone());
    let mut reversed = frames.clone();
    reversed.reverse();
    let mut fwd = video(Optimization::Forward).optimize_frames(reversed);
    fwd.reverse();
    assert_eq!(bwd, fwd);
}

#[test]
fn filters_map_to_image_filters() {
    assert_eq!(Filter::Nearest.to_filter_type(), FilterType::Nearest);
    assert_eq!(Filter::Linear.to_filter_type(), FilterType::Triangle);
    assert_eq!(Filter::Cubic.to_filter_type(), FilterType::CatmullRom);
    assert_eq!(Filter::Gaussian.to_filter_type(), FilterType::Gaussian);
    assert_eq!(Filter::Lanczos3.to_filter_type(), FilterType::Lanczos3);
}

#[test]
fn progress_with_nothing_to_do_is_complete() {
    assert_eq!(progress_percent(usize::MAX, 0), 100);
}

fn is_subsequence(a: &[PixelUpdate], b: &[PixelUpdate]) -> bool {
    let mut rest = b.iter();
    a.iter().all(|x| rest.any(|y| y == x))
}

#[test]
fn both_contains_forward_and_backward() {
    let frames = vec![
        vec![px(0, 0, 10), px(1, 0, 20), px(2, 0, 5)],
        vec![px(0, 0, 10), px(1, 0, 30), px(2, 0, 5)],
        vec![px(0, 0, 11), px(1, 0, 30), px(2, 0, 5)],
        vec![px(0, 0, 11), px(1, 0, 30), px(2, 0, 6)],
    ];
    let both = video(Optimization::Both).optimize_frames(frames.clone());
    let fwd = video(Optimization::Forward).optimize_frames(frames.clone());
    let bwd = video(Optimization::Backward).optimize_frames(frames);
    let total = |a: &Vec<Vec<PixelUpdate>>| a.iter().map(|f| f.len()).sum::<usize>();
    for k in 0..both.len() {
        assert!(is_subsequence(&fwd[k], &both[k]));
        assert!(is_subsequence(&bwd[k], &both[k]));
    }
    assert!(total(&both) >= total(&fwd));
    assert!(total(&both) >= total(&bwd));
}
