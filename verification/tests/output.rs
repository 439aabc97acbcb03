use video2gd::data::{Color, Filter, Optimization, PixelUpdate, Video};

fn px(x: usize, y: usize, r: u8, g: u8, b: u8) -> PixelUpdate {
    PixelUpdate { position: (x, y), color: Color { r, g, b } }
}

fn sample() -> Video {
    let mut v = Video::new("clip".to_string(), true, false, Optimization::Forward, Filter::Linear, 6, 999);
    v.width = 12;
    v.height = 3;
    v.frames = vec![vec![px(0, 0, 1, 2, 3), px(11, 2, 255, 0, 40)], vec![], vec![px(5, 1, 7, 8, 9)]];
    v.frame_count = 3;
    v
}

#[test]
fn txt_layout() {
    let txt = sample().encode_txt(b"24");
    assert_eq!(
        String::from_utf8(txt).unwrap(),
        "12,3,24\n0,0,1,2,3:11,2,255,0,40\n\n5,1,7,8,9"
    );
}

#[test]
fn txt_without_frames_is_header_only() {
    let mut v = sample();
    v.frames = vec![];
    assert_eq!(String::from_utf8(v.encode_txt(b"29.97")).unwrap(), "12,3,29.97\n");
}

#[test]
fn anmt_layout() {
    let anmt = sample().encode_anmt(24, 128);
    assert_eq!(
        anmt,
        vec![12, 3, 24, 128, 0, 1, 1, 1, 2, 3, 12, 3, 255, 0, 40, 0, 0, 6, 2, 7, 8, 9]
    );
}

#[test]
fn anmt_keeps_low_bytes_of_large_sizes() {
    let mut v = sample();
    v.width = 300;
    v.height = 256;
    v.frames = vec![vec![px(257, 0, 1, 1, 1)]];
    assert_eq!(v.encode_anmt(0, 0), vec![44, 0, 0, 0, 0, 2, 1, 1, 1, 1]);
}

#[test]
fn json_layout() {
    let json = sample().encode_json(json::JsonValue::from(24.0f64));
    assert_eq!(
        json,
        "{\"width\":12,\"height\":3,\"fps\":24,\"frames\":[[[0,0,1,2,3],[11,2,255,0,40]],[],[[5,1,7,8,9]]]}"
    );
}

#[test]
fn json_agrees_with_json_crate() {
    let v = sample();
    let fps = 29.97f64;
    let mut object = json::JsonValue::new_object();
    object.insert("width", v.width).unwrap();
    object.insert("height", v.height).unwrap();
    object.insert("fps", fps).unwrap();
    let mut frames = json::JsonValue::new_array();
    for frame in &v.frames {
        let mut updates = json::JsonValue::new_array();
        for u in frame {
            let mut item = json::JsonValue::new_array();
            item.push(u.position.0).unwrap();
            item.push(u.position.1).unwrap();
            item.push(u.color.r).unwrap();
            item.push(u.color.g).unwrap();
            item.push(u.color.b).unwrap();
            updates.push(item).unwrap();
        }
        frames.push(updates).unwrap();
    }
    object.insert("frames", frames).unwrap();
    let ours = v.encode_json(json::JsonValue::from(fps));
    assert_eq!(ours, object.dump());
    assert!(ours.contains("\"fps\":29.97,"));
}
