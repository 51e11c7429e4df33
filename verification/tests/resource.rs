use pyxel_engine::resource::Resource;
use pyxel_engine::resource::DEFAULT_CAPTURE_SCALE;

#[test]
fn capture_scale_defaults() {
    let r = Resource::new(None, None, 30);
    assert_eq!(r.capture_scale(), DEFAULT_CAPTURE_SCALE);
}

#[test]
fn capture_scale_is_clamped_to_one() {
    let r = Resource::new(Some(0), Some(5), 30);
    assert_eq!(r.capture_scale(), 1);
}

#[test]
fn capture_scale_keeps_explicit_value() {
    let r = Resource::new(Some(4), None, 60);
    assert_eq!(r.capture_scale(), 4);
}
