use thumbor::codec::SampleFilter;
use thumbor::codec::Step;
use thumbor::codec::TransformSpec;
use thumbor::engine::DecodeError;
use thumbor::engine::Engine;
use thumbor::engine::OutputFormat;
use thumbor::engine::PipelineError;
use thumbor::engine::run_pipeline;

/// A small test image with spatially varying content, as encoded bytes.
fn sample_bytes(w: u32, h: u32, format: image::ImageFormat) -> Vec<u8> {
    let img = image::RgbaImage::from_fn(w, h, |x, y| {
        image::Rgba([(x * 7 % 256) as u8, (y * 11 % 256) as u8, ((x + y) % 256) as u8, 255])
    });
    let mut buf = std::io::Cursor::new(Vec::new());
    image::DynamicImage::ImageRgba8(img).write_to(&mut buf, format).unwrap();
    buf.into_inner()
}

fn jpeg() -> OutputFormat {
    OutputFormat::Jpeg { quality: 85 }
}

#[test]
fn non_image_bytes_give_decode_error() {
    let garbage = b"this is not an image at all, not even close".to_vec();
    match Engine::new(&garbage) {
        Err(DecodeError::UnsupportedFormat) | Err(DecodeError::Truncated) => {}
        Ok(_) => panic!("garbage decoded"),
    }
    let spec = TransformSpec::new(vec![]);
    match run_pipeline(&garbage, &spec, jpeg()) {
        Err(PipelineError::Decode(_)) => {}
        _ => panic!("garbage ran through the pipeline"),
    }
}

#[test]
fn truncated_image_gives_decode_error() {
    let mut bytes = sample_bytes(32, 32, image::ImageFormat::Png);
    bytes.truncate(bytes.len() / 2);
    assert!(Engine::new(&bytes).is_err());
}

#[test]
fn empty_step_list_is_identity() {
    let raw = sample_bytes(40, 30, image::ImageFormat::Png);
    let mut engine = Engine::new(&raw).unwrap();
    engine.apply(&vec![]);
    let out_with_empty = engine.generate(jpeg()).unwrap();
    let out_plain = Engine::new(&raw).unwrap().generate(jpeg()).unwrap();
    assert_eq!(out_with_empty, out_plain);
}

#[test]
fn resize_sets_exact_dimensions() {
    let raw = sample_bytes(64, 48, image::ImageFormat::Png);
    let mut engine = Engine::new(&raw).unwrap();
    engine.apply(&vec![Step::Resize { width: 17, height: 23, filter: SampleFilter::Triangle }]);
    assert_eq!(engine.width(), 17);
    assert_eq!(engine.height(), 23);
    let out = engine.generate(jpeg()).unwrap();
    let check = image::load_from_memory(&out).unwrap();
    assert_eq!((check.width(), check.height()), (17, 23));
}

#[test]
fn crop_inside_bounds_cuts_the_rectangle() {
    let raw = sample_bytes(64, 48, image::ImageFormat::Png);
    let mut engine = Engine::new(&raw).unwrap();
    engine.apply(&vec![Step::Crop { x: 10, y: 12, width: 20, height: 16 }]);
    assert_eq!((engine.width(), engine.height()), (20, 16));
    let out = engine.generate(jpeg()).unwrap();
    let check = image::load_from_memory(&out).unwrap();
    assert_eq!((check.width(), check.height()), (20, 16));
}

#[test]
fn crop_clamps_to_bounds() {
    let raw = sample_bytes(64, 48, image::ImageFormat::Png);
    let mut engine = Engine::new(&raw).unwrap();
    engine.apply(&vec![Step::Crop { x: 60, y: 40, width: 100, height: 100 }]);
    assert_eq!((engine.width(), engine.height()), (4, 8));
    let mut far = Engine::new(&raw).unwrap();
    far.apply(&vec![Step::Crop { x: 1000, y: 1000, width: 5, height: 5 }]);
    assert_eq!((far.width(), far.height()), (0, 0));
}

#[test]
fn zero_dimension_buffer_fails_to_encode() {
    let raw = sample_bytes(16, 16, image::ImageFormat::Png);
    let mut engine = Engine::new(&raw).unwrap();
    engine.apply(&vec![Step::Resize { width: 0, height: 10, filter: SampleFilter::Nearest }]);
    assert_eq!((engine.width(), engine.height()), (0, 10));
    assert_eq!(engine.generate(jpeg()), Err(thumbor::engine::EncodeError::BackendFailure));
}

#[test]
fn watermark_beyond_bounds_clips_silently() {
    let raw = sample_bytes(40, 30, image::ImageFormat::Png);
    let mut engine = Engine::new(&raw).unwrap();
    engine.apply(&vec![Step::Watermark { x: 10_000, y: 10_000 }]);
    assert_eq!((engine.width(), engine.height()), (40, 30));
    let out = engine.generate(jpeg()).unwrap();
    let out_plain = Engine::new(&raw).unwrap().generate(jpeg()).unwrap();
    assert_eq!(out, out_plain);
}

#[test]
fn watermark_inside_bounds_changes_pixels() {
    let raw = sample_bytes(64, 64, image::ImageFormat::Png);
    let mut engine = Engine::new(&raw).unwrap();
    engine.apply(&vec![Step::Watermark { x: 0, y: 0 }]);
    let out = engine.generate(jpeg()).unwrap();
    let out_plain = Engine::new(&raw).unwrap().generate(jpeg()).unwrap();
    assert_ne!(out, out_plain);
}

#[test]
fn style_filter_changes_pixels_and_keeps_dimensions() {
    let raw = sample_bytes(32, 32, image::ImageFormat::Png);
    for preset in [
        thumbor::codec::StylePreset::Oceanic,
        thumbor::codec::StylePreset::Islands,
        thumbor::codec::StylePreset::Marine,
    ] {
        let mut engine = Engine::new(&raw).unwrap();
        engine.apply(&vec![Step::Filter { preset }]);
        assert_eq!((engine.width(), engine.height()), (32, 32));
        let out = engine.generate(jpeg()).unwrap();
        let out_plain = Engine::new(&raw).unwrap().generate(jpeg()).unwrap();
        assert_ne!(out, out_plain);
    }
}

#[test]
fn step_order_is_observable() {
    let raw = sample_bytes(64, 64, image::ImageFormat::Png);
    let resize = Step::Resize { width: 128, height: 128, filter: SampleFilter::Nearest };
    let watermark = Step::Watermark { x: 0, y: 0 };
    let spec_rw = TransformSpec::new(vec![resize, watermark]);
    let spec_wr = TransformSpec::new(vec![watermark, resize]);
    let out_rw = run_pipeline(&raw, &spec_rw, jpeg()).unwrap();
    let out_wr = run_pipeline(&raw, &spec_wr, jpeg()).unwrap();
    assert_ne!(out_rw, out_wr);
}

#[test]
fn end_to_end_resize_token() {
    let raw = sample_bytes(100, 100, image::ImageFormat::Jpeg);
    let token = TransformSpec::new(vec![Step::Resize {
        width: 500,
        height: 800,
        filter: SampleFilter::CatmullRom,
    }])
    .encode();
    let spec = TransformSpec::decode(&token).unwrap();
    let out = run_pipeline(&raw, &spec, jpeg()).unwrap();
    let check = image::load_from_memory(&out).unwrap();
    assert_eq!((check.width(), check.height()), (500, 800));
}

#[test]
fn malformed_token_fails_before_any_fetch() {
    // The handler decodes the spec before it touches the network; a malformed
    // token must come back as a spec error with the fetch never attempted.
    let mut fetches: usize = 0;
    let outcome = match TransformSpec::decode("01010301000001f4020000")
    {
        Ok(_) => {
            fetches += 1;
            Ok(())
        }
        Err(e) => Err(e),
    };
    assert_eq!(outcome, Err(thumbor::codec::SpecError::Malformed));
    assert_eq!(fetches, 0);
}
