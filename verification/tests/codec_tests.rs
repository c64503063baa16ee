use thumbor::codec::SampleFilter;
use thumbor::codec::SpecError;
use thumbor::codec::Step;
use thumbor::codec::StylePreset;
use thumbor::codec::TransformSpec;

fn spec_of(steps: Vec<Step>) -> TransformSpec {
    TransformSpec::new(steps)
}

#[test]
fn round_trip_empty() {
    let spec = spec_of(vec![]);
    let token = spec.encode();
    assert_eq!(token, "01");
    assert_eq!(TransformSpec::decode(&token), Ok(spec));
}

#[test]
fn round_trip_all_variants() {
    let spec = spec_of(vec![
        Step::Resize { width: 500, height: 800, filter: SampleFilter::CatmullRom },
        Step::Crop { x: 3, y: 4, width: 20, height: 30 },
        Step::Watermark { x: 20, y: 20 },
        Step::Filter { preset: StylePreset::Marine },
    ]);
    let token = spec.encode();
    assert!(token.chars().all(|c| c.is_ascii_alphanumeric()));
    assert_eq!(TransformSpec::decode(&token), Ok(spec));
}

#[test]
fn round_trip_extreme_values() {
    let spec = spec_of(vec![
        Step::Resize { width: 0, height: u32::MAX, filter: SampleFilter::Nearest },
        Step::Crop { x: u32::MAX, y: 0, width: u32::MAX, height: u32::MAX },
    ]);
    let token = spec.encode();
    assert_eq!(TransformSpec::decode(&token), Ok(spec));
}

#[test]
fn encode_exact_resize_token() {
    let spec = spec_of(vec![Step::Resize {
        width: 500,
        height: 800,
        filter: SampleFilter::CatmullRom,
    }]);
    assert_eq!(spec.encode(), "01010301000001f402000003200300000002");
}

#[test]
fn decode_rejects_empty_and_odd_tokens() {
    assert_eq!(TransformSpec::decode(""), Err(SpecError::Malformed));
    assert_eq!(TransformSpec::decode("0"), Err(SpecError::Malformed));
    assert_eq!(TransformSpec::decode("010"), Err(SpecError::Malformed));
}

#[test]
fn decode_rejects_stray_characters() {
    assert_eq!(TransformSpec::decode("0g"), Err(SpecError::Malformed));
    assert_eq!(TransformSpec::decode("zz"), Err(SpecError::Malformed));
    assert_eq!(TransformSpec::decode("01?!"), Err(SpecError::Malformed));
}

#[test]
fn decode_rejects_wrong_version() {
    assert_eq!(TransformSpec::decode("02"), Err(SpecError::Malformed));
    assert_eq!(TransformSpec::decode("00"), Err(SpecError::Malformed));
}

#[test]
fn decode_rejects_truncated_record() {
    // A resize record cut short: the declared fields are missing.
    assert_eq!(TransformSpec::decode("0101"), Err(SpecError::Malformed));
    assert_eq!(TransformSpec::decode("010103"), Err(SpecError::Malformed));
    assert_eq!(TransformSpec::decode("01010301000001f4"), Err(SpecError::Malformed));
}

#[test]
fn decode_rejects_missing_required_field() {
    // A resize record whose three fields all carry an unknown tag.
    assert_eq!(
        TransformSpec::decode("010103090000000109000000010900000001"),
        Err(SpecError::Malformed)
    );
}

#[test]
fn decode_rejects_unknown_step_kind() {
    assert_eq!(TransformSpec::decode("0105"), Err(SpecError::UnknownVariant));
    assert_eq!(TransformSpec::decode("01ff"), Err(SpecError::UnknownVariant));
}

#[test]
fn decode_rejects_unknown_filter_code() {
    // A filter record with enumeration code 9, which no preset has.
    assert_eq!(TransformSpec::decode("0104010100000009"), Err(SpecError::UnknownVariant));
    // A resize record with sampling-kernel code 7.
    assert_eq!(
        TransformSpec::decode("01010301000001f402000003200300000007"),
        Err(SpecError::UnknownVariant)
    );
}

#[test]
fn decode_ignores_unknown_optional_field() {
    // A watermark record with an extra field tagged 9: ignored, not rejected.
    let with_extra = "010303010000001402000000140900000063";
    assert_eq!(
        TransformSpec::decode(with_extra),
        Ok(spec_of(vec![Step::Watermark { x: 20, y: 20 }]))
    );
}

#[test]
fn encoding_is_injective_on_samples() {
    let specs = vec![
        spec_of(vec![]),
        spec_of(vec![Step::Watermark { x: 0, y: 0 }]),
        spec_of(vec![Step::Watermark { x: 0, y: 1 }]),
        spec_of(vec![Step::Filter { preset: StylePreset::Oceanic }]),
        spec_of(vec![Step::Filter { preset: StylePreset::Islands }]),
        spec_of(vec![Step::Resize { width: 1, height: 2, filter: SampleFilter::Nearest }]),
    ];
    for i in 0..specs.len() {
        for j in 0..specs.len() {
            if i != j {
                assert_ne!(specs[i].encode(), specs[j].encode());
            }
        }
    }
}
