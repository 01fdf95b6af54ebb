//! Models, labels, predictions, images for the model and downloads.

use std::collections::HashSet;
use tagger_neo::download::{
    download_address, labels_are_valid, labels_file_is_plausible, length_message,
    model_file_is_plausible, model_is_available, part_path, DownloadFailure, DownloadResult,
    DownloadStep, EnsureStep, MIN_LABEL_BYTES, MIN_MODEL_BYTES,
};
use tagger_neo::imaging::{
    can_resize, model_input, preprocess_image, ImageError, InputRefusal, RgbaPixels,
};
use tagger_neo::tagger::{
    input_size, model_files_for, parse_labels, select_predictions, validate_options, InputError,
    Label, LabelError, PredictionError, TagCategory, TaggerOptions, Wd14Model,
};
use tagger_neo::tagging::{TagEnd, TagStep};

#[test]
fn model_catalog_matches_kohya_ss_and_has_unique_caches() {
    let all = Wd14Model::all();
    let repositories = all
        .iter()
        .map(|model| model.repository())
        .collect::<Vec<_>>();
    assert_eq!(
        repositories,
        vec![
            "SmilingWolf/wd-v1-4-convnext-tagger-v2",
            "SmilingWolf/wd-v1-4-convnextv2-tagger-v2",
            "SmilingWolf/wd-v1-4-vit-tagger-v2",
            "SmilingWolf/wd-v1-4-swinv2-tagger-v2",
            "SmilingWolf/wd-v1-4-moat-tagger-v2",
            "SmilingWolf/wd-swinv2-tagger-v3",
            "SmilingWolf/wd-vit-tagger-v3",
            "SmilingWolf/wd-convnext-tagger-v3",
            "SmilingWolf/wd-eva02-large-tagger-v3",
        ]
    );
    assert_eq!(
        all.iter()
            .map(|model| model.cache_key())
            .collect::<HashSet<_>>()
            .len(),
        all.len()
    );
    assert!(all.iter().all(|model| !model.label().is_empty()));
}

#[test]
fn selected_model_uses_an_isolated_cache_directory() {
    let root = "cache";
    let vit = model_files_for(root, Wd14Model::VitV3);
    let eva = model_files_for(root, Wd14Model::Eva02LargeV3);
    assert_eq!(vit.model, "cache/wd-vit-tagger-v3/model.onnx");
    assert_eq!(vit.labels, "cache/wd-vit-tagger-v3/selected_tags.csv");
    assert_ne!(vit.model, eva.model);
}

#[test]
fn model_selection_round_trips_through_preferences_json() {
    for model in Wd14Model::all() {
        assert_eq!(Wd14Model::from_id(model.cache_key()), Some(model));
    }
    assert_eq!(Wd14Model::Eva02LargeV3.cache_key(), "wd-eva02-large-tagger-v3");
    assert_eq!(
        Wd14Model::from_id("SmilingWolf/wd-vit-tagger-v3"),
        Some(Wd14Model::VitV3)
    );
    assert_eq!(Wd14Model::from_id("nothing"), None);
}

#[test]
fn preprocessing_centres_on_white_and_outputs_bgr_hwc() {
    let source = RgbaPixels {
        width: 1,
        height: 2,
        bytes: vec![10, 20, 30, 255, 100, 50, 0, 128],
    };
    let pixels: Vec<f32> = preprocess_image(&source, 2)
        .unwrap()
        .into_iter()
        .map(|byte| byte as f32)
        .collect();
    assert_eq!(pixels.len(), 12);
    assert_eq!(&pixels[0..3], &[30.0, 20.0, 10.0]);
    assert_eq!(&pixels[3..6], &[255.0, 255.0, 255.0]);
    assert_eq!(&pixels[6..9], &[127.0, 152.0, 177.0]);
    assert_eq!(&pixels[9..12], &[255.0, 255.0, 255.0]);
}

#[test]
fn images_are_resized() {
    let source = RgbaPixels { width: 1, height: 1, bytes: vec![40, 80, 120, 255] };
    assert!(can_resize(1, 1, 3));
    let pixels = preprocess_image(&source, 3).unwrap();
    assert_eq!(pixels.len(), 27);
    assert_eq!(pixels, [120, 80, 40].repeat(9));
    let empty = RgbaPixels { width: 0, height: 2, bytes: Vec::new() };
    assert!(matches!(preprocess_image(&empty, 3), Err(ImageError::NoPixels)));
    assert!(matches!(preprocess_image(&source, 0), Err(ImageError::NoSize)));
}

#[test]
fn parses_all_wd14_categories_in_original_order() {
    let csv = b"tag_id,name,category,count\n1,safe,9,1\n2,1girl,0,1\n3,alice,4,1\n";
    let labels = parse_labels(csv).unwrap();
    assert_eq!(labels.len(), 3);
    assert_eq!(labels[0].category, TagCategory::Rating);
    assert_eq!(labels[1].name, "1girl");
    assert_eq!(labels[2].category, TagCategory::Character);
}

#[test]
fn rejects_malformed_or_unknown_label_csv() {
    assert!(parse_labels(b"name,category\na,0\n").is_err());
    assert!(parse_labels(b"tag_id,name,category,count\n1,a,7,1\n").is_err());
}

#[test]
fn label_files_are_refused_for_a_reason() {
    assert!(matches!(
        parse_labels(b"name,category\na,0\n"),
        Err(LabelError::UnexpectedHeader)
    ));
    assert!(matches!(
        parse_labels(b"tag_id,name,category,count\n1,a,7,1\n"),
        Err(LabelError::UnsupportedCategory(category, 0)) if category == "7"
    ));
    assert!(matches!(
        parse_labels(b"tag_id,name,category,count\n1, ,0,1\n"),
        Err(LabelError::EmptyName(0))
    ));
    assert!(matches!(
        parse_labels(b"tag_id,name,category,count\n1,a,0,1\n1,a\n"),
        Err(LabelError::InvalidRow(1))
    ));
    assert!(matches!(
        parse_labels(b"tag_id,name,category,count\n"),
        Err(LabelError::Empty)
    ));
    let quoted = parse_labels(b"tag_id,name,category,count\n1,\"a,\"\"b\",0,1\n").unwrap();
    assert_eq!(quoted[0].name, "a,\"b");
    assert!(labels_are_valid(b"tag_id,name,category,count\n1,a,0,1\n"));
    assert!(!labels_are_valid(b""));
}

fn label(name: &str, category: TagCategory) -> Label {
    Label { name: name.to_owned(), category }
}

fn bits(values: &[f32]) -> Vec<u32> {
    values.iter().map(|value| value.to_bits()).collect()
}

#[test]
fn thresholds_rating_and_confidence_sort_are_independent() {
    let labels = vec![
        label("safe", TagCategory::Rating),
        label("explicit", TagCategory::Rating),
        label("solo", TagCategory::General),
        label("alice", TagCategory::Character),
    ];
    let options = TaggerOptions {
        general_threshold: 0.35f32.to_bits(),
        character_threshold: 0.85f32.to_bits(),
        include_rating: true,
    };
    let result = select_predictions(&labels, &bits(&[0.1, 0.8, 0.9, 0.84]), options).unwrap();
    assert_eq!(
        result.iter().map(|p| p.tag.as_str()).collect::<Vec<_>>(),
        vec!["solo", "explicit"]
    );
    assert!(select_predictions(&labels, &bits(&[0.1]), options).is_err());
}

#[test]
fn ratings_can_be_omitted() {
    let labels = vec![
        label("safe", TagCategory::Rating),
        label("tag", TagCategory::General),
    ];
    let result = select_predictions(
        &labels,
        &bits(&[0.99, 0.5]),
        TaggerOptions {
            include_rating: false,
            ..TaggerOptions::default()
        },
    )
    .unwrap();
    assert_eq!(result.len(), 1);
    assert_eq!(result[0].tag, "tag");
}

#[test]
fn thresholds_are_between_zero_and_one() {
    let good = TaggerOptions::default();
    assert_eq!(good.general_threshold, 0.35f32.to_bits());
    assert!(validate_options(good).is_ok());
    for bad in [f32::NAN, f32::INFINITY, -0.1, 1.5] {
        let options = TaggerOptions { general_threshold: bad.to_bits(), ..good };
        assert_eq!(validate_options(options), Err(PredictionError::GeneralThreshold));
        let options = TaggerOptions { character_threshold: bad.to_bits(), ..good };
        assert_eq!(validate_options(options), Err(PredictionError::CharacterThreshold));
    }
    for edge in [0.0f32, -0.0, 1.0] {
        assert!(validate_options(TaggerOptions { general_threshold: edge.to_bits(), ..good }).is_ok());
    }
    let labels = vec![label("a", TagCategory::General)];
    assert_eq!(
        select_predictions(&labels, &[], good).unwrap_err(),
        PredictionError::CountMismatch { confidences: 0, labels: 1 }
    );
    let result = select_predictions(&labels, &bits(&[f32::NAN]), good).unwrap();
    assert!(result.is_empty());
}

#[test]
fn inputs_of_models_are_square() {
    assert_eq!(input_size(true, &[1, 448, 448, 3]), Ok(448));
    assert_eq!(input_size(false, &[1, 448, 448, 3]), Err(InputError::Tensor));
    assert_eq!(input_size(true, &[448, 448, 3]), Err(InputError::Tensor));
    assert_eq!(input_size(true, &[1, -1, 448, 3]), Err(InputError::Height));
    assert_eq!(input_size(true, &[1, 448, -1, 3]), Err(InputError::Width));
    assert_eq!(input_size(true, &[1, 448, 448, -1]), Err(InputError::Channels));
    assert_eq!(input_size(true, &[1, 448, 224, 3]), Err(InputError::Shape));
    assert_eq!(input_size(true, &[1, 448, 448, 4]), Err(InputError::Shape));
}

#[test]
fn downloads_are_whole_or_nothing() {
    assert_eq!(
        download_address("SmilingWolf/x", "model.onnx"),
        "https://huggingface.co/SmilingWolf/x/resolve/main/model.onnx?download=true"
    );
    assert_eq!(part_path("cache/model.onnx"), "cache/model.onnx.part");
    let mut step = DownloadStep::LookForPart;
    let mut chunks = vec![700_000u64, 500_000, 0].into_iter();
    while !matches!(step, DownloadStep::Finished | DownloadStep::Failed(_)) {
        let result = match step {
            DownloadStep::LookForPart | DownloadStep::LookForTarget => DownloadResult::Found(true),
            DownloadStep::Status => DownloadResult::Accepted(Some(1_200_000)),
            DownloadStep::Read { .. } => DownloadResult::Received(chunks.next().unwrap()),
            _ => DownloadResult::Done,
        };
        step = step.next(result, MIN_MODEL_BYTES);
    }
    assert_eq!(step, DownloadStep::Finished);
    let short = DownloadStep::Flush { downloaded: 5, total: Some(6) };
    assert_eq!(
        short.next(DownloadResult::Done, 1),
        DownloadStep::DropPart(DownloadFailure::Incomplete { downloaded: 5, advertised: 6 })
    );
    let small = DownloadStep::Flush { downloaded: 5, total: None };
    assert_eq!(
        small.next(DownloadResult::Done, 6),
        DownloadStep::DropPart(DownloadFailure::TooSmall { downloaded: 5 })
    );
    assert!(length_message("model.onnx", DownloadFailure::TooSmall { downloaded: 5 }).is_some());
    assert!(length_message("model.onnx", DownloadFailure::Read).is_none());
}

#[test]
fn files_of_models_are_looked_at_before_they_are_used() {
    assert!(model_file_is_plausible(Some(MIN_MODEL_BYTES)));
    assert!(!model_file_is_plausible(Some(MIN_MODEL_BYTES - 1)));
    assert!(!model_file_is_plausible(None));
    let mut csv = b"tag_id,name,category,count\n".to_vec();
    while (csv.len() as u64) < MIN_LABEL_BYTES {
        csv.extend_from_slice(b"1,some tag,0,1\n");
    }
    assert!(labels_file_is_plausible(Some(&csv)));
    assert!(!labels_file_is_plausible(Some(b"tag_id,name,category,count\n1,a,0,1\n")));
    assert!(model_is_available(Some(MIN_MODEL_BYTES), Some(&csv)));
    assert!(!model_is_available(Some(MIN_MODEL_BYTES), None));
    let mut step = EnsureStep::MakeCache;
    let mut count = 0;
    while !matches!(step, EnsureStep::Ready | EnsureStep::Failed(_)) {
        step = step.next(true);
        count += 1;
    }
    assert_eq!((step, count), (EnsureStep::Ready, 3));
}

#[test]
fn thresholds_are_looked_at_before_the_image() {
    let image = RgbaPixels { width: 1, height: 1, bytes: vec![1, 2, 3, 255] };
    let good = TaggerOptions::default();
    assert_eq!(model_input(&image, 1, good).unwrap(), vec![3, 2, 1]);
    let bad = TaggerOptions { general_threshold: 2.0f32.to_bits(), ..good };
    let refusal = model_input(&image, 0, bad).unwrap_err();
    assert_eq!(refusal, InputRefusal::Options(PredictionError::GeneralThreshold));
    assert_eq!(refusal.message(), "general threshold must be between 0 and 1");
    assert_eq!(
        model_input(&image, 0, good),
        Err(InputRefusal::Image(ImageError::NoSize))
    );
    assert_eq!(model_input(&image, 0x200_0000, good), Err(InputRefusal::TooLarge));
    let empty = RgbaPixels { width: 0, height: 0, bytes: Vec::new() };
    let refusal = model_input(&empty, 1, good).unwrap_err();
    assert_eq!(refusal.message(), "image has zero width or height");
}

#[test]
fn the_tagger_looks_at_one_image_after_the_other() {
    let mut step = TagStep::Load;
    let mut steps = Vec::new();
    while !matches!(step, TagStep::End(_)) {
        steps.push(step);
        step = step.next(true, 2);
    }
    assert_eq!(step, TagStep::End(TagEnd::Done));
    assert_eq!(
        steps,
        vec![
            TagStep::Load,
            TagStep::Ask { done: 0 },
            TagStep::Predict { done: 0 },
            TagStep::Report { done: 1 },
            TagStep::Ask { done: 1 },
            TagStep::Predict { done: 1 },
            TagStep::Report { done: 2 },
        ]
    );
    assert_eq!(TagStep::Load.next(true, 0), TagStep::End(TagEnd::Done));
    assert_eq!(TagStep::Load.next(false, 2), TagStep::End(TagEnd::Failed));
    assert_eq!(
        TagStep::Ask { done: 1 }.next(false, 2),
        TagStep::End(TagEnd::Cancelled)
    );
    assert_eq!(
        TagStep::Predict { done: 1 }.next(false, 2),
        TagStep::End(TagEnd::Failed)
    );
}
