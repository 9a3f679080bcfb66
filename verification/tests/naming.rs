use visual_search::models::ModelType;
use visual_search::utils::{model_filename, remove_non_alphanum};

#[test]
fn remove_non_alphanum_maps_every_character() {
    assert_eq!(remove_non_alphanum("Model Name-2.0"), "model_name_2_0");
    assert_eq!(remove_non_alphanum("already_ok123"), "already_ok123");
    assert_eq!(remove_non_alphanum("ABC"), "abc");
    assert_eq!(remove_non_alphanum(""), "");
    assert_eq!(remove_non_alphanum("!@#"), "___");
}

#[test]
fn model_filename_builds_path_from_clean_name() {
    assert_eq!(model_filename("My Model", "onnx"), "models/my_model.onnx");
    assert_eq!(model_filename("EfficientNet Lite4", "nnef.tgz"), "models/efficientnet_lite4.nnef.tgz");
}

#[test]
fn model_type_extensions() {
    assert_eq!(ModelType::ONNX.to_extension(), "onnx");
    assert_eq!(ModelType::NNEF.to_extension(), "nnef.tgz");
}
