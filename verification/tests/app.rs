use visual_search::app::EmbeddingApp;
use visual_search::errors::ServiceError;
use visual_search::events::{
    AddImage, ImageBytes, ImageSource, RemoveCollection, RemoveImage, UpsertCollection,
};
use visual_search::models::{GenericModelConfig, ModelArchitecture};

fn architecture_config() -> GenericModelConfig {
    GenericModelConfig::ModelArchitecture(ModelArchitecture::MobileNetV2)
}

fn url_job(url: &str, id: &str) -> AddImage {
    AddImage {
        source: ImageSource::Url(url.to_string()),
        collection_name: "images".into(),
        id: id.into(),
    }
}

#[test]
fn test_app() {
    let mut app = EmbeddingApp::new(4);

    app.upsert_collection(&UpsertCollection {
        name: "images".to_string(),
        config: architecture_config(),
    });

    app.add_image(url_job(
        "https://raw.githubusercontent.com/EliSchwartz/imagenet-sample-images/master/n01443537_goldfish.JPEG",
        "goldfish",
    ))
    .unwrap();
    app.add_image(url_job(
        "https://raw.githubusercontent.com/EliSchwartz/imagenet-sample-images/master/n01491361_tiger_shark.JPEG",
        "shark",
    ))
    .unwrap();
    app.add_image(url_job(
        "https://raw.githubusercontent.com/EliSchwartz/imagenet-sample-images/master/n01496331_electric_ray.JPEG",
        "ray",
    ))
    .unwrap();
    app.add_image(url_job(
        "https://raw.githubusercontent.com/EliSchwartz/imagenet-sample-images/master/n01622779_great_grey_owl.JPEG",
        "owl",
    ))
    .unwrap();

    assert_eq!(app.job_queue.inner.len(), 4);
}

#[test]
fn upsert_collection_is_idempotent() {
    let mut app = EmbeddingApp::new(1);
    app.upsert_collection(&UpsertCollection { name: "c".into(), config: architecture_config() });
    app.add_vector_to_collection(&"c".to_string(), "v1".into(), vec![1, 2]).unwrap();

    // A second upsert under the same name must not reset the index.
    app.upsert_collection(&UpsertCollection { name: "c".into(), config: architecture_config() });
    assert_eq!(app.collections.collections.len(), 1);
    let result = app.search_image(&"c".to_string(), &vec![1, 2]).unwrap();
    assert_eq!(result.results.len(), 1);
    assert_eq!(result.results[0].id, "v1");
    assert_eq!(result.results[0].similarity, 0);
}

#[test]
fn search_missing_collection_is_empty_not_an_error() {
    let app = EmbeddingApp::new(1);
    let result = app.search_image(&"absent".to_string(), &vec![1, 2, 3]).unwrap();
    assert_eq!(result.collection_name, "absent");
    assert!(result.results.is_empty());
}

#[test]
fn search_image_reports_dimension_mismatch() {
    let mut app = EmbeddingApp::new(1);
    app.upsert_collection(&UpsertCollection { name: "c".into(), config: architecture_config() });
    app.add_vector_to_collection(&"c".to_string(), "v".into(), vec![1, 2, 3]).unwrap();
    let err = app.search_image(&"c".to_string(), &vec![1, 2]).unwrap_err();
    assert_eq!(err, ServiceError::DimensionMismatch { expected: 3, actual: 2 });
}

#[test]
fn add_vector_to_missing_collection_is_a_validation_error() {
    let mut app = EmbeddingApp::new(1);
    let err = app.add_vector_to_collection(&"absent".to_string(), "v".into(), vec![1]).unwrap_err();
    assert_eq!(err, ServiceError::Validation);
}

#[test]
fn add_vector_reports_dimension_mismatch() {
    let mut app = EmbeddingApp::new(1);
    app.upsert_collection(&UpsertCollection { name: "c".into(), config: architecture_config() });
    app.add_vector_to_collection(&"c".to_string(), "v1".into(), vec![1, 2]).unwrap();
    let err = app.add_vector_to_collection(&"c".to_string(), "v2".into(), vec![1]).unwrap_err();
    assert_eq!(err, ServiceError::DimensionMismatch { expected: 2, actual: 1 });
    let result = app.search_image(&"c".to_string(), &vec![1, 2]).unwrap();
    assert_eq!(result.results.len(), 1);
}

#[test]
fn remove_image_hides_id_and_tolerates_missing_collection() {
    let mut app = EmbeddingApp::new(1);
    app.upsert_collection(&UpsertCollection { name: "c".into(), config: architecture_config() });
    app.add_vector_to_collection(&"c".to_string(), "a".into(), vec![0, 0]).unwrap();
    app.add_vector_to_collection(&"c".to_string(), "b".into(), vec![0, 1]).unwrap();

    app.remove_image(RemoveImage { collection_name: "c".into(), id: "a".into() }).unwrap();
    let result = app.search_image(&"c".to_string(), &vec![0, 0]).unwrap();
    assert!(result.results.iter().all(|r| r.id != "a"));
    assert_eq!(result.results.len(), 1);

    // Absence is not failure.
    app.remove_image(RemoveImage { collection_name: "absent".into(), id: "a".into() }).unwrap();
}

#[test]
fn remove_collection_drops_it_entirely() {
    let mut app = EmbeddingApp::new(1);
    app.upsert_collection(&UpsertCollection { name: "c".into(), config: architecture_config() });
    app.add_vector_to_collection(&"c".to_string(), "v".into(), vec![1]).unwrap();

    app.remove_collection(&RemoveCollection { name: "c".into() });
    assert!(app.collections.collections.is_empty());
    let result = app.search_image(&"c".to_string(), &vec![1]).unwrap();
    assert!(result.results.is_empty());

    // Removing an absent collection is a no-op.
    app.remove_collection(&RemoveCollection { name: "c".into() });
}

#[test]
fn collections_are_independent() {
    let mut app = EmbeddingApp::new(1);
    app.upsert_collection(&UpsertCollection { name: "a".into(), config: architecture_config() });
    app.upsert_collection(&UpsertCollection { name: "b".into(), config: architecture_config() });
    app.add_vector_to_collection(&"a".to_string(), "only-in-a".into(), vec![1, 1]).unwrap();
    app.add_vector_to_collection(&"b".to_string(), "only-in-b".into(), vec![1, 1]).unwrap();

    let in_a = app.search_image(&"a".to_string(), &vec![1, 1]).unwrap();
    assert_eq!(in_a.results.len(), 1);
    assert_eq!(in_a.results[0].id, "only-in-a");
    let in_b = app.search_image(&"b".to_string(), &vec![1, 1]).unwrap();
    assert_eq!(in_b.results.len(), 1);
    assert_eq!(in_b.results[0].id, "only-in-b");
}

#[test]
fn enqueued_duplicate_job_does_not_grow_queue() {
    let mut app = EmbeddingApp::new(1);
    let job = AddImage {
        source: ImageSource::ImageBytes(ImageBytes { bytes: vec![1, 2, 3] }),
        collection_name: "c".into(),
        id: "x".into(),
    };
    app.add_image(job.clone()).unwrap();
    assert_eq!(app.job_queue.inner.len(), 1);
    app.add_image(job.clone()).unwrap();
    assert_eq!(app.job_queue.inner.len(), 1);

    // A structurally different job does grow the queue.
    let other = AddImage {
        source: ImageSource::ImageBytes(ImageBytes { bytes: vec![1, 2, 3, 4] }),
        collection_name: "c".into(),
        id: "x".into(),
    };
    app.add_image(other).unwrap();
    assert_eq!(app.job_queue.inner.len(), 2);
}
