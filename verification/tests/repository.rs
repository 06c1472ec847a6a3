use origis::fsmodel::FsModel;
use origis::path::RepoPath;
use origis::repository::{
    find_repository_root, init_repository, is_initialized, RepositoryError,
};

fn temp_path(name: &str) -> RepoPath {
    RepoPath::new().child("tmp").child(name)
}

#[test]
fn test_init_repository_creates_structure() {
    let mut model = FsModel::new();
    let temp_dir = temp_path("origis-test");

    let result = init_repository(&mut model, &temp_dir);

    assert!(result.is_ok());
    assert!(model.contains_path(&temp_dir.child(".origis")));
    assert!(model.is_dir(&temp_dir.child(".origis").child("snapshots")));
    assert!(model.contains_path(&temp_dir.child(".origis").child("HEAD")));
    assert!(model.contains_path(&temp_dir.child(".origis").child("config.toml")));
    assert!(model.contains_path(&temp_dir.child(".origis").child("index.json")));
}

#[test]
fn test_init_repository_fails_if_already_initialized() {
    let mut model = FsModel::new();
    let temp_dir = temp_path("origis_test_already_init");

    let first = init_repository(&mut model, &temp_dir);
    assert!(first.is_ok());

    let second = init_repository(&mut model, &temp_dir);
    assert!(second.is_err());
}

#[test]
fn test_is_initialized_returns_true_for_valid_repo() {
    let mut model = FsModel::new();
    let temp_dir = temp_path("origis_test_valid_repo");

    model.create_dir_all(&temp_dir.child(".origis"));
    model.write_file(&temp_dir.child(".origis").child("config.toml"), "");

    assert!(is_initialized(&model, &temp_dir));
}

#[test]
fn test_is_initialized_returns_false_for_empty_dir() {
    let mut model = FsModel::new();
    let temp_dir = temp_path("origis_test_empty_dir");
    model.create_dir_all(&temp_dir);

    assert!(!is_initialized(&model, &temp_dir));
}

#[test]
fn test_is_initialized_returns_false_for_missing_config() {
    let mut model = FsModel::new();
    let temp_dir = temp_path("origis_test_missing_config");
    model.create_dir_all(&temp_dir.child(".origis"));

    assert!(!is_initialized(&model, &temp_dir));
}

#[test]
fn test_find_repository_root_finds_repo_in_current_dir() {
    let mut model = FsModel::new();
    let temp_dir = temp_path("origis_test_find_current");
    let _ = init_repository(&mut model, &temp_dir);

    let result = find_repository_root(&model, &temp_dir);

    assert!(result.is_some());
    assert!(result.unwrap().path_eq(&temp_dir));
}

#[test]
fn test_find_repository_root_finds_repo_in_parent_dir() {
    let mut model = FsModel::new();
    let temp_dir = temp_path("origis_test_find_parent");
    let _ = init_repository(&mut model, &temp_dir);

    let nested = temp_dir.child("src").child("deep").child("folder");
    model.create_dir_all(&nested);

    let result = find_repository_root(&model, &nested);

    assert!(result.is_some());
    assert!(result.unwrap().path_eq(&temp_dir));
}

#[test]
fn test_find_repository_root_returns_none_if_no_repo() {
    let mut model = FsModel::new();
    let temp_dir = temp_path("origis_test_find_none");
    model.create_dir_all(&temp_dir);

    let result = find_repository_root(&model, &temp_dir);

    assert!(result.is_none());
}

#[test]
fn test_already_initialized_error_variant_and_message() {
    let mut model = FsModel::new();
    let temp_dir = temp_path("origis_test_error_variant");

    init_repository(&mut model, &temp_dir).unwrap();
    let err = init_repository(&mut model, &temp_dir).unwrap_err();

    assert!(matches!(err, RepositoryError::AlreadyInitialized));
    assert_eq!(err.message(), "Origis already initialized");
}

#[test]
fn test_io_error_message_carries_cause() {
    let err = RepositoryError::Io(String::from("disk full"));
    assert_eq!(err.message(), "disk full");
}

#[test]
fn test_init_leaves_unrelated_files_alone() {
    let mut model = FsModel::new();
    let temp_dir = temp_path("origis_test_unrelated");
    model.create_dir_all(&temp_dir);
    model.write_file(&temp_dir.child("notes.txt"), "keep me");

    init_repository(&mut model, &temp_dir).unwrap();

    assert_eq!(model.read_file(&temp_dir.child("notes.txt")).unwrap(), "keep me");
}

#[test]
fn test_init_resumes_after_partial_structure() {
    let mut model = FsModel::new();
    let temp_dir = temp_path("origis_test_partial");
    model.create_dir_all(&temp_dir.child(".origis"));
    model.write_file(&temp_dir.child(".origis").child("HEAD"), "stale");

    assert!(!is_initialized(&model, &temp_dir));
    init_repository(&mut model, &temp_dir).unwrap();

    assert!(is_initialized(&model, &temp_dir));
    assert_eq!(model.read_file(&temp_dir.child(".origis").child("HEAD")).unwrap(), "");
}
