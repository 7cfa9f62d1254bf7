use structfile::errors::{
    filter_not_found_error, invalid_key_message, path_error, wrong_value_message, Error,
    FailureKind, IoFailure,
};
use structfile::path::EntryPath;

#[test]
fn path_error_is_the_wrong_value_error_for_the_path() {
    let path = EntryPath { segments: vec!["sub".to_string(), "list".to_string()] };
    let expected = EntryPath { segments: vec!["sub".to_string(), "list".to_string()] };
    assert_eq!(path_error(path), Err(Error::WrongValueType(expected)));
}

#[test]
fn path_error_for_the_root() {
    assert_eq!(path_error(EntryPath::root()), Err(Error::WrongValueType(EntryPath::root())));
}

#[test]
fn filter_keeps_success() {
    assert_eq!(filter_not_found_error(Ok(())), Ok(()));
}

#[test]
fn filter_turns_not_found_into_success() {
    let failure = IoFailure { kind: FailureKind::NotFound, message: "gone".to_string() };
    assert_eq!(filter_not_found_error(Err(failure)), Ok(()));
}

#[test]
fn filter_keeps_any_other_failure() {
    let failure = IoFailure { kind: FailureKind::Other, message: "permission denied".to_string() };
    let same = IoFailure { kind: FailureKind::Other, message: "permission denied".to_string() };
    assert_eq!(filter_not_found_error(Err(failure)), Err(same));
}

#[test]
fn wrong_value_message_names_the_place() {
    assert_eq!(wrong_value_message("/tmp/out/sub/list"), "Invalid value for path /tmp/out/sub/list");
    assert_eq!(wrong_value_message(""), "Invalid value for path ");
}

#[test]
fn invalid_key_message_names_the_mapping() {
    assert_eq!(
        invalid_key_message("/tmp/out/sub"),
        "Invalid path: a key under /tmp/out/sub is not a string"
    );
}
