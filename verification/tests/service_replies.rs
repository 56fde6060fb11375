use vecgraph::service::{acknowledge, invalid_data, lookup_reply, missing_data, store_failure, ReplyCode};
use vecgraph::VecGraphError;

#[test]
fn missing_and_invalid_data() {
    let f = missing_data("Edge");
    assert_eq!(f.code, ReplyCode::InvalidArgument);
    assert_eq!(f.message, "Edge data is missing");
    let f = invalid_data("NodeWithVector", &VecGraphError::Other("NodeWithVector missing node field".into()));
    assert_eq!(f.code, ReplyCode::InvalidArgument);
    assert_eq!(f.message, "Invalid NodeWithVector data: Error: NodeWithVector missing node field");
}

#[test]
fn store_failures() {
    let f = store_failure("insert edge", &VecGraphError::StorageError("disk".into()));
    assert_eq!(f.code, ReplyCode::Internal);
    assert_eq!(f.message, "Failed to insert edge: Storage error: disk");
    assert!(acknowledge(Ok(()), "delete node").is_ok());
    let f = acknowledge(Err(VecGraphError::EmptyQuery), "delete node").unwrap_err();
    assert_eq!(f.message, "Failed to delete node: Query is empty");
}

#[test]
fn lookups() {
    assert_eq!(lookup_reply(Ok(Some(3u8)), "Edge", "get edge").unwrap(), 3);
    let f = lookup_reply::<u8>(Ok(None), "Edge vector", "get edge vector").unwrap_err();
    assert_eq!(f.code, ReplyCode::NotFound);
    assert_eq!(f.message, "Edge vector not found");
    let f = lookup_reply::<u8>(Err(VecGraphError::StorageError("x".into())), "Node", "get node").unwrap_err();
    assert_eq!(f.code, ReplyCode::Internal);
    assert_eq!(f.message, "Failed to get node: Storage error: x");
}
