use std::sync::Arc;
use std::time::Duration;
use vecgraph::{GraphStoreServiceImpl, RemoteGraphStoreConfig};

#[test]
fn config_defaults() {
    let c = RemoteGraphStoreConfig::new("http://localhost:50051".to_string());
    assert_eq!(c.endpoint, "http://localhost:50051");
    assert!(!c.connect_lazy);
    assert_eq!(c.connect_timeout, Some(Duration::from_secs(5)));
    assert_eq!(c.request_timeout, Some(Duration::from_secs(30)));
}

#[test]
fn config_builders() {
    let c = RemoteGraphStoreConfig::new("e".to_string())
        .with_connect_timeout(Duration::from_millis(10))
        .with_request_timeout(Duration::from_secs(1))
        .with_connect_lazy(true);
    assert_eq!(c.connect_timeout, Some(Duration::from_millis(10)));
    assert_eq!(c.request_timeout, Some(Duration::from_secs(1)));
    assert!(c.connect_lazy);
    assert_eq!(c.endpoint, "e");
}

#[test]
fn service_holds_its_store() {
    let store = Arc::new(5u8);
    let service = GraphStoreServiceImpl::new(store.clone());
    assert!(Arc::ptr_eq(service.store(), &store));
}

#[test]
fn config_clones() {
    let c = RemoteGraphStoreConfig::new("e".to_string()).with_connect_lazy(true);
    let d = c.clone();
    assert_eq!(d.endpoint, "e");
    assert!(d.connect_lazy);
    assert_eq!(d.connect_timeout, c.connect_timeout);
}
