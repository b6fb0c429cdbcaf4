use reflector::event::{Error, ErrorResponse, ObjectList, WatchEvent};
use reflector::meta::Meta;
use reflector::reflector::Reflector;

#[derive(Clone, Debug, PartialEq)]
struct Pod {
    name: String,
    namespace: Option<String>,
    version: Option<String>,
    image: u32,
}

impl Meta for Pod {
    fn name(&self) -> String {
        self.name.clone()
    }

    fn namespace(&self) -> Option<String> {
        self.namespace.clone()
    }

    fn resource_ver(&self) -> Option<String> {
        self.version.clone()
    }
}

fn pod(name: &str, namespace: Option<&str>, version: Option<&str>, image: u32) -> Pod {
    Pod {
        name: name.to_string(),
        namespace: namespace.map(|ns| ns.to_string()),
        version: version.map(|v| v.to_string()),
        image,
    }
}

fn snapshot(items: Vec<Pod>, version: Option<&str>) -> Result<ObjectList<Pod>, Error> {
    Ok(ObjectList { items, resource_version: version.map(|v| v.to_string()) })
}

fn expired() -> ErrorResponse {
    ErrorResponse {
        status: "Failure".to_string(),
        message: "too old resource version".to_string(),
        reason: "Expired".to_string(),
        code: 410,
    }
}

#[test]
fn new_reflector_is_empty_at_version_zero() {
    let mirror: Reflector<Pod> = Reflector::new(Some("x".to_string()));
    assert_eq!(mirror.version(), "0");
    assert_eq!(mirror.state(), Ok(vec![]));
    assert_eq!(mirror.get("a"), Ok(None));
}

#[test]
fn reset_loads_the_snapshot() {
    let mut mirror: Reflector<Pod> = Reflector::new(None);
    let a = pod("a", Some("x"), None, 1);
    let b = pod("b", Some("x"), None, 2);
    assert_eq!(mirror.reset(snapshot(vec![a.clone(), b.clone()], Some("10"))), Ok(()));
    assert_eq!(mirror.state(), Ok(vec![a.clone(), b]));
    assert_eq!(mirror.get_within("a", "x"), Ok(Some(a)));
    assert_eq!(mirror.get_within("a", "y"), Ok(None));
    assert_eq!(mirror.version(), "10");
}

#[test]
fn poll_applies_modify_then_delete() {
    let mut mirror: Reflector<Pod> = Reflector::new(None);
    let v1 = pod("a", Some("x"), Some("10"), 1);
    assert_eq!(mirror.reset(snapshot(vec![v1], Some("10"))), Ok(()));
    let feed = vec![
        Ok(WatchEvent::Modified(pod("a", Some("x"), Some("11"), 2))),
        Ok(WatchEvent::Deleted(pod("a", Some("x"), Some("12"), 2))),
    ];
    assert_eq!(mirror.poll(Ok(feed)), Ok(()));
    assert_eq!(mirror.state(), Ok(vec![]));
    assert_eq!(mirror.version(), "12");
}

#[test]
fn poll_keeps_what_it_applied_before_an_error_event() {
    let mut mirror: Reflector<Pod> = Reflector::new(None);
    let c = pod("c", Some("x"), Some("13"), 3);
    let feed = vec![Ok(WatchEvent::Added(c.clone())), Ok(WatchEvent::Error(expired()))];
    assert_eq!(mirror.poll(Ok(feed)), Err(Error::Stream(expired())));
    assert_eq!(mirror.version(), "13");
    assert_eq!(mirror.get_within("c", "x"), Ok(Some(c.clone())));
    assert_eq!(mirror.state(), Ok(vec![c]));
}

#[test]
fn poll_applies_nothing_after_the_first_failure() {
    let mut mirror: Reflector<Pod> = Reflector::new(None);
    let a = pod("a", Some("x"), Some("1"), 1);
    let broken = Error::Transport("connection reset".to_string());
    let feed = vec![
        Ok(WatchEvent::Added(a.clone())),
        Err(broken.clone()),
        Ok(WatchEvent::Added(pod("b", Some("x"), Some("2"), 2))),
        Ok(WatchEvent::Error(expired())),
    ];
    assert_eq!(mirror.poll(Ok(feed)), Err(broken));
    assert_eq!(mirror.state(), Ok(vec![a]));
    assert_eq!(mirror.version(), "1");
}

#[test]
fn poll_of_an_empty_feed_changes_nothing() {
    let mut mirror: Reflector<Pod> = Reflector::new(None);
    let a = pod("a", Some("x"), Some("1"), 1);
    assert_eq!(mirror.reset(snapshot(vec![a.clone()], Some("4"))), Ok(()));
    assert_eq!(mirror.poll(Ok(vec![])), Ok(()));
    assert_eq!(mirror.state(), Ok(vec![a]));
    assert_eq!(mirror.version(), "4");
}

#[test]
fn poll_hands_back_the_failure_of_the_watch_call() {
    let mut mirror: Reflector<Pod> = Reflector::new(None);
    let a = pod("a", Some("x"), Some("1"), 1);
    assert_eq!(mirror.reset(snapshot(vec![a.clone()], Some("4"))), Ok(()));
    let refused = Error::Transport("401 Unauthorized".to_string());
    assert_eq!(mirror.poll(Err(refused.clone())), Err(refused));
    assert_eq!(mirror.state(), Ok(vec![a]));
    assert_eq!(mirror.version(), "4");
}

#[test]
fn poll_does_as_apply_event_does_item_by_item() {
    let feed = vec![
        Ok(WatchEvent::Added(pod("a", Some("x"), Some("1"), 1))),
        Ok(WatchEvent::Added(pod("b", None, Some("2"), 2))),
        Ok(WatchEvent::Modified(pod("a", Some("x"), Some("3"), 3))),
        Ok(WatchEvent::Bookmark(pod("z", None, Some("4"), 0))),
        Ok(WatchEvent::Deleted(pod("b", None, None, 2))),
    ];
    let mut whole: Reflector<Pod> = Reflector::new(None);
    assert_eq!(whole.poll(Ok(feed.clone())), Ok(()));
    let mut stepwise: Reflector<Pod> = Reflector::new(None);
    for item in feed {
        assert_eq!(stepwise.apply_event(item), Ok(()));
    }
    assert_eq!(whole.state(), stepwise.state());
    assert_eq!(whole.version(), stepwise.version());
    assert_eq!(whole.state(), Ok(vec![pod("a", Some("x"), Some("3"), 3)]));
    assert_eq!(whole.version(), "4");
}

#[test]
fn version_is_the_marker_of_the_last_event_that_carried_one() {
    let mut mirror: Reflector<Pod> = Reflector::new(None);
    let feed = vec![
        Ok(WatchEvent::Added(pod("a", Some("x"), Some("5"), 1))),
        Ok(WatchEvent::Deleted(pod("a", Some("x"), Some("6"), 1))),
        Ok(WatchEvent::Bookmark(pod("a", Some("x"), Some("7"), 1))),
        Ok(WatchEvent::Added(pod("b", Some("x"), None, 2))),
        Ok(WatchEvent::Modified(pod("c", Some("x"), None, 3))),
    ];
    assert_eq!(mirror.poll(Ok(feed)), Ok(()));
    assert_eq!(mirror.version(), "7");
}

#[test]
fn version_stays_when_no_event_carries_a_marker() {
    let mut mirror: Reflector<Pod> = Reflector::new(None);
    assert_eq!(mirror.reset(snapshot(vec![], Some("42"))), Ok(()));
    let feed = vec![
        Ok(WatchEvent::Added(pod("a", Some("x"), None, 1))),
        Ok(WatchEvent::Bookmark(pod("a", Some("x"), None, 1))),
    ];
    assert_eq!(mirror.poll(Ok(feed)), Ok(()));
    assert_eq!(mirror.version(), "42");
}

#[test]
fn reset_replaces_data_and_version() {
    let mut mirror: Reflector<Pod> = Reflector::new(None);
    let feed = vec![
        Ok(WatchEvent::Added(pod("old", Some("x"), Some("5"), 1))),
        Ok(WatchEvent::Added(pod("a", Some("x"), Some("6"), 1))),
    ];
    assert_eq!(mirror.poll(Ok(feed)), Ok(()));
    let a = pod("a", Some("x"), Some("2"), 9);
    assert_eq!(mirror.reset(snapshot(vec![a.clone()], Some("3"))), Ok(()));
    assert_eq!(mirror.state(), Ok(vec![a]));
    assert_eq!(mirror.get_within("old", "x"), Ok(None));
    assert_eq!(mirror.version(), "3");
}

#[test]
fn reset_without_marker_goes_back_to_version_zero() {
    let mut mirror: Reflector<Pod> = Reflector::new(None);
    assert_eq!(
        mirror.poll(Ok(vec![Ok(WatchEvent::Added(pod("a", Some("x"), Some("6"), 1)))])),
        Ok(())
    );
    assert_eq!(mirror.reset(snapshot(vec![], None)), Ok(()));
    assert_eq!(mirror.version(), "0");
    assert_eq!(mirror.state(), Ok(vec![]));
}

#[test]
fn failed_reset_leaves_the_cache_untouched() {
    let mut mirror: Reflector<Pod> = Reflector::new(None);
    let a = pod("a", Some("x"), Some("6"), 1);
    assert_eq!(mirror.poll(Ok(vec![Ok(WatchEvent::Added(a.clone()))])), Ok(()));
    let down = Error::Transport("503 Service Unavailable".to_string());
    assert_eq!(mirror.reset(Err(down.clone())), Err(down));
    assert_eq!(mirror.state(), Ok(vec![a]));
    assert_eq!(mirror.version(), "6");
}

#[test]
fn get_looks_in_the_namespace_of_the_reflector() {
    let mut mirror: Reflector<Pod> = Reflector::new(Some("x".to_string()));
    let ax = pod("a", Some("x"), None, 1);
    let ay = pod("a", Some("y"), None, 2);
    let bare = pod("a", None, None, 3);
    assert_eq!(mirror.reset(snapshot(vec![ay.clone(), bare, ax.clone()], Some("1"))), Ok(()));
    assert_eq!(mirror.get("a"), Ok(Some(ax)));
    assert_eq!(mirror.get_within("a", "y"), Ok(Some(ay)));
    assert_eq!(mirror.get("b"), Ok(None));
}

#[test]
fn get_without_namespace_finds_only_objects_without_one() {
    let mut mirror: Reflector<Pod> = Reflector::new(None);
    let node = pod("n1", None, None, 1);
    let pod_n1 = pod("n1", Some("x"), None, 2);
    let only_namespaced = pod("p", Some("x"), None, 3);
    assert_eq!(
        mirror.reset(snapshot(vec![pod_n1, node.clone(), only_namespaced], Some("1"))),
        Ok(())
    );
    assert_eq!(mirror.get("n1"), Ok(Some(node)));
    assert_eq!(mirror.get("p"), Ok(None));
}

#[test]
fn state_lists_objects_without_namespace_first_then_by_name() {
    let mut mirror: Reflector<Pod> = Reflector::new(None);
    let items = vec![
        pod("b", Some("x"), None, 4),
        pod("a", Some("y"), None, 3),
        pod("z", None, None, 1),
        pod("a", Some("x"), None, 2),
        pod("c", None, None, 0),
    ];
    assert_eq!(mirror.reset(snapshot(items, Some("1"))), Ok(()));
    let images: Vec<u32> = mirror.state().unwrap().iter().map(|p| p.image).collect();
    assert_eq!(images, vec![0, 1, 2, 3, 4]);
}

#[test]
fn state_hands_out_copies() {
    let mut mirror: Reflector<Pod> = Reflector::new(None);
    let a = pod("a", Some("x"), None, 1);
    assert_eq!(mirror.reset(snapshot(vec![a.clone()], Some("1"))), Ok(()));
    let mut copy = mirror.state().unwrap();
    copy[0].image = 99;
    copy.clear();
    assert_eq!(mirror.state(), Ok(vec![a.clone()]));
    assert_eq!(mirror.get_within("a", "x"), Ok(Some(a)));
}
