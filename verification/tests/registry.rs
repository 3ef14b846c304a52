use meetup::descriptor::PublisherDesc;
use meetup::find_service::memory::MemoryStore;
use meetup::find_service::pattern::{check_pattern, name_matches, PatternError};
use meetup::find_service::registration::{ConnectionInfo, Interval, Registration, Timestamp};
use meetup::find_service::server::{
    MeetupServer, MeetupServerOptions, MissingFieldError, RegistryError,
};
use meetup::find_service::store::{PublisherNotFoundError, PublisherStore};

const SECOND: u64 = 1_000_000_000;

fn at(seconds: u64) -> Timestamp {
    Timestamp { nanos: seconds * SECOND }
}

fn desc(name: &str, port: u16) -> PublisherDesc {
    PublisherDesc { name: name.to_string(), host_name: "host".to_string(), port }
}

fn registration(name: &str, expiration: Option<u64>) -> Registration {
    Registration {
        publisher: desc(name, 1),
        info: Some(ConnectionInfo { last_report: at(0), expiration: expiration.map(at) }),
    }
}

fn server(lease_seconds: u64, scan_seconds: u64) -> MeetupServer<MemoryStore> {
    MeetupServer::new(MeetupServerOptions {
        publisher_timeout: Interval { nanos: lease_seconds * SECOND },
        publisher_scan_interval: Interval { nanos: scan_seconds * SECOND },
        publisher_store: MemoryStore::new(),
    })
}

fn names(list: &[Registration]) -> Vec<String> {
    let mut names: Vec<String> = list.iter().map(|r| r.publisher.name.clone()).collect();
    names.sort();
    names
}

fn store_with(names: &[&str]) -> MemoryStore {
    let mut store = MemoryStore::new();
    for n in names {
        store.insert_publisher(n.to_string(), registration(n, Some(10)));
    }
    store
}

#[test]
fn timestamp_checked_add_is_exact_and_stops_at_the_end() {
    assert_eq!(at(2).checked_add(Interval { nanos: 5 }), Some(Timestamp { nanos: 2 * SECOND + 5 }));
    assert_eq!(
        Timestamp { nanos: u64::MAX - 1 }.checked_add(Interval { nanos: 1 }),
        Some(Timestamp { nanos: u64::MAX })
    );
    assert_eq!(Timestamp { nanos: u64::MAX }.checked_add(Interval { nanos: 1 }), None);
}

#[test]
fn registration_is_live_strictly_before_its_expiration() {
    let r = Registration::new(desc("a", 1), at(1), at(6));
    assert_eq!(r.info, Some(ConnectionInfo { last_report: at(1), expiration: Some(at(6)) }));
    assert!(r.is_live_at(at(5)));
    assert!(!r.is_live_at(at(6)));
    assert!(!r.is_live_at(at(7)));
}

#[test]
fn registration_without_lease_metadata_is_not_live() {
    assert!(!registration("a", None).is_live_at(at(0)));
    assert!(!Registration { publisher: desc("a", 1), info: None }.is_live_at(at(0)));
}

#[test]
fn pattern_is_read_as_a_regular_expression() {
    assert_eq!(name_matches("svc-.*", "svc-a"), Ok(true));
    assert_eq!(name_matches("^svc-[0-9]+$", "svc-a"), Ok(false));
    assert_eq!(name_matches("^svc-[0-9]+$", "svc-42"), Ok(true));
    assert_eq!(name_matches("b", "abc"), Ok(true));
    assert_eq!(name_matches("a.c", "a.c"), Ok(true));
    assert_eq!(name_matches("a.c", "abc"), Ok(true));
    assert_eq!(name_matches("", "anything"), Ok(true));
}

#[test]
fn invalid_pattern_is_an_error() {
    assert_eq!(name_matches("svc(", "svc("), Err(PatternError));
    assert_eq!(check_pattern("[a-"), Err(PatternError));
    assert_eq!(check_pattern("[a-z]+"), Ok(()));
}

#[test]
fn store_insert_is_an_upsert() {
    let mut store = MemoryStore::new();
    store.insert_publisher("a".to_string(), registration("a", Some(1)));
    store.insert_publisher("b".to_string(), registration("b", Some(2)));
    store.insert_publisher("a".to_string(), registration("a", Some(3)));
    assert_eq!(store.len(), 2);
    let mut all = store.get_publishers();
    all.sort_by(|x, y| x.publisher.name.cmp(&y.publisher.name));
    assert_eq!(all, vec![registration("a", Some(3)), registration("b", Some(2))]);
}

#[test]
fn store_remove_fails_for_an_absent_name() {
    let mut store = store_with(&["a", "b"]);
    assert_eq!(store.remove_publisher("a".to_string()), Ok(()));
    assert_eq!(store.remove_publisher("a".to_string()), Err(PublisherNotFoundError));
    assert_eq!(names(&store.get_publishers()), vec!["b"]);
}

#[test]
fn remove_many_removes_all_present_names_and_reports_the_absent_one() {
    let mut store = store_with(&["a", "b", "c", "d"]);
    let r = store.remove_publishers(vec!["a".to_string(), "x".to_string(), "c".to_string()]);
    assert_eq!(r, Err(PublisherNotFoundError));
    assert_eq!(names(&store.get_publishers()), vec!["b", "d"]);
}

#[test]
fn remove_many_of_present_names_succeeds() {
    let mut store = store_with(&["a", "b", "c"]);
    assert_eq!(store.remove_publishers(vec!["c".to_string(), "a".to_string()]), Ok(()));
    assert_eq!(names(&store.get_publishers()), vec!["b"]);
    assert_eq!(store.remove_publishers(vec![]), Ok(()));
    assert_eq!(store.len(), 1);
}

#[test]
fn remove_many_takes_a_repeated_name_as_present() {
    let mut store = store_with(&["a", "b"]);
    assert_eq!(store.remove_publishers(vec!["a".to_string(), "a".to_string()]), Ok(()));
    assert_eq!(names(&store.get_publishers()), vec!["b"]);
}

#[test]
fn store_find_matches_on_the_publisher_name() {
    let store = store_with(&["svc-a", "svc-b", "other"]);
    assert_eq!(names(&store.find_publisher(&"^svc-".to_string()).unwrap()), vec!["svc-a", "svc-b"]);
    assert_eq!(store.find_publisher(&"nothing".to_string()), Ok(vec![]));
    assert_eq!(store.find_publisher(&"(".to_string()), Err(PatternError));
    assert_eq!(MemoryStore::new().find_publisher(&"(".to_string()), Err(PatternError));
}

#[test]
fn register_then_search_finds_the_publisher() {
    let mut registry = server(5, 1);
    let d = desc("svc-a", 4242);
    assert_eq!(registry.publisher_register(Some(d.clone()), at(0)), Ok(Interval { nanos: 5 * SECOND }));
    let list = registry.get_publishers(&d.name);
    assert_eq!(list.len(), 1);
    assert_eq!(list[0].publisher, d);
    assert_eq!(list[0].info, Some(ConnectionInfo { last_report: at(0), expiration: Some(at(5)) }));
}

#[test]
fn search_by_a_name_that_is_no_pattern_finds_nothing() {
    let mut registry = server(5, 1);
    let d = desc("svc(", 1);
    assert!(registry.publisher_register(Some(d.clone()), at(0)).is_ok());
    assert_eq!(registry.get_publishers(&d.name), vec![]);
    assert_eq!(registry.find_publishers(&d.name), Err(PatternError));
    assert_eq!(registry.server_status(), 1);
}

#[test]
fn registering_a_name_again_renews_it() {
    let mut registry = server(5, 1);
    assert!(registry.publisher_register(Some(desc("svc-a", 1)), at(0)).is_ok());
    assert!(registry.publisher_register(Some(desc("svc-a", 2)), at(3)).is_ok());
    assert_eq!(registry.server_status(), 1);
    let list = registry.get_publishers(&"svc-a".to_string());
    assert_eq!(
        list,
        vec![Registration {
            publisher: desc("svc-a", 2),
            info: Some(ConnectionInfo { last_report: at(3), expiration: Some(at(8)) }),
        }]
    );
}

#[test]
fn register_without_descriptor_is_a_missing_field() {
    let mut registry = server(5, 1);
    assert_eq!(
        registry.publisher_register(None, at(0)),
        Err(RegistryError::MissingField(MissingFieldError { container: "Registration", field: "desc" }))
    );
    assert_eq!(registry.server_status(), 0);
}

#[test]
fn register_beyond_the_end_of_time_fails() {
    let mut registry = server(5, 1);
    let late = Timestamp { nanos: u64::MAX - 5 * SECOND + 1 };
    assert_eq!(registry.publisher_register(Some(desc("a", 1)), late), Err(RegistryError::TimeConversion));
    assert_eq!(registry.publisher_register(None, late), Err(RegistryError::TimeConversion));
    assert_eq!(registry.server_status(), 0);
    let last = Timestamp { nanos: u64::MAX - 5 * SECOND };
    assert!(registry.publisher_register(Some(desc("a", 1)), last).is_ok());
}

#[test]
fn sweep_removes_what_has_expired_and_keeps_the_rest() {
    let mut registry = server(5, 1);
    assert!(registry.publisher_register(Some(desc("old", 1)), at(0)).is_ok());
    assert!(registry.publisher_register(Some(desc("edge", 1)), at(2)).is_ok());
    assert!(registry.publisher_register(Some(desc("new", 1)), at(3)).is_ok());
    let removed = registry.remove_expired_publishers(at(7));
    assert_eq!(names(&removed), vec!["edge", "old"]);
    assert_eq!(names(&registry.get_publishers(&".*".to_string())), vec!["new"]);
    assert_eq!(registry.remove_expired_publishers(at(7)), vec![]);
}

#[test]
fn sweep_takes_out_entries_without_lease_metadata() {
    let mut store = MemoryStore::new();
    store.insert_publisher("bare".to_string(), Registration { publisher: desc("bare", 1), info: None });
    store.insert_publisher("open".to_string(), Registration {
        publisher: desc("open", 1),
        info: Some(ConnectionInfo { last_report: at(0), expiration: None }),
    });
    store.insert_publisher("fine".to_string(), Registration::new(desc("fine", 1), at(0), at(9)));
    let mut registry = MeetupServer::new(MeetupServerOptions {
        publisher_timeout: Interval { nanos: SECOND },
        publisher_scan_interval: Interval { nanos: SECOND },
        publisher_store: store,
    });
    let removed = registry.remove_expired_publishers(at(1));
    assert_eq!(names(&removed), vec!["bare", "open"]);
    assert_eq!(registry.server_status(), 1);
}

#[test]
fn lease_of_five_seconds_swept_every_second() {
    let mut registry = server(5, 1);
    assert_eq!(registry.publisher_scan_interval(), Interval { nanos: SECOND });
    assert_eq!(registry.publisher_timeout(), Interval { nanos: 5 * SECOND });
    assert!(registry.publisher_register(Some(desc("svc-a", 1)), at(0)).is_ok());
    for tick in 1..=4 {
        assert_eq!(registry.remove_expired_publishers(at(tick)), vec![]);
    }
    assert_eq!(registry.get_publishers(&"svc-a".to_string()).len(), 1);
    let before = registry.server_status();
    assert_eq!(registry.remove_expired_publishers(at(5)).len(), 1);
    registry.remove_expired_publishers(at(6));
    assert_eq!(registry.get_publishers(&"svc-a".to_string()), vec![]);
    assert_eq!(registry.server_status(), before - 1);
}

#[test]
fn status_counts_the_registrations() {
    let mut registry = server(5, 1);
    assert_eq!(registry.server_status(), 0);
    for name in ["a", "b", "c"] {
        assert!(registry.publisher_register(Some(desc(name, 1)), at(0)).is_ok());
    }
    assert_eq!(registry.server_status(), 3);
}
