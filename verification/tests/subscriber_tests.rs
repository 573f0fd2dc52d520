use rust_just_rates::app::{respond_to_datagram, PublisherMessage, PublisherOutcome};
use rust_just_rates::http::http_response;
use rust_just_rates::registry::{JustRateAction, SubscriberRegistry};

fn count_reply<R>(registry: &SubscriberRegistry<R>) -> String {
    match respond_to_datagram("GET_SUBSCRIBER_COUNT".as_bytes(), registry.subscriber_count()) {
        PublisherOutcome::Reply(text) => text,
        PublisherOutcome::Publish(_) => panic!("a count request was published"),
    }
}

fn published(datagram: &str) -> PublisherMessage {
    match respond_to_datagram(datagram.as_bytes(), 0) {
        PublisherOutcome::Publish(message) => message,
        PublisherOutcome::Reply(text) => panic!("unexpected reply {}", text),
    }
}

fn subscribers_come_and_go() {
    // Handles stand in for the websocket responders of two clients.
    let mut registry: SubscriberRegistry<&str> = SubscriberRegistry::new();
    assert_eq!("SUBSCRIBER_COUNT 0", count_reply(&registry));

    assert!(registry.apply(JustRateAction::AddClient(0, "client a")).is_empty());
    assert!(registry.apply(JustRateAction::AddClient(1, "client b")).is_empty());
    assert_eq!("SUBSCRIBER_COUNT 2", count_reply(&registry));

    let message = published("DATA ProductDb OrderWorker 7");
    let mut deliveries =
        registry.apply(JustRateAction::BroadCastMessageToAllClients(message));
    deliveries.sort();
    assert_eq!(
        vec![
            (0, "ProductDb OrderWorker 7".to_string()),
            (1, "ProductDb OrderWorker 7".to_string())
        ],
        deliveries
    );
    assert_eq!(Some(&"client a"), registry.responder(0));
    assert_eq!(Some(&"client b"), registry.responder(1));

    assert!(registry.apply(JustRateAction::RemoveClient(0)).is_empty());
    assert_eq!("SUBSCRIBER_COUNT 1", count_reply(&registry));
    assert_eq!(None, registry.responder(0));

    assert!(registry.apply(JustRateAction::RemoveClient(1)).is_empty());
    assert_eq!("SUBSCRIBER_COUNT 0", count_reply(&registry));
}

#[test]
fn app_flow_tests_run_with_subscribers_test() {
    subscribers_come_and_go();
}

#[test]
fn app_tests_run_with_subscribers_test() {
    subscribers_come_and_go();
}

#[test]
fn broadcast_without_subscribers_reaches_nobody() {
    let mut registry: SubscriberRegistry<u32> = SubscriberRegistry::new();
    let message = PublisherMessage { payload: "nobody listens".to_string() };
    let deliveries = registry.apply(JustRateAction::BroadCastMessageToAllClients(message));
    assert!(deliveries.is_empty());
    assert_eq!(0, registry.subscriber_count());
}

#[test]
fn new_registry_has_no_clients() {
    let registry: SubscriberRegistry<u32> = SubscriberRegistry::new();
    assert_eq!(0, registry.subscriber_count());
    assert!(!registry.is_connected(0));
    assert!(!registry.is_connected(17));
    assert_eq!(None, registry.responder(17));
}

#[test]
fn reconnecting_client_replaces_its_handle() {
    let mut registry: SubscriberRegistry<u32> = SubscriberRegistry::new();
    registry.add_client(5, 50);
    assert!(registry.is_connected(5));
    assert_eq!(Some(&50), registry.responder(5));
    registry.remove_client(5);
    assert!(!registry.is_connected(5));
    registry.add_client(5, 51);
    assert_eq!(Some(&51), registry.responder(5));
    assert_eq!(1, registry.subscriber_count());
}

#[test]
fn deliveries_carry_the_payload_to_each_client_once() {
    let mut registry: SubscriberRegistry<u32> = SubscriberRegistry::new();
    for id in 0..5u64 {
        registry.add_client(id, id as u32);
    }
    let message = PublisherMessage { payload: "héllo".to_string() };
    let mut deliveries = registry.deliveries(&message);
    deliveries.sort();
    let expected: Vec<(u64, String)> = (0..5u64).map(|id| (id, "héllo".to_string())).collect();
    assert_eq!(expected, deliveries);
}

#[test]
fn empty_registry_refuses_a_disconnection() {
    let registry: SubscriberRegistry<u32> = SubscriberRegistry::new();
    assert!(!registry.accepts(&JustRateAction::RemoveClient(1)));
    assert!(registry.accepts(&JustRateAction::AddClient(1, 10)));
    let message = PublisherMessage { payload: "x".to_string() };
    assert!(registry.accepts(&JustRateAction::BroadCastMessageToAllClients(message)));
}

#[test]
fn page_response_wraps_the_file_content() {
    let expected = "HTTP/1.1 200 OK\r\nDate: Mon, 27 Jul 2009 12:28:53 GMT\r\nServer: Apache/2.2.14 (Win32)\r\nLast-Modified: Wed, 22 Jul 2009 19:15:56 GMT\r\nContent-Type: text/html\r\nConnection: Closed\r\n\r\n<html></html>\r\n\r";
    assert_eq!(expected, http_response("<html></html>"));
}

#[test]
fn each_client_receives_the_payloads_published_while_connected() {
    let mut registry: SubscriberRegistry<u32> = SubscriberRegistry::new();
    let payload = |text: &str| PublisherMessage { payload: text.to_string() };
    let actions = vec![
        JustRateAction::BroadCastMessageToAllClients(payload("before anyone")),
        JustRateAction::AddClient(1, 10),
        JustRateAction::BroadCastMessageToAllClients(payload("first")),
        JustRateAction::AddClient(2, 20),
        JustRateAction::BroadCastMessageToAllClients(payload("second")),
        JustRateAction::RemoveClient(1),
        JustRateAction::BroadCastMessageToAllClients(payload("third")),
    ];
    let mut received: Vec<(u64, String)> = Vec::new();
    for action in actions {
        received.extend(registry.apply(action));
    }
    let texts_for = |id: u64| -> Vec<String> {
        received.iter().filter(|d| d.0 == id).map(|d| d.1.clone()).collect()
    };
    assert_eq!(vec!["first".to_string(), "second".to_string()], texts_for(1));
    assert_eq!(vec!["second".to_string(), "third".to_string()], texts_for(2));
    assert_eq!(4, received.len());
}
