use dynamic_multi_reducer::connect::{
    connect_via_proxy_or_directly, directly, via_proxy, Connector, Dial,
};
use dynamic_multi_reducer::error::Error;
use dynamic_multi_reducer::event::Event;
use fast_socks5::SocksError;

type TestEvent = Event<String, u32>;

fn io_error() -> std::io::Error {
    std::io::Error::new(std::io::ErrorKind::Other, "refused")
}

#[test]
fn goes_through_the_proxy_if_there_is_one() {
    let dial = connect_via_proxy_or_directly("1.2.3.4:80", Some("proxy:1080".to_string()));
    match dial {
        Ok(Dial::Proxy { proxy_address, addr, port }) => {
            assert_eq!(proxy_address, "proxy:1080");
            assert_eq!(addr, "1.2.3.4");
            assert_eq!(port, 80);
        }
        other => panic!("{:?}", other),
    }
}

#[test]
fn goes_directly_without_a_proxy() {
    match connect_via_proxy_or_directly("1.2.3.4:080", None) {
        Ok(Dial::Direct { server_address }) => assert_eq!(server_address, "1.2.3.4:080"),
        other => panic!("{:?}", other),
    }
}

#[test]
fn refuses_a_bad_address_with_and_without_a_proxy() {
    for proxy in [None, Some("proxy:1080".to_string())] {
        let dial = connect_via_proxy_or_directly("example.org:80", proxy);
        assert!(matches!(dial, Err(Error::ParseIPAddress)));
    }
}

#[test]
fn errors_keep_their_origin() {
    let ok: Result<u32, Error> = via_proxy(Ok(7));
    assert!(matches!(ok, Ok(7)));
    let ok: Result<u32, Error> = directly(Ok(8));
    assert!(matches!(ok, Ok(8)));
    let err: Result<u32, Error> = directly(Err(io_error()));
    assert!(matches!(&err, Err(Error::IO(inner)) if inner.to_string() == "refused"));
    let err: Result<u32, Error> = via_proxy(Err(SocksError::ExceededMaxDomainLen(300)));
    assert!(matches!(err, Err(Error::FastSocks(SocksError::ExceededMaxDomainLen(300)))));
}

#[test]
fn errors_describe_themselves() {
    assert_eq!(Error::ParseIPAddress.message(), "Error parsing ip address.");
    assert_eq!(Error::from(io_error()).message(), "IO error");
    assert_eq!(Error::from(SocksError::ExceededMaxDomainLen(1)).message(), "Fast socks error");
}

#[test]
fn connection_is_prepared() {
    let _connector = Connector::new().clone();
    let (tx, mut rx) = tokio::sync::mpsc::channel::<TestEvent>(1);
    let connection = Connector::connect(3, "1.2.3.4:80".to_string(), None, 9, tx);
    assert_eq!(connection.reserved, 3);
    assert_eq!(connection.source_id, 9);
    assert!(matches!(connection.dial, Ok(Dial::Direct { .. })));
    connection.event_emitter.try_send(Event::Disconnect { source_id: 9 }).unwrap();
    assert!(matches!(rx.try_recv(), Ok(Event::Disconnect { source_id: 9 })));
}

#[test]
fn success_reports_the_stream() {
    let event: TestEvent = Connector::report(3, 9, Ok(42));
    assert!(matches!(event, Event::Connected { reserved: 3, source_id: 9, stream: 42 }));
}

#[test]
fn failure_reports_the_source() {
    let event: TestEvent = Connector::report(3, 9, Err(Error::ParseIPAddress));
    assert!(matches!(event, Event::ConnectionFailed { reserved: 3, source_id: 9 }));
}
