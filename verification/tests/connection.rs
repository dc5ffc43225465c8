use voicetime::connection::mocks::SuccessfulSender;
use voicetime::connection::{random_port, Sender};

#[test]
fn random_port_generates_in_range_of_10000_20000() {
    let port = random_port();

    assert!(port >= 10000);
    assert!(port <= 20000);
}

#[test]
fn random_port_stays_below_20000() {
    for _ in 0..1000 {
        let port = random_port();
        assert!((10000..20000).contains(&port));
    }
}

#[test]
fn successful_sender_always_sends() {
    assert!(SuccessfulSender.send_to());
}
