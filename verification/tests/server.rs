use voicetime::client::playback;
use voicetime::messages::{Message, MessageType};
use voicetime::server::Server;

fn audio(samples: Option<Vec<i16>>) -> Vec<u8> {
    let mut buf = Message::encoded(MessageType::Audio, samples);
    buf.resize(8192, 0);
    buf
}

fn connect() -> Vec<u8> {
    Message::encoded(MessageType::Connect, None)
}

#[test]
fn receive_from_a_new_client_with_zero_current_clients() {
    let mut server = Server::new();
    let targets = server.handle_datagram("0.0.0.0:30001".to_string(), &audio(Some(vec![5])));
    assert_eq!(Some(vec![]), targets);
    assert_eq!(1, server.connected_clients());
}

#[test]
fn receive_from_a_new_client_with_one_current_clients() {
    let mut server = Server::new();
    let first = "127.0.0.1:30001".to_string();
    let second = "127.0.0.1:30002".to_string();
    assert_eq!(Some(vec![]), server.handle_datagram(first.clone(), &connect()));
    let datagram = audio(Some(vec![10]));
    let targets = server.handle_datagram(second.clone(), &datagram);
    assert_eq!(Some(vec![first]), targets);
    let received = playback(&datagram);
    assert_eq!(Some(Some(vec![10])), received);
    assert_eq!(10, received.unwrap().unwrap()[0]);
    assert_eq!(2, server.connected_clients());
}

#[test]
fn receive_from_a_new_client_with_two_current_clients() {
    let mut server = Server::new();
    let first = "127.0.0.1:30001".to_string();
    let second = "127.0.0.1:30002".to_string();
    let third = "127.0.0.1:30003".to_string();
    assert_eq!(Some(vec![]), server.handle_datagram(first.clone(), &connect()));
    assert_eq!(
        Some(vec![first.clone()]),
        server.handle_datagram(second.clone(), &audio(None))
    );
    let datagram = audio(Some(vec![10]));
    let targets = server.handle_datagram(third.clone(), &datagram);
    assert_eq!(Some(vec![first, second]), targets);
    assert_eq!(10, playback(&datagram).unwrap().unwrap()[0]);
    assert_eq!(3, server.connected_clients());
}

#[test]
fn a_returning_client_is_registered_once() {
    let mut server = Server::new();
    let a = "10.0.0.1:4000".to_string();
    let b = "10.0.0.2:4000".to_string();
    server.handle_datagram(a.clone(), &connect());
    server.handle_datagram(b.clone(), &connect());
    server.handle_datagram(a.clone(), &audio(Some(vec![1])));
    server.handle_datagram(a.clone(), &audio(Some(vec![2])));
    assert_eq!(2, server.connected_clients());
    assert_eq!(Some(vec![a]), server.handle_datagram(b, &audio(None)));
}

#[test]
fn connect_is_not_passed_on() {
    let mut server = Server::new();
    server.handle_datagram("a:1".to_string(), &connect());
    assert_eq!(Some(vec![]), server.handle_datagram("b:1".to_string(), &connect()));
}

#[test]
fn disconnect_is_passed_on_like_audio() {
    let mut server = Server::new();
    server.handle_datagram("a:1".to_string(), &connect());
    let bye = Message::encoded(MessageType::Disconnect, None);
    assert_eq!(
        Some(vec!["a:1".to_string()]),
        server.handle_datagram("b:1".to_string(), &bye)
    );
}

#[test]
fn a_malformed_datagram_registers_its_sender_and_goes_nowhere() {
    let mut server = Server::new();
    server.handle_datagram("a:1".to_string(), &connect());
    assert_eq!(None, server.handle_datagram("b:1".to_string(), &[7, 7, 7]));
    assert_eq!(2, server.connected_clients());
}

#[test]
fn playback_plays_only_audio() {
    assert_eq!(Some(None), playback(&connect()));
    assert_eq!(Some(Some(vec![3, 4])), playback(&audio(Some(vec![3, 4]))));
    assert_eq!(None, playback(&[1, 2, 3]));
}
