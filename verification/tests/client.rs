use webrtc_demo_server::client::Client;
use webrtc_demo_server::client::ClientMessage;
use webrtc_demo_server::client::Relay;
use webrtc_demo_server::client::Roster;
use webrtc_demo_server::client::RosterClient;
use webrtc_demo_server::client::Started;
use webrtc_demo_server::lobby::ConnectResponse;
use webrtc_demo_server::lobby::Disconnect;
use webrtc_demo_server::lobby::Lobby;
use webrtc_demo_server::lobby::RecvClientMessage;
use webrtc_demo_server::routing::Routing;

fn roster_for(name: &str) -> Roster {
    Roster {
        name: name.to_string(),
        clients: vec![RosterClient { name: name.to_string(), peer: None, user_agent: None }],
    }
}

#[test]
fn new_client_has_no_name() {
    let client = Client::new(Some("127.0.0.1:9".to_string()), None);
    assert_eq!(client, Client { name: None, peer: Some("127.0.0.1:9".to_string()), user_agent: None });
    assert_eq!(client.display_name(), "none");
}

#[test]
fn request_carries_the_client_s_metadata() {
    let client = Client::new(Some("127.0.0.1:9".to_string()), Some("agent".to_string()));
    let msg = client.request(5u8);
    assert_eq!(msg.addr, 5);
    assert_eq!(msg.peer, Some("127.0.0.1:9".to_string()));
    assert_eq!(msg.user_agent, Some("agent".to_string()));
    let bare = Client::new(None, None).request("handle");
    assert_eq!(bare.addr, "handle");
    assert_eq!(bare.peer, None);
    assert_eq!(bare.user_agent, None);
}

#[test]
fn started_with_a_roster_names_the_client() {
    let mut client = Client::new(Some("peer".to_string()), None);
    let step = client.started(Some(ConnectResponse { roster: Some(roster_for("Clever Badger")) }));
    assert_eq!(step, Started::Send(ClientMessage::Roster(roster_for("Clever Badger"))));
    assert_eq!(client.name, Some("Clever Badger".to_string()));
    assert_eq!(client.peer, Some("peer".to_string()));
    assert_eq!(client.display_name(), "Clever Badger");
}

#[test]
fn started_without_a_roster_stops() {
    let mut client = Client::new(None, Some("agent".to_string()));
    assert_eq!(client.started(Some(ConnectResponse { roster: None })), Started::Stop);
    assert_eq!(client.name, None);
    assert_eq!(client.started(None), Started::Stop);
    assert_eq!(client, Client::new(None, Some("agent".to_string())));
}

#[test]
fn stopping_gives_up_the_name_once() {
    let mut client = Client::new(None, None);
    assert_eq!(client.stopping(), None);
    client.started(Some(ConnectResponse { roster: Some(roster_for("Zany Zebra")) }));
    assert_eq!(client.stopping(), Some(Disconnect { name: "Zany Zebra".to_string() }));
    assert_eq!(client.name, None);
    assert_eq!(client.stopping(), None);
}

#[test]
fn handle_passes_messages_on_under_the_client_s_name() {
    let mut client = Client::new(None, None);
    client.started(Some(ConnectResponse { roster: Some(roster_for("Alpha")) }));
    let relay = || ClientMessage::Relay(Relay { name: "Beta".to_string(), json: "X".to_string() });
    assert_eq!(
        client.handle(Some(relay())),
        Some(RecvClientMessage { name: "Alpha".to_string(), message: relay() })
    );
    assert_eq!(
        client.handle(Some(ClientMessage::Roster(roster_for("Beta")))),
        Some(RecvClientMessage {
            name: "Alpha".to_string(),
            message: ClientMessage::Roster(roster_for("Beta")),
        })
    );
}

#[test]
fn handle_drops_what_cannot_be_passed_on() {
    let named = Client { name: Some("Alpha".to_string()), peer: None, user_agent: None };
    assert_eq!(named.handle(None), None);
    let unnamed = Client::new(None, None);
    let relay = ClientMessage::Relay(Relay { name: "Beta".to_string(), json: "X".to_string() });
    assert_eq!(unnamed.handle(Some(relay)), None);
    assert_eq!(unnamed.handle(None), None);
}

#[test]
fn a_connection_from_start_to_end() {
    let mut lobby: Lobby<u32> = Lobby::new();
    let mut alpha = Client::new(Some("10.0.0.1:1".to_string()), None);
    let mut beta = Client::new(Some("10.0.0.2:2".to_string()), None);
    let (response, deliveries) = lobby.connect(alpha.request(1));
    assert!(deliveries.is_empty());
    assert!(matches!(alpha.started(Some(response)), Started::Send(ClientMessage::Roster(_))));
    let (response, deliveries) = lobby.connect(beta.request(2));
    assert_eq!(deliveries.len(), 1);
    assert_eq!(deliveries[0].to, alpha.display_name());
    assert!(matches!(beta.started(Some(response)), Started::Send(ClientMessage::Roster(_))));
    assert_ne!(alpha.name, beta.name);

    let relay = ClientMessage::Relay(Relay { name: beta.display_name().to_string(), json: "offer".to_string() });
    let envelope = alpha.handle(Some(relay)).unwrap();
    match lobby.receive(envelope) {
        Routing::Forward(delivery) => {
            assert_eq!(delivery.to, beta.display_name());
            assert_eq!(lobby.get(&delivery.to).unwrap().addr, 2);
            assert_eq!(
                delivery.message,
                ClientMessage::Relay(Relay {
                    name: alpha.display_name().to_string(),
                    json: "offer".to_string(),
                })
            );
        }
        other => panic!("not forwarded: {:?}", other),
    }

    let left = alpha.display_name().to_string();
    let deliveries = lobby.disconnect(alpha.stopping().unwrap());
    assert_eq!(deliveries.len(), 1);
    assert_eq!(deliveries[0].to, beta.display_name());
    assert!(!lobby.contains(&left));
    assert_eq!(alpha.stopping(), None);
}
