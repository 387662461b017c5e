use glide::algorithm::GlideState;
use glide::backend::{
    kanata_message, Backend, ConnectOutcome, KanataClient, LinkAction, LinkEvent,
};

fn client() -> KanataClient {
    KanataClient::new("127.0.0.1:7070".to_string(), "pad-touch".to_string())
}

fn sent(action: LinkAction) -> String {
    match action {
        LinkAction::Send(text) => text,
        _ => panic!("nothing is sent"),
    }
}

#[test]
fn activation_presses_and_deactivation_releases() {
    assert_eq!(
        kanata_message("pad-touch", GlideState::Active),
        r#"{"ActOnFakeKey":{"name":"pad-touch","action":"Press"}}"#
    );
    assert_eq!(
        kanata_message("k", GlideState::Inactive),
        r#"{"ActOnFakeKey":{"name":"k","action":"Release"}}"#
    );
}

#[test]
fn first_transition_connects_and_sends() {
    let mut client = client();
    assert_eq!(client.address(), "127.0.0.1:7070");
    assert!(matches!(client.next_action(), LinkAction::Rest));
    client.on_state_change(GlideState::Active);
    assert!(matches!(client.next_action(), LinkAction::Connect));
    client.on_link_event(LinkEvent::Connected);
    assert_eq!(
        sent(client.next_action()),
        r#"{"ActOnFakeKey":{"name":"pad-touch","action":"Press"}}"#
    );
    client.on_link_event(LinkEvent::Sent);
    assert!(matches!(client.next_action(), LinkAction::Rest));
    // The connection is kept.
    client.on_state_change(GlideState::Inactive);
    assert_eq!(
        sent(client.next_action()),
        r#"{"ActOnFakeKey":{"name":"pad-touch","action":"Release"}}"#
    );
}

#[test]
fn failed_connection_gives_the_transition_up() {
    let mut client = client();
    client.on_state_change(GlideState::Active);
    client.on_link_event(LinkEvent::ConnectFailed);
    assert!(matches!(client.next_action(), LinkAction::Rest));
    client.on_state_change(GlideState::Inactive);
    assert!(matches!(client.next_action(), LinkAction::Connect));
}

#[test]
fn failed_message_reconnects_next_time() {
    let mut client = client();
    client.on_state_change(GlideState::Active);
    client.on_link_event(LinkEvent::Connected);
    client.on_link_event(LinkEvent::SendFailed);
    assert!(matches!(client.next_action(), LinkAction::Rest));
    client.on_state_change(GlideState::Inactive);
    assert!(matches!(client.next_action(), LinkAction::Connect));
}

#[test]
fn connecting_that_fails_is_reported_with_the_address() {
    let mut client = client();
    assert_eq!(client.connect_error_context(), "failed to connect to kanata at 127.0.0.1:7070");
    client.on_state_change(GlideState::Active);
    assert_eq!(
        client.ensure_connected(ConnectOutcome::Failed),
        Err("failed to connect to kanata at 127.0.0.1:7070".to_string())
    );
    assert!(matches!(client.next_action(), LinkAction::Rest));
    client.on_state_change(GlideState::Inactive);
    assert!(matches!(client.next_action(), LinkAction::Connect));
}

#[test]
fn connection_with_delay_is_not_kept() {
    let mut client = client();
    client.on_state_change(GlideState::Active);
    assert_eq!(
        client.ensure_connected(ConnectOutcome::NoDelayFailed("no such option".to_string())),
        Err("no such option".to_string())
    );
    assert!(matches!(client.next_action(), LinkAction::Rest));
    client.on_state_change(GlideState::Inactive);
    assert!(matches!(client.next_action(), LinkAction::Connect));
}

#[test]
fn held_connection_is_used() {
    let mut client = client();
    client.on_state_change(GlideState::Active);
    assert_eq!(client.ensure_connected(ConnectOutcome::Ready), Ok(()));
    assert_eq!(
        sent(client.next_action()),
        r#"{"ActOnFakeKey":{"name":"pad-touch","action":"Press"}}"#
    );
    // With a connection the outcome of another attempt does not matter.
    assert_eq!(client.ensure_connected(ConnectOutcome::Failed), Ok(()));
    assert_eq!(
        sent(client.next_action()),
        r#"{"ActOnFakeKey":{"name":"pad-touch","action":"Press"}}"#
    );
}
