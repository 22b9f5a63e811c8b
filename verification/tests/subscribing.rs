//! Clients that share the subscriptions of a runner.
use embassy_nats::message::InternalCmd;
use embassy_nats::{Alloc, CapacityError, Client};

fn subscribe(
    client: &mut Client<u8, 2>,
    count: &mut usize,
    topic: &str,
    receiver: u8,
) -> Result<(), CapacityError> {
    let cmd = client.subscribe::<Alloc, char>(count, topic.to_string(), receiver, 's')?;
    match cmd {
        InternalCmd::Sub(asked, sender) => {
            assert_eq!(asked, topic);
            assert_eq!(sender, 's');
        }
        InternalCmd::Pub(_, _) => panic!("not a subscription"),
    }
    Ok(())
}

#[test]
fn client_remembers_where_its_messages_come_from() {
    let mut client = Client::new();
    let mut count = 0;
    assert!(client.receivers().is_empty());
    assert_eq!(subscribe(&mut client, &mut count, "a", 7), Ok(()));
    assert_eq!(subscribe(&mut client, &mut count, "b", 9), Ok(()));
    assert_eq!(client.receivers(), &[7, 9]);
    assert_eq!(count, 2);
}

#[test]
fn no_more_subscriptions_than_the_runner_can_handle() {
    let mut client = Client::new();
    let mut count = 0;
    assert_eq!(subscribe(&mut client, &mut count, "a", 1), Ok(()));
    let mut other = client.clone();
    assert!(other.receivers().is_empty());
    assert_eq!(subscribe(&mut other, &mut count, "b", 2), Ok(()));
    assert_eq!(
        subscribe(&mut client, &mut count, "c", 3),
        Err(CapacityError::Subscriptions)
    );
    assert_eq!(count, 2);
    assert_eq!(client.receivers(), &[1]);
    assert_eq!(other.receivers(), &[2]);
}

#[test]
fn client_that_is_full_is_refused_and_counted() {
    let mut client = Client::new();
    let mut count = 0;
    assert_eq!(subscribe(&mut client, &mut count, "a", 1), Ok(()));
    assert_eq!(subscribe(&mut client, &mut count, "b", 2), Ok(()));
    count = 1;
    assert_eq!(
        subscribe(&mut client, &mut count, "c", 3),
        Err(CapacityError::Subscriptions)
    );
    assert_eq!(count, 2);
    assert_eq!(client.receivers(), &[1, 2]);
}

#[test]
fn request_to_publish_holds_topic_and_payload() {
    match Client::<u8, 2>::publish::<Alloc, char>("a".to_string(), vec![1, 2]) {
        InternalCmd::Pub(topic, data) => {
            assert_eq!(topic, "a");
            assert_eq!(data, vec![1, 2]);
        }
        InternalCmd::Sub(_, _) => panic!("not a payload"),
    }
}
