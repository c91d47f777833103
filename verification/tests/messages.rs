use initvec::client::{client_messages, DEFAULT_DATA, DEFAULT_REPEATS};
use initvec::fanin::producer_data;
use initvec::message::REDIS_MSG_KEY;
use initvec::Message;

#[test]
fn client_counts_and_leaves() {
    let id = "client-7".to_string();
    let data = DEFAULT_DATA.to_string();
    let sent = client_messages(&id, &data, 2);
    let count = || Message::Count { client_id: id.clone(), data: "hello world".to_string() };
    assert_eq!(vec![count(), count(), Message::Disconnect { client_id: id.clone() }], sent);
    assert_eq!(DEFAULT_REPEATS + 1, client_messages(&id, &data, DEFAULT_REPEATS).len());
}

#[test]
fn client_that_only_leaves() {
    let id = "c".to_string();
    let sent = client_messages(&id, &String::new(), 0);
    assert_eq!(vec![Message::Disconnect { client_id: id.clone() }], sent);
}

#[test]
fn message_field() {
    assert_eq!("msg", REDIS_MSG_KEY);
    assert_eq!(10, DEFAULT_REPEATS);
}

#[test]
fn producer_numbers_its_data() {
    assert_eq!("north := 0", producer_data("north", 0));
    assert_eq!("north := 41", producer_data("north", 41));
    assert_eq!(format!("{} := {}", "", u32::MAX), producer_data("", u32::MAX));
}
