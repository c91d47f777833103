use initvec::counter::{Counter, Progress, Step};
use initvec::Message;

fn sorted(mut entries: Vec<(String, usize)>) -> Vec<(String, usize)> {
    entries.sort();
    entries
}

fn entry(word: &str, count: usize) -> (String, usize) {
    (word.to_string(), count)
}

#[test]
fn new_counter_has_seen_nothing() {
    let counter = Counter::new();
    assert!(counter.state().is_empty());
    assert!(counter.as_checkpoint().is_empty());
}

#[test]
fn counts_words_in_lower_case() {
    let mut counter = Counter::new();
    assert_eq!(Ok(()), counter.update("Hello world  hello\tHELLO".to_string()));
    assert_eq!(vec![entry("hello", 3), entry("world", 1)], sorted(counter.as_checkpoint()));
    assert_eq!(Ok(()), counter.update("world peace".to_string()));
    assert_eq!(
        vec![entry("hello", 3), entry("peace", 1), entry("world", 2)],
        sorted(counter.as_checkpoint())
    );
    assert_eq!(&sorted(counter.as_checkpoint()), &sorted(counter.state().clone()));
}

#[test]
fn text_without_words_counts_nothing() {
    let mut counter = Counter::new();
    assert_eq!(Ok(()), counter.update(" \n ".to_string()));
    assert!(counter.state().is_empty());
}

#[test]
fn count_word_adds_one() {
    let mut counter = Counter::new();
    assert!(counter.count_word("a".to_string()));
    assert!(counter.count_word("b".to_string()));
    assert!(counter.count_word("a".to_string()));
    assert_eq!(vec![entry("a", 2), entry("b", 1)], sorted(counter.as_checkpoint()));
}

#[test]
fn count_message_is_counted() {
    let mut counter = Counter::new();
    let msg = Message::Count { client_id: "c1".to_string(), data: "hello world".to_string() };
    assert_eq!(
        Ok(Step { checkpoint: None, progress: Progress::Continue }),
        counter.handle(msg)
    );
    assert_eq!(vec![entry("hello", 1), entry("world", 1)], sorted(counter.as_checkpoint()));
}

#[test]
fn disconnect_asks_for_a_new_version() {
    let mut counter = Counter::new();
    counter.update("hello".to_string()).unwrap();
    let msg = Message::Disconnect { client_id: "c1".to_string() };
    assert_eq!(
        Ok(Step { checkpoint: Some(true), progress: Progress::Continue }),
        counter.handle(msg)
    );
    assert_eq!(vec![entry("hello", 1)], counter.as_checkpoint());
}

#[test]
fn terminate_saves_and_stops() {
    let mut counter = Counter::new();
    counter.update("hello".to_string()).unwrap();
    assert_eq!(
        Ok(Step { checkpoint: Some(false), progress: Progress::Terminate }),
        counter.handle(Message::Terminate)
    );
    assert_eq!(vec![entry("hello", 1)], counter.as_checkpoint());
}

#[test]
fn checkpoint_of_nothing_stores_nothing() {
    let counter = Counter::new();
    let plan = counter.checkpoint(true);
    assert_eq!(None, plan.store);
    assert!(plan.increment);
    let plan = counter.checkpoint(false);
    assert_eq!(None, plan.store);
    assert!(!plan.increment);
}

#[test]
fn checkpoint_stores_the_counts() {
    let mut counter = Counter::new();
    counter.update("b a b".to_string()).unwrap();
    let plan = counter.checkpoint(false);
    assert_eq!(Some(vec![entry("a", 1), entry("b", 2)]), plan.store.map(sorted));
    assert!(!plan.increment);
    assert!(counter.checkpoint(true).increment);
}
