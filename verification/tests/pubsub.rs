use initvec::inbox;
use initvec::pubsub::recipients;

#[test]
fn inbox_names() {
    assert_eq!("inbox-0", inbox(0));
    assert_eq!("inbox-7", inbox(7));
    assert_eq!("inbox-10", inbox(10));
    assert_eq!("inbox-1234567890", inbox(1234567890));
    assert_eq!(format!("inbox-{}", usize::MAX), inbox(usize::MAX));
}

#[test]
fn recipients_are_the_lower_replicas() {
    assert!(recipients(0).is_empty());
    assert_eq!(vec!["inbox-0"], recipients(1));
    let names = recipients(12);
    assert_eq!(12, names.len());
    for (i, name) in names.iter().enumerate() {
        assert_eq!(&format!("inbox-{}", i), name);
    }
}
