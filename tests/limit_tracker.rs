use rust_concepts::limit_tracker::{quota_alert, LimitTracker, Messenger, QuotaAlert};
use std::cell::RefCell;

struct MockMessenger {
    sent_messages: RefCell<Vec<String>>,
}

impl MockMessenger {
    fn new() -> MockMessenger {
        MockMessenger { sent_messages: RefCell::new(vec![]) }
    }
}

impl Messenger for MockMessenger {
    fn send(&self, message: &str) {
        self.sent_messages.borrow_mut().push(String::from(message))
    }
}

#[test]
fn it_sends_an_over_75_percent_warning_message() {
    let mock_messenger = MockMessenger::new();
    let mut limit_tracker = LimitTracker::new(&mock_messenger, 100);

    limit_tracker.set_value(80);

    assert_eq!(mock_messenger.sent_messages.borrow().len(), 1);
}

#[test]
fn warning_text_at_three_quarters() {
    let mock_messenger = MockMessenger::new();
    let mut limit_tracker = LimitTracker::new(&mock_messenger, 100);
    limit_tracker.set_value(75);
    assert_eq!(
        mock_messenger.sent_messages.borrow()[0],
        "Warning: You've used up over 75% of your quota!"
    );
}

#[test]
fn urgent_text_at_nine_tenths() {
    let mock_messenger = MockMessenger::new();
    let mut limit_tracker = LimitTracker::new(&mock_messenger, 100);
    limit_tracker.set_value(95);
    assert_eq!(
        mock_messenger.sent_messages.borrow()[0],
        "Urgent warning: You've used up over 90% of your quota!"
    );
}

#[test]
fn error_text_at_quota() {
    let mock_messenger = MockMessenger::new();
    let mut limit_tracker = LimitTracker::new(&mock_messenger, 100);
    limit_tracker.set_value(100);
    limit_tracker.set_value(250);
    let sent = mock_messenger.sent_messages.borrow();
    assert_eq!(sent.len(), 2);
    assert_eq!(sent[0], "Error: You are over your quota!");
    assert_eq!(sent[1], "Error: You are over your quota!");
}

#[test]
fn nothing_sent_below_three_quarters() {
    let mock_messenger = MockMessenger::new();
    let mut limit_tracker = LimitTracker::new(&mock_messenger, 100);
    limit_tracker.set_value(0);
    limit_tracker.set_value(74);
    assert_eq!(mock_messenger.sent_messages.borrow().len(), 0);
}

#[test]
fn alert_boundaries() {
    assert_eq!(quota_alert(74, 100), None);
    assert_eq!(quota_alert(75, 100), Some(QuotaAlert::Warning));
    assert_eq!(quota_alert(89, 100), Some(QuotaAlert::Warning));
    assert_eq!(quota_alert(90, 100), Some(QuotaAlert::Urgent));
    assert_eq!(quota_alert(99, 100), Some(QuotaAlert::Urgent));
    assert_eq!(quota_alert(100, 100), Some(QuotaAlert::Over));
    assert_eq!(quota_alert(usize::MAX, usize::MAX - 1), Some(QuotaAlert::Over));
    assert_eq!(quota_alert(usize::MAX - 1, usize::MAX), Some(QuotaAlert::Urgent));
}

#[test]
fn alert_against_zero_quota() {
    assert_eq!(quota_alert(0, 0), None);
    assert_eq!(quota_alert(1, 0), Some(QuotaAlert::Over));
}

#[test]
fn alert_messages() {
    assert_eq!(QuotaAlert::Over.message(), "Error: You are over your quota!");
    assert_eq!(
        QuotaAlert::Urgent.message(),
        "Urgent warning: You've used up over 90% of your quota!"
    );
    assert_eq!(
        QuotaAlert::Warning.message(),
        "Warning: You've used up over 75% of your quota!"
    );
}
