use ic_kit::{Operation, Principal, Watcher, WatcherCall};

fn call(target: &[u8], method: &str, sent: u64, refunded: u64) -> WatcherCall {
    WatcherCall::new(Principal::from_slice(target), method.to_string(), vec![1, 2], sent, refunded)
}

#[test]
fn new_watcher_has_seen_nothing() {
    let w = Watcher::default();
    assert!(!w.called_id);
    assert!(!w.called_time);
    assert!(!w.called_balance);
    assert!(!w.called_caller);
    assert!(!w.called_msg_cycles_available);
    assert!(!w.called_msg_cycles_accept);
    assert!(!w.called_msg_cycles_refunded);
    assert!(!w.called_stable_store);
    assert!(!w.called_stable_restore);
    assert!(!w.called_set_certified_data);
    assert!(!w.called_data_certificate);
    assert_eq!(w.call_count(), 0);
    assert_eq!(w.cycles_sent(), 0);
    assert_eq!(w.cycles_consumed(), 0);
    assert_eq!(w.cycles_refunded(), 0);
    assert!(!w.is_modified(0));
    assert!(!w.is_method_called("a"));
    assert!(!w.is_canister_called(&Principal::anonymous()));
    assert!(!w.is_called(&Principal::anonymous(), "a"));
}

#[test]
fn mark_sets_the_flag_of_the_operation() {
    let all = [
        Operation::Id,
        Operation::Time,
        Operation::Balance,
        Operation::Caller,
        Operation::MsgCyclesAvailable,
        Operation::MsgCyclesAccept,
        Operation::MsgCyclesRefunded,
        Operation::StableStore,
        Operation::StableRestore,
        Operation::SetCertifiedData,
        Operation::DataCertificate,
    ];
    for op in all {
        let mut w = Watcher::default();
        w.mark(op);
        for other in all {
            assert_eq!(w.was_called(other), other == op);
        }
    }
    let mut w = Watcher::default();
    w.mark(Operation::StableStore);
    assert!(w.called_stable_store);
    w.mark(Operation::MsgCyclesRefunded);
    assert!(w.called_msg_cycles_refunded);
    assert!(w.called_stable_store);
}

#[test]
fn watcher_call_gives_back_what_it_was_made_of() {
    let c = call(&[9, 9], "transfer", 100, 30);
    assert_eq!(c.canister_id(), Principal::from_slice(&[9, 9]));
    assert_eq!(c.method_name(), "transfer");
    assert_eq!(c.args(), &vec![1, 2]);
    assert_eq!(c.cycles_sent(), 100);
    assert_eq!(c.cycles_refunded(), 30);
    assert_eq!(c.cycles_consumed(), 70);
    let c = call(&[], "", 5, 5);
    assert_eq!(c.cycles_consumed(), 0);
}

#[test]
fn watcher_sums_over_its_calls() {
    let mut w = Watcher::default();
    w.record_call(call(&[1], "a", 100, 30));
    w.record_call(call(&[2], "b", 50, 50));
    w.record_call(call(&[1], "c", 7, 0));
    assert_eq!(w.call_count(), 3);
    assert_eq!(w.cycles_sent(), 157);
    assert_eq!(w.cycles_refunded(), 80);
    assert_eq!(w.cycles_consumed(), 77);
    assert_eq!(w.get_call(0).method_name(), "a");
    assert_eq!(w.get_call(1).cycles_sent(), 50);
    assert_eq!(w.get_call(2).canister_id(), Principal::from_slice(&[1]));
}

#[test]
fn watcher_finds_calls_by_canister_and_method() {
    let mut w = Watcher::default();
    w.record_call(call(&[1], "a", 0, 0));
    w.record_call(call(&[2], "b", 0, 0));
    let one = Principal::from_slice(&[1]);
    let two = Principal::from_slice(&[2]);
    let three = Principal::from_slice(&[3]);
    assert!(w.is_method_called("a"));
    assert!(w.is_method_called("b"));
    assert!(!w.is_method_called("c"));
    assert!(w.is_canister_called(&one));
    assert!(w.is_canister_called(&two));
    assert!(!w.is_canister_called(&three));
    assert!(w.is_called(&one, "a"));
    assert!(w.is_called(&two, "b"));
    // The method and the canister were called, but not together.
    assert!(!w.is_called(&one, "b"));
    assert!(!w.is_called(&two, "a"));
}

#[test]
fn watcher_remembers_the_slots_that_were_touched() {
    let mut w = Watcher::default();
    w.mark_modified(3);
    w.mark_modified(3);
    w.mark_modified(u64::MAX);
    assert!(w.is_modified(3));
    assert!(w.is_modified(u64::MAX));
    assert!(!w.is_modified(0));
    assert!(!w.is_modified(4));
}
