use std::collections::BTreeMap;
use std::hash::Hasher;

use ic_kit::{Handler, Method, MockContext, Operation, Principal};

/// The storage slot of the counters.
const COUNTER: u64 = 1;

/// The storage slot of the balance of the user.
const USER_BALANCE: u64 = 2;

type Counter = BTreeMap<u64, i64>;

fn bob() -> Principal {
    Principal::from_text("ai7t5-aibaq-aaaaa-aaaaa-c").unwrap()
}

fn john() -> Principal {
    Principal::from_text("hozae-racaq-aaaaa-aaaaa-c").unwrap()
}

fn counter_of(bytes: &[u8]) -> Counter {
    if bytes.is_empty() {
        Counter::default()
    } else {
        let (map,): (Counter,) = candid::decode_args(bytes).unwrap();
        map
    }
}

fn bytes_of_counter(map: &Counter) -> Vec<u8> {
    candid::encode_args((map,)).unwrap()
}

fn number_of(bytes: &[u8]) -> u64 {
    if bytes.is_empty() {
        0
    } else {
        let mut buffer = [0u8; 8];
        buffer.copy_from_slice(bytes);
        u64::from_be_bytes(buffer)
    }
}

/// An update method that increments the given key, the new value is returned.
fn increment(ic: &mut MockContext, key: u64) -> i64 {
    let slot = ic.get_mut(COUNTER);
    let mut map = counter_of(slot);
    let count = map.entry(key).or_insert(0);
    *count += 1;
    let result = *count;
    *slot = bytes_of_counter(&map);
    result
}

/// An update method that decrements the given key, the new value is returned.
fn decrement(ic: &mut MockContext, key: u64) -> i64 {
    let slot = ic.get_mut(COUNTER);
    let mut map = counter_of(slot);
    let count = map.entry(key).or_insert(0);
    *count -= 1;
    let result = *count;
    *slot = bytes_of_counter(&map);
    result
}

fn user_balance(ic: &mut MockContext) -> u64 {
    number_of(ic.get(USER_BALANCE))
}

fn withdraw(ic: &mut MockContext, canister_id: Principal, amount: u64) -> Result<(), String> {
    let mut balance = number_of(ic.get_mut(USER_BALANCE));

    if amount > balance {
        return Err("Insufficient balance.".to_string());
    }

    balance -= amount;
    *ic.get_mut(USER_BALANCE) = balance.to_be_bytes().to_vec();

    let args = candid::encode_args((canister_id.as_slice().to_vec(),)).unwrap();
    let target = Principal::management_canister();
    assert!(ic.check_call(&target, "deposit_cycles", &args, amount).is_ok());

    match ic.call_raw(target, "deposit_cycles", args, amount).unwrap() {
        Ok(_) => {
            balance += ic.msg_cycles_refunded();
            *ic.get_mut(USER_BALANCE) = balance.to_be_bytes().to_vec();
            Ok(())
        }
        Err((code, msg)) => {
            assert_eq!(amount, ic.msg_cycles_refunded());
            balance += amount;
            *ic.get_mut(USER_BALANCE) = balance.to_be_bytes().to_vec();
            Err(format!("An error happened during the call: {:?}: {}", code, msg))
        }
    }
}

fn pre_upgrade(ic: &mut MockContext) {
    let map = counter_of(ic.get(COUNTER));
    ic.stable_store(candid::encode_args((map,)).unwrap());
}

fn post_upgrade(ic: &mut MockContext) {
    let bytes = ic.stable_restore();
    if let Ok((map,)) = candid::decode_args::<(Counter,)>(&bytes) {
        ic.store(COUNTER, bytes_of_counter(&map));
    }
}

fn initial_counter(entries: &[(u64, i64)]) -> Vec<u8> {
    let mut map = Counter::default();
    for (key, value) in entries {
        map.insert(*key, *value);
    }
    bytes_of_counter(&map)
}

/// The certificate as the hasher of the standard library gives it when it
/// is fed byte by byte.
fn expected_certificate(data: &[u8]) -> Vec<u8> {
    let mut padded = vec![0u8; 32];
    for (i, b) in data.iter().enumerate() {
        padded[i] = *b;
    }
    let mut certificate: Vec<u8> = Vec::with_capacity(32 * 8);
    for i in 0..32 {
        let mut hasher = std::collections::hash_map::DefaultHasher::new();
        for b in &certificate {
            hasher.write_u8(*b);
        }
        hasher.write_u8(padded[i]);
        let hash = hasher.finish().to_be_bytes();
        certificate.extend_from_slice(&hash);
    }
    certificate
}

#[test]
fn test_with_id() {
    let mut ctx = MockContext::new().with_id(Principal::management_canister());
    ctx.watch();

    assert_eq!(ctx.id(), Principal::management_canister());
    assert!(ctx.watcher().called_id);
}

#[test]
fn test_balance() {
    let mut ctx = MockContext::new().with_balance(1000);
    ctx.watch();

    assert_eq!(ctx.balance(), 1000);
    assert!(ctx.watcher().called_balance);

    ctx.update_balance(2000);
    assert_eq!(ctx.balance(), 2000);
}

#[test]
fn test_caller() {
    let mut ctx = MockContext::new().with_caller(john());
    ctx.watch();

    assert_eq!(ctx.caller(), john());
    assert!(ctx.watcher().called_caller);

    ctx.update_caller(bob());
    assert_eq!(ctx.caller(), bob());
}

#[test]
fn test_msg_cycles() {
    let mut ctx = MockContext::new().with_msg_cycles(1000);
    ctx.watch();

    assert_eq!(ctx.msg_cycles_available(), 1000);
    assert!(ctx.watcher().called_msg_cycles_available);

    ctx.update_msg_cycles(50);
    assert_eq!(ctx.msg_cycles_available(), 50);
}

#[test]
fn test_msg_cycles_accept() {
    let mut ctx = MockContext::new().with_msg_cycles(1000).with_balance(240);
    ctx.watch();

    assert_eq!(ctx.msg_cycles_accept(100), 100);
    assert!(ctx.watcher().called_msg_cycles_accept);
    assert_eq!(ctx.msg_cycles_available(), 900);
    assert_eq!(ctx.balance(), 340);

    ctx.update_msg_cycles(50);
    assert_eq!(ctx.msg_cycles_accept(100), 50);
    assert_eq!(ctx.msg_cycles_available(), 0);
    assert_eq!(ctx.balance(), 390);
}

#[test]
fn test_storage_simple() {
    let mut ctx = MockContext::new();
    ctx.watch();
    assert_eq!(ctx.watcher().is_modified(COUNTER), false);
    assert_eq!(increment(&mut ctx, 0), 1);
    assert_eq!(ctx.watcher().is_modified(COUNTER), true);
    assert_eq!(increment(&mut ctx, 0), 2);
    assert_eq!(increment(&mut ctx, 0), 3);
    assert_eq!(increment(&mut ctx, 1), 1);
    assert_eq!(decrement(&mut ctx, 0), 2);
    assert_eq!(decrement(&mut ctx, 2), -1);
}

#[test]
fn test_storage() {
    let mut ctx = MockContext::new().with_data(COUNTER, initial_counter(&[(0, 12), (1, 17)]));
    assert_eq!(increment(&mut ctx, 0), 13);
    assert_eq!(decrement(&mut ctx, 1), 16);

    ctx.watch();
    assert_eq!(ctx.watcher().is_modified(COUNTER), false);
    ctx.store(COUNTER, initial_counter(&[(0, 12), (1, 17)]));
    assert_eq!(ctx.watcher().is_modified(COUNTER), true);

    assert_eq!(increment(&mut ctx, 0), 13);
    assert_eq!(decrement(&mut ctx, 1), 16);

    ctx.clear_storage();

    assert_eq!(increment(&mut ctx, 0), 1);
    assert_eq!(decrement(&mut ctx, 1), -1);
}

#[test]
fn stable_storage() {
    let mut ctx = MockContext::new()
        .with_data(COUNTER, initial_counter(&[(0, 2), (1, 27), (2, 5), (3, 17)]));

    ctx.watch();

    pre_upgrade(&mut ctx);
    assert!(ctx.watcher().called_stable_store);
    ctx.clear_storage();
    post_upgrade(&mut ctx);
    assert!(ctx.watcher().called_stable_restore);

    let counter = counter_of(ctx.get(COUNTER));
    let data: Vec<(u64, i64)> = counter.iter().map(|(k, v)| (k.clone(), v.clone())).collect();
    assert_eq!(data, vec![(0, 2), (1, 27), (2, 5), (3, 17)]);

    assert_eq!(increment(&mut ctx, 0), 3);
    assert_eq!(decrement(&mut ctx, 1), 26);
}

#[test]
fn certified_data() {
    let mut ctx = MockContext::new().with_certified_data(vec![0, 1, 2, 3, 4, 5]);
    ctx.watch();

    assert_eq!(ctx.get_certified_data(), Some(vec![0, 1, 2, 3, 4, 5]));
    assert_eq!(ctx.data_certificate(), Some(MockContext::sign(&[0, 1, 2, 3, 4, 5])));

    ctx.set_certified_data(&[1, 2, 3]);
    assert_eq!(ctx.watcher().called_set_certified_data, true);
    assert_eq!(ctx.get_certified_data(), Some(vec![1, 2, 3]));
    assert_eq!(ctx.data_certificate(), Some(MockContext::sign(&[1, 2, 3])));

    ctx.data_certificate();
    assert_eq!(ctx.watcher().called_data_certificate, true);
}

#[test]
fn withdraw_accept() {
    let mut ctx = MockContext::new()
        .with_accept_cycles_handler(200)
        .with_data(USER_BALANCE, 1000u64.to_be_bytes().to_vec())
        .with_balance(2000);
    ctx.watch();

    assert_eq!(user_balance(&mut ctx), 1000);

    assert_eq!(ctx.watcher().is_canister_called(&Principal::management_canister()), false);
    assert_eq!(ctx.watcher().is_method_called("deposit_cycles"), false);
    assert_eq!(
        ctx.watcher().is_called(&Principal::management_canister(), "deposit_cycles"),
        false
    );
    assert_eq!(ctx.watcher().cycles_consumed(), 0);

    withdraw(&mut ctx, bob(), 100).unwrap();

    assert_eq!(ctx.watcher().call_count(), 1);
    assert_eq!(ctx.watcher().is_canister_called(&Principal::management_canister()), true);
    assert_eq!(ctx.watcher().is_method_called("deposit_cycles"), true);
    assert_eq!(
        ctx.watcher().is_called(&Principal::management_canister(), "deposit_cycles"),
        true
    );
    assert_eq!(ctx.watcher().cycles_consumed(), 100);

    // The user balance needs to be decremented.
    assert_eq!(user_balance(&mut ctx), 900);
    // The canister balance needs to be decremented.
    assert_eq!(ctx.balance(), 1900);
}

#[test]
fn withdraw_accept_portion() {
    let mut ctx = MockContext::new()
        .with_accept_cycles_handler(50)
        .with_data(USER_BALANCE, 1000u64.to_be_bytes().to_vec())
        .with_balance(2000);
    ctx.watch();

    assert_eq!(user_balance(&mut ctx), 1000);

    withdraw(&mut ctx, bob(), 100).unwrap();
    assert_eq!(ctx.watcher().cycles_sent(), 100);
    assert_eq!(ctx.watcher().cycles_consumed(), 50);
    assert_eq!(ctx.watcher().cycles_refunded(), 50);

    // The user balance needs to be decremented.
    assert_eq!(user_balance(&mut ctx), 950);
    // The canister balance needs to be decremented.
    assert_eq!(ctx.balance(), 1950);
}

#[test]
fn withdraw_accept_zero() {
    let mut ctx = MockContext::new()
        .with_accept_cycles_handler(0)
        .with_data(USER_BALANCE, 1000u64.to_be_bytes().to_vec())
        .with_balance(2000);
    ctx.watch();

    assert_eq!(user_balance(&mut ctx), 1000);

    withdraw(&mut ctx, bob(), 100).unwrap();
    assert_eq!(ctx.watcher().cycles_sent(), 100);
    assert_eq!(ctx.watcher().cycles_consumed(), 0);
    assert_eq!(ctx.watcher().cycles_refunded(), 100);

    // The balance should not be decremented.
    assert_eq!(user_balance(&mut ctx), 1000);
    assert_eq!(ctx.balance(), 2000);
}

#[test]
fn with_refund() {
    let mut ctx = MockContext::new()
        .with_refund_cycles_handler(30)
        .with_data(USER_BALANCE, 1000u64.to_be_bytes().to_vec())
        .with_balance(2000);
    ctx.watch();

    withdraw(&mut ctx, bob(), 100).unwrap();
    assert_eq!(ctx.watcher().cycles_sent(), 100);
    assert_eq!(ctx.watcher().cycles_consumed(), 70);
    assert_eq!(ctx.watcher().cycles_refunded(), 30);
    assert_eq!(user_balance(&mut ctx), 930);
    assert_eq!(ctx.balance(), 1930);
}

#[test]
fn new_context_has_the_defaults() {
    let mut ctx = MockContext::new();
    assert_eq!(ctx.balance(), 100_000_000_000_000);
    assert_eq!(ctx.caller(), Principal::anonymous());
    assert_eq!(ctx.id(), Principal::from_text("sgymv-uiaaa-aaaaa-aaaia-cai").unwrap());
    assert_eq!(ctx.msg_cycles_available(), 0);
    assert_eq!(ctx.msg_cycles_refunded(), 0);
    assert_eq!(ctx.get_certified_data(), None);
    assert_eq!(ctx.data_certificate(), None);
    assert_eq!(ctx.stable_restore(), Vec::<u8>::new());
    assert_eq!(ctx.watcher().call_count(), 0);
}

#[test]
fn accept_takes_no_more_than_is_available() {
    let mut ctx = MockContext::new().with_msg_cycles(10).with_balance(5);
    assert_eq!(ctx.msg_cycles_accept(0), 0);
    assert_eq!(ctx.balance(), 5);
    assert_eq!(ctx.msg_cycles_accept(u64::MAX), 10);
    assert_eq!(ctx.balance(), 15);
    assert_eq!(ctx.msg_cycles_available(), 0);
    assert_eq!(ctx.msg_cycles_accept(1), 0);
    assert_eq!(ctx.balance(), 15);
}

#[test]
fn store_then_get_gives_the_value_back() {
    let mut ctx = MockContext::new();
    ctx.watch();
    ctx.store(7, vec![1, 2, 3]);
    assert_eq!(ctx.get(7), &vec![1, 2, 3]);
    assert!(ctx.watcher().is_modified(7));
    assert!(!ctx.watcher().is_modified(8));

    ctx.store(7, vec![9]);
    assert_eq!(ctx.get(7), &vec![9]);
    // Another slot has its own value.
    assert_eq!(ctx.get(8), &Vec::<u8>::new());
    assert!(!ctx.watcher().is_modified(8));
}

#[test]
fn get_mut_marks_the_slot_even_without_a_write() {
    let mut ctx = MockContext::new();
    ctx.watch();
    assert!(!ctx.watcher().is_modified(3));
    let _ = ctx.get_mut(3);
    assert!(ctx.watcher().is_modified(3));
    assert_eq!(ctx.get(3), &Vec::<u8>::new());
}

#[test]
fn get_mut_writes_through() {
    let mut ctx = MockContext::new().with_data(3, vec![1]);
    ctx.get_mut(3).push(2);
    assert_eq!(ctx.get(3), &vec![1, 2]);
    *ctx.get_mut(4) = vec![7, 7];
    assert_eq!(ctx.get(4), &vec![7, 7]);
    assert_eq!(ctx.get(3), &vec![1, 2]);
}

#[test]
fn get_does_not_mark_the_slot() {
    let mut ctx = MockContext::new();
    ctx.watch();
    let _ = ctx.get(5);
    assert!(!ctx.watcher().is_modified(5));
}

#[test]
fn delete_says_whether_there_was_a_slot() {
    let mut ctx = MockContext::new().with_data(1, vec![4]);
    ctx.watch();
    assert_eq!(ctx.delete(2), false);
    assert!(ctx.watcher().is_modified(2));
    assert_eq!(ctx.delete(1), true);
    assert!(ctx.watcher().is_modified(1));
    assert_eq!(ctx.delete(1), false);
    assert_eq!(ctx.get(1), &Vec::<u8>::new());
}

#[test]
fn stable_store_replaces_the_buffer() {
    let mut ctx = MockContext::new().with_stable(vec![1, 2, 3, 4]);
    assert!(ctx.watcher().called_stable_store);
    assert_eq!(ctx.stable_restore(), vec![1, 2, 3, 4]);
    ctx.stable_store(vec![9]);
    assert_eq!(ctx.stable_restore(), vec![9]);
}

#[test]
fn stable_restore_decodes_a_prefix_of_what_was_stored() {
    let mut ctx = MockContext::new();
    let stored = candid::encode_args(("Bella".to_string(), 27u64, true)).unwrap();
    ctx.stable_store(stored);

    let bytes = ctx.stable_restore();
    let (name, age, flag): (String, u64, bool) = candid::decode_args(&bytes).unwrap();
    assert_eq!((name.as_str(), age, flag), ("Bella", 27, true));

    // A shorter sequence of values is decoded from the same bytes; what
    // follows is left aside.
    let bytes = ctx.stable_restore();
    let mut de = candid::de::IDLDeserialize::new(&bytes).unwrap();
    let name = de.get_value::<String>().unwrap();
    let age = de.get_value::<u64>().unwrap();
    let _ = de.done();
    assert_eq!((name.as_str(), age), ("Bella", 27));
}

#[test]
fn certificate_follows_the_data_set_last() {
    let mut ctx = MockContext::new();
    ctx.set_certified_data(&[0, 1, 2, 3, 4, 5]);
    let first = ctx.data_certificate().unwrap();
    ctx.set_certified_data(&[1, 2, 3]);
    let second = ctx.data_certificate().unwrap();
    assert_ne!(first, second);
    assert_eq!(first.len(), 256);
    assert_eq!(second.len(), 256);
    assert_eq!(second, MockContext::sign(&[1, 2, 3]));
    ctx.set_certified_data(&[0, 1, 2, 3, 4, 5]);
    assert_eq!(ctx.data_certificate().unwrap(), first);
}

#[test]
fn sign_hashes_byte_by_byte() {
    assert_eq!(MockContext::sign(&[]), expected_certificate(&[]));
    assert_eq!(MockContext::sign(&[1, 2, 3]), expected_certificate(&[1, 2, 3]));
    let full: Vec<u8> = (0u8..32).collect();
    assert_eq!(MockContext::sign(&full), expected_certificate(&full));
    // Trailing zeros are the padding.
    assert_eq!(MockContext::sign(&[5, 0, 0]), MockContext::sign(&[5]));
}

#[test]
fn certified_data_of_32_bytes_is_accepted() {
    let data: Vec<u8> = (100u8..132).collect();
    let mut ctx = MockContext::new().with_certified_data(data.clone());
    assert_eq!(ctx.get_certified_data(), Some(data.clone()));
    assert_eq!(ctx.data_certificate(), Some(expected_certificate(&data)));
}

#[test]
fn call_state_reset_clears_the_trap() {
    let mut ctx = MockContext::new();
    ctx.trap();
    ctx.call_state_reset();
    assert_eq!(ctx.caller(), Principal::anonymous());
}

#[test]
fn time_is_the_time_handed_in() {
    let mut ctx = MockContext::new();
    ctx.watch();
    assert!(!ctx.watcher().called_time);
    assert_eq!(ctx.time(1_700_000_000_000_000_000), 1_700_000_000_000_000_000);
    assert!(ctx.watcher().called_time);
    assert!(ctx.watcher().was_called(Operation::Time));
    assert!(!ctx.watcher().was_called(Operation::Balance));
}

#[test]
fn watch_forgets_what_was_seen() {
    let mut ctx = MockContext::new().with_accept_cycles_handler(1).with_balance(10);
    let _ = ctx.balance();
    ctx.store(1, vec![]);
    let _ = ctx.call_raw(bob(), "any", vec![], 5);
    assert!(ctx.watcher().called_balance);
    assert_eq!(ctx.watcher().call_count(), 1);
    let watcher = ctx.watch();
    assert!(!watcher.called_balance);
    assert!(!watcher.is_modified(1));
    assert_eq!(watcher.call_count(), 0);
    assert_eq!(watcher.cycles_sent(), 0);
}

#[test]
fn handler_that_demands_more_than_was_sent_takes_it_all() {
    let mut ctx = MockContext::new().with_accept_cycles_handler(200).with_balance(2000);
    ctx.watch();
    let res = ctx.call_raw(bob(), "anything", vec![], 100).unwrap();
    assert!(res.is_ok());
    assert_eq!(ctx.msg_cycles_refunded(), 0);
    assert_eq!(ctx.balance(), 1900);
    let call = ctx.watcher().get_call(0);
    assert_eq!(call.cycles_sent(), 100);
    assert_eq!(call.cycles_refunded(), 0);
    assert_eq!(call.cycles_consumed(), 100);
    assert_eq!(call.method_name(), "anything");
    assert_eq!(call.canister_id(), bob());
    assert_eq!(call.args(), &Vec::<u8>::new());
}

#[test]
fn refund_of_30_out_of_100() {
    let mut ctx = MockContext::new().with_refund_cycles_handler(30).with_balance(500);
    let res = ctx.call_raw(john(), "pay", vec![1, 2], 100).unwrap();
    assert!(res.is_ok());
    assert_eq!(ctx.msg_cycles_refunded(), 30);
    assert_eq!(ctx.balance(), 430);
    assert_eq!(ctx.watcher().cycles_consumed(), 70);
    assert_eq!(ctx.watcher().cycles_refunded(), 30);
    assert_eq!(ctx.watcher().get_call(0).args(), &vec![1, 2]);
}

#[test]
fn call_without_a_handler_is_refused() {
    let ctx = MockContext::new();
    assert_eq!(ctx.check_call(&bob(), "missing", &vec![], 10), Err(ic_kit::CallError::NoHandlerFound));

    let ctx = MockContext::new().with_handler(Handler::Method(Method::new().name("known")));
    assert_eq!(ctx.check_call(&bob(), "unknown", &vec![], 10), Err(ic_kit::CallError::NoHandlerFound));
    assert_eq!(ctx.check_call(&bob(), "known", &vec![], 10), Ok(0));
}

#[test]
fn call_with_more_cycles_than_the_balance_is_refused() {
    let ctx = MockContext::new().with_accept_cycles_handler(1).with_balance(99);
    assert_eq!(ctx.check_call(&bob(), "m", &vec![], 100), Err(ic_kit::CallError::InsufficientCycles));
    assert_eq!(ctx.check_call(&bob(), "m", &vec![], 99), Ok(0));
    // Too few cycles are reported before a missing handler is.
    let ctx = MockContext::new().with_balance(0);
    assert_eq!(ctx.check_call(&bob(), "m", &vec![], 1), Err(ic_kit::CallError::InsufficientCycles));
}

#[test]
fn first_handler_that_accepts_wins() {
    let mut ctx = MockContext::new()
        .with_handler(Handler::Method(Method::new().name("a").response(vec![1])))
        .with_handler(Handler::Method(Method::new().name("b").response(vec![2])))
        .with_handler(Handler::Method(Method::new().response(vec![3])))
        .with_handler(Handler::Method(Method::new().name("b").response(vec![4])));
    assert_eq!(ctx.check_call(&bob(), "a", &vec![], 0), Ok(0));
    assert_eq!(ctx.check_call(&bob(), "b", &vec![], 0), Ok(1));
    assert_eq!(ctx.check_call(&bob(), "c", &vec![], 0), Ok(2));
    assert_eq!(ctx.call_raw(bob(), "a", vec![], 0), Ok(Ok(vec![1])));
    assert_eq!(ctx.call_raw(bob(), "b", vec![], 0), Ok(Ok(vec![2])));
    assert_eq!(ctx.call_raw(bob(), "c", vec![], 0), Ok(Ok(vec![3])));
    assert_eq!(ctx.watcher().call_count(), 3);
    assert!(ctx.watcher().is_called(&bob(), "c"));
    assert!(!ctx.watcher().is_called(&john(), "c"));
}

#[test]
fn constant_return_handler_answers_with_the_value() {
    let value = candid::encode_args((42u64,)).unwrap();
    let mut ctx = MockContext::new().with_constant_return_handler(value.clone()).with_balance(10);
    let res = ctx.call_raw(bob(), "get", vec![], 10).unwrap().unwrap();
    assert_eq!(res, value);
    let (n,): (u64,) = candid::decode_args(&res).unwrap();
    assert_eq!(n, 42);
    // Nothing was accepted: all the cycles came back.
    assert_eq!(ctx.msg_cycles_refunded(), 10);
    assert_eq!(ctx.balance(), 10);
}
