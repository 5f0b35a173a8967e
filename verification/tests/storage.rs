use cosmwasm_testing_util::backend::{BackendError, GasInfo};
use cosmwasm_testing_util::bytes::{key_before, same_bytes};
use cosmwasm_testing_util::storage::{
    clone_item, range_bounds, Bound, MockStorage, Order, Record, GAS_COST_LAST_ITERATION,
    GAS_COST_RANGE,
};
use cosmwasm_vm::BackendError as VmError;

fn rec(key: &[u8], value: &[u8]) -> Record {
    (key.to_vec(), value.to_vec())
}

fn filled() -> MockStorage {
    let mut store = MockStorage::new();
    for (k, v) in [("foo", "bar"), ("b", "2"), ("a", "1"), ("", "empty key"), ("bb", "22")] {
        store.set(k.as_bytes(), v.as_bytes()).0.unwrap();
    }
    store
}

#[test]
fn keys_are_ordered_like_words() {
    assert!(key_before(b"", b"a"));
    assert!(key_before(b"a", b"aa"));
    assert!(key_before(b"aa", b"b"));
    assert!(key_before(&[1, 255], &[2]));
    assert!(!key_before(b"b", b"b"));
    assert!(!key_before(b"b", b"a"));
    assert!(!key_before(b"a", b""));
    assert!(same_bytes(b"ab", b"ab"));
    assert!(!same_bytes(b"ab", b"a"));
    assert!(!same_bytes(b"ab", b"ac"));
}

#[test]
fn get_set_and_remove() {
    let mut store = MockStorage::default();
    assert_eq!(store.get(b"foo"), (Ok(None), GasInfo { cost: 0, externally_used: 3 }));
    assert_eq!(
        store.set(b"foo", b"barbar"),
        (Ok(()), GasInfo { cost: 0, externally_used: 9 })
    );
    assert_eq!(
        store.get(b"foo"),
        (Ok(Some(b"barbar".to_vec())), GasInfo { cost: 0, externally_used: 3 })
    );
    // a later write takes the place of an earlier one
    store.set(b"foo", b"x").0.unwrap();
    assert_eq!(store.get(b"foo").0.unwrap(), Some(b"x".to_vec()));
    // other keys are not touched
    store.set(b"fo", b"y").0.unwrap();
    assert_eq!(store.get(b"foo").0.unwrap(), Some(b"x".to_vec()));
    assert_eq!(store.remove(b"foo"), (Ok(()), GasInfo { cost: 0, externally_used: 3 }));
    assert_eq!(store.get(b"foo").0.unwrap(), None);
    assert_eq!(store.get(b"fo").0.unwrap(), Some(b"y".to_vec()));
    // what is not there can be removed too
    assert_eq!(store.remove(b"foo"), (Ok(()), GasInfo { cost: 0, externally_used: 3 }));
}

#[test]
fn an_empty_value_is_not_a_missing_one() {
    let mut store = MockStorage::new();
    store.set(b"k", b"").0.unwrap();
    assert_eq!(store.get(b"k").0.unwrap(), Some(vec![]));
}

#[test]
fn scan_walks_up_and_down() {
    let mut store = filled();
    let (id, gas) = store.scan(None, None, Order::Ascending);
    assert_eq!(id, Ok(1));
    assert_eq!(gas, GasInfo { cost: 0, externally_used: GAS_COST_RANGE });
    let up = store.all(1).0.unwrap();
    assert_eq!(
        up,
        vec![
            rec(b"", b"empty key"),
            rec(b"a", b"1"),
            rec(b"b", b"2"),
            rec(b"bb", b"22"),
            rec(b"foo", b"bar"),
        ]
    );
    assert_eq!(store.scan(None, None, Order::Descending).0, Ok(2));
    let mut down = store.all(2).0.unwrap();
    down.reverse();
    assert_eq!(down, up);
}

#[test]
fn scan_keeps_to_its_bounds() {
    let mut store = filled();
    // the start belongs to the range, the end does not
    let id = store.scan(Some(b"a"), Some(b"bb"), Order::Ascending).0.unwrap();
    assert_eq!(store.all(id).0.unwrap(), vec![rec(b"a", b"1"), rec(b"b", b"2")]);
    let id = store.scan(Some(b"a"), Some(b"bb"), Order::Descending).0.unwrap();
    assert_eq!(store.all(id).0.unwrap(), vec![rec(b"b", b"2"), rec(b"a", b"1")]);
    // bounds need not be keys
    let id = store.scan(Some(b"aa"), None, Order::Ascending).0.unwrap();
    assert_eq!(
        store.all(id).0.unwrap(),
        vec![rec(b"b", b"2"), rec(b"bb", b"22"), rec(b"foo", b"bar")]
    );
    let id = store.scan(None, Some(b"aa"), Order::Descending).0.unwrap();
    assert_eq!(store.all(id).0.unwrap(), vec![rec(b"a", b"1"), rec(b"", b"empty key")]);
}

#[test]
fn crossed_bounds_give_nothing() {
    let mut store = filled();
    for order in [Order::Ascending, Order::Descending] {
        let id = store.scan(Some(b"foo"), Some(b"a"), order).0.unwrap();
        assert_eq!(store.all(id).0.unwrap(), vec![]);
        let id = store.scan(Some(b"a"), Some(b"a"), order).0.unwrap();
        assert_eq!(store.all(id).0.unwrap(), vec![]);
    }
}

#[test]
fn next_counts_the_gas_of_each_step() {
    let mut store = MockStorage::new();
    store.set(b"foo", b"bar").0.unwrap();
    store.set(b"g", b"1234").0.unwrap();
    assert_eq!(store.scan(None, None, Order::Ascending).0, Ok(1));
    assert_eq!(
        store.next(1),
        (Ok(Some(rec(b"foo", b"bar"))), GasInfo { cost: 6, externally_used: 0 })
    );
    assert_eq!(
        store.next(1),
        (Ok(Some(rec(b"g", b"1234"))), GasInfo { cost: 5, externally_used: 0 })
    );
    // the end can be asked for again and again
    for _ in 0..2 {
        assert_eq!(
            store.next(1),
            (Ok(None), GasInfo { cost: 0, externally_used: GAS_COST_LAST_ITERATION })
        );
    }
}

#[test]
fn all_counts_the_gas_of_all_steps() {
    let mut store = MockStorage::new();
    store.set(b"foo", b"bar").0.unwrap();
    store.set(b"g", b"1234").0.unwrap();
    store.scan(None, None, Order::Ascending).0.unwrap();
    assert_eq!(store.cost_of_rest(1), Some(11));
    assert_eq!(store.cost_of_rest(2), Some(0));
    assert_eq!(
        store.all(1),
        (
            Ok(vec![rec(b"foo", b"bar"), rec(b"g", b"1234")]),
            GasInfo { cost: 11, externally_used: 37 }
        )
    );
    assert_eq!(store.cost_of_rest(1), Some(0));
    // the iterator has nothing more to give
    assert_eq!(store.all(1), (Ok(vec![]), GasInfo { cost: 0, externally_used: 37 }));
}

#[test]
fn unknown_iterators_are_refused() {
    let mut store = filled();
    let error = BackendError::IteratorDoesNotExist { id: 1 };
    assert_eq!(store.next(1), (Err(error.clone()), GasInfo { cost: 0, externally_used: 0 }));
    assert_eq!(store.all(1), (Err(error), GasInfo { cost: 0, externally_used: 0 }));
    store.scan(None, None, Order::Ascending).0.unwrap();
    assert!(store.next(1).0.is_ok());
    assert!(store.next(0).0.is_err());
    assert!(store.next(2).0.is_err());
}

#[test]
fn iterators_are_numbered_and_independent() {
    let mut store = filled();
    assert_eq!(store.scan(None, None, Order::Ascending).0, Ok(1));
    assert_eq!(store.scan(Some(b"b"), None, Order::Ascending).0, Ok(2));
    assert_eq!(store.scan(None, None, Order::Descending).0, Ok(3));
    assert_eq!(store.next(2).0.unwrap(), Some(rec(b"b", b"2")));
    assert_eq!(store.next(1).0.unwrap(), Some(rec(b"", b"empty key")));
    assert_eq!(store.next(3).0.unwrap(), Some(rec(b"foo", b"bar")));
    assert_eq!(store.next(2).0.unwrap(), Some(rec(b"bb", b"22")));
    assert_eq!(store.next(1).0.unwrap(), Some(rec(b"a", b"1")));
}

#[test]
fn iterators_give_what_there_was() {
    let mut store = filled();
    let id = store.scan(Some(b"a"), Some(b"bb"), Order::Ascending).0.unwrap();
    store.set(b"a", b"changed").0.unwrap();
    store.set(b"ab", b"new").0.unwrap();
    store.remove(b"b").0.unwrap();
    assert_eq!(store.all(id).0.unwrap(), vec![rec(b"a", b"1"), rec(b"b", b"2")]);
    assert_eq!(store.get(b"a").0.unwrap(), Some(b"changed".to_vec()));
}

#[test]
fn the_wrapper_sees_and_changes_the_store() {
    let mut store = filled();
    {
        let mut data = store.wrap();
        assert_eq!(data.get(b"a"), Some(b"1".to_vec()));
        assert_eq!(data.get(b"nothing"), None);
        data.set(b"a", b"3");
        data.set(b"c", b"4");
        data.remove(b"b");
        data.remove(b"b");
        assert_eq!(
            data.range(Some(b"a"), Some(b"foo"), Order::Ascending),
            vec![rec(b"a", b"3"), rec(b"bb", b"22"), rec(b"c", b"4")]
        );
        assert_eq!(
            data.range(None, Some(b"bb"), Order::Descending),
            vec![rec(b"a", b"3"), rec(b"", b"empty key")]
        );
        assert_eq!(data.range(Some(b"foo"), Some(b"a"), Order::Ascending), vec![]);
    }
    assert_eq!(store.get(b"a").0.unwrap(), Some(b"3".to_vec()));
    assert_eq!(store.get(b"b").0.unwrap(), None);
    // no iterator was opened
    assert_eq!(store.scan(None, None, Order::Ascending).0, Ok(1));
}

#[test]
fn bounds_of_a_range() {
    assert_eq!(range_bounds(None, None), (Bound::Unbounded, Bound::Unbounded));
    assert_eq!(
        range_bounds(Some(b"a"), Some(b"b")),
        (Bound::Included(b"a".as_slice()), Bound::Excluded(b"b".as_slice()))
    );
    assert_eq!(clone_item(&rec(b"k", b"v")), rec(b"k", b"v"));
}

#[test]
fn a_store_agrees_with_the_ordered_map_of_std() {
    let mut store = MockStorage::new();
    let mut map = std::collections::BTreeMap::new();
    let mut seed: u32 = 7;
    for _ in 0..500 {
        seed = seed.wrapping_mul(1_103_515_245).wrapping_add(12_345);
        let key = vec![(seed >> 16) as u8 % 23, (seed >> 24) as u8 % 3];
        let value = vec![(seed >> 8) as u8];
        if seed % 5 == 0 {
            store.remove(&key).0.unwrap();
            map.remove(&key);
        } else {
            store.set(&key, &value).0.unwrap();
            map.insert(key, value);
        }
    }
    let id = store.scan(Some(&[4]), Some(&[17, 1]), Order::Ascending).0.unwrap();
    let expected: Vec<Record> = map
        .range(vec![4]..vec![17, 1])
        .map(|(k, v)| (k.clone(), v.clone()))
        .collect();
    assert!(expected.len() > 10);
    assert_eq!(store.all(id).0.unwrap(), expected);
}

#[test]
fn errors_read_as_those_of_the_machine() {
    assert_eq!(
        BackendError::iterator_does_not_exist(42).to_text(),
        VmError::iterator_does_not_exist(42).to_string()
    );
    assert_eq!(BackendError::unknown("broken").to_text(), VmError::unknown("broken").to_string());
    assert_eq!(BackendError::user_err("wrong").to_text(), VmError::user_err("wrong").to_string());
    assert_eq!(
        BackendError::iterator_does_not_exist(42).to_text(),
        "Iterator with ID 42 does not exist"
    );
}

#[test]
fn gas_adds_up() {
    let mut total = GasInfo::free();
    total.charge(GasInfo::with_cost(5));
    total.charge(GasInfo::with_externally_used(7));
    total.charge(GasInfo { cost: 1, externally_used: 2 });
    assert_eq!(total, GasInfo { cost: 6, externally_used: 9 });
}

#[test]
fn all_is_every_step() {
    let mut store = filled();
    store.scan(None, None, Order::Descending).0.unwrap();
    store.scan(None, None, Order::Descending).0.unwrap();
    let mut items = vec![];
    let mut total = GasInfo::free();
    loop {
        let (item, gas) = store.next(1);
        total.charge(gas);
        match item.unwrap() {
            Some(item) => items.push(item),
            None => break,
        }
    }
    assert_eq!(store.all(2), (Ok(items), total));
    assert_eq!(store.next(2).0, Ok(None));
    assert_eq!(store.all(2).0, Ok(vec![]));
}

#[test]
fn other_calls_do_not_reach_an_iterator() {
    let mut store = filled();
    let mut alone = filled();
    assert_eq!(store.scan(None, None, Order::Ascending).0, Ok(1));
    assert_eq!(alone.scan(None, None, Order::Ascending).0, Ok(1));
    for _ in 0..7 {
        store.set(b"aaa", b"new").0.unwrap();
        store.remove(b"b").0.unwrap();
        let id = store.scan(Some(b"a"), None, Order::Ascending).0.unwrap();
        store.next(id).0.unwrap();
        store.all(2).0.unwrap();
        assert!(store.next(1_000).0.is_err());
        assert_eq!(store.next(1), alone.next(1));
    }
}
