use cosmwasm_testing_util::contract::MockContract;
use cosmwasm_testing_util::state::parse_state;
use cosmwasm_testing_util::storage::{MockStorage, Order, Record};

fn dump(records: &[Record]) -> Vec<u8> {
    let mut out = (records.len() as u32).to_be_bytes().to_vec();
    for (key, value) in records {
        out.push(key.len() as u8);
        out.extend_from_slice(key);
        out.extend_from_slice(&(value.len() as u16).to_be_bytes());
        out.extend_from_slice(value);
    }
    out
}

#[test]
fn a_dump_is_read() {
    let state = [0, 0, 0, 2, 1, b'a', 0, 2, 7, 8, 2, b'b', b'c', 0, 0];
    assert_eq!(
        parse_state(&state),
        Some(vec![(b"a".to_vec(), vec![7, 8]), (b"bc".to_vec(), vec![])])
    );
}

#[test]
fn the_length_of_a_value_has_its_high_byte_first() {
    let value = vec![9; 258];
    let mut state = vec![0, 0, 0, 1, 0, 1, 2];
    state.extend_from_slice(&value);
    assert_eq!(parse_state(&state), Some(vec![(vec![], value)]));
}

#[test]
fn nothing_is_read_from_the_header() {
    assert_eq!(parse_state(&[9, 9, 9, 9, 1, b'k', 0, 1, b'v']), Some(vec![(
        b"k".to_vec(),
        b"v".to_vec()
    )]));
    assert_eq!(parse_state(&[]), Some(vec![]));
    assert_eq!(parse_state(&[1, 2]), Some(vec![]));
    assert_eq!(parse_state(&[1, 2, 3, 4]), Some(vec![]));
}

#[test]
fn dumps_that_end_too_early_are_none() {
    let state = [0, 0, 0, 1, 2, b'a', b'b', 0, 2, 7, 8];
    assert!(parse_state(&state).is_some());
    for n in 5..state.len() {
        assert_eq!(parse_state(&state[..n]), None, "{n}");
    }
    // bytes after the last entry begin another one
    let mut longer = state.to_vec();
    longer.push(0);
    assert_eq!(parse_state(&longer), None);
}

#[test]
fn loading_a_dump_restores_the_data() {
    let mut store = MockStorage::new();
    store.set(b"one", b"1").0.unwrap();
    store.set(b"two", &[2; 300]).0.unwrap();
    store.set(b"", b"no key").0.unwrap();
    store.scan(None, None, Order::Ascending).0.unwrap();
    let all = store.all(1).0.unwrap();

    let mut other = MockStorage::new();
    MockContract::load_state(&mut other, &dump(&all));
    other.scan(None, None, Order::Ascending).0.unwrap();
    assert_eq!(other.all(1).0.unwrap(), all);
}

#[test]
fn loading_adds_to_what_is_there_and_the_last_entry_stays() {
    let mut store = MockStorage::new();
    store.set(b"kept", b"k").0.unwrap();
    store.set(b"replaced", b"old").0.unwrap();
    let state = dump(&[
        (b"replaced".to_vec(), b"new".to_vec()),
        (b"twice".to_vec(), b"first".to_vec()),
        (b"twice".to_vec(), b"second".to_vec()),
    ]);
    MockContract::load_state(&mut store, &state);
    assert_eq!(store.get(b"kept").0.unwrap(), Some(b"k".to_vec()));
    assert_eq!(store.get(b"replaced").0.unwrap(), Some(b"new".to_vec()));
    assert_eq!(store.get(b"twice").0.unwrap(), Some(b"second".to_vec()));
}
