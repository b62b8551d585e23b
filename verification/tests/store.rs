use light_client::types::{LightBlock, State, TrustedStore};

fn block(height: u64) -> LightBlock {
    LightBlock::new(height, height * 100 + 7)
}

#[test]
fn new_store_is_empty() {
    let store = TrustedStore::new();
    assert_eq!(store.get(0), None);
    assert_eq!(store.get(1), None);
    assert_eq!(store.latest_height(), None);
}

#[test]
fn default_store_is_empty() {
    let store = TrustedStore::default();
    assert_eq!(store.get(42), None);
    assert_eq!(store.latest_height(), None);
}

#[test]
fn add_then_get_returns_the_state() {
    let mut store = TrustedStore::new();
    store.add(block(3));
    assert_eq!(store.get(3), Some(&block(3)));
    assert_eq!(store.get(2), None);
    assert_eq!(store.get(4), None);
}

#[test]
fn adding_the_same_state_twice_changes_nothing() {
    let mut store = TrustedStore::new();
    store.add(block(3));
    store.add(block(3));
    assert_eq!(store.get(3), Some(&block(3)));
    assert_eq!(store.latest_height(), Some(3));
}

#[test]
fn latest_height_is_the_greatest_whatever_the_order() {
    let mut store = TrustedStore::new();
    store.add(block(5));
    assert_eq!(store.latest_height(), Some(5));
    store.add(block(2));
    assert_eq!(store.latest_height(), Some(5));
    store.add(block(9));
    assert_eq!(store.latest_height(), Some(9));
    store.add(block(u64::MAX));
    assert_eq!(store.latest_height(), Some(u64::MAX));
}

#[test]
fn height_zero_can_be_trusted() {
    let mut store = TrustedStore::new();
    store.add(block(0));
    assert_eq!(store.get(0), Some(&block(0)));
    assert_eq!(store.latest_height(), Some(0));
}

#[test]
fn clone_holds_the_same_states() {
    let mut store = TrustedStore::new();
    store.add(block(1));
    store.add(block(4));
    let copy = store.clone();
    assert_eq!(copy.get(1), Some(&block(1)));
    assert_eq!(copy.get(4), Some(&block(4)));
    assert_eq!(copy.latest_height(), Some(4));
}

#[test]
fn split_gives_two_handles_on_the_same_table() {
    let mut store = TrustedStore::new();
    store.add(block(1));
    store.add(block(8));
    let (reader, writer) = store.split();
    assert_eq!(reader.get(1), Some(block(1)));
    assert_eq!(reader.get(8), Some(block(8)));
    assert_eq!(reader.get(5), None);
    assert_eq!(reader.read_at(8), (Some(block(8)), Some(8)));
    assert_eq!(reader.read_at(5), (None, Some(8)));
    assert_eq!(writer.get(1), Some(block(1)));
    assert_eq!(writer.get(8), Some(block(8)));
    assert_eq!(writer.get(5), None);
    assert_eq!(writer.latest_height(), Some(8));
    assert_eq!(writer.read_at(1), (Some(block(1)), Some(8)));
}

#[test]
fn a_reader_finds_what_the_writer_adds_later() {
    let mut store = TrustedStore::new();
    store.add(block(1));
    let (reader, mut writer) = store.split();
    assert_eq!(reader.get(2), None);
    writer.add(block(2));
    assert_eq!(reader.get(1), Some(block(1)));
    assert_eq!(reader.get(2), Some(block(2)));
    assert_eq!(reader.read_at(2), (Some(block(2)), Some(2)));
    assert_eq!(writer.get(2), Some(block(2)));
    writer.add_all(&vec![block(4), block(9)]);
    for h in 0u64..12 {
        assert_eq!(reader.get(h), writer.get(h));
        assert_eq!(reader.read_at(h), writer.read_at(h));
    }
}

#[test]
fn every_reader_of_a_store_follows_the_writer() {
    let (first, mut writer) = TrustedStore::new().split();
    let second = first.clone();
    let third = writer.reader();
    writer.add(block(6));
    let fourth = writer.reader();
    writer.add(block(7));
    for reader in [&first, &second, &third, &fourth] {
        assert_eq!(reader.get(6), Some(block(6)));
        assert_eq!(reader.get(7), Some(block(7)));
        assert_eq!(reader.get(8), None);
        assert_eq!(reader.read_at(8), (None, Some(7)));
    }
}

fn may_be_shared<T: Send + Sync>(_: &T) {}

#[test]
fn handles_may_be_shared_between_threads() {
    let (reader, writer) = TrustedStore::new().split();
    may_be_shared(&reader);
    may_be_shared(&writer);
}

#[test]
fn readers_of_different_stores_do_not_meet() {
    let (reader, _writer) = TrustedStore::new().split();
    let (_, mut other) = TrustedStore::new().split();
    other.add(block(3));
    assert_eq!(reader.get(3), None);
}

#[test]
fn add_all_adds_every_state() {
    let (_, mut writer) = TrustedStore::new().split();
    writer.add(block(1));
    writer.add_all(&vec![block(3), block(5), block(10)]);
    assert_eq!(writer.get(1), Some(block(1)));
    assert_eq!(writer.get(3), Some(block(3)));
    assert_eq!(writer.get(5), Some(block(5)));
    assert_eq!(writer.get(10), Some(block(10)));
    assert_eq!(writer.get(4), None);
    assert_eq!(writer.latest_height(), Some(10));
}

#[test]
fn add_all_of_nothing_changes_nothing() {
    let (_, mut writer) = TrustedStore::new().split();
    writer.add(block(1));
    writer.add_all(&Vec::new());
    assert_eq!(writer.get(1), Some(block(1)));
    assert_eq!(writer.latest_height(), Some(1));
}

#[test]
fn state_starts_with_empty_logs() {
    let (reader, writer) = TrustedStore::new().split();
    let state = State::new(reader, writer);
    assert_eq!(state.valid, Vec::new());
    assert_eq!(state.fetched, Vec::new());
    assert_eq!(state.trusted_store_reader().read_at(0), (None, None));
}

#[test]
fn state_commits_trusted_states() {
    let mut store = TrustedStore::new();
    store.add(block(1));
    let (reader, writer) = store.split();
    let mut state = State::new(reader, writer);
    let early = state.trusted_store_reader();
    state.add_trusted_states(vec![block(5), block(10)]);
    assert_eq!(early.get(10), Some(block(10)));
    assert_eq!(state.trusted_store_reader.get(5), Some(block(5)));
    let reader = state.trusted_store_reader();
    assert_eq!(reader.get(1), Some(block(1)));
    assert_eq!(reader.get(5), Some(block(5)));
    assert_eq!(reader.get(10), Some(block(10)));
    assert_eq!(state.valid, Vec::new());
    assert_eq!(state.fetched, Vec::new());
}

#[test]
fn state_records_valid_and_fetched_blocks_in_order() {
    let (reader, writer) = TrustedStore::new().split();
    let mut state = State::new(reader, writer);
    state.add_fetched_light_block(block(10));
    state.add_valid_light_block(block(5));
    state.add_fetched_light_block(block(5));
    assert_eq!(state.fetched, vec![block(10), block(5)]);
    assert_eq!(state.valid, vec![block(5)]);
    assert_eq!(state.trusted_store_reader().get(5), None);
    assert_eq!(state.trusted_store_reader().get(10), None);
}
