use markov::Table;

fn sample_with(t: &Table<char>, x: f64) -> Option<char> {
    t.sample((x * t.total_symbols() as f64) as usize)
}

#[test]
fn it_initialises_an_empty_table() {
    let t = Table::<i32>::empty();

    assert_eq!(t.entry_count(), 0);
    assert_eq!(t.total_symbols(), 0);
    assert_eq!(t.most_frequent(), None);
}

#[test]
fn it_tracks_frequency_of_added_symbols() {
    let mut t = Table::empty();

    t.add(Some('a'));

    assert_eq!(t.frequency(&Some('a')), 1);

    t.add(Some('b'));

    assert_eq!(t.frequency(&Some('a')), 1);
    assert_eq!(t.frequency(&Some('b')), 1);

    t.add(Some('a'));

    assert_eq!(t.frequency(&Some('a')), 2);
    assert_eq!(t.frequency(&Some('b')), 1);
}

#[test]
fn it_tracks_total_added_symbols() {
    let mut t = Table::empty();

    t.add(Some('a'));
    assert_eq!(t.total_symbols(), 1);

    t.add(Some('b'));
    assert_eq!(t.total_symbols(), 2);

    t.add(Some('a'));
    assert_eq!(t.total_symbols(), 3);
}

#[test]
fn it_exposes_most_frequent_symbol() {
    let mut t = Table::empty();

    assert_eq!(t.most_frequent(), None);

    t.add(Some('a'));
    assert_eq!(t.most_frequent(), Some('a'));

    t.add(Some('b'));
    assert_eq!(t.most_frequent(), Some('a'));

    t.add(Some('c'));
    assert_eq!(t.most_frequent(), Some('a'));

    t.add(Some('b'));
    assert_eq!(t.most_frequent(), Some('b'));

    t.add(Some('c'));
    assert_eq!(t.most_frequent(), Some('b'));

    t.add(Some('c'));
    assert_eq!(t.most_frequent(), Some('c'));
}

#[test]
fn it_allows_sampling_of_symbols() {
    let mut t = Table::empty();

    assert_eq!(sample_with(&t, 0.0), None);

    t.add(Some('a'));
    assert_eq!(sample_with(&t, 0.0), Some('a'));

    t.add(Some('b'));
    assert_eq!(sample_with(&t, 0.0), Some('a'));
    assert_eq!(sample_with(&t, 0.5), Some('b'));

    t.add(Some('c'));
    assert_eq!(sample_with(&t, 0.0), Some('a'));
    assert_eq!(sample_with(&t, 0.34), Some('b'));
    assert_eq!(sample_with(&t, 0.67), Some('c'));

    t.add(Some('b'));
    assert_eq!(sample_with(&t, 0.0), Some('b'));
    assert_eq!(sample_with(&t, 0.5), Some('a'));
    assert_eq!(sample_with(&t, 0.75), Some('c'));

    t.add(Some('c'));
    assert_eq!(sample_with(&t, 0.0), Some('b'));
    assert_eq!(sample_with(&t, 0.4), Some('c'));
    assert_eq!(sample_with(&t, 0.8), Some('a'));

    t.add(Some('c'));

    assert_eq!(sample_with(&t, 0.0), Some('c'));
}

#[test]
fn frequencies_sum_to_observation_count() {
    let mut t = Table::empty();
    let adds = ['a', 'b', 'a', 'c', 'a', 'b'];
    for (n, s) in adds.iter().enumerate() {
        t.add(Some(*s));
        assert_eq!(t.total_symbols(), n + 1);
    }
    let sum = t.frequency(&Some('a')) + t.frequency(&Some('b')) + t.frequency(&Some('c'));
    assert_eq!(sum, adds.len());
    assert_eq!(t.frequency(&Some('z')), 0);
}

#[test]
fn end_marker_is_counted_like_a_symbol() {
    let mut t = Table::empty();
    t.add(None);
    t.add(None);
    t.add(Some('a'));
    assert_eq!(t.total_symbols(), 3);
    assert_eq!(t.frequency(&None), 2);
    // the end-of-sequence marker ranks highest, which reads as "none"
    assert_eq!(t.most_frequent(), None);
}

#[test]
fn stability_ranks_earlier_arrival_first() {
    // a and b both reach frequency 2, but b got there first, so b
    // outranks a: an incremented entry never passes an equal frequency.
    let mut t = Table::empty();
    t.add(Some('a'));
    t.add(Some('b'));
    t.add(Some('b'));
    t.add(Some('a'));
    assert_eq!(t.most_frequent(), Some('b'));
    assert_eq!(t.frequency(&Some('a')), 2);
    assert_eq!(t.frequency(&Some('b')), 2);
}

#[test]
fn incremented_entry_overtakes_strictly_lower_frequencies() {
    // a,a,b,b then a again: a leads 3 to 2 and stays in front.
    let mut t = Table::empty();
    t.add(Some('a'));
    t.add(Some('a'));
    t.add(Some('b'));
    t.add(Some('b'));
    t.add(Some('a'));
    assert_eq!(t.most_frequent(), Some('a'));
    assert_eq!(t.frequency(&Some('a')), 3);
    assert_eq!(t.frequency(&Some('b')), 2);
}

#[test]
fn most_frequent_after_single_add() {
    let mut t = Table::empty();
    assert_eq!(t.most_frequent(), None);
    t.add(Some('z'));
    assert_eq!(t.most_frequent(), Some('z'));
}

#[test]
fn sample_is_deterministic_and_zero_picks_top() {
    let mut t = Table::empty();
    t.add(Some('a'));
    t.add(Some('b'));
    t.add(Some('a'));
    assert_eq!(t.sample(0), Some('a'));
    assert_eq!(t.sample(0), t.sample(0));
    assert_eq!(t.sample(1), Some('a'));
    assert_eq!(t.sample(2), Some('b'));
    // a float draw of 0.0 always maps to a weight of zero
    let x: f64 = 0.0;
    assert_eq!(t.sample((x * t.total_symbols() as f64) as usize), Some('a'));
}
