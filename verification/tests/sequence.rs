use markov::Sequence;

#[test]
fn it_allows_next_sequence_to_be_derived() {
    let mut seq: Sequence<char> = Sequence::empty();

    assert_eq!(*seq.symbols(), Vec::<char>::new());

    seq = seq.with_next('a', 3);
    assert_eq!(*seq.symbols(), vec!['a']);

    seq = seq.with_next('b', 3);
    assert_eq!(*seq.symbols(), vec!['a', 'b']);

    seq = seq.with_next('c', 3);
    assert_eq!(*seq.symbols(), vec!['a', 'b', 'c']);
}

#[test]
fn it_limits_length_to_specified_order() {
    let mut seq: Sequence<char> = Sequence::empty();
    seq = seq.with_next('a', 3);
    seq = seq.with_next('b', 3);
    seq = seq.with_next('c', 3);
    assert_eq!(*seq.symbols(), vec!['a', 'b', 'c']);

    seq = seq.with_next('d', 3);
    assert_eq!(*seq.symbols(), vec!['b', 'c', 'd']);

    seq = seq.with_next('e', 2);
    assert_eq!(*seq.symbols(), vec!['d', 'e']);
}

#[test]
fn window_stays_within_order_and_is_a_history_suffix() {
    let order = 3usize;
    let mut seq: Sequence<u32> = Sequence::empty();
    let mut fed: Vec<u32> = Vec::new();
    for s in [1u32, 2, 3, 4, 5, 6] {
        seq = seq.with_next(s, order);
        fed.push(s);
        let w = seq.symbols();
        assert!(w.len() <= order);
        assert_eq!(&fed[fed.len() - w.len()..], &w[..]);
    }
}

#[test]
fn order_zero_collapses_every_window() {
    let mut seq: Sequence<char> = Sequence::empty();
    seq = seq.with_next('a', 0);
    assert_eq!(*seq.symbols(), Vec::<char>::new());
    seq = seq.with_next('b', 0);
    assert_eq!(*seq.symbols(), Vec::<char>::new());
}

#[test]
fn sequences_compare_by_contents() {
    let a = Sequence::empty().with_next('x', 2).with_next('y', 2);
    let b = Sequence::empty().with_next('x', 2).with_next('y', 2);
    let c = Sequence::empty().with_next('y', 2).with_next('x', 2);
    assert!(a == b);
    assert!(a != c);
    assert!(a == a.clone());
}
