use markov::{Model, Sequence};

#[test]
fn it_adds_tables_for_each_new_added_sequence() {
    let mut m = Model::empty(1);

    assert_eq!(m.context_count(), 0);

    let seq = Sequence::empty();
    m.add(&seq, Some('a'));

    assert_eq!(m.context_count(), 1);

    let t = m.table_for(&seq);
    assert!(t.is_some());
    assert_eq!(t.unwrap().most_frequent(), Some('a'));

    let seq = m.advance_sequence(&seq, 'a');
    m.add(&seq, Some('b'));

    assert_eq!(m.context_count(), 2);

    let t = m.table_for(&seq);
    assert!(t.is_some());
    assert_eq!(t.unwrap().most_frequent(), Some('b'));
}

#[test]
fn it_adds_symbols_to_existing_tables_for_known_sequences() {
    let mut m = Model::empty(1);

    let seq = Sequence::empty();
    m.add(&seq, Some('a'));
    m.add(&seq, Some('b'));
    m.add(&seq, Some('b'));

    assert_eq!(m.context_count(), 1);

    let t = m.table_for(&seq);
    assert!(t.is_some());
    assert_eq!(t.unwrap().most_frequent(), Some('b'));
}

#[test]
fn trained_sequence_is_sampled_back() {
    let mut model = Model::empty(1);

    let seq = Sequence::empty();
    model.add(&seq, Some('a'));
    let seq = model.advance_sequence(&seq, 'a');
    model.add(&seq, Some('b'));
    let seq = model.advance_sequence(&seq, 'b');
    model.add(&seq, Some('c'));

    // a zero draw always selects the top entry
    let seq = Sequence::empty();
    assert_eq!(model.sample(&seq, 0), Some('a'));
    let seq = model.advance_sequence(&seq, 'a');
    assert_eq!(model.sample(&seq, 0), Some('b'));
    let seq = model.advance_sequence(&seq, 'b');
    assert_eq!(model.sample(&seq, 0), Some('c'));
}

#[test]
fn unseen_context_predicts_none_until_trained() {
    let mut model = Model::empty(2);
    let seq = Sequence::empty().with_next('x', 2);

    assert_eq!(model.predict(&seq), None);
    assert_eq!(model.sample(&seq, 0), None);

    model.add(&seq, Some('y'));

    assert_eq!(model.predict(&seq), Some('y'));
}

#[test]
fn order_zero_collapses_every_context() {
    let mut model = Model::empty(0);
    let seq = Sequence::empty();
    model.add(&seq, Some('a'));
    let seq2 = model.advance_sequence(&seq, 'a');
    assert_eq!(*seq2.symbols(), Vec::<char>::new());
    model.add(&seq2, Some('b'));
    model.add(&seq2, Some('b'));
    assert_eq!(model.context_count(), 1);
    assert_eq!(model.predict(&seq), Some('b'));
}

#[test]
fn end_marker_outranking_symbols_predicts_none() {
    let mut model = Model::empty(1);
    let seq = Sequence::empty();
    model.add(&seq, None);
    model.add(&seq, None);
    model.add(&seq, Some('a'));
    // the end-of-sequence marker ranks highest, which reads as "none"
    assert_eq!(model.predict(&seq), None);
}

#[test]
fn sample_past_total_returns_none() {
    let mut model = Model::empty(1);
    let seq = Sequence::empty();
    model.add(&seq, Some('a'));
    assert_eq!(model.sample(&seq, 0), Some('a'));
    assert_eq!(model.sample(&seq, 1), None);
    assert_eq!(model.sample(&seq, 5), None);
}
