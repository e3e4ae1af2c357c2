use markov::{Model, Predictor, Sequence};

#[test]
fn it_predicts_most_probable_sequences() {
    let mut model = Model::empty(1);

    let seq = Sequence::empty();
    model.add(&seq, Some("the"));
    let seq = model.advance_sequence(&seq, "the");
    model.add(&seq, Some("quick"));
    let seq = model.advance_sequence(&seq, "quick");
    model.add(&seq, Some("brown"));
    let seq = model.advance_sequence(&seq, "brown");
    model.add(&seq, Some("fox"));

    let mut pre = Predictor::new(&model);
    assert_eq!(pre.next(), Some("the"));
    assert_eq!(pre.next(), Some("quick"));
    assert_eq!(pre.next(), Some("brown"));
    assert_eq!(pre.next(), Some("fox"));
    assert_eq!(pre.next(), None);

    let seq = Sequence::empty();
    model.add(&seq, Some("the"));
    let seq = model.advance_sequence(&seq, "the");
    model.add(&seq, Some("lazy"));
    let seq = model.advance_sequence(&seq, "lazy");
    model.add(&seq, Some("dog"));

    let seq = Sequence::empty();
    model.add(&seq, Some("the"));
    let seq = model.advance_sequence(&seq, "the");
    model.add(&seq, Some("lazy"));
    let seq = model.advance_sequence(&seq, "lazy");
    model.add(&seq, Some("penguin"));

    let mut pre = Predictor::new(&model);
    assert_eq!(pre.next(), Some("the"));
    assert_eq!(pre.next(), Some("lazy"));
    assert_eq!(pre.next(), Some("dog"));
    assert_eq!(pre.next(), None);

    let seq = Sequence::empty();
    model.add(&seq, Some("the"));
    let seq = model.advance_sequence(&seq, "the");
    model.add(&seq, Some("lazy"));
    let seq = model.advance_sequence(&seq, "lazy");
    model.add(&seq, Some("penguin"));

    let mut pre = Predictor::new(&model);
    assert_eq!(pre.next(), Some("the"));
    assert_eq!(pre.next(), Some("lazy"));
    assert_eq!(pre.next(), Some("penguin"));
    assert_eq!(pre.next(), None);
}

#[test]
fn predictor_given_and_end_control_the_context() {
    let mut model = Model::empty(1);
    let seq = Sequence::empty();
    model.add(&seq, Some('a'));
    let s1 = model.advance_sequence(&seq, 'a');
    model.add(&s1, Some('b'));

    let mut pre = Predictor::new(&model);
    pre.given('a');
    assert_eq!(pre.predict(), Some('b'));
    // predict does not advance the context
    assert_eq!(pre.predict(), Some('b'));
    pre.end();
    assert_eq!(pre.predict(), Some('a'));
}
