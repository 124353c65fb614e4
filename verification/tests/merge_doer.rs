use std::cell::RefCell;

use rate_limiter::doer::Doer;
use rate_limiter::doer::Thing;
use rate_limiter::merge::MergedIterator;

fn drain(merged: &mut MergedIterator) -> Vec<u64> {
    let mut out = Vec::new();
    while let Some(next) = merged.next() {
        out.push(next);
    }
    out
}

#[test]
fn merge_three_ordered_runs() {
    let first: Vec<u64> = (1..5).collect();
    let second: Vec<u64> = (1..10).collect();
    let third: Vec<u64> = (8..13).collect();

    let mut merged = MergedIterator::new();
    for item in [first, second, third] {
        merged.add(item);
    }

    assert_eq!(
        drain(&mut merged),
        vec![1, 1, 2, 2, 3, 3, 4, 4, 5, 6, 7, 8, 8, 9, 9, 10, 11, 12]
    );
}

#[test]
fn merge_nothing() {
    let mut merged = MergedIterator::new();
    assert_eq!(merged.next(), None);
    assert_eq!(merged.next(), None);
}

#[test]
fn merge_with_empty_source() {
    let mut merged = MergedIterator::new();
    merged.add(vec![2, 4]);
    merged.add(vec![]);
    merged.add(vec![3]);
    assert_eq!(drain(&mut merged), vec![2, 3, 4]);
    assert_eq!(merged.next(), None);
}

#[test]
fn merge_ties_go_to_the_first_source() {
    let mut merged = MergedIterator::new();
    merged.add(vec![5]);
    merged.add(vec![5, 1]);
    assert_eq!(merged.next(), Some(5));
    // the tie was taken from the first source, so the second still
    // holds its (unordered) run and yields 5 before 1
    assert_eq!(merged.next(), Some(5));
    assert_eq!(merged.next(), Some(1));
    assert_eq!(merged.next(), None);
}

struct MockDoer {
    do_reqs: RefCell<Vec<String>>,
}

impl Doer for MockDoer {
    fn do_it(&self, it: String) {
        self.do_reqs.borrow_mut().push(it)
    }
}

#[test]
fn test_thing() {
    let mock_doer = MockDoer {
        do_reqs: RefCell::new(Vec::new()),
    };

    let test_thing = Thing::new(&mock_doer);
    test_thing.do_it("hello".to_string());

    assert_eq!(vec!["hello".to_string()], *mock_doer.do_reqs.borrow());
}
