use ledger_core::delta::{DataDelta, DeltaDataCollection, DeltaMergeError};

fn collection_of(pairs: Vec<(u32, DataDelta<char>)>) -> DeltaDataCollection<u32, char> {
    let mut c = DeltaDataCollection::new();
    for (k, d) in pairs {
        c.merge_delta_data_element(k, d).unwrap();
    }
    c
}

fn merged_both_ways(
    d1: DataDelta<char>,
    d2: DataDelta<char>,
    d3: DataDelta<char>,
) -> (Option<DataDelta<char>>, Option<DataDelta<char>>, Option<DataDelta<char>>) {
    // (d1 + d2) + d3, each in its own collection
    let mut c1 = collection_of(vec![(1, d1.clone())]);
    c1.merge_delta_data(collection_of(vec![(1, d2.clone())])).unwrap();
    c1.merge_delta_data(collection_of(vec![(1, d3.clone())])).unwrap();
    // d1 + (d2 + d3)
    let mut c2 = collection_of(vec![(1, d2.clone())]);
    c2.merge_delta_data(collection_of(vec![(1, d3.clone())])).unwrap();
    let mut c3 = collection_of(vec![(1, d1.clone())]);
    c3.merge_delta_data(c2).unwrap();
    // all three into one collection
    let mut c4 = DeltaDataCollection::new();
    c4.merge_delta_data_element(1, d1).unwrap();
    c4.merge_delta_data_element(1, d2).unwrap();
    c4.merge_delta_data_element(1, d3).unwrap();
    (c1.get(&1).cloned(), c3.get(&1).cloned(), c4.get(&1).cloned())
}

fn check_chain(d1: DataDelta<char>, d2: DataDelta<char>, d3: DataDelta<char>, expected: DataDelta<char>) {
    let (a, b, c) = merged_both_ways(d1, d2, d3);
    let want = if expected.before == expected.after { None } else { Some(expected) };
    assert_eq!(a, want);
    assert_eq!(b, want);
    assert_eq!(c, want);
}

#[test]
fn delta_delta_delta_associativity() {
    check_chain(
        DataDelta::new(None, Some('a')),
        DataDelta::new(Some('a'), Some('b')),
        DataDelta::new(Some('b'), Some('c')),
        DataDelta::new(None, Some('c')),
    );
    check_chain(
        DataDelta::new(None, Some('a')),
        DataDelta::new(Some('a'), Some('b')),
        DataDelta::new(Some('b'), None),
        DataDelta::new(None, None),
    );
    check_chain(
        DataDelta::new(None, Some('a')),
        DataDelta::new(Some('a'), None),
        DataDelta::new(None, Some('b')),
        DataDelta::new(None, Some('b')),
    );
    check_chain(
        DataDelta::new(Some('a'), None),
        DataDelta::new(None, Some('b')),
        DataDelta::new(Some('b'), None),
        DataDelta::new(Some('a'), None),
    );
    check_chain(
        DataDelta::new(Some('a'), None),
        DataDelta::new(None, Some('b')),
        DataDelta::new(Some('b'), Some('c')),
        DataDelta::new(Some('a'), Some('c')),
    );
    check_chain(
        DataDelta::new(Some('a'), Some('b')),
        DataDelta::new(Some('b'), Some('c')),
        DataDelta::new(Some('c'), None),
        DataDelta::new(Some('a'), None),
    );
    check_chain(
        DataDelta::new(Some('a'), Some('b')),
        DataDelta::new(Some('b'), None),
        DataDelta::new(None, Some('c')),
        DataDelta::new(Some('a'), Some('c')),
    );
}

#[test]
fn transition_merge_is_associative() {
    let d1 = DataDelta::new(None, Some('a'));
    let d2 = DataDelta::new(Some('a'), Some('b'));
    let d3 = DataDelta::new(Some('b'), Some('c'));
    let left = d1.clone().merge(d2.clone()).unwrap().merge(d3.clone()).unwrap();
    let right = d1.merge(d2.merge(d3).unwrap()).unwrap();
    assert_eq!(left, right);
    assert_eq!(left, DataDelta::new(None, Some('c')));
}

#[test]
fn transition_merge_gap_fails() {
    let d1 = DataDelta::new(None, Some('a'));
    let d2 = DataDelta::new(Some('b'), Some('c'));
    assert_eq!(
        d1.merge(d2),
        Err(DeltaMergeError::ContinuityMismatch { expected: Some('a'), found: Some('b') })
    );
}

#[test]
fn element_merge_gap_leaves_collection_unchanged() {
    let mut c = collection_of(vec![(1, DataDelta::new(None, Some('a')))]);
    let r = c.merge_delta_data_element(1, DataDelta::new(Some('x'), Some('y')));
    assert_eq!(
        r,
        Err(DeltaMergeError::ContinuityMismatch { expected: Some('a'), found: Some('x') })
    );
    assert_eq!(c.get(&1), Some(&DataDelta::new(None, Some('a'))));
    assert_eq!(c.len(), 1);
}

#[test]
fn collection_merge_is_all_or_nothing() {
    let mut c = collection_of(vec![
        (1, DataDelta::new(None, Some('a'))),
        (2, DataDelta::new(None, Some('b'))),
    ]);
    // key 1 continues, key 2 does not: nothing may change
    let other = collection_of(vec![
        (1, DataDelta::new(Some('a'), Some('z'))),
        (2, DataDelta::new(Some('q'), Some('r'))),
    ]);
    assert!(c.merge_delta_data(other).is_err());
    assert_eq!(c.get(&1), Some(&DataDelta::new(None, Some('a'))));
    assert_eq!(c.get(&2), Some(&DataDelta::new(None, Some('b'))));
    assert_eq!(c.len(), 2);
}

#[test]
fn collection_merge_combines_and_adds_keys() {
    let mut c = collection_of(vec![(1, DataDelta::new(None, Some('a')))]);
    let other = collection_of(vec![
        (1, DataDelta::new(Some('a'), Some('b'))),
        (3, DataDelta::new(Some('x'), None)),
    ]);
    c.merge_delta_data(other).unwrap();
    assert_eq!(c.get(&1), Some(&DataDelta::new(None, Some('b'))));
    assert_eq!(c.get(&3), Some(&DataDelta::new(Some('x'), None)));
    assert_eq!(c.len(), 2);
}

#[test]
fn noop_is_never_stored() {
    let mut c: DeltaDataCollection<u32, char> = DeltaDataCollection::new();
    c.merge_delta_data_element(7, DataDelta::new(Some('a'), Some('a'))).unwrap();
    assert!(c.is_empty());
    c.merge_delta_data_element(7, DataDelta::new(None, Some('a'))).unwrap();
    c.merge_delta_data_element(7, DataDelta::new(Some('a'), None)).unwrap();
    assert!(c.is_empty());
    assert_eq!(c.get(&7), None);
}

#[test]
fn merging_the_inverse_undoes_a_block() {
    let block = collection_of(vec![
        (1, DataDelta::new(Some('a'), Some('b'))),
        (2, DataDelta::new(None, Some('c'))),
    ]);
    let undo = collection_of(vec![
        (1, DataDelta::new(Some('a'), Some('b'))),
        (2, DataDelta::new(None, Some('c'))),
    ])
    .invert();
    assert_eq!(undo.get(&1), Some(&DataDelta::new(Some('b'), Some('a'))));
    assert_eq!(undo.get(&2), Some(&DataDelta::new(Some('c'), None)));
    let mut total = block;
    total.merge_delta_data(undo).unwrap();
    assert!(total.is_empty());
}

#[test]
fn invert_swaps_before_and_after() {
    let d = DataDelta::new(Some(5u64), None).invert();
    assert_eq!(d, DataDelta::new(None, Some(5u64)));
}
