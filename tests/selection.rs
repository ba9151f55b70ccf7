use quadprogpp::{first_min_below, min_lowest_id, Driver, Event, Sizes};

#[test]
fn least_key_below_bound_wins() {
    let keys = vec![7, 3, 9, 5];
    let all = vec![true; 4];
    assert_eq!(first_min_below(&keys, &all, 10), Some(1));
    assert_eq!(first_min_below(&keys, &all, 3), None);
    assert_eq!(first_min_below(&keys, &all, 4), Some(1));
}

#[test]
fn ties_go_to_the_lowest_index() {
    let keys = vec![4, 2, 8, 2, 2];
    assert_eq!(first_min_below(&keys, &vec![true; 5], 100), Some(1));
    assert_eq!(first_min_below(&keys, &vec![true, false, true, true, true], 100), Some(3));
}

#[test]
fn only_candidates_count() {
    let keys = vec![1, 6, 2];
    assert_eq!(first_min_below(&keys, &vec![false, true, true], 10), Some(2));
    assert_eq!(first_min_below(&keys, &vec![false, false, false], 10), None);
    assert_eq!(first_min_below(&vec![], &vec![], 10), None);
}

#[test]
fn most_violated_eligible_inequality_is_chosen() {
    let mut d = Driver::for_problem(Sizes { n: 3, p: 0, m: 4 });
    let zero = 100;
    assert_eq!(d.choose_violated(&vec![120, 90, 80, 80], zero), Event::Violated { ip: 2 });
    assert_eq!(d.choose_violated(&vec![100, 150, 101, 200], zero), Event::Satisfied);
    d.advance(Event::Violated { ip: 2 });
    d.advance(Event::FullStep);
    // Inequality 2 is now active and no longer eligible.
    assert_eq!(d.choose_violated(&vec![120, 90, 80, 80], zero), Event::Violated { ip: 3 });
}

#[test]
fn equal_keys_go_to_the_lowest_id() {
    let keys = vec![5, 3, 3, 9];
    let ids = vec![4, 7, 2, 0];
    assert_eq!(min_lowest_id(&keys, &vec![true; 4], &ids, 100), Some(2));
    assert_eq!(min_lowest_id(&keys, &vec![true, true, false, true], &ids, 100), Some(1));
    assert_eq!(min_lowest_id(&keys, &vec![true; 4], &ids, 3), None);
    assert_eq!(min_lowest_id(&vec![], &vec![], &vec![], 3), None);
}
