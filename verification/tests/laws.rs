use map_ok::box_value;
use map_ok::BoxOk;
use map_ok::MapOk;
use map_ok::ResultIterator;
use map_ok::VecSource;

use std::cell::Cell;

fn sample() -> Vec<Result<u32, String>> {
    vec![
        Ok(10),
        Ok(20),
        Err(String::from("x is no number")),
        Ok(30),
    ]
}

#[test]
fn order_is_preserved() {
    let mut iterator = VecSource::new(sample()).map_ok(|v| v + 1);

    assert_eq!(iterator.next(), Some(Ok(11)));
    assert_eq!(iterator.next(), Some(Ok(21)));
    assert_eq!(iterator.next(), Some(Err(String::from("x is no number"))));
    assert_eq!(iterator.next(), Some(Ok(31)));
    assert_eq!(iterator.next(), None);
}

#[test]
fn transform_runs_once_per_success_only() {
    let calls = Cell::new(0u32);
    let mut iterator = VecSource::new(sample()).map_ok(|v| {
        calls.set(calls.get() + 1);
        v
    });

    while let Some(_) = iterator.next() {}
    assert_eq!(calls.get(), 3);
}

#[test]
fn failures_pass_through_unchanged() {
    let payload = String::from("kept letter for letter");
    let mut iterator =
        VecSource::new(vec![Err::<u32, String>(payload.clone())]).map_ok(|v| v * 1000);

    assert_eq!(iterator.next(), Some(Err(payload)));
    assert_eq!(iterator.next(), None);
}

#[test]
fn exhaustion_does_not_revive() {
    let mut iterator = VecSource::new(vec![Ok::<u32, String>(7)]).map_ok(|v| v);

    assert_eq!(iterator.next(), Some(Ok(7)));
    assert_eq!(iterator.next(), None);
    assert_eq!(iterator.next(), None);
    assert_eq!(iterator.next(), None);
}

#[test]
fn boxing_holds_an_equal_value_in_its_own_storage() {
    let original: u32 = 42;
    let mut iterator = VecSource::new(vec![Ok::<u32, String>(original)]).box_ok();

    let boxed = iterator.next().unwrap().unwrap();
    assert_eq!(*boxed, original);
    assert_eq!(iterator.next(), None);
}

#[test]
fn boxing_is_mapping_with_a_boxing_transform() {
    let mut boxed = VecSource::new(sample()).box_ok();
    let mut mapped = VecSource::new(sample()).map_ok(box_value);

    for _ in 0..5 {
        assert_eq!(boxed.next(), mapped.next());
    }
}

#[test]
fn chained_mapping_composes() {
    let f = |v: u32| v + 1;
    let g = |v: u32| v * 2;
    let mut chained = VecSource::new(sample()).map_ok(f).map_ok(g);
    let mut composed = VecSource::new(sample()).map_ok(|v| g(f(v)));

    for _ in 0..5 {
        assert_eq!(chained.next(), composed.next());
    }
}

#[test]
fn vec_source_hands_out_its_items_front_to_back() {
    let mut source = VecSource::new(sample());

    assert_eq!(source.next(), Some(Ok(10)));
    assert_eq!(source.next(), Some(Ok(20)));
    assert_eq!(source.next(), Some(Err(String::from("x is no number"))));
    assert_eq!(source.next(), Some(Ok(30)));
    assert_eq!(source.next(), None);
    assert_eq!(source.next(), None);
}

#[test]
fn attaching_pulls_nothing() {
    let calls = Cell::new(0u32);
    let mut iterator = VecSource::new(sample()).map_ok(|v| {
        calls.set(calls.get() + 1);
        v
    });

    assert_eq!(calls.get(), 0);
    assert_eq!(iterator.next(), Some(Ok(10)));
    assert_eq!(calls.get(), 1);
}
