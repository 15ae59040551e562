use map_ok::BoxOk;
use map_ok::MapOk;

use std::num::ParseIntError;
use std::str::FromStr;

struct Person {
    age: u8,
}

impl Person {
    fn new(age: u8) -> Self {
        Person { age }
    }
}

impl FromStr for Person {
    type Err = ParseIntError;

    fn from_str(s: &str) -> Result<Self, Self::Err> {
        let age = u8::from_str(s)?;
        Ok(Person::new(age))
    }
}

#[test]
fn lib_map_ok_works() {
    let input = vec!["10", "20", "x", "30"];
    let mut iterator = input.iter().map(|s| s.parse::<Person>()).map_ok(|p| p.age);

    assert_eq!(iterator.next(), Some(Ok(10)));
    assert_eq!(iterator.next(), Some(Ok(20)));
    assert!(iterator.next().unwrap().is_err());
    assert_eq!(iterator.next(), Some(Ok(30)));
    assert_eq!(iterator.next(), None);
}

#[test]
fn map_ok_map_ok_works() {
    let input = ["10", "20", "x", "30"];
    let mut iterator = input.into_iter().map(Person::from_str).map_ok(|p| p.age);

    assert_eq!(iterator.next(), Some(Ok(10)));
    assert_eq!(iterator.next(), Some(Ok(20)));
    assert!(iterator.next().unwrap().is_err());
    assert_eq!(iterator.next(), Some(Ok(30)));
    assert_eq!(iterator.next(), None);
}

#[test]
fn box_ok_map_ok_works() {
    let input = ["10", "20", "x", "30"];
    let mut iterator = input
        .iter()
        .map(|s| s.parse::<Person>())
        .map_ok(|p| p.age)
        .box_ok();

    assert_eq!(iterator.next(), Some(Ok(Box::new(10))));
    assert_eq!(iterator.next(), Some(Ok(Box::new(20))));
    assert!(iterator.next().unwrap().is_err());
    assert_eq!(iterator.next(), Some(Ok(Box::new(30))));
    assert_eq!(iterator.next(), None);
}
