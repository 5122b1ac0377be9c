use graze::{GenerationalKey, GenerationalMap};
use std::marker::PhantomData;

fn state(data: Vec<(usize, Option<i32>)>, free: Vec<usize>) -> GenerationalMap<i32> {
    GenerationalMap::from_parts(data, free).unwrap()
}

#[test]
fn push() {
    let mut subject = GenerationalMap::new();
    subject.push(2);
    assert_eq!(subject, state(vec![(0, Some(2))], vec![]));
    subject.push(8);
    assert_eq!(subject, state(vec![(0, Some(2)), (0, Some(8))], vec![]));
    subject.push(121);
    assert_eq!(
        subject,
        state(vec![(0, Some(2)), (0, Some(8)), (0, Some(121))], vec![])
    );
}

#[test]
fn remove() {
    let mut subject = GenerationalMap::new();
    let first = subject.push(2);
    assert_eq!(subject.remove(first), Some(2));
    assert_eq!(subject, state(vec![(0, None)], vec![0]));
    let first = subject.push(6);
    assert_eq!(subject.slots().len(), 1);
    let second = subject.push(20);
    let third = subject.push(9);

    assert_eq!(
        subject,
        state(vec![(1, Some(6)), (0, Some(20)), (0, Some(9))], vec![])
    );
    assert_eq!(subject.remove(second), Some(20));
    assert_eq!(
        subject,
        state(vec![(1, Some(6)), (0, None), (0, Some(9))], vec![1])
    );

    assert_eq!(subject.remove(third), Some(9));
    assert_eq!(
        subject,
        state(vec![(1, Some(6)), (0, None), (0, None)], vec![1, 2])
    );
    assert_eq!(subject.remove(first), Some(6));
    assert_eq!(
        subject,
        state(vec![(1, None), (0, None), (0, None)], vec![1, 2, 0])
    );
}

#[test]
fn len() {
    let mut subject = GenerationalMap::new();
    assert_eq!(subject.len(), 0);
    let first = subject.push(2);
    assert_eq!(subject.len(), 1);
    subject.push(3);
    assert_eq!(subject.len(), 2);
    subject.remove(first);
    assert_eq!(subject.len(), 1);
}

#[test]
fn get() {
    let mut subject = GenerationalMap::new();
    let fisrt = subject.push(120);
    assert_eq!(subject.get(fisrt), Some(&120));
    assert_eq!(subject.remove(fisrt), Some(120));
    assert_eq!(subject.get(fisrt), None);

    let fisrt = subject.push(20);
    assert_eq!(subject.get(fisrt), Some(&20));
    let second = subject.push(30);
    assert_eq!(subject.get(second), Some(&30));
    assert_eq!(subject.remove(fisrt), Some(20));
    assert_eq!(subject.get(second), Some(&30));
    assert_eq!(subject.remove(second), Some(30));
}

#[test]
fn get_mut() {
    let mut subject = GenerationalMap::new();
    let fisrt = subject.push(120);
    assert_eq!(subject.get_mut(fisrt), Some(&mut 120));
    assert_eq!(subject.remove(fisrt), Some(120));
    assert_eq!(subject.get_mut(fisrt), None);

    let fisrt = subject.push(20);
    assert_eq!(subject.get_mut(fisrt), Some(&mut 20));
    let second = subject.push(30);
    assert_eq!(subject.get_mut(second), Some(&mut 30));
    assert_eq!(subject.remove(fisrt), Some(20));
    assert_eq!(subject.get_mut(second), Some(&mut 30));
    assert_eq!(subject.remove(second), Some(30));
}

#[test]
fn iter() {
    let mut subject = GenerationalMap::new();
    subject.push(1);
    subject.push(2);
    subject.push(6);
    let mut iterator = subject.iter().into_iter();
    assert_eq!(
        iterator.next(),
        Some((
            GenerationalKey {
                index: 0,
                generation: 0,
                marker: PhantomData
            },
            &1
        ))
    );
    assert_eq!(
        iterator.next(),
        Some((
            GenerationalKey {
                index: 1,
                generation: 0,
                marker: PhantomData
            },
            &2
        ))
    );
    assert_eq!(
        iterator.next(),
        Some((
            GenerationalKey {
                index: 2,
                generation: 0,
                marker: PhantomData
            },
            &6
        ))
    );
}
