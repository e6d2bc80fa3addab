use alice::misc::{find_and_remove, find_first};

#[test]
pub fn test_find_first() {
    let vec = vec![1, 2, 3, 3, 5];
    let pred = |x: &i32| *x == 3;
    let pred2 = |x: &i32| *x == 6;
    let pred3 = |x: &i32| *x == 5;

    assert_eq!(Some(2), find_first(&vec, pred));
    assert_eq!(None, find_first(&vec, pred2));
    assert_eq!(Some(4), find_first(&vec, pred3));
}

#[test]
pub fn test_find_and_remove() {
    let mut vec = vec![1, 2, 3, 3, 5];
    let pred = |x: &i32| *x == 3;

    assert_eq!(Some(3), find_and_remove(&mut vec, pred));
    assert_eq!(vec![1, 2, 5, 3], vec);

    let mut vec2 = vec![1, 2, 3, 3, 5];
    let pred2 = |x: &i32| *x == 6;
    assert_eq!(None, find_and_remove(&mut vec2, pred2));
    assert_eq!(vec![1, 2, 3, 3, 5], vec2);

    let mut vec3 = vec![1, 2, 3, 3, 5];
    let pred3 = |x: &i32| *x == 5;
    assert_eq!(Some(5), find_and_remove(&mut vec3, pred3));
    assert_eq!(vec![1, 2, 3, 3], vec3)
}

#[test]
fn find_first_on_empty_slice() {
    let empty: Vec<i32> = Vec::new();
    assert_eq!(None, find_first(&empty, |x: &i32| *x == 0));
}

#[test]
fn find_and_remove_last_of_one() {
    let mut v = vec![7];
    assert_eq!(Some(7), find_and_remove(&mut v, |x: &i32| *x == 7));
    assert!(v.is_empty());
}
