use anachro::frame::take_frame;

#[test]
fn frames_come_off_the_front() {
    let mut pending = vec![1u8, 2, 0, 3, 0, 4];
    assert_eq!(take_frame(&mut pending), Some(vec![1, 2, 0]));
    assert_eq!(pending, vec![3, 0, 4]);
    assert_eq!(take_frame(&mut pending), Some(vec![3, 0]));
    assert_eq!(pending, vec![4]);
    assert_eq!(take_frame(&mut pending), None);
    assert_eq!(pending, vec![4]);
}

#[test]
fn empty_and_lone_delimiters() {
    let mut pending: Vec<u8> = Vec::new();
    assert_eq!(take_frame(&mut pending), None);
    let mut pending = vec![0u8, 0];
    assert_eq!(take_frame(&mut pending), Some(vec![0]));
    assert_eq!(take_frame(&mut pending), Some(vec![0]));
    assert!(pending.is_empty());
}
