use koi::kphysics::stack_vec::StackVec;

#[test]
fn stack_vec_push_and_remove() {
    let mut v: StackVec<u8, 4> = StackVec::new(0);
    assert_eq!(*v.deref(), [0, 0, 0, 0]);
    v.push(1);
    v.push(2);
    v.push(3);
    assert_eq!(*v.deref(), [1, 2, 3, 0]);
    v.remove(0);
    assert_eq!(*v.deref(), [2, 3, 0, 0]);
    v.push(9);
    assert_eq!(*v.deref(), [2, 3, 9, 0]);
    v.remove(1);
    assert_eq!(*v.deref(), [2, 9, 0, 0]);
}
