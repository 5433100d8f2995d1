#[test]
fn my_test() {
    let mut x = 3;
    x += 2;
    assert!(x == 5);
}
