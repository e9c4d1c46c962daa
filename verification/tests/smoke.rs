#[test]
fn test_simple() {}

#[test]
fn it_works() {
    assert_eq!(2 + 2, 4);
}
