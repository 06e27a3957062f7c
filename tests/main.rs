#[test]
fn test_ok() {
    println!("Oh noes!!");
    assert!(true);
}
