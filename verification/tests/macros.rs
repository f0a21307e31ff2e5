use dbuf::macros::StaticOnce;

#[test]
fn macros_test() {
    let mut once = StaticOnce::new(());
    for x in 0..100 {
        let once = once.get();
        assert_eq!(once.is_some(), x == 0)
    }

    let mut once = StaticOnce::new(());
    for x in 0..100 {
        let once = once.get();
        assert_eq!(once.is_some(), x == 0)
    }
}
