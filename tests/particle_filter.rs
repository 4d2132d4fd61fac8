#[test]
fn check_rand() {
    for _ in 0..100 {
        let r = rand::random::<f32>();
        println!("{r}");
    }
}
