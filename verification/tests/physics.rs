#[test]
fn int_div_test() {
    println!(" 1 / 16 = {}", 1 / 16);
    println!("-1 / 16 = {}", -1 / 16);
}
