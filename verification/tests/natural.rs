use rubbish::natural::{natural_cmp, natural_sign};
use std::cmp::Ordering;

#[test]
fn numbers_compare_by_value() {
    assert_eq!(natural_cmp("bug2", "bug10"), Ordering::Less);
    assert_eq!(natural_cmp("bug10", "bug2"), Ordering::Greater);
    assert_eq!(natural_cmp("a1b2", "a1b10"), Ordering::Less);
    assert_eq!(natural_cmp("007", "7"), Ordering::Equal);
    assert_eq!(natural_cmp("x0", "x"), Ordering::Greater);
}

#[test]
fn case_is_ignored() {
    assert_eq!(natural_cmp("Alpha", "alpha"), Ordering::Equal);
    assert_eq!(natural_cmp("alpha", "BETA"), Ordering::Less);
    assert_eq!(natural_cmp("É", "é"), Ordering::Less);
}

#[test]
fn beginnings_come_first() {
    assert_eq!(natural_cmp("", ""), Ordering::Equal);
    assert_eq!(natural_cmp("", "a"), Ordering::Less);
    assert_eq!(natural_cmp("ab", "a"), Ordering::Greater);
    assert_eq!(natural_cmp("1", "a"), Ordering::Less);
}

#[test]
fn numbers_of_any_length_compare_by_value() {
    let max = "340282366920938463463374607431768211455";
    let over = "340282366920938463463374607431768211456";
    assert_eq!(natural_cmp(max, "1"), Ordering::Greater);
    assert_eq!(natural_cmp(over, "1"), Ordering::Greater);
    assert_eq!(natural_cmp(max, over), Ordering::Less);
    let huge = format!("1{}", "0".repeat(40));
    assert_eq!(natural_cmp(&huge, "1"), Ordering::Greater);
    assert_eq!(natural_cmp(&format!("000{}", huge), &huge), Ordering::Equal);
    assert_eq!(natural_cmp(&format!("{}1", huge), &format!("{}2", huge)), Ordering::Less);
    assert_eq!(natural_cmp(&format!("a{}b", huge), &format!("a{}c", huge)), Ordering::Less);
    assert_eq!(natural_cmp("000", "0"), Ordering::Equal);
}

#[test]
fn the_order_is_an_order() {
    let words = ["", "a", "A", "a1", "a01", "a2", "a10", "b", "10", "9", "9a", "09A", "é"];
    for x in words.iter() {
        assert_eq!(natural_cmp(x, x), Ordering::Equal);
        for y in words.iter() {
            assert_eq!(natural_cmp(x, y), natural_cmp(y, x).reverse());
            let sign = match natural_cmp(x, y) {
                Ordering::Less => -1,
                Ordering::Equal => 0,
                Ordering::Greater => 1,
            };
            assert_eq!(natural_sign(x, y), sign);
            for z in words.iter() {
                if natural_cmp(x, y) != Ordering::Greater && natural_cmp(y, z) != Ordering::Greater {
                    assert_ne!(natural_cmp(x, z), Ordering::Greater);
                }
            }
        }
    }
}
