use tuta_calendar::order::{stable_order, stable_text_order, text_less};
use tuta_calendar::text::text_contains;

fn chars(s: &str) -> Vec<char> {
    s.chars().collect()
}

#[test]
fn text_order_is_that_of_str() {
    let words = ["", "a", "ab", "b", "B", "é", "z", "aa"];
    for x in words {
        for y in words {
            assert_eq!(text_less(&chars(x), &chars(y)), x < y, "{x:?} < {y:?}");
        }
    }
}

#[test]
fn text_sort_is_stable() {
    let keys = vec![chars("b"), chars("a"), chars("b"), chars("")];
    assert_eq!(stable_text_order(&keys), vec![3, 1, 0, 2]);
    assert_eq!(stable_order(&vec![5, -1, 5, 0]), vec![1, 3, 0, 2]);
}

#[test]
fn substring_search() {
    assert!(text_contains(&chars("abc_clientOnly_birthdays"), &chars("clientOnly_birthdays")));
    assert!(text_contains(&chars("abc"), &chars("")));
    assert!(!text_contains(&chars("ab"), &chars("abc")));
    assert!(!text_contains(&chars("abcab"), &chars("abd")));
}
