use image_shelf::order::{sorted, sorted_by_key, stable_order};
use image_shelf::text::chars_of;

fn strings(words: &[&str]) -> Vec<String> {
    words.iter().map(|w| w.to_string()).collect()
}

fn pairs(records: &[(&str, &str)]) -> Vec<(String, String)> {
    records.iter().map(|(k, v)| (k.to_string(), v.to_string())).collect()
}

#[test]
fn stable_order_lists_indices_by_key_then_position() {
    let keys: Vec<Vec<char>> = ["b", "a", "b", "a"].iter().map(|k| chars_of(k)).collect();
    assert_eq!(stable_order(&keys), vec![1, 3, 0, 2]);
}

#[test]
fn stable_order_of_nothing_is_empty() {
    let keys: Vec<Vec<char>> = Vec::new();
    assert_eq!(stable_order(&keys), Vec::<usize>::new());
}

#[test]
fn stable_order_of_one_key_is_that_key() {
    let keys: Vec<Vec<char>> = vec![chars_of("only")];
    assert_eq!(stable_order(&keys), vec![0]);
}

#[test]
fn stable_order_is_a_permutation() {
    let words = ["pear", "apple", "fig", "apple", "", "kiwi", "fig", "banana", "Apple"];
    let keys: Vec<Vec<char>> = words.iter().map(|k| chars_of(k)).collect();
    let mut order = stable_order(&keys);
    assert_eq!(order.len(), words.len());
    for pair in order.windows(2) {
        let (a, b) = (pair[0], pair[1]);
        assert!(words[a] < words[b] || (words[a] == words[b] && a < b));
    }
    order.sort();
    assert_eq!(order, (0..words.len()).collect::<Vec<usize>>());
}

#[test]
fn sorted_is_ascending_and_case_sensitive() {
    assert_eq!(
        sorted(&strings(&["img/Photo.PNG", "a.jpg", "B.png", "b.png", "A.gif"])),
        strings(&["A.gif", "B.png", "a.jpg", "b.png", "img/Photo.PNG"])
    );
}

#[test]
fn sorted_keeps_repeated_names() {
    assert_eq!(sorted(&strings(&["b", "a", "b", "a", "a"])), strings(&["a", "a", "a", "b", "b"]));
}

#[test]
fn sorted_agrees_with_the_standard_sort() {
    let mut words: Vec<String> = Vec::new();
    let mut seed: u32 = 12345;
    for _ in 0..500 {
        let mut word = String::new();
        seed = seed.wrapping_mul(1664525).wrapping_add(1013904223);
        let len = (seed >> 28) as usize;
        for _ in 0..len {
            seed = seed.wrapping_mul(1664525).wrapping_add(1013904223);
            let pick = ['a', 'b', 'A', 'Z', '.', '/', 'é', '日', '0', '_'][(seed >> 24) as usize % 10];
            word.push(pick);
        }
        words.push(word);
    }
    let mut expected = words.clone();
    expected.sort();
    assert_eq!(sorted(&words), expected);
}

#[test]
fn sorted_by_key_orders_values_by_their_keys() {
    assert_eq!(
        sorted_by_key(&pairs(&[("b.png", "/r/B.png"), ("a.jpg", "/r/a.JPG"), ("c.gif", "/r/c.gif")])),
        strings(&["/r/a.JPG", "/r/B.png", "/r/c.gif"])
    );
}

#[test]
fn sorted_by_key_keeps_equal_keys_in_input_order() {
    assert_eq!(
        sorted_by_key(&pairs(&[("k", "1"), ("a", "2"), ("k", "3"), ("a", "4"), ("k", "5")])),
        strings(&["2", "4", "1", "3", "5"])
    );
}

#[test]
fn sorted_by_key_of_nothing_is_empty() {
    assert_eq!(sorted_by_key(&Vec::new()), Vec::<String>::new());
}

#[test]
fn sorted_by_key_agrees_with_the_standard_stable_sort() {
    let mut records: Vec<(String, String)> = Vec::new();
    let mut seed: u32 = 99;
    for i in 0..400 {
        seed = seed.wrapping_mul(1664525).wrapping_add(1013904223);
        let key = format!("k{}", (seed >> 27) % 12);
        records.push((key, format!("value-{}", i)));
    }
    let mut expected = records.clone();
    expected.sort_by(|a, b| a.0.cmp(&b.0));
    let expected: Vec<String> = expected.into_iter().map(|(_, v)| v).collect();
    assert_eq!(sorted_by_key(&records), expected);
}
