use drawskill::order::{lex_less, SortedMap};

fn chars(s: &str) -> Vec<char> {
    s.chars().collect()
}

#[test]
fn lex_less_orders_like_string() {
    let words = ["", "a", "ab", "b", "B", "é", "a b"];
    for x in words {
        for y in words {
            assert_eq!(lex_less(&chars(x), &chars(y)), x < y, "{x:?} < {y:?}");
        }
    }
}

#[test]
fn sorted_map_keeps_keys_in_order() {
    let mut m = SortedMap::new();
    m.insert("pear".to_string(), 1);
    m.insert("apple".to_string(), 2);
    m.insert("fig".to_string(), 3);
    m.insert("apple".to_string(), 4);
    assert_eq!(m.len(), 3);
    assert_eq!(m.keys(), vec!["apple".to_string(), "fig".to_string(), "pear".to_string()]);
    assert_eq!(m.key_at(0), "apple");
    assert_eq!(*m.value_at(0), 4);
    assert_eq!(m.get(&chars("fig")), Some(&3));
    assert_eq!(m.get(&chars("kiwi")), None);
    assert_eq!(m.take(&chars("fig")), Some(3));
    assert_eq!(m.take(&chars("fig")), None);
    assert_eq!(m.keys(), vec!["apple".to_string(), "pear".to_string()]);
}
