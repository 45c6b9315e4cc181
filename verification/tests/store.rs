use datssol_bot::model::state::Pos;
use datssol_bot::model::store::{IdMap, PosMap, PosSet};

#[test]
fn id_map_insert_replace_remove() {
    let mut m: IdMap<u32> = IdMap::new();
    assert!(m.is_empty());
    m.insert("a".into(), 1);
    m.insert("b".into(), 2);
    m.insert("a".into(), 3);
    assert_eq!(m.len(), 2);
    assert_eq!(m.get("a"), Some(&3));
    assert!(m.contains_key("b"));
    assert_eq!(m.remove("b"), Some(2));
    assert_eq!(m.remove("b"), None);
    assert!(!m.contains_key("b"));
    assert_eq!(m.keys(), vec!["a".to_string()]);
    m.clear();
    assert!(m.is_empty());
}

#[test]
fn id_map_retain_listed() {
    let mut m: IdMap<u32> = IdMap::new();
    for (k, v) in [("a", 1), ("b", 2), ("c", 3)] {
        m.insert(k.into(), v);
    }
    m.retain_listed(&vec!["c".to_string(), "a".to_string(), "z".to_string()]);
    assert_eq!(m.len(), 2);
    assert_eq!(m.get("a"), Some(&1));
    assert_eq!(m.get("b"), None);
    assert_eq!(m.get("c"), Some(&3));
}

#[test]
fn pos_map_and_set() {
    let mut m: PosMap<i32> = PosMap::new();
    m.insert(Pos::new(1, 1), 10);
    m.insert(Pos::new(2, 1), 20);
    m.insert(Pos::new(1, 1), 11);
    assert_eq!(m.len(), 2);
    assert_eq!(m.get(Pos::new(1, 1)), Some(&11));
    assert_eq!(m.remove(Pos::new(2, 1)), Some(20));
    assert!(!m.contains_key(Pos::new(2, 1)));
    assert_eq!(m.keys(), vec![Pos::new(1, 1)]);

    let mut s = PosSet::new();
    s.insert(Pos::new(0, 0));
    s.insert(Pos::new(0, 0));
    s.insert(Pos::new(5, -3));
    assert_eq!(s.len(), 2);
    assert!(s.contains(&Pos::new(5, -3)));
    s.remove(Pos::new(0, 0));
    assert!(!s.contains(&Pos::new(0, 0)));
    assert_eq!(s.elements(), vec![Pos::new(5, -3)]);
    s.clear();
    assert!(s.is_empty());
}
