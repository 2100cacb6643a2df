use std::collections::HashSet;

use eww::one_to_n_elements_map::{OneToNElementsMap, OneToNError};

#[test]
pub fn test_add_scope() {
    let mut map = OneToNElementsMap::new();
    map.insert(1, 2, "a".to_string()).unwrap();
    map.insert(2, 3, "b".to_string()).unwrap();
    map.insert(3, 4, "c".to_string()).unwrap();
    map.insert(5, 4, "d".to_string()).unwrap();

    assert_eq!(map.get_parent_of(1), Some(2));
    assert_eq!(map.get_parent_of(2), Some(3));
    assert_eq!(map.get_parent_of(3), Some(4));
    assert_eq!(map.get_parent_of(4), None);
    assert_eq!(map.get_parent_of(5), Some(4));

    assert_eq!(map.get_children_of(4), HashSet::from_iter(vec![3, 5]));
    assert_eq!(map.get_children_of(3), HashSet::from_iter(vec![2]));
    assert_eq!(map.get_children_of(2), HashSet::from_iter(vec![1]));
    assert_eq!(map.get_children_of(1), HashSet::new());
}

#[test]
pub fn test_remove_scope() {
    let mut map = OneToNElementsMap::new();
    map.insert(1, 2, "a".to_string()).unwrap();
    map.insert(2, 3, "b".to_string()).unwrap();
    map.insert(3, 4, "c".to_string()).unwrap();
    map.insert(5, 4, "d".to_string()).unwrap();

    map.remove(4);

    assert_eq!(map.get_parent_of(1), Some(2));
    assert_eq!(map.get_parent_of(2), Some(3));
    assert_eq!(map.get_parent_of(3), None);
    assert_eq!(map.get_parent_of(4), None);
    assert_eq!(map.get_parent_of(5), None);

    assert_eq!(map.get_children_of(3), HashSet::from_iter(vec![2]));
    assert_eq!(map.get_children_of(2), HashSet::from_iter(vec![1]));
    assert_eq!(map.get_children_of(1), HashSet::new());
}

#[test]
fn insert_refuses_a_second_parent() {
    let mut map = OneToNElementsMap::new();
    map.insert(1, 2, "a".to_string()).unwrap();
    assert!(matches!(map.insert(1, 3, "b".to_string()), Err(OneToNError::ChildAlreadyHasParent { .. })));
    assert_eq!(map.get_parent_of(1), Some(2));
}

#[test]
fn edges_and_validation() {
    let mut map = OneToNElementsMap::new();
    map.insert(1, 2, "a".to_string()).unwrap();
    map.insert(3, 2, "c".to_string()).unwrap();
    assert_eq!(map.get_parent_edge_of(1), Some(&(2, "a".to_string())));
    if let Some(edge) = map.get_parent_edge_mut(3) {
        edge.1 = "changed".to_string();
    }
    assert_eq!(map.get_parent_edge_of(3), Some(&(2, "changed".to_string())));
    let mut edges: Vec<(usize, String)> = map.get_children_edges_of(2).into_iter().map(|(c, e)| (c, e.clone())).collect();
    edges.sort();
    assert_eq!(edges, vec![(1, "a".to_string()), (3, "changed".to_string())]);
    assert!(map.validate().is_ok());
    map.clear();
    assert_eq!(map.get_parent_of(1), None);
    assert_eq!(map.get_children_of(2), HashSet::new());
}

#[test]
fn validate_reports_a_child_whose_parent_was_changed() {
    let mut map = OneToNElementsMap::new();
    map.insert(1, 2, "a".to_string()).unwrap();
    map.insert(3, 2, "b".to_string()).unwrap();
    assert_eq!(map.validate(), Ok(()));
    if let Some(edge) = map.get_parent_edge_mut(3) {
        edge.0 = 7;
    }
    assert_eq!(map.validate(), Err(OneToNError::ParentMismatch { parent: 2, child: 3, found: 7 }));
}
