use gatelogue::sourced::{contains_source, extend_sources, push_source, Sourced};

fn tags(list: &[&str]) -> Vec<String> {
    list.iter().map(|t| t.to_string()).collect()
}

fn sources<T>(s: &Sourced<T>) -> Vec<String> {
    match s {
        Sourced::Unsourced(_) => Vec::new(),
        Sourced::Sourced { s, .. } => s.clone(),
    }
}

#[test]
fn reads_through_to_the_value() {
    let bare = Sourced::new(5u16);
    assert_eq!(*bare, 5);
    assert_eq!(*bare.get(), 5);
    assert_eq!(bare.source_count(), 0);
    let mut told = Sourced::from_source("M".to_string(), "wiki".to_string());
    assert_eq!(told.len(), 1);
    assert_eq!(told.source_count(), 1);
    told.push('L');
    assert_eq!(*told, "ML");
    assert_eq!(sources(&told), tags(&["wiki"]));
    assert_eq!(told.into_inner(), "ML");
}

#[test]
fn equality_is_on_the_value_alone() {
    let a = Sourced::from_source(3u16, "a".to_string());
    let b = Sourced::from_source(3u16, "b".to_string());
    let c = Sourced::new(3u16);
    let d = Sourced::new(4u16);
    assert!(a == b);
    assert!(a == c);
    assert!(a != d);
    assert!(a < d);
    assert!(d > b);
    assert!(a <= c);
    assert_eq!(a.partial_cmp(&b), Some(std::cmp::Ordering::Equal));
}

#[test]
fn a_source_is_listed_once() {
    let mut list = tags(&["a", "b"]);
    push_source(&mut list, "a".to_string());
    assert_eq!(list, tags(&["a", "b"]));
    push_source(&mut list, "c".to_string());
    assert_eq!(list, tags(&["a", "b", "c"]));
    assert!(contains_source(&list, &"b".to_string()));
    assert!(!contains_source(&list, &"d".to_string()));
    extend_sources(&mut list, tags(&["d", "a", "e", "d"]));
    assert_eq!(list, tags(&["a", "b", "c", "d", "e"]));
}

#[test]
fn with_source_makes_a_bare_value_sourced() {
    let s = Sourced::new(1u16).with_source("a".to_string());
    assert_eq!(sources(&s), tags(&["a"]));
    assert!(s.has_source(&"a".to_string()));
    let s = s.with_source("a".to_string()).with_source("b".to_string());
    assert_eq!(sources(&s), tags(&["a", "b"]));
    assert_eq!(*s, 1);
}

#[test]
fn merge_keeps_the_later_value_and_unites_the_sources() {
    let early = Sourced::Sourced { v: "S".to_string(), s: tags(&["a", "b"]) };
    let late = Sourced::Sourced { v: "M".to_string(), s: tags(&["b", "c"]) };
    let merged = early.merge(late);
    assert_eq!(*merged, "M");
    assert_eq!(sources(&merged), tags(&["a", "b", "c"]));
    let merged = Sourced::new(1u16).merge(Sourced::new(2u16));
    assert!(matches!(merged, Sourced::Unsourced(2)));
    let merged = Sourced::new(1u16).merge(Sourced::from_source(2u16, "x".to_string()));
    assert_eq!(sources(&merged), tags(&["x"]));
    let merged = Sourced::from_source(1u16, "x".to_string()).merge(Sourced::new(2u16));
    assert_eq!(*merged, 2);
    assert_eq!(sources(&merged), tags(&["x"]));
}

#[test]
fn sources_of_agreeing_observations_do_not_depend_on_order() {
    let observe = |order: &[&str]| {
        let mut field = Sourced::from_source("M".to_string(), order[0].to_string());
        for tag in &order[1..] {
            field = field.merge(Sourced::from_source("M".to_string(), tag.to_string()));
        }
        let mut list = sources(&field);
        list.sort();
        (field.into_inner(), list)
    };
    let one = observe(&["a", "b", "c", "a"]);
    let other = observe(&["c", "a", "a", "b"]);
    assert_eq!(one, other);
    assert_eq!(one.1, tags(&["a", "b", "c"]));
}
