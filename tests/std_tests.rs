use nonicle::{is_sorted_strictly_by, Canonical, CanonicalOrd, Canonicalize, CanonicalizeInto, IsCanonical};
use std::cmp::Ordering;

fn strings(items: &[&str]) -> Vec<String> {
    items.iter().map(|s| s.to_string()).collect()
}

#[test]
fn canonicalize_vec() {
    assert_eq!(
        Canonical::tie(vec!["a".to_string(), "b".to_string(), "c".to_string()]),
        vec![
            "B".to_string(),
            "A".to_string(),
            "c".to_string(),
            "a".to_string(),
            "C".to_string(),
            "b".to_string(),
            "c".to_string(),
            "b".to_string(),
            "a".to_string(),
            "A".to_string(),
            "B".to_string(),
        ]
        .canonicalize_into()
    );
}

#[test]
fn empty_sequence_is_canonical() {
    let mut v: Vec<String> = Vec::new();
    assert!(v.is_canonical());
    v.canonicalize();
    assert!(v.is_empty());
    assert!(v.is_canonical());
}

#[test]
fn already_canonical_sequence_is_unchanged() {
    let mut v = strings(&["a", "b", "c"]);
    assert!(v.is_canonical());
    v.canonicalize();
    assert_eq!(v, strings(&["a", "b", "c"]));
}

#[test]
fn canonicalize_twice_equals_once() {
    let mut once = strings(&["zeta", "Alpha", "beta", "ALPHA", "Beta"]);
    once.canonicalize();
    let mut twice = once.clone();
    twice.canonicalize();
    assert_eq!(once, strings(&["alpha", "beta", "zeta"]));
    assert_eq!(twice, once);
}

#[test]
fn canonicalized_sequence_is_strictly_sorted() {
    let mut v = strings(&["d", "B", "c", "b", "A", "d"]);
    v.canonicalize();
    for pair in v.windows(2) {
        assert_eq!(pair[0].canonical_cmp(&pair[1]), Ordering::Less);
    }
    for i in 0..v.len() {
        for j in 0..v.len() {
            if i != j {
                assert_ne!(v[i].canonical_cmp(&v[j]), Ordering::Equal);
            }
        }
    }
}

#[test]
fn all_equal_elements_collapse_to_one() {
    let mut v = strings(&["X", "x", "X", "x"]);
    v.canonicalize();
    assert_eq!(v, strings(&["x"]));
}

#[test]
fn unsorted_or_duplicated_sequence_is_not_canonical() {
    assert!(!strings(&["b", "a"]).is_canonical());
    assert!(!strings(&["a", "a"]).is_canonical());
    assert!(!strings(&["a", "B"]).is_canonical());
    assert!(strings(&["a"]).is_canonical());
}

#[test]
fn strictly_sorted_check() {
    assert!(is_sorted_strictly_by::<String>(&[]));
    assert!(is_sorted_strictly_by(&strings(&["a"])));
    assert!(is_sorted_strictly_by(&strings(&["a", "ab", "b"])));
    assert!(!is_sorted_strictly_by(&strings(&["a", "a"])));
    assert!(!is_sorted_strictly_by(&strings(&["b", "a"])));
}

#[test]
fn text_order_is_by_code_point() {
    let a = "a".to_string();
    let b = "b".to_string();
    let upper = "Z".to_string();
    let ab = "ab".to_string();
    assert_eq!(a.canonical_cmp(&b), Ordering::Less);
    assert_eq!(b.canonical_cmp(&a), Ordering::Greater);
    assert_eq!(upper.canonical_cmp(&a), Ordering::Less);
    assert_eq!(a.canonical_cmp(&ab), Ordering::Less);
    assert_eq!(ab.canonical_cmp(&ab.clone()), Ordering::Equal);
    assert_eq!(a.canonical_dedup_cmp(&a.clone()), Ordering::Equal);
}

#[test]
fn text_canonicalize_lowers_ascii_letters() {
    let mut s = "MiXeD 42 É".to_string();
    assert!(!s.is_canonical());
    s.canonicalize();
    assert_eq!(s, "mixed 42 É");
    assert!(s.is_canonical());
    assert!("".is_canonical());
    assert!(!"aBc".is_canonical());
}

#[test]
fn optional_values() {
    let none: Option<String> = None;
    assert!(none.is_canonical());
    assert!(Some("abc".to_string()).is_canonical());
    assert!(!Some("Abc".to_string()).is_canonical());
    let mut opt = Some("ABC".to_string());
    opt.canonicalize();
    assert_eq!(opt, Some("abc".to_string()));
    let mut absent: Option<String> = None;
    absent.canonicalize();
    assert_eq!(absent, None);
}

#[test]
fn envelope_round_trip() {
    let sealed = Canonical::tie(strings(&["a", "b"]));
    assert!(sealed.is_canonical());
    let released = sealed.untie();
    assert_eq!(released, strings(&["a", "b"]));
    let resealed = Canonical::tie(released.clone());
    assert_eq!(resealed.as_ref(), &released);
}

#[test]
fn envelope_views() {
    let sealed = vec!["B".to_string(), "a".to_string()].canonicalize_into();
    let slice = sealed.as_canonical_slice();
    assert_eq!(slice.as_ref().len(), 2);
    assert!(slice.is_canonical());
    let by_ref = sealed.as_canonical_ref();
    assert_eq!(*by_ref.as_ref(), &strings(&["a", "b"]));
    let text = Canonical::tie_unchecked("hello".to_string());
    assert_eq!(*text.as_canonical_str().as_ref(), "hello");
    let empty: Canonical<Vec<String>> = Canonical::tie_unchecked(Vec::new());
    assert!(empty.as_ref().is_empty());
}

#[test]
fn canonicalize_into_text() {
    let sealed = "HeLLo".to_string().canonicalize_into();
    assert_eq!(sealed.untie(), "hello");
}

#[test]
fn borrowed_slices() {
    let mut v = strings(&["a", "b"]);
    let shared: &[String] = &v;
    assert!(IsCanonical::is_canonical(&shared));
    let exclusive: &mut [String] = &mut v;
    assert!(IsCanonical::is_canonical(&exclusive));
    let mut w = strings(&["b", "a"]);
    let exclusive: &mut [String] = &mut w;
    assert!(!IsCanonical::is_canonical(&exclusive));
}
