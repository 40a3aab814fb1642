use navitia_model::collection::{Collection, CollectionWithId, Idx, IdxSet};
use navitia_model::error::Error;
use navitia_model::objects::{Comment, Network, Transfer};

fn comment(id: &str, name: &str) -> Comment {
    Comment { id: id.to_string(), name: name.to_string() }
}

fn network(id: &str) -> Network {
    Network { id: id.to_string(), name: format!("network {}", id) }
}

fn ids(c: &CollectionWithId<Network>) -> Vec<String> {
    c.values().iter().map(|n| n.id.clone()).collect()
}

#[test]
fn push_on_collection() {
    let mut c = CollectionWithId::empty();
    c.push(comment("foo", "toto")).unwrap();
    assert!(c.push(comment("foo", "tata")).is_err());
    let id = c.get_idx("foo").unwrap();
    assert_eq!(id, c.iter()[0].0);
    assert_eq!(id.get(), 0);
    assert_eq!(c.index(id).name, "toto");
}

#[test]
fn inserted_entity_is_found_by_id_and_index() {
    let mut c = CollectionWithId::empty();
    let a = c.push(network("a")).unwrap();
    let b = c.push(network("b")).unwrap();
    assert_eq!(a.get(), 0);
    assert_eq!(b.get(), 1);
    assert_eq!(c.get("a"), Some(&network("a")));
    assert_eq!(c.get("b"), Some(&network("b")));
    let ib = c.get_idx("b").unwrap();
    assert_eq!(c.index(ib), &network("b"));
    assert_eq!(c.get("c"), None);
    assert!(c.get_idx("c").is_none());
}

#[test]
fn duplicate_push_leaves_collection_unchanged() {
    let mut c = CollectionWithId::empty();
    c.push(network("a")).unwrap();
    c.push(network("b")).unwrap();
    let dup = Network { id: "a".to_string(), name: "other".to_string() };
    assert_eq!(c.push(dup), Err(Error::DuplicateId("a".to_string())));
    assert_eq!(c.len(), 2);
    assert_eq!(c.get("a").unwrap().name, "network a");
    assert_eq!(ids(&c), vec!["a".to_string(), "b".to_string()]);
}

#[test]
fn new_rejects_duplicate_ids() {
    let ok = CollectionWithId::new(vec![network("a"), network("b")]).unwrap();
    assert_eq!(ok.len(), 2);
    let err = CollectionWithId::new(vec![network("a"), network("b"), network("a")]);
    assert_eq!(err.err(), Some(Error::DuplicateId("a".to_string())));
}

#[test]
fn merge_with_clash_fails_on_shared_id() {
    let mut y = CollectionWithId::new(vec![network("b"), network("c")]).unwrap();
    let x = CollectionWithId::new(vec![network("a"), network("b")]).unwrap();
    assert_eq!(y.merge(x), Err(Error::DuplicateId("b".to_string())));
    // "a" came before the clash and stays merged.
    assert_eq!(ids(&y), vec!["b".to_string(), "c".to_string(), "a".to_string()]);
}

#[test]
fn merge_disjoint_collections() {
    let mut y = CollectionWithId::new(vec![network("c"), network("d")]).unwrap();
    let x = CollectionWithId::new(vec![network("a"), network("b")]).unwrap();
    assert_eq!(y.merge(x), Ok(()));
    assert_eq!(y.len(), 4);
    for id in ["a", "b", "c", "d"] {
        assert!(y.get(id).is_some());
    }
    assert_eq!(ids(&y), vec!["c".to_string(), "d".to_string(), "a".to_string(), "b".to_string()]);
}

#[test]
fn empty_collection() {
    let c: CollectionWithId<Network> = CollectionWithId::empty();
    assert!(c.is_empty());
    assert_eq!(c.len(), 0);
    assert!(c.get("a").is_none());
    assert!(c.into_vec().is_empty());
}

#[test]
fn plain_collection_push_and_merge() {
    let t = |f: &str, to: &str| Transfer { from_stop_id: f.to_string(), to_stop_id: to.to_string(), min_transfer_time: None, real_min_transfer_time: None };
    let mut c = Collection::new(vec![t("a", "b")]);
    let i = c.push(t("b", "c"));
    assert_eq!(i.get(), 1);
    assert_eq!(c.index(i).from_stop_id, "b");
    c.merge(Collection::new(vec![t("a", "b")]));
    assert_eq!(c.len(), 3);
    assert!(!c.is_empty());
    assert_eq!(c.into_vec()[2], t("a", "b"));
}

#[test]
fn idx_set_deduplicates() {
    let mut s: IdxSet<Network> = IdxSet::new();
    assert!(s.insert(Idx::new(3)));
    assert!(s.insert(Idx::new(1)));
    assert!(!s.insert(Idx::new(3)));
    assert_eq!(s.len(), 2);
    assert!(s.contains(Idx::new(1)));
    assert!(!s.contains(Idx::new(2)));
    let v: Vec<usize> = s.to_vec().iter().map(|i| i.get()).collect();
    assert_eq!(v, vec![3, 1]);
}

#[test]
fn bulk_replace_with_prefixed_ids() {
    let mut c = CollectionWithId::new(vec![network("a"), network("b")]).unwrap();
    let items: Vec<Network> = c
        .take()
        .into_iter()
        .map(|mut n| {
            n.id = format!("my_prefix:{}", n.id);
            n
        })
        .collect();
    assert!(c.is_empty());
    c = CollectionWithId::new(items).unwrap();
    assert_eq!(ids(&c), vec!["my_prefix:a".to_string(), "my_prefix:b".to_string()]);
    assert!(c.get("a").is_none());
    let pairs = c.iter();
    assert_eq!(pairs.len(), 2);
    assert_eq!(pairs[1].0.get(), 1);
    assert_eq!(pairs[1].1.id, "my_prefix:b");
}
