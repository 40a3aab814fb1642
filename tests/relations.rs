use navitia_model::collection::{CollectionWithId, Idx, IdxSet};
use navitia_model::error::Error;
use navitia_model::objects::{Line, Network, StopPoint};
use navitia_model::relations::{ManyToMany, OneToMany};

fn network(id: &str) -> Network {
    Network { id: id.to_string(), name: id.to_string() }
}

fn line(id: &str, network_id: &str) -> Line {
    Line {
        id: id.to_string(),
        code: None,
        name: id.to_string(),
        network_id: network_id.to_string(),
        commercial_mode_id: "bus".to_string(),
    }
}

fn set<T>(items: &[usize]) -> IdxSet<T> {
    let mut s = IdxSet::new();
    for &i in items {
        s.insert(Idx::new(i));
    }
    s
}

fn sorted<T>(s: &IdxSet<T>) -> Vec<usize> {
    let mut v: Vec<usize> = s.to_vec().iter().map(|i| i.get()).collect();
    v.sort();
    v
}

#[test]
fn one_to_many_round_trip() {
    let networks = CollectionWithId::new(vec![network("n1"), network("n2"), network("n3")]).unwrap();
    let lines = CollectionWithId::new(vec![line("l1", "n1"), line("l2", "n2"), line("l3", "n1")]).unwrap();
    let rel = OneToMany::new(&networks, &lines, "networks_to_lines").unwrap();
    let r = rel.as_many_to_many();
    assert_eq!(r.left_len(), 3);
    assert_eq!(r.right_len(), 3);
    let fwd = r.get_corresponding_forward(&set::<Network>(&[0]));
    assert_eq!(sorted(&fwd), vec![0, 2]);
    let back = r.get_corresponding_backward(&fwd);
    assert_eq!(sorted(&back), vec![0]);
    // n3 has no line: the round trip does not bring it back.
    let fwd = r.get_corresponding_forward(&set::<Network>(&[1, 2]));
    assert_eq!(sorted(&fwd), vec![1]);
    assert_eq!(sorted(&r.get_corresponding_backward(&fwd)), vec![1]);
    // Each line leads back to its one network.
    assert_eq!(sorted(&r.get_corresponding_backward(&set::<Line>(&[2]))), vec![0]);
}

#[test]
fn one_to_many_dangling_key() {
    let networks = CollectionWithId::new(vec![network("n1")]).unwrap();
    let lines = CollectionWithId::new(vec![line("l1", "n1"), line("l2", "nope")]).unwrap();
    let err = OneToMany::new(&networks, &lines, "networks_to_lines").err().unwrap();
    assert_eq!(
        err,
        Error::ReferentialIntegrity { relation: "networks_to_lines".to_string(), id: "nope".to_string() }
    );
}

#[test]
fn empty_query_gives_empty_set() {
    let networks = CollectionWithId::new(vec![network("n1")]).unwrap();
    let lines = CollectionWithId::new(vec![line("l1", "n1")]).unwrap();
    let rel = OneToMany::new(&networks, &lines, "networks_to_lines").unwrap();
    assert_eq!(rel.as_many_to_many().get_corresponding_forward(&set::<Network>(&[])).len(), 0);
    // An index outside the relation relates to nothing.
    assert_eq!(rel.as_many_to_many().get_corresponding_forward(&set::<Network>(&[7])).len(), 0);
}

#[test]
fn chain_and_sink_composition() {
    // a0 -> m0, m1 ; a1 -> m2
    let r1: ManyToMany<Network, Line> = ManyToMany::from_forward(vec![set(&[0, 1]), set(&[2])], 3);
    // m0 -> b0 ; m1 -> b1, b2 ; m2 -> b2
    let r2: ManyToMany<Line, StopPoint> = ManyToMany::from_forward(vec![set(&[0]), set(&[1, 2]), set(&[2])], 3);
    let chain = ManyToMany::from_relations_chain(&r1, &r2);
    assert_eq!(sorted(&chain.get_corresponding_forward(&set(&[0]))), vec![0, 1, 2]);
    assert_eq!(sorted(&chain.get_corresponding_forward(&set(&[1]))), vec![2]);
    assert_eq!(sorted(&chain.get_corresponding_backward(&set(&[2]))), vec![0, 1]);

    // b0 -> m1 ; b1 -> m2
    let r3: ManyToMany<StopPoint, Line> = ManyToMany::from_forward(vec![set(&[1]), set(&[2])], 3);
    let sink = ManyToMany::from_relations_sink(&r1, &r3);
    assert_eq!(sorted(&sink.get_corresponding_forward(&set(&[0]))), vec![0]);
    assert_eq!(sorted(&sink.get_corresponding_forward(&set(&[1]))), vec![1]);
    assert_eq!(sorted(&sink.get_corresponding_backward(&set(&[0, 1]))), vec![0, 1]);
}
