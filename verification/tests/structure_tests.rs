use tausplit::indexed_vec::{Idx, IndexedVec};
use tausplit::listener::{MaxListener, MinListener};
use tausplit::prod_events::ProdEvents;
use tausplit::reaction::Reaction;
use tausplit::reaction_graph::ReactionGraph;
use tausplit::Algorithm;
use tausplit::DEFAULT_SEED;

struct Marker;

#[test]
fn indexed_vec_push_and_get() {
    let mut v: IndexedVec<Marker, u32> = IndexedVec::new();
    let a = v.push(10);
    let b = v.push(20);
    assert_eq!(v.len(), 2);
    assert!(v.contains_key(a));
    assert!(v.contains_key(b));
    assert!(!v.contains_key(Idx::new(2)));
    assert_eq!(*v.get(a), 10);
    assert_eq!(*v.get(b), 20);
    assert_eq!(v.iter(), &vec![10, 20]);
}

#[test]
fn indexed_vec_swap_and_pop() {
    let mut v: IndexedVec<Marker, u32> = IndexedVec::new();
    let a = v.push(1);
    let b = v.push(2);
    v.push(3);
    v.swap(a, b);
    assert_eq!(*v.get(a), 2);
    assert_eq!(*v.get(b), 1);
    assert_eq!(v.pop(), Some(3));
    assert_eq!(v.pop(), Some(1));
    assert_eq!(v.pop(), Some(2));
    assert_eq!(v.pop(), None);
}

#[test]
fn idx_equality_is_by_index() {
    let a: Idx<Marker> = Idx::new(4);
    let b: Idx<Marker> = Idx::new(4);
    let c: Idx<Marker> = Idx::new(5);
    assert!(a == b);
    assert!(a != c);
}

#[test]
fn prod_events_zero() {
    let z = ProdEvents::zero();
    assert_eq!(z.product, 0);
    assert_eq!(z.events, 0);
    let p = ProdEvents::new(3, 1);
    assert!(z < p);
}

#[test]
fn reaction_graph_membership() {
    // 0: A -> B,  1: B -> C.
    let reactions = vec![
        Reaction::new(vec![(0, 1)], vec![(0, -1), (1, 1)]),
        Reaction::new(vec![(1, 1)], vec![(1, -1), (2, 1)]),
    ];
    let state = vec![1i64, 1, 1];
    let g = ReactionGraph::from_reactions(&state, &reactions);
    assert_eq!(g.have_input(0), &vec![0]);
    assert_eq!(g.have_input(1), &vec![1]);
    assert_eq!(g.have_input(2), &Vec::<usize>::new());
    assert_eq!(g.have_output(0), &vec![0]);
    assert_eq!(g.have_output(1), &vec![0, 1]);
    assert_eq!(g.have_output(2), &vec![1]);
}

#[test]
fn max_listener_pops_in_key_order() {
    let mut l = MaxListener::new();
    l.push(5, (0, 0, 1));
    l.push(3, (1, 0, 1));
    l.push(9, (2, 0, 1));
    assert_eq!(l.len(), 3);
    let (k, d) = l.pop_if_larger_than(4).unwrap();
    assert_eq!((k, d.0), (9, 2));
    let (k, d) = l.pop_if_larger_than(4).unwrap();
    assert_eq!((k, d.0), (5, 0));
    assert_eq!(l.pop_if_larger_than(4), None);
    assert_eq!(l.len(), 1);
}

#[test]
fn min_listener_pops_in_key_order() {
    let mut l = MinListener::new();
    l.push(5, (0, 0, 1));
    l.push(3, (1, 0, 1));
    l.push(9, (2, 0, 1));
    let (k, d) = l.pop_if_smaller_than(4).unwrap();
    // The stored key is the negation of the pushed key 3.
    assert_eq!((k, d.0), (-3, 1));
    assert_eq!(l.pop_if_smaller_than(4), None);
    assert_eq!(l.len(), 2);
}

#[test]
fn listeners_retain_current_entries() {
    let mut l = MaxListener::new();
    // Entries of reactions 0 and 1; reaction 0's listener was registered
    // by the node with id 7, reaction 1's by the node with id 9.
    l.push(10, (0, 2, 7));
    l.push(20, (1, 3, 9));
    l.push(30, (0, 4, 8));
    let last = vec![(2usize, 7usize), (3usize, 9usize)];
    l.retain_current(&last);
    assert_eq!(l.len(), 2);
    let (k, d) = l.pop_if_larger_than(i64::MIN + 1).unwrap();
    assert_eq!((k, d.0, d.2), (20, 1, 9));
    let (k, d) = l.pop_if_larger_than(i64::MIN + 1).unwrap();
    assert_eq!((k, d.0, d.2), (10, 0, 7));
    assert_eq!(l.len(), 0);
}

#[test]
fn algorithm_variants_exist() {
    let _ = Algorithm::Gillespie;
    let _ = Algorithm::TauSplit;
    let _ = Algorithm::TauSplit6;
    assert_eq!(DEFAULT_SEED, 0x123456789abcdef);
}
