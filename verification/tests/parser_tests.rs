use tausplit::parsers::{
    decimal, parse_line, parse_reactant, parse_reaction, parse_reaction_item, Line, ParseState,
};

fn bytes(s: &str) -> Vec<u8> {
    s.as_bytes().to_vec()
}

#[test]
fn decimal_reads_a_digit_run() {
    assert_eq!(decimal(&bytes("123x"), 0), Some((123, 3)));
    assert_eq!(decimal(&bytes("007"), 0), Some((7, 3)));
    assert_eq!(decimal(&bytes("abc"), 0), None);
    assert_eq!(decimal(&bytes(""), 0), None);
    assert_eq!(decimal(&bytes("a42"), 1), Some((42, 3)));
}

#[test]
fn decimal_refuses_an_overflowing_run() {
    assert_eq!(decimal(&bytes("18446744073709551615"), 0), Some((u64::MAX, 20)));
    assert_eq!(decimal(&bytes("18446744073709551616"), 0), None);
    assert_eq!(decimal(&bytes("99999999999999999999"), 0), None);
}

#[test]
fn reactant_declarations() {
    let r = parse_reactant(&bytes("A = 5")).unwrap();
    assert_eq!(r.0, bytes("A"));
    assert_eq!(r.1, 5);
    let r = parse_reactant(&bytes("AB12=7")).unwrap();
    assert_eq!(r.0, bytes("AB12"));
    assert_eq!(r.1, 7);
    assert!(parse_reactant(&bytes("= 5")).is_none());
    assert!(parse_reactant(&bytes("A + B -> C, 1")).is_none());
    assert!(parse_reactant(&bytes("A = x")).is_none());
}

#[test]
fn reaction_items() {
    let (count, name, end) = parse_reaction_item(&bytes("2A + B"), 0).unwrap();
    assert_eq!((count, name, end), (2, bytes("2A")[1..].to_vec(), 2));
    let (count, name, end) = parse_reaction_item(&bytes("Bxy"), 0).unwrap();
    assert_eq!((count, name.clone(), end), (1, bytes("Bxy"), 3));
    assert!(parse_reaction_item(&bytes(" A"), 0).is_none());
}

#[test]
fn reaction_lines() {
    let r = parse_reaction(&bytes("2A + B -> 3C, 3.5e-9")).unwrap();
    assert_eq!(r.inputs.len(), 2);
    assert_eq!(r.inputs[0], (bytes("A"), 2));
    assert_eq!(r.inputs[1], (bytes("B"), 1));
    assert_eq!(r.outputs.len(), 1);
    assert_eq!(r.outputs[0], (bytes("C"), 3));
    assert_eq!(r.rate, bytes("3.5e-9"));

    // A synthesis reaction has an empty left side.
    let r = parse_reaction(&bytes("-> A, 10")).unwrap();
    assert_eq!(r.inputs.len(), 0);
    assert_eq!(r.outputs[0], (bytes("A"), 1));
    assert_eq!(r.rate, bytes("10"));

    // A decay reaction has an empty right side.
    let r = parse_reaction(&bytes("A -> , 0.5")).unwrap();
    assert_eq!(r.inputs[0], (bytes("A"), 1));
    assert_eq!(r.outputs.len(), 0);
    assert_eq!(r.rate, bytes("0.5"));

    assert!(parse_reaction(&bytes("A -> B")).is_none());
    assert!(parse_reaction(&bytes("A -> B, x")).is_none());
}

#[test]
fn line_priority() {
    assert!(matches!(parse_line(&bytes("A = 5")), Some(Line::Reactant(_))));
    assert!(matches!(parse_line(&bytes("A -> B, 1")), Some(Line::Reaction(_))));
    assert!(parse_line(&bytes("!?")).is_none());
}

#[test]
fn parse_state_collects_a_network() {
    let mut state = ParseState::new();
    assert!(state.parse_data_line(&bytes("# a comment")));
    assert!(state.parse_data_line(&bytes("")));
    assert!(state.parse_data_line(&bytes("A = 5")));
    assert!(state.parse_data_line(&bytes("B = 0")));
    assert!(state.parse_data_line(&bytes("A -> B, 1.0")));
    assert!(!state.parse_data_line(&bytes("!?")));

    let net = state.get_network().unwrap();
    assert_eq!(net.reactant_names, vec![bytes("A"), bytes("B")]);
    assert_eq!(net.initial_state, vec![5, 0]);
    assert_eq!(net.reactions.len(), 1);
    assert_eq!(net.rates, vec![bytes("1.0")]);
    let r = &net.reactions[0];
    assert_eq!(r.inputs, vec![(0, 1)]);
    assert_eq!(r.stoichiometry, vec![(0, -1), (1, 1)]);
    assert_eq!(r.negative_stoichiometry, vec![(0, -1)]);
    assert_eq!(r.positive_stoichiometry, vec![(1, 1)]);
}

#[test]
fn redeclaration_overwrites_the_amount() {
    let mut state = ParseState::new();
    assert!(state.parse_data_line(&bytes("A = 5")));
    assert!(state.parse_data_line(&bytes("A = 9")));
    let net = state.get_network().unwrap();
    assert_eq!(net.initial_state, vec![9]);
}

#[test]
fn undefined_species_is_a_hard_error() {
    let mut state = ParseState::new();
    assert!(state.parse_data_line(&bytes("A = 5")));
    assert!(state.parse_data_line(&bytes("A -> B, 1.0")));
    assert!(state.get_network().is_none());
}

#[test]
fn merged_and_netted_stoichiometry() {
    // A + A -> 2A nets to nothing; the inputs merge to one pair.
    let mut state = ParseState::new();
    assert!(state.parse_data_line(&bytes("A = 50")));
    assert!(state.parse_data_line(&bytes("A + A -> 2A, 0.1")));
    let net = state.get_network().unwrap();
    let r = &net.reactions[0];
    assert_eq!(r.inputs, vec![(0, 2)]);
    assert_eq!(r.stoichiometry, Vec::<(usize, i64)>::new());

    // 2A -> B consumes two A.
    let mut state = ParseState::new();
    assert!(state.parse_data_line(&bytes("A = 50")));
    assert!(state.parse_data_line(&bytes("B = 0")));
    assert!(state.parse_data_line(&bytes("2A -> B, 0.1")));
    let net = state.get_network().unwrap();
    let r = &net.reactions[0];
    assert_eq!(r.inputs, vec![(0, 2)]);
    assert_eq!(r.stoichiometry, vec![(0, -2), (1, 1)]);
}
