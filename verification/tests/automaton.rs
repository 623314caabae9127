use mc_cauldron_brew::FungalAutomaton;

// 14627 is 0b011_1001_0010_0011: cell 14 is clear, cell 13 is set. With
// true circular-modulo indexing, index -1 wraps to cell 14 and index -2 to
// cell 13.
#[test]
fn negative_overflow_is_correct() {
    assert_eq!(FungalAutomaton::new(14627).at(-1), false, "index -1");
    assert_eq!(FungalAutomaton::new(14627).at(-2), true, "index -2");
}

#[test]
fn positive_overflow_is_correct() {
    assert_eq!(FungalAutomaton::new(14627).at(13 + 1), false, "index 13+1");
    assert_eq!(FungalAutomaton::new(14627).at(13 + 2), true, "index 13+2");
}

#[test]
fn conversion_round_trips() {
    for v in [0u16, 1, 14627, 31011, 32767] {
        assert_eq!(FungalAutomaton::new(v).as_u16(), v);
    }
}

#[test]
fn cells_are_bits() {
    let a = FungalAutomaton::new(0b101);
    assert!(a.at(0));
    assert!(!a.at(1));
    assert!(a.at(2));
    assert!(!a.at(3));
    assert!(a.at(15)); // wraps to cell 0
    assert!(a.at(17)); // wraps to cell 2
    assert!(!a.at(-1)); // wraps to cell 14
    assert!(a.at(-15)); // wraps to cell 0
    assert!(a.at(-13)); // wraps to cell 2
}

#[test]
fn all_clear_generation_is_a_fixed_point() {
    let a = FungalAutomaton::new(0);
    assert_eq!(a.next().as_u16(), 0);
}

// Every one of the 32768 possible starting generations reaches a fixed
// point; the greatest number of generations needed is recorded below.
#[test]
fn every_generation_converges() {
    let mut max_generations: u32 = 0;
    for v in 0u16..32768 {
        let mut current = FungalAutomaton::new(v);
        let mut generations: u32 = 0;
        loop {
            let next = current.next();
            if next.as_u16() == current.as_u16() {
                break;
            }
            current = next;
            generations += 1;
            assert!(generations < 1000, "no fixed point from {}", v);
        }
        if generations > max_generations {
            max_generations = generations;
        }
    }
    assert_eq!(max_generations, 13);
}
