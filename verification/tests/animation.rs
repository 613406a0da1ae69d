use fractals::animation::AnimationState;

#[test]
fn forty_segments_are_all_revealed_after_forty_five_ticks() {
    let mut state = AnimationState::new(40, Vec::new());
    assert_eq!(state.reveal_index, 0);
    for _ in 0..45 {
        state.tick(0);
    }
    assert_eq!(state.reveal_index, 40);
    assert_eq!(state.total_segments, 40);
}

#[test]
fn each_tick_reveals_one_segment() {
    let mut state = AnimationState::new(5, Vec::new());
    let mut seen = Vec::new();
    for _ in 0..8 {
        state.tick(1 << 20);
        seen.push(state.reveal_index);
    }
    assert_eq!(seen, vec![1, 2, 3, 4, 5, 5, 5, 5]);
}

#[test]
fn nothing_to_reveal_stays_at_zero() {
    let mut state = AnimationState::new(0, Vec::new());
    state.tick(0);
    state.tick(0);
    assert_eq!(state.reveal_index, 0);
}

#[test]
fn an_index_beyond_the_total_is_brought_back() {
    let mut state = AnimationState { reveal_index: usize::MAX, total_segments: 7, branches: Vec::new() };
    state.tick(0);
    assert_eq!(state.reveal_index, 7);
}

#[test]
fn tick_does_not_depend_on_the_time_step() {
    let mut a = AnimationState::new(10, Vec::new());
    let mut b = AnimationState::new(10, Vec::new());
    for _ in 0..4 {
        a.tick(1);
        b.tick(i64::MAX);
    }
    assert_eq!(a.reveal_index, b.reveal_index);
}
