use fsmentry::example::{State, StateEntry};

#[test]
fn example_walks_every_kind_of_vertex() {
    let mut target = 7u32;
    let mut state: State<u32> = State::SourceWithData(&mut target);
    match state.entry() {
        StateEntry::SourceWithData(mut h) => {
            assert_eq!(**h.as_ref(), 7);
            **h.as_mut() = 8;
            let back = h.to_non_terminal_with_data(vec![1, 2]);
            assert_eq!(*back, 8);
        }
        _ => panic!("expected the source with data"),
    }
    match state.entry() {
        StateEntry::NonTerminalWithData(mut h) => {
            h.as_mut().push(3);
            assert_eq!(h.as_ref(), &vec![1, 2, 3]);
            let old = h.sink_with_data('z');
            assert_eq!(old, vec![1, 2, 3]);
        }
        _ => panic!("expected the non-terminal with data"),
    }
    match state.entry() {
        StateEntry::SinkWithData(c) => {
            assert_eq!(*c, 'z');
            *c = 'y';
        }
        _ => panic!("expected the sink with data"),
    }
    assert!(matches!(state, State::SinkWithData('y')));
    assert_eq!(target, 8);
}

#[test]
fn example_empty_transitions() {
    let mut state: State<u32> = State::SourceEmpty;
    match state.entry() {
        StateEntry::SourceEmpty(h) => h.non_terminal_empty(),
        _ => panic!("expected the empty source"),
    }
    match state.entry() {
        StateEntry::NonTerminalEmpty(h) => h.sink_empty(),
        _ => panic!("expected the empty non-terminal"),
    }
    assert!(matches!(state.entry(), StateEntry::SinkEmpty));
    let mut state: State<u32> = State::SourceEmpty;
    match state.entry() {
        StateEntry::SourceEmpty(h) => h.non_terminal_with_data(vec![9]),
        _ => panic!("expected the empty source"),
    }
    assert!(matches!(state, State::NonTerminalWithData(ref v) if v == &vec![9]));
    let mut iso: State<u32> = State::IsolatedWithData(String::from("x"));
    match iso.entry() {
        StateEntry::IsolatedWithData(s) => s.push('y'),
        _ => panic!("expected the isolated vertex"),
    }
    assert!(matches!(iso, State::IsolatedWithData(ref s) if s == "xy"));
    let mut iso: State<u32> = State::IsolatedEmpty;
    assert!(matches!(iso.entry(), StateEntry::IsolatedEmpty));
}
