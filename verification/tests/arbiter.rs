use macro_deck::arbiter::{Arbiter, Holder};

#[test]
fn at_first_nobody_holds_the_port() {
    let arbiter = Arbiter::new();
    assert_eq!(arbiter.holder, Holder::Nobody);
    assert!(!arbiter.wanted);
}

#[test]
fn the_reader_reads_while_nobody_asks() {
    let mut arbiter = Arbiter::new();
    assert!(arbiter.reader_turn());
    assert_eq!(arbiter.holder, Holder::Reader);
    assert!(arbiter.reader_turn());
    assert_eq!(arbiter.holder, Holder::Reader);
}

#[test]
fn a_caller_waits_while_the_reader_holds_the_port() {
    let mut arbiter = Arbiter::new();
    assert!(arbiter.reader_turn());
    arbiter.request();
    assert!(!arbiter.acquire());
    assert!(arbiter.wanted);
    assert_eq!(arbiter.holder, Holder::Reader);
}

#[test]
fn the_reader_gives_way_to_a_caller_that_has_asked() {
    let mut arbiter = Arbiter::new();
    assert!(arbiter.reader_turn());
    arbiter.request();
    assert!(!arbiter.reader_turn());
    assert_eq!(arbiter.holder, Holder::Nobody);
    assert!(!arbiter.wanted);
    assert!(arbiter.acquire());
    assert_eq!(arbiter.holder, Holder::Caller);
}

#[test]
fn nobody_gets_the_port_while_a_caller_holds_it() {
    let mut arbiter = Arbiter::new();
    arbiter.request();
    assert!(arbiter.acquire());
    for _ in 0..3 {
        assert!(!arbiter.reader_turn());
        arbiter.request();
        assert!(!arbiter.acquire());
        assert_eq!(arbiter.holder, Holder::Caller);
    }
}

#[test]
fn the_reader_comes_back_after_the_exchange() {
    let mut arbiter = Arbiter::new();
    arbiter.request();
    assert!(arbiter.acquire());
    assert!(!arbiter.reader_turn());
    arbiter.release();
    assert_eq!(arbiter.holder, Holder::Nobody);
    assert!(arbiter.reader_turn());
    assert_eq!(arbiter.holder, Holder::Reader);
}

#[test]
fn a_second_caller_gets_the_port_after_the_first() {
    let mut arbiter = Arbiter::new();
    arbiter.request();
    assert!(arbiter.acquire());
    arbiter.request();
    assert!(!arbiter.acquire());
    arbiter.release();
    assert!(!arbiter.reader_turn());
    assert!(arbiter.acquire());
    arbiter.release();
    assert!(arbiter.reader_turn());
}

#[test]
fn giving_back_what_is_not_held_changes_nothing() {
    let mut arbiter = Arbiter::new();
    assert!(arbiter.reader_turn());
    arbiter.release();
    assert_eq!(arbiter.holder, Holder::Reader);
}
