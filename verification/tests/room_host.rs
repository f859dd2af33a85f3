use bear_island::room_host::{
    after_bind_attempt, first_candidate_port, parse_port_line, port_line, BindDecision,
    FIRST_ROOM_PORT, ROOM_PORT_END,
};

#[test]
fn search_starts_at_first_room_port() {
    assert_eq!(first_candidate_port(), 27016);
    assert_eq!(FIRST_ROOM_PORT, 27016);
    assert_eq!(ROOM_PORT_END, 27115);
}

#[test]
fn search_keeps_first_port_that_binds() {
    assert_eq!(after_bind_attempt(27016, true), BindDecision::Bound(27016));
    assert_eq!(after_bind_attempt(27100, true), BindDecision::Bound(27100));
}

#[test]
fn search_moves_on_after_failure() {
    assert_eq!(after_bind_attempt(27016, false), BindDecision::TryPort(27017));
    assert_eq!(after_bind_attempt(27113, false), BindDecision::TryPort(27114));
}

#[test]
fn search_gives_up_after_last_port() {
    assert_eq!(after_bind_attempt(27114, false), BindDecision::GiveUp);
    assert_eq!(after_bind_attempt(27114, true), BindDecision::Bound(27114));
}

#[test]
fn search_visits_every_port_once_in_order() {
    let mut tried = Vec::new();
    let mut port = first_candidate_port();
    loop {
        tried.push(port);
        match after_bind_attempt(port, false) {
            BindDecision::TryPort(next) => port = next,
            BindDecision::GiveUp => break,
            BindDecision::Bound(_) => unreachable!(),
        }
    }
    let expected: Vec<u16> = (27016..27115).collect();
    assert_eq!(tried, expected);
}

#[test]
fn port_line_of_bound_port() {
    assert_eq!(port_line(Some(27016)), "27016\n");
    assert_eq!(port_line(Some(0)), "0\n");
    assert_eq!(port_line(Some(65535)), "65535\n");
    assert_eq!(port_line(Some(7)), "7\n");
}

#[test]
fn port_line_without_port() {
    assert_eq!(port_line(None), "\n");
}

#[test]
fn port_line_matches_formatting() {
    for p in [1u16, 9, 10, 99, 100, 1234, 27114, 40000] {
        assert_eq!(port_line(Some(p)), format!("{}\n", p));
    }
}

#[test]
fn parse_port_line_reads_trimmed_port() {
    assert_eq!(parse_port_line("27016\n"), Some(27016));
    assert_eq!(parse_port_line("  27020 \r\n"), Some(27020));
    assert_eq!(parse_port_line("\u{a0}27021\u{3000}"), Some(27021));
    assert_eq!(parse_port_line("0"), Some(0));
    assert_eq!(parse_port_line("000027016"), Some(27016));
    assert_eq!(parse_port_line("65535"), Some(65535));
}

#[test]
fn parse_port_line_rejects_bad_lines() {
    assert_eq!(parse_port_line("\n"), None);
    assert_eq!(parse_port_line(""), None);
    assert_eq!(parse_port_line("65536"), None);
    assert_eq!(parse_port_line("100000"), None);
    assert_eq!(parse_port_line("+27016"), None);
    assert_eq!(parse_port_line("27 016"), None);
    assert_eq!(parse_port_line("27016x"), None);
    assert_eq!(parse_port_line("-1"), None);
}

#[test]
fn parse_port_line_takes_leading_zeros_and_tabs() {
    assert_eq!(parse_port_line("00000000000000000080"), Some(80));
    assert_eq!(parse_port_line("8080\t"), Some(8080));
    assert_eq!(parse_port_line(" 12 "), Some(12));
    assert_eq!(parse_port_line("1_0"), None);
    assert_eq!(parse_port_line("+5"), None);
}

#[test]
fn port_line_round_trip() {
    for p in [0u16, 5, 27016, 27114, 65535] {
        assert_eq!(parse_port_line(&port_line(Some(p))), Some(p));
    }
    assert_eq!(parse_port_line(&port_line(None)), None);
}
