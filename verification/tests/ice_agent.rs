use rtc_core::ice::{Candidate, IceAgent, IceAgentStats, IceConnectionState};

/// Parse an "a.b.c.d:port" string into a host candidate.
fn host(s: &str) -> Candidate {
    let mut halves = s.split(':');
    let addr = halves.next().unwrap();
    let port: u16 = halves.next().unwrap().parse().unwrap();
    let mut ip: u32 = 0;
    for octet in addr.split('.') {
        let o: u32 = octet.parse().unwrap();
        ip = ip * 256 + o;
    }
    Candidate::host(ip, port)
}

fn progress(a: &mut IceAgent) {
    if let Some(t) = a.poll_timeout() {
        a.handle_timeout(t);
    }
}

#[test]
pub fn drop_host() {
    let mut a1 = IceAgent::new();
    let mut a2 = IceAgent::new();

    a1.set_controlling(true);
    a2.set_controlling(false);

    a1.add_local_candidate(host("1.1.1.1:9999")); // no traffic possible
    a2.add_local_candidate(host("2.2.2.2:1000"));

    // Candidates are exchanged, but no datagram is ever delivered.
    a1.add_remote_candidate(host("2.2.2.2:1000"));
    a2.add_remote_candidate(host("1.1.1.1:9999"));

    loop {
        if a1.state().is_disconnected() && a2.state().is_disconnected() {
            break;
        }
        progress(&mut a1);
        progress(&mut a2);
    }

    assert_eq!(
        a1.stats(),
        IceAgentStats {
            bind_request_sent: 9,
            bind_success_recv: 0,
            bind_request_recv: 0,
            discovered_recv_count: 0,
            nomination_send_count: 0,
        }
    );

    assert_eq!(
        a2.stats(),
        IceAgentStats {
            bind_request_sent: 9,
            bind_success_recv: 0,
            bind_request_recv: 0,
            discovered_recv_count: 0,
            nomination_send_count: 0,
        }
    );
}

#[test]
fn agent_connects_on_binding_success() {
    let mut a = IceAgent::new();
    a.set_controlling(true);
    a.add_local_candidate(host("10.0.0.1:4000"));
    a.add_remote_candidate(host("10.0.0.2:4000"));
    assert_eq!(a.state(), IceConnectionState::Checking);

    // First check goes out.
    progress(&mut a);
    assert_eq!(a.stats().bind_request_sent, 1);

    // Its answer arrives; the controlling side nominates.
    a.handle_binding_success(0);
    assert!(a.state().is_connected());
    assert_eq!(a.state(), IceConnectionState::Completed);
    assert_eq!(a.stats().bind_success_recv, 1);
    assert_eq!(a.stats().nomination_send_count, 1);
}

#[test]
fn role_conflict_goes_to_higher_tiebreaker() {
    let mut a = IceAgent::new();
    a.set_controlling(true);
    a.set_tiebreaker(500);
    a.add_local_candidate(host("10.0.0.1:4000"));
    a.add_remote_candidate(host("10.0.0.2:4000"));

    // The peer also claims the controlling role with a higher tiebreaker:
    // this side switches.
    a.handle_role_conflict(1000);
    assert!(!a.controlling());

    let mut b = IceAgent::new();
    b.set_controlling(true);
    b.set_tiebreaker(1000);
    b.add_local_candidate(host("10.0.0.2:4000"));
    b.handle_role_conflict(500);
    assert!(b.controlling());
}

#[test]
fn controlled_side_honors_nomination() {
    let mut a = IceAgent::new();
    a.set_controlling(false);
    a.add_local_candidate(host("10.0.0.1:4000"));
    a.add_remote_candidate(host("10.0.0.2:4000"));

    progress(&mut a); // our own check goes out
    a.handle_binding_success(0); // ... and succeeds; controlled: no nomination
    assert_eq!(a.state(), IceConnectionState::Checking);

    // A request without the nomination flag changes nothing but the counter.
    a.handle_binding_request(0, false);
    assert_eq!(a.state(), IceConnectionState::Checking);
    assert_eq!(a.stats().bind_request_recv, 1);

    // The peer nominates the pair; the controlled side honors it.
    a.handle_binding_request(0, true);
    assert_eq!(a.state(), IceConnectionState::Completed);
    assert_eq!(a.stats().bind_request_recv, 2);
    assert_eq!(a.stats().nomination_send_count, 0);
}

#[test]
fn agent_state_never_moves_backward() {
    let mut a = IceAgent::new();
    a.set_controlling(false);
    a.add_local_candidate(host("10.0.0.1:4000"));
    a.add_remote_candidate(host("10.0.0.2:4000"));

    let mut last_rank = 0;
    loop {
        let rank = match a.state() {
            IceConnectionState::New => 0,
            IceConnectionState::Checking => 1,
            IceConnectionState::Connected => 2,
            IceConnectionState::Completed => 3,
            IceConnectionState::Disconnected => 4,
        };
        assert!(rank >= last_rank);
        last_rank = rank;
        if a.state().is_disconnected() {
            break;
        }
        progress(&mut a);
    }
    assert_eq!(a.stats().bind_request_sent, 9);
}
