use scow::consensus::{
    election_timeout_from, PeerAddr, ServerId, ServerState, TermState, TickAction, ELECTION_TIMEOUT_MS,
    HEARTBEAT_INTERVAL_MS,
};

fn id(n: u32) -> ServerId {
    ServerId { id: n, address: PeerAddr::V4 { ip: 0x7f00_0001, port: 9990 + n as u16 } }
}

fn three_node_state() -> TermState {
    let mut t = TermState::new(id(0), ELECTION_TIMEOUT_MS);
    assert!(t.add_server(id(1)));
    assert!(t.add_server(id(2)));
    t
}

#[test]
fn new_state_is_a_follower_in_term_zero() {
    let t = TermState::new(id(0), ELECTION_TIMEOUT_MS);
    assert_eq!(t.current_term, 0);
    assert_eq!(t.server_state, ServerState::Follower);
    assert_eq!(t.leader, None);
    assert_eq!(t.voted_for, None);
    assert_eq!(t.heartbeat_interval, HEARTBEAT_INTERVAL_MS);
    assert_eq!(t.election_timeout, 250);
    assert_eq!(t.servers, vec![id(0)]);
}

#[test]
fn add_server_ignores_known_members() {
    let mut t = three_node_state();
    assert!(!t.add_server(id(1)));
    assert_eq!(t.servers.len(), 3);
}

#[test]
fn tick_within_timeout_waits() {
    let mut t = three_node_state();
    assert_eq!(t.on_tick(250), TickAction::Wait);
    assert_eq!(t.current_term, 0);
    assert_eq!(t.server_state, ServerState::Follower);
}

#[test]
fn tick_after_timeout_starts_an_election() {
    let mut t = three_node_state();
    assert_eq!(t.on_tick(251), TickAction::RequestVotes);
    assert_eq!(t.current_term, 1);
    assert_eq!(t.server_state, ServerState::Candidate);
    assert_eq!(t.voted_for, Some(id(0)));
    assert_eq!(t.votes, vec![id(0)]);
}

#[test]
fn lone_server_leads_at_once() {
    let mut t = TermState::new(id(0), ELECTION_TIMEOUT_MS);
    assert_eq!(t.on_tick(1000), TickAction::SendHeartbeats);
    assert_eq!(t.server_state, ServerState::Leader);
    assert_eq!(t.leader, Some(id(0)));
    assert_eq!(t.on_tick(2000), TickAction::SendHeartbeats);
    assert_eq!(t.current_term, 1);
}

#[test]
fn majority_of_votes_elects_the_candidate() {
    let mut t = three_node_state();
    t.on_tick(1000);
    t.on_vote(1, id(1), false);
    assert_eq!(t.server_state, ServerState::Candidate);
    t.on_vote(1, id(0), true);
    assert_eq!(t.votes.len(), 1);
    t.on_vote(1, id(1), true);
    assert_eq!(t.server_state, ServerState::Leader);
    assert_eq!(t.leader, Some(id(0)));
}

#[test]
fn votes_from_strangers_or_old_terms_do_not_count() {
    let mut t = three_node_state();
    t.on_tick(1000);
    t.on_vote(1, id(9), true);
    t.on_vote(0, id(1), true);
    assert_eq!(t.server_state, ServerState::Candidate);
    assert_eq!(t.votes, vec![id(0)]);
}

#[test]
fn higher_term_in_a_vote_reply_makes_a_follower() {
    let mut t = three_node_state();
    t.on_tick(1000);
    t.on_vote(5, id(1), false);
    assert_eq!(t.current_term, 5);
    assert_eq!(t.server_state, ServerState::Follower);
    assert_eq!(t.voted_for, None);
}

#[test]
fn one_vote_per_term() {
    let mut t = three_node_state();
    assert!(t.on_vote_request(1, id(1)));
    assert_eq!(t.current_term, 1);
    assert_eq!(t.voted_for, Some(id(1)));
    assert!(!t.on_vote_request(1, id(2)));
    assert_eq!(t.voted_for, Some(id(1)));
    assert!(!t.on_vote_request(0, id(2)));
    assert!(t.on_vote_request(2, id(2)));
    assert_eq!(t.voted_for, Some(id(2)));
}

#[test]
fn candidate_refuses_a_rival_in_its_term() {
    let mut t = three_node_state();
    t.on_tick(1000);
    assert!(!t.on_vote_request(1, id(1)));
    assert_eq!(t.server_state, ServerState::Candidate);
}

#[test]
fn heartbeat_resets_the_timer_and_names_the_leader() {
    let mut t = three_node_state();
    t.on_tick(1000);
    assert!(t.on_heartbeat(1, id(2), 1200));
    assert_eq!(t.server_state, ServerState::Follower);
    assert_eq!(t.leader, Some(id(2)));
    assert_eq!(t.last_heartbeat, 1200);
    assert_eq!(t.on_tick(1400), TickAction::Wait);
    assert!(!t.on_heartbeat(0, id(1), 1500));
    assert_eq!(t.leader, Some(id(2)));
}

#[test]
fn leader_steps_down_on_higher_term() {
    let mut t = TermState::new(id(0), ELECTION_TIMEOUT_MS);
    t.on_tick(1000);
    assert_eq!(t.server_state, ServerState::Leader);
    assert!(t.on_heartbeat(4, id(3), 2000));
    assert_eq!(t.server_state, ServerState::Follower);
    assert_eq!(t.current_term, 4);
}

#[test]
fn election_timeouts_spread_over_150_to_300_ms() {
    assert_eq!(election_timeout_from(0), 150);
    assert_eq!(election_timeout_from(150), 300);
    assert_eq!(election_timeout_from(151), 150);
    assert_eq!(election_timeout_from(1000), 150 + 1000 % 151);
    assert_eq!(election_timeout_from(u64::MAX), 150 + u64::MAX % 151);
}
