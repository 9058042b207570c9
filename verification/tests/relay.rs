use relayer_game::relay::Module;
use relayer_game::settlement::Verdict;
use relayer_game::types::{Error, EthHeader, Event, Instruction};

fn header(lie: u32, block_height: u32) -> EthHeader {
    EthHeader { lie, block_height }
}

#[test]
fn test_set_last_comfirm_header() {
    let mut relay = Module::new();
    assert_eq!(
        relay.set_last_comfirm_header(1, EthHeader { lie: 0, block_height: 1 }),
        Ok(Event::UpdateLastConfirmedBlock(1, 1))
    );
    let is_header = relay.last_comfirm_header();
    assert!(is_header.is_some());
    let header = is_header.unwrap();
    assert_eq!(header, EthHeader { lie: 0, block_height: 1 });
}

#[test]
fn test_rehect_set_lie_last_comfirm_header() {
    let mut relay = Module::new();
    assert_eq!(
        relay.set_last_comfirm_header(1, EthHeader { lie: 1, block_height: 1 }),
        Err(Error::HeaderInvalid)
    );
    let is_header = relay.last_comfirm_header();
    assert!(is_header.is_none());
}

#[test]
fn test_submission_take_over_should_follow_sample() {
    let mut relay = Module::new();
    assert!(relay.submit(1, vec![EthHeader { lie: 1, block_height: 1000 }], 1).is_ok());

    // Do challenge with header
    assert!(relay.submit(2, vec![EthHeader { lie: 0, block_height: 1000 }], 1).is_ok());

    let samples_before = relay.get_samples(1000);
    let claims_before = relay.proposal_map(1000);
    let timers_before = relay.challenge_time(51);
    assert_eq!(
        relay.submit(
            2,
            vec![
                EthHeader { lie: 0, block_height: 1000 },
                EthHeader { lie: 0, block_height: 500 }
            ],
            1
        ),
        Err(Error::NotComplyWithSamples)
    );
    assert_eq!(relay.get_samples(1000), samples_before);
    assert_eq!(relay.proposal_map(1000), claims_before);
    assert!(relay.proposal_map(500).is_empty());
    assert_eq!(relay.challenge_time(51), timers_before);

    // simulate over challenge time and the sample set extends
    relay.set_samples(&vec![1000, 500]);

    assert!(relay
        .submit(
            2,
            vec![
                EthHeader { lie: 0, block_height: 1000 },
                EthHeader { lie: 0, block_height: 500 }
            ],
            1
        )
        .is_ok());
}

#[test]
fn test_current_submit_round_calculation() {
    assert!(Module::get_current_round_from_submit_length(1) == 1);
    assert!(Module::get_current_round_from_submit_length(2) == 2u32);
    assert!(Module::get_current_round_from_submit_length(4) == 3u32);
    assert!(Module::get_current_round_from_submit_length(8) == 4u32);
    assert!(Module::get_current_round_from_submit_length(16) == 5u32);
}

#[test]
fn round_between_powers_of_two() {
    assert_eq!(Module::get_current_round_from_submit_length(3), 3);
    assert_eq!(Module::get_current_round_from_submit_length(5), 4);
    assert_eq!(Module::get_current_round_from_submit_length(7), 4);
    assert_eq!(Module::get_current_round_from_submit_length(9), 5);
    assert_eq!(Module::get_current_round_from_submit_length(17), 6);
    assert_eq!(Module::get_current_round_from_submit_length(usize::MAX), 65);
}

#[test]
fn empty_submission_is_invalid() {
    let mut relay = Module::new();
    assert_eq!(relay.submit(1, vec![], 1), Err(Error::HeaderInvalid));
    assert!(relay.challenge_time(51).is_empty());
}

#[test]
fn first_round_opens_the_game() {
    let mut relay = Module::new();
    assert!(relay.get_samples(1000).is_empty());
    assert_eq!(relay.submit(7, vec![header(1, 1000)], 10), Ok(Event::SubmitHeaders(1000, 1000, 1)));
    assert_eq!(relay.get_samples(1000), vec![1000]);
    assert_eq!(relay.challenge_time(60), vec![(1000, 1)]);
    let claims = relay.proposal_map(1000);
    assert_eq!(claims.len(), 1);
    assert_eq!(claims[0].headers, vec![header(1, 1000)]);
    assert_eq!(claims[0].round, 1);
    assert_eq!(claims[0].relayer, 7);
    assert_eq!(claims[0].extend_from, None);
}

#[test]
fn second_claim_of_a_round_starts_no_timer() {
    let mut relay = Module::new();
    assert!(relay.submit(1, vec![header(1, 1000)], 10).is_ok());
    assert!(relay.submit(2, vec![header(0, 1000)], 20).is_ok());
    assert_eq!(relay.challenge_time(60), vec![(1000, 1)]);
    assert!(relay.challenge_time(70).is_empty());
    assert_eq!(relay.proposal_map(1000).len(), 2);
    assert_eq!(relay.get_samples(1000), vec![1000]);
}

#[test]
fn later_round_keeps_only_new_checkpoints() {
    let mut relay = Module::new();
    assert!(relay.submit(1, vec![header(1, 1000)], 1).is_ok());
    assert!(relay.submit(2, vec![header(0, 1000)], 1).is_ok());
    relay.set_samples(&vec![1000, 500]);
    assert_eq!(
        relay.submit(2, vec![header(0, 1000), header(0, 500)], 5),
        Ok(Event::SubmitHeaders(500, 500, 2))
    );
    let claims = relay.proposal_map(500);
    assert_eq!(claims.len(), 1);
    assert_eq!(claims[0].headers, vec![header(0, 500)]);
    assert_eq!(claims[0].round, 2);
    assert_eq!(claims[0].relayer, 2);
    assert_eq!(claims[0].extend_from, Some((1000, 0)));
    assert_eq!(relay.challenge_time(55), vec![(1000, 2)]);
    assert_eq!(relay.get_all_headers_from(&claims[0]), Some(vec![header(0, 1000), header(0, 500)]));
}

#[test]
fn submission_without_antecedent_is_rejected() {
    let mut relay = Module::new();
    assert!(relay.submit(1, vec![header(1, 1000)], 1).is_ok());
    relay.set_samples(&vec![1000, 500]);
    let claims_before = relay.proposal_map(1000);
    assert_eq!(
        relay.submit(2, vec![header(0, 1000), header(0, 500)], 1),
        Err(Error::NotExtendFromError)
    );
    assert_eq!(relay.get_samples(1000), vec![1000, 500]);
    assert_eq!(relay.proposal_map(1000), claims_before);
    assert!(relay.proposal_map(500).is_empty());
    assert_eq!(relay.challenge_time(51), vec![(1000, 1)]);
}

#[test]
fn submission_with_wrong_heights_is_rejected() {
    let mut relay = Module::new();
    assert!(relay.submit(1, vec![header(0, 1000)], 1).is_ok());
    relay.set_samples(&vec![1000, 500]);
    assert_eq!(
        relay.submit(1, vec![header(0, 1000), header(0, 499)], 1),
        Err(Error::NotComplyWithSamples)
    );
    assert_eq!(
        relay.submit(1, vec![header(0, 1000), header(0, 500), header(0, 250), header(0, 750)], 1),
        Err(Error::NotComplyWithSamples)
    );
    assert!(relay.proposal_map(500).is_empty());
}

#[test]
fn single_claim_is_rewarded_and_confirmed_once() {
    let mut relay = Module::new();
    assert!(relay.submit(9, vec![header(0, 1000)], 1).is_ok());
    assert_eq!(relay.confrimed_blocks(1000), None);
    let settlements = relay.on_challenge_expiry(51);
    assert_eq!(settlements.len(), 1);
    assert_eq!(settlements[0].verdict, Verdict::Finalized);
    assert_eq!(settlements[0].instructions, vec![Instruction::Reward(9, 100)]);
    assert_eq!(settlements[0].events, vec![Event::BlockConfirmed(1000, 9)]);
    assert_eq!(relay.confrimed_blocks(1000), Some(header(0, 1000)));
    assert!(relay.challenge_time(51).is_empty());

    let again = relay.on_challenge_expiry(51);
    assert_eq!(again.len(), 0);
    assert_eq!(relay.confrimed_blocks(1000), Some(header(0, 1000)));
}

#[test]
fn competing_claims_grow_the_samples() {
    let mut relay = Module::new();
    assert!(relay.submit(1, vec![header(1, 1000)], 1).is_ok());
    assert!(relay.submit(2, vec![header(0, 1000)], 2).is_ok());
    let settlements = relay.on_challenge_expiry(51);
    assert_eq!(settlements.len(), 1);
    assert_eq!(settlements[0].verdict, Verdict::Escalated);
    assert!(settlements[0].instructions.is_empty());
    assert!(settlements[0].events.is_empty());
    assert_eq!(relay.get_samples(1000), vec![1000, 500]);
    assert_eq!(relay.proposal_map(1000).len(), 2);
    assert_eq!(relay.confrimed_blocks(1000), None);
    assert_eq!(
        relay.submit(2, vec![header(0, 1000), header(0, 500)], 60),
        Ok(Event::SubmitHeaders(500, 500, 2))
    );
}

#[test]
fn growth_bisects_towards_the_last_confirmed_height() {
    let mut relay = Module::new();
    assert!(relay.set_last_comfirm_header(1, header(0, 600)).is_ok());
    assert!(relay.submit(1, vec![header(1, 1000)], 1).is_ok());
    assert!(relay.submit(2, vec![header(0, 1000)], 1).is_ok());
    relay.on_challenge_expiry(51);
    assert_eq!(relay.get_samples(1000), vec![1000, 800]);
}

#[test]
fn dispute_is_settled_down_to_the_first_round() {
    let mut relay = Module::new();
    assert!(relay.submit(1, vec![header(1, 1000)], 1).is_ok());
    assert!(relay.submit(2, vec![header(0, 1000)], 1).is_ok());
    assert!(relay.submit(3, vec![header(2, 1000)], 1).is_ok());
    let first = relay.on_challenge_expiry(51);
    assert_eq!(first[0].verdict, Verdict::Escalated);
    assert_eq!(
        relay.submit(4, vec![header(0, 1000), header(0, 500)], 60),
        Ok(Event::SubmitHeaders(500, 500, 2))
    );
    assert_eq!(relay.challenge_time(110), vec![(1000, 2)]);

    let second = relay.on_challenge_expiry(110);
    assert_eq!(second.len(), 1);
    assert_eq!(second[0].verdict, Verdict::Finalized);
    assert_eq!(
        second[0].instructions,
        vec![
            Instruction::Slash(1, 100),
            Instruction::Slash(3, 100),
            Instruction::Reward(2, 200),
            Instruction::Reward(2, 100),
        ]
    );
    assert_eq!(
        second[0].events,
        vec![Event::BlockConfirmed(500, 4), Event::BlockConfirmed(1000, 2)]
    );
    assert_eq!(relay.confrimed_blocks(1000), Some(header(0, 1000)));
    assert_eq!(relay.confrimed_blocks(500), Some(header(0, 500)));
    assert!(relay.proposal_map(1000).is_empty());
    assert_eq!(relay.proposal_map(500).len(), 1);
}

#[test]
fn bond_is_configurable() {
    let mut relay = Module::with_bond(7);
    assert!(relay.submit(1, vec![header(1, 20)], 1).is_ok());
    assert!(relay.submit(2, vec![header(0, 20)], 1).is_ok());
    relay.on_challenge_expiry(51);
    assert_eq!(relay.get_samples(20), vec![20, 10]);
    assert!(relay.submit(2, vec![header(0, 20), header(0, 10)], 60).is_ok());
    let settled = relay.on_challenge_expiry(110);
    assert_eq!(
        settled[0].instructions,
        vec![Instruction::Slash(1, 7), Instruction::Reward(2, 7), Instruction::Reward(2, 7)]
    );
}

#[test]
fn missing_ancestor_is_an_integrity_violation() {
    let mut relay = Module::new();
    assert!(relay.submit(1, vec![header(0, 1000)], 1).is_ok());
    relay.set_samples(&vec![1000, 500]);
    assert!(relay.submit(2, vec![header(0, 1000), header(0, 500)], 10).is_ok());
    relay.set_samples(&vec![1000]);
    relay.set_samples(&vec![1000, 600]);
    assert!(relay.submit(3, vec![header(0, 1000), header(0, 600)], 20).is_ok());
    assert_eq!(relay.challenge_time(60), vec![(1000, 2)]);
    assert_eq!(relay.challenge_time(70), vec![(1000, 2)]);

    // the second round now ends at height 600: its single claim wins and
    // settles the first round away
    let settled = relay.on_challenge_expiry(60);
    assert_eq!(settled.len(), 1);
    assert_eq!(settled[0].verdict, Verdict::Finalized);
    assert_eq!(
        settled[0].instructions,
        vec![Instruction::Reward(1, 0), Instruction::Reward(1, 100)]
    );
    assert!(relay.proposal_map(1000).is_empty());

    // settled once more, the winner points at a claim that is gone
    let again = relay.on_challenge_expiry(70);
    assert_eq!(again.len(), 1);
    assert_eq!(again[0].verdict, Verdict::ProtocolIntegrityViolation);
    assert!(again[0].instructions.is_empty());
    assert!(again[0].events.is_empty());
    assert_eq!(relay.confrimed_blocks(1000), Some(header(0, 1000)));
    assert_eq!(relay.confrimed_blocks(600), Some(header(0, 600)));
    assert_eq!(relay.confrimed_blocks(500), None);
    assert_eq!(relay.proposal_map(600).len(), 1);
}

#[test]
fn confirmed_checkpoint_is_never_replaced() {
    let mut relay = Module::new();
    assert!(relay.submit(1, vec![header(0, 1000)], 1).is_ok());
    relay.on_challenge_expiry(51);
    assert_eq!(relay.confrimed_blocks(1000), Some(header(0, 1000)));
    // a second game over a height that shares the confirmed one
    assert!(relay.submit(2, vec![header(5, 2000)], 100).is_ok());
    assert!(relay.submit(3, vec![header(6, 2000)], 100).is_ok());
    relay.on_challenge_expiry(150);
    assert_eq!(relay.get_samples(2000), vec![2000, 1000]);
    assert!(relay.submit(2, vec![header(5, 2000), header(9, 1000)], 200).is_ok());
    let settled = relay.on_challenge_expiry(250);
    assert_eq!(settled[0].verdict, Verdict::Finalized);
    assert_eq!(settled[0].events, vec![Event::BlockConfirmed(2000, 2)]);
    assert_eq!(relay.confrimed_blocks(1000), Some(header(0, 1000)));
    assert_eq!(relay.confrimed_blocks(2000), Some(header(5, 2000)));
}

#[test]
fn nothing_due_is_idle() {
    let mut relay = Module::new();
    assert_eq!(relay.on_challenge_expiry(3).len(), 0);
    assert!(relay.submit(1, vec![header(0, 1000)], 1).is_ok());
    relay.set_samples(&vec![1000, 500]);
    assert!(relay.submit(1, vec![header(0, 1000), header(0, 500)], 1).is_ok());
    // the game is put back to its first round before the second is due
    relay.set_samples(&vec![1000]);
    let settled = relay.on_challenge_expiry(51);
    assert_eq!(settled.len(), 2);
    assert_eq!(settled[0].verdict, Verdict::Finalized);
    assert_eq!(settled[1].verdict, Verdict::Idle);
    assert!(settled[1].instructions.is_empty());
    assert!(settled[1].events.is_empty());
    assert_eq!(relay.proposal_map(500).len(), 1);
}

#[test]
fn three_rounds_settle_every_level() {
    let mut relay = Module::new();
    assert!(relay.submit(1, vec![header(0, 1000)], 1).is_ok());
    assert!(relay.submit(2, vec![header(1, 1000)], 1).is_ok());
    assert_eq!(relay.on_challenge_expiry(51)[0].verdict, Verdict::Escalated);
    assert_eq!(relay.get_samples(1000), vec![1000, 500]);

    assert!(relay.submit(1, vec![header(0, 1000), header(0, 500)], 60).is_ok());
    assert!(relay.submit(2, vec![header(1, 1000), header(1, 500)], 61).is_ok());
    assert_eq!(relay.challenge_time(110), vec![(1000, 2)]);
    assert!(relay.challenge_time(111).is_empty());
    assert_eq!(relay.on_challenge_expiry(110)[0].verdict, Verdict::Escalated);
    assert_eq!(relay.get_samples(1000), vec![1000, 500, 250, 750]);

    // the leading checkpoints must be those of one claim of the round before
    assert_eq!(
        relay.submit(
            1,
            vec![header(1, 1000), header(0, 500), header(0, 250), header(0, 750)],
            120
        ),
        Err(Error::NotExtendFromError)
    );
    assert_eq!(
        relay.submit(
            1,
            vec![header(0, 1000), header(0, 500), header(0, 250), header(0, 750)],
            120
        ),
        Ok(Event::SubmitHeaders(250, 750, 3))
    );
    let filed = relay.proposal_map(750);
    assert_eq!(filed.len(), 1);
    assert_eq!(filed[0].headers, vec![header(0, 250), header(0, 750)]);
    assert_eq!(filed[0].extend_from, Some((500, 0)));
    assert_eq!(
        relay.get_all_headers_from(&filed[0]),
        Some(vec![header(0, 1000), header(0, 500), header(0, 250), header(0, 750)])
    );

    let settled = relay.on_challenge_expiry(170);
    assert_eq!(settled.len(), 1);
    assert_eq!(settled[0].verdict, Verdict::Finalized);
    assert_eq!(
        settled[0].instructions,
        vec![
            Instruction::Slash(2, 100),
            Instruction::Reward(1, 100),
            Instruction::Slash(2, 100),
            Instruction::Reward(1, 100),
            Instruction::Reward(1, 100),
        ]
    );
    assert_eq!(
        settled[0].events,
        vec![
            Event::BlockConfirmed(250, 1),
            Event::BlockConfirmed(750, 1),
            Event::BlockConfirmed(500, 1),
            Event::BlockConfirmed(1000, 1),
        ]
    );
    assert!(relay.proposal_map(1000).is_empty());
    assert!(relay.proposal_map(500).is_empty());
    assert_eq!(relay.proposal_map(750).len(), 1);
    assert_eq!(relay.confrimed_blocks(250), Some(header(0, 250)));
    assert_eq!(relay.confrimed_blocks(750), Some(header(0, 750)));
    assert!(relay.on_challenge_expiry(170).is_empty());
}
