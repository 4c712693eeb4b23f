//! A round of polls: the channel of every player is asked once.
use crate::channels::{
    found_in, lemma_reports_are_those_of_players, poll, poll_reports, polled_views, report_of,
    report_views, reports_of, ChannelMap, MessageChannels, PollLog, PollReport, Polled,
};
use vstd::prelude::*;

verus! {

/// Polls the channel of every player once, and reports what came to light. The
/// log tells every poll that was made: it grows by one poll for each player, in
/// the order of the players, each of that player's own receiver, and by no
/// other. The reports are those of these polls, so that no message is taken
/// from a channel without being reported.
pub fn poll_each(map: &ChannelMap<MessageChannels>, log: &mut PollLog) -> (reports: Vec<PollReport>)
    ensures
        final(log)@.len() == old(log)@.len() + map.entries().len(),
        final(log)@.take(old(log)@.len() as int) == old(log)@,
        exists|outcomes: Seq<Polled>|
            {
                &&& outcomes.len() == map.entries().len()
                &&& forall|i: int|
                    0 <= i < outcomes.len() ==> {
                        &&& final(log)@[old(log)@.len() + i] == (
                            map.entries()[i].1.reliable_receiver,
                            #[trigger] outcomes[i],
                        )
                        &&& found_in(map.entries()[i].1.reliable_receiver, outcomes[i])
                    }
                &&& report_views(reports@) == reports_of(
                    map.entries(),
                    #[trigger] polled_views(outcomes),
                )
            },
{
    let ghost before = log@;
    let mut outcomes: Vec<Polled> = Vec::new();
    let mut number: usize = 0;
    while number < map.len()
        invariant
            number <= map.entries().len(),
            outcomes@.len() == number,
            log@.len() == before.len() + number,
            log@.take(before.len() as int) == before,
            forall|i: int|
                0 <= i < number ==> {
                    &&& log@[before.len() + i] == (
                        map.entries()[i].1.reliable_receiver,
                        #[trigger] outcomes@[i],
                    )
                    &&& found_in(map.entries()[i].1.reliable_receiver, outcomes@[i])
                },
        decreases map.entries().len() - number,
    {
        let ghost earlier = log@;
        outcomes.push(poll(&map.channels_at(number).reliable_receiver, log));
        assert(log@.take(before.len() as int) =~= earlier.take(before.len() as int));
        number = number + 1;
    }
    let ghost found = outcomes@;
    let reports = poll_reports(map, outcomes);
    assert(polled_views(found).len() == map.entries().len());
    reports
}

/// Nothing that a poll takes is lost, and nobody is asked twice: for every
/// player a round of polls makes one poll, of the player's own channel. A
/// message that it took is reported under that player, and so is a channel that
/// it found closed; and every report comes from such a poll.
pub proof fn law_round_of_polls(
    map: &ChannelMap<MessageChannels>,
    log: &mut PollLog,
    reports: Vec<PollReport>,
)
    requires
        call_ensures(poll_each, (map, log), reports),
    ensures
        ({
            let asked = map.entries();
            let polls = final(log)@.skip(old(log)@.len() as int);
            &&& final(log)@.take(old(log)@.len() as int) == old(log)@
            &&& polls.len() == asked.len()
            &&& forall|i: int|
                0 <= i < polls.len() ==> (#[trigger] polls[i]).0 == asked[i].1.reliable_receiver
            &&& forall|i: int|
                0 <= i < polls.len() ==> ((#[trigger] polls[i]).1 matches Polled::Message(taken)
                    ==> exists|k: int|
                    0 <= k < reports@.len() && (#[trigger] reports@[k] matches PollReport::Received {
                        player_id,
                        message,
                    } && player_id@ == asked[i].0 && message@ == taken@))
            &&& forall|i: int|
                0 <= i < polls.len() && (#[trigger] polls[i]).1 is Closed ==> exists|k: int|
                    0 <= k < reports@.len() && (#[trigger] reports@[k] matches PollReport::Closed {
                        player_id,
                    } && player_id@ == asked[i].0)
            &&& forall|k: int|
                0 <= k < reports@.len() ==> (#[trigger] reports@[k] matches PollReport::Received {
                    player_id,
                    message,
                } ==> exists|i: int|
                    0 <= i < polls.len() && asked[i].0 == player_id@ && ((#[trigger] polls[i]).1
                        matches Polled::Message(taken) && taken@ == message@))
            &&& forall|k: int|
                0 <= k < reports@.len() ==> (#[trigger] reports@[k] matches PollReport::Closed {
                    player_id,
                } ==> exists|i: int|
                    0 <= i < polls.len() && asked[i].0 == player_id@ && (#[trigger] polls[i]).1
                        is Closed)
        }),
{
    let asked = map.entries();
    let earlier = old(log)@.len() as int;
    let polls = final(log)@.skip(earlier);
    let outcomes = choose|outcomes: Seq<Polled>|
        {
            &&& outcomes.len() == asked.len()
            &&& forall|i: int|
                0 <= i < outcomes.len() ==> {
                    &&& final(log)@[earlier + i] == (
                        asked[i].1.reliable_receiver,
                        #[trigger] outcomes[i],
                    )
                    &&& found_in(asked[i].1.reliable_receiver, outcomes[i])
                }
            &&& report_views(reports@) == reports_of(asked, #[trigger] polled_views(outcomes))
        };
    let views = polled_views(outcomes);
    lemma_reports_are_those_of_players(asked, views);
    assert forall|i: int| 0 <= i < polls.len() implies #[trigger] polls[i] == (
        asked[i].1.reliable_receiver,
        outcomes[i],
    ) && views[i] == outcomes[i]@ by {
        assert(polls[i] == final(log)@[earlier + i]);
    }
    assert forall|i: int|
        0 <= i < polls.len() && !((#[trigger] polls[i]).1 is Empty) implies exists|k: int|
        0 <= k < reports@.len() && (#[trigger] reports@[k])@ == report_of(
            asked[i].0,
            views[i],
        )->0 by {
        let expected = report_of(asked[i].0, views[i])->0;
        assert(report_views(reports@).contains(expected));
        let k = choose|k: int|
            0 <= k < report_views(reports@).len() && report_views(reports@)[k] == expected;
        assert(reports@[k]@ == expected);
    }
    assert forall|k: int| 0 <= k < reports@.len() implies exists|i: int|
        0 <= i < polls.len() && report_of(asked[i].0, (#[trigger] polls[i]).1@) == Some(
            (#[trigger] reports@[k])@,
        ) by {
        let report = reports@[k]@;
        assert(report_views(reports@)[k] == report);
        assert(reports_of(asked, views).contains(report));
        let i = choose|i: int|
            0 <= i < views.len() && report_of(asked[i].0, #[trigger] views[i]) == Some(report);
        assert(polls[i].1 == outcomes[i]);
    }
    assert forall|i: int| 0 <= i < polls.len() implies ((#[trigger] polls[i]).1
        matches Polled::Message(taken) ==> exists|k: int|
        0 <= k < reports@.len() && (#[trigger] reports@[k] matches PollReport::Received {
            player_id,
            message,
        } && player_id@ == asked[i].0 && message@ == taken@)) by {
        if !(polls[i].1 is Empty) {
            let k = choose|k: int|
                0 <= k < reports@.len() && (#[trigger] reports@[k])@ == report_of(
                    asked[i].0,
                    views[i],
                )->0;
            assert(reports@[k]@ == report_of(asked[i].0, polls[i].1@)->0);
        }
    }
    assert forall|i: int| 0 <= i < polls.len() && (#[trigger] polls[i]).1 is Closed implies exists|
        k: int,
    |
        0 <= k < reports@.len() && (#[trigger] reports@[k] matches PollReport::Closed { player_id }
            && player_id@ == asked[i].0) by {
        let k = choose|k: int|
            0 <= k < reports@.len() && (#[trigger] reports@[k])@ == report_of(
                asked[i].0,
                views[i],
            )->0;
        assert(reports@[k]@ == report_of(asked[i].0, polls[i].1@)->0);
    }
    assert forall|k: int| 0 <= k < reports@.len() implies (#[trigger] reports@[k]
        matches PollReport::Received { player_id, message } ==> exists|i: int|
        0 <= i < polls.len() && asked[i].0 == player_id@ && ((#[trigger] polls[i]).1
            matches Polled::Message(taken) && taken@ == message@)) by {
        let i = choose|i: int|
            0 <= i < polls.len() && report_of(asked[i].0, (#[trigger] polls[i]).1@) == Some(
                reports@[k]@,
            );
        assert(report_of(asked[i].0, polls[i].1@) == Some(reports@[k]@));
    }
    assert forall|k: int| 0 <= k < reports@.len() implies (#[trigger] reports@[k]
        matches PollReport::Closed { player_id } ==> exists|i: int|
        0 <= i < polls.len() && asked[i].0 == player_id@ && (#[trigger] polls[i]).1 is Closed) by {
        let i = choose|i: int|
            0 <= i < polls.len() && report_of(asked[i].0, (#[trigger] polls[i]).1@) == Some(
                reports@[k]@,
            );
        assert(report_of(asked[i].0, polls[i].1@) == Some(reports@[k]@));
    }
}

} // verus!
