//! The server's channels to its players.
use crate::message::{ClientMessageView, PlayerId, ReliableClientMessage, ReliableServerMessage};
use crate::polling::poll_each;
use vstd::prelude::*;

verus! {

/// The sending end of `tokio`'s watch channel, carried through unread.
#[verifier::external_type_specification]
#[verifier::external_body]
#[verifier::reject_recursive_types(T)]
pub struct ExWatchSender<T>(tokio::sync::watch::Sender<T>);

/// The receiving end of an `async_channel`, carried through to `poll`.
#[verifier::external_type_specification]
#[verifier::external_body]
#[verifier::reject_recursive_types(T)]
pub struct ExChannelReceiver<T>(async_channel::Receiver<T>);

/// The sending end of an `async_channel`, carried through unread.
#[verifier::external_type_specification]
#[verifier::external_body]
#[verifier::reject_recursive_types(T)]
pub struct ExChannelSender<T>(async_channel::Sender<T>);

/// The game's ends of the channels of one connection.
#[derive(Debug)]
pub struct MessageChannels {
    /// Cancels the tasks of the connection.
    pub cancel_sender: tokio::sync::watch::Sender<bool>,
    /// What the player tells the game.
    pub reliable_receiver: async_channel::Receiver<ReliableClientMessage>,
    /// What the game tells the player.
    pub reliable_sender: async_channel::Sender<ReliableServerMessage>,
}

/// One player in a channel map.
#[derive(Debug)]
struct Entry<C> {
    player_id: PlayerId,
    channels: C,
}

/// The channels of each player, by player id. The players are also numbered
/// from zero, in no particular order.
#[derive(Debug)]
pub struct ChannelMap<C> {
    entries: Vec<Entry<C>>,
}

/// The map that a sequence of entries makes up.
pub open spec fn entries_map<C>(entries: Seq<(Seq<char>, C)>) -> Map<Seq<char>, C>
    decreases entries.len(),
{
    if entries.len() == 0 {
        Map::empty()
    } else {
        entries_map(entries.drop_last()).insert(entries.last().0, entries.last().1)
    }
}

/// No two entries have the same player id.
pub open spec fn ids_distinct<C>(entries: Seq<(Seq<char>, C)>) -> bool {
    forall|i: int, j: int|
        0 <= i < j < entries.len() ==> (#[trigger] entries[i]).0 != (#[trigger] entries[j]).0
}

impl<C> ChannelMap<C> {
    /// The players with their channels, in the order of their numbers.
    pub closed spec fn entries(&self) -> Seq<(Seq<char>, C)> {
        self.entries@.map_values(|entry: Entry<C>| (entry.player_id@, entry.channels))
    }

    /// Every player is entered once.
    pub open spec fn wf(&self) -> bool {
        ids_distinct(self.entries())
    }
}

impl<C> View for ChannelMap<C> {
    type V = Map<Seq<char>, C>;

    open spec fn view(&self) -> Map<Seq<char>, C> {
        entries_map(self.entries())
    }
}

proof fn lemma_map_has<C>(entries: Seq<(Seq<char>, C)>, id: Seq<char>)
    ensures
        entries_map(entries).dom().contains(id) <==> exists|i: int|
            0 <= i < entries.len() && (#[trigger] entries[i]).0 == id,
    decreases entries.len(),
{
    if entries.len() > 0 {
        let front = entries.drop_last();
        lemma_map_has(front, id);
        if exists|i: int| 0 <= i < entries.len() && (#[trigger] entries[i]).0 == id {
            let i = choose|i: int| 0 <= i < entries.len() && (#[trigger] entries[i]).0 == id;
            if i < front.len() {
                assert(front[i].0 == id);
            }
        }
        if exists|i: int| 0 <= i < front.len() && (#[trigger] front[i]).0 == id {
            let i = choose|i: int| 0 <= i < front.len() && (#[trigger] front[i]).0 == id;
            assert(entries[i].0 == id);
        }
        if entries.last().0 == id {
            assert(entries[entries.len() - 1].0 == id);
        }
    }
}

proof fn lemma_map_at<C>(entries: Seq<(Seq<char>, C)>, i: int)
    requires
        ids_distinct(entries),
        0 <= i < entries.len(),
    ensures
        entries_map(entries).dom().contains(entries[i].0),
        entries_map(entries)[entries[i].0] == entries[i].1,
    decreases entries.len(),
{
    let front = entries.drop_last();
    if i < front.len() {
        assert(ids_distinct(front)) by {
            assert forall|a: int, b: int| 0 <= a < b < front.len() implies (
            #[trigger] front[a]).0 != (#[trigger] front[b]).0 by {
                assert(entries[a].0 != entries[b].0);
            }
        }
        lemma_map_at(front, i);
        assert(front[i] == entries[i]);
        assert(entries[i].0 != entries[entries.len() - 1].0);
    }
}

proof fn lemma_map_update<C>(entries: Seq<(Seq<char>, C)>, i: int, channels: C)
    requires
        ids_distinct(entries),
        0 <= i < entries.len(),
    ensures
        ids_distinct(entries.update(i, (entries[i].0, channels))),
        entries_map(entries.update(i, (entries[i].0, channels))) == entries_map(entries).insert(
            entries[i].0,
            channels,
        ),
{
    let updated = entries.update(i, (entries[i].0, channels));
    assert forall|a: int, b: int| 0 <= a < b < updated.len() implies (
    #[trigger] updated[a]).0 != (#[trigger] updated[b]).0 by {
        assert(entries[a].0 != entries[b].0);
    }
    let expected = entries_map(entries).insert(entries[i].0, channels);
    assert forall|id: Seq<char>|
        entries_map(updated).dom().contains(id) == expected.dom().contains(id) by {
        lemma_map_has(entries, id);
        lemma_map_has(updated, id);
        if exists|k: int| 0 <= k < entries.len() && (#[trigger] entries[k]).0 == id {
            let k = choose|k: int| 0 <= k < entries.len() && (#[trigger] entries[k]).0 == id;
            assert(updated[k].0 == id);
        }
        if exists|k: int| 0 <= k < updated.len() && (#[trigger] updated[k]).0 == id {
            let k = choose|k: int| 0 <= k < updated.len() && (#[trigger] updated[k]).0 == id;
            assert(entries[k].0 == id);
        }
    }
    assert forall|id: Seq<char>| #[trigger] expected.dom().contains(id) implies entries_map(
        updated,
    )[id] == expected[id] by {
        lemma_map_has(updated, id);
        assert(entries_map(updated).dom().contains(id));
        let k = choose|k: int| 0 <= k < updated.len() && (#[trigger] updated[k]).0 == id;
        lemma_map_at(updated, k);
        lemma_map_at(entries, k);
        if k != i {
            assert(updated[k] == entries[k]);
            if entries[k].0 == entries[i].0 {
                if k < i {
                    assert(entries[k].0 != entries[i].0);
                } else {
                    assert(entries[i].0 != entries[k].0);
                }
            }
        }
    }
    assert(entries_map(updated) =~= expected);
}

/// To go through the numbers of the players is to go through the map: every
/// player has a number, and under it stand their channels.
pub proof fn law_entries_are_the_map<C>(map: ChannelMap<C>, id: Seq<char>)
    requires
        map.wf(),
    ensures
        map@.dom().contains(id) <==> exists|i: int|
            0 <= i < map.entries().len() && (#[trigger] map.entries()[i]).0 == id,
        forall|i: int|
            0 <= i < map.entries().len() && (#[trigger] map.entries()[i]).0 == id ==> map@[id]
                == map.entries()[i].1,
{
    lemma_map_has(map.entries(), id);
    assert forall|i: int|
        0 <= i < map.entries().len() && (#[trigger] map.entries()[i]).0 == id implies map@[id]
        == map.entries()[i].1 by {
        lemma_map_at(map.entries(), i);
    }
}

impl<C> ChannelMap<C> {
    /// A map without players.
    pub fn new() -> (map: Self)
        ensures
            map.wf(),
            map.entries() == Seq::<(Seq<char>, C)>::empty(),
            map@ == Map::<Seq<char>, C>::empty(),
    {
        let map = ChannelMap { entries: Vec::new() };
        assert(map.entries() =~= Seq::empty());
        map
    }

    /// The number of players.
    pub fn len(&self) -> (len: usize)
        ensures
            len == self.entries().len(),
    {
        self.entries.len()
    }

    /// The id of the player of a number.
    pub fn player_at(&self, number: usize) -> (player_id: &PlayerId)
        requires
            number < self.entries().len(),
        ensures
            player_id@ == self.entries()[number as int].0,
    {
        &self.entries[number].player_id
    }

    /// The channels of the player of a number.
    pub fn channels_at(&self, number: usize) -> (channels: &C)
        requires
            number < self.entries().len(),
        ensures
            *channels == self.entries()[number as int].1,
    {
        &self.entries[number].channels
    }

    /// The number of a player, if they are in the map.
    fn number_of(&self, player_id: &PlayerId) -> (number: Option<usize>)
        ensures
            match number {
                Some(number) => number < self.entries().len() && self.entries()[number as int].0
                    == player_id@,
                None => forall|i: int|
                    0 <= i < self.entries().len() ==> (#[trigger] self.entries()[i]).0
                        != player_id@,
            },
    {
        let mut number: usize = 0;
        while number < self.entries.len()
            invariant
                number <= self.entries@.len(),
                forall|i: int|
                    0 <= i < number ==> (#[trigger] self.entries()[i]).0 != player_id@,
            decreases self.entries@.len() - number,
        {
            assert(self.entries()[number as int].0 == self.entries@[number as int].player_id@);
            if self.entries[number].player_id == *player_id {
                return Some(number);
            }
            number = number + 1;
        }
        None
    }

    /// Enters the channels of a player. Gives back the channels that stood
    /// under the same id before, if any. Every other player stays in the map
    /// with their channels.
    pub fn insert(&mut self, player_id: PlayerId, channels: C) -> (replaced: Option<C>)
        requires
            old(self).wf(),
        ensures
            final(self).wf(),
            final(self)@ == old(self)@.insert(player_id@, channels),
            forall|id: Seq<char>|
                #[trigger] old(self)@.dom().contains(id) && id != player_id@ ==> {
                    &&& final(self)@.dom().contains(id)
                    &&& final(self)@[id] == old(self)@[id]
                },
            replaced == if old(self)@.dom().contains(player_id@) {
                Some(old(self)@[player_id@])
            } else {
                None
            },
    {
        let ghost before = self.entries();
        proof {
            lemma_map_has(before, player_id@);
        }
        match self.number_of(&player_id) {
            Some(number) => {
                proof {
                    lemma_map_at(before, number as int);
                    lemma_map_update(before, number as int, channels);
                }
                let mut entry = Entry { player_id, channels };
                std::mem::swap(&mut self.entries[number], &mut entry);
                assert(self.entries() =~= before.update(
                    number as int,
                    (before[number as int].0, channels),
                ));
                Some(entry.channels)
            },
            None => {
                self.entries.push(Entry { player_id, channels });
                proof {
                    let after = self.entries();
                    assert(after =~= before.push((player_id@, channels)));
                    assert(after.drop_last() =~= before);
                    assert forall|a: int, b: int| 0 <= a < b < after.len() implies (
                    #[trigger] after[a]).0 != (#[trigger] after[b]).0 by {
                        assert(after[a] == before[a]);
                        if b < before.len() {
                            assert(after[b] == before[b]);
                        }
                    }
                }
                None
            },
        }
    }
}

/// What a channel held when it was polled.
#[derive(Debug)]
pub enum Polled {
    /// A message, which has left the channel.
    Message(ReliableClientMessage),
    /// No message.
    Empty,
    /// No message, and none will come.
    Closed,
}

/// What polling a player's channel brought to light.
#[derive(Debug)]
pub enum PollReport {
    /// The player sent a message.
    Received { player_id: PlayerId, message: ReliableClientMessage },
    /// The channel of the player is closed.
    Closed { player_id: PlayerId },
}

/// The outcome of a poll, seen through its message.
pub enum PolledView {
    Message(ClientMessageView),
    Empty,
    Closed,
}

/// A report, seen through its player id and message.
pub enum PollReportView {
    Received { player_id: Seq<char>, message: ClientMessageView },
    Closed { player_id: Seq<char> },
}

impl View for Polled {
    type V = PolledView;

    open spec fn view(&self) -> PolledView {
        match *self {
            Polled::Message(message) => PolledView::Message(message@),
            Polled::Empty => PolledView::Empty,
            Polled::Closed => PolledView::Closed,
        }
    }
}

impl View for PollReport {
    type V = PollReportView;

    open spec fn view(&self) -> PollReportView {
        match *self {
            PollReport::Received { player_id, message } => PollReportView::Received {
                player_id: player_id@,
                message: message@,
            },
            PollReport::Closed { player_id } => PollReportView::Closed { player_id: player_id@ },
        }
    }
}

/// The report on a poll: none if there was no message.
pub open spec fn report_of(player_id: Seq<char>, polled: PolledView) -> Option<PollReportView> {
    match polled {
        PolledView::Message(message) => Some(PollReportView::Received { player_id, message }),
        PolledView::Empty => None,
        PolledView::Closed => Some(PollReportView::Closed { player_id }),
    }
}

/// The reports on a poll of each player, in the order of the players.
pub open spec fn reports_of<C>(
    entries: Seq<(Seq<char>, C)>,
    outcomes: Seq<PolledView>,
) -> Seq<PollReportView>
    decreases outcomes.len(),
{
    if outcomes.len() == 0 {
        seq![]
    } else {
        let front = reports_of(entries, outcomes.drop_last());
        match report_of(entries[outcomes.len() - 1].0, outcomes.last()) {
            Some(report) => front.push(report),
            None => front,
        }
    }
}

/// The reports, each seen through its player id and message.
pub open spec fn report_views(reports: Seq<PollReport>) -> Seq<PollReportView> {
    reports.map_values(|report: PollReport| report@)
}

/// The polls that were made, the first one first: of which receiver each was,
/// and what it found. The log is for proofs alone. Every poll is entered in one,
/// and nothing else enters anything in it.
pub struct PollLog {
    polls: Ghost<Seq<(async_channel::Receiver<ReliableClientMessage>, Polled)>>,
}

impl View for PollLog {
    type V = Seq<(async_channel::Receiver<ReliableClientMessage>, Polled)>;

    closed spec fn view(&self) -> Seq<(async_channel::Receiver<ReliableClientMessage>, Polled)> {
        self.polls@
    }
}

/// Calls `async_channel::Receiver::try_recv` once. What it finds depends on the
/// other ends of the channel, so nothing is claimed of that; the one poll, with
/// what it found, is entered in the log.
#[verifier::external_body]
pub(crate) fn poll(
    receiver: &async_channel::Receiver<ReliableClientMessage>,
    log: &mut PollLog,
) -> (polled: Polled)
    ensures
        final(log)@ == old(log)@.push((*receiver, polled)),
{
    let polled = match receiver.try_recv() {
        Ok(message) => Polled::Message(message),
        Err(async_channel::TryRecvError::Empty) => Polled::Empty,
        Err(async_channel::TryRecvError::Closed) => Polled::Closed,
    };
    log.polls = Ghost(log.polls@.push((*receiver, polled)));
    polled
}

/// Reports on the poll of a player's channel.
pub fn poll_report(player_id: &PlayerId, polled: Polled) -> (report: Option<PollReport>)
    ensures
        match report_of(player_id@, polled@) {
            Some(expected) => report is Some && report->0@ == expected,
            None => report is None,
        },
        match polled {
            Polled::Message(found) => report matches Some(
                PollReport::Received { player_id: sender, message },
            ) && sender@ == player_id@ && message@ == found@,
            Polled::Empty => report is None,
            Polled::Closed => report matches Some(PollReport::Closed { player_id: gone }) && gone@
                == player_id@,
        },
{
    match polled {
        Polled::Message(message) => Some(
            PollReport::Received { player_id: player_id.clone(), message },
        ),
        Polled::Empty => None,
        Polled::Closed => Some(PollReport::Closed { player_id: player_id.clone() }),
    }
}

/// The outcomes of polls, each seen through its message.
pub open spec fn polled_views(outcomes: Seq<Polled>) -> Seq<PolledView> {
    outcomes.map_values(|polled: Polled| polled@)
}

/// Reports on a poll of each player, given what was found under each number.
pub fn poll_reports<C>(map: &ChannelMap<C>, outcomes: Vec<Polled>) -> (reports: Vec<PollReport>)
    requires
        outcomes@.len() == map.entries().len(),
    ensures
        report_views(reports@) == reports_of(map.entries(), polled_views(outcomes@)),
{
    let ghost all = polled_views(outcomes@);
    let count: usize = outcomes.len();
    let mut reports: Vec<PollReport> = Vec::new();
    let mut number: usize = 0;
    assert(report_views(reports@) =~= reports_of(map.entries(), all.take(0)));
    for polled in iter: outcomes
        invariant
            number == iter.index(),
            iter.seq() == outcomes@,
            count == outcomes@.len(),
            outcomes@.len() == map.entries().len(),
            all == polled_views(outcomes@),
            report_views(reports@) == reports_of(map.entries(), all.take(number as int)),
    {
        let ghost reports_before = reports@;
        let ghost front = all.take(number + 1);
        assert(front.drop_last() =~= all.take(number as int));
        assert(front.last() == polled@);
        match poll_report(map.player_at(number), polled) {
            Some(report) => {
                reports.push(report);
                assert(report_views(reports@) =~= report_views(reports_before).push(report@));
            },
            None => {},
        }
        number = number + 1;
    }
    assert(all.take(number as int) =~= all);
    reports
}

/// The outcome is what a poll of the receiver came back with.
pub open(crate) spec fn found_in(
    receiver: async_channel::Receiver<ReliableClientMessage>,
    polled: Polled,
) -> bool {
    exists|log: &mut PollLog| #[trigger] call_ensures(poll, (&receiver, log), polled)
}

/// Polls the channel of every player, and reports what came to light. The
/// reports are those of a round of polls, as `poll_each` makes it, with a log of
/// its own: each player's own receiver is polled for that player, and what that poll found is
/// what is reported under the player. What waits in a channel lies with the
/// channel, which other tasks share: nothing is said of it here.
pub fn poll_players(map: &ChannelMap<MessageChannels>) -> (reports: Vec<PollReport>)
    ensures
        exists|log: &mut PollLog| {
            &&& log@.len() == 0
            &&& #[trigger] call_ensures(poll_each, (map, log), reports)
        },
        exists|outcomes: Seq<Polled>|
            {
                &&& outcomes.len() == map.entries().len()
                &&& forall|i: int|
                    0 <= i < outcomes.len() ==> found_in(
                        map.entries()[i].1.reliable_receiver,
                        #[trigger] outcomes[i],
                    )
                &&& report_views(reports@) == reports_of(
                    map.entries(),
                    #[trigger] polled_views(outcomes),
                )
            },
{
    let mut log = PollLog { polls: Ghost(Seq::empty()) };
    poll_each(map, &mut log)
}

/// What waits in the channel of a player, and whether the other end is closed.
pub struct Waiting {
    pub messages: Seq<ClientMessageView>,
    pub closed: bool,
}

/// What a poll finds that takes the first message that waits.
pub open spec fn found_first(waiting: Waiting) -> PolledView {
    if waiting.messages.len() > 0 {
        PolledView::Message(waiting.messages.first())
    } else if waiting.closed {
        PolledView::Closed
    } else {
        PolledView::Empty
    }
}

/// What waits after `polls` polls that each take the first message, while no
/// other arrives.
pub open spec fn left_after(waiting: Waiting, polls: nat) -> Waiting
    decreases polls,
{
    if polls == 0 {
        waiting
    } else {
        let before = left_after(waiting, (polls - 1) as nat);
        if before.messages.len() > 0 {
            Waiting { messages: before.messages.drop_first(), ..before }
        } else {
            before
        }
    }
}

/// Polls take the messages that wait from the front, one each, until there are
/// none left.
pub proof fn law_polls_take_from_the_front(waiting: Waiting, polls: nat)
    ensures
        left_after(waiting, polls).closed == waiting.closed,
        left_after(waiting, polls).messages == if polls <= waiting.messages.len() {
            waiting.messages.skip(polls as int)
        } else {
            seq![]
        },
        polls < waiting.messages.len() ==> found_first(left_after(waiting, polls))
            == PolledView::Message(waiting.messages[polls as int]),
    decreases polls,
{
    if polls == 0 {
        assert(waiting.messages.skip(0) =~= waiting.messages);
    } else {
        law_polls_take_from_the_front(waiting, (polls - 1) as nat);
        let before = left_after(waiting, (polls - 1) as nat);
        if polls <= waiting.messages.len() {
            assert(before.messages.drop_first() =~= waiting.messages.skip(polls as int));
        }
    }
}

/// No player starves another: in every round of polls, whatever waits for the
/// others, a player who has a message left is reported with the next one, one
/// who has none left and is gone is reported as gone, and nothing else is
/// reported.
pub proof fn law_rounds_reach_every_player<C>(
    entries: Seq<(Seq<char>, C)>,
    waiting: Seq<Waiting>,
    rounds: nat,
)
    requires
        entries.len() == waiting.len(),
    ensures
        ({
            let outcomes = waiting.map_values(
                |queue: Waiting| found_first(left_after(queue, rounds)),
            );
            let reports = reports_of(entries, outcomes);
            &&& forall|i: int|
                0 <= i < entries.len() && rounds < (#[trigger] waiting[i]).messages.len()
                    ==> reports.contains(
                    PollReportView::Received {
                        player_id: entries[i].0,
                        message: waiting[i].messages[rounds as int],
                    },
                )
            &&& forall|i: int|
                0 <= i < entries.len() && rounds >= (#[trigger] waiting[i]).messages.len()
                    && waiting[i].closed ==> reports.contains(
                    PollReportView::Closed { player_id: entries[i].0 },
                )
            &&& forall|report: PollReportView| #[trigger]
                reports.contains(report) ==> exists|i: int|
                    0 <= i < entries.len() && report_of(
                        entries[i].0,
                        found_first(left_after(#[trigger] waiting[i], rounds)),
                    ) == Some(report)
        }),
{
    let outcomes = waiting.map_values(|queue: Waiting| found_first(left_after(queue, rounds)));
    lemma_reports_are_those_of_players(entries, outcomes);
    assert forall|i: int|
        0 <= i < entries.len() && rounds < (#[trigger] waiting[i]).messages.len() implies reports_of(
        entries,
        outcomes,
    ).contains(
        PollReportView::Received {
            player_id: entries[i].0,
            message: waiting[i].messages[rounds as int],
        },
    ) by {
        law_polls_take_from_the_front(waiting[i], rounds);
        assert(outcomes[i] == found_first(left_after(waiting[i], rounds)));
    }
    assert forall|i: int|
        0 <= i < entries.len() && rounds >= (#[trigger] waiting[i]).messages.len()
            && waiting[i].closed implies reports_of(entries, outcomes).contains(
        PollReportView::Closed { player_id: entries[i].0 },
    ) by {
        law_polls_take_from_the_front(waiting[i], rounds);
        assert(outcomes[i] == found_first(left_after(waiting[i], rounds)));
    }
    assert forall|report: PollReportView| #[trigger]
        reports_of(entries, outcomes).contains(report) implies exists|i: int|
        0 <= i < entries.len() && report_of(
            entries[i].0,
            found_first(left_after(#[trigger] waiting[i], rounds)),
        ) == Some(report) by {
        let i = choose|i: int|
            0 <= i < outcomes.len() && report_of(entries[i].0, #[trigger] outcomes[i]) == Some(
                report,
            );
        assert(outcomes[i] == found_first(left_after(waiting[i], rounds)));
    }
}

pub(crate) proof fn lemma_reports_are_those_of_players<C>(
    entries: Seq<(Seq<char>, C)>,
    outcomes: Seq<PolledView>,
)
    requires
        outcomes.len() <= entries.len(),
    ensures
        forall|i: int|
            0 <= i < outcomes.len() && report_of(entries[i].0, #[trigger] outcomes[i]) is Some
                ==> reports_of(entries, outcomes).contains(
                report_of(entries[i].0, outcomes[i])->0,
            ),
        forall|report: PollReportView| #[trigger]
            reports_of(entries, outcomes).contains(report) ==> exists|i: int|
                0 <= i < outcomes.len() && report_of(entries[i].0, #[trigger] outcomes[i]) == Some(
                    report,
                ),
    decreases outcomes.len(),
{
    if outcomes.len() > 0 {
        let front = outcomes.drop_last();
        let last = outcomes.len() - 1;
        let earlier = reports_of(entries, front);
        let reports = reports_of(entries, outcomes);
        lemma_reports_are_those_of_players(entries, front);
        assert forall|i: int|
            0 <= i < outcomes.len() && report_of(entries[i].0, #[trigger] outcomes[i]) is Some
            implies reports.contains(report_of(entries[i].0, outcomes[i])->0) by {
            let report = report_of(entries[i].0, outcomes[i])->0;
            if i < last {
                assert(front[i] == outcomes[i]);
                let at = choose|at: int| 0 <= at < earlier.len() && earlier[at] == report;
                assert(reports[at] == report);
            } else {
                assert(reports[earlier.len() as int] == report);
            }
        }
        assert forall|report: PollReportView| #[trigger] reports.contains(report) implies exists|
            i: int,
        |
            0 <= i < outcomes.len() && report_of(entries[i].0, #[trigger] outcomes[i]) == Some(
                report,
            ) by {
            if earlier.contains(report) {
                let i = choose|i: int|
                    0 <= i < front.len() && report_of(entries[i].0, #[trigger] front[i]) == Some(
                        report,
                    );
                assert(outcomes[i] == front[i]);
            } else {
                let at = choose|at: int| 0 <= at < reports.len() && reports[at] == report;
                if at < earlier.len() {
                    assert(earlier[at] == report);
                }
                assert(report_of(entries[last].0, outcomes[last]) == Some(report));
            }
        }
    }
}

/// The reports on the polls of one player more are those on the polls before
/// it and, behind them, the report on that one: of the message under the
/// player's id, of the closed channel under the player's id, or none.
pub proof fn law_reports_follow_polls<C>(
    entries: Seq<(Seq<char>, C)>,
    outcomes: Seq<PolledView>,
    polled: PolledView,
)
    requires
        outcomes.len() < entries.len(),
    ensures
        reports_of(entries, Seq::empty()) == Seq::<PollReportView>::empty(),
        reports_of(entries, outcomes.push(polled)) == match polled {
            PolledView::Message(message) => reports_of(entries, outcomes).push(
                PollReportView::Received {
                    player_id: entries[outcomes.len() as int].0,
                    message,
                },
            ),
            PolledView::Empty => reports_of(entries, outcomes),
            PolledView::Closed => reports_of(entries, outcomes).push(
                PollReportView::Closed { player_id: entries[outcomes.len() as int].0 },
            ),
        },
{
    assert(outcomes.push(polled).drop_last() =~= outcomes);
}

/// Outcomes and reports are seen as what they are, one by one.
pub proof fn law_polls_seen_as_they_are(outcomes: Seq<Polled>, reports: Seq<PollReport>, i: int)
    ensures
        polled_views(outcomes).len() == outcomes.len(),
        report_views(reports).len() == reports.len(),
        0 <= i < outcomes.len() ==> polled_views(outcomes)[i] == match outcomes[i] {
            Polled::Message(message) => PolledView::Message(message@),
            Polled::Empty => PolledView::Empty,
            Polled::Closed => PolledView::Closed,
        },
        0 <= i < reports.len() ==> report_views(reports)[i] == match reports[i] {
            PollReport::Received { player_id, message } => PollReportView::Received {
                player_id: player_id@,
                message: message@,
            },
            PollReport::Closed { player_id } => PollReportView::Closed { player_id: player_id@ },
        },
{
}

/// No two numbers stand for the same player.
pub proof fn law_every_player_has_one_number<C>(map: ChannelMap<C>, left: int, right: int)
    requires
        map.wf(),
        0 <= left < map.entries().len(),
        0 <= right < map.entries().len(),
        map.entries()[left].0 == map.entries()[right].0,
    ensures
        left == right,
{
}

/// An outcome is found in a receiver only where a poll of that receiver came
/// back with it.
pub(crate) proof fn law_found_by_a_poll(
    receiver: async_channel::Receiver<ReliableClientMessage>,
    polled: Polled,
)
    requires
        found_in(receiver, polled),
    ensures
        exists|log: &mut PollLog| #[trigger] call_ensures(poll, (&receiver, log), polled),
{
}

} // verus!
