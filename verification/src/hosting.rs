//! What a host process decides: who a connection belongs to, when a game is gone, and how a game is
//! kept in storage.
use std::time::Duration;

use vstd::prelude::*;

use crate::game::{Game, IncomingGhostMessage, IncomingMessage, State};
use crate::session::Effect;
use crate::texts::{after_last_slash, decimal, has_start, is_decimal, last_segment, numbers_are_read_back, starts_with};
use crate::watcher::Id;
use crate::AlarmMessage;

verus! {

/// There is no such game.
#[derive(Copy, Clone, Debug, PartialEq, Eq, Structural)]
pub struct GameVanish {}

impl GameVanish {
    /// The error in words.
    pub fn message(&self) -> (text: &'static str)
        ensures
            text@ == "game does not exist"@,
    {
        "game does not exist"
    }
}

/// Whether the game is there and not over: others are not to be seen.
pub open spec fn is_ongoing(game: Option<Game>) -> bool {
    game is Some && !(game->0.state is Done)
}

/// Whether the game is there and not over.
pub fn check_exists(game: &Option<Game>) -> (result: Result<(), GameVanish>)
    ensures
        result == if is_ongoing(*game) {
            Ok::<(), GameVanish>(())
        } else {
            Err((GameVanish {  }))
        },
{
    match game {
        Some(game) => match game.state {
            State::Done => Err(GameVanish {  }),
            _ => Ok(()),
        },
        None => Err(GameVanish {  }),
    }
}

/// Whether the game is over, if it is there.
pub fn is_game_done(game: &Option<Game>) -> (result: Result<bool, GameVanish>)
    ensures
        result == match *game {
            Some(game) => Ok::<bool, GameVanish>(game.state is Done),
            None => Err((GameVanish {  })),
        },
{
    match game {
        Some(game) => Ok(matches!(game.state, State::Done)),
        None => Err(GameVanish {  }),
    }
}

/// Whether someone takes part in the game, if it is there and not over.
pub fn watcher_exists(game: &Option<Game>, watcher_id: Id) -> (result: Result<bool, GameVanish>)
    ensures
        result == if is_ongoing(*game) {
            Ok::<bool, GameVanish>(game->0.watchers.values().contains_key(watcher_id))
        } else {
            Err((GameVanish {  }))
        },
{
    match check_exists(game) {
        Ok(()) => match game {
            Some(game) => Ok(game.watchers.has_watcher(watcher_id)),
            None => Err(GameVanish {  }),
        },
        Err(error) => Err(error),
    }
}

/// What becomes of a game that is looked after from time to time.
#[derive(Copy, Clone, Debug, PartialEq, Eq, Structural)]
pub enum Sweep {
    /// It goes on.
    Wait,
    /// It is over, and is taken away.
    Remove,
    /// It is gone, and needs no more looking after.
    Stop,
}

/// What becomes of a game that is looked after from time to time.
pub fn sweep(done: Result<bool, GameVanish>) -> (next: Sweep)
    ensures
        next == match done {
            Ok(false) => Sweep::Wait,
            Ok(true) => Sweep::Remove,
            Err(_) => Sweep::Stop,
        },
{
    match done {
        Ok(done) => if done {
            Sweep::Remove
        } else {
            Sweep::Wait
        },
        Err(_) => Sweep::Stop,
    }
}

/// Whether an answer to a ping does not hold what the last ping held.
pub fn is_mismatch(pong: &[u8], ping: &[u8]) -> (mismatch: bool)
    ensures
        mismatch == (pong@ != ping@),
{
    if pong.len() != ping.len() {
        return true;
    }
    let mut i: usize = 0;
    while i < pong.len()
        invariant
            i <= pong.len(),
            pong.len() == ping.len(),
            forall|j: int| 0 <= j < i ==> pong@[j] == ping@[j],
        decreases pong.len() - i,
    {
        if pong[i] != ping[i] {
            return true;
        }
        i = i + 1;
    }
    assert(pong@ =~= ping@);
    false
}

/// What comes in over a connection.
#[derive(Debug)]
pub enum Frame<'a> {
    /// The answer to a ping.
    Pong(&'a [u8]),
    /// A ping.
    Ping,
    /// A message; `None` where it cannot be read.
    Text(Option<IncomingMessage>),
    /// Anything else.
    Other,
}

/// What is done about it.
#[derive(Debug)]
pub enum Reaction {
    /// The connection is closed.
    Stop,
    /// Nothing.
    Ignore,
    /// The ping is answered.
    Answer,
    /// The message is routed.
    Route(IncomingMessage),
}

/// What is done about what comes in: nothing more once the game is gone, and nothing after an answer
/// to a ping that does not hold what the ping held.
pub open spec fn reaction(present: bool, frame: Frame, ping: Seq<u8>) -> Reaction {
    if !present {
        Reaction::Stop
    } else {
        match frame {
            Frame::Pong(pong) => if pong@ != ping {
                Reaction::Stop
            } else {
                Reaction::Ignore
            },
            Frame::Ping => Reaction::Answer,
            Frame::Text(Some(message)) => Reaction::Route(message),
            Frame::Text(None) => Reaction::Ignore,
            Frame::Other => Reaction::Stop,
        }
    }
}

/// What is done about what comes in.
pub fn react(present: bool, frame: Frame, ping: &[u8]) -> (result: Reaction)
    ensures
        result == reaction(present, frame, ping@),
{
    if !present {
        return Reaction::Stop;
    }
    match frame {
        Frame::Pong(pong) => if is_mismatch(pong, ping) {
            Reaction::Stop
        } else {
            Reaction::Ignore
        },
        Frame::Ping => Reaction::Answer,
        Frame::Text(message) => match message {
            Some(message) => Reaction::Route(message),
            None => Reaction::Ignore,
        },
        Frame::Other => Reaction::Stop,
    }
}

/// Where a message goes.
#[derive(Debug)]
pub enum Route {
    /// The connection is that of a participant.
    Claim(Id),
    /// The connection is that of a new participant.
    Join,
    /// The participant of the connection joins.
    Admit(Id),
    /// The participant of the connection is brought up to date.
    Resume(Id),
    /// The message goes to the game.
    Forward(Id, IncomingMessage),
    /// Nowhere.
    Ignore,
}

/// Where a message goes that comes over a connection nobody has identified on: only an identifier
/// that a participant of the game has can be claimed.
pub open spec fn unidentified_route(message: IncomingMessage, participants: Set<Id>) -> Route {
    match message {
        IncomingMessage::Newcomer(IncomingGhostMessage::ClaimId(id)) => if participants.contains(id) {
            Route::Claim(id)
        } else {
            Route::Join
        },
        IncomingMessage::Newcomer(IncomingGhostMessage::DemandId) => Route::Join,
        _ => Route::Ignore,
    }
}

fn route_unidentified(message: IncomingMessage, game: &Game) -> (route: Route)
    ensures
        route == unidentified_route(message, game.watchers.values().dom()),
{
    match message {
        IncomingMessage::Newcomer(IncomingGhostMessage::ClaimId(id)) => if game.watchers.has_watcher(id) {
            Route::Claim(id)
        } else {
            Route::Join
        },
        IncomingMessage::Newcomer(IncomingGhostMessage::DemandId) => Route::Join,
        _ => Route::Ignore,
    }
}

/// Where a message goes on a server that identifies participants by what they say: whoever is
/// identified is heard by the game, and cannot identify again.
pub fn route_message(watcher_id: Option<Id>, message: IncomingMessage, game: &Game) -> (route: Route)
    ensures
        route == match (watcher_id, message) {
            (None, message) => unidentified_route(message, game.watchers.values().dom()),
            (Some(_), IncomingMessage::Newcomer(_)) => Route::Ignore,
            (Some(id), message) => Route::Forward(id, message),
        },
{
    match watcher_id {
        None => route_unidentified(message, game),
        Some(id) => match message {
            IncomingMessage::Newcomer(_) => Route::Ignore,
            message => Route::Forward(id, message),
        },
    }
}

/// Where a message goes on a server that ties an identifier to a connection as it is opened: asking
/// for an identifier joins, claiming one brings up to date, and all else is heard by the game.
pub fn route_tied_message(tied: Option<Id>, message: IncomingMessage, game: &Game) -> (route: Route)
    ensures
        route == match (tied, message) {
            (None, message) => unidentified_route(message, game.watchers.values().dom()),
            (Some(id), IncomingMessage::Newcomer(IncomingGhostMessage::DemandId)) => Route::Admit(id),
            (Some(id), IncomingMessage::Newcomer(IncomingGhostMessage::ClaimId(_))) => Route::Resume(id),
            (Some(id), message) => Route::Forward(id, message),
        },
{
    match tied {
        None => route_unidentified(message, game),
        Some(id) => match message {
            IncomingMessage::Newcomer(IncomingGhostMessage::DemandId) => Route::Admit(id),
            IncomingMessage::Newcomer(IncomingGhostMessage::ClaimId(_)) => Route::Resume(id),
            message => Route::Forward(id, message),
        },
    }
}

// ---- requests ----

/// What a request asks of a game.
#[derive(Copy, Clone, Debug, PartialEq, Eq, Structural)]
pub enum Request {
    /// To be set up.
    Add,
    /// Whether it goes on.
    Alive,
    /// To be connected to, for the participant that the request names, if it names any.
    Watch(Option<Id>),
}

/// Whether a request with this path is `request`.
pub open spec fn asks(path: Seq<char>, request: Request) -> bool {
    if has_start(path, "/add"@) {
        request == Request::Add
    } else if has_start(path, "/alive"@) {
        request == Request::Alive
    } else {
        match request {
            Request::Watch(Some(id)) => after_last_slash(path) == decimal(id.0 as nat),
            Request::Watch(None) => !is_decimal(after_last_slash(path)),
            _ => false,
        }
    }
}

/// What a request with this path asks of a game.
pub fn requested(path: &str) -> (request: Request)
    ensures
        asks(path@, request),
{
    if starts_with(path, "/add") {
        Request::Add
    } else if starts_with(path, "/alive") {
        Request::Alive
    } else {
        Request::Watch(Id::from_text(last_segment(path)))
    }
}

/// A path asks for one thing only.
pub proof fn paths_are_unambiguous(path: Seq<char>, a: Request, b: Request)
    requires
        asks(path, a),
        asks(path, b),
    ensures
        a == b,
{
    if let Request::Watch(Some(one)) = a {
        if let Request::Watch(Some(other)) = b {
            numbers_are_read_back(one.0, other.0);
        }
    }
}

// ---- alarms ----

/// The alarm that is to be handed back, the last one, where there are several.
pub open spec fn last_scheduled(effects: Seq<Effect>) -> Option<(AlarmMessage, Duration)>
    decreases effects.len(),
{
    if effects.len() == 0 {
        None
    } else {
        match effects.last() {
            Effect::Schedule { alarm, after } => Some((alarm, after)),
            _ => last_scheduled(effects.drop_last()),
        }
    }
}

/// The alarm that is to be handed back, the last one, where there are several.
pub fn scheduled_alarm(effects: &Vec<Effect>) -> (alarm: Option<(AlarmMessage, Duration)>)
    ensures
        alarm == last_scheduled(effects@),
{
    let mut i: usize = effects.len();
    assert(effects@.take(i as int) =~= effects@);
    while i > 0
        invariant
            i <= effects.len(),
            last_scheduled(effects@) == last_scheduled(effects@.take(i as int)),
        decreases i,
    {
        assert(effects@.take(i as int).drop_last() =~= effects@.take(i - 1));
        assert(effects@.take(i as int).last() == effects@[i - 1]);
        i = i - 1;
        if let Effect::Schedule { alarm, after } = &effects[i] {
            return Some((*alarm, *after));
        }
    }
    None
}

/// What comes due for a game in storage.
#[derive(Copy, Clone, Debug, PartialEq, Eq, Structural)]
pub enum StoredAlarm {
    /// The game is deleted.
    DeleteGame,
    /// The game takes an alarm.
    Game(AlarmMessage),
}

/// After how many seconds a game that waits for nothing is deleted.
pub const GAME_EXPIRY_SECONDS: u64 = 3600;

/// What is set after a game took something in: its own alarm; else, unless one is set, that it is
/// deleted.
#[derive(Copy, Clone, Debug)]
pub enum AlarmChange {
    /// The alarm of the game is set.
    Schedule(AlarmMessage, Duration),
    /// The deletion of the game is set.
    Expire,
    /// All stays as it is.
    Keep,
}

/// What is set after a game took something in.
pub fn alarm_change(scheduled: Option<(AlarmMessage, Duration)>, alarm_is_set: bool) -> (change: AlarmChange)
    ensures
        change == match scheduled {
            Some((alarm, after)) => AlarmChange::Schedule(alarm, after),
            None => if alarm_is_set {
                AlarmChange::Keep
            } else {
                AlarmChange::Expire
            },
        },
{
    match scheduled {
        Some((alarm, after)) => AlarmChange::Schedule(alarm, after),
        None => if alarm_is_set {
            AlarmChange::Keep
        } else {
            AlarmChange::Expire
        },
    }
}

// ---- storage ----

/// How many bytes a piece in storage holds at most.
pub const CHUNK_SIZE: usize = 65536;

/// The pieces of a text of bytes, as sequences.
pub open spec fn pieces(chunks: Seq<Vec<u8>>) -> Seq<Seq<u8>> {
    chunks.map_values(|chunk: Vec<u8>| chunk@)
}

/// The bytes cut into pieces, all but the last one of full size.
pub open spec fn cut(bytes: Seq<u8>) -> Seq<Seq<u8>>
    decreases bytes.len(),
{
    if bytes.len() == 0 {
        Seq::empty()
    } else if bytes.len() <= CHUNK_SIZE {
        seq![bytes]
    } else {
        seq![bytes.take(CHUNK_SIZE as int)] + cut(bytes.skip(CHUNK_SIZE as int))
    }
}

/// The pieces put together.
pub open spec fn put_together(chunks: Seq<Seq<u8>>) -> Seq<u8>
    decreases chunks.len(),
{
    if chunks.len() == 0 {
        Seq::empty()
    } else {
        put_together(chunks.drop_last()) + chunks.last()
    }
}

/// Cuts bytes into pieces.
pub fn split_chunks(bytes: &Vec<u8>) -> (chunks: Vec<Vec<u8>>)
    ensures
        pieces(chunks@) == cut(bytes@),
{
    let mut chunks: Vec<Vec<u8>> = Vec::new();
    let mut at: usize = 0;
    assert(bytes@.skip(0) =~= bytes@);
    assert(pieces(chunks@) =~= Seq::<Seq<u8>>::empty());
    assert(pieces(chunks@) + cut(bytes@) =~= cut(bytes@));
    while at < bytes.len()
        invariant
            at <= bytes.len(),
            pieces(chunks@) + cut(bytes@.skip(at as int)) == cut(bytes@),
        decreases bytes.len() - at,
    {
        let end: usize = if bytes.len() - at <= CHUNK_SIZE {
            bytes.len()
        } else {
            at + CHUNK_SIZE
        };
        let mut chunk: Vec<u8> = Vec::new();
        let mut i: usize = at;
        while i < end
            invariant
                at <= i <= end,
                end <= bytes.len(),
                chunk@ == bytes@.subrange(at as int, i as int),
            decreases end - i,
        {
            chunk.push(bytes[i]);
            i = i + 1;
            assert(chunk@ =~= bytes@.subrange(at as int, i as int));
        }
        let ghost before = chunks@;
        let ghost rest = bytes@.skip(at as int);
        chunks.push(chunk);
        proof {
            assert(pieces(chunks@) =~= pieces(before).push(chunk@));
            if rest.len() <= CHUNK_SIZE {
                assert(chunk@ =~= rest);
                assert(bytes@.skip(end as int) =~= Seq::<u8>::empty());
                assert(pieces(chunks@) + cut(bytes@.skip(end as int)) =~= pieces(before) + cut(rest));
            } else {
                assert(chunk@ =~= rest.take(CHUNK_SIZE as int));
                assert(rest.skip(CHUNK_SIZE as int) =~= bytes@.skip(end as int));
                assert(pieces(chunks@) + cut(bytes@.skip(end as int)) =~= pieces(before) + cut(rest));
            }
        }
        at = end;
    }
    assert(bytes@.skip(at as int) =~= Seq::<u8>::empty());
    assert(pieces(chunks@) + cut(bytes@.skip(at as int)) =~= pieces(chunks@));
    chunks
}

/// Whether no piece is missing.
pub open spec fn complete(chunks: Seq<Option<Vec<u8>>>) -> bool {
    forall|i: int| 0 <= i < chunks.len() ==> (#[trigger] chunks[i]) is Some
}

/// The pieces that were found.
pub open spec fn found(chunks: Seq<Option<Vec<u8>>>) -> Seq<Seq<u8>> {
    chunks.map_values(|chunk: Option<Vec<u8>>| chunk->0@)
}

/// Puts pieces together; `None` where one is missing.
pub fn join_chunks(chunks: &Vec<Option<Vec<u8>>>) -> (bytes: Option<Vec<u8>>)
    ensures
        match bytes {
            Some(bytes) => complete(chunks@) && bytes@ == put_together(found(chunks@)),
            None => !complete(chunks@),
        },
{
    let mut bytes: Vec<u8> = Vec::new();
    let mut i: usize = 0;
    while i < chunks.len()
        invariant
            i <= chunks.len(),
            forall|j: int| 0 <= j < i ==> (#[trigger] chunks[j]) is Some,
            bytes@ == put_together(found(chunks@.take(i as int))),
        decreases chunks.len() - i,
    {
        match &chunks[i] {
            None => {
                assert(chunks@[i as int] is None);
                return None;
            },
            Some(chunk) => {
                let ghost before = bytes@;
                let mut j: usize = 0;
                while j < chunk.len()
                    invariant
                        j <= chunk.len(),
                        bytes@ == before + chunk@.take(j as int),
                    decreases chunk.len() - j,
                {
                    bytes.push(chunk[j]);
                    j = j + 1;
                    assert(bytes@ =~= before + chunk@.take(j as int));
                }
                proof {
                    assert(chunk@.take(j as int) =~= chunk@);
                    let longer = found(chunks@.take(i + 1));
                    assert(longer.drop_last() =~= found(chunks@.take(i as int)));
                    assert(longer.last() == chunk@);
                }
            },
        }
        i = i + 1;
    }
    assert(chunks@.take(i as int) =~= chunks@);
    Some(bytes)
}

proof fn lemma_put_together_front(first: Seq<u8>, rest: Seq<Seq<u8>>)
    ensures
        put_together(seq![first] + rest) == first + put_together(rest),
    decreases rest.len(),
{
    let all = seq![first] + rest;
    if rest.len() == 0 {
        assert(all =~= seq![first]);
        assert(all.drop_last() =~= Seq::<Seq<u8>>::empty());
        assert(put_together(all.drop_last()) == Seq::<u8>::empty());
        assert(put_together(all) =~= first + put_together(rest));
    } else {
        assert(all.drop_last() =~= seq![first] + rest.drop_last());
        lemma_put_together_front(first, rest.drop_last());
        assert(put_together(all) =~= first + put_together(rest));
    }
}

/// Bytes that were cut into pieces and put together again are the same bytes.
pub proof fn storage_keeps_the_bytes(bytes: Seq<u8>)
    ensures
        put_together(cut(bytes)) == bytes,
    decreases bytes.len(),
{
    if bytes.len() == 0 {
        assert(put_together(cut(bytes)) =~= bytes);
    } else if bytes.len() <= CHUNK_SIZE {
        assert(cut(bytes) =~= seq![bytes] + Seq::<Seq<u8>>::empty());
        lemma_put_together_front(bytes, Seq::empty());
        assert(put_together(Seq::<Seq<u8>>::empty()) == Seq::<u8>::empty());
        assert(put_together(cut(bytes)) =~= bytes);
    } else {
        let head = bytes.take(CHUNK_SIZE as int);
        let rest = bytes.skip(CHUNK_SIZE as int);
        storage_keeps_the_bytes(rest);
        lemma_put_together_front(head, cut(rest));
        assert(head + rest =~= bytes);
    }
}

/// No piece is empty, or larger than a piece may be.
pub proof fn pieces_fit(bytes: Seq<u8>, i: int)
    requires
        0 <= i < cut(bytes).len(),
    ensures
        0 < cut(bytes)[i].len() <= CHUNK_SIZE,
    decreases bytes.len(),
{
    if bytes.len() > CHUNK_SIZE && i > 0 {
        pieces_fit(bytes.skip(CHUNK_SIZE as int), i - 1);
    }
}

// ---- what a host process can count on ----

/// A game that is there and not over goes on, and only such a game tells who takes part; one that is over is
/// taken away, and one that is gone is left alone.
pub proof fn games_are_seen_while_they_go_on(
    game: Option<Game>,
    id: Id,
    exists_result: Result<(), GameVanish>,
    done: Result<bool, GameVanish>,
    takes_part: Result<bool, GameVanish>,
    next: Sweep,
)
    requires
        call_ensures(check_exists, (&game,), exists_result),
        call_ensures(is_game_done, (&game,), done),
        call_ensures(watcher_exists, (&game, id), takes_part),
        call_ensures(sweep, (done,), next),
    ensures
        exists_result is Ok <==> game is Some && !(game->0.state is Done),
        takes_part is Ok <==> exists_result is Ok,
        takes_part matches Ok(part) ==> (part <==> game->0.watchers.values().contains_key(id)),
        next == Sweep::Wait <==> exists_result is Ok,
        next == Sweep::Remove <==> game is Some && game->0.state is Done,
        next == Sweep::Stop <==> game is None,
        done is Err <==> game is None,
{
}

/// A connection is closed where the game is gone, where a ping is not answered with what it held, or where
/// something else than pings, answers and texts comes; messages that can be read are routed as they are, and
/// those that cannot are passed over.
pub proof fn connections_are_kept_while_they_behave(present: bool, frame: Frame, ping: Seq<u8>)
    ensures
        reaction(present, frame, ping) is Stop <==> !present || frame is Other || (frame matches Frame::Pong(pong)
            && pong@ != ping),
        reaction(present, frame, ping) is Answer <==> present && frame is Ping,
        reaction(present, frame, ping) is Ignore <==> present && ((frame matches Frame::Pong(pong) && pong@ == ping) || (
        frame matches Frame::Text(message) && message is None)),
        present ==> (frame matches Frame::Text(Some(message)) ==> reaction(present, frame, ping) == Reaction::Route(
            message,
        )),
{
}

/// Only participants can be claimed; whoever claims nobody or asks for an identifier joins; and nothing else
/// is heard over a connection that nobody has identified on.
pub proof fn only_participants_are_claimed(message: IncomingMessage, participants: Set<Id>)
    ensures
        unidentified_route(message, participants) matches Route::Claim(id) ==> participants.contains(id) && message
            == IncomingMessage::Newcomer(IncomingGhostMessage::ClaimId(id)),
        unidentified_route(message, participants) is Join <==> (message == IncomingMessage::Newcomer(
            IncomingGhostMessage::DemandId,
        ) || (message matches IncomingMessage::Newcomer(IncomingGhostMessage::ClaimId(id)) && !participants.contains(id))),
        unidentified_route(message, participants) is Ignore <==> !(message is Newcomer),
        unidentified_route(message, participants) is Ignore || unidentified_route(message, participants) is Join
            || unidentified_route(message, participants) is Claim,
{
}

/// Whoever is identified is heard by the game under their own identifier, with what they say; asking who one
/// is does not reach the game.
pub proof fn the_identified_are_heard(id: Id, message: IncomingMessage, game: Game, route: Route, tied: Route, unknown: Route)
    requires
        call_ensures(route_message, (Some(id), message, &game), route),
        call_ensures(route_tied_message, (Some(id), message, &game), tied),
        call_ensures(route_message, (None::<Id>, message, &game), unknown),
    ensures
        message is Newcomer <==> route is Ignore,
        !(message is Newcomer) ==> route == Route::Forward(id, message) && tied == Route::Forward(id, message),
        message == IncomingMessage::Newcomer(IncomingGhostMessage::DemandId) ==> tied == Route::Admit(id),
        message is Newcomer && message != IncomingMessage::Newcomer(IncomingGhostMessage::DemandId) ==> tied
            == Route::Resume(id),
        !(unknown is Forward),
        unknown matches Route::Claim(claimed) ==> game.watchers.values().contains_key(claimed),
{
}

/// The alarm that is handed back is the last one among the effects, and none where there is none.
pub proof fn the_last_alarm_counts(effects: Seq<Effect>)
    ensures
        last_scheduled(effects) is None <==> forall|i: int|
            0 <= i < effects.len() ==> !((#[trigger] effects[i]) is Schedule),
        forall|i: int|
            0 <= i < effects.len() && (#[trigger] effects[i]) is Schedule && (forall|j: int|
                i < j < effects.len() ==> !((#[trigger] effects[j]) is Schedule)) ==> last_scheduled(effects) == Some(
                (effects[i]->alarm, effects[i]->Schedule_after),
            ),
    decreases effects.len(),
{
    if effects.len() > 0 {
        let rest = effects.drop_last();
        let n = effects.len() - 1;
        the_last_alarm_counts(rest);
        if effects[n] is Schedule {
            assert(last_scheduled(effects) is Some);
            assert forall|i: int|
                0 <= i < effects.len() && (#[trigger] effects[i]) is Schedule && (forall|j: int|
                    i < j < effects.len() ==> !((#[trigger] effects[j]) is Schedule)) implies i == n by {
                if i < n {
                    assert(!(effects[n] is Schedule));
                }
            }
        } else {
            if last_scheduled(effects) is None {
                assert forall|i: int| 0 <= i < effects.len() implies !((#[trigger] effects[i]) is Schedule) by {
                    if i < n {
                        assert(!(rest[i] is Schedule));
                    }
                }
            }
            if forall|i: int| 0 <= i < effects.len() ==> !((#[trigger] effects[i]) is Schedule) {
                assert forall|i: int| 0 <= i < rest.len() implies !((#[trigger] rest[i]) is Schedule) by {
                    assert(!(effects[i] is Schedule));
                }
            }
            assert forall|i: int|
                0 <= i < effects.len() && (#[trigger] effects[i]) is Schedule && (forall|j: int|
                    i < j < effects.len() ==> !((#[trigger] effects[j]) is Schedule)) implies last_scheduled(effects)
                == Some((effects[i]->alarm, effects[i]->Schedule_after)) by {
                assert(i < n);
                assert(rest[i] is Schedule);
                assert forall|j: int| i < j < rest.len() implies !((#[trigger] rest[j]) is Schedule) by {
                    assert(!(effects[j] is Schedule));
                }
            }
        }
    }
}

/// All pieces but the last one are of full size.
pub proof fn all_pieces_but_the_last_are_full(bytes: Seq<u8>, i: int)
    requires
        0 <= i < cut(bytes).len() - 1,
    ensures
        cut(bytes)[i].len() == 65536,
    decreases bytes.len(),
{
    let rest = bytes.skip(CHUNK_SIZE as int);
    if i > 0 {
        assert(cut(bytes)[i] == cut(rest)[i - 1]);
        all_pieces_but_the_last_are_full(rest, i - 1);
    }
}

/// A path asks to set a game up or whether it goes on by how it starts, and else to connect, for the
/// participant whose number stands behind the last slash.
pub proof fn paths_say_what_is_asked(path: Seq<char>, request: Request)
    requires
        asks(path, request),
    ensures
        request == Request::Add <==> has_start(path, seq!['/', 'a', 'd', 'd']),
        request == Request::Alive <==> !has_start(path, seq!['/', 'a', 'd', 'd']) && has_start(
            path,
            seq!['/', 'a', 'l', 'i', 'v', 'e'],
        ),
        request matches Request::Watch(Some(id)) ==> after_last_slash(path) == decimal(id.0 as nat),
        request == Request::Watch(None) ==> forall|n: u128| after_last_slash(path) != #[trigger] decimal(n as nat),
{
    reveal_strlit("/add");
    reveal_strlit("/alive");
    assert("/add"@ =~= seq!['/', 'a', 'd', 'd']);
    assert("/alive"@ =~= seq!['/', 'a', 'l', 'i', 'v', 'e']);
    if request == Request::Watch(None) {
        assert forall|n: u128| after_last_slash(path) != #[trigger] decimal(n as nat) by {
            numbers_are_read_back(n, n);
        }
    }
}

/// What is cut into pieces for storage is put together again, and nothing is where a piece is missing.
pub proof fn stored_bytes_come_back(
    bytes: Vec<u8>,
    chunks: Vec<Vec<u8>>,
    kept: Vec<Option<Vec<u8>>>,
    back: Option<Vec<u8>>,
)
    requires
        call_ensures(split_chunks, (&bytes,), chunks),
        call_ensures(join_chunks, (&kept,), back),
        kept@.len() == chunks@.len(),
        forall|i: int| 0 <= i < kept@.len() ==> ((#[trigger] kept@[i]) matches Some(chunk) ==> chunk@ == chunks@[i]@),
    ensures
        back is Some <==> forall|i: int| 0 <= i < kept@.len() ==> (#[trigger] kept@[i]) is Some,
        back matches Some(back) ==> back@ == bytes@,
        forall|i: int| 0 <= i < chunks@.len() - 1 ==> #[trigger] chunks@[i]@.len() == 65536,
        forall|i: int| 0 <= i < chunks@.len() ==> 0 < #[trigger] chunks@[i]@.len() <= 65536,
{
    storage_keeps_the_bytes(bytes@);
    assert(pieces(chunks@).len() == chunks@.len());
    assert forall|i: int| 0 <= i < chunks@.len() - 1 implies #[trigger] chunks@[i]@.len() == 65536 by {
        all_pieces_but_the_last_are_full(bytes@, i);
        assert(pieces(chunks@)[i] == chunks@[i]@);
    }
    assert forall|i: int| 0 <= i < chunks@.len() implies 0 < #[trigger] chunks@[i]@.len() <= 65536 by {
        pieces_fit(bytes@, i);
        assert(pieces(chunks@)[i] == chunks@[i]@);
    }
    if back is Some {
        assert(complete(kept@));
        assert forall|i: int| 0 <= i < kept@.len() implies found(kept@)[i] == pieces(chunks@)[i] by {
            assert(kept@[i] is Some);
        }
        assert(found(kept@) =~= pieces(chunks@));
    }
}

/// The alarm that is handed back is the last one.
pub proof fn the_last_alarm_is_handed_back(effects: Vec<Effect>, alarm: Option<(AlarmMessage, Duration)>, i: int)
    requires
        call_ensures(scheduled_alarm, (&effects,), alarm),
        0 <= i < effects@.len(),
        effects@[i] is Schedule,
        forall|j: int| i < j < effects@.len() ==> !((#[trigger] effects@[j]) is Schedule),
    ensures
        alarm == Some((effects@[i]->alarm, effects@[i]->Schedule_after)),
{
    the_last_alarm_counts(effects@);
}

/// An answer to a ping is right where it holds just what the ping held.
pub proof fn pongs_hold_what_pings_held(pong: &[u8], ping: &[u8], mismatch: bool)
    requires
        call_ensures(is_mismatch, (pong, ping), mismatch),
    ensures
        !mismatch <==> pong@.len() == ping@.len() && forall|i: int| 0 <= i < pong@.len() ==> #[trigger] pong@[i] == ping@[i],
{
    if pong@.len() == ping@.len() && forall|i: int| 0 <= i < pong@.len() ==> #[trigger] pong@[i] == ping@[i] {
        assert(pong@ =~= ping@);
    }
}

} // verus!
