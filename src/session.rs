//! The decisions of one client session: what it asks of the game loop, and
//! what it sends its client after each tick.
use vstd::prelude::*;
use crate::game::{
    shown_rightly, snapshot_shows, BodyPosition, EngineInputMessage, GameState, GameView, Player,
};
use crate::geometry::Vector2;
use crate::registry::{ObjectId, Team, PUCK_ID};

verus! {

/// Another player, as a client is shown it.
#[derive(Clone, Copy, Debug, PartialEq, Eq, Structural)]
pub struct OtherPlayer {
    pub team: Team,
    pub position: Vector2,
}

/// What a client is sent after a tick.
#[derive(Debug)]
pub struct ServerClientMessage {
    pub other_players: Vec<OtherPlayer>,
    pub client_pos: Option<Vector2>,
    pub puck_pos: Vector2,
    pub red_score: u32,
    pub blue_score: u32,
}

/// What a client sends: where it wants its paddle, and which side it picks.
#[derive(Clone, Copy, Debug, PartialEq, Eq, Structural)]
pub struct ClientServerMessage {
    pub position: Option<Vector2>,
    pub team: Option<i32>,
}

/// Why a client's message was dropped.
#[derive(Clone, Copy, Debug, PartialEq, Eq, Structural)]
pub enum SessionError {
    /// The team number stands for no team.
    InvalidTeam(i32),
}

/// The players of `players` that the client `me` is shown: all but itself and the puck.
pub open spec fn others_of(players: Seq<Player>, me: ObjectId) -> Seq<OtherPlayer>
    decreases players.len(),
{
    if players.len() == 0 {
        Seq::empty()
    } else {
        let rest = others_of(players.drop_last(), me);
        let p = players.last();
        if p.id == me || p.id == PUCK_ID {
            rest
        } else {
            rest.push(OtherPlayer { team: p.team, position: p.position })
        }
    }
}

/// The position of the first player of `players` with identity `me`.
pub open spec fn own_position(players: Seq<Player>, me: ObjectId) -> Option<Vector2>
    decreases players.len(),
{
    if players.len() == 0 {
        None
    } else if players[0].id == me {
        Some(players[0].position)
    } else {
        own_position(players.subrange(1, players.len() as int), me)
    }
}

/// The commands that a message asks for: a move first, then a team.
pub open spec fn requested(id: ObjectId, position: Option<Vector2>, team: Option<Team>) -> Seq<
    EngineInputMessage,
> {
    let moves = match position {
        Some(p) => seq![EngineInputMessage::MovePlayer(id, p)],
        None => Seq::empty(),
    };
    match team {
        Some(t) => moves.push(EngineInputMessage::SetTeam(id, t)),
        None => moves,
    }
}

/// Each player a client is shown is some other player of the snapshot.
pub proof fn lemma_others_sound(players: Seq<Player>, me: ObjectId, k: int)
    requires
        0 <= k < others_of(players, me).len(),
    ensures
        exists|i: int|
            0 <= i < players.len() && #[trigger] players[i] == players[i] && players[i].id != me
                && players[i].id != PUCK_ID && players[i].team == others_of(players, me)[k].team
                && players[i].position == others_of(players, me)[k].position,
    decreases players.len(),
{
    let d = players.drop_last();
    let rest = others_of(d, me);
    if k < rest.len() {
        lemma_others_sound(d, me, k);
        let i = choose|i: int|
            0 <= i < d.len() && #[trigger] d[i] == d[i] && d[i].id != me && d[i].id != PUCK_ID
                && d[i].team == rest[k].team && d[i].position == rest[k].position;
        assert(players[i] == d[i]);
        assert(others_of(players, me)[k] == rest[k]);
    } else {
        assert(players[players.len() - 1] == players.last());
    }
}

/// A position the client is given as its own is that of a player with its identity.
pub proof fn lemma_own_position_sound(players: Seq<Player>, me: ObjectId)
    requires
        own_position(players, me) is Some,
    ensures
        exists|i: int|
            0 <= i < players.len() && #[trigger] players[i].id == me && Some(players[i].position)
                == own_position(players, me),
    decreases players.len(),
{
    if players[0].id != me {
        let rest = players.subrange(1, players.len() as int);
        lemma_own_position_sound(rest, me);
        let i = choose|i: int|
            0 <= i < rest.len() && #[trigger] rest[i].id == me && Some(rest[i].position)
                == own_position(rest, me);
        assert(players[i + 1] == rest[i]);
    }
}

/// No client is shown a spectator: everyone among its other players is on a
/// side, and a spectator is given no position of its own.
pub proof fn lemma_view_hides_spectators(
    v: GameView,
    table: Seq<BodyPosition>,
    players: Seq<Player>,
    me: ObjectId,
)
    requires
        snapshot_shows(v, table, players),
    ensures
        forall|k: int|
            0 <= k < others_of(players, me).len() ==> #[trigger] others_of(players, me)[k].team
                != Team::Spectator,
        v.teams().contains_key(me) && v.teams()[me] == Team::Spectator ==> own_position(
            players,
            me,
        ) is None,
{
    assert forall|k: int| 0 <= k < others_of(players, me).len() implies #[trigger] others_of(
        players,
        me,
    )[k].team != Team::Spectator by {
        lemma_others_sound(players, me, k);
        let i = choose|i: int|
            0 <= i < players.len() && #[trigger] players[i] == players[i] && players[i].id != me
                && players[i].id != PUCK_ID && players[i].team == others_of(players, me)[k].team
                && players[i].position == others_of(players, me)[k].position;
        assert(shown_rightly(v, table, players[i]));
    }
    if v.teams().contains_key(me) && v.teams()[me] == Team::Spectator && own_position(players, me) is Some {
        lemma_own_position_sound(players, me);
        let i = choose|i: int|
            0 <= i < players.len() && #[trigger] players[i].id == me && Some(players[i].position)
                == own_position(players, me);
        assert(shown_rightly(v, table, players[i]));
    }
}

/// One client's session, named by the identity the transport gave it.
#[derive(Clone, Copy, Debug, PartialEq, Eq, Structural)]
pub struct Session {
    pub id: ObjectId,
}

impl Session {
    /// A session just established: it asks the game loop to add its participant.
    pub fn connect(id: ObjectId) -> (r: (Session, EngineInputMessage))
        ensures
            r.0.id == id,
            r.1 == EngineInputMessage::AddPlayer(id),
    {
        (Session { id }, EngineInputMessage::AddPlayer(id))
    }

    /// What the client is sent for the snapshot `state`: everyone else but
    /// the puck, its own position if it is shown, the puck and the score.
    pub fn on_snapshot(&self, state: &GameState) -> (r: ServerClientMessage)
        ensures
            r.other_players@ == others_of(state.players@, self.id),
            r.client_pos == own_position(state.players@, self.id),
            r.puck_pos == state.puck_pos,
            r.red_score == state.red_score,
            r.blue_score == state.blue_score,
    {
        let players = &state.players;
        let mut others: Vec<OtherPlayer> = Vec::new();
        let mut client_pos: Option<Vector2> = None;
        let mut i: usize = 0;
        assert(players@.subrange(0, players@.len() as int) =~= players@);
        while i < players.len()
            invariant
                i <= players@.len(),
                others@ == others_of(players@.subrange(0, i as int), self.id),
                client_pos is Some ==> client_pos == own_position(players@, self.id),
                client_pos is None ==> own_position(players@, self.id) == own_position(
                    players@.subrange(i as int, players@.len() as int),
                    self.id,
                ),
            decreases players@.len() - i,
        {
            let p = players[i];
            proof {
                let sub = players@.subrange(0, i + 1);
                assert(sub.drop_last() =~= players@.subrange(0, i as int));
                assert(sub.last() == p);
                let rest = players@.subrange(i as int, players@.len() as int);
                assert(rest[0] == p);
                assert(rest.subrange(1, rest.len() as int) =~= players@.subrange(
                    i + 1,
                    players@.len() as int,
                ));
            }
            if p.id == self.id {
                if client_pos.is_none() {
                    client_pos = Some(p.position);
                }
            } else if p.id != PUCK_ID {
                others.push(OtherPlayer { team: p.team, position: p.position });
            }
            i += 1;
        }
        assert(players@.subrange(0, players@.len() as int) =~= players@);
        ServerClientMessage {
            other_players: others,
            client_pos,
            puck_pos: state.puck_pos,
            red_score: state.red_score,
            blue_score: state.blue_score,
        }
    }

    /// The commands that a client's message asks for: a move towards its
    /// position, then a change of team. A team number that stands for no
    /// team drops the whole message.
    pub fn on_datagram(&self, msg: &ClientServerMessage) -> (r: Result<
        Vec<EngineInputMessage>,
        SessionError,
    >)
        ensures
            r is Err <==> (msg.team matches Some(v) && Team::spec_from_wire(v) is None),
            r matches Err(e) ==> e == SessionError::InvalidTeam(msg.team->0),
            r matches Ok(cmds) ==> cmds@ == requested(
                self.id,
                msg.position,
                match msg.team {
                    Some(v) => Team::spec_from_wire(v),
                    None => None,
                },
            ),
    {
        let team = match msg.team {
            Some(v) => match Team::from_wire(v) {
                Some(t) => Some(t),
                None => {
                    return Err(SessionError::InvalidTeam(v));
                },
            },
            None => None,
        };
        let mut cmds: Vec<EngineInputMessage> = Vec::new();
        if let Some(p) = msg.position {
            cmds.push(EngineInputMessage::MovePlayer(self.id, p));
        }
        if let Some(t) = team {
            cmds.push(EngineInputMessage::SetTeam(self.id, t));
        }
        assert(cmds@ =~= requested(self.id, msg.position, team));
        Ok(cmds)
    }

    /// The connection ended, closed by the peer or failed: the game loop is
    /// asked to remove the participant.
    pub fn on_closed(&self) -> (r: EngineInputMessage)
        ensures
            r == EngineInputMessage::RemovePlayer(self.id),
    {
        EngineInputMessage::RemovePlayer(self.id)
    }
}

} // verus!
