//! The game loop's decisions: commands applied to the registry, goals, and
//! the snapshot published after each tick.
use vstd::prelude::*;
use crate::geometry::{
    clamp_to_rink, rink_center, rink_clamp, spec_rink_center, Vector2, ARENA_WIDTH, PUCK_RADIUS,
};
use crate::registry::{
    bodies_distinct, ids_distinct, lemma_roster_domain, lemma_roster_index, lemma_roster_push,
    lemma_roster_remove, lemma_roster_update, lemma_roster_finite, roster_of, BodyHandle, ObjectId, Participant, Team,
    PUCK_ID,
};

verus! {

/// A command that a session hands to the game loop.
#[derive(Clone, Copy, Debug, PartialEq, Eq, Structural)]
pub enum EngineInputMessage {
    AddPlayer(ObjectId),
    SetTeam(ObjectId, Team),
    MovePlayer(ObjectId, Vector2),
    RemovePlayer(ObjectId),
}

/// What the simulation has to do once a command is applied.
#[derive(Clone, Copy, Debug, PartialEq, Eq, Structural)]
pub enum EngineAction {
    /// Nothing: the command was a no-op.
    Nothing,
    /// Create a paddle body at the rink centre and register it with `Game::add_player`.
    CreatePaddle(ObjectId),
    /// Switch the body's collision and physics on or off.
    SetEnabled(BodyHandle, bool),
    /// Set the body's velocity towards this target, already clamped into the rink.
    MoveTowards(BodyHandle, Vector2),
    /// Remove the body and all that is attached to it.
    RemoveBody(BodyHandle),
}

/// What the game loop knows, as mathematical values.
pub struct GameView {
    pub puck: BodyHandle,
    pub roster: Map<ObjectId, Participant>,
    pub red_score: u32,
    pub blue_score: u32,
}

impl GameView {
    /// Every identity with a body: the puck under `PUCK_ID`, and each participant.
    pub open spec fn bodies(self) -> Map<ObjectId, BodyHandle> {
        Map::new(
            |id: ObjectId| id == PUCK_ID || self.roster.contains_key(id),
            |id: ObjectId|
                if id == PUCK_ID {
                    self.puck
                } else {
                    self.roster[id].body
                },
        )
    }

    /// The team of each participant.
    pub open spec fn teams(self) -> Map<ObjectId, Team> {
        self.roster.map_values(|p: Participant| p.team)
    }

    /// Some identity holds `body`.
    pub open spec fn uses_body(self, body: BodyHandle) -> bool {
        exists|id: ObjectId| #[trigger] self.bodies().contains_key(id) && self.bodies()[id] == body
    }

    /// The same state with another roster.
    pub open spec fn with_roster(self, roster: Map<ObjectId, Participant>) -> GameView {
        GameView { puck: self.puck, roster, red_score: self.red_score, blue_score: self.blue_score }
    }

    /// The puck is no participant, each record sits under its own identity,
    /// and no two identities share a body.
    pub open spec fn wf(self) -> bool {
        &&& self.roster.dom().finite()
        &&& !self.roster.contains_key(PUCK_ID)
        &&& forall|id: ObjectId| #[trigger] self.roster.contains_key(id) ==> self.roster[id].id == id
        &&& forall|a: ObjectId, b: ObjectId|
            #[trigger] self.bodies().contains_key(a) && #[trigger] self.bodies().contains_key(b)
                && a != b ==> self.bodies()[a] != self.bodies()[b]
    }
}

/// Where the simulation has a body after a step.
#[derive(Clone, Copy, Debug, PartialEq, Eq, Structural)]
pub struct BodyPosition {
    pub body: BodyHandle,
    pub position: Vector2,
}

/// A participant as a snapshot shows it.
#[derive(Clone, Copy, Debug, PartialEq, Eq, Structural)]
pub struct Player {
    pub id: ObjectId,
    pub position: Vector2,
    pub team: Team,
}

/// The authoritative state at the end of one tick.
#[derive(Debug)]
pub struct GameState {
    pub players: Vec<Player>,
    pub puck_pos: Vector2,
    pub red_score: u32,
    pub blue_score: u32,
}

impl GameState {
    /// The state before the first tick: nobody, the puck at the centre, no score.
    pub fn new() -> (r: GameState)
        ensures
            r.players@.len() == 0,
            r.puck_pos == spec_rink_center(),
            r.red_score == 0,
            r.blue_score == 0,
    {
        GameState { players: Vec::new(), puck_pos: rink_center(), red_score: 0, blue_score: 0 }
    }
}

/// The position of the first entry of `table` for `body`.
pub open spec fn position_in(table: Seq<BodyPosition>, body: BodyHandle) -> Option<Vector2>
    decreases table.len(),
{
    if table.len() == 0 {
        None
    } else if table[0].body == body {
        Some(table[0].position)
    } else {
        position_in(table.subrange(1, table.len() as int), body)
    }
}

/// The players of a snapshot: each record of `s` in order, but spectators
/// and bodies that `table` does not place.
pub open spec fn visible_players(s: Seq<Participant>, table: Seq<BodyPosition>) -> Seq<Player>
    decreases s.len(),
{
    if s.len() == 0 {
        Seq::empty()
    } else {
        let rest = visible_players(s.drop_last(), table);
        let p = s.last();
        if p.team == Team::Spectator {
            rest
        } else {
            match position_in(table, p.body) {
                Some(position) => rest.push(Player { id: p.id, position, team: p.team }),
                None => rest,
            }
        }
    }
}

/// Each player that a snapshot shows is a participant on a side, where the
/// table places its body.
pub proof fn lemma_visible_sound(s: Seq<Participant>, table: Seq<BodyPosition>, k: int)
    requires
        0 <= k < visible_players(s, table).len(),
    ensures
        exists|i: int|
            0 <= i < s.len() && #[trigger] s[i] == s[i] && s[i].id == visible_players(s, table)[k].id
                && s[i].team == visible_players(s, table)[k].team && s[i].team != Team::Spectator
                && position_in(table, s[i].body) == Some(visible_players(s, table)[k].position),
    decreases s.len(),
{
    let rest = visible_players(s.drop_last(), table);
    if k < rest.len() {
        lemma_visible_sound(s.drop_last(), table, k);
        let i = choose|i: int|
            0 <= i < s.drop_last().len() && #[trigger] s.drop_last()[i] == s.drop_last()[i]
                && s.drop_last()[i].id == rest[k].id && s.drop_last()[i].team == rest[k].team
                && s.drop_last()[i].team != Team::Spectator && position_in(
                table,
                s.drop_last()[i].body,
            ) == Some(rest[k].position);
        assert(s[i] == s.drop_last()[i]);
        assert(visible_players(s, table)[k] == rest[k]);
    } else {
        let j = s.len() - 1;
        assert(s[j] == s.last());
    }
}

/// Each participant on a side whose body the table places is shown.
pub proof fn lemma_visible_complete(s: Seq<Participant>, table: Seq<BodyPosition>, i: int)
    requires
        0 <= i < s.len(),
        s[i].team != Team::Spectator,
        position_in(table, s[i].body) is Some,
    ensures
        visible_players(s, table).contains(
            Player { id: s[i].id, position: position_in(table, s[i].body)->0, team: s[i].team },
        ),
    decreases s.len(),
{
    let pl = Player { id: s[i].id, position: position_in(table, s[i].body)->0, team: s[i].team };
    let rest = visible_players(s.drop_last(), table);
    if i < s.len() - 1 {
        assert(s.drop_last()[i] == s[i]);
        lemma_visible_complete(s.drop_last(), table, i);
        let k = choose|k: int| 0 <= k < rest.len() && rest[k] == pl;
        assert(visible_players(s, table)[k] == pl);
    } else {
        assert(s.last() == s[i]);
        assert(visible_players(s, table).last() == pl);
    }
}

/// With distinct identities among the records, a snapshot shows each identity once.
pub proof fn lemma_visible_ids_distinct(s: Seq<Participant>, table: Seq<BodyPosition>, a: int, b: int)
    requires
        ids_distinct(s),
        0 <= a < visible_players(s, table).len(),
        0 <= b < visible_players(s, table).len(),
        a != b,
    ensures
        visible_players(s, table)[a].id != visible_players(s, table)[b].id,
    decreases s.len(),
{
    let d = s.drop_last();
    let rest = visible_players(d, table);
    assert(ids_distinct(d)) by {
        assert forall|i: int, j: int| 0 <= i < d.len() && 0 <= j < d.len() && i != j implies d[i].id
            != d[j].id by {
            assert(d[i] == s[i] && d[j] == s[j]);
        }
    }
    if a < rest.len() && b < rest.len() {
        lemma_visible_ids_distinct(d, table, a, b);
        assert(visible_players(s, table)[a] == rest[a]);
        assert(visible_players(s, table)[b] == rest[b]);
    } else {
        let k = if a < rest.len() { a } else { b };
        lemma_visible_sound(d, table, k);
        let i = choose|i: int|
            0 <= i < d.len() && #[trigger] d[i] == d[i] && d[i].id == rest[k].id && d[i].team
                == rest[k].team && d[i].team != Team::Spectator && position_in(table, d[i].body)
                == Some(rest[k].position);
        assert(d[i] == s[i]);
        assert(s.last() == s[s.len() - 1]);
        assert(visible_players(s, table)[k] == rest[k]);
    }
}

/// `pl` may stand in a snapshot of `v`: a participant on a side, at the
/// place that `table` gives its body.
pub open spec fn shown_rightly(v: GameView, table: Seq<BodyPosition>, pl: Player) -> bool {
    &&& v.roster.contains_key(pl.id)
    &&& v.roster[pl.id].team == pl.team
    &&& pl.team != Team::Spectator
    &&& position_in(table, v.roster[pl.id].body) == Some(pl.position)
}

/// `players` is what a snapshot of `v` shows: the participants on a side
/// whose bodies `table` places, each once, and no one else.
pub open spec fn snapshot_shows(v: GameView, table: Seq<BodyPosition>, players: Seq<Player>) -> bool {
    &&& forall|k: int| 0 <= k < players.len() ==> shown_rightly(v, table, #[trigger] players[k])
    &&& forall|a: int, b: int|
        0 <= a < players.len() && 0 <= b < players.len() && a != b ==> #[trigger] players[a].id
            != #[trigger] players[b].id
    &&& forall|id: ObjectId|
        #[trigger] v.roster.contains_key(id) && v.roster[id].team != Team::Spectator && position_in(
            table,
            v.roster[id].body,
        ) is Some ==> players.contains(
            Player {
                id,
                position: position_in(table, v.roster[id].body)->0,
                team: v.roster[id].team,
            },
        )
}

/// Where `table` places `body` first, if anywhere.
pub fn position_of(table: &Vec<BodyPosition>, body: BodyHandle) -> (r: Option<Vector2>)
    ensures
        r == position_in(table@, body),
{
    let mut i: usize = 0;
    assert(table@.subrange(0, table@.len() as int) =~= table@);
    while i < table.len()
        invariant
            i <= table@.len(),
            position_in(table@, body) == position_in(table@.subrange(i as int, table@.len() as int), body),
        decreases table@.len() - i,
    {
        let ghost rest = table@.subrange(i as int, table@.len() as int);
        assert(rest[0] == table@[i as int]);
        assert(rest.subrange(1, rest.len() as int) =~= table@.subrange(i + 1, table@.len() as int));
        if table[i].body == body {
            return Some(table[i].position);
        }
        i += 1;
    }
    None
}

/// The state and the action that applying `msg` leads to.
pub open spec fn command_effect(v: GameView, msg: EngineInputMessage) -> (GameView, EngineAction) {
    match msg {
        EngineInputMessage::AddPlayer(id) => (
            v,
            if id == PUCK_ID {
                EngineAction::Nothing
            } else {
                EngineAction::CreatePaddle(id)
            },
        ),
        EngineInputMessage::SetTeam(id, team) => if v.roster.contains_key(id) {
            (
                v.with_roster(
                    v.roster.insert(id, Participant { id, body: v.roster[id].body, team }),
                ),
                EngineAction::SetEnabled(v.roster[id].body, team != Team::Spectator),
            )
        } else {
            (v, EngineAction::Nothing)
        },
        EngineInputMessage::MovePlayer(id, target) => (
            v,
            if v.bodies().contains_key(id) {
                EngineAction::MoveTowards(v.bodies()[id], rink_clamp(target))
            } else {
                EngineAction::Nothing
            },
        ),
        EngineInputMessage::RemovePlayer(id) => if id != PUCK_ID && v.roster.contains_key(id) {
            (v.with_roster(v.roster.remove(id)), EngineAction::RemoveBody(v.roster[id].body))
        } else {
            (v, EngineAction::Nothing)
        },
    }
}

/// The state after a paddle `body` was created for `id`: a spectator.
pub open spec fn admitted(v: GameView, id: ObjectId, body: BodyHandle) -> GameView {
    v.with_roster(v.roster.insert(id, Participant { id, body, team: Team::Spectator }))
}

/// The side that scores when the puck stands at `puck_pos` after a step:
/// past the left mouth red, past the right mouth blue.
pub open spec fn goal_for(puck_pos: Vector2) -> Option<Team> {
    if puck_pos.x < -PUCK_RADIUS {
        Some(Team::Red)
    } else if puck_pos.x > ARENA_WIDTH + PUCK_RADIUS {
        Some(Team::Blue)
    } else {
        None
    }
}

/// A score after one tick: one more when `hit`, held at the largest value.
pub open spec fn next_score(score: u32, hit: bool) -> u32 {
    if hit && score < u32::MAX {
        (score + 1) as u32
    } else {
        score
    }
}

/// The state after the goal check `goal`.
pub open spec fn after_goal(v: GameView, goal: Option<Team>) -> GameView {
    GameView {
        puck: v.puck,
        roster: v.roster,
        red_score: next_score(v.red_score, goal == Some(Team::Red)),
        blue_score: next_score(v.blue_score, goal == Some(Team::Blue)),
    }
}

/// Scores never go down, and one tick adds at most one goal, to one side:
/// the puck is put back at the centre as soon as it has crossed a mouth.
pub proof fn lemma_tick_score(v: GameView, puck_pos: Vector2)
    ensures
        ({
            let g = goal_for(puck_pos);
            let w = after_goal(v, g);
            &&& v.red_score <= w.red_score <= v.red_score + 1
            &&& v.blue_score <= w.blue_score <= v.blue_score + 1
            &&& w.red_score + w.blue_score <= v.red_score + v.blue_score + 1
            &&& (g == Some(Team::Red) && v.red_score < u32::MAX ==> w.red_score == v.red_score + 1)
            &&& (g == Some(Team::Blue) && v.blue_score < u32::MAX ==> w.blue_score == v.blue_score
                + 1)
            &&& (g is None ==> w == v)
        }),
{
}

/// Commands and admissions leave the score alone.
pub proof fn lemma_commands_keep_score(
    v: GameView,
    msg: EngineInputMessage,
    id: ObjectId,
    body: BodyHandle,
)
    ensures
        command_effect(v, msg).0.red_score == v.red_score,
        command_effect(v, msg).0.blue_score == v.blue_score,
        admitted(v, id, body).red_score == v.red_score,
        admitted(v, id, body).blue_score == v.blue_score,
{
}

/// The puck keeps its one body through every command and every tick: no
/// command removes it, and a command to remove the puck's identity does nothing.
pub proof fn lemma_puck_permanent(v: GameView, msg: EngineInputMessage, puck_pos: Vector2)
    requires
        v.wf(),
    ensures
        command_effect(v, msg).0.puck == v.puck,
        command_effect(v, msg).0.bodies().contains_key(PUCK_ID),
        command_effect(v, msg).0.bodies()[PUCK_ID] == v.puck,
        command_effect(v, msg).1 != EngineAction::RemoveBody(v.puck),
        command_effect(v, EngineInputMessage::RemovePlayer(PUCK_ID)) == (v, EngineAction::Nothing),
        after_goal(v, goal_for(puck_pos)).puck == v.puck,
{
    if let EngineInputMessage::RemovePlayer(id) = msg {
        if id != PUCK_ID && v.roster.contains_key(id) {
            assert(v.bodies().contains_key(id) && v.bodies().contains_key(PUCK_ID));
        }
    }
}

/// Commands keep a well-formed state well-formed.
pub proof fn lemma_command_keeps_wf(v: GameView, msg: EngineInputMessage)
    requires
        v.wf(),
    ensures
        command_effect(v, msg).0.wf(),
{
    let w = command_effect(v, msg).0;
    match msg {
        EngineInputMessage::SetTeam(id, team) => {
            if v.roster.contains_key(id) {
                assert(w.bodies() =~= v.bodies());
            }
        },
        EngineInputMessage::RemovePlayer(id) => {
            if id != PUCK_ID && v.roster.contains_key(id) {
                assert forall|a: ObjectId, b: ObjectId|
                    #[trigger] w.bodies().contains_key(a) && #[trigger] w.bodies().contains_key(b)
                        && a != b implies w.bodies()[a] != w.bodies()[b] by {
                    assert(v.bodies().contains_key(a) && v.bodies().contains_key(b));
                }
            }
        },
        _ => {},
    }
}

/// Admitting a new identity with a body that nobody holds adds exactly one
/// participant, and every identity still holds a body of its own.
pub proof fn lemma_admit_new(v: GameView, id: ObjectId, body: BodyHandle)
    requires
        v.wf(),
        id != PUCK_ID,
        !v.roster.contains_key(id),
        !v.uses_body(body),
    ensures
        admitted(v, id, body).wf(),
        admitted(v, id, body).roster.len() == v.roster.len() + 1,
        admitted(v, id, body).bodies() == v.bodies().insert(id, body),
        admitted(v, id, body).teams()[id] == Team::Spectator,
{
    let w = admitted(v, id, body);
    assert(w.bodies() =~= v.bodies().insert(id, body));
    assert forall|a: ObjectId, b: ObjectId|
        #[trigger] w.bodies().contains_key(a) && #[trigger] w.bodies().contains_key(b) && a
            != b implies w.bodies()[a] != w.bodies()[b] by {
        if a == id {
            assert(v.bodies().contains_key(b));
        } else if b == id {
            assert(v.bodies().contains_key(a));
        }
    }
}

/// No snapshot shows a spectator: each player it shows is a participant on a side.
pub proof fn lemma_snapshot_hides_spectators(
    v: GameView,
    table: Seq<BodyPosition>,
    players: Seq<Player>,
    k: int,
)
    requires
        snapshot_shows(v, table, players),
        0 <= k < players.len(),
    ensures
        players[k].team != Team::Spectator,
        v.teams().contains_key(players[k].id),
        v.teams()[players[k].id] != Team::Spectator,
{
    assert(shown_rightly(v, table, players[k]));
}

/// The single writer of the registry: the puck, the participants and the score.
pub struct Game {
    puck_handle: BodyHandle,
    participants: Vec<Participant>,
    red_score: u32,
    blue_score: u32,
}

impl View for Game {
    type V = GameView;

    closed spec fn view(&self) -> GameView {
        GameView {
            puck: self.puck_handle,
            roster: roster_of(self.participants@),
            red_score: self.red_score,
            blue_score: self.blue_score,
        }
    }
}

impl Game {
    /// The records are distinct in identity and body, none is the puck's.
    pub closed spec fn wf(&self) -> bool {
        let s = self.participants@;
        &&& ids_distinct(s)
        &&& bodies_distinct(s)
        &&& forall|i: int|
            0 <= i < s.len() ==> #[trigger] s[i].id != PUCK_ID && s[i].body != self.puck_handle
    }

    /// A well-formed game has a well-formed view.
    pub proof fn lemma_view_wf(&self)
        requires
            self.wf(),
        ensures
            self@.wf(),
    {
        let s = self.participants@;
        let v = self@;
        lemma_roster_domain(s, PUCK_ID);
        lemma_roster_finite(s);
        assert forall|id: ObjectId| #[trigger] v.roster.contains_key(id) implies v.roster[id].id
            == id by {
            self.lemma_record_of(id);
        }
        assert forall|a: ObjectId, b: ObjectId|
            #[trigger] v.bodies().contains_key(a) && #[trigger] v.bodies().contains_key(b) && a
                != b implies v.bodies()[a] != v.bodies()[b] by {
            if a != PUCK_ID {
                let i = self.lemma_record_of(a);
                if b != PUCK_ID {
                    let j = self.lemma_record_of(b);
                }
            } else if b != PUCK_ID {
                let j = self.lemma_record_of(b);
            }
        }
    }

    /// A participant of the roster is the record at some index.
    proof fn lemma_record_of(&self, id: ObjectId) -> (i: int)
        requires
            self.wf(),
            self@.roster.contains_key(id),
        ensures
            0 <= i < self.participants@.len(),
            self.participants@[i].id == id,
            self@.roster[id] == self.participants@[i],
    {
        lemma_roster_domain(self.participants@, id);
        let i = choose|i: int| 0 <= i < self.participants@.len() && self.participants@[i].id == id;
        lemma_roster_index(self.participants@, i);
        i
    }

    /// A body that no identity holds is on no record.
    proof fn lemma_free_body(&self, body: BodyHandle)
        requires
            self.wf(),
            !self@.uses_body(body),
        ensures
            body != self.puck_handle,
            forall|i: int| 0 <= i < self.participants@.len() ==> self.participants@[i].body != body,
    {
        assert(self@.bodies().contains_key(PUCK_ID));
        assert forall|i: int| 0 <= i < self.participants@.len() implies self.participants@[i].body
            != body by {
            lemma_roster_index(self.participants@, i);
            assert(self@.bodies().contains_key(self.participants@[i].id));
        }
    }

    /// A game with the puck's body `puck`, no participant and no score.
    pub fn new(puck: BodyHandle) -> (r: Game)
        ensures
            r.wf(),
            r@ == (GameView { puck, roster: Map::empty(), red_score: 0, blue_score: 0 }),
    {
        let r = Game { puck_handle: puck, participants: Vec::new(), red_score: 0, blue_score: 0 };
        assert(roster_of(r.participants@) =~= Map::empty());
        r
    }

    /// The index of the record of `id`, if any.
    fn find(&self, id: ObjectId) -> (r: Option<usize>)
        requires
            self.wf(),
        ensures
            r matches Some(i) ==> i < self.participants@.len() && self.participants@[i as int].id
                == id && self@.roster.contains_key(id) && self@.roster[id]
                == self.participants@[i as int],
            r is None ==> !self@.roster.contains_key(id),
    {
        let mut i: usize = 0;
        while i < self.participants.len()
            invariant
                self.wf(),
                i <= self.participants@.len(),
                forall|k: int| 0 <= k < i ==> self.participants@[k].id != id,
            decreases self.participants@.len() - i,
        {
            if self.participants[i].id == id {
                proof {
                    lemma_roster_index(self.participants@, i as int);
                }
                return Some(i);
            }
            i += 1;
        }
        proof {
            lemma_roster_domain(self.participants@, id);
        }
        None
    }

    /// Whether some identity, the puck's included, holds `body`.
    pub fn handle_in_use(&self, body: BodyHandle) -> (r: bool)
        requires
            self.wf(),
        ensures
            r == self@.uses_body(body),
    {
        if body == self.puck_handle {
            assert(self@.bodies().contains_key(PUCK_ID));
            return true;
        }
        let mut i: usize = 0;
        while i < self.participants.len()
            invariant
                self.wf(),
                i <= self.participants@.len(),
                forall|k: int| 0 <= k < i ==> self.participants@[k].body != body,
            decreases self.participants@.len() - i,
        {
            if self.participants[i].body == body {
                proof {
                    lemma_roster_index(self.participants@, i as int);
                    assert(self@.bodies().contains_key(self.participants@[i as int].id));
                }
                return true;
            }
            i += 1;
        }
        proof {
            assert forall|id: ObjectId| #[trigger]
                self@.bodies().contains_key(id) implies self@.bodies()[id] != body by {
                if id != PUCK_ID {
                    let k = self.lemma_record_of(id);
                }
            }
        }
        false
    }

    /// Registers `id` as a spectator whose paddle is the new body `body`; the
    /// puck's identity is refused.
    pub fn add_player(&mut self, id: ObjectId, body: BodyHandle) -> (r: Option<()>)
        requires
            old(self).wf(),
            !old(self)@.uses_body(body),
        ensures
            final(self).wf(),
            id == PUCK_ID ==> r is None && final(self)@ == old(self)@,
            id != PUCK_ID ==> r is Some && final(self)@ == admitted(old(self)@, id, body),
    {
        if id == PUCK_ID {
            return None;
        }
        proof {
            self.lemma_free_body(body);
        }
        let p = Participant { id, body, team: Team::Spectator };
        match self.find(id) {
            Some(i) => {
                proof {
                    lemma_roster_update(self.participants@, i as int, p);
                }
                self.participants.set(i, p);
            },
            None => {
                proof {
                    lemma_roster_domain(self.participants@, id);
                    lemma_roster_push(self.participants@, p);
                }
                self.participants.push(p);
            },
        }
        Some(())
    }
    /// Unregisters `id` and hands back its body; the puck's identity and an
    /// unknown one are refused.
    pub fn remove_player(&mut self, id: ObjectId) -> (r: Option<BodyHandle>)
        requires
            old(self).wf(),
        ensures
            final(self).wf(),
            id == PUCK_ID || !old(self)@.roster.contains_key(id) ==> r is None && final(self)@
                == old(self)@,
            id != PUCK_ID && old(self)@.roster.contains_key(id) ==> r == Some(
                old(self)@.roster[id].body,
            ) && final(self)@ == old(self)@.with_roster(old(self)@.roster.remove(id)),
    {
        if id == PUCK_ID {
            return None;
        }
        match self.find(id) {
            None => None,
            Some(i) => {
                let ghost s = self.participants@;
                proof {
                    lemma_roster_remove(s, i as int);
                }
                let p = self.participants.remove(i);
                proof {
                    let t = self.participants@;
                    assert forall|a: int, b: int|
                        0 <= a < t.len() && 0 <= b < t.len() && a != b implies t[a].id != t[b].id
                        && t[a].body != t[b].body by {
                        let a2 = if a < i { a } else { a + 1 };
                        let b2 = if b < i { b } else { b + 1 };
                        assert(t[a] == s[a2] && t[b] == s[b2]);
                    }
                    assert forall|k: int| 0 <= k < t.len() implies #[trigger] t[k].id != PUCK_ID
                        && t[k].body != self.puck_handle by {
                        let k2 = if k < i { k } else { k + 1 };
                        assert(t[k] == s[k2]);
                    }
                }
                Some(p.body)
            },
        }
    }

    /// Puts participant `id` on `team` and hands back its body; an unknown
    /// identity, the puck's among them, is refused.
    pub fn set_team(&mut self, id: ObjectId, team: Team) -> (r: Option<BodyHandle>)
        requires
            old(self).wf(),
        ensures
            final(self).wf(),
            !old(self)@.roster.contains_key(id) ==> r is None && final(self)@ == old(self)@,
            old(self)@.roster.contains_key(id) ==> r == Some(old(self)@.roster[id].body)
                && final(self)@ == old(self)@.with_roster(
                old(self)@.roster.insert(id, Participant { id, body: old(self)@.roster[id].body, team }),
            ),
    {
        match self.find(id) {
            None => None,
            Some(i) => {
                let body = self.participants[i].body;
                let p = Participant { id, body, team };
                let ghost s = self.participants@;
                proof {
                    lemma_roster_update(s, i as int, p);
                }
                self.participants.set(i, p);
                proof {
                    let t = self.participants@;
                    assert forall|k: int| 0 <= k < t.len() implies t[k].id == s[k].id && t[k].body
                        == s[k].body by {}
                }
                Some(body)
            },
        }
    }

    /// The body of `id`, the puck's included, and the target clamped into the
    /// rink that it is to be moved towards.
    pub fn move_player(&self, id: ObjectId, target: Vector2) -> (r: Option<(BodyHandle, Vector2)>)
        requires
            self.wf(),
        ensures
            r == (if self@.bodies().contains_key(id) {
                Some((self@.bodies()[id], rink_clamp(target)))
            } else {
                None
            }),
    {
        let goal = clamp_to_rink(target);
        if id == PUCK_ID {
            return Some((self.puck_handle, goal));
        }
        match self.find(id) {
            None => None,
            Some(i) => Some((self.participants[i].body, goal)),
        }
    }

    /// Applies one command to the registry and says what the simulation has to do.
    pub fn apply(&mut self, msg: EngineInputMessage) -> (r: EngineAction)
        requires
            old(self).wf(),
        ensures
            final(self).wf(),
            (final(self)@, r) == command_effect(old(self)@, msg),
    {
        match msg {
            EngineInputMessage::AddPlayer(id) => {
                if id == PUCK_ID {
                    EngineAction::Nothing
                } else {
                    EngineAction::CreatePaddle(id)
                }
            },
            EngineInputMessage::SetTeam(id, team) => match self.set_team(id, team) {
                Some(body) => EngineAction::SetEnabled(body, team.is_playing()),
                None => EngineAction::Nothing,
            },
            EngineInputMessage::MovePlayer(id, target) => match self.move_player(id, target) {
                Some((body, goal)) => EngineAction::MoveTowards(body, goal),
                None => EngineAction::Nothing,
            },
            EngineInputMessage::RemovePlayer(id) => match self.remove_player(id) {
                Some(body) => EngineAction::RemoveBody(body),
                None => EngineAction::Nothing,
            },
        }
    }

    /// Counts a goal when the puck has left through a mouth: the left one
    /// scores red, the right one blue. The caller puts the puck back at the
    /// rink centre, at rest, when a side is returned.
    pub fn check_goal(&mut self, puck_pos: Vector2) -> (r: Option<Team>)
        requires
            old(self).wf(),
        ensures
            final(self).wf(),
            r == goal_for(puck_pos),
            final(self)@ == after_goal(old(self)@, r),
    {
        if puck_pos.x < 0 - PUCK_RADIUS {
            if self.red_score < u32::MAX {
                self.red_score = self.red_score + 1;
            }
            Some(Team::Red)
        } else if puck_pos.x > ARENA_WIDTH + PUCK_RADIUS {
            if self.blue_score < u32::MAX {
                self.blue_score = self.blue_score + 1;
            }
            Some(Team::Blue)
        } else {
            None
        }
    }

    /// The players that a snapshot shows, in the order the participants joined.
    pub closed spec fn spec_players(&self, table: Seq<BodyPosition>) -> Seq<Player> {
        visible_players(self.participants@, table)
    }

    /// The players in the order the participants joined are what a snapshot shows.
    pub proof fn lemma_players_shown(&self, table: Seq<BodyPosition>)
        requires
            self.wf(),
        ensures
            snapshot_shows(self@, table, self.spec_players(table)),
    {
        let s = self.participants@;
        let players = visible_players(s, table);
        assert forall|k: int| 0 <= k < players.len() implies shown_rightly(
            self@,
            table,
            #[trigger] players[k],
        ) by {
            lemma_visible_sound(s, table, k);
            let i = choose|i: int|
                0 <= i < s.len() && #[trigger] s[i] == s[i] && s[i].id == players[k].id
                    && s[i].team == players[k].team && s[i].team != Team::Spectator && position_in(
                    table,
                    s[i].body,
                ) == Some(players[k].position);
            lemma_roster_index(s, i);
        }
        assert forall|a: int, b: int|
            0 <= a < players.len() && 0 <= b < players.len() && a != b implies #[trigger] players[a].id
            != #[trigger] players[b].id by {
            lemma_visible_ids_distinct(s, table, a, b);
        }
        assert forall|id: ObjectId|
            #[trigger] self@.roster.contains_key(id) && self@.roster[id].team != Team::Spectator
                && position_in(table, self@.roster[id].body) is Some implies players.contains(
            Player {
                id,
                position: position_in(table, self@.roster[id].body)->0,
                team: self@.roster[id].team,
            },
        ) by {
            let i = self.lemma_record_of(id);
            lemma_visible_complete(s, table, i);
        }
    }

    /// The snapshot of this tick, with the puck at `puck_pos` and the
    /// participants' bodies where `table` places them.
    pub fn snapshot(&self, puck_pos: Vector2, table: &Vec<BodyPosition>) -> (r: GameState)
        requires
            self.wf(),
        ensures
            r.players@ == self.spec_players(table@),
            snapshot_shows(self@, table@, r.players@),
            r.puck_pos == puck_pos,
            r.red_score == self@.red_score,
            r.blue_score == self@.blue_score,
    {
        let ghost s = self.participants@;
        let mut players: Vec<Player> = Vec::new();
        let mut i: usize = 0;
        while i < self.participants.len()
            invariant
                s == self.participants@,
                i <= s.len(),
                players@ == visible_players(s.subrange(0, i as int), table@),
            decreases s.len() - i,
        {
            let p = self.participants[i];
            proof {
                let sub = s.subrange(0, i + 1);
                assert(sub.drop_last() =~= s.subrange(0, i as int));
                assert(sub.last() == p);
            }
            if p.team.is_playing() {
                match position_of(table, p.body) {
                    Some(position) => players.push(Player { id: p.id, position, team: p.team }),
                    None => {},
                }
            }
            i += 1;
        }
        proof {
            assert(s.subrange(0, s.len() as int) =~= s);
            self.lemma_players_shown(table@);
        }
        GameState {
            players,
            puck_pos,
            red_score: self.red_score,
            blue_score: self.blue_score,
        }
    }

    /// The end of a tick, after the simulation stepped with the puck at
    /// `puck_pos` and the bodies where `table` places them: the goal check,
    /// then the snapshot to publish. When a side scored, the snapshot shows
    /// the puck at the rink centre, where the caller puts it back at rest.
    pub fn end_tick(&mut self, puck_pos: Vector2, table: &Vec<BodyPosition>) -> (r: (
        Option<Team>,
        GameState,
    ))
        requires
            old(self).wf(),
        ensures
            final(self).wf(),
            r.0 == goal_for(puck_pos),
            final(self)@ == after_goal(old(self)@, r.0),
            r.1.players@ == final(self).spec_players(table@),
            snapshot_shows(final(self)@, table@, r.1.players@),
            r.1.puck_pos == (if r.0 is Some {
                spec_rink_center()
            } else {
                puck_pos
            }),
            r.1.red_score == final(self)@.red_score,
            r.1.blue_score == final(self)@.blue_score,
    {
        let scored = self.check_goal(puck_pos);
        let shown = match scored {
            Some(_) => rink_center(),
            None => puck_pos,
        };
        let state = self.snapshot(shown, table);
        (scored, state)
    }

    /// The puck's body.
    pub fn puck_handle(&self) -> (r: BodyHandle)
        ensures
            r == self@.puck,
    {
        self.puck_handle
    }

    /// Goals scored by red.
    pub fn red_score(&self) -> (r: u32)
        ensures
            r == self@.red_score,
    {
        self.red_score
    }

    /// Goals scored by blue.
    pub fn blue_score(&self) -> (r: u32)
        ensures
            r == self@.blue_score,
    {
        self.blue_score
    }

    /// How many participants are registered; the puck is not one.
    pub fn participant_count(&self) -> (r: usize)
        requires
            self.wf(),
        ensures
            r == self@.roster.len(),
    {
        proof {
            lemma_roster_finite(self.participants@);
        }
        self.participants.len()
    }

    /// The body of `id`, the puck's included.
    pub fn body_of(&self, id: ObjectId) -> (r: Option<BodyHandle>)
        requires
            self.wf(),
        ensures
            r == (if self@.bodies().contains_key(id) {
                Some(self@.bodies()[id])
            } else {
                None
            }),
    {
        if id == PUCK_ID {
            return Some(self.puck_handle);
        }
        match self.find(id) {
            Some(i) => Some(self.participants[i].body),
            None => None,
        }
    }

    /// The team of participant `id`.
    pub fn team_of(&self, id: ObjectId) -> (r: Option<Team>)
        requires
            self.wf(),
        ensures
            r == (if self@.teams().contains_key(id) {
                Some(self@.teams()[id])
            } else {
                None
            }),
    {
        match self.find(id) {
            Some(i) => Some(self.participants[i].team),
            None => None,
        }
    }
}

} // verus!
