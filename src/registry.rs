//! Participants, teams and simulation handles, and the map that a list of
//! participant records stands for.
use vstd::prelude::*;

verus! {

/// Identity of a participant, as the transport gives it per session.
pub type ObjectId = u64;

/// The reserved identity of the puck; never given to a participant.
pub const PUCK_ID: ObjectId = 0;

/// The side a participant plays on.
#[derive(Clone, Copy, Debug, PartialEq, Eq, Structural)]
pub enum Team {
    Spectator,
    Red,
    Blue,
}

impl Team {
    /// The number that stands for the team on the wire.
    pub open spec fn spec_wire(self) -> i32 {
        match self {
            Team::Spectator => 0,
            Team::Red => 1,
            Team::Blue => 2,
        }
    }

    /// The number that stands for the team on the wire: 0, 1 or 2.
    pub fn to_wire(self) -> (r: i32)
        ensures
            r == self.spec_wire(),
    {
        match self {
            Team::Spectator => 0,
            Team::Red => 1,
            Team::Blue => 2,
        }
    }

    /// The team that a wire number stands for, if any.
    pub open spec fn spec_from_wire(v: i32) -> Option<Team> {
        if v == 0 {
            Some(Team::Spectator)
        } else if v == 1 {
            Some(Team::Red)
        } else if v == 2 {
            Some(Team::Blue)
        } else {
            None
        }
    }

    /// The team that a wire number stands for; `None` for any other number.
    pub fn from_wire(v: i32) -> (r: Option<Team>)
        ensures
            r == Team::spec_from_wire(v),
            r is None <==> !(0 <= v <= 2),
            r matches Some(t) ==> t.spec_wire() == v,
    {
        if v == 0 {
            Some(Team::Spectator)
        } else if v == 1 {
            Some(Team::Red)
        } else if v == 2 {
            Some(Team::Blue)
        } else {
            None
        }
    }

    /// Whether a body on this team takes part in the game (spectators do not).
    pub fn is_playing(self) -> (r: bool)
        ensures
            r == (self != Team::Spectator),
    {
        match self {
            Team::Spectator => false,
            _ => true,
        }
    }
}

/// A body of the simulation, named by its slot and that slot's generation.
#[derive(Clone, Copy, Debug, PartialEq, Eq, Structural)]
pub struct BodyHandle {
    pub index: u32,
    pub generation: u32,
}

/// One registered participant: its identity, its body and its team.
#[derive(Clone, Copy, Debug, PartialEq, Eq, Structural)]
pub struct Participant {
    pub id: ObjectId,
    pub body: BodyHandle,
    pub team: Team,
}

/// The participants of `s` by identity; a later record overrides an earlier one.
pub open spec fn roster_of(s: Seq<Participant>) -> Map<ObjectId, Participant>
    decreases s.len(),
{
    if s.len() == 0 {
        Map::empty()
    } else {
        roster_of(s.drop_last()).insert(s.last().id, s.last())
    }
}

/// No two records of `s` share an identity.
pub open spec fn ids_distinct(s: Seq<Participant>) -> bool {
    forall|i: int, j: int| 0 <= i < s.len() && 0 <= j < s.len() && i != j ==> s[i].id != s[j].id
}

/// No two records of `s` share a body.
pub open spec fn bodies_distinct(s: Seq<Participant>) -> bool {
    forall|i: int, j: int|
        0 <= i < s.len() && 0 <= j < s.len() && i != j ==> s[i].body != s[j].body
}

proof fn lemma_distinct_drop_last(s: Seq<Participant>)
    requires
        s.len() > 0,
        ids_distinct(s),
    ensures
        ids_distinct(s.drop_last()),
        forall|i: int| 0 <= i < s.len() - 1 ==> s.drop_last()[i].id != s.last().id,
{
    assert forall|i: int| 0 <= i < s.len() - 1 implies s.drop_last()[i].id != s.last().id by {
        assert(s.drop_last()[i] == s[i]);
    }
}

/// An identity is in the roster exactly when some record carries it.
pub proof fn lemma_roster_domain(s: Seq<Participant>, id: ObjectId)
    ensures
        roster_of(s).contains_key(id) <==> exists|i: int| 0 <= i < s.len() && s[i].id == id,
    decreases s.len(),
{
    if s.len() > 0 {
        lemma_roster_domain(s.drop_last(), id);
        if roster_of(s.drop_last()).contains_key(id) {
            let i = choose|i: int| 0 <= i < s.drop_last().len() && s.drop_last()[i].id == id;
            assert(s[i].id == id);
        }
        if exists|i: int| 0 <= i < s.len() && s[i].id == id {
            let i = choose|i: int| 0 <= i < s.len() && s[i].id == id;
            if i < s.len() - 1 {
                assert(s.drop_last()[i].id == id);
            }
        }
    }
}

/// With distinct identities, each record is what the roster holds for its identity.
pub proof fn lemma_roster_index(s: Seq<Participant>, i: int)
    requires
        ids_distinct(s),
        0 <= i < s.len(),
    ensures
        roster_of(s).contains_key(s[i].id),
        roster_of(s)[s[i].id] == s[i],
    decreases s.len(),
{
    if i < s.len() - 1 {
        lemma_distinct_drop_last(s);
        lemma_roster_index(s.drop_last(), i);
        assert(s.drop_last()[i] == s[i]);
    }
}

/// Appending a record enters it under its identity.
pub proof fn lemma_roster_push(s: Seq<Participant>, p: Participant)
    ensures
        roster_of(s.push(p)) == roster_of(s).insert(p.id, p),
{
    assert(s.push(p).drop_last() =~= s);
}

/// Replacing a record by one with the same identity replaces the roster entry.
pub proof fn lemma_roster_update(s: Seq<Participant>, i: int, p: Participant)
    requires
        ids_distinct(s),
        0 <= i < s.len(),
        p.id == s[i].id,
    ensures
        roster_of(s.update(i, p)) == roster_of(s).insert(p.id, p),
    decreases s.len(),
{
    let t = s.update(i, p);
    lemma_distinct_drop_last(s);
    if i == s.len() - 1 {
        assert(t.drop_last() =~= s.drop_last());
        assert(roster_of(t) =~= roster_of(s).insert(p.id, p));
    } else {
        assert(t.drop_last() =~= s.drop_last().update(i, p));
        lemma_roster_update(s.drop_last(), i, p);
        assert(s.drop_last()[i] == s[i]);
        assert(roster_of(t) =~= roster_of(s).insert(p.id, p));
    }
}

/// Removing a record removes its identity from the roster.
pub proof fn lemma_roster_remove(s: Seq<Participant>, i: int)
    requires
        ids_distinct(s),
        0 <= i < s.len(),
    ensures
        roster_of(s.remove(i)) == roster_of(s).remove(s[i].id),
    decreases s.len(),
{
    let t = s.remove(i);
    lemma_distinct_drop_last(s);
    if i == s.len() - 1 {
        assert(t =~= s.drop_last());
        lemma_roster_domain(s.drop_last(), s[i].id);
        assert(!roster_of(s.drop_last()).contains_key(s[i].id));
        assert(roster_of(t) =~= roster_of(s).remove(s[i].id));
    } else {
        assert(t.drop_last() =~= s.drop_last().remove(i));
        assert(t.last() == s.last());
        lemma_roster_remove(s.drop_last(), i);
        assert(s.drop_last()[i] == s[i]);
        assert(roster_of(t) =~= roster_of(s).remove(s[i].id));
    }
}

/// The roster of a list is finite, and as large as the list when identities are distinct.
pub proof fn lemma_roster_finite(s: Seq<Participant>)
    ensures
        roster_of(s).dom().finite(),
        ids_distinct(s) ==> roster_of(s).len() == s.len(),
    decreases s.len(),
{
    if s.len() > 0 {
        lemma_roster_finite(s.drop_last());
        if ids_distinct(s) {
            lemma_distinct_drop_last(s);
            lemma_roster_domain(s.drop_last(), s.last().id);
        }
    }
}

} // verus!
