use crate::history::{collapse, in_force, timeline_of, History};
use std::collections::HashMap;
use vstd::prelude::*;
use vstd::std_specs::cmp::PartialEqSpec;
use vstd::std_specs::cmp::PartialEqSpecImpl;
use vstd::std_specs::iter::IteratorSpec;

verus! {

broadcast use vstd::std_specs::hash::group_hash_axioms;

/// The version of the cache's layout: a cache of another version is not
/// read.
pub const DATABASE_VERSION: u64 = 1;

/// A roster as one snapshot holds it.
#[derive(Debug, Clone)]
pub struct Team {
    pub id: u128,
    pub nickname: String,
    /// The batting order.
    pub lineup: [u128; 9],
    /// The pitching rotation.
    pub rotation: [u128; 5],
}

/// Whether `a` and `b` hold the same identifiers in the same order.
fn same_ids(a: &[u128], b: &[u128]) -> (same: bool)
    ensures
        same == (a@ == b@),
{
    if a.len() != b.len() {
        return false;
    }
    let mut i: usize = 0;
    while i < a.len()
        invariant
            a@.len() == b@.len(),
            i <= a@.len(),
            forall|j: int| 0 <= j < i ==> a@[j] == b@[j],
        decreases a@.len() - i,
    {
        if a[i] != b[i] {
            return false;
        }
        i = i + 1;
    }
    assert(a@ =~= b@);
    true
}

impl PartialEq for Team {
    fn eq(&self, other: &Team) -> (equal: bool) {
        self.id == other.id && self.nickname == other.nickname && same_ids(
            self.lineup.as_slice(),
            other.lineup.as_slice(),
        ) && same_ids(self.rotation.as_slice(), other.rotation.as_slice())
    }
}

impl PartialEqSpecImpl for Team {
    open spec fn obeys_eq_spec() -> bool {
        true
    }

    open spec fn eq_spec(&self, other: &Team) -> bool {
        &&& self.id == other.id
        &&& self.nickname@ == other.nickname@
        &&& self.lineup@ == other.lineup@
        &&& self.rotation@ == other.rotation@
    }
}

/// The histories of many entities, each under its identifier, as maps from
/// time to value.
pub open spec fn charts<T: PartialEq>(histories: Map<u128, History<T>>) -> Map<
    u128,
    Map<u64, T>,
> {
    Map::new(|id: u128| histories.contains_key(id), |id: u128| histories[id]@)
}

/// The value of entity `id` that was in force at `time`.
pub open spec fn as_of_spec<T>(charts: Map<u128, Map<u64, T>>, id: u128, time: u64) -> Option<T> {
    if charts.contains_key(id) {
        in_force(charts[id], time)
    } else {
        None
    }
}

/// `charts` with `value` put under `time` in the history of entity `id`,
/// which starts with it if the entity had none.
pub open spec fn taken<T>(charts: Map<u128, Map<u64, T>>, id: u128, time: u64, value: T) -> Map<
    u128,
    Map<u64, T>,
> {
    charts.insert(
        id,
        if charts.contains_key(id) {
            charts[id].insert(time, value)
        } else {
            Map::<u64, T>::empty().insert(time, value)
        },
    )
}

/// The value of entity `id` that was in force at `time`, if the entity is
/// known and had a record by then.
pub fn as_of<'a, T: PartialEq>(histories: &'a HashMap<u128, History<T>>, id: u128, time: u64) -> (found:
    Option<&'a T>)
    ensures
        match found {
            Some(value) => as_of_spec(charts(histories@), id, time) == Some(*value),
            None => as_of_spec(charts(histories@), id, time) is None,
        },
{
    match histories.get(&id) {
        Some(history) => history.get(time),
        None => None,
    }
}

/// Puts `value` under `time` in the history of entity `id`.
pub fn record<T: PartialEq>(
    histories: &mut HashMap<u128, History<T>>,
    id: u128,
    time: u64,
    value: T,
)
    ensures
        charts(final(histories)@) == taken(charts(old(histories)@), id, time, value),
{
    let mut history = match histories.remove(&id) {
        Some(history) => history,
        None => History::new(),
    };
    history.insert(time, value);
    histories.insert(id, history);
    assert(charts(histories@) =~= taken(charts(old(histories)@), id, time, value));
}

/// The identifiers under which `histories` holds a history, each once.
fn ids_of<T: PartialEq>(histories: &HashMap<u128, History<T>>) -> (ids: Vec<u128>)
    ensures
        ids@.no_duplicates(),
        forall|id: u128| ids@.contains(id) <==> histories@.contains_key(id),
{
    let mut ids: Vec<u128> = Vec::new();
    let ghost all = histories.keys().remaining();
    for id in it: histories.keys()
        invariant
            it.seq() == all,
            all == histories.keys().remaining(),
            ids@ == all.take(it.index() as int).unref(),
    {
        ids.push(*id);
        assert(ids@ =~= all.take(it.index() + 1).unref());
    }
    proof {
        assert(all.take(all.len() as int) == all);
        assert(all.unref().to_set() == histories@.dom());
        assert forall|id: u128| ids@.contains(id) <==> histories@.contains_key(id) by {
            assert(ids@.contains(id) <==> ids@.to_set().contains(id));
        }
        assert forall|i: int, j: int| 0 <= i < ids@.len() && 0 <= j < ids@.len() && i != j implies ids@[i]
            != ids@[j] by {
            assert(all[i] != all[j]);
        }
    }
    ids
}

/// Drops from every history each record whose value equals that of the
/// record kept before it.
pub fn dedup_all<T: PartialEq>(histories: &mut HashMap<u128, History<T>>)
    ensures
        final(histories)@.dom() == old(histories)@.dom(),
        forall|id: u128| #[trigger]
            old(histories)@.contains_key(id) ==> final(histories)@[id]@.submap_of(
                old(histories)@[id]@,
            ),
        T::obeys_eq_spec() ==> forall|id: u128| #[trigger]
            old(histories)@.contains_key(id) ==> timeline_of(final(histories)@[id]@) == collapse(
                timeline_of(old(histories)@[id]@),
            ),
{
    let ghost before = histories@;
    let ids = ids_of(histories);
    let mut i: usize = 0;
    while i < ids.len()
        invariant
            i <= ids@.len(),
            ids@.no_duplicates(),
            forall|id: u128| ids@.contains(id) <==> before.contains_key(id),
            histories@.dom() == before.dom(),
            forall|j: int| i <= j < ids@.len() ==> histories@[#[trigger] ids@[j]] == before[ids@[j]],
            forall|j: int|
                0 <= j < i ==> histories@[#[trigger] ids@[j]]@.submap_of(before[ids@[j]]@),
            T::obeys_eq_spec() ==> forall|j: int|
                0 <= j < i ==> timeline_of(histories@[#[trigger] ids@[j]]@) == collapse(
                    timeline_of(before[ids@[j]]@),
                ),
        decreases ids@.len() - i,
    {
        let id = ids[i];
        assert(ids@.contains(id));
        match histories.remove(&id) {
            Some(history) => {
                let mut history = history;
                history.dedup();
                histories.insert(id, history);
            },
            None => {},
        }
        assert(histories@.dom() =~= before.dom());
        i = i + 1;
    }
    proof {
        assert forall|id: u128| #[trigger] before.contains_key(id) implies histories@[id]@.submap_of(
            before[id]@,
        ) && (T::obeys_eq_spec() ==> timeline_of(histories@[id]@) == collapse(
            timeline_of(before[id]@),
        )) by {
            assert(ids@.contains(id));
            let j = choose|j: int| 0 <= j < ids@.len() && ids@[j] == id;
            assert(histories@[ids@[j]]@.submap_of(before[ids@[j]]@));
        }
    }
}

/// One record of the input: a batch of roster snapshots or of rating
/// snapshots, each taken at the batch's time, or a record of another kind.
#[allow(inconsistent_fields)]
pub enum InputLine<P> {
    AllTeams { data: Vec<Team>, timestamp: u64 },
    /// Each rating snapshot comes with the identifier of its participant.
    Players { data: Vec<(u128, P)>, timestamp: u64 },
    Other,
}

/// `charts` after each roster of `data` was put under `time` in the history
/// of its own identifier.
pub open spec fn teams_taken(charts: Map<u128, Map<u64, Team>>, data: Seq<Team>, time: u64) -> Map<
    u128,
    Map<u64, Team>,
>
    decreases data.len(),
{
    if data.len() == 0 {
        charts
    } else {
        taken(teams_taken(charts, data.drop_last(), time), data.last().id, time, data.last())
    }
}

/// `charts` after each rating snapshot of `data` was put under `time` in the
/// history of its participant.
pub open spec fn players_taken<P>(
    charts: Map<u128, Map<u64, P>>,
    data: Seq<(u128, P)>,
    time: u64,
) -> Map<u128, Map<u64, P>>
    decreases data.len(),
{
    if data.len() == 0 {
        charts
    } else {
        taken(players_taken(charts, data.drop_last(), time), data.last().0, time, data.last().1)
    }
}

/// The roster histories that `lines` give, before any record is dropped.
pub open spec fn team_charts<P>(lines: Seq<InputLine<P>>) -> Map<u128, Map<u64, Team>>
    decreases lines.len(),
{
    if lines.len() == 0 {
        Map::empty()
    } else {
        let before = team_charts(lines.drop_last());
        match lines.last() {
            InputLine::AllTeams { data, timestamp } => teams_taken(before, data@, timestamp),
            _ => before,
        }
    }
}

/// The rating histories that `lines` give, before any record is dropped.
pub open spec fn player_charts<P>(lines: Seq<InputLine<P>>) -> Map<u128, Map<u64, P>>
    decreases lines.len(),
{
    if lines.len() == 0 {
        Map::empty()
    } else {
        let before = player_charts(lines.drop_last());
        match lines.last() {
            InputLine::Players { data, timestamp } => players_taken(before, data@, timestamp),
            _ => before,
        }
    }
}

/// The lines that were read, where each was read well.
pub open spec fn read_well<P, E>(lines: Seq<Result<InputLine<P>, E>>) -> Seq<InputLine<P>> {
    Seq::new(lines.len(), |i: int| lines[i]->Ok_0)
}

/// The histories of all rosters and of all participants' ratings, each under
/// the identifier of its entity. A rating snapshot is whatever the caller
/// keeps as one: the database compares two of them and looks no further.
#[derive(Debug)]
pub struct Database<P: PartialEq> {
    pub teams: HashMap<u128, History<Team>>,
    pub players: HashMap<u128, History<P>>,
}

impl<P: PartialEq> Database<P> {
    /// Whether this database holds what `lines` give: for every entity
    /// that they name the history of its snapshots, each under the time of
    /// its batch, without the records that repeat the one kept before them.
    pub open spec fn holds(&self, lines: Seq<InputLine<P>>) -> bool {
        &&& self.teams@.dom() == team_charts(lines).dom()
        &&& self.players@.dom() == player_charts(lines).dom()
        &&& forall|id: u128| #[trigger]
            self.teams@.contains_key(id) ==> timeline_of(self.teams@[id]@) == collapse(
                timeline_of(team_charts(lines)[id]),
            )
        &&& forall|id: u128| #[trigger]
            self.players@.contains_key(id) ==> self.players@[id]@.submap_of(
                player_charts(lines)[id],
            )
        &&& P::obeys_eq_spec() ==> forall|id: u128| #[trigger]
            self.players@.contains_key(id) ==> timeline_of(self.players@[id]@) == collapse(
                timeline_of(player_charts(lines)[id]),
            )
    }

    /// A database without histories.
    pub fn new() -> (database: Database<P>)
        ensures
            database.teams@ == Map::<u128, History<Team>>::empty(),
            database.players@ == Map::<u128, History<P>>::empty(),
    {
        Database { teams: HashMap::new(), players: HashMap::new() }
    }

    /// Builds the database from the records of the input, in their order.
    /// A record that could not be read fails the whole load with its
    /// error; records of other kinds are passed over.
    pub fn load<E>(lines: Vec<Result<InputLine<P>, E>>) -> (loaded: Result<Database<P>, E>)
        ensures
            match loaded {
                Ok(database) => (forall|i: int| 0 <= i < lines@.len() ==> lines@[i] is Ok)
                    && database.holds(read_well(lines@)),
                Err(error) => exists|i: int|
                    0 <= i < lines@.len() && lines@[i] == Err::<InputLine<P>, E>(error)
                        && forall|j: int| 0 <= j < i ==> lines@[j] is Ok,
            },
    {
        let mut database = Database::new();
        let ghost all = lines@;
        for line in it: lines
            invariant
                it.seq() == all,
                forall|j: int| 0 <= j < it.index() ==> all[j] is Ok,
                charts(database.teams@) == team_charts(read_well(all.take(it.index() as int))),
                charts(database.players@) == player_charts(
                    read_well(all.take(it.index() as int)),
                ),
        {
            let ghost n = it.index() as int;
            let ghost this = line;
            let ghost teams_before = database.teams@;
            let ghost players_before = database.players@;
            proof {
                assert(read_well(all.take(n + 1)).drop_last() =~= read_well(all.take(n)));
                assert(all.take(n + 1)[n] == this);
            }
            match line {
                Err(error) => {
                    return Err(error);
                },
                Ok(InputLine::AllTeams { data, timestamp }) => {
                    let ghost start = charts(database.teams@);
                    let ghost teams = data@;
                    for team in at: data
                        invariant
                            at.seq() == teams,
                            database.players@ == players_before,
                            charts(database.teams@) == teams_taken(
                                start,
                                teams.take(at.index() as int),
                                timestamp,
                            ),
                    {
                        proof {
                            assert(teams.take(at.index() + 1).drop_last() =~= teams.take(
                                at.index() as int,
                            ));
                        }
                        let id = team.id;
                        record(&mut database.teams, id, timestamp, team);
                    }
                    proof {
                        assert(teams.take(teams.len() as int) =~= teams);
                        assert(read_well(all.take(n + 1)).last() == this->Ok_0);
                    }
                },
                Ok(InputLine::Players { data, timestamp }) => {
                    let ghost start = charts(database.players@);
                    let ghost players = data@;
                    for player in at: data
                        invariant
                            at.seq() == players,
                            database.teams@ == teams_before,
                            charts(database.players@) == players_taken(
                                start,
                                players.take(at.index() as int),
                                timestamp,
                            ),
                    {
                        proof {
                            assert(players.take(at.index() + 1).drop_last() =~= players.take(
                                at.index() as int,
                            ));
                        }
                        record(&mut database.players, player.0, timestamp, player.1);
                    }
                    proof {
                        assert(players.take(players.len() as int) =~= players);
                        assert(read_well(all.take(n + 1)).last() == this->Ok_0);
                    }
                },
                Ok(InputLine::Other) => {
                    proof {
                        assert(read_well(all.take(n + 1)).last() == this->Ok_0);
                    }
                },
            }
        }
        proof {
            assert(all.take(all.len() as int) =~= all);
        }
        let ghost built = database;
        dedup_all(&mut database.teams);
        dedup_all(&mut database.players);
        proof {
            let lines = read_well(all);
            assert(database.teams@.dom() =~= team_charts(lines).dom());
            assert(database.players@.dom() =~= player_charts(lines).dom());
            assert forall|id: u128| #[trigger] database.teams@.contains_key(id) implies timeline_of(
                database.teams@[id]@,
            ) == collapse(timeline_of(team_charts(lines)[id])) by {
                assert(built.teams@.contains_key(id));
                assert(charts(built.teams@)[id] == built.teams@[id]@);
            }
            assert forall|id: u128| #[trigger]
                database.players@.contains_key(id) implies database.players@[id]@.submap_of(
                player_charts(lines)[id],
            ) && (P::obeys_eq_spec() ==> timeline_of(database.players@[id]@) == collapse(
                timeline_of(player_charts(lines)[id]),
            )) by {
                assert(built.players@.contains_key(id));
                assert(charts(built.players@)[id] == built.players@[id]@);
            }
        }
        Ok(database)
    }
}

} // verus!
