use crate::database::{as_of, as_of_spec, charts, Database, Team};
use crate::pitch::{lemma_pitch_unique, single_valued, Chance, Pitch};
use crate::state::{Draw, Phase, State};
use crate::util::{halfuuid, AwayHome};
use vstd::prelude::*;

verus! {

/// How far a game has come and how many runs each side has.
#[derive(Debug, Clone, Copy, PartialEq, Eq)]
pub struct Score {
    /// The inning, counted from 0.
    pub inning: u8,
    /// Whether the home side is at bat.
    pub bottom: bool,
    pub score: AwayHome<u8>,
}

impl Score {
    /// Whether the game is over: in the ninth inning or later, the home side
    /// leads as a top half would start, or the sides are not level.
    pub open spec fn complete(self) -> bool {
        self.inning >= 8 && ((!self.bottom && self.score.home > self.score.away)
            || self.score.away != self.score.home)
    }

    /// The runs of the side at bat.
    pub open spec fn hitting_runs(self) -> int {
        if self.bottom {
            self.score.home as int
        } else {
            self.score.away as int
        }
    }

    /// This score with `runs` more for the side at bat.
    pub open spec fn plus(self, runs: int) -> Score
        recommends
            self.hitting_runs() + runs <= 255,
    {
        if self.bottom {
            Score {
                score: AwayHome { home: (self.score.home + runs) as u8, ..self.score },
                ..self
            }
        } else {
            Score {
                score: AwayHome { away: (self.score.away + runs) as u8, ..self.score },
                ..self
            }
        }
    }

    /// The score as the next half inning starts.
    pub open spec fn turned(self) -> Score
        recommends
            self.inning < 255,
    {
        if self.bottom {
            Score { inning: (self.inning + 1) as u8, bottom: false, ..self }
        } else {
            Score { bottom: true, ..self }
        }
    }

    /// Counts `runs` more for the side at bat.
    pub fn add_runs(&mut self, runs: u8)
        requires
            old(self).hitting_runs() + runs <= 255,
        ensures
            *final(self) == old(self).plus(runs as int),
    {
        if self.bottom {
            self.score.home = self.score.home + runs;
        } else {
            self.score.away = self.score.away + runs;
        }
    }

    /// Whether the game is over.
    pub fn is_complete(&self) -> (over: bool)
        ensures
            over == self.complete(),
    {
        if self.inning >= 8 {
            if !self.bottom && self.score.home > self.score.away {
                true
            } else {
                self.score.away != self.score.home
            }
        } else {
            false
        }
    }

    /// Whether the visitors have more runs than the home side.
    pub fn away_leads(&self) -> (leads: bool)
        ensures
            leads == (self.score.away > self.score.home),
    {
        self.score.away > self.score.home
    }
}

impl Default for Score {
    /// The score before the first pitch.
    fn default() -> (score: Score)
        ensures
            score == (Score { inning: 0, bottom: false, score: AwayHome { away: 0, home: 0 } }),
    {
        Score { inning: 0, bottom: false, score: AwayHome { away: 0, home: 0 } }
    }
}

/// A contest as it is announced: who plays whom, on which day of which
/// season, and how it ended.
#[derive(Debug, Clone, Copy, PartialEq, Eq)]
pub struct Game {
    pub id: u128,
    pub season: u16,
    pub day: u8,
    pub away_pitcher: u128,
    pub away_team: u128,
    pub away_score: u16,
    pub home_pitcher: u128,
    pub home_team: u128,
    pub home_score: u16,
}

/// A contest with all who take part in it: both batting orders and both
/// starting pitchers, each with the ratings of the contest's day.
#[derive(Debug)]
pub struct Playable<P> {
    pub id: u128,
    pub season: u16,
    pub day: u8,
    pub lineups: AwayHome<[P; 9]>,
    pub pitchers: AwayHome<P>,
}

impl<P> Playable<P> {
    /// The seed of the random generator of simulation number `seed` of this
    /// contest: the low half of the contest's identifier plus `seed`,
    /// modulo 2^64.
    pub fn rng_seed(&self, seed: u64) -> (mixed: u64)
        ensures
            mixed == (self.id % 0x1_0000_0000_0000_0000 + seed) % 0x1_0000_0000_0000_0000,
    {
        halfuuid(self.id).wrapping_add(seed)
    }
}

impl<P> Playable<P> {
    /// The starting pitcher of the side in the field.
    pub open spec fn pitcher(&self, state: State) -> P {
        if state.score.bottom {
            self.pitchers.away
        } else {
            self.pitchers.home
        }
    }

    /// The nine of the side in the field.
    pub open spec fn defense(&self, state: State) -> [P; 9] {
        if state.score.bottom {
            self.lineups.away
        } else {
            self.lineups.home
        }
    }

    /// The batting order of the side at bat.
    pub open spec fn offense(&self, state: State) -> [P; 9] {
        if state.score.bottom {
            self.lineups.home
        } else {
            self.lineups.away
        }
    }

    /// The question that the game has open at `state`, where it has one
    /// that is not part of a pitch, about those it concerns: the defenders by
    /// their places in the field, the runner by the runner's place in the batting
    /// order.
    pub open spec fn chance(&self, state: State) -> Chance<'_, P> {
        match state.phase {
            Phase::DoublePlay { first, second } => Chance::DoublePlay {
                first: &self.defense(state)[first as int],
                second: &self.defense(state)[second as int],
            },
            Phase::FieldersChoice { defender } => Chance::FieldersChoice {
                defender: &self.defense(state)[defender as int],
            },
            Phase::ExtraBase(advance) => Chance::ExtraBase {
                runner: &self.offense(state)[advance.runner as int],
            },
            _ => Chance::Foul,
        }
    }

    /// Whether `roll` and `pick` can give `draw` at `state`: a pitch that
    /// they can throw to the batter at the plate, a defender among the nine
    /// that `pick` draws, or an answer of `roll` to the open question.
    pub open spec fn allows<R: Fn(Chance<'_, P>) -> bool, K: Fn() -> usize>(
        &self,
        roll: &R,
        pick: &K,
        state: State,
        draw: Draw,
    ) -> bool {
        match state.phase {
            Phase::Pitch => draw matches Draw::Pitch(pitch) && Pitch::possible(
                &self.pitcher(state),
                &self.offense(state)[state.slot() as int],
                &self.defense(state),
                roll,
                pick,
                pitch,
            ),
            Phase::FirstDefender | Phase::SecondDefender { .. } => draw matches Draw::Pick(defender)
                && defender < 9 && pick.ensures((), defender),
            Phase::DoublePlay { .. } | Phase::FieldersChoice { .. } | Phase::ExtraBase(_) => draw
                matches Draw::Roll(yes) && roll.ensures((self.chance(state),), yes),
            Phase::Over => false,
        }
    }

    /// Whether `roll` and `pick` can play `draws` from the first pitch on:
    /// each draw is one that they can give where the game stands by then,
    /// and the counters have room for it.
    pub open spec fn plays<R: Fn(Chance<'_, P>) -> bool, K: Fn() -> usize>(
        &self,
        roll: &R,
        pick: &K,
        draws: Seq<Draw>,
    ) -> bool {
        forall|k: int|
            0 <= k < draws.len() ==> {
                let at = #[trigger] State::fresh().replayed(draws.take(k));
                at.room() && self.allows(roll, pick, at, draws[k])
            }
    }

    /// Whether `roll` and `pick` can play `draws` from the first pitch on
    /// so that a game of at most `limit` draws ends in `score`: the final
    /// score where the draws take the game to its end, nothing where they
    /// leave it unfinished at the limit or with a counter out of room.
    pub open spec fn ends<R: Fn(Chance<'_, P>) -> bool, K: Fn() -> usize>(
        &self,
        roll: &R,
        pick: &K,
        limit: u64,
        draws: Seq<Draw>,
        score: Option<Score>,
    ) -> bool {
        let end = State::fresh().replayed(draws);
        &&& self.plays(roll, pick, draws)
        &&& draws.len() <= limit
        &&& match score {
            Some(score) => end.phase is Over && score == end.score,
            None => !(end.phase is Over) && (draws.len() == limit || !end.room()),
        }
    }

    /// Plays this contest from the first pitch to its end, with `roll` to
    /// answer the questions and `pick` to draw the defenders, each by the
    /// place among the nine, and gives the final score. The game is given
    /// up, and nothing comes back, after `limit` draws or when a counter
    /// has no room left.
    pub fn simulate<R: Fn(Chance<'_, P>) -> bool, K: Fn() -> usize>(
        &self,
        roll: R,
        pick: K,
        limit: u64,
    ) -> (score: Option<Score>)
        requires
            forall|chance: Chance<'_, P>| roll.requires((chance,)),
            pick.requires(()),
            forall|defender: usize| pick.ensures((), defender) ==> defender < 9,
        ensures
            exists|draws: Seq<Draw>| #[trigger] self.ends(&roll, &pick, limit, draws, score),
    {
        let mut state = State::default();
        let mut left = limit;
        let ghost mut draws = Seq::<Draw>::empty();
        loop
            invariant
                forall|chance: Chance<'_, P>| roll.requires((chance,)),
                pick.requires(()),
                forall|defender: usize| pick.ensures((), defender) ==> defender < 9,
                state.valid(),
                state == State::fresh().replayed(draws),
                self.plays(&roll, &pick, draws),
                draws.len() + left == limit,
            decreases left,
        {
            if let Phase::Over = state.phase {
                assert(self.ends(&roll, &pick, limit, draws, Some(state.score)));
                return Some(state.score);
            }
            if left == 0 || !state.has_room() {
                assert(self.ends(&roll, &pick, limit, draws, None));
                return None;
            }
            let draw = match state.phase {
                Phase::Pitch => {
                    let pitcher = state.fielding(&self.pitchers);
                    let batter = state.batter(&self.lineups);
                    let defense = state.fielding(&self.lineups);
                    Draw::Pitch(Pitch::simulate(pitcher, batter, defense, &roll, &pick))
                },
                Phase::FirstDefender | Phase::SecondDefender { .. } => Draw::Pick(pick()),
                Phase::DoublePlay { first, second } => {
                    let defense = state.fielding(&self.lineups);
                    Draw::Roll(
                        roll(Chance::DoublePlay { first: &defense[first], second: &defense[second] }),
                    )
                },
                Phase::FieldersChoice { defender } => {
                    let defense = state.fielding(&self.lineups);
                    Draw::Roll(roll(Chance::FieldersChoice { defender: &defense[defender] }))
                },
                Phase::ExtraBase(advance) => {
                    let offense = state.hitting(&self.lineups);
                    Draw::Roll(roll(Chance::ExtraBase { runner: &offense[advance.runner] }))
                },
                Phase::Over => {
                    assert(self.ends(&roll, &pick, limit, draws, Some(state.score)));
                    return Some(state.score);
                },
            };
            proof {
                let longer = draws.push(draw);
                assert(longer.drop_last() =~= draws);
                assert forall|k: int| 0 <= k < longer.len() implies {
                    let at = #[trigger] State::fresh().replayed(longer.take(k));
                    at.room() && self.allows(&roll, &pick, at, longer[k])
                } by {
                    if k < draws.len() {
                        assert(longer.take(k) =~= draws.take(k));
                    } else {
                        assert(longer.take(k) =~= draws);
                    }
                }
                draws = longer;
            }
            state.step(draw);
            left = left - 1;
        }
    }
}

/// Where `roll` has one answer to each question and `pick` draws one
/// defender, they can play a contest in one way only: two runs of draws of
/// the same length that they can play are the same run.
pub proof fn lemma_plays_unique<P, R: Fn(Chance<'_, P>) -> bool, K: Fn() -> usize>(
    playable: &Playable<P>,
    roll: &R,
    pick: &K,
    one: Seq<Draw>,
    other: Seq<Draw>,
)
    requires
        single_valued(roll, pick),
        playable.plays(roll, pick, one),
        playable.plays(roll, pick, other),
        one.len() == other.len(),
    ensures
        one == other,
    decreases one.len(),
{
    if one.len() == 0 {
        assert(one =~= other);
    } else {
        let n = one.len() - 1;
        let a = one.drop_last();
        let b = other.drop_last();
        assert forall|k: int| 0 <= k < a.len() implies {
            let at = #[trigger] State::fresh().replayed(a.take(k));
            at.room() && playable.allows(roll, pick, at, a[k])
        } by {
            assert(a.take(k) =~= one.take(k));
        }
        assert forall|k: int| 0 <= k < b.len() implies {
            let at = #[trigger] State::fresh().replayed(b.take(k));
            at.room() && playable.allows(roll, pick, at, b[k])
        } by {
            assert(b.take(k) =~= other.take(k));
        }
        lemma_plays_unique(playable, roll, pick, a, b);
        assert(one.take(n) =~= a);
        assert(other.take(n) =~= b);
        let at = State::fresh().replayed(one.take(n));
        assert(at == State::fresh().replayed(other.take(n)));
        assert(playable.allows(roll, pick, at, one[n]));
        assert(playable.allows(roll, pick, at, other[n]));
        if at.phase is Pitch {
            lemma_pitch_unique(
                &playable.pitcher(at),
                &playable.offense(at)[at.slot() as int],
                &playable.defense(at),
                roll,
                pick,
                one[n]->Pitch_0,
                other[n]->Pitch_0,
            );
        }
        assert(one[n] == other[n]);
        assert(one =~= a.push(one[n]));
        assert(other =~= b.push(other[n]));
    }
}

/// Nothing follows the end of a game: no run of draws that can be played
/// goes on from a game that is over, or from one whose counters have no
/// room.
pub proof fn lemma_plays_stop<P, R: Fn(Chance<'_, P>) -> bool, K: Fn() -> usize>(
    playable: &Playable<P>,
    roll: &R,
    pick: &K,
    draws: Seq<Draw>,
    n: int,
)
    requires
        playable.plays(roll, pick, draws),
        0 <= n < draws.len(),
    ensures
        playable.plays(roll, pick, draws.take(n)),
        !(State::fresh().replayed(draws.take(n)).phase is Over),
        State::fresh().replayed(draws.take(n)).room(),
{
    assert forall|k: int| 0 <= k < n implies {
        let at = #[trigger] State::fresh().replayed(draws.take(n).take(k));
        at.room() && playable.allows(roll, pick, at, draws.take(n)[k])
    } by {
        assert(draws.take(n).take(k) =~= draws.take(k));
    }
    let at = State::fresh().replayed(draws.take(n));
    assert(at.room() && playable.allows(roll, pick, at, draws[n]));
}

/// The same contest played twice, to the same limit, by a `roll` that has
/// one answer to each question and a `pick` that draws one defender, ends
/// twice in the same score.
pub proof fn lemma_simulate_deterministic<P, R: Fn(Chance<'_, P>) -> bool, K: Fn() -> usize>(
    playable: &Playable<P>,
    roll: &R,
    pick: &K,
    limit: u64,
    first: Option<Score>,
    second: Option<Score>,
)
    requires
        single_valued(roll, pick),
        exists|draws: Seq<Draw>| #[trigger] playable.ends(roll, pick, limit, draws, first),
        exists|draws: Seq<Draw>| #[trigger] playable.ends(roll, pick, limit, draws, second),
    ensures
        first == second,
{
    let one = choose|draws: Seq<Draw>| #[trigger] playable.ends(roll, pick, limit, draws, first);
    let other = choose|draws: Seq<Draw>| #[trigger]
        playable.ends(roll, pick, limit, draws, second);
    if one.len() < other.len() {
        lemma_plays_stop(playable, roll, pick, other, one.len() as int);
        lemma_plays_unique(playable, roll, pick, one, other.take(one.len() as int));
    } else if other.len() < one.len() {
        lemma_plays_stop(playable, roll, pick, one, other.len() as int);
        lemma_plays_unique(playable, roll, pick, other, one.take(other.len() as int));
    } else {
        lemma_plays_unique(playable, roll, pick, one, other);
    }
}

/// No draw takes a run back: after it each side has at least the runs
/// that it had, and the side in the field has exactly those.
pub proof fn lemma_runs_stay(state: State, draw: Draw)
    requires
        state.valid(),
        state.accepts(draw),
        state.room(),
    ensures
        state.next(draw).score.score.away >= state.score.score.away,
        state.next(draw).score.score.home >= state.score.score.home,
        state.score.bottom ==> state.next(draw).score.score.away == state.score.score.away,
        !state.score.bottom ==> state.next(draw).score.score.home == state.score.score.home,
        state.next(draw).score.inning >= state.score.inning,
{
}

impl Game {
    /// The roster `id` as it stood at `timestamp`.
    pub open spec fn team_at<P: PartialEq>(database: &Database<P>, id: u128, timestamp: u64)
        -> Option<Team> {
        as_of_spec(charts(database.teams@), id, timestamp)
    }

    /// The ratings of participant `id` as they stood at `timestamp`.
    pub open spec fn player_at<P: PartialEq>(database: &Database<P>, id: u128, timestamp: u64)
        -> Option<P> {
        as_of_spec(charts(database.players@), id, timestamp)
    }

    /// Whether the ratings of all nine of `lineup` are known at `timestamp`.
    pub open spec fn lineup_known<P: PartialEq>(
        database: &Database<P>,
        lineup: [u128; 9],
        timestamp: u64,
    ) -> bool {
        forall|i: int| 0 <= i < 9 ==> (#[trigger] Self::player_at(database, lineup[i], timestamp))
            is Some
    }

    /// Whether `adjusted` holds, place by place, the ratings of `lineup` at
    /// `timestamp` as `vibe_check` adjusts them to the contest's day.
    pub open spec fn lineup_adjusted<P: PartialEq, F: Fn(&P, u8) -> P>(
        &self,
        database: &Database<P>,
        lineup: [u128; 9],
        timestamp: u64,
        vibe_check: F,
        adjusted: [P; 9],
    ) -> bool {
        forall|i: int|
            0 <= i < 9 ==> vibe_check.ensures(
                (&Self::player_at(database, lineup[i], timestamp)->0, self.day),
                #[trigger] adjusted[i],
            )
    }

    /// Whether both rosters, everyone in their batting orders and both
    /// starting pitchers had a snapshot by `timestamp`.
    pub open spec fn resolvable<P: PartialEq>(&self, database: &Database<P>, timestamp: u64)
        -> bool {
        &&& Self::team_at(database, self.away_team, timestamp) matches Some(team)
            && Self::lineup_known(database, team.lineup, timestamp)
        &&& Self::team_at(database, self.home_team, timestamp) matches Some(team)
            && Self::lineup_known(database, team.lineup, timestamp)
        &&& Self::player_at(database, self.away_pitcher, timestamp) is Some
        &&& Self::player_at(database, self.home_pitcher, timestamp) is Some
    }

    /// Whether `playable` is this contest as `database` had it at
    /// `timestamp`, everyone's ratings adjusted to the day by `vibe_check`.
    pub open spec fn resolves<P: PartialEq, F: Fn(&P, u8) -> P>(
        &self,
        database: &Database<P>,
        timestamp: u64,
        vibe_check: F,
        playable: Playable<P>,
    ) -> bool {
        &&& playable.id == self.id
        &&& playable.season == self.season
        &&& playable.day == self.day
        &&& self.lineup_adjusted(
            database,
            Self::team_at(database, self.away_team, timestamp)->0.lineup,
            timestamp,
            vibe_check,
            playable.lineups.away,
        )
        &&& self.lineup_adjusted(
            database,
            Self::team_at(database, self.home_team, timestamp)->0.lineup,
            timestamp,
            vibe_check,
            playable.lineups.home,
        )
        &&& vibe_check.ensures(
            (&Self::player_at(database, self.away_pitcher, timestamp)->0, self.day),
            playable.pitchers.away,
        )
        &&& vibe_check.ensures(
            (&Self::player_at(database, self.home_pitcher, timestamp)->0, self.day),
            playable.pitchers.home,
        )
    }

    /// The ratings of participant `id` at `timestamp`, adjusted to the day.
    fn get_player<P: PartialEq, F: Fn(&P, u8) -> P>(
        &self,
        database: &Database<P>,
        timestamp: u64,
        id: u128,
        vibe_check: &F,
    ) -> (player: Option<P>)
        requires
            forall|player: P| vibe_check.requires((&player, self.day)),
        ensures
            match player {
                Some(player) => Self::player_at(database, id, timestamp) is Some
                    && vibe_check.ensures(
                    (&Self::player_at(database, id, timestamp)->0, self.day),
                    player,
                ),
                None => Self::player_at(database, id, timestamp) is None,
            },
    {
        match as_of(&database.players, id, timestamp) {
            Some(player) => Some(vibe_check(player, self.day)),
            None => None,
        }
    }

    /// The nine of `lineup` with their ratings at `timestamp`, adjusted to
    /// the day.
    fn get_lineup<P: PartialEq, F: Fn(&P, u8) -> P>(
        &self,
        database: &Database<P>,
        timestamp: u64,
        lineup: &[u128; 9],
        vibe_check: &F,
    ) -> (players: Option<[P; 9]>)
        requires
            forall|player: P| vibe_check.requires((&player, self.day)),
        ensures
            match players {
                Some(players) => Self::lineup_known(database, *lineup, timestamp)
                    && self.lineup_adjusted(database, *lineup, timestamp, *vibe_check, players),
                None => !Self::lineup_known(database, *lineup, timestamp),
            },
    {
        let first = self.get_player(database, timestamp, lineup[0], vibe_check)?;
        let second = self.get_player(database, timestamp, lineup[1], vibe_check)?;
        let third = self.get_player(database, timestamp, lineup[2], vibe_check)?;
        let fourth = self.get_player(database, timestamp, lineup[3], vibe_check)?;
        let fifth = self.get_player(database, timestamp, lineup[4], vibe_check)?;
        let sixth = self.get_player(database, timestamp, lineup[5], vibe_check)?;
        let seventh = self.get_player(database, timestamp, lineup[6], vibe_check)?;
        let eighth = self.get_player(database, timestamp, lineup[7], vibe_check)?;
        let ninth = self.get_player(database, timestamp, lineup[8], vibe_check)?;
        Some([first, second, third, fourth, fifth, sixth, seventh, eighth, ninth])
    }

    /// This contest with all who take part in it, as `database` had them at
    /// `timestamp`: nothing where a roster, one of a batting order or a
    /// starting pitcher had no snapshot by then.
    pub fn playable<P: PartialEq, F: Fn(&P, u8) -> P>(
        &self,
        database: &Database<P>,
        timestamp: u64,
        vibe_check: F,
    ) -> (resolved: Option<Playable<P>>)
        requires
            forall|player: P| vibe_check.requires((&player, self.day)),
        ensures
            match resolved {
                Some(playable) => self.resolvable(database, timestamp) && self.resolves(
                    database,
                    timestamp,
                    vibe_check,
                    playable,
                ),
                None => !self.resolvable(database, timestamp),
            },
    {
        let ids = AwayHome { away: self.away_team, home: self.home_team };
        let team_at = |id: &u128| -> (team: Option<&Team>)
            ensures
                match team {
                    Some(team) => Self::team_at(database, *id, timestamp) == Some(*team),
                    None => Self::team_at(database, *id, timestamp) is None,
                },
            { as_of(&database.teams, *id, timestamp) };
        let teams = ids.map_opt(team_at)?;
        let away = self.get_lineup(database, timestamp, &teams.away.lineup, &vibe_check)?;
        let home = self.get_lineup(database, timestamp, &teams.home.lineup, &vibe_check)?;
        let away_pitcher = self.get_player(database, timestamp, self.away_pitcher, &vibe_check)?;
        let home_pitcher = self.get_player(database, timestamp, self.home_pitcher, &vibe_check)?;
        Some(
            Playable {
                id: self.id,
                season: self.season,
                day: self.day,
                lineups: AwayHome { away, home },
                pitchers: AwayHome { away: away_pitcher, home: home_pitcher },
            },
        )
    }
}

} // verus!
