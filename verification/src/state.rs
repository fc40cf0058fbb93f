use crate::game::Score;
use crate::pitch::Pitch;
use crate::util::AwayHome;
use vstd::prelude::*;

verus! {

/// The three bases, each empty or held by a runner, who is named by the
/// place in the batting order that the runner came to bat from.
#[derive(Debug, Clone, Copy, PartialEq, Eq)]
pub struct Bases {
    pub first: Option<usize>,
    pub second: Option<usize>,
    pub third: Option<usize>,
}

impl Bases {
    /// No runner on.
    pub open spec fn none() -> Bases {
        Bases { first: None, second: None, third: None }
    }

    /// Who stands on base `i`, first base being 0.
    pub open spec fn at(self, i: int) -> Option<usize> {
        if i == 0 {
            self.first
        } else if i == 1 {
            self.second
        } else {
            self.third
        }
    }

    /// These bases with `who` on base `i`.
    pub open spec fn with(self, i: int, who: Option<usize>) -> Bases {
        if i == 0 {
            Bases { first: who, ..self }
        } else if i == 1 {
            Bases { second: who, ..self }
        } else {
            Bases { third: who, ..self }
        }
    }

    /// Whether any runner is on.
    pub open spec fn occupied(self) -> bool {
        self.first is Some || self.second is Some || self.third is Some
    }

    /// How many runners are on.
    pub open spec fn count(self) -> int {
        (if self.first is Some { 1int } else { 0 }) + (if self.second is Some { 1int } else { 0 })
            + (if self.third is Some { 1int } else { 0 })
    }

    /// The base of the runner closest to home; 0 where none is on.
    pub open spec fn lead(self) -> int {
        if self.third is Some {
            2
        } else if self.second is Some {
            1
        } else {
            0
        }
    }

    /// These bases without the runner closest to home.
    pub open spec fn without_lead(self) -> Bases {
        self.with(self.lead(), None)
    }

    /// Whether every runner comes from one of the nine places of a batting
    /// order.
    pub open spec fn fit(self) -> bool {
        &&& self.first matches Some(who) ==> who < 9
        &&& self.second matches Some(who) ==> who < 9
        &&& self.third matches Some(who) ==> who < 9
    }

    /// The bases after `batter` was walked: the batter takes first, and a
    /// runner moves up one base only where every base behind is taken.
    pub open spec fn walked(self, batter: usize) -> Bases {
        Bases {
            first: Some(batter),
            second: if self.first is Some {
                self.first
            } else {
                self.second
            },
            third: if self.first is Some && self.second is Some {
                self.second
            } else {
                self.third
            },
        }
    }

    /// Whether a walk forces a run in: the bases are loaded.
    pub open spec fn loaded(self) -> bool {
        self.first is Some && self.second is Some && self.third is Some
    }

    /// Who stands on base `i`, first base being 0.
    pub fn get(&self, i: usize) -> (who: Option<usize>)
        requires
            i < 3,
        ensures
            who == self.at(i as int),
    {
        if i == 0 {
            self.first
        } else if i == 1 {
            self.second
        } else {
            self.third
        }
    }

    /// Puts `who` on base `i`, or clears it.
    pub fn put(&mut self, i: usize, who: Option<usize>)
        requires
            i < 3,
        ensures
            *final(self) == old(self).with(i as int, who),
    {
        if i == 0 {
            self.first = who;
        } else if i == 1 {
            self.second = who;
        } else {
            self.third = who;
        }
    }

    /// Whether any runner is on.
    pub fn is_occupied(&self) -> (any: bool)
        ensures
            any == self.occupied(),
    {
        self.first.is_some() || self.second.is_some() || self.third.is_some()
    }

    /// The base of the runner closest to home.
    pub fn lead_base(&self) -> (i: usize)
        ensures
            i == self.lead(),
            self.occupied() ==> self.at(i as int) is Some,
    {
        if self.third.is_some() {
            2
        } else if self.second.is_some() {
            1
        } else {
            0
        }
    }
}

/// The movement of the runners after the ball was put in play, while it
/// lasts: the runners still to move, where the others have come to, and
/// how many have come home.
#[derive(Debug, Clone, Copy, PartialEq, Eq)]
pub struct Running {
    pub waiting: Bases,
    pub landed: Bases,
    pub runs: u8,
}

impl Running {
    /// The runner on base `i`, if there is one, moved up by `hops` bases:
    /// home if that leads past third.
    pub open spec fn moved(self, i: int, hops: int) -> Running {
        match self.waiting.at(i) {
            None => self,
            Some(who) => if i + hops >= 3 {
                Running {
                    waiting: self.waiting.with(i, None),
                    runs: (self.runs + 1) as u8,
                    ..self
                }
            } else {
                Running {
                    waiting: self.waiting.with(i, None),
                    landed: self.landed.with(i + hops, Some(who)),
                    ..self
                }
            },
        }
    }

    /// Every runner still to move, moved up by `hops` bases, the one
    /// closest to home first.
    pub open spec fn coasted(self, hops: int) -> Running {
        self.moved(2, hops).moved(1, hops).moved(0, hops)
    }

    /// Whether the count of runs can still grow by one for each runner
    /// who is still to move.
    pub open spec fn sound(self) -> bool {
        &&& self.runs + self.waiting.count() <= 3
        &&& self.waiting.fit()
        &&& self.landed.fit()
    }

    fn advance(&mut self, i: usize, hops: usize)
        requires
            i < 3,
            hops <= 3,
            old(self).sound(),
        ensures
            *final(self) == old(self).moved(i as int, hops as int),
            final(self).sound(),
            final(self).waiting.at(i as int) is None,
            forall|j: int| 0 <= j < 3 && j != i ==> final(self).waiting.at(j) == old(
                self,
            ).waiting.at(j),
    {
        match self.waiting.get(i) {
            None => {},
            Some(who) => {
                self.waiting.put(i, None);
                if i + hops >= 3 {
                    self.runs = self.runs + 1;
                } else {
                    self.landed.put(i + hops, Some(who));
                }
            },
        }
    }

    fn coast(&mut self, hops: usize)
        requires
            hops <= 3,
            old(self).sound(),
        ensures
            *final(self) == old(self).coasted(hops as int),
            final(self).sound(),
            !final(self).waiting.occupied(),
    {
        self.advance(2, hops);
        self.advance(1, hops);
        self.advance(0, hops);
    }
}

/// What chance hands to the game: the end of a pitch, the answer to a
/// question, or the defender that was drawn among the nine in the field.
#[derive(Debug, Clone, Copy, PartialEq, Eq)]
pub enum Draw {
    Pitch(Pitch),
    Roll(bool),
    Pick(usize),
}

/// The runners on their way, stopped at the one who may try for one base
/// more than the sure ones.
#[derive(Debug, Clone, Copy, PartialEq, Eq)]
pub struct Advance {
    /// The bases that every runner is sure of.
    pub min: usize,
    /// The bases that a runner takes who tries for more.
    pub max: usize,
    /// The base that the runner in question comes from.
    pub base: usize,
    /// That runner's place in the batting order.
    pub runner: usize,
    pub running: Running,
    /// The base that the batter takes once the runners have moved.
    pub batter: Option<usize>,
}

/// What the game waits for.
#[derive(Debug, Clone, Copy, PartialEq, Eq)]
pub enum Phase {
    /// The next pitch.
    Pitch,
    /// An out was made with runners on: the first defender is drawn.
    FirstDefender,
    /// The second defender is drawn.
    SecondDefender { first: usize },
    /// Do these two turn a double play?
    DoublePlay { first: usize, second: usize },
    /// Does the first defender get the lead runner in place of the batter?
    FieldersChoice { defender: usize },
    /// Does this runner take the extra base?
    ExtraBase(Advance),
    /// The game is over.
    Over,
}

/// A game in progress.
#[derive(Debug, Clone, Copy, PartialEq, Eq)]
pub struct State {
    pub score: Score,
    pub bases: Bases,
    /// The place in each side's batting order of its next batter.
    pub position: AwayHome<usize>,
    pub outs: u8,
    pub balls: u8,
    pub strikes: u8,
    pub phase: Phase,
}

impl State {
    /// The game before the first pitch.
    pub open spec fn fresh() -> State {
        State {
            score: Score { inning: 0, bottom: false, score: AwayHome { away: 0, home: 0 } },
            bases: Bases::none(),
            position: AwayHome { away: 0, home: 0 },
            outs: 0,
            balls: 0,
            strikes: 0,
            phase: Phase::Pitch,
        }
    }

    /// What holds of every game that was played from the first pitch on.
    pub open spec fn valid(self) -> bool {
        &&& self.position.away < 9
        &&& self.position.home < 9
        &&& self.balls < 4
        &&& self.strikes < 3
        &&& self.outs <= 4
        &&& self.bases.fit()
        &&& match self.phase {
            Phase::Pitch => self.outs < 3,
            Phase::FirstDefender => self.outs <= 3 && self.bases.occupied(),
            Phase::SecondDefender { first } => self.outs <= 3 && self.bases.occupied() && first
                < 9,
            Phase::DoublePlay { first, second } => self.outs <= 3 && self.bases.occupied()
                && first < 9 && second < 9,
            Phase::FieldersChoice { defender } => self.outs <= 3 && self.bases.occupied()
                && defender < 9,
            Phase::ExtraBase(advance) => {
                &&& advance.min < advance.max <= 3
                &&& advance.running.sound()
                &&& advance.running.waiting.occupied()
                &&& advance.base == advance.running.waiting.lead()
                &&& advance.running.waiting.at(advance.base as int) == Some(advance.runner)
                &&& advance.batter matches Some(base) ==> base < 3
            },
            Phase::Over => true,
        }
    }

    /// The place in the batting order of the batter at the plate.
    pub open spec fn slot(self) -> usize {
        if self.score.bottom {
            self.position.home
        } else {
            self.position.away
        }
    }

    /// Whether the game takes `draw` where it stands: the end of a pitch
    /// where one is due, a defender among the nine where one is drawn, an
    /// answer where a question is open, and nothing once it is over.
    pub open spec fn accepts(self, draw: Draw) -> bool {
        match self.phase {
            Phase::Pitch => draw is Pitch,
            Phase::FirstDefender | Phase::SecondDefender { .. } => draw matches Draw::Pick(defender)
                && defender < 9,
            Phase::DoublePlay { .. } | Phase::FieldersChoice { .. } | Phase::ExtraBase(_) => draw
                is Roll,
            Phase::Over => false,
        }
    }

    /// Whether the counters have room for whatever one draw can bring: four
    /// runs for the side at bat, and one more inning.
    pub open spec fn room(self) -> bool {
        self.score.hitting_runs() <= 251 && self.score.inning < 255
    }

    /// The game with one more run for the side at bat.
    pub open spec fn scored(self) -> State {
        State { score: self.score.plus(1), ..self }
    }

    /// The game after the batter at the plate was walked.
    pub open spec fn walked(self, batter: usize) -> State {
        State {
            bases: self.bases.walked(batter),
            score: if self.bases.loaded() {
                self.score.plus(1)
            } else {
                self.score
            },
            ..self
        }
    }

    /// The game with the next batter of the side at bat due.
    pub open spec fn next_batter_due(self) -> State {
        State {
            position: if self.score.bottom {
                AwayHome { home: ((self.position.home + 1) % 9) as usize, ..self.position }
            } else {
                AwayHome { away: ((self.position.away + 1) % 9) as usize, ..self.position }
            },
            ..self
        }
    }

    /// The game as the next half inning starts: the bases empty, the other
    /// side at bat.
    pub open spec fn turned(self) -> State {
        State { bases: Bases::none(), score: self.score.turned(), ..self }
    }

    /// The game after a batter's turn has ended: the count is cleared and
    /// the next batter is due; with three outs the half inning ends, and
    /// only then is the game over if the score says so.
    pub open spec fn retired(self) -> State {
        let next = State { balls: 0, strikes: 0, ..self.next_batter_due() };
        if self.outs >= 3 {
            let turned = next.turned();
            State {
                outs: 0,
                phase: if turned.score.complete() {
                    Phase::Over
                } else {
                    Phase::Pitch
                },
                ..turned
            }
        } else {
            State { phase: Phase::Pitch, ..next }
        }
    }

    /// The game after the runners have moved: they stand where they came
    /// to, the batter on the base that was reached, the runs are counted and
    /// the batter's turn has ended.
    pub open spec fn landed(self, running: Running, batter: Option<usize>) -> State {
        State {
            bases: match batter {
                Some(base) => running.landed.with(base as int, Some(self.slot())),
                None => running.landed,
            },
            score: self.score.plus(running.runs as int),
            ..self
        }.retired()
    }

    /// The game after the ball was put in play and the runners set off, each
    /// sure of `min` bases. Where `max` is more, the runner closest to home
    /// is asked first whether to take `max`; where it is not, or nobody is
    /// on, all move at once.
    pub open spec fn advanced(self, min: usize, max: usize, batter: Option<usize>) -> State {
        let running = Running { waiting: self.bases, landed: Bases::none(), runs: 0 };
        self.asked(min, max, running, batter, max > min)
    }

    /// The game once the runners closest to home have moved: if the last of
    /// them took the extra base (`more`) and another runner waits, that one is
    /// asked in turn; if not, those who wait move `min` bases and the
    /// play ends.
    pub open spec fn asked(
        self,
        min: usize,
        max: usize,
        running: Running,
        batter: Option<usize>,
        more: bool,
    ) -> State {
        if more && running.waiting.occupied() {
            let base = running.waiting.lead();
            State {
                phase: Phase::ExtraBase(
                    Advance {
                        min,
                        max,
                        base: base as usize,
                        runner: running.waiting.at(base)->0,
                        running,
                        batter,
                    },
                ),
                ..self
            }
        } else {
            self.landed(running.coasted(min as int), batter)
        }
    }

    /// The game after the pitch ended in `pitch`.
    pub open spec fn pitched(self, pitch: Pitch) -> State {
        let again = Phase::Pitch;
        match pitch {
            Pitch::Ball => if self.balls + 1 == 4 {
                self.walked(self.slot()).retired()
            } else {
                State { balls: (self.balls + 1) as u8, phase: again, ..self }
            },
            Pitch::Strike => if self.strikes + 1 == 3 {
                State { outs: (self.outs + 1) as u8, ..self }.retired()
            } else {
                State { strikes: (self.strikes + 1) as u8, phase: again, ..self }
            },
            Pitch::Foul => State {
                strikes: if self.strikes < 2 {
                    (self.strikes + 1) as u8
                } else {
                    self.strikes
                },
                phase: again,
                ..self
            },
            Pitch::Out => {
                let out = State { outs: (self.outs + 1) as u8, ..self };
                if self.bases.occupied() {
                    State { phase: Phase::FirstDefender, ..out }
                } else {
                    out.retired()
                }
            },
            Pitch::Single => self.advanced(1, 2, Some(0)),
            Pitch::Double => self.advanced(2, 3, Some(1)),
            Pitch::Triple => self.advanced(3, 3, Some(2)),
            Pitch::Dinger => self.scored().advanced(3, 3, None),
        }
    }

    /// The game after chance gave `draw`.
    pub open spec fn next(self, draw: Draw) -> State {
        match self.phase {
            Phase::Pitch => match draw {
                Draw::Pitch(pitch) => self.pitched(pitch),
                _ => self,
            },
            Phase::FirstDefender => match draw {
                Draw::Pick(first) => State { phase: Phase::SecondDefender { first }, ..self },
                _ => self,
            },
            Phase::SecondDefender { first } => match draw {
                Draw::Pick(second) => State { phase: Phase::DoublePlay { first, second }, ..self },
                _ => self,
            },
            Phase::DoublePlay { first, second } => match draw {
                Draw::Roll(true) => State {
                    outs: (self.outs + 1) as u8,
                    bases: self.bases.without_lead(),
                    ..self
                }.advanced(0, 1, None),
                Draw::Roll(false) => State {
                    phase: Phase::FieldersChoice { defender: first },
                    ..self
                },
                _ => self,
            },
            Phase::FieldersChoice { defender } => match draw {
                Draw::Roll(true) => State { bases: self.bases.without_lead(), ..self }.advanced(
                    1,
                    1,
                    Some(0),
                ),
                Draw::Roll(false) => self.retired(),
                _ => self,
            },
            Phase::ExtraBase(advance) => match draw {
                Draw::Roll(yes) => self.asked(
                    advance.min,
                    advance.max,
                    advance.running.moved(
                        advance.base as int,
                        if yes {
                            advance.max as int
                        } else {
                            advance.min as int
                        },
                    ),
                    advance.batter,
                    yes,
                ),
                _ => self,
            },
            Phase::Over => self,
        }
    }
}

impl State {
    /// Whether the positions, the count, the outs and the runners are in
    /// their ranges, whatever the game waits for.
    pub open spec fn steady(self) -> bool {
        &&& self.position.away < 9
        &&& self.position.home < 9
        &&& self.balls < 4
        &&& self.strikes < 3
        &&& self.outs <= 4
        &&& self.bases.fit()
    }

    /// Whether the visitors are at bat.
    pub fn is_top(&self) -> (top: bool)
        ensures
            top == !self.score.bottom,
    {
        !self.score.bottom
    }

    /// Whether the home side is at bat.
    pub fn is_bottom(&self) -> (bottom: bool)
        ensures
            bottom == self.score.bottom,
    {
        self.score.bottom
    }

    /// Whether the game is over by its score. The game itself looks at this
    /// only when a half inning has ended.
    pub fn is_complete(&self) -> (over: bool)
        ensures
            over == self.score.complete(),
    {
        self.score.is_complete()
    }

    /// The value of the side at bat.
    pub fn hitting<'b, T>(&self, x: &'b AwayHome<T>) -> (side: &'b T)
        ensures
            *side == if self.score.bottom {
                x.home
            } else {
                x.away
            },
    {
        if self.is_top() {
            &x.away
        } else {
            &x.home
        }
    }

    /// The value of the side in the field.
    pub fn fielding<'b, T>(&self, x: &'b AwayHome<T>) -> (side: &'b T)
        ensures
            *side == if self.score.bottom {
                x.away
            } else {
                x.home
            },
    {
        if self.is_bottom() {
            &x.away
        } else {
            &x.home
        }
    }

    /// The batter at the plate: the one of the side at bat whose turn it is.
    pub fn batter<'b, P>(&self, lineups: &'b AwayHome<[P; 9]>) -> (batter: &'b P)
        requires
            self.slot() < 9,
        ensures
            *batter == if self.score.bottom {
                lineups.home[self.slot() as int]
            } else {
                lineups.away[self.slot() as int]
            },
    {
        let lineup = self.hitting(lineups);
        let position = *self.hitting(&self.position);
        &lineup[position]
    }

    /// Whether the game takes `draw` where it stands.
    pub fn takes(&self, draw: Draw) -> (fits: bool)
        ensures
            fits == self.accepts(draw),
    {
        match self.phase {
            Phase::Pitch => match draw {
                Draw::Pitch(_) => true,
                _ => false,
            },
            Phase::FirstDefender | Phase::SecondDefender { .. } => match draw {
                Draw::Pick(defender) => defender < 9,
                _ => false,
            },
            Phase::DoublePlay { .. } | Phase::FieldersChoice { .. } | Phase::ExtraBase(_) => match draw {
                Draw::Roll(_) => true,
                _ => false,
            },
            Phase::Over => false,
        }
    }

    /// Whether the counters have room for one more draw.
    pub fn has_room(&self) -> (fits: bool)
        ensures
            fits == self.room(),
    {
        let runs = if self.score.bottom {
            self.score.score.home
        } else {
            self.score.score.away
        };
        runs <= 251 && self.score.inning < 255
    }

    /// Counts a run for the side at bat.
    pub fn score(&mut self)
        requires
            old(self).score.hitting_runs() < 255,
        ensures
            *final(self) == old(self).scored(),
    {
        self.score.add_runs(1);
    }

    /// Walks `batter`, who takes first base: each runner forced by that moves
    /// up one base, and with the bases loaded a run comes in.
    pub fn walk(&mut self, batter: usize)
        requires
            old(self).bases.loaded() ==> old(self).score.hitting_runs() < 255,
        ensures
            *final(self) == old(self).walked(batter),
    {
        let first = self.bases.first;
        self.bases.first = Some(batter);
        if first.is_some() {
            let second = self.bases.second;
            self.bases.second = first;
            if second.is_some() {
                let third = self.bases.third;
                self.bases.third = second;
                if third.is_some() {
                    self.score();
                }
            }
        }
    }

    /// Makes the next batter of the side at bat due.
    pub fn next_batter(&mut self)
        requires
            old(self).position.away < 9,
            old(self).position.home < 9,
        ensures
            *final(self) == old(self).next_batter_due(),
            final(self).position.away < 9,
            final(self).position.home < 9,
    {
        if self.is_top() {
            self.position.away = (self.position.away + 1) % 9;
        } else {
            self.position.home = (self.position.home + 1) % 9;
        }
    }

    /// Clears the bases and brings the other side to bat.
    pub fn next_half_inning(&mut self)
        requires
            old(self).score.inning < 255,
        ensures
            *final(self) == old(self).turned(),
    {
        self.bases = Bases { first: None, second: None, third: None };
        if self.score.bottom {
            self.score.bottom = false;
            self.score.inning = self.score.inning + 1;
        } else {
            self.score.bottom = true;
        }
    }

    /// Ends the batter's turn.
    fn retire(&mut self)
        requires
            old(self).steady(),
            old(self).score.inning < 255,
        ensures
            *final(self) == old(self).retired(),
            final(self).valid(),
    {
        self.next_batter();
        self.balls = 0;
        self.strikes = 0;
        if self.outs >= 3 {
            self.next_half_inning();
            self.outs = 0;
            self.phase = if self.is_complete() {
                Phase::Over
            } else {
                Phase::Pitch
            };
        } else {
            self.phase = Phase::Pitch;
        }
    }

    /// Puts the runners where they came to and the batter on the base reached,
    /// counts the runs and ends the batter's turn.
    fn land(&mut self, running: Running, batter: Option<usize>)
        requires
            old(self).steady(),
            old(self).score.hitting_runs() <= 252,
            old(self).score.inning < 255,
            running.sound(),
            batter matches Some(base) ==> base < 3,
        ensures
            *final(self) == old(self).landed(running, batter),
            final(self).valid(),
    {
        let mut bases = running.landed;
        match batter {
            Some(base) => {
                let slot = *self.hitting(&self.position);
                bases.put(base, Some(slot));
            },
            None => {},
        }
        self.bases = bases;
        self.score.add_runs(running.runs);
        self.retire();
    }

    /// Asks the runner closest to home among those who wait, if the one
    /// ahead took the extra base; lets them all move `min` bases and
    /// ends the play, if not.
    fn ask(&mut self, min: usize, max: usize, running: Running, batter: Option<usize>, more: bool)
        requires
            old(self).steady(),
            old(self).score.hitting_runs() <= 252,
            old(self).score.inning < 255,
            running.sound(),
            min <= max <= 3,
            more ==> min < max,
            batter matches Some(base) ==> base < 3,
        ensures
            *final(self) == old(self).asked(min, max, running, batter, more),
            final(self).valid(),
    {
        if more && running.waiting.is_occupied() {
            let base = running.waiting.lead_base();
            let runner = match running.waiting.get(base) {
                Some(runner) => runner,
                None => 0,
            };
            self.phase = Phase::ExtraBase(Advance { min, max, base, runner, running, batter });
        } else {
            let mut running = running;
            running.coast(min);
            self.land(running, batter);
        }
    }

    /// Sets the runners off after the ball was put in play, each sure of
    /// `min` bases and, on a try for more, taking `max`.
    pub fn advance(&mut self, min: usize, max: usize, batter: Option<usize>)
        requires
            old(self).steady(),
            old(self).score.hitting_runs() <= 252,
            old(self).score.inning < 255,
            min <= max <= 3,
            batter matches Some(base) ==> base < 3,
        ensures
            *final(self) == old(self).advanced(min, max, batter),
            final(self).valid(),
    {
        let running = Running {
            waiting: self.bases,
            landed: Bases { first: None, second: None, third: None },
            runs: 0,
        };
        self.ask(min, max, running, batter, max > min);
    }

    /// Plays out the end of a pitch.
    fn pitch(&mut self, pitch: Pitch)
        requires
            old(self).valid(),
            old(self).phase is Pitch,
            old(self).room(),
        ensures
            *final(self) == old(self).pitched(pitch),
            final(self).valid(),
    {
        match pitch {
            Pitch::Ball => {
                if self.balls + 1 == 4 {
                    let slot = *self.hitting(&self.position);
                    self.walk(slot);
                    self.retire();
                } else {
                    self.balls = self.balls + 1;
                    self.phase = Phase::Pitch;
                }
            },
            Pitch::Strike => {
                if self.strikes + 1 == 3 {
                    self.outs = self.outs + 1;
                    self.retire();
                } else {
                    self.strikes = self.strikes + 1;
                    self.phase = Phase::Pitch;
                }
            },
            Pitch::Foul => {
                if self.strikes < 2 {
                    self.strikes = self.strikes + 1;
                }
                self.phase = Phase::Pitch;
            },
            Pitch::Out => {
                self.outs = self.outs + 1;
                if self.bases.is_occupied() {
                    self.phase = Phase::FirstDefender;
                } else {
                    self.retire();
                }
            },
            Pitch::Single => {
                self.advance(1, 2, Some(0));
            },
            Pitch::Double => {
                self.advance(2, 3, Some(1));
            },
            Pitch::Triple => {
                self.advance(3, 3, Some(2));
            },
            Pitch::Dinger => {
                self.score();
                self.advance(3, 3, None);
            },
        }
    }

    /// Takes what chance gave and moves the game on to its next question,
    /// or to its end.
    pub fn step(&mut self, draw: Draw)
        requires
            old(self).valid(),
            old(self).accepts(draw),
            old(self).room(),
        ensures
            *final(self) == old(self).next(draw),
            final(self).valid(),
    {
        match (self.phase, draw) {
            (Phase::Pitch, Draw::Pitch(pitch)) => {
                self.pitch(pitch);
            },
            (Phase::FirstDefender, Draw::Pick(first)) => {
                self.phase = Phase::SecondDefender { first };
            },
            (Phase::SecondDefender { first }, Draw::Pick(second)) => {
                self.phase = Phase::DoublePlay { first, second };
            },
            (Phase::DoublePlay { first, second }, Draw::Roll(yes)) => {
                if yes {
                    self.outs = self.outs + 1;
                    let lead = self.bases.lead_base();
                    self.bases.put(lead, None);
                    self.advance(0, 1, None);
                } else {
                    self.phase = Phase::FieldersChoice { defender: first };
                }
            },
            (Phase::FieldersChoice { defender }, Draw::Roll(yes)) => {
                if yes {
                    let lead = self.bases.lead_base();
                    self.bases.put(lead, None);
                    self.advance(1, 1, Some(0));
                } else {
                    self.retire();
                }
            },
            (Phase::ExtraBase(advance), Draw::Roll(yes)) => {
                let mut running = advance.running;
                running.advance(
                    advance.base,
                    if yes {
                        advance.max
                    } else {
                        advance.min
                    },
                );
                self.ask(advance.min, advance.max, running, advance.batter, yes);
            },
            _ => {},
        }
    }
}

impl State {
    /// The game after `draws` were given one after the other.
    pub open spec fn replayed(self, draws: Seq<Draw>) -> State
        decreases draws.len(),
    {
        if draws.len() == 0 {
            self
        } else {
            self.replayed(draws.drop_last()).next(draws.last())
        }
    }

    /// Gives the game the draws of `draws` in their order, for as long as
    /// it takes them and the counters have room, and says how many it took.
    pub fn replay(&mut self, draws: &Vec<Draw>) -> (taken: usize)
        requires
            old(self).valid(),
        ensures
            taken <= draws@.len(),
            *final(self) == old(self).replayed(draws@.take(taken as int)),
            final(self).valid(),
            taken < draws@.len() && final(self).room() ==> !final(self).accepts(
                draws@[taken as int],
            ),
            forall|k: int|
                0 <= k < taken ==> {
                    let before = #[trigger] old(self).replayed(draws@.take(k));
                    before.accepts(draws@[k]) && before.room()
                },
    {
        let mut taken: usize = 0;
        while taken < draws.len() && self.takes(draws[taken]) && self.has_room()
            invariant
                taken <= draws@.len(),
                *self == old(self).replayed(draws@.take(taken as int)),
                self.valid(),
                forall|k: int|
                    0 <= k < taken ==> {
                        let before = #[trigger] old(self).replayed(draws@.take(k));
                        before.accepts(draws@[k]) && before.room()
                    },
            decreases draws@.len() - taken,
        {
            proof {
                assert(draws@.take(taken + 1).drop_last() =~= draws@.take(taken as int));
            }
            self.step(draws[taken]);
            taken = taken + 1;
        }
        taken
    }
}

/// By its score a game is over exactly when the ninth inning is reached and
/// the sides are not level. So it is over where the home side leads as the
/// top of the ninth or of a later inning would start, and where either side
/// leads from the ninth inning on; it goes on while the sides are level, and
/// before the ninth inning in any case.
pub proof fn lemma_complete(score: Score)
    ensures
        score.complete() <==> score.inning >= 8 && score.score.away != score.score.home,
        score.inning >= 8 && !score.bottom && score.score.home > score.score.away
            ==> score.complete(),
        score.inning >= 8 && score.score.away == score.score.home ==> !score.complete(),
        score.inning < 8 ==> !score.complete(),
{
}

/// A game ends only with a half inning: a batter's turn that leaves fewer
/// than three outs is followed by the next pitch whatever the score, and
/// one that makes the third out ends the game exactly if the score, as the
/// next half inning would start, says so.
pub proof fn lemma_over_between_halves(state: State)
    ensures
        state.outs < 3 ==> state.retired().phase == Phase::Pitch,
        state.outs >= 3 ==> (state.retired().phase is Over <==> state.score.turned().complete()),
        state.outs >= 3 && !state.score.turned().complete() ==> state.retired().phase
            == Phase::Pitch,
{
}

/// Where the top of the ninth or of a later inning has ended with the home
/// side ahead, the game is over and the bottom half is not played.
pub proof fn lemma_no_bottom_half(state: State)
    requires
        state.outs >= 3,
        state.score.inning >= 8,
        !state.score.bottom,
        state.score.score.home > state.score.score.away,
    ensures
        state.retired().phase is Over,
{
}

impl Default for State {
    /// The game before the first pitch.
    fn default() -> (state: State)
        ensures
            state == State::fresh(),
            state.valid(),
    {
        State {
            score: Score::default(),
            bases: Bases { first: None, second: None, third: None },
            position: AwayHome { away: 0, home: 0 },
            outs: 0,
            balls: 0,
            strikes: 0,
            phase: Phase::Pitch,
        }
    }
}

} // verus!
