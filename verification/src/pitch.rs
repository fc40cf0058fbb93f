use vstd::prelude::*;

verus! {

/// How one pitch ends.
#[derive(Debug, Clone, Copy, PartialEq, Eq, Structural)]
pub enum Pitch {
    Ball,
    Strike,
    Foul,
    Out,
    Single,
    Double,
    Triple,
    Dinger,
}

/// A question that a game puts to chance, with those among the players
/// whose ratings decide how likely the answer is yes.
#[derive(Debug, Clone, Copy)]
pub enum Chance<'a, P> {
    /// Is the pitch in the strike zone?
    InZone { pitcher: &'a P, batter: &'a P },
    /// Does the batter swing?
    Swing { pitcher: &'a P, in_zone: bool },
    /// Does the swing meet the ball?
    Contact { pitcher: &'a P, batter: &'a P, in_zone: bool },
    /// Does the ball go foul?
    Foul,
    /// Does it leave the park?
    Dinger { batter: &'a P },
    /// Does the defender that the ball is hit to make the out?
    Fielded { defender: &'a P, batter: &'a P },
    /// Does the batter stop at first?
    Single { batter: &'a P },
    /// Does the batter reach third?
    Triple { batter: &'a P },
    /// Do these two defenders turn a double play?
    DoublePlay { first: &'a P, second: &'a P },
    /// Does the defender get the lead runner in place of the batter?
    FieldersChoice { defender: &'a P },
    /// Does the runner take one base more than the sure ones?
    ExtraBase { runner: &'a P },
}

/// The pitch that a run of answers ends in, if it ends in one. The
/// questions come in a fixed order and stop at the answer that settles the
/// pitch: in the zone? swung at? (if not: a strike in the zone, a ball
/// outside it) met? (if not: a strike) foul? home run? fielded for an out?
/// a single? a triple? A pitch that is none of these is a double.
pub open spec fn outcome(answers: Seq<bool>) -> Option<Pitch> {
    if answers.len() == 2 && !answers[1] {
        Some(if answers[0] { Pitch::Strike } else { Pitch::Ball })
    } else if answers.len() == 3 && answers[1] && !answers[2] {
        Some(Pitch::Strike)
    } else if answers.len() == 4 && answers[1] && answers[2] && answers[3] {
        Some(Pitch::Foul)
    } else if answers.len() >= 5 && answers[1] && answers[2] && !answers[3] {
        if answers.len() == 5 && answers[4] {
            Some(Pitch::Dinger)
        } else if answers.len() == 6 && !answers[4] && answers[5] {
            Some(Pitch::Out)
        } else if answers.len() == 7 && !answers[4] && !answers[5] && answers[6] {
            Some(Pitch::Single)
        } else if answers.len() == 8 && !answers[4] && !answers[5] && !answers[6] {
            Some(if answers[7] { Pitch::Triple } else { Pitch::Double })
        } else {
            None
        }
    } else {
        None
    }
}

/// The question that answer number `k` of a pitch answers, `defender`
/// being the place in the field of the one that the ball is hit to.
pub open spec fn chance_at<'a, P>(
    pitcher: &'a P,
    batter: &'a P,
    defense: &'a [P; 9],
    answers: Seq<bool>,
    defender: usize,
    k: int,
) -> Chance<'a, P> {
    if k == 0 {
        Chance::InZone { pitcher, batter }
    } else if k == 1 {
        Chance::Swing { pitcher, in_zone: answers[0] }
    } else if k == 2 {
        Chance::Contact { pitcher, batter, in_zone: answers[0] }
    } else if k == 3 {
        Chance::Foul
    } else if k == 4 {
        Chance::Dinger { batter }
    } else if k == 5 {
        Chance::Fielded { defender: &defense[defender as int], batter }
    } else if k == 6 {
        Chance::Single { batter }
    } else {
        Chance::Triple { batter }
    }
}

impl Pitch {
    /// Whether `roll` and `pick` can have thrown `pitch` by these answers
    /// and this defender: the answers end in `pitch`, each is one that `roll`
    /// gives to its question, and where the ball was put in play `pick` gave
    /// the defender, one of the nine.
    pub open spec fn thrown<P, R: Fn(Chance<'_, P>) -> bool, K: Fn() -> usize>(
        pitcher: &P,
        batter: &P,
        defense: &[P; 9],
        roll: &R,
        pick: &K,
        answers: Seq<bool>,
        defender: usize,
        pitch: Pitch,
    ) -> bool {
        &&& outcome(answers) == Some(pitch)
        &&& forall|k: int|
            0 <= k < answers.len() ==> roll.ensures(
                (chance_at(pitcher, batter, defense, answers, defender, k),),
                #[trigger] answers[k],
            )
        &&& answers.len() > 5 ==> defender < 9 && pick.ensures((), defender)
    }

    /// Whether `roll` and `pick` can throw `pitch` to this batter.
    pub open spec fn possible<P, R: Fn(Chance<'_, P>) -> bool, K: Fn() -> usize>(
        pitcher: &P,
        batter: &P,
        defense: &[P; 9],
        roll: &R,
        pick: &K,
        pitch: Pitch,
    ) -> bool {
        exists|answers: Seq<bool>, defender: usize| #[trigger]
            Self::thrown(pitcher, batter, defense, roll, pick, answers, defender, pitch)
    }

    /// Throws one pitch: puts the questions to `roll` in their order until
    /// an answer settles the pitch, and has `pick` draw the defender, by the
    /// place among the nine, when the ball is put in play.
    pub fn simulate<P, R: Fn(Chance<'_, P>) -> bool, K: Fn() -> usize>(
        pitcher: &P,
        batter: &P,
        defense: &[P; 9],
        roll: &R,
        pick: &K,
    ) -> (pitch: Pitch)
        requires
            forall|chance: Chance<'_, P>| roll.requires((chance,)),
            pick.requires(()),
            forall|defender: usize| pick.ensures((), defender) ==> defender < 9,
        ensures
            Self::possible(pitcher, batter, defense, roll, pick, pitch),
    {
        let in_zone = roll(Chance::InZone { pitcher, batter });
        let swings = roll(Chance::Swing { pitcher, in_zone });
        if !swings {
            let pitch = if in_zone {
                Pitch::Strike
            } else {
                Pitch::Ball
            };
            assert(Self::thrown(pitcher, batter, defense, roll, pick, seq![in_zone, swings], 0, pitch));
            return pitch;
        }
        let contact = roll(Chance::Contact { pitcher, batter, in_zone });
        if !contact {
            assert(Self::thrown(
                pitcher,
                batter,
                defense,
                roll,
                pick,
                seq![in_zone, swings, contact],
                0,
                Pitch::Strike,
            ));
            return Pitch::Strike;
        }
        let foul = roll(Chance::Foul);
        if foul {
            assert(Self::thrown(
                pitcher,
                batter,
                defense,
                roll,
                pick,
                seq![in_zone, swings, contact, foul],
                0,
                Pitch::Foul,
            ));
            return Pitch::Foul;
        }
        let dinger = roll(Chance::Dinger { batter });
        if dinger {
            assert(Self::thrown(
                pitcher,
                batter,
                defense,
                roll,
                pick,
                seq![in_zone, swings, contact, foul, dinger],
                0,
                Pitch::Dinger,
            ));
            return Pitch::Dinger;
        }
        let defender = pick();
        let out = roll(Chance::Fielded { defender: &defense[defender], batter });
        if out {
            assert(Self::thrown(
                pitcher,
                batter,
                defense,
                roll,
                pick,
                seq![in_zone, swings, contact, foul, dinger, out],
                defender,
                Pitch::Out,
            ));
            return Pitch::Out;
        }
        let single = roll(Chance::Single { batter });
        if single {
            assert(Self::thrown(
                pitcher,
                batter,
                defense,
                roll,
                pick,
                seq![in_zone, swings, contact, foul, dinger, out, single],
                defender,
                Pitch::Single,
            ));
            return Pitch::Single;
        }
        let triple = roll(Chance::Triple { batter });
        let pitch = if triple {
            Pitch::Triple
        } else {
            Pitch::Double
        };
        assert(Self::thrown(
            pitcher,
            batter,
            defense,
            roll,
            pick,
            seq![in_zone, swings, contact, foul, dinger, out, single, triple],
            defender,
            pitch,
        ));
        pitch
    }
}

/// A pitch ends with the answer that settles it: no run of answers that
/// ends a pitch goes on to end another.
pub proof fn lemma_outcome_prefix_free(short: Seq<bool>, long: Seq<bool>)
    requires
        short.len() < long.len(),
        short == long.take(short.len() as int),
        outcome(short) is Some,
    ensures
        outcome(long) is None,
{
    assert forall|k: int| 0 <= k < short.len() implies short[k] == long[k] by {
        assert(long.take(short.len() as int)[k] == long[k]);
    }
}

/// Whether `roll` has one answer to each question and `pick` draws one
/// defender.
pub open spec fn single_valued<P, R: Fn(Chance<'_, P>) -> bool, K: Fn() -> usize>(
    roll: &R,
    pick: &K,
) -> bool {
    &&& forall|chance: Chance<'_, P>, a: bool, b: bool|
        #![trigger roll.ensures((chance,), a), roll.ensures((chance,), b)]
        roll.ensures((chance,), a) && roll.ensures((chance,), b) ==> a == b
    &&& forall|a: usize, b: usize|
        #![trigger pick.ensures((), a), pick.ensures((), b)]
        pick.ensures((), a) && pick.ensures((), b) ==> a == b
}

/// Where `roll` has one answer to each question and `pick` draws one
/// defender, they can throw one pitch only.
pub proof fn lemma_pitch_unique<P, R: Fn(Chance<'_, P>) -> bool, K: Fn() -> usize>(
    pitcher: &P,
    batter: &P,
    defense: &[P; 9],
    roll: &R,
    pick: &K,
    one: Pitch,
    other: Pitch,
)
    requires
        single_valued(roll, pick),
        Pitch::possible(pitcher, batter, defense, roll, pick, one),
        Pitch::possible(pitcher, batter, defense, roll, pick, other),
    ensures
        one == other,
{
    let (a, da) = choose|answers: Seq<bool>, defender: usize| #[trigger]
        Pitch::thrown(pitcher, batter, defense, roll, pick, answers, defender, one);
    let (b, db) = choose|answers: Seq<bool>, defender: usize| #[trigger]
        Pitch::thrown(pitcher, batter, defense, roll, pick, answers, defender, other);
    let asked = |answers: Seq<bool>, defender: usize, k: int|
        chance_at(pitcher, batter, defense, answers, defender, k);
    assert(roll.ensures((asked(a, da, 0),), a[0]) && roll.ensures((asked(b, db, 0),), b[0]));
    assert(roll.ensures((asked(a, da, 1),), a[1]) && roll.ensures((asked(b, db, 1),), b[1]));
    if a[1] {
        assert(roll.ensures((asked(a, da, 2),), a[2]) && roll.ensures((asked(b, db, 2),), b[2]));
        if a[2] {
            assert(roll.ensures((asked(a, da, 3),), a[3]) && roll.ensures(
                (asked(b, db, 3),),
                b[3],
            ));
            if !a[3] {
                assert(roll.ensures((asked(a, da, 4),), a[4]) && roll.ensures(
                    (asked(b, db, 4),),
                    b[4],
                ));
                if !a[4] {
                    assert(da == db);
                    assert(roll.ensures((asked(a, da, 5),), a[5]) && roll.ensures(
                        (asked(b, db, 5),),
                        b[5],
                    ));
                    if !a[5] {
                        assert(roll.ensures((asked(a, da, 6),), a[6]) && roll.ensures(
                            (asked(b, db, 6),),
                            b[6],
                        ));
                        if !a[6] {
                            assert(roll.ensures((asked(a, da, 7),), a[7]) && roll.ensures(
                                (asked(b, db, 7),),
                                b[7],
                            ));
                        }
                    }
                }
            }
        }
    }
}

} // verus!
