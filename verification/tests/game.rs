use dugout::game::{Playable, Score};
use dugout::state::{Advance, Bases, Draw, Phase, Running, State};
use dugout::pitch::Chance;
use std::cell::{Cell, RefCell};
use dugout::pitch::Pitch;
use dugout::util::AwayHome;

const ANNIE: usize = 0;
const ALYSSA: usize = 1;
const EIZABETH: usize = 2;
const WYATT: usize = 3;

const BALL: [Draw; 1] = [Draw::Pitch(Pitch::Ball)];
const STRIKE: [Draw; 1] = [Draw::Pitch(Pitch::Strike)];
const FOUL: [Draw; 1] = [Draw::Pitch(Pitch::Foul)];
const DINGER: [Draw; 1] = [Draw::Pitch(Pitch::Dinger)];

fn bases(first: Option<usize>, second: Option<usize>, third: Option<usize>) -> Bases {
    Bases { first, second, third }
}

fn with_bases(on: Bases) -> State {
    State { bases: on, ..State::default() }
}

fn feed(state: &mut State, draws: &[Draw]) {
    for draw in draws {
        assert!(state.takes(*draw));
        assert!(state.has_room());
        state.step(*draw);
    }
}

fn out(state: &mut State) {
    feed(state, &[Draw::Pitch(Pitch::Out)]);
}

fn single(state: &mut State) {
    feed(state, &[Draw::Pitch(Pitch::Single)]);
}

fn double(state: &mut State) {
    feed(state, &[Draw::Pitch(Pitch::Double)]);
}

fn triple(state: &mut State) {
    feed(state, &[Draw::Pitch(Pitch::Triple)]);
}

fn strike_out(state: &mut State) {
    feed(state, &STRIKE);
    feed(state, &STRIKE);
    feed(state, &STRIKE);
}

#[test]
fn test_walk() {
    let mut state = with_bases(bases(None, None, None));
    state.walk(ANNIE);
    assert_eq!(state.bases, bases(Some(ANNIE), None, None));
    assert_eq!(state.score.score.away, 0);

    let mut state = with_bases(bases(Some(ALYSSA), None, None));
    state.walk(ANNIE);
    assert_eq!(state.bases, bases(Some(ANNIE), Some(ALYSSA), None));
    assert_eq!(state.score.score.away, 0);

    let mut state = with_bases(bases(None, Some(ALYSSA), None));
    state.walk(ANNIE);
    assert_eq!(state.bases, bases(Some(ANNIE), Some(ALYSSA), None));
    assert_eq!(state.score.score.away, 0);

    let mut state = with_bases(bases(Some(EIZABETH), Some(ALYSSA), None));
    state.walk(ANNIE);
    assert_eq!(state.bases, bases(Some(ANNIE), Some(EIZABETH), Some(ALYSSA)));
    assert_eq!(state.score.score.away, 0);

    let mut state = with_bases(bases(Some(EIZABETH), Some(ALYSSA), Some(WYATT)));
    state.walk(ANNIE);
    assert_eq!(state.bases, bases(Some(ANNIE), Some(EIZABETH), Some(ALYSSA)));
    assert_eq!(state.score.score.away, 1);
}

#[test]
fn walk_leaves_a_runner_who_is_not_forced() {
    let mut state = with_bases(bases(None, None, Some(WYATT)));
    state.walk(ANNIE);
    assert_eq!(state.bases, bases(Some(ANNIE), None, Some(WYATT)));
    let mut state = with_bases(bases(Some(ALYSSA), None, Some(WYATT)));
    state.walk(ANNIE);
    assert_eq!(state.bases, bases(Some(ANNIE), Some(ALYSSA), Some(WYATT)));
    let mut state = with_bases(bases(None, Some(ALYSSA), Some(WYATT)));
    state.walk(ANNIE);
    assert_eq!(state.bases, bases(Some(ANNIE), Some(ALYSSA), Some(WYATT)));
    assert_eq!(state.score.score, AwayHome { away: 0, home: 0 });
}

#[test]
fn walk_with_the_bases_loaded_scores_for_the_side_at_bat() {
    let mut state = with_bases(bases(Some(1), Some(2), Some(3)));
    state.score.bottom = true;
    state.walk(0);
    assert_eq!(state.score.score, AwayHome { away: 0, home: 1 });
}

#[test]
fn a_fresh_game_waits_for_the_first_pitch() {
    let state = State::default();
    assert_eq!(state.score, Score { inning: 0, bottom: false, score: AwayHome { away: 0, home: 0 } });
    assert_eq!(state.score, Score::default());
    assert_eq!(state.bases, bases(None, None, None));
    assert_eq!(state.position, AwayHome { away: 0, home: 0 });
    assert_eq!((state.outs, state.balls, state.strikes), (0, 0, 0));
    assert_eq!(state.phase, Phase::Pitch);
    assert!(state.is_top());
    assert!(!state.is_bottom());
    assert!(!state.is_complete());
}

#[test]
fn four_balls_walk_the_batter() {
    let mut state = State::default();
    feed(&mut state, &BALL);
    feed(&mut state, &BALL);
    feed(&mut state, &BALL);
    assert_eq!((state.balls, state.strikes, state.outs), (3, 0, 0));
    assert_eq!(state.position.away, 0);
    feed(&mut state, &BALL);
    assert_eq!((state.balls, state.strikes, state.outs), (0, 0, 0));
    assert_eq!(state.bases, bases(Some(0), None, None));
    assert_eq!(state.position, AwayHome { away: 1, home: 0 });
    assert_eq!(state.phase, Phase::Pitch);
}

#[test]
fn three_strikes_are_an_out() {
    let mut state = State::default();
    feed(&mut state, &STRIKE);
    feed(&mut state, &STRIKE);
    assert_eq!((state.balls, state.strikes, state.outs), (0, 2, 0));
    feed(&mut state, &STRIKE);
    assert_eq!((state.balls, state.strikes, state.outs), (0, 0, 1));
    assert_eq!(state.position.away, 1);
    assert_eq!(state.bases, bases(None, None, None));
}

#[test]
fn a_foul_is_a_strike_but_never_the_third() {
    let mut state = State::default();
    feed(&mut state, &FOUL);
    assert_eq!(state.strikes, 1);
    feed(&mut state, &FOUL);
    assert_eq!(state.strikes, 2);
    feed(&mut state, &FOUL);
    feed(&mut state, &FOUL);
    assert_eq!((state.balls, state.strikes, state.outs), (0, 2, 0));
    assert_eq!(state.position.away, 0);
}

#[test]
fn the_count_is_cleared_for_the_next_batter() {
    let mut state = State::default();
    feed(&mut state, &BALL);
    feed(&mut state, &STRIKE);
    out(&mut state);
    assert_eq!((state.balls, state.strikes, state.outs), (0, 0, 1));
}

#[test]
fn a_draw_must_fit_what_the_game_waits_for() {
    let mut state = with_bases(bases(Some(1), None, None));
    assert!(state.takes(Draw::Pitch(Pitch::Out)));
    assert!(!state.takes(Draw::Roll(true)));
    assert!(!state.takes(Draw::Pick(0)));
    out(&mut state);
    assert!(!state.takes(Draw::Pitch(Pitch::Out)));
    assert!(!state.takes(Draw::Roll(true)));
    assert!(!state.takes(Draw::Pick(9)));
    assert!(state.takes(Draw::Pick(8)));
    feed(&mut state, &[Draw::Pick(8), Draw::Pick(0)]);
    assert!(!state.takes(Draw::Pitch(Pitch::Out)));
    assert!(!state.takes(Draw::Pick(0)));
    assert!(state.takes(Draw::Roll(false)));
}

#[test]
fn an_out_with_the_bases_empty_is_a_plain_out() {
    let mut state = State::default();
    out(&mut state);
    assert_eq!(state.outs, 1);
    assert_eq!(state.phase, Phase::Pitch);
    assert_eq!(state.position.away, 1);
}

#[test]
fn a_single_with_the_bases_empty_asks_nobody() {
    let mut state = State::default();
    single(&mut state);
    assert_eq!(state.bases, bases(Some(0), None, None));
    assert_eq!(state.phase, Phase::Pitch);
    assert_eq!(state.position.away, 1);
}

#[test]
fn a_single_lets_the_runner_try_for_third() {
    let mut state = with_bases(bases(Some(5), None, None));
    single(&mut state);
    assert_eq!(
        state.phase,
        Phase::ExtraBase(Advance {
            min: 1,
            max: 2,
            base: 0,
            runner: 5,
            running: Running {
                waiting: bases(Some(5), None, None),
                landed: bases(None, None, None),
                runs: 0,
            },
            batter: Some(0),
        })
    );
    let mut tries = state;
    feed(&mut tries, &[Draw::Roll(true)]);
    assert_eq!(tries.bases, bases(Some(0), None, Some(5)));
    let mut stays = state;
    feed(&mut stays, &[Draw::Roll(false)]);
    assert_eq!(stays.bases, bases(Some(0), Some(5), None));
    assert_eq!(stays.score.score.away, 0);
    assert_eq!(stays.position.away, 1);
}

#[test]
fn a_runner_is_asked_only_if_the_one_ahead_took_the_extra_base() {
    let start = with_bases(bases(Some(1), Some(2), Some(3)));

    let mut state = start;
    single(&mut state);
    feed(&mut state, &[Draw::Roll(false)]);
    assert_eq!(state.phase, Phase::Pitch);
    assert_eq!(state.bases, bases(Some(0), Some(1), Some(2)));
    assert_eq!(state.score.score.away, 1);

    let mut state = start;
    single(&mut state);
    feed(&mut state, &[Draw::Roll(true), Draw::Roll(false)]);
    assert_eq!(state.phase, Phase::Pitch);
    assert_eq!(state.bases, bases(Some(0), Some(1), Some(2)));
    assert_eq!(state.score.score.away, 1);

    let mut state = start;
    single(&mut state);
    feed(&mut state, &[Draw::Roll(true), Draw::Roll(true), Draw::Roll(false)]);
    assert_eq!(state.bases, bases(Some(0), Some(1), None));
    assert_eq!(state.score.score.away, 2);

    let mut state = start;
    single(&mut state);
    feed(&mut state, &[Draw::Roll(true), Draw::Roll(true), Draw::Roll(true)]);
    assert_eq!(state.bases, bases(Some(0), None, Some(1)));
    assert_eq!(state.score.score.away, 2);
}

#[test]
fn a_double_brings_home_the_runners_from_second_and_third() {
    let mut state = with_bases(bases(None, Some(2), Some(3)));
    double(&mut state);
    feed(&mut state, &[Draw::Roll(false)]);
    assert_eq!(state.bases, bases(None, Some(0), None));
    assert_eq!(state.score.score.away, 2);
}

#[test]
fn a_double_lets_the_runner_from_first_try_for_home() {
    let mut state = with_bases(bases(Some(7), None, None));
    double(&mut state);
    let mut tries = state;
    feed(&mut tries, &[Draw::Roll(true)]);
    assert_eq!(tries.bases, bases(None, Some(0), None));
    assert_eq!(tries.score.score.away, 1);
    let mut stays = state;
    feed(&mut stays, &[Draw::Roll(false)]);
    assert_eq!(stays.bases, bases(None, Some(0), Some(7)));
    assert_eq!(stays.score.score.away, 0);
}

#[test]
fn a_triple_clears_the_bases_and_asks_nobody() {
    let mut state = with_bases(bases(Some(1), Some(2), Some(3)));
    triple(&mut state);
    assert_eq!(state.phase, Phase::Pitch);
    assert_eq!(state.bases, bases(None, None, Some(0)));
    assert_eq!(state.score.score.away, 3);
}

#[test]
fn a_home_run_scores_everyone_and_the_batter() {
    let mut state = with_bases(bases(Some(1), Some(2), Some(3)));
    feed(&mut state, &DINGER);
    assert_eq!(state.bases, bases(None, None, None));
    assert_eq!(state.score.score, AwayHome { away: 4, home: 0 });
    assert_eq!(state.position.away, 1);

    let mut state = State::default();
    state.score.bottom = true;
    feed(&mut state, &DINGER);
    assert_eq!(state.score.score, AwayHome { away: 0, home: 1 });
    assert_eq!(state.position, AwayHome { away: 0, home: 1 });
}

#[test]
fn an_out_with_runners_on_draws_two_defenders() {
    let mut state = with_bases(bases(Some(1), None, None));
    out(&mut state);
    assert_eq!(state.outs, 1);
    assert_eq!(state.phase, Phase::FirstDefender);
    feed(&mut state, &[Draw::Pick(3)]);
    assert_eq!(state.phase, Phase::SecondDefender { first: 3 });
    feed(&mut state, &[Draw::Pick(3)]);
    assert_eq!(state.phase, Phase::DoublePlay { first: 3, second: 3 });
    feed(&mut state, &[Draw::Roll(false)]);
    assert_eq!(state.phase, Phase::FieldersChoice { defender: 3 });
    feed(&mut state, &[Draw::Roll(false)]);
    assert_eq!(state.phase, Phase::Pitch);
    assert_eq!(state.outs, 1);
    assert_eq!(state.bases, bases(Some(1), None, None));
    assert_eq!(state.position.away, 1);
}

#[test]
fn a_double_play_takes_the_lead_runner_and_the_batter() {
    let mut state = with_bases(bases(Some(1), None, Some(2)));
    out(&mut state);
    feed(&mut state, &[Draw::Pick(0), Draw::Pick(8), Draw::Roll(true)]);
    assert_eq!(state.outs, 2);
    match state.phase {
        Phase::ExtraBase(advance) => {
            assert_eq!((advance.min, advance.max), (0, 1));
            assert_eq!((advance.base, advance.runner), (0, 1));
            assert_eq!(advance.batter, None);
        }
        _ => panic!("the runner on first is asked"),
    }
    let mut tries = state;
    feed(&mut tries, &[Draw::Roll(true)]);
    assert_eq!(tries.bases, bases(None, Some(1), None));
    let mut stays = state;
    feed(&mut stays, &[Draw::Roll(false)]);
    assert_eq!(stays.bases, bases(Some(1), None, None));
    assert_eq!(stays.outs, 2);
    assert_eq!(stays.position.away, 1);
}

#[test]
fn a_double_play_takes_the_only_runner_wherever_he_stands() {
    let mut state = with_bases(bases(Some(6), None, None));
    out(&mut state);
    feed(&mut state, &[Draw::Pick(0), Draw::Pick(1), Draw::Roll(true)]);
    assert_eq!(state.outs, 2);
    assert_eq!(state.bases, bases(None, None, None));
    assert_eq!(state.phase, Phase::Pitch);
}

#[test]
fn a_double_play_can_end_the_half_inning() {
    let mut state = with_bases(bases(None, Some(1), None));
    state.outs = 1;
    out(&mut state);
    assert_eq!(state.outs, 2);
    feed(&mut state, &[Draw::Pick(0), Draw::Pick(1), Draw::Roll(true)]);
    assert_eq!(state.outs, 0);
    assert!(state.is_bottom());
    assert_eq!(state.bases, bases(None, None, None));
}

#[test]
fn a_fielders_choice_trades_the_lead_runner_for_the_batter() {
    let mut state = with_bases(bases(Some(1), Some(2), None));
    out(&mut state);
    feed(&mut state, &[Draw::Pick(5), Draw::Pick(6), Draw::Roll(false)]);
    assert_eq!(state.phase, Phase::FieldersChoice { defender: 5 });
    feed(&mut state, &[Draw::Roll(true)]);
    assert_eq!(state.outs, 1);
    assert_eq!(state.bases, bases(Some(0), Some(1), None));
    assert_eq!(state.score.score.away, 0);
    assert_eq!(state.phase, Phase::Pitch);
}

#[test]
fn three_outs_end_the_half_inning() {
    let mut state = with_bases(bases(Some(7), None, None));
    strike_out(&mut state);
    strike_out(&mut state);
    assert_eq!(state.outs, 2);
    assert_eq!(state.bases, bases(Some(7), None, None));
    strike_out(&mut state);
    assert_eq!(state.outs, 0);
    assert_eq!(state.bases, bases(None, None, None));
    assert_eq!(state.score.inning, 0);
    assert!(state.is_bottom());
    assert_eq!(state.position, AwayHome { away: 3, home: 0 });
    strike_out(&mut state);
    strike_out(&mut state);
    strike_out(&mut state);
    assert_eq!(state.score.inning, 1);
    assert!(state.is_top());
    assert_eq!(state.position, AwayHome { away: 3, home: 3 });
}

#[test]
fn the_batting_order_wraps_after_the_ninth() {
    let mut state = State::default();
    state.position.away = 8;
    state.next_batter();
    assert_eq!(state.position, AwayHome { away: 0, home: 0 });
    state.score.bottom = true;
    state.next_batter();
    assert_eq!(state.position, AwayHome { away: 0, home: 1 });
}

#[test]
fn next_half_inning_clears_the_bases_and_flips() {
    let mut state = with_bases(bases(Some(1), Some(2), Some(3)));
    state.next_half_inning();
    assert_eq!(state.bases, bases(None, None, None));
    assert_eq!((state.score.inning, state.score.bottom), (0, true));
    state.next_half_inning();
    assert_eq!((state.score.inning, state.score.bottom), (1, false));
}

#[test]
fn hitting_and_fielding_pick_the_sides() {
    let pair = AwayHome { away: "visitors", home: "hosts" };
    let mut state = State::default();
    assert_eq!(*state.hitting(&pair), "visitors");
    assert_eq!(*state.fielding(&pair), "hosts");
    state.score.bottom = true;
    assert_eq!(*state.hitting(&pair), "hosts");
    assert_eq!(*state.fielding(&pair), "visitors");
}

#[test]
fn batter_is_the_one_whose_turn_it_is() {
    let lineups = AwayHome {
        away: [10, 11, 12, 13, 14, 15, 16, 17, 18],
        home: [20, 21, 22, 23, 24, 25, 26, 27, 28],
    };
    let mut state = State::default();
    state.position = AwayHome { away: 4, home: 7 };
    assert_eq!(*state.batter(&lineups), 14);
    state.score.bottom = true;
    assert_eq!(*state.batter(&lineups), 27);
}

fn score(inning: u8, bottom: bool, away: u8, home: u8) -> Score {
    Score { inning, bottom, score: AwayHome { away, home } }
}

#[test]
fn complete_from_the_ninth_inning_on_unless_level() {
    assert!(score(8, false, 1, 2).is_complete());
    assert!(score(8, false, 2, 1).is_complete());
    assert!(score(8, true, 2, 1).is_complete());
    assert!(score(8, true, 1, 2).is_complete());
    assert!(score(12, true, 0, 1).is_complete());
    assert!(!score(8, false, 3, 3).is_complete());
    assert!(!score(8, true, 3, 3).is_complete());
    assert!(!score(200, true, 0, 0).is_complete());
    assert!(!score(7, true, 0, 9).is_complete());
    assert!(!score(0, false, 5, 0).is_complete());
}

#[test]
fn the_game_ends_with_the_half_inning_not_before() {
    let mut state = State::default();
    state.score = score(8, true, 1, 1);
    feed(&mut state, &DINGER);
    assert_eq!(state.score.score, AwayHome { away: 1, home: 2 });
    assert!(state.is_complete());
    assert_eq!(state.phase, Phase::Pitch);
    strike_out(&mut state);
    strike_out(&mut state);
    assert_eq!(state.phase, Phase::Pitch);
    strike_out(&mut state);
    assert_eq!(state.phase, Phase::Over);
    assert_eq!(state.score, score(9, false, 1, 2));
    assert!(!state.takes(Draw::Roll(true)));
    assert!(!state.takes(Draw::Pick(0)));
    assert!(!state.takes(Draw::Pitch(Pitch::Ball)));
}

#[test]
fn the_bottom_of_the_ninth_is_not_played_with_the_home_side_ahead() {
    let mut state = State::default();
    state.score = score(8, false, 0, 3);
    state.outs = 2;
    strike_out(&mut state);
    assert_eq!(state.phase, Phase::Over);
    assert_eq!(state.score, score(8, true, 0, 3));
}

#[test]
fn a_level_game_goes_into_further_innings() {
    let mut state = State::default();
    state.score = score(8, true, 2, 2);
    state.outs = 2;
    strike_out(&mut state);
    assert_eq!(state.phase, Phase::Pitch);
    assert_eq!(state.score, score(9, false, 2, 2));
}

fn scoreless_half(draws: &mut Vec<Draw>) {
    for _ in 0..9 {
        draws.extend_from_slice(&STRIKE);
    }
}

fn playable() -> Playable<u32> {
    Playable {
        id: 0xaa6c266275f84506aa069a0993313216,
        season: 3,
        day: 5,
        lineups: AwayHome {
            away: [100, 101, 102, 103, 104, 105, 106, 107, 108],
            home: [200, 201, 202, 203, 204, 205, 206, 207, 208],
        },
        pitchers: AwayHome { away: 91, home: 96 },
    }
}

fn called_strike(chance: &Chance<'_, u32>) -> bool {
    matches!(chance, Chance::InZone { .. })
}

#[test]
fn simulate_gives_up_at_the_limit() {
    let asked = Cell::new(0u32);
    let roll = |chance: Chance<'_, u32>| {
        asked.set(asked.get() + 1);
        called_strike(&chance)
    };
    assert_eq!(playable().simulate(roll, || 0, 1000), None);
    assert_eq!(asked.get(), 2000);
    assert_eq!(playable().simulate(|_: Chance<'_, u32>| true, || 0, 0), None);
}

#[test]
fn simulate_plays_to_the_end() {
    let script = [true, true, true, false, true];
    let asked = Cell::new(0usize);
    let roll = |chance: Chance<'_, u32>| {
        let n = asked.get();
        asked.set(n + 1);
        if n < script.len() {
            script[n]
        } else {
            called_strike(&chance)
        }
    };
    let score = playable().simulate(roll, || 0, 145);
    assert_eq!(score, Some(Score { inning: 8, bottom: false, score: AwayHome { away: 1, home: 0 } }));
    assert_eq!(asked.get(), 5 + 2 * 144);

    asked.set(0);
    let roll = |chance: Chance<'_, u32>| {
        let n = asked.get();
        asked.set(n + 1);
        if n < script.len() {
            script[n]
        } else {
            called_strike(&chance)
        }
    };
    assert_eq!(playable().simulate(roll, || 0, 144), None);
}

#[test]
fn simulate_gives_up_when_a_counter_has_no_room() {
    // every pitch is hit out of the park
    let roll = |chance: Chance<'_, u32>| !matches!(chance, Chance::Foul);
    assert_eq!(playable().simulate(roll, || 0, 1000), None);
    let asked = Cell::new(0u32);
    let roll = |chance: Chance<'_, u32>| {
        asked.set(asked.get() + 1);
        !matches!(chance, Chance::Foul)
    };
    assert_eq!(playable().simulate(roll, || 0, u64::MAX), None);
    assert_eq!(asked.get(), 5 * 252);
}

fn name(chance: &Chance<'_, u32>) -> String {
    match chance {
        Chance::InZone { pitcher, batter } => format!("zone {} {}", pitcher, batter),
        Chance::Swing { pitcher, in_zone } => format!("swing {} {}", pitcher, in_zone),
        Chance::Contact { pitcher, batter, in_zone } => {
            format!("contact {} {} {}", pitcher, batter, in_zone)
        }
        Chance::Foul => "foul".to_string(),
        Chance::Dinger { batter } => format!("dinger {}", batter),
        Chance::Fielded { defender, batter } => format!("fielded {} {}", defender, batter),
        Chance::Single { batter } => format!("single {}", batter),
        Chance::Triple { batter } => format!("triple {}", batter),
        Chance::DoublePlay { first, second } => format!("double play {} {}", first, second),
        Chance::FieldersChoice { defender } => format!("fielder's choice {}", defender),
        Chance::ExtraBase { runner } => format!("extra base {}", runner),
    }
}

#[test]
fn simulate_asks_about_those_whom_the_play_concerns() {
    let asked = RefCell::new(Vec::new());
    let picked = Cell::new(0usize);
    let roll = |chance: Chance<'_, u32>| {
        let mut asked = asked.borrow_mut();
        asked.push(name(&chance));
        match asked.len() {
            // a single by the first batter
            1..=3 | 7 => true,
            4..=6 => false,
            // an out by the second, no double play, a fielder's choice
            8..=10 => true,
            11 | 12 => false,
            13 => true,
            14 => false,
            15 => true,
            // a single by the third, and the runner on first goes to third
            16..=18 | 22 | 23 => true,
            _ => false,
        }
    };
    let pick = || {
        picked.set(picked.get() + 1);
        picked.get() + 2
    };
    assert_eq!(playable().simulate(roll, pick, 8), None);
    assert_eq!(picked.get(), 5);
    assert_eq!(
        *asked.borrow(),
        vec![
            "zone 96 100",
            "swing 96 true",
            "contact 96 100 true",
            "foul",
            "dinger 100",
            "fielded 203 100",
            "single 100",
            "zone 96 101",
            "swing 96 true",
            "contact 96 101 true",
            "foul",
            "dinger 101",
            "fielded 204 101",
            "double play 205 206",
            "fielder's choice 205",
            "zone 96 102",
            "swing 96 true",
            "contact 96 102 true",
            "foul",
            "dinger 102",
            "fielded 207 102",
            "single 102",
            "extra base 101",
        ]
    );
}

#[test]
fn replay_plays_a_whole_game() {
    let mut draws = Vec::new();
    draws.extend_from_slice(&DINGER);
    for _ in 0..16 {
        scoreless_half(&mut draws);
    }
    let mut state = State::default();
    let taken = state.replay(&draws);
    assert_eq!(taken, draws.len());
    assert_eq!(state.phase, Phase::Over);
    assert_eq!(state.score, score(8, false, 1, 0));
}

#[test]
fn replay_gives_the_same_game_for_the_same_draws() {
    let mut draws = Vec::new();
    draws.extend_from_slice(&BALL);
    draws.extend_from_slice(&[Draw::Pitch(Pitch::Single)]);
    draws.extend_from_slice(&[Draw::Pitch(Pitch::Single), Draw::Roll(true)]);
    draws.extend_from_slice(&FOUL);
    let mut one = State::default();
    let mut two = State::default();
    assert_eq!(one.replay(&draws), draws.len());
    assert_eq!(two.replay(&draws), draws.len());
    assert_eq!(one, two);
    assert_eq!(one.bases, bases(Some(1), None, Some(0)));
    assert_eq!(one.strikes, 1);

    let mut other = State::default();
    other.replay(&DINGER.to_vec());
    assert_ne!(one.score, other.score);
}

#[test]
fn replay_stops_at_a_draw_that_does_not_fit() {
    let draws = vec![
        Draw::Pitch(Pitch::Strike),
        Draw::Pitch(Pitch::Ball),
        Draw::Pick(3),
        Draw::Pitch(Pitch::Strike),
    ];
    let mut state = State::default();
    assert_eq!(state.replay(&draws), 2);
    assert_eq!((state.balls, state.strikes), (1, 1));
}

#[test]
fn no_room_when_the_counters_are_near_their_end() {
    let mut state = State::default();
    assert!(state.has_room());
    state.score.score.away = 252;
    assert!(!state.has_room());
    state.score.bottom = true;
    assert!(state.has_room());
    state.score.inning = 255;
    assert!(!state.has_room());
}

#[test]
fn away_leads_says_who_is_ahead() {
    assert!(score(9, false, 3, 2).away_leads());
    assert!(!score(9, false, 2, 2).away_leads());
    assert!(!score(9, false, 2, 3).away_leads());
}

#[test]
fn score_counts_a_run_for_the_side_at_bat() {
    let mut state = State::default();
    state.score();
    assert_eq!(state.score.score, AwayHome { away: 1, home: 0 });
    state.score.bottom = true;
    state.score();
    state.score();
    assert_eq!(state.score.score, AwayHome { away: 1, home: 2 });
}

#[test]
fn bases_are_read_and_set_by_their_number() {
    let mut on = bases(Some(4), None, Some(6));
    assert_eq!((on.get(0), on.get(1), on.get(2)), (Some(4), None, Some(6)));
    assert!(on.is_occupied());
    assert_eq!(on.lead_base(), 2);
    on.put(2, None);
    assert_eq!(on, bases(Some(4), None, None));
    assert_eq!(on.lead_base(), 0);
    on.put(1, Some(8));
    assert_eq!(on, bases(Some(4), Some(8), None));
    assert_eq!(on.lead_base(), 1);
    on.put(0, None);
    on.put(1, None);
    assert!(!on.is_occupied());
}

#[test]
fn add_runs_counts_for_the_side_at_bat() {
    let mut line = score(3, false, 1, 1);
    line.add_runs(3);
    assert_eq!(line, score(3, false, 4, 1));
    line.bottom = true;
    line.add_runs(2);
    line.add_runs(0);
    assert_eq!(line, score(3, true, 4, 3));
}

#[test]
fn advance_moves_the_runners_or_stops_at_the_first_who_is_asked() {
    let mut state = with_bases(bases(Some(1), None, Some(3)));
    state.advance(1, 1, Some(0));
    assert_eq!(state.bases, bases(Some(0), Some(1), None));
    assert_eq!(state.score.score.away, 1);
    assert_eq!(state.position.away, 1);

    let mut state = with_bases(bases(Some(1), None, Some(3)));
    state.advance(3, 3, None);
    assert_eq!(state.bases, bases(None, None, None));
    assert_eq!(state.score.score.away, 2);

    let mut state = with_bases(bases(Some(1), None, Some(3)));
    state.advance(0, 1, None);
    match state.phase {
        Phase::ExtraBase(advance) => assert_eq!((advance.base, advance.runner), (2, 3)),
        _ => panic!("the runner on third is asked"),
    }
    assert_eq!(state.score.score.away, 0);
    feed(&mut state, &[Draw::Roll(true)]);
    match state.phase {
        Phase::ExtraBase(advance) => {
            assert_eq!((advance.base, advance.runner), (0, 1));
            assert_eq!(advance.running.runs, 1);
        }
        _ => panic!("the runner on first is asked"),
    }
    feed(&mut state, &[Draw::Roll(false)]);
    assert_eq!(state.bases, bases(Some(1), None, None));
    assert_eq!(state.score.score.away, 1);
}
