use dugout::util::{halfuuid, AwayHome};

#[test]
fn halfuuid_takes_the_low_half() {
    assert_eq!(halfuuid(0), 0);
    assert_eq!(halfuuid(0x4f7d749072814f8fb62e37e99a7c46a0), 0xb62e37e99a7c46a0);
    assert_eq!(halfuuid(u128::MAX), u64::MAX);
    assert_eq!(halfuuid(1 << 64), 0);
}

#[test]
fn map_opt_maps_both_sides() {
    let pair = AwayHome { away: 2u32, home: 5u32 };
    let mapped = pair.map_opt(|x: &u32| Some(*x * 10));
    assert_eq!(mapped, Some(AwayHome { away: 20u32, home: 50u32 }));
}

#[test]
fn map_opt_gives_nothing_if_either_side_does() {
    let pair = AwayHome { away: 2u32, home: 5u32 };
    assert_eq!(pair.map_opt(|x: &u32| if *x == 2 { None } else { Some(*x) }), None);
    assert_eq!(pair.map_opt(|x: &u32| if *x == 5 { None } else { Some(*x) }), None);
    assert_eq!(pair.map_opt(|_: &u32| None::<u8>), None);
}

#[test]
fn away_home_default_is_default_of_both() {
    let pair: AwayHome<u8> = AwayHome::default();
    assert_eq!(pair, AwayHome { away: 0, home: 0 });
}
