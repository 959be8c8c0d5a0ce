use row4::score::{Score, WHOLE};

#[test]
fn the_fixed_scores() {
    assert_eq!(WHOLE, 1_000_000);
    assert_eq!(Score::win(), Score { ppm: 1_000_000 });
    assert_eq!(Score::loss(), Score { ppm: 0 });
    assert_eq!(Score::draw(), Score { ppm: 500_000 });
    assert_eq!(Score::lowest(), Score { ppm: -1_000_000 });
    assert_eq!(Score::highest(), Score { ppm: 2_000_000 });
}

#[test]
fn share_of_games_is_rounded_down() {
    assert_eq!(Score::of_games(0, 80), Score { ppm: 0 });
    assert_eq!(Score::of_games(80, 80), Score { ppm: 1_000_000 });
    assert_eq!(Score::of_games(20, 80), Score { ppm: 250_000 });
    assert_eq!(Score::of_games(1, 3), Score { ppm: 333_333 });
    assert_eq!(Score::of_games(2, 3), Score { ppm: 666_666 });
    assert_eq!(Score::of_games(u32::MAX, u32::MAX), Score { ppm: 1_000_000 });
    assert_eq!(Score::of_games(1, u32::MAX), Score { ppm: 0 });
}

#[test]
fn no_games_count_as_a_draw() {
    assert_eq!(Score::of_games(0, 0), Score { ppm: 500_000 });
}

#[test]
fn complement_is_what_is_left() {
    assert_eq!(Score { ppm: 300_000 }.complement(), Score { ppm: 700_000 });
    assert_eq!(Score::win().complement(), Score::loss());
    assert_eq!(Score::loss().complement(), Score::win());
    assert_eq!(Score::draw().complement(), Score::draw());
}

#[test]
fn max_and_min() {
    let low = Score { ppm: 10 };
    let high = Score { ppm: 20 };
    assert_eq!(low.max(high), high);
    assert_eq!(high.max(low), high);
    assert_eq!(low.min(high), low);
    assert_eq!(high.min(low), low);
    assert_eq!(Score::lowest().max(Score::loss()), Score::loss());
    assert_eq!(Score::highest().min(Score::win()), Score::win());
}
