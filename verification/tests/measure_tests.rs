use notesheet::config::Config;
use notesheet::measure::Measure;
use notesheet::note::Note;
use notesheet::sprites::{SheetConfig, SpriteSize};

fn note_at(x: i64, pitch: usize, width: i64) -> Note {
    Note { x, note: pitch, size: 0, slot: 0, width, special: false }
}

fn measure_of(notes: Vec<Note>, x: i64) -> Measure {
    Measure { notes, x, config: Config::default() }
}

fn images(config: &Config) -> SheetConfig {
    let mut sizes = Vec::new();
    let mut d = 0;
    while d <= config.smallest_note {
        sizes.push(SpriteSize { width: 30, height: 60 });
        d += 1;
    }
    SheetConfig::new(config, sizes)
}

#[test]
fn a_played_a_scores_once_on_the_note_under_the_cursor() {
    let mut measure = measure_of(vec![note_at(0, 3, 30_000)], 120_000);
    assert!(measure.check('a', 120_000 + 15_000));
    assert!(measure.notes[0].special);
    assert!(!measure.check('a', 120_000 + 15_000));
    assert!(measure.notes[0].special);
    assert_eq!(measure.x, 120_000);
    assert_eq!(measure.notes.len(), 1);
}

#[test]
fn the_first_note_hit_wins() {
    let mut measure = measure_of(
        vec![note_at(0, 2, 10_000), note_at(5_000, 3, 30_000), note_at(10_000, 3, 30_000)],
        -7_000,
    );
    assert!(measure.check('A', 5_000));
    assert_eq!(
        measure.notes,
        vec![
            note_at(0, 2, 10_000),
            Note { special: true, ..note_at(5_000, 3, 30_000) },
            note_at(10_000, 3, 30_000)
        ]
    );
    // The first note under the cursor is spent: the next one scores.
    assert!(measure.check('A', 5_000));
    assert!(measure.notes[2].special);
    assert!(!measure.check('A', 5_000));
    assert!(!measure.notes[0].special);
}

#[test]
fn a_wrong_key_or_a_cursor_elsewhere_scores_nothing() {
    let mut measure = measure_of(vec![note_at(0, 3, 30_000), note_at(50_000, 5, 30_000)], 1_000);
    assert!(!measure.check('b', 16_000));
    assert!(!measure.check('a', 31_000));
    assert!(!measure.check('a', 999));
    assert!(!measure.check('c', 50_999));
    assert_eq!(measure.notes, vec![note_at(0, 3, 30_000), note_at(50_000, 5, 30_000)]);
    assert!(measure.check('c', 51_000));
    assert!(measure.notes[1].special);
}

#[test]
fn check_works_at_the_ends_of_the_axis() {
    let mut measure = measure_of(vec![note_at(0, 3, 30_000)], i64::MIN);
    assert!(!measure.check('a', i64::MAX));
    let mut measure = measure_of(vec![note_at(i64::MAX, 3, i64::MAX)], i64::MIN);
    assert!(!measure.check('a', i64::MAX - 1));
    assert!(measure.check('a', i64::MAX - 2));
    let mut measure = measure_of(vec![note_at(i64::MIN, 3, 1)], i64::MAX);
    assert!(!measure.check('a', i64::MIN));
    assert!(measure.check('a', -1));
}

#[test]
fn is_out_screen_gives_the_same_answer_twice() {
    let inside = measure_of(vec![note_at(0, 3, 30_000)], 0);
    assert_eq!(inside.is_out_screen(), inside.is_out_screen());
    assert!(!inside.is_out_screen());
    let outside = measure_of(vec![note_at(0, 3, 30_000)], -500_000);
    assert_eq!(outside.is_out_screen(), outside.is_out_screen());
    assert!(outside.is_out_screen());
}

#[test]
fn a_measure_is_out_once_its_right_edge_is_left_of_the_origin() {
    assert!(!measure_of(Vec::new(), -400_000).is_out_screen());
    assert!(measure_of(Vec::new(), -400_001).is_out_screen());
    let shifted = Measure { notes: Vec::new(), x: -350_000, config: Config { x: 50, ..Config::default() } };
    assert!(!shifted.is_out_screen());
    let shifted = Measure { notes: Vec::new(), x: -350_001, config: Config { x: 50, ..Config::default() } };
    assert!(shifted.is_out_screen());
    assert!(!measure_of(Vec::new(), i64::MAX).is_out_screen());
}

#[test]
fn update_moves_the_measure_left_and_leaves_its_notes() {
    let mut measure = measure_of(vec![note_at(7, 3, 30_000)], 1_000);
    measure.update(10);
    assert_eq!(measure.x, 1_000 - 5_000);
    measure.update(0);
    assert_eq!(measure.x, -4_000);
    measure.update(1);
    assert_eq!(measure.x, -4_500);
    assert_eq!(measure.notes, vec![note_at(7, 3, 30_000)]);
    assert_eq!(measure.config, Config::default());
}

#[test]
fn a_new_measure_stands_where_it_was_put() {
    let config = Config::default();
    let sc = images(&config);
    let measure = Measure::new(config, 800_000, &sc);
    assert_eq!(measure.x, 800_000);
    assert_eq!(measure.config, config);
    assert!(!measure.notes.is_empty());
    assert!(measure.notes.len() <= 8);
    for n in &measure.notes {
        assert!(n.x >= 0 && n.x < 400_000);
        assert_eq!(n.width, 100_000);
        assert!(!n.special);
    }
}
