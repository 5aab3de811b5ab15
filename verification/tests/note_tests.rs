use notesheet::config::Config;
use notesheet::note::{free_room, pitch_letter, two_to, Note};
use notesheet::rhythm::Rhythm;
use notesheet::sprites::{Frame, SheetConfig, SpriteSize};

fn layout(depth: u32) -> Config {
    Config { smallest_note: depth, ..Config::default() }
}

fn images(config: &Config) -> SheetConfig {
    let mut sizes = Vec::new();
    let mut d = 0;
    while d <= config.smallest_note {
        sizes.push(SpriteSize { width: 30 - 5 * (d as u16), height: 60 });
        d += 1;
    }
    SheetConfig::new(config, sizes)
}

fn single(pitch: usize) -> Rhythm {
    Rhythm::Single { pitch }
}

fn split(first: Rhythm, second: Rhythm) -> Rhythm {
    Rhythm::Split { first: Box::new(first), second: Box::new(second) }
}

fn plain(x: i64, pitch: usize, width: i64) -> Note {
    Note { x, note: pitch, size: 0, slot: 0, width, special: false }
}

#[test]
fn two_to_doubles() {
    assert_eq!(two_to(0), 1);
    assert_eq!(two_to(1), 2);
    assert_eq!(two_to(5), 32);
    assert_eq!(two_to(20), 1_048_576);
}

#[test]
fn free_room_is_measure_less_one_and_a_half_cells() {
    assert_eq!(free_room(&Config::default()), 100_000);
    assert_eq!(free_room(&Config::small()), 340_000);
}

#[test]
fn sheet_config_scales_the_first_image_to_a_cell() {
    let config = layout(2);
    let sc = images(&config);
    assert_eq!(sc.cell, 200_000);
    assert_eq!(sc.base, 60);
    assert_eq!(sc.textures.len(), 3);
    assert_eq!(sc.images.len(), 3);
    assert_eq!(sc.width_of(0), 100_000);
    assert_eq!(sc.width_of(1), 83_333);
    assert_eq!(sc.width_of(2), 66_666);
}

#[test]
fn sheet_config_frames_each_image() {
    let config = layout(1);
    let sc = SheetConfig::new(
        &config,
        vec![SpriteSize { width: 30, height: 60 }, SpriteSize { width: 24, height: 48 }],
    );
    assert_eq!(sc.images[0], Frame { x: 25_000, y: 40_000, width: 30_000, height: 60_000 });
    assert_eq!(sc.images[1], Frame { x: 25_000, y: 52_000, width: 24_000, height: 48_000 });
}

#[test]
fn a_single_note_fills_the_measure() {
    let config = layout(3);
    let sc = images(&config);
    let notes = Note::lay_out(&config, &single(3), 0, 0, &sc);
    assert_eq!(notes, vec![Note { x: 0, note: 3, size: 0, slot: 0, width: 100_000, special: false }]);
}

#[test]
fn notes_of_a_rhythm_come_left_to_right() {
    let config = layout(3);
    let sc = images(&config);
    let rhythm = split(single(0), split(single(6), single(2)));
    let notes = Note::lay_out(&config, &rhythm, 0, 0, &sc);
    assert_eq!(
        notes,
        vec![
            Note { x: 0, note: 0, size: 1, slot: 0, width: 83_333, special: false },
            Note { x: 50_000, note: 6, size: 2, slot: 2, width: 66_666, special: false },
            Note { x: 75_000, note: 2, size: 2, slot: 3, width: 66_666, special: false },
        ]
    );
}

#[test]
fn a_full_rhythm_has_two_to_the_depth_notes() {
    let config = layout(2);
    let sc = images(&config);
    let rhythm = split(split(single(1), single(2)), split(single(3), single(4)));
    let notes = Note::lay_out(&config, &rhythm, 0, 0, &sc);
    assert_eq!(notes.len(), 4);
    let mut i = 0;
    while i < 4 {
        assert_eq!(notes[i].size, 2);
        assert_eq!(notes[i].slot, i as u32);
        assert_eq!(notes[i].x, (i as i64) * 25_000);
        assert_eq!(notes[i].note, i + 1);
        i += 1;
    }
}

#[test]
fn lay_out_within_a_span_of_its_own() {
    let config = layout(2);
    let sc = images(&config);
    let notes = Note::lay_out(&config, &split(single(5), single(5)), 1, 1, &sc);
    assert_eq!(notes.len(), 2);
    assert_eq!((notes[0].size, notes[0].slot, notes[0].x), (2, 2, 50_000));
    assert_eq!((notes[1].size, notes[1].slot, notes[1].x), (2, 3, 75_000));
}

#[test]
fn place_puts_a_note_in_its_span() {
    let config = layout(3);
    let sc = images(&config);
    let note = Note::place(&config, 4, 3, 5, &sc);
    assert_eq!(note, Note { x: 62_500, note: 4, size: 3, slot: 5, width: 50_000, special: false });
}

#[test]
fn the_first_face_of_the_coin_ends_the_subdivision() {
    assert!(Rhythm::ends_on(0));
    assert!(!Rhythm::ends_on(1));
}

#[test]
fn the_coin_decides_between_one_note_and_two_halves() {
    let mut round = 0;
    while round < 100 {
        match Rhythm::on_coin(0, 3, 0) {
            Rhythm::Single { pitch } => assert!(pitch < 7),
            Rhythm::Split { .. } => panic!("the first face of the coin halved the span"),
        }
        assert!(matches!(Rhythm::on_coin(0, 3, 1), Rhythm::Split { .. }));
        // One step above the smallest note both halves hold one note each.
        match Rhythm::on_coin(2, 3, 1) {
            Rhythm::Split { first, second } => {
                assert!(matches!(*first, Rhythm::Single { pitch } if pitch < 7));
                assert!(matches!(*second, Rhythm::Single { pitch } if pitch < 7));
            }
            Rhythm::Single { .. } => panic!("the second face of the coin did not halve the span"),
        }
        round += 1;
    }
}

#[test]
fn random_rhythm_at_the_smallest_depth_is_one_note_of_the_scale() {
    let mut round = 0;
    while round < 200 {
        match Rhythm::random(4, 4) {
            Rhythm::Single { pitch } => assert!(pitch < 7),
            Rhythm::Split { .. } => panic!("a span of the smallest note was halved"),
        }
        round += 1;
    }
}

#[test]
fn random_rhythms_differ() {
    let mut singles = 0;
    let mut splits = 0;
    let mut round = 0;
    while round < 400 {
        match Rhythm::random(0, 3) {
            Rhythm::Single { .. } => singles += 1,
            Rhythm::Split { .. } => splits += 1,
        }
        round += 1;
    }
    assert!(singles > 0);
    assert!(splits > 0);
}

#[test]
fn random_pitches_cover_the_scale() {
    let mut seen = [false; 7];
    let mut round = 0;
    while round < 2000 {
        if let Rhythm::Single { pitch } = Rhythm::random(0, 0) {
            seen[pitch] = true;
        }
        round += 1;
    }
    assert_eq!(seen, [true; 7]);
}

#[test]
fn generated_notes_number_between_one_and_two_to_the_depth() {
    let mut depth = 0;
    while depth <= 4 {
        let config = layout(depth);
        let sc = images(&config);
        let mut round = 0;
        while round < 200 {
            let notes = Note::random(&config, 0, 0, &sc);
            assert!(notes.len() >= 1);
            assert!(notes.len() <= 1 << depth);
            let full = notes.iter().all(|n| n.size == depth);
            assert_eq!(notes.len() == 1 << depth, full);
            round += 1;
        }
        depth += 1;
    }
}

#[test]
fn generated_notes_stay_in_range() {
    let config = layout(3);
    let sc = images(&config);
    let mut round = 0;
    while round < 300 {
        for n in Note::random(&config, 0, 0, &sc) {
            assert!(n.size <= 3);
            assert!(n.slot < 1 << n.size);
            assert!(n.note < 7);
            assert!(!n.special);
            assert!(n.x >= 0 && n.x < 400_000);
            assert_eq!(n.x, (n.slot as i64) * 100_000 / (1 << n.size));
            assert_eq!(n.width, sc.width_of(n.size));
        }
        round += 1;
    }
}

#[test]
fn generated_notes_tile_the_measure() {
    let config = layout(4);
    let sc = images(&config);
    let mut round = 0;
    while round < 300 {
        let notes = Note::random(&config, 0, 0, &sc);
        let mut at: u32 = 0;
        for n in notes {
            let ticks = 1 << (4 - n.size);
            assert_eq!(n.slot * ticks, at);
            at += ticks;
        }
        assert_eq!(at, 16);
        round += 1;
    }
}

#[test]
fn with_depth_zero_one_note_is_generated() {
    let config = layout(0);
    let sc = images(&config);
    let notes = Note::random(&config, 0, 0, &sc);
    assert_eq!(notes.len(), 1);
    assert_eq!((notes[0].size, notes[0].slot, notes[0].x), (0, 0, 0));
}

#[test]
fn every_pitch_answers_to_its_letter_in_both_cases() {
    let upper = ['E', 'F', 'G', 'A', 'B', 'C', 'D'];
    let lower = ['e', 'f', 'g', 'a', 'b', 'c', 'd'];
    let mut pitch = 0;
    while pitch < 7 {
        let note = plain(0, pitch, 10);
        let mut other = 0;
        while other < 7 {
            assert_eq!(note.named_by(upper[other]), other == pitch);
            assert_eq!(note.named_by(lower[other]), other == pitch);
            other += 1;
        }
        assert!(!note.named_by('h'));
        assert!(!note.named_by('3'));
        pitch += 1;
    }
    assert!(!plain(0, 7, 10).named_by('E'));
    assert!(!plain(0, 7, 10).named_by('D'));
}

#[test]
fn a_note_is_hit_from_its_left_edge_up_to_its_right_edge() {
    assert!(plain(100, 3, 30).check('A', 100));
    assert!(plain(100, 3, 30).check('A', 129));
    assert!(!plain(100, 3, 30).check('A', 130));
    assert!(!plain(100, 3, 30).check('A', 99));
    assert!(!plain(100, 3, 30).check('B', 110));
    assert!(!plain(-50, 3, 30).check('a', -51));
    assert!(plain(-50, 3, 30).check('a', -21));
}

#[test]
fn a_hit_marks_the_note_and_scores_once() {
    let mut note = plain(0, 3, 30_000);
    assert!(note.check('a', 15_000));
    assert!(note.special);
    assert!(!note.check('a', 15_000));
    assert!(note.special);
    assert_eq!(note, Note { special: true, ..plain(0, 3, 30_000) });
}

#[test]
fn a_miss_leaves_the_note_as_it_was() {
    let mut note = plain(0, 3, 30_000);
    assert!(!note.check('c', 15_000));
    assert!(!note.check('a', 30_000));
    assert_eq!(note, plain(0, 3, 30_000));
}

#[test]
fn anchor_follows_the_pitch() {
    let config = Config::default();
    assert_eq!(plain(5, 0, 10).anchor(&config), (5, 1_000_000));
    assert_eq!(plain(5, 3, 10).anchor(&config), (5, 625_000));
    assert_eq!(plain(5, 6, 10).anchor(&config), (5, 250_000));
}

#[test]
fn anchor_does_not_depend_on_the_number_of_lines() {
    let mut lines = 2;
    while lines < 12 {
        let config = Config { lines, ..Config::default() };
        assert_eq!(plain(-7, 3, 10).anchor(&config), (-7, 625_000));
        assert_eq!(plain(-7, 5, 10).anchor(&config), (-7, 375_000));
        lines += 1;
    }
    let low = Config { height: 100, ..Config::default() };
    assert_eq!(plain(0, 1, 10).anchor(&low), (0, 87_500));
}

#[test]
fn pitch_letters_follow_the_scale() {
    let letters: Vec<char> = (0..7).map(pitch_letter).collect();
    assert_eq!(letters, vec!['E', 'F', 'G', 'A', 'B', 'C', 'D']);
}

#[test]
fn only_a_matched_note_has_a_halo() {
    let config = Config::default();
    assert_eq!(plain(0, 1, 10).halo(&config), None);
    let matched = Note { special: true, ..plain(0, 1, 10) };
    assert_eq!(
        matched.halo(&config),
        Some(Frame { x: 0, y: -249_999, width: 333_332, height: 333_332 })
    );
}
