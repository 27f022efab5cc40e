use tesseract::action::build_action;
use tesseract::geometry::{facelet, generate, locate, rotate, LEN};
use tesseract::projection::{push_decimal, render_entries, screen_of, sort_entries};
use tesseract::puzzle::parse_move;
use tesseract::Tesseract;

const COLOR_NAMES: [&str; 8] = [
    "RED", "GREEN", "BLUE", "CYAN", "MAGENTA", "YELLOW", "WHITE", "PURPLE",
];

fn valid_keys() -> Vec<[usize; 4]> {
    let mut keys = Vec::new();
    for k in 0..4 {
        for a in 0..4 {
            for b in 0..4 {
                for c in 0..4 {
                    if a != b && b != c && c != a {
                        keys.push([k, a, b, c]);
                    }
                }
            }
        }
    }
    keys
}

fn identity() -> Vec<usize> {
    (0..LEN).collect()
}

/// Whether the action of `key` moves facelet `i`, by the layer rule.
fn moves(key: [usize; 4], i: usize) -> bool {
    let negative = key[0] < 2;
    let shell = (key[0] % 2 == 1) == negative;
    let v = facelet(i)[key[1]];
    let v = if negative { -v } else { v };
    v > 0 && shell != (v > 15)
}

#[test]
fn facelets_are_distinct() {
    let points = generate();
    assert_eq!(points.len(), 512);
    for i in 0..points.len() {
        for j in (i + 1)..points.len() {
            assert_ne!(points[i], points[j]);
        }
    }
}

#[test]
fn facelets_are_generated_face_by_face() {
    assert_eq!(facelet(0), [-200, -45, -45, -45]);
    assert_eq!(facelet(1), [-200, -45, -45, -15]);
    assert_eq!(facelet(63), [-200, 45, 45, 45]);
    assert_eq!(facelet(64), [200, -45, -45, -45]);
    assert_eq!(facelet(128), [-45, -200, -45, -45]);
    assert_eq!(facelet(129), [-15, -200, -45, -45]);
    assert_eq!(facelet(511), [45, 45, 45, 200]);
    for i in 0..LEN {
        assert_eq!(locate(&facelet(i)), i);
    }
}

#[test]
fn rotate_turns_b_onto_c() {
    assert_eq!(rotate(&[-200, -45, -15, 45], 1, 2), [-200, 15, -45, 45]);
    assert_eq!(rotate(&[-200, -45, -15, 45], 0, 3), [-45, -45, -15, -200]);
}

#[test]
fn actions_are_bijections() {
    let points = generate();
    for key in valid_keys() {
        let action = build_action(&points, key[0], key[1], key[2], key[3]);
        assert_eq!(action.len(), LEN);
        let mut seen = vec![false; LEN];
        for &j in &action {
            assert!(j < LEN);
            assert!(!seen[j]);
            seen[j] = true;
        }
    }
}

#[test]
fn actions_move_exactly_their_layer() {
    let points = generate();
    for key in valid_keys() {
        let action = build_action(&points, key[0], key[1], key[2], key[3]);
        for i in 0..LEN {
            if moves(key, i) {
                assert_eq!(points[action[i]], rotate(&points[i], key[2], key[3]));
            } else {
                assert_eq!(action[i], i);
            }
        }
    }
}

#[test]
fn new_state_is_identity() {
    let t = Tesseract::new();
    assert_eq!(t.state(), identity());
    assert_eq!(t.pending_len(), 0);
}

#[test]
fn apply_then_inverse_restores_state() {
    for key in valid_keys() {
        let mut t = Tesseract::new();
        t.apply(key);
        assert_ne!(t.state(), identity());
        t.apply([key[0], key[1], key[3], key[2]]);
        assert_eq!(t.state(), identity());
    }
}

#[test]
fn apply_after_scramble_then_inverse_restores_state() {
    let mut t = Tesseract::new();
    t.apply([1, 2, 0, 3]);
    t.apply([3, 0, 1, 2]);
    let before = t.state();
    t.apply([0, 3, 1, 2]);
    t.apply([0, 3, 2, 1]);
    assert_eq!(t.state(), before);
}

#[test]
fn four_quarter_turns_restore_state() {
    for key in valid_keys() {
        let mut t = Tesseract::new();
        for turn in 0..4 {
            if turn > 0 {
                assert_ne!(t.state(), identity());
            }
            t.apply(key);
        }
        assert_eq!(t.state(), identity());
    }
}

#[test]
fn apply_moves_colours_along_the_action() {
    let points = generate();
    let key = [0, 0, 1, 2];
    let action = build_action(&points, 0, 0, 1, 2);
    let mut t = Tesseract::new();
    t.apply(key);
    let state = t.state();
    for i in 0..LEN {
        assert_eq!(state[action[i]], i);
    }
}

#[test]
fn apply_unknown_key_changes_nothing() {
    let mut t = Tesseract::new();
    t.apply([0, 1, 1, 2]);
    t.apply([4, 0, 1, 2]);
    t.apply([0, 0, 1, 7]);
    assert_eq!(t.state(), identity());
}

#[test]
fn parse_move_reads_tokens() {
    assert_eq!(parse_move("0wxy"), Some([0, 0, 1, 2]));
    assert_eq!(parse_move("3ZyX"), Some([3, 3, 2, 1]));
    assert_eq!(parse_move("1www"), Some([1, 0, 0, 0]));
    assert_eq!(parse_move("9ab"), None);
    assert_eq!(parse_move("4wxy"), None);
    assert_eq!(parse_move("0wxa"), None);
    assert_eq!(parse_move("0wxyz"), None);
    assert_eq!(parse_move(""), None);
}

#[test]
fn malformed_token_leaves_queue_unchanged() {
    let mut t = Tesseract::new();
    t.input("9ab".to_string());
    assert_eq!(t.pending_len(), 0);
    t.input("0wxy".to_string());
    assert_eq!(t.pending_len(), 1);
    t.input("9ab".to_string());
    t.input("0wx".to_string());
    t.input("0wxyz".to_string());
    assert_eq!(t.pending_len(), 1);
}

#[test]
fn tick_when_idle_does_nothing() {
    let mut t = Tesseract::new();
    let before = t.project(0, 1);
    for _ in 0..45 {
        t.tick();
    }
    assert_eq!(t.state(), identity());
    assert_eq!(t.project(0, 1), before);
}

#[test]
fn animated_move_commits_after_thirty_ticks() {
    let mut animated = Tesseract::new();
    animated.input("0wxy".to_string());
    for _ in 0..29 {
        animated.tick();
        assert_eq!(animated.state(), identity());
        assert_eq!(animated.pending_len(), 1);
    }
    animated.tick();
    assert_eq!(animated.pending_len(), 0);
    let mut direct = Tesseract::new();
    direct.apply([0, 0, 1, 2]);
    assert_eq!(animated.state(), direct.state());
    assert_eq!(animated.project(0, 1), direct.project(0, 1));
}

#[test]
fn moves_animate_one_after_another() {
    let mut t = Tesseract::new();
    t.input("0wxy".to_string());
    t.input("2yzw".to_string());
    for _ in 0..30 {
        t.tick();
    }
    assert_eq!(t.pending_len(), 1);
    let mut direct = Tesseract::new();
    direct.apply([0, 0, 1, 2]);
    assert_eq!(t.state(), direct.state());
    for _ in 0..30 {
        t.tick();
    }
    assert_eq!(t.pending_len(), 0);
    direct.apply([2, 2, 3, 0]);
    assert_eq!(t.state(), direct.state());
}

fn entries(list: &str) -> Vec<(i64, i64, i64, String)> {
    list.split('|')
        .map(|e| {
            let parts: Vec<&str> = e.split(',').collect();
            assert_eq!(parts.len(), 4);
            (
                parts[0].parse().unwrap(),
                parts[1].parse().unwrap(),
                parts[2].parse().unwrap(),
                parts[3].to_string(),
            )
        })
        .collect()
}

#[test]
fn initial_projection_shows_the_near_faces() {
    let t = Tesseract::new();
    let list = t.project(0, 1);
    assert!(!list.is_empty());
    let es = entries(&list);
    let expected = (0..LEN).filter(|&i| facelet(i)[0] < 200).count();
    assert_eq!(expected, 448);
    assert_eq!(es.len(), expected);
    for (c, name) in COLOR_NAMES.iter().enumerate() {
        let n = es.iter().filter(|e| e.3 == *name).count();
        if c == 1 {
            assert_eq!(n, 0);
        } else {
            assert_eq!(n, LEN / 8);
        }
    }
}

#[test]
fn projection_hides_the_far_face_of_each_view() {
    for b in 0..4 {
        for s in [-1isize, 1] {
            let t = Tesseract::new();
            let es = entries(&t.project(b, s));
            assert_eq!(es.len(), 448);
            let far = 2 * b + if s > 0 { 1 } else { 0 };
            assert!(es.iter().all(|e| e.3 != COLOR_NAMES[far]));
        }
    }
}

#[test]
fn projection_entry_of_a_corner_facelet() {
    assert_eq!(screen_of(&[-200, -45, -45, -45], 0, 1), (-10, -35, -4));
    let t = Tesseract::new();
    let list = t.project(0, 1);
    assert!(list.split('|').any(|e| e == "-4,-35,6,RED"));
}

#[test]
fn screen_rounds_toward_zero() {
    assert_eq!(screen_of(&[45, 200, 15, -15], 0, 1), (99, 98, 217));
    assert_eq!(screen_of(&[45, 200, 15, -15], 0, -1), (63, 62, 137));
}

#[test]
fn end_to_end_move_changes_exactly_its_layer() {
    let mut t = Tesseract::new();
    let before = t.project(0, 1);
    t.input("0wxy".to_string());
    for _ in 0..30 {
        t.tick();
    }
    let after = t.project(0, 1);
    assert_ne!(before, after);
    let state = t.state();
    let key = [0, 0, 1, 2];
    let points = generate();
    let action = build_action(&points, 0, 0, 1, 2);
    for i in 0..LEN {
        let changed = state[i] != i;
        assert_eq!(changed, action[i] != i);
        assert_eq!(changed, moves(key, i));
    }
    let mut before_es = entries(&before);
    let mut after_es = entries(&after);
    assert_eq!(before_es.len(), after_es.len());
    before_es.sort();
    after_es.sort();
    let mut positions_before: Vec<(i64, i64, i64)> = before_es.iter().map(|e| (e.0, e.1, e.2)).collect();
    let mut positions_after: Vec<(i64, i64, i64)> = after_es.iter().map(|e| (e.0, e.1, e.2)).collect();
    positions_before.sort();
    positions_after.sort();
    assert_eq!(positions_before, positions_after);
}

#[test]
fn projection_during_animation_differs_from_rest() {
    let mut t = Tesseract::new();
    let rest = t.project(0, 1);
    t.input("1wyz".to_string());
    assert_eq!(t.project(0, 1), rest);
    for _ in 0..15 {
        t.tick();
    }
    assert_ne!(t.project(0, 1), rest);
    assert_eq!(t.state(), identity());
}

#[test]
fn unknown_key_still_takes_a_cycle() {
    let mut t = Tesseract::new();
    let rest = t.project(2, -1);
    t.input("0wwx".to_string());
    assert_eq!(t.pending_len(), 1);
    for _ in 0..15 {
        t.tick();
    }
    assert_eq!(t.project(2, -1), rest);
    for _ in 0..15 {
        t.tick();
    }
    assert_eq!(t.pending_len(), 0);
    assert_eq!(t.state(), identity());
}

#[test]
fn decimal_text() {
    let mut s = String::new();
    push_decimal(&mut s, -105);
    assert_eq!(s, "-105");
    let mut s = String::new();
    push_decimal(&mut s, 0);
    assert_eq!(s, "0");
    let mut s = String::from("x=");
    push_decimal(&mut s, 70010);
    assert_eq!(s, "x=70010");
}

#[test]
fn render_joins_entries() {
    let es = vec![(-10isize, -35isize, -4isize, 0usize), (5, 1, 2, 7)];
    assert_eq!(render_entries(&es), "-4,-35,6,RED|2,1,7,PURPLE");
    assert_eq!(render_entries(&Vec::new()), "");
}

#[test]
fn sort_orders_by_depth_then_y_then_x() {
    let mut es = vec![
        (3isize, 0isize, 0isize, 1usize),
        (-2, 5, 1, 0),
        (-2, 5, 0, 4),
        (-2, -1, 9, 2),
        (3, 0, 0, 0),
    ];
    sort_entries(&mut es);
    assert_eq!(
        es,
        vec![(-2, -1, 9, 2), (-2, 5, 0, 4), (-2, 5, 1, 0), (3, 0, 0, 0), (3, 0, 0, 1)]
    );
}

#[test]
fn projection_is_sorted_farthest_first() {
    let mut t = Tesseract::new();
    t.apply([3, 1, 2, 3]);
    let list = t.project(3, -1);
    let es = entries(&list);
    for w in es.windows(2) {
        let r0 = w[0].2;
        let r1 = w[1].2;
        assert!(r0 <= r1);
    }
}

#[test]
fn solve_is_a_placeholder() {
    let t = Tesseract::new();
    assert_eq!(t.solve(), "WIP");
}
