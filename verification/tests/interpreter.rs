//! Whole-program runs: the trace of pen moves, the final heading, and the
//! geometry the trace denotes.

use turtle_logo::turtle::{run, PenMove};

/// The (x, y) position reached by replaying the trace from the origin.
fn replay(moves: &[PenMove]) -> (f64, f64) {
    let mut x = 0.0f64;
    let mut y = 0.0f64;
    for m in moves {
        let heading = f64::from_bits(m.heading);
        let distance = f64::from_bits(m.distance);
        let radians = heading.to_radians();
        let sign = if m.reverse { -1.0 } else { 1.0 };
        x += sign * distance * radians.cos();
        y += sign * distance * radians.sin();
    }
    (x, y)
}

#[test]
fn test_two_angles() {
    let input = "repeat 2 [ forward 50 turn 90 ] forward 30";
    let (turtle, trace) = run(input).unwrap();
    let moves = trace.moves();
    assert_eq!(moves.len(), 3);
    assert_eq!(moves[0].distance, 50.0f64.to_bits());
    assert_eq!(moves[0].heading, 270.0f64.to_bits());
    assert!(!moves[0].reverse);
    assert_eq!(moves[1].distance, 50.0f64.to_bits());
    assert_eq!(moves[1].heading, ((270.0f64 + 90.0) % 360.0).to_bits());
    assert_eq!(moves[2].distance, 30.0f64.to_bits());
    assert_eq!(moves[2].heading, 90.0f64.to_bits());
    assert_eq!(turtle.angle, 90.0f64.to_bits());
}

#[test]
fn test_star() {
    let input = "to star\n
        repeat 5 [ forward 100 turn 144 ]\n
        end\n
        star";
    let (_, trace) = run(input).unwrap();
    assert_eq!(trace.len(), 5);
    let (x, y) = replay(trace.moves());
    assert!(x.abs() < 1e-9 && y.abs() < 1e-9);
}

#[test]
fn test_square() {
    let input = "to square :length repeat 4 [ forward :length turn 90 ] end  repeat 36 [  square 100 turn 10 ]";
    let (_, trace) = run(input).unwrap();
    assert_eq!(trace.len(), 36 * 4);
    for m in trace.moves() {
        assert_eq!(m.distance, 100.0f64.to_bits());
        assert!(!m.reverse);
    }
}

#[test]
fn test_tree() {
    let input = "to tree :size\n
   if :size < 5 [forward :size back :size stop]\n
   forward :size/3\n
   left 30 tree :size*2/3 right 30\n
   forward :size/6\n
   right 25 tree :size/2 left 25\n
   forward :size/3\n
   right 25 tree :size/2 left 25\n
   forward :size/6\n
   back :size\n
end\n
tree 150";
    let (_, trace) = run(input).unwrap();
    assert!(trace.len() > 0);
}

#[test]
fn test_fern() {
    let input = "to fern :size :sign\n
        if :size < 1 [ stop ]\n
        forward :size\n
        turn 70 * :sign fern :size * 0.5 :sign * -1 left 70 * :sign\n
        forward :size\n
        left 70 * :sign fern :size * 0.5 :sign right 70 * :sign\n
        right 7 * :sign fern :size - 1 :sign left 7 * :sign\n
        back :size * 2\n
      end\n
      fern 25 1";
    let (_, trace) = run(input).unwrap();
    assert!(trace.len() > 0);
}

#[test]
fn square_closes_and_restores_heading() {
    let input = "to square :length repeat 4 [ forward :length turn 90 ] end square 100";
    let (turtle, trace) = run(input).unwrap();
    assert_eq!(trace.len(), 4);
    for m in trace.moves() {
        assert_eq!(m.distance, 100.0f64.to_bits());
    }
    let (x, y) = replay(trace.moves());
    assert!(x.abs() < 1e-9);
    assert!(y.abs() < 1e-9);
    assert_eq!(turtle.angle, 270.0f64.to_bits());
}

#[test]
fn stop_ends_only_its_own_activation() {
    let input = "to probe :size if :size < 5 [ forward :size back :size stop ] forward 99 end probe 3 forward 7";
    let (_, trace) = run(input).unwrap();
    let moves = trace.moves();
    assert_eq!(moves.len(), 3);
    assert_eq!(moves[0].distance, 3.0f64.to_bits());
    assert!(!moves[0].reverse);
    assert_eq!(moves[1].distance, 3.0f64.to_bits());
    assert!(moves[1].reverse);
    let (x, y) = replay(&moves[0..2]);
    assert!(x.abs() < 1e-9 && y.abs() < 1e-9);
    assert_eq!(moves[2].distance, 7.0f64.to_bits());
    assert!(!moves[2].reverse);
}

#[test]
fn expressions_fold_left_to_right_on_one_tier() {
    let input = "forward 2 + 3 * 4";
    let (_, trace) = run(input).unwrap();
    assert_eq!(trace.len(), 1);
    assert_eq!(trace.moves()[0].distance, 20.0f64.to_bits());
}

#[test]
fn division_and_subtraction_fold_in_order() {
    let input = "forward 10 / 4 - 0.5";
    let (_, trace) = run(input).unwrap();
    assert_eq!(trace.moves()[0].distance, 2.0f64.to_bits());
}

#[test]
fn repeated_runs_emit_identical_geometry() {
    let input = "to square :length repeat 4 [ forward :length turn 90 ] end square 100 square 100";
    let (_, trace) = run(input).unwrap();
    let moves = trace.moves();
    assert_eq!(moves.len(), 8);
    for k in 0..4 {
        assert_eq!(moves[k].heading, moves[k + 4].heading);
        assert_eq!(moves[k].distance, moves[k + 4].distance);
        assert_eq!(moves[k].reverse, moves[k + 4].reverse);
    }
    let (_, trace2) = run(input).unwrap();
    let moves2 = trace2.moves();
    assert_eq!(moves.len(), moves2.len());
    for k in 0..moves.len() {
        assert_eq!(moves[k].heading, moves2[k].heading);
        assert_eq!(moves[k].distance, moves2[k].distance);
        assert_eq!(moves[k].reverse, moves2[k].reverse);
    }
}

#[test]
fn if_gates_on_comparison() {
    let (_, taken) = run("if 3 > 2 [ forward 1 ]").unwrap();
    assert_eq!(taken.len(), 1);
    let (_, skipped) = run("if 2 > 3 [ forward 1 ]").unwrap();
    assert_eq!(skipped.len(), 0);
    let (_, less) = run("if 2 < 3 [ forward 1 forward 1 ]").unwrap();
    assert_eq!(less.len(), 2);
}

#[test]
fn repeat_count_truncates_toward_zero() {
    let (_, trace) = run("repeat 2.9 [ forward 1 ]").unwrap();
    assert_eq!(trace.len(), 2);
    let (_, none) = run("repeat 0.9 [ forward 1 ]").unwrap();
    assert_eq!(none.len(), 0);
}

#[test]
fn empty_program_makes_no_moves() {
    let (turtle, trace) = run("").unwrap();
    assert_eq!(trace.len(), 0);
    assert_eq!(turtle.angle, 270.0f64.to_bits());
}

#[test]
fn left_turn_can_make_heading_negative() {
    let (turtle, trace) = run("left 300").unwrap();
    assert_eq!(trace.len(), 0);
    assert_eq!(turtle.angle, (-30.0f64).to_bits());
}

#[test]
fn later_definition_overwrites_earlier() {
    let input = "to mark forward 1 end to mark forward 2 end mark";
    let (_, trace) = run(input).unwrap();
    assert_eq!(trace.len(), 1);
    assert_eq!(trace.moves()[0].distance, 2.0f64.to_bits());
}

#[test]
fn turn_and_right_are_synonyms() {
    let (a, _) = run("turn 90").unwrap();
    let (b, _) = run("right 90").unwrap();
    assert_eq!(a.angle, b.angle);
    assert_eq!(a.angle, 0.0f64.to_bits());
}

#[test]
fn bare_brackets_group_statements() {
    let (_, trace) = run("repeat 1 [ [ forward 1 ] forward 2 ]").unwrap();
    assert_eq!(trace.len(), 2);
}
