use life::events::{frame_step, should_terminate, KeyPress, LoopEvent};
use life::sim::{CellRect, State};

fn fresh() -> State {
    State::new(800, 600, 10)
}

fn alive_cells(s: &State) -> Vec<(usize, usize)> {
    let mut out: Vec<(usize, usize)> = Vec::new();
    for i in 0..s.rows() {
        for j in 0..s.cols() {
            if s.cell_is_alive(i, j) {
                out.push((i, j));
            }
        }
    }
    out
}

#[test]
fn grid_dimension_derivation() {
    let s = fresh();
    assert_eq!(s.rows(), 60);
    assert_eq!(s.cols(), 80);
}

#[test]
fn glider_seeding() {
    let s = fresh().init_glider();
    let alive = alive_cells(&s);
    assert_eq!(alive, vec![(10, 11), (11, 12), (12, 10), (12, 11), (12, 12)]);
}

#[test]
fn neighbor_count_interior_all_eight() {
    let mut s = fresh();
    for i in 4..7 {
        for j in 4..7 {
            if !(i == 5 && j == 5) {
                s.set_cell(i, j, true);
            }
        }
    }
    assert!(!s.cell_is_alive(5, 5));
    assert_eq!(s.get_hood_count(5, 5), 8);
}

#[test]
fn neighbor_count_interior_three() {
    let mut s = fresh();
    s.set_cell(4, 4, true);
    s.set_cell(5, 6, true);
    s.set_cell(6, 5, true);
    assert_eq!(s.get_hood_count(5, 5), 3);
}

#[test]
fn neighbor_count_corner() {
    let mut s = fresh();
    s.set_cell(0, 1, true);
    s.set_cell(1, 0, true);
    assert_eq!(s.get_hood_count(0, 0), 2);
}

#[test]
fn transition_birth_on_three() {
    let mut s = fresh();
    s.set_cell(4, 5, true);
    s.set_cell(5, 4, true);
    s.set_cell(5, 6, true);
    assert!(!s.cell_is_alive(5, 5));
    s.next();
    assert!(s.cell_is_alive(5, 5));
}

#[test]
fn no_birth_on_two_or_four() {
    let mut two = fresh();
    two.set_cell(4, 5, true);
    two.set_cell(5, 4, true);
    two.next();
    assert!(!two.cell_is_alive(5, 5));

    let mut four = fresh();
    four.set_cell(4, 5, true);
    four.set_cell(5, 4, true);
    four.set_cell(5, 6, true);
    four.set_cell(6, 5, true);
    four.next();
    assert!(!four.cell_is_alive(5, 5));
}

#[test]
fn survival_on_two_and_three() {
    let mut two = fresh();
    two.set_cell(5, 5, true);
    two.set_cell(4, 5, true);
    two.set_cell(6, 5, true);
    two.next();
    assert!(two.cell_is_alive(5, 5));

    let mut three = fresh();
    three.set_cell(5, 5, true);
    three.set_cell(4, 4, true);
    three.set_cell(4, 6, true);
    three.set_cell(6, 5, true);
    three.next();
    assert!(three.cell_is_alive(5, 5));
}

#[test]
fn death_when_lonely_or_overcrowded() {
    let mut zero = fresh();
    zero.set_cell(5, 5, true);
    zero.next();
    assert!(!zero.cell_is_alive(5, 5));

    let mut one = fresh();
    one.set_cell(5, 5, true);
    one.set_cell(5, 6, true);
    one.next();
    assert!(!one.cell_is_alive(5, 5));

    for extra in 4..=8 {
        let mut s = fresh();
        s.set_cell(5, 5, true);
        let neighbors = [
            (4usize, 4usize),
            (4, 5),
            (4, 6),
            (5, 4),
            (5, 6),
            (6, 4),
            (6, 5),
            (6, 6),
        ];
        for k in 0..extra {
            let (i, j) = neighbors[k];
            s.set_cell(i, j, true);
        }
        s.next();
        assert!(!s.cell_is_alive(5, 5), "alive with {} neighbors", extra);
    }
}

#[test]
fn glider_translates_in_four_generations() {
    let mut s = fresh().init_glider();
    let before = alive_cells(&s);
    for _ in 0..4 {
        s.next();
    }
    let after = alive_cells(&s);
    let translated: Vec<(usize, usize)> = before.iter().map(|&(i, j)| (i + 1, j + 1)).collect();
    let mut sorted = translated.clone();
    sorted.sort();
    assert_eq!(after, sorted);
}

#[test]
fn rect_derivation_single_cell() {
    let mut s = fresh();
    s.set_cell(5, 7, true);
    let rects = s.get_cell_rects();
    assert_eq!(rects.len(), 1);
    assert_eq!(
        rects[0],
        CellRect {
            x: 70,
            y: 50,
            width: 10,
            height: 10
        }
    );
}

#[test]
fn rects_one_per_alive_cell() {
    let s = fresh().init_glider();
    let rects = s.get_cell_rects();
    let alive = alive_cells(&s);
    assert_eq!(rects.len(), alive.len());
    for (k, &(i, j)) in alive.iter().enumerate() {
        assert_eq!(rects[k].x, 10 * j as i32);
        assert_eq!(rects[k].y, 10 * i as i32);
        assert_eq!(rects[k].width, 10);
        assert_eq!(rects[k].height, 10);
    }
    let empty = fresh();
    assert_eq!(empty.get_cell_rects().len(), 0);
}

#[test]
fn no_wraparound_at_edges() {
    let mut s = State::new(50, 50, 10);
    assert_eq!(s.rows(), 5);
    assert_eq!(s.cols(), 5);
    s.set_cell(4, 4, true);
    assert_eq!(s.get_hood_count(0, 0), 0);
    assert_eq!(s.get_hood_count(0, 4), 0);
    assert_eq!(s.get_hood_count(4, 0), 0);
    assert_eq!(s.get_hood_count(4, 3), 1);
    s.set_cell(0, 0, true);
    assert_eq!(s.get_hood_count(4, 4), 0);
    assert_eq!(s.get_hood_count(0, 1), 1);
}

#[test]
fn cell_count_tracks_alive_cells_after_a_step() {
    let mut s = fresh();
    s.set_cell(5, 4, true);
    s.set_cell(5, 5, true);
    s.set_cell(5, 6, true);
    assert_eq!(s.cell_count, 0);
    s.next();
    assert_eq!(s.cell_count, 3);
    assert_eq!(alive_cells(&s), vec![(4, 5), (5, 5), (6, 5)]);
}

#[test]
fn set_cell_round_trip() {
    let mut s = fresh();
    assert!(!s.cell_is_alive(3, 9));
    s.set_cell(3, 9, true);
    assert!(s.cell_is_alive(3, 9));
    s.set_cell(3, 9, false);
    assert!(!s.cell_is_alive(3, 9));
}

#[test]
fn should_terminate_on_quit_or_escape_only() {
    assert!(!should_terminate(&vec![]));
    assert!(!should_terminate(&vec![LoopEvent::Other]));
    assert!(should_terminate(&vec![LoopEvent::Quit]));
    assert!(should_terminate(&vec![
        LoopEvent::Other,
        LoopEvent::KeyDown {
            keycode: Some(KeyPress::Escape)
        }
    ]));
    assert!(!should_terminate(&vec![
        LoopEvent::KeyDown { keycode: None },
        LoopEvent::KeyDown {
            keycode: Some(KeyPress::Other)
        }
    ]));
}

#[test]
fn frame_step_stops_without_advancing() {
    let mut s = fresh().init_glider();
    let before = alive_cells(&s);
    let r = frame_step(&mut s, &vec![LoopEvent::Quit]);
    assert!(r.is_none());
    assert_eq!(alive_cells(&s), before);

    let r = frame_step(
        &mut s,
        &vec![LoopEvent::KeyDown {
            keycode: Some(KeyPress::Escape),
        }],
    );
    assert!(r.is_none());
    assert_eq!(alive_cells(&s), before);
}

#[test]
fn frame_step_draws_then_advances() {
    let mut s = fresh().init_glider();
    let before = alive_cells(&s);
    let r = frame_step(&mut s, &vec![LoopEvent::Other]);
    let rects = r.expect("the frame should be drawn");
    assert_eq!(rects.len(), before.len());
    for (k, &(i, j)) in before.iter().enumerate() {
        assert_eq!(rects[k].x, 10 * j as i32);
        assert_eq!(rects[k].y, 10 * i as i32);
    }
    assert_ne!(alive_cells(&s), before);
    assert_eq!(s.cell_count, 5);
}
