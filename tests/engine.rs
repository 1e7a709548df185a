use std::collections::VecDeque;

use mandel_field::dispatch::{dispatch, perform, Task};
use mandel_field::field::{shade, Field, BATCH};
use mandel_field::fixed::{norm2_exec, step_point, Point, ONE};
use mandel_field::ledger::{CycleLedger, LedgerError};
use mandel_field::zoom::{corner_from_pointer, Viewport, ZoomState, HEIGHT, WIDTH};

/// `0.01` in fixed point.
const CENTI: i64 = 2814749767107;

fn view(re: i64, im: i64, spacing: i64) -> Viewport {
    Viewport { re, im, spacing }
}

fn all_converged(f: &Field) -> bool {
    (0..f.width * f.rows).all(|p| f.is_converged(p))
}

#[test]
fn step_squares_and_adds() {
    let z = step_point(Point { re: 0, im: 0 }, Point { re: ONE, im: 0 });
    assert_eq!(z, Point { re: ONE, im: 0 });
    let z = step_point(Point { re: ONE, im: ONE }, Point { re: 0, im: 0 });
    assert_eq!(z, Point { re: 0, im: 2 * ONE });
    let z = step_point(Point { re: ONE / 2, im: 0 }, Point { re: -ONE, im: ONE / 4 });
    assert_eq!(z, Point { re: ONE / 4 - ONE, im: ONE / 4 });
}

#[test]
fn norm_of_three_four() {
    let n = norm2_exec(Point { re: 3 * ONE, im: 4 * ONE });
    assert_eq!(n, 25 * (ONE as i128) * (ONE as i128));
}

#[test]
fn shade_values() {
    let one2 = (ONE as i128) * (ONE as i128);
    assert_eq!(shade(20, 1001 * one2), 236);
    assert_eq!(shade(0, 1001 * one2), 120);
    assert_eq!(shade(5, one2 << 20), 135);
    assert_eq!(shade(BATCH, one2 << 24), 230);
}

#[test]
fn new_band_samples_its_rows() {
    let v = view(-ONE, -ONE, ONE / 4);
    let f = Field::new(1, 4, 2, v);
    assert_eq!(f.steps_done, 0);
    assert_eq!(f.coords.len(), 8);
    // pixel 5 is column 1 of row 1 of band 1, i.e. global row 3
    assert_eq!(f.coords[5], Point { re: -ONE + ONE / 4, im: -ONE + 3 * (ONE / 4) });
    assert!(f.iterate.iter().all(|z| *z == Point { re: 0, im: 0 }));
    assert!(f.color.iter().all(|c| *c == 0));
    assert!((0..8).all(|p| !f.is_converged(p)));
}

#[test]
fn corner_pixel_escapes_within_two_hundred_steps() {
    let v = view(-2 * ONE, -3 * ONE / 2, CENTI);
    let mut f = Field::new(0, 16, 16, v);
    assert_eq!(f.coords[0], Point { re: -2 * ONE, im: -3 * ONE / 2 });
    for _ in 0..10 {
        f.advance();
    }
    assert!(f.is_converged(0));
    assert!(f.color[0] >= 120);
}

#[test]
fn origin_pixel_never_escapes() {
    let v = view(0, 0, CENTI);
    let mut f = Field::new(0, 16, 16, v);
    assert_eq!(f.coords[0], Point { re: 0, im: 0 });
    for _ in 0..500 {
        f.advance();
    }
    assert_eq!(f.steps_done, 10_000);
    assert!(!f.is_converged(0));
    assert_eq!(f.color[0], 0);
}

#[test]
fn far_points_escape_in_one_batch_at_any_spacing() {
    for spacing in [ONE / 64, ONE / 1024, 1 << 20] {
        let mut f = Field::new(0, 4, 4, view(5 * ONE / 2, 0, spacing));
        f.advance();
        assert!(all_converged(&f));
    }
}

#[test]
fn finished_band_only_counts_steps() {
    let mut f = Field::new(0, 4, 4, view(5 * ONE / 2, 0, ONE / 64));
    f.advance();
    assert!(all_converged(&f));
    let iterate = f.iterate.clone();
    let color = f.color.clone();
    f.advance();
    assert_eq!(f.iterate, iterate);
    assert_eq!(f.color, color);
    assert!(all_converged(&f));
    assert_eq!(f.steps_done, 2 * BATCH);
}

#[test]
fn converged_pixels_stay_converged() {
    let mut f = Field::new(0, 32, 8, view(-2 * ONE, -ONE / 8, ONE / 16));
    let mut before: Vec<bool> = (0..256).map(|p| f.is_converged(p)).collect();
    for _ in 0..30 {
        f.advance();
        let now: Vec<bool> = (0..256).map(|p| f.is_converged(p)).collect();
        for p in 0..256 {
            assert!(!before[p] || now[p]);
        }
        before = now;
    }
    assert!(before.iter().any(|c| *c));
    assert!(before.iter().any(|c| !*c));
}

#[test]
fn reinitialize_resets_all_but_identity() {
    let mut f = Field::new(3, 8, 4, view(-2 * ONE, -2 * ONE, ONE / 32));
    for _ in 0..5 {
        f.advance();
    }
    assert!((0..32).any(|p| f.is_converged(p)));
    let nv = view(-ONE, -ONE, ONE / 64);
    f.reinitialize(nv);
    assert_eq!(f.band_index, 3);
    assert_eq!(f.width, 8);
    assert_eq!(f.rows, 4);
    assert_eq!(f.view, nv);
    assert_eq!(f.steps_done, 0);
    assert!((0..32).all(|p| !f.is_converged(p)));
    assert!(f.color.iter().all(|c| *c == 0));
    assert!(f.iterate.iter().all(|z| *z == Point { re: 0, im: 0 }));
    assert_eq!(f.coords[0], Point { re: -ONE, im: -ONE + 12 * (ONE / 64) });
}

#[test]
fn pixel_bytes_repeat_brightness() {
    let mut f = Field::new(0, 2, 1, view(5 * ONE / 2, 0, ONE / 64));
    f.advance();
    let b = f.pixel_bytes();
    assert_eq!(b.len(), 8);
    assert_eq!(&b[0..4], &[f.color[0], f.color[0], f.color[0], 0]);
    assert_eq!(&b[4..8], &[f.color[1], f.color[1], f.color[1], 0]);
    assert!(f.color[0] > 0);
}

#[test]
fn zoom_in_then_out_restores() {
    let mut z = ZoomState::new();
    let home = z.current;
    assert_eq!(home, view(-3 * ONE, -3 * ONE / 2, ONE / 256));
    z.zoom_in(256, 128);
    assert_eq!(z.current, view(-3 * ONE + 256 * (ONE / 256), -3 * ONE / 2 + 128 * (ONE / 256), ONE / 512));
    assert_eq!(z.history, vec![home]);
    z.zoom_out();
    assert_eq!(z.current, home);
    assert!(z.history.is_empty());
}

#[test]
fn zoom_out_at_root_does_nothing() {
    let mut z = ZoomState::new();
    z.zoom_out();
    assert_eq!(z.current, view(-3 * ONE, -3 * ONE / 2, ONE / 256));
    assert!(z.history.is_empty());
}

#[test]
fn nested_zooms_unwind_in_order() {
    let mut z = ZoomState::new();
    let mut seen = Vec::new();
    for (cx, cy) in [(0, 0), (512, 384), (16, 32), (496, 0), (100, 200)] {
        seen.push(z.current);
        z.zoom_in(cx, cy);
    }
    while let Some(v) = seen.pop() {
        z.zoom_out();
        assert_eq!(z.current, v);
    }
    assert!(z.history.is_empty());
}

#[test]
fn zoom_stops_halving_at_unit_spacing() {
    let mut z = ZoomState::new();
    for _ in 0..45 {
        z.zoom_in(0, 0);
    }
    assert_eq!(z.current.spacing, 1);
    assert_eq!(z.history.len(), 45);
    z.zoom_out();
    assert_eq!(z.current.spacing, 1);
}

#[test]
fn corner_clamps_and_snaps() {
    assert_eq!(corner_from_pointer(0, 0), (0, 0));
    assert_eq!(corner_from_pointer(600, 500), (336, 304));
    assert_eq!(corner_from_pointer(2000, 2000), (512, 384));
    assert_eq!(corner_from_pointer(-50, 199), (0, 0));
}

#[test]
fn viewport_fits_checks_bounds() {
    let home = view(-3 * ONE, -3 * ONE / 2, ONE / 256);
    assert!(home.fits(WIDTH, HEIGHT));
    assert!(!home.fits(2 * WIDTH, HEIGHT));
    assert!(!view(-3 * ONE, 0, 0).fits(1, 1));
}

#[test]
fn dispatch_compares_views() {
    let v = view(-ONE, -ONE, ONE / 64);
    let f = Field::new(0, 4, 4, v);
    match dispatch(f, v) {
        Task::Advance(f) => {
            let w = view(-ONE / 2, -ONE, ONE / 128);
            match dispatch(f, w) {
                Task::Reanchor(_, target) => assert_eq!(target, w),
                _ => panic!("a stale band must be re-anchored"),
            }
        }
        _ => panic!("a current band must advance"),
    }
    assert!(perform(Task::Terminate).is_none());
}

#[test]
fn raced_reanchor_goes_out_again() {
    let mut zoom = ZoomState::new();
    let f = Field::new(0, 16, 4, zoom.current);
    zoom.zoom_in(64, 64);
    let task = dispatch(f, zoom.current);
    let target = zoom.current;
    // the view moves on while the band is with a worker
    zoom.zoom_in(32, 32);
    let f = perform(task).unwrap();
    assert_eq!(f.view, target);
    match dispatch(f, zoom.current) {
        Task::Reanchor(f, v) => {
            assert_eq!(v, zoom.current);
            let f = perform(Task::Reanchor(f, v)).unwrap();
            assert_eq!(f.view, zoom.current);
            assert!(matches!(dispatch(f, zoom.current), Task::Advance(_)));
        }
        _ => panic!("the raced band was dropped"),
    }
}

#[test]
fn pool_returns_every_band_once_per_cycle() {
    let bands = 8;
    for workers in 1..bands {
        let zoom = ZoomState::new();
        let mut queue: VecDeque<Task> = VecDeque::new();
        for b in 0..bands {
            queue.push_back(Task::Advance(Field::new(b, 8, 2, zoom.current)));
        }
        let mut ledger = CycleLedger::new(bands);
        for _cycle in 0..3 {
            let mut held: Vec<Option<Task>> = (0..workers).map(|_| None).collect();
            let mut back: Vec<Field> = Vec::new();
            while back.len() < bands {
                for w in 0..workers {
                    if held[w].is_none() {
                        held[w] = queue.pop_front();
                    } else if let Some(t) = held[w].take() {
                        back.push(perform(t).unwrap());
                    }
                }
            }
            assert!(queue.is_empty());
            for f in back {
                assert!(ledger.record(f.band_index).is_ok());
                assert_eq!(ledger.record(f.band_index), Err(LedgerError::Duplicate));
                queue.push_back(dispatch(f, zoom.current));
            }
            assert!(ledger.is_complete());
            ledger.start_cycle();
            assert!(!ledger.is_complete());
        }
    }
}

#[test]
fn ledger_refuses_unknown_and_repeated_bands() {
    let mut l = CycleLedger::new(2);
    assert_eq!(l.bands(), 2);
    assert_eq!(l.record(2), Err(LedgerError::UnknownBand));
    assert_eq!(l.record(0), Ok(()));
    assert!(l.has_returned(0));
    assert!(!l.is_complete());
    assert_eq!(l.record(0), Err(LedgerError::Duplicate));
    assert_eq!(l.record(1), Ok(()));
    assert!(l.is_complete());
}
