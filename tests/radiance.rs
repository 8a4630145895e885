use rusty_raytracer::radiance::{Interaction, PathWalk, Terminal};

fn run(depth: u32, events: &[Interaction]) -> (Option<Terminal>, u32, usize) {
    let mut walk = PathWalk::new(depth);
    let mut traced = 0;
    for e in events {
        if walk.ended().is_some() {
            break;
        }
        walk.record(*e);
        traced += 1;
    }
    (walk.ended(), walk.bounces(), traced)
}

#[test]
fn zero_depth_is_black_before_any_ray() {
    let walk = PathWalk::new(0);
    assert_eq!(walk.ended(), Some(Terminal::Black));
    assert_eq!(walk.bounces(), 0);
    let (end, bounces, traced) = run(0, &[Interaction::Miss, Interaction::Scattered]);
    assert_eq!(end, Some(Terminal::Black));
    assert_eq!(bounces, 0);
    assert_eq!(traced, 0);
}

#[test]
fn fresh_walk_waits_for_a_ray() {
    let walk = PathWalk::new(50);
    assert_eq!(walk.ended(), None);
    assert_eq!(walk.bounces(), 0);
}

#[test]
fn miss_ends_on_sky() {
    assert_eq!(run(1, &[Interaction::Miss]), (Some(Terminal::Sky), 0, 1));
    assert_eq!(run(50, &[Interaction::Miss]), (Some(Terminal::Sky), 0, 1));
}

#[test]
fn absorption_ends_black() {
    assert_eq!(run(5, &[Interaction::Absorbed]), (Some(Terminal::Black), 0, 1));
    assert_eq!(
        run(5, &[Interaction::Scattered, Interaction::Absorbed]),
        (Some(Terminal::Black), 1, 2)
    );
}

#[test]
fn scatterings_then_miss_end_on_attenuated_sky() {
    let events = [
        Interaction::Scattered,
        Interaction::Scattered,
        Interaction::Miss,
        Interaction::Miss,
    ];
    assert_eq!(run(3, &events), (Some(Terminal::Sky), 2, 3));
}

#[test]
fn depth_runs_out_after_as_many_scatterings() {
    let events = [Interaction::Scattered; 10];
    assert_eq!(run(3, &events), (Some(Terminal::Black), 3, 3));
    assert_eq!(run(1, &events), (Some(Terminal::Black), 1, 1));
}

#[test]
fn walk_goes_on_while_rays_scatter_within_depth() {
    let mut walk = PathWalk::new(4);
    for k in 1..4u32 {
        walk.record(Interaction::Scattered);
        assert_eq!(walk.ended(), None);
        assert_eq!(walk.bounces(), k);
    }
    walk.record(Interaction::Scattered);
    assert_eq!(walk.ended(), Some(Terminal::Black));
    assert_eq!(walk.bounces(), 4);
}

#[test]
fn largest_depth_is_accepted() {
    let mut walk = PathWalk::new(u32::MAX);
    walk.record(Interaction::Scattered);
    assert_eq!(walk.ended(), None);
    walk.record(Interaction::Miss);
    assert_eq!(walk.ended(), Some(Terminal::Sky));
    assert_eq!(walk.bounces(), 1);
}
