use snake_core::geom::Pos;
use snake_core::motion::{FollowConfig, SteerConfig};
use snake_core::registry::RegistryError;
use snake_core::sim::{World, TickInput};

fn flat_input(world: &World, target: Pos) -> TickInput {
    let n = world.segment_count();
    TickInput {
        target,
        boost: false,
        advance: false,
        bearings: vec![0i64; n],
        forwards: vec![(0i64, 1000i64); n],
    }
}

#[test]
fn growth_appends_contiguous_indices() {
    // five growth events on a chain of one head give indices 1..=5
    let mut w = World::new();
    let head = w.spawn_head(Pos { x: 0, y: 0 }, 0);
    assert_eq!(head, 0);
    for expected in 1..=5usize {
        assert_eq!(w.grow(0), Ok(expected));
    }
    assert_eq!(w.chain_len(0), Some(6));
    for idx in 0..=5usize {
        assert_eq!(w.segment_at(0, idx), Some(idx));
    }
    assert_eq!(w.segment_at(0, 6), None);
}

#[test]
fn two_growth_events_in_one_tick_take_successive_indices() {
    let mut w = World::new();
    w.spawn_head(Pos { x: 0, y: 0 }, 0);
    w.grow(0).unwrap();
    let n = w.chain_len(0).unwrap();
    let first = w.grow(0).unwrap();
    let second = w.grow(0).unwrap();
    assert_eq!(first, n);
    assert_eq!(second, n + 1);
}

#[test]
fn growth_on_unknown_chain_is_refused() {
    let mut w = World::new();
    w.spawn_head(Pos { x: 0, y: 0 }, 0);
    assert_eq!(w.grow(3), Err(RegistryError::NoSuchChain));
    assert_eq!(w.segment_count(), 1);
}

#[test]
fn heads_are_distinguished_from_tails() {
    let mut w = World::new();
    let head = w.spawn_head(Pos { x: 0, y: 0 }, 0);
    w.grow(0).unwrap();
    let other = w.spawn_head(Pos { x: 10_000, y: 0 }, 0);
    assert!(w.is_head(head));
    assert!(w.is_head(other));
    assert!(!w.is_head(1));
}

#[test]
fn tick_with_zero_elapsed_time_moves_nothing() {
    let mut w = World::new();
    w.spawn_head(Pos { x: 3000, y: -7000 }, 40_000);
    w.grow(0).unwrap();
    w.grow(0).unwrap();
    let before: Vec<_> = (0..w.segment_count()).map(|i| w.segment(i).unwrap()).collect();
    let inp = flat_input(&w, Pos { x: 90_000, y: 0 });
    w.tick(&inp, 0, &FollowConfig::standard(), &SteerConfig::standard());
    for (i, old) in before.iter().enumerate() {
        let now = w.segment(i).unwrap();
        assert_eq!(now.transform, old.transform);
    }
}

#[test]
fn tick_moves_followers_along_their_forward_vector() {
    let mut w = World::new();
    w.spawn_head(Pos { x: 0, y: 0 }, 0);
    w.grow(0).unwrap();
    let inp = flat_input(&w, Pos { x: 0, y: 0 });
    // one second: the follower turns 90 degrees and walks 20 units along
    // the supplied forward vector (+Y here); the head's target coincides
    // with its position, so the head keeps its heading and place
    w.tick(&inp, 1000, &FollowConfig::standard(), &SteerConfig::standard());
    let head = w.segment(0).unwrap();
    assert_eq!(head.transform.pos, Pos { x: 0, y: 0 });
    assert_eq!(head.transform.heading, 0);
    let tail = w.segment(1).unwrap();
    assert_eq!(tail.transform.heading, 90_000);
    assert_eq!(tail.transform.pos, Pos { x: 0, y: 20_000 });
}

#[test]
fn tick_steers_only_the_head() {
    let mut w = World::new();
    w.spawn_head(Pos { x: 0, y: 0 }, 0);
    w.grow(0).unwrap();
    let mut inp = flat_input(&w, Pos { x: 100_000, y: 0 });
    inp.advance = true;
    w.tick(&inp, 16, &FollowConfig::standard(), &SteerConfig::standard());
    let head = w.segment(0).unwrap();
    // proportional turn toward the east target, and an 8-unit approach
    assert_eq!(head.transform.heading, -14_400);
    assert_eq!(head.transform.pos, Pos { x: 8_000, y: 0 });
    // the head's speed attribute records the steering speed the tick used
    assert_eq!(head.attrs.speed, 10_000);
}

#[test]
fn boost_raises_recorded_steering_speed() {
    let mut w = World::new();
    w.spawn_head(Pos { x: 0, y: 0 }, 0);
    let mut inp = flat_input(&w, Pos { x: 100_000, y: 0 });
    inp.boost = true;
    w.tick(&inp, 16, &FollowConfig::standard(), &SteerConfig::standard());
    assert_eq!(w.segment(0).unwrap().attrs.speed, 25_000);
}

#[test]
fn tick_on_empty_world_changes_nothing() {
    let mut w = World::new();
    let inp = flat_input(&w, Pos { x: 50_000, y: 0 });
    w.tick(&inp, 16, &FollowConfig::standard(), &SteerConfig::standard());
    assert_eq!(w.segment_count(), 0);
    assert_eq!(w.chain_count(), 0);
}

#[test]
fn two_chains_steer_by_their_own_bearings() {
    let mut w = World::new();
    let h0 = w.spawn_head(Pos { x: 0, y: 0 }, 0);
    let h1 = w.spawn_head(Pos { x: 0, y: 100_000 }, 0);
    let target = Pos { x: 100_000, y: 0 };
    let mut inp = flat_input(&w, target);
    // the target lies due east of the first head and southeast of the second
    inp.bearings[h0] = 0;
    inp.bearings[h1] = -45_000;
    w.tick(&inp, 16, &FollowConfig::standard(), &SteerConfig::standard());
    // each head turns in proportion to its own angular error
    assert_eq!(w.segment(h0).unwrap().transform.heading, -14_400);
    assert_eq!(w.segment(h1).unwrap().transform.heading, -21_600);
}

#[test]
fn growth_touches_only_its_own_chain() {
    let mut w = World::new();
    w.spawn_head(Pos { x: 0, y: 0 }, 0);
    w.spawn_head(Pos { x: 10_000, y: 0 }, 0);
    assert_eq!(w.grow(0), Ok(1));
    assert_eq!(w.grow(1), Ok(1));
    assert_eq!(w.grow(1), Ok(2));
    assert_eq!(w.chain_len(0), Some(2));
    assert_eq!(w.chain_len(1), Some(3));
}

#[test]
fn grown_segment_has_standard_attributes() {
    let mut w = World::new();
    w.spawn_head(Pos { x: 0, y: 0 }, 0);
    w.grow(0).unwrap();
    let seg = w.segment(1).unwrap();
    assert_eq!(seg.transform.pos, Pos { x: 0, y: 0 });
    assert_eq!(seg.transform.heading, 0);
    assert_eq!(seg.attrs.health, 100_000);
    assert_eq!(seg.attrs.vision, 10_000);
    assert_eq!(seg.attrs.speed, 20_000);
    assert_eq!(seg.attrs.color.red, 8000);
    let head = w.segment(0).unwrap();
    assert_eq!(head.attrs.color.green, 8000);
}
