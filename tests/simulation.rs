use wander_sim::geometry::{ceil_sqrt, displacement_of, Vector3};
use wander_sim::predator::{
    spawn_predator, COLOUR_PREDATOR_IGNORES, PREDATOR_BOOST_MODIFIER, PREDATOR_SPEED,
};
use wander_sim::simulation::{
    get_random_pos_within, select_from_list_at_random, startup, World, HEIGHT, STARTING_WANDERERS,
    WIDTH,
};
use wander_sim::wanderer::{
    colour_at, generate_offspring_timer_count, get_colour_for_wanderer, get_random_colour,
    inherit_colour, spawn_wanderer, Colour, OffspringTimer, DEFAULT_COLOUR, WANDERER_SPEED,
};

fn v(x: i64, y: i64) -> Vector3 {
    Vector3::new(x, y, 0)
}

fn world_with_one(pos: Vector3, target: Vector3, seconds: u8, colour: Colour) -> (World, u64) {
    let mut world = World::new();
    let id = spawn_wanderer(&mut world, pos, target, seconds, colour);
    (world, id)
}

fn is_mutation(c: Colour) -> bool {
    matches!(c, Colour::Green | Colour::Pink | Colour::Teal | Colour::Tomato)
}

#[test]
fn movement_follows_direction_speed_and_time() {
    let (mut world, _) = world_with_one(v(0, 0), v(500_000, 0), 12, DEFAULT_COLOUR);
    world.wanderers[0].agent.direction = Vector3::new(1, 0, 0);
    assert_eq!(world.wanderers[0].agent.speed, 100_000);
    world.move_movables(100_000);
    assert_eq!(world.wanderers[0].agent.position, Vector3::new(10_000, 0, 0));
    // the predator is at rest: a zero heading moves it nowhere
    assert_eq!(world.predator_agent.position, Vector3::zero());
}

#[test]
fn movement_along_a_diagonal_heading() {
    let d = displacement_of(&Vector3::new(3, 4, 0), 5_000);
    assert_eq!(d, Vector3::new(3_000, 4_000, 0));
    let d = displacement_of(&Vector3::new(-6, 0, 8), 10);
    assert_eq!(d, Vector3::new(-6, 0, 8));
    assert_eq!(displacement_of(&Vector3::zero(), 1_000), Vector3::zero());
}

#[test]
fn movement_along_a_short_heading_is_at_full_speed() {
    // unit (1,1,0) / sqrt(2) times 100 units: about 70.71 units per axis
    let d = displacement_of(&Vector3::new(1, 1, 0), 100_000);
    assert_eq!(d, Vector3::new(70_710, 70_710, 0));
    let d = displacement_of(&Vector3::new(-2, 1, 0), 1_000);
    assert_eq!(d, Vector3::new(-894, 447, 0));
}

#[test]
fn zero_extent_gives_zero_coordinate() {
    for _ in 0..100 {
        assert_eq!(get_random_pos_within(0, 0), Vector3::zero());
        let p = get_random_pos_within(5, 0);
        assert!(-5 <= p.x && p.x < 5 && p.y == 0 && p.z == 0);
    }
}

#[test]
fn long_timer_periods_are_accepted() {
    let mut t = OffspringTimer::new(200);
    assert_eq!(t.period_us, 200_000_000);
    assert!(!t.tick(99_000_000));
    assert!(!t.tick(100_000_000));
    assert!(t.tick(1_000_000));
    assert_eq!(t.elapsed_us, 0);
}

#[test]
fn square_root_rounds_up() {
    assert_eq!(ceil_sqrt(0), 0);
    assert_eq!(ceil_sqrt(1), 1);
    assert_eq!(ceil_sqrt(2), 2);
    assert_eq!(ceil_sqrt(16), 4);
    assert_eq!(ceil_sqrt(17), 5);
    assert_eq!(ceil_sqrt(1_000_000_000_000), 1_000_000);
}

#[test]
fn wanderer_flees_a_close_predator() {
    let (mut world, _) = world_with_one(v(0, 0), v(-200_000, 0), 12, DEFAULT_COLOUR);
    world.predator_agent.position = v(99_000, 0);
    world.update_wanderers();
    let dir = world.wanderers[0].agent.direction;
    assert_eq!(dir, v(-99_000, 0));
    assert!(dir.x < 0);
}

#[test]
fn wanderer_heads_for_its_target_when_safe() {
    let (mut world, _) = world_with_one(v(0, 0), v(-200_000, 0), 12, DEFAULT_COLOUR);
    world.predator_agent.position = v(100_000, 0);
    world.update_wanderers();
    assert_eq!(world.wanderers[0].agent.direction, v(-200_000, 0));
    assert_eq!(world.wanderers[0].wanderer.target_pos, v(-200_000, 0));
}

#[test]
fn wanderer_at_its_target_picks_a_new_one() {
    let (mut world, _) = world_with_one(v(1_000, 1_000), v(0, 0), 12, DEFAULT_COLOUR);
    world.predator_agent.position = v(500_000, 0);
    world.update_wanderers();
    let t = world.wanderers[0].wanderer.target_pos;
    assert!(-WIDTH <= t.x && t.x < WIDTH && -HEIGHT <= t.y && t.y < HEIGHT && t.z == 0);
    assert_eq!(world.wanderers[0].agent.direction, v(-1_000, -1_000));
}

#[test]
fn predator_captures_target_within_capture_radius() {
    let (mut world, id) = world_with_one(v(20_000, 0), v(0, 0), 12, DEFAULT_COLOUR);
    world.predator.target = Some(id);
    world.update_predators();
    assert!(world.wanderers.is_empty());
    assert_eq!(world.predator.target, None);
}

#[test]
fn predator_chases_target_beyond_capture_radius() {
    let (mut world, id) = world_with_one(v(30_000, 0), v(0, 0), 12, DEFAULT_COLOUR);
    world.predator.target = Some(id);
    world.update_predators();
    assert_eq!(world.wanderers.len(), 1);
    assert_eq!(world.predator.target, Some(id));
    assert_eq!(world.predator_agent.direction, v(30_000, 0));
    world.wanderers[0].agent.direction = Vector3::zero();
    world.move_movables(100_000);
    assert_eq!(world.predator_agent.position, v(30_000, 0));
}

#[test]
fn predator_drops_an_ignored_target() {
    let (mut world, id) = world_with_one(v(10_000, 0), v(0, 0), 12, COLOUR_PREDATOR_IGNORES);
    world.predator.target = Some(id);
    world.update_predators();
    assert_eq!(world.wanderers.len(), 1);
    assert_eq!(world.predator.target, None);
}

#[test]
fn predator_drops_a_stale_target() {
    let (mut world, id) = world_with_one(v(10_000, 0), v(0, 0), 12, DEFAULT_COLOUR);
    world.predator.target = Some(id + 7);
    world.predator_agent.direction = v(1, 1);
    world.update_predators();
    assert_eq!(world.wanderers.len(), 1);
    assert_eq!(world.predator.target, None);
    assert_eq!(world.predator_agent.direction, v(1, 1));
}

#[test]
fn reproduction_after_a_full_period_gives_one_offspring() {
    let (mut world, _) = world_with_one(v(1_000, 2_000), v(0, 0), 10, DEFAULT_COLOUR);
    world.spawn_wanderers(5_000_000);
    assert_eq!(world.wanderers.len(), 1);
    world.spawn_wanderers(4_999_999);
    assert_eq!(world.wanderers.len(), 1);
    world.spawn_wanderers(0);
    assert_eq!(world.wanderers.len(), 1);
    world.spawn_wanderers(1);
    assert_eq!(world.wanderers.len(), 2);
    assert_eq!(world.wanderers[0].wanderer.offspring_timer.elapsed_us, 0);
    let child = world.wanderers[1];
    assert_eq!(child.agent.position, v(1_500, 2_000));
    assert_eq!(child.agent.speed, WANDERER_SPEED);
    assert!(child.wanderer.colour == DEFAULT_COLOUR || is_mutation(child.wanderer.colour));
    let p = child.wanderer.offspring_timer.period_us;
    assert!((11_000_000..=14_000_000).contains(&p) && p % 1_000_000 == 0);
    assert_ne!(child.id, world.wanderers[0].id);
}

#[test]
fn offspring_mostly_keep_the_parent_colour() {
    let kept = (0..100u8)
        .filter(|&roll| inherit_colour(DEFAULT_COLOUR, roll, Colour::Pink) == DEFAULT_COLOUR)
        .count();
    assert_eq!(kept, 95);
    let trials = 20_000;
    let same = (0..trials)
        .filter(|_| get_colour_for_wanderer(Colour::Teal) == Colour::Teal)
        .count();
    assert!(same * 100 >= trials * 93);
}

#[test]
fn no_target_when_no_wanderer_is_left() {
    let mut world = World::new();
    world.predator_agent.direction = v(3, 4);
    world.choose_target_for_predator();
    assert_eq!(world.predator.target, None);
    world.update_predators();
    assert_eq!(world.predator_agent.direction, Vector3::zero());
}

#[test]
fn target_selection_picks_a_live_wanderer() {
    let mut world = World::new();
    for i in 0..5 {
        spawn_wanderer(&mut world, v(i * 1_000, 0), v(0, 0), 12, DEFAULT_COLOUR);
    }
    world.choose_target_for_predator();
    let id = world.predator.target.expect("a target");
    assert!(world.wanderers.iter().any(|e| e.id == id));
    world.choose_target_for_predator();
    assert_eq!(world.predator.target, Some(id));
}

#[test]
fn boost_is_not_sticky() {
    let mut world = World::new();
    world.boost_predator_speed(true);
    assert_eq!(world.predator_agent.speed, PREDATOR_SPEED * PREDATOR_BOOST_MODIFIER);
    world.boost_predator_speed(true);
    assert_eq!(world.predator_agent.speed, 600_000);
    world.boost_predator_speed(false);
    assert_eq!(world.predator_agent.speed, PREDATOR_SPEED);
}

#[test]
fn timer_wraps_around_its_period() {
    let mut t = OffspringTimer::new(11);
    assert!(!t.tick(10_000_000));
    assert!(t.tick(2_500_000));
    assert_eq!(t.elapsed_us, 1_500_000);
    assert_eq!(t.period_us, 11_000_000);
}

#[test]
fn startup_spawns_the_first_generation() {
    let world = startup();
    assert_eq!(world.wanderers.len(), STARTING_WANDERERS);
    assert!(world.wanderers.iter().all(|e| e.wanderer.colour == DEFAULT_COLOUR));
    for e in world.wanderers.iter() {
        let p = e.agent.position;
        assert!(-WIDTH <= p.x && p.x <= WIDTH && -HEIGHT <= p.y && p.y <= HEIGHT && p.z == 0);
        let t = e.wanderer.offspring_timer;
        assert_eq!(t.elapsed_us, 0);
        assert!((11_000_000..=14_000_000).contains(&t.period_us) && t.period_us % 1_000_000 == 0);
    }
    assert_eq!(world.predator.target, None);
    assert_eq!(world.predator_agent.speed, PREDATOR_SPEED);
    assert!(world.ready_for_tick());
}

#[test]
fn ticks_keep_the_target_live() {
    let mut world = startup();
    for i in 0..200 {
        assert!(world.ready_for_tick());
        world.tick(16_000, i % 3 == 0);
        if let Some(id) = world.predator.target {
            assert!(world.index_of(id).is_some());
        }
        let expected = if i % 3 == 0 { 600_000 } else { 300_000 };
        assert_eq!(world.predator_agent.speed, expected);
    }
}

#[test]
fn random_helpers_stay_in_range() {
    for _ in 0..1_000 {
        let p = get_random_pos_within(WIDTH, HEIGHT);
        assert!(-WIDTH <= p.x && p.x < WIDTH && -HEIGHT <= p.y && p.y < HEIGHT && p.z == 0);
        let c = generate_offspring_timer_count();
        assert!((11..=14).contains(&c));
        assert!(is_mutation(get_random_colour()));
    }
    assert_eq!(colour_at(0), Colour::Green);
    assert_eq!(colour_at(3), Colour::Tomato);
    assert_eq!(select_from_list_at_random(&vec![]), None);
    assert_eq!(select_from_list_at_random(&vec![42]), Some(42));
    let list = vec![4, 8, 15];
    let seen: Vec<u64> = (0..300).filter_map(|_| select_from_list_at_random(&list)).collect();
    assert!(seen.iter().all(|x| list.contains(x)));
    assert!(list.iter().all(|x| seen.contains(x)));
}

#[test]
fn predator_spawns_at_rest() {
    let (agent, predator) = spawn_predator();
    assert_eq!(agent.position, Vector3::zero());
    assert_eq!(agent.direction, Vector3::zero());
    assert_eq!(agent.speed, PREDATOR_SPEED);
    assert!(predator.target.is_none());
}
