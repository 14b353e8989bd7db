use flock::motion::capped_length;
use flock::neighbors::{find_all_neighbors, Neighbors, Outlook, Ranges};

fn key(length: f32) -> u32 {
    length.to_bits()
}

fn length(vector: (f32, f32)) -> f32 {
    (vector.0 * vector.0 + vector.1 * vector.1).sqrt()
}

fn scaled(vector: (f32, f32), by: f32) -> (f32, f32) {
    (vector.0 * by, vector.1 * by)
}

fn unit_or_zero(vector: (f32, f32)) -> (f32, f32) {
    if length(vector) > 0.0 {
        scaled(vector, 1.0 / length(vector))
    } else {
        vector
    }
}

fn capped_to(vector: (f32, f32), limit: f32) -> (f32, f32) {
    match capped_length(key(length(vector)), key(limit)) {
        Some(target) => scaled(unit_or_zero(vector), f32::from_bits(target)),
        None => vector,
    }
}

fn mean(vectors: &[(f32, f32)]) -> (f32, f32) {
    if vectors.is_empty() {
        return (0.0, 0.0);
    }
    let sum = vectors.iter().fold((0.0, 0.0), |total, v| (total.0 + v.0, total.1 + v.1));
    scaled(sum, 1.0 / vectors.len() as f32)
}

fn close(got: (f32, f32), wanted: (f32, f32)) -> bool {
    (got.0 - wanted.0).abs() <= 1e-5 && (got.1 - wanted.1).abs() <= 1e-5
}

struct Agent {
    position: (f32, f32),
    velocity: (f32, f32),
}

fn search(agents: &[Agent]) -> Vec<Neighbors> {
    let ranges = Ranges { cohesion: key(200.0), alignment: key(100.0), separation: key(50.0) };
    let outlooks: Vec<Outlook> = agents
        .iter()
        .map(|me| Outlook {
            ranges,
            distances: agents
                .iter()
                .map(|other| {
                    key(length((
                        me.position.0 - other.position.0,
                        me.position.1 - other.position.1,
                    )))
                })
                .collect(),
        })
        .collect();
    find_all_neighbors(&outlooks)
}

fn steering(agents: &[Agent], me: usize, found: &Neighbors) -> [(f32, f32); 3] {
    let here = agents[me].position;
    let centre: Vec<(f32, f32)> = found.cohesion.iter().map(|&j| agents[j].position).collect();
    let headings: Vec<(f32, f32)> = found.alignment.iter().map(|&j| agents[j].velocity).collect();
    let pushes: Vec<(f32, f32)> = found
        .separation
        .iter()
        .map(|&j| {
            let towards_me = (here.0 - agents[j].position.0, here.1 - agents[j].position.1);
            scaled(unit_or_zero(towards_me), 1.0 / length(towards_me).powf(2.0))
        })
        .collect();
    let centre = mean(&centre);
    [
        unit_or_zero((centre.0 - here.0, centre.1 - here.1)),
        unit_or_zero(mean(&headings)),
        unit_or_zero(mean(&pushes)),
    ]
}

fn tick(agents: &mut Vec<Agent>, dt: f32) -> Vec<[(f32, f32); 3]> {
    let all = search(agents);
    let steered: Vec<[(f32, f32); 3]> =
        (0..agents.len()).map(|me| steering(agents, me, &all[me])).collect();
    for (agent, urges) in agents.iter_mut().zip(steered.iter()) {
        let acceleration = capped_to(
            (
                5.0 * urges[0].0 + 10.0 * urges[1].0 + 2.0 * urges[2].0,
                5.0 * urges[0].1 + 10.0 * urges[1].1 + 2.0 * urges[2].1,
            ),
            1000.0,
        );
        agent.velocity = capped_to(
            (agent.velocity.0 + acceleration.0 * dt, agent.velocity.1 + acceleration.1 * dt),
            50.0,
        );
        agent.position =
            (agent.position.0 + agent.velocity.0 * dt, agent.position.1 + agent.velocity.1 * dt);
    }
    steered
}

#[test]
fn vector_of_length_zero_is_left_alone() {
    assert_eq!(capped_length(0, 0), None);
    assert_eq!(capped_length(0, 5), None);
    assert_eq!(capped_length(key(0.0), key(50.0)), None);
}

#[test]
fn length_within_the_limit_is_kept() {
    assert_eq!(capped_length(3, 5), Some(3));
    assert_eq!(capped_length(5, 5), Some(5));
    assert_eq!(capped_length(1, u32::MAX), Some(1));
    assert_eq!(capped_length(key(49.5), key(50.0)), Some(key(49.5)));
}

#[test]
fn length_beyond_the_limit_is_cut_to_it() {
    assert_eq!(capped_length(6, 5), Some(5));
    assert_eq!(capped_length(u32::MAX, 5), Some(5));
    assert_eq!(capped_length(7, 0), Some(0));
    assert_eq!(capped_length(key(70.0), key(50.0)), Some(key(50.0)));
    assert_eq!(capped_length(key(1e9), key(1000.0)), Some(key(1000.0)));
}

#[test]
fn capped_length_never_exceeds_the_limit() {
    for limit in [0u32, 1, 10, key(50.0), key(1000.0), u32::MAX] {
        for length in [1u32, 2, 9, 10, 11, key(49.0), key(50.0), key(51.0), key(1e6), u32::MAX] {
            let target = capped_length(length, limit);
            assert_eq!(target, Some(length.min(limit)));
            assert!(target.unwrap() <= limit);
        }
    }
}

#[test]
fn two_agents_ten_apart_close_in_by_the_weighted_sum() {
    let mut agents = vec![
        Agent { position: (0.0, 0.0), velocity: (0.0, 0.0) },
        Agent { position: (10.0, 0.0), velocity: (0.0, 0.0) },
    ];
    let steered = tick(&mut agents, 1.0);
    assert!(close(steered[0][0], (1.0, 0.0)));
    assert_eq!(steered[0][1], (0.0, 0.0));
    assert!(close(steered[0][2], (-1.0, 0.0)));
    assert!(close(steered[1][0], (-1.0, 0.0)));
    assert_eq!(steered[1][1], (0.0, 0.0));
    assert!(close(steered[1][2], (1.0, 0.0)));
    assert!(close(agents[0].velocity, (3.0, 0.0)));
    assert!(close(agents[1].velocity, (-3.0, 0.0)));
    assert!(close(agents[0].position, (3.0, 0.0)));
    assert!(close(agents[1].position, (7.0, 0.0)));
}

#[test]
fn single_agent_at_the_origin_keeps_its_velocity() {
    let mut agents = vec![Agent { position: (0.0, 0.0), velocity: (3.0, 4.0) }];
    let steered = tick(&mut agents, 1.0);
    assert_eq!(steered[0], [(0.0, 0.0), (0.0, 0.0), (0.0, 0.0)]);
    assert!(close(agents[0].velocity, (3.0, 4.0)));
    assert!(close(agents[0].position, (3.0, 4.0)));
}

#[test]
fn single_agent_away_from_the_origin_is_drawn_to_it() {
    let mut agents = vec![Agent { position: (0.0, 2.0), velocity: (0.0, 0.0) }];
    let steered = tick(&mut agents, 1.0);
    assert!(close(steered[0][0], (0.0, -1.0)));
    assert_eq!(steered[0][1], (0.0, 0.0));
    assert_eq!(steered[0][2], (0.0, 0.0));
    assert!(close(agents[0].velocity, (0.0, -5.0)));
    assert!(close(agents[0].position, (0.0, -3.0)));
}

#[test]
fn speed_stays_within_the_cap_over_many_ticks() {
    let mut agents = vec![
        Agent { position: (0.0, 0.0), velocity: (40.0, 30.0) },
        Agent { position: (30.0, 5.0), velocity: (-60.0, 10.0) },
        Agent { position: (-20.0, 45.0), velocity: (0.0, 0.0) },
        Agent { position: (80.0, -60.0), velocity: (7.0, -90.0) },
    ];
    for _ in 0..50 {
        tick(&mut agents, 0.5);
        for agent in agents.iter() {
            assert!(length(agent.velocity) <= 50.0 * 1.0001);
        }
    }
}

#[test]
fn tick_of_no_duration_moves_nobody() {
    let mut agents = vec![
        Agent { position: (0.0, 0.0), velocity: (8.0, 0.0) },
        Agent { position: (30.0, 5.0), velocity: (0.0, -16.0) },
        Agent { position: (-20.0, 45.0), velocity: (0.0, 0.0) },
    ];
    let steered = tick(&mut agents, 0.0);
    assert!(length(steered[0][0]) > 0.0);
    assert_eq!(agents[0].position, (0.0, 0.0));
    assert_eq!(agents[1].position, (30.0, 5.0));
    assert_eq!(agents[2].position, (-20.0, 45.0));
    assert!(close(agents[0].velocity, (8.0, 0.0)));
    assert!(close(agents[1].velocity, (0.0, -16.0)));
    assert_eq!(agents[2].velocity, (0.0, 0.0));
}

#[test]
fn steering_vectors_have_length_one_or_zero() {
    let mut agents = vec![
        Agent { position: (0.0, 0.0), velocity: (40.0, 30.0) },
        Agent { position: (30.0, 5.0), velocity: (-60.0, 10.0) },
        Agent { position: (-20.0, 45.0), velocity: (0.0, 0.0) },
        Agent { position: (900.0, -600.0), velocity: (7.0, -90.0) },
    ];
    for _ in 0..10 {
        for urges in tick(&mut agents, 0.25) {
            for urge in urges {
                let size = length(urge);
                assert!(size == 0.0 || (size - 1.0).abs() <= 1e-5);
            }
        }
    }
}
