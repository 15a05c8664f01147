//! Maze generation: neighbors, the spanning-tree shape of the passage
//! list, and the wall bitmasks derived from it.

use rand::rngs::SmallRng;
use rand::SeedableRng;

use raymaze::constants::{HEIGHT, NUM_CELLS, WIDTH};
use raymaze::maze::{find_neighbors, find_next_passage, there_is_no_passage_here};
use raymaze::state::State;

#[test]
pub fn wont_you_be_my_neighbor() {
    let width = 4;
    let height = 4;

    let index = 0;
    let neighbors = find_neighbors(index, width, height);
    assert_eq!(neighbors, [Some(4), None, None, Some(1)]);

    let index = 5;
    let neighbors = find_neighbors(index, width, height);
    assert_eq!(neighbors, [Some(9), Some(1), Some(4), Some(6)]);

    let index = 13;
    let neighbors = find_neighbors(index, width, height);
    assert_eq!(neighbors, [None, Some(9), Some(12), Some(14)]);
}

#[test]
pub fn simple() {
    let index = 0;
    let width = 16;
    let height = 16;
    let num_cells = width * height;
    let mut visited = vec![false; num_cells];
    let mut passages = Vec::<(usize, usize)>::new();
    let mut rng = SmallRng::seed_from_u64(11);
    find_next_passage(index, width, height, &mut visited, &mut passages, &mut rng);
}

fn generated_state(seed: u64) -> State {
    let mut state = State::new();
    let mut rng = SmallRng::seed_from_u64(seed);
    state.generate_maze(&mut rng);
    state
}

fn adjacent(a: usize, b: usize) -> bool {
    let (lo, hi) = if a < b { (a, b) } else { (b, a) };
    (hi == lo + WIDTH) || (hi == lo + 1 && hi % WIDTH != 0)
}

/// The passage list of a generated maze is a spanning tree: one entry
/// fewer than there are cells, adjacent distinct pairs, no pair twice,
/// and every cell reachable from cell 0.
#[test]
pub fn generated_maze_is_spanning_tree() {
    let state = generated_state(11);
    let passages = &state.passages;
    assert_eq!(passages.len(), NUM_CELLS - 1);

    for (i, &(a, b)) in passages.iter().enumerate() {
        assert!(a < NUM_CELLS && b < NUM_CELLS);
        assert_ne!(a, b);
        assert!(adjacent(a, b));
        for &(c, d) in passages.iter().skip(i + 1) {
            assert!(!((a, b) == (c, d) || (a, b) == (d, c)));
        }
    }

    // Breadth-first walk from cell 0 along passages covers the grid.
    let mut seen = vec![false; NUM_CELLS];
    let mut queue = vec![0usize];
    seen[0] = true;
    while let Some(cell) = queue.pop() {
        for &(a, b) in passages.iter() {
            let other = if a == cell {
                b
            } else if b == cell {
                a
            } else {
                continue;
            };
            if !seen[other] {
                seen[other] = true;
                queue.push(other);
            }
        }
    }
    assert!(seen.iter().all(|&s| s));
}

/// Every interior cell boundary carries exactly one of a wall bit or a
/// passage, and the outer boundary lines are fully walled.
#[test]
pub fn walls_complement_passages() {
    let state = generated_state(11);

    for r in 0..=HEIGHT {
        for c in 0..WIDTH {
            let bit = (state.horizontal_walls[r] >> c) & 1 == 1;
            if r == 0 || r == HEIGHT {
                assert!(bit);
            } else {
                let below = c + (r - 1) * WIDTH;
                let above = c + r * WIDTH;
                let has_passage = !there_is_no_passage_here(below, above, &state.passages);
                assert_eq!(bit, !has_passage);
            }
        }
    }
    for cl in 0..=WIDTH {
        for rr in 0..HEIGHT {
            let bit = (state.vertical_walls[cl] >> rr) & 1 == 1;
            if cl == 0 || cl == WIDTH {
                assert!(bit);
            } else {
                let left = (cl - 1) + rr * WIDTH;
                let right = cl + rr * WIDTH;
                let has_passage = !there_is_no_passage_here(left, right, &state.passages);
                assert_eq!(bit, !has_passage);
            }
        }
    }
}

/// Two different seeds give two different mazes (the shuffled neighbor
/// order reaches the passage list), while one seed is reproducible.
#[test]
pub fn maze_follows_seed() {
    let a = generated_state(11);
    let b = generated_state(11);
    let c = generated_state(12);
    assert_eq!(a.passages, b.passages);
    assert_ne!(a.passages, c.passages);
}
