use gol_multi::game::{compute_neighbors, next_grid, State, GRID_HEIGHT, GRID_WIDTH, MS_PER_FRAME};
use gol_multi::pack::{compress_grid, uncompress_grid_binary};
use gol_multi::registry::TickCounters;

fn grid_from(cells: &[(usize, usize)], width: usize, height: usize) -> Vec<u8> {
    let mut g = vec![0u8; width * height];
    for &(x, y) in cells {
        g[x + width * y] = 1;
    }
    g
}

#[test]
fn constants_are_consistent() {
    assert_eq!(GRID_WIDTH, 48);
    assert_eq!(GRID_HEIGHT, 31);
    assert_eq!(MS_PER_FRAME, 200);
}

#[test]
fn blinker_oscillates() {
    let g = grid_from(&[(1, 2), (2, 2), (3, 2)], 5, 5);
    let next = next_grid(&g, 5, 5);
    let expected = grid_from(&[(2, 1), (2, 2), (2, 3)], 5, 5);
    assert_eq!(next, expected);
    let back = next_grid(&next, 5, 5);
    assert_eq!(back, g);
}

#[test]
fn block_is_still() {
    let g = grid_from(&[(1, 1), (2, 1), (1, 2), (2, 2)], 4, 4);
    let next = next_grid(&g, 4, 4);
    assert_eq!(next, g);
}

#[test]
fn blinker_wraps_around_edge() {
    let g = grid_from(&[(4, 2), (0, 2), (1, 2)], 5, 5);
    let next = next_grid(&g, 5, 5);
    let expected = grid_from(&[(0, 1), (0, 2), (0, 3)], 5, 5);
    assert_eq!(next, expected);
}

#[test]
fn neighbor_count_is_toroidal() {
    let g = vec![1u8; 9];
    assert_eq!(compute_neighbors(&g, 3, 3, 1, 1), 8);
    // on a torus every cell of the full 3x3 grid sees eight live
    // neighbors, corners included
    assert_eq!(compute_neighbors(&g, 3, 3, 0, 0), 8);
}

#[test]
fn state_records_ticks() {
    let mut state = State::new();
    state.record_tick(12, &TickCounters { bytes: 100, messages: 2 });
    state.record_tick(9, &TickCounters { bytes: 50, messages: 1 });
    assert_eq!(state.total_bytes_sent, 150);
    assert_eq!(state.total_messages_sent, 3);
    assert_eq!(state.frames, 2);
    assert_eq!(state.encoded_grid_lengths, vec![12, 9]);
}

#[test]
fn pack_exact_bytes() {
    let cells = [0u8, 0, 1, 0, 0, 0, 1, 0];
    let packed = compress_grid(&cells);
    assert_eq!(packed, vec![0b0100_0100]);
}

#[test]
fn pack_round_trip() {
    let cells = [1u8, 0, 0, 0, 0, 0, 0, 0, 1, 1, 1, 1, 1, 1, 1, 1];
    let packed = compress_grid(&cells);
    assert_eq!(packed, vec![1, 255]);
    let unpacked = uncompress_grid_binary(&packed);
    assert_eq!(unpacked, cells.to_vec());
}
