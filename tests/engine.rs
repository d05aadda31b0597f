use falling_sand::game::Game;
use falling_sand::particle::{particle_type, ParticleType};

fn snapshot(g: &Game) -> Vec<u8> {
    let mut fb = vec![0u8; 6400];
    g.draw(&mut fb);
    fb
}

#[test]
fn new_grid_is_all_air() {
    let g = Game::new();
    for y in 0..160i16 {
        for x in 0..160i16 {
            assert_eq!(g.get_pixel(x, y), 0);
        }
    }
    assert!(snapshot(&g).iter().all(|b| *b == 0));
}

#[test]
fn out_of_range_reads_are_wall() {
    let g = Game::new();
    for (x, y) in [(-1, 0), (0, -1), (160, 0), (0, 160), (-1, -1), (200, 300), (i16::MIN, i16::MAX)] {
        assert_eq!(g.get_pixel(x, y), 2);
    }
}

#[test]
fn out_of_range_writes_change_nothing() {
    let mut g = Game::new();
    g.set_pixel(10, 10, 1);
    let before = snapshot(&g);
    for (x, y) in [(-1, 0), (0, -1), (160, 0), (0, 160), (-8, 200), (i16::MAX, i16::MIN)] {
        g.set_pixel(x, y, 1);
        g.set_pixel(x, y, 2);
    }
    assert_eq!(snapshot(&g), before);
}

#[test]
fn set_then_get_round_trips_low_two_bits() {
    let mut g = Game::new();
    g.set_pixel(5, 7, 1);
    assert_eq!(g.get_pixel(5, 7), 1);
    g.set_pixel(5, 7, 2);
    assert_eq!(g.get_pixel(5, 7), 2);
    g.set_pixel(6, 7, 5);
    assert_eq!(g.get_pixel(6, 7), 1);
    g.set_pixel(159, 159, 7);
    assert_eq!(g.get_pixel(159, 159), 3);
    g.set_pixel(0, 0, 0xfe);
    assert_eq!(g.get_pixel(0, 0), 2);
    // the neighbours sharing the byte are untouched
    assert_eq!(g.get_pixel(4, 7), 0);
    assert_eq!(g.get_pixel(7, 7), 0);
    assert_eq!(g.get_pixel(5, 7), 2);
}

#[test]
fn packed_layout_puts_low_x_in_low_bits() {
    let mut g = Game::new();
    g.set_pixel(0, 0, 1);
    g.set_pixel(1, 0, 2);
    g.set_pixel(3, 0, 1);
    g.set_pixel(4, 1, 2);
    let fb = snapshot(&g);
    assert_eq!(fb[0], 0b01_00_10_01);
    assert_eq!(fb[41], 0b00_00_00_10);
}

#[test]
fn particle_table() {
    assert_eq!(particle_type(0), ParticleType { color: 0, has_gravity: false });
    assert_eq!(particle_type(1), ParticleType { color: 1, has_gravity: true });
    assert_eq!(particle_type(2), ParticleType { color: 2, has_gravity: false });
}

#[test]
fn single_sand_falls_one_row_per_tick_until_bottom() {
    let mut g = Game::new();
    g.set_pixel(40, 150, 1);
    for t in 1..=9i16 {
        g.update(0, -1, -1);
        assert_eq!(g.get_pixel(40, 150 + t), 1);
        assert_eq!(g.get_pixel(40, 150 + t - 1), 0);
    }
    let settled = snapshot(&g);
    for _ in 0..5 {
        g.update(0, -1, -1);
        assert_eq!(snapshot(&g), settled);
    }
    assert_eq!(g.get_pixel(40, 159), 1);
}

#[test]
fn sand_on_a_wall_does_not_move() {
    let mut g = Game::new();
    g.set_pixel(20, 21, 2);
    g.set_pixel(19, 21, 2);
    g.set_pixel(21, 21, 2);
    g.set_pixel(20, 20, 1);
    let before = snapshot(&g);
    g.update(0, -1, -1);
    g.update(0, -1, -1);
    assert_eq!(snapshot(&g), before);
}

#[test]
fn diagonal_preference_alternates_with_tick_parity() {
    // even tick: the blocked grain slides to the right
    let mut even = Game::new();
    even.set_pixel(80, 159, 1);
    even.set_pixel(80, 158, 1);
    even.update(0, -1, -1);
    assert_eq!(even.get_pixel(80, 159), 1);
    assert_eq!(even.get_pixel(81, 159), 1);
    assert_eq!(even.get_pixel(79, 159), 0);
    assert_eq!(even.get_pixel(80, 158), 0);

    // odd tick: the same setup slides to the left
    let mut odd = Game::new();
    odd.update(0, -1, -1);
    odd.set_pixel(80, 159, 1);
    odd.set_pixel(80, 158, 1);
    odd.update(0, -1, -1);
    assert_eq!(odd.get_pixel(80, 159), 1);
    assert_eq!(odd.get_pixel(79, 159), 1);
    assert_eq!(odd.get_pixel(81, 159), 0);
    assert_eq!(odd.get_pixel(80, 158), 0);
}

#[test]
fn blocked_preferred_diagonal_falls_back_to_the_other() {
    let mut g = Game::new();
    g.set_pixel(80, 159, 2);
    g.set_pixel(81, 159, 2);
    g.set_pixel(80, 158, 1);
    g.update(0, -1, -1);
    assert_eq!(g.get_pixel(79, 159), 1);
    assert_eq!(g.get_pixel(80, 158), 0);
}

#[test]
fn brush_paints_exactly_the_disk() {
    let mut g = Game::new();
    g.set_pixel(100, 100, 2);
    g.set_pixel_with_brush(80, 80, 1);
    for y in 0..160i16 {
        for x in 0..160i16 {
            let dx = x - 80;
            let dy = y - 80;
            let inside = (-8..8).contains(&dx) && (-8..8).contains(&dy) && dx * dx + dy * dy < 64;
            let expected = if inside {
                1
            } else if (x, y) == (100, 100) {
                2
            } else {
                0
            };
            assert_eq!(g.get_pixel(x, y), expected, "at ({}, {})", x, y);
        }
    }
    // the boundary ring and the +R side are left out
    assert_eq!(g.get_pixel(88, 80), 0);
    assert_eq!(g.get_pixel(72, 80), 0);
    assert_eq!(g.get_pixel(73, 80), 1);
    assert_eq!(g.get_pixel(87, 80), 1);
}

#[test]
fn brush_at_the_edge_only_touches_the_chunk() {
    let mut g = Game::new();
    g.set_pixel_with_brush(0, 80, 1);
    let mut count = 0;
    for y in 0..160i16 {
        for x in 0..160i16 {
            let dx = x;
            let dy = y - 80;
            let inside = dx < 8 && (-8..8).contains(&dy) && dx * dx + dy * dy < 64;
            assert_eq!(g.get_pixel(x, y), if inside { 1 } else { 0 });
            if inside {
                count += 1;
            }
        }
    }
    assert!(count > 0);
    assert_eq!(snapshot(&g).len(), 6400);
    let mut corner = Game::new();
    corner.set_pixel_with_brush(159, 159, 2);
    assert_eq!(corner.get_pixel(159, 159), 2);
    assert_eq!(corner.get_pixel(152, 159), 2);
    assert_eq!(corner.get_pixel(151, 159), 0);
}

#[test]
fn input_left_paints_sand_right_erases() {
    let mut g = Game::new();
    g.process_input(1, 50, 50);
    assert_eq!(g.get_pixel(50, 50), 1);
    assert_eq!(g.get_pixel(50, 43), 1);
    g.process_input(2, 50, 50);
    assert_eq!(g.get_pixel(50, 50), 0);
    g.process_input(3, 50, 50);
    assert_eq!(g.get_pixel(50, 50), 1);
}

#[test]
fn input_outside_the_chunk_is_skipped() {
    let mut g = Game::new();
    g.process_input(1, -1, 50);
    g.process_input(1, 160, 50);
    g.process_input(1, 5, 160);
    g.process_input(0, 50, 50);
    assert!(snapshot(&g).iter().all(|b| *b == 0));
}

#[test]
fn update_paints_then_ticks() {
    let mut g = Game::new();
    g.update(1, 80, 152);
    // the disk spans rows 145..=159; its bottom row rests on the floor
    assert_eq!(g.get_pixel(80, 159), 1);
    assert_eq!(g.get_pixel(80, 145), 0);
    assert_eq!(g.get_pixel(80, 146), 1);
}

#[test]
fn boot_stroke_falls_one_row() {
    let mut g = Game::new();
    g.start();
    for x in 80..85i16 {
        assert_eq!(g.get_pixel(x, 0), 1);
    }
    assert_eq!(g.get_pixel(79, 0), 0);
    assert_eq!(g.get_pixel(85, 0), 0);
    g.update(0, 0, 0);
    for x in 80..85i16 {
        assert_eq!(g.get_pixel(x, 1), 1);
        assert_eq!(g.get_pixel(x, 0), 0);
    }
    assert_eq!(g.get_pixel(79, 1), 0);
    assert_eq!(g.get_pixel(85, 1), 0);
}

#[test]
fn blit_full_screen_reproduces_pattern() {
    let sprite: Vec<u8> = (0..6400usize).map(|i| (i * 37 % 251) as u8).collect();
    let mut fb = vec![0u8; 6400];
    Game::mem_blit(&sprite, 0, 0, 160, 160, &mut fb);
    assert_eq!(fb, sprite);
}

#[test]
fn blit_clips_at_negative_offset() {
    let sprite: Vec<u8> = vec![1, 2, 3, 4];
    let mut fb = vec![9u8; 6400];
    Game::mem_blit(&sprite, -4, -1, 8, 2, &mut fb);
    assert_eq!(fb[0], 4);
    assert!(fb[1..].iter().all(|b| *b == 9));
}

#[test]
fn blit_clips_at_far_edges() {
    let sprite: Vec<u8> = vec![1, 2, 3, 4];
    let mut fb = vec![9u8; 6400];
    Game::mem_blit(&sprite, 156, 159, 8, 2, &mut fb);
    assert_eq!(fb[6399], 1);
    assert!(fb[..6399].iter().all(|b| *b == 9));
}

#[test]
fn blit_places_rows_at_offset() {
    let sprite: Vec<u8> = vec![1, 2, 3, 4, 5, 6];
    let mut fb = vec![0u8; 6400];
    Game::mem_blit(&sprite, 8, 3, 8, 3, &mut fb);
    assert_eq!(&fb[3 * 40 + 2..3 * 40 + 4], &[1, 2]);
    assert_eq!(&fb[4 * 40 + 2..4 * 40 + 4], &[3, 4]);
    assert_eq!(&fb[5 * 40 + 2..5 * 40 + 4], &[5, 6]);
    assert_eq!(fb.iter().filter(|b| **b != 0).count(), 6);
}

#[test]
fn blit_entirely_off_screen_changes_nothing() {
    let sprite: Vec<u8> = vec![1, 2, 3, 4];
    let mut fb = vec![7u8; 6400];
    Game::mem_blit(&sprite, 160, 0, 8, 2, &mut fb);
    Game::mem_blit(&sprite, -8, 0, 8, 2, &mut fb);
    Game::mem_blit(&sprite, 0, -2, 8, 2, &mut fb);
    Game::mem_blit(&sprite, 0, 0, 0, 0, &mut fb);
    assert!(fb.iter().all(|b| *b == 7));
}

#[test]
fn draw_copies_the_packed_chunk() {
    let mut g = Game::new();
    g.set_pixel(2, 0, 1);
    g.set_pixel(159, 159, 2);
    let mut fb = vec![0xffu8; 6400];
    g.draw(&mut fb);
    assert_eq!(fb[0], 0b00_01_00_00);
    assert_eq!(fb[6399], 0b10_00_00_00);
    assert_eq!(fb.iter().filter(|b| **b != 0).count(), 2);
}

#[test]
fn step_counts_ticks_and_alternates() {
    let mut g = Game::new();
    g.set_pixel(80, 159, 1);
    g.set_pixel(80, 158, 1);
    g.step();
    assert_eq!(g.get_pixel(81, 159), 1);
    g.set_pixel(81, 159, 0);
    g.set_pixel(80, 158, 1);
    g.step();
    assert_eq!(g.get_pixel(79, 159), 1);
}
