use maze_chase::character::Character;
use maze_chase::maze::Maze;
use maze_chase::strategy::{
    get_ambush_position, get_ambush_target, get_chase_position, get_pincer_position,
    get_pincer_target, get_random_position, get_wander_options, settle_choice, Tuning,
    AMBUSH_LEAD, PINCER_REACH,
};
use maze_chase::vec2::Vec2;

fn maze(lines: &[&str]) -> Maze {
    let rows: Vec<String> = lines.iter().map(|line| line.to_string()).collect();
    Maze::new(lines[0].chars().count(), lines.len(), &rows).unwrap()
}

fn open_torus() -> Maze {
    maze(&["     ", "     ", "     ", "     ", "     "])
}

fn cells(points: &[(i8, i8)]) -> Vec<Vec2> {
    points.iter().map(|&(x, y)| Vec2::new(x, y)).collect()
}

fn character(at: (i8, i8), last: (i8, i8)) -> Character {
    Character {
        position: Vec2::new(at.0, at.1),
        default_position: Vec2::new(at.0, at.1),
        last_position: Vec2::new(last.0, last.1),
    }
}

/// A dead end: (1, 0) is the only walkable cell next to (0, 0).
fn dead_end() -> Maze {
    maze(&["  #", "#  ", "#  "])
}

/// (0, 0) has walls on all four sides.
fn cell_without_exit() -> Maze {
    maze(&[" ##", "#  ", "#  "])
}

#[test]
fn wander_options_leave_out_the_cell_just_left() {
    let m = open_torus();
    assert_eq!(
        get_wander_options(&character((2, 2), (2, 1)), &m),
        cells(&[(1, 2), (2, 3), (3, 2)])
    );
    assert_eq!(
        get_wander_options(&character((2, 2), (3, 2)), &m),
        cells(&[(2, 1), (1, 2), (2, 3)])
    );
}

#[test]
fn wander_options_are_all_four_for_a_character_that_has_not_moved() {
    let m = open_torus();
    assert_eq!(
        get_wander_options(&character((0, 0), (0, 0)), &m),
        cells(&[(0, 4), (4, 0), (0, 1), (1, 0)])
    );
}

#[test]
fn wander_options_leave_out_walls() {
    let m = maze(&["     ", "  #  ", " #   ", "     ", "     "]);
    assert_eq!(get_wander_options(&character((2, 2), (2, 2)), &m), cells(&[(2, 3), (3, 2)]));
    assert_eq!(get_wander_options(&character((2, 2), (2, 3)), &m), cells(&[(3, 2)]));
}

#[test]
fn wander_in_a_dead_end_turns_back() {
    let m = dead_end();
    let agent = character((0, 0), (1, 0));
    assert_eq!(get_wander_options(&agent, &m), cells(&[(1, 0)]));
    for _ in 0..20 {
        assert_eq!(get_random_position(&agent, &m), Vec2::new(1, 0));
    }
}

#[test]
fn wander_without_an_exit_stays() {
    let m = cell_without_exit();
    let agent = character((0, 0), (1, 0));
    assert_eq!(get_wander_options(&agent, &m), cells(&[(0, 0)]));
    for _ in 0..20 {
        assert_eq!(get_random_position(&agent, &m), Vec2::new(0, 0));
    }
}

#[test]
fn wander_without_an_exit_stays_on_the_torus() {
    let m = cell_without_exit();
    let agent = character((3, -3), (1, 0));
    assert_eq!(get_random_position(&agent, &m), Vec2::new(0, 0));
}

#[test]
fn wander_draws_each_option_and_nothing_else() {
    let m = open_torus();
    let agent = character((2, 2), (2, 1));
    let options = cells(&[(1, 2), (2, 3), (3, 2)]);
    let mut seen = [false; 3];
    for _ in 0..400 {
        let next = get_random_position(&agent, &m);
        let place = options.iter().position(|cell| *cell == next);
        assert!(place.is_some());
        seen[place.unwrap()] = true;
    }
    assert_eq!(seen, [true; 3]);
}

#[test]
fn settle_choice_takes_the_cell_drawn() {
    let options = cells(&[(1, 2), (2, 3)]);
    assert_eq!(settle_choice(&options, Some(Vec2::new(2, 3))), Vec2::new(2, 3));
    assert_eq!(settle_choice(&options, None), Vec2::new(1, 2));
}

#[test]
fn chase_takes_the_first_step_of_the_shortest_route() {
    let m = open_torus();
    let agent = character((0, 0), (0, 0));
    assert_eq!(get_chase_position(&agent, Vec2::new(2, 0), &m), Vec2::new(1, 0));
    assert_eq!(get_chase_position(&agent, Vec2::new(0, 3), &m), Vec2::new(0, 4));
    assert_eq!(get_chase_position(&agent, Vec2::new(4, 4), &m), Vec2::new(0, 4));
}

#[test]
fn chase_follows_the_gap_in_a_closed_column() {
    let m = maze(&[" #  #", " #  #", "    #", " #  #", " #  #"]);
    let mut agent = character((0, 0), (0, 0));
    let mut walked = Vec::new();
    for _ in 0..6 {
        let next = get_chase_position(&agent, Vec2::new(2, 0), &m);
        agent.move_to(next);
        walked.push(next);
    }
    assert_eq!(walked, cells(&[(0, 1), (0, 2), (1, 2), (2, 2), (2, 1), (2, 0)]));
}

#[test]
fn chase_does_not_turn_back_while_another_way_is_open() {
    let m = open_torus();
    let agent = character((0, 0), (1, 0));
    for _ in 0..100 {
        let next = get_chase_position(&agent, Vec2::new(2, 0), &m);
        assert_ne!(next, Vec2::new(1, 0));
        assert!(cells(&[(0, 4), (4, 0), (0, 1)]).contains(&next));
    }
}

#[test]
fn chase_in_a_dead_end_turns_back() {
    let m = dead_end();
    let agent = character((0, 0), (1, 0));
    assert_eq!(get_chase_position(&agent, Vec2::new(2, 2), &m), Vec2::new(1, 0));
}

#[test]
fn chase_of_a_wall_wanders() {
    let m = maze(&["     ", "  #  ", "     ", "     ", "     "]);
    let agent = character((2, 2), (2, 3));
    for _ in 0..100 {
        let next = get_chase_position(&agent, Vec2::new(2, 1), &m);
        assert!(cells(&[(1, 2), (3, 2)]).contains(&next));
    }
}

#[test]
fn chase_of_a_cell_out_of_reach_wanders() {
    let m = maze(&["  #  ", "  #  ", "#####", "  # #", "  ###"]);
    let agent = character((0, 0), (0, 0));
    for _ in 0..100 {
        let next = get_chase_position(&agent, Vec2::new(3, 3), &m);
        assert!(cells(&[(0, 4), (4, 0), (0, 1), (1, 0)]).contains(&next));
    }
}

#[test]
fn chase_of_its_own_cell_wanders() {
    let m = open_torus();
    let agent = character((2, 2), (2, 1));
    for _ in 0..100 {
        let next = get_chase_position(&agent, Vec2::new(2, 2), &m);
        assert!(cells(&[(1, 2), (2, 3), (3, 2)]).contains(&next));
    }
}

#[test]
fn the_usual_tuning_is_three_moves_ahead_and_a_mirror() {
    assert_eq!(AMBUSH_LEAD, 3);
    assert_eq!(PINCER_REACH, 1);
    assert_eq!(Tuning::default(), Tuning { ambush_lead: 3, pincer_reach: 1 });
}

#[test]
fn ambush_aims_ahead_of_the_player() {
    let row = " ".repeat(19);
    let table: Vec<String> = (0..19).map(|_| row.clone()).collect();
    let m = Maze::new(19, 19, &table).unwrap();
    assert_eq!(
        get_ambush_target(&character((9, 13), (8, 13)), AMBUSH_LEAD, &m),
        Vec2::new(12, 13)
    );
    assert_eq!(
        get_ambush_target(&character((9, 13), (9, 14)), AMBUSH_LEAD, &m),
        Vec2::new(9, 10)
    );
    assert_eq!(get_ambush_target(&character((9, 13), (8, 13)), 0, &m), Vec2::new(9, 13));
    assert_eq!(get_ambush_target(&character((9, 13), (8, 13)), 1, &m), Vec2::new(10, 13));
}

#[test]
fn ambush_target_wraps() {
    let m = open_torus();
    assert_eq!(
        get_ambush_target(&character((3, 2), (2, 2)), AMBUSH_LEAD, &m),
        Vec2::new(1, 2)
    );
    // the player came round the edge: one step east, from column 4 to column 0
    assert_eq!(
        get_ambush_target(&character((0, 2), (4, 2)), AMBUSH_LEAD, &m),
        Vec2::new(3, 2)
    );
    assert_eq!(
        get_ambush_target(&character((127, -128), (-128, 127)), 255, &m),
        Vec2::new(2, 2)
    );
}

#[test]
fn ambush_of_a_standing_player_is_chase() {
    let m = maze(&[" #  #", " #  #", "    #", " #  #", " #  #"]);
    let player = character((2, 0), (2, 0));
    assert_eq!(get_ambush_target(&player, AMBUSH_LEAD, &m), Vec2::new(2, 0));
    for y in 0..5 {
        for x in [0, 2, 3] {
            let agent = character((x, y), (x, y));
            if (x, y) == (2, 0) {
                continue;
            }
            assert_eq!(
                get_ambush_position(&agent, &player, AMBUSH_LEAD, &m),
                get_chase_position(&agent, player.position, &m)
            );
        }
    }
}

#[test]
fn ambush_makes_for_the_cell_ahead() {
    let m = open_torus();
    let player = character((1, 2), (1, 1));
    // three moves further down: (1, 5), which is (1, 0) on the torus
    let agent = character((3, 0), (3, 0));
    assert_eq!(get_ambush_position(&agent, &player, AMBUSH_LEAD, &m), Vec2::new(2, 0));
}

#[test]
fn pincer_mirrors_the_chaser_at_the_player() {
    let row = " ".repeat(19);
    let table: Vec<String> = (0..19).map(|_| row.clone()).collect();
    let m = Maze::new(19, 19, &table).unwrap();
    assert_eq!(get_pincer_target(Vec2::new(9, 10), Vec2::new(9, 13), 1, &m), Vec2::new(9, 16));
    assert_eq!(get_pincer_target(Vec2::new(7, 14), Vec2::new(9, 13), 1, &m), Vec2::new(11, 12));
    assert_eq!(get_pincer_target(Vec2::new(9, 13), Vec2::new(9, 13), 1, &m), Vec2::new(9, 13));
}

#[test]
fn pincer_reach_stretches_the_mirror() {
    let row = " ".repeat(19);
    let table: Vec<String> = (0..19).map(|_| row.clone()).collect();
    let m = Maze::new(19, 19, &table).unwrap();
    assert_eq!(get_pincer_target(Vec2::new(9, 12), Vec2::new(9, 13), 0, &m), Vec2::new(9, 13));
    assert_eq!(get_pincer_target(Vec2::new(9, 12), Vec2::new(9, 13), 2, &m), Vec2::new(9, 15));
    assert_eq!(get_pincer_target(Vec2::new(7, 14), Vec2::new(9, 13), 3, &m), Vec2::new(15, 10));
    assert_eq!(get_pincer_target(Vec2::new(8, 13), Vec2::new(9, 13), 10, &m), Vec2::new(0, 13));
}

#[test]
fn pincer_of_a_chaser_to_the_north_lies_as_far_to_the_south() {
    let m = open_torus();
    for py in 1..5i8 {
        for cy in 0..py {
            let target = get_pincer_target(Vec2::new(2, cy), Vec2::new(2, py), PINCER_REACH, &m);
            assert_eq!(target.x, 2);
            assert_eq!(target.y, (py + (py - cy)) % 5);
        }
    }
    assert_eq!(get_pincer_target(Vec2::new(2, 1), Vec2::new(2, 4), 1, &m), Vec2::new(2, 2));
}

#[test]
fn pincer_target_takes_any_coordinates() {
    let m = open_torus();
    assert_eq!(
        get_pincer_target(Vec2::new(-128, 127), Vec2::new(127, -128), 1, &m),
        Vec2::new(2, 2)
    );
    assert_eq!(
        get_pincer_target(Vec2::new(-128, 127), Vec2::new(127, -128), 255, &m),
        Vec2::new(2, 2)
    );
}

#[test]
fn pincer_makes_for_the_far_side_of_the_player() {
    let m = maze(&["       ", "       ", "       ", "       ", "       ", "       ", "       "]);
    let chaser = character((3, 2), (3, 2));
    let player = character((3, 3), (3, 3));
    // the flank cell is (3, 4)
    let agent = character((5, 4), (5, 4));
    assert_eq!(get_pincer_position(&agent, &chaser, &player, PINCER_REACH, &m), Vec2::new(4, 4));
    let at_the_flank = character((3, 4), (3, 5));
    let next = get_pincer_position(&at_the_flank, &chaser, &player, PINCER_REACH, &m);
    assert!(cells(&[(3, 3), (2, 4), (4, 4)]).contains(&next));
}
