use puzuzu::grid::Grid;
use puzuzu::square::Square;
use puzuzu::{Clue, Clues};

// The grid of most tests, with its solution:
//   - - -    C A T
//   - . -    A . O
//   - - -    T O E
const FILL: &str = "----.----";
const SOLUTION: &str = "CATA.OTOE";

fn texts(v: &[&str]) -> Vec<String> {
    v.iter().map(|s| s.to_string()).collect()
}

#[test]
fn squares() {
    assert!(Square::is_black_square('.'));
    assert!(Square::is_black_square(':'));
    assert!(!Square::is_black_square('A'));
    assert_eq!(Square::black(), '.');
}

#[test]
fn grid_neighbours_and_runs() {
    let grid = Grid::new(FILL, SOLUTION, 3, 3);
    assert_eq!(grid.get_fill_character(4), Some('.'));
    assert_eq!(grid.get_fill_character(9), None);
    assert_eq!(grid.get_solution_character(8), Some('E'));
    assert_eq!(grid.left(3), None);
    assert_eq!(grid.left(5), Some('.'));
    assert_eq!(grid.above(1), None);
    assert_eq!(grid.above(7), Some('.'));
    assert_eq!(grid.row(7), 2);
    assert_eq!(grid.col(7), 1);
    assert_eq!(grid.len_across(0), 3);
    assert_eq!(grid.len_across(1), 2);
    assert_eq!(grid.len_across(3), 1);
    assert_eq!(grid.len_across(5), 1);
    assert_eq!(grid.len_across(4), 0);
    assert_eq!(grid.len_down(0), 3);
    assert_eq!(grid.len_down(1), 1);
    assert_eq!(grid.len_down(2), 3);
    assert_eq!(grid.len_down(3), 2);
}

#[test]
fn numbering_follows_scan_order() {
    let grid = Grid::new(FILL, SOLUTION, 3, 3);
    let clues = Clues::new(grid, &texts(&["Feline", "Taxi", "Bobbin", "Digit"])).unwrap();
    assert_eq!(
        clues.across,
        vec![
            Clue { clue_number: 1, text: "Feline".to_string(), column: 0, row: 0, length: 3 },
            Clue { clue_number: 3, text: "Digit".to_string(), column: 0, row: 2, length: 3 },
        ]
    );
    assert_eq!(
        clues.down,
        vec![
            Clue { clue_number: 1, text: "Taxi".to_string(), column: 0, row: 0, length: 3 },
            Clue { clue_number: 2, text: "Bobbin".to_string(), column: 2, row: 0, length: 3 },
        ]
    );
}

#[test]
fn single_cell_after_black_square_starts_no_across_entry() {
    // the middle row is "-.-": its right cell has a black square on its left
    // and an across run of one cell
    let fill = "-.-".to_string();
    let grid = Grid::new(&fill, "A.B", 3, 1);
    let clues = Clues::new(grid, &texts(&[])).unwrap();
    assert!(clues.across.is_empty());
    assert!(clues.down.is_empty());
}

#[test]
fn down_entry_length_is_its_own_run() {
    // across run of the first cell is 2, its down run is 3
    let fill = "--.".to_string() + "-.." + "-..";
    let grid = Grid::new(&fill, "AB.C..D..", 3, 3);
    let clues = Clues::new(grid, &texts(&["across", "down"])).unwrap();
    assert_eq!(clues.across.len(), 1);
    assert_eq!(clues.across[0].length, 2);
    assert_eq!(clues.down.len(), 1);
    assert_eq!(clues.down[0].length, 3);
    assert_eq!(clues.down[0].text, "down");
}

#[test]
fn running_out_of_clue_texts_fails() {
    let fill = "---".to_string();
    let grid = Grid::new(&fill, "ABC", 3, 1);
    assert!(Clues::new(grid, &texts(&[])).is_err());
}
