use fimbulfamb::game::{Game, Player};
use fimbulfamb::server::{
    game_not_found, index, join_game, leave_game, next_round, next_word, set_word_visibility,
    start_game, submit_definition, update_scores, LeaveOutcome, Status,
};
use fimbulfamb::utils::Word;

fn pool(n: usize) -> Vec<Word> {
    (0..n).map(|i| Word { word: format!("w{}", i), definition: format!("d{}", i) }).collect()
}

fn game_with(names: &[&str], words: usize) -> Game {
    let mut game = Game::with_word_pool(names[0], pool(words));
    for n in &names[1..] {
        game.add_player(n).unwrap();
    }
    game
}

fn names(game: &Game) -> Vec<String> {
    game.players.iter().map(|p| p.name.clone()).collect()
}

fn player(name: &str, points: i16) -> Player {
    Player { name: name.to_string(), points }
}

#[test]
fn root_says_hello() {
    assert_eq!(index(), "Hello, world!");
}

#[test]
fn unknown_game_is_not_found() {
    let f = game_not_found("ABC123");
    assert_eq!(f.status, Status::NotFound);
    assert_eq!(f.message, "Enginn leikur með kóða ABC123");
}

#[test]
fn starting_announces_the_first_player() {
    let mut game = game_with(&["Anna", "Bo"], 3);
    let m = start_game(&mut game);
    assert!(game.has_started);
    assert_eq!(m, "Start Game\tAnna");
}

#[test]
fn next_word_refuses_after_the_last() {
    let mut game = game_with(&["A"], 2);
    assert_eq!(next_word(&mut game).ok().unwrap().word, "w1");
    let f = next_word(&mut game).err().unwrap();
    assert_eq!(f.status, Status::NotAcceptable);
    assert_eq!(f.message, "No more words");
}

#[test]
fn next_round_announces_player_and_shown_word() {
    let mut game = game_with(&["A", "B"], 3);
    let (r, m) = next_round(&mut game);
    assert!(r.is_ok());
    assert_eq!(m, "Next Round\tB");
    game.word_is_visible = true;
    let (r, m) = next_round(&mut game);
    assert!(r.is_ok());
    assert_eq!(m, "Next Round\tA\tw2");
}

#[test]
fn next_round_without_words_sends_the_error() {
    let mut game = game_with(&["A", "B"], 1);
    let (r, m) = next_round(&mut game);
    let f = r.err().unwrap();
    assert_eq!(f.status, Status::NotAcceptable);
    assert_eq!(f.message, "No more words");
    assert_eq!(m, "Error\tNo more words");
    assert_eq!(game.current_player_index, 1);
}

#[test]
fn definitions_are_taken_only_while_open() {
    let mut game = game_with(&["A", "B"], 1);
    assert_eq!(submit_definition(&mut game, "B", "a thing").ok().unwrap(), "Definition\tB\ta thing");
    assert_eq!(game.player_definitions.len(), 1);
    game.open_for_submissions = false;
    let f = submit_definition(&mut game, "A", "late").err().unwrap();
    assert_eq!(f.status, Status::NotFound);
    assert_eq!(f.message, "Lokað fyrir nýjar skýringar");
    assert_eq!(game.player_definitions.len(), 1);
}

#[test]
fn scores_are_given_and_announced() {
    let mut game = game_with(&["A", "B", "C"], 1);
    let m = update_scores(&mut game, &vec![player("C", 12), player("A", -5), player("B", 0)]).ok().unwrap();
    assert_eq!(m, "Scores\tC\t12\tA\t-5\tB\t0");
    let points: Vec<i16> = game.players.iter().map(|p| p.points).collect();
    assert_eq!(points, vec![-5, 0, 12]);
}

#[test]
fn empty_score_list_is_just_the_heading() {
    let mut game = game_with(&["A"], 1);
    assert_eq!(update_scores(&mut game, &vec![]).ok().unwrap(), "Scores\t");
}

#[test]
fn scores_stop_at_an_unknown_player() {
    let mut game = game_with(&["A", "B"], 1);
    let f = update_scores(&mut game, &vec![player("A", 3), player("X", 9), player("B", 4)]).err().unwrap();
    assert_eq!(f.status, Status::NotFound);
    assert_eq!(f.message, "No player with name X");
    assert_eq!(game.players[0].points, 3);
    assert_eq!(game.players[1].points, 0);
}

#[test]
fn joining_tells_the_game_and_announces_the_player() {
    let mut game = game_with(&["A"], 2);
    game.add_definition("A", "d");
    let (r, m) = join_game(&mut game, "CODE01", "B").ok().unwrap();
    assert_eq!(m, "New Player\tB");
    assert_eq!(r.id, "CODE01");
    assert_eq!(r.owner, "A");
    assert_eq!(r.players.iter().map(|p| p.name.clone()).collect::<Vec<_>>(), vec!["A", "B"]);
    assert_eq!(r.current_player, "A");
    assert_eq!(r.player_definitions.len(), 1);
    assert_eq!(r.current_word.word, "");
    assert_eq!(r.current_word.definition, "");
    assert!(r.joinable);
    assert!(!r.has_started);
    assert!(r.open_for_submissions);
}

#[test]
fn joining_shows_the_word_only_when_visible() {
    let mut game = game_with(&["A"], 2);
    game.word_is_visible = true;
    let (r, _) = join_game(&mut game, "X", "B").ok().unwrap();
    assert_eq!(r.current_word.word, "w0");
    assert_eq!(r.current_word.definition, "");
}

#[test]
fn joining_is_refused_for_taken_names_and_closed_games() {
    let mut game = game_with(&["A"], 1);
    let f = join_game(&mut game, "X", "A").err().unwrap();
    assert_eq!(f.status, Status::NotAcceptable);
    assert_eq!(f.message, "Name taken");
    game.joinable = false;
    let f = join_game(&mut game, "X", "B").err().unwrap();
    assert_eq!(f.status, Status::Forbidden);
    assert_eq!(f.message, "Leikur lokaður");
    assert_eq!(names(&game), vec!["A"]);
}

#[test]
fn showing_and_hiding_the_word() {
    let mut game = game_with(&["A"], 2);
    assert_eq!(set_word_visibility(&mut game, true), "Show word\tw0");
    assert!(game.word_is_visible);
    assert_eq!(set_word_visibility(&mut game, false), "Hide word");
    assert!(!game.word_is_visible);
}

#[test]
fn last_player_leaving_ends_the_game() {
    let mut game = game_with(&["A"], 1);
    assert!(matches!(leave_game(&mut game, "A"), LeaveOutcome::EndGame));
    assert_eq!(names(&game), vec!["A"]);
}

#[test]
fn owner_leaving_hands_the_game_to_the_next_in_line() {
    let mut game = game_with(&["A", "B", "C"], 2);
    game.current_player_index = 2;
    match leave_game(&mut game, "A") {
        LeaveOutcome::Left(messages, r) => {
            assert!(r.is_ok());
            assert_eq!(messages, vec!["Quitter\tA", "New Owner\tB"]);
        }
        LeaveOutcome::EndGame => panic!("the game should go on"),
    }
    assert_eq!(game.owner, "B");
    assert_eq!(names(&game), vec!["B", "C"]);
    assert_eq!(game.get_current_player(), "C");
}

#[test]
fn current_player_leaving_passes_the_turn() {
    let mut game = game_with(&["A", "B", "C"], 2);
    game.current_player_index = 1;
    game.word_is_visible = true;
    match leave_game(&mut game, "B") {
        LeaveOutcome::Left(messages, r) => {
            assert!(r.is_ok());
            assert_eq!(messages, vec!["Quitter\tB", "Next Round\tC\tw0"]);
        }
        LeaveOutcome::EndGame => panic!("the game should go on"),
    }
    assert_eq!(game.get_current_player(), "C");
    assert_eq!(game.owner, "A");
}

#[test]
fn last_in_turn_leaving_passes_the_turn_to_the_first() {
    let mut game = game_with(&["A", "B", "C"], 2);
    game.current_player_index = 2;
    match leave_game(&mut game, "C") {
        LeaveOutcome::Left(messages, r) => {
            assert!(r.is_ok());
            assert_eq!(messages, vec!["Quitter\tC", "Next Round\tA"]);
        }
        LeaveOutcome::EndGame => panic!("the game should go on"),
    }
    assert_eq!(game.current_player_index, 0);
}

#[test]
fn other_player_leaving_keeps_the_turn() {
    let mut game = game_with(&["A", "B", "C"], 2);
    game.current_player_index = 2;
    match leave_game(&mut game, "B") {
        LeaveOutcome::Left(messages, r) => {
            assert!(r.is_ok());
            assert_eq!(messages, vec!["Quitter\tB"]);
        }
        LeaveOutcome::EndGame => panic!("the game should go on"),
    }
    assert_eq!(game.get_current_player(), "C");
    assert_eq!(game.current_player_index, 1);
}

#[test]
fn current_player_leaving_with_a_namesake_next_is_refused() {
    let mut game = game_with(&["X", "B", "C"], 1);
    game.players[2].name = "B".to_string();
    game.current_player_index = 1;
    game.word_is_visible = true;
    game.current_word_index = 5;
    match leave_game(&mut game, "B") {
        LeaveOutcome::Left(messages, r) => {
            let f = r.err().unwrap();
            assert_eq!(f.status, Status::NotFound);
            assert_eq!(f.message, "Fann ekki næsta leikmann");
            assert_eq!(messages, vec!["Quitter\tB"]);
        }
        LeaveOutcome::EndGame => panic!("the game should go on"),
    }
    assert_eq!(names(&game), vec!["X"]);
    assert_eq!(game.current_player_index, 1);
}
