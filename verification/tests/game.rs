use fimbulfamb::game::{Game, Player};
use fimbulfamb::utils::Word;

fn word(w: &str, d: &str) -> Word {
    Word { word: w.to_string(), definition: d.to_string() }
}

fn pool(n: usize) -> Vec<Word> {
    (0..n).map(|i| word(&format!("w{}", i), &format!("d{}", i))).collect()
}

fn names(game: &Game) -> Vec<String> {
    game.players.iter().map(|p| p.name.clone()).collect()
}

#[test]
fn new_game_has_owner_as_only_player() {
    let game = Game::new("Anna", &pool(5));
    assert_eq!(game.owner, "Anna");
    assert_eq!(names(&game), vec!["Anna"]);
    assert_eq!(game.players[0].points, 0);
    assert_eq!(game.current_player_index, 0);
    assert_eq!(game.current_word_index, 0);
    assert!(!game.has_started);
    assert!(game.open_for_submissions);
    assert!(game.joinable);
    assert!(!game.word_is_visible);
    assert!(game.player_definitions.is_empty());
}

#[test]
fn new_game_shuffles_the_same_words() {
    let words = pool(30);
    let game = Game::new("Anna", &words);
    let mut got: Vec<String> = game.word_pool.iter().map(|w| w.word.clone()).collect();
    let mut want: Vec<String> = words.iter().map(|w| w.word.clone()).collect();
    got.sort();
    want.sort();
    assert_eq!(got, want);
    for w in &game.word_pool {
        let i: usize = w.word[1..].parse().unwrap();
        assert_eq!(w.definition, format!("d{}", i));
    }
}

#[test]
fn shuffle_changes_the_order_sometimes() {
    let words = pool(30);
    let changed = (0..5).any(|_| {
        let game = Game::new("Anna", &words);
        game.word_pool.iter().map(|w| w.word.clone()).collect::<Vec<_>>()
            != words.iter().map(|w| w.word.clone()).collect::<Vec<_>>()
    });
    assert!(changed);
}

#[test]
fn with_word_pool_keeps_the_order() {
    let game = Game::with_word_pool("Bo", pool(3));
    let got: Vec<String> = game.word_pool.iter().map(|w| w.word.clone()).collect();
    assert_eq!(got, vec!["w0", "w1", "w2"]);
    assert_eq!(game.get_current_word().word, "w0");
}

#[test]
fn players_join_once_per_name() {
    let mut game = Game::with_word_pool("Anna", pool(2));
    assert_eq!(game.add_player("Bjarni"), Ok(()));
    assert_eq!(game.add_player("Anna"), Err("Name taken".to_string()));
    assert_eq!(game.add_player("Bjarni"), Err("Name taken".to_string()));
    assert_eq!(names(&game), vec!["Anna", "Bjarni"]);
    assert_eq!(game.players[1].points, 0);
}

#[test]
fn rounds_pass_the_turn_around() {
    let mut game = Game::with_word_pool("A", pool(10));
    game.add_player("B").unwrap();
    game.add_player("C").unwrap();
    let mut turns = vec![game.get_current_player()];
    for _ in 0..3 {
        assert_eq!(game.next_round(), Ok(()));
        turns.push(game.get_current_player());
    }
    assert_eq!(turns, vec!["A", "B", "C", "A"]);
    assert_eq!(game.current_word_index, 3);
}

#[test]
fn last_round_reports_no_more_words_but_passes_the_turn() {
    let mut game = Game::with_word_pool("A", pool(2));
    game.add_player("B").unwrap();
    assert_eq!(game.next_round(), Ok(()));
    assert_eq!(game.current_word_index, 1);
    assert_eq!(game.current_player_index, 1);
    assert_eq!(game.next_round(), Err("No more words".to_string()));
    assert_eq!(game.current_word_index, 1);
    assert_eq!(game.current_player_index, 0);
}

#[test]
fn next_word_moves_until_the_last() {
    let mut game = Game::with_word_pool("A", pool(3));
    assert_eq!(game.next_word().unwrap().word, "w1");
    assert_eq!(game.next_word().unwrap().word, "w2");
    assert!(matches!(game.next_word(), Err(e) if e == "No more words"));
    assert_eq!(game.current_word_index, 2);
}

#[test]
fn scores_are_set_by_name() {
    let mut game = Game::with_word_pool("A", pool(1));
    game.add_player("B").unwrap();
    assert_eq!(game.update_player_score("B", 7), Ok(()));
    assert_eq!(game.update_player_score("B", -3), Ok(()));
    assert_eq!(game.players[1].points, -3);
    assert_eq!(game.players[0].points, 0);
    assert_eq!(game.update_player_score("Z", 1), Err("No player with name Z".to_string()));
}

#[test]
fn start_game_marks_started() {
    let mut game = Game::with_word_pool("A", pool(1));
    game.start_game();
    assert!(game.has_started);
}

#[test]
fn next_player_wraps_around() {
    let mut game = Game::with_word_pool("A", pool(1));
    game.add_player("B").unwrap();
    assert_eq!(game.get_next_player(), "B");
    game.current_player_index = 1;
    assert_eq!(game.get_next_player(), "A");
}

#[test]
fn removing_a_player_keeps_the_others_in_order() {
    let mut game = Game::with_word_pool("A", pool(1));
    for n in ["B", "C", "D"] {
        game.add_player(n).unwrap();
    }
    game.remove_player("C");
    assert_eq!(names(&game), vec!["A", "B", "D"]);
    game.remove_player("nobody");
    assert_eq!(names(&game), vec!["A", "B", "D"]);
}

#[test]
fn definitions_are_recorded_in_order() {
    let mut game = Game::with_word_pool("A", pool(1));
    game.add_definition("A", "first");
    game.add_definition("B", "second");
    assert_eq!(game.player_definitions.len(), 2);
    assert_eq!(game.player_definitions[1].username, "B");
    assert_eq!(game.player_definitions[1].definition, "second");
}

#[test]
fn activity_counts_for_an_hour() {
    let mut game = Game::with_word_pool("A", pool(1));
    game.update_timestamp(1000);
    assert_eq!(game.time_of_last_activity, 1000);
    assert!(game.recently_active(1000));
    assert!(game.recently_active(4599));
    assert!(!game.recently_active(4600));
}

#[test]
fn player_clone_keeps_fields() {
    let p = Player { name: "X".to_string(), points: 4 };
    let q = p.clone();
    assert_eq!(q.name, "X");
    assert_eq!(q.points, 4);
}
