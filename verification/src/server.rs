//! What the game server decides for each request on a game: how the game
//! changes, what its clients are told, and what the request is answered.
//! Finding the game by its code, locking, and sending stay outside.
use vstd::prelude::*;
use crate::game::{
    Definition, Game, Player, has_player, first_named, next_turn, scored, without_player,
    not_named, position_of, names_distinct, lemma_scored_names, lemma_without_player_names,
    lemma_without_player_distinct, lemma_without_player_first,
};
use crate::text::{decimal, decimal_text};
use crate::utils::Word;

verus! {

/// The greeting the server answers at its root.
pub fn index() -> (greeting: &'static str)
    ensures
        greeting@ == "Hello, world!"@,
{
    "Hello, world!"
}

/// The kind of a refused request, as an HTTP status.
#[derive(Debug, Clone, Copy, PartialEq, Eq, Structural)]
pub enum Status {
    NotFound,
    NotAcceptable,
    Forbidden,
}

/// A refused request: its status and the explanation sent with it.
pub struct Failure {
    pub status: Status,
    pub message: String,
}

/// "Start Game" and the player who takes the first turn.
pub open spec fn start_message(player: Seq<char>) -> Seq<char> {
    "Start Game\t"@ + player
}

/// "Next Round", the player whose turn it is and, when shown, the current word.
pub open spec fn round_message(player: Seq<char>, word: Option<Seq<char>>) -> Seq<char> {
    match word {
        Some(w) => "Next Round\t"@ + player + "\t"@ + w,
        None => "Next Round\t"@ + player,
    }
}

/// "Error" and what went wrong.
pub open spec fn error_message(error: Seq<char>) -> Seq<char> {
    "Error\t"@ + error
}

/// "Definition", who submitted it and the definition.
pub open spec fn definition_message(username: Seq<char>, definition: Seq<char>) -> Seq<char> {
    "Definition\t"@ + username + "\t"@ + definition
}

/// A player's name and score separated by a tab.
pub open spec fn score_entry(p: Player) -> Seq<char> {
    p.name@ + "\t"@ + decimal(p.points as int)
}

/// The entries of `players`, tab-separated.
pub open spec fn score_entries(players: Seq<Player>) -> Seq<char>
    decreases players.len(),
{
    if players.len() == 0 {
        Seq::empty()
    } else if players.len() == 1 {
        score_entry(players[0])
    } else {
        score_entries(players.drop_last()) + "\t"@ + score_entry(players.last())
    }
}

/// "Scores" followed by each player's name and score.
pub open spec fn scores_message(players: Seq<Player>) -> Seq<char> {
    "Scores\t"@ + score_entries(players)
}

/// "New Player" and who joined.
pub open spec fn new_player_message(username: Seq<char>) -> Seq<char> {
    "New Player\t"@ + username
}

/// "Show word" and the current word.
pub open spec fn show_word_message(word: Seq<char>) -> Seq<char> {
    "Show word\t"@ + word
}

/// "Quitter" and who left.
pub open spec fn quitter_message(quitter: Seq<char>) -> Seq<char> {
    "Quitter\t"@ + quitter
}

/// "New Owner" and who owns the game now.
pub open spec fn new_owner_message(owner: Seq<char>) -> Seq<char> {
    "New Owner\t"@ + owner
}

/// The current word of `game` when it is shown to the players.
pub open spec fn shown_word(game: Game) -> Option<Seq<char>> {
    if game.word_is_visible {
        Some(game.word_pool@[game.current_word_index as int].word@)
    } else {
        None
    }
}

/// The name of the player whose turn it is.
pub open spec fn current_name(game: Game) -> Seq<char> {
    game.players@[game.current_player_index as int].name@
}

fn concat2(a: &str, b: &str) -> (s: String)
    ensures
        s@ == a@ + b@,
{
    let mut s = String::from_str(a);
    s.append(b);
    s
}

fn concat4(a: &str, b: &str, c: &str, d: &str) -> (s: String)
    ensures
        s@ == a@ + b@ + c@ + d@,
{
    let mut s = String::from_str(a);
    s.append(b);
    s.append(c);
    s.append(d);
    s
}

/// The answer to a request for a game code that names no game.
pub fn game_not_found(id: &str) -> (f: Failure)
    ensures
        f.status == Status::NotFound,
        f.message@ == "Enginn leikur með kóða "@ + id@,
{
    Failure { status: Status::NotFound, message: concat2("Enginn leikur með kóða ", id) }
}

/// The "Next Round" message for the present state of `game`.
fn announce_round(game: &Game) -> (m: String)
    requires
        game.current_player_index < game.players.len(),
        game.word_is_visible ==> game.current_word_index < game.word_pool.len(),
    ensures
        m@ == round_message(current_name(*game), shown_word(*game)),
{
    let player = game.get_current_player();
    if game.word_is_visible {
        let word = game.get_current_word();
        concat4("Next Round\t", player.as_str(), "\t", word.word.as_str())
    } else {
        concat2("Next Round\t", player.as_str())
    }
}

/// Starts the game; gives the message that announces it with the player who
/// has the turn.
pub fn start_game(game: &mut Game) -> (message: String)
    requires
        old(game).current_player_index < old(game).players.len(),
    ensures
        old(game).wf() ==> final(game).wf(),
        *final(game) == (Game { has_started: true, ..*old(game) }),
        message@ == start_message(current_name(*old(game))),
{
    game.start_game();
    let current_player = game.get_current_player();
    concat2("Start Game\t", current_player.as_str())
}

/// Moves to the next word and gives it; at the last word the request is
/// refused as not acceptable, with the game's explanation.
pub fn next_word(game: &mut Game) -> (res: Result<Word, Failure>)
    requires
        old(game).current_word_index < old(game).word_pool.len(),
    ensures
        old(game).wf() ==> final(game).wf(),
        old(game).current_word_index == old(game).word_pool.len() - 1 ==> {
            &&& res matches Err(f) && f.status == Status::NotAcceptable && f.message@ == "No more words"@
            &&& *final(game) == *old(game)
        },
        old(game).current_word_index != old(game).word_pool.len() - 1 ==> {
            &&& res matches Ok(w) && w == old(game).word_pool@[old(game).current_word_index + 1]
            &&& *final(game) == (Game {
                current_word_index: (old(game).current_word_index + 1) as usize,
                ..*old(game)
            })
        },
{
    match game.next_word() {
        Ok(w) => Ok(w),
        Err(err) => Err(Failure { status: Status::NotAcceptable, message: err }),
    }
}

/// Passes the turn and moves to the next word. Gives the answer and the
/// message for the clients: the new round, or the error when the words have
/// run out (the turn has passed all the same).
pub fn next_round(game: &mut Game) -> (res: (Result<(), Failure>, String))
    requires
        old(game).players.len() > 0,
        old(game).word_pool.len() > 0,
        old(game).current_player_index == old(game).players.len() - 1
            || old(game).current_player_index < usize::MAX,
        old(game).current_word_index == old(game).word_pool.len() - 1
            || old(game).current_word_index < usize::MAX,
        old(game).current_word_index != old(game).word_pool.len() - 1
            ==> old(game).current_player_index < old(game).players.len(),
        old(game).word_is_visible ==> old(game).current_word_index < old(game).word_pool.len(),
    ensures
        old(game).wf() ==> final(game).wf(),
        final(game).current_player_index == next_turn(
            old(game).current_player_index as int,
            old(game).players.len() as int,
        ),
        *final(game) == (Game {
            current_player_index: final(game).current_player_index,
            current_word_index: final(game).current_word_index,
            ..*old(game)
        }),
        old(game).current_word_index == old(game).word_pool.len() - 1 ==> {
            &&& final(game).current_word_index == old(game).current_word_index
            &&& res.0 matches Err(f) && f.status == Status::NotAcceptable && f.message@ == "No more words"@
            &&& res.1@ == error_message("No more words"@)
        },
        old(game).current_word_index != old(game).word_pool.len() - 1 ==> {
            &&& final(game).current_word_index == old(game).current_word_index + 1
            &&& res.0 is Ok
            &&& res.1@ == round_message(current_name(*final(game)), shown_word(*final(game)))
        },
{
    match game.next_round() {
        Ok(_) => {
            let message = announce_round(game);
            (Ok(()), message)
        },
        Err(err) => {
            let message = concat2("Error\t", err.as_str());
            (Err(Failure { status: Status::NotAcceptable, message: err }), message)
        },
    }
}

/// Records a definition while the game takes them, and gives the message that
/// shows it to the clients; otherwise refuses, leaving the game unchanged.
pub fn submit_definition(game: &mut Game, username: &str, definition: &str) -> (res: Result<String, Failure>)
    ensures
        old(game).wf() ==> final(game).wf(),
        !old(game).open_for_submissions ==> {
            &&& res matches Err(f) && f.status == Status::NotFound
                && f.message@ == "Lokað fyrir nýjar skýringar"@
            &&& *final(game) == *old(game)
        },
        old(game).open_for_submissions ==> {
            &&& res matches Ok(m) && m@ == definition_message(username@, definition@)
            &&& final(game).player_definitions@.len() == old(game).player_definitions@.len() + 1
            &&& final(game).player_definitions@.drop_last() == old(game).player_definitions@
            &&& final(game).player_definitions@.last().username@ == username@
            &&& final(game).player_definitions@.last().definition@ == definition@
            &&& *final(game) == (Game { player_definitions: final(game).player_definitions, ..*old(game) })
        },
{
    if !game.open_for_submissions {
        return Err(Failure { status: Status::NotFound, message: String::from_str("Lokað fyrir nýjar skýringar") });
    }
    game.add_definition(username, definition);
    Ok(concat4("Definition\t", username, "\t", definition))
}

/// Shows or hides the current word; gives the message that tells the clients.
pub fn set_word_visibility(game: &mut Game, word_is_visible: bool) -> (message: String)
    requires
        word_is_visible ==> old(game).current_word_index < old(game).word_pool.len(),
    ensures
        old(game).wf() ==> final(game).wf(),
        *final(game) == (Game { word_is_visible: word_is_visible, ..*old(game) }),
        word_is_visible ==> message@ == show_word_message(
            old(game).word_pool@[old(game).current_word_index as int].word@,
        ),
        !word_is_visible ==> message@ == "Hide word"@,
{
    game.word_is_visible = word_is_visible;
    if game.word_is_visible {
        let word = game.get_current_word();
        concat2("Show word\t", word.word.as_str())
    } else {
        String::from_str("Hide word")
    }
}

/// The players after each update of `updates` in turn gave its score to the
/// first player of its name.
pub open spec fn apply_scores(players: Seq<Player>, updates: Seq<Player>) -> Seq<Player>
    decreases updates.len(),
{
    if updates.len() == 0 {
        players
    } else {
        let before = apply_scores(players, updates.drop_last());
        scored(before, updates.last().name@, updates.last().points)
    }
}

/// Scores change no name, so which names are present stays the same.
pub proof fn lemma_apply_scores_names(players: Seq<Player>, updates: Seq<Player>)
    ensures
        apply_scores(players, updates).len() == players.len(),
        forall|k: int| 0 <= k < players.len()
            ==> #[trigger] apply_scores(players, updates)[k].name@ == players[k].name@,
        forall|m: Seq<char>| #[trigger] has_player(apply_scores(players, updates), m) == has_player(players, m),
    decreases updates.len(),
{
    if updates.len() > 0 {
        lemma_apply_scores_names(players, updates.drop_last());
        let before = apply_scores(players, updates.drop_last());
        lemma_scored_names(before, updates.last().name@, updates.last().points);
    }
}

/// Position `k` of `updates` is the first that names no player.
pub open spec fn first_unknown(players: Seq<Player>, updates: Seq<Player>, k: int) -> bool {
    &&& 0 <= k < updates.len()
    &&& !has_player(players, updates[k].name@)
    &&& forall|j: int| 0 <= j < k ==> has_player(players, #[trigger] updates[j].name@)
}

/// Every update names a player.
pub open spec fn all_known(players: Seq<Player>, updates: Seq<Player>) -> bool {
    forall|j: int| 0 <= j < updates.len() ==> has_player(players, #[trigger] updates[j].name@)
}

/// Gives each player of `updates`, in order, its score. At the first that
/// names no player of the game the request is refused, the scores given before
/// it staying given; otherwise gives the message with all the new scores.
pub fn update_scores(game: &mut Game, updates: &Vec<Player>) -> (res: Result<String, Failure>)
    ensures
        old(game).wf() ==> final(game).wf(),
        *final(game) == (Game { players: final(game).players, ..*old(game) }),
        all_known(old(game).players@, updates@) ==> {
            &&& res matches Ok(m) && m@ == scores_message(updates@)
            &&& final(game).players@ == apply_scores(old(game).players@, updates@)
        },
        !all_known(old(game).players@, updates@) ==> exists|k: int| {
            &&& #[trigger] first_unknown(old(game).players@, updates@, k)
            &&& res matches Err(f) && f.status == Status::NotFound
                && f.message@ == "No player with name "@ + updates@[k].name@
            &&& final(game).players@ == apply_scores(old(game).players@, updates@.take(k))
        },
{
    let mut i: usize = 0;
    assert(updates@.take(0) =~= Seq::<Player>::empty());
    while i < updates.len()
        invariant
            i <= updates.len(),
            *game == (Game { players: game.players, ..*old(game) }),
            game.players@ == apply_scores(old(game).players@, updates@.take(i as int)),
            forall|j: int| 0 <= j < i ==> has_player(old(game).players@, #[trigger] updates@[j].name@),
            old(game).wf() ==> game.wf(),
        decreases updates.len() - i,
    {
        proof {
            lemma_apply_scores_names(old(game).players@, updates@.take(i as int));
            assert(updates@.take(i + 1).drop_last() =~= updates@.take(i as int));
        }
        match game.update_player_score(updates[i].name.as_str(), updates[i].points) {
            Ok(_) => {},
            Err(err) => {
                assert(first_unknown(old(game).players@, updates@, i as int));
                return Err(Failure { status: Status::NotFound, message: err });
            },
        }
        i = i + 1;
    }
    assert(updates@.take(updates.len() as int) =~= updates@);
    let mut message = String::from_str("Scores\t");
    let mut k: usize = 0;
    proof {
        reveal_strlit("Scores\t");
    }
    assert(message@ =~= "Scores\t"@ + score_entries(updates@.take(0)));
    while k < updates.len()
        invariant
            k <= updates.len(),
            message@ == "Scores\t"@ + score_entries(updates@.take(k as int)),
        decreases updates.len() - k,
    {
        let ghost before = message@;
        let p = &updates[k];
        if k > 0 {
            message.append("\t");
        }
        message.append(p.name.as_str());
        message.append("\t");
        let points = decimal_text(p.points);
        message.append(points.as_str());
        proof {
            let s = updates@.take(k + 1);
            assert(s.drop_last() =~= updates@.take(k as int));
            assert(s.last() == updates@[k as int]);
            if k == 0 {
                assert(s.len() == 1);
                assert(message@ =~= "Scores\t"@ + score_entry(s[0]));
            } else {
                assert(message@ =~= "Scores\t"@ + score_entries(s.drop_last()) + "\t"@ + score_entry(s.last()));
            }
        }
        k = k + 1;
    }
    assert(updates@.take(updates.len() as int) =~= updates@);
    Ok(message)
}

/// What a player who joins a game learns of it.
pub struct JoinGameResponse {
    pub id: String,
    pub owner: String,
    pub players: Vec<Player>,
    pub current_player: String,
    pub player_definitions: Vec<Definition>,
    pub current_word: Word,
    pub joinable: bool,
    pub has_started: bool,
    pub open_for_submissions: bool,
}

/// Lets `username` join the game `id` while it takes new players and the name
/// is free, and gives what they learn of the game and the message announcing
/// them; the word is told only while it is shown, its definition never.
pub fn join_game(game: &mut Game, id: &str, username: &str) -> (res: Result<(JoinGameResponse, String), Failure>)
    requires
        old(game).word_is_visible ==> old(game).current_word_index < old(game).word_pool.len(),
        old(game).joinable && !has_player(old(game).players@, username@)
            ==> old(game).current_player_index <= old(game).players.len(),
    ensures
        old(game).wf() ==> final(game).wf(),
        !old(game).joinable ==> {
            &&& res matches Err(f) && f.status == Status::Forbidden && f.message@ == "Leikur lokaður"@
            &&& *final(game) == *old(game)
        },
        old(game).joinable && has_player(old(game).players@, username@) ==> {
            &&& res matches Err(f) && f.status == Status::NotAcceptable && f.message@ == "Name taken"@
            &&& *final(game) == *old(game)
        },
        old(game).joinable && !has_player(old(game).players@, username@) ==> {
            &&& final(game).players@.len() == old(game).players@.len() + 1
            &&& final(game).players@.drop_last() == old(game).players@
            &&& final(game).players@.last().name@ == username@
            &&& final(game).players@.last().points == 0
            &&& *final(game) == (Game { players: final(game).players, ..*old(game) })
            &&& res matches Ok((r, m)) && {
                &&& m@ == new_player_message(username@)
                &&& r.id@ == id@
                &&& r.owner@ == old(game).owner@
                &&& r.players@ == final(game).players@
                &&& r.current_player@ == current_name(*final(game))
                &&& r.player_definitions@ == old(game).player_definitions@
                &&& r.current_word.word@ == match shown_word(*old(game)) {
                    Some(w) => w,
                    None => Seq::<char>::empty(),
                }
                &&& r.current_word.definition@ == Seq::<char>::empty()
                &&& r.joinable && r.has_started == old(game).has_started
                &&& r.open_for_submissions == old(game).open_for_submissions
            }
        },
{
    let current_word = if game.word_is_visible {
        Word { word: game.get_current_word().word, definition: String::new() }
    } else {
        Word { word: String::new(), definition: String::new() }
    };
    if game.joinable {
        match game.add_player(username) {
            Ok(_) => {},
            Err(err) => return Err(Failure { status: Status::NotAcceptable, message: err }),
        }
        let response = JoinGameResponse {
            id: id.to_owned(),
            owner: game.owner.clone(),
            players: game.players.clone(),
            current_player: game.get_current_player(),
            player_definitions: game.player_definitions.clone(),
            current_word: current_word,
            joinable: game.joinable,
            has_started: game.has_started,
            open_for_submissions: game.open_for_submissions,
        };
        assert(response.players@ =~= game.players@);
        assert(response.player_definitions@ =~= game.player_definitions@);
        let message = concat2("New Player\t", username);
        return Ok((response, message));
    } else {
        return Err(Failure { status: Status::Forbidden, message: String::from_str("Leikur lokaður") });
    }
}

/// Whose turn it is once `quitter` has left `game`: the next player's if the
/// turn was the quitter's, and otherwise still the same player's.
pub open spec fn turn_after_leave(game: Game, quitter: Seq<char>) -> Seq<char> {
    if quitter == current_name(game) {
        game.players@[next_turn(game.current_player_index as int, game.players.len() as int)].name@
    } else {
        current_name(game)
    }
}

/// What the clients are told when `quitter` leaves `before`, which becomes
/// `after`: who left; who owns the game now, if the owner left; and the new
/// round, if the quitter had the turn and it could be passed on.
pub open spec fn leave_messages(before: Game, after: Game, quitter: Seq<char>) -> Seq<Seq<char>> {
    seq![quitter_message(quitter)] + (if quitter == before.owner@ {
        seq![new_owner_message(after.owner@)]
    } else {
        Seq::<Seq<char>>::empty()
    }) + (if quitter == current_name(before) && has_player(after.players@, turn_after_leave(before, quitter)) {
        seq![round_message(current_name(after), shown_word(after))]
    } else {
        Seq::<Seq<char>>::empty()
    })
}

/// In a well-formed game of two or more players, whoever leaves, the player
/// who is to have the turn afterwards is still there, someone other than the
/// quitter remains, and the remaining players keep distinct names with the
/// owner first unless the owner left.
pub proof fn lemma_leave_keeps_turn(game: Game, quitter: Seq<char>)
    requires
        game.wf(),
        game.players.len() >= 2,
    ensures
        has_player(without_player(game.players@, quitter), turn_after_leave(game, quitter)),
        exists|i: int| 0 <= i < game.players.len() && #[trigger] game.players@[i].name@ != quitter,
        names_distinct(without_player(game.players@, quitter)),
        quitter != game.owner@ ==> without_player(game.players@, quitter).len() > 0
            && without_player(game.players@, quitter)[0] == game.players@[0],
{
    let players = game.players@;
    let n = players.len() as int;
    let cur = game.current_player_index as int;
    let nxt = next_turn(cur, n);
    let keep = turn_after_leave(game, quitter);
    assert(players[0].name@ != players[1].name@);
    if players[0].name@ != quitter {
        assert(players[0].name@ != quitter);
    } else {
        assert(players[1].name@ != quitter);
    }
    if quitter == current_name(game) {
        assert(nxt != cur);
        assert(players[nxt].name@ != players[cur].name@);
        assert(has_player(players, keep));
    } else {
        assert(has_player(players, keep));
    }
    lemma_without_player_names(players, quitter, keep);
    lemma_without_player_distinct(players, quitter);
    if quitter != game.owner@ {
        lemma_without_player_first(players, quitter);
    }
}

/// What the clients are told when a player leaves a well-formed game of two or
/// more players (with `after` the game as `leave_game` leaves it): first who
/// left; then, if the owner left, who owns the game now, the first remaining
/// player; and if the quitter had the turn, last of all the new round, naming
/// the player who was next and the word if it is shown, whether or not the
/// quitter owned the game. Nothing else is sent.
pub proof fn lemma_leave_announces(before: Game, after: Game, quitter: Seq<char>)
    requires
        before.wf(),
        before.players.len() >= 2,
        after.players@ == without_player(before.players@, quitter),
        after.word_is_visible == before.word_is_visible,
        after.word_pool == before.word_pool,
        after.current_word_index == before.current_word_index,
        quitter == before.owner@ ==> after.owner@ == after.players@[0].name@,
        quitter == current_name(before) ==> first_named(
            after.players@,
            before.players@[next_turn(before.current_player_index as int, before.players.len() as int)].name@,
            after.current_player_index as int,
        ),
        quitter != current_name(before) ==> first_named(
            after.players@,
            current_name(before),
            after.current_player_index as int,
        ),
    ensures
        leave_messages(before, after, quitter)[0] == quitter_message(quitter),
        quitter == before.owner@ ==> leave_messages(before, after, quitter)[1]
            == new_owner_message(after.players@[0].name@),
        quitter == current_name(before) ==> {
            &&& leave_messages(before, after, quitter).len() == if quitter == before.owner@ { 3int } else { 2int }
            &&& leave_messages(before, after, quitter).last() == round_message(
                before.players@[next_turn(before.current_player_index as int, before.players.len() as int)].name@,
                if before.word_is_visible {
                    Some(before.word_pool@[before.current_word_index as int].word@)
                } else {
                    None
                },
            )
        },
        quitter != current_name(before) ==> leave_messages(before, after, quitter).len()
            == if quitter == before.owner@ { 2int } else { 1int },
{
    lemma_leave_keeps_turn(before, quitter);
    let m = leave_messages(before, after, quitter);
    if quitter == current_name(before) {
        assert(has_player(after.players@, turn_after_leave(before, quitter)));
        assert(current_name(after) == turn_after_leave(before, quitter));
    }
}

/// What follows when a player leaves a game.
pub enum LeaveOutcome {
    /// The last player left: the game ends.
    EndGame,
    /// The game goes on: the messages for its clients, in order, and the answer.
    Left(Vec<String>, Result<(), Failure>),
}

/// `quitter` leaves the game. When they are its last player the game ends.
/// Otherwise they are removed; if they owned the game, the first remaining
/// player owns it; the turn stays with whoever had it, or passes to the next
/// player if it was the quitter's. Should that player not be found, the request
/// is refused and the turn left as it was.
pub fn leave_game(game: &mut Game, quitter: &str) -> (outcome: LeaveOutcome)
    requires
        old(game).players.len() != 1 ==> old(game).current_player_index < old(game).players.len(),
        old(game).players.len() != 1 && quitter@ == old(game).owner@ ==> exists|i: int|
            0 <= i < old(game).players.len() && #[trigger] old(game).players@[i].name@ != quitter@,
        old(game).players.len() != 1 && quitter@ == current_name(*old(game))
            && old(game).players@[next_turn(
                old(game).current_player_index as int,
                old(game).players.len() as int,
            )].name@ != quitter@ && old(game).word_is_visible
            ==> old(game).current_word_index < old(game).word_pool.len(),
    ensures
        old(game).wf() ==> final(game).wf(),
        old(game).wf() && old(game).players.len() != 1
            ==> (outcome matches LeaveOutcome::Left(_, r) && r is Ok),
        old(game).players.len() == 1 ==> outcome is EndGame && *final(game) == *old(game),
        old(game).players.len() != 1 ==> {
            &&& final(game).players@ == without_player(old(game).players@, quitter@)
            &&& if quitter@ == old(game).owner@ {
                final(game).owner@ == final(game).players@[0].name@
            } else {
                final(game).owner == old(game).owner
            }
            &&& *final(game) == (Game {
                players: final(game).players,
                owner: final(game).owner,
                current_player_index: final(game).current_player_index,
                ..*old(game)
            })
            &&& outcome matches LeaveOutcome::Left(messages, r) && {
                &&& messages@.map_values(|m: String| m@) == leave_messages(*old(game), *final(game), quitter@)
                &&& has_player(final(game).players@, turn_after_leave(*old(game), quitter@)) ==> {
                    &&& r is Ok
                    &&& first_named(
                        final(game).players@,
                        turn_after_leave(*old(game), quitter@),
                        final(game).current_player_index as int,
                    )
                }
                &&& !has_player(final(game).players@, turn_after_leave(*old(game), quitter@)) ==> {
                    &&& r matches Err(f) && f.status == Status::NotFound
                        && f.message@ == "Fann ekki næsta leikmann"@
                    &&& final(game).current_player_index == old(game).current_player_index
                }
            }
        },
{
    if game.players.len() == 1 {
        return LeaveOutcome::EndGame;
    }
    proof {
        if old(game).wf() {
            lemma_leave_keeps_turn(*old(game), quitter@);
        }
    }
    let next_player_name = game.get_next_player();
    let current_player_name = game.get_current_player();
    game.remove_player(quitter);
    let ghost rest = game.players@;
    let mut messages: Vec<String> = Vec::new();
    messages.push(concat2("Quitter\t", quitter));
    let q = quitter.to_owned();
    if q == game.owner {
        proof {
            let i = choose|i: int|
                0 <= i < old(game).players.len() && #[trigger] old(game).players@[i].name@ != quitter@;
            old(game).players@.lemma_filter_contains(not_named(quitter@), i);
        }
        game.owner = game.players[0].name.clone();
        messages.push(concat2("New Owner\t", game.owner.as_str()));
    }
    let ghost sent = messages@.map_values(|m: String| m@);
    assert(sent =~= seq![quitter_message(quitter@)] + (if quitter@ == old(game).owner@ {
        seq![new_owner_message(game.owner@)]
    } else {
        Seq::<Seq<char>>::empty()
    }));
    if q == current_player_name {
        match position_of(&game.players, next_player_name.as_str()) {
            Some(i) => {
                proof {
                    lemma_without_player_names(old(game).players@, quitter@, next_player_name@);
                    assert(game.players@[i as int].name@ == next_player_name@);
                }
                game.current_player_index = i;
                messages.push(announce_round(game));
                assert(messages@.map_values(|m: String| m@) =~= leave_messages(*old(game), *game, quitter@));
            },
            None => {
                assert(messages@.map_values(|m: String| m@) =~= leave_messages(*old(game), *game, quitter@));
                return LeaveOutcome::Left(
                    messages,
                    Err(Failure { status: Status::NotFound, message: String::from_str("Fann ekki næsta leikmann") }),
                );
            },
        }
    } else {
        match position_of(&game.players, current_player_name.as_str()) {
            Some(i) => {
                game.current_player_index = i;
            },
            None => {
                assert(messages@.map_values(|m: String| m@) =~= leave_messages(*old(game), *game, quitter@));
                return LeaveOutcome::Left(
                    messages,
                    Err(Failure { status: Status::NotFound, message: String::from_str("Fann ekki næsta leikmann") }),
                );
            },
        }
        assert(messages@.map_values(|m: String| m@) =~= leave_messages(*old(game), *game, quitter@));
    }
    LeaveOutcome::Left(messages, Ok(()))
}

} // verus!
