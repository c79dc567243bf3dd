//! The state of one game: its players and their turns, the shuffled word pool
//! and the definitions submitted for the current word.
use vstd::prelude::*;
use rand::seq::SliceRandom;
use crate::utils::Word;

verus! {

#[verifier::external_type_specification]
#[verifier::external_body]
#[verifier::reject_recursive_types(T)]
pub struct ExBroadcastSender<T>(tokio::sync::broadcast::Sender<T>);

/// A player of a game and the points the host last gave them.
pub struct Player {
    pub name: String,
    pub points: i16,
}

impl Clone for Player {
    fn clone(&self) -> (res: Self)
        ensures
            res == *self,
    {
        Player { name: self.name.clone(), points: self.points }
    }
}

/// A definition a player submitted for the current word.
pub struct Definition {
    pub username: String,
    pub definition: String,
}

impl Clone for Definition {
    fn clone(&self) -> (res: Self)
        ensures
            res == *self,
    {
        Definition { username: self.username.clone(), definition: self.definition.clone() }
    }
}

/// Whether some player is called `name`.
pub open spec fn has_player(players: Seq<Player>, name: Seq<char>) -> bool {
    exists|i: int| 0 <= i < players.len() && #[trigger] players[i].name@ == name
}

/// `i` is the first position of a player called `name`.
pub open spec fn first_named(players: Seq<Player>, name: Seq<char>, i: int) -> bool {
    &&& 0 <= i < players.len()
    &&& players[i].name@ == name
    &&& forall|j: int| 0 <= j < i ==> #[trigger] players[j].name@ != name
}

/// The players after the first one called `name`, if any, got the score `points`.
pub open spec fn scored(players: Seq<Player>, name: Seq<char>, points: i16) -> Seq<Player> {
    if has_player(players, name) {
        let i = choose|i: int| first_named(players, name, i);
        players.update(i, Player { points: points, ..players[i] })
    } else {
        players
    }
}

/// There is only one first player of a name.
pub proof fn lemma_first_named_unique(players: Seq<Player>, name: Seq<char>, i: int, j: int)
    requires
        first_named(players, name, i),
        first_named(players, name, j),
    ensures
        i == j,
{
    if i < j {
        assert(players[i].name@ == name);
    } else if j < i {
        assert(players[j].name@ == name);
    }
}

/// Where a player has a name, there is a first player of that name.
pub proof fn lemma_first_named_exists(players: Seq<Player>, name: Seq<char>)
    requires
        has_player(players, name),
    ensures
        exists|i: int| first_named(players, name, i),
    decreases players.len(),
{
    let rest = players.drop_last();
    if has_player(rest, name) {
        lemma_first_named_exists(rest, name);
        let i = choose|i: int| first_named(rest, name, i);
        assert(rest[i] == players[i]);
        assert forall|j: int| 0 <= j < i implies #[trigger] players[j].name@ != name by {
            assert(rest[j] == players[j]);
        }
        assert(first_named(players, name, i));
    } else {
        let i = choose|i: int| 0 <= i < players.len() && #[trigger] players[i].name@ == name;
        if i < players.len() - 1 {
            assert(rest[i].name@ == name);
        }
        assert forall|j: int| 0 <= j < players.len() - 1 implies #[trigger] players[j].name@ != name by {
            assert(rest[j] == players[j]);
        }
        assert(first_named(players, name, players.len() - 1));
    }
}

/// Giving a score changes no name.
pub proof fn lemma_scored_names(players: Seq<Player>, name: Seq<char>, points: i16)
    ensures
        scored(players, name, points).len() == players.len(),
        forall|k: int| 0 <= k < players.len()
            ==> #[trigger] scored(players, name, points)[k].name@ == players[k].name@,
        forall|m: Seq<char>| #[trigger] has_player(scored(players, name, points), m) == has_player(players, m),
{
    let after = scored(players, name, points);
    if has_player(players, name) {
        lemma_first_named_exists(players, name);
    }
    assert(after.len() == players.len());
    assert forall|k: int| 0 <= k < players.len() implies #[trigger] after[k].name@ == players[k].name@ by {}
    assert forall|m: Seq<char>| #[trigger] has_player(after, m) == has_player(players, m) by {
        if has_player(players, m) {
            let i = choose|i: int| 0 <= i < players.len() && #[trigger] players[i].name@ == m;
            assert(after[i].name@ == m);
        }
        if has_player(after, m) {
            let i = choose|i: int| 0 <= i < after.len() && #[trigger] after[i].name@ == m;
            assert(players[i].name@ == m);
        }
    }
}

/// No two players share a name.
pub open spec fn names_distinct(players: Seq<Player>) -> bool {
    forall|i: int, j: int|
        0 <= i < players.len() && 0 <= j < players.len() && i != j
            ==> #[trigger] players[i].name@ != #[trigger] players[j].name@
}

/// The players without those called `name`, the others in their order.
pub open spec fn without_player(players: Seq<Player>, name: Seq<char>) -> Seq<Player> {
    players.filter(not_named(name))
}

/// Holds of the players not called `name`.
pub open spec fn not_named(name: Seq<char>) -> spec_fn(Player) -> bool {
    |p: Player| p.name@ != name
}

/// The turn that follows turn `i` among `n` players: the next one, and after
/// the last the first again.
pub open spec fn next_turn(i: int, n: int) -> int {
    if i == n - 1 {
        0
    } else {
        i + 1
    }
}

/// Calls `tokio::sync::broadcast::channel` and keeps its sending half; the
/// receiving half is dropped, since clients subscribe to the sender. tokio panics for a capacity
/// of zero or above `usize::MAX / 2`, which `requires` leaves out. Nothing is
/// stated of the channel: the library only hands it on.
#[verifier::external_body]
fn broadcast_sender(capacity: usize) -> (tx: tokio::sync::broadcast::Sender<String>)
    requires
        0 < capacity <= usize::MAX / 2,
{
    tokio::sync::broadcast::channel(capacity).0
}

/// Calls rand's `SliceRandom::shuffle` with the thread's generator. As rand's
/// source shows, it only swaps elements, so the result holds the same words as
/// before, each as often; their order is up to chance. It may panic where the
/// thread's generator cannot be seeded by the system, which is not stated.
#[verifier::external_body]
fn shuffle_words(words: &mut Vec<Word>)
    ensures
        final(words)@.to_multiset() == old(words)@.to_multiset(),
{
    words.shuffle(&mut rand::rng());
}

/// The position of the first player called `name`, if there is one.
pub fn position_of(players: &Vec<Player>, name: &str) -> (pos: Option<usize>)
    ensures
        match pos {
            Some(i) => first_named(players@, name@, i as int),
            None => !has_player(players@, name@),
        },
{
    let target = name.to_owned();
    let mut i: usize = 0;
    while i < players.len()
        invariant
            i <= players.len(),
            target@ == name@,
            forall|j: int| 0 <= j < i ==> #[trigger] players@[j].name@ != name@,
        decreases players.len() - i,
    {
        if players[i].name == target {
            return Some(i);
        }
        i = i + 1;
    }
    None
}

/// Removing the players called `name` keeps every other name present, and adds none.
pub proof fn lemma_without_player_names(players: Seq<Player>, name: Seq<char>, m: Seq<char>)
    ensures
        has_player(without_player(players, name), m) ==> has_player(players, m),
        m != name ==> (has_player(without_player(players, name), m) == has_player(players, m)),
        !has_player(without_player(players, name), name),
    decreases players.len(),
{
    reveal(Seq::filter);
    let rest = without_player(players, name);
    if players.len() > 0 {
        let shorter = players.drop_last();
        lemma_without_player_names(shorter, name, m);
        let before = without_player(shorter, name);
        assert(rest == if not_named(name)(players.last()) {
            before.push(players.last())
        } else {
            before
        });
        if has_player(rest, m) {
            let i = choose|i: int| 0 <= i < rest.len() && #[trigger] rest[i].name@ == m;
            if i < before.len() {
                assert(before[i].name@ == m);
                let k = choose|k: int| 0 <= k < shorter.len() && #[trigger] shorter[k].name@ == m;
                assert(players[k].name@ == m);
            } else {
                assert(players[players.len() - 1].name@ == m);
            }
        }
        if m != name && has_player(players, m) {
            let k = choose|k: int| 0 <= k < players.len() && #[trigger] players[k].name@ == m;
            if k < players.len() - 1 {
                assert(shorter[k].name@ == m);
                let i = choose|i: int| 0 <= i < before.len() && #[trigger] before[i].name@ == m;
                assert(rest[i].name@ == m);
            } else {
                assert(rest[rest.len() - 1].name@ == m);
            }
        }
        if has_player(rest, name) {
            let i = choose|i: int| 0 <= i < rest.len() && #[trigger] rest[i].name@ == name;
            if i < before.len() {
                assert(before[i].name@ == name);
            }
        }
    } else {
        assert(rest.len() == 0);
    }
}

/// Removing players keeps the names of the others distinct.
pub proof fn lemma_without_player_distinct(players: Seq<Player>, name: Seq<char>)
    requires
        names_distinct(players),
    ensures
        names_distinct(without_player(players, name)),
    decreases players.len(),
{
    reveal(Seq::filter);
    if players.len() > 0 {
        let shorter = players.drop_last();
        assert(names_distinct(shorter)) by {
            assert forall|i: int, j: int|
                0 <= i < shorter.len() && 0 <= j < shorter.len() && i != j
                implies #[trigger] shorter[i].name@ != #[trigger] shorter[j].name@ by {
                assert(players[i].name@ != players[j].name@);
            }
        }
        lemma_without_player_distinct(shorter, name);
        let before = without_player(shorter, name);
        let last = players.last();
        if not_named(name)(last) {
            lemma_without_player_names(shorter, name, last.name@);
            if has_player(shorter, last.name@) {
                let k = choose|k: int| 0 <= k < shorter.len() && #[trigger] shorter[k].name@ == last.name@;
                assert(players[k].name@ == players[players.len() - 1].name@);
            }
            let rest = before.push(last);
            assert forall|i: int, j: int|
                0 <= i < rest.len() && 0 <= j < rest.len() && i != j
                implies #[trigger] rest[i].name@ != #[trigger] rest[j].name@ by {
                if i == rest.len() - 1 {
                    assert(before[j].name@ == rest[j].name@);
                } else if j == rest.len() - 1 {
                    assert(before[i].name@ == rest[i].name@);
                } else {
                    assert(before[i].name@ != before[j].name@);
                }
            }
        }
    }
}

/// When the first player is not called `name`, removing the players called
/// `name` leaves them first.
pub proof fn lemma_without_player_first(players: Seq<Player>, name: Seq<char>)
    requires
        players.len() > 0,
        players[0].name@ != name,
    ensures
        without_player(players, name).len() > 0,
        without_player(players, name)[0] == players[0],
    decreases players.len(),
{
    reveal(Seq::filter);
    let shorter = players.drop_last();
    if players.len() == 1 {
        assert(shorter.len() == 0);
        assert(without_player(shorter, name).len() == 0);
    } else {
        assert(shorter[0] == players[0]);
        lemma_without_player_first(shorter, name);
    }
}

/// The turn `k` rounds after turn `i` among `n` players.
pub open spec fn turn_after(i: int, n: int, k: nat) -> int
    decreases k,
{
    if k == 0 {
        i
    } else {
        next_turn(turn_after(i, n, (k - 1) as nat), n)
    }
}

/// Rounds go around the players in order: `k` rounds after player `i` (for no
/// more rounds than there are players) the turn is player `i + k`'s, counted
/// around the table; so after as many rounds as players it is back with `i`,
/// and from the first player each player has one turn in that many rounds.
pub proof fn lemma_turns_cycle(n: int, i: int, k: nat)
    requires
        0 <= i < n,
        k <= n,
    ensures
        i + k < n ==> turn_after(i, n, k) == i + k,
        i + k >= n ==> turn_after(i, n, k) == i + k - n,
    decreases k,
{
    if k > 0 {
        lemma_turns_cycle(n, i, (k - 1) as nat);
    }
}

/// Once a player has joined under a name that name is taken, so joining
/// under it again is refused; every name present before is still present.
pub proof fn lemma_joined_name_taken(before: Seq<Player>, after: Seq<Player>, name: Seq<char>)
    requires
        after.len() == before.len() + 1,
        after.drop_last() == before,
        after.last().name@ == name,
    ensures
        has_player(after, name),
        forall|m: Seq<char>| has_player(before, m) ==> #[trigger] has_player(after, m),
{
    assert(after[after.len() - 1].name@ == name);
    assert forall|m: Seq<char>| has_player(before, m) implies #[trigger] has_player(after, m) by {
        let i = choose|i: int| 0 <= i < before.len() && #[trigger] before[i].name@ == m;
        assert(after[i] == before[i]);
    }
}

/// After a score is given to a name that a player has, the first player of
/// that name has the score and every other player is as before; where names
/// are distinct, that is every player of the name.
pub proof fn lemma_score_read_back(players: Seq<Player>, name: Seq<char>, points: i16)
    requires
        has_player(players, name),
    ensures
        exists|i: int| {
            &&& #[trigger] first_named(players, name, i)
            &&& scored(players, name, points)[i].points == points
            &&& scored(players, name, points)[i].name@ == name
            &&& forall|j: int| 0 <= j < players.len() && j != i
                ==> #[trigger] scored(players, name, points)[j] == players[j]
        },
        names_distinct(players) ==> forall|j: int|
            0 <= j < players.len() && #[trigger] scored(players, name, points)[j].name@ == name
                ==> scored(players, name, points)[j].points == points,
{
    lemma_first_named_exists(players, name);
    let i = choose|i: int| first_named(players, name, i);
    let after = scored(players, name, points);
    assert(first_named(players, name, i));
    if names_distinct(players) {
        assert forall|j: int| 0 <= j < players.len() && #[trigger] after[j].name@ == name
            implies after[j].points == points by {
            if j != i {
                assert(players[j].name@ != players[i].name@);
            }
        }
    }
}

/// One game, its players and its word pool. The channel `tx` carries the
/// messages that the game's clients receive.
pub struct Game {
    pub owner: String,
    pub players: Vec<Player>,
    /// Position in `players` of the player whose turn it is.
    pub current_player_index: usize,
    pub word_pool: Vec<Word>,
    /// Position in `word_pool` of the current word.
    pub current_word_index: usize,
    pub has_started: bool,
    pub open_for_submissions: bool,
    pub joinable: bool,
    pub word_is_visible: bool,
    pub player_definitions: Vec<Definition>,
    /// When the game was last used, in seconds since the Unix epoch.
    pub time_of_last_activity: u64,
    pub tx: tokio::sync::broadcast::Sender<String>,
}

impl Game {
    /// The state every operation of a game keeps: there is a player, the owner
    /// comes first, no two players share a name, and the turn and the current
    /// word point into their lists (or the word pool is empty).
    pub open spec fn wf(&self) -> bool {
        &&& self.players.len() > 0
        &&& self.owner@ == self.players@[0].name@
        &&& names_distinct(self.players@)
        &&& self.current_player_index < self.players.len()
        &&& (self.current_word_index < self.word_pool.len() || (self.word_pool.len() == 0
            && self.current_word_index == 0))
    }

    /// A game owned by `owner_name` that draws its words from `word_pool` in the
    /// order given: the owner is its only player, with no points, and has the
    /// first turn; the first word is current; the game has not started, is open
    /// to new players and to submissions, and the word is hidden.
    pub fn with_word_pool(owner_name: &str, word_pool: Vec<Word>) -> (game: Game)
        ensures
            game.wf(),
            game.owner@ == owner_name@,
            game.players@.len() == 1,
            game.players@[0].name@ == owner_name@,
            game.players@[0].points == 0,
            game.current_player_index == 0,
            game.word_pool@ == word_pool@,
            game.current_word_index == 0,
            !game.has_started,
            game.open_for_submissions,
            game.joinable,
            !game.word_is_visible,
            game.player_definitions@.len() == 0,
            game.time_of_last_activity == 0,
    {
        let tx = broadcast_sender(16);
        let mut players: Vec<Player> = Vec::new();
        players.push(Player { name: owner_name.to_owned(), points: 0 });
        Game {
            owner: owner_name.to_owned(),
            players,
            current_player_index: 0,
            word_pool,
            current_word_index: 0,
            has_started: false,
            open_for_submissions: true,
            joinable: true,
            word_is_visible: false,
            player_definitions: Vec::new(),
            time_of_last_activity: 0,
            tx,
        }
    }

    /// A new game owned by `owner_name` over the words `words` in a random
    /// order; otherwise as `with_word_pool`.
    pub fn new(owner_name: &str, words: &Vec<Word>) -> (game: Game)
        ensures
            game.wf(),
            game.owner@ == owner_name@,
            game.players@.len() == 1,
            game.players@[0].name@ == owner_name@,
            game.players@[0].points == 0,
            game.current_player_index == 0,
            game.word_pool@.to_multiset() == words@.to_multiset(),
            game.current_word_index == 0,
            !game.has_started,
            game.open_for_submissions,
            game.joinable,
            !game.word_is_visible,
            game.player_definitions@.len() == 0,
            game.time_of_last_activity == 0,
    {
        let mut word_pool = words.clone();
        assert(word_pool@ =~= words@);
        shuffle_words(&mut word_pool);
        Self::with_word_pool(owner_name, word_pool)
    }

    /// Lets `name` join the game with no points, unless a player of that name
    /// is already in it: then the game is unchanged and the answer is "Name taken".
    pub fn add_player(&mut self, name: &str) -> (res: Result<(), String>)
        ensures
            res is Ok <==> !has_player(old(self).players@, name@),
            res matches Err(e) ==> e@ == "Name taken"@ && *final(self) == *old(self),
            res is Ok ==> {
                &&& final(self).players@.len() == old(self).players@.len() + 1
                &&& final(self).players@.drop_last() == old(self).players@
                &&& final(self).players@.last().name@ == name@
                &&& final(self).players@.last().points == 0
                &&& *final(self) == (Game { players: final(self).players, ..*old(self) })
            },
            old(self).wf() ==> final(self).wf(),
    {
        let target = name.to_owned();
        let mut i: usize = 0;
        while i < self.players.len()
            invariant
                i <= self.players.len(),
                target@ == name@,
                forall|j: int| 0 <= j < i ==> #[trigger] self.players@[j].name@ != name@,
            decreases self.players.len() - i,
        {
            if self.players[i].name == target {
                return Err(String::from_str("Name taken"));
            }
            i = i + 1;
        }
        let ghost before = self.players@;
        self.players.push(Player { name: target, points: 0 });
        assert(self.players@.drop_last() =~= before);
        Ok(())
    }

    /// Passes the turn to the next player (after the last, to the first), then
    /// moves to the next word; when the current word is the last one, the word
    /// stays and the answer is "No more words", though the turn has passed.
    pub fn next_round(&mut self) -> (res: Result<(), String>)
        requires
            old(self).players.len() > 0,
            old(self).word_pool.len() > 0,
            old(self).current_player_index == old(self).players.len() - 1
                || old(self).current_player_index < usize::MAX,
            old(self).current_word_index == old(self).word_pool.len() - 1
                || old(self).current_word_index < usize::MAX,
        ensures
            final(self).current_player_index == next_turn(
                old(self).current_player_index as int,
                old(self).players.len() as int,
            ),
            old(self).current_word_index == old(self).word_pool.len() - 1 ==> {
                &&& res matches Err(e) && e@ == "No more words"@
                &&& final(self).current_word_index == old(self).current_word_index
            },
            old(self).current_word_index != old(self).word_pool.len() - 1 ==> {
                &&& res is Ok
                &&& final(self).current_word_index == old(self).current_word_index + 1
            },
            *final(self) == (Game {
                current_player_index: final(self).current_player_index,
                current_word_index: final(self).current_word_index,
                ..*old(self)
            }),
            old(self).wf() ==> final(self).wf(),
    {
        if self.current_player_index == self.players.len() - 1 {
            self.current_player_index = 0;
        } else {
            self.current_player_index = self.current_player_index + 1;
        }
        if self.current_word_index == self.word_pool.len() - 1 {
            return Err(String::from_str("No more words"));
        } else {
            self.current_word_index = self.current_word_index + 1;
        }
        Ok(())
    }

    /// Gives the first player called `name` the score `points`; when there is
    /// no such player the game is unchanged and the answer names the one missing.
    pub fn update_player_score(&mut self, name: &str, points: i16) -> (res: Result<(), String>)
        ensures
            res is Ok <==> has_player(old(self).players@, name@),
            res matches Err(e) ==> e@ == "No player with name "@ + name@ && *final(self) == *old(self),
            final(self).players@ == scored(old(self).players@, name@, points),
            *final(self) == (Game { players: final(self).players, ..*old(self) }),
            old(self).wf() ==> final(self).wf(),
    {
        let target = name.to_owned();
        let mut i: usize = 0;
        while i < self.players.len()
            invariant
                i <= self.players.len(),
                target@ == name@,
                *self == *old(self),
                forall|j: int| 0 <= j < i ==> #[trigger] self.players@[j].name@ != name@,
            decreases self.players.len() - i,
        {
            if self.players[i].name == target {
                let updated = Player { name: self.players[i].name.clone(), points };
                self.players.set(i, updated);
                assert(first_named(old(self).players@, name@, i as int));
                proof {
                    let k = choose|k: int| first_named(old(self).players@, name@, k);
                    lemma_first_named_unique(old(self).players@, name@, i as int, k);
                }
                assert(self.players@ =~= scored(old(self).players@, name@, points));
                return Ok(());
            }
            i = i + 1;
        }
        let mut message = String::from_str("No player with name ");
        message.append(name);
        Err(message)
    }

    /// The name of the player whose turn it is.
    pub fn get_current_player(&self) -> (name: String)
        requires
            self.current_player_index < self.players.len(),
        ensures
            name@ == self.players@[self.current_player_index as int].name@,
    {
        let current_player = &self.players[self.current_player_index];
        return current_player.name.clone();
    }

    /// The current word.
    pub fn get_current_word(&self) -> (word: Word)
        requires
            self.current_word_index < self.word_pool.len(),
        ensures
            word == self.word_pool@[self.current_word_index as int],
    {
        return self.word_pool[self.current_word_index].clone();
    }

    /// Moves to the next word and gives it; when the current word is the last
    /// one, the game is unchanged and the answer is "No more words".
    pub fn next_word(&mut self) -> (res: Result<Word, String>)
        requires
            old(self).current_word_index < old(self).word_pool.len(),
        ensures
            old(self).current_word_index == old(self).word_pool.len() - 1 ==> {
                &&& res matches Err(e) && e@ == "No more words"@
                &&& *final(self) == *old(self)
            },
            old(self).current_word_index != old(self).word_pool.len() - 1 ==> {
                &&& res matches Ok(w) && w == old(self).word_pool@[old(self).current_word_index + 1]
                &&& *final(self) == (Game {
                    current_word_index: (old(self).current_word_index + 1) as usize,
                    ..*old(self)
                })
            },
            old(self).wf() ==> final(self).wf(),
    {
        if self.current_word_index == self.word_pool.len() - 1 {
            return Err(String::from_str("No more words"));
        } else {
            self.current_word_index = self.current_word_index + 1;
            return Ok(self.get_current_word());
        }
    }

    /// Marks the game as started.
    pub fn start_game(&mut self)
        ensures
            *final(self) == (Game { has_started: true, ..*old(self) }),
            old(self).wf() ==> final(self).wf(),
    {
        self.has_started = true;
    }

    /// Records the definition `definition` that `username` submitted.
    pub fn add_definition(&mut self, username: &str, definition: &str)
        ensures
            final(self).player_definitions@.len() == old(self).player_definitions@.len() + 1,
            final(self).player_definitions@.drop_last() == old(self).player_definitions@,
            final(self).player_definitions@.last().username@ == username@,
            final(self).player_definitions@.last().definition@ == definition@,
            *final(self) == (Game { player_definitions: final(self).player_definitions, ..*old(self) }),
            old(self).wf() ==> final(self).wf(),
    {
        let ghost before = self.player_definitions@;
        self.player_definitions.push(
            Definition { username: username.to_owned(), definition: definition.to_owned() },
        );
        assert(self.player_definitions@.drop_last() =~= before);
    }

    /// The name of the player whose turn comes next.
    pub fn get_next_player(&self) -> (name: String)
        requires
            self.current_player_index < self.players.len(),
        ensures
            name@ == self.players@[next_turn(
                self.current_player_index as int,
                self.players.len() as int,
            )].name@,
    {
        let next = if self.current_player_index == self.players.len() - 1 {
            0
        } else {
            self.current_player_index + 1
        };
        self.players[next].name.clone()
    }

    /// Removes every player called `name`; the others keep their order.
    pub fn remove_player(&mut self, name: &str)
        ensures
            final(self).players@ == without_player(old(self).players@, name@),
            *final(self) == (Game { players: final(self).players, ..*old(self) }),
    {
        let target = name.to_owned();
        let mut kept: Vec<Player> = Vec::new();
        let mut i: usize = 0;
        assert(self.players@.take(0) =~= Seq::<Player>::empty());
        proof {
            reveal(Seq::filter);
        }
        assert(without_player(Seq::<Player>::empty(), name@) =~= Seq::<Player>::empty());
        while i < self.players.len()
            invariant
                i <= self.players.len(),
                target@ == name@,
                kept@ == without_player(self.players@.take(i as int), name@),
            decreases self.players.len() - i,
        {
            proof {
                self.players@.take(i as int).lemma_filter_push(self.players@[i as int], not_named(name@));
                assert(self.players@.take(i + 1) =~= self.players@.take(i as int).push(
                    self.players@[i as int],
                ));
            }
            if self.players[i].name != target {
                kept.push(self.players[i].clone());
            }
            i = i + 1;
        }
        assert(self.players@.take(self.players.len() as int) =~= self.players@);
        self.players = kept;
    }

    /// Records `now` as the time of the last activity.
    pub fn update_timestamp(&mut self, now: u64)
        ensures
            *final(self) == (Game { time_of_last_activity: now, ..*old(self) }),
            old(self).wf() ==> final(self).wf(),
    {
        self.time_of_last_activity = now;
    }

    /// Whether the game was used within the hour before `now`.
    pub fn recently_active(&self, now: u64) -> (active: bool)
        requires
            self.time_of_last_activity <= now,
        ensures
            active == (now - self.time_of_last_activity < 3600),
    {
        now - self.time_of_last_activity < 3600
    }
}

} // verus!
