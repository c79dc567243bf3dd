//! The word list the game draws from, and the codes that name games.
use vstd::prelude::*;
use rand::seq::IndexedRandom;
use crate::text::{split_fields, split_on, lemma_split_joined, joined_fields, lemma_split_joined_fields};

verus! {

/// A word of the game together with the definition that belongs to it.
pub struct Word {
    pub word: String,
    pub definition: String,
}

impl View for Word {
    type V = (Seq<char>, Seq<char>);

    open spec fn view(&self) -> (Seq<char>, Seq<char>) {
        (self.word@, self.definition@)
    }
}

impl Clone for Word {
    fn clone(&self) -> (res: Self)
        ensures
            res == *self,
    {
        Word { word: self.word.clone(), definition: self.definition.clone() }
    }
}

impl Word {
    /// A word whose text and definition are both empty.
    pub fn empty() -> (w: Word)
        ensures
            w.word@ == Seq::<char>::empty(),
            w.definition@ == Seq::<char>::empty(),
    {
        return Word { word: String::new(), definition: String::new() };
    }
}

/// The word and definition that a line of the word list holds: its first two
/// tab-separated fields, or nothing when the line has no tab.
pub open spec fn line_word(line: Seq<char>) -> Option<(Seq<char>, Seq<char>)> {
    let fields = split_fields(line, '\t');
    if fields.len() > 1 {
        Some((fields[0], fields[1]))
    } else {
        None
    }
}

/// The words of a word list, one for each line that holds a tab, in order.
pub open spec fn list_words(lines: Seq<Seq<char>>) -> Seq<(Seq<char>, Seq<char>)>
    decreases lines.len(),
{
    if lines.len() == 0 {
        Seq::empty()
    } else {
        let words = list_words(lines.drop_last());
        match line_word(lines.last()) {
            Some(w) => words.push(w),
            None => words,
        }
    }
}

/// A line written as a word, a tab and a definition, neither holding a tab,
/// reads back as that word and definition.
pub proof fn lemma_line_word_roundtrip(word: Seq<char>, definition: Seq<char>)
    requires
        !word.contains('\t'),
        !definition.contains('\t'),
    ensures
        line_word(word.push('\t') + definition) == Some((word, definition)),
{
    lemma_split_joined(word, '\t', definition);
}

/// The words of a word list are those of each line on its own, in order: the
/// words of two lists one after the other are the words of the first followed
/// by those of the second, and a single line gives its word, or none when it
/// holds no tab.
pub proof fn lemma_list_words_by_line(xs: Seq<Seq<char>>, ys: Seq<Seq<char>>)
    ensures
        list_words(xs + ys) == list_words(xs) + list_words(ys),
        forall|l: Seq<char>| #[trigger] list_words(seq![l]) == match line_word(l) {
            Some(w) => seq![w],
            None => Seq::<(Seq<char>, Seq<char>)>::empty(),
        },
    decreases ys.len(),
{
    assert forall|l: Seq<char>| #[trigger] list_words(seq![l]) == match line_word(l) {
        Some(w) => seq![w],
        None => Seq::<(Seq<char>, Seq<char>)>::empty(),
    } by {
        assert(seq![l].drop_last() =~= Seq::<Seq<char>>::empty());
        assert(list_words(seq![l].drop_last()) == Seq::<(Seq<char>, Seq<char>)>::empty());
        assert(Seq::<(Seq<char>, Seq<char>)>::empty().push((Seq::<char>::empty(), Seq::<char>::empty())).len() == 1);
        match line_word(l) {
            Some(w) => {
                assert(Seq::<(Seq<char>, Seq<char>)>::empty().push(w) =~= seq![w]);
            },
            None => {},
        }
    }
    if ys.len() == 0 {
        assert(xs + ys =~= xs);
        assert(list_words(xs) + list_words(ys) =~= list_words(xs));
    } else {
        lemma_list_words_by_line(xs, ys.drop_last());
        assert((xs + ys).drop_last() =~= xs + ys.drop_last());
        assert((xs + ys).last() == ys.last());
        match line_word(ys.last()) {
            Some(w) => {
                assert((list_words(xs) + list_words(ys.drop_last())).push(w)
                    =~= list_words(xs) + list_words(ys.drop_last()).push(w));
            },
            None => {},
        }
    }
}

/// A line of tab-separated fields, none holding a tab, reads as its first
/// field for the word and its second for the definition, when it has two or
/// more fields; with a single field it gives no word.
pub proof fn lemma_line_word_fields(fields: Seq<Seq<char>>)
    requires
        fields.len() >= 1,
        forall|i: int| 0 <= i < fields.len() ==> !(#[trigger] fields[i]).contains('\t'),
    ensures
        fields.len() >= 2 ==> line_word(joined_fields(fields, '\t')) == Some((fields[0], fields[1])),
        fields.len() == 1 ==> line_word(joined_fields(fields, '\t')) is None,
{
    lemma_split_joined_fields(fields, '\t');
}

/// Reads one line of the word list.
pub fn parse_line(line: &str) -> (w: Option<Word>)
    ensures
        match w {
            Some(w) => line_word(line@) == Some(w@),
            None => line_word(line@) is None,
        },
{
    let fields = split_on(line, '\t');
    assert(fields@.map_values(|f: String| f@).len() == fields@.len());
    if fields.len() > 1 {
        let word = fields[0].clone();
        let definition = fields[1].clone();
        assert(fields@.map_values(|f: String| f@)[0] == fields@[0]@);
        assert(fields@.map_values(|f: String| f@)[1] == fields@[1]@);
        Some(Word { word, definition })
    } else {
        None
    }
}

/// Reads the word list from its lines: each line that holds a tab gives the
/// word before the first tab and the definition after it, up to the next tab.
pub fn words_from_lines(lines: &Vec<String>) -> (words: Vec<Word>)
    ensures
        words@.map_values(|w: Word| w@) == list_words(lines@.map_values(|l: String| l@)),
{
    let mut words: Vec<Word> = Vec::new();
    let mut i: usize = 0;
    assert(lines@.map_values(|l: String| l@).take(0) =~= Seq::<Seq<char>>::empty());
    while i < lines.len()
        invariant
            i <= lines.len(),
            words@.map_values(|w: Word| w@) == list_words(lines@.map_values(|l: String| l@).take(i as int)),
        decreases lines.len() - i,
    {
        let ghost all = lines@.map_values(|l: String| l@);
        let ghost before = words@.map_values(|w: Word| w@);
        assert(all.take(i + 1).drop_last() =~= all.take(i as int));
        assert(all.take(i + 1).last() == lines@[i as int]@);
        match parse_line(lines[i].as_str()) {
            Some(w) => {
                words.push(w);
                assert(words@.map_values(|w: Word| w@) =~= before.push(w@));
            },
            None => {},
        }
        i = i + 1;
    }
    assert(lines@.map_values(|l: String| l@).take(lines.len() as int) =~= lines@.map_values(|l: String| l@));
    words
}

/// The characters a game code is made of: the capital letters A to Z and the digits.
pub open spec fn code_alphabet() -> Seq<char> {
    seq![
        'A', 'B', 'C', 'D', 'E', 'F', 'G', 'H', 'I', 'J', 'K', 'L', 'M',
        'N', 'O', 'P', 'Q', 'R', 'S', 'T', 'U', 'V', 'W', 'X', 'Y', 'Z',
        '0', '1', '2', '3', '4', '5', '6', '7', '8', '9',
    ]
}

/// Calls `IndexedRandom::choose` of rand with the thread's generator. As rand's
/// source shows, it gives `None` exactly for an empty slice and otherwise one of
/// its elements; which one is up to chance. It may panic where the thread's
/// generator cannot be seeded by the system, which is not stated.
#[verifier::external_body]
fn choose_char(chars: &Vec<char>) -> (c: Option<char>)
    ensures
        c is Some <==> chars@.len() > 0,
        c matches Some(x) ==> chars@.contains(x),
{
    chars.choose(&mut rand::rng()).copied()
}

/// Calls `char::to_string`: a char is displayed as itself.
#[verifier::external_body]
fn char_text(c: char) -> (s: String)
    ensures
        s@ == seq![c],
{
    c.to_string()
}

/// A fresh game code: six characters drawn at random from `code_alphabet`.
pub fn generate_code() -> (code: String)
    ensures
        code@.len() == 6,
        forall|i: int| 0 <= i < 6 ==> code_alphabet().contains(#[trigger] code@[i]),
{
    let chars: Vec<char> = vec![
        'A', 'B', 'C', 'D', 'E', 'F', 'G', 'H', 'I', 'J', 'K', 'L', 'M',
        'N', 'O', 'P', 'Q', 'R', 'S', 'T', 'U', 'V', 'W', 'X', 'Y', 'Z',
        '0', '1', '2', '3', '4', '5', '6', '7', '8', '9',
    ];
    assert(chars@ =~= code_alphabet());
    let mut code = String::new();
    let mut count: usize = 0;
    while count < 6
        invariant
            chars@ == code_alphabet(),
            count <= 6,
            code@.len() == count,
            forall|i: int| 0 <= i < count ==> code_alphabet().contains(#[trigger] code@[i]),
        decreases 6 - count,
    {
        match choose_char(&chars) {
            Some(c) => {
                let ghost before = code@;
                code.append(char_text(c).as_str());
                assert(code@ =~= before.push(c));
                count = count + 1;
            },
            None => {},
        }
    }
    code
}

} // verus!
