//! The logic of a word-definition party game: a host opens a game, players
//! join it, take turns, submit definitions for a word and get scores.
//!
//! The crate root holds the word list in its full form, where a word may carry
//! several definitions; `utils` holds the single-definition form the game uses.
pub mod game;
pub mod middleware;
pub mod server;
pub mod text;
pub mod utils;

use vstd::prelude::*;
use crate::text::{
    split_fields, split_on, trim, trimmed, lemma_split_joined, joined_fields, lemma_split_joined_fields,
};

verus! {

/// A word of the word list with every definition given for it.
pub struct Word {
    pub word: String,
    pub definitions: Vec<String>,
}

impl View for Word {
    type V = (Seq<char>, Seq<Seq<char>>);

    open spec fn view(&self) -> (Seq<char>, Seq<Seq<char>>) {
        (self.word@, self.definitions@.map_values(|d: String| d@))
    }
}

/// What a line of the word list holds: the word before its first tab, and each
/// later tab-separated field, trimmed of white space, as a definition; nothing
/// when the line has no tab.
pub open spec fn line_entry(line: Seq<char>) -> Option<(Seq<char>, Seq<Seq<char>>)> {
    let fields = split_fields(line, '\t');
    if fields.len() > 1 {
        Some((fields[0], fields.skip(1).map_values(|d: Seq<char>| trimmed(d))))
    } else {
        None
    }
}

/// The entries of a word list, one for each line that holds a tab, in order.
pub open spec fn list_entries(lines: Seq<Seq<char>>) -> Seq<(Seq<char>, Seq<Seq<char>>)>
    decreases lines.len(),
{
    if lines.len() == 0 {
        Seq::empty()
    } else {
        let entries = list_entries(lines.drop_last());
        match line_entry(lines.last()) {
            Some(e) => entries.push(e),
            None => entries,
        }
    }
}

/// A line written as a word, a tab and a definition, neither holding a tab,
/// reads back as that word with the definition, trimmed, as its only one.
pub proof fn lemma_line_entry_roundtrip(word: Seq<char>, definition: Seq<char>)
    requires
        !word.contains('\t'),
        !definition.contains('\t'),
    ensures
        line_entry(word.push('\t') + definition) == Some((word, seq![trimmed(definition)])),
{
    lemma_split_joined(word, '\t', definition);
    let fields = split_fields(word.push('\t') + definition, '\t');
    assert(fields.skip(1).map_values(|d: Seq<char>| trimmed(d)) =~= seq![trimmed(definition)]);
}

/// The entries of a word list are those of each line on its own, in order:
/// the entries of two lists one after the other are those of the first
/// followed by those of the second, and a single line gives its entry, or none
/// when it holds no tab.
pub proof fn lemma_list_entries_by_line(xs: Seq<Seq<char>>, ys: Seq<Seq<char>>)
    ensures
        list_entries(xs + ys) == list_entries(xs) + list_entries(ys),
        forall|l: Seq<char>| #[trigger] list_entries(seq![l]) == match line_entry(l) {
            Some(e) => seq![e],
            None => Seq::<(Seq<char>, Seq<Seq<char>>)>::empty(),
        },
    decreases ys.len(),
{
    assert forall|l: Seq<char>| #[trigger] list_entries(seq![l]) == match line_entry(l) {
        Some(e) => seq![e],
        None => Seq::<(Seq<char>, Seq<Seq<char>>)>::empty(),
    } by {
        assert(seq![l].drop_last() =~= Seq::<Seq<char>>::empty());
        assert(list_entries(seq![l].drop_last()) == Seq::<(Seq<char>, Seq<Seq<char>>)>::empty());
        match line_entry(l) {
            Some(e) => {
                assert(Seq::<(Seq<char>, Seq<Seq<char>>)>::empty().push(e) =~= seq![e]);
            },
            None => {},
        }
    }
    if ys.len() == 0 {
        assert(xs + ys =~= xs);
        assert(list_entries(xs) + list_entries(ys) =~= list_entries(xs));
    } else {
        lemma_list_entries_by_line(xs, ys.drop_last());
        assert((xs + ys).drop_last() =~= xs + ys.drop_last());
        assert((xs + ys).last() == ys.last());
        match line_entry(ys.last()) {
            Some(e) => {
                assert((list_entries(xs) + list_entries(ys.drop_last())).push(e)
                    =~= list_entries(xs) + list_entries(ys.drop_last()).push(e));
            },
            None => {},
        }
    }
}

/// A line of tab-separated fields, none holding a tab, with k tabs (k >= 1)
/// reads as its first field for the word and k definitions, the i-th being the
/// field after the i-th tab, trimmed; with no tab it gives no entry.
pub proof fn lemma_line_entry_fields(fields: Seq<Seq<char>>)
    requires
        fields.len() >= 1,
        forall|i: int| 0 <= i < fields.len() ==> !(#[trigger] fields[i]).contains('\t'),
    ensures
        fields.len() == 1 ==> line_entry(joined_fields(fields, '\t')) is None,
        fields.len() >= 2 ==> (line_entry(joined_fields(fields, '\t')) matches Some((w, ds)) && {
            &&& w == fields[0]
            &&& ds.len() == fields.len() - 1
            &&& forall|i: int| 0 <= i < ds.len() ==> #[trigger] ds[i] == trimmed(fields[i + 1])
        }),
{
    lemma_split_joined_fields(fields, '\t');
}

/// Reads one line of the word list.
pub fn parse_line(line: &str) -> (w: Option<Word>)
    ensures
        match w {
            Some(w) => line_entry(line@) == Some(w@),
            None => line_entry(line@) is None,
        },
{
    let fields = split_on(line, '\t');
    let ghost views = fields@.map_values(|f: String| f@);
    assert(views.len() == fields@.len());
    if fields.len() > 1 {
        let word = fields[0].clone();
        let mut definitions: Vec<String> = Vec::new();
        let mut k: usize = 1;
        while k < fields.len()
            invariant
                1 <= k <= fields.len(),
                views == fields@.map_values(|f: String| f@),
                definitions@.map_values(|d: String| d@)
                    =~= views.skip(1).take(k - 1).map_values(|d: Seq<char>| trimmed(d)),
            decreases fields.len() - k,
        {
            let ghost before = definitions@.map_values(|d: String| d@);
            definitions.push(trim(fields[k].as_str()));
            assert(views[k as int] == fields@[k as int]@);
            assert(definitions@.map_values(|d: String| d@) =~= before.push(trimmed(views[k as int])));
            k = k + 1;
        }
        assert(views.skip(1).take(k - 1) =~= views.skip(1));
        assert(views[0] == fields@[0]@);
        Some(Word { word, definitions })
    } else {
        None
    }
}

/// Reads the word list from its lines, skipping those without a tab.
pub fn words_from_lines(lines: &Vec<String>) -> (words: Vec<Word>)
    ensures
        words@.map_values(|w: Word| w@) == list_entries(lines@.map_values(|l: String| l@)),
{
    let mut words: Vec<Word> = Vec::new();
    let mut i: usize = 0;
    assert(lines@.map_values(|l: String| l@).take(0) =~= Seq::<Seq<char>>::empty());
    while i < lines.len()
        invariant
            i <= lines.len(),
            words@.map_values(|w: Word| w@) == list_entries(lines@.map_values(|l: String| l@).take(i as int)),
        decreases lines.len() - i,
    {
        let ghost all = lines@.map_values(|l: String| l@);
        let ghost before = words@.map_values(|w: Word| w@);
        assert(all.take(i + 1).drop_last() =~= all.take(i as int));
        assert(all.take(i + 1).last() == lines@[i as int]@);
        match parse_line(lines[i].as_str()) {
            Some(w) => {
                words.push(w);
                assert(words@.map_values(|w: Word| w@) =~= before.push(w@));
            },
            None => {},
        }
        i = i + 1;
    }
    assert(lines@.map_values(|l: String| l@).take(lines.len() as int) =~= lines@.map_values(|l: String| l@));
    words
}

} // verus!
