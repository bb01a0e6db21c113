use vstd::prelude::*;

use crate::entry::{
    check_words, entry_text, join_words, lemma_entry_text_single_line, marker, no_newline,
    words_error,
};
use crate::error::TodoError;
use crate::listing::{listing, render_listing};
use crate::store::{file_text, lines_of, load_lines, render_file, split_state, strip_cr};

verus! {

/// Every line of `lines` stays on one line.
pub open spec fn all_single_line(lines: Seq<Seq<char>>) -> bool {
    forall|i: int| 0 <= i < lines.len() ==> no_newline(#[trigger] lines[i])
}

/// Position `pos` names an entry of `lines`: positions count from 1.
pub open spec fn in_range(lines: Seq<Seq<char>>, pos: int) -> bool {
    1 <= pos <= lines.len()
}

/// `lines` with the entry at position `pos` marked as done.
pub open spec fn completed(lines: Seq<Seq<char>>, pos: int) -> Seq<Seq<char>> {
    lines.update(pos - 1, lines[pos - 1].push(marker()))
}

/// `lines` with the entry at position `pos` replaced by `text`.
pub open spec fn updated(lines: Seq<Seq<char>>, pos: int, text: Seq<char>) -> Seq<Seq<char>> {
    lines.update(pos - 1, text)
}

/// `lines` without the entry at position `pos`.
pub open spec fn deleted(lines: Seq<Seq<char>>, pos: int) -> Seq<Seq<char>> {
    lines.remove(pos - 1)
}

/// The outcome of a positional change: the error when `pos` names no entry.
pub open spec fn change_result(lines: Seq<Seq<char>>, pos: int) -> Result<(), TodoError> {
    if in_range(lines, pos) {
        Ok(())
    } else {
        Err(TodoError::NoSuchEntry)
    }
}

/// The outcome of a change that takes words: the words are checked first.
pub open spec fn words_result(words: Seq<Seq<char>>) -> Result<(), TodoError> {
    match words_error(words) {
        Some(e) => Err(e),
        None => Ok(()),
    }
}

proof fn lemma_split_state_single_line(text: Seq<char>)
    ensures
        all_single_line(split_state(text).0),
        no_newline(split_state(text).1),
    decreases text.len(),
{
    if text.len() > 0 {
        lemma_split_state_single_line(text.drop_last());
        let open = split_state(text.drop_last()).1;
        assert(no_newline(strip_cr(open)));
    }
}

/// The lines read from any text stay on one line each.
pub proof fn lemma_lines_of_single_line(text: Seq<char>)
    ensures
        all_single_line(lines_of(text)),
{
    lemma_split_state_single_line(text);
}

/// The task list: its entries in file order, each on one line.
pub struct TodoList {
    entries: Vec<String>,
}

impl View for TodoList {
    type V = Seq<Seq<char>>;

    closed spec fn view(&self) -> Seq<Seq<char>> {
        self.entries.deep_view()
    }
}

impl TodoList {
    /// No entry holds a newline.
    pub open spec fn wf(&self) -> bool {
        all_single_line(self@)
    }

    /// An empty list.
    pub fn new() -> (r: TodoList)
        ensures
            r@ == Seq::<Seq<char>>::empty(),
            r.wf(),
    {
        let r = TodoList { entries: Vec::new() };
        proof {
            assert(r@ =~= Seq::<Seq<char>>::empty());
        }
        r
    }

    /// The list that the file's whole `text` holds, one entry per line.
    pub fn from_text(text: &str) -> (r: TodoList)
        ensures
            r@ == lines_of(text@),
            r.wf(),
    {
        proof {
            lemma_lines_of_single_line(text@);
        }
        TodoList { entries: load_lines(text) }
    }

    /// The file's whole text for this list: each entry followed by a newline.
    pub fn to_text(&self) -> (r: String)
        ensures
            r@ == file_text(self@),
    {
        render_file(&self.entries)
    }

    /// The entries, in order.
    pub fn entries(&self) -> (r: &Vec<String>)
        ensures
            r.deep_view() == self@,
    {
        &self.entries
    }

    /// The number of entries.
    pub fn len(&self) -> (r: usize)
        ensures
            r == self@.len(),
    {
        self.entries.len()
    }

    /// The numbered listing: `"{position}. {text}"` for each entry, in order.
    pub fn list(&self) -> (r: Vec<String>)
        ensures
            r.deep_view() == listing(self@),
    {
        render_listing(&self.entries)
    }

    /// Adds an entry made of `words` at the end.
    pub fn add(&mut self, words: &Vec<String>) -> (r: Result<(), TodoError>)
        requires
            old(self).wf(),
        ensures
            final(self).wf(),
            r == words_result(words.deep_view()),
            r is Ok ==> final(self)@ == old(self)@.push(entry_text(words.deep_view())),
            r is Err ==> final(self)@ == old(self)@,
    {
        match check_words(words) {
            Err(e) => Err(e),
            Ok(()) => {
                let text = join_words(words);
                proof {
                    lemma_entry_text_single_line(words.deep_view());
                }
                let ghost before = self@;
                self.entries.push(text);
                proof {
                    assert(self@ =~= before.push(text@));
                }
                Ok(())
            },
        }
    }

    /// Replaces the entry at position `pos` with the entry made of `words`.
    pub fn update(&mut self, pos: usize, words: &Vec<String>) -> (r: Result<(), TodoError>)
        requires
            old(self).wf(),
        ensures
            final(self).wf(),
            r == match words_result(words.deep_view()) {
                Err(e) => Err(e),
                Ok(()) => change_result(old(self)@, pos as int),
            },
            r is Ok ==> final(self)@ == updated(
                old(self)@,
                pos as int,
                entry_text(words.deep_view()),
            ),
            r is Err ==> final(self)@ == old(self)@,
    {
        match check_words(words) {
            Err(e) => Err(e),
            Ok(()) => {
                if pos == 0 || pos > self.entries.len() {
                    return Err(TodoError::NoSuchEntry);
                }
                let text = join_words(words);
                proof {
                    lemma_entry_text_single_line(words.deep_view());
                }
                let ghost before = self@;
                self.entries.set(pos - 1, text);
                proof {
                    assert(self@ =~= updated(before, pos as int, text@));
                }
                Ok(())
            },
        }
    }

    /// Marks the entry at position `pos` as done: the marker follows its text.
    pub fn complete(&mut self, pos: usize) -> (r: Result<(), TodoError>)
        requires
            old(self).wf(),
        ensures
            final(self).wf(),
            r == change_result(old(self)@, pos as int),
            r is Ok ==> final(self)@ == completed(old(self)@, pos as int),
            r is Err ==> final(self)@ == old(self)@,
    {
        if pos == 0 || pos > self.entries.len() {
            return Err(TodoError::NoSuchEntry);
        }
        let mut text = self.entries[pos - 1].clone();
        proof {
            reveal_strlit("\u{2713}");
        }
        text.append("\u{2713}");
        let ghost before = self@;
        proof {
            assert(text@ =~= before[pos - 1].push(marker()));
            assert forall|j: int| 0 <= j < text@.len() implies text@[j] != '\n' by {
                if j < before[pos - 1].len() {
                    assert(no_newline(before[pos - 1]));
                }
            }
        }
        self.entries.set(pos - 1, text);
        proof {
            assert(self@ =~= completed(before, pos as int));
        }
        Ok(())
    }

    /// Removes the entry at position `pos`; the entries after it move up by one.
    pub fn delete(&mut self, pos: usize) -> (r: Result<(), TodoError>)
        requires
            old(self).wf(),
        ensures
            final(self).wf(),
            r == change_result(old(self)@, pos as int),
            r is Ok ==> final(self)@ == deleted(old(self)@, pos as int),
            r is Err ==> final(self)@ == old(self)@,
    {
        if pos == 0 || pos > self.entries.len() {
            return Err(TodoError::NoSuchEntry);
        }
        let ghost before = self@;
        self.entries.remove(pos - 1);
        proof {
            assert(self@ =~= deleted(before, pos as int));
        }
        Ok(())
    }
}


/// The text that adding an entry made of `words` appends to the file: the
/// entry and a newline.
pub fn append_text(words: &Vec<String>) -> (r: Result<String, TodoError>)
    ensures
        match words_error(words.deep_view()) {
            Some(e) => r == Err::<String, TodoError>(e),
            None => r is Ok && r->Ok_0@ == file_text(seq![entry_text(words.deep_view())]),
        },
{
    match check_words(words) {
        Err(e) => Err(e),
        Ok(()) => {
            let mut r = join_words(words);
            proof {
                reveal_strlit("\n");
                let e = entry_text(words.deep_view());
                assert(seq![e].drop_last() =~= Seq::<Seq<char>>::empty());
                assert(file_text(seq![e].drop_last()) == Seq::<char>::empty());
                assert(Seq::<char>::empty() + e =~= e);
                assert(file_text(seq![e]) =~= e + seq!['\n']);
            }
            r.append("\n");
            Ok(r)
        },
    }
}

} // verus!
