use vstd::prelude::*;

use crate::error::TodoError;

verus! {

/// `words` joined with single spaces between them.
pub open spec fn joined(words: Seq<Seq<char>>) -> Seq<char>
    decreases words.len(),
{
    if words.len() <= 1 {
        if words.len() == 0 {
            Seq::empty()
        } else {
            words[0]
        }
    } else {
        joined(words.drop_last()) + seq![' '] + words.last()
    }
}

/// An entry's text is its words joined by single spaces, then one more space.
pub proof fn lemma_entry_text_joined(words: Seq<Seq<char>>)
    requires
        words.len() > 0,
    ensures
        entry_text(words) == joined(words).push(' '),
    decreases words.len(),
{
    if words.len() == 1 {
        assert(words.drop_last() =~= Seq::<Seq<char>>::empty());
        assert(entry_text(words.drop_last()) == Seq::<char>::empty());
        assert(Seq::<char>::empty() + words[0] =~= words[0]);
        assert(entry_text(words) =~= words[0].push(' '));
    } else {
        lemma_entry_text_joined(words.drop_last());
        assert(entry_text(words) =~= joined(words).push(' '));
    }
}

/// The text of an entry made of `words`: each word followed by one space.
pub open spec fn entry_text(words: Seq<Seq<char>>) -> Seq<char>
    decreases words.len(),
{
    if words.len() == 0 {
        Seq::empty()
    } else {
        entry_text(words.drop_last()) + words.last() + seq![' ']
    }
}

/// Joins `words` into the text of one entry: each word followed by a single space.
pub fn join_words(words: &Vec<String>) -> (r: String)
    ensures
        r@ == entry_text(words.deep_view()),
{
    let mut r = String::new();
    let mut i: usize = 0;
    while i < words.len()
        invariant
            i <= words.len(),
            r@ == entry_text(words.deep_view().take(i as int)),
        decreases words.len() - i,
    {
        proof {
            reveal_strlit(" ");
            assert(words.deep_view().take(i + 1).drop_last() == words.deep_view().take(i as int));
        }
        r.append(words[i].as_str());
        r.append(" ");
        i = i + 1;
    }
    proof {
        assert(words.deep_view().take(i as int) == words.deep_view());
    }
    r
}


/// The completion marker, appended to the text of an entry that is done.
pub open spec fn marker() -> char {
    '\u{2713}'
}

/// `s` stays on one line.
pub open spec fn no_newline(s: Seq<char>) -> bool {
    forall|i: int| 0 <= i < s.len() ==> s[i] != '\n'
}

/// Why `words` cannot make an entry, if they cannot: there must be at least
/// one word, and none may hold a newline.
pub open spec fn words_error(words: Seq<Seq<char>>) -> Option<TodoError> {
    if words.len() == 0 {
        Some(TodoError::MissingWords)
    } else if exists|i: int| 0 <= i < words.len() && !no_newline(#[trigger] words[i]) {
        Some(TodoError::NewlineInText)
    } else {
        None
    }
}

/// Tells whether `s` holds a newline.
pub fn has_newline(s: &str) -> (r: bool)
    ensures
        r == !no_newline(s@),
{
    let n = s.unicode_len();
    let mut i: usize = 0;
    while i < n
        invariant
            n == s@.len(),
            i <= n,
            forall|j: int| 0 <= j < i ==> s@[j] != '\n',
        decreases n - i,
    {
        if s.get_char(i) == '\n' {
            return true;
        }
        i = i + 1;
    }
    false
}

/// Checks that `words` can make an entry.
pub fn check_words(words: &Vec<String>) -> (r: Result<(), TodoError>)
    ensures
        r == match words_error(words.deep_view()) {
            Some(e) => Err(e),
            None => Ok(()),
        },
{
    if words.len() == 0 {
        return Err(TodoError::MissingWords);
    }
    let mut i: usize = 0;
    while i < words.len()
        invariant
            i <= words.len(),
            forall|j: int| 0 <= j < i ==> no_newline(#[trigger] words.deep_view()[j]),
        decreases words.len() - i,
    {
        if has_newline(words[i].as_str()) {
            proof {
                assert(!no_newline(words.deep_view()[i as int]));
            }
            return Err(TodoError::NewlineInText);
        }
        i = i + 1;
    }
    Ok(())
}


/// The entry made of words without a newline stays on one line.
pub proof fn lemma_entry_text_single_line(words: Seq<Seq<char>>)
    requires
        forall|i: int| 0 <= i < words.len() ==> no_newline(#[trigger] words[i]),
    ensures
        no_newline(entry_text(words)),
    decreases words.len(),
{
    if words.len() > 0 {
        let prefix = words.drop_last();
        assert forall|i: int| 0 <= i < prefix.len() implies no_newline(#[trigger] prefix[i]) by {
            assert(prefix[i] == words[i]);
        }
        lemma_entry_text_single_line(prefix);
        let e = entry_text(words);
        let p = entry_text(prefix);
        let w = words.last();
        assert(no_newline(w));
        assert forall|i: int| 0 <= i < e.len() implies e[i] != '\n' by {
            if i < p.len() {
                assert(e[i] == p[i]);
            } else if i < p.len() + w.len() {
                assert(e[i] == w[i - p.len()]);
            }
        }
    }
}

} // verus!
