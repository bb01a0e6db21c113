use vstd::prelude::*;

use crate::entry::{
    entry_text, joined, lemma_entry_text_joined, lemma_entry_text_single_line, marker,
    no_newline, words_error,
};
use crate::list::{all_single_line, completed, deleted, in_range, updated};
use crate::listing::{list_line, listing};
use crate::store::{file_text, lines_of, split_state, strip_cr};

verus! {

/// Lines that come back unchanged when written and read again: each stays on
/// one line and does not end in a carriage return.
pub open spec fn reloadable(lines: Seq<Seq<char>>) -> bool {
    &&& all_single_line(lines)
    &&& forall|i: int| 0 <= i < lines.len() ==> strip_cr(#[trigger] lines[i]) == lines[i]
}

/// The file's text after entries made of each of `adds` in turn were appended
/// to an empty file.
pub open spec fn appends_text(adds: Seq<Seq<Seq<char>>>) -> Seq<char>
    decreases adds.len(),
{
    if adds.len() == 0 {
        Seq::empty()
    } else {
        appends_text(adds.drop_last()) + file_text(seq![entry_text(adds.last())])
    }
}

/// The entries after adding each of `adds` in turn to an empty list.
pub open spec fn after_adds(adds: Seq<Seq<Seq<char>>>) -> Seq<Seq<char>>
    decreases adds.len(),
{
    if adds.len() == 0 {
        Seq::empty()
    } else {
        after_adds(adds.drop_last()).push(entry_text(adds.last()))
    }
}

proof fn lemma_split_extend(p: Seq<char>, s: Seq<char>)
    requires
        split_state(p).1.len() == 0,
        no_newline(s),
    ensures
        split_state(p + s) == (split_state(p).0, s),
    decreases s.len(),
{
    if s.len() == 0 {
        assert(p + s =~= p);
        assert(split_state(p).1 =~= s);
    } else {
        assert((p + s).drop_last() =~= p + s.drop_last());
        lemma_split_extend(p, s.drop_last());
        assert(s.drop_last().push(s.last()) =~= s);
    }
}

proof fn lemma_split_file_text(lines: Seq<Seq<char>>)
    requires
        reloadable(lines),
    ensures
        split_state(file_text(lines)) == (lines, Seq::<char>::empty()),
    decreases lines.len(),
{
    if lines.len() == 0 {
        assert(lines =~= Seq::<Seq<char>>::empty());
    } else {
        let front = lines.drop_last();
        assert(reloadable(front)) by {
            assert forall|i: int| 0 <= i < front.len() implies no_newline(#[trigger] front[i])
                && strip_cr(front[i]) == front[i] by {
                assert(front[i] == lines[i]);
            }
        }
        lemma_split_file_text(front);
        let last = lines.last();
        assert(no_newline(last));
        lemma_split_extend(file_text(front), last);
        let t = file_text(lines);
        assert(t.drop_last() =~= file_text(front) + last);
        assert(front.push(last) =~= lines);
    }
}

/// Writing lines back and reading the file again gives the same lines.
pub proof fn lemma_reload(lines: Seq<Seq<char>>)
    requires
        reloadable(lines),
    ensures
        lines_of(file_text(lines)) == lines,
{
    lemma_split_file_text(lines);
}

/// Appending an entry's text to the file is adding the entry to its lines.
pub proof fn lemma_append_is_add(lines: Seq<Seq<char>>, text: Seq<char>)
    ensures
        file_text(lines) + file_text(seq![text]) == file_text(lines.push(text)),
{
    assert(lines.push(text).drop_last() =~= lines);
    assert(seq![text].drop_last() =~= Seq::<Seq<char>>::empty());
    assert(file_text(seq![text].drop_last()) == Seq::<char>::empty());
    assert(Seq::<char>::empty() + text =~= text);
    assert(file_text(seq![text]) =~= text + seq!['\n']);
    assert(file_text(lines) + file_text(seq![text]) =~= file_text(lines.push(text)));
}

proof fn lemma_entry_reloadable(words: Seq<Seq<char>>)
    requires
        words_error(words) is None,
    ensures
        no_newline(entry_text(words)),
        strip_cr(entry_text(words)) == entry_text(words),
{
    lemma_entry_text_single_line(words);
    lemma_entry_text_joined(words);
}

/// Marking the entry at `pos` done, writing the list back and listing it
/// shows that entry with the marker after its text, and every other entry as
/// before.
pub proof fn lemma_done_then_list(lines: Seq<Seq<char>>, pos: int)
    requires
        reloadable(lines),
        in_range(lines, pos),
    ensures
        ({
            let shown = listing(lines_of(file_text(completed(lines, pos))));
            &&& shown.len() == lines.len()
            &&& shown[pos - 1] == list_line(pos as nat, lines[pos - 1].push(marker()))
            &&& forall|i: int|
                0 <= i < lines.len() && i != pos - 1 ==> shown[i] == #[trigger] listing(lines)[i]
        }),
{
    let after = completed(lines, pos);
    let t = lines[pos - 1].push(marker());
    assert(no_newline(t)) by {
        assert(no_newline(lines[pos - 1]));
        assert forall|j: int| 0 <= j < t.len() implies t[j] != '\n' by {
            if j < t.len() - 1 {
                assert(t[j] == lines[pos - 1][j]);
            }
        }
    }
    assert(reloadable(after));
    lemma_reload(after);
}

/// Replacing the entry at `pos` with one made of `words`, writing the list
/// back and listing it shows at `pos` the words joined by single spaces (and
/// the one space that ends every entry), and every other entry as before.
pub proof fn lemma_update_then_list(lines: Seq<Seq<char>>, pos: int, words: Seq<Seq<char>>)
    requires
        reloadable(lines),
        in_range(lines, pos),
        words_error(words) is None,
    ensures
        ({
            let shown = listing(lines_of(file_text(updated(lines, pos, entry_text(words)))));
            &&& shown.len() == lines.len()
            &&& shown[pos - 1] == list_line(pos as nat, joined(words).push(' '))
            &&& forall|i: int|
                0 <= i < lines.len() && i != pos - 1 ==> shown[i] == #[trigger] listing(lines)[i]
        }),
{
    let after = updated(lines, pos, entry_text(words));
    lemma_entry_reloadable(words);
    lemma_entry_text_joined(words);
    assert(reloadable(after));
    lemma_reload(after);
}

/// Deleting the entry at `pos`, writing the list back and listing it shows
/// one entry fewer: those before `pos` as before, and each one after it one
/// position lower.
pub proof fn lemma_delete_then_list(lines: Seq<Seq<char>>, pos: int)
    requires
        reloadable(lines),
        in_range(lines, pos),
    ensures
        ({
            let shown = listing(lines_of(file_text(deleted(lines, pos))));
            &&& shown.len() == lines.len() - 1
            &&& forall|i: int| 0 <= i < pos - 1 ==> shown[i] == #[trigger] listing(lines)[i]
            &&& forall|i: int|
                pos - 1 <= i < lines.len() - 1 ==> #[trigger] shown[i] == list_line(
                    (i + 1) as nat,
                    lines[i + 1],
                )
        }),
{
    let after = deleted(lines, pos);
    assert forall|i: int| 0 <= i < after.len() implies no_newline(#[trigger] after[i])
        && strip_cr(after[i]) == after[i] by {
        if i < pos - 1 {
            assert(after[i] == lines[i]);
        } else {
            assert(after[i] == lines[i + 1]);
        }
    }
    lemma_reload(after);
}

proof fn lemma_appends_text(adds: Seq<Seq<Seq<char>>>)
    requires
        forall|k: int| 0 <= k < adds.len() ==> words_error(#[trigger] adds[k]) is None,
    ensures
        appends_text(adds) == file_text(after_adds(adds)),
        reloadable(after_adds(adds)),
        after_adds(adds).len() == adds.len(),
        forall|k: int| 0 <= k < adds.len() ==> #[trigger] after_adds(adds)[k] == entry_text(adds[k]),
    decreases adds.len(),
{
    if adds.len() > 0 {
        let front = adds.drop_last();
        assert forall|k: int| 0 <= k < front.len() implies words_error(#[trigger] front[k]) is None by {
            assert(front[k] == adds[k]);
        }
        lemma_appends_text(front);
        lemma_append_is_add(after_adds(front), entry_text(adds.last()));
        lemma_entry_reloadable(adds.last());
        assert forall|k: int| 0 <= k < adds.len() implies #[trigger] after_adds(adds)[k]
            == entry_text(adds[k]) by {
            if k < adds.len() - 1 {
                assert(front[k] == adds[k]);
            }
        }
    }
}

/// Adding entries made of each of `adds` in turn to an empty file and then
/// listing shows one line per add, in the order added, each with the added
/// words joined by single spaces (and the one space that ends every entry).
pub proof fn lemma_adds_then_list(adds: Seq<Seq<Seq<char>>>)
    requires
        forall|k: int| 0 <= k < adds.len() ==> words_error(#[trigger] adds[k]) is None,
    ensures
        ({
            let shown = listing(lines_of(appends_text(adds)));
            &&& shown.len() == adds.len()
            &&& forall|k: int|
                0 <= k < adds.len() ==> #[trigger] shown[k] == list_line(
                    (k + 1) as nat,
                    joined(adds[k]).push(' '),
                )
        }),
{
    lemma_appends_text(adds);
    lemma_reload(after_adds(adds));
    assert forall|k: int| 0 <= k < adds.len() implies entry_text(#[trigger] adds[k]) == joined(
        adds[k],
    ).push(' ') by {
        lemma_entry_text_joined(adds[k]);
    }
}

} // verus!
