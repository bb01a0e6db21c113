use vstd::prelude::*;

verus! {

/// A line read from the file loses the carriage return that ends it, if any.
pub open spec fn strip_cr(s: Seq<char>) -> Seq<char> {
    if s.len() > 0 && s.last() == '\r' {
        s.drop_last()
    } else {
        s
    }
}

/// Reading `text` from the start: the lines ended so far, and the part of the
/// line that no newline has ended yet.
pub open spec fn split_state(text: Seq<char>) -> (Seq<Seq<char>>, Seq<char>)
    decreases text.len(),
{
    if text.len() == 0 {
        (Seq::empty(), Seq::empty())
    } else {
        let (ended, open) = split_state(text.drop_last());
        if text.last() == '\n' {
            (ended.push(strip_cr(open)), Seq::empty())
        } else {
            (ended, open.push(text.last()))
        }
    }
}

/// The lines of `text`, in order: each is cut at a newline, which is dropped
/// together with a carriage return just before it, and a last line without a
/// newline counts when it is not empty.
pub open spec fn lines_of(text: Seq<char>) -> Seq<Seq<char>> {
    let (ended, open) = split_state(text);
    if open.len() == 0 {
        ended
    } else {
        ended.push(open)
    }
}

/// The file's text for `lines`: each line followed by a newline.
pub open spec fn file_text(lines: Seq<Seq<char>>) -> Seq<char>
    decreases lines.len(),
{
    if lines.len() == 0 {
        Seq::empty()
    } else {
        file_text(lines.drop_last()) + lines.last() + seq!['\n']
    }
}

/// Reads the whole text of the file into its lines.
pub fn load_lines(text: &str) -> (r: Vec<String>)
    ensures
        r.deep_view() == lines_of(text@),
{
    let n = text.unicode_len();
    let mut lines: Vec<String> = Vec::new();
    let mut start: usize = 0;
    let mut i: usize = 0;
    while i < n
        invariant
            n == text@.len(),
            start <= i <= n,
            split_state(text@.take(i as int)) == (lines.deep_view(), text@.subrange(
                start as int,
                i as int,
            )),
        decreases n - i,
    {
        let c = text.get_char(i);
        proof {
            assert(text@.take(i + 1).drop_last() == text@.take(i as int));
            assert(text@.take(i + 1).last() == c);
        }
        if c == '\n' {
            let mut end = i;
            if i > start && text.get_char(i - 1) == '\r' {
                end = i - 1;
            }
            let line = String::from_str(text.substring_char(start, end));
            proof {
                assert(line@ == strip_cr(text@.subrange(start as int, i as int)));
            }
            let ghost before = lines.deep_view();
            lines.push(line);
            proof {
                assert(lines.deep_view() =~= before.push(line@));
            }
            start = i + 1;
        } else {
            proof {
                assert(text@.subrange(start as int, i + 1) =~= text@.subrange(
                    start as int,
                    i as int,
                ).push(c));
            }
        }
        i = i + 1;
        proof {
            assert(text@.subrange(start as int, i as int).len() == 0 ==> text@.subrange(
                start as int,
                i as int,
            ) =~= Seq::<char>::empty());
        }
    }
    proof {
        assert(text@.take(n as int) == text@);
    }
    if start < n {
        let line = String::from_str(text.substring_char(start, n));
        let ghost before = lines.deep_view();
        lines.push(line);
        proof {
            assert(lines.deep_view() =~= before.push(line@));
        }
    } else {
        proof {
            assert(text@.subrange(start as int, n as int) =~= Seq::<char>::empty());
        }
    }
    lines
}

/// Writes `lines` back as the file's whole text.
pub fn render_file(lines: &Vec<String>) -> (r: String)
    ensures
        r@ == file_text(lines.deep_view()),
{
    let mut r = String::new();
    let mut i: usize = 0;
    while i < lines.len()
        invariant
            i <= lines.len(),
            r@ == file_text(lines.deep_view().take(i as int)),
        decreases lines.len() - i,
    {
        proof {
            reveal_strlit("\n");
            assert(lines.deep_view().take(i + 1).drop_last() == lines.deep_view().take(i as int));
        }
        r.append(lines[i].as_str());
        r.append("\n");
        i = i + 1;
    }
    proof {
        assert(lines.deep_view().take(i as int) == lines.deep_view());
    }
    r
}

} // verus!
