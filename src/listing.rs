use vstd::prelude::*;

verus! {

/// The decimal digits, indexed by their value.
pub open spec fn digits() -> Seq<char> {
    seq!['0', '1', '2', '3', '4', '5', '6', '7', '8', '9']
}

/// `n` written in decimal, without leading zeros.
pub open spec fn decimal(n: nat) -> Seq<char>
    decreases n,
{
    if n < 10 {
        seq![digits()[n as int]]
    } else {
        decimal(n / 10).push(digits()[(n % 10) as int])
    }
}

/// The listing line of the entry `text` at position `pos`: `"{pos}. {text}"`.
pub open spec fn list_line(pos: nat, text: Seq<char>) -> Seq<char> {
    decimal(pos) + seq!['.', ' '] + text
}

/// The numbered listing of `lines`, positions counted from 1.
pub open spec fn listing(lines: Seq<Seq<char>>) -> Seq<Seq<char>> {
    Seq::new(lines.len(), |i: int| list_line((i + 1) as nat, lines[i]))
}

/// Writes `n` in decimal.
pub fn decimal_text(n: usize) -> (r: String)
    ensures
        r@ == decimal(n as nat),
    decreases n,
{
    let table = "0123456789";
    proof {
        reveal_strlit("0123456789");
        assert(table@ =~= digits());
    }
    let d = table.substring_char(n % 10, n % 10 + 1);
    proof {
        assert(d@ =~= seq![digits()[(n % 10) as int]]);
    }
    if n < 10 {
        String::from_str(d)
    } else {
        let mut r = decimal_text(n / 10);
        r.append(d);
        r
    }
}

/// Renders `lines` as a numbered listing, one output line per entry, in order.
pub fn render_listing(lines: &Vec<String>) -> (r: Vec<String>)
    ensures
        r.deep_view() == listing(lines.deep_view()),
{
    let mut r: Vec<String> = Vec::new();
    let mut i: usize = 0;
    while i < lines.len()
        invariant
            i <= lines.len(),
            r.deep_view() =~= listing(lines.deep_view()).take(i as int),
        decreases lines.len() - i,
    {
        let mut line = decimal_text(i + 1);
        proof {
            reveal_strlit(". ");
        }
        line.append(". ");
        line.append(lines[i].as_str());
        let ghost before = r.deep_view();
        r.push(line);
        proof {
            assert(". "@ =~= seq!['.', ' ']);
            assert(lines.deep_view()[i as int] == lines@[i as int]@);
            assert(line@ =~= list_line((i + 1) as nat, lines.deep_view()[i as int]));
            assert(r.deep_view() =~= before.push(line@));
            assert(listing(lines.deep_view()).take(i + 1) =~= before.push(line@));
        }
        i = i + 1;
    }
    r
}

} // verus!
