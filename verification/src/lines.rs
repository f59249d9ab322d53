//! Splitting a pattern file into its lines.
//!
//! A pattern file is plain text, one glob pattern per line.  A line ends at a
//! line feed or at a carriage return followed by a line feed; the final line
//! ending is optional.  Whitespace inside a line is kept as it stands.

use vstd::prelude::*;

verus! {

/// The line feed byte.
pub const NL: u8 = 10;

/// The carriage return byte.
pub const CR: u8 = 13;

/// Prepends a byte to the first line of `l`, opening a line when `l` is
/// empty.
pub open spec fn cons_front(c: u8, l: Seq<Seq<u8>>) -> Seq<Seq<u8>> {
    if l.len() == 0 {
        seq![seq![c]]
    } else {
        seq![seq![c] + l[0]] + l.drop_first()
    }
}

/// A line with a final carriage return taken off.
pub open spec fn strip_cr(line: Seq<u8>) -> Seq<u8> {
    if line.len() > 0 && line.last() == CR {
        line.drop_last()
    } else {
        line
    }
}

/// The lines of `s`: split at `\n` or `\r\n`, the final line ending
/// optional, an empty text holding no lines.
pub open spec fn lines_spec(s: Seq<u8>) -> Seq<Seq<u8>>
    decreases s.len(),
{
    if s.len() == 0 {
        Seq::empty()
    } else if s[0] == NL {
        seq![Seq::<u8>::empty()] + lines_spec(s.skip(1))
    } else if s[0] == CR && s.len() >= 2 && s[1] == NL {
        seq![Seq::<u8>::empty()] + lines_spec(s.skip(2))
    } else {
        cons_front(s[0], lines_spec(s.skip(1)))
    }
}

/// A text without a line feed is one line (or none, when it is empty).
proof fn lemma_lines_no_nl(t: Seq<u8>)
    requires
        forall|j: int| 0 <= j < t.len() ==> t[j] != NL,
    ensures
        t.len() == 0 ==> lines_spec(t) == Seq::<Seq<u8>>::empty(),
        t.len() > 0 ==> lines_spec(t) == seq![t],
    decreases t.len(),
{
    if t.len() > 0 {
        lemma_lines_no_nl(t.skip(1));
        if t.len() == 1 {
            assert(lines_spec(t) == seq![seq![t[0]]]);
            assert(seq![t[0]] =~= t);
        } else {
            assert(seq![t[0]] + t.skip(1) =~= t);
            assert(lines_spec(t) =~= seq![t]);
        }
    }
}

/// The lines of a text whose first line feed sits at `k`: the first `k`
/// bytes, a final carriage return taken off, then the lines of the rest.
proof fn lemma_lines_split_at_first_nl(t: Seq<u8>, k: int)
    requires
        0 <= k < t.len(),
        t[k] == NL,
        forall|j: int| 0 <= j < k ==> t[j] != NL,
    ensures
        lines_spec(t) == seq![strip_cr(t.take(k))] + lines_spec(t.skip(k + 1)),
    decreases k,
{
    if k == 0 {
        assert(strip_cr(t.take(0)) =~= Seq::<u8>::empty());
        assert(seq![strip_cr(t.take(0))] =~= seq![Seq::<u8>::empty()]);
    } else if t[0] == CR && t[1] == NL {
        assert(k == 1);
        assert(strip_cr(t.take(1)) =~= Seq::<u8>::empty());
        assert(seq![strip_cr(t.take(1))] =~= seq![Seq::<u8>::empty()]);
    } else {
        let rest = t.skip(1);
        assert(rest[k - 1] == NL);
        assert(forall|j: int| 0 <= j < k - 1 ==> rest[j] == t[j + 1] && rest[j] != NL);
        lemma_lines_split_at_first_nl(rest, k - 1);
        let x = strip_cr(rest.take(k - 1));
        assert(lines_spec(t) == cons_front(t[0], seq![x] + lines_spec(rest.skip(k))));
        assert((seq![x] + lines_spec(rest.skip(k)))[0] == x);
        assert(lines_spec(t) == seq![seq![t[0]] + x] + (seq![x] + lines_spec(rest.skip(k))).drop_first());
        assert((seq![x] + lines_spec(rest.skip(k))).drop_first() =~= lines_spec(rest.skip(k)));
        assert(rest.skip(k) =~= t.skip(k + 1));
        // the first k bytes of t are t[0] followed by the first k - 1 of rest
        assert(t.take(k) =~= seq![t[0]] + rest.take(k - 1));
        if rest.take(k - 1).len() > 0 && rest.take(k - 1).last() == CR {
            assert(t.take(k).last() == CR);
        }
        assert(strip_cr(t.take(k)) =~= seq![t[0]] + x);
        assert(lines_spec(t) =~= seq![strip_cr(t.take(k))] + lines_spec(t.skip(k + 1)));
    }
}

/// Splits a text into its lines.
pub fn split_lines(text: &Vec<u8>) -> (r: Vec<Vec<u8>>)
    ensures
        r@.len() == lines_spec(text@).len(),
        forall|i: int| 0 <= i < r@.len() ==> r@[i]@ == lines_spec(text@)[i],
{
    let n = text.len();
    let mut out: Vec<Vec<u8>> = Vec::new();
    let ghost mut done: Seq<Seq<u8>> = Seq::empty();
    let mut start: usize = 0;
    let mut i: usize = 0;
    proof {
        assert(text@.skip(0) =~= text@);
        assert(done + lines_spec(text@) =~= lines_spec(text@));
    }
    while i < n
        invariant
            n == text@.len(),
            start <= i <= n,
            done.len() == out@.len(),
            forall|k: int| 0 <= k < done.len() ==> out@[k]@ == done[k],
            lines_spec(text@) == done + lines_spec(text@.skip(start as int)),
            forall|j: int| start <= j < i ==> text@[j] != NL,
        decreases n - i,
    {
        if text[i] == NL {
            let ghost t = text@.skip(start as int);
            let ghost k = i - start as int;
            let mut line: Vec<u8> = Vec::new();
            let mut j: usize = start;
            while j < i
                invariant
                    start <= j <= i,
                    i < text@.len(),
                    line@ =~= text@.subrange(start as int, j as int),
                decreases i - j,
            {
                line.push(text[j]);
                j = j + 1;
            }
            if line.len() > 0 && line[line.len() - 1] == CR {
                line.pop();
            }
            proof {
                assert(t.take(k) =~= text@.subrange(start as int, i as int));
                assert(line@ == strip_cr(t.take(k)));
                assert forall|jj: int| 0 <= jj < k implies t[jj] != NL by {
                    assert(t[jj] == text@[start + jj]);
                }
                lemma_lines_split_at_first_nl(t, k);
                assert(t.skip(k + 1) =~= text@.skip(i + 1));
                assert(done + (seq![line@] + lines_spec(text@.skip(i + 1))) =~= done.push(line@)
                    + lines_spec(text@.skip(i + 1)));
                done = done.push(line@);
            }
            out.push(line);
            start = i + 1;
        }
        i = i + 1;
    }
    let ghost t = text@.skip(start as int);
    proof {
        assert forall|jj: int| 0 <= jj < t.len() implies t[jj] != NL by {
            assert(t[jj] == text@[start + jj]);
        }
        lemma_lines_no_nl(t);
    }
    if start < n {
        let mut line: Vec<u8> = Vec::new();
        let mut j: usize = start;
        while j < n
            invariant
                start <= j <= n,
                n == text@.len(),
                line@ =~= text@.subrange(start as int, j as int),
            decreases n - j,
        {
            line.push(text[j]);
            j = j + 1;
        }
        proof {
            assert(line@ =~= t);
            assert(done + seq![line@] =~= done.push(line@));
            done = done.push(line@);
        }
        out.push(line);
    }
    proof {
        assert(lines_spec(text@) =~= done);
    }
    out
}

} // verus!
