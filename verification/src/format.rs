//! The output formatter: renders the ordered listing as one text block of
//! bounded length, one tab-separated line per entry, dropping — whole —
//! every entry that no longer fits.

use vstd::prelude::*;
use vstd::string::StrSliceExecFns;
use vstd::string::StringExecFns;

use crate::entry::QueueEntry;

verus! {

/// The given words joined by single spaces, in order.
pub open spec fn join_words(parts: Seq<Seq<char>>) -> Seq<char>
    decreases parts.len(),
{
    if parts.len() == 0 {
        Seq::empty()
    } else if parts.len() == 1 {
        parts[0]
    } else {
        join_words(parts.drop_last()) + seq![' '] + parts.last()
    }
}

/// Assemble a note from the words of a free-text argument, joined by
/// single spaces.
pub fn args_to_note(parts: &Vec<String>) -> (r: String)
    ensures
        r@ == join_words(parts@.map_values(|s: String| s@)),
{
    proof {
        reveal_strlit(" ");
    }
    let ghost m = parts@.map_values(|s: String| s@);
    let mut r = String::new();
    let mut i: usize = 0;
    proof {
        assert(m.take(0) =~= Seq::<Seq<char>>::empty());
        assert(r@ =~= join_words(m.take(0)));
    }
    while i < parts.len()
        invariant
            0 <= i <= parts@.len(),
            m == parts@.map_values(|s: String| s@),
            r@ == join_words(m.take(i as int)),
        decreases parts@.len() - i,
    {
        if i > 0 {
            r.append(" ");
        }
        r.append(parts[i].as_str());
        proof {
            reveal_strlit(" ");
            let t = m.take(i + 1);
            assert(t.drop_last() =~= m.take(i as int));
            assert(t.last() == m[i as int]);
            assert(m[i as int] == parts@[i as int]@);
            if i == 0 {
                assert(join_words(t) == parts@[0]@);
                assert(r@ =~= parts@[0]@);
            } else {
                assert(join_words(t) == join_words(m.take(i as int)) + seq![' '] + m[i as int]);
                assert((" ")@ =~= seq![' ']);
                assert(r@ =~= join_words(m.take(i as int)) + seq![' '] + m[i as int]);
            }
        }
        i = i + 1;
    }
    proof {
        assert(m.take(parts@.len() as int) =~= m);
    }
    r
}

/// The character that writes the decimal digit `d`.
pub open spec fn digit_char(d: int) -> char {
    if d == 0 {
        '0'
    } else if d == 1 {
        '1'
    } else if d == 2 {
        '2'
    } else if d == 3 {
        '3'
    } else if d == 4 {
        '4'
    } else if d == 5 {
        '5'
    } else if d == 6 {
        '6'
    } else if d == 7 {
        '7'
    } else if d == 8 {
        '8'
    } else {
        '9'
    }
}

/// The decimal writing of `n`, without leading zeroes (a single zero for 0).
pub open spec fn dec_chars(n: nat) -> Seq<char>
    decreases n,
{
    if n < 10 {
        seq![digit_char(n as int)]
    } else {
        dec_chars(n / 10) + seq![digit_char((n % 10) as int)]
    }
}

/// The line the listing prints for one entry: requester identity, enqueue
/// time, display name and note, tab-separated and newline-terminated.
pub open spec fn line_chars(e: QueueEntry) -> Seq<char> {
    dec_chars(e.requester.value as nat) + seq!['\t'] + dec_chars(e.created_at as nat) + seq!['\t']
        + e.display_name@ + seq!['\t'] + e.note@ + seq!['\n']
}

/// The block the listing renders within `budget` characters: the lines of
/// the entries in order, stopping — and dropping all that follow — at the
/// first line that would push the block past the budget.
pub open spec fn listing_chars(entries: Seq<QueueEntry>, budget: nat) -> Seq<char>
    decreases entries.len(),
{
    if entries.len() == 0 {
        Seq::empty()
    } else if line_chars(entries.first()).len() <= budget {
        line_chars(entries.first()) + listing_chars(
            entries.drop_first(),
            (budget - line_chars(entries.first()).len()) as nat,
        )
    } else {
        Seq::empty()
    }
}

/// How many leading entries the listing keeps within `budget`.
pub open spec fn fit_count(entries: Seq<QueueEntry>, budget: nat) -> nat
    decreases entries.len(),
{
    if entries.len() == 0 {
        0
    } else if line_chars(entries.first()).len() <= budget {
        1 + fit_count(entries.drop_first(), (budget - line_chars(entries.first()).len()) as nat)
    } else {
        0
    }
}

/// The concatenation of the lines of all of `entries`, in order.
pub open spec fn concat_lines(entries: Seq<QueueEntry>) -> Seq<char>
    decreases entries.len(),
{
    if entries.len() == 0 {
        Seq::empty()
    } else {
        line_chars(entries.first()) + concat_lines(entries.drop_first())
    }
}

/// The rendered listing consists of the whole lines of a leading group of
/// entries and stays within the budget: no entry line is ever cut in the
/// middle, and no later entry jumps ahead of a dropped one.
pub proof fn lemma_listing_whole_lines(entries: Seq<QueueEntry>, budget: nat)
    ensures
        fit_count(entries, budget) <= entries.len(),
        listing_chars(entries, budget) == concat_lines(
            entries.take(fit_count(entries, budget) as int),
        ),
        listing_chars(entries, budget).len() <= budget,
    decreases entries.len(),
{
    if entries.len() == 0 {
        assert(entries.take(0) =~= Seq::<QueueEntry>::empty());
    } else {
        let l = line_chars(entries.first());
        if l.len() <= budget {
            let rest = entries.drop_first();
            let b1 = (budget - l.len()) as nat;
            lemma_listing_whole_lines(rest, b1);
            let k = fit_count(entries, budget) as int;
            let t = entries.take(k);
            assert(t.len() == k);
            assert(t.first() == entries.first());
            assert(t.drop_first() =~= rest.take(k - 1));
            assert(concat_lines(t) == l + concat_lines(rest.take(k - 1)));
        } else {
            assert(entries.take(0) =~= Seq::<QueueEntry>::empty());
        }
    }
}

/// The string literal writing the decimal digit `d`.
fn digit_str(d: u64) -> (r: &'static str)
    requires
        d < 10,
    ensures
        r@ =~= seq![digit_char(d as int)],
{
    proof {
        reveal_strlit("0");
        reveal_strlit("1");
        reveal_strlit("2");
        reveal_strlit("3");
        reveal_strlit("4");
        reveal_strlit("5");
        reveal_strlit("6");
        reveal_strlit("7");
        reveal_strlit("8");
        reveal_strlit("9");
    }
    match d {
        0 => "0",
        1 => "1",
        2 => "2",
        3 => "3",
        4 => "4",
        5 => "5",
        6 => "6",
        7 => "7",
        8 => "8",
        _ => "9",
    }
}

/// The digit characters of `ds` read back to front.
spec fn chars_high_first(ds: Seq<u64>) -> Seq<char>
    decreases ds.len(),
{
    if ds.len() == 0 {
        Seq::empty()
    } else {
        seq![digit_char(ds.last() as int)] + chars_high_first(ds.drop_last())
    }
}

/// Render `n` in decimal, without leading zeroes.
pub fn u64_to_string(n: u64) -> (r: String)
    ensures
        r@ == dec_chars(n as nat),
{
    let mut m: u64 = n;
    let mut digits: Vec<u64> = Vec::new();
    while m >= 10
        invariant
            dec_chars(n as nat) =~= dec_chars(m as nat) + chars_high_first(digits@),
            forall|j: int| 0 <= j < digits@.len() ==> #[trigger] digits@[j] < 10,
        decreases m,
    {
        let d = m % 10;
        proof {
            let pushed = digits@.push(d);
            assert(pushed.drop_last() =~= digits@);
            assert(dec_chars(m as nat) == dec_chars((m / 10) as nat) + seq![
                digit_char((m % 10) as int),
            ]);
            assert(dec_chars((m / 10) as nat) + chars_high_first(pushed) =~= (dec_chars(
                (m / 10) as nat,
            ) + seq![digit_char(d as int)]) + chars_high_first(digits@));
            assert((dec_chars((m / 10) as nat) + seq![digit_char(d as int)]) + chars_high_first(
                digits@,
            ) =~= dec_chars(n as nat));
        }
        digits.push(d);
        m = m / 10;
    }
    let mut r: String = digit_str(m).to_owned();
    proof {
        assert(r@ =~= dec_chars(m as nat));
        assert(digits@.take(digits@.len() as int) =~= digits@);
    }
    let mut i: usize = digits.len();
    while i > 0
        invariant
            0 <= i <= digits@.len(),
            forall|j: int| 0 <= j < digits@.len() ==> #[trigger] digits@[j] < 10,
            r@ + chars_high_first(digits@.take(i as int)) =~= dec_chars(n as nat),
        decreases i,
    {
        i = i - 1;
        let d = digits[i];
        let ghost r0 = r@;
        r.append(digit_str(d));
        proof {
            let t = digits@.take(i + 1);
            let u = digits@.take(i as int);
            assert(t.drop_last() =~= u);
            assert(t.last() == digits@[i as int]);
            assert(chars_high_first(t) == seq![digit_char(d as int)] + chars_high_first(u));
            assert(r0 + chars_high_first(t) =~= dec_chars(n as nat));
            assert(r@ + chars_high_first(u) =~= r0 + (seq![digit_char(d as int)]
                + chars_high_first(u)));
        }
    }
    proof {
        assert(digits@.take(0) =~= Seq::<u64>::empty());
        assert(r@ =~= dec_chars(n as nat));
    }
    r
}

/// Render one entry's listing line.
pub fn render_line(e: &QueueEntry) -> (r: String)
    ensures
        r@ == line_chars(*e),
{
    proof {
        reveal_strlit("\t");
        reveal_strlit("\n");
    }
    let mut r = u64_to_string(e.requester.value);
    r.append("\t");
    let created = u64_to_string(e.created_at);
    r.append(created.as_str());
    r.append("\t");
    r.append(e.display_name.as_str());
    r.append("\t");
    r.append(e.note.as_str());
    r.append("\n");
    proof {
        assert(("\t")@ =~= seq!['\t']);
        assert(("\n")@ =~= seq!['\n']);
        assert(r@ =~= line_chars(*e));
    }
    r
}

/// Render the ordered entries as one block of at most `max_len`
/// characters: the leading lines that fit, in order, and nothing of any
/// entry past the first that does not.
pub fn render_listing(entries: &Vec<QueueEntry>, max_len: usize) -> (r: String)
    ensures
        r@ == listing_chars(entries@, max_len as nat),
{
    let mut r = String::new();
    let mut used: usize = 0;
    let mut i: usize = 0;
    proof {
        assert(entries@.skip(0) =~= entries@);
        assert(r@ + listing_chars(entries@, max_len as nat) =~= listing_chars(
            entries@,
            max_len as nat,
        ));
    }
    while i < entries.len()
        invariant
            0 <= i <= entries@.len(),
            used <= max_len,
            r@.len() == used,
            listing_chars(entries@, max_len as nat) == r@ + listing_chars(
                entries@.skip(i as int),
                (max_len - used) as nat,
            ),
        decreases entries@.len() - i,
    {
        let line = render_line(&entries[i]);
        let line_len = line.as_str().unicode_len();
        let ghost tail = entries@.skip(i as int);
        proof {
            assert(tail.len() > 0);
            assert(tail.first() == entries@[i as int]);
        }
        if line_len > max_len - used {
            proof {
                assert(listing_chars(tail, (max_len - used) as nat) =~= Seq::<char>::empty());
                assert(r@ + listing_chars(tail, (max_len - used) as nat) =~= r@);
            }
            return r;
        }
        proof {
            assert(tail.drop_first() =~= entries@.skip(i + 1));
            assert(listing_chars(tail, (max_len - used) as nat) == line_chars(tail.first())
                + listing_chars(entries@.skip(i + 1), (max_len - used - line_len) as nat));
            assert(r@ + listing_chars(tail, (max_len - used) as nat) =~= (r@ + line@)
                + listing_chars(entries@.skip(i + 1), (max_len - used - line_len) as nat));
        }
        r.append(line.as_str());
        used = used + line_len;
        i = i + 1;
    }
    proof {
        assert(entries@.skip(entries@.len() as int) =~= Seq::<QueueEntry>::empty());
        assert(r@ + listing_chars(
            entries@.skip(entries@.len() as int),
            (max_len - used) as nat,
        ) =~= r@);
    }
    r
}

} // verus!
