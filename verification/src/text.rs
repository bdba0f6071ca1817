//! Text handling shared by the command line, the `/proc` reader and the
//! cgroup paths: splitting at delimiters and decimal numerals.

use vstd::prelude::*;
use vstd::string::*;

verus! {

/// What separates one token from the next.
#[derive(Clone, Copy, Debug, PartialEq, Eq, Structural)]
pub enum Delimiter {
    /// The single character U+0020.
    Space,
    /// Any character with the Unicode property `White_Space`.
    Whitespace,
}

/// The characters with the Unicode property `White_Space`, by code point.
pub open spec fn is_whitespace(c: char) -> bool {
    let code = c as u32;
    ||| 0x09 <= code <= 0x0d
    ||| code == 0x20
    ||| code == 0x85
    ||| code == 0xa0
    ||| code == 0x1680
    ||| 0x2000 <= code <= 0x200a
    ||| code == 0x2028
    ||| code == 0x2029
    ||| code == 0x202f
    ||| code == 0x205f
    ||| code == 0x3000
}

impl Delimiter {
    /// Whether `c` separates tokens.
    pub open spec fn matches(self, c: char) -> bool {
        match self {
            Delimiter::Space => c == ' ',
            Delimiter::Whitespace => is_whitespace(c),
        }
    }

    /// Decides `matches` on a character.
    pub fn separates(self, c: char) -> (hit: bool)
        ensures
            hit == self.matches(c),
    {
        match self {
            Delimiter::Space => c == ' ',
            Delimiter::Whitespace => {
                let code: u32 = c as u32;
                (0x09 <= code && code <= 0x0d) || code == 0x20 || code == 0x85 || code == 0xa0
                    || code == 0x1680 || (0x2000 <= code && code <= 0x200a) || code == 0x2028
                    || code == 0x2029 || code == 0x202f || code == 0x205f || code == 0x3000
            },
        }
    }
}

/// The pieces of `s` between delimiters, in order. Every delimiter ends one
/// piece and starts the next, so `k` delimiters give `k + 1` pieces, some of
/// which may be empty.
pub open spec fn split(s: Seq<char>, delimiter: Delimiter) -> Seq<Seq<char>>
    decreases s.len(),
{
    if s.len() == 0 {
        seq![Seq::<char>::empty()]
    } else {
        let before = split(s.drop_last(), delimiter);
        if delimiter.matches(s.last()) {
            before.push(Seq::<char>::empty())
        } else {
            before.drop_last().push(before.last().push(s.last()))
        }
    }
}

/// `pieces` written one after the other with `glue` between neighbours.
pub open spec fn join(pieces: Seq<Seq<char>>, glue: char) -> Seq<char>
    decreases pieces.len(),
{
    if pieces.len() == 0 {
        Seq::<char>::empty()
    } else if pieces.len() == 1 {
        pieces[0]
    } else {
        join(pieces.drop_last(), glue).push(glue) + pieces.last()
    }
}

/// A split always yields at least one piece.
pub proof fn lemma_split_nonempty(s: Seq<char>, delimiter: Delimiter)
    ensures
        split(s, delimiter).len() >= 1,
    decreases s.len(),
{
    if s.len() > 0 {
        lemma_split_nonempty(s.drop_last(), delimiter);
    }
}

/// No piece of a split holds a delimiter.
pub proof fn lemma_split_pieces_clean(s: Seq<char>, delimiter: Delimiter)
    ensures
        forall|i: int, j: int|
            0 <= i < split(s, delimiter).len() && 0 <= j < split(s, delimiter)[i].len()
                ==> !delimiter.matches(#[trigger] split(s, delimiter)[i][j]),
    decreases s.len(),
{
    if s.len() > 0 {
        lemma_split_nonempty(s.drop_last(), delimiter);
        lemma_split_pieces_clean(s.drop_last(), delimiter);
    }
}

/// Splitting at spaces loses nothing: the pieces joined by single spaces
/// give the text back.
pub proof fn lemma_join_split(s: Seq<char>)
    ensures
        join(split(s, Delimiter::Space), ' ') == s,
    decreases s.len(),
{
    if s.len() > 0 {
        let head = s.drop_last();
        let before = split(head, Delimiter::Space);
        lemma_split_nonempty(head, Delimiter::Space);
        lemma_join_split(head);
        if s.last() == ' ' {
            let after = before.push(Seq::<char>::empty());
            assert(after.drop_last() == before);
            assert(join(after, ' ') == join(before, ' ').push(' ') + Seq::<char>::empty());
            assert(join(after, ' ') == head.push(' '));
            assert(head.push(s.last()) == s);
        } else {
            let grown = before.last().push(s.last());
            let after = before.drop_last().push(grown);
            assert(after.drop_last() == before.drop_last());
            if before.len() == 1 {
                assert(join(before, ' ') == before[0]);
                assert(join(after, ' ') == grown);
            } else {
                assert(join(before, ' ') == join(before.drop_last(), ' ').push(' ')
                    + before.last());
                assert(join(after, ' ') == join(before.drop_last(), ' ').push(' ') + grown);
                assert(join(after, ' ') == join(before, ' ').push(s.last()));
            }
            assert(head.push(s.last()) == s);
        }
    }
}

/// Splits `text` at every delimiter and hands the pieces out as owned strings.
pub fn split_text(text: &str, delimiter: Delimiter) -> (pieces: Vec<String>)
    ensures
        pieces.deep_view() == split(text@, delimiter),
{
    let n: usize = text.unicode_len();
    let mut pieces: Vec<String> = Vec::new();
    let mut start: usize = 0;
    let mut i: usize = 0;
    assert(text@.take(0) == Seq::<char>::empty());
    assert(pieces.deep_view().push(text@.subrange(0, 0)) == split(text@.take(0), delimiter));
    while i < n
        invariant
            n == text@.len(),
            start <= i <= n,
            pieces.deep_view().push(text@.subrange(start as int, i as int)) == split(
                text@.take(i as int),
                delimiter,
            ),
        decreases n - i,
    {
        let c: char = text.get_char(i);
        let ghost seen = text@.take(i as int);
        let ghost next = text@.take(i as int + 1);
        let ghost done = pieces.deep_view();
        assert(next.drop_last() == seen);
        assert(next.last() == c);
        if delimiter.separates(c) {
            let piece: String = text.substring_char(start, i).to_owned();
            pieces.push(piece);
            assert(pieces.deep_view() == done.push(text@.subrange(start as int, i as int)));
            start = i + 1;
            assert(text@.subrange(start as int, i as int + 1) == Seq::<char>::empty());
        } else {
            assert(text@.subrange(start as int, i as int + 1) == text@.subrange(
                start as int,
                i as int,
            ).push(c));
            assert(done.push(text@.subrange(start as int, i as int)).drop_last() == done);
        }
        i = i + 1;
    }
    let ghost done = pieces.deep_view();
    let last: String = text.substring_char(start, n).to_owned();
    pieces.push(last);
    assert(text@.take(n as int) == text@);
    assert(pieces.deep_view() == done.push(text@.subrange(start as int, n as int)));
    pieces
}

/// The character that writes the digit `d`.
pub open spec fn digit_char(d: nat) -> char {
    if d == 0 {
        '0'
    } else if d == 1 {
        '1'
    } else if d == 2 {
        '2'
    } else if d == 3 {
        '3'
    } else if d == 4 {
        '4'
    } else if d == 5 {
        '5'
    } else if d == 6 {
        '6'
    } else if d == 7 {
        '7'
    } else if d == 8 {
        '8'
    } else {
        '9'
    }
}

/// The decimal numeral of `n`: no sign, no leading zero but for zero itself.
pub open spec fn decimal(n: nat) -> Seq<char>
    decreases n,
{
    if n < 10 {
        seq![digit_char(n)]
    } else {
        decimal(n / 10).push(digit_char(n % 10))
    }
}

/// The digit `d` as a text of one character.
fn digit_str(d: u64) -> (s: &'static str)
    requires
        d < 10,
    ensures
        s@ == seq![digit_char(d as nat)],
{
    proof {
        reveal_strlit("0");
        reveal_strlit("1");
        reveal_strlit("2");
        reveal_strlit("3");
        reveal_strlit("4");
        reveal_strlit("5");
        reveal_strlit("6");
        reveal_strlit("7");
        reveal_strlit("8");
        reveal_strlit("9");
    }
    let s: &'static str = if d == 0 {
        "0"
    } else if d == 1 {
        "1"
    } else if d == 2 {
        "2"
    } else if d == 3 {
        "3"
    } else if d == 4 {
        "4"
    } else if d == 5 {
        "5"
    } else if d == 6 {
        "6"
    } else if d == 7 {
        "7"
    } else if d == 8 {
        "8"
    } else {
        "9"
    };
    assert(s@ =~= seq![digit_char(d as nat)]);
    s
}

/// Appends the decimal numeral of `n` to `out`.
pub fn push_decimal(out: &mut String, n: u64)
    ensures
        final(out)@ == old(out)@ + decimal(n as nat),
    decreases n,
{
    if n >= 10 {
        push_decimal(out, n / 10);
    }
    out.append(digit_str(n % 10));
}

/// The decimal numeral of an integer: a minus sign before the numeral of the
/// magnitude where the integer is negative.
pub open spec fn signed_decimal(n: int) -> Seq<char> {
    if n < 0 {
        seq!['-'] + decimal((-n) as nat)
    } else {
        decimal(n as nat)
    }
}

/// Appends the decimal numeral of `n`, with its sign, to `out`.
pub fn push_signed_decimal(out: &mut String, n: i32)
    ensures
        final(out)@ == old(out)@ + signed_decimal(n as int),
{
    if n < 0 {
        proof {
            reveal_strlit("-");
        }
        out.append("-");
        assert("-"@ =~= seq!['-']);
        let magnitude: u64 = (0 - n as i64) as u64;
        push_decimal(out, magnitude);
        assert(old(out)@ + seq!['-'] + decimal(magnitude as nat) =~= old(out)@ + (seq!['-']
            + decimal(magnitude as nat)));
    } else {
        push_decimal(out, n as u64);
    }
}

} // verus!
