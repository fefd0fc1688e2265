//! Text primitives on sequences of characters: substring search, substitution,
//! line splitting and decimal rendering.

use vstd::prelude::*;
use vstd::string::*;

verus! {

/// `pat` stands in `s` at character position `i`.
pub open spec fn occurs_at(s: Seq<char>, pat: Seq<char>, i: int) -> bool {
    0 <= i && i + pat.len() <= s.len() && s.subrange(i, i + pat.len()) == pat
}

/// `pat` stands somewhere in `s`.
pub open spec fn contains_text(s: Seq<char>, pat: Seq<char>) -> bool {
    exists|i: int| #[trigger] occurs_at(s, pat, i)
}

/// `s` with every occurrence of `pat` replaced by `with`, scanning from the
/// left and resuming behind each replaced occurrence. An empty `pat` replaces
/// nothing.
pub open spec fn replace_all(s: Seq<char>, pat: Seq<char>, with: Seq<char>) -> Seq<char>
    decreases s.len(),
{
    if pat.len() == 0 || s.len() == 0 {
        s
    } else if occurs_at(s, pat, 0) {
        with + replace_all(s.subrange(pat.len() as int, s.len() as int), pat, with)
    } else {
        seq![s[0]] + replace_all(s.subrange(1, s.len() as int), pat, with)
    }
}

/// The pieces of `s` between line feeds. There is always one piece more than
/// there are line feeds, so a text that ends in a line feed ends in an empty
/// piece.
pub open spec fn lines_of(s: Seq<char>) -> Seq<Seq<char>>
    decreases s.len(),
{
    if s.len() == 0 {
        seq![Seq::<char>::empty()]
    } else {
        let before = lines_of(s.drop_last());
        if s.last() == '\n' {
            before.push(Seq::<char>::empty())
        } else {
            before.update(before.len() - 1, before.last().push(s.last()))
        }
    }
}

/// The character sequences of a sequence of strings.
pub open spec fn texts(v: Seq<String>) -> Seq<Seq<char>> {
    Seq::new(v.len(), |k: int| v[k]@)
}

/// The character that writes the digit `d`.
pub open spec fn digit_char(d: nat) -> char {
    if d == 0 {
        '0'
    } else if d == 1 {
        '1'
    } else if d == 2 {
        '2'
    } else if d == 3 {
        '3'
    } else if d == 4 {
        '4'
    } else if d == 5 {
        '5'
    } else if d == 6 {
        '6'
    } else if d == 7 {
        '7'
    } else if d == 8 {
        '8'
    } else {
        '9'
    }
}

/// `n` in decimal, without sign or leading zeros.
pub open spec fn decimal(n: nat) -> Seq<char>
    decreases n,
{
    if n < 10 {
        seq![digit_char(n)]
    } else {
        decimal(n / 10).push(digit_char(n % 10))
    }
}

pub proof fn lemma_lines_nonempty(s: Seq<char>)
    ensures
        lines_of(s).len() >= 1,
    decreases s.len(),
{
    if s.len() > 0 {
        lemma_lines_nonempty(s.drop_last());
    }
}

/// Tells whether `pat` stands in `s` at character position `i`.
pub fn matches_at(s: &str, pat: &str, i: usize) -> (found: bool)
    ensures
        found == occurs_at(s@, pat@, i as int),
{
    let n: usize = s.unicode_len();
    let m: usize = pat.unicode_len();
    if i > n || m > n - i {
        return false;
    }
    let piece = String::from_str(s.substring_char(i, i + m));
    let wanted = String::from_str(pat);
    piece == wanted
}

/// Tells whether `pat` stands somewhere in `s`.
pub fn contains(s: &str, pat: &str) -> (found: bool)
    ensures
        found == contains_text(s@, pat@),
{
    let n: usize = s.unicode_len();
    let m: usize = pat.unicode_len();
    if m > n {
        return false;
    }
    let last: usize = n - m;
    let mut i: usize = 0;
    loop
        invariant
            n == s@.len(),
            m == pat@.len(),
            last == n - m,
            i <= last,
            forall|j: int| 0 <= j < i ==> !#[trigger] occurs_at(s@, pat@, j),
        decreases last - i,
    {
        if matches_at(s, pat, i) {
            return true;
        }
        if i == last {
            return false;
        }
        i += 1;
    }
}

/// Replaces every occurrence of `pat` in `s` by `with`.
pub fn replace(s: &str, pat: &str, with: &str) -> (out: String)
    ensures
        out@ == replace_all(s@, pat@, with@),
{
    let n: usize = s.unicode_len();
    let m: usize = pat.unicode_len();
    if m == 0 {
        return String::from_str(s);
    }
    let mut out = String::new();
    let mut i: usize = 0;
    proof {
        assert(s@.subrange(0, n as int) =~= s@);
        assert(out@ + replace_all(s@, pat@, with@) =~= replace_all(s@, pat@, with@));
    }
    while i < n
        invariant
            n == s@.len(),
            m == pat@.len(),
            m > 0,
            i <= n,
            out@ + replace_all(s@.subrange(i as int, n as int), pat@, with@) == replace_all(
                s@,
                pat@,
                with@,
            ),
        decreases n - i,
    {
        let ghost rest = s@.subrange(i as int, n as int);
        let ghost before = out@;
        if matches_at(s, pat, i) {
            out.append(with);
            proof {
                assert(rest.subrange(0, m as int) =~= s@.subrange(i as int, i + m));
                assert(occurs_at(rest, pat@, 0));
                assert(rest.subrange(m as int, rest.len() as int) =~= s@.subrange(
                    i + m,
                    n as int,
                ));
                let tail = replace_all(s@.subrange(i + m, n as int), pat@, with@);
                assert((before + with@) + tail =~= before + (with@ + tail));
            }
            i += m;
        } else {
            out.append(s.substring_char(i, i + 1));
            proof {
                if i + m <= n {
                    assert(rest.subrange(0, m as int) =~= s@.subrange(i as int, i + m));
                }
                assert(!occurs_at(rest, pat@, 0));
                assert(rest.subrange(1, rest.len() as int) =~= s@.subrange(i + 1, n as int));
                assert(s@.subrange(i as int, i + 1) =~= seq![rest[0]]);
                let tail = replace_all(s@.subrange(i + 1, n as int), pat@, with@);
                assert((before + seq![rest[0]]) + tail =~= before + (seq![rest[0]] + tail));
            }
            i += 1;
        }
    }
    assert(out@ + Seq::<char>::empty() =~= out@);
    out
}

/// Tells whether the character of `s` at position `i` is a line feed. For a
/// text known to hold ASCII only, the look takes constant time.
fn line_feed_at(s: &str, ascii: bool, i: usize) -> (found: bool)
    requires
        i < s@.len(),
        ascii ==> is_ascii(s),
    ensures
        found == (s@[i as int] == '\n'),
{
    if ascii {
        let byte: u8 = s.get_ascii(i);
        assert('\0' <= s@[i as int] <= '\u{7f}');
        byte == 10u8
    } else {
        s.get_char(i) == '\n'
    }
}

/// The characters of `s` from position `from` up to `to`. For a text known to
/// hold ASCII only, the cut takes constant time.
fn piece<'a>(s: &'a str, ascii: bool, from: usize, to: usize) -> (out: &'a str)
    requires
        from <= to <= s@.len(),
        ascii ==> is_ascii(s),
    ensures
        out@ == s@.subrange(from as int, to as int),
{
    if ascii {
        s.substring_ascii(from, to)
    } else {
        s.substring_char(from, to)
    }
}

/// Splits `s` at its line feeds.
pub fn split_lines(s: &str) -> (lines: Vec<String>)
    ensures
        texts(lines@) == lines_of(s@),
{
    let n: usize = s.unicode_len();
    let ascii: bool = s.is_ascii();
    let mut lines: Vec<String> = Vec::new();
    let mut start: usize = 0;
    let mut i: usize = 0;
    proof {
        assert(s@.take(0).len() == 0);
        assert(s@.subrange(0, 0) =~= Seq::<char>::empty());
        assert(texts(lines@).push(s@.subrange(0, 0)) =~= seq![Seq::<char>::empty()]);
    }
    while i < n
        invariant
            n == s@.len(),
            ascii ==> is_ascii(s),
            start <= i <= n,
            texts(lines@).push(s@.subrange(start as int, i as int)) == lines_of(s@.take(i as int)),
        decreases n - i,
    {
        let ghost done = texts(lines@);
        let ghost open_line = s@.subrange(start as int, i as int);
        let ghost c = s@[i as int];
        proof {
            let prefix = s@.take(i + 1);
            assert(prefix.drop_last() =~= s@.take(i as int));
            assert(prefix.last() == c);
        }
        if line_feed_at(s, ascii, i) {
            lines.push(String::from_str(piece(s, ascii, start, i)));
            start = i + 1;
            proof {
                assert(texts(lines@) =~= done.push(open_line));
                assert(s@.subrange(i + 1, i + 1) =~= Seq::<char>::empty());
            }
        } else {
            proof {
                assert(s@.subrange(start as int, i + 1) =~= open_line.push(c));
                assert(done.push(open_line).update(done.len() as int, open_line.push(c))
                    =~= done.push(open_line.push(c)));
            }
        }
        i += 1;
    }
    let ghost done = texts(lines@);
    lines.push(String::from_str(piece(s, ascii, start, n)));
    proof {
        assert(texts(lines@) =~= done.push(s@.subrange(start as int, n as int)));
        assert(s@.take(n as int) =~= s@);
    }
    lines
}

/// The one-character text of the digit `d`.
fn digit_text(d: usize) -> (t: &'static str)
    requires
        d < 10,
    ensures
        t@ == seq![digit_char(d as nat)],
{
    proof {
        reveal_strlit("0");
        reveal_strlit("1");
        reveal_strlit("2");
        reveal_strlit("3");
        reveal_strlit("4");
        reveal_strlit("5");
        reveal_strlit("6");
        reveal_strlit("7");
        reveal_strlit("8");
        reveal_strlit("9");
    }
    let t = if d == 0 {
        "0"
    } else if d == 1 {
        "1"
    } else if d == 2 {
        "2"
    } else if d == 3 {
        "3"
    } else if d == 4 {
        "4"
    } else if d == 5 {
        "5"
    } else if d == 6 {
        "6"
    } else if d == 7 {
        "7"
    } else if d == 8 {
        "8"
    } else {
        "9"
    };
    assert(t@ =~= seq![digit_char(d as nat)]);
    t
}

/// Writes `n` in decimal.
pub fn decimal_text(n: usize) -> (out: String)
    ensures
        out@ == decimal(n as nat),
    decreases n,
{
    if n < 10 {
        String::from_str(digit_text(n))
    } else {
        let head = decimal_text(n / 10);
        let out = head.concat(digit_text(n % 10));
        assert(out@ =~= decimal(n as nat));
        out
    }
}

} // verus!
