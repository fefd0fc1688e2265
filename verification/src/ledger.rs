//! The transfer ledger: the set of destination paths that were ever handed to
//! a transfer. It only grows, and a path stands in it once.

use crate::text::{lemma_lines_nonempty, lines_of, split_lines, texts};
use vstd::prelude::*;
use vstd::string::*;

verus! {

/// A set of destination paths, kept in the order in which they were first
/// added.
pub struct Ledger {
    paths: Vec<String>,
}

impl View for Ledger {
    type V = Set<Seq<char>>;

    /// The paths as a set.
    open spec fn view(&self) -> Set<Seq<char>> {
        self.entries().to_set()
    }
}

/// The text that holds each of `lines` followed by a line feed.
pub open spec fn joined_lines(lines: Seq<Seq<char>>) -> Seq<char>
    decreases lines.len(),
{
    if lines.len() == 0 {
        Seq::<char>::empty()
    } else {
        joined_lines(lines.drop_last()) + lines.last() + seq!['\n']
    }
}

/// The elements of `s` in the order in which each comes first.
pub open spec fn first_occurrences(s: Seq<Seq<char>>) -> Seq<Seq<char>>
    decreases s.len(),
{
    if s.len() == 0 {
        Seq::<Seq<char>>::empty()
    } else {
        let before = first_occurrences(s.drop_last());
        if before.contains(s.last()) {
            before
        } else {
            before.push(s.last())
        }
    }
}

/// A line without the carriage return that it may end in.
pub open spec fn without_return(line: Seq<char>) -> Seq<char> {
    if line.len() > 0 && line.last() == '\r' {
        line.drop_last()
    } else {
        line
    }
}

/// The lines of a text file: the pieces that a line feed ends, each without a
/// carriage return before that line feed, and then what follows the last line
/// feed, as it stands, unless nothing follows it.
pub open spec fn file_lines(content: Seq<char>) -> Seq<Seq<char>> {
    let pieces = lines_of(content);
    let ended = Seq::new((pieces.len() - 1) as nat, |k: int| without_return(pieces[k]));
    if pieces.last().len() == 0 {
        ended
    } else {
        ended.push(pieces.last())
    }
}

/// `line` can stand in the ledger file as a line of its own: it holds no line
/// feed and does not end in a carriage return.
pub open spec fn is_plain_line(line: Seq<char>) -> bool {
    &&& forall|i: int| 0 <= i < line.len() ==> line[i] != '\n'
    &&& line.len() > 0 ==> line.last() != '\r'
}

/// `content` is empty or ends in a line feed.
pub open spec fn is_closed_text(content: Seq<char>) -> bool {
    content.len() == 0 || content.last() == '\n'
}

impl Ledger {
    /// The paths in the order of their first addition.
    pub closed spec fn entries(&self) -> Seq<Seq<char>> {
        texts(self.paths@)
    }

    #[verifier::type_invariant]
    spec fn well_formed(&self) -> bool {
        texts(self.paths@).no_duplicates()
    }

    /// The ledger without any path.
    pub fn new() -> (ledger: Ledger)
        ensures
            ledger@ == Set::<Seq<char>>::empty(),
            ledger.entries() == Seq::<Seq<char>>::empty(),
    {
        let ledger = Ledger { paths: Vec::new() };
        assert(ledger.entries() =~= Seq::<Seq<char>>::empty());
        assert(ledger@ =~= Set::<Seq<char>>::empty());
        ledger
    }

    /// The number of paths.
    pub fn len(&self) -> (n: usize)
        ensures
            n == self.entries().len(),
            n == self@.len(),
            self@.finite(),
    {
        proof {
            use_type_invariant(self);
            self.entries().unique_seq_to_set();
        }
        self.paths.len()
    }

    /// Tells whether `path` is recorded.
    pub fn contains(&self, path: &str) -> (found: bool)
        ensures
            found == self@.contains(path@),
    {
        let wanted = String::from_str(path);
        let mut i: usize = 0;
        while i < self.paths.len()
            invariant
                i <= self.paths.len(),
                wanted@ == path@,
                forall|k: int| 0 <= k < i ==> self.entries()[k] != path@,
            decreases self.paths.len() - i,
        {
            if self.paths[i] == wanted {
                assert(self.entries()[i as int] == path@);
                return true;
            }
            i += 1;
        }
        false
    }

    /// The ledger with `path` recorded too. A path that is already recorded
    /// changes nothing.
    pub fn insert(self, path: String) -> (grown: Ledger)
        ensures
            grown@ == self@.insert(path@),
            grown.entries() == if self@.contains(path@) {
                self.entries()
            } else {
                self.entries().push(path@)
            },
    {
        proof {
            use_type_invariant(&self);
        }
        if self.contains(path.as_str()) {
            assert(self@ =~= self@.insert(path@));
            self
        } else {
            let ghost before = self.entries();
            let mut paths = self.paths;
            paths.push(path);
            proof {
                assert(texts(paths@) =~= before.push(path@));
                assert(!before.contains(path@));
                assert(before.push(path@).no_duplicates());
                lemma_push_to_set(before, path@);
            }
            Ledger { paths }
        }
    }

    /// A copy of the paths, in the order of their first addition.
    pub fn paths(&self) -> (out: Vec<String>)
        ensures
            texts(out@) == self.entries(),
    {
        let mut out: Vec<String> = Vec::new();
        let mut i: usize = 0;
        while i < self.paths.len()
            invariant
                i <= self.paths.len(),
                texts(out@) == self.entries().take(i as int),
            decreases self.paths.len() - i,
        {
            let ghost before = texts(out@);
            out.push(self.paths[i].clone());
            assert(texts(out@) =~= before.push(self.entries()[i as int]));
            assert(self.entries().take(i + 1) =~= self.entries().take(i as int).push(
                self.entries()[i as int],
            ));
            i += 1;
        }
        assert(self.entries().take(self.paths.len() as int) =~= self.entries());
        out
    }
}

/// Adding an element at the end of a sequence adds it to the sequence's set.
pub proof fn lemma_push_to_set(s: Seq<Seq<char>>, x: Seq<char>)
    ensures
        s.push(x).to_set() == s.to_set().insert(x),
{
    let a = s.push(x).to_set();
    let b = s.to_set().insert(x);
    assert forall|e: Seq<char>| a.contains(e) == b.contains(e) by {
        if a.contains(e) {
            let k = choose|k: int| 0 <= k < s.push(x).len() && s.push(x)[k] == e;
            if k < s.len() {
                assert(s[k] == e);
            }
        }
        if b.contains(e) {
            if e == x {
                assert(s.push(x)[s.len() as int] == e);
            } else {
                let k = choose|k: int| 0 <= k < s.len() && s[k] == e;
                assert(s.push(x)[k] == e);
            }
        }
    }
    assert(a =~= b);
}

/// The set of a concatenation is the union of the two sets.
pub proof fn lemma_concat_to_set(a: Seq<Seq<char>>, b: Seq<Seq<char>>)
    ensures
        (a + b).to_set() == a.to_set().union(b.to_set()),
    decreases b.len(),
{
    if b.len() == 0 {
        assert(a + b =~= a);
        assert(a.to_set().union(b.to_set()) =~= a.to_set());
    } else {
        lemma_concat_to_set(a, b.drop_last());
        assert(a + b =~= (a + b.drop_last()).push(b.last()));
        assert(b =~= b.drop_last().push(b.last()));
        lemma_push_to_set(a + b.drop_last(), b.last());
        lemma_push_to_set(b.drop_last(), b.last());
        assert((a + b).to_set() =~= a.to_set().union(b.to_set()));
    }
}

/// `line` without the carriage return that it may end in.
fn strip_return(line: &str) -> (out: String)
    ensures
        out@ == without_return(line@),
{
    let n: usize = line.unicode_len();
    if n > 0 && line.get_char(n - 1) == '\r' {
        assert(line@.drop_last() =~= line@.subrange(0, n - 1));
        String::from_str(line.substring_char(0, n - 1))
    } else {
        String::from_str(line)
    }
}

/// The lines of a text file.
pub fn read_lines(content: &str) -> (lines: Vec<String>)
    ensures
        texts(lines@) == file_lines(content@),
{
    let pieces = split_lines(content);
    proof {
        lemma_lines_nonempty(content@);
    }
    let ended: usize = pieces.len() - 1;
    let mut lines: Vec<String> = Vec::new();
    let mut i: usize = 0;
    while i < ended
        invariant
            i <= ended,
            ended == pieces@.len() - 1,
            texts(pieces@) == lines_of(content@),
            texts(lines@) == Seq::new(i as nat, |k: int| without_return(lines_of(content@)[k])),
        decreases ended - i,
    {
        let ghost before = texts(lines@);
        lines.push(strip_return(pieces[i].as_str()));
        proof {
            let line = without_return(lines_of(content@)[i as int]);
            assert(texts(pieces@)[i as int] == pieces@[i as int]@);
            assert(texts(lines@) =~= before.push(line));
        }
        i += 1;
    }
    let last = &pieces[ended];
    assert(texts(pieces@)[ended as int] == last@);
    if last.as_str().unicode_len() > 0 {
        let ghost before = texts(lines@);
        lines.push(last.clone());
        assert(texts(lines@) =~= before.push(last@));
    }
    lines
}

/// The ledger that a set of lines records. Every line is a path, taken as it
/// stands; a line that comes again is recorded once.
pub fn ledger_of_lines(lines: &Vec<String>) -> (ledger: Ledger)
    ensures
        ledger@ == texts(lines@).to_set(),
        ledger.entries() == first_occurrences(texts(lines@)),
{
    let mut ledger = Ledger::new();
    let mut i: usize = 0;
    assert(texts(lines@).take(0).to_set() =~= Set::<Seq<char>>::empty());
    while i < lines.len()
        invariant
            i <= lines.len(),
            ledger@ == texts(lines@).take(i as int).to_set(),
            ledger.entries() == first_occurrences(texts(lines@).take(i as int)),
        decreases lines.len() - i,
    {
        ledger = ledger.insert(lines[i].clone());
        proof {
            let all = texts(lines@);
            assert(all.take(i + 1) =~= all.take(i as int).push(all[i as int]));
            assert(all.take(i + 1).drop_last() =~= all.take(i as int));
            lemma_push_to_set(all.take(i as int), all[i as int]);
        }
        i += 1;
    }
    assert(texts(lines@).take(lines.len() as int) =~= texts(lines@));
    ledger
}

/// The ledger that the content of the ledger file records: each of its lines
/// is a path, and a path that stands on several lines is recorded once. An
/// empty file gives the empty ledger.
pub fn load_transferred_files(content: &str) -> (ledger: Ledger)
    ensures
        ledger@ == file_lines(content@).to_set(),
        ledger.entries() == first_occurrences(file_lines(content@)),
{
    let lines = read_lines(content);
    ledger_of_lines(&lines)
}

/// The lines to append to the ledger file for the paths of one pass: each path
/// once, as a line of its own.
pub fn save_transferred_files(transferred_files: &Ledger) -> (lines: Vec<String>)
    ensures
        texts(lines@) == transferred_files.entries(),
        texts(lines@).no_duplicates(),
        texts(lines@).to_set() == transferred_files@,
{
    proof {
        use_type_invariant(transferred_files);
    }
    transferred_files.paths()
}

/// The text that appending `lines` to a file adds to it: each line followed by
/// a line feed.
pub fn render_lines(lines: &Vec<String>) -> (out: String)
    ensures
        out@ == joined_lines(texts(lines@)),
{
    let mut out = String::new();
    let mut i: usize = 0;
    assert(texts(lines@).take(0) =~= Seq::<Seq<char>>::empty());
    while i < lines.len()
        invariant
            i <= lines.len(),
            out@ == joined_lines(texts(lines@).take(i as int)),
        decreases lines.len() - i,
    {
        proof {
            let all = texts(lines@);
            assert(all.take(i + 1).drop_last() =~= all.take(i as int));
            assert(all.take(i + 1).last() == lines@[i as int]@);
            reveal_strlit("\n");
            assert("\n"@ =~= seq!['\n']);
        }
        out.append(lines[i].as_str());
        out.append("\n");
        i += 1;
    }
    assert(texts(lines@).take(lines.len() as int) =~= texts(lines@));
    out
}

/// Characters without a line feed, added at the end of a text, lengthen its
/// last piece and leave the others as they are.
proof fn lemma_plain_suffix(s: Seq<char>, l: Seq<char>)
    requires
        forall|i: int| 0 <= i < l.len() ==> l[i] != '\n',
    ensures
        lines_of(s).len() >= 1,
        lines_of(s + l) == lines_of(s).update(lines_of(s).len() - 1, lines_of(s).last() + l),
    decreases l.len(),
{
    lemma_lines_nonempty(s);
    let pieces = lines_of(s);
    let n = pieces.len() as int;
    if l.len() == 0 {
        assert(s + l =~= s);
        assert(pieces.last() + l =~= pieces.last());
        assert(pieces.update(n - 1, pieces.last()) =~= pieces);
    } else {
        let shorter = l.drop_last();
        lemma_plain_suffix(s, shorter);
        assert((s + l).drop_last() =~= s + shorter);
        assert((s + l).last() == l.last());
        let before = lines_of(s + shorter);
        assert(before == pieces.update(n - 1, pieces.last() + shorter));
        assert((pieces.last() + shorter).push(l.last()) =~= pieces.last() + l);
        assert(before.update(n - 1, before.last().push(l.last())) =~= pieces.update(
            n - 1,
            pieces.last() + l,
        ));
    }
}

/// A line appended to the ledger file is read back as its last line, behind
/// the lines that the file held.
pub proof fn appended_line_is_read_back(content: Seq<char>, line: Seq<char>)
    requires
        is_closed_text(content),
        is_plain_line(line),
    ensures
        file_lines(content + line + seq!['\n']) == file_lines(content).push(line),
        is_closed_text(content + line + seq!['\n']),
{
    lemma_plain_suffix(content, line);
    let pieces = lines_of(content);
    let n = pieces.len() as int;
    assert(pieces.last().len() == 0);
    assert(pieces.last() + line =~= line);
    let grown = content + line + seq!['\n'];
    assert(grown.drop_last() =~= content + line);
    assert(grown.last() == '\n');
    let after = lines_of(grown);
    assert(after == pieces.update(n - 1, line).push(Seq::<char>::empty()));
    assert(without_return(line) == line);
    assert(file_lines(grown) =~= file_lines(content).push(line));
}

/// Lines appended to the ledger file are read back behind the lines that the
/// file held, which stay as they were.
pub proof fn appended_lines_are_read_back(content: Seq<char>, lines: Seq<Seq<char>>)
    requires
        is_closed_text(content),
        forall|k: int| 0 <= k < lines.len() ==> is_plain_line(#[trigger] lines[k]),
    ensures
        file_lines(content + joined_lines(lines)) == file_lines(content) + lines,
        is_closed_text(content + joined_lines(lines)),
    decreases lines.len(),
{
    if lines.len() == 0 {
        assert(content + joined_lines(lines) =~= content);
        assert(file_lines(content) + lines =~= file_lines(content));
    } else {
        let earlier = lines.drop_last();
        assert forall|k: int| 0 <= k < earlier.len() implies is_plain_line(
            #[trigger] earlier[k],
        ) by {
            assert(earlier[k] == lines[k]);
        }
        appended_lines_are_read_back(content, earlier);
        let so_far = content + joined_lines(earlier);
        assert(is_plain_line(lines[lines.len() - 1]));
        appended_line_is_read_back(so_far, lines.last());
        assert(content + joined_lines(lines) =~= so_far + lines.last() + seq!['\n']);
        assert((file_lines(content) + earlier).push(lines.last()) =~= file_lines(content) + lines);
    }
}

/// The ledger read from the file after lines were appended to it holds every
/// path that it held before, and the appended ones.
pub proof fn ledger_file_only_grows(content: Seq<char>, lines: Seq<Seq<char>>)
    requires
        is_closed_text(content),
        forall|k: int| 0 <= k < lines.len() ==> is_plain_line(#[trigger] lines[k]),
    ensures
        file_lines(content + joined_lines(lines)).to_set() == file_lines(content).to_set().union(
            lines.to_set(),
        ),
        file_lines(content).to_set().subset_of(file_lines(content + joined_lines(lines)).to_set()),
{
    appended_lines_are_read_back(content, lines);
    lemma_concat_to_set(file_lines(content), lines);
}

} // verus!
