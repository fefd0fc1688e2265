//! One transfer pass: which entries of the source directory are handed to a
//! copy, given the ledger, and what the pass leaves behind in the ledger file
//! and the activity log.

use crate::ledger::{
    file_lines, first_occurrences, is_closed_text, is_plain_line, joined_lines,
    ledger_file_only_grows, lemma_push_to_set, save_transferred_files, Ledger,
};
use crate::text::{decimal, decimal_text, texts};
use vstd::prelude::*;
use vstd::string::*;

verus! {

/// An entry of the source directory: its file name and its full path.
pub struct SourceEntry {
    pub name: String,
    pub path: String,
}

/// One copy to launch.
pub struct CopyJob {
    pub source: String,
    pub destination: String,
}

/// The result of one pass: the copies to launch, in the order of the listing,
/// the destination paths they add to the ledger, and their number.
pub struct TransferPass {
    pub jobs: Vec<CopyJob>,
    pub new_files: Ledger,
    pub count: usize,
}

/// What a pass that launched at least one copy writes: the lines appended to
/// the ledger file and the line appended to the activity log.
pub struct PassRecord {
    pub ledger_lines: Vec<String>,
    pub log_line: String,
}

/// Each entry as its name and its path.
pub open spec fn entry_views(v: Seq<SourceEntry>) -> Seq<(Seq<char>, Seq<char>)> {
    Seq::new(v.len(), |k: int| (v[k].name@, v[k].path@))
}

/// Each job as its source and its destination.
pub open spec fn job_views(v: Seq<CopyJob>) -> Seq<(Seq<char>, Seq<char>)> {
    Seq::new(v.len(), |k: int| (v[k].source@, v[k].destination@))
}

/// The destination path of the entry called `name`.
pub open spec fn destination_of(dir: Seq<char>, name: Seq<char>) -> Seq<char> {
    dir + seq!['/'] + name
}

/// The jobs of a pass over `entries` (name, path) against the ledger `known`:
/// one job (source, destination) for each entry whose destination is not in
/// `known`, in the order of the listing.
pub open spec fn planned(
    known: Set<Seq<char>>,
    dir: Seq<char>,
    entries: Seq<(Seq<char>, Seq<char>)>,
) -> Seq<(Seq<char>, Seq<char>)>
    decreases entries.len(),
{
    if entries.len() == 0 {
        Seq::empty()
    } else {
        let before = planned(known, dir, entries.drop_last());
        let destination = destination_of(dir, entries.last().0);
        if known.contains(destination) {
            before
        } else {
            before.push((entries.last().1, destination))
        }
    }
}

/// The destinations of `jobs`, in their order.
pub open spec fn destination_seq(jobs: Seq<(Seq<char>, Seq<char>)>) -> Seq<Seq<char>> {
    Seq::new(jobs.len(), |k: int| jobs[k].1)
}

/// The destinations of `jobs`, as a set.
pub open spec fn destinations(jobs: Seq<(Seq<char>, Seq<char>)>) -> Set<Seq<char>> {
    destination_seq(jobs).to_set()
}

/// The ledger after a pass over `entries` that started from `known`.
pub open spec fn ledger_after(
    known: Set<Seq<char>>,
    dir: Seq<char>,
    entries: Seq<(Seq<char>, Seq<char>)>,
) -> Set<Seq<char>> {
    known.union(destinations(planned(known, dir, entries)))
}

/// The ledger after one pass over each of `listings` in turn.
pub open spec fn ledger_after_passes(
    known: Set<Seq<char>>,
    dir: Seq<char>,
    listings: Seq<Seq<(Seq<char>, Seq<char>)>>,
) -> Set<Seq<char>>
    decreases listings.len(),
{
    if listings.len() == 0 {
        known
    } else {
        ledger_after(ledger_after_passes(known, dir, listings.drop_last()), dir, listings.last())
    }
}

/// The line of the activity log for a pass of `count` files at `timestamp`.
pub open spec fn activity_line(timestamp: Seq<char>, count: nat) -> Seq<char> {
    timestamp + " transferred files: "@ + decimal(count)
}

/// The destination path of the entry called `name`: the directory, a slash and
/// the name.
pub fn destination_path(destination_dir: &str, name: &str) -> (path: String)
    ensures
        path@ == destination_of(destination_dir@, name@),
{
    proof {
        reveal_strlit("/");
        assert("/"@ =~= seq!['/']);
    }
    String::from_str(destination_dir).concat("/").concat(name)
}

/// Plans one pass. Every entry of the listing whose destination path the
/// ledger does not hold becomes a job, whatever the entry is and whether or
/// not a file stands at the destination; the others are skipped.
pub fn transfer_files(
    previously_transferred: &Ledger,
    destination_dir: &str,
    entries: &Vec<SourceEntry>,
) -> (pass: TransferPass)
    ensures
        job_views(pass.jobs@) == planned(
            previously_transferred@,
            destination_dir@,
            entry_views(entries@),
        ),
        pass.count == pass.jobs@.len(),
        pass.new_files@ == destinations(job_views(pass.jobs@)),
        pass.new_files.entries() == first_occurrences(destination_seq(job_views(pass.jobs@))),
        entries@.len() == 0 ==> pass.count == 0,
{
    let mut jobs: Vec<CopyJob> = Vec::new();
    let mut new_files = Ledger::new();
    let mut i: usize = 0;
    proof {
        assert(job_views(jobs@) =~= Seq::empty());
        assert(destination_seq(job_views(jobs@)) =~= Seq::empty());
        assert(destinations(job_views(jobs@)) =~= Set::empty());
    }
    while i < entries.len()
        invariant
            i <= entries.len(),
            job_views(jobs@) == planned(
                previously_transferred@,
                destination_dir@,
                entry_views(entries@).take(i as int),
            ),
            new_files@ == destinations(job_views(jobs@)),
            new_files.entries() == first_occurrences(destination_seq(job_views(jobs@))),
        decreases entries.len() - i,
    {
        let entry = &entries[i];
        let destination = destination_path(destination_dir, entry.name.as_str());
        proof {
            let all = entry_views(entries@);
            assert(all.take(i + 1).drop_last() =~= all.take(i as int));
            assert(all.take(i + 1).last() == (entry.name@, entry.path@));
        }
        if !previously_transferred.contains(destination.as_str()) {
            let ghost before = job_views(jobs@);
            let job = CopyJob { source: entry.path.clone(), destination: destination.clone() };
            jobs.push(job);
            new_files = new_files.insert(destination);
            proof {
                let added = (entry.path@, destination@);
                assert(job_views(jobs@) =~= before.push(added));
                assert(destination_seq(before.push(added)) =~= destination_seq(before).push(
                    destination@,
                ));
                assert(destination_seq(before).push(destination@).drop_last() =~= destination_seq(
                    before,
                ));
                lemma_push_to_set(destination_seq(before), destination@);
            }
        }
        i += 1;
    }
    assert(entry_views(entries@).take(entries@.len() as int) =~= entry_views(entries@));
    let count: usize = jobs.len();
    TransferPass { jobs, new_files, count }
}

/// Tells whether progress is reported after the `launched`-th copy of a pass:
/// after every tenth.
pub fn progress_due(launched: usize) -> (due: bool)
    ensures
        due == (launched > 0 && launched % 10 == 0),
{
    launched > 0 && launched % 10 == 0
}

/// The line of the activity log for a pass of `count` files at `timestamp`.
pub fn activity_entry(timestamp: &str, count: usize) -> (line: String)
    ensures
        line@ == activity_line(timestamp@, count as nat),
{
    let number = decimal_text(count);
    String::from_str(timestamp).concat(" transferred files: ").concat(number.as_str())
}

/// The local time of this call, as text. Calls `chrono::Local::now` and writes
/// the result with its `Display`. Nothing is claimed of the text: it depends on
/// the clock and the time zone of the machine. chrono stops the program if the
/// clock stands before 1970.
#[verifier::external_body]
fn local_timestamp() -> (text: String) {
    chrono::Local::now().to_string()
}

/// The line of the activity log for a pass of `count` files that ends now.
pub fn log_action(transferred_files_count: usize) -> (line: String)
    ensures
        exists|timestamp: Seq<char>|
            line@ == #[trigger] activity_line(timestamp, transferred_files_count as nat),
{
    let timestamp = local_timestamp();
    let line = activity_entry(timestamp.as_str(), transferred_files_count);
    assert(line@ == activity_line(timestamp@, transferred_files_count as nat));
    line
}

/// What `pass` writes when it ended at `timestamp`: nothing if it launched no
/// copy, else its new paths as ledger lines and one line of the activity log.
pub fn record_pass(pass: &TransferPass, timestamp: &str) -> (record: Option<PassRecord>)
    ensures
        record is None <==> pass.count == 0,
        record matches Some(r) ==> {
            &&& texts(r.ledger_lines@) == pass.new_files.entries()
            &&& texts(r.ledger_lines@).no_duplicates()
            &&& texts(r.ledger_lines@).to_set() == pass.new_files@
            &&& r.log_line@ == activity_line(timestamp@, pass.count as nat)
        },
{
    if pass.count == 0 {
        None
    } else {
        let ledger_lines = save_transferred_files(&pass.new_files);
        let log_line = activity_entry(timestamp, pass.count);
        Some(PassRecord { ledger_lines, log_line })
    }
}

/// What `pass` writes when it ends now. A pass that launched no copy writes
/// nothing, and the clock is not read for it.
pub fn finish_pass(pass: &TransferPass) -> (record: Option<PassRecord>)
    ensures
        record is None <==> pass.count == 0,
        record matches Some(r) ==> {
            &&& texts(r.ledger_lines@) == pass.new_files.entries()
            &&& texts(r.ledger_lines@).no_duplicates()
            &&& texts(r.ledger_lines@).to_set() == pass.new_files@
            &&& exists|timestamp: Seq<char>|
                r.log_line@ == #[trigger] activity_line(timestamp, pass.count as nat)
        },
{
    if pass.count == 0 {
        None
    } else {
        let ledger_lines = save_transferred_files(&pass.new_files);
        let log_line = log_action(pass.count);
        Some(PassRecord { ledger_lines, log_line })
    }
}

/// The destinations of a pass over a listing hold those of a pass over the
/// listing without its last entry.
proof fn lemma_destinations_grow(
    known: Set<Seq<char>>,
    dir: Seq<char>,
    entries: Seq<(Seq<char>, Seq<char>)>,
)
    requires
        entries.len() > 0,
    ensures
        destinations(planned(known, dir, entries.drop_last())).subset_of(
            destinations(planned(known, dir, entries)),
        ),
{
    let before = planned(known, dir, entries.drop_last());
    let destination = destination_of(dir, entries.last().0);
    if !known.contains(destination) {
        let added = (entries.last().1, destination);
        assert(destination_seq(before.push(added)) =~= destination_seq(before).push(destination));
        lemma_push_to_set(destination_seq(before), destination);
    }
}

/// After a pass, the ledger holds the destination of every entry of the
/// listing.
pub proof fn lemma_pass_covers_listing(
    known: Set<Seq<char>>,
    dir: Seq<char>,
    entries: Seq<(Seq<char>, Seq<char>)>,
    k: int,
)
    requires
        0 <= k < entries.len(),
    ensures
        ledger_after(known, dir, entries).contains(destination_of(dir, entries[k].0)),
    decreases entries.len(),
{
    let before = planned(known, dir, entries.drop_last());
    let destination = destination_of(dir, entries[k].0);
    if k == entries.len() - 1 {
        if !known.contains(destination) {
            let jobs = planned(known, dir, entries);
            assert(jobs == before.push((entries.last().1, destination)));
            assert(destination_seq(jobs)[jobs.len() - 1] == destination);
            assert(destination_seq(jobs).contains(destination));
        }
    } else {
        lemma_pass_covers_listing(known, dir, entries.drop_last(), k);
        lemma_destinations_grow(known, dir, entries);
    }
}

/// A pass over a listing whose destinations the ledger all holds has no job.
pub proof fn lemma_known_listing_plans_nothing(
    known: Set<Seq<char>>,
    dir: Seq<char>,
    entries: Seq<(Seq<char>, Seq<char>)>,
)
    requires
        forall|k: int|
            0 <= k < entries.len() ==> known.contains(
                destination_of(dir, (#[trigger] entries[k]).0),
            ),
    ensures
        planned(known, dir, entries) == Seq::<(Seq<char>, Seq<char>)>::empty(),
    decreases entries.len(),
{
    if entries.len() > 0 {
        let shorter = entries.drop_last();
        assert forall|k: int| 0 <= k < shorter.len() implies known.contains(
            destination_of(dir, (#[trigger] shorter[k]).0),
        ) by {
            assert(shorter[k] == entries[k]);
        }
        lemma_known_listing_plans_nothing(known, dir, shorter);
        assert(known.contains(destination_of(dir, entries[entries.len() - 1].0)));
    }
}

/// No job of a pass has a destination that the ledger held before the pass.
pub proof fn lemma_jobs_are_new(
    known: Set<Seq<char>>,
    dir: Seq<char>,
    entries: Seq<(Seq<char>, Seq<char>)>,
)
    ensures
        forall|k: int|
            0 <= k < planned(known, dir, entries).len() ==> !known.contains(
                (#[trigger] planned(known, dir, entries)[k]).1,
            ),
    decreases entries.len(),
{
    if entries.len() > 0 {
        lemma_jobs_are_new(known, dir, entries.drop_last());
        let before = planned(known, dir, entries.drop_last());
        let jobs = planned(known, dir, entries);
        assert forall|k: int| 0 <= k < jobs.len() implies !known.contains((#[trigger] jobs[k]).1) by {
            if k < before.len() {
                assert(jobs[k] == before[k]);
            }
        }
    }
}

/// A second pass over an unchanged listing, after the first pass has been
/// recorded in the ledger, launches no copy.
pub proof fn second_pass_transfers_nothing(
    known: Set<Seq<char>>,
    dir: Seq<char>,
    entries: Seq<(Seq<char>, Seq<char>)>,
)
    ensures
        planned(ledger_after(known, dir, entries), dir, entries).len() == 0,
{
    let recorded = ledger_after(known, dir, entries);
    assert forall|k: int| 0 <= k < entries.len() implies recorded.contains(
        destination_of(dir, (#[trigger] entries[k]).0),
    ) by {
        lemma_pass_covers_listing(known, dir, entries, k);
    }
    lemma_known_listing_plans_nothing(recorded, dir, entries);
}

/// A second pass over an unchanged listing, after the lines of the first pass
/// were appended to the ledger file and the file was read again, launches no
/// copy.
pub proof fn second_pass_after_reload_transfers_nothing(
    content: Seq<char>,
    dir: Seq<char>,
    entries: Seq<(Seq<char>, Seq<char>)>,
    lines: Seq<Seq<char>>,
)
    requires
        is_closed_text(content),
        forall|k: int| 0 <= k < lines.len() ==> is_plain_line(#[trigger] lines[k]),
        lines.to_set() == destinations(planned(file_lines(content).to_set(), dir, entries)),
    ensures
        planned(file_lines(content + joined_lines(lines)).to_set(), dir, entries).len() == 0,
{
    ledger_file_only_grows(content, lines);
    second_pass_transfers_nothing(file_lines(content).to_set(), dir, entries);
}

/// Whatever passes run, over whatever listings, every path that the ledger
/// held before them it holds after them.
pub proof fn ledger_never_shrinks(
    known: Set<Seq<char>>,
    dir: Seq<char>,
    listings: Seq<Seq<(Seq<char>, Seq<char>)>>,
)
    ensures
        known.subset_of(ledger_after_passes(known, dir, listings)),
    decreases listings.len(),
{
    if listings.len() > 0 {
        ledger_never_shrinks(known, dir, listings.drop_last());
    }
}

/// A path that the ledger holds is the destination of no job, whether or not
/// a file still stands there: a pass does not look at the destination
/// directory, only at the ledger.
pub proof fn recorded_path_is_never_copied(
    known: Set<Seq<char>>,
    dir: Seq<char>,
    entries: Seq<(Seq<char>, Seq<char>)>,
    path: Seq<char>,
)
    requires
        known.contains(path),
    ensures
        !destinations(planned(known, dir, entries)).contains(path),
{
    lemma_jobs_are_new(known, dir, entries);
    let jobs = planned(known, dir, entries);
    if destination_seq(jobs).contains(path) {
        let k = choose|k: int| 0 <= k < destination_seq(jobs).len() && destination_seq(jobs)[k] == path;
        assert(jobs[k].1 == path);
    }
}

/// Entries are told apart by their destination path alone. Two entries of the
/// same name have one destination, and once a pass over a listing that holds
/// one of them is recorded, a later pass copies neither, wherever the other
/// comes from and whatever it holds.
pub proof fn same_name_is_one_ledger_entry(
    known: Set<Seq<char>>,
    dir: Seq<char>,
    first: Seq<(Seq<char>, Seq<char>)>,
    later: Seq<(Seq<char>, Seq<char>)>,
    i: int,
    j: int,
)
    requires
        0 <= i < first.len(),
        0 <= j < later.len(),
        first[i].0 == later[j].0,
    ensures
        destination_of(dir, first[i].0) == destination_of(dir, later[j].0),
        ledger_after(known, dir, first).contains(destination_of(dir, later[j].0)),
        !destinations(planned(ledger_after(known, dir, first), dir, later)).contains(
            destination_of(dir, later[j].0),
        ),
{
    lemma_pass_covers_listing(known, dir, first, i);
    recorded_path_is_never_copied(
        ledger_after(known, dir, first),
        dir,
        later,
        destination_of(dir, later[j].0),
    );
}

} // verus!
