//! Output records and the rows that a run's history calls for.

use vstd::prelude::*;
use crate::stats::sampling;
use crate::text;

verus! {

/// One thing for an output sink to write.
#[derive(Clone, Debug, PartialEq, Eq)]
pub enum Record {
    /// Text to write as it is.
    Text(String),
    /// An assignment and the number of consecutive samples that hold it.
    Frame(Vec<u16>, u16),
    /// Bytes to write as they are.
    Bytes(Vec<u8>),
}

/// The contents of a record.
pub enum Entry {
    Text(Seq<char>),
    Frame(Seq<u16>, int),
    Bytes(Seq<u8>),
}

impl View for Record {
    type V = Entry;

    open spec fn view(&self) -> Entry {
        match self {
            Record::Text(s) => Entry::Text(s@),
            Record::Frame(a, n) => Entry::Frame(a@, *n as int),
            Record::Bytes(b) => Entry::Bytes(b@),
        }
    }
}

/// The contents of a list of records.
pub open spec fn entries(records: Seq<Record>) -> Seq<Entry> {
    Seq::new(records.len(), |i: int| records[i]@)
}

/// Appending a record appends its contents.
pub proof fn entries_pushed(records: Seq<Record>, record: Record)
    ensures
        entries(records.push(record)) == entries(records).push(record@),
{
    assert(entries(records.push(record)) =~= entries(records).push(record@));
}

/// A chain position and the labels of the plan at it.
pub type Row = (int, Seq<u32>);

/// The rows of one plan at the given positions.
pub open spec fn rows_at(positions: Seq<int>, labels: Seq<u32>) -> Seq<Row> {
    Seq::new(positions.len(), |i: int| (positions[i], labels))
}

/// The rows that an accepted step calls for: the plan before it at the sampled
/// positions that it waited through, then the new plan if its own position is
/// sampled.
pub open spec fn step_rows(
    previous: Seq<u32>,
    last_step: int,
    step: int,
    next: Seq<u32>,
    interval: int,
) -> Seq<Row> {
    let waited = rows_at(sampling::sampled(last_step + 1, step - 1, interval), previous);
    if step % interval == 0 {
        waited.push((step, next))
    } else {
        waited
    }
}

/// The rows that trailing self-loops call for.
pub open spec fn loop_rows(previous: Seq<u32>, last_step: int, step: int, interval: int) -> Seq<
    Row,
> {
    rows_at(sampling::sampled(last_step + 1, step, interval), previous)
}

/// The sampled rows of a history, which lists the plan at each position.
pub open spec fn history_rows(history: Seq<Seq<u32>>, interval: int) -> Seq<Row> {
    let positions = sampling::sampled(0, history.len() - 1, interval);
    Seq::new(positions.len(), |i: int| (positions[i], history[positions[i]]))
}

/// The history after waiting `loops` positions at its last plan.
pub open spec fn waited(history: Seq<Seq<u32>>, loops: nat) -> Seq<Seq<u32>> {
    history + Seq::new(loops, |i: int| history.last())
}

/// Writing the seed plan at position 0 gives the rows of a run that has not
/// moved yet.
pub proof fn seed_row_is_the_history(seed: Seq<u32>, interval: int)
    requires
        interval > 0,
    ensures
        history_rows(seq![seed], interval) == seq![(0int, seed)],
{
    vstd::arithmetic::div_mod::lemma_small_mod(0, interval as nat);
    reveal_with_fuel(sampling::sampled, 2);
    assert(sampling::sampled(0, 0, interval) =~= seq![0int]);
    assert(history_rows(seq![seed], interval) =~= seq![(0int, seed)]);
}

/// Waiting extends a run's rows by those of the self-loops.
pub proof fn loop_rows_extend_the_history(history: Seq<Seq<u32>>, loops: nat, interval: int)
    requires
        interval > 0,
        history.len() > 0,
    ensures
        history_rows(waited(history, loops), interval) == history_rows(history, interval)
            + loop_rows(history.last(), history.len() - 1, history.len() - 1 + loops, interval),
{
    let last = history.len() - 1;
    let longer = waited(history, loops);
    sampling::sampled_splits(0, last, last + loops, interval);
    sampling::sampled_are_the_multiples(0, last, interval);
    sampling::sampled_are_the_multiples(last + 1, last + loops, interval);
    let first = sampling::sampled(0, last, interval);
    let second = sampling::sampled(last + 1, last + loops, interval);
    assert forall|i: int| 0 <= i < first.len() implies longer[#[trigger] first[i]]
        == history[first[i]] by {
        assert(first.contains(first[i]));
    }
    assert forall|i: int| 0 <= i < second.len() implies longer[#[trigger] second[i]]
        == history.last() by {
        assert(second.contains(second[i]));
    }
    assert(history_rows(longer, interval) =~= history_rows(history, interval) + loop_rows(
        history.last(),
        last,
        last + loops,
        interval,
    ));
}

/// An accepted step extends a run's rows by those of the step.
pub proof fn step_rows_extend_the_history(
    history: Seq<Seq<u32>>,
    loops: nat,
    next: Seq<u32>,
    interval: int,
)
    requires
        interval > 0,
        history.len() > 0,
    ensures
        history_rows(waited(history, loops).push(next), interval) == history_rows(history, interval)
            + step_rows(
            history.last(),
            history.len() - 1,
            (history.len() + loops) as int,
            next,
            interval,
        ),
{
    let last = history.len() - 1;
    let step: int = (history.len() + loops) as int;
    let middle = waited(history, loops);
    let longer = middle.push(next);
    loop_rows_extend_the_history(history, loops, interval);
    sampling::sampled_are_the_multiples(0, step - 1, interval);
    let positions = sampling::sampled(0, step - 1, interval);
    assert forall|i: int| 0 <= i < positions.len() implies longer[#[trigger] positions[i]]
        == middle[positions[i]] by {
        assert(positions.contains(positions[i]));
    }
    if step % interval == 0 {
        assert(history_rows(longer, interval) =~= history_rows(middle, interval).push(
            (step, next),
        ));
        assert(history_rows(longer, interval) =~= history_rows(history, interval) + step_rows(
            history.last(),
            last,
            step,
            next,
            interval,
        ));
    } else {
        assert(history_rows(longer, interval) =~= history_rows(middle, interval));
    }
}

/// Without thinning there is one row for each position of the history.
pub proof fn unthinned_rows_are_the_history(history: Seq<Seq<u32>>)
    ensures
        history_rows(history, 1).len() == history.len(),
        forall|i: int|
            0 <= i < history.len() ==> #[trigger] history_rows(history, 1)[i] == (i, history[i]),
{
    every_position_is_sampled(history.len() - 1);
}

proof fn every_position_is_sampled(end: int)
    requires
        end >= -1,
    ensures
        sampling::sampled(0, end, 1) == Seq::new((end + 1) as nat, |i: int| i),
    decreases end + 1,
{
    if end >= 0 {
        every_position_is_sampled(end - 1);
    }
    assert(sampling::sampled(0, end, 1) =~= Seq::new((end + 1) as nat, |i: int| i));
}

/// The line of a row: the position, a comma and the bracketed labels.
pub open spec fn assignment_line(row: Row) -> Seq<char> {
    text::decimal(row.0 as nat) + seq![','] + text::bracketed(text::label_numbers(row.1))
        + seq!['\n']
}

/// The lines of a list of rows.
pub open spec fn assignment_lines(rows: Seq<Row>) -> Seq<Entry> {
    Seq::new(rows.len(), |i: int| Entry::Text(assignment_line(rows[i])))
}

/// Numbers in decimal, separated by commas alone.
pub open spec fn tight_list(values: Seq<nat>) -> Seq<char>
    decreases values.len(),
{
    if values.len() == 0 {
        Seq::empty()
    } else if values.len() == 1 {
        text::decimal(values[0])
    } else {
        tight_list(values.drop_last()) + seq![','] + text::decimal(values.last())
    }
}

/// The line of a row as a JSON object: the labels under `assignment`, and
/// under `sample` the position counted from 1.
pub open spec fn sample_line(row: Row) -> Seq<char> {
    "{\"assignment\":["@ + tight_list(text::label_numbers(row.1)) + "],\"sample\":"@
        + text::decimal((row.0 + 1) as nat) + "}\n"@
}

/// The JSON lines of a list of rows.
pub open spec fn sample_lines(rows: Seq<Row>) -> Seq<Entry> {
    Seq::new(rows.len(), |i: int| Entry::Text(sample_line(rows[i])))
}

/// Appends numbers in decimal, separated by commas.
pub fn push_tight_labels(out: &mut String, labels: &Vec<u32>)
    ensures
        final(out)@ == old(out)@ + tight_list(text::label_numbers(labels@)),
{
    let ghost start = out@;
    let ghost numbers = text::label_numbers(labels@);
    proof {
        reveal_strlit(",");
    }
    let mut i: usize = 0;
    assert(out@ =~= start + tight_list(numbers.take(0)));
    while i < labels.len()
        invariant
            i <= labels.len(),
            numbers == text::label_numbers(labels@),
            ","@ == seq![','],
            out@ == start + tight_list(numbers.take(i as int)),
        decreases labels.len() - i,
    {
        if i > 0 {
            out.append(",");
        }
        text::push_number(out, labels[i] as u64);
        i += 1;
        assert(numbers.take(i as int).drop_last() =~= numbers.take(i - 1));
        assert(out@ =~= start + tight_list(numbers.take(i as int)));
    }
    assert(numbers.take(i as int) =~= numbers);
}

/// The record of a row's line.
pub fn assignment_record(position: u64, labels: &Vec<u32>) -> (r: Record)
    ensures
        r@ == Entry::Text(assignment_line((position as int, labels@))),
{
    proof {
        reveal_strlit(",");
        reveal_strlit("\n");
    }
    let mut out: String = String::new();
    text::push_number(&mut out, position);
    out.append(",");
    text::push_labels(&mut out, labels);
    out.append("\n");
    assert(out@ =~= assignment_line((position as int, labels@)));
    Record::Text(out)
}

/// The record of a row's JSON line.
pub fn sample_record(position: u64, labels: &Vec<u32>) -> (r: Record)
    requires
        position < u64::MAX,
    ensures
        r@ == Entry::Text(sample_line((position as int, labels@))),
{
    let mut out: String = "{\"assignment\":[".to_string();
    push_tight_labels(&mut out, labels);
    out.append("],\"sample\":");
    text::push_number(&mut out, position + 1);
    out.append("}\n");
    Record::Text(out)
}

/// Lists hold their numbers in decimal, in order, with a comma between them.
pub proof fn lists_hold_their_numbers(values: Seq<nat>)
    ensures
        tight_list(values) == text::joined(
            Seq::new(values.len(), |i: int| text::decimal(values[i])),
            seq![','],
        ),
        text::comma_list(values) == text::joined(
            Seq::new(values.len(), |i: int| text::decimal(values[i])),
            seq![',', ' '],
        ),
    decreases values.len(),
{
    let texts = Seq::new(values.len(), |i: int| text::decimal(values[i]));
    if values.len() > 1 {
        let init = values.drop_last();
        lists_hold_their_numbers(init);
        let fewer = Seq::new(init.len(), |i: int| text::decimal(init[i]));
        assert(texts.drop_last() =~= fewer);
    }
}

} // verus!
