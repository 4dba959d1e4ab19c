//! Rows of objective scores.

use vstd::prelude::*;
use crate::text;
use crate::vectors;

verus! {

/// Writes one comma-separated row of scores per recorded step. Scores arrive
/// as text.
#[derive(Debug)]
pub struct ScoresWriter {
    output: String,
}

/// The names of the district columns below `n`.
pub open spec fn district_columns(n: nat) -> Seq<char>
    decreases n,
{
    if n == 0 {
        Seq::empty()
    } else {
        district_columns((n - 1) as nat) + ",d_"@ + text::decimal((n - 1) as nat)
    }
}

/// The header line: one column per district where districts have scores.
pub open spec fn scores_header(districts: nat) -> Seq<char> {
    "step,score"@ + district_columns(districts) + "\n"@
}

/// The texts, each behind a comma.
pub open spec fn comma_texts(values: Seq<Seq<char>>) -> Seq<char>
    decreases values.len(),
{
    if values.len() == 0 {
        Seq::empty()
    } else {
        comma_texts(values.drop_last()) + ","@ + values.last()
    }
}

/// The row of a step.
pub open spec fn scores_row(step: int, score: Seq<char>, districts: Seq<Seq<char>>) -> Seq<char> {
    text::decimal(step as nat) + ","@ + score + comma_texts(districts) + "\n"@
}

impl ScoresWriter {
    /// The text that waits to be written.
    pub closed spec fn pending(&self) -> Seq<char> {
        self.output@
    }

    pub fn new() -> (r: ScoresWriter)
        ensures
            r.pending() == Seq::<char>::empty(),
    {
        ScoresWriter { output: String::new() }
    }

    /// Adds the header line and the row of the seed plan at step 0.
    pub fn init(&mut self, score: &str, district_scores: &Vec<String>)
        ensures
            final(self).pending() == old(self).pending() + scores_header(district_scores@.len())
                + scores_row(0, score@, vectors::texts(district_scores@)),
    {
        let ghost start = self.output@;
        self.output.append("step,score");
        let mut i: usize = 0;
        assert(self.output@ =~= start + "step,score"@ + district_columns(0));
        while i < district_scores.len()
            invariant
                i <= district_scores.len(),
                self.output@ == start + "step,score"@ + district_columns(i as nat),
            decreases district_scores.len() - i,
        {
            self.output.append(",d_");
            text::push_number(&mut self.output, i as u64);
            i += 1;
            assert(self.output@ =~= start + "step,score"@ + district_columns(i as nat));
        }
        self.output.append("\n");
        assert(self.output@ =~= start + scores_header(district_scores@.len()));
        self.step(0, score, district_scores);
    }

    /// Adds the row of a step.
    pub fn step(&mut self, step: u64, score: &str, district_scores: &Vec<String>)
        ensures
            final(self).pending() == old(self).pending() + scores_row(
                step as int,
                score@,
                vectors::texts(district_scores@),
            ),
    {
        let ghost start = self.output@;
        let ghost values = vectors::texts(district_scores@);
        text::push_number(&mut self.output, step);
        self.output.append(",");
        self.output.append(score);
        let ghost lead = text::decimal(step as nat) + ","@ + score@;
        let mut i: usize = 0;
        assert(self.output@ =~= start + (lead + comma_texts(values.take(0))));
        while i < district_scores.len()
            invariant
                i <= district_scores.len(),
                values == vectors::texts(district_scores@),
                self.output@ == start + (lead + comma_texts(values.take(i as int))),
            decreases district_scores.len() - i,
        {
            self.output.append(",");
            self.output.append(district_scores[i].as_str());
            i += 1;
            assert(values.take(i as int).drop_last() =~= values.take(i - 1));
            assert(self.output@ =~= start + (lead + comma_texts(values.take(i as int))));
        }
        assert(values.take(i as int) =~= values);
        self.output.append("\n");
        assert(self.output@ =~= start + scores_row(step as int, score@, values));
    }

    /// Hands over the rows that wait to be written.
    pub fn flush(&mut self) -> (r: String)
        ensures
            r@ == old(self).pending(),
            final(self).pending() == Seq::<char>::empty(),
    {
        let mut out: String = String::new();
        std::mem::swap(&mut self.output, &mut out);
        out
    }

    /// Hands over the rows that still wait to be written.
    pub fn close(&mut self) -> (r: String)
        ensures
            r@ == old(self).pending(),
            final(self).pending() == Seq::<char>::empty(),
    {
        self.flush()
    }
}

/// The names of the columns: the step, the score, and one for each district.
pub open spec fn column_names(districts: nat) -> Seq<Seq<char>> {
    seq!["step"@, "score"@] + Seq::new(districts, |d: int| "d_"@ + text::decimal(d as nat))
}

/// The header names a column for each cell of a row, in order.
pub proof fn headers_name_the_columns(districts: nat)
    ensures
        scores_header(districts) == text::joined(column_names(districts), ","@) + "\n"@,
    decreases districts,
{
    reveal_strlit("step");
    reveal_strlit("score");
    reveal_strlit("step,score");
    reveal_strlit(",");
    reveal_strlit("d_");
    reveal_strlit(",d_");
    let names = column_names(districts);
    if districts == 0 {
        assert(names =~= seq!["step"@].push("score"@));
        text::joined_with_one_more(seq!["step"@], "score"@, ","@);
        assert("step"@ + ","@ + "score"@ =~= "step,score"@);
        assert("step,score"@ + district_columns(0) =~= "step,score"@);
    } else {
        let fewer = (districts - 1) as nat;
        headers_name_the_columns(fewer);
        let name = "d_"@ + text::decimal(fewer);
        assert(names =~= column_names(fewer).push(name));
        text::joined_with_one_more(column_names(fewer), name, ","@);
        let front = "step,score"@ + district_columns(fewer);
        assert(front + "\n"@ == text::joined(column_names(fewer), ","@) + "\n"@);
        let other = text::joined(column_names(fewer), ","@);
        reveal_strlit("\n");
        assert(front =~= other) by {
            assert((front + "\n"@).drop_last() =~= front);
            assert((other + "\n"@).drop_last() =~= other);
        }
        assert(",d_"@ =~= ","@ + "d_"@);
        text::follow_on(front, ",d_"@, text::decimal(fewer));
        text::follow_on("step,score"@, district_columns(fewer) + ",d_"@, text::decimal(fewer));
        text::follow_on("step,score"@, district_columns(fewer), ",d_"@);
        text::follow_on(front + ","@, "d_"@, text::decimal(fewer));
        text::follow_on(front, ","@, "d_"@);
    }
}

/// A row has the step, the score and the score of each district in its cells.
pub proof fn rows_list_the_scores(step: int, score: Seq<char>, districts: Seq<Seq<char>>)
    ensures
        scores_row(step, score, districts) == text::joined(
            seq![text::decimal(step as nat), score] + districts,
            ","@,
        ) + "\n"@,
    decreases districts.len(),
{
    let first = seq![text::decimal(step as nat), score];
    let front = text::decimal(step as nat) + ","@ + score;
    if districts.len() == 0 {
        assert(first + districts =~= seq![text::decimal(step as nat)].push(score));
        text::joined_with_one_more(seq![text::decimal(step as nat)], score, ","@);
        assert(front + comma_texts(districts) =~= front);
    } else {
        let init = districts.drop_last();
        rows_list_the_scores(step, score, init);
        assert(first + districts =~= (first + init).push(districts.last()));
        text::joined_with_one_more(first + init, districts.last(), ","@);
        let before = front + comma_texts(init);
        let other = text::joined(first + init, ","@);
        reveal_strlit("\n");
        assert(before =~= other) by {
            assert((before + "\n"@).drop_last() =~= before);
            assert((other + "\n"@).drop_last() =~= other);
        }
        text::follow_on(front, comma_texts(init) + ","@, districts.last());
        text::follow_on(front, comma_texts(init), ","@);
    }
}

} // verus!
