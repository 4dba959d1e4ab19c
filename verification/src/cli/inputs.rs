//! The columns that a run loads, and checks of its options.

use serde_json::Value;
use vstd::prelude::*;
use crate::bendl;
use crate::bendl::BendlGraphOrder;
use crate::columns;
use crate::constraints::ConstraintConfig;
use crate::double::{Arithmetic, Double, Op};
use crate::objectives::config::ObjectiveConfig;
use crate::objectives::parse;
use crate::{double, fields, json, vectors};

verus! {

/// The texts of a list, and behind them those of another that are not there
/// yet.
pub open spec fn with_new(values: Seq<Seq<char>>, more: Seq<Seq<char>>) -> Seq<Seq<char>>
    decreases more.len(),
{
    if more.len() == 0 {
        values
    } else {
        let before = with_new(values, more.drop_last());
        if before.contains(more.last()) {
            before
        } else {
            before.push(more.last())
        }
    }
}

/// The texts that are not listed already.
pub open spec fn unlisted(more: Seq<Seq<char>>, values: Seq<Seq<char>>) -> Seq<Seq<char>>
    decreases more.len(),
{
    if more.len() == 0 {
        Seq::empty()
    } else {
        let before = unlisted(more.drop_last(), values);
        if values.contains(more.last()) {
            before
        } else {
            before.push(more.last())
        }
    }
}

/// A list with new texts behind it starts with the list and holds the texts of
/// both, and no text twice that was not there twice.
pub proof fn all_are_listed(values: Seq<Seq<char>>, more: Seq<Seq<char>>)
    ensures
        values.is_prefix_of(with_new(values, more)),
        forall|x: Seq<char>| #[trigger]
            with_new(values, more).contains(x) <==> values.contains(x) || more.contains(x),
        values.no_duplicates() ==> with_new(values, more).no_duplicates(),
    decreases more.len(),
{
    if more.len() > 0 {
        let rest = more.drop_last();
        all_are_listed(values, rest);
        let before = with_new(values, rest);
        assert(more =~= rest.push(more.last()));
        assert forall|x: Seq<char>| #[trigger]
            with_new(values, more).contains(x) <==> values.contains(x) || more.contains(x) by {
            vectors::contains_pushed(rest, more.last(), x);
            vectors::contains_pushed(before, more.last(), x);
        }
        if values.no_duplicates() && !before.contains(more.last()) {
            assert(before.push(more.last()).no_duplicates());
        }
    }
}

fn append_missing(values: &mut Vec<String>, more: &Vec<String>)
    ensures
        vectors::texts(final(values)@) == with_new(vectors::texts(old(values)@), vectors::texts(more@)),
{
    let ghost start = vectors::texts(values@);
    let ghost extra = vectors::texts(more@);
    let mut i: usize = 0;
    assert(extra.take(0) =~= Seq::<Seq<char>>::empty());
    while i < more.len()
        invariant
            i <= more.len(),
            extra == vectors::texts(more@),
            vectors::texts(values@) == with_new(start, extra.take(i as int)),
        decreases more.len() - i,
    {
        let ghost before = vectors::texts(values@);
        let text: &str = more[i].as_str();
        assert(extra.take(i + 1).drop_last() =~= extra.take(i as int));
        assert(extra.take(i + 1).last() == text@);
        if !vectors::holds_text(values, text) {
            values.push(text.to_string());
            assert(vectors::texts(values@) =~= before.push(text@));
        }
        i += 1;
    }
    assert(extra.take(i as int) =~= extra);
}

fn list_unlisted(more: &Vec<String>, values: &Vec<String>) -> (r: Vec<String>)
    ensures
        vectors::texts(r@) == unlisted(vectors::texts(more@), vectors::texts(values@)),
{
    let ghost extra = vectors::texts(more@);
    let ghost listed = vectors::texts(values@);
    let mut r: Vec<String> = Vec::new();
    let mut i: usize = 0;
    assert(vectors::texts(r@) =~= unlisted(extra.take(0), listed));
    while i < more.len()
        invariant
            i <= more.len(),
            extra == vectors::texts(more@),
            listed == vectors::texts(values@),
            vectors::texts(r@) == unlisted(extra.take(i as int), listed),
        decreases more.len() - i,
    {
        let ghost before = vectors::texts(r@);
        let text: &str = more[i].as_str();
        assert(extra.take(i + 1).drop_last() =~= extra.take(i as int));
        assert(extra.take(i + 1).last() == text@);
        if !vectors::holds_text(values, text) {
            r.push(text.to_string());
            assert(vectors::texts(r@) =~= before.push(text@));
        }
        i += 1;
    }
    assert(extra.take(i as int) =~= extra);
    r
}

/// The names of region weights, if there are any.
pub open spec fn region_names(weights: Option<Vec<(String, Double)>>) -> Seq<Seq<char>> {
    match weights {
        Some(weights) => fields::weight_names(weights@),
        None => Seq::empty(),
    }
}

fn list_region_names(weights: &Option<Vec<(String, Double)>>) -> (r: Vec<String>)
    ensures
        vectors::texts(r@) == region_names(*weights),
{
    let mut r: Vec<String> = Vec::new();
    match weights {
        None => {},
        Some(weights) => {
            let mut i: usize = 0;
            while i < weights.len()
                invariant
                    i <= weights.len(),
                    r.len() == i,
                    forall|j: int| 0 <= j < i ==> (#[trigger] r[j])@ == weights[j].0@,
                decreases weights.len() - i,
            {
                r.push(weights[i].0.as_str().to_string());
                i += 1;
            }
        },
    }
    assert(vectors::texts(r@) =~= region_names(*weights));
    r
}

/// Adds the region columns to the columns that are loaded, where they are not
/// among them.
pub fn merge_region_weight_cols(
    sum_cols: &mut Vec<String>,
    region_weights: &Option<Vec<(String, Double)>>,
)
    ensures
        vectors::texts(final(sum_cols)@) == with_new(
            vectors::texts(old(sum_cols)@),
            region_names(*region_weights),
        ),
{
    let names: Vec<String> = list_region_names(region_weights);
    append_missing(sum_cols, &names);
}

/// The columns of a chain: those to load, and those among them that only the
/// constraint reads, which are dropped once they are read.
#[derive(Debug)]
pub struct ChainColumns {
    pub loaded: Vec<String>,
    pub constraint_only: Vec<String>,
}

/// Plans the columns of a chain: the given ones and the region columns, and
/// behind them those that only the constraint reads.
pub fn plan_chain_columns<F: Fn(Op, Double, Double) -> Double>(
    sum_cols: Vec<String>,
    region_weights: &Option<Vec<(String, Double)>>,
    constraint: &ConstraintConfig<F>,
) -> (r: ChainColumns)
    ensures
        ({
            let listed = with_new(vectors::texts(sum_cols@), region_names(*region_weights));
            let needed = match *constraint {
                ConstraintConfig::Unconstrained => Seq::<Seq<char>>::empty(),
                ConstraintConfig::DistrictShareFloor(floor) => vectors::firsts(
                    seq![floor.numerator()] + floor.denominators(),
                ),
            };
            &&& vectors::texts(r.constraint_only@) == unlisted(needed, listed)
            &&& vectors::texts(r.loaded@) == listed + unlisted(needed, listed)
        }),
{
    let mut loaded: Vec<String> = sum_cols;
    merge_region_weight_cols(&mut loaded, region_weights);
    let needed: Vec<String> = constraint.required_node_cols();
    let constraint_only: Vec<String> = list_unlisted(&needed, &loaded);
    let ghost before = vectors::texts(loaded@);
    let ghost extra = vectors::texts(constraint_only@);
    let mut more: Vec<String> = vectors::copied_strings(&constraint_only);
    let ghost whole = loaded@ + more@;
    assert(vectors::texts(more@) == extra);
    loaded.append(&mut more);
    proof {
        assert(loaded@ =~= whole);
        assert forall|i: int| 0 <= i < whole.len() implies #[trigger] vectors::texts(loaded@)[i]
            == (before + extra)[i] by {
            if i >= before.len() {
                assert(extra[i - before.len()] == whole[i]@);
            }
        }
        assert(vectors::texts(loaded@) =~= before + extra);
    }
    ChainColumns { loaded, constraint_only }
}

/// The columns that an optimizer loads.
#[derive(Debug)]
pub struct OptimizerInputs {
    pub graph_json: String,
    pub pop_col: String,
    pub assignment_col: String,
    pub sum_cols: Vec<String>,
    /// Columns that may be missing on some nodes.
    pub partial_cols: Vec<String>,
    pub edge_weight_keys: Vec<String>,
    pub region_weights: Option<Vec<(String, Double)>>,
}

impl OptimizerInputs {
    /// The columns that a run is given, with the region columns among those
    /// that are loaded.
    pub fn from_config_values(
        graph_json: String,
        pop_col: String,
        assignment_col: String,
        sum_cols: Vec<String>,
        partial_cols: Vec<String>,
        edge_weight_keys: Vec<String>,
        region_weights: Option<Vec<(String, Double)>>,
    ) -> (r: OptimizerInputs)
        ensures
            r.graph_json == graph_json,
            r.pop_col == pop_col,
            r.assignment_col == assignment_col,
            vectors::texts(r.sum_cols@) == with_new(
                vectors::texts(sum_cols@),
                region_names(region_weights),
            ),
            r.partial_cols == partial_cols,
            r.edge_weight_keys == edge_weight_keys,
            r.region_weights == region_weights,
    {
        let mut cols: Vec<String> = sum_cols;
        merge_region_weight_cols(&mut cols, &region_weights);
        OptimizerInputs {
            graph_json,
            pop_col,
            assignment_col,
            sum_cols: cols,
            partial_cols,
            edge_weight_keys,
            region_weights,
        }
    }
}

/// Whether an objective was built from a document, and the columns that it
/// reads were added to those that are loaded.
pub open spec fn prepared_from<F: Fn(Op, Double, Double) -> Double>(
    document: Value,
    before: OptimizerInputs,
    after: OptimizerInputs,
    arithmetic: Arithmetic<F>,
    r: Result<(ObjectiveConfig<F>, Vec<String>), String>,
) -> bool {
    &&& after.graph_json == before.graph_json
    &&& after.pop_col == before.pop_col
    &&& after.assignment_col == before.assignment_col
    &&& after.edge_weight_keys == before.edge_weight_keys
    &&& after.region_weights == before.region_weights
    &&& match parse::objective_outcome(document) {
        Err(message) => {
            &&& r matches Err(e) && e@ == message
            &&& after == before
        },
        Ok(needs) => {
            &&& r matches Ok((objective, edge_cols)) && parse::configured(
                objective,
                needs,
                arithmetic,
            ) && vectors::texts(edge_cols@) == with_new(
                parse::edge_columns(needs),
                vectors::texts(before.edge_weight_keys@),
            )
            &&& vectors::texts(after.sum_cols@) == with_new(
                vectors::texts(before.sum_cols@),
                parse::node_columns(needs),
            )
            &&& vectors::texts(after.partial_cols@) == with_new(
                vectors::texts(before.partial_cols@),
                unlisted(parse::partial_columns(needs), vectors::texts(after.sum_cols@)),
            )
        },
    }
}

/// Builds the objective of a document and adds the columns that it reads to
/// those that are loaded. The edge columns are the objective's and the weight
/// keys; the weight keys themselves stay as they are, since they also weigh
/// edges.
pub fn prepare_objective_value<F: Fn(Op, Double, Double) -> Double>(
    document: &Value,
    inputs: &mut OptimizerInputs,
    arithmetic: Arithmetic<F>,
) -> (r: Result<(ObjectiveConfig<F>, Vec<String>), String>)
    ensures
        prepared_from(*document, *old(inputs), *final(inputs), arithmetic, r),
{
    let objective: ObjectiveConfig<F> = match parse::make_objective_value(document, arithmetic) {
        Ok(objective) => objective,
        Err(e) => {
            return Err(e);
        },
    };
    proof {
        parse::columns_follow_the_objective(*document);
    }
    let mut edge_cols: Vec<String> = match parse::required_edge_cols_value(document) {
        Ok(cols) => cols,
        Err(e) => {
            return Err(e);
        },
    };
    let node_cols: Vec<String> = match parse::required_node_cols_value(document) {
        Ok(cols) => cols,
        Err(e) => {
            return Err(e);
        },
    };
    append_missing(&mut edge_cols, &inputs.edge_weight_keys);
    append_missing(&mut inputs.sum_cols, &node_cols);
    let partial: Vec<String> = parse::partial_node_cols_value(document);
    let partial: Vec<String> = list_unlisted(&partial, &inputs.sum_cols);
    append_missing(&mut inputs.partial_cols, &partial);
    Ok((objective, edge_cols))
}

/// Reads the document of an objective from its text.
pub fn objective_document(text: &str) -> (r: Result<Value, String>)
    ensures
        match r {
            Ok(document) => json::parsed_places(text@) == Some(json::places(document)),
            Err(_) => json::parsed_places(text@) is None,
        },
{
    json::parse(text)
}

/// Builds the objective of a JSON text and adds the columns that it reads to
/// those that are loaded.
pub fn prepare_objective<F: Fn(Op, Double, Double) -> Double>(
    objective_config: &str,
    inputs: &mut OptimizerInputs,
    arithmetic: Arithmetic<F>,
) -> (r: Result<(ObjectiveConfig<F>, Vec<String>), String>)
    ensures
        json::parsed_places(objective_config@) is None ==> r is Err && *final(inputs) == *old(
            inputs,
        ),
        json::parsed_places(objective_config@) matches Some(places) ==> exists|document: Value|
            #[trigger] json::places(document) == places && prepared_from(
                document,
                *old(inputs),
                *final(inputs),
                arithmetic,
                r,
            ),
{
    match objective_document(objective_config) {
        Ok(document) => prepare_objective_value(&document, inputs, arithmetic),
        Err(e) => Err(e),
    }
}

/// What is wrong with the options of a bundle, if anything is. `order` is the
/// graph order that was asked for.
pub open spec fn bundle_error(
    is_bendl: bool,
    verbatim: bool,
    has_output: bool,
) -> Option<Seq<char>> {
    if !verbatim && !is_bendl {
        Some("Parameter error: '--bendl-graph-order' is only valid with '--writer bendl'."@)
    } else if is_bendl && !has_output {
        Some(
            "Parameter error: '--writer bendl' requires '--output-file' (BENDL needs a seekable file and cannot stream to stdout)."@,
        )
    } else {
        None
    }
}

/// Reads the graph order and holds the options of a bundle together: an order
/// is for bundles only, and a bundle needs an output file. Tells whether a
/// bundle is asked for, and the order.
pub fn resolve_bendl_options(writer: &str, bendl_graph_order: &str, has_output: bool) -> (r: Result<
    (bool, BendlGraphOrder),
    String,
>)
    ensures
        match r {
            Ok((is_bendl, order)) => {
                &&& is_bendl == (writer@ == "bendl"@)
                &&& bendl::label_of(order@) == bendl_graph_order@
                &&& bendl::is_order(order@)
                &&& bundle_error(is_bendl, order@ is Verbatim, has_output) is None
            },
            Err(e) => if bendl::asks_for_order(bendl_graph_order@) {
                exists|order: bendl::NodeOrder| #[trigger]
                    bendl::label_of(order) == bendl_graph_order@ && bendl::is_order(order)
                        && bundle_error(writer@ == "bendl"@, order is Verbatim, has_output) == Some(
                        e@,
                    )
            } else {
                e@ == "Parameter error: "@ + bendl::order_error(bendl_graph_order@)
            },
        },
{
    let is_bendl: bool = columns::str_eq(writer, "bendl");
    let order: BendlGraphOrder = match BendlGraphOrder::parse(bendl_graph_order) {
        Ok(order) => order,
        Err(reason) => {
            let mut out: String = "Parameter error: ".to_string();
            out.append(reason.as_str());
            return Err(out);
        },
    };
    assert(bendl::label_of(order@) == bendl_graph_order@);
    if !order.is_none() && !is_bendl {
        return Err(
            "Parameter error: '--bendl-graph-order' is only valid with '--writer bendl'.".to_string(),
        );
    }
    if is_bendl && !has_output {
        return Err(
            "Parameter error: '--writer bendl' requires '--output-file' (BENDL needs a seekable file and cannot stream to stdout).".to_string(),
        );
    }
    Ok((is_bendl, order))
}

/// Checks a population tolerance.
pub fn check_tolerance(tol: Double) -> (r: Result<(), String>)
    ensures
        tol.below(double::zero()) || double::one().below(tol) ==> (r matches Err(e) && e@
            == "Parameter error: '--tol' must be between 0 and 1."@),
        !(tol.below(double::zero()) || double::one().below(tol)) ==> r is Ok,
{
    if tol.lt(double::zero()) || tol.gt(double::one()) {
        Err("Parameter error: '--tol' must be between 0 and 1.".to_string())
    } else {
        Ok(())
    }
}

/// Texts, separated by a comma and a space.
pub open spec fn listed_texts(values: Seq<Seq<char>>) -> Seq<char>
    decreases values.len(),
{
    if values.len() == 0 {
        Seq::empty()
    } else if values.len() == 1 {
        values[0]
    } else {
        listed_texts(values.drop_last()) + ", "@ + values.last()
    }
}

/// Checks that a configuration is not mixed with other arguments. `given` are
/// the arguments that were written out beside it.
pub fn check_config_alone(given: &Vec<String>) -> (r: Result<(), String>)
    ensures
        given.len() == 0 ==> r is Ok,
        given.len() > 0 ==> (r matches Err(e) && e@
            == "Parameter error: '--config' cannot be combined with CLI arguments: "@
            + listed_texts(vectors::texts(given@))),
{
    if given.len() == 0 {
        return Ok(());
    }
    let mut out: String =
        "Parameter error: '--config' cannot be combined with CLI arguments: ".to_string();
    let ghost lead = out@;
    let ghost all = vectors::texts(given@);
    let mut i: usize = 0;
    assert(out@ =~= lead + listed_texts(all.take(0)));
    while i < given.len()
        invariant
            i <= given.len(),
            all == vectors::texts(given@),
            out@ == lead + listed_texts(all.take(i as int)),
        decreases given.len() - i,
    {
        if i > 0 {
            out.append(", ");
        }
        out.append(given[i].as_str());
        i += 1;
        assert(all.take(i as int).drop_last() =~= all.take(i - 1));
        assert(out@ =~= lead + listed_texts(all.take(i as int)));
    }
    assert(all.take(i as int) =~= all);
    Err(out)
}

/// Whether an argument is a JSON object itself rather than the path of one: it
/// begins with a brace, apart from white space.
pub open spec fn is_inline_json(arg: Seq<char>) -> bool
    decreases arg.len(),
{
    if arg.len() == 0 {
        false
    } else if is_white(arg[0]) {
        is_inline_json(arg.skip(1))
    } else {
        arg[0] == '{'
    }
}

/// Whether a character is white space, as Unicode has it.
pub open spec fn is_white(c: char) -> bool {
    ||| '\u{9}' <= c && c <= '\u{d}'
    ||| c == ' '
    ||| c == '\u{85}'
    ||| c == '\u{a0}'
    ||| c == '\u{1680}'
    ||| '\u{2000}' <= c && c <= '\u{200a}'
    ||| c == '\u{2028}'
    ||| c == '\u{2029}'
    ||| c == '\u{202f}'
    ||| c == '\u{205f}'
    ||| c == '\u{3000}'
}

fn white(c: char) -> (r: bool)
    ensures
        r == is_white(c),
{
    ('\u{9}' <= c && c <= '\u{d}') || c == ' ' || c == '\u{85}' || c == '\u{a0}' || c == '\u{1680}'
        || ('\u{2000}' <= c && c <= '\u{200a}') || c == '\u{2028}' || c == '\u{2029}' || c
        == '\u{202f}' || c == '\u{205f}' || c == '\u{3000}'
}

/// Whether an argument is a JSON object itself rather than the path of one.
pub fn holds_json(arg: &str) -> (r: bool)
    ensures
        r == is_inline_json(arg@),
{
    let n: usize = arg.unicode_len();
    let mut i: usize = 0;
    assert(arg@.skip(0) =~= arg@);
    while i < n
        invariant
            i <= n,
            n == arg@.len(),
            is_inline_json(arg@) == is_inline_json(arg@.skip(i as int)),
        decreases n - i,
    {
        let c: char = arg.get_char(i);
        assert(arg@.skip(i as int)[0] == c);
        if !white(c) {
            return c == '{';
        }
        assert(arg@.skip(i as int).skip(1) =~= arg@.skip(i + 1));
        i += 1;
    }
    false
}

} // verus!
