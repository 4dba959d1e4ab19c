//! Objectives read from JSON documents.

use serde_json::Value;
use vstd::prelude::*;
use crate::double;
use crate::double::{Arithmetic, Double, Op};
use crate::objectives::aggregation;
use crate::objectives::aggregation::Aggregation;
use crate::objectives::banded_gingles_partial::BandedGinglesPartial;
use crate::objectives::by_district_abs_deviation::{AbsDevTotal, ByDistrictAbsDeviation};
use crate::objectives::config::ObjectiveConfig;
use crate::objectives::election_wins::ElectionWins;
use crate::objectives::gingles_partial::GinglesPartial;
use crate::objectives::matching;
use crate::objectives::polsby_popper::PolsbyPopper;
use crate::{columns, json, vectors};

verus! {

/// The name of the column that derived perimeters are kept under where the
/// document names none.
pub open spec fn derived_perim_col() -> Seq<char> {
    "__rustrecom_derived_perim"@
}

fn derived_perim_name() -> (r: String)
    ensures
        r@ == derived_perim_col(),
{
    "__rustrecom_derived_perim".to_string()
}

/// The message about a field that is missing.
pub open spec fn missing_field(field: Seq<char>) -> Seq<char> {
    "Missing field '"@ + field + "' in objective config"@
}

fn missing(field: &str) -> (r: String)
    ensures
        r@ == missing_field(field@),
{
    let mut out: String = "Missing field '".to_string();
    out.append(field);
    out.append("' in objective config");
    out
}

/// The text at a place of a document, or the message about its field.
pub open spec fn text_field(document: Value, pointer: Seq<char>, field: Seq<char>) -> Result<
    Seq<char>,
    Seq<char>,
> {
    match json::text_at(document, pointer) {
        Some(s) => Ok(s),
        None => Err(missing_field(field)),
    }
}

fn find_field(document: &Value, pointer: &str, field: &str) -> (r: Result<String, String>)
    ensures
        match r {
            Ok(s) => text_field(*document, pointer@, field@) == Ok::<Seq<char>, Seq<char>>(s@),
            Err(e) => text_field(*document, pointer@, field@) == Err::<Seq<char>, Seq<char>>(e@),
        },
{
    match json::find_text(document, pointer) {
        Some(s) => Ok(s),
        None => Err(missing(field)),
    }
}

/// What an objective document asks for.
pub enum ObjectiveFields {
    ByDistrict {
        targets: Seq<Double>,
        pov_counts_col: Seq<char>,
        column: Option<Seq<char>>,
        constant: Double,
    },
    Gingles { threshold: Double, min_pop: Seq<char>, total_pop: Seq<char> },
    Banded { lower: Double, upper: Double, min_pop: Seq<char>, total_pop: Seq<char> },
    Election {
        votes_a: Seq<Seq<char>>,
        votes_b: Seq<Seq<char>>,
        target_a: bool,
        aggregation: Aggregation,
    },
    PolsbyPopper {
        area_col: Seq<char>,
        perim_col: Seq<char>,
        shared_perim_col: Seq<char>,
        boundary_perim_col: Option<Seq<char>>,
        aggregation: Aggregation,
    },
}

/// Whether a number lies strictly between zero and one.
pub open spec fn is_threshold(x: Double) -> bool {
    double::zero().below(x) && x.below(double::one())
}

fn check_threshold(x: Double) -> (r: bool)
    ensures
        r == is_threshold(x),
{
    x.gt(double::zero()) && x.lt(double::one())
}

/// Whether a number is a share: finite, and from zero to one.
pub open spec fn is_share(x: Double) -> bool {
    x.finite() && double::zero().at_most(x) && x.at_most(double::one())
}

/// A number as a target share, or what is wrong with it.
pub open spec fn share_or(x: Option<Double>, what: Seq<char>) -> Result<Double, Seq<char>> {
    match x {
        None => Err(what + " must be a number"@),
        Some(x) => if is_share(x) {
            Ok(x)
        } else {
            Err(what + " must be a finite share in [0, 1]"@)
        },
    }
}

fn parse_share(x: Option<Double>, what: &str) -> (r: Result<Double, String>)
    ensures
        match r {
            Ok(t) => share_or(x, what@) == Ok::<Double, Seq<char>>(t),
            Err(e) => share_or(x, what@) == Err::<Double, Seq<char>>(e@),
        },
{
    match x {
        None => {
            let mut out: String = what.to_string();
            out.append(" must be a number");
            Err(out)
        },
        Some(t) => if t.is_finite() && t.ge(double::zero()) && t.le(double::one()) {
            Ok(t)
        } else {
            let mut out: String = what.to_string();
            out.append(" must be a finite share in [0, 1]");
            Err(out)
        },
    }
}

/// The first `k` entries of a list as target shares, or what is wrong with the
/// first one that is none.
pub open spec fn share_list(document: Value, list: Seq<char>, k: nat) -> Result<
    Seq<Double>,
    Seq<char>,
>
    decreases k,
{
    if k == 0 {
        Ok(Seq::empty())
    } else {
        match share_list(document, list, (k - 1) as nat) {
            Err(e) => Err(e),
            Ok(before) => match share_or(
                json::number_at(document, json::item(list, (k - 1) as nat)),
                "each 'target_values' entry"@,
            ) {
                Ok(x) => Ok(before.push(x)),
                Err(e) => Err(e),
            },
        }
    }
}

proof fn share_error_stays(document: Value, list: Seq<char>, k: nat, n: nat)
    requires
        k <= n,
        share_list(document, list, k) is Err,
    ensures
        share_list(document, list, n) == share_list(document, list, k),
    decreases n - k,
{
    if k < n {
        assert(share_list(document, list, k + 1) == share_list(document, list, k));
        share_error_stays(document, list, k + 1, n);
    }
}

fn read_share_list(document: &Value, list: &str, n: usize) -> (r: Result<Vec<Double>, String>)
    ensures
        match r {
            Ok(v) => share_list(*document, list@, n as nat) == Ok::<Seq<Double>, Seq<char>>(v@),
            Err(e) => share_list(*document, list@, n as nat) == Err::<Seq<Double>, Seq<char>>(e@),
        },
{
    let mut values: Vec<Double> = Vec::new();
    let mut i: usize = 0;
    assert(values@ =~= Seq::<Double>::empty());
    while i < n
        invariant
            i <= n,
            share_list(*document, list@, i as nat) == Ok::<Seq<Double>, Seq<char>>(values@),
        decreases n - i,
    {
        let pointer: String = json::item_pointer(list, i);
        match parse_share(
            json::find_number(document, pointer.as_str()),
            "each 'target_values' entry",
        ) {
            Ok(x) => {
                values.push(x);
                i += 1;
            },
            Err(e) => {
                proof {
                    share_error_stays(*document, list@, (i + 1) as nat, n as nat);
                }
                return Err(e);
            },
        }
    }
    Ok(values)
}

/// The targets that a document lists, or repeats by its shorthand.
pub open spec fn listed_targets(document: Value) -> Result<Seq<Double>, Seq<char>> {
    match json::list_at(document, "/target_values"@) {
        Some(n) => if n == 0 {
            Err("'target_values' must be non-empty"@)
        } else {
            share_list(document, "/target_values"@, n)
        },
        None => if json::places(document).contains_key("/target"@) || json::places(
            document,
        ).contains_key("/n_target_districts"@) {
            match share_or(json::number_at(document, "/target"@), "'target'"@) {
                Err(e) => Err(e),
                Ok(target) => match json::integer_at(document, "/n_target_districts"@) {
                    None => Err("'n_target_districts' must be a positive integer"@),
                    Some(n) => if n == 0 {
                        Err("'n_target_districts' must be positive"@)
                    } else {
                        Ok(Seq::new(n as nat, |i: int| target))
                    },
                },
            }
        } else {
            Err(
                "by_district_abs_deviation requires either 'target_values' (a list) or the 'target' + 'n_target_districts' shorthand"@,
            )
        },
    }
}

fn read_targets(data: &Value) -> (r: Result<Vec<Double>, String>)
    ensures
        match r {
            Ok(v) => listed_targets(*data) == Ok::<Seq<Double>, Seq<char>>(v@),
            Err(e) => listed_targets(*data) == Err::<Seq<Double>, Seq<char>>(e@),
        },
{
    if let Some(n) = json::find_list(data, "/target_values") {
        if n == 0 {
            return Err("'target_values' must be non-empty".to_string());
        }
        return read_share_list(data, "/target_values", n);
    }
    if json::find(data, "/target").is_some() || json::find(data, "/n_target_districts").is_some() {
        let target: Double = match parse_share(json::find_number(data, "/target"), "'target'") {
            Ok(t) => t,
            Err(e) => {
                return Err(e);
            },
        };
        match json::find_integer(data, "/n_target_districts") {
            None => Err("'n_target_districts' must be a positive integer".to_string()),
            Some(n) => {
                if n == 0 {
                    return Err("'n_target_districts' must be positive".to_string());
                }
                let mut targets: Vec<Double> = Vec::new();
                let mut i: u64 = 0;
                while i < n
                    invariant
                        i <= n,
                        targets@ == Seq::new(i as nat, |j: int| target),
                    decreases n - i,
                {
                    targets.push(target);
                    i += 1;
                    assert(targets@ =~= Seq::new(i as nat, |j: int| target));
                }
                Ok(targets)
            },
        }
    } else {
        Err(
            "by_district_abs_deviation requires either 'target_values' (a list) or the 'target' + 'n_target_districts' shorthand".to_string(),
        )
    }
}

/// What a `by_district_abs_deviation` document asks for, or what is wrong with
/// it. A constant total takes precedence over a column.
pub open spec fn by_district_outcome(document: Value) -> Result<ObjectiveFields, Seq<char>> {
    match listed_targets(document) {
        Err(e) => Err(e),
        Ok(targets) => match text_field(document, "/pov_counts_col"@, "pov_counts_col"@) {
            Err(e) => Err(e),
            Ok(pov_counts_col) => if json::places(document).contains_key("/total_count"@) {
                match json::number_at(document, "/total_count"@) {
                    None => Err("'total_count' must be a finite positive number"@),
                    Some(t) => if t.finite() && double::zero().below(t) {
                        Ok(
                            ObjectiveFields::ByDistrict {
                                targets,
                                pov_counts_col,
                                column: None,
                                constant: t,
                            },
                        )
                    } else {
                        Err("'total_count' must be a finite positive number"@)
                    },
                }
            } else {
                match text_field(document, "/total_counts_col"@, "total_counts_col"@) {
                    Err(e) => Err(e),
                    Ok(col) => Ok(
                        ObjectiveFields::ByDistrict {
                            targets,
                            pov_counts_col,
                            column: Some(col),
                            constant: double::zero(),
                        },
                    ),
                }
            },
        },
    }
}

/// What a `gingles_partial` document asks for, or what is wrong with it.
pub open spec fn gingles_outcome(document: Value) -> Result<ObjectiveFields, Seq<char>> {
    match json::number_at(document, "/threshold"@) {
        None => Err(missing_field("threshold"@)),
        Some(threshold) => if !is_threshold(threshold) {
            Err("'threshold' must be in (0, 1)"@)
        } else {
            match text_field(document, "/min_pop"@, "min_pop"@) {
                Err(e) => Err(e),
                Ok(min_pop) => match text_field(document, "/total_pop"@, "total_pop"@) {
                    Err(e) => Err(e),
                    Ok(total_pop) => Ok(
                        ObjectiveFields::Gingles { threshold, min_pop, total_pop },
                    ),
                },
            }
        },
    }
}

/// What a `banded_gingles_partial` document asks for, or what is wrong with it.
pub open spec fn banded_outcome(document: Value) -> Result<ObjectiveFields, Seq<char>> {
    match json::number_at(document, "/lower_threshold"@) {
        None => Err("Missing or non-numeric field 'lower_threshold' in objective config"@),
        Some(lower) => match json::number_at(document, "/upper_threshold"@) {
            None => Err("Missing or non-numeric field 'upper_threshold' in objective config"@),
            Some(upper) => if !is_threshold(lower) {
                Err("'lower_threshold' must be in (0, 1)"@)
            } else if !is_threshold(upper) {
                Err("'upper_threshold' must be in (0, 1)"@)
            } else if !lower.at_most(upper) {
                Err("'lower_threshold' must be <= 'upper_threshold'"@)
            } else {
                match text_field(document, "/min_pop"@, "min_pop"@) {
                    Err(e) => Err(e),
                    Ok(min_pop) => match text_field(document, "/total_pop"@, "total_pop"@) {
                        Err(e) => Err(e),
                        Ok(total_pop) => Ok(
                            ObjectiveFields::Banded { lower, upper, min_pop, total_pop },
                        ),
                    },
                }
            },
        },
    }
}

/// The vote columns of the first `k` elections of a document, or what is wrong
/// with the first election that lacks one.
pub open spec fn election_list(document: Value, k: nat) -> Result<
    (Seq<Seq<char>>, Seq<Seq<char>>),
    Seq<char>,
>
    decreases k,
{
    if k == 0 {
        Ok((Seq::empty(), Seq::empty()))
    } else {
        match election_list(document, (k - 1) as nat) {
            Err(e) => Err(e),
            Ok((before_a, before_b)) => match text_field(
                document,
                json::item_field("/elections"@, (k - 1) as nat, "/votes_a"@),
                "votes_a"@,
            ) {
                Err(e) => Err(e),
                Ok(a) => match text_field(
                    document,
                    json::item_field("/elections"@, (k - 1) as nat, "/votes_b"@),
                    "votes_b"@,
                ) {
                    Err(e) => Err(e),
                    Ok(b) => Ok((before_a.push(a), before_b.push(b))),
                },
            },
        }
    }
}

proof fn election_error_stays(document: Value, k: nat, n: nat)
    requires
        k <= n,
        election_list(document, k) is Err,
    ensures
        election_list(document, n) == election_list(document, k),
    decreases n - k,
{
    if k < n {
        assert(election_list(document, k + 1) == election_list(document, k));
        election_error_stays(document, k + 1, n);
    }
}

/// The first columns of pairs.
pub open spec fn first_texts(pairs: Seq<(String, String)>) -> Seq<Seq<char>> {
    Seq::new(pairs.len(), |i: int| pairs[i].0@)
}

/// The second columns of pairs.
pub open spec fn second_texts(pairs: Seq<(String, String)>) -> Seq<Seq<char>> {
    Seq::new(pairs.len(), |i: int| pairs[i].1@)
}

fn read_elections(document: &Value, n: usize) -> (r: Result<Vec<(String, String)>, String>)
    ensures
        match r {
            Ok(v) => election_list(*document, n as nat) == Ok::<
                (Seq<Seq<char>>, Seq<Seq<char>>),
                Seq<char>,
            >((first_texts(v@), second_texts(v@))),
            Err(e) => election_list(*document, n as nat) == Err::<
                (Seq<Seq<char>>, Seq<Seq<char>>),
                Seq<char>,
            >(e@),
        },
{
    let mut pairs: Vec<(String, String)> = Vec::new();
    let mut i: usize = 0;
    assert(first_texts(pairs@) =~= Seq::<Seq<char>>::empty());
    assert(second_texts(pairs@) =~= Seq::<Seq<char>>::empty());
    while i < n
        invariant
            i <= n,
            election_list(*document, i as nat) == Ok::<
                (Seq<Seq<char>>, Seq<Seq<char>>),
                Seq<char>,
            >((first_texts(pairs@), second_texts(pairs@))),
        decreases n - i,
    {
        let mut at_a: String = json::item_pointer("/elections", i);
        at_a.append("/votes_a");
        let mut at_b: String = json::item_pointer("/elections", i);
        at_b.append("/votes_b");
        let a: String = match find_field(document, at_a.as_str(), "votes_a") {
            Ok(s) => s,
            Err(e) => {
                proof {
                    election_error_stays(*document, (i + 1) as nat, n as nat);
                }
                return Err(e);
            },
        };
        let b: String = match find_field(document, at_b.as_str(), "votes_b") {
            Ok(s) => s,
            Err(e) => {
                proof {
                    election_error_stays(*document, (i + 1) as nat, n as nat);
                }
                return Err(e);
            },
        };
        let ghost before = pairs@;
        pairs.push((a, b));
        assert(first_texts(pairs@) =~= first_texts(before).push(a@));
        assert(second_texts(pairs@) =~= second_texts(before).push(b@));
        i += 1;
    }
    Ok(pairs)
}

/// The aggregate that a document names, or what is wrong with it.
pub open spec fn aggregation_outcome(document: Value) -> Result<Aggregation, Seq<char>> {
    match text_field(document, "/aggregation"@, "aggregation"@) {
        Err(e) => Err(e),
        Ok(name) => match aggregation::aggregation_named(name) {
            Some(a) => Ok(a),
            None => Err(
                "Unknown aggregation '"@ + name + "'. Use 'mean', 'min', or 'sum'."@,
            ),
        },
    }
}

fn read_aggregation(data: &Value) -> (r: Result<Aggregation, String>)
    ensures
        match r {
            Ok(a) => aggregation_outcome(*data) == Ok::<Aggregation, Seq<char>>(a),
            Err(e) => aggregation_outcome(*data) == Err::<Aggregation, Seq<char>>(e@),
        },
{
    match find_field(data, "/aggregation", "aggregation") {
        Ok(name) => Aggregation::from_str(name.as_str()),
        Err(e) => Err(e),
    }
}

/// What an `election_wins` document asks for, or what is wrong with it.
pub open spec fn election_outcome(document: Value) -> Result<ObjectiveFields, Seq<char>> {
    match json::list_at(document, "/elections"@) {
        None => Err(missing_field("elections"@)),
        Some(n) => match election_list(document, n) {
            Err(e) => Err(e),
            Ok((votes_a, votes_b)) => match text_field(document, "/target"@, "target"@) {
                Err(e) => Err(e),
                Ok(target) => if target != "a"@ && target != "b"@ {
                    Err("Invalid target '"@ + target + "'. Use 'a' or 'b'."@)
                } else {
                    match aggregation_outcome(document) {
                        Err(e) => Err(e),
                        Ok(aggregation) => Ok(
                            ObjectiveFields::Election {
                                votes_a,
                                votes_b,
                                target_a: target == "a"@,
                                aggregation,
                            },
                        ),
                    }
                },
            },
        },
    }
}

/// What a `polsby_popper` document asks for, or what is wrong with it.
pub open spec fn polsby_popper_outcome(document: Value) -> Result<ObjectiveFields, Seq<char>> {
    let boundary_perim_col = json::text_at(document, "/boundary_perim_col"@);
    let named = json::text_at(document, "/perim_col"@);
    match aggregation_outcome(document) {
        Err(e) => Err(e),
        Ok(aggregation) => if named is None && boundary_perim_col is None {
            Err(
                "polsby_popper config must set 'perim_col' (pre-baked total perimeter column) or 'boundary_perim_col' (auto-derive from shared_perim + boundary_perim)."@,
            )
        } else {
            let perim_col = match named {
                Some(s) => s,
                None => derived_perim_col(),
            };
            match text_field(document, "/area_col"@, "area_col"@) {
                Err(e) => Err(e),
                Ok(area_col) => match text_field(
                    document,
                    "/shared_perim_col"@,
                    "shared_perim_col"@,
                ) {
                    Err(e) => Err(e),
                    Ok(shared_perim_col) => Ok(
                        ObjectiveFields::PolsbyPopper {
                            area_col,
                            perim_col,
                            shared_perim_col,
                            boundary_perim_col,
                            aggregation,
                        },
                    ),
                },
            }
        },
    }
}

/// What an objective document asks for, or what is wrong with it.
pub open spec fn objective_outcome(document: Value) -> Result<ObjectiveFields, Seq<char>> {
    match text_field(document, "/objective"@, "objective"@) {
        Err(e) => Err(e),
        Ok(name) => if name == "by_district_abs_deviation"@ || name == "abs_deviation"@ {
            by_district_outcome(document)
        } else if name == "gingles_partial"@ {
            gingles_outcome(document)
        } else if name == "banded_gingles_partial"@ {
            banded_outcome(document)
        } else if name == "election_wins"@ {
            election_outcome(document)
        } else if name == "polsby_popper"@ {
            polsby_popper_outcome(document)
        } else {
            Err(
                "Unknown objective '"@ + name
                    + "'. Supported: 'by_district_abs_deviation' (alias 'abs_deviation'), 'gingles_partial', 'banded_gingles_partial', 'election_wins', 'polsby_popper'."@,
            )
        },
    }
}

/// Whether an objective is what the fields of a document ask for. Targets are
/// kept in ascending order.
pub open spec fn configured<F: Fn(Op, Double, Double) -> Double>(
    objective: ObjectiveConfig<F>,
    fields: ObjectiveFields,
    numbers: Arithmetic<F>,
) -> bool {
    match (objective, fields) {
        (
            ObjectiveConfig::ByDistrictAbsDeviation(o),
            ObjectiveFields::ByDistrict { targets, pov_counts_col, column, constant },
        ) => {
            &&& matching::is_sorted_copy(targets, o.target_values@)
            &&& o.pov_counts_col@ == pov_counts_col
            &&& match o.total {
                AbsDevTotal::Column(col) => column == Some(col@),
                AbsDevTotal::Constant(t) => column is None && t == constant,
            }
            &&& o.arithmetic == numbers
        },
        (
            ObjectiveConfig::GinglesPartial(o),
            ObjectiveFields::Gingles { threshold, min_pop, total_pop },
        ) => {
            &&& o.threshold == threshold
            &&& o.min_pop_col@ == min_pop
            &&& o.total_pop_col@ == total_pop
            &&& o.arithmetic == numbers
        },
        (
            ObjectiveConfig::BandedGinglesPartial(o),
            ObjectiveFields::Banded { lower, upper, min_pop, total_pop },
        ) => {
            &&& o.lower == lower
            &&& o.upper == upper
            &&& o.min_pop_col@ == min_pop
            &&& o.total_pop_col@ == total_pop
            &&& o.arithmetic == numbers
        },
        (
            ObjectiveConfig::ElectionWins(o),
            ObjectiveFields::Election { votes_a, votes_b, target_a, aggregation },
        ) => {
            &&& first_texts(o.elections@) == votes_a
            &&& second_texts(o.elections@) == votes_b
            &&& o.target_a == target_a
            &&& o.aggregation == aggregation
            &&& o.arithmetic == numbers
        },
        (
            ObjectiveConfig::PolsbyPopper(o),
            ObjectiveFields::PolsbyPopper {
                area_col,
                perim_col,
                shared_perim_col,
                boundary_perim_col,
                aggregation,
            },
        ) => {
            &&& o.area_col@ == area_col
            &&& o.perim_col@ == perim_col
            &&& o.shared_perim_col@ == shared_perim_col
            &&& json::opt_text(o.boundary_perim_col) == boundary_perim_col
            &&& o.aggregation == aggregation
            &&& o.arithmetic == numbers
        },
        _ => false,
    }
}

fn by_district_from_json<F: Fn(Op, Double, Double) -> Double>(
    data: &Value,
    arithmetic: Arithmetic<F>,
) -> (r: Result<ObjectiveConfig<F>, String>)
    ensures
        match r {
            Ok(o) => by_district_outcome(*data) matches Ok(fields) && configured(
                o,
                fields,
                arithmetic,
            ),
            Err(e) => by_district_outcome(*data) == Err::<ObjectiveFields, Seq<char>>(e@),
        },
{
    let targets: Vec<Double> = match read_targets(data) {
        Ok(v) => v,
        Err(e) => {
            return Err(e);
        },
    };
    let target_values: Vec<Double> = matching::sort_doubles(&targets);
    let pov_counts_col: String = match find_field(data, "/pov_counts_col", "pov_counts_col") {
        Ok(s) => s,
        Err(e) => {
            return Err(e);
        },
    };
    let total: AbsDevTotal = if json::find(data, "/total_count").is_some() {
        match json::find_number(data, "/total_count") {
            None => {
                return Err("'total_count' must be a finite positive number".to_string());
            },
            Some(t) => {
                if !(t.is_finite() && t.gt(double::zero())) {
                    return Err("'total_count' must be a finite positive number".to_string());
                }
                AbsDevTotal::Constant(t)
            },
        }
    } else {
        match find_field(data, "/total_counts_col", "total_counts_col") {
            Ok(s) => AbsDevTotal::Column(s),
            Err(e) => {
                return Err(e);
            },
        }
    };
    Ok(
        ObjectiveConfig::ByDistrictAbsDeviation(
            ByDistrictAbsDeviation { target_values, pov_counts_col, total, arithmetic },
        ),
    )
}

fn gingles_from_json<F: Fn(Op, Double, Double) -> Double>(
    data: &Value,
    arithmetic: Arithmetic<F>,
) -> (r: Result<ObjectiveConfig<F>, String>)
    ensures
        match r {
            Ok(o) => gingles_outcome(*data) matches Ok(fields) && configured(o, fields, arithmetic),
            Err(e) => gingles_outcome(*data) == Err::<ObjectiveFields, Seq<char>>(e@),
        },
{
    let threshold: Double = match json::find_number(data, "/threshold") {
        Some(x) => x,
        None => {
            return Err(missing("threshold"));
        },
    };
    if !check_threshold(threshold) {
        return Err("'threshold' must be in (0, 1)".to_string());
    }
    let min_pop_col: String = match find_field(data, "/min_pop", "min_pop") {
        Ok(s) => s,
        Err(e) => {
            return Err(e);
        },
    };
    let total_pop_col: String = match find_field(data, "/total_pop", "total_pop") {
        Ok(s) => s,
        Err(e) => {
            return Err(e);
        },
    };
    Ok(
        ObjectiveConfig::GinglesPartial(
            GinglesPartial { threshold, min_pop_col, total_pop_col, arithmetic },
        ),
    )
}

fn banded_from_json<F: Fn(Op, Double, Double) -> Double>(
    data: &Value,
    arithmetic: Arithmetic<F>,
) -> (r: Result<ObjectiveConfig<F>, String>)
    ensures
        match r {
            Ok(o) => banded_outcome(*data) matches Ok(fields) && configured(o, fields, arithmetic),
            Err(e) => banded_outcome(*data) == Err::<ObjectiveFields, Seq<char>>(e@),
        },
{
    let lower: Double = match json::find_number(data, "/lower_threshold") {
        Some(x) => x,
        None => {
            return Err(
                "Missing or non-numeric field 'lower_threshold' in objective config".to_string(),
            );
        },
    };
    let upper: Double = match json::find_number(data, "/upper_threshold") {
        Some(x) => x,
        None => {
            return Err(
                "Missing or non-numeric field 'upper_threshold' in objective config".to_string(),
            );
        },
    };
    if !check_threshold(lower) {
        return Err("'lower_threshold' must be in (0, 1)".to_string());
    }
    if !check_threshold(upper) {
        return Err("'upper_threshold' must be in (0, 1)".to_string());
    }
    if !lower.le(upper) {
        return Err("'lower_threshold' must be <= 'upper_threshold'".to_string());
    }
    let min_pop_col: String = match find_field(data, "/min_pop", "min_pop") {
        Ok(s) => s,
        Err(e) => {
            return Err(e);
        },
    };
    let total_pop_col: String = match find_field(data, "/total_pop", "total_pop") {
        Ok(s) => s,
        Err(e) => {
            return Err(e);
        },
    };
    Ok(
        ObjectiveConfig::BandedGinglesPartial(
            BandedGinglesPartial { lower, upper, min_pop_col, total_pop_col, arithmetic },
        ),
    )
}

fn election_from_json<F: Fn(Op, Double, Double) -> Double>(
    data: &Value,
    arithmetic: Arithmetic<F>,
) -> (r: Result<ObjectiveConfig<F>, String>)
    ensures
        match r {
            Ok(o) => election_outcome(*data) matches Ok(fields) && configured(
                o,
                fields,
                arithmetic,
            ),
            Err(e) => election_outcome(*data) == Err::<ObjectiveFields, Seq<char>>(e@),
        },
{
    let n: usize = match json::find_list(data, "/elections") {
        Some(n) => n,
        None => {
            return Err(missing("elections"));
        },
    };
    let elections: Vec<(String, String)> = match read_elections(data, n) {
        Ok(v) => v,
        Err(e) => {
            return Err(e);
        },
    };
    let target: String = match find_field(data, "/target", "target") {
        Ok(s) => s,
        Err(e) => {
            return Err(e);
        },
    };
    let target_a: bool = columns::string_eq(&target, "a");
    proof {
        reveal_strlit("a");
        reveal_strlit("b");
        assert("a"@[0] != "b"@[0]);
    }
    if !target_a && !columns::string_eq(&target, "b") {
        let mut out: String = "Invalid target '".to_string();
        out.append(target.as_str());
        out.append("'. Use 'a' or 'b'.");
        return Err(out);
    }
    match read_aggregation(data) {
        Ok(aggregation) => Ok(
            ObjectiveConfig::ElectionWins(
                ElectionWins { elections, target_a, aggregation, arithmetic },
            ),
        ),
        Err(e) => Err(e),
    }
}

fn polsby_popper_from_json<F: Fn(Op, Double, Double) -> Double>(
    data: &Value,
    arithmetic: Arithmetic<F>,
) -> (r: Result<ObjectiveConfig<F>, String>)
    ensures
        match r {
            Ok(o) => polsby_popper_outcome(*data) matches Ok(fields) && configured(
                o,
                fields,
                arithmetic,
            ),
            Err(e) => polsby_popper_outcome(*data) == Err::<ObjectiveFields, Seq<char>>(e@),
        },
{
    let aggregation: Aggregation = match read_aggregation(data) {
        Ok(a) => a,
        Err(e) => {
            return Err(e);
        },
    };
    let boundary_perim_col: Option<String> = json::find_text(data, "/boundary_perim_col");
    let perim_col: String = match json::find_text(data, "/perim_col") {
        Some(s) => s,
        None => {
            if boundary_perim_col.is_none() {
                return Err(
                    "polsby_popper config must set 'perim_col' (pre-baked total perimeter column) or 'boundary_perim_col' (auto-derive from shared_perim + boundary_perim).".to_string(),
                );
            }
            derived_perim_name()
        },
    };
    let area_col: String = match find_field(data, "/area_col", "area_col") {
        Ok(s) => s,
        Err(e) => {
            return Err(e);
        },
    };
    let shared_perim_col: String = match find_field(
        data,
        "/shared_perim_col",
        "shared_perim_col",
    ) {
        Ok(s) => s,
        Err(e) => {
            return Err(e);
        },
    };
    Ok(
        ObjectiveConfig::PolsbyPopper(
            PolsbyPopper {
                area_col,
                perim_col,
                shared_perim_col,
                boundary_perim_col,
                aggregation,
                arithmetic,
            },
        ),
    )
}

/// The objective that a document configures.
pub fn make_objective_value<F: Fn(Op, Double, Double) -> Double>(
    data: &Value,
    arithmetic: Arithmetic<F>,
) -> (r: Result<ObjectiveConfig<F>, String>)
    ensures
        match r {
            Ok(o) => objective_outcome(*data) matches Ok(fields) && configured(
                o,
                fields,
                arithmetic,
            ),
            Err(e) => objective_outcome(*data) == Err::<ObjectiveFields, Seq<char>>(e@),
        },
{
    let name: String = match find_field(data, "/objective", "objective") {
        Ok(s) => s,
        Err(e) => {
            return Err(e);
        },
    };
    if columns::string_eq(&name, "by_district_abs_deviation") || columns::string_eq(
        &name,
        "abs_deviation",
    ) {
        by_district_from_json(data, arithmetic)
    } else if columns::string_eq(&name, "gingles_partial") {
        gingles_from_json(data, arithmetic)
    } else if columns::string_eq(&name, "banded_gingles_partial") {
        banded_from_json(data, arithmetic)
    } else if columns::string_eq(&name, "election_wins") {
        election_from_json(data, arithmetic)
    } else if columns::string_eq(&name, "polsby_popper") {
        polsby_popper_from_json(data, arithmetic)
    } else {
        let mut out: String = "Unknown objective '".to_string();
        out.append(name.as_str());
        out.append(
            "'. Supported: 'by_district_abs_deviation' (alias 'abs_deviation'), 'gingles_partial', 'banded_gingles_partial', 'election_wins', 'polsby_popper'.",
        );
        Err(out)
    }
}

/// The objective that a JSON text configures.
pub fn make_objective<F: Fn(Op, Double, Double) -> Double>(
    config: &str,
    arithmetic: Arithmetic<F>,
) -> (r: Result<ObjectiveConfig<F>, String>)
    ensures
        json::parsed_places(config@) is None ==> r is Err,
        json::parsed_places(config@) matches Some(places) ==> exists|document: Value|
            #[trigger] json::places(document) == places && match r {
                Ok(o) => objective_outcome(document) matches Ok(fields) && configured(
                    o,
                    fields,
                    arithmetic,
                ),
                Err(e) => objective_outcome(document) == Err::<ObjectiveFields, Seq<char>>(e@),
            },
{
    match json::parse(config) {
        Ok(data) => make_objective_value(&data, arithmetic),
        Err(e) => Err(e),
    }
}

/// The node columns that an objective with given fields reads.
pub open spec fn node_columns(fields: ObjectiveFields) -> Seq<Seq<char>> {
    match fields {
        ObjectiveFields::ByDistrict { targets, pov_counts_col, column, constant } => match column {
            Some(col) => seq![pov_counts_col, col],
            None => seq![pov_counts_col],
        },
        ObjectiveFields::Gingles { threshold, min_pop, total_pop } => seq![min_pop, total_pop],
        ObjectiveFields::Banded { lower, upper, min_pop, total_pop } => seq![min_pop, total_pop],
        ObjectiveFields::Election { votes_a, votes_b, target_a, aggregation } => interleaved(
            votes_a,
            votes_b,
            votes_a.len() as int,
        ),
        ObjectiveFields::PolsbyPopper {
            area_col,
            perim_col,
            shared_perim_col,
            boundary_perim_col,
            aggregation,
        } => if boundary_perim_col is None {
            seq![area_col, perim_col]
        } else {
            seq![area_col]
        },
    }
}

/// The first `k` entries of two lists, by turns.
pub open spec fn interleaved(a: Seq<Seq<char>>, b: Seq<Seq<char>>, k: int) -> Seq<Seq<char>>
    decreases k,
{
    if k <= 0 {
        Seq::empty()
    } else {
        interleaved(a, b, k - 1).push(a[k - 1]).push(b[k - 1])
    }
}

/// The node columns that may be missing on some nodes.
pub open spec fn partial_columns(fields: ObjectiveFields) -> Seq<Seq<char>> {
    match fields {
        ObjectiveFields::PolsbyPopper {
            area_col,
            perim_col,
            shared_perim_col,
            boundary_perim_col,
            aggregation,
        } => match boundary_perim_col {
            Some(col) => seq![col],
            None => Seq::empty(),
        },
        _ => Seq::empty(),
    }
}

/// The edge columns that an objective with given fields reads.
pub open spec fn edge_columns(fields: ObjectiveFields) -> Seq<Seq<char>> {
    match fields {
        ObjectiveFields::PolsbyPopper {
            area_col,
            perim_col,
            shared_perim_col,
            boundary_perim_col,
            aggregation,
        } => seq![shared_perim_col],
        _ => Seq::empty(),
    }
}

/// The column names that derived perimeters are computed from and kept under,
/// if an objective derives them: perimeter, outer perimeter, shared perimeter.
pub open spec fn derivation(fields: ObjectiveFields) -> Option<(Seq<char>, Seq<char>, Seq<char>)> {
    match fields {
        ObjectiveFields::PolsbyPopper {
            area_col,
            perim_col,
            shared_perim_col,
            boundary_perim_col,
            aggregation,
        } => match boundary_perim_col {
            Some(boundary) => Some((perim_col, boundary, shared_perim_col)),
            None => None,
        },
        _ => None,
    }
}

/// The node columns that a document's objective reads, or what is wrong with
/// it; none for an unknown objective.
pub open spec fn node_columns_outcome(document: Value) -> Result<Seq<Seq<char>>, Seq<char>> {
    match text_field(document, "/objective"@, "objective"@) {
        Err(e) => Err(e),
        Ok(name) => if name == "by_district_abs_deviation"@ || name == "abs_deviation"@ {
            match text_field(document, "/pov_counts_col"@, "pov_counts_col"@) {
                Err(e) => Err(e),
                Ok(pov) => if json::places(document).contains_key("/total_count"@) {
                    Ok(seq![pov])
                } else {
                    match text_field(document, "/total_counts_col"@, "total_counts_col"@) {
                        Err(e) => Err(e),
                        Ok(total) => Ok(seq![pov, total]),
                    }
                },
            }
        } else if name == "gingles_partial"@ || name == "banded_gingles_partial"@ {
            match text_field(document, "/min_pop"@, "min_pop"@) {
                Err(e) => Err(e),
                Ok(min_pop) => match text_field(document, "/total_pop"@, "total_pop"@) {
                    Err(e) => Err(e),
                    Ok(total_pop) => Ok(seq![min_pop, total_pop]),
                },
            }
        } else if name == "election_wins"@ {
            match json::list_at(document, "/elections"@) {
                None => Err(missing_field("elections"@)),
                Some(n) => match election_list(document, n) {
                    Err(e) => Err(e),
                    Ok((a, b)) => Ok(interleaved(a, b, a.len() as int)),
                },
            }
        } else if name == "polsby_popper"@ {
            match text_field(document, "/area_col"@, "area_col"@) {
                Err(e) => Err(e),
                Ok(area) => if json::text_at(document, "/boundary_perim_col"@) is Some {
                    Ok(seq![area])
                } else {
                    match json::text_at(document, "/perim_col"@) {
                        Some(perim) => Ok(seq![area, perim]),
                        None => Err(
                            "polsby_popper config must set 'perim_col' or 'boundary_perim_col'."@,
                        ),
                    }
                },
            }
        } else {
            Ok(Seq::empty())
        },
    }
}

/// The node columns of a document's objective that may be missing on some
/// nodes.
pub open spec fn partial_columns_of(document: Value) -> Seq<Seq<char>> {
    if json::text_at(document, "/objective"@) == Some("polsby_popper"@) {
        match json::text_at(document, "/boundary_perim_col"@) {
            Some(col) => seq![col],
            None => Seq::empty(),
        }
    } else {
        Seq::empty()
    }
}

/// The edge columns that a document's objective reads, or what is wrong with
/// it.
pub open spec fn edge_columns_outcome(document: Value) -> Result<Seq<Seq<char>>, Seq<char>> {
    match text_field(document, "/objective"@, "objective"@) {
        Err(e) => Err(e),
        Ok(name) => if name == "polsby_popper"@ {
            match json::text_at(document, "/shared_perim_col"@) {
                Some(col) => Ok(seq![col]),
                None => Err("Missing 'shared_perim_col' in polsby_popper config"@),
            }
        } else {
            Ok(Seq::empty())
        },
    }
}

/// The columns that are read from a document are those of the objective that
/// it configures.
pub proof fn columns_follow_the_objective(document: Value)
    requires
        objective_outcome(document) is Ok,
    ensures
        node_columns_outcome(document) == Ok::<Seq<Seq<char>>, Seq<char>>(
            node_columns(objective_outcome(document)->Ok_0),
        ),
        partial_columns_of(document) == partial_columns(objective_outcome(document)->Ok_0),
        edge_columns_outcome(document) == Ok::<Seq<Seq<char>>, Seq<char>>(
            edge_columns(objective_outcome(document)->Ok_0),
        ),
{
    names_differ();
}

proof fn names_differ()
    ensures
        "by_district_abs_deviation"@ != "polsby_popper"@,
        "abs_deviation"@ != "polsby_popper"@,
        "gingles_partial"@ != "polsby_popper"@,
        "banded_gingles_partial"@ != "polsby_popper"@,
        "election_wins"@ != "polsby_popper"@,
{
    reveal_strlit("by_district_abs_deviation");
    reveal_strlit("abs_deviation");
    reveal_strlit("gingles_partial");
    reveal_strlit("banded_gingles_partial");
    reveal_strlit("election_wins");
    reveal_strlit("polsby_popper");
    assert("by_district_abs_deviation"@[0] != "polsby_popper"@[0]);
    assert("abs_deviation"@[0] != "polsby_popper"@[0]);
    assert("gingles_partial"@[0] != "polsby_popper"@[0]);
    assert("banded_gingles_partial"@[0] != "polsby_popper"@[0]);
    assert("election_wins"@[0] != "polsby_popper"@[0]);
}

fn one_column(name: String) -> (r: Vec<String>)
    ensures
        vectors::texts(r@) == seq![name@],
{
    let mut r: Vec<String> = Vec::new();
    r.push(name);
    assert(vectors::texts(r@) =~= seq![name@]);
    r
}

fn two_columns(a: String, b: String) -> (r: Vec<String>)
    ensures
        vectors::texts(r@) == seq![a@, b@],
{
    let mut r: Vec<String> = Vec::new();
    r.push(a);
    r.push(b);
    assert(vectors::texts(r@) =~= seq![a@, b@]);
    r
}

fn no_columns() -> (r: Vec<String>)
    ensures
        vectors::texts(r@) == Seq::<Seq<char>>::empty(),
{
    let r: Vec<String> = Vec::new();
    assert(vectors::texts(r@) =~= Seq::<Seq<char>>::empty());
    r
}

fn both_fields(data: &Value, at_a: &str, a: &str, at_b: &str, b: &str) -> (r: Result<
    Vec<String>,
    String,
>)
    ensures
        match r {
            Ok(v) => text_field(*data, at_a@, a@) is Ok && text_field(*data, at_b@, b@) is Ok
                && vectors::texts(v@) == seq![
                text_field(*data, at_a@, a@)->Ok_0,
                text_field(*data, at_b@, b@)->Ok_0,
            ],
            Err(e) => text_field(*data, at_a@, a@) == Err::<Seq<char>, Seq<char>>(e@) || (
            text_field(*data, at_a@, a@) is Ok && text_field(*data, at_b@, b@) == Err::<
                Seq<char>,
                Seq<char>,
            >(e@)),
        },
{
    match find_field(data, at_a, a) {
        Err(e) => Err(e),
        Ok(x) => match find_field(data, at_b, b) {
            Err(e) => Err(e),
            Ok(y) => Ok(two_columns(x, y)),
        },
    }
}

fn election_columns(data: &Value) -> (r: Result<Vec<String>, String>)
    ensures
        match (json::list_at(*data, "/elections"@), r) {
            (None, Err(e)) => e@ == missing_field("elections"@),
            (Some(n), Err(e)) => election_list(*data, n) == Err::<
                (Seq<Seq<char>>, Seq<Seq<char>>),
                Seq<char>,
            >(e@),
            (Some(n), Ok(v)) => election_list(*data, n) matches Ok((a, b)) && vectors::texts(v@)
                == interleaved(a, b, a.len() as int),
            (None, Ok(v)) => false,
        },
{
    let n: usize = match json::find_list(data, "/elections") {
        Some(n) => n,
        None => {
            return Err(missing("elections"));
        },
    };
    let elections: Vec<(String, String)> = match read_elections(data, n) {
        Ok(v) => v,
        Err(e) => {
            return Err(e);
        },
    };
    let ghost a = first_texts(elections@);
    let ghost b = second_texts(elections@);
    let mut cols: Vec<String> = no_columns();
    let mut e: usize = 0;
    while e < elections.len()
        invariant
            e <= elections.len(),
            a == first_texts(elections@),
            b == second_texts(elections@),
            vectors::texts(cols@) == interleaved(a, b, e as int),
        decreases elections.len() - e,
    {
        let ghost before = vectors::texts(cols@);
        cols.push(elections[e].0.clone());
        cols.push(elections[e].1.clone());
        e += 1;
        assert(vectors::texts(cols@) =~= before.push(a[e - 1]).push(b[e - 1]));
    }
    Ok(cols)
}

/// The node columns that a document's objective reads.
pub fn required_node_cols_value(data: &Value) -> (r: Result<Vec<String>, String>)
    ensures
        match r {
            Ok(v) => node_columns_outcome(*data) == Ok::<Seq<Seq<char>>, Seq<char>>(
                vectors::texts(v@),
            ),
            Err(e) => node_columns_outcome(*data) == Err::<Seq<Seq<char>>, Seq<char>>(e@),
        },
{
    let name: String = match find_field(data, "/objective", "objective") {
        Ok(s) => s,
        Err(e) => {
            return Err(e);
        },
    };
    if columns::string_eq(&name, "by_district_abs_deviation") || columns::string_eq(
        &name,
        "abs_deviation",
    ) {
        if json::find(data, "/total_count").is_some() {
            match find_field(data, "/pov_counts_col", "pov_counts_col") {
                Ok(pov) => Ok(one_column(pov)),
                Err(e) => Err(e),
            }
        } else {
            both_fields(
                data,
                "/pov_counts_col",
                "pov_counts_col",
                "/total_counts_col",
                "total_counts_col",
            )
        }
    } else if columns::string_eq(&name, "gingles_partial") || columns::string_eq(
        &name,
        "banded_gingles_partial",
    ) {
        both_fields(data, "/min_pop", "min_pop", "/total_pop", "total_pop")
    } else if columns::string_eq(&name, "election_wins") {
        election_columns(data)
    } else if columns::string_eq(&name, "polsby_popper") {
        match find_field(data, "/area_col", "area_col") {
            Err(e) => Err(e),
            Ok(area) => if json::find_text(data, "/boundary_perim_col").is_some() {
                Ok(one_column(area))
            } else {
                match json::find_text(data, "/perim_col") {
                    Some(perim) => Ok(two_columns(area, perim)),
                    None => Err(
                        "polsby_popper config must set 'perim_col' or 'boundary_perim_col'.".to_string(),
                    ),
                }
            },
        }
    } else {
        Ok(no_columns())
    }
}

/// The node columns of a document's objective that may be missing on some
/// nodes.
pub fn partial_node_cols_value(data: &Value) -> (r: Vec<String>)
    ensures
        vectors::texts(r@) == partial_columns_of(*data),
{
    if let Some(name) = json::find_text(data, "/objective") {
        if columns::string_eq(&name, "polsby_popper") {
            if let Some(col) = json::find_text(data, "/boundary_perim_col") {
                return one_column(col);
            }
        }
    }
    no_columns()
}

/// The edge columns that a document's objective reads.
pub fn required_edge_cols_value(data: &Value) -> (r: Result<Vec<String>, String>)
    ensures
        match r {
            Ok(v) => edge_columns_outcome(*data) == Ok::<Seq<Seq<char>>, Seq<char>>(
                vectors::texts(v@),
            ),
            Err(e) => edge_columns_outcome(*data) == Err::<Seq<Seq<char>>, Seq<char>>(e@),
        },
{
    let name: String = match find_field(data, "/objective", "objective") {
        Ok(s) => s,
        Err(e) => {
            return Err(e);
        },
    };
    if columns::string_eq(&name, "polsby_popper") {
        match json::find_text(data, "/shared_perim_col") {
            Some(col) => Ok(one_column(col)),
            None => Err("Missing 'shared_perim_col' in polsby_popper config".to_string()),
        }
    } else {
        Ok(no_columns())
    }
}

/// The node columns that the objective of a JSON text reads.
pub fn required_node_cols(config: &str) -> (r: Result<Vec<String>, String>)
    ensures
        match json::parsed_places(config@) {
            None => r is Err,
            Some(places) => exists|document: Value|
                #[trigger] json::places(document) == places && match r {
                    Ok(v) => node_columns_outcome(document) == Ok::<Seq<Seq<char>>, Seq<char>>(
                        vectors::texts(v@),
                    ),
                    Err(e) => node_columns_outcome(document) == Err::<
                        Seq<Seq<char>>,
                        Seq<char>,
                    >(e@),
                },
        },
{
    match json::parse(config) {
        Ok(data) => required_node_cols_value(&data),
        Err(e) => Err(e),
    }
}

/// The node columns of a JSON text's objective that may be missing on some
/// nodes; none for a text that is no JSON.
pub fn partial_node_cols(config: &str) -> (r: Vec<String>)
    ensures
        match json::parsed_places(config@) {
            None => vectors::texts(r@) == Seq::<Seq<char>>::empty(),
            Some(places) => exists|document: Value|
                #[trigger] json::places(document) == places && vectors::texts(r@)
                    == partial_columns_of(document),
        },
{
    match json::parse(config) {
        Ok(data) => partial_node_cols_value(&data),
        Err(_) => no_columns(),
    }
}

/// The edge columns that the objective of a JSON text reads.
pub fn required_edge_cols(config: &str) -> (r: Result<Vec<String>, String>)
    ensures
        match json::parsed_places(config@) {
            None => r is Err,
            Some(places) => exists|document: Value|
                #[trigger] json::places(document) == places && match r {
                    Ok(v) => edge_columns_outcome(document) == Ok::<Seq<Seq<char>>, Seq<char>>(
                        vectors::texts(v@),
                    ),
                    Err(e) => edge_columns_outcome(document) == Err::<
                        Seq<Seq<char>>,
                        Seq<char>,
                    >(e@),
                },
        },
{
    match json::parse(config) {
        Ok(data) => required_edge_cols_value(&data),
        Err(e) => Err(e),
    }
}

/// The column names that a perimeter column is derived by, if a document asks
/// for that: it configures `polsby_popper` with an outer perimeter column.
pub open spec fn autoderive_outcome(document: Value) -> Option<(Seq<char>, Seq<char>, Seq<char>)> {
    if json::text_at(document, "/objective"@) != Some("polsby_popper"@) {
        None
    } else {
        match json::text_at(document, "/boundary_perim_col"@) {
            None => None,
            Some(boundary) => match json::text_at(document, "/shared_perim_col"@) {
                None => None,
                Some(shared) => Some(
                    (
                        match json::text_at(document, "/perim_col"@) {
                            Some(s) => s,
                            None => derived_perim_col(),
                        },
                        boundary,
                        shared,
                    ),
                ),
            },
        }
    }
}

/// What is derived follows the fields: where a document configures an
/// objective, it asks for derived perimeters if and only if the objective has
/// an outer perimeter column.
pub proof fn autoderive_follows_the_objective(document: Value)
    requires
        objective_outcome(document) is Ok,
    ensures
        autoderive_outcome(document) == derivation(objective_outcome(document)->Ok_0),
{
    names_differ();
}

/// The columns of [`autoderive_outcome`] for a document.
pub fn polsby_popper_autoderive_value(data: &Value) -> (r: Option<(String, String, String)>)
    ensures
        match r {
            Some((p, b, s)) => autoderive_outcome(*data) == Some((p@, b@, s@)),
            None => autoderive_outcome(*data) is None,
        },
{
    match json::find_text(data, "/objective") {
        Some(name) => {
            if !columns::string_eq(&name, "polsby_popper") {
                return None;
            }
        },
        None => {
            return None;
        },
    }
    let boundary: String = match json::find_text(data, "/boundary_perim_col") {
        Some(s) => s,
        None => {
            return None;
        },
    };
    let perim: String = match json::find_text(data, "/perim_col") {
        Some(s) => s,
        None => derived_perim_name(),
    };
    match json::find_text(data, "/shared_perim_col") {
        Some(shared) => Some((perim, boundary, shared)),
        None => None,
    }
}

/// The columns of [`autoderive_outcome`] for a JSON text; none for a text that
/// is no JSON.
pub fn polsby_popper_autoderive(config: &str) -> (r: Option<(String, String, String)>)
    ensures
        match json::parsed_places(config@) {
            None => r is None,
            Some(places) => exists|document: Value|
                #[trigger] json::places(document) == places && match r {
                    Some((p, b, s)) => autoderive_outcome(document) == Some((p@, b@, s@)),
                    None => autoderive_outcome(document) is None,
                },
        },
{
    match json::parse(config) {
        Ok(data) => polsby_popper_autoderive_value(&data),
        Err(_) => None,
    }
}

} // verus!
