//! Which chain variant a name asks for.

use vstd::prelude::*;
use crate::columns;
use crate::recom::draw;
use crate::recom::proposal::RecomVariant;

verus! {

/// The rejection of region weights by uniform spanning trees.
pub open spec fn uniform_weights() -> Seq<char> {
    "Region-aware variants are not currently implemented for uniform spanning tree sampling."@
}

/// The current name of a variant that goes by an old name too.
pub open spec fn current_name(name: Seq<char>) -> Seq<char> {
    if name == "cut-edges-rmst"@ {
        "cut-edges-mst"@
    } else if name == "district-pairs-rmst"@ {
        "district-pairs-mst"@
    } else {
        name
    }
}

/// The warning about an old name of a variant.
pub open spec fn old_name_warning(name: Seq<char>) -> Option<Seq<char>> {
    if current_name(name) == name {
        None
    } else {
        Some("Warning: the variant name `"@ + name + "` is deprecated; use `"@ + current_name(name)
            + "` instead."@)
    }
}

/// What a name comes to that variants of all commands share.
pub open spec fn shared_variant(name: Seq<char>, weighted: bool) -> Result<RecomVariant, Seq<char>> {
    if current_name(name) == "cut-edges-mst"@ {
        Ok(
            if weighted {
                RecomVariant::CutEdgesRegionAware
            } else {
                RecomVariant::CutEdgesRMST
            },
        )
    } else if current_name(name) == "district-pairs-mst"@ {
        Ok(
            if weighted {
                RecomVariant::DistrictPairsRegionAware
            } else {
                RecomVariant::DistrictPairsRMST
            },
        )
    } else if name == "cut-edges-ust"@ {
        if weighted {
            Err(uniform_weights())
        } else {
            Ok(RecomVariant::CutEdgesUST)
        }
    } else if name == "district-pairs-ust"@ {
        if weighted {
            Err(uniform_weights())
        } else {
            Ok(RecomVariant::DistrictPairsUST)
        }
    } else {
        Err("Parameter error: invalid variant '"@ + name + "'"@)
    }
}

/// The variant of a chain. Region weights make spanning tree variants
/// region-aware; uniform and reversible variants reject them.
pub open spec fn chain_outcome(name: Seq<char>, weighted: bool) -> Result<RecomVariant, Seq<char>> {
    if name == "reversible"@ {
        if weighted {
            Err("Region-aware variants are not currently implemented for reversible recom."@)
        } else {
            Ok(RecomVariant::Reversible)
        }
    } else if name == "cut-edges-region-aware"@ {
        Ok(RecomVariant::CutEdgesRegionAware)
    } else if name == "district-pairs-region-aware"@ {
        Ok(RecomVariant::DistrictPairsRegionAware)
    } else {
        shared_variant(name, weighted)
    }
}

/// The variant of an optimizer, which has none that is reversible.
pub open spec fn optimizer_outcome(
    name: Seq<char>,
    weighted: bool,
    reversible_error: Seq<char>,
) -> Result<RecomVariant, Seq<char>> {
    if name == "reversible"@ {
        Err(reversible_error)
    } else {
        shared_variant(name, weighted)
    }
}

/// Whether a result is an outcome.
pub open spec fn comes_to(
    outcome: Result<RecomVariant, Seq<char>>,
    r: Result<RecomVariant, String>,
) -> bool {
    match outcome {
        Ok(variant) => r matches Ok(v) && v == variant,
        Err(message) => r matches Err(e) && e@ == message,
    }
}

/// The current name of a variant.
pub fn current_variant_name(name: &str) -> (r: String)
    ensures
        r@ == current_name(name@),
{
    if columns::str_eq(name, "cut-edges-rmst") {
        "cut-edges-mst".to_string()
    } else if columns::str_eq(name, "district-pairs-rmst") {
        "district-pairs-mst".to_string()
    } else {
        name.to_string()
    }
}

/// The warning about an old name of a variant, if it is one.
pub fn variant_warning(name: &str) -> (r: Option<String>)
    ensures
        match old_name_warning(name@) {
            Some(message) => r matches Some(text) && text@ == message,
            None => r is None,
        },
{
    let current: String = current_variant_name(name);
    if columns::string_eq(&current, name) {
        return None;
    }
    let mut out: String = "Warning: the variant name `".to_string();
    out.append(name);
    out.append("` is deprecated; use `");
    out.append(current.as_str());
    out.append("` instead.");
    Some(out)
}

fn resolve_shared(name: &str, weighted: bool) -> (r: Result<RecomVariant, String>)
    ensures
        comes_to(shared_variant(name@, weighted), r),
{
    let current: String = current_variant_name(name);
    if columns::string_eq(&current, "cut-edges-mst") {
        return Ok(
            if weighted {
                RecomVariant::CutEdgesRegionAware
            } else {
                RecomVariant::CutEdgesRMST
            },
        );
    }
    if columns::string_eq(&current, "district-pairs-mst") {
        return Ok(
            if weighted {
                RecomVariant::DistrictPairsRegionAware
            } else {
                RecomVariant::DistrictPairsRMST
            },
        );
    }
    let cut_edges: bool = columns::str_eq(name, "cut-edges-ust");
    if cut_edges || columns::str_eq(name, "district-pairs-ust") {
        if weighted {
            return Err(
                "Region-aware variants are not currently implemented for uniform spanning tree sampling.".to_string(),
            );
        }
        return Ok(
            if cut_edges {
                RecomVariant::CutEdgesUST
            } else {
                RecomVariant::DistrictPairsUST
            },
        );
    }
    let mut out: String = "Parameter error: invalid variant '".to_string();
    out.append(name);
    out.append("'");
    Err(out)
}

/// The variant of a chain.
pub fn chain_variant(name: &str, weighted: bool) -> (r: Result<RecomVariant, String>)
    ensures
        comes_to(chain_outcome(name@, weighted), r),
{
    if columns::str_eq(name, "reversible") {
        if weighted {
            return Err(
                "Region-aware variants are not currently implemented for reversible recom.".to_string(),
            );
        }
        return Ok(RecomVariant::Reversible);
    }
    if columns::str_eq(name, "cut-edges-region-aware") {
        return Ok(RecomVariant::CutEdgesRegionAware);
    }
    if columns::str_eq(name, "district-pairs-region-aware") {
        return Ok(RecomVariant::DistrictPairsRegionAware);
    }
    resolve_shared(name, weighted)
}

/// The variant of an optimizer. `reversible_error` is what a reversible
/// variant is answered.
pub fn optimizer_variant(name: &str, weighted: bool, reversible_error: &str) -> (r: Result<
    RecomVariant,
    String,
>)
    ensures
        comes_to(optimizer_outcome(name@, weighted, reversible_error@), r),
{
    if columns::str_eq(name, "reversible") {
        return Err(reversible_error.to_string());
    }
    resolve_shared(name, weighted)
}

/// With region weights a chain runs region-aware or not at all: the weights are
/// never dropped.
pub proof fn weights_are_never_dropped(name: Seq<char>)
    ensures
        chain_outcome(name, true) matches Ok(variant) ==> variant
            == RecomVariant::CutEdgesRegionAware || variant
            == RecomVariant::DistrictPairsRegionAware,
        forall|message: Seq<char>| #[trigger]
            optimizer_outcome(name, true, message) matches Ok(variant) ==> variant
                == RecomVariant::CutEdgesRegionAware || variant
                == RecomVariant::DistrictPairsRegionAware,
{
}

/// Checks that edge weights are given only to variants that weigh edges.
pub fn check_weight_keys(variant: RecomVariant, edge_weight_keys: &Vec<String>) -> (r: Result<
    (),
    String,
>)
    ensures
        r is Err <==> edge_weight_keys.len() > 0 && draw::draws_uniformly(variant),
        r matches Err(e) ==> e@
            == "Parameter error: '--edge-weight-keys' is only valid with the mst and region-aware variants."@,
{
    let uniform: bool = match variant {
        RecomVariant::Reversible | RecomVariant::CutEdgesUST | RecomVariant::DistrictPairsUST => {
            true
        },
        _ => false,
    };
    if uniform && edge_weight_keys.len() > 0 {
        return Err(
            "Parameter error: '--edge-weight-keys' is only valid with the mst and region-aware variants.".to_string(),
        );
    }
    Ok(())
}

} // verus!
