//! Display labels for the failure modes named by the criticality analysis.
use vstd::prelude::*;
use crate::text::str_eq;

verus! {

/// The short label shown for a failure mode: each known mode has its own,
/// any other text is shown as it is.
pub open spec fn short_label(mode: Seq<char>) -> Seq<char> {
    if mode == "regression_competence"@ {
        "régression"@
    } else if mode == "instabilite_divergence"@ {
        "instabilité"@
    } else if mode == "derive_valeurs"@ {
        "dérive-V"@
    } else if mode == "effondrement_substrat"@ {
        "substrat"@
    } else if mode == "goodhart_surajustement"@ {
        "goodhart"@
    } else if mode == "empoisonnement_memoire"@ {
        "mémoire"@
    } else if mode == "wireheading"@ {
        "wirehead"@
    } else {
        mode
    }
}

/// The short label of a failure mode (see [`short_label`]).
pub fn short(mode: &str) -> (r: &str)
    ensures
        r@ == short_label(mode@),
{
    if str_eq(mode, "regression_competence") {
        "régression"
    } else if str_eq(mode, "instabilite_divergence") {
        "instabilité"
    } else if str_eq(mode, "derive_valeurs") {
        "dérive-V"
    } else if str_eq(mode, "effondrement_substrat") {
        "substrat"
    } else if str_eq(mode, "goodhart_surajustement") {
        "goodhart"
    } else if str_eq(mode, "empoisonnement_memoire") {
        "mémoire"
    } else if str_eq(mode, "wireheading") {
        "wirehead"
    } else {
        mode
    }
}

} // verus!
