//! Transaction classifier: combines the heuristic results into one label.

use vstd::prelude::*;

use crate::heuristics::cioh::spec_cioh;
use crate::heuristics::coinjoin::spec_coinjoin;
use crate::heuristics::consolidation::spec_consolidation;
use crate::types::{
    entry_get, find_entry, HeuristicModel, PrevoutModel, TxAnalysis, TxClassification, TxModel,
};

verus! {

/// Whether heuristic `id` is recorded in `hs` as detected.
pub open spec fn spec_fired(hs: Seq<(Seq<char>, HeuristicModel)>, id: Seq<char>) -> bool {
    entry_get(hs, id) matches Some(h) && h.detected
}

/// Classification, first matching rule wins: coinjoin, consolidation,
/// self-transfer; then batch payment when CIOH fired but change detection
/// did not; then simple payment when either fired; else unknown.
pub open spec fn spec_classify(hs: Seq<(Seq<char>, HeuristicModel)>) -> TxClassification {
    if spec_fired(hs, "coinjoin"@) {
        TxClassification::Coinjoin
    } else if spec_fired(hs, "consolidation"@) {
        TxClassification::Consolidation
    } else if spec_fired(hs, "self_transfer"@) {
        TxClassification::SelfTransfer
    } else if spec_fired(hs, "cioh"@) && !spec_fired(hs, "change_detection"@) {
        TxClassification::BatchPayment
    } else if spec_fired(hs, "cioh"@) || spec_fired(hs, "change_detection"@) {
        TxClassification::SimplePayment
    } else {
        TxClassification::Unknown
    }
}

/// Whether heuristic `id` is recorded in `analysis` as detected.
pub fn fired(analysis: &TxAnalysis, id: &str) -> (b: bool)
    ensures
        b == spec_fired(analysis@.heuristics, id@),
{
    match find_entry(&analysis.heuristics, id) {
        Some(i) => analysis.heuristics[i].1.detected,
        None => false,
    }
}

/// Transaction classifier.
///
/// Priority order, first matching rule wins:
/// 1. `coinjoin` → Coinjoin
/// 2. `consolidation` → Consolidation
/// 3. `self_transfer` → SelfTransfer
/// 4. `cioh` && !`change_detection` → BatchPayment (a proxy: change
///    detection needs exactly two outputs)
/// 5. `cioh` || `change_detection` → SimplePayment
/// 6. otherwise → Unknown
///
/// Known limitation: rule 4 also fires on two-input one-output transactions
/// below the consolidation threshold, since the output count is not part of
/// the analysis.
pub fn classify(analysis: &TxAnalysis) -> (c: TxClassification)
    ensures
        c == spec_classify(analysis@.heuristics),
{
    if fired(analysis, "coinjoin") {
        return TxClassification::Coinjoin;
    }
    if fired(analysis, "consolidation") {
        return TxClassification::Consolidation;
    }
    if fired(analysis, "self_transfer") {
        return TxClassification::SelfTransfer;
    }
    if fired(analysis, "cioh") && !fired(analysis, "change_detection") {
        return TxClassification::BatchPayment;
    }
    if fired(analysis, "cioh") || fired(analysis, "change_detection") {
        return TxClassification::SimplePayment;
    }
    TxClassification::Unknown
}

/// The label follows the heuristics that fired, first rule wins: CoinJoin,
/// then consolidation, then self-transfer; otherwise a batch payment when
/// CIOH fired without change detection, a simple payment when change
/// detection fired, and unknown when neither did.
pub proof fn lemma_classify_rules(hs: Seq<(Seq<char>, HeuristicModel)>)
    ensures
        spec_fired(hs, "coinjoin"@) ==> spec_classify(hs) == TxClassification::Coinjoin,
        !spec_fired(hs, "coinjoin"@) && spec_fired(hs, "consolidation"@) ==> spec_classify(hs)
            == TxClassification::Consolidation,
        !spec_fired(hs, "coinjoin"@) && !spec_fired(hs, "consolidation"@) && spec_fired(
            hs,
            "self_transfer"@,
        ) ==> spec_classify(hs) == TxClassification::SelfTransfer,
        ({
            &&& !spec_fired(hs, "coinjoin"@)
            &&& !spec_fired(hs, "consolidation"@)
            &&& !spec_fired(hs, "self_transfer"@)
        }) ==> {
            &&& spec_fired(hs, "cioh"@) && !spec_fired(hs, "change_detection"@) ==> spec_classify(hs)
                == TxClassification::BatchPayment
            &&& spec_fired(hs, "change_detection"@) ==> spec_classify(hs)
                == TxClassification::SimplePayment
            &&& !spec_fired(hs, "cioh"@) && !spec_fired(hs, "change_detection"@) ==> spec_classify(
                hs,
            ) == TxClassification::Unknown
        },
{
}

/// Every consolidation and every CoinJoin is also a common-input-ownership
/// transaction: both need at least three inputs, CIOH two.
pub proof fn lemma_cioh_covers(tx: TxModel, prevouts: Seq<PrevoutModel>)
    ensures
        spec_consolidation(tx, prevouts).detected ==> spec_cioh(tx).detected,
        spec_coinjoin(tx).detected ==> spec_cioh(tx).detected,
{
}

} // verus!
