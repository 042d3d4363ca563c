//! The invariants that a file report must satisfy before it is written.

use vstd::prelude::*;

use crate::analyzer::block_analyzer::{
    file_tx_bytes, lemma_block_shape, lemma_blocks_shape, results_view, spec_analyze_file,
    sum_flagged, sum_tx_count, texts_view, BlockResultModel, FileReport, FileReportModel,
    MAX_TX_BYTES,
};
use crate::parser::block_parser::ParsedBlockModel;
use crate::parser::undo_parser::BlockUndoModel;
use crate::errors::{ChainError, ErrorKind};
use crate::text::{push_decimal, push_decimal_wide, spec_decimal, str_eq};

verus! {

/// The detail message of a mismatch between two counts:
/// `"<a><x> but <b><y>"`.
pub open spec fn mismatch_text(a: Seq<char>, x: nat, b: Seq<char>, y: nat) -> Seq<char> {
    a + spec_decimal(x) + " but "@ + b + spec_decimal(y)
}

/// The checks on a report's summary: `block_count` is the number of blocks,
/// the file totals are the sums over the blocks, and at least five
/// heuristics are applied, among them "cioh" and "change_detection". The
/// first failing check gives the error.
pub open spec fn spec_validate_summary(r: FileReportModel) -> Result<(), ErrorKind> {
    if r.block_count != r.blocks.len() {
        Err(
            ErrorKind::InvalidField(
                "block_count"@,
                mismatch_text("block_count="@, r.block_count, "blocks.len()="@, r.blocks.len()),
            ),
        )
    } else if r.total_transactions_analyzed != sum_tx_count(r.blocks) {
        Err(
            ErrorKind::InvalidField(
                "total_transactions_analyzed"@,
                mismatch_text(
                    "file total="@,
                    r.total_transactions_analyzed as nat,
                    "Σ tx_count="@,
                    sum_tx_count(r.blocks),
                ),
            ),
        )
    } else if r.flagged_transactions != sum_flagged(r.blocks) {
        Err(
            ErrorKind::InvalidField(
                "flagged_transactions"@,
                mismatch_text(
                    "file flagged="@,
                    r.flagged_transactions as nat,
                    "Σ per-block flagged="@,
                    sum_flagged(r.blocks),
                ),
            ),
        )
    } else if r.heuristics_applied.len() < 5 {
        Err(
            ErrorKind::InvalidField(
                "heuristics_applied"@,
                "only "@ + spec_decimal(r.heuristics_applied.len()) + " heuristics, need >= 5"@,
            ),
        )
    } else if !r.heuristics_applied.contains("cioh"@) {
        Err(ErrorKind::InvalidField("heuristics_applied"@, "missing mandatory heuristic: cioh"@))
    } else if !r.heuristics_applied.contains("change_detection"@) {
        Err(
            ErrorKind::InvalidField(
                "heuristics_applied"@,
                "missing mandatory heuristic: change_detection"@,
            ),
        )
    } else {
        Ok(())
    }
}

/// The first block from position `b` on that lists transactions;
/// `blocks.len()` when there is none.
pub open spec fn first_listing(blocks: Seq<BlockResultModel>, b: nat) -> nat
    decreases blocks.len() - b,
{
    if b >= blocks.len() {
        blocks.len()
    } else if blocks[b as int].transactions.len() > 0 {
        b
    } else {
        first_listing(blocks, b + 1)
    }
}

/// The checks on the transaction lists: the first block lists all its
/// transactions, every other block lists none (the first one that does is
/// reported).
pub open spec fn spec_validate_transactions(r: FileReportModel) -> Result<(), ErrorKind> {
    if r.blocks.len() > 0 && r.blocks[0].transactions.len() != r.blocks[0].tx_count {
        Err(
            ErrorKind::InvalidField(
                "blocks[0].transactions"@,
                mismatch_text(
                    "len()="@,
                    r.blocks[0].transactions.len(),
                    "tx_count="@,
                    r.blocks[0].tx_count,
                ),
            ),
        )
    } else if first_listing(r.blocks, 1) < r.blocks.len() {
        let b = first_listing(r.blocks, 1);
        Err(
            ErrorKind::InvalidField(
                "blocks[n].transactions"@,
                "blocks["@ + spec_decimal(b) + "].transactions must be [] but has "@
                    + spec_decimal(r.blocks[b as int].transactions.len()) + " entries"@,
            ),
        )
    } else {
        Ok(())
    }
}

/// What `first_listing` finds: no block in between lists transactions,
/// and the one found does.
proof fn lemma_first_listing(blocks: Seq<BlockResultModel>, b: nat)
    ensures
        b <= first_listing(blocks, b) || b > blocks.len(),
        first_listing(blocks, b) <= blocks.len(),
        forall|k: int|
            b <= k < first_listing(blocks, b) ==> (#[trigger] blocks[k]).transactions.len() == 0,
        first_listing(blocks, b) < blocks.len() ==> blocks[first_listing(blocks, b) as int].transactions.len()
            > 0,
    decreases blocks.len() - b,
{
    if b < blocks.len() && blocks[b as int].transactions.len() == 0 {
        lemma_first_listing(blocks, b + 1);
    }
}

/// Both groups of checks, summary first.
pub open spec fn spec_validate(r: FileReportModel) -> Result<(), ErrorKind> {
    match spec_validate_summary(r) {
        Err(e) => Err(e),
        Ok(()) => spec_validate_transactions(r),
    }
}

/// Whether `t` is one of `v`.
fn contains_text(v: &Vec<String>, t: &str) -> (b: bool)
    ensures
        b == texts_view(v@).contains(t@),
{
    let ghost tv = texts_view(v@);
    let mut i: usize = 0;
    while i < v.len()
        invariant
            tv == texts_view(v@),
            i <= v@.len(),
            forall|j: int| 0 <= j < i ==> #[trigger] tv[j] != t@,
        decreases v@.len() - i,
    {
        if str_eq(v[i].as_str(), t) {
            proof {
                assert(tv[i as int] == t@);
            }
            return true;
        }
        proof {
            assert(tv[i as int] != t@);
        }
        i = i + 1;
    }
    false
}

/// `"<a><x> but <b><y>"`: a mismatch between two counts, as the
/// validator reports it.
fn mismatch(a: &str, x: u128, b: &str, y: u128) -> (s: String)
    ensures
        s@ == mismatch_text(a@, x as nat, b@, y as nat),
{
    let mut s = a.to_owned();
    push_decimal_wide(&mut s, x);
    s.append(" but ");
    s.append(b);
    push_decimal_wide(&mut s, y);
    s
}

/// Check the report's summary against its blocks.
pub fn validate_summary(report: &FileReport) -> (res: Result<(), ChainError>)
    ensures
        match res {
            Ok(()) => spec_validate_summary(report@) is Ok,
            Err(e) => spec_validate_summary(report@) == Err::<(), ErrorKind>(e.kind()),
        },
{
    let ghost rs = results_view(report.blocks@);
    if report.block_count != report.blocks.len() {
        return Err(
            ChainError::InvalidField {
                field: "block_count",
                detail: mismatch(
                    "block_count=",
                    report.block_count as u128,
                    "blocks.len()=",
                    report.blocks.len() as u128,
                ),
            },
        );
    }
    let mut sum_tx: u128 = 0;
    let mut sum_fl: u128 = 0;
    let mut b: usize = 0;
    while b < report.blocks.len()
        invariant
            rs == results_view(report.blocks@),
            b <= rs.len(),
            sum_tx == sum_tx_count(rs.take(b as int)),
            sum_fl == sum_flagged(rs.take(b as int)),
            sum_tx <= b * 0xFFFF_FFFF_FFFF_FFFFnat,
            sum_fl <= b * 0xFFFF_FFFF_FFFF_FFFFnat,
        decreases rs.len() - b,
    {
        proof {
            assert(rs.take(b + 1).drop_last() =~= rs.take(b as int));
            assert(rs.take(b + 1).last() == report.blocks@[b as int]@);
        }
        sum_tx = sum_tx + report.blocks[b].tx_count as u128;
        sum_fl = sum_fl + report.blocks[b].flagged_real as u128;
        proof {
            assert(sum_tx <= (b + 1) * 0xFFFF_FFFF_FFFF_FFFFnat) by (nonlinear_arith)
                requires
                    sum_tx <= b * 0xFFFF_FFFF_FFFF_FFFFnat + 0xFFFF_FFFF_FFFF_FFFFnat,
            ;
            assert(sum_fl <= (b + 1) * 0xFFFF_FFFF_FFFF_FFFFnat) by (nonlinear_arith)
                requires
                    sum_fl <= b * 0xFFFF_FFFF_FFFF_FFFFnat + 0xFFFF_FFFF_FFFF_FFFFnat,
            ;
        }
        b = b + 1;
    }
    proof {
        assert(rs.take(b as int) =~= rs);
    }
    if report.total_transactions_analyzed as u128 != sum_tx {
        return Err(
            ChainError::InvalidField {
                field: "total_transactions_analyzed",
                detail: mismatch(
                    "file total=",
                    report.total_transactions_analyzed as u128,
                    "Σ tx_count=",
                    sum_tx,
                ),
            },
        );
    }
    if report.flagged_transactions as u128 != sum_fl {
        return Err(
            ChainError::InvalidField {
                field: "flagged_transactions",
                detail: mismatch(
                    "file flagged=",
                    report.flagged_transactions as u128,
                    "Σ per-block flagged=",
                    sum_fl,
                ),
            },
        );
    }
    if report.heuristics_applied.len() < 5 {
        return Err(
            ChainError::InvalidField {
                field: "heuristics_applied",
                detail: {
                    let mut d = "only ".to_owned();
                    push_decimal(&mut d, report.heuristics_applied.len() as u64);
                    d.append(" heuristics, need >= 5");
                    d
                },
            },
        );
    }
    if !contains_text(&report.heuristics_applied, "cioh") {
        return Err(
            ChainError::InvalidField {
                field: "heuristics_applied",
                detail: "missing mandatory heuristic: cioh".to_owned(),
            },
        );
    }
    if !contains_text(&report.heuristics_applied, "change_detection") {
        return Err(
            ChainError::InvalidField {
                field: "heuristics_applied",
                detail: "missing mandatory heuristic: change_detection".to_owned(),
            },
        );
    }
    Ok(())
}

/// Check the transaction lists of the report's blocks.
pub fn validate_transactions(report: &FileReport) -> (res: Result<(), ChainError>)
    ensures
        match res {
            Ok(()) => spec_validate_transactions(report@) is Ok,
            Err(e) => spec_validate_transactions(report@) == Err::<(), ErrorKind>(e.kind()),
        },
{
    let ghost rs = results_view(report.blocks@);
    if report.blocks.len() > 0 {
        proof {
            assert(rs[0] == report.blocks@[0]@);
        }
        if report.blocks[0].transactions.len() != report.blocks[0].tx_count {
            return Err(
                ChainError::InvalidField {
                    field: "blocks[0].transactions",
                    detail: mismatch(
                        "len()=",
                        report.blocks[0].transactions.len() as u128,
                        "tx_count=",
                        report.blocks[0].tx_count as u128,
                    ),
                },
            );
        }
    }
    let mut b: usize = 1;
    while b < report.blocks.len()
        invariant
            rs == results_view(report.blocks@),
            1 <= b,
            rs.len() > 0 ==> rs[0].transactions.len() == rs[0].tx_count,
            forall|j: int| 1 <= j < b && j < rs.len() ==> (#[trigger] rs[j]).transactions.len() == 0,
            b <= rs.len() || rs.len() == 0,
            rs.len() > 0 ==> first_listing(rs, 1) == first_listing(rs, b as nat),
        decreases rs.len() - b,
    {
        proof {
            assert(rs[b as int] == report.blocks@[b as int]@);
        }
        if report.blocks[b].transactions.len() != 0 {
            proof {
                assert(rs[b as int].transactions.len() > 0);
            }
            return Err(
                ChainError::InvalidField {
                    field: "blocks[n].transactions",
                    detail: {
                        let mut d = "blocks[".to_owned();
                        push_decimal(&mut d, b as u64);
                        d.append("].transactions must be [] but has ");
                        push_decimal(&mut d, report.blocks[b].transactions.len() as u64);
                        d.append(" entries");
                        d
                    },
                },
            );
        }
        b = b + 1;
    }
    Ok(())
}

/// Check every integer invariant of a report: its summary, then its
/// transaction lists.
pub fn validate(report: &FileReport) -> (res: Result<(), ChainError>)
    ensures
        match res {
            Ok(()) => spec_validate(report@) is Ok,
            Err(e) => spec_validate(report@) == Err::<(), ErrorKind>(e.kind()),
        },
{
    validate_summary(report)?;
    validate_transactions(report)
}

/// The report that the analysis of a file produces passes every check of
/// the validator: its block count, totals and flagged count agree with its
/// blocks, its heuristic list holds the mandatory entries, and only its
/// first block lists its transactions, all of them.
#[verifier::spinoff_prover]
#[verifier::rlimit(30)]
pub proof fn lemma_analysis_report_valid(
    filename: Seq<char>,
    pairs: Seq<(ParsedBlockModel, Option<BlockUndoModel>)>,
)
    requires
        file_tx_bytes(pairs) <= MAX_TX_BYTES,
    ensures
        spec_analyze_file(filename, pairs) matches Ok(r) ==> spec_validate(r) is Ok,
{
    if let Ok(r) = spec_analyze_file(filename, pairs) {
        let n = pairs.len();
        lemma_blocks_shape(pairs, n);
        assert(pairs.take(n as int) =~= pairs);
        let rs = r.blocks;
        assert(r.heuristics_applied[0] == "cioh"@);
        assert(r.heuristics_applied[1] == "change_detection"@);
        lemma_block_shape(pairs[0].0, pairs[0].1, true);
        assert forall|b: int| 1 <= b < rs.len() implies (#[trigger] rs[b]).transactions.len() == 0 by {
            lemma_block_shape(pairs[b].0, pairs[b].1, false);
        }
        lemma_first_listing(rs, 1);
        assert(spec_validate_summary(r) is Ok);
        assert(spec_validate_transactions(r) is Ok);
    }
}

} // verus!
