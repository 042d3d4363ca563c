//! The Markdown report of a file analysis.
//!
//! The fee statistics are floating-point figures; they come in already
//! formatted, as text cells, and everything else is rendered here from the
//! report.

use vstd::prelude::*;

use crate::analyzer::block_analyzer::{
    analyses_view, class_at, classification_id, count_class, count_fired, heuristic_id,
    is_notable_classification, notables_view, spec_class_index,
    spec_classification_ids, spec_heuristic_ids, spec_is_notable, texts_view, BlockResult,
    BlockResultModel, FileReport, FileReportModel, NotableModel,
    CLASSIFICATION_COUNT, HEURISTIC_COUNT,
};
use crate::heuristics::tx_classifier::fired;
use crate::text::{push_decimal, spec_decimal, str_eq};
use crate::types::{ScriptTypeDistribution, TxAnalysis, TxAnalysisModel, TxClassification};

verus! {

/// The four fee-rate figures of a fee statistics table (minimum, median,
/// mean, maximum), already formatted.
pub struct FeeCells {
    pub min: String,
    pub median: String,
    pub mean: String,
    pub max: String,
}

/// The texts of fee cells.
pub open spec fn fee_cells_view(v: Seq<FeeCells>) -> Seq<(Seq<char>, Seq<char>, Seq<char>, Seq<char>)> {
    v.map_values(|c: FeeCells| (c.min@, c.median@, c.mean@, c.max@))
}

// ─── The report as text ──────────────────────────────────────────────────────

/// `items` separated by ", ".
pub open spec fn spec_join(items: Seq<Seq<char>>) -> Seq<char>
    decreases items.len(),
{
    if items.len() == 0 {
        seq![]
    } else if items.len() == 1 {
        items[0]
    } else {
        spec_join(items.drop_last()) + ", "@ + items.last()
    }
}

/// A two-column table row: `| label | n |`.
pub open spec fn count_row(label: Seq<char>, n: nat) -> Seq<char> {
    "| "@ + label + " | "@ + spec_decimal(n) + " |\n"@
}

/// The count that a heuristic-findings table shows for `id`: the count
/// paired with the last occurrence of `id` among the first `k` applied
/// heuristics, if any.
pub open spec fn finding_for(applied: Seq<Seq<char>>, counts: Seq<u64>, id: Seq<char>, k: nat) -> Option<u64>
    decreases k,
{
    if k == 0 {
        None
    } else if k - 1 < counts.len() && applied[k - 1] == id {
        Some(counts[k - 1])
    } else {
        finding_for(applied, counts, id, (k - 1) as nat)
    }
}

/// The count of the file-level findings table for heuristic `k`.
pub open spec fn file_finding(r: FileReportModel, k: int) -> nat {
    match finding_for(r.heuristics_applied, r.heuristic_findings, spec_heuristic_ids()[k], r.heuristics_applied.len()) {
        Some(c) => c as nat,
        None => 0,
    }
}

/// The count of a block's findings table for heuristic `k`: its findings
/// entry, or else how many of its listed transactions fired it.
pub open spec fn block_finding(r: FileReportModel, b: BlockResultModel, k: int) -> nat {
    match finding_for(r.heuristics_applied, b.heuristic_counts, spec_heuristic_ids()[k], r.heuristics_applied.len()) {
        Some(c) => c as nat,
        None => count_fired(b.transactions, spec_heuristic_ids()[k]),
    }
}

/// The first `k` rows of the file's heuristic findings table.
pub open spec fn file_finding_rows(r: FileReportModel, k: nat) -> Seq<char>
    decreases k,
{
    if k == 0 {
        seq![]
    } else {
        file_finding_rows(r, (k - 1) as nat) + count_row(spec_heuristic_ids()[k - 1], file_finding(r, k - 1))
    }
}

/// The first `k` rows of a block's heuristic findings table.
pub open spec fn block_finding_rows(r: FileReportModel, b: BlockResultModel, k: nat) -> Seq<char>
    decreases k,
{
    if k == 0 {
        seq![]
    } else {
        block_finding_rows(r, b, (k - 1) as nat) + count_row(
            spec_heuristic_ids()[k - 1],
            block_finding(r, b, k - 1),
        )
    }
}

/// The heading and column heads of a heuristic findings table.
pub open spec fn findings_heading() -> Seq<char> {
    "### Heuristic Findings\n\n| Heuristic | Transactions Flagged |\n|---|---|\n"@
}

/// The count of a block's classification table for classification `c`.
pub open spec fn class_count(b: BlockResultModel, c: int) -> nat {
    if c < b.classification_counts.len() {
        b.classification_counts[c] as nat
    } else {
        count_class(b.transactions, class_at(c))
    }
}

/// The first `k` rows of a block's classification table: classifications
/// with a zero count are left out.
pub open spec fn class_rows(b: BlockResultModel, k: nat) -> Seq<char>
    decreases k,
{
    if k == 0 {
        seq![]
    } else if class_count(b, k - 1) > 0 {
        class_rows(b, (k - 1) as nat) + count_row(spec_classification_ids()[k - 1], class_count(b, k - 1))
    } else {
        class_rows(b, (k - 1) as nat)
    }
}

/// The label of a classification.
pub open spec fn class_label(c: TxClassification) -> Seq<char> {
    spec_classification_ids()[spec_class_index(c)]
}

/// A row of the notable transactions table.
pub open spec fn notable_row(txid: Seq<char>, class: Seq<char>, hits: Seq<char>) -> Seq<char> {
    "| `"@ + txid + "` | "@ + class + " | "@ + hits + " |\n"@
}

/// The heuristic hits of a notable entry: its detected heuristics, or
/// "classification-only" when they are none.
pub open spec fn hits_text(n: NotableModel) -> Seq<char> {
    if spec_join(n.detected_heuristics).len() == 0 {
        "classification-only"@
    } else {
        spec_join(n.detected_heuristics)
    }
}

/// The rows of the first `k` notable entries.
pub open spec fn notable_rows(ns: Seq<NotableModel>, k: nat) -> Seq<char>
    decreases k,
{
    if k == 0 {
        seq![]
    } else {
        notable_rows(ns, (k - 1) as nat) + notable_row(
            ns[k - 1].txid,
            class_label(ns[k - 1].classification),
            hits_text(ns[k - 1]),
        )
    }
}

/// The listed transactions among the first `k` with a notable
/// classification, in order.
pub open spec fn notable_listed(txs: Seq<TxAnalysisModel>, k: nat) -> Seq<TxAnalysisModel>
    decreases k,
{
    if k == 0 {
        seq![]
    } else if spec_is_notable(txs[k - 1].classification) {
        notable_listed(txs, (k - 1) as nat).push(txs[k - 1])
    } else {
        notable_listed(txs, (k - 1) as nat)
    }
}

/// The rows of the first `k` of the listed notable transactions.
pub open spec fn listed_rows(ts: Seq<TxAnalysisModel>, k: nat) -> Seq<char>
    decreases k,
{
    if k == 0 {
        seq![]
    } else {
        listed_rows(ts, (k - 1) as nat) + notable_row(
            ts[k - 1].txid,
            class_label(ts[k - 1].classification),
            "classification-only"@,
        )
    }
}

/// The heading of a notable transactions table of `n` entries.
pub open spec fn notable_heading(n: nat) -> Seq<char> {
    if n > 10 {
        "### Notable Transactions (showing top 10 of "@ + spec_decimal(n) + ")\n\n"@
    } else {
        "### Notable Transactions\n\n"@
    }
}

/// The column heads of the notable transactions table.
pub open spec fn notable_columns() -> Seq<char> {
    "| txid | classification | heuristic hits |\n|---|---|---|\n"@
}

/// At most ten.
pub open spec fn top10(n: nat) -> nat {
    if n > 10 {
        10
    } else {
        n
    }
}

/// A block's notable transactions table: its notable entries, or else its
/// listed transactions with a notable classification; nothing when there
/// are none.
pub open spec fn notables_table(b: BlockResultModel) -> Seq<char> {
    let ns = b.notable_transactions;
    let ls = notable_listed(b.transactions, b.transactions.len());
    if ns.len() > 0 {
        notable_heading(ns.len()) + notable_columns() + notable_rows(ns, top10(ns.len())) + "\n"@
    } else if ls.len() > 0 {
        notable_heading(ls.len()) + notable_columns() + listed_rows(ls, top10(ls.len())) + "\n"@
    } else {
        seq![]
    }
}

/// The fee figures of a block.
pub open spec fn block_fee_table(c: (Seq<char>, Seq<char>, Seq<char>, Seq<char>)) -> Seq<char> {
    "### Fee Rates (sat/vbyte)\n\n| min | median | mean | max |\n|---|---|---|---|\n| "@ + c.0
        + " | "@ + c.1 + " | "@ + c.2 + " | "@ + c.3 + " |\n\n"@
}

/// The facts table of block number `i` (counted from 0).
pub open spec fn block_facts(b: BlockResultModel, i: nat) -> Seq<char> {
    "## Block "@ + spec_decimal(i + 1) + " — Height "@ + spec_decimal(b.block_height as nat)
        + "\n\n| Field | Value |\n|---|---|\n| Hash | `"@ + b.block_hash + "` |\n| Height | "@
        + spec_decimal(b.block_height as nat) + " |\n| Timestamp | "@ + spec_decimal(
        b.timestamp as nat,
    ) + " |\n| Transactions | "@ + spec_decimal(b.tx_count) + " |\n| Flagged | "@ + spec_decimal(
        b.flagged_real as nat,
    ) + " |\n\n"@
}

/// A block's heuristic findings table.
pub open spec fn block_findings(r: FileReportModel, b: BlockResultModel) -> Seq<char> {
    findings_heading() + block_finding_rows(r, b, HEURISTIC_COUNT as nat) + "\n"@
}

/// The file's heuristic findings table.
pub open spec fn file_findings(r: FileReportModel) -> Seq<char> {
    findings_heading() + file_finding_rows(r, HEURISTIC_COUNT as nat) + "\n"@
}

/// A block's classification table.
pub open spec fn class_table(b: BlockResultModel) -> Seq<char> {
    "### Transaction Classifications\n\n| Classification | Count |\n|---|---|\n"@ + class_rows(
        b,
        CLASSIFICATION_COUNT as nat,
    ) + "\n"@
}

/// The section of block number `i`.
#[verifier::opaque]
pub open spec fn block_section(
    r: FileReportModel,
    b: BlockResultModel,
    i: nat,
    c: (Seq<char>, Seq<char>, Seq<char>, Seq<char>),
) -> Seq<char> {
    block_facts(b, i) + block_fee_table(c) + block_findings(r, b) + class_table(b) + notables_table(b)
}

/// The sections of the first `k` blocks; block `i` takes the fee cells at
/// `i + 1`.
pub open spec fn block_sections(
    r: FileReportModel,
    cells: Seq<(Seq<char>, Seq<char>, Seq<char>, Seq<char>)>,
    k: nat,
) -> Seq<char>
    decreases k,
{
    if k == 0 {
        seq![]
    } else {
        block_sections(r, cells, (k - 1) as nat) + block_section(
            r,
            r.blocks[k - 1],
            (k - 1) as nat,
            cells[k as int],
        )
    }
}

/// The file heading and the file's fee statistics table.
pub open spec fn file_heading(r: FileReportModel, c: (Seq<char>, Seq<char>, Seq<char>, Seq<char>)) -> Seq<char> {
    "# Sherlock Chain Analysis — `"@ + r.file + "`\n\n**File:** `"@ + r.file + "` | **Blocks:** "@
        + spec_decimal(r.block_count) + " | **Total transactions:** "@ + spec_decimal(
        r.total_transactions_analyzed as nat,
    ) + "\n\n## File-Level Summary\n\n### Fee Rate Statistics (sat/vbyte)\n\n| Metric | Value |\n|---|---|\n| min_sat_vb | "@
        + c.0 + " |\n| median_sat_vb | "@ + c.1 + " |\n| mean_sat_vb | "@ + c.2
        + " |\n| max_sat_vb | "@ + c.3 + " |\n\n"@
}

/// The file's script type distribution table.
pub open spec fn dist_table(d: ScriptTypeDistribution) -> Seq<char> {
    "### Script Type Distribution\n\n| Script Type | Output Count |\n|---|---|\n"@ + count_row(
        "p2wpkh"@,
        d.p2wpkh as nat,
    ) + count_row("p2tr"@, d.p2tr as nat) + count_row("p2sh"@, d.p2sh as nat) + count_row(
        "p2pkh"@,
        d.p2pkh as nat,
    ) + count_row("p2wsh"@, d.p2wsh as nat) + count_row("op_return"@, d.op_return as nat)
        + count_row("unknown"@, d.unknown as nat) + "\n"@
}

/// The file's flagged count, with its percentage given as text, and the
/// list of applied heuristics.
pub open spec fn file_totals(r: FileReportModel, pct: Seq<char>) -> Seq<char> {
    "**Flagged transactions:** "@ + spec_decimal(r.flagged_transactions as nat) + " / "@
        + spec_decimal(r.total_transactions_analyzed as nat) + " ("@ + pct
        + "%)\n\n**Heuristics applied:** "@ + spec_join(r.heuristics_applied) + "\n\n"@
}

/// The closing methodology note.
pub open spec fn methodology(r: FileReportModel) -> Seq<char> {
    "---\n\n## Methodology\n\nThis report was generated by **Sherlock**, a Bitcoin chain analysis engine built for Summer of Bitcoin 2026. Heuristics are probabilistic — results indicate likely patterns, not certainties. See `APPROACH.md` for full documentation of each heuristic, confidence models, and known limitations.\n\nHeuristics applied: "@
        + spec_decimal(r.heuristics_applied.len()) + ". All values in satoshis unless noted.\n"@
}

/// The Markdown report of a file: the file heading and fee statistics
/// (cells at 0), script type distribution, flagged count with its
/// percentage `pct`, applied heuristics and findings; then one section per
/// block (cells at `i + 1`); then the methodology note.
pub open spec fn spec_markdown(
    r: FileReportModel,
    cells: Seq<(Seq<char>, Seq<char>, Seq<char>, Seq<char>)>,
    pct: Seq<char>,
) -> Seq<char> {
    file_heading(r, cells[0]) + dist_table(r.script_type_distribution) + file_totals(r, pct)
        + file_findings(r) + block_sections(r, cells, r.blocks.len()) + methodology(r)
}

// ─── Rendering ───────────────────────────────────────────────────────────────

/// Append a count row.
fn push_count_row(md: &mut String, label: &str, n: u64)
    ensures
        final(md)@ == old(md)@ + count_row(label@, n as nat),
{
    md.append("| ");
    md.append(label);
    md.append(" | ");
    push_decimal(md, n);
    md.append(" |\n");
}

/// Joining one more item.
proof fn lemma_join_push(items: Seq<Seq<char>>, i: int)
    requires
        0 <= i < items.len(),
    ensures
        spec_join(items.take(i + 1)) == if i == 0 {
            items[0]
        } else {
            spec_join(items.take(i)) + ", "@ + items[i]
        },
{
    assert(items.take(i + 1).drop_last() =~= items.take(i));
}

/// Append `items` separated by ", ".
fn push_join(md: &mut String, items: &Vec<String>)
    ensures
        final(md)@ == old(md)@ + spec_join(texts_view(items@)),
{
    let ghost tv = texts_view(items@);
    let ghost base = md@;
    let mut i: usize = 0;
    proof {
        assert(tv.take(0) =~= Seq::<Seq<char>>::empty());
        assert(md@ =~= base + spec_join(tv.take(0)));
    }
    while i < items.len()
        invariant
            tv == texts_view(items@),
            i <= tv.len(),
            md@ == base + spec_join(tv.take(i as int)),
        decreases tv.len() - i,
    {
        proof {
            lemma_join_push(tv, i as int);
            assert(tv[i as int] == items@[i as int]@);
        }
        if i > 0 {
            md.append(", ");
        }
        md.append(items[i].as_str());
        i = i + 1;
    }
    proof {
        assert(tv.take(i as int) =~= tv);
    }
}

/// The count paired with the last occurrence of `id` among the applied
/// heuristics.
fn finding_lookup(applied: &Vec<String>, counts: &Vec<u64>, id: &str) -> (r: Option<u64>)
    ensures
        r == finding_for(texts_view(applied@), counts@, id@, applied@.len()),
{
    let ghost tv = texts_view(applied@);
    let mut found: Option<u64> = None;
    let mut j: usize = 0;
    while j < applied.len()
        invariant
            tv == texts_view(applied@),
            j <= tv.len(),
            found == finding_for(tv, counts@, id@, j as nat),
        decreases tv.len() - j,
    {
        proof {
            assert(tv[j as int] == applied@[j as int]@);
        }
        if j < counts.len() && str_eq(applied[j].as_str(), id) {
            found = Some(counts[j]);
        }
        j = j + 1;
    }
    found
}

/// How many of `txs` fired heuristic `id`.
fn count_fired_in(txs: &Vec<TxAnalysis>, id: &str) -> (n: u64)
    ensures
        n == count_fired(analyses_view(txs@), id@),
{
    let ghost av = analyses_view(txs@);
    let mut n: u64 = 0;
    let mut j: usize = 0;
    while j < txs.len()
        invariant
            av == analyses_view(txs@),
            j <= av.len(),
            n == count_fired(av.take(j as int), id@),
            n <= j,
        decreases av.len() - j,
    {
        proof {
            assert(av.take(j + 1).drop_last() =~= av.take(j as int));
            assert(av.take(j + 1).last() == txs@[j as int]@);
        }
        if fired(&txs[j], id) {
            n = n + 1;
        }
        j = j + 1;
    }
    proof {
        assert(av.take(j as int) =~= av);
    }
    n
}

/// The classification at position `c` of the report order.
fn class_for(c: usize) -> (t: TxClassification)
    requires
        c < CLASSIFICATION_COUNT,
    ensures
        t == class_at(c as int),
        spec_class_index(t) == c,
{
    match c {
        0 => TxClassification::SimplePayment,
        1 => TxClassification::Consolidation,
        2 => TxClassification::Coinjoin,
        3 => TxClassification::SelfTransfer,
        4 => TxClassification::BatchPayment,
        _ => TxClassification::Unknown,
    }
}

/// How many of `txs` carry classification `c`.
fn count_class_in(txs: &Vec<TxAnalysis>, c: TxClassification) -> (n: u64)
    ensures
        n == count_class(analyses_view(txs@), c),
{
    let ghost av = analyses_view(txs@);
    let mut n: u64 = 0;
    let mut j: usize = 0;
    while j < txs.len()
        invariant
            av == analyses_view(txs@),
            j <= av.len(),
            n == count_class(av.take(j as int), c),
            n <= j,
        decreases av.len() - j,
    {
        proof {
            assert(av.take(j + 1).drop_last() =~= av.take(j as int));
            assert(av.take(j + 1).last() == txs@[j as int]@);
        }
        if txs[j].classification == c {
            n = n + 1;
        }
        j = j + 1;
    }
    proof {
        assert(av.take(j as int) =~= av);
    }
    n
}

/// Append the file's heuristic findings table.
fn push_file_findings(md: &mut String, report: &FileReport)
    ensures
        final(md)@ == old(md)@ + file_findings(report@),
{
    md.append("### Heuristic Findings\n\n| Heuristic | Transactions Flagged |\n|---|---|\n");
    let ghost base = md@;
    let mut k: usize = 0;
    while k < HEURISTIC_COUNT
        invariant
            k <= HEURISTIC_COUNT,
            md@ == base + file_finding_rows(report@, k as nat),
        decreases HEURISTIC_COUNT - k,
    {
        let id = heuristic_id(k);
        let count = match finding_lookup(&report.heuristics_applied, &report.heuristic_findings, id) {
            Some(c) => c,
            None => 0,
        };
        push_count_row(md, id, count);
        k = k + 1;
    }
    md.append("\n");
    proof {
        assert(md@ =~= old(md)@ + file_findings(report@));
    }
}

/// Append a block's heuristic findings table.
fn push_block_findings(md: &mut String, report: &FileReport, b: &BlockResult)
    ensures
        final(md)@ == old(md)@ + block_findings(report@, b@),
{
    md.append("### Heuristic Findings\n\n| Heuristic | Transactions Flagged |\n|---|---|\n");
    let ghost base = md@;
    let mut k: usize = 0;
    while k < HEURISTIC_COUNT
        invariant
            k <= HEURISTIC_COUNT,
            md@ == base + block_finding_rows(report@, b@, k as nat),
        decreases HEURISTIC_COUNT - k,
    {
        let id = heuristic_id(k);
        let count = match finding_lookup(&report.heuristics_applied, &b.heuristic_counts, id) {
            Some(c) => c,
            None => count_fired_in(&b.transactions, id),
        };
        push_count_row(md, id, count);
        k = k + 1;
    }
    md.append("\n");
    proof {
        assert(md@ =~= old(md)@ + block_findings(report@, b@));
    }
}

/// Append a block's classification table.
fn push_class_table(md: &mut String, b: &BlockResult)
    ensures
        final(md)@ == old(md)@ + class_table(b@),
{
    md.append("### Transaction Classifications\n\n| Classification | Count |\n|---|---|\n");
    let ghost base = md@;
    let mut c: usize = 0;
    while c < CLASSIFICATION_COUNT
        invariant
            c <= CLASSIFICATION_COUNT,
            md@ == base + class_rows(b@, c as nat),
        decreases CLASSIFICATION_COUNT - c,
    {
        let t = class_for(c);
        let count = if c < b.classification_counts.len() {
            b.classification_counts[c]
        } else {
            count_class_in(&b.transactions, t)
        };
        if count > 0 {
            push_count_row(md, classification_id(&t), count);
        }
        c = c + 1;
    }
    md.append("\n");
    proof {
        assert(md@ =~= old(md)@ + class_table(b@));
    }
}

/// Append the heading of a notable transactions table of `n` entries.
fn push_notable_heading(md: &mut String, n: usize)
    ensures
        final(md)@ == old(md)@ + notable_heading(n as nat),
{
    if n > 10 {
        md.append("### Notable Transactions (showing top 10 of ");
        push_decimal(md, n as u64);
        md.append(")\n\n");
    } else {
        md.append("### Notable Transactions\n\n");
    }
}

/// Append a row of the notable transactions table.
fn push_notable_row(md: &mut String, txid: &str, class: &str, hits: &str)
    ensures
        final(md)@ == old(md)@ + notable_row(txid@, class@, hits@),
{
    md.append("| `");
    md.append(txid);
    md.append("` | ");
    md.append(class);
    md.append(" | ");
    md.append(hits);
    md.append(" |\n");
}

/// Append a block's notable transactions table.
fn push_notables(md: &mut String, b: &BlockResult)
    ensures
        final(md)@ == old(md)@ + notables_table(b@),
{
    let ghost base = md@;
    let ghost ns = notables_view(b.notable_transactions@);
    let ghost av = analyses_view(b.transactions@);
    if b.notable_transactions.len() > 0 {
        push_notable_heading(md, b.notable_transactions.len());
        md.append("| txid | classification | heuristic hits |\n|---|---|---|\n");
        let ghost mid = md@;
        let n = if b.notable_transactions.len() > 10 {
            10
        } else {
            b.notable_transactions.len()
        };
        let mut i: usize = 0;
        while i < n
            invariant
                ns == notables_view(b.notable_transactions@),
                n <= b.notable_transactions@.len(),
                i <= n,
                md@ == mid + notable_rows(ns, i as nat),
            decreases n - i,
        {
            let nt = &b.notable_transactions[i];
            proof {
                assert(ns[i as int] == nt@);
            }
            let mut joined = String::new();
            push_join(&mut joined, &nt.detected_heuristics);
            proof {
                assert(joined@ =~= spec_join(nt@.detected_heuristics));
            }
            let class = classification_id(&nt.classification);
            if joined.as_str().unicode_len() == 0 {
                push_notable_row(md, nt.txid.as_str(), class, "classification-only");
            } else {
                push_notable_row(md, nt.txid.as_str(), class, joined.as_str());
            }
            i = i + 1;
        }
        md.append("\n");
    } else {
        let mut listed: Vec<&TxAnalysis> = Vec::new();
        let mut j: usize = 0;
        while j < b.transactions.len()
            invariant
                av == analyses_view(b.transactions@),
                j <= av.len(),
                listed@.len() == notable_listed(av, j as nat).len(),
                forall|k: int| 0 <= k < listed@.len() ==> (#[trigger] listed@[k])@ == notable_listed(av, j as nat)[k],
            decreases av.len() - j,
        {
            proof {
                assert(av[j as int] == b.transactions@[j as int]@);
            }
            if is_notable_classification(&b.transactions[j].classification) {
                listed.push(&b.transactions[j]);
            }
            j = j + 1;
        }
        let ghost ls = notable_listed(av, av.len());
        if listed.len() > 0 {
            push_notable_heading(md, listed.len());
            md.append("| txid | classification | heuristic hits |\n|---|---|---|\n");
            let ghost mid = md@;
            let n = if listed.len() > 10 {
                10
            } else {
                listed.len()
            };
            let mut i: usize = 0;
            while i < n
                invariant
                    ls == notable_listed(av, av.len()),
                    listed@.len() == ls.len(),
                    forall|k: int| 0 <= k < listed@.len() ==> (#[trigger] listed@[k])@ == ls[k],
                    n <= listed@.len(),
                    i <= n,
                    md@ == mid + listed_rows(ls, i as nat),
                decreases n - i,
            {
                let t = listed[i];
                proof {
                    assert(ls[i as int] == t@);
                }
                push_notable_row(
                    md,
                    t.txid.as_str(),
                    classification_id(&t.classification),
                    "classification-only",
                );
                i = i + 1;
            }
            md.append("\n");
        }
    }
}

/// Append the facts table of block number `i`.
fn push_block_facts(md: &mut String, b: &BlockResult, i: usize)
    requires
        i < usize::MAX,
    ensures
        final(md)@ == old(md)@ + block_facts(b@, i as nat),
{
    md.append("## Block ");
    push_decimal(md, (i + 1) as u64);
    md.append(" — Height ");
    push_decimal(md, b.block_height);
    md.append("\n\n| Field | Value |\n|---|---|\n| Hash | `");
    md.append(b.block_hash.as_str());
    md.append("` |\n| Height | ");
    push_decimal(md, b.block_height);
    md.append(" |\n| Timestamp | ");
    push_decimal(md, b.timestamp as u64);
    md.append(" |\n| Transactions | ");
    push_decimal(md, b.tx_count as u64);
    md.append(" |\n| Flagged | ");
    push_decimal(md, b.flagged_real);
    md.append(" |\n\n");
    proof {
        assert(md@ =~= old(md)@ + block_facts(b@, i as nat));
    }
}

/// Append a block's fee table.
fn push_block_fees(md: &mut String, cells: &FeeCells)
    ensures
        final(md)@ == old(md)@ + block_fee_table((cells.min@, cells.median@, cells.mean@, cells.max@)),
{
    md.append("### Fee Rates (sat/vbyte)\n\n| min | median | mean | max |\n|---|---|---|---|\n| ");
    md.append(cells.min.as_str());
    md.append(" | ");
    md.append(cells.median.as_str());
    md.append(" | ");
    md.append(cells.mean.as_str());
    md.append(" | ");
    md.append(cells.max.as_str());
    md.append(" |\n\n");
    proof {
        assert(md@ =~= old(md)@ + block_fee_table((cells.min@, cells.median@, cells.mean@, cells.max@)));
    }
}

/// Append the section of block number `i`.
fn push_block_section(md: &mut String, report: &FileReport, b: &BlockResult, i: usize, cells: &FeeCells)
    requires
        i < usize::MAX,
    ensures
        final(md)@ == old(md)@ + block_section(
            report@,
            b@,
            i as nat,
            (cells.min@, cells.median@, cells.mean@, cells.max@),
        ),
{
    push_block_facts(md, b, i);
    push_block_fees(md, cells);
    push_block_findings(md, report, b);
    push_class_table(md, b);
    push_notables(md, b);
    proof {
        reveal(block_section);
        assert(md@ =~= old(md)@ + block_section(
            report@,
            b@,
            i as nat,
            (cells.min@, cells.median@, cells.mean@, cells.max@),
        ));
    }
}

/// Append the file heading and the file's fee statistics table.
fn push_file_heading(md: &mut String, report: &FileReport, c0: &FeeCells)
    ensures
        final(md)@ == old(md)@ + file_heading(report@, (c0.min@, c0.median@, c0.mean@, c0.max@)),
{
    md.append("# Sherlock Chain Analysis — `");
    md.append(report.file.as_str());
    md.append("`\n\n**File:** `");
    md.append(report.file.as_str());
    md.append("` | **Blocks:** ");
    push_decimal(md, report.block_count as u64);
    md.append(" | **Total transactions:** ");
    push_decimal(md, report.total_transactions_analyzed);
    md.append(
        "\n\n## File-Level Summary\n\n### Fee Rate Statistics (sat/vbyte)\n\n| Metric | Value |\n|---|---|\n| min_sat_vb | ",
    );
    md.append(c0.min.as_str());
    md.append(" |\n| median_sat_vb | ");
    md.append(c0.median.as_str());
    md.append(" |\n| mean_sat_vb | ");
    md.append(c0.mean.as_str());
    md.append(" |\n| max_sat_vb | ");
    md.append(c0.max.as_str());
    md.append(" |\n\n");
    proof {
        assert(md@ =~= old(md)@ + file_heading(report@, (c0.min@, c0.median@, c0.mean@, c0.max@)));
    }
}

/// Append the file's script type distribution table.
fn push_dist_table(md: &mut String, d: &ScriptTypeDistribution)
    ensures
        final(md)@ == old(md)@ + dist_table(*d),
{
    md.append("### Script Type Distribution\n\n| Script Type | Output Count |\n|---|---|\n");
    push_count_row(md, "p2wpkh", d.p2wpkh);
    push_count_row(md, "p2tr", d.p2tr);
    push_count_row(md, "p2sh", d.p2sh);
    push_count_row(md, "p2pkh", d.p2pkh);
    push_count_row(md, "p2wsh", d.p2wsh);
    push_count_row(md, "op_return", d.op_return);
    push_count_row(md, "unknown", d.unknown);
    md.append("\n");
    proof {
        assert(md@ =~= old(md)@ + dist_table(*d));
    }
}

/// Append the file's flagged count and applied heuristics.
fn push_file_totals(md: &mut String, report: &FileReport, flagged_pct: &str)
    ensures
        final(md)@ == old(md)@ + file_totals(report@, flagged_pct@),
{
    md.append("**Flagged transactions:** ");
    push_decimal(md, report.flagged_transactions);
    md.append(" / ");
    push_decimal(md, report.total_transactions_analyzed);
    md.append(" (");
    md.append(flagged_pct);
    md.append("%)\n\n**Heuristics applied:** ");
    push_join(md, &report.heuristics_applied);
    md.append("\n\n");
    proof {
        assert(md@ =~= old(md)@ + file_totals(report@, flagged_pct@));
    }
}

/// Append the methodology note.
fn push_methodology(md: &mut String, report: &FileReport)
    ensures
        final(md)@ == old(md)@ + methodology(report@),
{
    md.append(
        "---\n\n## Methodology\n\nThis report was generated by **Sherlock**, a Bitcoin chain analysis engine built for Summer of Bitcoin 2026. Heuristics are probabilistic — results indicate likely patterns, not certainties. See `APPROACH.md` for full documentation of each heuristic, confidence models, and known limitations.\n\nHeuristics applied: ",
    );
    push_decimal(md, report.heuristics_applied.len() as u64);
    md.append(". All values in satoshis unless noted.\n");
    proof {
        assert(md@ =~= old(md)@ + methodology(report@));
    }
}

/// The Markdown report of a file analysis.
///
/// `fee_cells[0]` holds the file's fee statistics and `fee_cells[i + 1]`
/// those of block `i`, formatted to two decimals; `flagged_pct` is the
/// flagged share of the file's transactions, in percent, formatted to one
/// decimal. Rendered for GitHub (pipe tables), and the same report always
/// gives the same text.
pub fn markdown_report(report: &FileReport, fee_cells: &Vec<FeeCells>, flagged_pct: &str) -> (md: String)
    requires
        fee_cells@.len() == report.blocks@.len() + 1,
    ensures
        md@ == spec_markdown(report@, fee_cells_view(fee_cells@), flagged_pct@),
{
    let ghost r = report@;
    let ghost cells = fee_cells_view(fee_cells@);
    let c0 = &fee_cells[0];
    let mut md = String::new();
    proof {
        assert(cells[0] == (c0.min@, c0.median@, c0.mean@, c0.max@));
    }
    push_file_heading(&mut md, report, c0);
    push_dist_table(&mut md, &report.script_type_distribution);
    push_file_totals(&mut md, report, flagged_pct);
    push_file_findings(&mut md, report);
    let ghost p4 = md@;
    let mut i: usize = 0;
    proof {
        assert(md@ =~= p4 + block_sections(r, cells, 0));
    }
    while i < report.blocks.len()
        invariant
            r == report@,
            cells == fee_cells_view(fee_cells@),
            fee_cells@.len() == report.blocks@.len() + 1,
            i <= report.blocks@.len(),
            md@ == p4 + block_sections(r, cells, i as nat),
        decreases report.blocks@.len() - i,
    {
        proof {
            assert(r.blocks[i as int] == report.blocks@[i as int]@);
            assert(cells[i + 1] == (
                fee_cells@[i + 1].min@,
                fee_cells@[i + 1].median@,
                fee_cells@[i + 1].mean@,
                fee_cells@[i + 1].max@,
            ));
        }
        push_block_section(&mut md, report, &report.blocks[i], i, &fee_cells[i + 1]);
        proof {
            assert(md@ =~= p4 + block_sections(r, cells, (i + 1) as nat));
        }
        i = i + 1;
    }
    push_methodology(&mut md, report);
    proof {
        assert(md@ =~= spec_markdown(r, cells, flagged_pct@));
    }
    md
}

} // verus!
