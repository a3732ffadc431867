//! Trimming of long data arrays down to a representative sample.
use crate::ir::{block_views, field_views, row_views, Block, BlockView, Field, FieldView};
use crate::reducers::cleanup::{lemma_block_views_push, lemma_filter_push};
use crate::text::{contains, decimal, decimal_of, lower, lowered, occurs, same, views};
use vstd::prelude::*;

verus! {

// ---------------------------------------------------------------------------
// Outliers
// ---------------------------------------------------------------------------

/// Whether a value, in lower case, names an error or is null.
pub open spec fn marks_outlier(value: Seq<char>) -> bool {
    let l = lower(value);
    occurs(l, "error"@) || occurs(l, "fail"@) || occurs(l, "exception"@) || l == "null"@
}

/// Tells apart the table rows that hold an outlier value.
pub open spec fn row_outlier() -> spec_fn(Seq<Seq<char>>) -> bool {
    |row: Seq<Seq<char>>| exists|i: int| 0 <= i < row.len() && #[trigger] marks_outlier(row[i])
}

/// Whether any field holds an outlier value.
pub open spec fn any_field_outlier(fields: Seq<FieldView>) -> bool {
    exists|i: int| 0 <= i < fields.len() && marks_outlier((#[trigger] fields[i]).value)
}

/// Tells apart the records that hold an outlier value.
pub open spec fn record_outlier() -> spec_fn(BlockView) -> bool {
    |b: BlockView|
        match b {
            BlockView::Record { fields } => any_field_outlier(fields),
            _ => false,
        }
}

/// Whether a value, in lower case, names an error or is null.
fn is_outlier_value(value: &str) -> (r: bool)
    ensures
        r == marks_outlier(value@),
{
    let l = lowered(value);
    contains(l.as_str(), "error") || contains(l.as_str(), "fail") || contains(
        l.as_str(),
        "exception",
    ) || same(l.as_str(), "null")
}

/// Whether any cell of a table row is an outlier value.
pub fn is_table_row_outlier(row: &Vec<String>) -> (r: bool)
    ensures
        r == row_outlier()(views(row@)),
{
    for i in 0..row.len()
        invariant
            forall|j: int| 0 <= j < i ==> !#[trigger] marks_outlier(views(row@)[j]),
    {
        if is_outlier_value(row[i].as_str()) {
            assert(marks_outlier(views(row@)[i as int]));
            return true;
        }
    }
    false
}

/// Whether any field of a record is an outlier value.
pub fn is_record_outlier(fields: &Vec<Field>) -> (r: bool)
    ensures
        r == any_field_outlier(field_views(fields@)),
{
    for i in 0..fields.len()
        invariant
            forall|j: int|
                0 <= j < i ==> !marks_outlier((#[trigger] field_views(fields@)[j]).value),
    {
        if is_outlier_value(fields[i].value.as_str()) {
            assert(marks_outlier(field_views(fields@)[i as int].value));
            return true;
        }
    }
    false
}

// ---------------------------------------------------------------------------
// Samples
// ---------------------------------------------------------------------------

/// The first `n` elements, then the outliers among the others.
pub open spec fn sample<A>(s: Seq<A>, n: nat, outlier: spec_fn(A) -> bool) -> Seq<A> {
    s.take(n as int) + s.skip(n as int).filter(outlier)
}

/// How many rows are left out.
pub open spec fn omitted(total: nat, kept: nat) -> nat {
    if kept <= total {
        (total - kept) as nat
    } else {
        0
    }
}

/// The note that stands for the rows left out.
pub open spec fn sentinel(total: nat, kept: nat, outliers: nat) -> Seq<char> {
    "["@ + decimal(omitted(total, kept)) + " rows omitted — "@ + decimal(kept)
        + " shown including "@ + decimal(outliers) + " outlier "@ + (if outliers == 1 {
        "row"@
    } else {
        "rows"@
    }) + "]"@
}

/// The paragraph that stands for the rows left out of `total`, `n` and the outliers being kept.
pub open spec fn sentinel_block(total: nat, kept: nat, n: nat) -> BlockView {
    BlockView::Paragraph { text: sentinel(total, kept, (kept - n) as nat) }
}

/// Builds the note that stands for the rows left out.
///
/// `total_rows` is the row count before the trim, `kept` the rows shown and `outlier_count`
/// those among them that stand only because they are outliers.
pub fn sentinel_text(total_rows: usize, kept: usize, outlier_count: usize) -> (r: String)
    ensures
        r@ == sentinel(total_rows as nat, kept as nat, outlier_count as nat),
{
    let omitted: usize = total_rows.saturating_sub(kept);
    let label = if outlier_count == 1 {
        "row"
    } else {
        "rows"
    };
    let mut s = "[".to_owned();
    s.append(decimal_of(omitted as u128).as_str());
    s.append(" rows omitted — ");
    s.append(decimal_of(kept as u128).as_str());
    s.append(" shown including ");
    s.append(decimal_of(outlier_count as u128).as_str());
    s.append(" outlier ");
    s.append(label);
    s.append("]");
    s
}

// ---------------------------------------------------------------------------
// Trimming
// ---------------------------------------------------------------------------

/// A table trimmed to the first `n` rows and the outliers, with its sentinel; a table of at
/// most `n` rows unchanged.
pub open spec fn trim_table(
    headers: Seq<Seq<char>>,
    rows: Seq<Seq<Seq<char>>>,
    n: nat,
) -> Seq<BlockView> {
    if rows.len() <= n {
        seq![BlockView::Table { headers, rows }]
    } else {
        let kept = sample(rows, n, row_outlier());
        seq![
            BlockView::Table { headers, rows: kept },
            sentinel_block(rows.len(), kept.len(), n),
        ]
    }
}

/// A run of records trimmed to the first `n` and the outliers, with its sentinel; a run of at
/// most `n` records unchanged.
pub open spec fn trim_run(run: Seq<BlockView>, n: nat) -> Seq<BlockView> {
    if run.len() <= n {
        run
    } else {
        let kept = sample(run, n, record_outlier());
        kept.push(sentinel_block(run.len(), kept.len(), n))
    }
}

/// How many records stand at the front of `bs`.
pub open spec fn run_len(bs: Seq<BlockView>) -> nat
    decreases bs.len(),
{
    if bs.len() > 0 && bs[0] is Record {
        1 + run_len(bs.skip(1))
    } else {
        0
    }
}

/// A run of records lies within its blocks.
pub proof fn lemma_run_len_bound(bs: Seq<BlockView>)
    ensures
        run_len(bs) <= bs.len(),
    decreases bs.len(),
{
    if bs.len() > 0 && bs[0] is Record {
        lemma_run_len_bound(bs.skip(1));
    }
}

/// Every table and every maximal run of records trimmed; every other block unchanged.
pub open spec fn trim_blocks(bs: Seq<BlockView>, n: nat) -> Seq<BlockView>
    decreases bs.len(),
{
    if bs.len() == 0 {
        Seq::empty()
    } else {
        match bs[0] {
            BlockView::Table { headers, rows } => trim_table(headers, rows, n) + trim_blocks(
                bs.skip(1),
                n,
            ),
            BlockView::Record { .. } => {
                proof {
                    lemma_run_len_bound(bs.skip(1));
                }
                let len = 1 + run_len(bs.skip(1));
                trim_run(bs.take(len as int), n) + trim_blocks(bs.skip(len as int), n)
            },
            _ => seq![bs[0]] + trim_blocks(bs.skip(1), n),
        }
    }
}

/// A run of records ends where the first other block stands.
pub proof fn lemma_run_len(run: Seq<BlockView>, rest: Seq<BlockView>)
    requires
        forall|i: int| 0 <= i < run.len() ==> run[i] is Record,
        rest.len() > 0 ==> !(rest[0] is Record),
    ensures
        run_len(run + rest) == run.len(),
    decreases run.len(),
{
    let all = run + rest;
    if run.len() == 0 {
        assert(all =~= rest);
    } else {
        lemma_run_len(run.skip(1), rest);
        assert(all.skip(1) =~= run.skip(1) + rest);
        assert(all[0] == run[0]);
    }
}

/// A run of records is trimmed by itself.
proof fn lemma_trim_run(run: Seq<BlockView>, rest: Seq<BlockView>, n: nat)
    requires
        forall|i: int| 0 <= i < run.len() ==> run[i] is Record,
        rest.len() > 0 ==> !(rest[0] is Record),
    ensures
        trim_blocks(run + rest, n) == trim_run(run, n) + trim_blocks(rest, n),
{
    let all = run + rest;
    if run.len() == 0 {
        assert(all =~= rest);
        assert(trim_run(run, n) =~= Seq::empty());
        assert(trim_run(run, n) + trim_blocks(rest, n) =~= trim_blocks(rest, n));
    } else {
        lemma_run_len(run.skip(1), rest);
        assert(all.skip(1) =~= run.skip(1) + rest);
        assert(all[0] == run[0]);
        assert(all.take(run.len() as int) =~= run);
        assert(all.skip(run.len() as int) =~= rest);
    }
}

/// The first `n` elements and the outliers, one element on.
proof fn lemma_sample_step<A>(s: Seq<A>, n: nat, i: int, outlier: spec_fn(A) -> bool)
    requires
        0 <= i < s.len(),
        n <= s.len(),
    ensures
        i < n ==> s.take(i + 1) == s.take(i).push(s[i]),
        i >= n ==> sample(s.take(i + 1), n, outlier) == if outlier(s[i]) {
            sample(s.take(i), n, outlier).push(s[i])
        } else {
            sample(s.take(i), n, outlier)
        },
        sample(s.take(n as int), n, outlier) == s.take(n as int),
{
    if i < n {
        assert(s.take(i + 1) =~= s.take(i).push(s[i]));
    } else {
        let a = s.take(i);
        let b = s.take(i + 1);
        assert(b.skip(n as int) =~= a.skip(n as int).push(s[i]));
        assert(b.take(n as int) =~= a.take(n as int));
        lemma_filter_push(a.skip(n as int), s[i], outlier);
        if outlier(s[i]) {
            assert(sample(b, n, outlier) =~= sample(a, n, outlier).push(s[i]));
        }
    }
    let c = s.take(n as int);
    assert(c.skip(n as int) =~= Seq::empty());
    lemma_filter_push(c, s[i], outlier);
    assert(sample(c, n, outlier) =~= c);
}

/// Trims a table to the first `n` rows and the outliers.
fn trimmed_table(headers: Vec<String>, rows: Vec<Vec<String>>, n: usize, out: &mut Vec<Block>)
    ensures
        block_views(final(out)@) == block_views(old(out)@) + trim_table(
            views(headers@),
            row_views(rows@),
            n as nat,
        ),
{
    broadcast use lemma_block_views_push;

    let total: usize = rows.len();
    if total <= n {
        out.push(Block::Table { headers, rows });
        assert(block_views(out@) =~= block_views(old(out)@) + trim_table(
            views(headers@),
            row_views(rows@),
            n as nat,
        ));
        return;
    }
    let ghost all = row_views(rows@);
    let mut kept: Vec<Vec<String>> = Vec::new();
    assert(row_views(kept@) =~= all.take(0));
    for r in it: rows
        invariant
            it.seq() == rows@,
            all == row_views(rows@),
            n < total == rows@.len(),
            it.index() <= n ==> row_views(kept@) == all.take(it.index()),
            it.index() >= n ==> row_views(kept@) == sample(
                all.take(it.index()),
                n as nat,
                row_outlier(),
            ),
    {
        proof {
            lemma_sample_step(all, n as nat, it.index(), row_outlier());
            assert(row_views(kept@.push(r)) =~= row_views(kept@).push(views(r@)));
        }
        if kept.len() < n || is_table_row_outlier(&r) {
            kept.push(r);
        }
    }
    assert(all.take(total as int) =~= all);
    let shown: usize = kept.len();
    out.push(Block::Table { headers, rows: kept });
    out.push(Block::Paragraph { text: sentinel_text(total, shown, shown - n) });
}

/// Whether a block is a record that holds an outlier value.
fn is_outlier_record(b: &Block) -> (r: bool)
    ensures
        r == record_outlier()(b@),
{
    match b {
        Block::Record { fields } => is_record_outlier(fields),
        _ => false,
    }
}

/// Trims a run of records to the first `n` and the outliers.
fn trimmed_run(run: Vec<Block>, n: usize, out: &mut Vec<Block>)
    ensures
        block_views(final(out)@) == block_views(old(out)@) + trim_run(
            block_views(run@),
            n as nat,
        ),
{
    broadcast use lemma_block_views_push;

    let total: usize = run.len();
    let ghost all = block_views(run@);
    let ghost start = block_views(out@);
    let mut kept: usize = 0;
    assert(all.take(total as int) =~= all);
    assert(start + all.take(0) =~= start);
    for b in it: run
        invariant
            it.seq() == run@,
            all == block_views(run@),
            total == run@.len(),
            kept <= it.index() <= total,
            total <= n || it.index() <= n ==> kept == it.index() && block_views(out@) == start
                + all.take(it.index()),
            total > n && it.index() >= n ==> kept >= n && ({
                let s = sample(all.take(it.index()), n as nat, record_outlier());
                &&& s.len() == kept
                &&& block_views(out@) == start + s
            }),
    {
        proof {
            if total > n {
                lemma_sample_step(all, n as nat, it.index(), record_outlier());
            }
            assert(all.take(it.index() + 1) =~= all.take(it.index()).push(b@));
        }
        let ghost before = block_views(out@);
        if kept < n || is_outlier_record(&b) {
            out.push(b);
            kept = kept + 1;
            assert(block_views(out@) =~= before.push(b@));
            proof {
                lemma_push_in_sum(start, all.take(it.index()), b@);
                lemma_push_in_sum(
                    start,
                    sample(all.take(it.index()), n as nat, record_outlier()),
                    b@,
                );
            }
        }
    }
    if total > n {
        out.push(Block::Paragraph { text: sentinel_text(total, kept, kept - n) });
        proof {
            lemma_push_in_sum(
                start,
                sample(all, n as nat, record_outlier()),
                sentinel_block(total as nat, kept as nat, n as nat),
            );
        }
    }
}

/// Appending to a sum appends to its second part.
proof fn lemma_push_in_sum<A>(a: Seq<A>, b: Seq<A>, x: A)
    ensures
        (a + b).push(x) == a + b.push(x),
{
    assert((a + b).push(x) =~= a + b.push(x));
}

/// A block that is no record, trimmed if it is a table.
spec fn trim_single(b: BlockView, n: nat) -> Seq<BlockView> {
    match b {
        BlockView::Table { headers, rows } => trim_table(headers, rows, n),
        _ => seq![b],
    }
}

/// Appends a block that is no record, trimmed if it is a table.
fn push_single(b: Block, n: usize, out: &mut Vec<Block>)
    ensures
        block_views(final(out)@) == block_views(old(out)@) + trim_single(b@, n as nat),
{
    match b {
        Block::Table { headers, rows } => trimmed_table(headers, rows, n, out),
        other => {
            out.push(other);
            assert(block_views(out@) =~= block_views(old(out)@) + seq![b@]);
        },
    }
}

/// A block that is no record ends the run before it: both are done, the rest is to come.
proof fn lemma_run_ends(
    done: Seq<BlockView>,
    run: Seq<BlockView>,
    b: BlockView,
    rest: Seq<BlockView>,
    n: nat,
)
    requires
        forall|i: int| 0 <= i < run.len() ==> run[i] is Record,
        !(b is Record),
    ensures
        done + trim_run(run, n) + trim_single(b, n) + trim_blocks(Seq::<BlockView>::empty() + rest, n)
            == done + trim_blocks(run + (seq![b] + rest), n),
{
    let from = seq![b] + rest;
    lemma_trim_run(run, from, n);
    assert(from.skip(1) =~= rest);
    assert(from[0] == b);
    assert(Seq::<BlockView>::empty() + rest =~= rest);
    assert(trim_blocks(from, n) == trim_single(b, n) + trim_blocks(rest, n));
    assert(done + trim_run(run, n) + trim_single(b, n) + trim_blocks(rest, n) =~= done + (trim_run(
        run,
        n,
    ) + (trim_single(b, n) + trim_blocks(rest, n))));
}

/// Trims tables and runs of records down to the first `n` and the outliers.
///
/// A sentinel paragraph stands right after whatever was trimmed. Blocks of any other kind are
/// left as they are.
pub fn trim_data_rows(blocks: Vec<Block>, n: usize) -> (r: Vec<Block>)
    ensures
        block_views(r@) == trim_blocks(block_views(blocks@), n as nat),
{
    let ghost all = block_views(blocks@);
    let mut output: Vec<Block> = Vec::new();
    let mut run: Vec<Block> = Vec::new();
    proof {
        assert(block_views(run@) + all.skip(0) =~= all);
        assert(block_views(output@) + trim_blocks(all, n as nat) =~= trim_blocks(all, n as nat));
        assert(all.skip(all.len() as int) =~= Seq::empty());
    }
    for b in it: blocks
        invariant
            it.seq() == blocks@,
            all == block_views(blocks@),
            forall|j: int| 0 <= j < run@.len() ==> block_views(run@)[j] is Record,
            block_views(output@) + trim_blocks(
                block_views(run@) + all.skip(it.index()),
                n as nat,
            ) == trim_blocks(all, n as nat),
    {
        let ghost rest = all.skip(it.index() + 1);
        let ghost pending = block_views(run@);
        let ghost done = block_views(output@);
        let ghost view = b@;
        assert(all.skip(it.index()) =~= seq![view] + rest);
        match b {
            Block::Record { fields } => {
                run.push(Block::Record { fields });
                proof {
                    assert(block_views(run@) =~= pending.push(view));
                    assert(pending + (seq![view] + rest) =~= block_views(run@) + rest);
                }
            },
            other => {
                let mut ended: Vec<Block> = Vec::new();
                std::mem::swap(&mut run, &mut ended);
                assert(block_views(run@) =~= Seq::empty());
                trimmed_run(ended, n, &mut output);
                push_single(other, n, &mut output);
                proof {
                    lemma_run_ends(done, pending, view, rest, n as nat);
                }
            },
        }
    }
    proof {
        lemma_trim_run(block_views(run@), Seq::empty(), n as nat);
        assert(block_views(run@) + all.skip(all.len() as int) =~= block_views(run@)
            + Seq::empty());
        assert(trim_run(block_views(run@), n as nat) + trim_blocks(Seq::empty(), n as nat)
            =~= trim_run(block_views(run@), n as nat));
    }
    trimmed_run(run, n, &mut output);
    output
}

} // verus!
