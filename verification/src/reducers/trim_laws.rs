//! What holds of trimmed arrays: which rows are shown, and what is said of the others.
use crate::ir::{BlockView, DocumentView, FieldView};
use crate::reducers::cleanup::{lemma_filter_push, unquote_all};
use crate::reducers::laws::{
    law_human_keeps_structure, lemma_cleanup_keeps_structure, lemma_filter_finds,
    lemma_merge_keeps_others, structure, structured,
};
use crate::reducers::trim::{
    any_field_outlier, lemma_run_len, lemma_run_len_bound, marks_outlier, record_outlier,
    row_outlier, run_len, sample, trim_blocks, trim_run, trim_table,
};
use crate::reducers::{compact, compact_prose, human, llm, llm_prose};
use crate::text::{decimal, lower, occurs, occurs_at};
use vstd::prelude::*;

verus! {

// ---------------------------------------------------------------------------
// Trouble
// ---------------------------------------------------------------------------

/// The code of a character, a capital letter of ASCII counting as the small one.
pub open spec fn small(c: char) -> int {
    if 65 <= c as u32 <= 90 {
        c as u32 + 32
    } else {
        c as u32 as int
    }
}

/// Whether `w`, which is in small letters, stands in `v` at `k`, in letters of any case.
pub open spec fn stands_at(v: Seq<char>, w: Seq<char>, k: int) -> bool {
    0 <= k && k + w.len() <= v.len() && forall|i: int|
        0 <= i < w.len() ==> small(v[k + i]) == (#[trigger] w[i]) as u32
}

/// Whether `w` stands anywhere in `v`, in letters of any case.
pub open spec fn says(v: Seq<char>, w: Seq<char>) -> bool {
    exists|k: int| stands_at(v, w, k)
}

/// Whether a value speaks of an error, a failure or an exception, or is null.
pub open spec fn names_trouble(v: Seq<char>) -> bool {
    says(v, "error"@) || says(v, "fail"@) || says(v, "exception"@) || (v.len() == 4 && says(
        v,
        "null"@,
    ))
}

/// Whether a row has trouble in any of its cells.
pub open spec fn row_in_trouble(row: Seq<Seq<char>>) -> bool {
    exists|c: int| 0 <= c < row.len() && names_trouble(#[trigger] row[c])
}

/// Whether a record has trouble in any of its fields.
pub open spec fn record_in_trouble(b: BlockView) -> bool {
    match b {
        BlockView::Record { fields } => exists|c: int|
            0 <= c < fields.len() && names_trouble((#[trigger] fields[c]).value),
        _ => false,
    }
}

/// A letter in lower case.
proof fn lemma_small(c: char)
    ensures
        crate::text::lower_char(c) as u32 == small(c),
{
}

/// Characters of the same code are one.
proof fn lemma_same_code(a: char, b: char)
    requires
        a as u32 == b as u32,
    ensures
        a == b,
{
}

/// What occurs in lower case stands there in letters of any case.
proof fn lemma_says(v: Seq<char>, w: Seq<char>)
    ensures
        occurs(lower(v), w) <==> says(v, w),
{
    let l = lower(v);
    assert forall|i: int| 0 <= i < v.len() implies (#[trigger] l[i]) as u32 == small(v[i]) by {
        lemma_small(v[i]);
    }
    if occurs(l, w) {
        let k = choose|k: int| occurs_at(l, w, k);
        assert forall|i: int| 0 <= i < w.len() implies small(v[k + i]) == (
        #[trigger] w[i]) as u32 by {
            assert(l.subrange(k, k + w.len())[i] == l[k + i]);
        }
        assert(stands_at(v, w, k));
    }
    if says(v, w) {
        let k = choose|k: int| stands_at(v, w, k);
        assert forall|i: int| 0 <= i < w.len() implies l[k + i] == #[trigger] w[i] by {
            assert(l[k + i] as u32 == small(v[k + i]));
            lemma_same_code(l[k + i], w[i]);
        }
        assert(l.subrange(k, k + w.len()) =~= w);
        assert(occurs_at(l, w, k));
    }
}

/// A value marks an outlier exactly if it names trouble.
pub proof fn law_outliers_name_trouble(v: Seq<char>)
    ensures
        marks_outlier(v) <==> names_trouble(v),
{
    lemma_says(v, "error"@);
    lemma_says(v, "fail"@);
    lemma_says(v, "exception"@);
    lemma_says(v, "null"@);
    reveal_strlit("null");
    let l = lower(v);
    if l == "null"@ {
        assert(l.subrange(0, 4) =~= "null"@);
        assert(occurs_at(l, "null"@, 0));
    }
    if v.len() == 4 && occurs(l, "null"@) {
        let k = choose|k: int| occurs_at(l, "null"@, k);
        assert(l.subrange(0, 4) =~= l);
    }
}

/// A row is an outlier exactly if one of its cells names trouble, whichever column it stands in.
pub proof fn law_trouble_in_any_column_counts(row: Seq<Seq<char>>)
    ensures
        row_outlier()(row) <==> row_in_trouble(row),
        forall|c: int|
            0 <= c < row.len() && names_trouble(#[trigger] row[c]) ==> row_outlier()(row),
{
    assert forall|c: int| 0 <= c < row.len() implies (marks_outlier(row[c]) <==> names_trouble(
        #[trigger] row[c],
    )) by {
        law_outliers_name_trouble(row[c]);
    }
    if row_outlier()(row) {
        let c = choose|c: int| 0 <= c < row.len() && #[trigger] marks_outlier(row[c]);
        assert(names_trouble(row[c]));
    }
    if row_in_trouble(row) {
        let c = choose|c: int| 0 <= c < row.len() && names_trouble(#[trigger] row[c]);
        assert(marks_outlier(row[c]));
    }
}

/// A record is an outlier exactly if the value of one of its fields names trouble, whichever
/// field it is.
pub proof fn law_trouble_in_any_field_counts(fields: Seq<FieldView>)
    ensures
        any_field_outlier(fields) <==> record_in_trouble(BlockView::Record { fields }),
        record_outlier()(BlockView::Record { fields }) <==> any_field_outlier(fields),
        forall|c: int|
            0 <= c < fields.len() && names_trouble((#[trigger] fields[c]).value)
                ==> any_field_outlier(fields),
{
    assert forall|c: int| 0 <= c < fields.len() implies (marks_outlier(fields[c].value)
        <==> names_trouble((#[trigger] fields[c]).value)) by {
        law_outliers_name_trouble(fields[c].value);
    }
    if any_field_outlier(fields) {
        let c = choose|c: int|
            0 <= c < fields.len() && marks_outlier((#[trigger] fields[c]).value);
        assert(0 <= c < fields.len() && names_trouble(fields[c].value));
        let b = BlockView::Record { fields };
        assert(b->fields[c] == fields[c]);
        assert(record_in_trouble(b));
    }
    if record_in_trouble(BlockView::Record { fields }) {
        assert(exists|c: int| 0 <= c < fields.len() && names_trouble((#[trigger] fields[c]).value));
        let c = choose|c: int|
            0 <= c < fields.len() && names_trouble((#[trigger] fields[c]).value);
        assert(marks_outlier(fields[c].value));
    }
}

// ---------------------------------------------------------------------------
// Tables and runs
// ---------------------------------------------------------------------------

/// Filters that agree on every element keep the same ones.
pub proof fn lemma_same_filter<A>(s: Seq<A>, p: spec_fn(A) -> bool, q: spec_fn(A) -> bool)
    requires
        forall|i: int| 0 <= i < s.len() ==> p(#[trigger] s[i]) == q(s[i]),
    ensures
        s.filter(p) == s.filter(q),
    decreases s.len(),
{
    if s.len() == 0 {
        reveal(Seq::filter);
    } else {
        let front = s.drop_last();
        assert forall|i: int| 0 <= i < front.len() implies p(#[trigger] front[i]) == q(
            front[i],
        ) by {
            assert(front[i] == s[i]);
        }
        lemma_same_filter(front, p, q);
        lemma_filter_push(front, s.last(), p);
        lemma_filter_push(front, s.last(), q);
        assert(front.push(s.last()) =~= s);
        assert(p(s[s.len() - 1]) == q(s[s.len() - 1]));
    }
}

/// A filter keeps no more than there is.
proof fn lemma_filter_len<A>(s: Seq<A>, p: spec_fn(A) -> bool)
    ensures
        s.filter(p).len() <= s.len(),
    decreases s.len(),
{
    if s.len() == 0 {
        reveal(Seq::filter);
    } else {
        lemma_filter_len(s.drop_last(), p);
        lemma_filter_push(s.drop_last(), s.last(), p);
        assert(s.drop_last().push(s.last()) =~= s);
    }
}

/// Whether a paragraph says that of `total` rows `shown` are shown, and that all of them but the
/// first `n` are outliers.
pub open spec fn counts_rows(b: BlockView, total: nat, shown: nat, n: nat) -> bool {
    exists|out: nat, more: nat| #[trigger]
        counted(b, out, shown, more) && out + shown == total && more + n == shown
}

/// Whether a paragraph says that `out` rows are left out and `shown` shown, `more` of them as
/// outliers.
pub open spec fn counted(b: BlockView, out: nat, shown: nat, more: nat) -> bool {
    b matches BlockView::Paragraph { text } && text == "["@ + decimal(out) + " rows omitted — "@
        + decimal(shown) + " shown including "@ + decimal(more) + " outlier "@ + (if more == 1 {
        "row"@
    } else {
        "rows"@
    }) + "]"@
}

/// A long table is cut to its first rows and those that are in trouble, in order. A note right
/// after it tells how many are left out. A short table stays as it is.
pub proof fn law_long_tables_are_cut(
    headers: Seq<Seq<char>>,
    rows: Seq<Seq<Seq<char>>>,
    n: nat,
)
    ensures
        rows.len() <= n ==> trim_blocks(seq![BlockView::Table { headers, rows }], n) == seq![
            BlockView::Table { headers, rows },
        ],
        rows.len() > n ==> ({
            let kept = rows.take(n as int) + rows.skip(n as int).filter(
                |r: Seq<Seq<char>>| row_in_trouble(r),
            );
            let cut = trim_blocks(seq![BlockView::Table { headers, rows }], n);
            &&& cut.len() == 2
            &&& cut[0] == BlockView::Table { headers, rows: kept }
            &&& counts_rows(cut[1], rows.len(), kept.len(), n)
            &&& forall|i: int, c: int|
                #![trigger rows[i][c]]
                0 <= i < rows.len() && 0 <= c < rows[i].len() && names_trouble(rows[i][c])
                    ==> cut[0]->rows.contains(rows[i])
        }),
{
    let t = BlockView::Table { headers, rows };
    let bs = seq![t];
    assert(bs.skip(1) =~= Seq::empty());
    assert(trim_blocks(bs.skip(1), n) =~= Seq::empty());
    assert(trim_blocks(bs, n) =~= trim_table(headers, rows, n));
    if rows.len() > n {
        let p = |r: Seq<Seq<char>>| row_in_trouble(r);
        let rest = rows.skip(n as int);
        assert forall|i: int| 0 <= i < rest.len() implies row_outlier()(#[trigger] rest[i]) == p(
            rest[i],
        ) by {
            law_trouble_in_any_column_counts(rest[i]);
        }
        lemma_same_filter(rest, row_outlier(), p);
        lemma_filter_len(rest, p);
        let kept = rows.take(n as int) + rest.filter(p);
        assert(kept == sample(rows, n, row_outlier()));
        let cut = trim_blocks(bs, n);
        let out = (rows.len() - kept.len()) as nat;
        assert(counted(cut[1], out, kept.len(), (kept.len() - n) as nat));
        assert forall|i: int, c: int|
            #![trigger rows[i][c]]
            0 <= i < rows.len() && 0 <= c < rows[i].len() && names_trouble(
                rows[i][c],
            ) implies kept.contains(rows[i]) by {
            assert(row_in_trouble(rows[i]));
            if i < n {
                assert(kept[i] == rows[i]);
            } else {
                assert(rest[i - n] == rows[i]);
                lemma_filter_finds(rest, p, i - n);
                let j = choose|j: int| 0 <= j < rest.filter(p).len() && rest.filter(p)[j] == rows[i];
                assert(kept[n + j] == rows[i]);
            }
        }
    }
}

/// A long run of records is cut to the first of them and those that are in trouble, in order. A
/// note right after it tells how many are left out. A short run stays as it is.
pub proof fn law_long_runs_are_cut(run: Seq<BlockView>, n: nat)
    requires
        forall|i: int| 0 <= i < run.len() ==> (#[trigger] run[i]) is Record,
    ensures
        run.len() <= n ==> trim_blocks(run, n) == run,
        run.len() > n ==> ({
            let kept = run.take(n as int) + run.skip(n as int).filter(
                |b: BlockView| record_in_trouble(b),
            );
            let cut = trim_blocks(run, n);
            &&& cut.len() == kept.len() + 1
            &&& cut.take(kept.len() as int) == kept
            &&& counts_rows(cut.last(), run.len(), kept.len(), n)
            &&& forall|i: int|
                0 <= i < run.len() && record_in_trouble(#[trigger] run[i]) ==> cut.contains(run[i])
        }),
{
    let none = Seq::<BlockView>::empty();
    assert(run + none =~= run);
    if run.len() > 0 {
        lemma_run_len(run.skip(1), none);
        assert(run.skip(1) + none =~= run.skip(1));
        assert(run.take(run.len() as int) =~= run);
        assert(run.skip(run.len() as int) =~= none);
        assert(trim_blocks(none, n) =~= none);
        assert(trim_run(run, n) + none =~= trim_run(run, n));
        assert(run[0] is Record);
        assert(trim_blocks(run, n) == trim_run(run, n));
    } else {
        assert(trim_blocks(run, n) =~= run);
    }
    if run.len() > n {
        let p = |b: BlockView| record_in_trouble(b);
        let rest = run.skip(n as int);
        assert forall|i: int| 0 <= i < rest.len() implies record_outlier()(#[trigger] rest[i])
            == p(rest[i]) by {
            assert(rest[i] == run[i + n]);
            assert(run[i + n] is Record);
            law_trouble_in_any_field_counts(rest[i]->fields);
        }
        lemma_same_filter(rest, record_outlier(), p);
        lemma_filter_len(rest, p);
        let kept = run.take(n as int) + rest.filter(p);
        assert(kept == sample(run, n, record_outlier()));
        let cut = trim_blocks(run, n);
        assert(cut.take(kept.len() as int) =~= kept);
        let out = (run.len() - kept.len()) as nat;
        assert(counted(cut.last(), out, kept.len(), (kept.len() - n) as nat));
        assert forall|i: int| 0 <= i < run.len() && record_in_trouble(#[trigger] run[i]) implies
            cut.contains(run[i]) by {
            if i < n {
                assert(cut[i] == run[i]);
            } else {
                assert(rest[i - n] == run[i]);
                lemma_filter_finds(rest, p, i - n);
                let j = choose|j: int| 0 <= j < rest.filter(p).len() && rest.filter(p)[j] == run[i];
                assert(cut[n + j] == run[i]);
            }
        }
    }
}

/// Blocks are trimmed part by part, unless the parts tear a run of records.
#[verifier::rlimit(40)]
pub proof fn law_trimming_is_additive(a: Seq<BlockView>, b: Seq<BlockView>, n: nat)
    requires
        a.len() == 0 || b.len() == 0 || !(a.last() is Record) || !(b[0] is Record),
    ensures
        trim_blocks(a + b, n) == trim_blocks(a, n) + trim_blocks(b, n),
    decreases a.len(),
{
    let all = a + b;
    if a.len() == 0 {
        assert(all =~= b);
        assert(trim_blocks(a, n) + trim_blocks(b, n) =~= trim_blocks(b, n));
    } else if a[0] is Record {
        lemma_run_len_bound(a.skip(1));
        let len = 1 + run_len(a.skip(1));
        let rest = a.skip(len as int);
        lemma_run_len_add(a.skip(1), b);
        assert(a.skip(1) + b =~= all.skip(1));
        if a.len() == 1 {
            assert(a.last() == a[0]);
        } else {
            assert(a.skip(1).last() == a.last());
        }
        assert(all.take(len as int) =~= a.take(len as int));
        assert(all.skip(len as int) =~= rest + b);
        if rest.len() > 0 {
            assert(rest.last() == a.last());
        }
        law_trimming_is_additive(rest, b, n);
        let cut = trim_run(a.take(len as int), n);
        assert(trim_blocks(a, n) == cut + trim_blocks(rest, n));
        assert(trim_blocks(all, n) == cut + trim_blocks(rest + b, n));
        lemma_add_assoc(cut, trim_blocks(rest, n), trim_blocks(b, n));
    } else {
        let rest = a.skip(1);
        assert(all.skip(1) =~= rest + b);
        if rest.len() > 0 {
            assert(rest.last() == a.last());
        }
        law_trimming_is_additive(rest, b, n);
        let cut = match a[0] {
            BlockView::Table { headers, rows } => trim_table(headers, rows, n),
            _ => seq![a[0]],
        };
        assert(trim_blocks(a, n) == cut + trim_blocks(rest, n));
        assert(trim_blocks(all, n) == cut + trim_blocks(rest + b, n));
        lemma_add_assoc(cut, trim_blocks(rest, n), trim_blocks(b, n));
    }
}

/// One part after another is one part after both.
proof fn lemma_add_assoc<A>(x: Seq<A>, y: Seq<A>, z: Seq<A>)
    ensures
        x + y + z == x + (y + z),
{
    assert(x + y + z =~= x + (y + z));
}

/// A run that ends within its blocks, or before blocks that begin otherwise, is no longer for
/// what follows.
proof fn lemma_run_len_add(a: Seq<BlockView>, b: Seq<BlockView>)
    requires
        a.len() == 0 || b.len() == 0 || !(a.last() is Record) || !(b[0] is Record),
    ensures
        b.len() == 0 || a.len() > 0 || !(b[0] is Record) ==> run_len(a + b) == run_len(a),
    decreases a.len(),
{
    let all = a + b;
    if a.len() == 0 {
        assert(all =~= b);
    } else if a[0] is Record {
        assert(all.skip(1) =~= a.skip(1) + b);
        if a.len() > 1 {
            assert(a.skip(1).last() == a.last());
        }
        lemma_run_len_add(a.skip(1), b);
    }
}

/// A block that is neither a table nor a record is never trimmed.
pub proof fn law_other_blocks_are_not_trimmed(b: BlockView, n: nat)
    requires
        !(b is Table),
        !(b is Record),
    ensures
        trim_blocks(seq![b], n) == seq![b],
{
    assert(seq![b].skip(1) =~= Seq::empty());
    assert(trim_blocks(seq![b].skip(1), n) =~= Seq::empty());
    assert(trim_blocks(seq![b], n) =~= seq![b]);
}

// ---------------------------------------------------------------------------
// Documents
// ---------------------------------------------------------------------------

/// A document that came from JSON is trimmed to twenty rows for models, and to ten in compact
/// form; any other document is not trimmed.
pub proof fn law_json_is_trimmed(doc: DocumentView)
    ensures
        doc.metadata.contains_key("format"@) && (doc.metadata["format"@] == "json"@
            || doc.metadata["format"@] == "jsonl"@) ==> llm(doc).blocks == trim_blocks(
            llm_prose(doc.blocks),
            20,
        ) && compact(doc).blocks == trim_blocks(compact_prose(doc.blocks), 10),
        !(doc.metadata.contains_key("format"@) && (doc.metadata["format"@] == "json"@
            || doc.metadata["format"@] == "jsonl"@)) ==> llm(doc).blocks == llm_prose(doc.blocks)
            && compact(doc).blocks == compact_prose(doc.blocks),
{
}

/// What trimming leaves of a table among other blocks is what it leaves of the table alone.
proof fn lemma_table_among(bs: Seq<BlockView>, i: int, n: nat)
    requires
        0 <= i < bs.len(),
        bs[i] is Table,
    ensures
        forall|b: BlockView|
            trim_blocks(seq![bs[i]], n).contains(b) ==> #[trigger] trim_blocks(bs, n).contains(b),
{
    let a = bs.take(i);
    let t = seq![bs[i]];
    let c = bs.skip(i + 1);
    law_trimming_is_additive(a, t + c, n);
    law_trimming_is_additive(t, c, n);
    assert(bs =~= a + (t + c));
    let x = trim_blocks(a, n);
    let y = trim_blocks(t, n);
    let z = trim_blocks(c, n);
    assert forall|b: BlockView| y.contains(b) implies #[trigger] trim_blocks(bs, n).contains(b) by {
        let j = choose|j: int| 0 <= j < y.len() && y[j] == b;
        assert((x + (y + z))[x.len() + j] == b);
    }
}

/// Whether blocks hold a table with these headers that shows this row.
pub open spec fn shows_row(
    bs: Seq<BlockView>,
    headers: Seq<Seq<char>>,
    row: Seq<Seq<char>>,
) -> bool {
    exists|b: BlockView| #[trigger]
        bs.contains(b) && (b matches BlockView::Table { headers: h, rows } && h == headers
            && rows.contains(row))
}

/// Whatever the profile, a row that names trouble is shown, whichever column the trouble stands
/// in and however long the table is.
pub proof fn law_trouble_is_always_shown(doc: DocumentView, i: int, k: int, c: int)
    requires
        0 <= i < doc.blocks.len(),
        doc.blocks[i] is Table,
        0 <= k < doc.blocks[i]->rows.len(),
        0 <= c < doc.blocks[i]->rows[k].len(),
        names_trouble(doc.blocks[i]->rows[k][c]),
    ensures
        shows_row(human(doc).blocks, doc.blocks[i]->headers, doc.blocks[i]->rows[k]),
        shows_row(llm(doc).blocks, doc.blocks[i]->headers, doc.blocks[i]->rows[k]),
        shows_row(compact(doc).blocks, doc.blocks[i]->headers, doc.blocks[i]->rows[k]),
{
    let t = doc.blocks[i];
    law_human_keeps_structure(doc);
    lemma_cleanup_keeps_structure(human(doc).blocks);
    lemma_merge_keeps_others(unquote_all(human(doc).blocks), None, structured());
    crate::reducers::laws::lemma_compact_keeps_structure(doc.blocks);
    lemma_structured_stays(doc.blocks, human(doc).blocks, i);
    lemma_structured_stays(doc.blocks, llm_prose(doc.blocks), i);
    lemma_structured_stays(doc.blocks, compact_prose(doc.blocks), i);
    assert(t->rows.contains(t->rows[k]));
    lemma_trimmed_shows(llm_prose(doc.blocks), t, 20, k, c);
    lemma_trimmed_shows(compact_prose(doc.blocks), t, 10, k, c);
}

/// A structured block is among any blocks with the same structure.
proof fn lemma_structured_stays(bs: Seq<BlockView>, cs: Seq<BlockView>, i: int)
    requires
        0 <= i < bs.len(),
        structured()(bs[i]),
        structure(cs) == structure(bs),
    ensures
        cs.contains(bs[i]),
{
    lemma_filter_finds(bs, structured(), i);
    let j = choose|j: int| 0 <= j < structure(bs).len() && structure(bs)[j] == bs[i];
    lemma_filter_source(cs, structured(), j);
}

/// What a filter keeps was there.
proof fn lemma_filter_source<A>(s: Seq<A>, p: spec_fn(A) -> bool, j: int)
    requires
        0 <= j < s.filter(p).len(),
    ensures
        s.contains(s.filter(p)[j]),
    decreases s.len(),
{
    if s.len() == 0 {
        reveal(Seq::filter);
    } else {
        let front = s.drop_last();
        lemma_filter_push(front, s.last(), p);
        assert(front.push(s.last()) =~= s);
        if j < front.filter(p).len() {
            lemma_filter_source(front, p, j);
            let x = s.filter(p)[j];
            let i = choose|i: int| 0 <= i < front.len() && front[i] == x;
            assert(s[i] == x);
        } else {
            assert(s[s.len() - 1] == s.filter(p)[j]);
        }
    }
}

/// Trimming shows every row that names trouble.
proof fn lemma_trimmed_shows(bs: Seq<BlockView>, t: BlockView, n: nat, k: int, c: int)
    requires
        bs.contains(t),
        t is Table,
        0 <= k < t->rows.len(),
        0 <= c < t->rows[k].len(),
        names_trouble(t->rows[k][c]),
    ensures
        shows_row(bs, t->headers, t->rows[k]),
        shows_row(trim_blocks(bs, n), t->headers, t->rows[k]),
{
    let i = choose|i: int| 0 <= i < bs.len() && bs[i] == t;
    lemma_table_among(bs, i, n);
    law_long_tables_are_cut(t->headers, t->rows, n);
    let cut = trim_blocks(seq![t], n);
    assert(t == BlockView::Table { headers: t->headers, rows: t->rows });
    assert(t->rows.contains(t->rows[k]));
    assert(cut[0]->rows.contains(t->rows[k]));
    assert(cut.contains(cut[0]));
    assert(trim_blocks(bs, n).contains(cut[0]));
}

} // verus!
