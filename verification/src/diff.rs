//! Line diff of an edited snippet (the editor's before/after view of one tool
//! edit): a longest-common-subsequence alignment, or, for long snippets, all
//! old lines deleted and all new lines inserted.
use vstd::prelude::*;
use crate::text::{chars_of, lines, lines_exec, seq_eq, string_of, find, lemma_find, find_exec};

verus! {

/// The kind of a diff row.
#[derive(Clone, Copy, PartialEq, Eq, Structural, Debug)]
pub enum DiffLineKind {
    Context,
    Delete,
    Insert,
}

/// One row of the diff: old and new line numbers, marker and text.
#[derive(Debug)]
pub struct DiffLineView {
    pub kind: DiffLineKind,
    pub old_no: Option<u32>,
    pub new_no: Option<u32>,
    pub text: String,
}

pub struct RowView {
    pub kind: DiffLineKind,
    pub old_no: Option<u32>,
    pub new_no: Option<u32>,
    pub text: Seq<char>,
}

impl View for DiffLineView {
    type V = RowView;

    open spec fn view(&self) -> RowView {
        RowView { kind: self.kind, old_no: self.old_no, new_no: self.new_no, text: self.text@ }
    }
}

pub open spec fn rows_view(rows: Seq<DiffLineView>) -> Seq<RowView> {
    rows.map_values(|r: DiffLineView| r@)
}

/// Snippets with more lines than this are shown as a whole deletion and insertion.
pub const MAX_LCS: usize = 600;

/// One step of an alignment of old lines `a` with new lines `b`.
pub enum DiffOp {
    Eq { oi: nat },
    Del { oi: nat },
    Ins { nj: nat },
}

/// The length of a longest common subsequence of `a[..i]` and `b[..j]`, by the
/// usual recurrence.
pub open spec fn lcs(a: Seq<Seq<char>>, b: Seq<Seq<char>>, i: nat, j: nat) -> nat
    decreases i + j,
{
    if i == 0 || j == 0 {
        0
    } else if a[i - 1] == b[j - 1] {
        lcs(a, b, (i - 1) as nat, (j - 1) as nat) + 1
    } else {
        let x = lcs(a, b, (i - 1) as nat, j);
        let y = lcs(a, b, i, (j - 1) as nat);
        if x >= y {
            x
        } else {
            y
        }
    }
}

/// The alignment of `a[..i]` with `b[..j]` that the diff reports: walking back
/// from the end, equal lines are kept, otherwise an insertion is preferred
/// when it loses no common line.
pub open spec fn align(a: Seq<Seq<char>>, b: Seq<Seq<char>>, i: nat, j: nat) -> Seq<DiffOp>
    decreases i + j,
{
    if i == 0 && j == 0 {
        seq![]
    } else if i > 0 && j > 0 && a[i - 1] == b[j - 1] {
        align(a, b, (i - 1) as nat, (j - 1) as nat).push(DiffOp::Eq { oi: (i - 1) as nat })
    } else if j > 0 && (i == 0 || lcs(a, b, i, (j - 1) as nat) >= lcs(a, b, (i - 1) as nat, j)) {
        align(a, b, i, (j - 1) as nat).push(DiffOp::Ins { nj: (j - 1) as nat })
    } else {
        align(a, b, (i - 1) as nat, j).push(DiffOp::Del { oi: (i - 1) as nat })
    }
}

/// All old lines deleted, then all new lines inserted.
pub open spec fn dump_ops(n: nat, m: nat) -> Seq<DiffOp> {
    Seq::new(n, |i: int| DiffOp::Del { oi: i as nat }) + Seq::new(
        m,
        |j: int| DiffOp::Ins { nj: j as nat },
    )
}

/// Old lines one step covers.
pub open spec fn old_step(op: DiffOp) -> nat {
    match op {
        DiffOp::Ins { .. } => 0,
        _ => 1,
    }
}

/// New lines one step covers.
pub open spec fn new_step(op: DiffOp) -> nat {
    match op {
        DiffOp::Del { .. } => 0,
        _ => 1,
    }
}

/// The row of one step, with old line number `o` and new line number `n`.
pub open spec fn row_of(op: DiffOp, a: Seq<Seq<char>>, b: Seq<Seq<char>>, o: nat, n: nat) -> RowView {
    match op {
        DiffOp::Eq { oi } => RowView {
            kind: DiffLineKind::Context,
            old_no: Some(o as u32),
            new_no: Some(n as u32),
            text: a[oi as int],
        },
        DiffOp::Del { oi } => RowView {
            kind: DiffLineKind::Delete,
            old_no: Some(o as u32),
            new_no: None,
            text: a[oi as int],
        },
        DiffOp::Ins { nj } => RowView {
            kind: DiffLineKind::Insert,
            old_no: None,
            new_no: Some(n as u32),
            text: b[nj as int],
        },
    }
}

/// The rows for `ops`, numbering old lines from `o` and new lines from `n`.
pub open spec fn rows_of(
    ops: Seq<DiffOp>,
    a: Seq<Seq<char>>,
    b: Seq<Seq<char>>,
    o: nat,
    n: nat,
) -> Seq<RowView>
    decreases ops.len(),
{
    if ops.len() == 0 {
        seq![]
    } else {
        seq![row_of(ops[0], a, b, o, n)] + rows_of(
            ops.drop_first(),
            a,
            b,
            o + old_step(ops[0]),
            n + new_step(ops[0]),
        )
    }
}

/// The diff rows for an edit of `old_text` into `new_text`, numbered from
/// `start`.
pub open spec fn diff_rows(old_text: Seq<char>, new_text: Seq<char>, start: u32) -> Seq<RowView> {
    let a = lines(old_text);
    let b = lines(new_text);
    if a.len() == 0 && b.len() == 0 {
        seq![
            RowView {
                kind: DiffLineKind::Context,
                old_no: Some(start),
                new_no: Some(start),
                text: seq![],
            },
        ]
    } else if a.len() > MAX_LCS || b.len() > MAX_LCS {
        rows_of(dump_ops(a.len(), b.len()), a, b, start as nat, start as nat)
    } else {
        rows_of(align(a, b, a.len(), b.len()), a, b, start as nat, start as nat)
    }
}

/// The line numbers of the diff fit in a `u32`.
pub open spec fn numbers_fit(old_text: Seq<char>, new_text: Seq<char>, start: u32) -> bool {
    start + lines(old_text).len() <= u32::MAX && start + lines(new_text).len() <= u32::MAX
}

pub proof fn lemma_lcs_bound(a: Seq<Seq<char>>, b: Seq<Seq<char>>, i: nat, j: nat)
    ensures
        lcs(a, b, i, j) <= i,
        lcs(a, b, i, j) <= j,
    decreases i + j,
{
    if i > 0 && j > 0 {
        lemma_lcs_bound(a, b, (i - 1) as nat, (j - 1) as nat);
        lemma_lcs_bound(a, b, (i - 1) as nat, j);
        lemma_lcs_bound(a, b, i, (j - 1) as nat);
    }
}

/// Line equality of two character vectors.
fn line_eq(x: &Vec<char>, y: &Vec<char>) -> (r: bool)
    ensures
        r == (x@ == y@),
{
    seq_eq(x, y)
}

pub open spec fn lines_view(v: Seq<Vec<char>>) -> Seq<Seq<char>> {
    v.map_values(|x: Vec<char>| x@)
}

/// The table `dp[i][j] == lcs(a, b, i, j)` for all `i <= n`, `j <= m`.
fn lcs_table(a: &Vec<Vec<char>>, b: &Vec<Vec<char>>) -> (dp: Vec<Vec<u32>>)
    requires
        a@.len() <= MAX_LCS,
        b@.len() <= MAX_LCS,
    ensures
        dp@.len() == a@.len() + 1,
        forall|i: int| 0 <= i <= a@.len() ==> #[trigger] dp@[i]@.len() == b@.len() + 1,
        forall|i: int, j: int|
            0 <= i <= a@.len() && 0 <= j <= b@.len() ==> #[trigger] dp@[i]@[j] == lcs(
                lines_view(a@),
                lines_view(b@),
                i as nat,
                j as nat,
            ),
{
    let ghost la = lines_view(a@);
    let ghost lb = lines_view(b@);
    let n = a.len();
    let m = b.len();
    let mut dp: Vec<Vec<u32>> = Vec::new();
    let mut first: Vec<u32> = Vec::new();
    let mut j: usize = 0;
    while j <= m
        invariant
            j <= m + 1,
            m == b@.len(),
            m <= MAX_LCS,
            first@.len() == j,
            forall|k: int| 0 <= k < j ==> first@[k] == 0,
        decreases m + 1 - j,
    {
        first.push(0);
        j += 1;
    }
    dp.push(first);
    let mut i: usize = 1;
    while i <= n
        invariant
            1 <= i <= n + 1,
            n == a@.len(),
            m == b@.len(),
            n <= MAX_LCS,
            m <= MAX_LCS,
            la == lines_view(a@),
            lb == lines_view(b@),
            dp@.len() == i,
            forall|k: int| 0 <= k < i ==> #[trigger] dp@[k]@.len() == m + 1,
            forall|k: int, t: int|
                0 <= k < i && 0 <= t <= m ==> #[trigger] dp@[k]@[t] == lcs(
                    la,
                    lb,
                    k as nat,
                    t as nat,
                ),
        decreases n + 1 - i,
    {
        let mut row: Vec<u32> = Vec::new();
        row.push(0);
        let mut j: usize = 1;
        while j <= m
            invariant
                1 <= i <= n,
                1 <= j <= m + 1,
                n == a@.len(),
                m == b@.len(),
                n <= MAX_LCS,
                m <= MAX_LCS,
                la == lines_view(a@),
                lb == lines_view(b@),
                dp@.len() == i,
                forall|k: int| 0 <= k < i ==> #[trigger] dp@[k]@.len() == m + 1,
                forall|k: int, t: int|
                    0 <= k < i && 0 <= t <= m ==> #[trigger] dp@[k]@[t] == lcs(
                        la,
                        lb,
                        k as nat,
                        t as nat,
                    ),
                row@.len() == j,
                forall|t: int| 0 <= t < j ==> #[trigger] row@[t] == lcs(la, lb, i as nat, t as nat),
            decreases m + 1 - j,
        {
            let eq = line_eq(&a[i - 1], &b[j - 1]);
            assert(la[i - 1] == a@[i - 1]@);
            assert(lb[j - 1] == b@[j - 1]@);
            let v: u32 = if eq {
                proof {
                    lemma_lcs_bound(la, lb, (i - 1) as nat, (j - 1) as nat);
                }
                dp[i - 1][j - 1] + 1
            } else {
                let x = dp[i - 1][j];
                let y = row[j - 1];
                if x >= y {
                    x
                } else {
                    y
                }
            };
            row.push(v);
            j += 1;
        }
        dp.push(row);
        i += 1;
    }
    dp
}

/// An alignment step with the line it names.
#[derive(Clone, Copy)]
pub enum Step {
    Eq(usize),
    Del(usize),
    Ins(usize),
}

impl View for Step {
    type V = DiffOp;

    open spec fn view(&self) -> DiffOp {
        match self {
            Step::Eq(i) => DiffOp::Eq { oi: *i as nat },
            Step::Del(i) => DiffOp::Del { oi: *i as nat },
            Step::Ins(j) => DiffOp::Ins { nj: *j as nat },
        }
    }
}

pub open spec fn ops_view(ops: Seq<Step>) -> Seq<DiffOp> {
    ops.map_values(|s: Step| s@)
}

/// The alignment of all of `a` with all of `b`, last step first.
fn backtrack(a: &Vec<Vec<char>>, b: &Vec<Vec<char>>, dp: &Vec<Vec<u32>>) -> (ops: Vec<Step>)
    requires
        a@.len() <= MAX_LCS,
        b@.len() <= MAX_LCS,
        dp@.len() == a@.len() + 1,
        forall|i: int| 0 <= i <= a@.len() ==> #[trigger] dp@[i]@.len() == b@.len() + 1,
        forall|i: int, j: int|
            0 <= i <= a@.len() && 0 <= j <= b@.len() ==> #[trigger] dp@[i]@[j] == lcs(
                lines_view(a@),
                lines_view(b@),
                i as nat,
                j as nat,
            ),
    ensures
        ops_view(ops@).reverse() == align(
            lines_view(a@),
            lines_view(b@),
            a@.len() as nat,
            b@.len() as nat,
        ),
{
    let ghost la = lines_view(a@);
    let ghost lb = lines_view(b@);
    let ghost full = align(la, lb, a@.len() as nat, b@.len() as nat);
    let mut ops: Vec<Step> = Vec::new();
    let mut i = a.len();
    let mut j = b.len();
    while i > 0 || j > 0
        invariant
            i <= a@.len(),
            j <= b@.len(),
            la == lines_view(a@),
            lb == lines_view(b@),
            dp@.len() == a@.len() + 1,
            forall|k: int| 0 <= k <= a@.len() ==> #[trigger] dp@[k]@.len() == b@.len() + 1,
            forall|k: int, t: int|
                0 <= k <= a@.len() && 0 <= t <= b@.len() ==> #[trigger] dp@[k]@[t] == lcs(
                    la,
                    lb,
                    k as nat,
                    t as nat,
                ),
            align(la, lb, i as nat, j as nat) + ops_view(ops@).reverse() == full,
        decreases i + j,
    {
        let ghost before = ops_view(ops@);
        let eq = i > 0 && j > 0 && line_eq(&a[i - 1], &b[j - 1]);
        if i > 0 && j > 0 {
            assert(la[i - 1] == a@[i - 1]@);
            assert(lb[j - 1] == b@[j - 1]@);
        }
        if eq {
            ops.push(Step::Eq(i - 1));
            i -= 1;
            j -= 1;
        } else if j > 0 && (i == 0 || dp[i][j - 1] >= dp[i - 1][j]) {
            ops.push(Step::Ins(j - 1));
            j -= 1;
        } else {
            ops.push(Step::Del(i - 1));
            i -= 1;
        }
        proof {
            assert(ops_view(ops@) =~= before.push(ops@.last()@));
            assert(ops_view(ops@).reverse() =~= seq![ops@.last()@] + before.reverse());
        }
    }
    proof {
        assert(align(la, lb, 0, 0) =~= Seq::<DiffOp>::empty());
        assert(ops_view(ops@).reverse() =~= full);
    }
    ops
}

/// Appends the row of one alignment step.
fn push_row(
    rows: &mut Vec<DiffLineView>,
    op: &Step,
    a: &Vec<Vec<char>>,
    b: &Vec<Vec<char>>,
    old_no: u32,
    new_no: u32,
)
    requires
        match op@ {
            DiffOp::Eq { oi } => oi < a@.len(),
            DiffOp::Del { oi } => oi < a@.len(),
            DiffOp::Ins { nj } => nj < b@.len(),
        },
    ensures
        rows_view(final(rows)@) == rows_view(old(rows)@).push(
            row_of(op@, lines_view(a@), lines_view(b@), old_no as nat, new_no as nat),
        ),
{
    let ghost before = rows_view(rows@);
    let row = match op {
        Step::Eq(oi) => DiffLineView {
            kind: DiffLineKind::Context,
            old_no: Some(old_no),
            new_no: Some(new_no),
            text: string_of(&a[*oi]),
        },
        Step::Del(oi) => DiffLineView {
            kind: DiffLineKind::Delete,
            old_no: Some(old_no),
            new_no: None,
            text: string_of(&a[*oi]),
        },
        Step::Ins(nj) => DiffLineView {
            kind: DiffLineKind::Insert,
            old_no: None,
            new_no: Some(new_no),
            text: string_of(&b[*nj]),
        },
    };
    rows.push(row);
    proof {
        assert(rows_view(rows@) =~= before.push(row@));
    }
}

/// `rows_of` of one more step.
proof fn lemma_rows_of_push(
    ops: Seq<DiffOp>,
    x: DiffOp,
    a: Seq<Seq<char>>,
    b: Seq<Seq<char>>,
    o: nat,
    n: nat,
)
    ensures
        rows_of(ops.push(x), a, b, o, n) == rows_of(ops, a, b, o, n).push(
            row_of(x, a, b, o + old_count(ops), n + new_count(ops)),
        ),
        old_count(ops.push(x)) == old_count(ops) + old_step(x),
        new_count(ops.push(x)) == new_count(ops) + new_step(x),
    decreases ops.len(),
{
    if ops.len() == 0 {
        assert(ops.push(x).drop_first() =~= Seq::<DiffOp>::empty());
        assert(ops.push(x)[0] == x);
        assert(old_count(Seq::<DiffOp>::empty()) == 0);
        assert(new_count(Seq::<DiffOp>::empty()) == 0);
        assert(rows_of(Seq::<DiffOp>::empty(), a, b, o + old_step(x), n + new_step(x))
            =~= Seq::<RowView>::empty());
        assert(rows_of(ops, a, b, o, n) =~= Seq::<RowView>::empty());
        assert(rows_of(ops.push(x), a, b, o, n) =~= seq![row_of(x, a, b, o, n)]);
    } else {
        assert(ops.push(x).drop_first() =~= ops.drop_first().push(x));
        lemma_rows_of_push(ops.drop_first(), x, a, b, o + old_step(ops[0]), n + new_step(ops[0]));
        assert(rows_of(ops.push(x), a, b, o, n) =~= rows_of(ops, a, b, o, n).push(
            row_of(x, a, b, o + old_count(ops), n + new_count(ops)),
        ));
    }
}

/// Old lines an alignment covers.
pub open spec fn old_count(ops: Seq<DiffOp>) -> nat
    decreases ops.len(),
{
    if ops.len() == 0 {
        0
    } else {
        old_step(ops[0]) + old_count(ops.drop_first())
    }
}

/// New lines an alignment covers.
pub open spec fn new_count(ops: Seq<DiffOp>) -> nat
    decreases ops.len(),
{
    if ops.len() == 0 {
        0
    } else {
        new_step(ops[0]) + new_count(ops.drop_first())
    }
}


/// Every step of `ops` names an old line below `n` or a new line below `m`.
pub open spec fn ops_in_range(ops: Seq<DiffOp>, n: nat, m: nat) -> bool {
    forall|k: int|
        0 <= k < ops.len() ==> match #[trigger] ops[k] {
            DiffOp::Eq { oi } => oi < n,
            DiffOp::Del { oi } => oi < n,
            DiffOp::Ins { nj } => nj < m,
        }
}

/// The alignment of `a[..i]` with `b[..j]` covers exactly `i` old and `j` new
/// lines and names no other line.
pub proof fn lemma_align_counts(a: Seq<Seq<char>>, b: Seq<Seq<char>>, i: nat, j: nat)
    ensures
        old_count(align(a, b, i, j)) == i,
        new_count(align(a, b, i, j)) == j,
        ops_in_range(align(a, b, i, j), i, j),
    decreases i + j,
{
    let e: Seq<Seq<char>> = seq![];
    if i == 0 && j == 0 {
        assert(old_count(Seq::<DiffOp>::empty()) == 0);
        assert(new_count(Seq::<DiffOp>::empty()) == 0);
    } else if i > 0 && j > 0 && a[i - 1] == b[j - 1] {
        let prev = align(a, b, (i - 1) as nat, (j - 1) as nat);
        lemma_align_counts(a, b, (i - 1) as nat, (j - 1) as nat);
        lemma_rows_of_push(prev, DiffOp::Eq { oi: (i - 1) as nat }, e, e, 0, 0);
    } else if j > 0 && (i == 0 || lcs(a, b, i, (j - 1) as nat) >= lcs(a, b, (i - 1) as nat, j)) {
        let prev = align(a, b, i, (j - 1) as nat);
        lemma_align_counts(a, b, i, (j - 1) as nat);
        lemma_rows_of_push(prev, DiffOp::Ins { nj: (j - 1) as nat }, e, e, 0, 0);
    } else {
        let prev = align(a, b, (i - 1) as nat, j);
        lemma_align_counts(a, b, (i - 1) as nat, j);
        lemma_rows_of_push(prev, DiffOp::Del { oi: (i - 1) as nat }, e, e, 0, 0);
    }
}

/// `dump_ops(n, m)` covers `n` old and `m` new lines.
pub proof fn lemma_dump_counts(n: nat, m: nat)
    ensures
        old_count(dump_ops(n, m)) == n,
        new_count(dump_ops(n, m)) == m,
        ops_in_range(dump_ops(n, m), n, m),
    decreases n + m,
{
    let e: Seq<Seq<char>> = seq![];
    if m > 0 {
        lemma_dump_counts(n, (m - 1) as nat);
        assert(dump_ops(n, m) =~= dump_ops(n, (m - 1) as nat).push(DiffOp::Ins { nj: (m - 1) as nat }));
        lemma_rows_of_push(dump_ops(n, (m - 1) as nat), DiffOp::Ins { nj: (m - 1) as nat }, e, e, 0, 0);
    } else if n > 0 {
        lemma_dump_counts((n - 1) as nat, 0);
        assert(dump_ops(n, 0) =~= dump_ops((n - 1) as nat, 0).push(DiffOp::Del { oi: (n - 1) as nat }));
        lemma_rows_of_push(dump_ops((n - 1) as nat, 0), DiffOp::Del { oi: (n - 1) as nat }, e, e, 0, 0);
    } else {
        assert(dump_ops(0, 0) =~= Seq::<DiffOp>::empty());
        assert(old_count(Seq::<DiffOp>::empty()) == 0);
        assert(new_count(Seq::<DiffOp>::empty()) == 0);
    }
}

/// The old-side count of a prefix is at most that of the whole.
proof fn lemma_count_prefix(ops: Seq<DiffOp>, k: int)
    requires
        0 <= k <= ops.len(),
    ensures
        old_count(ops.take(k)) <= old_count(ops),
        new_count(ops.take(k)) <= new_count(ops),
    decreases ops.len() - k,
{
    let e: Seq<Seq<char>> = seq![];
    if k < ops.len() {
        lemma_count_prefix(ops, k + 1);
        assert(ops.take(k + 1) =~= ops.take(k).push(ops[k]));
        lemma_rows_of_push(ops.take(k), ops[k], e, e, 0, 0);
    } else {
        assert(ops.take(k) =~= ops);
    }
}

/// Appends the rows of `ops` (in order), numbered from `start`.
fn emit_rows(rows: &mut Vec<DiffLineView>, ops: &Vec<Step>, a: &Vec<Vec<char>>, b: &Vec<Vec<char>>, start: u32)
    requires
        ops_in_range(ops_view(ops@), a@.len() as nat, b@.len() as nat),
        start + old_count(ops_view(ops@)) <= u32::MAX,
        start + new_count(ops_view(ops@)) <= u32::MAX,
    ensures
        rows_view(final(rows)@) == rows_view(old(rows)@) + rows_of(
            ops_view(ops@),
            lines_view(a@),
            lines_view(b@),
            start as nat,
            start as nat,
        ),
{
    let ghost ov = ops_view(ops@);
    let ghost la = lines_view(a@);
    let ghost lb = lines_view(b@);
    let mut old_no = start;
    let mut new_no = start;
    let mut k: usize = 0;
    proof {
        assert(ov.take(0) =~= Seq::<DiffOp>::empty());
        assert(old_count(Seq::<DiffOp>::empty()) == 0);
        assert(new_count(Seq::<DiffOp>::empty()) == 0);
        assert(rows_of(Seq::<DiffOp>::empty(), la, lb, start as nat, start as nat) =~= Seq::<RowView>::empty());
        assert(rows_view(old(rows)@) + Seq::<RowView>::empty() =~= rows_view(old(rows)@));
    }
    while k < ops.len()
        invariant
            k <= ops@.len(),
            ov == ops_view(ops@),
            la == lines_view(a@),
            lb == lines_view(b@),
            ops_in_range(ov, a@.len() as nat, b@.len() as nat),
            start + old_count(ov) <= u32::MAX,
            start + new_count(ov) <= u32::MAX,
            old_no == start + old_count(ov.take(k as int)),
            new_no == start + new_count(ov.take(k as int)),
            rows_view(rows@) == rows_view(old(rows)@) + rows_of(ov.take(k as int), la, lb, start as nat, start as nat),
        decreases ops.len() - k,
    {
        let op = ops[k];
        assert(ov[k as int] == op@);
        proof {
            assert(ov.take(k + 1) =~= ov.take(k as int).push(op@));
            lemma_rows_of_push(ov.take(k as int), op@, la, lb, start as nat, start as nat);
            lemma_count_prefix(ov, k + 1);
        }
        push_row(rows, &op, a, b, old_no, new_no);
        match op {
            Step::Eq(_) => {
                old_no = old_no + 1;
                new_no = new_no + 1;
            },
            Step::Del(_) => {
                old_no = old_no + 1;
            },
            Step::Ins(_) => {
                new_no = new_no + 1;
            },
        }
        k += 1;
        proof {
            assert(rows_view(rows@) =~= rows_view(old(rows)@) + rows_of(ov.take(k as int), la, lb, start as nat, start as nat));
        }
    }
    proof {
        assert(ov.take(ops@.len() as int) =~= ov);
    }
}

/// `ops` in the opposite order.
fn reversed(ops: &Vec<Step>) -> (r: Vec<Step>)
    ensures
        ops_view(r@) == ops_view(ops@).reverse(),
{
    let mut r: Vec<Step> = Vec::new();
    let mut k = ops.len();
    while k > 0
        invariant
            k <= ops@.len(),
            ops_view(r@) =~= ops_view(ops@).skip(k as int).reverse(),
        decreases k,
    {
        r.push(ops[k - 1]);
        k -= 1;
        proof {
            assert(ops_view(ops@).skip(k as int).reverse() =~= ops_view(ops@).skip(k + 1).reverse().push(ops@[k as int]@));
        }
    }
    proof {
        assert(ops_view(ops@).skip(0) =~= ops_view(ops@));
    }
    r
}

/// Appends every old line as deleted, then every new line as inserted,
/// numbered from `start_line`.
pub fn push_dump_diff(rows: &mut Vec<DiffLineView>, old_lines: &Vec<Vec<char>>, new_lines: &Vec<Vec<char>>, start_line: u32)
    requires
        start_line + old_lines@.len() <= u32::MAX,
        start_line + new_lines@.len() <= u32::MAX,
    ensures
        rows_view(final(rows)@) == rows_view(old(rows)@) + rows_of(
            dump_ops(old_lines@.len() as nat, new_lines@.len() as nat),
            lines_view(old_lines@),
            lines_view(new_lines@),
            start_line as nat,
            start_line as nat,
        ),
{
    let n = old_lines.len();
    let m = new_lines.len();
    let mut ops: Vec<Step> = Vec::new();
    let mut i: usize = 0;
    while i < n
        invariant
            i <= n,
            ops_view(ops@) =~= Seq::new(i as nat, |k: int| DiffOp::Del { oi: k as nat }),
        decreases n - i,
    {
        let ghost before = ops@;
        ops.push(Step::Del(i));
        proof {
            assert(ops_view(ops@) =~= ops_view(before).push(DiffOp::Del { oi: i as nat }));
        }
        i += 1;
    }
    let mut j: usize = 0;
    assert(dump_ops(n as nat, 0) =~= Seq::new(n as nat, |k: int| DiffOp::Del { oi: k as nat }));
    while j < m
        invariant
            j <= m,
            n == old_lines@.len(),
            ops_view(ops@) =~= dump_ops(n as nat, j as nat),
        decreases m - j,
    {
        let ghost before = ops@;
        ops.push(Step::Ins(j));
        proof {
            assert(ops_view(ops@) =~= ops_view(before).push(DiffOp::Ins { nj: j as nat }));
        }
        j += 1;
    }
    proof {
        lemma_dump_counts(n as nat, m as nat);
    }
    emit_rows(rows, &ops, old_lines, new_lines, start_line);
}

/// The rows of the diff from `old_text` to `new_text`, numbered from
/// `start_line`: an LCS alignment, all lines deleted then inserted when either
/// side has more than `MAX_LCS` lines, or one empty context row when both
/// sides are empty.
pub fn snippet_diff_lines(old_text: &str, new_text: &str, start_line: u32) -> (rows: Vec<DiffLineView>)
    requires
        numbers_fit(old_text@, new_text@, start_line),
    ensures
        rows_view(rows@) == diff_rows(old_text@, new_text@, start_line),
{
    let old_chars = chars_of(old_text);
    let new_chars = chars_of(new_text);
    let old_lines = lines_exec(&old_chars);
    let new_lines = lines_exec(&new_chars);
    proof {
        assert(lines_view(old_lines@) =~= lines(old_text@));
        assert(lines_view(new_lines@) =~= lines(new_text@));
    }
    let n = old_lines.len();
    let m = new_lines.len();
    let mut rows: Vec<DiffLineView> = Vec::new();
    if n == 0 && m == 0 {
        rows.push(DiffLineView {
            kind: DiffLineKind::Context,
            old_no: Some(start_line),
            new_no: Some(start_line),
            text: String::new(),
        });
        assert(rows_view(rows@) =~= diff_rows(old_text@, new_text@, start_line));
        return rows;
    }
    if n > MAX_LCS || m > MAX_LCS {
        push_dump_diff(&mut rows, &old_lines, &new_lines, start_line);
        assert(rows_view(rows@) =~= diff_rows(old_text@, new_text@, start_line));
        return rows;
    }
    let dp = lcs_table(&old_lines, &new_lines);
    let back = backtrack(&old_lines, &new_lines, &dp);
    let ops = reversed(&back);
    proof {
        lemma_align_counts(lines_view(old_lines@), lines_view(new_lines@), n as nat, m as nat);
    }
    emit_rows(&mut rows, &ops, &old_lines, &new_lines, start_line);
    assert(rows_view(rows@) =~= diff_rows(old_text@, new_text@, start_line));
    rows
}


// ---------------------------------------------------------------------------
// Laws of the diff
// ---------------------------------------------------------------------------

/// The texts of the rows that show an old line (context and deletions).
pub open spec fn old_texts(rows: Seq<RowView>) -> Seq<Seq<char>>
    decreases rows.len(),
{
    if rows.len() == 0 {
        seq![]
    } else if rows.last().kind != DiffLineKind::Insert {
        old_texts(rows.drop_last()).push(rows.last().text)
    } else {
        old_texts(rows.drop_last())
    }
}

/// The texts of the rows that show a new line (context and insertions).
pub open spec fn new_texts(rows: Seq<RowView>) -> Seq<Seq<char>>
    decreases rows.len(),
{
    if rows.len() == 0 {
        seq![]
    } else if rows.last().kind != DiffLineKind::Delete {
        new_texts(rows.drop_last()).push(rows.last().text)
    } else {
        new_texts(rows.drop_last())
    }
}

/// The number of context rows (lines the edit kept).
pub open spec fn context_count(rows: Seq<RowView>) -> nat
    decreases rows.len(),
{
    if rows.len() == 0 {
        0
    } else {
        context_count(rows.drop_last()) + if rows.last().kind == DiffLineKind::Context {
            1nat
        } else {
            0nat
        }
    }
}

proof fn lemma_texts_push(r: Seq<RowView>, x: RowView)
    ensures
        old_texts(r.push(x)) == if x.kind != DiffLineKind::Insert {
            old_texts(r).push(x.text)
        } else {
            old_texts(r)
        },
        new_texts(r.push(x)) == if x.kind != DiffLineKind::Delete {
            new_texts(r).push(x.text)
        } else {
            new_texts(r)
        },
        context_count(r.push(x)) == context_count(r) + if x.kind == DiffLineKind::Context {
            1nat
        } else {
            0nat
        },
{
    assert(r.push(x).drop_last() =~= r);
}

proof fn lemma_align_sides(a: Seq<Seq<char>>, b: Seq<Seq<char>>, i: nat, j: nat, o: nat, n: nat)
    requires
        i <= a.len(),
        j <= b.len(),
    ensures
        old_texts(rows_of(align(a, b, i, j), a, b, o, n)) == a.take(i as int),
        new_texts(rows_of(align(a, b, i, j), a, b, o, n)) == b.take(j as int),
        context_count(rows_of(align(a, b, i, j), a, b, o, n)) == lcs(a, b, i, j),
    decreases i + j,
{
    if i == 0 && j == 0 {
        assert(rows_of(Seq::<DiffOp>::empty(), a, b, o, n) =~= Seq::<RowView>::empty());
        assert(a.take(0) =~= Seq::<Seq<char>>::empty());
        assert(b.take(0) =~= Seq::<Seq<char>>::empty());
        assert(old_texts(Seq::<RowView>::empty()) =~= Seq::<Seq<char>>::empty());
        assert(new_texts(Seq::<RowView>::empty()) =~= Seq::<Seq<char>>::empty());
    } else if i > 0 && j > 0 && a[i - 1] == b[j - 1] {
        let prev = align(a, b, (i - 1) as nat, (j - 1) as nat);
        lemma_align_sides(a, b, (i - 1) as nat, (j - 1) as nat, o, n);
        lemma_rows_of_push(prev, DiffOp::Eq { oi: (i - 1) as nat }, a, b, o, n);
        lemma_texts_push(rows_of(prev, a, b, o, n), row_of(DiffOp::Eq { oi: (i - 1) as nat }, a, b, o + old_count(prev), n + new_count(prev)));
        assert(a.take(i as int) =~= a.take(i - 1).push(a[i - 1]));
        assert(b.take(j as int) =~= b.take(j - 1).push(b[j - 1]));
    } else if j > 0 && (i == 0 || lcs(a, b, i, (j - 1) as nat) >= lcs(a, b, (i - 1) as nat, j)) {
        let prev = align(a, b, i, (j - 1) as nat);
        lemma_align_sides(a, b, i, (j - 1) as nat, o, n);
        lemma_rows_of_push(prev, DiffOp::Ins { nj: (j - 1) as nat }, a, b, o, n);
        lemma_texts_push(rows_of(prev, a, b, o, n), row_of(DiffOp::Ins { nj: (j - 1) as nat }, a, b, o + old_count(prev), n + new_count(prev)));
        assert(b.take(j as int) =~= b.take(j - 1).push(b[j - 1]));
    } else {
        let prev = align(a, b, (i - 1) as nat, j);
        lemma_align_sides(a, b, (i - 1) as nat, j, o, n);
        lemma_rows_of_push(prev, DiffOp::Del { oi: (i - 1) as nat }, a, b, o, n);
        lemma_texts_push(rows_of(prev, a, b, o, n), row_of(DiffOp::Del { oi: (i - 1) as nat }, a, b, o + old_count(prev), n + new_count(prev)));
        assert(a.take(i as int) =~= a.take(i - 1).push(a[i - 1]));
    }
}

proof fn lemma_dump_sides(a: Seq<Seq<char>>, b: Seq<Seq<char>>, i: nat, j: nat, o: nat, n: nat)
    requires
        i <= a.len(),
        j <= b.len(),
    ensures
        old_texts(rows_of(dump_ops(i, j), a, b, o, n)) == a.take(i as int),
        new_texts(rows_of(dump_ops(i, j), a, b, o, n)) == b.take(j as int),
    decreases i + j,
{
    if j > 0 {
        lemma_dump_sides(a, b, i, (j - 1) as nat, o, n);
        assert(dump_ops(i, j) =~= dump_ops(i, (j - 1) as nat).push(DiffOp::Ins { nj: (j - 1) as nat }));
        lemma_rows_of_push(dump_ops(i, (j - 1) as nat), DiffOp::Ins { nj: (j - 1) as nat }, a, b, o, n);
        lemma_texts_push(rows_of(dump_ops(i, (j - 1) as nat), a, b, o, n), row_of(DiffOp::Ins { nj: (j - 1) as nat }, a, b, o + old_count(dump_ops(i, (j - 1) as nat)), n + new_count(dump_ops(i, (j - 1) as nat))));
        assert(b.take(j as int) =~= b.take(j - 1).push(b[j - 1]));
    } else if i > 0 {
        lemma_dump_sides(a, b, (i - 1) as nat, 0, o, n);
        assert(dump_ops(i, 0) =~= dump_ops((i - 1) as nat, 0).push(DiffOp::Del { oi: (i - 1) as nat }));
        lemma_rows_of_push(dump_ops((i - 1) as nat, 0), DiffOp::Del { oi: (i - 1) as nat }, a, b, o, n);
        lemma_texts_push(rows_of(dump_ops((i - 1) as nat, 0), a, b, o, n), row_of(DiffOp::Del { oi: (i - 1) as nat }, a, b, o + old_count(dump_ops((i - 1) as nat, 0)), n + new_count(dump_ops((i - 1) as nat, 0))));
        assert(a.take(i as int) =~= a.take(i - 1).push(a[i - 1]));
        assert(b.take(0) =~= Seq::<Seq<char>>::empty());
    } else {
        assert(dump_ops(0, 0) =~= Seq::<DiffOp>::empty());
        assert(rows_of(Seq::<DiffOp>::empty(), a, b, o, n) =~= Seq::<RowView>::empty());
        assert(a.take(0) =~= Seq::<Seq<char>>::empty());
        assert(b.take(0) =~= Seq::<Seq<char>>::empty());
        assert(old_texts(Seq::<RowView>::empty()) =~= Seq::<Seq<char>>::empty());
        assert(new_texts(Seq::<RowView>::empty()) =~= Seq::<Seq<char>>::empty());
    }
}

/// Reading the diff's old side (context and deleted rows) gives back the old
/// lines, and its new side (context and inserted rows) the new lines, whenever
/// either side has a line.
pub proof fn law_diff_sides_reconstruct(old_text: Seq<char>, new_text: Seq<char>, start: u32)
    requires
        lines(old_text).len() > 0 || lines(new_text).len() > 0,
    ensures
        old_texts(diff_rows(old_text, new_text, start)) == lines(old_text),
        new_texts(diff_rows(old_text, new_text, start)) == lines(new_text),
{
    let a = lines(old_text);
    let b = lines(new_text);
    assert(a.take(a.len() as int) =~= a);
    assert(b.take(b.len() as int) =~= b);
    if a.len() > MAX_LCS || b.len() > MAX_LCS {
        lemma_dump_sides(a, b, a.len(), b.len(), start as nat, start as nat);
    } else {
        lemma_align_sides(a, b, a.len(), b.len(), start as nat, start as nat);
    }
}

/// For snippets the diff aligns, the lines it keeps as context are as many as
/// a longest common subsequence of old and new lines has.
pub proof fn law_diff_keeps_longest_common_lines(old_text: Seq<char>, new_text: Seq<char>, start: u32)
    requires
        lines(old_text).len() > 0 || lines(new_text).len() > 0,
        lines(old_text).len() <= MAX_LCS,
        lines(new_text).len() <= MAX_LCS,
    ensures
        context_count(diff_rows(old_text, new_text, start)) == lcs(
            lines(old_text),
            lines(new_text),
            lines(old_text).len(),
            lines(new_text).len(),
        ),
{
    let a = lines(old_text);
    let b = lines(new_text);
    lemma_align_sides(a, b, a.len(), b.len(), start as nat, start as nat);
}

/// Whether the line numbers of a diff starting at `start_line` fit in a
/// `u32` (see [`numbers_fit`]).
pub fn diff_numbers_fit(old_text: &str, new_text: &str, start_line: u32) -> (r: bool)
    ensures
        r == numbers_fit(old_text@, new_text@, start_line),
{
    let a = lines_exec(&chars_of(old_text));
    let b = lines_exec(&chars_of(new_text));
    let room: u64 = (u32::MAX - start_line) as u64;
    (a.len() as u64) <= room && (b.len() as u64) <= room
}

} // verus!
